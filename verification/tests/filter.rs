use dozer_core::filter::{convert_filter, FilterClause, FilterExpression, Operator};
use serde_json::Value;

fn simple(name: &str, operator: Operator, value: Value) -> FilterExpression {
    FilterExpression::Simple(name.to_string(), operator, value)
}

fn shown(clauses: &[FilterClause]) -> Vec<(String, String, Value)> {
    clauses
        .iter()
        .map(|clause| (clause.key.to_string(), clause.operator.to_string(), clause.value.clone()))
        .collect()
}

fn row(key: &str, operator: &str, value: Value) -> (String, String, Value) {
    (key.to_string(), operator.to_string(), value)
}

#[test]
fn no_filter_has_no_clause() {
    assert!(convert_filter(None).is_empty());
}

#[test]
fn each_comparison_uses_the_query_operator_of_the_same_meaning() {
    let cases = vec![
        (Operator::LT, "$lt"),
        (Operator::LTE, "$lte"),
        (Operator::EQ, "$eq"),
        (Operator::GT, "$gt"),
        (Operator::GTE, "$gte"),
    ];
    for (operator, name) in cases {
        let filter = simple("film_id", operator, Value::from(12));

        assert!(filter.is_supported());
        assert_eq!(
            shown(&convert_filter(Some(&filter))),
            vec![row("film_id", name, Value::from(12))]
        );
    }
}

#[test]
fn contains_becomes_a_text_search() {
    let filter = simple("title", Operator::Contains, Value::from("dinosaur"));

    assert!(filter.is_supported());
    assert_eq!(
        shown(&convert_filter(Some(&filter))),
        vec![row("$text", "$search", Value::from("dinosaur"))]
    );
}

#[test]
fn a_conjunction_lists_its_comparisons_from_left_to_right() {
    let filter = FilterExpression::And(vec![
        simple("release_year", Operator::GTE, Value::from(2006)),
        FilterExpression::And(vec![
            simple("length", Operator::LT, Value::from(90)),
            FilterExpression::And(vec![]),
            simple("description", Operator::Contains, Value::from("epic")),
        ]),
        simple("rating", Operator::EQ, Value::from("PG")),
    ]);

    assert!(filter.is_supported());
    assert_eq!(
        shown(&convert_filter(Some(&filter))),
        vec![
            row("release_year", "$gte", Value::from(2006)),
            row("length", "$lt", Value::from(90)),
            row("$text", "$search", Value::from("epic")),
            row("rating", "$eq", Value::from("PG")),
        ]
    );
}

#[test]
fn an_empty_conjunction_has_no_clause() {
    let filter = FilterExpression::And(vec![]);

    assert!(filter.is_supported());
    assert!(convert_filter(Some(&filter)).is_empty());
}

#[test]
fn set_matching_operators_are_not_supported() {
    assert!(!Operator::MatchesAny.is_supported());
    assert!(!Operator::MatchesAll.is_supported());
    assert!(Operator::Contains.is_supported());
    assert!(!simple("tags", Operator::MatchesAny, Value::from("a")).is_supported());
    assert!(!simple("tags", Operator::MatchesAll, Value::from("a")).is_supported());
    assert!(!FilterExpression::And(vec![
        simple("a", Operator::EQ, Value::from(1)),
        FilterExpression::And(vec![simple("tags", Operator::MatchesAll, Value::from("a"))]),
        simple("b", Operator::EQ, Value::from(2)),
    ])
    .is_supported());
}
