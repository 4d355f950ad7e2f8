//! Filter expressions of cache queries, and the clauses of the document
//! query that selects the same records.

use vstd::prelude::*;
use serde_json::Value;

verus! {

/// `serde_json::Value`, a JSON value. A filter carries the value that a field
/// is compared with and never looks inside it.
#[verifier::external_type_specification]
#[verifier::external_body]
pub struct ExValue(Value);

/// How a field is compared with a value.
#[derive(Debug, Clone, Copy, PartialEq, Eq, Structural)]
pub enum Operator {
    LT,
    LTE,
    EQ,
    GT,
    GTE,
    Contains,
    MatchesAny,
    MatchesAll,
}

/// A filter: one comparison, or several filters that must all hold.
#[derive(Debug)]
pub enum FilterExpression {
    Simple(String, Operator, Value),
    And(Vec<FilterExpression>),
}

/// One clause of a document query: under `key`, the document
/// `{ operator: value }`.
#[derive(Debug, Clone, Copy)]
pub struct FilterClause<'a> {
    pub key: &'a str,
    pub operator: &'static str,
    pub value: &'a Value,
}

/// Mathematical value of a [`FilterClause`].
pub struct FilterClauseView {
    pub key: Seq<char>,
    pub operator: Seq<char>,
    pub value: Value,
}

impl<'a> View for FilterClause<'a> {
    type V = FilterClauseView;

    open spec fn view(&self) -> FilterClauseView {
        FilterClauseView { key: self.key@, operator: self.operator@, value: *self.value }
    }
}

/// Whether a document query can express the operator.
pub open spec fn operator_supported(operator: Operator) -> bool {
    !(operator is MatchesAny || operator is MatchesAll)
}

/// The clause of one comparison. An ordering or equality test stands under
/// the name of the field, with the query operator of the same meaning; a
/// containment test is a text search.
pub open spec fn comparison_clause(name: Seq<char>, operator: Operator, value: Value) -> FilterClauseView {
    match operator {
        Operator::LT => FilterClauseView { key: name, operator: "$lt"@, value },
        Operator::LTE => FilterClauseView { key: name, operator: "$lte"@, value },
        Operator::EQ => FilterClauseView { key: name, operator: "$eq"@, value },
        Operator::GT => FilterClauseView { key: name, operator: "$gt"@, value },
        Operator::GTE => FilterClauseView { key: name, operator: "$gte"@, value },
        _ => FilterClauseView { key: "$text"@, operator: "$search"@, value },
    }
}

/// Whether a document query can express the filter: every comparison in it
/// uses a supported operator.
pub open spec fn supported(filter: FilterExpression) -> bool
    decreases filter, 0nat,
{
    match filter {
        FilterExpression::Simple(_, operator, _) => operator_supported(operator),
        FilterExpression::And(filters) => supported_prefix(filters, filters.len() as nat),
    }
}

/// Whether the first `n` filters of `filters` are supported.
pub open spec fn supported_prefix(filters: Vec<FilterExpression>, n: nat) -> bool
    decreases filters, n,
{
    if n == 0 || n > filters.len() {
        true
    } else {
        supported_prefix(filters, (n - 1) as nat) && supported(filters[n - 1])
    }
}

/// The clauses of a filter: the comparisons in it, from left to right.
pub open spec fn clauses(filter: FilterExpression) -> Seq<FilterClauseView>
    decreases filter, 0nat,
{
    match filter {
        FilterExpression::Simple(name, operator, value) => seq![
            comparison_clause(name@, operator, value),
        ],
        FilterExpression::And(filters) => clauses_prefix(filters, filters.len() as nat),
    }
}

/// The clauses of the first `n` filters of `filters`, filter after filter.
pub open spec fn clauses_prefix(filters: Vec<FilterExpression>, n: nat) -> Seq<FilterClauseView>
    decreases filters, n,
{
    if n == 0 || n > filters.len() {
        Seq::empty()
    } else {
        clauses_prefix(filters, (n - 1) as nat) + clauses(filters[n - 1])
    }
}

/// The clauses of an optional filter; no filter has no clause.
pub open spec fn optional_clauses(filter: Option<&FilterExpression>) -> Seq<FilterClauseView> {
    match filter {
        Some(filter) => clauses(*filter),
        None => Seq::empty(),
    }
}

/// The mathematical values of a sequence of clauses.
pub open spec fn clause_views(list: Seq<FilterClause>) -> Seq<FilterClauseView> {
    list.map_values(|clause: FilterClause| clause@)
}

impl Operator {
    /// Whether a document query can express the operator.
    pub fn is_supported(&self) -> (supported: bool)
        ensures
            supported == operator_supported(*self),
    {
        match self {
            Operator::MatchesAny | Operator::MatchesAll => false,
            _ => true,
        }
    }
}

impl FilterExpression {
    /// Whether a document query can express the filter.
    pub fn is_supported(&self) -> (result: bool)
        ensures
            result == supported(*self),
        decreases *self,
    {
        match self {
            FilterExpression::Simple(_, operator, _) => operator.is_supported(),
            FilterExpression::And(filters) => {
                let mut i: usize = 0;
                while i < filters.len()
                    invariant
                        i <= filters.len(),
                        *self == FilterExpression::And(*filters),
                        decreases_to!(*self => *filters),
                        supported_prefix(*filters, i as nat),
                    decreases filters.len() - i,
                {
                    assert(decreases_to!(*filters => filters[i as int]));
                    if !filters[i].is_supported() {
                        proof {
                            assert(!supported_prefix(*filters, (i + 1) as nat));
                            lemma_unsupported_prefix(*filters, (i + 1) as nat, filters.len() as nat);
                        }
                        return false;
                    }
                    i = i + 1;
                }
                true
            },
        }
    }
}

/// A prefix with an unsupported filter makes every longer prefix unsupported.
proof fn lemma_unsupported_prefix(filters: Vec<FilterExpression>, n: nat, m: nat)
    requires
        n <= m <= filters.len(),
        !supported_prefix(filters, n),
    ensures
        !supported_prefix(filters, m),
    decreases m - n,
{
    if n < m {
        lemma_unsupported_prefix(filters, n, (m - 1) as nat);
    }
}

/// Puts the clauses of `filter` behind the clauses that `list` holds.
fn push_clauses<'a>(list: &mut Vec<FilterClause<'a>>, filter: &'a FilterExpression)
    requires
        supported(*filter),
    ensures
        clause_views(final(list)@) == clause_views(old(list)@) + clauses(*filter),
    decreases *filter,
{
    match filter {
        FilterExpression::Simple(name, operator, value) => {
            let clause = match operator {
                Operator::LT => FilterClause { key: name.as_str(), operator: "$lt", value },
                Operator::LTE => FilterClause { key: name.as_str(), operator: "$lte", value },
                Operator::EQ => FilterClause { key: name.as_str(), operator: "$eq", value },
                Operator::GT => FilterClause { key: name.as_str(), operator: "$gt", value },
                Operator::GTE => FilterClause { key: name.as_str(), operator: "$gte", value },
                _ => FilterClause { key: "$text", operator: "$search", value },
            };
            list.push(clause);
            assert(clause_views(list@) =~= clause_views(old(list)@) + clauses(*filter));
        },
        FilterExpression::And(filters) => {
            let mut i: usize = 0;
            assert(clause_views(list@) + clauses_prefix(*filters, 0) =~= clause_views(list@));
            while i < filters.len()
                invariant
                    i <= filters.len(),
                    *filter == FilterExpression::And(*filters),
                    decreases_to!(*filter => *filters),
                    supported_prefix(*filters, filters.len() as nat),
                    clause_views(list@) == clause_views(old(list)@) + clauses_prefix(
                        *filters,
                        i as nat,
                    ),
                decreases filters.len() - i,
            {
                proof {
                    if !supported(filters[i as int]) {
                        assert(!supported_prefix(*filters, (i + 1) as nat));
                        lemma_unsupported_prefix(*filters, (i + 1) as nat, filters.len() as nat);
                    }
                }
                assert(decreases_to!(*filters => filters[i as int]));
                push_clauses(list, &filters[i]);
                assert(clause_views(list@) =~= clause_views(old(list)@) + clauses_prefix(
                    *filters,
                    (i + 1) as nat,
                ));
                i = i + 1;
            }
        },
    }
}

/// The clauses of the document query that selects what `filter` selects: one
/// clause for each comparison of the filter, in the order of the filter. The
/// filter must use supported operators only;
/// [`FilterExpression::is_supported`] tells whether it does.
pub fn convert_filter<'a>(filter: Option<&'a FilterExpression>) -> (list: Vec<FilterClause<'a>>)
    requires
        filter is Some ==> supported(*filter->Some_0),
    ensures
        clause_views(list@) == optional_clauses(filter),
{
    let mut list: Vec<FilterClause<'a>> = Vec::new();
    assert(clause_views(list@) =~= Seq::<FilterClauseView>::empty());
    if let Some(filter) = filter {
        push_clauses(&mut list, filter);
        assert(Seq::<FilterClauseView>::empty() + clauses(*filter) =~= clauses(*filter));
    }
    list
}

} // verus!
