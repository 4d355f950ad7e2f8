use dozer_core::app::{App, AppPipeline, PipelineEntryPoint, PipelineFlags};
use dozer_core::appsource::{get_endpoint_from_mappings, AppSourceManager, AppSourceMappings};
use dozer_core::connectors::events::EventsConnector;
use dozer_core::connectors::BoxedConnector;
use dozer_core::dag::{Dag, NodeKind};
use dozer_core::errors::ExecutionError;
use dozer_core::flags::{EnableProbabilisticOptimizations, Flags};
use dozer_core::node::{
    BoxedProcessorFactory, BoxedSinkFactory, Edge, Endpoint, NodeHandle, PortHandle,
    ProcessorFactory, SinkFactory,
};

struct TestProcessor {
    inputs: Vec<PortHandle>,
    outputs: Vec<PortHandle>,
}

impl ProcessorFactory for TestProcessor {
    fn get_input_ports(&self) -> Vec<PortHandle> {
        self.inputs.clone()
    }

    fn get_output_ports(&self) -> Vec<PortHandle> {
        self.outputs.clone()
    }
}

struct TestSink {
    inputs: Vec<PortHandle>,
}

impl SinkFactory for TestSink {
    fn get_input_ports(&self) -> Vec<PortHandle> {
        self.inputs.clone()
    }
}

fn processor(inputs: Vec<PortHandle>, outputs: Vec<PortHandle>) -> BoxedProcessorFactory {
    BoxedProcessorFactory { factory: Box::new(TestProcessor { inputs, outputs }) }
}

fn sink(inputs: Vec<PortHandle>) -> BoxedSinkFactory {
    BoxedSinkFactory { factory: Box::new(TestSink { inputs }) }
}

fn source(id: u64, name: &str) -> BoxedConnector {
    BoxedConnector { connector: Box::new(EventsConnector::new(id, name.to_string())) }
}

fn mappings(connection: &str, pairs: Vec<(&str, PortHandle)>) -> AppSourceMappings {
    AppSourceMappings::new(
        connection.to_string(),
        pairs.into_iter().map(|(name, port)| (name.to_string(), port)).collect(),
    )
}

fn handle(namespace: Option<u16>, id: &str) -> NodeHandle {
    NodeHandle::new(namespace, id.to_string())
}

fn edge(from: NodeHandle, from_port: PortHandle, to: NodeHandle, to_port: PortHandle) -> Edge {
    Edge::new(Endpoint::new(from, from_port), Endpoint::new(to, to_port))
}

fn handles(dag: &Dag) -> Vec<NodeHandle> {
    dag.nodes().iter().map(|node| node.handle.clone()).collect()
}

fn orders_pipeline() -> AppPipeline {
    let mut pipeline = AppPipeline::new_with_default_flags();
    pipeline.add_sink(
        sink(vec![0]),
        "s1",
        Some(PipelineEntryPoint::new("pg_orders".to_string(), 0)),
    );
    pipeline
}

#[test]
fn orders_pipeline_compiles_to_source_sink_and_one_edge() {
    let mut sources = AppSourceManager::new();
    sources.add(source(1, "pg1"), mappings("pg1", vec![("pg_orders", 0)]));
    let mut app = App::new(sources);
    app.add_pipeline(orders_pipeline());

    let dag = app.into_dag().unwrap();

    assert_eq!(handles(&dag), vec![handle(Some(1), "s1"), handle(None, "pg1")]);
    assert!(matches!(dag.nodes()[0].kind, NodeKind::Sink(_)));
    assert!(matches!(dag.nodes()[1].kind, NodeKind::Source(_)));
    assert_eq!(
        dag.edges().clone(),
        vec![edge(handle(None, "pg1"), 0, handle(Some(1), "s1"), 0)]
    );
}

#[test]
fn orders_pipeline_without_mappings_names_the_unresolved_source() {
    let mut app = App::new(AppSourceManager::new());
    app.add_pipeline(orders_pipeline());

    let error = app.into_dag().err().unwrap();

    assert_eq!(error, ExecutionError::UnresolvedSource("pg_orders".to_string()));
}

#[test]
fn namespaces_start_at_one_and_grow_with_every_pipeline() {
    let mut app = App::new(AppSourceManager::new());
    assert_eq!(app.pipeline_count(), 0);
    for _ in 0..3 {
        let mut pipeline = AppPipeline::new_with_default_flags();
        pipeline.add_processor(processor(vec![0], vec![1]), "p", vec![]);
        app.add_pipeline(pipeline);
    }
    assert_eq!(app.pipeline_count(), 3);

    let dag = app.into_dag().unwrap();

    assert_eq!(
        handles(&dag),
        vec![handle(Some(1), "p"), handle(Some(2), "p"), handle(Some(3), "p")]
    );
}

#[test]
fn pipelines_with_the_same_local_ids_give_distinct_nodes() {
    let mut app = App::new(AppSourceManager::new());
    for _ in 0..2 {
        let mut pipeline = AppPipeline::new_with_default_flags();
        pipeline.add_processor(processor(vec![0], vec![1]), "transform", vec![]);
        pipeline.add_sink(sink(vec![0]), "out", None);
        pipeline.connect_nodes("transform", 1, "out", 0);
        app.add_pipeline(pipeline);
    }

    let dag = app.into_dag().unwrap();

    let nodes = handles(&dag);
    assert_eq!(
        nodes,
        vec![
            handle(Some(1), "transform"),
            handle(Some(1), "out"),
            handle(Some(2), "transform"),
            handle(Some(2), "out"),
        ]
    );
    assert_ne!(nodes[0], nodes[2]);
    assert_ne!(nodes[1], nodes[3]);
    assert_eq!(
        dag.edges().clone(),
        vec![
            edge(handle(Some(1), "transform"), 1, handle(Some(1), "out"), 0),
            edge(handle(Some(2), "transform"), 1, handle(Some(2), "out"), 0),
        ]
    );
}

#[test]
fn every_entry_point_gets_exactly_one_edge_from_its_source() {
    let mut sources = AppSourceManager::new();
    sources.add(source(1, "pg1"), mappings("pg1", vec![("pg_orders", 0), ("pg_users", 1)]));
    sources.add(source(2, "kafka1"), mappings("kafka1", vec![("clicks", 4)]));
    let mut app = App::new(sources);

    let mut first = AppPipeline::new_with_default_flags();
    first.add_processor(
        processor(vec![0, 1], vec![2]),
        "join",
        vec![
            PipelineEntryPoint::new("pg_orders".to_string(), 0),
            PipelineEntryPoint::new("pg_users".to_string(), 1),
        ],
    );
    first.add_sink(sink(vec![0]), "out", None);
    first.connect_nodes("join", 2, "out", 0);
    app.add_pipeline(first);

    let mut second = AppPipeline::new_with_default_flags();
    second.add_sink(sink(vec![7]), "out", Some(PipelineEntryPoint::new("clicks".to_string(), 7)));
    app.add_pipeline(second);

    let dag = app.into_dag().unwrap();

    assert_eq!(
        handles(&dag),
        vec![
            handle(Some(1), "join"),
            handle(Some(1), "out"),
            handle(Some(2), "out"),
            handle(None, "pg1"),
            handle(None, "kafka1"),
        ]
    );
    assert_eq!(
        dag.edges().clone(),
        vec![
            edge(handle(Some(1), "join"), 2, handle(Some(1), "out"), 0),
            edge(handle(None, "pg1"), 0, handle(Some(1), "join"), 0),
            edge(handle(None, "pg1"), 1, handle(Some(1), "join"), 1),
            edge(handle(None, "kafka1"), 4, handle(Some(2), "out"), 7),
        ]
    );
    let from_sources =
        dag.edges().iter().filter(|edge| edge.from.node.namespace.is_none()).count();
    assert_eq!(from_sources, 3);
}

#[test]
fn one_unlisted_source_among_listed_ones_fails_the_compilation() {
    let mut sources = AppSourceManager::new();
    sources.add(source(1, "pg1"), mappings("pg1", vec![("pg_orders", 0)]));
    let mut app = App::new(sources);
    let mut pipeline = AppPipeline::new_with_default_flags();
    pipeline.add_processor(
        processor(vec![0, 1], vec![2]),
        "join",
        vec![
            PipelineEntryPoint::new("pg_orders".to_string(), 0),
            PipelineEntryPoint::new("pg_users".to_string(), 1),
            PipelineEntryPoint::new("pg_items".to_string(), 2),
        ],
    );
    app.add_pipeline(pipeline);

    let error = app.into_dag().err().unwrap();

    assert_eq!(error, ExecutionError::UnresolvedSource("pg_users".to_string()));
}

#[test]
fn an_edge_to_a_node_that_was_never_added_fails_the_compilation() {
    let mut app = App::new(AppSourceManager::new());
    let mut pipeline = AppPipeline::new_with_default_flags();
    pipeline.add_processor(processor(vec![0], vec![1]), "transform", vec![]);
    pipeline.connect_nodes("transform", 1, "missing", 0);
    app.add_pipeline(pipeline);

    let error = app.into_dag().err().unwrap();

    assert_eq!(error, ExecutionError::InvalidNodeHandle(handle(Some(1), "missing")));
}

#[test]
fn an_edge_from_a_node_that_was_never_added_is_reported_by_its_start() {
    let mut app = App::new(AppSourceManager::new());
    app.add_pipeline(AppPipeline::new_with_default_flags());
    let mut pipeline = AppPipeline::new_with_default_flags();
    pipeline.connect_nodes("nowhere", 1, "missing", 0);
    app.add_pipeline(pipeline);

    let error = app.into_dag().err().unwrap();

    assert_eq!(error, ExecutionError::InvalidNodeHandle(handle(Some(2), "nowhere")));
}

#[test]
fn a_dangling_edge_is_reported_before_an_unresolved_source() {
    let mut app = App::new(AppSourceManager::new());
    let mut first = AppPipeline::new_with_default_flags();
    first.add_sink(sink(vec![0]), "out", Some(PipelineEntryPoint::new("nobody".to_string(), 0)));
    app.add_pipeline(first);
    let mut second = AppPipeline::new_with_default_flags();
    second.add_sink(sink(vec![0]), "out", None);
    second.connect_nodes("out", 0, "gone", 0);
    app.add_pipeline(second);

    let error = app.into_dag().err().unwrap();

    assert_eq!(error, ExecutionError::InvalidNodeHandle(handle(Some(2), "gone")));
}

#[test]
fn an_edge_may_not_cross_into_another_pipeline() {
    let mut app = App::new(AppSourceManager::new());
    let mut first = AppPipeline::new_with_default_flags();
    first.add_sink(sink(vec![0]), "only_in_first", None);
    app.add_pipeline(first);
    let mut second = AppPipeline::new_with_default_flags();
    second.add_processor(processor(vec![0], vec![1]), "p", vec![]);
    second.connect_nodes("p", 1, "only_in_first", 0);
    app.add_pipeline(second);

    let error = app.into_dag().err().unwrap();

    assert_eq!(error, ExecutionError::InvalidNodeHandle(handle(Some(2), "only_in_first")));
}

#[test]
fn a_second_node_under_the_same_local_id_replaces_the_first() {
    let mut app = App::new(AppSourceManager::new());
    let mut pipeline = AppPipeline::new_with_default_flags();
    pipeline.add_processor(processor(vec![0], vec![1]), "a", vec![]);
    pipeline.add_processor(processor(vec![0], vec![1]), "b", vec![]);
    pipeline.add_sink(sink(vec![5]), "a", None);
    app.add_pipeline(pipeline);

    let dag = app.into_dag().unwrap();

    assert_eq!(handles(&dag), vec![handle(Some(1), "a"), handle(Some(1), "b")]);
    match &dag.nodes()[0].kind {
        NodeKind::Sink(sink) => assert_eq!(sink.factory.get_input_ports(), vec![5]),
        _ => panic!("the sink was added last under this id"),
    }
    assert!(matches!(dag.nodes()[1].kind, NodeKind::Processor(_)));
}

#[test]
fn the_graph_holds_the_factories_that_were_added() {
    let mut sources = AppSourceManager::new();
    sources.add(source(42, "events"), mappings("events", vec![("in", 3)]));
    let mut app = App::new(sources);
    let mut pipeline = AppPipeline::new_with_default_flags();
    pipeline.add_processor(
        processor(vec![10, 11], vec![12]),
        "p",
        vec![PipelineEntryPoint::new("in".to_string(), 10)],
    );
    pipeline.add_sink(sink(vec![20]), "s", None);
    app.add_pipeline(pipeline);

    let dag = app.into_dag().unwrap();

    match &dag.nodes()[0].kind {
        NodeKind::Processor(processor) => {
            assert_eq!(processor.factory.get_input_ports(), vec![10, 11]);
            assert_eq!(processor.factory.get_output_ports(), vec![12]);
        }
        _ => panic!("the first node is the processor"),
    }
    match &dag.nodes()[1].kind {
        NodeKind::Sink(sink) => assert_eq!(sink.factory.get_input_ports(), vec![20]),
        _ => panic!("the second node is the sink"),
    }
    match &dag.nodes()[2].kind {
        NodeKind::Source(source) => assert!(source.connector.start().is_ok()),
        _ => panic!("the third node is the source"),
    }
    assert_eq!(dag.edges().clone(), vec![edge(handle(None, "events"), 3, handle(Some(1), "p"), 10)]);
}

#[test]
fn an_application_without_pipelines_compiles_to_its_sources() {
    let mut sources = AppSourceManager::new();
    sources.add(source(1, "pg1"), mappings("pg1", vec![("pg_orders", 0)]));
    sources.add(source(2, "pg2"), mappings("pg2", vec![]));

    let dag = App::new(sources).into_dag().unwrap();

    assert_eq!(handles(&dag), vec![handle(None, "pg1"), handle(None, "pg2")]);
    assert!(dag.edges().is_empty());
}

#[test]
fn two_compilations_of_the_same_calls_give_the_same_graph() {
    let build = || {
        let mut sources = AppSourceManager::new();
        sources.add(source(1, "pg1"), mappings("pg1", vec![("a", 0), ("b", 1)]));
        let mut app = App::new(sources);
        let mut pipeline = AppPipeline::new_with_default_flags();
        pipeline.add_sink(sink(vec![0]), "x", Some(PipelineEntryPoint::new("b".to_string(), 0)));
        pipeline.add_processor(
            processor(vec![0], vec![1]),
            "y",
            vec![PipelineEntryPoint::new("a".to_string(), 0)],
        );
        pipeline.connect_nodes("y", 1, "x", 0);
        app.add_pipeline(pipeline);
        app.into_dag().unwrap()
    };
    let first = build();
    let second = build();

    assert_eq!(handles(&first), handles(&second));
    assert_eq!(first.edges().clone(), second.edges().clone());
    assert_eq!(
        handles(&first),
        vec![handle(Some(1), "y"), handle(Some(1), "x"), handle(None, "pg1")]
    );
    assert_eq!(
        first.edges().clone(),
        vec![
            edge(handle(Some(1), "y"), 1, handle(Some(1), "x"), 0),
            edge(handle(None, "pg1"), 1, handle(Some(1), "x"), 0),
            edge(handle(None, "pg1"), 0, handle(Some(1), "y"), 0),
        ]
    );
}

#[test]
fn a_source_name_resolves_to_the_first_mapping_that_lists_it() {
    let table = vec![
        mappings("pg1", vec![("orders", 0)]),
        mappings("pg2", vec![("orders", 5), ("users", 6)]),
    ];

    assert_eq!(
        get_endpoint_from_mappings(&table, "orders"),
        Ok(Endpoint::new(handle(None, "pg1"), 0))
    );
    assert_eq!(
        get_endpoint_from_mappings(&table, "users"),
        Ok(Endpoint::new(handle(None, "pg2"), 6))
    );
    assert_eq!(
        get_endpoint_from_mappings(&table, "items"),
        Err(ExecutionError::UnresolvedSource("items".to_string()))
    );
}

#[test]
fn the_last_pair_of_a_repeated_source_name_counts() {
    let table = mappings("pg1", vec![("orders", 0), ("users", 1), ("orders", 2)]);

    assert_eq!(table.connection(), "pg1");
    assert_eq!(table.get("orders"), Some(2));
    assert_eq!(table.get("users"), Some(1));
    assert_eq!(table.get("items"), None);
}

#[test]
fn the_source_manager_resolves_through_its_mappings() {
    let mut sources = AppSourceManager::new();
    sources.add(source(1, "pg1"), mappings("pg1", vec![("orders", 9)]));

    assert_eq!(sources.get_endpoint("orders"), Ok(Endpoint::new(handle(None, "pg1"), 9)));
    assert_eq!(
        sources.get_endpoint("users"),
        Err(ExecutionError::UnresolvedSource("users".to_string()))
    );
}

#[test]
fn entry_point_keeps_its_source_name_and_port() {
    let entry_point = PipelineEntryPoint::new("pg_orders".to_string(), 3);

    assert_eq!(entry_point.source_name(), "pg_orders");
    assert_eq!(entry_point.port(), 3);
    assert_eq!(entry_point.clone(), entry_point);
    assert_ne!(entry_point, PipelineEntryPoint::new("pg_orders".to_string(), 4));
    assert_ne!(entry_point, PipelineEntryPoint::new("pg_users".to_string(), 3));
}

#[test]
fn source_names_come_in_the_order_of_the_entry_points() {
    let mut pipeline = AppPipeline::new_with_default_flags();
    assert!(pipeline.get_entry_points_sources_names().is_empty());
    pipeline.add_processor(
        processor(vec![0, 1], vec![2]),
        "join",
        vec![
            PipelineEntryPoint::new("b".to_string(), 0),
            PipelineEntryPoint::new("a".to_string(), 1),
        ],
    );
    pipeline.add_sink(sink(vec![0]), "quiet", None);
    pipeline.add_sink(sink(vec![0]), "out", Some(PipelineEntryPoint::new("b".to_string(), 0)));

    assert_eq!(
        pipeline.get_entry_points_sources_names(),
        vec!["b".to_string(), "a".to_string(), "b".to_string()]
    );
}

#[test]
fn pipeline_flags_follow_the_application_flags() {
    let toggles =
        EnableProbabilisticOptimizations { in_sets: true, in_joins: false, in_aggregations: true };
    let flags = Flags { enable_probabilistic_optimizations: toggles };

    assert_eq!(PipelineFlags::from(&flags).enable_probabilistic_optimizations, toggles);
    assert_eq!(PipelineFlags::from(flags).enable_probabilistic_optimizations, toggles);
    assert_eq!(AppPipeline::new(PipelineFlags::from(flags)).flags(), &PipelineFlags::from(flags));
}

#[test]
fn default_flags_switch_every_optimization_off() {
    let off =
        EnableProbabilisticOptimizations { in_sets: false, in_joins: false, in_aggregations: false };

    assert_eq!(EnableProbabilisticOptimizations::default(), off);
    assert_eq!(Flags::default().enable_probabilistic_optimizations, off);
    assert_eq!(PipelineFlags::default().enable_probabilistic_optimizations, off);
    assert_eq!(AppPipeline::new_with_default_flags().flags(), &PipelineFlags::default());
}
