use dozer_core::connectors::events::EventsConnector;
use dozer_core::connectors::BoxedConnector;
use dozer_core::dag::{Dag, NodeKind};
use dozer_core::errors::ExecutionError;
use dozer_core::node::{
    BoxedProcessorFactory, BoxedSinkFactory, Edge, Endpoint, NodeHandle, PortHandle,
    ProcessorFactory, SinkFactory,
};

struct Relay {
    port: PortHandle,
}

impl ProcessorFactory for Relay {
    fn get_input_ports(&self) -> Vec<PortHandle> {
        vec![self.port]
    }

    fn get_output_ports(&self) -> Vec<PortHandle> {
        vec![self.port + 1]
    }
}

struct Drain;

impl SinkFactory for Drain {
    fn get_input_ports(&self) -> Vec<PortHandle> {
        vec![0]
    }
}

fn relay(port: PortHandle) -> BoxedProcessorFactory {
    BoxedProcessorFactory { factory: Box::new(Relay { port }) }
}

fn drain() -> BoxedSinkFactory {
    BoxedSinkFactory { factory: Box::new(Drain) }
}

fn events(id: u64) -> BoxedConnector {
    BoxedConnector { connector: Box::new(EventsConnector::new(id, "events".to_string())) }
}

fn node(namespace: Option<u16>, id: &str) -> NodeHandle {
    NodeHandle::new(namespace, id.to_string())
}

#[test]
fn a_new_graph_is_empty() {
    let dag = Dag::new();

    assert!(dag.nodes().is_empty());
    assert!(dag.edges().is_empty());
    assert!(!dag.contains_node(&node(None, "a")));
    assert_eq!(dag.position(&node(None, "a")), None);
}

#[test]
fn nodes_stand_in_the_order_of_their_registration() {
    let mut dag = Dag::new();
    dag.add_source(node(None, "src"), events(1));
    dag.add_processor(node(Some(1), "p"), relay(4));
    dag.add_sink(node(Some(1), "s"), drain());

    assert_eq!(dag.position(&node(None, "src")), Some(0));
    assert_eq!(dag.position(&node(Some(1), "p")), Some(1));
    assert_eq!(dag.position(&node(Some(1), "s")), Some(2));
    assert_eq!(dag.position(&node(Some(2), "p")), None);
    assert_eq!(dag.position(&node(None, "p")), None);
    assert!(dag.contains_node(&node(Some(1), "s")));
    assert!(matches!(dag.nodes()[0].kind, NodeKind::Source(_)));
    assert!(matches!(dag.nodes()[1].kind, NodeKind::Processor(_)));
    assert!(matches!(dag.nodes()[2].kind, NodeKind::Sink(_)));
}

#[test]
fn registering_under_a_handle_that_is_there_replaces_the_node_in_place() {
    let mut dag = Dag::new();
    dag.add_processor(node(Some(1), "a"), relay(1));
    dag.add_processor(node(Some(1), "b"), relay(2));
    dag.add_processor(node(Some(1), "a"), relay(3));

    assert_eq!(dag.nodes().len(), 2);
    assert_eq!(dag.nodes()[0].handle, node(Some(1), "a"));
    assert_eq!(dag.nodes()[1].handle, node(Some(1), "b"));
    match &dag.nodes()[0].kind {
        NodeKind::Processor(processor) => {
            assert_eq!(processor.factory.get_input_ports(), vec![3]);
            assert_eq!(processor.factory.get_output_ports(), vec![4]);
        }
        _ => panic!("a processor was registered"),
    }
}

#[test]
fn the_same_id_in_two_namespaces_is_two_nodes() {
    let mut dag = Dag::new();
    dag.add_sink(node(Some(1), "out"), drain());
    dag.add_sink(node(Some(2), "out"), drain());
    dag.add_sink(node(None, "out"), drain());

    assert_eq!(dag.nodes().len(), 3);
    assert_ne!(node(Some(1), "out"), node(Some(2), "out"));
    assert_ne!(node(Some(1), "out"), node(None, "out"));
}

#[test]
fn connect_appends_an_edge_between_nodes_of_the_graph() {
    let mut dag = Dag::new();
    dag.add_processor(node(Some(1), "p"), relay(0));
    dag.add_sink(node(Some(1), "s"), drain());

    let first = dag.connect(
        Endpoint::new(node(Some(1), "p"), 1),
        Endpoint::new(node(Some(1), "s"), 0),
    );
    let second = dag.connect(
        Endpoint::new(node(Some(1), "p"), 2),
        Endpoint::new(node(Some(1), "s"), 3),
    );

    assert_eq!(first, Ok(()));
    assert_eq!(second, Ok(()));
    assert_eq!(
        dag.edges().clone(),
        vec![
            Edge::new(Endpoint::new(node(Some(1), "p"), 1), Endpoint::new(node(Some(1), "s"), 0)),
            Edge::new(Endpoint::new(node(Some(1), "p"), 2), Endpoint::new(node(Some(1), "s"), 3)),
        ]
    );
}

#[test]
fn connect_refuses_an_edge_whose_start_is_missing() {
    let mut dag = Dag::new();
    dag.add_sink(node(Some(1), "s"), drain());

    let result = dag.connect(
        Endpoint::new(node(Some(1), "p"), 1),
        Endpoint::new(node(Some(1), "s"), 0),
    );

    assert_eq!(result, Err(ExecutionError::InvalidNodeHandle(node(Some(1), "p"))));
    assert!(dag.edges().is_empty());
}

#[test]
fn connect_refuses_an_edge_whose_end_is_missing() {
    let mut dag = Dag::new();
    dag.add_processor(node(Some(1), "p"), relay(0));

    let result = dag.connect(
        Endpoint::new(node(Some(1), "p"), 1),
        Endpoint::new(node(Some(2), "p"), 0),
    );

    assert_eq!(result, Err(ExecutionError::InvalidNodeHandle(node(Some(2), "p"))));
    assert!(dag.edges().is_empty());
}

#[test]
fn connect_names_the_start_when_both_ends_are_missing() {
    let mut dag = Dag::new();

    let result =
        dag.connect(Endpoint::new(node(None, "a"), 1), Endpoint::new(node(None, "b"), 0));

    assert_eq!(result, Err(ExecutionError::InvalidNodeHandle(node(None, "a"))));
}

#[test]
fn handles_endpoints_and_edges_compare_by_value() {
    let a = node(Some(1), "x");
    assert_eq!(a, a.clone());
    assert_eq!(a.namespace, Some(1));
    assert_eq!(a.id, "x");
    assert_ne!(a, node(Some(1), "y"));
    assert_ne!(a, node(None, "x"));

    let from = Endpoint::new(a.clone(), 1);
    assert_eq!(from, from.clone());
    assert_eq!(from.port, 1);
    assert_ne!(from, Endpoint::new(a.clone(), 2));
    assert_ne!(from, Endpoint::new(node(Some(2), "x"), 1));

    let edge = Edge::new(from.clone(), Endpoint::new(node(Some(1), "y"), 0));
    assert_eq!(edge, edge.clone());
    assert_eq!(edge.from, from);
    assert_eq!(edge.to, Endpoint::new(node(Some(1), "y"), 0));
    assert_ne!(edge, Edge::new(Endpoint::new(node(Some(1), "y"), 0), from));
}
