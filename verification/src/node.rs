//! Addresses inside an execution graph: nodes, ports, endpoints and edges.

use vstd::prelude::*;
use vstd::std_specs::cmp::PartialEqSpecImpl;

verus! {

/// Number of an input or output port of a node. Port numbers are unique per
/// node, not across nodes.
pub type PortHandle = u16;

/// Namespace that distinguishes the nodes of one pipeline from the nodes of
/// every other pipeline of the same application.
pub type PipelineInstanceId = u16;

/// Identity of a node: a local name, optionally inside a pipeline namespace.
#[derive(Debug)]
pub struct NodeHandle {
    pub namespace: Option<PipelineInstanceId>,
    pub id: String,
}

/// Mathematical value of a [`NodeHandle`].
pub struct NodeHandleView {
    pub namespace: Option<PipelineInstanceId>,
    pub id: Seq<char>,
}

impl View for NodeHandle {
    type V = NodeHandleView;

    open spec fn view(&self) -> NodeHandleView {
        NodeHandleView { namespace: self.namespace, id: self.id@ }
    }
}

impl NodeHandle {
    pub fn new(namespace: Option<PipelineInstanceId>, id: String) -> (handle: Self)
        ensures
            handle@ == (NodeHandleView { namespace, id: id@ }),
    {
        NodeHandle { namespace, id }
    }
}

impl Clone for NodeHandle {
    fn clone(&self) -> (copy: Self)
        ensures
            copy@ == self@,
    {
        NodeHandle { namespace: self.namespace, id: self.id.clone() }
    }
}

impl PartialEq for NodeHandle {
    fn eq(&self, other: &Self) -> (equal: bool)
    {
        let same_namespace = match (self.namespace, other.namespace) {
            (None, None) => true,
            (Some(a), Some(b)) => a == b,
            _ => false,
        };
        same_namespace && self.id == other.id
    }
}

impl PartialEqSpecImpl for NodeHandle {
    open spec fn obeys_eq_spec() -> bool {
        true
    }

    open spec fn eq_spec(&self, other: &Self) -> bool {
        self@ == other@
    }
}

impl Eq for NodeHandle {}

/// One port of one node.
#[derive(Debug)]
pub struct Endpoint {
    pub node: NodeHandle,
    pub port: PortHandle,
}

/// Mathematical value of an [`Endpoint`].
pub struct EndpointView {
    pub node: NodeHandleView,
    pub port: PortHandle,
}

impl View for Endpoint {
    type V = EndpointView;

    open spec fn view(&self) -> EndpointView {
        EndpointView { node: self.node@, port: self.port }
    }
}

impl Endpoint {
    pub fn new(node: NodeHandle, port: PortHandle) -> (endpoint: Self)
        ensures
            endpoint@ == (EndpointView { node: node@, port }),
    {
        Endpoint { node, port }
    }
}

impl Clone for Endpoint {
    fn clone(&self) -> (copy: Self)
        ensures
            copy@ == self@,
    {
        Endpoint { node: self.node.clone(), port: self.port }
    }
}

impl PartialEq for Endpoint {
    fn eq(&self, other: &Self) -> (equal: bool)
    {
        self.node == other.node && self.port == other.port
    }
}

impl PartialEqSpecImpl for Endpoint {
    open spec fn obeys_eq_spec() -> bool {
        true
    }

    open spec fn eq_spec(&self, other: &Self) -> bool {
        self@ == other@
    }
}

impl Eq for Endpoint {}

/// A directed connection from an output port of one node to an input port of
/// another.
#[derive(Debug)]
pub struct Edge {
    pub from: Endpoint,
    pub to: Endpoint,
}

/// Mathematical value of an [`Edge`].
pub struct EdgeView {
    pub from: EndpointView,
    pub to: EndpointView,
}

impl View for Edge {
    type V = EdgeView;

    open spec fn view(&self) -> EdgeView {
        EdgeView { from: self.from@, to: self.to@ }
    }
}

impl Edge {
    pub fn new(from: Endpoint, to: Endpoint) -> (edge: Self)
        ensures
            edge@ == (EdgeView { from: from@, to: to@ }),
    {
        Edge { from, to }
    }
}

impl Clone for Edge {
    fn clone(&self) -> (copy: Self)
        ensures
            copy@ == self@,
    {
        Edge { from: self.from.clone(), to: self.to.clone() }
    }
}

impl PartialEq for Edge {
    fn eq(&self, other: &Self) -> (equal: bool)
    {
        self.from == other.from && self.to == other.to
    }
}

impl PartialEqSpecImpl for Edge {
    open spec fn obeys_eq_spec() -> bool {
        true
    }

    open spec fn eq_spec(&self, other: &Self) -> bool {
        self@ == other@
    }
}

impl Eq for Edge {}

/// Builds the processor that runs at a node. The graph owns the factory until
/// the scheduler takes it.
pub trait ProcessorFactory {
    /// The input ports of the processor.
    fn get_input_ports(&self) -> Vec<PortHandle>;

    /// The output ports of the processor.
    fn get_output_ports(&self) -> Vec<PortHandle>;
}

/// Builds the sink that runs at a node. A sink only takes input.
pub trait SinkFactory {
    /// The input ports of the sink.
    fn get_input_ports(&self) -> Vec<PortHandle>;
}

/// A processor factory of any kind, owned by whoever holds the value.
pub struct BoxedProcessorFactory {
    pub factory: Box<dyn ProcessorFactory>,
}

/// A sink factory of any kind, owned by whoever holds the value.
pub struct BoxedSinkFactory {
    pub factory: Box<dyn SinkFactory>,
}

} // verus!
