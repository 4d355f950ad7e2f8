//! The compiled execution graph: a table of nodes and a table of edges.

use vstd::prelude::*;
use crate::connectors::BoxedConnector;
use crate::errors::{ExecutionError, ExecutionErrorView};
use crate::node::{
    BoxedProcessorFactory, BoxedSinkFactory, Edge, EdgeView, Endpoint, NodeHandle,
    NodeHandleView,
};

verus! {

/// What runs at a node.
pub enum NodeKind {
    Source(BoxedConnector),
    Processor(BoxedProcessorFactory),
    Sink(BoxedSinkFactory),
}

/// A node of the graph: its handle and what runs there.
pub struct NodeType {
    pub handle: NodeHandle,
    pub kind: NodeKind,
}

/// Mathematical value of a [`NodeType`].
pub struct NodeView {
    pub handle: NodeHandleView,
    pub kind: NodeKind,
}

impl View for NodeType {
    type V = NodeView;

    open spec fn view(&self) -> NodeView {
        NodeView { handle: self.handle@, kind: self.kind }
    }
}

/// Whether some node of `nodes` has the handle `handle`.
pub open spec fn has_handle(nodes: Seq<NodeView>, handle: NodeHandleView) -> bool {
    exists|i: int| 0 <= i < nodes.len() && (#[trigger] nodes[i]).handle == handle
}

/// Whether no two nodes of `nodes` share a handle.
pub open spec fn distinct_handles(nodes: Seq<NodeView>) -> bool {
    forall|i: int, j: int|
        0 <= i < j < nodes.len() ==> (#[trigger] nodes[i]).handle != (#[trigger] nodes[j]).handle
}

/// The node table after `node` is registered: a node that already has the
/// handle is replaced where it stands, otherwise the new node goes to the end.
pub open spec fn register(nodes: Seq<NodeView>, node: NodeView) -> Seq<NodeView> {
    if has_handle(nodes, node.handle) {
        let at = choose|i: int| 0 <= i < nodes.len() && (#[trigger] nodes[i]).handle == node.handle;
        nodes.update(at, node)
    } else {
        nodes.push(node)
    }
}

/// The node table after the nodes of `added` are registered one after the
/// other, in the order of the sequence.
pub open spec fn register_all(nodes: Seq<NodeView>, added: Seq<NodeView>) -> Seq<NodeView>
    decreases added.len(),
{
    if added.len() == 0 {
        nodes
    } else {
        register(register_all(nodes, added.drop_last()), added.last())
    }
}

/// Mathematical value of a [`Dag`].
pub struct DagView {
    /// The nodes, in the order in which their handles were first registered.
    pub nodes: Seq<NodeView>,
    /// The edges, in the order in which they were connected.
    pub edges: Seq<EdgeView>,
}

impl DagView {
    /// Whether the graph holds a node with this handle.
    pub open spec fn contains_node(self, handle: NodeHandleView) -> bool {
        has_handle(self.nodes, handle)
    }

    /// Whether both ends of the edge are nodes of the graph.
    pub open spec fn joins_nodes(self, edge: EdgeView) -> bool {
        self.contains_node(edge.from.node) && self.contains_node(edge.to.node)
    }

    /// The invariant of a graph: handles are unique, and every edge joins two
    /// nodes of the graph.
    pub open spec fn wf(self) -> bool {
        &&& distinct_handles(self.nodes)
        &&& forall|k: int| 0 <= k < self.edges.len() ==> self.joins_nodes(#[trigger] self.edges[k])
    }
}

/// Registering a node keeps every handle that was there, adds the node's own
/// handle and no other, and keeps handles unique.
pub proof fn lemma_register(nodes: Seq<NodeView>, node: NodeView)
    requires
        distinct_handles(nodes),
    ensures
        distinct_handles(register(nodes, node)),
        forall|handle: NodeHandleView|
            has_handle(register(nodes, node), handle) <==> (has_handle(nodes, handle) || handle
                == node.handle),
{
    let after = register(nodes, node);
    if has_handle(nodes, node.handle) {
        let at = choose|i: int| 0 <= i < nodes.len() && (#[trigger] nodes[i]).handle == node.handle;
        assert forall|handle: NodeHandleView| has_handle(after, handle) implies (has_handle(
            nodes,
            handle,
        ) || handle == node.handle) by {
            let i = choose|i: int| 0 <= i < after.len() && (#[trigger] after[i]).handle == handle;
            if i != at {
                assert(nodes[i].handle == handle);
            }
        }
        assert forall|handle: NodeHandleView|
            (has_handle(nodes, handle) || handle == node.handle) implies has_handle(
            after,
            handle,
        ) by {
            if handle == node.handle {
                assert(after[at].handle == handle);
            } else {
                let i = choose|i: int|
                    0 <= i < nodes.len() && (#[trigger] nodes[i]).handle == handle;
                assert(after[i].handle == handle);
            }
        }
        assert forall|i: int, j: int| 0 <= i < j < after.len() implies (#[trigger] after[i]).handle
            != (#[trigger] after[j]).handle by {
            assert(after[i].handle == nodes[i].handle);
            assert(after[j].handle == nodes[j].handle);
        }
    } else {
        assert forall|handle: NodeHandleView| has_handle(after, handle) implies (has_handle(
            nodes,
            handle,
        ) || handle == node.handle) by {
            let i = choose|i: int| 0 <= i < after.len() && (#[trigger] after[i]).handle == handle;
            if i < nodes.len() {
                assert(nodes[i].handle == handle);
            }
        }
        assert forall|handle: NodeHandleView|
            (has_handle(nodes, handle) || handle == node.handle) implies has_handle(
            after,
            handle,
        ) by {
            if has_handle(nodes, handle) {
                let i = choose|i: int|
                    0 <= i < nodes.len() && (#[trigger] nodes[i]).handle == handle;
                assert(after[i].handle == handle);
            } else {
                assert(after[nodes.len() as int].handle == handle);
            }
        }
        assert forall|i: int, j: int| 0 <= i < j < after.len() implies (#[trigger] after[i]).handle
            != (#[trigger] after[j]).handle by {
            if j < nodes.len() {
                assert(after[i].handle == nodes[i].handle);
                assert(after[j].handle == nodes[j].handle);
            } else {
                assert(after[i] == nodes[i]);
            }
        }
    }
}

/// The compiled graph that the scheduler runs. No two nodes share a handle,
/// and every edge joins two nodes of the graph.
pub struct Dag {
    nodes: Vec<NodeType>,
    edges: Vec<Edge>,
}

impl View for Dag {
    type V = DagView;

    closed spec fn view(&self) -> DagView {
        DagView { nodes: node_views(self.nodes@), edges: edge_views(self.edges@) }
    }
}

/// The mathematical values of a sequence of nodes.
pub open spec fn node_views(nodes: Seq<NodeType>) -> Seq<NodeView> {
    nodes.map_values(|node: NodeType| node@)
}

/// The mathematical values of a sequence of edges.
pub open spec fn edge_views(edges: Seq<Edge>) -> Seq<EdgeView> {
    edges.map_values(|edge: Edge| edge@)
}

impl Dag {
    /// A graph without nodes and edges.
    pub fn new() -> (dag: Self)
        ensures
            dag@.nodes == Seq::<NodeView>::empty(),
            dag@.edges == Seq::<EdgeView>::empty(),
            dag@.wf(),
    {
        let dag = Dag { nodes: Vec::new(), edges: Vec::new() };
        assert(dag@.nodes =~= Seq::<NodeView>::empty());
        assert(dag@.edges =~= Seq::<EdgeView>::empty());
        dag
    }

    /// The first place in the node table at which a node with this handle
    /// stands, if there is one.
    pub fn position(&self, handle: &NodeHandle) -> (found: Option<usize>)
        ensures
            found is Some <==> self@.contains_node(handle@),
            found matches Some(i) ==> {
                &&& i < self@.nodes.len()
                &&& self@.nodes[i as int].handle == handle@
                &&& forall|k: int| 0 <= k < i ==> (#[trigger] self@.nodes[k]).handle != handle@
            },
    {
        let mut i: usize = 0;
        while i < self.nodes.len()
            invariant
                i <= self.nodes.len(),
                forall|k: int| 0 <= k < i ==> (#[trigger] self@.nodes[k]).handle != handle@,
            decreases self.nodes.len() - i,
        {
            if self.nodes[i].handle == *handle {
                return Some(i);
            }
            i = i + 1;
        }
        None
    }

    /// Whether the graph holds a node with this handle.
    pub fn contains_node(&self, handle: &NodeHandle) -> (found: bool)
        ensures
            found == self@.contains_node(handle@),
    {
        self.position(handle).is_some()
    }

    /// The nodes of the graph, in the order of the node table.
    pub fn nodes(&self) -> (nodes: &Vec<NodeType>)
        ensures
            node_views(nodes@) == self@.nodes,
    {
        &self.nodes
    }

    /// The edges of the graph, in the order in which they were connected.
    pub fn edges(&self) -> (edges: &Vec<Edge>)
        ensures
            edge_views(edges@) == self@.edges,
    {
        &self.edges
    }

    fn add_node(&mut self, handle: NodeHandle, kind: NodeKind)
        requires
            old(self)@.wf(),
        ensures
            final(self)@.nodes == register(old(self)@.nodes, (NodeView { handle: handle@, kind })),
            final(self)@.edges == old(self)@.edges,
            final(self)@.wf(),
    {
        let ghost node = NodeView { handle: handle@, kind };
        proof {
            lemma_register(self@.nodes, node);
        }
        match self.position(&handle) {
            Some(i) => {
                self.nodes.set(i, NodeType { handle, kind });
                proof {
                    let at = choose|k: int|
                        0 <= k < old(self)@.nodes.len() && (#[trigger] old(self)@.nodes[k]).handle
                            == node.handle;
                    assert(at == i) by {
                        if at < i {
                            assert(old(self)@.nodes[at].handle != old(self)@.nodes[i as int].handle);
                        } else if i < at {
                            assert(old(self)@.nodes[i as int].handle != old(self)@.nodes[at].handle);
                        }
                    }
                    assert(self@.nodes =~= old(self)@.nodes.update(i as int, node));
                }
            },
            None => {
                self.nodes.push(NodeType { handle, kind });
                assert(self@.nodes =~= old(self)@.nodes.push(node));
            },
        }
        assert(self@.edges == old(self)@.edges);
        assert forall|k: int| 0 <= k < self@.edges.len() implies self@.joins_nodes(
            #[trigger] self@.edges[k],
        ) by {
            assert(old(self)@.joins_nodes(old(self)@.edges[k]));
        }
    }

    /// Registers a source under `handle`. A node that already has the handle
    /// is replaced.
    pub fn add_source(&mut self, handle: NodeHandle, source: BoxedConnector)
        requires
            old(self)@.wf(),
        ensures
            final(self)@.nodes == register(
                old(self)@.nodes,
                (NodeView { handle: handle@, kind: NodeKind::Source(source) }),
            ),
            final(self)@.edges == old(self)@.edges,
            final(self)@.wf(),
    {
        self.add_node(handle, NodeKind::Source(source));
    }

    /// Registers a processor under `handle`. A node that already has the
    /// handle is replaced.
    pub fn add_processor(&mut self, handle: NodeHandle, processor: BoxedProcessorFactory)
        requires
            old(self)@.wf(),
        ensures
            final(self)@.nodes == register(
                old(self)@.nodes,
                (NodeView { handle: handle@, kind: NodeKind::Processor(processor) }),
            ),
            final(self)@.edges == old(self)@.edges,
            final(self)@.wf(),
    {
        self.add_node(handle, NodeKind::Processor(processor));
    }

    /// Registers a sink under `handle`. A node that already has the handle is
    /// replaced.
    pub fn add_sink(&mut self, handle: NodeHandle, sink: BoxedSinkFactory)
        requires
            old(self)@.wf(),
        ensures
            final(self)@.nodes == register(
                old(self)@.nodes,
                (NodeView { handle: handle@, kind: NodeKind::Sink(sink) }),
            ),
            final(self)@.edges == old(self)@.edges,
            final(self)@.wf(),
    {
        self.add_node(handle, NodeKind::Sink(sink));
    }

    /// Adds the edge from `from` to `to` behind the edges that are there. If
    /// the graph has no node for `from`, or else none for `to`, it fails with
    /// that handle and the graph stays as it is.
    pub fn connect(&mut self, from: Endpoint, to: Endpoint) -> (result: Result<
        (),
        ExecutionError,
    >)
        requires
            old(self)@.wf(),
        ensures
            final(self)@.wf(),
            final(self)@.nodes == old(self)@.nodes,
            match result {
                Ok(()) => {
                    &&& old(self)@.contains_node(from@.node)
                    &&& old(self)@.contains_node(to@.node)
                    &&& final(self)@.edges == old(self)@.edges.push(
                        (EdgeView { from: from@, to: to@ }),
                    )
                },
                Err(error) => {
                    &&& final(self)@.edges == old(self)@.edges
                    &&& if !old(self)@.contains_node(from@.node) {
                        error@ == ExecutionErrorView::InvalidNodeHandle(from@.node)
                    } else {
                        &&& !old(self)@.contains_node(to@.node)
                        &&& error@ == ExecutionErrorView::InvalidNodeHandle(to@.node)
                    }
                },
            },
    {
        if !self.contains_node(&from.node) {
            return Err(ExecutionError::InvalidNodeHandle(from.node));
        }
        if !self.contains_node(&to.node) {
            return Err(ExecutionError::InvalidNodeHandle(to.node));
        }
        let ghost edge = EdgeView { from: from@, to: to@ };
        self.edges.push(Edge::new(from, to));
        assert(self@.edges =~= old(self)@.edges.push(edge));
        assert forall|k: int| 0 <= k < self@.edges.len() implies self@.joins_nodes(
            #[trigger] self@.edges[k],
        ) by {
            if k < old(self)@.edges.len() {
                assert(old(self)@.joins_nodes(old(self)@.edges[k]));
            }
        }
        Ok(())
    }
}

} // verus!
