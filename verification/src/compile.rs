//! What compiling an application yields, stated over mathematical values:
//! the nodes and edges of the graph, and the error when there is no graph.

use vstd::prelude::*;
use crate::app::{AppPipelineView, AppView, PipelineEntryPointView};
use crate::appsource::{
    lemma_resolve, lists, resolve, AppSourceManagerView, AppSourceMappingsView,
};
use crate::dag::{
    distinct_handles, has_handle, lemma_register, register_all, DagView, NodeKind, NodeView,
};
use crate::errors::ExecutionErrorView;
use crate::node::{
    BoxedProcessorFactory, BoxedSinkFactory, EdgeView, EndpointView, NodeHandleView,
    PipelineInstanceId,
};

verus! {

/// The handle of the local node `id` inside the namespace `namespace`.
pub open spec fn namespaced_handle(namespace: PipelineInstanceId, id: Seq<char>) -> NodeHandleView {
    NodeHandleView { namespace: Some(namespace), id }
}

/// The endpoint with its node moved into the namespace `namespace`.
pub open spec fn namespaced_endpoint(
    namespace: PipelineInstanceId,
    endpoint: EndpointView,
) -> EndpointView {
    EndpointView { node: namespaced_handle(namespace, endpoint.node.id), port: endpoint.port }
}

/// The edge with both ends moved into the namespace `namespace`.
pub open spec fn namespaced_edge(namespace: PipelineInstanceId, edge: EdgeView) -> EdgeView {
    EdgeView {
        from: namespaced_endpoint(namespace, edge.from),
        to: namespaced_endpoint(namespace, edge.to),
    }
}

/// The graph node of a processor of the pipeline with namespace `namespace`.
pub open spec fn processor_node(
    namespace: PipelineInstanceId,
    entry: (NodeHandleView, BoxedProcessorFactory),
) -> NodeView {
    NodeView {
        handle: namespaced_handle(namespace, entry.0.id),
        kind: NodeKind::Processor(entry.1),
    }
}

/// The graph node of a sink of the pipeline with namespace `namespace`.
pub open spec fn sink_node(
    namespace: PipelineInstanceId,
    entry: (NodeHandleView, BoxedSinkFactory),
) -> NodeView {
    NodeView { handle: namespaced_handle(namespace, entry.0.id), kind: NodeKind::Sink(entry.1) }
}

/// The graph nodes of a list of processors.
pub open spec fn processor_nodes(
    namespace: PipelineInstanceId,
    processors: Seq<(NodeHandleView, BoxedProcessorFactory)>,
) -> Seq<NodeView> {
    Seq::new(processors.len(), |i: int| processor_node(namespace, processors[i]))
}

/// The graph nodes of a list of sinks.
pub open spec fn sink_nodes(
    namespace: PipelineInstanceId,
    sinks: Seq<(NodeHandleView, BoxedSinkFactory)>,
) -> Seq<NodeView> {
    Seq::new(sinks.len(), |i: int| sink_node(namespace, sinks[i]))
}

/// The nodes that a pipeline brings into the graph: its processors, then its
/// sinks, each under the pipeline's namespace.
pub open spec fn pipeline_nodes(
    namespace: PipelineInstanceId,
    pipeline: AppPipelineView,
) -> Seq<NodeView> {
    processor_nodes(namespace, pipeline.processors) + sink_nodes(namespace, pipeline.sinks)
}

/// The edges of `edges`, each with both ends under the namespace.
pub open spec fn namespaced_edges(namespace: PipelineInstanceId, edges: Seq<EdgeView>) -> Seq<
    EdgeView,
> {
    Seq::new(edges.len(), |i: int| namespaced_edge(namespace, edges[i]))
}

/// An entry point as the compiler resolves it: the name of the source, and
/// the endpoint that the source is to be connected to.
pub struct EntryTarget {
    pub source_name: Seq<char>,
    pub endpoint: EndpointView,
}

/// The target of one entry point of the pipeline with namespace `namespace`.
pub open spec fn entry_target(
    namespace: PipelineInstanceId,
    entry: (NodeHandleView, PipelineEntryPointView),
) -> EntryTarget {
    EntryTarget {
        source_name: entry.1.source_name,
        endpoint: EndpointView {
            node: namespaced_handle(namespace, entry.0.id),
            port: entry.1.port,
        },
    }
}

/// The targets of a list of entry points.
pub open spec fn entry_targets(
    namespace: PipelineInstanceId,
    entry_points: Seq<(NodeHandleView, PipelineEntryPointView)>,
) -> Seq<EntryTarget> {
    Seq::new(entry_points.len(), |i: int| entry_target(namespace, entry_points[i]))
}

/// The nodes of all pipelines, pipeline after pipeline.
pub open spec fn all_nodes(pipelines: Seq<(PipelineInstanceId, AppPipelineView)>) -> Seq<NodeView>
    decreases pipelines.len(),
{
    if pipelines.len() == 0 {
        Seq::empty()
    } else {
        all_nodes(pipelines.drop_last()) + pipeline_nodes(pipelines.last().0, pipelines.last().1)
    }
}

/// The internal edges of all pipelines, pipeline after pipeline.
pub open spec fn all_edges(pipelines: Seq<(PipelineInstanceId, AppPipelineView)>) -> Seq<EdgeView>
    decreases pipelines.len(),
{
    if pipelines.len() == 0 {
        Seq::empty()
    } else {
        all_edges(pipelines.drop_last()) + namespaced_edges(
            pipelines.last().0,
            pipelines.last().1.edges,
        )
    }
}

/// The entry targets of all pipelines, pipeline after pipeline.
pub open spec fn all_targets(pipelines: Seq<(PipelineInstanceId, AppPipelineView)>) -> Seq<
    EntryTarget,
>
    decreases pipelines.len(),
{
    if pipelines.len() == 0 {
        Seq::empty()
    } else {
        all_targets(pipelines.drop_last()) + entry_targets(
            pipelines.last().0,
            pipelines.last().1.entry_points,
        )
    }
}

/// The nodes of the configured sources: each source under the name of its
/// connection, outside every namespace.
pub open spec fn source_nodes(sources: AppSourceManagerView) -> Seq<NodeView> {
    Seq::new(
        sources.sources.len(),
        |i: int|
            NodeView {
                handle: NodeHandleView { namespace: None, id: sources.mappings[i].connection },
                kind: NodeKind::Source(sources.sources[i]),
            },
    )
}

/// The end of `edge` that is no node of `nodes`: the start if it is missing,
/// else the end if that is missing.
pub open spec fn missing_end(nodes: Seq<NodeView>, edge: EdgeView) -> Option<NodeHandleView> {
    if !has_handle(nodes, edge.from.node) {
        Some(edge.from.node)
    } else if !has_handle(nodes, edge.to.node) {
        Some(edge.to.node)
    } else {
        None
    }
}

/// The missing end of the first edge of `edges` that has one.
pub open spec fn first_missing_end(nodes: Seq<NodeView>, edges: Seq<EdgeView>) -> Option<
    NodeHandleView,
>
    decreases edges.len(),
{
    if edges.len() == 0 {
        None
    } else {
        match first_missing_end(nodes, edges.drop_last()) {
            Some(handle) => Some(handle),
            None => missing_end(nodes, edges.last()),
        }
    }
}

/// The first end of an internal edge of the pipeline that is no node of the
/// pipeline.
pub open spec fn dangling_end(namespace: PipelineInstanceId, pipeline: AppPipelineView) -> Option<
    NodeHandleView,
> {
    first_missing_end(
        pipeline_nodes(namespace, pipeline),
        namespaced_edges(namespace, pipeline.edges),
    )
}

/// The dangling end of the first pipeline that has one.
pub open spec fn first_dangling_end(
    pipelines: Seq<(PipelineInstanceId, AppPipelineView)>,
) -> Option<NodeHandleView>
    decreases pipelines.len(),
{
    if pipelines.len() == 0 {
        None
    } else {
        match first_dangling_end(pipelines.drop_last()) {
            Some(handle) => Some(handle),
            None => dangling_end(pipelines.last().0, pipelines.last().1),
        }
    }
}

/// The source name of the first target that no mapping lists.
pub open spec fn first_unresolved(
    mappings: Seq<AppSourceMappingsView>,
    targets: Seq<EntryTarget>,
) -> Option<Seq<char>>
    decreases targets.len(),
{
    if targets.len() == 0 {
        None
    } else {
        match first_unresolved(mappings, targets.drop_last()) {
            Some(name) => Some(name),
            None => if resolve(mappings, targets.last().source_name) is None {
                Some(targets.last().source_name)
            } else {
                None
            },
        }
    }
}

/// The edge that wires a target to the endpoint that serves its source.
pub open spec fn entry_edge(mappings: Seq<AppSourceMappingsView>, target: EntryTarget) -> EdgeView {
    EdgeView { from: resolve(mappings, target.source_name)->Some_0, to: target.endpoint }
}

/// One edge for each target, in the order of the targets.
pub open spec fn entry_edges(
    mappings: Seq<AppSourceMappingsView>,
    targets: Seq<EntryTarget>,
) -> Seq<EdgeView> {
    Seq::new(targets.len(), |i: int| entry_edge(mappings, targets[i]))
}

/// Why an application does not compile, if it does not: an internal edge
/// with an end that is no node of its pipeline, or else an entry point whose
/// source no mapping lists. The first such edge, or else the first such entry
/// point, in the order of addition, decides.
pub open spec fn compilation_error(app: AppView) -> Option<ExecutionErrorView> {
    match first_dangling_end(app.pipelines) {
        Some(handle) => Some(ExecutionErrorView::InvalidNodeHandle(handle)),
        None => match first_unresolved(app.sources.mappings, all_targets(app.pipelines)) {
            Some(name) => Some(ExecutionErrorView::UnresolvedSource(name)),
            None => None,
        },
    }
}

/// The graph that an application compiles to, when it compiles. The nodes of
/// the pipelines are registered first, then the sources; the internal edges
/// of the pipelines come first, then one edge for each entry point.
pub open spec fn compiled(app: AppView) -> DagView {
    DagView {
        nodes: register_all(Seq::empty(), all_nodes(app.pipelines) + source_nodes(app.sources)),
        edges: all_edges(app.pipelines) + entry_edges(
            app.sources.mappings,
            all_targets(app.pipelines),
        ),
    }
}

/// Registering a sequence of nodes keeps every handle that was there, adds
/// the handles of the sequence and no other, and keeps handles unique.
pub proof fn lemma_register_all(nodes: Seq<NodeView>, added: Seq<NodeView>)
    requires
        distinct_handles(nodes),
    ensures
        distinct_handles(register_all(nodes, added)),
        forall|handle: NodeHandleView|
            has_handle(register_all(nodes, added), handle) <==> (has_handle(nodes, handle)
                || has_handle(added, handle)),
    decreases added.len(),
{
    if added.len() == 0 {
        assert forall|handle: NodeHandleView| !has_handle(added, handle) by {}
    } else {
        let front = added.drop_last();
        lemma_register_all(nodes, front);
        lemma_register(register_all(nodes, front), added.last());
        assert forall|handle: NodeHandleView|
            has_handle(added, handle) <==> (has_handle(front, handle) || handle
                == added.last().handle) by {
            if has_handle(added, handle) {
                let i = choose|i: int| 0 <= i < added.len() && (#[trigger] added[i]).handle == handle;
                if i < front.len() {
                    assert(front[i].handle == handle);
                }
            }
            if has_handle(front, handle) {
                let i = choose|i: int| 0 <= i < front.len() && (#[trigger] front[i]).handle == handle;
                assert(added[i].handle == handle);
            }
            if handle == added.last().handle {
                assert(added[added.len() - 1].handle == handle);
            }
        }
    }
}

/// Registering two sequences one after the other is registering their
/// concatenation.
pub proof fn lemma_register_all_concat(
    nodes: Seq<NodeView>,
    first: Seq<NodeView>,
    second: Seq<NodeView>,
)
    ensures
        register_all(nodes, first + second) == register_all(register_all(nodes, first), second),
    decreases second.len(),
{
    if second.len() == 0 {
        assert(first + second =~= first);
    } else {
        lemma_register_all_concat(nodes, first, second.drop_last());
        assert((first + second).drop_last() =~= first + second.drop_last());
        assert((first + second).last() == second.last());
    }
}

/// Nodes whose handles are all different are registered as they stand: the
/// node table then is the sequence itself.
pub proof fn lemma_register_all_distinct(added: Seq<NodeView>)
    requires
        distinct_handles(added),
    ensures
        register_all(Seq::empty(), added) == added,
    decreases added.len(),
{
    if added.len() > 0 {
        let front = added.drop_last();
        assert forall|i: int, j: int| 0 <= i < j < front.len() implies (#[trigger] front[i]).handle
            != (#[trigger] front[j]).handle by {
            assert(added[i].handle != added[j].handle);
        }
        lemma_register_all_distinct(front);
        if has_handle(front, added.last().handle) {
            let i = choose|i: int|
                0 <= i < front.len() && (#[trigger] front[i]).handle == added.last().handle;
            assert(added[i].handle != added[added.len() - 1].handle);
        }
        assert(front.push(added.last()) =~= added);
    }
}

/// The nodes of a pipeline are the local ids that it declares, under the
/// namespace of the pipeline.
pub proof fn lemma_pipeline_nodes(
    namespace: PipelineInstanceId,
    pipeline: AppPipelineView,
    handle: NodeHandleView,
)
    ensures
        has_handle(pipeline_nodes(namespace, pipeline), handle) <==> (handle.namespace == Some(
            namespace,
        ) && pipeline.declares(handle.id)),
{
    let nodes = pipeline_nodes(namespace, pipeline);
    let processors = processor_nodes(namespace, pipeline.processors);
    let sinks = sink_nodes(namespace, pipeline.sinks);
    if has_handle(nodes, handle) {
        let i = choose|i: int| 0 <= i < nodes.len() && (#[trigger] nodes[i]).handle == handle;
        if i < processors.len() {
            assert(pipeline.processors[i].0.id == handle.id);
        } else {
            assert(pipeline.sinks[i - processors.len()].0.id == handle.id);
        }
    }
    if handle.namespace == Some(namespace) && pipeline.declares(handle.id) {
        if exists|i: int|
            0 <= i < pipeline.processors.len() && (#[trigger] pipeline.processors[i]).0.id
                == handle.id {
            let i = choose|i: int|
                0 <= i < pipeline.processors.len() && (#[trigger] pipeline.processors[i]).0.id
                    == handle.id;
            assert(nodes[i].handle == handle);
        } else {
            let i = choose|i: int|
                0 <= i < pipeline.sinks.len() && (#[trigger] pipeline.sinks[i]).0.id == handle.id;
            assert(nodes[processors.len() + i].handle == handle);
        }
    }
}

/// The nodes of all pipelines are the local ids that the pipelines declare,
/// each under the namespace of its pipeline.
pub proof fn lemma_all_nodes(
    pipelines: Seq<(PipelineInstanceId, AppPipelineView)>,
    handle: NodeHandleView,
)
    ensures
        has_handle(all_nodes(pipelines), handle) <==> exists|j: int|
            0 <= j < pipelines.len() && handle.namespace == Some((#[trigger] pipelines[j]).0)
                && pipelines[j].1.declares(handle.id),
    decreases pipelines.len(),
{
    if pipelines.len() == 0 {
    } else {
        let front = pipelines.drop_last();
        let last = pipelines.last();
        lemma_all_nodes(front, handle);
        lemma_pipeline_nodes(last.0, last.1, handle);
        let front_nodes = all_nodes(front);
        let last_nodes = pipeline_nodes(last.0, last.1);
        let nodes = all_nodes(pipelines);
        if has_handle(nodes, handle) {
            let i = choose|i: int| 0 <= i < nodes.len() && (#[trigger] nodes[i]).handle == handle;
            if i < front_nodes.len() {
                assert(front_nodes[i].handle == handle);
                let j = choose|j: int|
                    0 <= j < front.len() && handle.namespace == Some((#[trigger] front[j]).0)
                        && front[j].1.declares(handle.id);
                assert(pipelines[j] == front[j]);
            } else {
                assert(last_nodes[i - front_nodes.len()].handle == handle);
                assert(pipelines[pipelines.len() - 1] == last);
            }
        }
        if exists|j: int|
            0 <= j < pipelines.len() && handle.namespace == Some((#[trigger] pipelines[j]).0)
                && pipelines[j].1.declares(handle.id) {
            let j = choose|j: int|
                0 <= j < pipelines.len() && handle.namespace == Some((#[trigger] pipelines[j]).0)
                    && pipelines[j].1.declares(handle.id);
            if j < front.len() {
                assert(front[j] == pipelines[j]);
                let i = choose|i: int|
                    0 <= i < front_nodes.len() && (#[trigger] front_nodes[i]).handle == handle;
                assert(nodes[i].handle == handle);
            } else {
                let i = choose|i: int|
                    0 <= i < last_nodes.len() && (#[trigger] last_nodes[i]).handle == handle;
                assert(nodes[front_nodes.len() + i].handle == handle);
            }
        }
    }
}

/// An end that is missing in a prefix of the edges is the first missing end
/// of all the edges.
pub proof fn lemma_first_missing_end_prefix(nodes: Seq<NodeView>, edges: Seq<EdgeView>, n: int)
    requires
        0 <= n <= edges.len(),
        first_missing_end(nodes, edges.take(n)) is Some,
    ensures
        first_missing_end(nodes, edges) == first_missing_end(nodes, edges.take(n)),
    decreases edges.len() - n,
{
    if n < edges.len() {
        assert(edges.take(n + 1).drop_last() =~= edges.take(n));
        lemma_first_missing_end_prefix(nodes, edges, n + 1);
    } else {
        assert(edges.take(n) =~= edges);
    }
}

/// Whether an end is missing depends only on which handles the node table
/// holds.
pub proof fn lemma_first_missing_end_same(
    first: Seq<NodeView>,
    second: Seq<NodeView>,
    edges: Seq<EdgeView>,
)
    requires
        forall|k: int|
            0 <= k < edges.len() ==> (has_handle(first, (#[trigger] edges[k]).from.node)
                <==> has_handle(second, edges[k].from.node)),
        forall|k: int|
            0 <= k < edges.len() ==> (has_handle(first, (#[trigger] edges[k]).to.node)
                <==> has_handle(second, edges[k].to.node)),
    ensures
        first_missing_end(first, edges) == first_missing_end(second, edges),
    decreases edges.len(),
{
    if edges.len() > 0 {
        let front = edges.drop_last();
        assert forall|k: int| 0 <= k < front.len() implies (has_handle(
            first,
            (#[trigger] front[k]).from.node,
        ) <==> has_handle(second, front[k].from.node)) by {
            assert(front[k] == edges[k]);
        }
        assert forall|k: int| 0 <= k < front.len() implies (has_handle(
            first,
            (#[trigger] front[k]).to.node,
        ) <==> has_handle(second, front[k].to.node)) by {
            assert(front[k] == edges[k]);
        }
        lemma_first_missing_end_same(first, second, front);
        assert(edges.last() == edges[edges.len() - 1]);
    }
}

/// A dangling end among the first `n` pipelines is the first dangling end of
/// all the pipelines.
pub proof fn lemma_first_dangling_end_prefix(
    pipelines: Seq<(PipelineInstanceId, AppPipelineView)>,
    n: int,
)
    requires
        0 <= n <= pipelines.len(),
        first_dangling_end(pipelines.take(n)) is Some,
    ensures
        first_dangling_end(pipelines) == first_dangling_end(pipelines.take(n)),
    decreases pipelines.len() - n,
{
    if n < pipelines.len() {
        assert(pipelines.take(n + 1).drop_last() =~= pipelines.take(n));
        lemma_first_dangling_end_prefix(pipelines, n + 1);
    } else {
        assert(pipelines.take(n) =~= pipelines);
    }
}

/// A name that is unresolved among the first `n` targets is the first
/// unresolved name of all the targets.
pub proof fn lemma_first_unresolved_prefix(
    mappings: Seq<AppSourceMappingsView>,
    targets: Seq<EntryTarget>,
    n: int,
)
    requires
        0 <= n <= targets.len(),
        first_unresolved(mappings, targets.take(n)) is Some,
    ensures
        first_unresolved(mappings, targets) == first_unresolved(mappings, targets.take(n)),
    decreases targets.len() - n,
{
    if n < targets.len() {
        assert(targets.take(n + 1).drop_last() =~= targets.take(n));
        lemma_first_unresolved_prefix(mappings, targets, n + 1);
    } else {
        assert(targets.take(n) =~= targets);
    }
}

/// Every entry target points at a node that its pipeline declares.
pub proof fn lemma_all_targets(pipelines: Seq<(PipelineInstanceId, AppPipelineView)>, k: int)
    requires
        forall|j: int| 0 <= j < pipelines.len() ==> (#[trigger] pipelines[j]).1.wf(),
        0 <= k < all_targets(pipelines).len(),
    ensures
        has_handle(all_nodes(pipelines), all_targets(pipelines)[k].endpoint.node),
    decreases pipelines.len(),
{
    let front = pipelines.drop_last();
    let last = pipelines.last();
    let front_targets = all_targets(front);
    let node = all_targets(pipelines)[k].endpoint.node;
    lemma_all_nodes(pipelines, node);
    if k < front_targets.len() {
        assert forall|j: int| 0 <= j < front.len() implies (#[trigger] front[j]).1.wf() by {
            assert(front[j] == pipelines[j]);
        }
        lemma_all_targets(front, k);
        lemma_all_nodes(front, node);
        let j = choose|j: int|
            0 <= j < front.len() && node.namespace == Some((#[trigger] front[j]).0)
                && front[j].1.declares(node.id);
        assert(pipelines[j] == front[j]);
    } else {
        let at = k - front_targets.len();
        assert(pipelines[pipelines.len() - 1] == last);
        assert(last.1.wf());
        assert(last.1.declares(last.1.entry_points[at].0.id));
    }
}

/// No end is missing exactly if both ends of every edge are among the nodes.
pub proof fn lemma_first_missing_end(nodes: Seq<NodeView>, edges: Seq<EdgeView>)
    ensures
        first_missing_end(nodes, edges) is None <==> forall|k: int|
            0 <= k < edges.len() ==> has_handle(nodes, (#[trigger] edges[k]).from.node)
                && has_handle(nodes, edges[k].to.node),
    decreases edges.len(),
{
    if edges.len() > 0 {
        let front = edges.drop_last();
        lemma_first_missing_end(nodes, front);
        if first_missing_end(nodes, edges) is None {
            assert forall|k: int| 0 <= k < edges.len() implies has_handle(
                nodes,
                (#[trigger] edges[k]).from.node,
            ) && has_handle(nodes, edges[k].to.node) by {
                if k < front.len() {
                    assert(front[k] == edges[k]);
                }
            }
        }
        if forall|k: int|
            0 <= k < edges.len() ==> has_handle(nodes, (#[trigger] edges[k]).from.node)
                && has_handle(nodes, edges[k].to.node) {
            assert forall|k: int| 0 <= k < front.len() implies has_handle(
                nodes,
                (#[trigger] front[k]).from.node,
            ) && has_handle(nodes, front[k].to.node) by {
                assert(front[k] == edges[k]);
            }
            assert(edges.last() == edges[edges.len() - 1]);
        }
    }
}

/// A pipeline has no dangling end exactly if both ends of every one of its
/// edges are nodes that it declares.
pub proof fn lemma_dangling_end(namespace: PipelineInstanceId, pipeline: AppPipelineView)
    ensures
        dangling_end(namespace, pipeline) is None <==> pipeline.edges_declared(),
{
    let nodes = pipeline_nodes(namespace, pipeline);
    let edges = namespaced_edges(namespace, pipeline.edges);
    lemma_first_missing_end(nodes, edges);
    assert forall|k: int| 0 <= k < edges.len() implies ((has_handle(
        nodes,
        (#[trigger] edges[k]).from.node,
    ) && has_handle(nodes, edges[k].to.node)) <==> (pipeline.declares(
        pipeline.edges[k].from.node.id,
    ) && pipeline.declares(pipeline.edges[k].to.node.id))) by {
        lemma_pipeline_nodes(namespace, pipeline, edges[k].from.node);
        lemma_pipeline_nodes(namespace, pipeline, edges[k].to.node);
    }
    if pipeline.edges_declared() {
        assert forall|k: int| 0 <= k < edges.len() implies has_handle(
            nodes,
            (#[trigger] edges[k]).from.node,
        ) && has_handle(nodes, edges[k].to.node) by {
            assert(pipeline.declares(pipeline.edges[k].from.node.id));
        }
    }
    if dangling_end(namespace, pipeline) is None {
        assert forall|k: int| 0 <= k < pipeline.edges.len() implies pipeline.declares(
            (#[trigger] pipeline.edges[k]).from.node.id,
        ) && pipeline.declares(pipeline.edges[k].to.node.id) by {
            assert(has_handle(nodes, edges[k].from.node));
        }
    }
}

/// No pipeline has a dangling end exactly if every pipeline has both ends of
/// all its edges among the nodes that it declares.
pub proof fn lemma_first_dangling_end(pipelines: Seq<(PipelineInstanceId, AppPipelineView)>)
    ensures
        first_dangling_end(pipelines) is None <==> forall|j: int|
            0 <= j < pipelines.len() ==> (#[trigger] pipelines[j]).1.edges_declared(),
    decreases pipelines.len(),
{
    if pipelines.len() > 0 {
        let front = pipelines.drop_last();
        let last = pipelines.last();
        lemma_first_dangling_end(front);
        lemma_dangling_end(last.0, last.1);
        assert(pipelines[pipelines.len() - 1] == last);
        if first_dangling_end(pipelines) is None {
            assert forall|j: int| 0 <= j < pipelines.len() implies (
            #[trigger] pipelines[j]).1.edges_declared() by {
                if j < front.len() {
                    assert(front[j] == pipelines[j]);
                }
            }
        }
        if forall|j: int|
            0 <= j < pipelines.len() ==> (#[trigger] pipelines[j]).1.edges_declared() {
            assert forall|j: int| 0 <= j < front.len() implies (
            #[trigger] front[j]).1.edges_declared() by {
                assert(front[j] == pipelines[j]);
            }
        }
    }
}

/// No target is unresolved exactly if some mapping lists the source of every
/// target. Otherwise the unresolved name is the source of a target, and no
/// mapping lists it.
pub proof fn lemma_first_unresolved(
    mappings: Seq<AppSourceMappingsView>,
    targets: Seq<EntryTarget>,
)
    ensures
        first_unresolved(mappings, targets) is None <==> forall|k: int|
            0 <= k < targets.len() ==> lists(mappings, (#[trigger] targets[k]).source_name),
        first_unresolved(mappings, targets) is Some ==> {
            &&& !lists(mappings, first_unresolved(mappings, targets)->Some_0)
            &&& exists|k: int|
                0 <= k < targets.len() && (#[trigger] targets[k]).source_name == first_unresolved(
                    mappings,
                    targets,
                )->Some_0
        },
    decreases targets.len(),
{
    if targets.len() > 0 {
        let front = targets.drop_last();
        let last = targets.last();
        lemma_first_unresolved(mappings, front);
        lemma_resolve(mappings, last.source_name);
        assert(targets[targets.len() - 1] == last);
        if first_unresolved(mappings, targets) is None {
            assert forall|k: int| 0 <= k < targets.len() implies lists(
                mappings,
                (#[trigger] targets[k]).source_name,
            ) by {
                if k < front.len() {
                    assert(front[k] == targets[k]);
                }
            }
        } else {
            if first_unresolved(mappings, front) is Some {
                let k = choose|k: int|
                    0 <= k < front.len() && (#[trigger] front[k]).source_name == first_unresolved(
                        mappings,
                        front,
                    )->Some_0;
                assert(targets[k] == front[k]);
            }
        }
        if forall|k: int|
            0 <= k < targets.len() ==> lists(mappings, (#[trigger] targets[k]).source_name) {
            assert forall|k: int| 0 <= k < front.len() implies lists(
                mappings,
                (#[trigger] front[k]).source_name,
            ) by {
                assert(front[k] == targets[k]);
            }
        }
    }
}

/// Every entry point of every pipeline has its target among the targets of
/// all pipelines.
pub proof fn lemma_entry_point_has_target(
    pipelines: Seq<(PipelineInstanceId, AppPipelineView)>,
    j: int,
    k: int,
)
    requires
        0 <= j < pipelines.len(),
        0 <= k < pipelines[j].1.entry_points.len(),
    ensures
        exists|t: int|
            0 <= t < all_targets(pipelines).len() && (#[trigger] all_targets(pipelines)[t])
                == entry_target(pipelines[j].0, pipelines[j].1.entry_points[k]),
    decreases pipelines.len(),
{
    let front = pipelines.drop_last();
    let last = pipelines.last();
    let all = all_targets(pipelines);
    let front_targets = all_targets(front);
    let last_targets = entry_targets(last.0, last.1.entry_points);
    if j < front.len() {
        assert(front[j] == pipelines[j]);
        lemma_entry_point_has_target(front, j, k);
        let t = choose|t: int|
            0 <= t < front_targets.len() && (#[trigger] front_targets[t]) == entry_target(
                front[j].0,
                front[j].1.entry_points[k],
            );
        assert(all[t] == front_targets[t]);
    } else {
        assert(pipelines[j] == last);
        assert(all[front_targets.len() + k] == last_targets[k]);
    }
}

/// Every target among the targets of all pipelines comes from an entry point
/// of a pipeline.
pub proof fn lemma_target_has_entry_point(
    pipelines: Seq<(PipelineInstanceId, AppPipelineView)>,
    t: int,
) -> (at: (int, int))
    requires
        0 <= t < all_targets(pipelines).len(),
    ensures
        0 <= at.0 < pipelines.len(),
        0 <= at.1 < pipelines[at.0].1.entry_points.len(),
        all_targets(pipelines)[t] == entry_target(
            pipelines[at.0].0,
            pipelines[at.0].1.entry_points[at.1],
        ),
    decreases pipelines.len(),
{
    let front = pipelines.drop_last();
    let last = pipelines.last();
    let all = all_targets(pipelines);
    let front_targets = all_targets(front);
    let last_targets = entry_targets(last.0, last.1.entry_points);
    if t < front_targets.len() {
        assert(all[t] == front_targets[t]);
        let at = lemma_target_has_entry_point(front, t);
        assert(front[at.0] == pipelines[at.0]);
        at
    } else {
        let k = t - front_targets.len();
        let j = pipelines.len() - 1;
        assert(pipelines[j] == last);
        assert(all[t] == last_targets[k]);
        (j, k)
    }
}

/// Both ends of every internal edge of the graph lie inside a namespace.
pub proof fn lemma_internal_edges_are_namespaced(
    pipelines: Seq<(PipelineInstanceId, AppPipelineView)>,
)
    ensures
        forall|e: int|
            0 <= e < all_edges(pipelines).len() ==> (#[trigger] all_edges(
                pipelines,
            )[e]).from.node.namespace is Some && all_edges(pipelines)[e].to.node.namespace is Some,
    decreases pipelines.len(),
{
    if pipelines.len() > 0 {
        let front = pipelines.drop_last();
        let last = pipelines.last();
        lemma_internal_edges_are_namespaced(front);
        let all = all_edges(pipelines);
        let front_edges = all_edges(front);
        assert forall|e: int| 0 <= e < all.len() implies (#[trigger] all[e]).from.node.namespace is Some
            && all[e].to.node.namespace is Some by {
            if e < front_edges.len() {
                assert(all[e] == front_edges[e]);
            } else {
                assert(all[e] == namespaced_edges(last.0, last.1.edges)[e - front_edges.len()]);
            }
        }
    }
}

/// Every internal edge of the graph is an edge of a pipeline, with both ends
/// under the namespace of that pipeline.
pub proof fn lemma_internal_edge_has_pipeline(
    pipelines: Seq<(PipelineInstanceId, AppPipelineView)>,
    e: int,
) -> (at: (int, int))
    requires
        0 <= e < all_edges(pipelines).len(),
    ensures
        0 <= at.0 < pipelines.len(),
        0 <= at.1 < pipelines[at.0].1.edges.len(),
        all_edges(pipelines)[e] == namespaced_edge(
            pipelines[at.0].0,
            pipelines[at.0].1.edges[at.1],
        ),
    decreases pipelines.len(),
{
    let front = pipelines.drop_last();
    let last = pipelines.last();
    let front_edges = all_edges(front);
    if e < front_edges.len() {
        assert(all_edges(pipelines)[e] == front_edges[e]);
        let at = lemma_internal_edge_has_pipeline(front, e);
        assert(front[at.0] == pipelines[at.0]);
        at
    } else {
        let k = e - front_edges.len();
        let j = pipelines.len() - 1;
        assert(pipelines[j] == last);
        assert(all_edges(pipelines)[e] == namespaced_edges(last.0, last.1.edges)[k]);
        (j, k)
    }
}

/// The graph of an application that compiles keeps the invariant of graphs:
/// no two of its nodes share a handle, and both ends of every edge are nodes
/// of the graph. In particular every entry point is wired to a source that
/// the graph holds.
pub proof fn lemma_compiled_graph_is_well_formed(app: AppView)
    requires
        app.wf(),
        compilation_error(app) is None,
    ensures
        compiled(app).wf(),
{
    let graph = compiled(app);
    let pipelines = app.pipelines;
    let mappings = app.sources.mappings;
    let targets = all_targets(pipelines);
    let registered = all_nodes(pipelines) + source_nodes(app.sources);
    lemma_register_all(Seq::empty(), registered);
    lemma_first_dangling_end(pipelines);
    lemma_first_unresolved(mappings, targets);
    assert forall|handle: NodeHandleView| has_handle(all_nodes(pipelines), handle) implies has_handle(
        registered,
        handle,
    ) by {
        let i = choose|i: int|
            0 <= i < all_nodes(pipelines).len() && (#[trigger] all_nodes(pipelines)[i]).handle
                == handle;
        assert(registered[i].handle == handle);
    }
    assert forall|k: int| 0 <= k < graph.edges.len() implies graph.joins_nodes(
        #[trigger] graph.edges[k],
    ) by {
        let internal = all_edges(pipelines);
        if k < internal.len() {
            let at = lemma_internal_edge_has_pipeline(pipelines, k);
            let pipeline = pipelines[at.0];
            let edge = pipeline.1.edges[at.1];
            let from = graph.edges[k].from.node;
            let to = graph.edges[k].to.node;
            assert(pipeline.1.edges_declared());
            assert(pipeline.1.declares(edge.from.node.id) && pipeline.1.declares(edge.to.node.id));
            lemma_all_nodes(pipelines, from);
            lemma_all_nodes(pipelines, to);
            assert(from.namespace == Some(pipelines[at.0].0));
            assert(to.namespace == Some(pipelines[at.0].0));
            assert(has_handle(all_nodes(pipelines), from));
            assert(has_handle(all_nodes(pipelines), to));
            assert(has_handle(registered, from));
            assert(has_handle(registered, to));
        } else {
            let t = k - internal.len();
            let target = targets[t];
            assert(graph.edges[k] == entry_edge(mappings, target));
            lemma_all_targets(pipelines, t);
            lemma_resolve(mappings, target.source_name);
            let i = choose|i: int|
                0 <= i < mappings.len() && (#[trigger] mappings[i]).mappings.contains_key(
                    target.source_name,
                ) && resolve(mappings, target.source_name) == Some(
                    mappings[i].endpoint(target.source_name),
                );
            assert(app.sources.wf());
            assert(registered[all_nodes(pipelines).len() + i].handle
                == graph.edges[k].from.node);
            assert(has_handle(registered, graph.edges[k].from.node));
            assert(has_handle(all_nodes(pipelines), graph.edges[k].to.node));
            assert(has_handle(registered, graph.edges[k].to.node));
        }
    }
}

/// Namespaces keep pipelines apart: where two pipelines of an application
/// both declare the local id `id`, the graph that the application compiles to
/// holds two different nodes for it, one under the namespace of each
/// pipeline.
pub proof fn lemma_namespace_isolation(app: AppView, i: int, j: int, id: Seq<char>)
    requires
        app.wf(),
        0 <= i < j < app.pipelines.len(),
        app.pipelines[i].1.declares(id),
        app.pipelines[j].1.declares(id),
    ensures
        namespaced_handle(app.pipelines[i].0, id) != namespaced_handle(app.pipelines[j].0, id),
        exists|a: int, b: int|
            0 <= a < compiled(app).nodes.len() && 0 <= b < compiled(app).nodes.len() && a != b && (
            #[trigger] compiled(app).nodes[a]).handle == namespaced_handle(app.pipelines[i].0, id)
                && (#[trigger] compiled(app).nodes[b]).handle == namespaced_handle(
                app.pipelines[j].0,
                id,
            ),
{
    let first = namespaced_handle(app.pipelines[i].0, id);
    let second = namespaced_handle(app.pipelines[j].0, id);
    let pipeline_nodes = all_nodes(app.pipelines);
    let registered = pipeline_nodes + source_nodes(app.sources);
    let nodes = compiled(app).nodes;
    lemma_all_nodes(app.pipelines, first);
    lemma_all_nodes(app.pipelines, second);
    assert(first.namespace == Some(app.pipelines[i].0));
    assert(second.namespace == Some(app.pipelines[j].0));
    assert(has_handle(pipeline_nodes, first));
    assert(has_handle(pipeline_nodes, second));
    let x = choose|x: int|
        0 <= x < pipeline_nodes.len() && (#[trigger] pipeline_nodes[x]).handle == first;
    assert(registered[x].handle == first);
    assert(has_handle(registered, first));
    let y = choose|y: int|
        0 <= y < pipeline_nodes.len() && (#[trigger] pipeline_nodes[y]).handle == second;
    assert(registered[y].handle == second);
    assert(has_handle(registered, second));
    lemma_register_all(Seq::empty(), registered);
    assert(has_handle(nodes, first));
    assert(has_handle(nodes, second));
    let a = choose|a: int| 0 <= a < nodes.len() && (#[trigger] nodes[a]).handle == first;
    let b = choose|b: int| 0 <= b < nodes.len() && (#[trigger] nodes[b]).handle == second;
    assert(nodes[a].handle == first && nodes[b].handle == second && a != b);
}

/// The node table follows the order of addition: where no two nodes of the
/// application come under the same handle, the nodes of the graph are the
/// nodes of the pipelines, pipeline after pipeline and each pipeline's
/// processors before its sinks, followed by the sources.
pub proof fn lemma_nodes_in_order_of_addition(app: AppView)
    requires
        distinct_handles(all_nodes(app.pipelines) + source_nodes(app.sources)),
    ensures
        compiled(app).nodes == all_nodes(app.pipelines) + source_nodes(app.sources),
{
    lemma_register_all_distinct(all_nodes(app.pipelines) + source_nodes(app.sources));
}

/// An entry point whose source no mapping lists makes compilation fail.
/// Where every internal edge joins nodes of its pipeline, the error is an
/// unresolved source, and it names a source that an entry point asks for and
/// that no mapping lists.
pub proof fn lemma_unlisted_source_fails(app: AppView, j: int, k: int)
    requires
        app.wf(),
        0 <= j < app.pipelines.len(),
        0 <= k < app.pipelines[j].1.entry_points.len(),
        !lists(app.sources.mappings, app.pipelines[j].1.entry_points[k].1.source_name),
    ensures
        compilation_error(app) is Some,
        (forall|i: int|
            0 <= i < app.pipelines.len() ==> (#[trigger] app.pipelines[i]).1.edges_declared())
            ==> exists|name: Seq<char>|
            {
                &&& #[trigger] compilation_error(app) == Some(
                    ExecutionErrorView::UnresolvedSource(name),
                )
                &&& !lists(app.sources.mappings, name)
                &&& exists|t: int|
                    0 <= t < all_targets(app.pipelines).len() && (#[trigger] all_targets(
                        app.pipelines,
                    )[t]).source_name == name
            },
{
    let targets = all_targets(app.pipelines);
    lemma_entry_point_has_target(app.pipelines, j, k);
    lemma_first_unresolved(app.sources.mappings, targets);
    lemma_first_dangling_end(app.pipelines);
    let t = choose|t: int|
        0 <= t < targets.len() && (#[trigger] targets[t]) == entry_target(
            app.pipelines[j].0,
            app.pipelines[j].1.entry_points[k],
        );
    assert(!lists(app.sources.mappings, targets[t].source_name));
    assert(first_unresolved(app.sources.mappings, targets) is Some);
    if forall|i: int|
        0 <= i < app.pipelines.len() ==> (#[trigger] app.pipelines[i]).1.edges_declared() {
        let name = first_unresolved(app.sources.mappings, targets)->Some_0;
        assert(compilation_error(app) == Some(ExecutionErrorView::UnresolvedSource(name)));
    }
}

/// An application compiles when some mapping lists the source of every entry
/// point and every internal edge joins nodes of its pipeline. Its graph then
/// holds the internal edges of the pipelines and, behind them, exactly one
/// edge for each entry point: from the endpoint that serves the source, a
/// node outside every namespace, to the endpoint of the entry point. No
/// internal edge starts outside a namespace, so these are all the edges that
/// leave a source.
pub proof fn lemma_listed_sources_compile(app: AppView)
    requires
        app.wf(),
        forall|i: int|
            0 <= i < app.pipelines.len() ==> (#[trigger] app.pipelines[i]).1.edges_declared(),
        forall|j: int, k: int|
            0 <= j < app.pipelines.len() && 0 <= k < app.pipelines[j].1.entry_points.len()
                ==> lists(
                app.sources.mappings,
                (#[trigger] app.pipelines[j].1.entry_points[k]).1.source_name,
            ),
    ensures
        compilation_error(app) is None,
        compiled(app).edges == all_edges(app.pipelines) + entry_edges(
            app.sources.mappings,
            all_targets(app.pipelines),
        ),
        entry_edges(app.sources.mappings, all_targets(app.pipelines)).len() == all_targets(
            app.pipelines,
        ).len(),
        forall|t: int|
            0 <= t < all_targets(app.pipelines).len() ==> {
                let target = #[trigger] all_targets(app.pipelines)[t];
                let edge = entry_edges(app.sources.mappings, all_targets(app.pipelines))[t];
                &&& resolve(app.sources.mappings, target.source_name) == Some(edge.from)
                &&& edge.from.node.namespace is None
                &&& edge.to == target.endpoint
            },
        forall|e: int|
            0 <= e < all_edges(app.pipelines).len() ==> (#[trigger] all_edges(
                app.pipelines,
            )[e]).from.node.namespace is Some,
{
    let targets = all_targets(app.pipelines);
    let mappings = app.sources.mappings;
    lemma_first_dangling_end(app.pipelines);
    lemma_internal_edges_are_namespaced(app.pipelines);
    assert forall|t: int| 0 <= t < targets.len() implies lists(
        mappings,
        (#[trigger] targets[t]).source_name,
    ) by {
        let at = lemma_target_has_entry_point(app.pipelines, t);
        assert(lists(mappings, app.pipelines[at.0].1.entry_points[at.1].1.source_name));
    }
    lemma_first_unresolved(mappings, targets);
    assert forall|t: int| 0 <= t < targets.len() implies {
        let target = #[trigger] targets[t];
        let edge = entry_edges(mappings, targets)[t];
        &&& resolve(mappings, target.source_name) == Some(edge.from)
        &&& edge.from.node.namespace is None
        &&& edge.to == target.endpoint
    } by {
        lemma_resolve(mappings, targets[t].source_name);
    }
}

} // verus!
