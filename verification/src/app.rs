//! Pipelines, and the application that compiles them into one graph.

use vstd::prelude::*;
use vstd::std_specs::cmp::PartialEqSpecImpl;
use vstd::std_specs::convert::FromSpecImpl;
use crate::appsource::{
    get_endpoint_from_mappings, lemma_resolve, resolve, table_view, AppSourceManager,
    AppSourceManagerView, AppSourceMappings,
};
use crate::compile::{
    all_edges, all_nodes, all_targets, compilation_error, compiled, dangling_end, entry_edge,
    entry_edges, entry_target, entry_targets, first_dangling_end, first_missing_end,
    first_unresolved, lemma_all_nodes, lemma_all_targets, lemma_first_dangling_end_prefix,
    lemma_first_missing_end_prefix, lemma_first_missing_end_same, lemma_first_unresolved_prefix,
    lemma_register_all, lemma_register_all_concat, namespaced_edge, namespaced_edges,
    pipeline_nodes, processor_node, processor_nodes, sink_node, sink_nodes, source_nodes,
    EntryTarget,
};
use crate::connectors::BoxedConnector;
use crate::dag::{edge_views, has_handle, register_all, Dag};
use crate::errors::{ExecutionError, ExecutionErrorView};
use crate::flags::{EnableProbabilisticOptimizations, Flags};
use crate::node::{
    BoxedProcessorFactory, BoxedSinkFactory, Edge, EdgeView, Endpoint, EndpointView, NodeHandle,
    NodeHandleView, PipelineInstanceId, PortHandle,
};

verus! {

/// A promise that the source named `source_name` will be wired to a port of a
/// node when the application is compiled.
#[derive(Debug)]
pub struct PipelineEntryPoint {
    source_name: String,
    /// Target port.
    port: PortHandle,
}

/// Mathematical value of a [`PipelineEntryPoint`].
pub struct PipelineEntryPointView {
    pub source_name: Seq<char>,
    pub port: PortHandle,
}

impl View for PipelineEntryPoint {
    type V = PipelineEntryPointView;

    closed spec fn view(&self) -> PipelineEntryPointView {
        PipelineEntryPointView { source_name: self.source_name@, port: self.port }
    }
}

impl PipelineEntryPoint {
    pub fn new(source_name: String, port: PortHandle) -> (entry_point: Self)
        ensures
            entry_point@ == (PipelineEntryPointView { source_name: source_name@, port }),
    {
        Self { source_name, port }
    }

    pub fn source_name(&self) -> (name: &str)
        ensures
            name@ == self@.source_name,
    {
        self.source_name.as_str()
    }

    pub fn port(&self) -> (port: PortHandle)
        ensures
            port == self@.port,
    {
        self.port
    }
}

impl Clone for PipelineEntryPoint {
    fn clone(&self) -> (copy: Self)
        ensures
            copy@ == self@,
    {
        PipelineEntryPoint { source_name: self.source_name.clone(), port: self.port }
    }
}

impl PartialEq for PipelineEntryPoint {
    fn eq(&self, other: &Self) -> (equal: bool)
    {
        self.source_name == other.source_name && self.port == other.port
    }
}

impl PartialEqSpecImpl for PipelineEntryPoint {
    open spec fn obeys_eq_spec() -> bool {
        true
    }

    open spec fn eq_spec(&self, other: &Self) -> bool {
        self@ == other@
    }
}

impl Eq for PipelineEntryPoint {}

/// The feature toggles that a pipeline is built with.
#[derive(Debug, Clone, Copy, PartialEq, Eq, Structural)]
pub struct PipelineFlags {
    pub enable_probabilistic_optimizations: EnableProbabilisticOptimizations,
}

impl From<&Flags> for PipelineFlags {
    fn from(flags: &Flags) -> (pipeline_flags: Self)
    {
        Self { enable_probabilistic_optimizations: flags.enable_probabilistic_optimizations }
    }
}

impl FromSpecImpl<&Flags> for PipelineFlags {
    open spec fn obeys_from_spec() -> bool {
        true
    }

    open spec fn from_spec(flags: &Flags) -> Self {
        PipelineFlags { enable_probabilistic_optimizations: flags.enable_probabilistic_optimizations }
    }
}

impl From<Flags> for PipelineFlags {
    fn from(flags: Flags) -> (pipeline_flags: Self)
    {
        Self::from(&flags)
    }
}

impl FromSpecImpl<Flags> for PipelineFlags {
    open spec fn obeys_from_spec() -> bool {
        true
    }

    open spec fn from_spec(flags: Flags) -> Self {
        PipelineFlags { enable_probabilistic_optimizations: flags.enable_probabilistic_optimizations }
    }
}

impl Default for PipelineFlags {
    /// The pipeline flags of an application with default flags.
    fn default() -> (pipeline_flags: Self)
        ensures
            pipeline_flags == (PipelineFlags {
                enable_probabilistic_optimizations: EnableProbabilisticOptimizations {
                    in_sets: false,
                    in_joins: false,
                    in_aggregations: false,
                },
            }),
    {
        PipelineFlags::from(Flags::default())
    }
}

/// One logical pipeline under construction: its processors and sinks, the
/// edges between them, and the entry points at which sources will be wired
/// in. Nodes are named by local ids; the namespace comes when the application
/// is compiled.
pub struct AppPipeline {
    edges: Vec<Edge>,
    processors: Vec<(NodeHandle, BoxedProcessorFactory)>,
    sinks: Vec<(NodeHandle, BoxedSinkFactory)>,
    entry_points: Vec<(NodeHandle, PipelineEntryPoint)>,
    flags: PipelineFlags,
}

/// Mathematical value of an [`AppPipeline`].
pub struct AppPipelineView {
    /// The processors in the order of their addition, each under the handle
    /// that it was stored with.
    pub processors: Seq<(NodeHandleView, BoxedProcessorFactory)>,
    /// The sinks in the order of their addition, each under the handle that
    /// it was stored with.
    pub sinks: Seq<(NodeHandleView, BoxedSinkFactory)>,
    /// The edges between nodes of the pipeline, in the order of their
    /// addition.
    pub edges: Seq<EdgeView>,
    /// The entry points in the order of their addition, each with the handle
    /// of the node that it belongs to.
    pub entry_points: Seq<(NodeHandleView, PipelineEntryPointView)>,
    pub flags: PipelineFlags,
}

/// The handle of the node `id` inside a pipeline under construction: the
/// local id, without a namespace.
pub open spec fn local_handle(id: Seq<char>) -> NodeHandleView {
    NodeHandleView { namespace: None, id }
}

impl AppPipelineView {
    /// Whether a processor or a sink was added under the local id `id`.
    pub open spec fn declares(self, id: Seq<char>) -> bool {
        ||| exists|i: int|
            0 <= i < self.processors.len() && (#[trigger] self.processors[i]).0.id == id
        ||| exists|i: int| 0 <= i < self.sinks.len() && (#[trigger] self.sinks[i]).0.id == id
    }

    /// Whether both ends of every edge are nodes that were added.
    pub open spec fn edges_declared(self) -> bool {
        forall|k: int|
            0 <= k < self.edges.len() ==> self.declares((#[trigger] self.edges[k]).from.node.id)
                && self.declares(self.edges[k].to.node.id)
    }

    /// Whether no handle of the pipeline has a namespace: not that of a
    /// processor or a sink, not that of the node of an entry point, and not
    /// that of an end of an edge.
    pub open spec fn handles_are_local(self) -> bool {
        &&& forall|i: int|
            0 <= i < self.processors.len() ==> (#[trigger] self.processors[i]).0.namespace is None
        &&& forall|i: int| 0 <= i < self.sinks.len() ==> (#[trigger] self.sinks[i]).0.namespace is None
        &&& forall|k: int|
            0 <= k < self.entry_points.len() ==> (#[trigger] self.entry_points[k]).0.namespace
                is None
        &&& forall|k: int|
            0 <= k < self.edges.len() ==> (#[trigger] self.edges[k]).from.node.namespace is None
                && self.edges[k].to.node.namespace is None
    }

    /// The invariant of a pipeline: its handles have no namespace, and every
    /// entry point belongs to a node that was added.
    pub open spec fn wf(self) -> bool {
        &&& self.handles_are_local()
        &&& forall|k: int|
            0 <= k < self.entry_points.len() ==> self.declares(
                (#[trigger] self.entry_points[k]).0.id,
            )
    }
}

/// The edge between two local nodes, as [`AppPipeline::connect_nodes`]
/// records it.
pub open spec fn local_edge(
    from: Seq<char>,
    from_port: PortHandle,
    to: Seq<char>,
    to_port: PortHandle,
) -> EdgeView {
    EdgeView {
        from: EndpointView { node: local_handle(from), port: from_port },
        to: EndpointView { node: local_handle(to), port: to_port },
    }
}

impl View for AppPipeline {
    type V = AppPipelineView;

    closed spec fn view(&self) -> AppPipelineView {
        AppPipelineView {
            processors: processor_views(self.processors@),
            sinks: sink_views(self.sinks@),
            edges: edge_views(self.edges@),
            entry_points: entry_point_views(self.entry_points@),
            flags: self.flags,
        }
    }
}

spec fn processor_views(entries: Seq<(NodeHandle, BoxedProcessorFactory)>) -> Seq<
    (NodeHandleView, BoxedProcessorFactory),
> {
    entries.map_values(|entry: (NodeHandle, BoxedProcessorFactory)| (entry.0@, entry.1))
}

spec fn sink_views(entries: Seq<(NodeHandle, BoxedSinkFactory)>) -> Seq<
    (NodeHandleView, BoxedSinkFactory),
> {
    entries.map_values(|entry: (NodeHandle, BoxedSinkFactory)| (entry.0@, entry.1))
}

spec fn entry_point_views(entries: Seq<(NodeHandle, PipelineEntryPoint)>) -> Seq<
    (NodeHandleView, PipelineEntryPointView),
> {
    entries.map_values(|entry: (NodeHandle, PipelineEntryPoint)| (entry.0@, entry.1@))
}

spec fn target_views(targets: Seq<(String, Endpoint)>) -> Seq<EntryTarget> {
    targets.map_values(
        |target: (String, Endpoint)| EntryTarget { source_name: target.0@, endpoint: target.1@ },
    )
}

spec fn pipeline_views(pipelines: Seq<(PipelineInstanceId, AppPipeline)>) -> Seq<
    (PipelineInstanceId, AppPipelineView),
> {
    pipelines.map_values(|entry: (PipelineInstanceId, AppPipeline)| (entry.0, entry.1@))
}

impl AppPipeline {
    /// Adds a processor under the handle of the local id `id`, which has no
    /// namespace, and records one entry point against that handle for each
    /// source that the processor reads from.
    pub fn add_processor(
        &mut self,
        proc: BoxedProcessorFactory,
        id: &str,
        entry_point: Vec<PipelineEntryPoint>,
    )
        requires
            old(self)@.wf(),
        ensures
            final(self)@.wf(),
            final(self)@.processors == old(self)@.processors.push((local_handle(id@), proc)),
            final(self)@.entry_points == old(self)@.entry_points + entry_point@.map_values(
                |p: PipelineEntryPoint| (local_handle(id@), p@),
            ),
            final(self)@.sinks == old(self)@.sinks,
            final(self)@.edges == old(self)@.edges,
            final(self)@.flags == old(self)@.flags,
    {
        let handle = NodeHandle::new(None, id.to_owned());
        self.processors.push((handle.clone(), proc));
        assert(self@.processors =~= old(self)@.processors.push((local_handle(id@), proc)));

        let ghost added = entry_point@.map_values(|p: PipelineEntryPoint| (local_handle(id@), p@));
        for p in iter: entry_point
            invariant
                iter.seq() == entry_point@,
                added == entry_point@.map_values(|p: PipelineEntryPoint| (local_handle(id@), p@)),
                handle@ == local_handle(id@),
                self@.entry_points == old(self)@.entry_points + added.take(iter.index() as int),
                self@.processors == old(self)@.processors.push((local_handle(id@), proc)),
                self@.sinks == old(self)@.sinks,
                self@.edges == old(self)@.edges,
                self@.flags == old(self)@.flags,
        {
            let ghost before = self@.entry_points;
            let ghost done = iter.index() as int;
            self.entry_points.push((handle.clone(), p));
            assert(self@.entry_points =~= before.push((local_handle(id@), p@)));
            assert(added.take(done + 1) =~= added.take(done).push((local_handle(id@), p@)));
            assert(self@.entry_points =~= old(self)@.entry_points + added.take(done + 1));
        }
        assert(added.take(added.len() as int) =~= added);
        proof {
            assert(self@.processors[old(self)@.processors.len() as int].0.id == id@);
            lemma_grown_pipeline(old(self)@, self@);
        }
    }

    /// Adds a sink under the handle of the local id `id`, which has no
    /// namespace. A sink reads from at most one source: the entry point, if
    /// there is one, is recorded against that handle.
    pub fn add_sink(
        &mut self,
        sink: BoxedSinkFactory,
        id: &str,
        entry_point: Option<PipelineEntryPoint>,
    )
        requires
            old(self)@.wf(),
        ensures
            final(self)@.wf(),
            final(self)@.sinks == old(self)@.sinks.push((local_handle(id@), sink)),
            final(self)@.entry_points == match entry_point {
                Some(p) => old(self)@.entry_points.push((local_handle(id@), p@)),
                None => old(self)@.entry_points,
            },
            final(self)@.processors == old(self)@.processors,
            final(self)@.edges == old(self)@.edges,
            final(self)@.flags == old(self)@.flags,
    {
        let handle = NodeHandle::new(None, id.to_owned());
        self.sinks.push((handle.clone(), sink));
        assert(self@.sinks =~= old(self)@.sinks.push((local_handle(id@), sink)));

        if let Some(entry_point) = entry_point {
            self.entry_points.push((handle, entry_point));
            assert(self@.entry_points =~= old(self)@.entry_points.push(
                (local_handle(id@), entry_point@),
            ));
        }
        proof {
            assert(self@.sinks[old(self)@.sinks.len() as int].0.id == id@);
            lemma_grown_pipeline(old(self)@, self@);
        }
    }

    /// Records an edge from port `from_port` of the node `from` to port
    /// `to_port` of the node `to`, both named by their local ids. Whether the
    /// two nodes exist is found out when the application is compiled.
    pub fn connect_nodes(
        &mut self,
        from: &str,
        from_port: PortHandle,
        to: &str,
        to_port: PortHandle,
    )
        requires
            old(self)@.wf(),
        ensures
            final(self)@.wf(),
            final(self)@.edges == old(self)@.edges.push(local_edge(from@, from_port, to@, to_port)),
            final(self)@.processors == old(self)@.processors,
            final(self)@.sinks == old(self)@.sinks,
            final(self)@.entry_points == old(self)@.entry_points,
            final(self)@.flags == old(self)@.flags,
    {
        let edge = Edge::new(
            Endpoint::new(NodeHandle::new(None, from.to_owned()), from_port),
            Endpoint::new(NodeHandle::new(None, to.to_owned()), to_port),
        );
        self.edges.push(edge);
        assert(self@.edges =~= old(self)@.edges.push(local_edge(from@, from_port, to@, to_port)));
        proof {
            assert(self@.processors == old(self)@.processors);
            assert(self@.sinks == old(self)@.sinks);
            assert(self@.entry_points == old(self)@.entry_points);
            lemma_grown_pipeline(old(self)@, self@);
        }
    }

    /// An empty pipeline with the given flags.
    pub fn new(flags: PipelineFlags) -> (pipeline: Self)
        ensures
            pipeline@.wf(),
            pipeline@.processors == Seq::<(NodeHandleView, BoxedProcessorFactory)>::empty(),
            pipeline@.sinks == Seq::<(NodeHandleView, BoxedSinkFactory)>::empty(),
            pipeline@.edges == Seq::<EdgeView>::empty(),
            pipeline@.entry_points == Seq::<(NodeHandleView, PipelineEntryPointView)>::empty(),
            pipeline@.flags == flags,
    {
        let pipeline = Self {
            processors: Vec::new(),
            sinks: Vec::new(),
            edges: Vec::new(),
            entry_points: Vec::new(),
            flags,
        };
        assert(pipeline@.processors =~= Seq::<(NodeHandleView, BoxedProcessorFactory)>::empty());
        assert(pipeline@.sinks =~= Seq::<(NodeHandleView, BoxedSinkFactory)>::empty());
        assert(pipeline@.edges =~= Seq::<EdgeView>::empty());
        assert(pipeline@.entry_points =~= Seq::<(NodeHandleView, PipelineEntryPointView)>::empty());
        pipeline
    }

    /// An empty pipeline with default flags.
    pub fn new_with_default_flags() -> (pipeline: Self)
        ensures
            pipeline@.wf(),
            pipeline@.processors == Seq::<(NodeHandleView, BoxedProcessorFactory)>::empty(),
            pipeline@.sinks == Seq::<(NodeHandleView, BoxedSinkFactory)>::empty(),
            pipeline@.edges == Seq::<EdgeView>::empty(),
            pipeline@.entry_points == Seq::<(NodeHandleView, PipelineEntryPointView)>::empty(),
            pipeline@.flags == (PipelineFlags {
                enable_probabilistic_optimizations: EnableProbabilisticOptimizations {
                    in_sets: false,
                    in_joins: false,
                    in_aggregations: false,
                },
            }),
    {
        Self::new(PipelineFlags::default())
    }

    /// The source names of all entry points, in the order in which the entry
    /// points were added. A name occurs once for each entry point that has it.
    pub fn get_entry_points_sources_names(&self) -> (names: Vec<String>)
        ensures
            names@.len() == self@.entry_points.len(),
            forall|k: int|
                0 <= k < names@.len() ==> (#[trigger] names@[k])@
                    == self@.entry_points[k].1.source_name,
    {
        let mut names: Vec<String> = Vec::new();
        let mut i: usize = 0;
        while i < self.entry_points.len()
            invariant
                i <= self.entry_points.len(),
                names@.len() == i,
                forall|k: int|
                    0 <= k < i ==> (#[trigger] names@[k])@ == self@.entry_points[k].1.source_name,
            decreases self.entry_points.len() - i,
        {
            names.push(self.entry_points[i].1.source_name().to_owned());
            i = i + 1;
        }
        names
    }

    pub fn flags(&self) -> (flags: &PipelineFlags)
        ensures
            *flags == self@.flags,
    {
        &self.flags
    }
}

/// A pipeline that grows stays well formed: where everything that `before`
/// holds still stands first in `after`, and whatever `after` holds more is
/// local and, if it is an entry point, belongs to a node of `after`.
proof fn lemma_grown_pipeline(before: AppPipelineView, after: AppPipelineView)
    requires
        before.wf(),
        before.processors.len() <= after.processors.len(),
        before.sinks.len() <= after.sinks.len(),
        before.edges.len() <= after.edges.len(),
        before.entry_points.len() <= after.entry_points.len(),
        forall|i: int|
            0 <= i < before.processors.len() ==> (#[trigger] after.processors[i])
                == before.processors[i],
        forall|i: int| 0 <= i < before.sinks.len() ==> (#[trigger] after.sinks[i]) == before.sinks[i],
        forall|k: int| 0 <= k < before.edges.len() ==> (#[trigger] after.edges[k]) == before.edges[k],
        forall|k: int|
            0 <= k < before.entry_points.len() ==> (#[trigger] after.entry_points[k])
                == before.entry_points[k],
        forall|i: int|
            before.processors.len() <= i < after.processors.len() ==> (
            #[trigger] after.processors[i]).0.namespace is None,
        forall|i: int|
            before.sinks.len() <= i < after.sinks.len() ==> (#[trigger] after.sinks[i]).0.namespace
                is None,
        forall|k: int|
            before.edges.len() <= k < after.edges.len() ==> (
            #[trigger] after.edges[k]).from.node.namespace is None
                && after.edges[k].to.node.namespace is None,
        forall|k: int|
            before.entry_points.len() <= k < after.entry_points.len() ==> (
            #[trigger] after.entry_points[k]).0.namespace is None && after.declares(
                after.entry_points[k].0.id,
            ),
    ensures
        after.wf(),
{
    assert forall|k: int| 0 <= k < after.entry_points.len() implies after.declares(
        (#[trigger] after.entry_points[k]).0.id,
    ) by {
        if k < before.entry_points.len() {
            let local = before.entry_points[k].0.id;
            assert(before.declares(local));
            if exists|i: int|
                0 <= i < before.processors.len() && (#[trigger] before.processors[i]).0.id
                    == local {
                let i = choose|i: int|
                    0 <= i < before.processors.len() && (#[trigger] before.processors[i]).0.id
                        == local;
                assert(after.processors[i].0.id == local);
            } else {
                let i = choose|i: int|
                    0 <= i < before.sinks.len() && (#[trigger] before.sinks[i]).0.id == local;
                assert(after.sinks[i].0.id == local);
            }
        }
    }
    assert forall|i: int| 0 <= i < after.processors.len() implies (
    #[trigger] after.processors[i]).0.namespace is None by {
        if i < before.processors.len() {
            assert(before.processors[i].0.namespace is None);
        }
    }
    assert forall|i: int| 0 <= i < after.sinks.len() implies (
    #[trigger] after.sinks[i]).0.namespace is None by {
        if i < before.sinks.len() {
            assert(before.sinks[i].0.namespace is None);
        }
    }
    assert forall|k: int| 0 <= k < after.entry_points.len() implies (
    #[trigger] after.entry_points[k]).0.namespace is None by {
        if k < before.entry_points.len() {
            assert(before.entry_points[k].0.namespace is None);
        }
    }
    assert forall|k: int| 0 <= k < after.edges.len() implies (
    #[trigger] after.edges[k]).from.node.namespace is None && after.edges[k].to.node.namespace
        is None by {
        if k < before.edges.len() {
            assert(before.edges[k].from.node.namespace is None);
        }
    }
}

/// An application: its pipelines, each with the namespace it was given, and
/// its sources.
pub struct App {
    pipelines: Vec<(PipelineInstanceId, AppPipeline)>,
    app_counter: PipelineInstanceId,
    sources: AppSourceManager,
}

/// Mathematical value of an [`App`].
pub struct AppView {
    /// The pipelines in the order of their addition, each with its namespace.
    pub pipelines: Seq<(PipelineInstanceId, AppPipelineView)>,
    /// The namespace given to the pipeline that was added last; 0 before the
    /// first addition.
    pub app_counter: PipelineInstanceId,
    pub sources: AppSourceManagerView,
}

impl AppView {
    /// The invariant of an application: the pipelines have the namespaces
    /// 1, 2, 3, ... in the order of their addition, the counter stands at the
    /// last of them, and the pipelines and the sources are well formed.
    pub open spec fn wf(self) -> bool {
        &&& self.app_counter == self.pipelines.len()
        &&& forall|i: int|
            0 <= i < self.pipelines.len() ==> (#[trigger] self.pipelines[i]).0 == i + 1
        &&& forall|i: int| 0 <= i < self.pipelines.len() ==> (#[trigger] self.pipelines[i]).1.wf()
        &&& self.sources.wf()
    }
}

impl AppView {
    /// The application after `pipeline` is added: the pipeline stands last,
    /// under the namespace that follows the number of pipelines before it.
    pub open spec fn with_pipeline(self, pipeline: AppPipelineView) -> AppView {
        AppView {
            pipelines: self.pipelines.push(
                ((self.pipelines.len() + 1) as PipelineInstanceId, pipeline),
            ),
            app_counter: (self.pipelines.len() + 1) as PipelineInstanceId,
            sources: self.sources,
        }
    }

    /// The application after the pipelines of `added` are added one after the
    /// other, in the order of the sequence.
    pub open spec fn with_pipelines(self, added: Seq<AppPipelineView>) -> AppView
        decreases added.len(),
    {
        if added.len() == 0 {
            self
        } else {
            self.with_pipelines(added.drop_last()).with_pipeline(added.last())
        }
    }
}

/// Whatever pipelines are added to an application, in whatever number that
/// the namespaces can count, the namespaces start at 1 and grow by 1 with
/// every addition: the pipeline at position `k` has the namespace `k + 1`,
/// and the pipelines that were there keep theirs. So namespaces are strictly
/// increasing in the order of addition, and no two pipelines share one.
pub proof fn lemma_namespaces_count_up(start: AppView, added: Seq<AppPipelineView>)
    requires
        start.wf(),
        start.pipelines.len() + added.len() <= PipelineInstanceId::MAX,
        forall|k: int| 0 <= k < added.len() ==> (#[trigger] added[k]).wf(),
    ensures
        start.with_pipelines(added).wf(),
        start.with_pipelines(added).pipelines.len() == start.pipelines.len() + added.len(),
        forall|k: int|
            0 <= k < start.pipelines.len() ==> (#[trigger] start.with_pipelines(added).pipelines[k])
                == start.pipelines[k],
        forall|k: int|
            0 <= k < added.len() ==> (#[trigger] start.with_pipelines(added).pipelines[
                start.pipelines.len() + k
            ]) == ((start.pipelines.len() + k + 1) as PipelineInstanceId, added[k]),
        forall|k: int|
            0 <= k < start.with_pipelines(added).pipelines.len() ==> (
            #[trigger] start.with_pipelines(added).pipelines[k]).0 == k + 1,
        forall|i: int, j: int|
            0 <= i < j < start.with_pipelines(added).pipelines.len() ==> (
            #[trigger] start.with_pipelines(added).pipelines[i]).0 < (
            #[trigger] start.with_pipelines(added).pipelines[j]).0,
    decreases added.len(),
{
    if added.len() > 0 {
        let front = added.drop_last();
        assert forall|k: int| 0 <= k < front.len() implies (#[trigger] front[k]).wf() by {
            assert(front[k] == added[k]);
        }
        lemma_namespaces_count_up(start, front);
        let before = start.with_pipelines(front);
        let after = start.with_pipelines(added);
        assert(after == before.with_pipeline(added.last()));
        assert forall|k: int| 0 <= k < added.len() implies (#[trigger] after.pipelines[
            start.pipelines.len() + k
        ]) == ((start.pipelines.len() + k + 1) as PipelineInstanceId, added[k]) by {
            if k < front.len() {
                assert(after.pipelines[start.pipelines.len() + k] == before.pipelines[
                    start.pipelines.len() + k
                ]);
                assert(front[k] == added[k]);
            }
        }
        assert forall|k: int| 0 <= k < after.pipelines.len() implies (
        #[trigger] after.pipelines[k]).1.wf() by {
            if k < start.pipelines.len() {
                assert(after.pipelines[k] == before.pipelines[k]);
                assert(start.pipelines[k].1.wf());
            } else {
                assert(after.pipelines[start.pipelines.len() + (k - start.pipelines.len())].1
                    == added[k - start.pipelines.len()]);
            }
        }
    }
}

impl View for App {
    type V = AppView;

    closed spec fn view(&self) -> AppView {
        AppView {
            pipelines: pipeline_views(self.pipelines@),
            app_counter: self.app_counter,
            sources: self.sources@,
        }
    }
}

impl App {
    /// Adds a pipeline and gives it the next namespace: 1 for the first
    /// pipeline, 2 for the second, and so on. Namespaces are 16 bits wide, so
    /// an application holds at most 65535 pipelines.
    pub fn add_pipeline(&mut self, pipeline: AppPipeline)
        requires
            old(self)@.wf(),
            pipeline@.wf(),
            old(self)@.pipelines.len() < PipelineInstanceId::MAX,
        ensures
            final(self)@.wf(),
            final(self)@ == old(self)@.with_pipeline(pipeline@),
    {
        self.app_counter += 1;
        self.pipelines.push((self.app_counter, pipeline));
        assert(self@.pipelines =~= old(self)@.pipelines.push(
            ((old(self)@.pipelines.len() + 1) as PipelineInstanceId, pipeline@),
        ));
    }

    /// Number of pipelines of the application.
    pub fn pipeline_count(&self) -> (count: usize)
        ensures
            count == self@.pipelines.len(),
    {
        self.pipelines.len()
    }

    /// An application with the given sources and no pipeline.
    pub fn new(sources: AppSourceManager) -> (app: Self)
        requires
            sources@.wf(),
        ensures
            app@.wf(),
            app@.pipelines == Seq::<(PipelineInstanceId, AppPipelineView)>::empty(),
            app@.app_counter == 0,
            app@.sources == sources@,
    {
        let app = Self { pipelines: Vec::new(), app_counter: 0, sources };
        assert(app@.pipelines =~= Seq::<(PipelineInstanceId, AppPipelineView)>::empty());
        app
    }
}

/// Registers the processors and then the sinks of one pipeline in the graph,
/// each under the namespace of the pipeline.
fn add_pipeline_nodes(
    dag: &mut Dag,
    namespace: PipelineInstanceId,
    processors: Vec<(NodeHandle, BoxedProcessorFactory)>,
    sinks: Vec<(NodeHandle, BoxedSinkFactory)>,
)
    requires
        old(dag)@.wf(),
    ensures
        final(dag)@.wf(),
        final(dag)@.edges == old(dag)@.edges,
        final(dag)@.nodes == register_all(
            old(dag)@.nodes,
            processor_nodes(namespace, processor_views(processors@)) + sink_nodes(
                namespace,
                sink_views(sinks@),
            ),
        ),
{
    let ghost added_processors = processor_nodes(namespace, processor_views(processors@));
    let ghost added_sinks = sink_nodes(namespace, sink_views(sinks@));
    for entry in iter: processors
        invariant
            iter.seq() == processors@,
            added_processors == processor_nodes(namespace, processor_views(processors@)),
            dag@.wf(),
            dag@.edges == old(dag)@.edges,
            dag@.nodes == register_all(
                old(dag)@.nodes,
                added_processors.take(iter.index() as int),
            ),
    {
        let ghost done = iter.index() as int;
        let (handle, proc) = entry;
        assert(added_processors.take(done + 1).drop_last() =~= added_processors.take(done));
        assert(added_processors.take(done + 1).last() == processor_node(
            namespace,
            (handle@, proc),
        ));
        dag.add_processor(NodeHandle::new(Some(namespace), handle.id), proc);
    }
    assert(added_processors.take(added_processors.len() as int) =~= added_processors);
    let ghost middle = dag@.nodes;
    for entry in iter: sinks
        invariant
            iter.seq() == sinks@,
            added_sinks == sink_nodes(namespace, sink_views(sinks@)),
            dag@.wf(),
            dag@.edges == old(dag)@.edges,
            dag@.nodes == register_all(middle, added_sinks.take(iter.index() as int)),
    {
        let ghost done = iter.index() as int;
        let (handle, sink) = entry;
        assert(added_sinks.take(done + 1).drop_last() =~= added_sinks.take(done));
        assert(added_sinks.take(done + 1).last() == sink_node(namespace, (handle@, sink)));
        dag.add_sink(NodeHandle::new(Some(namespace), handle.id), sink);
    }
    assert(added_sinks.take(added_sinks.len() as int) =~= added_sinks);
    proof {
        lemma_register_all_concat(old(dag)@.nodes, added_processors, added_sinks);
    }
}

/// Connects the internal edges of one pipeline in the graph, each with both
/// ends under the namespace of the pipeline. Stops at the first end that is
/// no node of the graph.
fn connect_pipeline_edges(dag: &mut Dag, namespace: PipelineInstanceId, edges: Vec<Edge>) -> (result:
    Result<(), ExecutionError>)
    requires
        old(dag)@.wf(),
    ensures
        final(dag)@.wf(),
        final(dag)@.nodes == old(dag)@.nodes,
        match result {
            Ok(()) => {
                &&& first_missing_end(
                    old(dag)@.nodes,
                    namespaced_edges(namespace, edge_views(edges@)),
                ) is None
                &&& final(dag)@.edges == old(dag)@.edges + namespaced_edges(
                    namespace,
                    edge_views(edges@),
                )
            },
            Err(error) => {
                &&& first_missing_end(
                    old(dag)@.nodes,
                    namespaced_edges(namespace, edge_views(edges@)),
                ) is Some
                &&& error@ == ExecutionErrorView::InvalidNodeHandle(
                    first_missing_end(
                        old(dag)@.nodes,
                        namespaced_edges(namespace, edge_views(edges@)),
                    )->Some_0,
                )
            },
        },
{
    let ghost added = namespaced_edges(namespace, edge_views(edges@));
    let ghost nodes = dag@.nodes;
    assert(old(dag)@.edges + added.take(0) =~= old(dag)@.edges);
    for edge in iter: edges
        invariant
            iter.seq() == edges@,
            added == namespaced_edges(namespace, edge_views(edges@)),
            dag@.wf(),
            dag@.nodes == nodes,
            nodes == old(dag)@.nodes,
            dag@.edges == old(dag)@.edges + added.take(iter.index() as int),
            first_missing_end(nodes, added.take(iter.index() as int)) is None,
    {
        let ghost done = iter.index() as int;
        let ghost before = dag@.edges;
        assert(added.take(done + 1).drop_last() =~= added.take(done));
        assert(added.take(done + 1).last() == namespaced_edge(namespace, edge@));
        let from = Endpoint::new(NodeHandle::new(Some(namespace), edge.from.node.id), edge.from.port);
        let to = Endpoint::new(NodeHandle::new(Some(namespace), edge.to.node.id), edge.to.port);
        match dag.connect(from, to) {
            Ok(()) => {
                assert(dag@.edges =~= old(dag)@.edges + added.take(done + 1));
            },
            Err(error) => {
                proof {
                    lemma_first_missing_end_prefix(nodes, added, done + 1);
                }
                return Err(error);
            },
        }
    }
    assert(added.take(added.len() as int) =~= added);
    Ok(())
}

/// Puts the targets of the entry points of one pipeline behind the targets
/// collected so far.
fn collect_entry_targets(
    targets: &mut Vec<(String, Endpoint)>,
    namespace: PipelineInstanceId,
    entry_points: Vec<(NodeHandle, PipelineEntryPoint)>,
)
    ensures
        target_views(final(targets)@) == target_views(old(targets)@) + entry_targets(
            namespace,
            entry_point_views(entry_points@),
        ),
{
    let ghost added = entry_targets(namespace, entry_point_views(entry_points@));
    assert(target_views(targets@) + added.take(0) =~= target_views(targets@));
    for item in iter: entry_points
        invariant
            iter.seq() == entry_points@,
            added == entry_targets(namespace, entry_point_views(entry_points@)),
            target_views(targets@) == target_views(old(targets)@) + added.take(
                iter.index() as int,
            ),
    {
        let ghost done = iter.index() as int;
        let ghost before = target_views(targets@);
        let (handle, entry) = item;
        let ghost target = entry_target(namespace, (handle@, entry@));
        assert(added.take(done + 1) =~= added.take(done).push(target));
        targets.push(
            (
                entry.source_name,
                Endpoint::new(NodeHandle::new(Some(namespace), handle.id), entry.port),
            ),
        );
        assert(target_views(targets@) =~= before.push(target));
        assert(target_views(targets@) =~= target_views(old(targets)@) + added.take(done + 1));
    }
    assert(added.take(added.len() as int) =~= added);
}

/// Registers every source in the graph, under the name of the connection of
/// the mappings at the same position and outside every namespace.
fn add_sources(dag: &mut Dag, sources: Vec<BoxedConnector>, mappings: &Vec<AppSourceMappings>)
    requires
        old(dag)@.wf(),
        sources@.len() == mappings@.len(),
    ensures
        final(dag)@.wf(),
        final(dag)@.edges == old(dag)@.edges,
        final(dag)@.nodes == register_all(
            old(dag)@.nodes,
            source_nodes(
                (AppSourceManagerView { sources: sources@, mappings: table_view(mappings@) }),
            ),
        ),
{
    let ghost added = source_nodes(
        AppSourceManagerView { sources: sources@, mappings: table_view(mappings@) },
    );
    let mut position: usize = 0;
    for source in iter: sources
        invariant
            iter.seq() == sources@,
            sources@.len() == mappings@.len(),
            position == iter.index(),
            added == source_nodes(
                (AppSourceManagerView { sources: sources@, mappings: table_view(mappings@) }),
            ),
            dag@.wf(),
            dag@.edges == old(dag)@.edges,
            dag@.nodes == register_all(old(dag)@.nodes, added.take(iter.index() as int)),
    {
        let ghost done = iter.index() as int;
        let mapping = &mappings[position];
        assert(table_view(mappings@)[done] == mapping@);
        assert(added.take(done + 1).drop_last() =~= added.take(done));
        let node_handle = NodeHandle::new(None, mapping.connection().to_owned());
        dag.add_source(node_handle, source);
        assert(position < mappings.len());
        position = position + 1;
    }
    assert(added.take(added.len() as int) =~= added);
}

/// Connects every target to the endpoint that serves its source, in the
/// order of the targets. Stops at the first source name that no mapping
/// lists.
fn connect_entry_points(
    dag: &mut Dag,
    targets: Vec<(String, Endpoint)>,
    mappings: &Vec<AppSourceMappings>,
) -> (result: Result<(), ExecutionError>)
    requires
        old(dag)@.wf(),
        forall|k: int|
            0 <= k < targets@.len() ==> old(dag)@.contains_node(
                (#[trigger] target_views(targets@)[k]).endpoint.node,
            ),
        forall|i: int|
            0 <= i < mappings@.len() ==> old(dag)@.contains_node(
                (NodeHandleView {
                    namespace: None,
                    id: (#[trigger] table_view(mappings@)[i]).connection,
                }),
            ),
    ensures
        final(dag)@.wf(),
        final(dag)@.nodes == old(dag)@.nodes,
        match result {
            Ok(()) => {
                &&& first_unresolved(table_view(mappings@), target_views(targets@)) is None
                &&& final(dag)@.edges == old(dag)@.edges + entry_edges(
                    table_view(mappings@),
                    target_views(targets@),
                )
            },
            Err(error) => {
                &&& first_unresolved(table_view(mappings@), target_views(targets@)) is Some
                &&& error@ == ExecutionErrorView::UnresolvedSource(
                    first_unresolved(table_view(mappings@), target_views(targets@))->Some_0,
                )
            },
        },
{
    let ghost table = table_view(mappings@);
    let ghost all = target_views(targets@);
    let ghost added = entry_edges(table, all);
    assert(old(dag)@.edges + added.take(0) =~= old(dag)@.edges);
    assert(all.take(0) =~= Seq::<EntryTarget>::empty());
    for target in iter: targets
        invariant
            iter.seq() == targets@,
            table == table_view(mappings@),
            all == target_views(targets@),
            added == entry_edges(table, all),
            dag@.wf(),
            dag@.nodes == old(dag)@.nodes,
            dag@.edges == old(dag)@.edges + added.take(iter.index() as int),
            first_unresolved(table, all.take(iter.index() as int)) is None,
            forall|k: int|
                0 <= k < targets@.len() ==> old(dag)@.contains_node(
                    (#[trigger] target_views(targets@)[k]).endpoint.node,
                ),
            forall|i: int|
                0 <= i < mappings@.len() ==> old(dag)@.contains_node(
                    (NodeHandleView {
                        namespace: None,
                        id: (#[trigger] table_view(mappings@)[i]).connection,
                    }),
                ),
    {
        let ghost done = iter.index() as int;
        let (source_name, target_endpoint) = target;
        assert(all[done] == (EntryTarget { source_name: source_name@, endpoint: target_endpoint@ }));
        assert(all.take(done + 1).drop_last() =~= all.take(done));
        assert(all.take(done + 1).last() == all[done]);
        match get_endpoint_from_mappings(mappings, source_name.as_str()) {
            Ok(source_endpoint) => {
                proof {
                    lemma_resolve(table, source_name@);
                    let i = choose|i: int|
                        0 <= i < table.len() && (#[trigger] table[i]).mappings.contains_key(
                            source_name@,
                        ) && resolve(table, source_name@) == Some(
                            table[i].endpoint(source_name@),
                        );
                    assert(source_endpoint@.node == (NodeHandleView {
                        namespace: None,
                        id: table[i].connection,
                    }));
                    assert(dag@.contains_node(source_endpoint@.node));
                    assert(dag@.contains_node(all[done].endpoint.node));
                }
                match dag.connect(source_endpoint, target_endpoint) {
                    Ok(()) => {
                        assert(added.take(done + 1) =~= added.take(done).push(
                            entry_edge(table, all[done]),
                        ));
                    },
                    Err(error) => {
                        return Err(error);
                    },
                }
            },
            Err(error) => {
                proof {
                    lemma_first_unresolved_prefix(table, all, done + 1);
                }
                return Err(error);
            },
        }
    }
    assert(added.take(added.len() as int) =~= added);
    assert(all.take(all.len() as int) =~= all);
    Ok(())
}

impl App {
    /// Compiles the application into one graph.
    ///
    /// Every pipeline brings its processors and sinks under its own
    /// namespace, and its internal edges with both ends under that namespace.
    /// Every source becomes a node named after its connection, outside every
    /// namespace. Every entry point becomes an edge from the endpoint that
    /// serves its source to the port that it names.
    ///
    /// Compilation fails, and gives no graph, when an internal edge has an
    /// end that is no node of its pipeline, or when an entry point names a
    /// source that no mapping lists; [`compilation_error`] says which error
    /// comes first.
    pub fn into_dag(self) -> (result: Result<Dag, ExecutionError>)
        requires
            self@.wf(),
        ensures
            match result {
                Ok(dag) => {
                    &&& compilation_error(self@) is None
                    &&& dag@ == compiled(self@)
                    &&& dag@.wf()
                },
                Err(error) => compilation_error(self@) == Some(error@),
            },
    {
        let ghost app = self@;
        let ghost views = app.pipelines;
        let App { pipelines, app_counter: _, sources } = self;
        let mut dag = Dag::new();
        // (source name, target endpoint)
        let mut entry_points: Vec<(String, Endpoint)> = Vec::new();
        assert(target_views(entry_points@) =~= Seq::<EntryTarget>::empty());
        assert(views.take(0) =~= Seq::<(PipelineInstanceId, AppPipelineView)>::empty());

        // Add all processors and sinks while collecting the entry points.
        for item in iter: pipelines
            invariant
                iter.seq() == pipelines@,
                views == pipeline_views(pipelines@),
                app == self@,
                app.wf(),
                views == app.pipelines,
                dag@.wf(),
                dag@.nodes == register_all(
                    Seq::empty(),
                    all_nodes(views.take(iter.index() as int)),
                ),
                dag@.edges == all_edges(views.take(iter.index() as int)),
                target_views(entry_points@) == all_targets(views.take(iter.index() as int)),
                first_dangling_end(views.take(iter.index() as int)) is None,
        {
            let ghost done = iter.index() as int;
            let ghost before = views.take(done);
            let ghost nodes_before = dag@.nodes;
            let (pipeline_id, pipeline) = item;
            let ghost view = pipeline@;
            assert(views[done] == (pipeline_id, view));
            assert(views.take(done + 1).drop_last() =~= before);
            assert(views.take(done + 1).last() == views[done]);
            let AppPipeline { edges, processors, sinks, entry_points: targets, flags: _ } =
                pipeline;
            let ghost added_nodes = pipeline_nodes(pipeline_id, view);
            let ghost added_edges = namespaced_edges(pipeline_id, view.edges);

            add_pipeline_nodes(&mut dag, pipeline_id, processors, sinks);
            proof {
                lemma_register_all_concat(Seq::empty(), all_nodes(before), added_nodes);
                lemma_register_all(Seq::empty(), all_nodes(before));
                lemma_register_all(nodes_before, added_nodes);
                assert forall|k: int| 0 <= k < added_edges.len() implies (has_handle(
                    dag@.nodes,
                    (#[trigger] added_edges[k]).from.node,
                ) <==> has_handle(added_nodes, added_edges[k].from.node)) by {
                    lemma_foreign_namespace(views, done, added_edges[k].from.node);
                }
                assert forall|k: int| 0 <= k < added_edges.len() implies (has_handle(
                    dag@.nodes,
                    (#[trigger] added_edges[k]).to.node,
                ) <==> has_handle(added_nodes, added_edges[k].to.node)) by {
                    lemma_foreign_namespace(views, done, added_edges[k].to.node);
                }
                lemma_first_missing_end_same(dag@.nodes, added_nodes, added_edges);
                assert(first_missing_end(dag@.nodes, added_edges) == dangling_end(
                    pipeline_id,
                    view,
                ));
            }
            match connect_pipeline_edges(&mut dag, pipeline_id, edges) {
                Ok(()) => {},
                Err(error) => {
                    proof {
                        lemma_first_dangling_end_prefix(views, done + 1);
                    }
                    return Err(error);
                },
            }
            collect_entry_targets(&mut entry_points, pipeline_id, targets);
        }
        assert(views.take(views.len() as int) =~= views);

        let (source_list, mappings) = sources.into_parts();
        let ghost source_view = AppSourceManagerView {
            sources: source_list@,
            mappings: table_view(mappings@),
        };
        assert(source_view == app.sources);
        let ghost pipeline_table = dag@.nodes;
        add_sources(&mut dag, source_list, &mappings);
        proof {
            lemma_register_all_concat(Seq::empty(), all_nodes(views), source_nodes(source_view));
            lemma_register_all(Seq::empty(), all_nodes(views));
            lemma_register_all(pipeline_table, source_nodes(source_view));
            assert forall|k: int| 0 <= k < entry_points@.len() implies dag@.contains_node(
                (#[trigger] target_views(entry_points@)[k]).endpoint.node,
            ) by {
                lemma_all_targets(views, k);
            }
            assert forall|i: int| 0 <= i < mappings@.len() implies dag@.contains_node(
                (NodeHandleView {
                    namespace: None,
                    id: (#[trigger] table_view(mappings@)[i]).connection,
                }),
            ) by {
                let node = NodeHandleView {
                    namespace: None,
                    id: table_view(mappings@)[i].connection,
                };
                assert(source_view.wf());
                assert(source_nodes(source_view)[i].handle == node);
                assert(has_handle(source_nodes(source_view), node));
            }
        }

        // Connect to all pipelines
        match connect_entry_points(&mut dag, entry_points, &mappings) {
            Ok(()) => {},
            Err(error) => {
                return Err(error);
            },
        }
        Ok(dag)
    }
}

/// No node of the first `n` pipelines has the namespace of a later pipeline.
proof fn lemma_foreign_namespace(
    pipelines: Seq<(PipelineInstanceId, AppPipelineView)>,
    n: int,
    handle: NodeHandleView,
)
    requires
        0 <= n < pipelines.len(),
        forall|i: int| 0 <= i < pipelines.len() ==> (#[trigger] pipelines[i]).0 == i + 1,
        handle.namespace == Some(pipelines[n].0),
    ensures
        !has_handle(all_nodes(pipelines.take(n)), handle),
{
    lemma_all_nodes(pipelines.take(n), handle);
    if has_handle(all_nodes(pipelines.take(n)), handle) {
        let j = choose|j: int|
            0 <= j < pipelines.take(n).len() && handle.namespace == Some(
                (#[trigger] pipelines.take(n)[j]).0,
            ) && pipelines.take(n)[j].1.declares(handle.id);
        assert(pipelines.take(n)[j] == pipelines[j]);
    }
}

} // verus!
