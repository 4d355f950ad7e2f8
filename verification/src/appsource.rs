//! The configured sources of an application, and the table that says which
//! source name is served by which connection.

use vstd::prelude::*;
use vstd::hash_map::StringHashMap;
use crate::connectors::BoxedConnector;
use crate::errors::{ExecutionError, ExecutionErrorView};
use crate::node::{Endpoint, EndpointView, NodeHandle, NodeHandleView, PortHandle};

verus! {

/// The source names that one connection serves, each with the output port of
/// the connection's node on which it is served.
pub struct AppSourceMappings {
    connection: String,
    mappings: StringHashMap<PortHandle>,
}

/// Mathematical value of an [`AppSourceMappings`].
pub struct AppSourceMappingsView {
    pub connection: Seq<char>,
    pub mappings: Map<Seq<char>, PortHandle>,
}

/// The map that holds the pairs of `pairs`; where a name occurs more than
/// once, its last pair counts.
pub open spec fn mappings_of(pairs: Seq<(Seq<char>, PortHandle)>) -> Map<Seq<char>, PortHandle>
    decreases pairs.len(),
{
    if pairs.len() == 0 {
        Map::empty()
    } else {
        mappings_of(pairs.drop_last()).insert(pairs.last().0, pairs.last().1)
    }
}

impl View for AppSourceMappings {
    type V = AppSourceMappingsView;

    closed spec fn view(&self) -> AppSourceMappingsView {
        AppSourceMappingsView { connection: self.connection@, mappings: self.mappings@ }
    }
}

impl AppSourceMappingsView {
    /// The endpoint at which this connection serves `source_name`: the node
    /// named after the connection, outside every pipeline namespace, and the
    /// mapped port.
    pub open spec fn endpoint(self, source_name: Seq<char>) -> EndpointView {
        EndpointView {
            node: NodeHandleView { namespace: None, id: self.connection },
            port: self.mappings[source_name],
        }
    }
}

impl AppSourceMappings {
    /// The mappings of the connection `connection`, from pairs of a source
    /// name and a port.
    pub fn new(connection: String, mappings: Vec<(String, PortHandle)>) -> (table: Self)
        ensures
            table@.connection == connection@,
            table@.mappings == mappings_of(
                mappings@.map_values(|pair: (String, PortHandle)| (pair.0@, pair.1)),
            ),
    {
        let ghost pairs = mappings@.map_values(|pair: (String, PortHandle)| (pair.0@, pair.1));
        let mut table: StringHashMap<PortHandle> = StringHashMap::new();
        for pair in iter: mappings
            invariant
                iter.seq() == mappings@,
                pairs == mappings@.map_values(|pair: (String, PortHandle)| (pair.0@, pair.1)),
                table@ == mappings_of(pairs.take(iter.index() as int)),
        {
            let ghost done = iter.index() as int;
            assert(pairs.take(done + 1).drop_last() =~= pairs.take(done));
            table.insert(pair.0, pair.1);
        }
        assert(pairs.take(pairs.len() as int) =~= pairs);
        AppSourceMappings { connection, mappings: table }
    }

    /// The name of the connection.
    pub fn connection(&self) -> (name: &str)
        ensures
            name@ == self@.connection,
    {
        self.connection.as_str()
    }

    /// The port on which the connection serves `source_name`, if it serves it.
    pub fn get(&self, source_name: &str) -> (port: Option<PortHandle>)
        ensures
            port is Some <==> self@.mappings.contains_key(source_name@),
            port is Some ==> port->Some_0 == self@.mappings[source_name@],
    {
        match self.mappings.get(source_name) {
            Some(port) => Some(*port),
            None => None,
        }
    }
}

/// The configured sources of an application with their mappings. The source
/// at a position belongs to the mappings at the same position.
pub struct AppSourceManager {
    sources: Vec<BoxedConnector>,
    mappings: Vec<AppSourceMappings>,
}

/// Mathematical value of an [`AppSourceManager`].
pub struct AppSourceManagerView {
    pub sources: Seq<BoxedConnector>,
    pub mappings: Seq<AppSourceMappingsView>,
}

impl AppSourceManagerView {
    /// The invariant of a source manager: as many sources as mappings.
    pub open spec fn wf(self) -> bool {
        self.sources.len() == self.mappings.len()
    }
}

impl View for AppSourceManager {
    type V = AppSourceManagerView;

    closed spec fn view(&self) -> AppSourceManagerView {
        AppSourceManagerView { sources: self.sources@, mappings: table_view(self.mappings@) }
    }
}

impl AppSourceManager {
    /// A manager without sources.
    pub fn new() -> (manager: Self)
        ensures
            manager@.sources == Seq::<BoxedConnector>::empty(),
            manager@.mappings == Seq::<AppSourceMappingsView>::empty(),
            manager@.wf(),
    {
        let manager = AppSourceManager { sources: Vec::new(), mappings: Vec::new() };
        assert(manager@.mappings =~= Seq::<AppSourceMappingsView>::empty());
        manager
    }

    /// Adds a source and the mappings of its connection behind those that are
    /// there.
    pub fn add(&mut self, source: BoxedConnector, mapping: AppSourceMappings)
        requires
            old(self)@.wf(),
        ensures
            final(self)@.sources == old(self)@.sources.push(source),
            final(self)@.mappings == old(self)@.mappings.push(mapping@),
            final(self)@.wf(),
    {
        self.sources.push(source);
        self.mappings.push(mapping);
        assert(self@.mappings =~= old(self)@.mappings.push(mapping@));
    }

    /// The endpoint that serves `source_name`, as
    /// [`get_endpoint_from_mappings`] finds it in the mappings of this
    /// manager.
    pub fn get_endpoint(&self, source_name: &str) -> (result: Result<Endpoint, ExecutionError>)
        ensures
            match result {
                Ok(endpoint) => resolve(self@.mappings, source_name@) == Some(endpoint@),
                Err(error) => {
                    &&& resolve(self@.mappings, source_name@) is None
                    &&& error@ == ExecutionErrorView::UnresolvedSource(source_name@)
                },
            },
    {
        get_endpoint_from_mappings(&self.mappings, source_name)
    }

    /// Takes the manager apart into its sources and its mappings.
    pub(crate) fn into_parts(self) -> (parts: (Vec<BoxedConnector>, Vec<AppSourceMappings>))
        ensures
            parts.0@ == self@.sources,
            table_view(parts.1@) == self@.mappings,
    {
        (self.sources, self.mappings)
    }
}

/// The endpoint of the first mapping at or behind `start` that lists
/// `source_name`, if there is one.
pub open spec fn resolve_from(
    mappings: Seq<AppSourceMappingsView>,
    source_name: Seq<char>,
    start: int,
) -> Option<EndpointView>
    decreases mappings.len() - start,
{
    if start < 0 || start >= mappings.len() {
        None
    } else if mappings[start].mappings.contains_key(source_name) {
        Some(mappings[start].endpoint(source_name))
    } else {
        resolve_from(mappings, source_name, start + 1)
    }
}

/// The endpoint that serves `source_name`: that of the first mapping that
/// lists the name, if any does.
pub open spec fn resolve(mappings: Seq<AppSourceMappingsView>, source_name: Seq<char>) -> Option<
    EndpointView,
> {
    resolve_from(mappings, source_name, 0)
}

/// Whether some mapping lists `source_name`.
pub open spec fn lists(mappings: Seq<AppSourceMappingsView>, source_name: Seq<char>) -> bool {
    exists|i: int|
        0 <= i < mappings.len() && (#[trigger] mappings[i]).mappings.contains_key(source_name)
}

/// A source name resolves exactly if some mapping lists it, and then to the
/// endpoint of a mapping that lists it.
pub proof fn lemma_resolve(mappings: Seq<AppSourceMappingsView>, source_name: Seq<char>)
    ensures
        resolve(mappings, source_name) is Some <==> lists(mappings, source_name),
        resolve(mappings, source_name) is Some ==> exists|i: int|
            0 <= i < mappings.len() && (#[trigger] mappings[i]).mappings.contains_key(source_name)
                && resolve(mappings, source_name) == Some(mappings[i].endpoint(source_name)),
{
    lemma_resolve_from(mappings, source_name, 0);
}

proof fn lemma_resolve_from(
    mappings: Seq<AppSourceMappingsView>,
    source_name: Seq<char>,
    start: int,
)
    requires
        0 <= start,
    ensures
        resolve_from(mappings, source_name, start) is Some <==> exists|i: int|
            start <= i < mappings.len() && (#[trigger] mappings[i]).mappings.contains_key(
                source_name,
            ),
        resolve_from(mappings, source_name, start) is Some ==> exists|i: int|
            start <= i < mappings.len() && (#[trigger] mappings[i]).mappings.contains_key(
                source_name,
            ) && resolve_from(mappings, source_name, start) == Some(
                mappings[i].endpoint(source_name),
            ),
    decreases mappings.len() - start,
{
    if start < mappings.len() {
        if mappings[start].mappings.contains_key(source_name) {
        } else {
            lemma_resolve_from(mappings, source_name, start + 1);
            if resolve_from(mappings, source_name, start) is Some {
                let i = choose|i: int|
                    start + 1 <= i < mappings.len() && (#[trigger] mappings[i]).mappings.contains_key(
                        source_name,
                    ) && resolve_from(mappings, source_name, start + 1) == Some(
                        mappings[i].endpoint(source_name),
                    );
                assert(start <= i < mappings.len() && mappings[i].mappings.contains_key(
                    source_name,
                ) && resolve_from(mappings, source_name, start) == Some(
                    mappings[i].endpoint(source_name),
                ));
            }
            if exists|i: int|
                start <= i < mappings.len() && (#[trigger] mappings[i]).mappings.contains_key(
                    source_name,
                ) {
                let i = choose|i: int|
                    start <= i < mappings.len() && (#[trigger] mappings[i]).mappings.contains_key(
                        source_name,
                    );
                assert(start + 1 <= i);
            }
        }
    }
}

/// The mathematical values of a sequence of mappings.
pub open spec fn table_view(mappings: Seq<AppSourceMappings>) -> Seq<AppSourceMappingsView> {
    mappings.map_values(|mapping: AppSourceMappings| mapping@)
}

/// Looks `source_name` up in the mappings, first mapping first. A name that
/// no mapping lists gives [`ExecutionError::UnresolvedSource`] with the name.
pub fn get_endpoint_from_mappings(mappings: &Vec<AppSourceMappings>, source_name: &str) -> (result:
    Result<Endpoint, ExecutionError>)
    ensures
        match result {
            Ok(endpoint) => resolve(table_view(mappings@), source_name@) == Some(endpoint@),
            Err(error) => {
                &&& resolve(table_view(mappings@), source_name@) is None
                &&& error@ == ExecutionErrorView::UnresolvedSource(source_name@)
            },
        },
{
    let ghost table = table_view(mappings@);
    let mut i: usize = 0;
    while i < mappings.len()
        invariant
            i <= mappings.len(),
            table == table_view(mappings@),
            resolve(table, source_name@) == resolve_from(table, source_name@, i as int),
        decreases mappings.len() - i,
    {
        assert(table[i as int] == mappings[i as int]@);
        match mappings[i].get(source_name) {
            Some(port) => {
                let node = NodeHandle::new(None, mappings[i].connection.clone());
                return Ok(Endpoint::new(node, port));
            },
            None => {},
        }
        i = i + 1;
    }
    Err(ExecutionError::UnresolvedSource(source_name.to_owned()))
}

} // verus!

