//! A connector for events that the application pushes itself.

use vstd::prelude::*;
use crate::connectors::{Connector, Schema, TableInfo};
use crate::errors::{ConnectorError, ConnectorErrorView, IngestorError};
use crate::ingestion::{locked_ingestor, write_lock, IngestionMessage, Ingestor, SharedIngestor};

verus! {

/// A push-only connector: it has nothing to discover and nothing to connect
/// to, and delivers what [`EventsConnector::push`] is given.
pub struct EventsConnector {
    pub id: u64,
    pub name: String,
    ingestor: Option<SharedIngestor>,
}

impl EventsConnector {
    /// The numeric identity that tags every message of this connector.
    pub closed spec fn spec_id(&self) -> u64 {
        self.id
    }

    /// The connector's name.
    pub closed spec fn spec_name(&self) -> Seq<char> {
        self.name@
    }

    /// The ingestor that the connector is bound to, if any.
    pub closed spec fn spec_ingestor(&self) -> Option<SharedIngestor> {
        self.ingestor
    }

    /// Whether the connector has been bound to a shared ingestor.
    pub open spec fn is_initialized(&self) -> bool {
        self.spec_ingestor() is Some
    }

    /// A connector that is not yet bound to an ingestor.
    pub fn new(id: u64, name: String) -> (connector: Self)
        ensures
            connector.spec_id() == id,
            connector.spec_name() == name@,
            !connector.is_initialized(),
    {
        EventsConnector { id, name, ingestor: None }
    }

    /// What a delivery of `message` by the connector `id` does to the
    /// ingestor it reaches: a running ingestor appends the message under the
    /// connector's identity, a stopped one keeps its state and the failure
    /// comes back wrapped.
    pub fn deliver(id: u64, ingestor: &mut Ingestor, message: IngestionMessage) -> (result:
        Result<(), ConnectorError>)
        ensures
            final(ingestor)@ == old(ingestor)@.handle((id, message@)),
            result is Ok <==> !old(ingestor)@.stopped,
            result is Err ==> result->Err_0@ == ConnectorErrorView::IngestorError(
                IngestorError::Stopped,
            ),
    {
        match ingestor.handle_message((id, message)) {
            Ok(()) => Ok(()),
            Err(cause) => Err(ConnectorError::IngestorError(cause)),
        }
    }

    /// Delivers one message to the shared ingestor, tagged with this
    /// connector's identity. Before `initialize` it fails with
    /// [`ConnectorError::InitializationError`]. Afterwards it takes the write
    /// side of the lock and hands the message over as
    /// [`EventsConnector::deliver`] says; what the ingestor holds at that
    /// moment depends on the other holders of the lock.
    pub fn push(&mut self, message: IngestionMessage) -> (result: Result<(), ConnectorError>)
        ensures
            *final(self) == *old(self),
            !old(self).is_initialized() ==> result is Err && result->Err_0@
                == ConnectorErrorView::InitializationError,
            old(self).is_initialized() ==> result is Ok || result->Err_0@
                == ConnectorErrorView::IngestorError(IngestorError::Stopped),
    {
        match &self.ingestor {
            None => Err(ConnectorError::InitializationError),
            Some(shared) => {
                let mut guard = write_lock(&**shared);
                let ingestor = locked_ingestor(&mut guard);
                Self::deliver(self.id, ingestor, message)
            },
        }
    }
}

impl Connector for EventsConnector {
    fn get_schemas(&self, table_names: Option<Vec<String>>) -> (result: Result<
        Vec<(String, Schema)>,
        ConnectorError,
    >)
        ensures
            result is Err,
            result->Err_0@ == ConnectorErrorView::UnsupportedConnectorMethod("get_schemas"@),
    {
        Err(ConnectorError::UnsupportedConnectorMethod("get_schemas".to_owned()))
    }

    fn get_tables(&self) -> (result: Result<Vec<TableInfo>, ConnectorError>)
        ensures
            result is Err,
            result->Err_0@ == ConnectorErrorView::UnsupportedConnectorMethod("get_tables"@),
    {
        Err(ConnectorError::UnsupportedConnectorMethod("get_tables".to_owned()))
    }

    fn test_connection(&self) -> (result: Result<(), ConnectorError>)
        ensures
            result is Err,
            result->Err_0@ == ConnectorErrorView::UnsupportedConnectorMethod("test_connection"@),
    {
        Err(ConnectorError::UnsupportedConnectorMethod("test_connection".to_owned()))
    }

    fn initialize(&mut self, ingestor: SharedIngestor, tables: Option<Vec<TableInfo>>) -> (result:
        Result<(), ConnectorError>)
        ensures
            result is Ok,
            final(self).spec_ingestor() == Some(ingestor),
            final(self).spec_id() == old(self).spec_id(),
            final(self).spec_name() == old(self).spec_name(),
    {
        self.ingestor = Some(ingestor);
        Ok(())
    }

    fn start(&self) -> (result: Result<(), ConnectorError>)
        ensures
            result is Ok,
    {
        Ok(())
    }

    fn stop(&self) {
    }
}

} // verus!
