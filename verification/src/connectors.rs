//! Connectors: the components that capture change events from one external
//! data source each.

use vstd::prelude::*;
use crate::errors::ConnectorError;
use crate::ingestion::SharedIngestor;

pub mod events;

verus! {

/// A table of an external system that a connector can capture.
#[derive(Debug)]
pub struct TableInfo {
    pub name: String,
    pub id: u32,
    pub columns: Option<Vec<String>>,
}

/// The column names of one table, in order.
#[derive(Debug)]
pub struct Schema {
    pub fields: Vec<String>,
}

/// What every data-source integration offers: a lifecycle, schema discovery,
/// and a reachability check.
pub trait Connector {
    /// The schemas of the named tables, or of all tables. A connector without
    /// discovery fails with [`ConnectorError::UnsupportedConnectorMethod`].
    fn get_schemas(&self, table_names: Option<Vec<String>>) -> (result: Result<
        Vec<(String, Schema)>,
        ConnectorError,
    >);

    /// The tables that can be captured. A connector without discovery fails
    /// with [`ConnectorError::UnsupportedConnectorMethod`].
    fn get_tables(&self) -> (result: Result<Vec<TableInfo>, ConnectorError>);

    /// Checks that the external system can be reached, without changing it.
    fn test_connection(&self) -> (result: Result<(), ConnectorError>);

    /// Binds the connector to the ingestor that it will deliver to; `tables`
    /// restricts what is captured. Must come before any delivery.
    fn initialize(&mut self, ingestor: SharedIngestor, tables: Option<Vec<TableInfo>>) -> (result:
        Result<(), ConnectorError>);

    /// Starts capturing.
    fn start(&self) -> (result: Result<(), ConnectorError>);

    /// Stops capturing, as far as possible. May be called any number of times,
    /// also without a start before it.
    fn stop(&self);
}

/// A connector of any kind, owned by whoever holds the value.
pub struct BoxedConnector {
    pub connector: Box<dyn Connector>,
}

} // verus!
