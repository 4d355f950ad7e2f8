//! Error values of the graph compiler, the ingestor and the connectors.

use vstd::prelude::*;
use vstd::std_specs::cmp::PartialEqSpecImpl;
use crate::node::{NodeHandle, NodeHandleView};

verus! {

/// Failure while the pipelines of an application are compiled into a graph.
#[derive(Debug)]
pub enum ExecutionError {
    /// An entry point names a source that no mapping lists.
    UnresolvedSource(String),
    /// An edge names a node that the graph does not hold.
    InvalidNodeHandle(NodeHandle),
}

/// Mathematical value of an [`ExecutionError`].
pub enum ExecutionErrorView {
    UnresolvedSource(Seq<char>),
    InvalidNodeHandle(NodeHandleView),
}

impl View for ExecutionError {
    type V = ExecutionErrorView;

    open spec fn view(&self) -> ExecutionErrorView {
        match self {
            ExecutionError::UnresolvedSource(name) => ExecutionErrorView::UnresolvedSource(name@),
            ExecutionError::InvalidNodeHandle(handle) => ExecutionErrorView::InvalidNodeHandle(
                handle@,
            ),
        }
    }
}

impl PartialEq for ExecutionError {
    fn eq(&self, other: &Self) -> (equal: bool)
    {
        match (self, other) {
            (ExecutionError::UnresolvedSource(a), ExecutionError::UnresolvedSource(b)) => *a == *b,
            (ExecutionError::InvalidNodeHandle(a), ExecutionError::InvalidNodeHandle(b)) => *a == *b,
            _ => false,
        }
    }
}

impl PartialEqSpecImpl for ExecutionError {
    open spec fn obeys_eq_spec() -> bool {
        true
    }

    open spec fn eq_spec(&self, other: &Self) -> bool {
        self@ == other@
    }
}

impl Eq for ExecutionError {}

/// Failure of the ingestor to accept a message.
#[derive(Debug, Clone, Copy, PartialEq, Eq, Structural)]
pub enum IngestorError {
    /// The ingestor was stopped and takes no further messages.
    Stopped,
}

/// Failure of a connector operation.
#[derive(Debug)]
pub enum ConnectorError {
    /// A data operation was attempted before the connector was initialized.
    InitializationError,
    /// The connector has no such operation; the value is the operation's name.
    UnsupportedConnectorMethod(String),
    /// The ingestor refused a message.
    IngestorError(IngestorError),
    /// The external system could not be reached; the value says why.
    ConnectionFailure(String),
}

/// Mathematical value of a [`ConnectorError`].
pub enum ConnectorErrorView {
    InitializationError,
    UnsupportedConnectorMethod(Seq<char>),
    IngestorError(IngestorError),
    ConnectionFailure(Seq<char>),
}

impl View for ConnectorError {
    type V = ConnectorErrorView;

    open spec fn view(&self) -> ConnectorErrorView {
        match self {
            ConnectorError::InitializationError => ConnectorErrorView::InitializationError,
            ConnectorError::UnsupportedConnectorMethod(name) => {
                ConnectorErrorView::UnsupportedConnectorMethod(name@)
            },
            ConnectorError::IngestorError(cause) => ConnectorErrorView::IngestorError(*cause),
            ConnectorError::ConnectionFailure(reason) => ConnectorErrorView::ConnectionFailure(
                reason@,
            ),
        }
    }
}

impl PartialEq for ConnectorError {
    fn eq(&self, other: &Self) -> (equal: bool)
    {
        match (self, other) {
            (ConnectorError::InitializationError, ConnectorError::InitializationError) => true,
            (
                ConnectorError::UnsupportedConnectorMethod(a),
                ConnectorError::UnsupportedConnectorMethod(b),
            ) => *a == *b,
            (ConnectorError::IngestorError(a), ConnectorError::IngestorError(b)) => *a == *b,
            (ConnectorError::ConnectionFailure(a), ConnectorError::ConnectionFailure(b)) => *a == *b,
            _ => false,
        }
    }
}

impl PartialEqSpecImpl for ConnectorError {
    open spec fn obeys_eq_spec() -> bool {
        true
    }

    open spec fn eq_spec(&self, other: &Self) -> bool {
        self@ == other@
    }
}

impl Eq for ConnectorError {}

} // verus!
