use std::sync::Arc;

use dozer_core::connectors::events::EventsConnector;
use dozer_core::connectors::{Connector, Schema, TableInfo};
use dozer_core::errors::{ConnectorError, IngestorError};
use dozer_core::ingestion::{IngestionMessage, Ingestor, SharedIngestor};
use parking_lot::RwLock;

fn message(payload: &[u8]) -> IngestionMessage {
    IngestionMessage::new(payload.to_vec())
}

fn shared() -> SharedIngestor {
    Arc::new(RwLock::new(Ingestor::new()))
}

#[test]
fn a_new_ingestor_runs_and_holds_nothing() {
    let ingestor = Ingestor::new();

    assert_eq!(ingestor.len(), 0);
    assert!(!ingestor.is_stopped());
}

#[test]
fn messages_are_kept_in_the_order_of_delivery() {
    let mut ingestor = Ingestor::new();

    assert_eq!(ingestor.handle_message((1, message(b"a"))), Ok(()));
    assert_eq!(ingestor.handle_message((2, message(b"b"))), Ok(()));
    assert_eq!(ingestor.handle_message((1, message(b"c"))), Ok(()));

    assert_eq!(ingestor.len(), 3);
    assert_eq!(
        ingestor.take_messages(),
        vec![(1, message(b"a")), (2, message(b"b")), (1, message(b"c"))]
    );
    assert_eq!(ingestor.len(), 0);
    assert!(ingestor.take_messages().is_empty());
}

#[test]
fn a_stopped_ingestor_refuses_messages_and_keeps_what_it_has() {
    let mut ingestor = Ingestor::new();
    ingestor.handle_message((1, message(b"a"))).unwrap();
    ingestor.stop();
    ingestor.stop();

    assert!(ingestor.is_stopped());
    assert_eq!(ingestor.handle_message((1, message(b"b"))), Err(IngestorError::Stopped));
    assert_eq!(ingestor.len(), 1);
    assert_eq!(ingestor.take_messages(), vec![(1, message(b"a"))]);
    assert!(ingestor.is_stopped());
}

#[test]
fn messages_compare_by_payload() {
    assert_eq!(message(b"abc"), message(b"abc"));
    assert_eq!(message(b""), message(b""));
    assert_ne!(message(b"abc"), message(b"abd"));
    assert_ne!(message(b"abc"), message(b"ab"));
    assert_eq!(message(b"abc").clone().payload, b"abc".to_vec());
}

#[test]
fn deliver_appends_under_the_identity_of_the_connector() {
    let mut ingestor = Ingestor::new();

    assert_eq!(EventsConnector::deliver(9, &mut ingestor, message(b"x")), Ok(()));

    assert_eq!(ingestor.take_messages(), vec![(9, message(b"x"))]);
}

#[test]
fn deliver_wraps_the_refusal_of_a_stopped_ingestor() {
    let mut ingestor = Ingestor::new();
    ingestor.stop();

    assert_eq!(
        EventsConnector::deliver(9, &mut ingestor, message(b"x")),
        Err(ConnectorError::IngestorError(IngestorError::Stopped))
    );
    assert_eq!(ingestor.len(), 0);
}

#[test]
fn push_before_initialize_fails_with_the_initialization_error() {
    let mut connector = EventsConnector::new(1, "events".to_string());

    assert_eq!(connector.push(message(b"a")), Err(ConnectorError::InitializationError));
    assert_eq!(connector.push(message(b"b")), Err(ConnectorError::InitializationError));
}

#[test]
fn push_after_initialize_reaches_the_shared_ingestor() {
    let ingestor = shared();
    let mut connector = EventsConnector::new(7, "events".to_string());
    assert_eq!(connector.id, 7);
    assert_eq!(connector.name, "events");

    assert_eq!(connector.initialize(ingestor.clone(), None), Ok(()));
    assert_eq!(connector.push(message(b"first")), Ok(()));
    assert_eq!(connector.push(message(b"second")), Ok(()));

    assert_eq!(
        ingestor.write().take_messages(),
        vec![(7, message(b"first")), (7, message(b"second"))]
    );
}

#[test]
fn connectors_that_share_an_ingestor_are_told_apart_by_their_identity() {
    let ingestor = shared();
    let mut first = EventsConnector::new(1, "a".to_string());
    let mut second = EventsConnector::new(2, "b".to_string());
    first.initialize(ingestor.clone(), None).unwrap();
    second.initialize(ingestor.clone(), Some(vec![])).unwrap();

    first.push(message(b"x")).unwrap();
    second.push(message(b"y")).unwrap();
    first.push(message(b"z")).unwrap();

    assert_eq!(
        ingestor.write().take_messages(),
        vec![(1, message(b"x")), (2, message(b"y")), (1, message(b"z"))]
    );
}

#[test]
fn push_to_a_stopped_ingestor_fails_with_the_wrapped_error() {
    let ingestor = shared();
    let mut connector = EventsConnector::new(1, "events".to_string());
    connector.initialize(ingestor.clone(), None).unwrap();
    connector.push(message(b"kept")).unwrap();
    ingestor.write().stop();

    assert_eq!(
        connector.push(message(b"lost")),
        Err(ConnectorError::IngestorError(IngestorError::Stopped))
    );
    assert_eq!(ingestor.read().len(), 1);
}

#[test]
fn initialize_again_binds_the_connector_to_the_new_ingestor() {
    let first = shared();
    let second = shared();
    let mut connector = EventsConnector::new(1, "events".to_string());
    connector.initialize(first.clone(), None).unwrap();
    connector.push(message(b"a")).unwrap();
    connector.initialize(second.clone(), None).unwrap();
    connector.push(message(b"b")).unwrap();

    assert_eq!(first.write().take_messages(), vec![(1, message(b"a"))]);
    assert_eq!(second.write().take_messages(), vec![(1, message(b"b"))]);
}

#[test]
fn discovery_is_unsupported_and_names_the_operation() {
    let connector = EventsConnector::new(1, "events".to_string());

    assert_eq!(
        connector.get_schemas(None).err(),
        Some(ConnectorError::UnsupportedConnectorMethod("get_schemas".to_string()))
    );
    assert_eq!(
        connector.get_schemas(Some(vec!["orders".to_string()])).err(),
        Some(ConnectorError::UnsupportedConnectorMethod("get_schemas".to_string()))
    );
    assert_eq!(
        connector.get_tables().err(),
        Some(ConnectorError::UnsupportedConnectorMethod("get_tables".to_string()))
    );
    assert_eq!(
        connector.test_connection(),
        Err(ConnectorError::UnsupportedConnectorMethod("test_connection".to_string()))
    );
}

#[test]
fn start_succeeds_and_stop_may_be_called_at_any_time() {
    let mut connector = EventsConnector::new(1, "events".to_string());

    connector.stop();
    assert_eq!(connector.start(), Ok(()));
    connector.stop();
    connector.stop();
    connector.initialize(shared(), None).unwrap();
    assert_eq!(connector.start(), Ok(()));
    connector.stop();
    assert_eq!(connector.push(message(b"a")), Ok(()));
}

struct Unreachable;

impl Connector for Unreachable {
    fn get_schemas(
        &self,
        _table_names: Option<Vec<String>>,
    ) -> Result<Vec<(String, Schema)>, ConnectorError> {
        Ok(vec![("orders".to_string(), Schema { fields: vec!["id".to_string()] })])
    }

    fn get_tables(&self) -> Result<Vec<TableInfo>, ConnectorError> {
        Ok(vec![TableInfo { name: "orders".to_string(), id: 0, columns: None }])
    }

    fn test_connection(&self) -> Result<(), ConnectorError> {
        Err(ConnectorError::ConnectionFailure("no route to host".to_string()))
    }

    fn initialize(
        &mut self,
        _ingestor: SharedIngestor,
        _tables: Option<Vec<TableInfo>>,
    ) -> Result<(), ConnectorError> {
        Ok(())
    }

    fn start(&self) -> Result<(), ConnectorError> {
        Ok(())
    }

    fn stop(&self) {}
}

#[test]
fn connector_errors_compare_by_kind_and_text() {
    let boxed: Box<dyn Connector> = Box::new(Unreachable);

    assert_eq!(
        boxed.test_connection(),
        Err(ConnectorError::ConnectionFailure("no route to host".to_string()))
    );
    assert_ne!(
        boxed.test_connection(),
        Err(ConnectorError::ConnectionFailure("timed out".to_string()))
    );
    assert_ne!(
        ConnectorError::UnsupportedConnectorMethod("get_tables".to_string()),
        ConnectorError::UnsupportedConnectorMethod("get_schemas".to_string())
    );
    assert_ne!(
        ConnectorError::InitializationError,
        ConnectorError::IngestorError(IngestorError::Stopped)
    );
    assert_eq!(boxed.get_tables().unwrap()[0].name, "orders");
    assert_eq!(boxed.get_schemas(None).unwrap()[0].1.fields, vec!["id".to_string()]);
}

#[test]
fn interleaved_pushes_are_all_kept_exactly_once() {
    let ingestor = shared();
    let connectors: u64 = 8;
    let rounds: u64 = 50;
    let mut senders: Vec<EventsConnector> = (0..connectors)
        .map(|id| {
            let mut connector = EventsConnector::new(id, format!("events-{id}"));
            connector.initialize(ingestor.clone(), None).unwrap();
            connector
        })
        .collect();

    let mut accepted: u64 = 0;
    let mut refused: u64 = 0;
    for round in 0..rounds {
        if round == 40 {
            ingestor.write().stop();
        }
        for sender in senders.iter_mut() {
            match sender.push(IngestionMessage::new(round.to_le_bytes().to_vec())) {
                Ok(()) => accepted += 1,
                Err(error) => {
                    assert_eq!(error, ConnectorError::IngestorError(IngestorError::Stopped));
                    refused += 1;
                }
            }
        }
    }

    let kept = ingestor.write().take_messages();
    assert_eq!(accepted, 40 * connectors);
    assert_eq!(refused, 10 * connectors);
    assert_eq!(kept.len() as u64, accepted);
    for id in 0..connectors {
        let of_this: Vec<Vec<u8>> = kept
            .iter()
            .filter(|(from, _)| *from == id)
            .map(|(_, message)| message.payload.clone())
            .collect();
        let expected: Vec<Vec<u8>> = (0..40u64).map(|n| n.to_le_bytes().to_vec()).collect();
        assert_eq!(of_this, expected);
    }
}
