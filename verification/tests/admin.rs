use dozer_core::admin::{into_rpc_outcome, ErrorResponse};

#[test]
fn a_response_passes_the_boundary_unchanged() {
    let outcome = into_rpc_outcome::<u32>(Ok(17));

    assert_eq!(outcome.unwrap(), 17);
}

#[test]
fn every_error_becomes_an_internal_failure_with_its_message() {
    let outcome =
        into_rpc_outcome::<u32>(Err(ErrorResponse { message: "connection not found".to_string() }));

    assert_eq!(outcome.unwrap_err().message, "connection not found");
}

#[test]
fn an_empty_message_stays_empty() {
    let outcome = into_rpc_outcome::<String>(Err(ErrorResponse { message: String::new() }));

    assert_eq!(outcome.unwrap_err().message, "");
}
