//! The boundary to the administrative control plane: how the outcome of a
//! service call becomes the outcome of a remote procedure call.

use vstd::prelude::*;

verus! {

/// The failure that a service of the control plane reports.
#[derive(Debug)]
pub struct ErrorResponse {
    pub message: String,
}

/// The failure that a remote caller is shown: an internal failure with the
/// text of the error behind it. Callers are not told what kind of error it
/// was.
#[derive(Debug)]
pub struct InternalFailure {
    pub message: String,
}

/// The outcome of a remote procedure call for the outcome of the service call
/// behind it: a response is handed on as it is, and every error becomes an
/// internal failure that carries the error's message.
pub fn into_rpc_outcome<T>(result: Result<T, ErrorResponse>) -> (outcome: Result<T, InternalFailure>)
    ensures
        match result {
            Ok(response) => outcome == Ok::<T, InternalFailure>(response),
            Err(error) => outcome is Err && outcome->Err_0.message@ == error.message@,
        },
{
    match result {
        Ok(response) => Ok(response),
        Err(error) => Err(InternalFailure { message: error.message }),
    }
}

} // verus!
