//! The data half of the transport layer's error handling: the response
//! record served for a failed request, assembled from the error taxonomy.
//! The transport wrapper itself lives outside the verified core.

use vstd::prelude::*;

use crate::error::{spec_error_label, spec_error_message, KreuzbergError};

verus! {

/// A payload that was read from a request's JSON body.  The transport
/// layer wraps its decoder so that decoding failures surface as
/// structured error responses rather than plain text.
pub struct JsonApi<T>(pub T);

/// The body served for a failed request.
pub struct ErrorResponse {
    /// The error taxonomy label.
    pub error_type: String,
    /// Readable message.
    pub message: String,
    /// Optional diagnostic trace; never filled by the core.
    pub traceback: Option<String>,
    /// The HTTP status the response is served with.
    pub status_code: u16,
}

/// Builds the response body for an error under the given status.
pub fn build_error_response(status: u16, e: &KreuzbergError) -> (r: ErrorResponse)
    ensures
        r.error_type@ == spec_error_label(e@),
        r.message@ == spec_error_message(e@),
        r.traceback is None,
        r.status_code == status,
{
    ErrorResponse {
        error_type: e.error_type_label().to_owned(),
        message: e.message().to_owned(),
        traceback: None,
        status_code: status,
    }
}

} // verus!
