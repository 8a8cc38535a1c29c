//! The errors met while serving a request, and the status each one is
//! answered with.

use vstd::prelude::*;

verus! {

/// Why a request is answered with an error page.
#[derive(PartialEq, Eq, Structural, Clone, Copy)]
pub enum ServerError {
    HeadersReadTimeout,
    HeadersReadingStream,
    HeadersFailedToParse,
    HeadersInvalidCookie,
    HeadersKeyNotFound,
    BadRequest,
    BodyReadTimeout,
    BodyReadingStream,
    BodyBufferLengthIsBiggerThanContentLength,
    BodySizeLimit,
    InternalServerError,
}

/// The status that answers an error: the request's own faults are 400, a
/// body over the size limit is 413, the server's faults are 500.
pub open spec fn error_status(e: ServerError) -> u16 {
    match e {
        ServerError::BodySizeLimit => 413,
        ServerError::InternalServerError => 500,
        _ => 400,
    }
}

pub fn error_status_exec(e: ServerError) -> (r: u16)
    ensures
        r == error_status(e),
{
    match e {
        ServerError::BodySizeLimit => 413,
        ServerError::InternalServerError => 500,
        _ => 400,
    }
}

/// Every error the request itself causes is answered with 400; only a body
/// over the size limit (413) and the server's own faults (500) differ.
pub proof fn lemma_request_faults_are_400(e: ServerError)
    ensures
        e != ServerError::BodySizeLimit && e != ServerError::InternalServerError ==> error_status(e)
            == 400,
        error_status(ServerError::BodySizeLimit) == 413,
        error_status(ServerError::InternalServerError) == 500,
{
}

} // verus!
