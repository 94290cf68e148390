//! The uniform error envelope: every non-success response carries a stable
//! machine code, a human message, the request's URL and a trace identifier
//! freshly generated per error instance.  Server-caused kinds are coerced to
//! a generic internal envelope before anything leaves the system, so no
//! internal detail ever reaches a response body.

use crate::errors::{AuthError, ServiceError};
use vstd::prelude::*;

verus! {

/// The length of a hyphenated trace identifier.
pub const TRACE_ID_LEN: usize = 36;

/// Relies on `uuid::Uuid::new_v4` and its `Display` (hyphenated, lower-case):
/// a fresh random identifier rendered as exactly 36 characters.  Randomness
/// admits no stronger promise than the length.
#[verifier::external_body]
fn new_trace_id() -> (r: String)
    ensures
        r@.len() == TRACE_ID_LEN,
{
    uuid::Uuid::new_v4().to_string()
}

/// The code the envelope carries for a bare HTTP status, when no finer kind
/// is known.
pub open spec fn spec_status_code_name(status: int) -> Seq<char> {
    if status == 400 {
        "BAD_REQUEST"@
    } else if status == 401 {
        "UNAUTHORIZED"@
    } else if status == 404 {
        "NOT_FOUND"@
    } else if status == 500 {
        "INTERNAL_SERVER_ERROR"@
    } else {
        "UNKNOWN"@
    }
}

/// A status is unhandled when it is server-caused or outside the known
/// classes; such an envelope must not reach the caller as it stands.
pub open spec fn spec_is_unhandled(status: int) -> bool {
    status >= 500 || status < 100 || status > 599
}

/// The one envelope shape of every non-success response.
pub struct HttpError {
    pub code: String,
    pub status_code: u16,
    pub message: String,
    pub url: String,
    pub x_trace_id: String,
}

/// What an envelope for the given parts must look like: the trace id is
/// fresh per instance, so only its length is pinned.
pub open spec fn envelope_matches(
    e: &HttpError,
    status: int,
    code: Seq<char>,
    message: Seq<char>,
    url: Seq<char>,
) -> bool {
    &&& e.status_code == status
    &&& e.code@ == code
    &&& e.message@ == message
    &&& e.url@ == url
    &&& e.x_trace_id@.len() == TRACE_ID_LEN
}

impl HttpError {
    /// An envelope for a bare status and message, coding the status itself.
    pub fn from_message(status_code: u16, message: String, url: String) -> (r: HttpError)
        ensures
            envelope_matches(
                &r,
                status_code as int,
                spec_status_code_name(status_code as int),
                message@,
                url@,
            ),
    {
        let code: String = if status_code == 400 {
            "BAD_REQUEST".to_owned()
        } else if status_code == 401 {
            "UNAUTHORIZED".to_owned()
        } else if status_code == 404 {
            "NOT_FOUND".to_owned()
        } else if status_code == 500 {
            "INTERNAL_SERVER_ERROR".to_owned()
        } else {
            "UNKNOWN".to_owned()
        };
        HttpError { code, status_code, message, url, x_trace_id: new_trace_id() }
    }

    /// The generic internal envelope; without a message it says only that
    /// something went wrong, leaking nothing.
    pub fn internal(msg: Option<String>, url: String) -> (r: HttpError)
        ensures
            msg matches Some(m) ==> envelope_matches(
                &r,
                500,
                spec_status_code_name(500),
                m@,
                url@,
            ),
            msg is None ==> envelope_matches(
                &r,
                500,
                spec_status_code_name(500),
                "Something went wrong"@,
                url@,
            ),
    {
        let message = match msg {
            Some(m) => m,
            None => "Something went wrong".to_owned(),
        };
        HttpError::from_message(500, message, url)
    }

    /// The envelope for a route or row that does not exist.
    pub fn not_found(url: String) -> (r: HttpError)
        ensures
            envelope_matches(&r, 404, spec_status_code_name(404), "Route not found"@, url@),
    {
        HttpError::from_message(404, "Route not found".to_owned(), url)
    }

    /// Whether this envelope is server-caused or unclassifiable and so must
    /// be sanitized before it is sent.
    pub fn is_unhandled(&self) -> (r: bool)
        ensures
            r == spec_is_unhandled(self.status_code as int),
    {
        self.status_code >= 500 || self.status_code < 100
    }

    /// The last line of defence of the error responder: a handled envelope
    /// passes through unchanged; an unhandled one is replaced by the generic
    /// internal envelope for the same URL, so no internal failure detail
    /// ever reaches the response body.
    pub fn sanitized(self) -> (r: HttpError)
        ensures
            !spec_is_unhandled(self.status_code as int) ==> r == self,
            spec_is_unhandled(self.status_code as int) ==> envelope_matches(
                &r,
                500,
                spec_status_code_name(500),
                "Something went wrong"@,
                self.url@,
            ),
    {
        if self.is_unhandled() {
            let url = self.url;
            HttpError::internal(None, url)
        } else {
            self
        }
    }
}

/// The envelope an authentication rejection is answered with: the kind's own
/// stable code and message under the kind's status.
pub fn auth_error_response(kind: AuthError, url: String) -> (r: HttpError)
    ensures
        envelope_matches(&r, kind.spec_status(), kind.spec_code(), kind.spec_message(), url@),
{
    HttpError {
        code: kind.code(),
        status_code: kind.status_code(),
        message: kind.message(),
        url,
        x_trace_id: new_trace_id(),
    }
}

/// The envelope a service failure is answered with.  Internal kinds carry
/// only the generic message; the not-found kind is surfaced precisely.
pub fn service_error_response(kind: ServiceError, url: String) -> (r: HttpError)
    ensures
        envelope_matches(&r, kind.spec_status(), kind.spec_code(), kind.spec_message(), url@),
{
    HttpError {
        code: kind.code(),
        status_code: kind.status_code(),
        message: kind.message(),
        url,
        x_trace_id: new_trace_id(),
    }
}

/// What a route hands back: the operation's payload, or the envelope that
/// stands for its failure.
pub enum RouteResult<T> {
    Success(T),
    Failure(HttpError),
}

} // verus!
