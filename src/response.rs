use vstd::prelude::*;

verus! {

/// How a failed request is classified for the transport layer.
#[derive(Debug, Clone, Copy, PartialEq, Eq, Structural)]
pub enum ErrorKind {
    /// The query was well formed but nothing matches it.
    NotFound,
    /// Anything else: upstream failure, malformed payload, decode failure.
    InternalError,
}

/// HTTP status code that the transport layer sends for an error kind.
pub open spec fn spec_status_of(kind: ErrorKind) -> u16 {
    match kind {
        ErrorKind::NotFound => 404,
        ErrorKind::InternalError => 500,
    }
}

impl ErrorKind {
    pub fn status(&self) -> (r: u16)
        ensures
            r == spec_status_of(*self),
    {
        match self {
            ErrorKind::NotFound => 404,
            ErrorKind::InternalError => 500,
        }
    }
}

/// A terminal failure of one pipeline invocation.
#[derive(Debug, Clone)]
pub struct ApiError {
    pub kind: ErrorKind,
    pub message: String,
}

/// `r` is a failure of kind `kind`.
pub open spec fn fails_with<T>(r: Result<T, ApiError>, kind: ErrorKind) -> bool {
    r matches Err(e) && e.kind == kind
}

/// `r` is a failure of kind `kind` with exactly the message `message`.
pub open spec fn fails_saying<T>(r: Result<T, ApiError>, kind: ErrorKind, message: Seq<char>) -> bool {
    r matches Err(e) && e.kind == kind && e.message@ == message
}

/// What a request handler answers, independent of any HTTP framework.
#[derive(Debug)]
pub enum ApiV1Response {
    /// A 200 response with a JSON body.
    Json(String),
    /// A 307 redirect to the given URL, meant to be cached for a long time.
    TemporaryRedirect(String),
    /// An error response with a status code and a message.
    Error { status: u16, message: String },
}

impl ApiV1Response {
    /// The response for a failed pipeline invocation.
    pub fn from_error(e: ApiError) -> (r: ApiV1Response)
        ensures
            r matches ApiV1Response::Error { status, message }
                && status == spec_status_of(e.kind) && message@ == e.message@,
    {
        let status = e.kind.status();
        ApiV1Response::Error { status, message: e.message }
    }
}

} // verus!
