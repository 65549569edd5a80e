use vstd::prelude::*;

verus! {

/// The request half of a recorded HTTP exchange.
///
/// Headers are kept as an ordered list of `(name, value)` pairs.
#[derive(Debug, Clone)]
pub struct HttpRequest {
    pub method: String,
    pub request_headers: Vec<(String, String)>,
}

/// A recorded HTTP exchange attached to a record after a fetch attempt.
///
/// On a terminal outcome exactly one of `key` (body stored under that object
/// key) or `error` (transport failure text) is populated.
#[derive(Debug, Clone)]
pub struct HttpResponse {
    pub status: Option<i64>,
    pub request: HttpRequest,
    pub response_headers: Vec<(String, String)>,
    pub key: Option<String>,
    pub error: Option<String>,
}

impl HttpResponse {
    /// A terminal response carries a stored body or an error, never both.
    pub open spec fn is_terminal(self) -> bool {
        self.key is Some <==> self.error is None
    }

    /// The response recorded for a successful exchange: the body was stored
    /// under `key`, and no error is carried.
    pub fn from_success(
        method: String,
        request_headers: Vec<(String, String)>,
        status: i64,
        response_headers: Vec<(String, String)>,
        key: String,
    ) -> (r: HttpResponse)
        ensures
            r.status == Some(status),
            r.request.method == method,
            r.request.request_headers == request_headers,
            r.response_headers == response_headers,
            r.key == Some(key),
            r.error is None,
            r.is_terminal(),
    {
        HttpResponse {
            status: Some(status),
            request: HttpRequest { method, request_headers },
            response_headers,
            key: Some(key),
            error: None,
        }
    }

    /// The response synthesized for a transport failure: no status, no stored
    /// body, the failure text carried in `error`.
    pub fn from_error(method: String, error: String) -> (r: HttpResponse)
        ensures
            r.status is None,
            r.request.method == method,
            r.request.request_headers@ == Seq::<(String, String)>::empty(),
            r.response_headers@ == Seq::<(String, String)>::empty(),
            r.key is None,
            r.error == Some(error),
            r.is_terminal(),
    {
        HttpResponse {
            status: None,
            request: HttpRequest { method, request_headers: Vec::new() },
            response_headers: Vec::new(),
            key: None,
            error: Some(error),
        }
    }
}

/// A sorted, duplicate-free list of absolute URL strings discovered in a
/// fetched document.
#[derive(Debug, Clone)]
pub struct Uris {
    pub uris: Vec<String>,
}

/// The closed set of annotations a record can carry.
#[derive(Debug, Clone)]
pub enum RecordMetadata {
    HttpResponse(HttpResponse),
    Uris(Uris),
    Title(String),
}

/// The unit that flows through the pipeline: an absolute URL, the identifier
/// of the originating work item, and an ordered list of annotations.
#[derive(Debug, Clone)]
pub struct Record {
    pub uri: String,
    pub task_id: String,
    pub metadata: Vec<RecordMetadata>,
}

impl Record {
    /// Extends a record with the outcome of a fetch attempt.
    ///
    /// The prior annotations are kept unchanged, in order, and exactly one
    /// `HttpResponse` entry is appended after them; `uri` and `task_id` pass
    /// through untouched.
    pub fn with_http_response(self, response: HttpResponse) -> (r: Record)
        ensures
            r.uri == self.uri,
            r.task_id == self.task_id,
            r.metadata@ == self.metadata@.push(RecordMetadata::HttpResponse(response)),
    {
        let mut metadata = self.metadata;
        metadata.push(RecordMetadata::HttpResponse(response));
        Record { uri: self.uri, task_id: self.task_id, metadata }
    }
}

} // verus!
