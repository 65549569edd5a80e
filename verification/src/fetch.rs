use vstd::prelude::*;
use crate::error::AppError;
use crate::record::HttpResponse;
use crate::url_fsm::str_eq;
use crate::web::default_user_agent;

verus! {

// ---------------------------------------------------------------------------
// Configuration
// ---------------------------------------------------------------------------

/// Settings of the direct HTTP fetcher.
#[derive(Debug, Clone)]
pub struct HttpFetcherConfig {
    pub proxy_server: Option<String>,
    pub object_store: String,
    pub timeout: i32,
    pub user_agent: Option<String>,
}

/// The client settings shared by the simple fetchers.
#[derive(Debug, Clone)]
pub struct BasicHttpFetcherConfig {
    pub proxy_server: Option<String>,
    pub timeout: i32,
    pub user_agent: Option<String>,
}

/// Settings of the browser-based fetcher.
#[derive(Debug, Clone)]
pub struct HeadlessBrowserConfig {
    pub proxy_server: Option<String>,
    pub browser_path: Option<String>,
    pub object_store: String,
    pub timeout: i32,
    pub user_agent: Option<String>,
}

impl HeadlessBrowserConfig {
    /// The configured user agent, or the package default.
    pub fn get_user_agent(&self) -> (r: String)
        ensures
            match self.user_agent {
                Some(u) => r@ == u@,
                None => r@ == default_user_agent(),
            },
    {
        crate::web::get_user_agent(self.user_agent.clone())
    }
}

// ---------------------------------------------------------------------------
// Body decoding
// ---------------------------------------------------------------------------

/// What the standard base64 alphabet decodes a string to, or `None` where it
/// is not valid base64.
pub uninterp spec fn b64_decode_of(s: Seq<char>) -> Option<Seq<u8>>;

/// Relies on `base64::engine::general_purpose::STANDARD` via
/// `base64::Engine::decode`: strict decoding under the standard alphabet, a
/// function of the input alone.
#[verifier::external_body]
fn b64_decode(s: &str) -> (r: Option<Vec<u8>>)
    ensures
        r matches Some(v) ==> b64_decode_of(s@) == Some(v@),
        r is None <==> b64_decode_of(s@) is None,
{
    base64::Engine::decode(&base64::engine::general_purpose::STANDARD, s).ok()
}

/// Turns a captured body into its bytes: a base64-flagged body is decoded,
/// any other is taken as UTF-8 text.
pub fn decode_body(body: &str, base64_encoded: bool) -> (r: Result<Vec<u8>, AppError>)
    ensures
        match r {
            Ok(v) => if base64_encoded {
                b64_decode_of(body@) == Some(v@)
            } else {
                v@ == vstd::utf8::encode_utf8(body@)
            },
            Err(e) => base64_encoded && b64_decode_of(body@) is None && e
                == AppError::Base64DecodeError,
        },
{
    if base64_encoded {
        match b64_decode(body) {
            Some(v) => Ok(v),
            None => Err(AppError::Base64DecodeError),
        }
    } else {
        Ok(body.as_bytes_vec())
    }
}

// ---------------------------------------------------------------------------
// Document capture
// ---------------------------------------------------------------------------

/// A devtools request-will-be-sent notification, reduced to what the capture
/// reads.
#[derive(Debug, Clone)]
pub struct CdpRequestEvent {
    pub request_id: String,
    pub is_document: bool,
    pub method: String,
    pub headers: Vec<(String, String)>,
}

/// A devtools response-received notification, reduced to what the capture
/// reads.
#[derive(Debug, Clone)]
pub struct CdpResponseEvent {
    pub request_id: String,
    pub is_document: bool,
    pub status: i64,
    pub headers: Vec<(String, String)>,
}

/// Correlates the devtools event streams of one navigation into a single
/// description of the top-level document fetch: the first document-typed
/// request pins the request id, the matching response pins the status, and
/// the body is fetched when that request finishes loading (or when the
/// stream goes idle).
#[derive(Debug, Clone)]
pub struct DocumentCapture {
    pub doc_request_id: Option<String>,
    pub method: String,
    pub request_headers: Vec<(String, String)>,
    pub status: Option<i64>,
    pub response_headers: Vec<(String, String)>,
}

impl DocumentCapture {
    /// A capture that has seen no events: no request id, no status, the GET
    /// method the navigation will issue.
    pub fn new() -> (r: DocumentCapture)
        ensures
            r.doc_request_id is None,
            r.status is None,
            r.method@ == "GET"@,
            r.request_headers@ == Seq::<(String, String)>::empty(),
            r.response_headers@ == Seq::<(String, String)>::empty(),
    {
        DocumentCapture {
            doc_request_id: None,
            method: String::from_str("GET"),
            request_headers: Vec::new(),
            status: None,
            response_headers: Vec::new(),
        }
    }

    /// A document-typed request pins the request id, method and request
    /// headers, the first one winning; anything else leaves the capture
    /// untouched.
    pub fn on_request_will_be_sent(&mut self, e: CdpRequestEvent)
        ensures
            if e.is_document && old(self).doc_request_id is None {
                final(self).doc_request_id == Some(e.request_id) && final(self).method == e.method
                    && final(self).request_headers == e.headers && final(self).status == old(
                    self,
                ).status && final(self).response_headers == old(self).response_headers
            } else {
                *final(self) == *old(self)
            },
    {
        if e.is_document && self.doc_request_id.is_none() {
            self.doc_request_id = Some(e.request_id);
            self.method = e.method;
            self.request_headers = e.headers;
        }
    }

    /// A document-typed response pins the request id, status and response
    /// headers; anything else leaves the capture untouched.
    pub fn on_response_received(&mut self, e: CdpResponseEvent)
        ensures
            if e.is_document {
                final(self).doc_request_id == Some(e.request_id) && final(self).status == Some(
                    e.status,
                ) && final(self).response_headers == e.headers && final(self).method == old(
                    self,
                ).method && final(self).request_headers == old(self).request_headers
            } else {
                *final(self) == *old(self)
            },
    {
        if e.is_document {
            self.doc_request_id = Some(e.request_id);
            self.status = Some(e.status);
            self.response_headers = e.headers;
        }
    }

    /// Whether a finished load is the document request, and with it the cue
    /// to fetch the body.
    pub fn is_document_request(&self, request_id: &str) -> (r: bool)
        ensures
            r == (self.doc_request_id matches Some(id) && id@ == request_id@),
    {
        match &self.doc_request_id {
            Some(id) => str_eq(id.as_str(), request_id),
            None => false,
        }
    }

    /// The captured exchange as a terminal response whose body, if any, was
    /// stored under `key`.
    pub fn into_response(self, key: Option<String>) -> (r: HttpResponse)
        ensures
            r.status == self.status,
            r.request.method == self.method,
            r.request.request_headers == self.request_headers,
            r.response_headers == self.response_headers,
            r.key == key,
            r.error is None,
            key is Some ==> r.is_terminal(),
    {
        HttpResponse {
            status: self.status,
            request: crate::record::HttpRequest {
                method: self.method,
                request_headers: self.request_headers,
            },
            response_headers: self.response_headers,
            key,
            error: None,
        }
    }
}

} // verus!
