//! The event record: the serialized unit of telemetry for one proxied HTTP
//! exchange, and the typed body value its request and response sides carry.

use vstd::prelude::*;

verus! {

#[verifier::external_type_specification]
#[verifier::external_body]
pub struct ExJsonValue(serde_json::Value);

/// The typed body of a request or response, classified exactly once from the
/// accumulated bytes at end-of-stream: nothing for an empty body; a parsed
/// JSON document where the content type says JSON and the bytes parse; the
/// base64 text of the raw bytes where they do not; plain text otherwise.
pub enum BodyValue {
    Null,
    Json(serde_json::Value),
    Encoded(String),
    Text(String),
}

/// The request half of an event record. Header keys are case-normalized and
/// pseudo-headers are stripped before storage.
pub struct RequestInfo {
    pub time: String,
    pub verb: String,
    pub uri: String,
    pub headers: Vec<(String, String)>,
    pub transfer_encoding: Option<String>,
    pub api_version: Option<String>,
    pub ip_address: Option<String>,
    pub body: BodyValue,
}

/// The response half of an event record, with its numeric status.
pub struct ResponseInfo {
    pub time: String,
    pub status: usize,
    pub headers: Vec<(String, String)>,
    pub ip_address: Option<String>,
    pub body: BodyValue,
}

/// The serialized unit of telemetry: request and response metadata and bodies
/// plus the identity attribution of the exchange.
pub struct Event {
    pub request: RequestInfo,
    pub response: Option<ResponseInfo>,
    pub user_id: Option<String>,
    pub company_id: Option<String>,
    pub metadata: BodyValue,
    pub direction: String,
    pub session_token: Option<String>,
    pub blocked_by: Option<String>,
}

impl RequestInfo {
    /// An empty request record, before any callback has populated it.
    pub fn new() -> (r: RequestInfo)
        ensures
            r.time@ == Seq::<char>::empty(),
            r.verb@ == Seq::<char>::empty(),
            r.uri@ == Seq::<char>::empty(),
            r.headers@.len() == 0,
            r.transfer_encoding is None,
            r.api_version is None,
            r.ip_address is None,
            r.body is Null,
    {
        RequestInfo {
            time: String::new(),
            verb: String::new(),
            uri: String::new(),
            headers: Vec::new(),
            transfer_encoding: None,
            api_version: None,
            ip_address: None,
            body: BodyValue::Null,
        }
    }
}

impl Event {
    /// An empty event record, created at exchange start.
    pub fn new() -> (r: Event)
        ensures
            r.request.time@ == Seq::<char>::empty(),
            r.request.verb@ == Seq::<char>::empty(),
            r.request.uri@ == Seq::<char>::empty(),
            r.request.headers@.len() == 0,
            r.request.transfer_encoding is None,
            r.request.api_version is None,
            r.request.ip_address is None,
            r.request.body is Null,
            r.response is None,
            r.user_id is None,
            r.company_id is None,
            r.metadata is Null,
            r.direction@ == Seq::<char>::empty(),
            r.session_token is None,
            r.blocked_by is None,
    {
        Event {
            request: RequestInfo::new(),
            response: None,
            user_id: None,
            company_id: None,
            metadata: BodyValue::Null,
            direction: String::new(),
            session_token: None,
            blocked_by: None,
        }
    }
}

} // verus!
