//! Per-exchange capture: one unit per in-flight HTTP exchange, populating an
//! event record incrementally as the host delivers header and body callbacks.
//! Body bytes are accumulated chunk by chunk and classified exactly once, at
//! end-of-stream, from the full accumulation.

use vstd::prelude::*;
use vstd::string::*;
use vstd::seq_lib::*;
use base64::Engine;
use crate::config::Config;
use crate::event::{BodyValue, Event, RequestInfo, ResponseInfo};
use crate::headers::{
    header_list_to_map, lookup, spec_header_map, spec_lookup, spec_strip_pseudo,
    strip_pseudo_headers,
};
use crate::ip::spec_valid_ip;
use crate::text::{spec_parse_usize_or_zero, spec_split, spec_trim, parse_usize_or_zero,
    split_char, trim};

verus! {

// ---------------------------------------------------------------------------
// Outside calls the classification relies on
// ---------------------------------------------------------------------------

/// Whether the bytes parse as a JSON document.
pub uninterp spec fn json_parses(bytes: Seq<u8>) -> bool;

/// Relies on serde_json::from_slice: whether bytes parse as a JSON document
/// depends on the bytes alone.
#[verifier::external_body]
fn parse_json(body: &Vec<u8>) -> (r: Option<serde_json::Value>)
    ensures
        r is Some <==> json_parses(body@),
{
    serde_json::from_slice::<serde_json::Value>(body.as_slice()).ok()
}

/// The standard-alphabet, padded base64 rendering of the bytes.
pub uninterp spec fn base64_of(bytes: Seq<u8>) -> Seq<char>;

/// Relies on base64's general-purpose STANDARD engine: the encoding depends on
/// the bytes alone.
#[verifier::external_body]
fn base64_encode(body: &Vec<u8>) -> (r: String)
    ensures
        r@ == base64_of(body@),
{
    base64::engine::general_purpose::STANDARD.encode(body.as_slice())
}

/// The text obtained by decoding the bytes as UTF-8 with invalid sequences
/// replaced.
pub uninterp spec fn utf8_lossy_of(bytes: Seq<u8>) -> Seq<char>;

/// Relies on String::from_utf8_lossy: valid UTF-8 decodes exactly; invalid
/// sequences become replacement characters. The result depends on the bytes
/// alone.
#[verifier::external_body]
fn utf8_lossy(body: &Vec<u8>) -> (r: String)
    ensures
        r@ == utf8_lossy_of(body@),
        vstd::utf8::valid_utf8(body@) ==> r@ == vstd::utf8::decode_utf8(body@),
{
    String::from_utf8_lossy(body.as_slice()).into_owned()
}

/// Relies on chrono::Utc::now (then DateTime::to_rfc3339): the wall-clock
/// instant of the call, rendered in ISO-8601 form.
#[verifier::external_body]
fn now_rfc3339() -> String {
    chrono::Utc::now().to_rfc3339()
}

// ---------------------------------------------------------------------------
// Body classification
// ---------------------------------------------------------------------------

pub open spec fn spec_content_type_is_json(ct: Option<Seq<char>>) -> bool {
    ct is Some && ct->0 == "application/json"@
}

/// What the typed body must be for accumulated bytes and content type: empty
/// bytes give nothing; a JSON content type gives the parsed document when the
/// bytes parse and their base64 rendering when they do not; anything else is
/// kept as (lossily decoded) text.
pub open spec fn spec_body_classified(b: BodyValue, bytes: Seq<u8>, ct: Option<Seq<char>>) -> bool {
    if bytes.len() == 0 {
        b is Null
    } else if spec_content_type_is_json(ct) {
        if json_parses(bytes) {
            b is Json
        } else {
            b matches BodyValue::Encoded(s) && s@ == base64_of(bytes)
        }
    } else {
        b matches BodyValue::Text(s) && s@ == utf8_lossy_of(bytes)
    }
}

/// Classify accumulated body bytes into the typed body value.
pub fn body_bytes_to_value(body: Vec<u8>, content_type: Option<&String>) -> (r: BodyValue)
    ensures
        spec_body_classified(
            r,
            body@,
            match content_type {
                Some(c) => Some(c@),
                None => None,
            },
        ),
{
    if body.len() == 0 {
        return BodyValue::Null;
    }
    if let Some(ct) = content_type {
        if *ct == "application/json".to_owned() {
            return match parse_json(&body) {
                Some(v) => BodyValue::Json(v),
                None => BodyValue::Encoded(base64_encode(&body)),
            };
        }
    }
    BodyValue::Text(utf8_lossy(&body))
}

// ---------------------------------------------------------------------------
// Client IP extraction
// ---------------------------------------------------------------------------

/// The forwarding headers consulted for a client address, most trusted first.
pub open spec fn spec_forwarding_headers() -> Seq<Seq<char>> {
    seq![
        "x-client-ip"@,
        "x-forwarded-for"@,
        "cf-connecting-ip"@,
        "fastly-client-ip"@,
        "true-client-ip"@,
        "x-real-ip"@,
        "x-cluster-client-ip"@,
        "x-forwarded"@,
        "forwarded-for"@,
        "forwarded"@,
        "x-appengine-user-ip"@,
        "cf-pseudo-ipv4"@,
    ]
}

/// The first token, trimmed, that is a syntactically valid IP address.
pub open spec fn spec_first_valid_token(tokens: Seq<Seq<char>>) -> Option<Seq<char>>
    decreases tokens.len(),
{
    if tokens.len() == 0 {
        None
    } else if spec_valid_ip(spec_trim(tokens[0])) {
        Some(spec_trim(tokens[0]))
    } else {
        spec_first_valid_token(tokens.skip(1))
    }
}

/// The first valid IP among the comma-separated tokens of one header value.
pub open spec fn spec_ip_from_value(v: Seq<char>) -> Option<Seq<char>> {
    spec_first_valid_token(spec_split(v, ','))
}

/// Walk the forwarding headers in priority order; within each present header,
/// take the first valid token; a header whose value holds no valid IP does not
/// stop the walk.
pub open spec fn spec_client_ip_from(
    names: Seq<Seq<char>>,
    hs: Seq<(Seq<char>, Seq<char>)>,
) -> Option<Seq<char>>
    decreases names.len(),
{
    if names.len() == 0 {
        None
    } else {
        match spec_lookup(hs, names[0]) {
            Some(v) => match spec_ip_from_value(v) {
                Some(ip) => Some(ip),
                None => spec_client_ip_from(names.skip(1), hs),
            },
            None => spec_client_ip_from(names.skip(1), hs),
        }
    }
}

pub open spec fn spec_client_ip(hs: Seq<(Seq<char>, Seq<char>)>) -> Option<Seq<char>> {
    spec_client_ip_from(spec_forwarding_headers(), hs)
}

fn forwarding_header_name(i: usize) -> (r: String)
    requires
        i < 12,
    ensures
        r@ == spec_forwarding_headers()[i as int],
{
    if i == 0 {
        "x-client-ip".to_owned()
    } else if i == 1 {
        "x-forwarded-for".to_owned()
    } else if i == 2 {
        "cf-connecting-ip".to_owned()
    } else if i == 3 {
        "fastly-client-ip".to_owned()
    } else if i == 4 {
        "true-client-ip".to_owned()
    } else if i == 5 {
        "x-real-ip".to_owned()
    } else if i == 6 {
        "x-cluster-client-ip".to_owned()
    } else if i == 7 {
        "x-forwarded".to_owned()
    } else if i == 8 {
        "forwarded-for".to_owned()
    } else if i == 9 {
        "forwarded".to_owned()
    } else if i == 10 {
        "x-appengine-user-ip".to_owned()
    } else {
        "cf-pseudo-ipv4".to_owned()
    }
}

fn first_valid_ip_in_value(value: &String) -> (r: Option<String>)
    ensures
        r.deep_view() == spec_ip_from_value(value@),
{
    let tokens = split_char(value.as_str(), ',');
    let ghost toks = spec_split(value@, ',');
    let n = tokens.len();
    let mut j: usize = 0;
    proof {
        assert(toks.skip(0) =~= toks);
    }
    while j < n
        invariant
            j <= n,
            n == tokens@.len(),
            tokens.deep_view() == toks,
            toks == spec_split(value@, ','),
            spec_first_valid_token(toks) == spec_first_valid_token(toks.skip(j as int)),
        decreases n - j,
    {
        proof {
            assert(toks.skip(j as int)[0] == toks[j as int]);
            assert(toks[j as int] == tokens@[j as int]@);
            assert(toks.skip(j as int).skip(1) =~= toks.skip(j + 1));
        }
        let t = trim(tokens[j].as_str());
        if crate::ip::is_valid_ip(t.as_str()) {
            proof {
                assert(spec_first_valid_token(toks.skip(j as int)) == Some(
                    spec_trim(toks[j as int]),
                ));
            }
            return Some(t);
        }
        j = j + 1;
    }
    proof {
        assert(toks.skip(n as int) =~= Seq::<Seq<char>>::empty());
    }
    None
}

/// Extract the client IP: the first syntactically valid address found among a
/// prioritized list of forwarding headers, taking the first valid
/// comma-separated token within each.
pub fn get_client_ip(headers: &Vec<(String, String)>) -> (r: Option<String>)
    ensures
        r.deep_view() == spec_client_ip(headers.deep_view()),
{
    let ghost names = spec_forwarding_headers();
    let ghost dv = headers.deep_view();
    let mut i: usize = 0;
    proof {
        assert(names.skip(0) =~= names);
    }
    while i < 12
        invariant
            i <= 12,
            dv == headers.deep_view(),
            names == spec_forwarding_headers(),
            spec_client_ip_from(names, dv) == spec_client_ip_from(names.skip(i as int), dv),
        decreases 12 - i,
    {
        proof {
            assert(names.skip(i as int)[0] == names[i as int]);
            assert(names.skip(i as int).skip(1) =~= names.skip(i + 1));
        }
        let name = forwarding_header_name(i);
        if let Some(value) = lookup(headers, name.as_str()) {
            if let Some(ip) = first_valid_ip_in_value(&value) {
                return Some(ip);
            }
        }
        i = i + 1;
    }
    proof {
        assert(names.skip(12) =~= Seq::<Seq<char>>::empty());
    }
    None
}

// ---------------------------------------------------------------------------
// The capture unit
// ---------------------------------------------------------------------------

/// One capture unit per in-flight exchange: the event record under
/// construction plus the body accumulators for either direction.
pub struct EventHttpContext {
    pub config: Config,
    pub event: Event,
    pub request_body: Vec<u8>,
    pub response_body: Vec<u8>,
}

/// The bytes a sequence of chunks accumulates to, fed in arrival order.
pub open spec fn spec_accumulated(chunks: Seq<Seq<u8>>) -> Seq<u8>
    decreases chunks.len(),
{
    if chunks.len() == 0 {
        Seq::<u8>::empty()
    } else {
        spec_accumulated(chunks.drop_last()) + chunks.last()
    }
}

/// Chunk-by-chunk accumulation yields exactly the concatenation of all chunks,
/// so the classification at end-of-stream sees the full body, never a partial
/// chunk.
pub proof fn lemma_accumulated_is_concatenation(chunks: Seq<Seq<u8>>)
    ensures
        spec_accumulated(chunks) == chunks.flatten(),
    decreases chunks.len(),
{
    if chunks.len() == 0 {
        assert(chunks.flatten() =~= Seq::<u8>::empty());
    } else {
        lemma_accumulated_is_concatenation(chunks.drop_last());
        chunks.lemma_flatten_and_flatten_alt_are_equivalent();
        chunks.drop_last().lemma_flatten_and_flatten_alt_are_equivalent();
        assert(chunks.flatten_alt() == chunks.drop_last().flatten_alt() + chunks.last());
    }
}

pub open spec fn spec_chunk_bytes(chunk: Option<Vec<u8>>) -> Seq<u8> {
    match chunk {
        Some(c) => c@,
        None => Seq::<u8>::empty(),
    }
}

impl EventHttpContext {
    /// A fresh capture unit for one exchange.
    pub fn new(config: Config) -> (r: EventHttpContext)
        ensures
            r.config == config,
            r.event.request.headers@.len() == 0,
            r.event.request.body is Null,
            r.event.response is None,
            r.event.user_id is None,
            r.event.company_id is None,
            r.request_body@ == Seq::<u8>::empty(),
            r.response_body@ == Seq::<u8>::empty(),
    {
        EventHttpContext {
            config,
            event: Event::new(),
            request_body: Vec::new(),
            response_body: Vec::new(),
        }
    }

    /// Populate the request record from the raw header list the host exposes:
    /// time, verb, URI, the case-normalized header map with pseudo-headers
    /// stripped, client IP, API version, transfer encoding, and the configured
    /// user and company attribution headers.
    pub fn on_http_request_headers(&mut self, raw_headers: Vec<(String, String)>)
        ensures
            ({
                let m = spec_header_map(raw_headers.deep_view());
                let stripped = spec_strip_pseudo(m);
                &&& final(self).event.request.headers.deep_view() == stripped
                &&& final(self).event.request.uri@ == (match spec_lookup(m, ":path"@) {
                    Some(u) => u,
                    None => Seq::<char>::empty(),
                })
                &&& final(self).event.request.verb@ == (match spec_lookup(m, ":method"@) {
                    Some(v) => v,
                    None => "GET"@,
                })
                &&& final(self).event.request.ip_address.deep_view() == spec_client_ip(stripped)
                &&& final(self).event.request.api_version.deep_view() == spec_lookup(
                    stripped,
                    "x-api-version"@,
                )
                &&& final(self).event.request.transfer_encoding.deep_view() == spec_lookup(
                    stripped,
                    "transfer-encoding"@,
                )
                &&& final(self).event.user_id.deep_view() == (match old(self).config.env.user_id_header {
                    Some(h) => spec_lookup(stripped, h@),
                    None => old(self).event.user_id.deep_view(),
                })
                &&& final(self).event.company_id.deep_view() == (match old(self).config.env.company_id_header {
                    Some(h) => spec_lookup(stripped, h@),
                    None => old(self).event.company_id.deep_view(),
                })
                &&& final(self).event.request.body == old(self).event.request.body
                &&& final(self).event.response == old(self).event.response
                &&& final(self).request_body == old(self).request_body
                &&& final(self).response_body == old(self).response_body
                &&& final(self).config == old(self).config
            }),
    {
        self.event.request.time = now_rfc3339();
        let m = header_list_to_map(raw_headers);
        self.event.request.uri = match lookup(&m, ":path") {
            Some(u) => u,
            None => String::new(),
        };
        self.event.request.verb = match lookup(&m, ":method") {
            Some(v) => v,
            None => "GET".to_owned(),
        };
        let stripped = strip_pseudo_headers(m);
        self.event.request.ip_address = get_client_ip(&stripped);
        self.event.request.api_version = lookup(&stripped, "x-api-version");
        self.event.request.transfer_encoding = lookup(&stripped, "transfer-encoding");
        if let Some(user_id_header) = &self.config.env.user_id_header {
            self.event.user_id = lookup(&stripped, user_id_header.as_str());
        }
        if let Some(company_id_header) = &self.config.env.company_id_header {
            self.event.company_id = lookup(&stripped, company_id_header.as_str());
        }
        self.event.request.headers = stripped;
    }

    /// Append a request body chunk; at end-of-stream, classify the full
    /// accumulation under the stored content type and empty the accumulator.
    pub fn on_http_request_body(&mut self, chunk: Option<Vec<u8>>, end_of_stream: bool)
        ensures
            ({
                let appended = old(self).request_body@ + spec_chunk_bytes(chunk);
                let ct = spec_lookup(old(self).event.request.headers.deep_view(), "content-type"@);
                &&& !end_of_stream ==> final(self).request_body@ == appended
                    && final(self).event.request.body == old(self).event.request.body
                &&& end_of_stream ==> final(self).request_body@ == Seq::<u8>::empty()
                    && spec_body_classified(final(self).event.request.body, appended, ct)
                &&& final(self).event.request.headers == old(self).event.request.headers
                &&& final(self).event.request.uri == old(self).event.request.uri
                &&& final(self).event.request.verb == old(self).event.request.verb
                &&& final(self).event.response == old(self).event.response
                &&& final(self).response_body == old(self).response_body
                &&& final(self).config == old(self).config
            }),
    {
        proof {
            assert(self.request_body@ + Seq::<u8>::empty() =~= self.request_body@);
        }
        if let Some(mut body_bytes) = chunk {
            self.request_body.append(&mut body_bytes);
        }
        if end_of_stream {
            let ghost accumulated = self.request_body@;
            let body = self.request_body.split_off(0);
            proof {
                assert(self.request_body@ =~= Seq::<u8>::empty());
                assert(body@ =~= accumulated);
            }
            let content_type = lookup(&self.event.request.headers, "content-type");
            self.event.request.body = body_bytes_to_value(body, content_type.as_ref());
        }
    }

    /// Record the response side from its raw header list: time, numeric
    /// status, the case-normalized header map with pseudo-headers stripped,
    /// and the forwarded address; the body stays unclassified until
    /// end-of-stream.
    pub fn on_http_response_headers(&mut self, raw_headers: Vec<(String, String)>)
        ensures
            ({
                let m = spec_header_map(raw_headers.deep_view());
                let stripped = spec_strip_pseudo(m);
                &&& final(self).event.response matches Some(resp) && {
                    &&& resp.status as int == spec_parse_usize_or_zero(
                        match spec_lookup(m, ":status"@) {
                            Some(s) => s,
                            None => "0"@,
                        },
                    )
                    &&& resp.headers.deep_view() == stripped
                    &&& resp.ip_address.deep_view() == spec_lookup(m, "x-forwarded-for"@)
                    &&& resp.body is Null
                }
                &&& final(self).event.request == old(self).event.request
                &&& final(self).request_body == old(self).request_body
                &&& final(self).response_body == old(self).response_body
                &&& final(self).config == old(self).config
            }),
    {
        let m = header_list_to_map(raw_headers);
        let status_str = match lookup(&m, ":status") {
            Some(s) => s,
            None => "0".to_owned(),
        };
        let status = parse_usize_or_zero(status_str.as_str());
        let ip_address = lookup(&m, "x-forwarded-for");
        let stripped = strip_pseudo_headers(m);
        let response = ResponseInfo {
            time: now_rfc3339(),
            status,
            headers: stripped,
            ip_address,
            body: BodyValue::Null,
        };
        self.event.response = Some(response);
    }

    /// Append a response body chunk; at end-of-stream, classify the full
    /// accumulation under the response's content type, if a response record
    /// exists.
    pub fn on_http_response_body(&mut self, chunk: Option<Vec<u8>>, end_of_stream: bool)
        ensures
            ({
                let appended = old(self).response_body@ + spec_chunk_bytes(chunk);
                &&& !end_of_stream || old(self).event.response is None ==> final(self).response_body@
                    == appended
                &&& !end_of_stream ==> final(self).event.response == old(self).event.response
                &&& end_of_stream && old(self).event.response is None ==> final(self).event.response
                    is None
                &&& (end_of_stream && old(self).event.response is Some) ==> {
                    let resp = old(self).event.response->0;
                    let resp2 = final(self).event.response->0;
                    &&& final(self).response_body@ == Seq::<u8>::empty()
                    &&& final(self).event.response is Some
                    &&& spec_body_classified(
                        resp2.body,
                        appended,
                        spec_lookup(resp.headers.deep_view(), "content-type"@),
                    )
                    &&& resp2.time == resp.time
                    &&& resp2.status == resp.status
                    &&& resp2.headers == resp.headers
                    &&& resp2.ip_address == resp.ip_address
                }
                &&& final(self).event.request == old(self).event.request
                &&& final(self).request_body == old(self).request_body
                &&& final(self).config == old(self).config
            }),
    {
        proof {
            assert(self.response_body@ + Seq::<u8>::empty() =~= self.response_body@);
        }
        if let Some(mut body_bytes) = chunk {
            self.response_body.append(&mut body_bytes);
        }
        if end_of_stream {
            if let Some(response) = self.event.response.as_mut() {
                let ghost accumulated = self.response_body@;
                let body = self.response_body.split_off(0);
                proof {
                    assert(self.response_body@ =~= Seq::<u8>::empty());
                    assert(body@ =~= accumulated);
                }
                let content_type = lookup(&response.headers, "content-type");
                response.body = body_bytes_to_value(body, content_type.as_ref());
            }
        }
    }
}

} // verus!
