//! The sync HTTP protocol: request targets, percent-decoding, authorization and routing.
use std::path::PathBuf;
use vstd::prelude::*;
use vstd::utf8::*;

use crate::remote::{remote_error_text, RemoteError};
use crate::revision::{parse_revision_spec, revision_error_text, Revision, RevisionError};
use crate::text::{
    ascii_lowercase, ascii_lowercase_string, chars_of, is_blank, is_blank_text, owned, push_str,
    split_chars, split_on, split_once_chars, split_once_spec, string_from_chars, trim_start_chars, is_first_index,
    trim_start_spec,
};

verus! {

/// The value of a hex digit byte (`0-9`, `a-f`, `A-F`).
pub open spec fn hex_val(b: u8) -> Option<u8> {
    if 48 <= b && b <= 57 {
        Some((b - 48) as u8)
    } else if 97 <= b && b <= 102 {
        Some((b - 87) as u8)
    } else if 65 <= b && b <= 70 {
        Some((b - 55) as u8)
    } else {
        None
    }
}

/// Puts `prefix` in front of a decoded remainder, if there is one.
pub open spec fn prepend_decoded(prefix: Seq<u8>, rest: Option<Seq<u8>>) -> Option<Seq<u8>> {
    match rest {
        Some(r) => Some(prefix + r),
        None => None,
    }
}

/// Form decoding of bytes: `+` is a space, `%` and two hex digits is the byte they spell,
/// every other byte stands for itself; a `%` without two hex digits after it fails.
pub open spec fn percent_decode(b: Seq<u8>) -> Option<Seq<u8>>
    decreases b.len(),
{
    if b.len() == 0 {
        Some(Seq::<u8>::empty())
    } else if b[0] == 43 {
        prepend_decoded(seq![32u8], percent_decode(b.skip(1)))
    } else if b[0] == 37 {
        if b.len() < 3 {
            None
        } else {
            match (hex_val(b[1]), hex_val(b[2])) {
                (Some(h), Some(l)) => prepend_decoded(
                    seq![(h * 16 + l) as u8],
                    percent_decode(b.skip(3)),
                ),
                _ => None,
            }
        }
    } else {
        prepend_decoded(seq![b[0]], percent_decode(b.skip(1)))
    }
}

/// Decoding of a URL component: form decoding of its UTF-8 bytes, which must then be UTF-8.
pub open spec fn url_decode_spec(v: Seq<char>) -> Option<Seq<char>> {
    match percent_decode(encode_utf8(v)) {
        Some(d) => if valid_utf8(d) {
            Some(decode_utf8(d))
        } else {
            None
        },
        None => None,
    }
}

/// The value of a hex digit byte.
pub fn hex_value(byte: u8) -> (r: Option<u8>)
    ensures
        r == hex_val(byte),
{
    if 48 <= byte && byte <= 57 {
        Some(byte - 48)
    } else if 97 <= byte && byte <= 102 {
        Some(byte - 87)
    } else if 65 <= byte && byte <= 70 {
        Some(byte - 55)
    } else {
        None
    }
}

/// A string holding the given UTF-8 bytes, if they are UTF-8.
/// Trusted: `String::from_utf8`, which succeeds exactly on valid UTF-8 and then holds the
/// characters that the bytes encode.
#[verifier::external_body]
fn string_from_utf8(bytes: Vec<u8>) -> (r: Option<String>)
    ensures
        r is Some <==> valid_utf8(bytes@),
        r matches Some(s) ==> s@ == decode_utf8(bytes@),
{
    String::from_utf8(bytes).ok()
}

proof fn lemma_prepend_assoc(a: Seq<u8>, b: Seq<u8>, rest: Option<Seq<u8>>)
    ensures
        prepend_decoded(a, prepend_decoded(b, rest)) == prepend_decoded(a + b, rest),
{
    if let Some(r) = rest {
        assert(a + (b + r) =~= (a + b) + r);
    }
}

/// Decodes one URL component.
pub fn url_decode(value: &str) -> (r: Option<String>)
    ensures
        r is Some <==> url_decode_spec(value@) is Some,
        r matches Some(s) ==> url_decode_spec(value@) == Some(s@),
{
    let bytes = value.as_bytes();
    let n = bytes.len();
    let ghost b = bytes@;
    let mut decoded: Vec<u8> = Vec::new();
    let mut i: usize = 0;
    assert(b.skip(0) =~= b);
    assert(decoded@ + Seq::<u8>::empty() =~= decoded@);
    proof {
        lemma_prepend_identity(percent_decode(b));
    }
    while i < n
        invariant
            0 <= i <= n,
            n == b.len(),
            bytes@ == b,
            b == encode_utf8(value@),
            percent_decode(b) == prepend_decoded(decoded@, percent_decode(b.skip(i as int))),
        decreases n - i,
    {
        let byte = bytes[i];
        let ghost rest = b.skip(i as int);
        if byte == 43u8 {
            assert(rest.skip(1) =~= b.skip(i + 1));
            proof {
                lemma_prepend_assoc(decoded@, seq![32u8], percent_decode(b.skip(i + 1)));
            }
            decoded.push(32u8);
            i = i + 1;
        } else if byte == 37u8 {
            if n - i < 3 {
                return None;
            }
            let high = bytes[i + 1];
            let low = bytes[i + 2];
            let h = match hex_value(high) {
                Some(h) => h,
                None => return None,
            };
            let l = match hex_value(low) {
                Some(l) => l,
                None => return None,
            };
            let v = h * 16 + l;
            assert(rest.skip(3) =~= b.skip(i + 3));
            proof {
                lemma_prepend_assoc(decoded@, seq![v], percent_decode(b.skip(i + 3)));
            }
            decoded.push(v);
            i = i + 3;
        } else {
            assert(rest.skip(1) =~= b.skip(i + 1));
            proof {
                lemma_prepend_assoc(decoded@, seq![byte], percent_decode(b.skip(i + 1)));
            }
            decoded.push(byte);
            i = i + 1;
        }
    }
    assert(b.skip(n as int) =~= Seq::<u8>::empty());
    assert(decoded@ + Seq::<u8>::empty() =~= decoded@);
    string_from_utf8(decoded)
}

proof fn lemma_prepend_identity(x: Option<Seq<u8>>)
    ensures
        prepend_decoded(Seq::<u8>::empty(), x) == x,
{
    if let Some(r) = x {
        assert(Seq::<u8>::empty() + r =~= r);
    }
}


/// One `key=value` part of a query, decoded; a part without `=` has an empty value, and a part
/// whose key or value does not decode is dropped.
pub open spec fn query_pair(part: Seq<char>) -> Option<(Seq<char>, Seq<char>)> {
    let (k, v) = match split_once_spec(part, '=') {
        Some(kv) => kv,
        None => (part, Seq::<char>::empty()),
    };
    match (url_decode_spec(k), url_decode_spec(v)) {
        (Some(a), Some(b)) => Some((a, b)),
        _ => None,
    }
}

/// The decoded pairs of the non-empty query parts, in order.
pub open spec fn query_pairs(parts: Seq<Seq<char>>) -> Seq<(Seq<char>, Seq<char>)>
    decreases parts.len(),
{
    if parts.len() == 0 {
        Seq::empty()
    } else {
        let prev = query_pairs(parts.drop_last());
        let p = parts.last();
        if p.len() == 0 {
            prev
        } else {
            match query_pair(p) {
                Some(kv) => prev.push(kv),
                None => prev,
            }
        }
    }
}

/// The path of a request URL: everything before the first `?`.
pub open spec fn target_path(url: Seq<char>) -> Seq<char> {
    match split_once_spec(url, '?') {
        Some((p, _)) => p,
        None => url,
    }
}

/// The query of a request URL: the decoded pairs of the `&`-separated parts after the first `?`.
pub open spec fn target_query(url: Seq<char>) -> Seq<(Seq<char>, Seq<char>)> {
    let q = match split_once_spec(url, '?') {
        Some((_, q)) => q,
        None => Seq::<char>::empty(),
    };
    query_pairs(split_on(q, '&'))
}

/// The texts of a list of string pairs.
pub open spec fn pairs_view(v: Seq<(String, String)>) -> Seq<(Seq<char>, Seq<char>)> {
    Seq::new(v.len(), |i: int| (v[i].0@, v[i].1@))
}

/// The path and the decoded query of a request.
#[derive(Debug, Clone, PartialEq, Eq)]
pub struct RequestTarget {
    pub path: String,
    pub query: Vec<(String, String)>,
}

fn decode_part(part: &Vec<char>) -> (r: Option<(String, String)>)
    ensures
        r is Some <==> query_pair(part@) is Some,
        r matches Some((a, b)) ==> query_pair(part@) == Some((a@, b@)),
{
    let (k, v) = match split_once_chars(part, '=') {
        Some((k, v)) => (k, v),
        None => (part.clone(), Vec::new()),
    };
    let ks = string_from_chars(&k);
    let vs = string_from_chars(&v);
    let a = match url_decode(ks.as_str()) {
        Some(a) => a,
        None => return None,
    };
    let b = match url_decode(vs.as_str()) {
        Some(b) => b,
        None => return None,
    };
    Some((a, b))
}

impl RequestTarget {
    /// Splits a request URL into its path and its decoded query pairs.
    pub fn parse(url: &str) -> (r: RequestTarget)
        ensures
            r.path@ == target_path(url@),
            pairs_view(r.query@) == target_query(url@),
    {
        let cs = chars_of(url);
        let (path, query) = match split_once_chars(&cs, '?') {
            Some((p, q)) => (p, q),
            None => (cs.clone(), Vec::new()),
        };
        let parts = split_chars(&query, '&');
        let mut pairs: Vec<(String, String)> = Vec::new();
        let mut i: usize = 0;
        while i < parts.len()
            invariant
                0 <= i <= parts.len(),
                parts@.len() == split_on(query@, '&').len(),
                forall|k: int| 0 <= k < parts@.len() ==> #[trigger] parts@[k]@ == split_on(query@, '&')[k],
                pairs_view(pairs@) == query_pairs(split_on(query@, '&').take(i as int)),
            decreases parts.len() - i,
        {
            let ghost all = split_on(query@, '&');
            assert(all.take(i + 1).drop_last() =~= all.take(i as int));
            assert(all.take(i + 1).last() == parts@[i as int]@);
            if parts[i].len() > 0 {
                match decode_part(&parts[i]) {
                    Some(kv) => {
                        pairs.push(kv);
                        assert(pairs_view(pairs@) =~= query_pairs(all.take(i as int)).push(
                            (pairs@.last().0@, pairs@.last().1@),
                        ));
                    },
                    None => {},
                }
            }
            i = i + 1;
        }
        assert(split_on(query@, '&').take(parts.len() as int) =~= split_on(query@, '&'));
        RequestTarget { path: string_from_chars(&path), query: pairs }
    }
}

/// The value of the first query pair with the given key.
pub open spec fn find_query(pairs: Seq<(Seq<char>, Seq<char>)>, key: Seq<char>) -> Option<Seq<char>>
    decreases pairs.len(),
{
    if pairs.len() == 0 {
        None
    } else if pairs[0].0 == key {
        Some(pairs[0].1)
    } else {
        find_query(pairs.drop_first(), key)
    }
}

/// Whether two texts are equal.
pub fn same_text(a: &str, b: &str) -> (r: bool)
    ensures
        r == (a@ == b@),
{
    let x = owned(a);
    let y = owned(b);
    x == y
}

/// The value of the first query pair of a request with the given key.
pub fn required_query(target: &RequestTarget, key: &str) -> (r: Option<String>)
    ensures
        r is Some <==> find_query(pairs_view(target.query@), key@) is Some,
        r matches Some(v) ==> find_query(pairs_view(target.query@), key@) == Some(v@),
{
    let ghost all = pairs_view(target.query@);
    let mut i: usize = 0;
    assert(all.skip(0) =~= all);
    while i < target.query.len()
        invariant
            0 <= i <= target.query.len(),
            all == pairs_view(target.query@),
            find_query(all, key@) == find_query(all.skip(i as int), key@),
        decreases target.query.len() - i,
    {
        assert(all.skip(i as int)[0] == all[i as int]);
        if same_text(target.query[i].0.as_str(), key) {
            return Some(target.query[i].1.clone());
        }
        assert(all.skip(i as int).drop_first() =~= all.skip(i + 1));
        i = i + 1;
    }
    None
}

/// The device and revision texts named by an `/incoming/<device>/<revision>` path, each
/// component decoded.
pub open spec fn incoming_path_spec(path: Seq<char>) -> Option<(Seq<char>, Seq<char>)> {
    let parts = split_on(trim_start_spec(path, '/'), '/');
    if parts.len() == 3 {
        match (url_decode_spec(parts[0]), url_decode_spec(parts[1]), url_decode_spec(parts[2])) {
            (Some(a), Some(b), Some(c)) => if a == "incoming"@ {
                Some((b, c))
            } else {
                None
            },
            _ => None,
        }
    } else {
        None
    }
}

/// Reads the device and revision out of an `/incoming/<device>/<revision>` path.
pub fn parse_incoming_path(path: &str) -> (r: Option<(String, String)>)
    ensures
        r is Some <==> incoming_path_spec(path@) is Some,
        r matches Some((d, v)) ==> incoming_path_spec(path@) == Some((d@, v@)),
{
    let cs = chars_of(path);
    let trimmed = trim_start_chars(&cs, '/');
    let parts = split_chars(&trimmed, '/');
    if parts.len() != 3 {
        return None;
    }
    let p0 = string_from_chars(&parts[0]);
    let p1 = string_from_chars(&parts[1]);
    let p2 = string_from_chars(&parts[2]);
    let a = match url_decode(p0.as_str()) {
        Some(a) => a,
        None => return None,
    };
    let b = match url_decode(p1.as_str()) {
        Some(b) => b,
        None => return None,
    };
    let c = match url_decode(p2.as_str()) {
        Some(c) => c,
        None => return None,
    };
    if same_text(a.as_str(), "incoming") {
        Some((b, c))
    } else {
        None
    }
}


/// Whether two texts are equal when ASCII letters are compared without case.
pub fn eq_ignore_ascii_case(a: &str, b: &str) -> (r: bool)
    ensures
        r == (ascii_lowercase(a@) == ascii_lowercase(b@)),
{
    let x = ascii_lowercase_string(a);
    let y = ascii_lowercase_string(b);
    x == y
}

/// Whether a header list carries `Authorization: Bearer <token>` (the header name in any case).
pub open spec fn authorized_spec(headers: Seq<(Seq<char>, Seq<char>)>, token: Seq<char>) -> bool {
    exists|i: int|
        0 <= i < headers.len() && ascii_lowercase(#[trigger] headers[i].0) == ascii_lowercase(
            "Authorization"@,
        ) && headers[i].1 == "Bearer "@ + token
}

/// Whether a request with the given headers (name, value) carries the sync token.
pub fn is_authorized(headers: &Vec<(String, String)>, token: &str) -> (r: bool)
    ensures
        r == authorized_spec(pairs_view(headers@), token@),
{
    let mut expected = owned("Bearer ");
    push_str(&mut expected, token);
    let ghost hs = pairs_view(headers@);
    let mut i: usize = 0;
    while i < headers.len()
        invariant
            0 <= i <= headers.len(),
            hs == pairs_view(headers@),
            expected@ == "Bearer "@ + token@,
            forall|j: int|
                0 <= j < i ==> !(ascii_lowercase(#[trigger] hs[j].0) == ascii_lowercase(
                    "Authorization"@,
                ) && hs[j].1 == "Bearer "@ + token@),
        decreases headers.len() - i,
    {
        let (name, value) = &headers[i];
        assert(hs[i as int].0 == name@ && hs[i as int].1 == value@);
        if eq_ignore_ascii_case(name.as_str(), "Authorization") && same_text(
            value.as_str(),
            expected.as_str(),
        ) {
            return true;
        }
        i = i + 1;
    }
    false
}

/// The request methods the protocol tells apart.
#[derive(Debug, Clone, Copy, PartialEq, Eq, Structural)]
pub enum HttpMethod {
    Get,
    Put,
    Other,
}

/// What a request asks for, once its target and credentials are read.
#[derive(Debug, Clone)]
pub enum Route {
    /// `GET /health`, answered without credentials.
    Health,
    /// Any other request without the token.
    Unauthorized,
    /// `GET /manifest`.
    Manifest,
    /// `GET /canonical`.
    Canonical,
    /// `GET /incoming`.
    IncomingList,
    /// `GET /incoming/<device>/<revision>`.
    IncomingFile { device_id: String, revision: Revision },
    /// `PUT /canonical?device_id=..&revision=..&base_revision=..`.
    PublishCanonical { device_id: String, revision: Revision, base_revision: Option<Revision> },
    /// `PUT /incoming/<device>/<revision>`.
    PreserveIncoming { device_id: String, revision: Revision },
    /// A path the protocol does not serve.
    NotFound,
    /// A revision in the request that does not parse.
    InvalidRevision(RevisionError),
    /// `PUT /canonical` without a `revision`.
    MissingRevision,
}

/// A route, with texts in place of strings and revisions.
pub enum RouteSpec {
    Health,
    Unauthorized,
    Manifest,
    Canonical,
    IncomingList,
    IncomingFile(Seq<char>, Seq<char>),
    PublishCanonical(Seq<char>, Seq<char>, Option<Seq<char>>),
    PreserveIncoming(Seq<char>, Seq<char>),
    NotFound,
    InvalidRevision(RevisionError),
    MissingRevision,
}

impl View for Route {
    type V = RouteSpec;

    open spec fn view(&self) -> RouteSpec {
        match self {
            Route::Health => RouteSpec::Health,
            Route::Unauthorized => RouteSpec::Unauthorized,
            Route::Manifest => RouteSpec::Manifest,
            Route::Canonical => RouteSpec::Canonical,
            Route::IncomingList => RouteSpec::IncomingList,
            Route::IncomingFile { device_id, revision } => RouteSpec::IncomingFile(
                device_id@,
                revision@,
            ),
            Route::PublishCanonical { device_id, revision, base_revision } =>
                RouteSpec::PublishCanonical(device_id@, revision@, base_revision.deep_view()),
            Route::PreserveIncoming { device_id, revision } => RouteSpec::PreserveIncoming(
                device_id@,
                revision@,
            ),
            Route::NotFound => RouteSpec::NotFound,
            Route::InvalidRevision(e) => RouteSpec::InvalidRevision(*e),
            Route::MissingRevision => RouteSpec::MissingRevision,
        }
    }
}

/// The route of an `/incoming/<device>/<revision>` request.
pub open spec fn incoming_route(path: Seq<char>, put: bool) -> RouteSpec {
    match incoming_path_spec(path) {
        None => RouteSpec::NotFound,
        Some((d, r)) => match parse_revision_spec(r) {
            Err(e) => RouteSpec::InvalidRevision(e),
            Ok(t) => if put {
                RouteSpec::PreserveIncoming(d, t)
            } else {
                RouteSpec::IncomingFile(d, t)
            },
        },
    }
}

/// The route of a `PUT /canonical` request with the given query: the device defaults to
/// `unknown-device`, the revision is required, and an empty base revision means none.
pub open spec fn publish_route(q: Seq<(Seq<char>, Seq<char>)>) -> RouteSpec {
    let device = match find_query(q, "device_id"@) {
        Some(d) => d,
        None => "unknown-device"@,
    };
    match find_query(q, "revision"@) {
        None => RouteSpec::MissingRevision,
        Some(rt) => match parse_revision_spec(rt) {
            Err(e) => RouteSpec::InvalidRevision(e),
            Ok(rev) => match find_query(q, "base_revision"@) {
                Some(bt) => if bt.len() > 0 {
                    match parse_revision_spec(bt) {
                        Err(e) => RouteSpec::InvalidRevision(e),
                        Ok(b) => RouteSpec::PublishCanonical(device, rev, Some(b)),
                    }
                } else {
                    RouteSpec::PublishCanonical(device, rev, None)
                },
                None => RouteSpec::PublishCanonical(device, rev, None),
            },
        },
    }
}

/// Whether `p` starts with `prefix`.
pub open spec fn starts_with(p: Seq<char>, prefix: Seq<char>) -> bool {
    p.len() >= prefix.len() && p.take(prefix.len() as int) == prefix
}

/// The route of a request.
pub open spec fn route_spec(
    method: HttpMethod,
    url: Seq<char>,
    headers: Seq<(Seq<char>, Seq<char>)>,
    token: Seq<char>,
) -> RouteSpec {
    let path = target_path(url);
    let get = method == HttpMethod::Get;
    let put = method == HttpMethod::Put;
    if get && path == "/health"@ {
        RouteSpec::Health
    } else if !authorized_spec(headers, token) {
        RouteSpec::Unauthorized
    } else if get && path == "/manifest"@ {
        RouteSpec::Manifest
    } else if get && path == "/canonical"@ {
        RouteSpec::Canonical
    } else if get && path == "/incoming"@ {
        RouteSpec::IncomingList
    } else if get && starts_with(path, "/incoming/"@) {
        incoming_route(path, false)
    } else if put && path == "/canonical"@ {
        publish_route(target_query(url))
    } else if put && starts_with(path, "/incoming/"@) {
        incoming_route(path, true)
    } else {
        RouteSpec::NotFound
    }
}

/// Whether a text starts with a prefix.
pub fn has_prefix(s: &str, prefix: &str) -> (r: bool)
    ensures
        r == starts_with(s@, prefix@),
{
    let a = chars_of(s);
    let b = chars_of(prefix);
    if a.len() < b.len() {
        return false;
    }
    let mut i: usize = 0;
    while i < b.len()
        invariant
            0 <= i <= b.len() <= a.len(),
            a@ == s@,
            b@ == prefix@,
            forall|j: int| 0 <= j < i ==> a@[j] == b@[j],
        decreases b.len() - i,
    {
        if a[i] != b[i] {
            assert(s@.take(prefix@.len() as int)[i as int] != prefix@[i as int]);
            return false;
        }
        i = i + 1;
    }
    assert(s@.take(prefix@.len() as int) =~= prefix@);
    true
}

fn incoming_route_of(path: &str, put: bool) -> (r: Route)
    ensures
        r@ == incoming_route(path@, put),
{
    match parse_incoming_path(path) {
        None => Route::NotFound,
        Some((device_id, text)) => match Revision::parse(text.as_str()) {
            Err(e) => Route::InvalidRevision(e),
            Ok(revision) => if put {
                Route::PreserveIncoming { device_id, revision }
            } else {
                Route::IncomingFile { device_id, revision }
            },
        },
    }
}

fn publish_route_of(target: &RequestTarget) -> (r: Route)
    ensures
        r@ == publish_route(pairs_view(target.query@)),
{
    let device_id = match required_query(target, "device_id") {
        Some(d) => d,
        None => owned("unknown-device"),
    };
    let revision = match required_query(target, "revision") {
        None => return Route::MissingRevision,
        Some(text) => match Revision::parse(text.as_str()) {
            Err(e) => return Route::InvalidRevision(e),
            Ok(r) => r,
        },
    };
    let base_revision = match required_query(target, "base_revision") {
        Some(text) => if !text.as_str().is_empty() {
            match Revision::parse(text.as_str()) {
                Err(e) => return Route::InvalidRevision(e),
                Ok(b) => Some(b),
            }
        } else {
            None
        },
        None => None,
    };
    Route::PublishCanonical { device_id, revision, base_revision }
}

/// Routes a request by its method, URL and headers against the sync token.
pub fn route_request(
    method: HttpMethod,
    url: &str,
    headers: &Vec<(String, String)>,
    token: &str,
) -> (r: Route)
    ensures
        r@ == route_spec(method, url@, pairs_view(headers@), token@),
{
    let target = RequestTarget::parse(url);
    let path = target.path.as_str();
    let get = method == HttpMethod::Get;
    let put = method == HttpMethod::Put;
    if get && same_text(path, "/health") {
        return Route::Health;
    }
    if !is_authorized(headers, token) {
        return Route::Unauthorized;
    }
    if get && same_text(path, "/manifest") {
        Route::Manifest
    } else if get && same_text(path, "/canonical") {
        Route::Canonical
    } else if get && same_text(path, "/incoming") {
        Route::IncomingList
    } else if get && has_prefix(path, "/incoming/") {
        incoming_route_of(path, false)
    } else if put && same_text(path, "/canonical") {
        publish_route_of(&target)
    } else if put && has_prefix(path, "/incoming/") {
        incoming_route_of(path, true)
    } else {
        Route::NotFound
    }
}


/// Where and how the sync server listens.
#[derive(Debug, Clone)]
pub struct HttpServerConfig {
    pub bind: String,
    pub remote_root: PathBuf,
    pub token: String,
}

/// Why the sync server stopped or a request failed.
#[derive(Debug)]
pub enum HttpServerError {
    Io(std::io::Error),
    Server(String),
    Remote(RemoteError),
    Json(serde_json::Error),
    InvalidRevision(RevisionError),
    MissingToken,
    EmptyToken,
}

/// A server is started only with a token that is not blank.
pub fn check_token(token: &str) -> (r: Result<(), HttpServerError>)
    ensures
        r is Ok <==> !is_blank(token@),
        r matches Err(e) ==> e is EmptyToken,
{
    if is_blank_text(token) {
        return Err(HttpServerError::EmptyToken);
    }
    Ok(())
}

/// The description of a server error, given the description of the outside value it carries
/// (`detail`: the I/O or JSON error's text, or what a remote error carries).
pub open spec fn http_error_text(e: HttpServerError, detail: Seq<char>) -> Seq<char> {
    match e {
        HttpServerError::Io(_) => "HTTP server IO error: "@ + detail,
        HttpServerError::Server(m) => "HTTP server error: "@ + m@,
        HttpServerError::Remote(r) => remote_error_text(r, detail),
        HttpServerError::Json(_) => "HTTP JSON error: "@ + detail,
        HttpServerError::InvalidRevision(r) => "invalid revision: "@ + revision_error_text(r),
        HttpServerError::MissingToken =>
            "missing token; pass --token, --token-file, or KEEPASS_SYNC_TOKEN"@,
        HttpServerError::EmptyToken => "sync token cannot be empty"@,
    }
}

impl HttpServerError {
    /// The description of this error; `detail` is the description of the outside value it
    /// carries.
    pub fn message(&self, detail: &str) -> (r: String)
        ensures
            r@ == http_error_text(*self, detail@),
    {
        match self {
            HttpServerError::Io(_) => {
                let mut s = owned("HTTP server IO error: ");
                push_str(&mut s, detail);
                s
            },
            HttpServerError::Server(m) => {
                let mut s = owned("HTTP server error: ");
                push_str(&mut s, m.as_str());
                s
            },
            HttpServerError::Remote(r) => r.message(detail),
            HttpServerError::Json(_) => {
                let mut s = owned("HTTP JSON error: ");
                push_str(&mut s, detail);
                s
            },
            HttpServerError::InvalidRevision(r) => {
                let mut s = owned("invalid revision: ");
                let d = r.message();
                push_str(&mut s, d.as_str());
                s
            },
            HttpServerError::MissingToken => owned(
                "missing token; pass --token, --token-file, or KEEPASS_SYNC_TOKEN",
            ),
            HttpServerError::EmptyToken => owned("sync token cannot be empty"),
        }
    }
}

/// A plain-text reply: status code and body.
#[derive(Debug, Clone)]
pub struct PlainReply {
    pub status: u16,
    pub body: String,
}

/// The reply a route gets without looking at the remote: `200 ok` for the health check, `401`
/// without the token, `404` for a path the protocol does not serve.
pub open spec fn immediate_reply_spec(route: RouteSpec) -> Option<(u16, Seq<char>)> {
    match route {
        RouteSpec::Health => Some((200u16, "ok\n"@)),
        RouteSpec::Unauthorized => Some((401u16, "unauthorized\n"@)),
        RouteSpec::NotFound => Some((404u16, "not found\n"@)),
        _ => None,
    }
}

/// The reply a route gets without looking at the remote, if any.
pub fn immediate_reply(route: &Route) -> (r: Option<PlainReply>)
    ensures
        match immediate_reply_spec(route@) {
            Some((status, body)) => r matches Some(p) && p.status == status && p.body@ == body,
            None => r is None,
        },
{
    match route {
        Route::Health => Some(PlainReply { status: 200, body: owned("ok\n") }),
        Route::Unauthorized => Some(PlainReply { status: 401, body: owned("unauthorized\n") }),
        Route::NotFound => Some(PlainReply { status: 404, body: owned("not found\n") }),
        _ => None,
    }
}

/// The `404` reply of a route whose resource the remote does not have.
pub open spec fn missing_reply_spec(route: RouteSpec) -> Option<(u16, Seq<char>)> {
    match route {
        RouteSpec::Manifest => Some((404u16, "manifest not found\n"@)),
        RouteSpec::Canonical => Some((404u16, "canonical database not found\n"@)),
        RouteSpec::IncomingFile(_, _) => Some((404u16, "incoming not found\n"@)),
        _ => None,
    }
}

/// The `404` reply of a route whose resource the remote does not have, if it has one.
pub fn missing_reply(route: &Route) -> (r: Option<PlainReply>)
    ensures
        match missing_reply_spec(route@) {
            Some((status, body)) => r matches Some(p) && p.status == status && p.body@ == body,
            None => r is None,
        },
{
    match route {
        Route::Manifest => Some(PlainReply { status: 404, body: owned("manifest not found\n") }),
        Route::Canonical => Some(
            PlainReply { status: 404, body: owned("canonical database not found\n") },
        ),
        Route::IncomingFile { .. } => Some(
            PlainReply { status: 404, body: owned("incoming not found\n") },
        ),
        _ => None,
    }
}

/// The status of the reply to a publish whose base is no longer the remote's revision.
pub const CONFLICT_STATUS: u16 = 409;

/// The health check is answered whatever the credentials.
pub proof fn law_health_needs_no_token(
    url: Seq<char>,
    headers: Seq<(Seq<char>, Seq<char>)>,
    token: Seq<char>,
)
    requires
        target_path(url) == "/health"@,
    ensures
        route_spec(HttpMethod::Get, url, headers, token) == RouteSpec::Health,
{
}

/// Without the token, every request but the health check is refused, whatever it asks for.
pub proof fn law_refused_without_token(
    method: HttpMethod,
    url: Seq<char>,
    headers: Seq<(Seq<char>, Seq<char>)>,
    token: Seq<char>,
)
    requires
        !authorized_spec(headers, token),
        !(method == HttpMethod::Get && target_path(url) == "/health"@),
    ensures
        route_spec(method, url, headers, token) == RouteSpec::Unauthorized,
        immediate_reply_spec(route_spec(method, url, headers, token)) == Some(
            (401u16, "unauthorized\n"@),
        ),
{
}

/// A request carries the token when any one of its headers, wherever it stands in the list, is
/// named `Authorization` (in any ASCII case) and holds `Bearer <token>`.
pub proof fn law_authorized_by_any_header(
    headers: Seq<(Seq<char>, Seq<char>)>,
    token: Seq<char>,
    i: int,
)
    requires
        0 <= i < headers.len(),
        ascii_lowercase(headers[i].0) == ascii_lowercase("Authorization"@),
        headers[i].1 == "Bearer "@ + token,
    ensures
        authorized_spec(headers, token),
        forall|h: (Seq<char>, Seq<char>)| #[trigger] authorized_spec(headers.push(h), token),
        forall|h: (Seq<char>, Seq<char>)| #[trigger] authorized_spec(seq![h] + headers, token),
{
    assert forall|h: (Seq<char>, Seq<char>)| #[trigger] authorized_spec(headers.push(h), token) by {
        assert(headers.push(h)[i] == headers[i]);
    }
    assert forall|h: (Seq<char>, Seq<char>)| #[trigger] authorized_spec(seq![h] + headers, token) by {
        assert((seq![h] + headers)[i + 1] == headers[i]);
    }
}

/// A request in which no header is `Authorization: Bearer <token>` does not carry the token.
pub proof fn law_unauthorized_without_header(headers: Seq<(Seq<char>, Seq<char>)>, token: Seq<char>)
    requires
        forall|i: int|
            0 <= i < headers.len() ==> !(ascii_lowercase(#[trigger] headers[i].0) == ascii_lowercase(
                "Authorization"@,
            ) && headers[i].1 == "Bearer "@ + token),
    ensures
        !authorized_spec(headers, token),
{
}

/// An authorized `PUT /canonical` whose revision and non-empty base revision both parse is a
/// publish of that revision, by the named device, over exactly that base.
pub proof fn law_publish_keeps_base(
    url: Seq<char>,
    headers: Seq<(Seq<char>, Seq<char>)>,
    token: Seq<char>,
    i: int,
    device: Seq<char>,
    revision_text: Seq<char>,
    revision: Seq<char>,
    base_text: Seq<char>,
    base: Seq<char>,
)
    requires
        0 <= i < headers.len(),
        ascii_lowercase(headers[i].0) == ascii_lowercase("Authorization"@),
        headers[i].1 == "Bearer "@ + token,
        target_path(url) == "/canonical"@,
        find_query(target_query(url), "device_id"@) == Some(device),
        find_query(target_query(url), "revision"@) == Some(revision_text),
        parse_revision_spec(revision_text) == Ok::<Seq<char>, RevisionError>(revision),
        find_query(target_query(url), "base_revision"@) == Some(base_text),
        base_text.len() > 0,
        parse_revision_spec(base_text) == Ok::<Seq<char>, RevisionError>(base),
    ensures
        route_spec(HttpMethod::Put, url, headers, token) == RouteSpec::PublishCanonical(
            device,
            revision,
            Some(base),
        ),
{
    law_authorized_by_any_header(headers, token, i);
}

/// An authorized `PUT /canonical` whose revision parses and that names no base (or an empty
/// one) is a publish over no canonical database.
pub proof fn law_publish_without_base(
    url: Seq<char>,
    headers: Seq<(Seq<char>, Seq<char>)>,
    token: Seq<char>,
    i: int,
    device: Seq<char>,
    revision_text: Seq<char>,
    revision: Seq<char>,
)
    requires
        0 <= i < headers.len(),
        ascii_lowercase(headers[i].0) == ascii_lowercase("Authorization"@),
        headers[i].1 == "Bearer "@ + token,
        target_path(url) == "/canonical"@,
        find_query(target_query(url), "device_id"@) == Some(device),
        find_query(target_query(url), "revision"@) == Some(revision_text),
        parse_revision_spec(revision_text) == Ok::<Seq<char>, RevisionError>(revision),
        match find_query(target_query(url), "base_revision"@) {
            Some(b) => b.len() == 0,
            None => true,
        },
    ensures
        route_spec(HttpMethod::Put, url, headers, token) == RouteSpec::PublishCanonical(
            device,
            revision,
            None,
        ),
{
    law_authorized_by_any_header(headers, token, i);
}

/// An authorized request for `/incoming/<device>/<revision>` whose revision parses is served:
/// a `GET` fetches that incoming database and a `PUT` preserves one, never "not found".
pub proof fn law_incoming_routes(
    url: Seq<char>,
    headers: Seq<(Seq<char>, Seq<char>)>,
    token: Seq<char>,
    i: int,
    device: Seq<char>,
    revision_text: Seq<char>,
    revision: Seq<char>,
)
    requires
        0 <= i < headers.len(),
        ascii_lowercase(headers[i].0) == ascii_lowercase("Authorization"@),
        headers[i].1 == "Bearer "@ + token,
        starts_with(target_path(url), "/incoming/"@),
        incoming_path_spec(target_path(url)) == Some((device, revision_text)),
        parse_revision_spec(revision_text) == Ok::<Seq<char>, RevisionError>(revision),
    ensures
        route_spec(HttpMethod::Get, url, headers, token) == RouteSpec::IncomingFile(
            device,
            revision,
        ),
        route_spec(HttpMethod::Put, url, headers, token) == RouteSpec::PreserveIncoming(
            device,
            revision,
        ),
{
    law_authorized_by_any_header(headers, token, i);
    let path = target_path(url);
    reveal_strlit("/incoming/");
    reveal_strlit("/health");
    reveal_strlit("/manifest");
    reveal_strlit("/canonical");
    reveal_strlit("/incoming");
    assert(path.take(10) == "/incoming/"@);
    assert(path.take(10)[1] == path[1]);
    assert("/incoming/"@[1] == 'i');
    assert(path != "/health"@);
    assert(path != "/manifest"@);
    assert(path != "/canonical"@);
    assert(path != "/incoming"@);
}

/// A `%` escape stands for the byte its two hex digits spell, whether the digits are written in
/// lower or upper case; the rest is decoded after it.
pub proof fn law_percent_escape(h: u8, l: u8, hv: int, lv: int, rest: Seq<u8>)
    requires
        (48 <= h <= 57 && hv == h - 48) || (97 <= h <= 102 && hv == h - 87) || (65 <= h <= 70
            && hv == h - 55),
        (48 <= l <= 57 && lv == l - 48) || (97 <= l <= 102 && lv == l - 87) || (65 <= l <= 70
            && lv == l - 55),
    ensures
        percent_decode(seq![37u8, h, l] + rest) == prepend_decoded(
            seq![(hv * 16 + lv) as u8],
            percent_decode(rest),
        ),
{
    let b = seq![37u8, h, l] + rest;
    assert(b[0] == 37u8 && b[1] == h && b[2] == l);
    assert(b.skip(3) =~= rest);
}

/// Hex digits in a `%` escape decode the same in lower and in upper case.
pub proof fn law_percent_escape_case(h: u8, l: u8, rest: Seq<u8>)
    requires
        97 <= h <= 102 || 48 <= h <= 57,
        97 <= l <= 102 || 48 <= l <= 57,
    ensures
        percent_decode(seq![37u8, h, l] + rest) == percent_decode(
            seq![37u8, if h >= 97 { (h - 32) as u8 } else { h }, if l >= 97 { (l - 32) as u8 } else { l }]
                + rest,
        ),
{
    let hv: int = if h >= 97 { h - 87 } else { h - 48 };
    let lv: int = if l >= 97 { l - 87 } else { l - 48 };
    let hu: u8 = if h >= 97 { (h - 32) as u8 } else { h };
    let lu: u8 = if l >= 97 { (l - 32) as u8 } else { l };
    law_percent_escape(h, l, hv, lv, rest);
    law_percent_escape(hu, lu, hv, lv, rest);
}

proof fn lemma_scalar_bytes_plain(c: u32)
    requires
        is_scalar(c),
        c != 37,
        c != 43,
    ensures
        forall|k: int|
            0 <= k < encode_scalar(c).len() ==> #[trigger] encode_scalar(c)[k] != 37u8
                && encode_scalar(c)[k] != 43u8,
{
    if has_width_1_encoding(c) {
        assert(((c & 0x7F) as u8) == c) by (bit_vector)
            requires
                c <= 0x7F,
        ;
    } else {
        assert(forall|x: u8| #![auto] (0xC0u8 | x) >= 0x80u8) by (bit_vector);
        assert(forall|x: u8| #![auto] (0xE0u8 | x) >= 0x80u8) by (bit_vector);
        assert(forall|x: u8| #![auto] (0xF0u8 | x) >= 0x80u8) by (bit_vector);
        assert(forall|x: u8| #![auto] (0x80u8 | x) >= 0x80u8) by (bit_vector);
    }
}

proof fn lemma_encode_plain(v: Seq<char>)
    requires
        forall|k: int| 0 <= k < v.len() ==> #[trigger] v[k] != '%' && v[k] != '+',
    ensures
        forall|k: int|
            0 <= k < encode_utf8(v).len() ==> #[trigger] encode_utf8(v)[k] != 37u8
                && encode_utf8(v)[k] != 43u8,
    decreases v.len(),
{
    if v.len() > 0 {
        let c = v[0] as u32;
        char_is_scalar(v[0]);
        char_u32_cast(v[0], c);
        assert(v[0] != '%' && v[0] != '+');
        assert(('%' as u32) == 37 && ('+' as u32) == 43);
        assert(c != 37 && c != 43);
        lemma_scalar_bytes_plain(c);
        let rest = v.drop_first();
        assert forall|k: int| 0 <= k < rest.len() implies #[trigger] rest[k] != '%' && rest[k]
            != '+' by {
            assert(rest[k] == v[k + 1]);
        }
        lemma_encode_plain(rest);
        let e = encode_scalar(c);
        let t = encode_utf8(rest);
        assert(encode_utf8(v) == e + t);
        assert forall|k: int| 0 <= k < (e + t).len() implies #[trigger] (e + t)[k] != 37u8 && (e
            + t)[k] != 43u8 by {
            if k < e.len() {
                assert((e + t)[k] == e[k]);
            } else {
                assert((e + t)[k] == t[k - e.len()]);
            }
        }
    }
}

proof fn lemma_percent_decode_plain(b: Seq<u8>)
    requires
        forall|k: int| 0 <= k < b.len() ==> #[trigger] b[k] != 37u8 && b[k] != 43u8,
    ensures
        percent_decode(b) == Some(b),
    decreases b.len(),
{
    if b.len() > 0 {
        let rest = b.skip(1);
        assert forall|k: int| 0 <= k < rest.len() implies #[trigger] rest[k] != 37u8 && rest[k]
            != 43u8 by {
            assert(rest[k] == b[k + 1]);
        }
        lemma_percent_decode_plain(rest);
        assert(b[0] != 37u8 && b[0] != 43u8);
        assert(seq![b[0]] + rest =~= b);
    }
}

/// A URL component without `%` or `+` decodes to itself, whatever characters it holds.
pub proof fn law_plain_text_decodes_to_itself(v: Seq<char>)
    requires
        forall|k: int| 0 <= k < v.len() ==> #[trigger] v[k] != '%' && v[k] != '+',
    ensures
        url_decode_spec(v) == Some(v),
{
    broadcast use encode_utf8_valid_utf8, encode_utf8_decode_utf8;

    lemma_encode_plain(v);
    lemma_percent_decode_plain(encode_utf8(v));
}

proof fn lemma_split_on_plain(x: Seq<char>, sep: char)
    requires
        forall|k: int| 0 <= k < x.len() ==> #[trigger] x[k] != sep,
    ensures
        split_on(x, sep) == seq![x],
    decreases x.len(),
{
    if x.len() == 0 {
        assert(x =~= Seq::<char>::empty());
    } else {
        let d = x.drop_last();
        assert forall|k: int| 0 <= k < d.len() implies #[trigger] d[k] != sep by {
            assert(d[k] == x[k]);
        }
        lemma_split_on_plain(d, sep);
        assert(x.last() == x[x.len() - 1]);
        assert(d.push(x.last()) =~= x);
        assert(seq![d].update(0, d.push(x.last())) =~= seq![x]);
    }
}

proof fn lemma_split_on_append(x: Seq<char>, y: Seq<char>, sep: char)
    requires
        forall|k: int| 0 <= k < y.len() ==> #[trigger] y[k] != sep,
    ensures
        split_on(x + seq![sep] + y, sep) == split_on(x, sep).push(y),
    decreases y.len(),
{
    let s = x + seq![sep] + y;
    if y.len() == 0 {
        assert(s.drop_last() =~= x);
        assert(s.last() == sep);
        assert(y =~= Seq::<char>::empty());
    } else {
        let d = y.drop_last();
        assert forall|k: int| 0 <= k < d.len() implies #[trigger] d[k] != sep by {
            assert(d[k] == y[k]);
        }
        lemma_split_on_append(x, d, sep);
        assert(s.drop_last() =~= x + seq![sep] + d);
        assert(s.last() == y[y.len() - 1]);
        assert(y.last() == y[y.len() - 1]);
        assert(d.push(y.last()) =~= y);
        let prev = split_on(x, sep).push(d);
        assert(prev.update(prev.len() - 1, prev.last().push(s.last())) =~= split_on(x, sep).push(
            y,
        ));
    }
}

/// The request target `/incoming/<device>/<revision>`, for a device and a revision text that hold
/// no `/`, `?`, `%` or `+`, names exactly that device and that revision text.
pub proof fn law_incoming_path_names_device_and_revision(device: Seq<char>, revision_text: Seq<char>)
    requires
        forall|k: int|
            0 <= k < device.len() ==> #[trigger] device[k] != '/' && device[k] != '?'
                && device[k] != '%' && device[k] != '+',
        forall|k: int|
            0 <= k < revision_text.len() ==> #[trigger] revision_text[k] != '/'
                && revision_text[k] != '?' && revision_text[k] != '%' && revision_text[k] != '+',
    ensures
        ({
            let url = "/incoming/"@ + device + "/"@ + revision_text;
            &&& target_path(url) == url
            &&& starts_with(url, "/incoming/"@)
            &&& incoming_path_spec(url) == Some((device, revision_text))
        }),
{
    reveal_strlit("/incoming/");
    reveal_strlit("/");
    reveal_strlit("incoming");
    let url = "/incoming/"@ + device + "/"@ + revision_text;
    let word = "incoming"@;
    assert forall|k: int| 0 <= k < url.len() implies #[trigger] url[k] != '?' by {
        if k < 10 {
        } else if k < 10 + device.len() {
            assert(url[k] == device[k - 10]);
        } else if k == 10 + device.len() {
        } else {
            assert(url[k] == revision_text[k - 11 - device.len()]);
        }
    }
    assert(!(exists|i: int| 0 <= i < url.len() && url[i] == '?'));
    assert(url.take(10) =~= "/incoming/"@);
    let body = word + seq!['/'] + device + seq!['/'] + revision_text;
    assert(url.drop_first() =~= body);
    assert(trim_start_spec(body, '/') == body);
    assert(trim_start_spec(url, '/') == body);
    assert forall|k: int| 0 <= k < word.len() implies #[trigger] word[k] != '/' && word[k] != '%'
        && word[k] != '+' by {}
    lemma_split_on_plain(word, '/');
    lemma_split_on_append(word, device, '/');
    lemma_split_on_append(word + seq!['/'] + device, revision_text, '/');
    assert(split_on(body, '/') =~= seq![word, device, revision_text]);
    law_plain_text_decodes_to_itself(word);
    law_plain_text_decodes_to_itself(device);
    law_plain_text_decodes_to_itself(revision_text);
}

/// An authorized `GET /incoming/<device>/<revision>`, for a device and a revision that hold no
/// `/`, `?`, `%` or `+` and a revision that parses, fetches that device's incoming database.
pub proof fn law_incoming_download_routes(
    headers: Seq<(Seq<char>, Seq<char>)>,
    token: Seq<char>,
    i: int,
    device: Seq<char>,
    revision_text: Seq<char>,
    revision: Seq<char>,
)
    requires
        0 <= i < headers.len(),
        ascii_lowercase(headers[i].0) == ascii_lowercase("Authorization"@),
        headers[i].1 == "Bearer "@ + token,
        forall|k: int|
            0 <= k < device.len() ==> #[trigger] device[k] != '/' && device[k] != '?'
                && device[k] != '%' && device[k] != '+',
        forall|k: int|
            0 <= k < revision_text.len() ==> #[trigger] revision_text[k] != '/'
                && revision_text[k] != '?' && revision_text[k] != '%' && revision_text[k] != '+',
        parse_revision_spec(revision_text) == Ok::<Seq<char>, RevisionError>(revision),
    ensures
        route_spec(
            HttpMethod::Get,
            "/incoming/"@ + device + "/"@ + revision_text,
            headers,
            token,
        ) == RouteSpec::IncomingFile(device, revision),
{
    law_incoming_path_names_device_and_revision(device, revision_text);
    let url = "/incoming/"@ + device + "/"@ + revision_text;
    law_incoming_routes(url, headers, token, i, device, revision_text, revision);
}

proof fn lemma_split_once_at(a: Seq<char>, b: Seq<char>, sep: char)
    requires
        forall|k: int| 0 <= k < a.len() ==> #[trigger] a[k] != sep,
    ensures
        split_once_spec(a + seq![sep] + b, sep) == Some((a, b)),
{
    let s = a + seq![sep] + b;
    assert(s[a.len() as int] == sep);
    assert(is_first_index(s, sep, a.len() as int)) by {
        assert forall|j: int| 0 <= j < a.len() implies s[j] != sep by {
            assert(s[j] == a[j]);
        }
    }
    let i = choose|i: int| is_first_index(s, sep, i);
    assert(is_first_index(s, sep, i));
    if i < a.len() {
        assert(s[i] == a[i]);
    }
    if i > a.len() {
        assert(s[a.len() as int] == sep);
    }
    assert(i == a.len());
    assert(s.take(i) =~= a);
    assert(s.skip(i + 1) =~= b);
}

proof fn lemma_split_once_none(s: Seq<char>, sep: char)
    requires
        forall|k: int| 0 <= k < s.len() ==> #[trigger] s[k] != sep,
    ensures
        split_once_spec(s, sep) is None,
{
}

/// A text free of the characters that a query gives a meaning to.
pub open spec fn plain_query_text(t: Seq<char>) -> bool {
    forall|k: int|
        0 <= k < t.len() ==> #[trigger] t[k] != '&' && t[k] != '=' && t[k] != '?' && t[k] != '%'
            && t[k] != '+' && t[k] != '#'
}

proof fn lemma_query_pair_plain(key: Seq<char>, value: Seq<char>)
    requires
        plain_query_text(key),
        plain_query_text(value),
    ensures
        query_pair(key + seq!['='] + value) == Some((key, value)),
{
    lemma_split_once_at(key, value, '=');
    law_plain_text_decodes_to_itself(key);
    law_plain_text_decodes_to_itself(value);
}

proof fn lemma_keyed_part(key: Seq<char>, value: Seq<char>)
    requires
        plain_query_text(key),
        plain_query_text(value),
    ensures
        forall|k: int|
            0 <= k < (key + seq!['='] + value).len() ==> #[trigger] (key + seq!['='] + value)[k]
                != '&',
        (key + seq!['='] + value).len() > 0,
        query_pair(key + seq!['='] + value) == Some((key, value)),
{
    let p = key + seq!['='] + value;
    assert forall|k: int| 0 <= k < p.len() implies #[trigger] p[k] != '&' by {
        if k < key.len() {
            assert(p[k] == key[k]);
        } else if k > key.len() {
            assert(p[k] == value[k - key.len() - 1]);
        }
    }
    lemma_query_pair_plain(key, value);
}

proof fn lemma_three_query_pairs(
    k1: Seq<char>,
    v1: Seq<char>,
    k2: Seq<char>,
    v2: Seq<char>,
    k3: Seq<char>,
    v3: Seq<char>,
)
    requires
        plain_query_text(k1),
        plain_query_text(v1),
        plain_query_text(k2),
        plain_query_text(v2),
        plain_query_text(k3),
        plain_query_text(v3),
    ensures
        query_pairs(
            split_on(
                (k1 + seq!['='] + v1) + seq!['&'] + (k2 + seq!['='] + v2) + seq!['&'] + (k3
                    + seq!['='] + v3),
                '&',
            ),
        ) == seq![(k1, v1), (k2, v2), (k3, v3)],
{
    let p1 = k1 + seq!['='] + v1;
    let p2 = k2 + seq!['='] + v2;
    let p3 = k3 + seq!['='] + v3;
    lemma_keyed_part(k1, v1);
    lemma_keyed_part(k2, v2);
    lemma_keyed_part(k3, v3);
    lemma_split_on_plain(p1, '&');
    lemma_split_on_append(p1, p2, '&');
    lemma_split_on_append(p1 + seq!['&'] + p2, p3, '&');
    let parts = split_on(p1 + seq!['&'] + p2 + seq!['&'] + p3, '&');
    assert(parts =~= seq![p1, p2, p3]);
    assert(seq![p1, p2, p3].drop_last() =~= seq![p1, p2]);
    assert(seq![p1, p2].drop_last() =~= seq![p1]);
    assert(seq![p1].drop_last() =~= Seq::<Seq<char>>::empty());
    assert(query_pairs(Seq::<Seq<char>>::empty()) =~= Seq::<(Seq<char>, Seq<char>)>::empty());
    assert(seq![p1].last() == p1);
    assert(seq![p1, p2].last() == p2);
    assert(seq![p1, p2, p3].last() == p3);
    assert(query_pair(p1) == Some((k1, v1)));
    assert(query_pairs(seq![p1]) =~= seq![(k1, v1)]);
    assert(query_pairs(seq![p1, p2]) =~= seq![(k1, v1), (k2, v2)]);
    assert(query_pairs(seq![p1, p2, p3]) =~= seq![(k1, v1), (k2, v2), (k3, v3)]);
}

proof fn lemma_find_in_three(
    k1: Seq<char>,
    v1: Seq<char>,
    k2: Seq<char>,
    v2: Seq<char>,
    k3: Seq<char>,
    v3: Seq<char>,
)
    requires
        k1 != k2,
        k1 != k3,
        k2 != k3,
    ensures
        find_query(seq![(k1, v1), (k2, v2), (k3, v3)], k1) == Some(v1),
        find_query(seq![(k1, v1), (k2, v2), (k3, v3)], k2) == Some(v2),
        find_query(seq![(k1, v1), (k2, v2), (k3, v3)], k3) == Some(v3),
{
    let pairs = seq![(k1, v1), (k2, v2), (k3, v3)];
    assert(pairs.drop_first() =~= seq![(k2, v2), (k3, v3)]);
    assert(pairs.drop_first().drop_first() =~= seq![(k3, v3)]);
    assert(find_query(seq![(k3, v3)], k3) == Some(v3));
    assert(find_query(seq![(k2, v2), (k3, v3)], k3) == Some(v3));
    assert(find_query(seq![(k2, v2), (k3, v3)], k2) == Some(v2));
}

/// An authorized `PUT /canonical?device_id=<d>&revision=<r>&base_revision=<b>`, with texts that
/// hold none of `& = ? % + #`, a revision that parses and a non-empty base that parses, is a
/// publish by that device of that revision over exactly that base.
pub proof fn law_publish_request_keeps_base(
    headers: Seq<(Seq<char>, Seq<char>)>,
    token: Seq<char>,
    i: int,
    device: Seq<char>,
    revision_text: Seq<char>,
    revision: Seq<char>,
    base_text: Seq<char>,
    base: Seq<char>,
)
    requires
        0 <= i < headers.len(),
        ascii_lowercase(headers[i].0) == ascii_lowercase("Authorization"@),
        headers[i].1 == "Bearer "@ + token,
        plain_query_text(device),
        plain_query_text(revision_text),
        plain_query_text(base_text),
        parse_revision_spec(revision_text) == Ok::<Seq<char>, RevisionError>(revision),
        base_text.len() > 0,
        parse_revision_spec(base_text) == Ok::<Seq<char>, RevisionError>(base),
    ensures
        route_spec(
            HttpMethod::Put,
            "/canonical?device_id="@ + device + "&revision="@ + revision_text + "&base_revision="@
                + base_text,
            headers,
            token,
        ) == RouteSpec::PublishCanonical(device, revision, Some(base)),
{
    reveal_strlit("/canonical?device_id=");
    reveal_strlit("&revision=");
    reveal_strlit("&base_revision=");
    reveal_strlit("/canonical");
    reveal_strlit("device_id");
    reveal_strlit("revision");
    reveal_strlit("base_revision");
    let k1 = "device_id"@;
    let k2 = "revision"@;
    let k3 = "base_revision"@;
    let q = (k1 + seq!['='] + device) + seq!['&'] + (k2 + seq!['='] + revision_text) + seq!['&']
        + (k3 + seq!['='] + base_text);
    let url = "/canonical?device_id="@ + device + "&revision="@ + revision_text
        + "&base_revision="@ + base_text;
    assert(url =~= "/canonical"@ + seq!['?'] + q);
    assert(plain_query_text(k1) && plain_query_text(k2) && plain_query_text(k3));
    assert forall|k: int| 0 <= k < "/canonical"@.len() implies #[trigger] "/canonical"@[k]
        != '?' by {}
    lemma_split_once_at("/canonical"@, q, '?');
    lemma_three_query_pairs(k1, device, k2, revision_text, k3, base_text);
    assert(k1.len() != k2.len() && k1.len() != k3.len() && k2.len() != k3.len());
    lemma_find_in_three(k1, device, k2, revision_text, k3, base_text);
    law_publish_keeps_base(url, headers, token, i, device, revision_text, revision, base_text, base);
}

} // verus!
