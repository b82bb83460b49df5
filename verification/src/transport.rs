//! Where the server is, and how long to try to reach it.

use crate::text;
use tokio_tungstenite::tungstenite::client::IntoClientRequest;
use tokio_tungstenite::tungstenite::http::Request as HttpRequest;
use tokio_tungstenite::tungstenite::http::{HeaderMap, HeaderName, HeaderValue};
use vstd::prelude::*;

verus! {

/// Where a server is. `S` is the type of a text.
#[derive(Debug, PartialEq, Eq)]
pub enum TargetOf<S> {
    /// A host and a port.
    Tcp(S),
    /// The path of a socket.
    Unix(S),
    /// The whole URL of a websocket.
    WebSocket(S),
}

pub type Target = TargetOf<String>;

pub type TargetView = TargetOf<Seq<char>>;

impl View for TargetOf<String> {
    type V = TargetView;

    open spec fn view(&self) -> TargetView {
        match *self {
            TargetOf::Tcp(s) => TargetOf::Tcp(s@),
            TargetOf::Unix(s) => TargetOf::Unix(s@),
            TargetOf::WebSocket(s) => TargetOf::WebSocket(s@),
        }
    }
}

/// The server that a URL names, by its scheme.
pub open spec fn target_in(url: Seq<char>) -> Option<TargetView> {
    if text::starts(url, "tcp://"@) {
        Some(TargetOf::Tcp(url.skip("tcp://"@.len() as int)))
    } else if text::starts(url, "unix://"@) {
        Some(TargetOf::Unix(url.skip("unix://"@.len() as int)))
    } else if text::starts(url, "ws://"@) || text::starts(url, "wss://"@) {
        Some(TargetOf::WebSocket(url))
    } else {
        None
    }
}

/// The message for a URL of another scheme.
pub open spec fn unsupported(url: Seq<char>) -> Seq<char> {
    "unsupported --connect "@ + text::debug_form(url)
        + ": use tcp://host:port, unix:///path, or ws://.../wss://..."@
}

/// Finds out where a URL leads, or says that it cannot be used.
pub fn parse_connect(connect: &str) -> (r: Result<Target, String>)
    ensures
        match r {
            Ok(t) => target_in(connect@) == Some(t@),
            Err(m) => target_in(connect@) is None && m@ == unsupported(connect@),
        },
{
    if let Some(addr) = text::strip_prefix(connect, "tcp://") {
        return Ok(TargetOf::Tcp(addr));
    }
    if let Some(path) = text::strip_prefix(connect, "unix://") {
        return Ok(TargetOf::Unix(path));
    }
    let ws: bool = text::strip_prefix(connect, "ws://").is_some();
    let wss: bool = text::strip_prefix(connect, "wss://").is_some();
    if ws || wss {
        return Ok(TargetOf::WebSocket(connect.to_owned()));
    }
    let mut m: String = "unsupported --connect ".to_string();
    m.append(text::quoted(connect).as_str());
    m.append(": use tcp://host:port, unix:///path, or ws://.../wss://...");
    Err(m)
}

/// A header's name and value: what stands in front of and behind the first colon, without the white
/// space around it.
pub open spec fn header_in(h: Seq<char>) -> Option<(Seq<char>, Seq<char>)> {
    match text::split_once(h, ':') {
        Some((k, v)) => Some((text::trimmed(k), text::trimmed(v))),
        None => None,
    }
}

/// The headers in a list; the first that is not one is an error.
pub open spec fn headers_in(raw: Seq<Seq<char>>) -> Result<Seq<(Seq<char>, Seq<char>)>, Seq<char>>
    decreases raw.len(),
{
    if raw.len() == 0 {
        Ok(Seq::empty())
    } else {
        match headers_in(raw.drop_last()) {
            Ok(l) => match header_in(raw.last()) {
                Some(kv) => Ok(l.push(kv)),
                None => Err(not_a_header(raw.last())),
            },
            Err(m) => Err(m),
        }
    }
}

/// The message for a text that is not a header.
pub open spec fn not_a_header(h: Seq<char>) -> Seq<char> {
    "--header must be 'Name: Value', got "@ + text::debug_form(h)
}

/// Pairs of texts, by their views.
pub open spec fn pair_views(l: Seq<(String, String)>) -> Seq<(Seq<char>, Seq<char>)> {
    l.map_values(|p: (String, String)| (p.0@, p.1@))
}

/// Takes headers of the form `Name: Value` apart.
pub fn parse_headers(raw: &[String]) -> (r: Result<Vec<(String, String)>, String>)
    ensures
        match r {
            Ok(l) => headers_in(crate::calls::name_views(raw@)) == Ok::<
                Seq<(Seq<char>, Seq<char>)>,
                Seq<char>,
            >(pair_views(l@)),
            Err(m) => headers_in(crate::calls::name_views(raw@)) == Err::<
                Seq<(Seq<char>, Seq<char>)>,
                Seq<char>,
            >(m@),
        },
{
    let ghost all = crate::calls::name_views(raw@);
    let mut l: Vec<(String, String)> = Vec::new();
    let mut i: usize = 0;
    assert(pair_views(l@) =~= Seq::empty());
    assert(all.take(0) =~= Seq::<Seq<char>>::empty());
    while i < raw.len()
        invariant
            i <= raw@.len(),
            all == crate::calls::name_views(raw@),
            headers_in(all.take(i as int)) == Ok::<Seq<(Seq<char>, Seq<char>)>, Seq<char>>(
                pair_views(l@),
            ),
        decreases raw.len() - i,
    {
        let ghost upto = all.take(i + 1);
        assert(upto.drop_last() =~= all.take(i as int));
        assert(upto.last() == raw@[i as int]@);
        match text::cut_once(raw[i].as_str(), ':') {
            Some((k, v)) => {
                let ghost before = pair_views(l@);
                let pair: (String, String) = (text::trim(k.as_str()), text::trim(v.as_str()));
                assert(pair_views(l@.push(pair)) =~= before.push((pair.0@, pair.1@)));
                l.push(pair);
            },
            None => {
                let mut m: String = "--header must be 'Name: Value', got ".to_string();
                m.append(text::quoted(raw[i].as_str()).as_str());
                proof {
                    lemma_headers_stop(all, i + 1, m@);
                }
                return Err(m);
            },
        }
        i = i + 1;
    }
    assert(all.take(all.len() as int) =~= all);
    Ok(l)
}

proof fn lemma_headers_stop(all: Seq<Seq<char>>, k: int, m: Seq<char>)
    requires
        0 <= k <= all.len(),
        headers_in(all.take(k)) == Err::<Seq<(Seq<char>, Seq<char>)>, Seq<char>>(m),
    ensures
        headers_in(all) == Err::<Seq<(Seq<char>, Seq<char>)>, Seq<char>>(m),
    decreases all.len() - k,
{
    if k == all.len() {
        assert(all.take(k) =~= all);
    } else {
        assert(all.take(k + 1).drop_last() =~= all.take(k));
        lemma_headers_stop(all, k + 1, m);
    }
}

/// A header is taken apart at its first colon: the value may hold more of them.
pub proof fn header_value_may_hold_colons(k: Seq<char>, v: Seq<char>)
    requires
        !k.contains(':'),
    ensures
        header_in(k + seq![':'] + v) == Some((text::trimmed(k), text::trimmed(v))),
{
    let h = k + seq![':'] + v;
    assert forall|j: int| 0 <= j < k.len() implies h[j] != ':' by {
        assert(h[j] == k[j]);
        assert(k.contains(k[j]));
    }
    text::lemma_split_once(h, ':', k.len() as int);
    assert(h.take(k.len() as int) =~= k);
    assert(h.skip(k.len() as int + 1) =~= v);
}

/// `http::HeaderMap`, the headers of a request.
#[verifier::external_type_specification]
#[verifier::external_body]
#[verifier::reject_recursive_types(T)]
pub struct ExHeaderMap<T>(HeaderMap<T>);

/// `http::HeaderValue`, the value of a header.
#[verifier::external_type_specification]
#[verifier::external_body]
pub struct ExHeaderValue(HeaderValue);

/// The values that a `HeaderMap` holds under each name, in order. Names and values are bytes, and the
/// names are in lower case.
pub uninterp spec fn header_values(m: HeaderMap<HeaderValue>) -> Map<Seq<u8>, Seq<Seq<u8>>>;

/// A byte that a header's name may hold, in lower case.
pub open spec fn name_byte(b: u8) -> Option<u8> {
    if 65 <= b <= 90 {
        Some((b + 32) as u8)
    } else if b == 33 || 35 <= b <= 39 || b == 42 || b == 43 || b == 45 || b == 46 || 48 <= b <= 57
        || 94 <= b <= 122 || b == 124 || b == 126 {
        Some(b)
    } else {
        None
    }
}

/// The name of a header in lower case, or `None` where it cannot be a name.
pub open spec fn header_name(k: Seq<u8>) -> Option<Seq<u8>> {
    if 1 <= k.len() <= 65535 && (forall|i: int|
        0 <= i < k.len() ==> name_byte(#[trigger] k[i]) is Some) {
        Some(k.map_values(|b: u8| name_byte(b)->0))
    } else {
        None
    }
}

/// Whether the value of a header has no control characters in it, but for tabs.
pub open spec fn is_header_value(v: Seq<u8>) -> bool {
    forall|i: int| 0 <= i < v.len() ==> (#[trigger] v[i] >= 32 && v[i] != 127) || v[i] == 9
}

/// Why a header could not be added.
#[derive(Clone, Copy, Debug, PartialEq, Eq)]
pub enum HeaderError {
    BadName,
    BadValue,
    /// The request has thousands of headers already.
    TooMany,
}

/// What to tell the user of a header that could not be added.
pub open spec fn header_message(e: HeaderError) -> Seq<char> {
    match e {
        HeaderError::BadName => "invalid HTTP header name"@,
        HeaderError::BadValue => "failed to parse header value"@,
        HeaderError::TooMany => "max size reached"@,
    }
}

impl HeaderError {
    /// What to tell the user.
    pub fn message(&self) -> (m: &'static str)
        ensures
            m@ == header_message(*self),
    {
        match self {
            HeaderError::BadName => "invalid HTTP header name",
            HeaderError::BadValue => "failed to parse header value",
            HeaderError::TooMany => "max size reached",
        }
    }
}

/// A name and a value, as the bytes of their UTF-8.
pub open spec fn header_bytes(h: (Seq<char>, Seq<char>)) -> (Seq<u8>, Seq<u8>) {
    (vstd::utf8::encode_utf8(h.0), vstd::utf8::encode_utf8(h.1))
}

/// What is wrong with a header, if anything is.
pub open spec fn header_fault(h: (Seq<char>, Seq<char>)) -> Option<HeaderError> {
    if header_name(header_bytes(h).0) is None {
        Some(HeaderError::BadName)
    } else if !is_header_value(header_bytes(h).1) {
        Some(HeaderError::BadValue)
    } else {
        None
    }
}

/// The headers of a request after one more was set: it takes the place of all that had its name.
pub open spec fn header_set(
    m: Map<Seq<u8>, Seq<Seq<u8>>>,
    h: (Seq<char>, Seq<char>),
) -> Map<Seq<u8>, Seq<Seq<u8>>> {
    m.insert(header_name(header_bytes(h).0)->0, seq![header_bytes(h).1])
}

/// `HeaderMap::try_insert`, with the name and the value converted by `HeaderName::from_bytes` and
/// `HeaderValue::from_str`. A name is turned to lower case and must consist of the bytes that HTTP
/// allows; a value must have no control characters but tabs. The new value takes the place of all
/// that had the name. The map is full at the earliest when it has 4096 names; when exactly is left
/// open. A header that is not set leaves the map as it is.
#[verifier::external_body]
fn set_header(hs: &mut HeaderMap<HeaderValue>, k: &str, v: &str) -> (r: Result<(), HeaderError>)
    ensures
        match r {
            Ok(_) => {
                &&& header_fault((k@, v@)) is None
                &&& header_values(*final(hs)) == header_set(header_values(*old(hs)), (k@, v@))
            },
            Err(e) => {
                &&& header_values(*final(hs)) == header_values(*old(hs))
                &&& match header_fault((k@, v@)) {
                    Some(fault) => e == fault,
                    None => e is TooMany && header_values(*old(hs)).dom().len() >= 4096,
                }
            },
        },
{
    let name = HeaderName::from_bytes(k.as_bytes()).map_err(|_| HeaderError::BadName)?;
    let value = HeaderValue::from_str(v).map_err(|_| HeaderError::BadValue)?;
    hs.try_insert(name, value).map_err(|_| HeaderError::TooMany)?;
    Ok(())
}

/// The headers of a request after several were set in turn.
pub open spec fn headers_set(
    m: Map<Seq<u8>, Seq<Seq<u8>>>,
    l: Seq<(Seq<char>, Seq<char>)>,
) -> Map<Seq<u8>, Seq<Seq<u8>>>
    decreases l.len(),
{
    if l.len() == 0 {
        m
    } else {
        header_set(headers_set(m, l.drop_last()), l.last())
    }
}

/// That the first `n` headers were set.
pub open spec fn set_up_to(
    before: Map<Seq<u8>, Seq<Seq<u8>>>,
    after: Map<Seq<u8>, Seq<Seq<u8>>>,
    l: Seq<(Seq<char>, Seq<char>)>,
    n: int,
) -> bool {
    &&& 0 <= n <= l.len()
    &&& forall|j: int| 0 <= j < n ==> header_fault(#[trigger] l[j]) is None
    &&& after == headers_set(before, l.take(n))
}

/// That the header at `n` could not be set for the reason `e`, and those in front of it were.
pub open spec fn stopped_at(
    before: Map<Seq<u8>, Seq<Seq<u8>>>,
    after: Map<Seq<u8>, Seq<Seq<u8>>>,
    l: Seq<(Seq<char>, Seq<char>)>,
    n: int,
    e: HeaderError,
) -> bool {
    &&& n < l.len()
    &&& set_up_to(before, after, l, n)
    &&& match header_fault(l[n]) {
        Some(fault) => e == fault,
        None => e is TooMany && after.dom().len() >= 4096,
    }
}

/// Sets headers on a request, in order, up to the first that cannot be set.
pub fn add_headers(hs: &mut HeaderMap<HeaderValue>, headers: &[(String, String)]) -> (r: Result<
    (),
    HeaderError,
>)
    ensures
        match r {
            Ok(_) => set_up_to(
                header_values(*old(hs)),
                header_values(*final(hs)),
                pair_views(headers@),
                headers@.len() as int,
            ),
            Err(e) => exists|n: int| #[trigger]
                stopped_at(
                    header_values(*old(hs)),
                    header_values(*final(hs)),
                    pair_views(headers@),
                    n,
                    e,
                ),
        },
{
    let ghost before = header_values(*hs);
    let ghost l = pair_views(headers@);
    let mut i: usize = 0;
    assert(l.take(0) =~= Seq::<(Seq<char>, Seq<char>)>::empty());
    while i < headers.len()
        invariant
            i <= headers@.len(),
            l == pair_views(headers@),
            before == header_values(*old(hs)),
            set_up_to(before, header_values(*hs), l, i as int),
        decreases headers.len() - i,
    {
        let h: &(String, String) = &headers[i];
        assert(l[i as int] == (h.0@, h.1@));
        match set_header(hs, h.0.as_str(), h.1.as_str()) {
            Ok(_) => {
                assert(l.take(i + 1).drop_last() =~= l.take(i as int));
            },
            Err(e) => {
                assert(stopped_at(before, header_values(*hs), l, i as int, e));
                return Err(e);
            },
        }
        i = i + 1;
    }
    Ok(())
}

/// Headers that are not set stay as they were.
pub proof fn other_headers_stay(
    m: Map<Seq<u8>, Seq<Seq<u8>>>,
    l: Seq<(Seq<char>, Seq<char>)>,
    name: Seq<u8>,
)
    requires
        m.contains_key(name),
        forall|i: int|
            0 <= i < l.len() ==> header_name(header_bytes(#[trigger] l[i]).0) != Some(name),
        forall|i: int| 0 <= i < l.len() ==> header_fault(#[trigger] l[i]) is None,
    ensures
        headers_set(m, l).contains_key(name),
        headers_set(m, l)[name] == m[name],
    decreases l.len(),
{
    if l.len() > 0 {
        let front = l.drop_last();
        assert forall|i: int| 0 <= i < front.len() implies header_name(
            header_bytes(#[trigger] front[i]).0,
        ) != Some(name) && header_fault(front[i]) is None by {
            assert(front[i] == l[i]);
        }
        other_headers_stay(m, front, name);
        assert(l.last() == l[l.len() - 1]);
        assert(header_fault(l.last()) is None);
    }
}

/// Of several headers with the same name, the last one set counts.
pub proof fn last_header_counts(
    m: Map<Seq<u8>, Seq<Seq<u8>>>,
    l: Seq<(Seq<char>, Seq<char>)>,
    h: (Seq<char>, Seq<char>),
)
    requires
        header_fault(h) is None,
    ensures
        headers_set(m, l.push(h))[header_name(header_bytes(h).0)->0] == seq![header_bytes(h).1],
{
    assert(l.push(h).drop_last() =~= l);
}

proof fn lemma_headers_set_len(m: Map<Seq<u8>, Seq<Seq<u8>>>, l: Seq<(Seq<char>, Seq<char>)>)
    requires
        m.dom().finite(),
    ensures
        headers_set(m, l).dom().finite(),
        headers_set(m, l).dom().len() <= m.dom().len() + l.len(),
    decreases l.len(),
{
    if l.len() > 0 {
        lemma_headers_set_len(m, l.drop_last());
    }
}

/// `http::Request`, the request that opens a websocket.
#[verifier::external_type_specification]
#[verifier::external_body]
#[verifier::reject_recursive_types(T)]
pub struct ExHttpRequest<T>(HttpRequest<T>);

/// The headers of a request, as a `HeaderMap` holds them.
pub uninterp spec fn request_headers(q: HttpRequest<()>) -> Map<Seq<u8>, Seq<Seq<u8>>>;

/// The method and the URI of a request, as text with a space between them.
pub uninterp spec fn request_line(q: HttpRequest<()>) -> Seq<char>;

/// What `IntoClientRequest::into_client_request` makes of a URL: the URI to ask for as text and the
/// host to name, or the text of the error where the URL will not do.
pub uninterp spec fn request_parts(url: Seq<char>) -> Result<(Seq<char>, Seq<u8>), Seq<char>>;

/// Whether `b` is one of the 64 characters in which keys are written.
pub open spec fn key_byte(b: u8) -> bool {
    65 <= b <= 90 || 97 <= b <= 122 || 48 <= b <= 57 || b == 43 || b == 47
}

/// Whether `k` is a handshake key: 16 bytes in base 64.
pub open spec fn is_key(k: Seq<u8>) -> bool {
    &&& k.len() == 24
    &&& forall|i: int| 0 <= i < 22 ==> key_byte(#[trigger] k[i])
    &&& k[22] == 61 && k[23] == 61
}

/// The UTF-8 of a text.
pub open spec fn utf8(s: Seq<char>) -> Seq<u8> {
    vstd::utf8::encode_utf8(s)
}

/// The headers of a handshake with `host`: four that are fixed and a key that was drawn.
pub open spec fn handshake(host: Seq<u8>, m: Map<Seq<u8>, Seq<Seq<u8>>>) -> bool {
    &&& m.dom() == set![
        utf8("host"@),
        utf8("connection"@),
        utf8("upgrade"@),
        utf8("sec-websocket-version"@),
        utf8("sec-websocket-key"@),
    ]
    &&& m[utf8("host"@)] == seq![host]
    &&& m[utf8("connection"@)] == seq![utf8("Upgrade"@)]
    &&& m[utf8("upgrade"@)] == seq![utf8("websocket"@)]
    &&& m[utf8("sec-websocket-version"@)] == seq![utf8("13"@)]
    &&& m[utf8("sec-websocket-key"@)].len() == 1
    &&& is_key(m[utf8("sec-websocket-key"@)][0])
}

/// `IntoClientRequest::into_client_request` on a URL: a GET request for the URL, with the host, the
/// upgrade to version 13 of the protocol and a fresh random key in its headers. Whether it succeeds,
/// the URI, the host and the error's text depend on the URL alone; the key is drawn anew each time.
#[verifier::external_body]
fn client_request(url: &str) -> (r: Result<HttpRequest<()>, String>)
    ensures
        match r {
            Ok(q) => {
                &&& request_parts(url@) matches Ok((uri, host)) && request_line(q) == "GET "@ + uri
                    && handshake(host, request_headers(q))
            },
            Err(m) => request_parts(url@) == Err::<(Seq<char>, Seq<u8>), Seq<char>>(m@),
        },
{
    url.into_client_request().map_err(|e| e.to_string())
}

/// `http::Request::headers_mut`: the headers of a request, to be changed in place. Nothing else of
/// the request changes.
#[verifier::external_body]
fn headers_of(q: &mut HttpRequest<()>) -> (hs: &mut HeaderMap<HeaderValue>)
    ensures
        header_values(*hs) == request_headers(*old(q)),
        request_headers(*final(q)) == header_values(*final(hs)),
        request_line(*final(q)) == request_line(*old(q)),
{
    q.headers_mut()
}

/// Why a handshake request could not be made.
#[derive(Debug, PartialEq, Eq)]
pub enum RequestError {
    /// The URL will not do; the text says why.
    Url(String),
    Header(HeaderError),
}

impl RequestError {
    /// What to tell the user.
    pub fn message(&self) -> (m: String)
        ensures
            m@ == (match *self {
                RequestError::Url(why) => why@,
                RequestError::Header(e) => header_message(e),
            }),
    {
        match self {
            RequestError::Url(why) => why.clone(),
            RequestError::Header(e) => e.message().to_string(),
        }
    }
}

/// What is wrong with the URL of a websocket, if anything is.
pub open spec fn url_fault(url: Seq<char>) -> Option<Seq<char>> {
    match request_parts(url) {
        Ok(_) => None,
        Err(m) => Some(m),
    }
}

/// That `after` are the headers of a handshake with the host that `url` names, which were `m` before
/// all of `l` was set.
pub open spec fn shakes_hands(
    url: Seq<char>,
    l: Seq<(Seq<char>, Seq<char>)>,
    after: Map<Seq<u8>, Seq<Seq<u8>>>,
    m: Map<Seq<u8>, Seq<Seq<u8>>>,
) -> bool {
    &&& request_parts(url) matches Ok((_, host)) && handshake(host, m)
    &&& set_up_to(m, after, l, l.len() as int)
}

/// That `q` asks for `url` with a handshake's headers, on which all of `l` was set.
pub open spec fn request_made(
    url: Seq<char>,
    l: Seq<(Seq<char>, Seq<char>)>,
    q: HttpRequest<()>,
) -> bool {
    &&& request_parts(url) matches Ok((uri, _)) && request_line(q) == "GET "@ + uri
    &&& exists|m: Map<Seq<u8>, Seq<Seq<u8>>>| #[trigger] shakes_hands(url, l, request_headers(q), m)
}

/// That the header at `n` is the first that cannot be set on a handshake request, for the reason `e`.
/// Where nothing is wrong with it there are too many, which takes thousands.
pub open spec fn first_refused(l: Seq<(Seq<char>, Seq<char>)>, n: int, e: HeaderError) -> bool {
    &&& 0 <= n < l.len()
    &&& forall|j: int| 0 <= j < n ==> header_fault(#[trigger] l[j]) is None
    &&& match header_fault(l[n]) {
        Some(fault) => e == fault,
        None => e is TooMany && n + 5 >= 4096,
    }
}

/// That a header cannot be set, for the reason `e`.
pub open spec fn header_refused(l: Seq<(Seq<char>, Seq<char>)>, e: HeaderError) -> bool {
    exists|n: int| #[trigger] first_refused(l, n, e)
}

/// Builds the request that opens the websocket at `url`, with `headers` set on it in order.
pub fn ws_request(url: &str, headers: &[(String, String)]) -> (r: Result<
    HttpRequest<()>,
    RequestError,
>)
    ensures
        match r {
            Ok(q) => request_made(url@, pair_views(headers@), q),
            Err(RequestError::Url(m)) => url_fault(url@) == Some(m@),
            Err(RequestError::Header(e)) => url_fault(url@) is None && header_refused(
                pair_views(headers@),
                e,
            ),
        },
{
    let mut q: HttpRequest<()> = match client_request(url) {
        Ok(q) => q,
        Err(m) => {
            return Err(RequestError::Url(m));
        },
    };
    let ghost m = request_headers(q);
    let ghost l = pair_views(headers@);
    let hs: &mut HeaderMap<HeaderValue> = headers_of(&mut q);
    let added: Result<(), HeaderError> = add_headers(hs, headers);
    match added {
        Ok(_) => {
            assert(shakes_hands(url@, l, request_headers(q), m));
            assert(request_made(url@, l, q));
            Ok(q)
        },
        Err(e) => {
            proof {
                let after = request_headers(q);
                let n = choose|n: int| #[trigger] stopped_at(m, after, l, n, e);
                lemma_handshake_len(m);
                lemma_headers_set_len(m, l.take(n));
                assert(first_refused(l, n, e));
            }
            Err(RequestError::Header(e))
        },
    }
}

proof fn lemma_handshake_len(m: Map<Seq<u8>, Seq<Seq<u8>>>)
    requires
        exists|host: Seq<u8>| handshake(host, m),
    ensures
        m.dom().finite(),
        m.dom().len() <= 5,
{
    let none = Set::<Seq<u8>>::empty();
    let a = none.insert(utf8("host"@));
    let b = a.insert(utf8("connection"@));
    let c = b.insert(utf8("upgrade"@));
    let d = c.insert(utf8("sec-websocket-version"@));
    let all = d.insert(utf8("sec-websocket-key"@));
    assert(m.dom() =~= all);
}

/// Why a connection could not be made.
#[derive(Clone, Copy, Debug, PartialEq, Eq)]
pub enum ConnectFailure {
    Refused,
    NotFound,
    Other,
}

/// For how long a connection is tried, in milliseconds.
pub const CONNECT_RETRY: u128 = 30_000;

/// The pause between two tries, in milliseconds.
pub const RETRY_PAUSE: u64 = 200;

/// How long to wait, in milliseconds, before a connection that failed is tried again.
pub open spec fn retry_pause(failure: ConnectFailure, elapsed: u128) -> Option<u64> {
    if (failure is Refused || failure is NotFound) && elapsed < CONNECT_RETRY {
        Some(RETRY_PAUSE)
    } else {
        None
    }
}

/// Whether to try again, and after how many milliseconds, when `elapsed` milliseconds have passed
/// since the first try. A server that was just started may not be listening yet, or its socket may
/// not be there; other failures are final.
pub fn retry_connect(failure: ConnectFailure, elapsed: u128) -> (pause: Option<u64>)
    ensures
        pause == retry_pause(failure, elapsed),
{
    match failure {
        ConnectFailure::Other => None,
        _ => if elapsed < CONNECT_RETRY {
            Some(RETRY_PAUSE)
        } else {
            None
        },
    }
}

// Socket domains.
pub const AF_UNIX: i32 = 1;
pub const AF_INET: i32 = 2;
pub const AF_INET6: i32 = 10;

/// The kind of a connected socket.
#[derive(Clone, Copy, Debug, PartialEq, Eq)]
pub enum SocketKind {
    Tcp,
    Unix,
}

/// The message for a socket that is neither.
pub open spec fn unsupported_domain(fd: i32, domain: i32) -> Seq<char> {
    "fd "@ + text::decimal(fd as int) + " is a socket of unsupported domain "@ + text::decimal(
        domain as int,
    )
}

/// The kind of a socket that was handed over as `fd`, by its domain.
pub fn socket_kind(fd: i32, domain: i32) -> (r: Result<SocketKind, String>)
    ensures
        match r {
            Ok(k) => k == (if domain == AF_UNIX {
                SocketKind::Unix
            } else {
                SocketKind::Tcp
            }) && (domain == AF_UNIX || domain == AF_INET || domain == AF_INET6),
            Err(m) => {
                &&& domain != AF_UNIX && domain != AF_INET && domain != AF_INET6
                &&& m@ == unsupported_domain(fd, domain)
            },
        },
{
    if domain == AF_UNIX {
        Ok(SocketKind::Unix)
    } else if domain == AF_INET || domain == AF_INET6 {
        Ok(SocketKind::Tcp)
    } else {
        let mut m: String = "fd ".to_string();
        text::push_decimal(&mut m, fd as i64);
        m.append(" is a socket of unsupported domain ");
        text::push_decimal(&mut m, domain as i64);
        Err(m)
    }
}

/// A websocket message, as far as the tunnel tells them apart.
#[derive(Debug, PartialEq, Eq)]
pub enum WsMessage {
    Binary(Vec<u8>),
    Close,
    /// Pings, pongs and text.
    Other,
}

/// What a websocket message is to the tunnel.
#[derive(Debug, PartialEq, Eq)]
pub enum WsChunk {
    Deliver(Vec<u8>),
    Skip,
    End,
}

/// Binary messages carry the bytes of the tunnel, a close ends it, and everything else is passed
/// over.
pub fn ws_chunk(m: WsMessage) -> (c: WsChunk)
    ensures
        c == (match m {
            WsMessage::Binary(b) => WsChunk::Deliver(b),
            WsMessage::Close => WsChunk::End,
            WsMessage::Other => WsChunk::Skip,
        }),
{
    match m {
        WsMessage::Binary(b) => WsChunk::Deliver(b),
        WsMessage::Close => WsChunk::End,
        WsMessage::Other => WsChunk::Skip,
    }
}

/// What lies behind a scheme is where to connect to. WebSockets are given the whole URL.
pub proof fn schemes_tell_the_transport(rest: Seq<char>)
    ensures
        target_in("tcp://"@ + rest) matches Some(TargetOf::Tcp(addr)) && addr == rest,
        target_in("unix://"@ + rest) matches Some(TargetOf::Unix(path)) && path == rest,
        target_in("ws://"@ + rest) matches Some(TargetOf::WebSocket(url)) && url == "ws://"@ + rest,
        target_in("wss://"@ + rest) matches Some(TargetOf::WebSocket(url)) && url == "wss://"@
            + rest,
{
    reveal_strlit("tcp://");
    reveal_strlit("unix://");
    reveal_strlit("ws://");
    reveal_strlit("wss://");
    lemma_starts("tcp://"@, rest);
    lemma_starts("unix://"@, rest);
    lemma_starts("ws://"@, rest);
    lemma_starts("wss://"@, rest);
    lemma_starts_alike("unix://"@ + rest, "tcp://"@);
    lemma_starts_alike("ws://"@ + rest, "tcp://"@);
    lemma_starts_alike("ws://"@ + rest, "unix://"@);
    lemma_starts_alike("wss://"@ + rest, "tcp://"@);
    lemma_starts_alike("wss://"@ + rest, "unix://"@);
}

proof fn lemma_starts(scheme: Seq<char>, rest: Seq<char>)
    ensures
        text::starts(scheme + rest, scheme),
        (scheme + rest).skip(scheme.len() as int) == rest,
{
    assert((scheme + rest).take(scheme.len() as int) =~= scheme);
    assert((scheme + rest).skip(scheme.len() as int) =~= rest);
}

proof fn lemma_starts_alike(url: Seq<char>, scheme: Seq<char>)
    ensures
        text::starts(url, scheme) && scheme.len() > 0 ==> url[0] == scheme[0],
{
    if text::starts(url, scheme) && scheme.len() > 0 {
        assert(url.take(scheme.len() as int)[0] == url[0]);
    }
}

/// Another scheme, or none, is not supported.
pub proof fn other_schemes_are_refused(url: Seq<char>)
    requires
        forall|rest: Seq<char>| url != #[trigger] ("tcp://"@ + rest),
        forall|rest: Seq<char>| url != #[trigger] ("unix://"@ + rest),
        forall|rest: Seq<char>| url != #[trigger] ("ws://"@ + rest),
        forall|rest: Seq<char>| url != #[trigger] ("wss://"@ + rest),
    ensures
        target_in(url) is None,
{
    lemma_behind(url, "tcp://"@);
    lemma_behind(url, "unix://"@);
    lemma_behind(url, "ws://"@);
    lemma_behind(url, "wss://"@);
}

proof fn lemma_behind(url: Seq<char>, scheme: Seq<char>)
    ensures
        text::starts(url, scheme) ==> url == scheme + url.skip(scheme.len() as int),
{
    if text::starts(url, scheme) {
        assert(url =~= url.take(scheme.len() as int) + url.skip(scheme.len() as int));
    }
}

/// Every header that is given is used, in the order given, or the first that has no colon is told.
pub proof fn headers_are_all_read(raw: Seq<Seq<char>>)
    ensures
        match headers_in(raw) {
            Ok(l) => l.len() == raw.len() && forall|i: int|
                0 <= i < raw.len() ==> header_in(#[trigger] raw[i]) == Some(l[i]),
            Err(m) => exists|i: int|
                {
                    &&& 0 <= i < raw.len() && header_in(#[trigger] raw[i]) is None
                    &&& m == not_a_header(raw[i])
                    &&& forall|j: int| 0 <= j < i ==> header_in(#[trigger] raw[j]) is Some
                },
        },
    decreases raw.len(),
{
    if raw.len() > 0 {
        let front = raw.drop_last();
        headers_are_all_read(front);
        match headers_in(front) {
            Ok(l) => {
                assert forall|i: int| 0 <= i < front.len() implies header_in(#[trigger] raw[i])
                    == Some(l[i]) by {
                    assert(front[i] == raw[i]);
                }
                assert(raw[raw.len() - 1] == raw.last());
            },
            Err(m) => {
                let i = choose|i: int|
                    {
                        &&& 0 <= i < front.len() && header_in(#[trigger] front[i]) is None
                        &&& m == not_a_header(front[i])
                        &&& forall|j: int| 0 <= j < i ==> header_in(#[trigger] front[j]) is Some
                    };
                assert(raw[i] == front[i]);
                assert forall|j: int| 0 <= j < i implies header_in(#[trigger] raw[j]) is Some by {
                    assert(front[j] == raw[j]);
                }
            },
        }
    }
}

/// A header is its name and its value, without the white space round them; a string without a colon is
/// no header.
pub proof fn headers_are_split_at_the_colon(
    name: Seq<char>,
    value: Seq<char>,
    a: Seq<char>,
    b: Seq<char>,
    c: Seq<char>,
    d: Seq<char>,
)
    requires
        text::blank(a) && text::blank(b) && text::blank(c) && text::blank(d),
        !name.contains(':') && !a.contains(':') && !b.contains(':'),
        name.len() > 0 ==> !text::white_space(name[0]) && !text::white_space(name.last()),
        value.len() > 0 ==> !text::white_space(value[0]) && !text::white_space(value.last()),
    ensures
        header_in((a + name + b) + seq![':'] + (c + value + d)) == Some((name, value)),
        header_in(name) is None,
{
    let k = a + name + b;
    assert forall|i: int| 0 <= i < k.len() implies k[i] != ':' by {
        if i < a.len() {
            assert(a.contains(a[i]));
        } else if i < a.len() + name.len() {
            assert(name.contains(name[i - a.len()]));
        } else {
            assert(b.contains(b[i - a.len() - name.len()]));
        }
    }
    text::strings_split_at_the_first(k, ':', c + value + d);
    text::strings_split_at_the_first(name, ':', Seq::empty());
    text::trimming_takes_white_space_off(a, name, b);
    text::trimming_takes_white_space_off(c, value, d);
}

/// Header names differ in more than case: a name stands for itself in lower case.
pub proof fn header_names_ignore_case(k: Seq<u8>)
    ensures
        header_name(k) matches Some(n) ==> {
            &&& n.len() == k.len()
            &&& forall|i: int|
                0 <= i < k.len() ==> #[trigger] n[i] == if 65 <= k[i] <= 90 {
                    k[i] + 32
                } else {
                    k[i] as int
                }
            &&& header_name(n) == Some(n)
        },
        header_name(Seq::empty()) is None,
{
    if let Some(n) = header_name(k) {
        assert forall|i: int| 0 <= i < n.len() implies name_byte(#[trigger] n[i]) == Some(n[i]) by {
            assert(name_byte(k[i]) is Some);
        }
        assert(n.map_values(|b: u8| name_byte(b)->0) =~= n);
    }
}

/// A header that is set has its one value from then on, whatever it had before, and no other header
/// changes.
pub proof fn headers_are_set_by_name(m: Map<Seq<u8>, Seq<Seq<u8>>>, h: (Seq<char>, Seq<char>))
    requires
        header_fault(h) is None,
    ensures
        ({
            let after = header_set(m, h);
            &&& header_name(vstd::utf8::encode_utf8(h.0)) matches Some(n) && after.contains_key(n)
                && after[n] == seq![vstd::utf8::encode_utf8(h.1)] && forall|k: Seq<u8>|
                k != n ==> {
                    &&& #[trigger] after.contains_key(k) == m.contains_key(k)
                    &&& m.contains_key(k) ==> after[k] == m[k]
                }
        }),
{
}

/// A connection that is refused, or whose socket is not there yet, is tried again every 200 ms for
/// half a minute; other failures are final.
pub proof fn only_absent_servers_are_waited_for(failure: ConnectFailure, elapsed: u128)
    ensures
        retry_pause(failure, elapsed) is Some <==> !(failure is Other) && elapsed < 30_000,
        retry_pause(failure, elapsed) matches Some(ms) ==> ms == 200,
{
}

/// A header's value may hold any byte but the ASCII control characters, of which only the tab is
/// allowed.
pub proof fn header_values_hold_no_control_characters(v: Seq<u8>, i: int)
    requires
        0 <= i < v.len(),
    ensures
        is_header_value(v) ==> v[i] == 9 || (32 <= v[i] && v[i] != 127),
        !is_header_value(v) ==> exists|k: int|
            0 <= k < v.len() && #[trigger] v[k] != 9 && (v[k] < 32 || v[k] == 127),
{
}

} // verus!
