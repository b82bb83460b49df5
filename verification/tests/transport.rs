use p9fuse::session::{session_end, SessionEndOf, SessionEventOf};
use p9fuse::text::{path_names, trim};
use p9fuse::transport::{
    add_headers, parse_connect, parse_headers, retry_connect, socket_kind, ws_chunk, ws_request,
    ConnectFailure, HeaderError, RequestError, SocketKind, TargetOf, WsChunk, WsMessage, AF_INET,
    AF_INET6, AF_UNIX,
};
use tokio_tungstenite::tungstenite::client::IntoClientRequest;
use tokio_tungstenite::tungstenite::http::{HeaderMap, HeaderName, HeaderValue};

fn pair(k: &str, v: &str) -> (String, String) {
    (k.to_string(), v.to_string())
}

#[test]
fn urls_name_servers_by_scheme() {
    let s = |x: &str| x.to_string();
    assert_eq!(parse_connect("tcp://h:564"), Ok(TargetOf::Tcp(s("h:564"))));
    assert_eq!(parse_connect("unix:///run/d"), Ok(TargetOf::Unix(s("/run/d"))));
    assert_eq!(parse_connect("ws://g/9p"), Ok(TargetOf::WebSocket(s("ws://g/9p"))));
    assert_eq!(parse_connect("wss://g"), Ok(TargetOf::WebSocket(s("wss://g"))));
    assert_eq!(
        parse_connect("http://\"x"),
        Err(s(
            "unsupported --connect \"http://\\\"x\": use tcp://host:port, unix:///path, or ws://.../wss://..."
        ))
    );
    assert!(parse_connect("tcp:/").is_err());
}

#[test]
fn headers_are_taken_apart() {
    let raw = vec!["Authorization:  Bearer a:b ".to_string(), " X :".to_string()];
    assert_eq!(
        parse_headers(&raw),
        Ok(vec![pair("Authorization", "Bearer a:b"), pair("X", "")])
    );
    assert_eq!(parse_headers(&[]), Ok(vec![]));
    let raw = vec!["A: b".to_string(), "none\n".to_string(), "other".to_string()];
    assert_eq!(
        parse_headers(&raw),
        Err("--header must be 'Name: Value', got \"none\\n\"".to_string())
    );
}

#[test]
fn headers_are_set_on_the_request() {
    let mut hs: HeaderMap<HeaderValue> = HeaderMap::new();
    hs.append(HeaderName::from_static("x-a"), HeaderValue::from_static("1"));
    hs.append(HeaderName::from_static("x-a"), HeaderValue::from_static("2"));
    hs.append(HeaderName::from_static("host"), HeaderValue::from_static("h"));
    let headers = vec![pair("X-A", "3"), pair("Authorization", "Bearer t\tü"), pair("x-b", "")];
    assert_eq!(add_headers(&mut hs, &headers), Ok(()));
    let values = |hs: &HeaderMap<HeaderValue>, k: &str| -> Vec<Vec<u8>> {
        hs.get_all(k).iter().map(|v| v.as_bytes().to_vec()).collect()
    };
    assert_eq!(values(&hs, "x-a"), vec![b"3".to_vec()]);
    assert_eq!(values(&hs, "authorization"), vec!["Bearer t\tü".as_bytes().to_vec()]);
    assert_eq!(values(&hs, "x-b"), vec![b"".to_vec()]);
    assert_eq!(values(&hs, "host"), vec![b"h".to_vec()]);
    assert_eq!(hs.len(), 4);
    // Those in front of a bad one are set, those behind are not.
    let headers = vec![pair("x-c", "1"), pair("x d", "2"), pair("x-e", "3")];
    assert_eq!(add_headers(&mut hs, &headers), Err(HeaderError::BadName));
    assert_eq!((hs.contains_key("x-c"), hs.contains_key("x-e")), (true, false));
    assert_eq!(add_headers(&mut hs, &[pair("", "v")]), Err(HeaderError::BadName));
    assert_eq!(add_headers(&mut hs, &[pair("x-f", "a\nb")]), Err(HeaderError::BadValue));
    assert_eq!(add_headers(&mut hs, &[pair("x-f", "\u{7f}")]), Err(HeaderError::BadValue));
    assert_eq!(hs.len(), 5);
}

#[test]
fn header_names_are_what_http_allows() {
    for b in 0..128u8 {
        let name = (b as char).to_string();
        let mut hs: HeaderMap<HeaderValue> = HeaderMap::new();
        let allowed = b.is_ascii_alphanumeric() || b"!#$%&'*+-.^_`|~".contains(&b);
        assert_eq!(add_headers(&mut hs, &[pair(&name, "v")]).is_ok(), allowed);
        if allowed {
            assert!(hs.contains_key(name.to_lowercase().as_str()));
        }
    }
    let mut hs: HeaderMap<HeaderValue> = HeaderMap::new();
    assert_eq!(add_headers(&mut hs, &[pair(&"a".repeat(65535), "v")]), Ok(()));
    assert_eq!(
        add_headers(&mut hs, &[pair(&"a".repeat(65536), "v")]),
        Err(HeaderError::BadName)
    );
}

#[test]
fn a_request_holds_thousands_of_headers() {
    let mut hs: HeaderMap<HeaderValue> = HeaderMap::new();
    for i in 0..4096u32 {
        assert_eq!(add_headers(&mut hs, &[pair(&format!("x-{}", i), "v")]), Ok(()));
    }
    let mut i = 4096u32;
    let full = loop {
        if let Err(e) = add_headers(&mut hs, &[pair(&format!("x-{}", i), "v")]) {
            break e;
        }
        i += 1;
    };
    assert_eq!(full, HeaderError::TooMany);
}

#[test]
fn header_errors_are_told() {
    assert_eq!(
        HeaderError::BadName.message(),
        HeaderName::from_bytes(b" ").unwrap_err().to_string()
    );
    assert_eq!(
        HeaderError::BadValue.message(),
        HeaderValue::from_str("\n").unwrap_err().to_string()
    );
    assert_eq!(HeaderError::TooMany.message(), "max size reached");
}

#[test]
fn connections_are_retried_for_a_while() {
    assert_eq!(retry_connect(ConnectFailure::Refused, 0), Some(200));
    assert_eq!(retry_connect(ConnectFailure::NotFound, 29_999), Some(200));
    assert_eq!(retry_connect(ConnectFailure::NotFound, 30_000), None);
    assert_eq!(retry_connect(ConnectFailure::Other, 0), None);
}

#[test]
fn sockets_by_domain() {
    assert_eq!(socket_kind(0, AF_UNIX), Ok(SocketKind::Unix));
    assert_eq!(socket_kind(0, AF_INET), Ok(SocketKind::Tcp));
    assert_eq!(socket_kind(0, AF_INET6), Ok(SocketKind::Tcp));
    assert_eq!(
        socket_kind(3, 16),
        Err("fd 3 is a socket of unsupported domain 16".to_string())
    );
}

#[test]
fn websocket_messages() {
    assert_eq!(ws_chunk(WsMessage::Binary(vec![1])), WsChunk::Deliver(vec![1]));
    assert_eq!(ws_chunk(WsMessage::Close), WsChunk::End);
    assert_eq!(ws_chunk(WsMessage::Other), WsChunk::Skip);
}

#[test]
fn white_space_is_cut_off() {
    assert_eq!(trim(" \u{a0}\ta b\r\n"), "a b");
    assert_eq!(trim("\u{2003}"), "");
    assert_eq!(trim("越"), "越");
    assert_eq!(path_names("/a//b/"), vec!["a".to_string(), "b".to_string()]);
    assert_eq!(path_names("///"), Vec::<String>::new());
}

#[test]
fn every_character_is_told_apart() {
    for c in (0..0x11_0000u32).filter_map(char::from_u32) {
        let listed = matches!(
            c as u32,
            9..=13 | 32 | 133 | 160 | 5760 | 8192..=8202 | 8232 | 8233 | 8239 | 8287 | 12288
        );
        assert_eq!(c.is_whitespace(), listed);
    }
}

#[test]
fn websockets_are_asked_for() {
    let headers = vec![pair("Authorization", "Bearer t"), pair("Upgrade", "other")];
    let q = ws_request("ws://user@gate:81/9p?x=1", &headers).unwrap();
    assert_eq!(q.method().as_str(), "GET");
    assert_eq!(q.uri().to_string(), "ws://user@gate:81/9p?x=1");
    let one = |k: &str| -> String {
        let all: Vec<&HeaderValue> = q.headers().get_all(k).iter().collect();
        assert_eq!(all.len(), 1);
        all[0].to_str().unwrap().to_string()
    };
    assert_eq!(one("host"), "gate:81");
    assert_eq!(one("connection"), "Upgrade");
    assert_eq!(one("upgrade"), "other");
    assert_eq!(one("sec-websocket-version"), "13");
    assert_eq!(one("authorization"), "Bearer t");
    let key = one("sec-websocket-key");
    assert_eq!(key.len(), 24);
    assert!(key.ends_with("=="));
    let is_key_char = |b: u8| b.is_ascii_alphanumeric() || b == b'+' || b == b'/';
    assert!(key.as_bytes()[..22].iter().all(|b| is_key_char(*b)));
    assert_eq!(q.headers().len(), 6);
    // The key is drawn anew, the rest is not.
    let again = ws_request("ws://user@gate:81/9p?x=1", &headers).unwrap();
    assert_ne!(again.headers().get("sec-websocket-key").unwrap(), key.as_str());
    assert_eq!(again.headers().get("host").unwrap(), "gate:81");
}

#[test]
fn unusable_websocket_requests_are_refused() {
    for url in ["ws://", "/no/host", "ws://user@/x", "ws://a b/"] {
        let why = url.into_client_request().unwrap_err().to_string();
        assert_eq!(ws_request(url, &[]).unwrap_err(), RequestError::Url(why.clone()));
        assert_eq!(RequestError::Url(why.clone()).message(), why);
    }
    let bad = vec![pair("ok", "1"), pair("x", "a\nb"), pair("no name", "")];
    let e = ws_request("ws://g/", &bad).unwrap_err();
    assert_eq!(e, RequestError::Header(HeaderError::BadValue));
    assert_eq!(e.message(), "failed to parse header value");
    let e = ws_request("ws://g/", &bad[2..]).unwrap_err();
    assert_eq!(e, RequestError::Header(HeaderError::BadName));
}

#[test]
fn a_lost_transport_ends_the_session() {
    assert_eq!(
        session_end(SessionEventOf::TransportLost, true),
        SessionEndOf::Exit { detach: true }
    );
    assert_eq!(
        session_end(SessionEventOf::TransportLost, false),
        SessionEndOf::Exit { detach: false }
    );
    assert_eq!(
        session_end(SessionEventOf::Ended(Ok(())), true),
        SessionEndOf::Return(Ok(()))
    );
    let failed = "EIO".to_string();
    assert_eq!(
        session_end(SessionEventOf::Ended(Err(failed.clone())), true),
        SessionEndOf::Return(Err(failed))
    );
}
