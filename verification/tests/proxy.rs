use ws_client::proxy::{
    connect_request_text, destination_of, direct_complaint_text, plan_tunnel, refused_line_of,
    tunnel_between, tunnel_complaint_text, ConnectHead, HeadStep, TunnelFault, UrlParts, MAX_CONNECT_HEAD,
};

#[test]
fn a_tunnel_is_planned_from_both_urls() {
    let plan = plan_tunnel("wss://Stream.Venue.com/ws?x=1", "http://proxy.local:3128").unwrap();
    assert_eq!((plan.proxy_host.as_str(), plan.proxy_port), ("proxy.local", 3128));
    assert_eq!(
        plan.request,
        "CONNECT stream.venue.com:443 HTTP/1.1\r\nHost: stream.venue.com:443\r\n\
         Proxy-Connection: Keep-Alive\r\n\r\n"
    );
    let plan = plan_tunnel("ws://10.0.0.1/ws", "http://proxy").unwrap();
    assert_eq!(plan.proxy_port, 80);
    assert!(plan.request.starts_with("CONNECT 10.0.0.1:80 HTTP/1.1\r\n"));
    let plan = plan_tunnel("custom://host", "socks://proxy").unwrap();
    assert_eq!(plan.proxy_port, 8080);
    assert!(plan.request.starts_with("CONNECT host:443 "));
}

#[test]
fn urls_that_lead_nowhere_are_refused() {
    assert_eq!(
        plan_tunnel("nonsense", "http://p").err(),
        Some("[NetworkError] ws url nonsense: relative URL without a base".to_owned())
    );
    assert_eq!(
        plan_tunnel("mailto:a@b", "http://p").err(),
        Some("[NetworkError] ws url mailto:a@b has no host".to_owned())
    );
    assert_eq!(
        plan_tunnel("ws://h", "http://").err(),
        Some("[NetworkError] ws proxy http://: empty host".to_owned())
    );
    assert_eq!(
        plan_tunnel("ws://h", "data:x").err(),
        Some("[NetworkError] ws proxy data:x has no host".to_owned())
    );
}

#[test]
fn destinations_take_the_default_port() {
    let parts = |host: Option<&str>, port| Ok(UrlParts { host: host.map(str::to_owned), port });
    assert_eq!(destination_of("url", "t", parts(Some("h"), None), 9), Ok(("h".to_owned(), 9)));
    assert_eq!(destination_of("url", "t", parts(Some("h"), Some(1)), 9), Ok(("h".to_owned(), 1)));
    assert_eq!(
        destination_of("proxy", "t", parts(None, Some(1)), 9),
        Err("[NetworkError] ws proxy t has no host".to_owned())
    );
    assert_eq!(
        destination_of("proxy", "t", Err("bad".to_owned()), 9),
        Err("[NetworkError] ws proxy t: bad".to_owned())
    );
    let plan = tunnel_between("u", parts(Some("h"), None), "p", parts(Some("q"), None)).unwrap();
    assert_eq!((plan.proxy_host.as_str(), plan.proxy_port), ("q", 8080));
    assert_eq!(plan.request, connect_request_text("h", 443));
    let (target, relay) = (Err("bad".to_owned()), Err("worse".to_owned()));
    assert_eq!(
        tunnel_between("u", target, "p", relay).err(),
        Some("[NetworkError] ws url u: bad".to_owned())
    );
    assert_eq!(
        connect_request_text("h", 65535),
        "CONNECT h:65535 HTTP/1.1\r\nHost: h:65535\r\nProxy-Connection: Keep-Alive\r\n\r\n"
    );
}

fn read(reply: &[u8]) -> (ConnectHead, HeadStep) {
    let mut head = ConnectHead::new();
    let mut step = HeadStep::More;
    for byte in reply {
        assert_eq!(step, HeadStep::More);
        step = head.accept(*byte);
    }
    (head, step)
}

#[test]
fn a_reply_ends_with_an_empty_line() {
    let (head, step) = read(b"HTTP/1.1 200 OK\r\nVia: p\r\n\r\n");
    assert_eq!(step, HeadStep::Complete);
    assert_eq!(head.refusal(), None);
    let (_, step) = read(b"HTTP/1.1 200 OK\n\n");
    assert_eq!(step, HeadStep::More);
    let (head, step) = read(b"HTTP/1.1 407 Proxy Authentication Required\r\n\r\n");
    assert_eq!(step, HeadStep::Complete);
    assert_eq!(head.refusal(), Some("HTTP/1.1 407 Proxy Authentication Required".to_owned()));
    let (head, _) = read(b"HTTP/1.1 5\xff0\r\n\r\n");
    assert_eq!(head.refusal(), Some("HTTP/1.1 5\u{fffd}0".to_owned()));
}

#[test]
fn a_reply_can_be_too_long() {
    let mut head = ConnectHead::new();
    for _ in 0..MAX_CONNECT_HEAD {
        assert_eq!(head.accept(b'x'), HeadStep::More);
    }
    assert_eq!(head.accept(b'x'), HeadStep::Oversized);
}

#[test]
fn only_the_first_line_is_judged() {
    assert_eq!(refused_line_of("HTTP/1.0 200\r\nrest"), None);
    assert_eq!(refused_line_of("HTTP/1.1 403 no\r\nX: 200 200\r\n"), Some("HTTP/1.1 403 no".to_owned()));
    assert_eq!(refused_line_of("HTTP/1.1200"), Some("HTTP/1.1200".to_owned()));
    assert_eq!(refused_line_of("a\rb 200\nc"), None);
    assert_eq!(refused_line_of("end\r"), Some("end\r".to_owned()));
    assert_eq!(refused_line_of(""), Some(String::new()));
    assert_eq!(refused_line_of("\n 200"), Some(String::new()));
}

#[test]
fn faults_are_told() {
    let told = |fault| tunnel_complaint_text("ws://u", "http://p", fault);
    assert_eq!(
        told(TunnelFault::Unreachable("e".to_owned())),
        "[NetworkError] ws proxy connect http://p: e"
    );
    assert_eq!(
        told(TunnelFault::Interrupted("e".to_owned())),
        "[NetworkError] ws proxy CONNECT http://p: e"
    );
    assert_eq!(told(TunnelFault::Closed), "[NetworkError] ws proxy http://p closed during CONNECT");
    assert_eq!(
        told(TunnelFault::Oversized),
        "[NetworkError] ws proxy http://p sent an oversized CONNECT reply"
    );
    assert_eq!(
        told(TunnelFault::Refused("HTTP/1.1 403 no".to_owned())),
        "[NetworkError] ws proxy http://p refused CONNECT: HTTP/1.1 403 no"
    );
    assert_eq!(
        told(TunnelFault::Handshake("e".to_owned())),
        "[NetworkError] ws connect ws://u via http://p: e"
    );
    assert_eq!(direct_complaint_text("e"), "[NetworkError] ws connect: e");
}
