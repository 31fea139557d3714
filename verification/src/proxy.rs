//! Reaching a peer through an HTTP proxy: the tunnel that is asked for, and the proxy's reply.

use vstd::prelude::*;
use vstd::string::*;
use vstd::utf8::{decode_utf8, valid_utf8};

use crate::reference::{decimal, decimal_text};

verus! {

/// The port of a peer whose URL gives none.
pub const DEFAULT_TARGET_PORT: u16 = 443;

/// The port of a proxy whose URL gives none.
pub const DEFAULT_PROXY_PORT: u16 = 8080;

/// Most bytes that the head of a proxy's reply may have.
pub const MAX_CONNECT_HEAD: usize = 8192;

/// What `url::Url` makes of a text: its host and its port, that of the scheme where none is given,
/// or what is wrong with it.
pub uninterp spec fn url_parts(text: Seq<char>) -> Result<
    (Option<Seq<char>>, Option<u16>),
    Seq<char>,
>;

/// What `String::from_utf8_lossy` reads from bytes.
pub uninterp spec fn lossy_text(bytes: Seq<u8>) -> Seq<char>;

/// The host and the port of a URL.
pub struct UrlParts {
    pub host: Option<String>,
    pub port: Option<u16>,
}

/// What a reading of a URL says.
pub open spec fn parts_of(read: Result<UrlParts, String>) -> Result<
    (Option<Seq<char>>, Option<u16>),
    Seq<char>,
> {
    match read {
        Ok(UrlParts { host: Some(host), port }) => Ok((Some(host@), port)),
        Ok(UrlParts { host: None, port }) => Ok((None, port)),
        Err(message) => Err(message@),
    }
}

/// `url::Url::parse`, with `url::Url::host_str` and `url::Url::port_or_known_default` of what it
/// parsed, or the display of its error. All three depend on the text alone.
#[verifier::external_body]
fn read_url(text: &str) -> (read: Result<UrlParts, String>)
    ensures
        parts_of(read) == url_parts(text@),
{
    match url::Url::parse(text) {
        Ok(url) => Ok(
            UrlParts {
                host: url.host_str().map(str::to_owned),
                port: url.port_or_known_default(),
            },
        ),
        Err(error) => Err(error.to_string()),
    }
}

/// `String::from_utf8_lossy`: the text of bytes that are UTF-8, and a text with replacement
/// characters of others.
#[verifier::external_body]
fn read_lossy(bytes: &[u8]) -> (text: String)
    ensures
        text@ == lossy_text(bytes@),
        valid_utf8(bytes@) ==> text@ == decode_utf8(bytes@),
{
    String::from_utf8_lossy(bytes).into_owned()
}

/// A tunnel to ask for: where the proxy is, and what it is told.
pub struct Tunnel {
    pub proxy_host: String,
    pub proxy_port: u16,
    pub request: String,
}

/// A host and a port, as a request spells them.
pub open spec fn authority(host: Seq<char>, port: u16) -> Seq<char> {
    host + ":"@ + decimal(port as nat)
}

/// The request for a tunnel to a host and port.
pub open spec fn connect_request(host: Seq<char>, port: u16) -> Seq<char> {
    "CONNECT "@ + authority(host, port) + " HTTP/1.1\r\nHost: "@ + authority(host, port)
        + "\r\nProxy-Connection: Keep-Alive\r\n\r\n"@
}

/// Where a URL leads, or why it leads nowhere. `kind` says whose URL it is.
pub open spec fn destination(
    kind: Seq<char>,
    text: Seq<char>,
    parts: Result<(Option<Seq<char>>, Option<u16>), Seq<char>>,
    default_port: u16,
) -> Result<(Seq<char>, u16), Seq<char>> {
    match parts {
        Err(error) => Err("[NetworkError] ws "@ + kind + " "@ + text + ": "@ + error),
        Ok((None, _)) => Err("[NetworkError] ws "@ + kind + " "@ + text + " has no host"@),
        Ok((Some(host), port)) => Ok(
            (
                host,
                match port {
                    Some(port) => port,
                    None => default_port,
                },
            ),
        ),
    }
}

/// Whether an answer says where a URL leads.
pub open spec fn leads(
    answer: Result<(String, u16), String>,
    owed: Result<(Seq<char>, u16), Seq<char>>,
) -> bool {
    match (answer, owed) {
        (Ok((host, port)), Ok((expected, number))) => host@ == expected && port == number,
        (Err(message), Err(text)) => message@ == text,
        _ => false,
    }
}

/// Where a URL leads, given how it reads.
pub fn destination_of(
    kind: &str,
    text: &str,
    read: Result<UrlParts, String>,
    default_port: u16,
) -> (answer: Result<(String, u16), String>)
    ensures
        leads(answer, destination(kind@, text@, parts_of(read), default_port)),
{
    let mut message = "[NetworkError] ws ".to_owned();
    message.append(kind);
    message.append(" ");
    message.append(text);
    match read {
        Ok(UrlParts { host: Some(host), port: Some(port) }) => Ok((host, port)),
        Ok(UrlParts { host: Some(host), port: None }) => Ok((host, default_port)),
        Ok(UrlParts { host: None, port: _ }) => {
            message.append(" has no host");
            Err(message)
        },
        Err(error) => {
            message.append(": ");
            message.append(error.as_str());
            Err(message)
        },
    }
}

/// The tunnel to a URL through a proxy, or why there can be none, given how both URLs read. The
/// peer's URL is looked at first.
pub open spec fn tunnel(
    url: Seq<char>,
    target: Result<(Option<Seq<char>>, Option<u16>), Seq<char>>,
    proxy: Seq<char>,
    relay: Result<(Option<Seq<char>>, Option<u16>), Seq<char>>,
) -> Result<(Seq<char>, u16, Seq<char>), Seq<char>> {
    match destination("url"@, url, target, DEFAULT_TARGET_PORT) {
        Err(message) => Err(message),
        Ok((host, port)) => match destination("proxy"@, proxy, relay, DEFAULT_PROXY_PORT) {
            Err(message) => Err(message),
            Ok((proxy_host, proxy_port)) => Ok(
                (proxy_host, proxy_port, connect_request(host, port)),
            ),
        },
    }
}

/// Whether a plan is for this tunnel.
pub open spec fn plans(
    plan: Result<Tunnel, String>,
    owed: Result<(Seq<char>, u16, Seq<char>), Seq<char>>,
) -> bool {
    match (plan, owed) {
        (Ok(plan), Ok((proxy_host, proxy_port, request))) => {
            &&& plan.proxy_host@ == proxy_host
            &&& plan.proxy_port == proxy_port
            &&& plan.request@ == request
        },
        (Err(message), Err(text)) => message@ == text,
        _ => false,
    }
}

fn authority_text(host: &str, port: u16) -> (text: String)
    ensures
        text@ == authority(host@, port),
{
    let mut text = host.to_owned();
    text.append(":");
    let number = decimal_text(port as u64);
    text.append(number.as_str());
    text
}

/// The request for a tunnel to a host and port.
pub fn connect_request_text(host: &str, port: u16) -> (request: String)
    ensures
        request@ == connect_request(host@, port),
{
    let authority = authority_text(host, port);
    let mut request = "CONNECT ".to_owned();
    request.append(authority.as_str());
    request.append(" HTTP/1.1\r\nHost: ");
    request.append(authority.as_str());
    request.append("\r\nProxy-Connection: Keep-Alive\r\n\r\n");
    request
}

/// Plans the tunnel to a URL through a proxy, given how both URLs read.
pub fn tunnel_between(
    url: &str,
    target: Result<UrlParts, String>,
    proxy: &str,
    relay: Result<UrlParts, String>,
) -> (plan: Result<Tunnel, String>)
    ensures
        plans(plan, tunnel(url@, parts_of(target), proxy@, parts_of(relay))),
{
    let (host, port) = match destination_of("url", url, target, DEFAULT_TARGET_PORT) {
        Ok(found) => found,
        Err(message) => {
            return Err(message);
        },
    };
    match destination_of("proxy", proxy, relay, DEFAULT_PROXY_PORT) {
        Ok((proxy_host, proxy_port)) => Ok(
            Tunnel { proxy_host, proxy_port, request: connect_request_text(host.as_str(), port) },
        ),
        Err(message) => Err(message),
    }
}

/// Plans the tunnel to a URL through a proxy.
pub fn plan_tunnel(url: &str, proxy: &str) -> (plan: Result<Tunnel, String>)
    ensures
        plans(plan, tunnel(url@, url_parts(url@), proxy@, url_parts(proxy@))),
{
    tunnel_between(url, read_url(url), proxy, read_url(proxy))
}

/// What reading one more byte of the proxy's reply leads to.
#[derive(Debug, PartialEq, Eq, Structural)]
pub enum HeadStep {
    /// The head goes on.
    More,
    /// The head is complete.
    Complete,
    /// The head is longer than it may be.
    Oversized,
}

/// The head of a proxy's reply as far as it was read.
pub struct ConnectHead {
    bytes: Vec<u8>,
}

impl View for ConnectHead {
    type V = Seq<u8>;

    closed spec fn view(&self) -> Seq<u8> {
        self.bytes@
    }
}

/// Whether a head is complete: it ends with an empty line.
pub open spec fn head_ends(head: Seq<u8>) -> bool {
    &&& head.len() >= 4
    &&& head[head.len() - 4] == 13
    &&& head[head.len() - 3] == 10
    &&& head[head.len() - 2] == 13
    &&& head[head.len() - 1] == 10
}

/// The first line of a text, without its ending.
pub open spec fn first_line(text: Seq<char>) -> Seq<char>
    decreases text.len(),
{
    if text.len() == 0 || text[0] == '\n' {
        Seq::empty()
    } else if text.len() >= 2 && text[0] == '\r' && text[1] == '\n' {
        Seq::empty()
    } else {
        seq![text[0]] + first_line(text.drop_first())
    }
}

/// Whether a text holds the given status.
pub open spec fn mentions(text: Seq<char>, part: Seq<char>) -> bool {
    exists|i: int|
        0 <= i <= text.len() - part.len() && #[trigger] text.subrange(i, i + part.len()) == part
}

fn first_line_of(text: &str) -> (line: String)
    ensures
        line@ == first_line(text@),
{
    let len = text.unicode_len();
    let mut line = String::new();
    let mut i: usize = 0;
    assert(text@.skip(0) =~= text@);
    assert(line@ =~= Seq::empty());
    while i < len
        invariant
            i <= len,
            len == text@.len(),
            line@ + first_line(text@.skip(i as int)) == first_line(text@),
        decreases len - i,
    {
        let ghost rest = text@.skip(i as int);
        assert(rest.drop_first() =~= text@.skip(i + 1));
        let c = text.get_char(i);
        if c == '\n' {
            assert(line@ + first_line(rest) =~= line@);
            return line;
        }
        if c == '\r' && i + 1 < len && text.get_char(i + 1) == '\n' {
            assert(rest[1] == '\n');
            assert(line@ + first_line(rest) =~= line@);
            return line;
        }
        let ghost before = line@;
        line.push(c);
        assert(before + first_line(rest) =~= line@ + first_line(text@.skip(i + 1)));
        i = i + 1;
    }
    assert(text@.skip(i as int) =~= Seq::empty());
    assert(line@ + first_line(text@.skip(i as int)) =~= line@);
    line
}

fn mentions_ok(text: &str) -> (found: bool)
    ensures
        found == mentions(text@, " 200"@),
{
    proof {
        reveal_strlit(" 200");
    }
    let len = text.unicode_len();
    let mut i: usize = 0;
    while i < len && len - i >= 4
        invariant
            i <= len,
            len == text@.len(),
            " 200"@ == seq![' ', '2', '0', '0'],
            forall|j: int|
                0 <= j < i && j + 4 <= len ==> #[trigger] text@.subrange(j, j + 4) != " 200"@,
        decreases len - i,
    {
        if text.get_char(i) == ' ' && text.get_char(i + 1) == '2' && text.get_char(i + 2) == '0'
            && text.get_char(i + 3) == '0' {
            assert(text@.subrange(i as int, i as int + 4) =~= " 200"@);
            return true;
        }
        proof {
            let part = text@.subrange(i as int, i as int + 4);
            assert(part[0] == text@[i as int] && part[1] == text@[i + 1] && part[2] == text@[i + 2]
                && part[3] == text@[i + 3]);
        }
        i = i + 1;
    }
    false
}

/// Whether a proxy that replies with this text opened the tunnel; else its first line.
pub open spec fn refused_line(text: Seq<char>) -> Option<Seq<char>> {
    if mentions(first_line(text), " 200"@) {
        None
    } else {
        Some(first_line(text))
    }
}

/// Judges the text of a reply.
pub fn refused_line_of(text: &str) -> (line: Option<String>)
    ensures
        match line {
            Some(line) => refused_line(text@) == Some(line@),
            None => refused_line(text@) is None,
        },
{
    let line = first_line_of(text);
    if mentions_ok(line.as_str()) {
        None
    } else {
        Some(line)
    }
}

impl ConnectHead {
    /// Nothing was read yet.
    pub fn new() -> (head: ConnectHead)
        ensures
            head@ == Seq::<u8>::empty(),
    {
        ConnectHead { bytes: Vec::new() }
    }

    /// Reads one more byte.
    pub fn accept(&mut self, byte: u8) -> (step: HeadStep)
        ensures
            final(self)@ == old(self)@.push(byte),
            step == if final(self)@.len() > MAX_CONNECT_HEAD {
                HeadStep::Oversized
            } else if head_ends(final(self)@) {
                HeadStep::Complete
            } else {
                HeadStep::More
            },
    {
        self.bytes.push(byte);
        let len = self.bytes.len();
        if len > MAX_CONNECT_HEAD {
            HeadStep::Oversized
        } else if len >= 4 && self.bytes[len - 4] == 13 && self.bytes[len - 3] == 10
            && self.bytes[len - 2] == 13 && self.bytes[len - 1] == 10 {
            HeadStep::Complete
        } else {
            HeadStep::More
        }
    }

    /// The line with which the proxy refuses, if it does.
    pub fn refusal(&self) -> (line: Option<String>)
        ensures
            match line {
                Some(line) => refused_line(lossy_text(self@)) == Some(line@),
                None => refused_line(lossy_text(self@)) is None,
            },
    {
        let text = read_lossy(self.bytes.as_slice());
        refused_line_of(text.as_str())
    }
}

/// What can go wrong with a tunnel.
pub enum TunnelFault {
    /// The proxy cannot be reached, with this text.
    Unreachable(String),
    /// The exchange with the proxy breaks off, with this text.
    Interrupted(String),
    /// The proxy closes before its reply is complete.
    Closed,
    /// The reply is longer than it may be.
    Oversized,
    /// The proxy refuses, with this line.
    Refused(String),
    /// The handshake through the tunnel fails, with this text.
    Handshake(String),
}

/// What a caller is told.
pub open spec fn tunnel_complaint(
    url: Seq<char>,
    proxy: Seq<char>,
    fault: TunnelFault,
) -> Seq<char> {
    match fault {
        TunnelFault::Unreachable(detail) => "[NetworkError] ws proxy connect "@ + proxy + ": "@
            + detail@,
        TunnelFault::Interrupted(detail) => "[NetworkError] ws proxy CONNECT "@ + proxy + ": "@
            + detail@,
        TunnelFault::Closed => "[NetworkError] ws proxy "@ + proxy + " closed during CONNECT"@,
        TunnelFault::Oversized => "[NetworkError] ws proxy "@ + proxy
            + " sent an oversized CONNECT reply"@,
        TunnelFault::Refused(line) => "[NetworkError] ws proxy "@ + proxy + " refused CONNECT: "@
            + line@,
        TunnelFault::Handshake(detail) => "[NetworkError] ws connect "@ + url + " via "@ + proxy
            + ": "@ + detail@,
    }
}

/// What a caller is told.
pub fn tunnel_complaint_text(url: &str, proxy: &str, fault: TunnelFault) -> (message: String)
    ensures
        message@ == tunnel_complaint(url@, proxy@, fault),
{
    match fault {
        TunnelFault::Unreachable(detail) => {
            let mut message = "[NetworkError] ws proxy connect ".to_owned();
            message.append(proxy);
            message.append(": ");
            message.append(detail.as_str());
            message
        },
        TunnelFault::Interrupted(detail) => {
            let mut message = "[NetworkError] ws proxy CONNECT ".to_owned();
            message.append(proxy);
            message.append(": ");
            message.append(detail.as_str());
            message
        },
        TunnelFault::Closed => {
            let mut message = "[NetworkError] ws proxy ".to_owned();
            message.append(proxy);
            message.append(" closed during CONNECT");
            message
        },
        TunnelFault::Oversized => {
            let mut message = "[NetworkError] ws proxy ".to_owned();
            message.append(proxy);
            message.append(" sent an oversized CONNECT reply");
            message
        },
        TunnelFault::Refused(line) => {
            let mut message = "[NetworkError] ws proxy ".to_owned();
            message.append(proxy);
            message.append(" refused CONNECT: ");
            message.append(line.as_str());
            message
        },
        TunnelFault::Handshake(detail) => {
            let mut message = "[NetworkError] ws connect ".to_owned();
            message.append(url);
            message.append(" via ");
            message.append(proxy);
            message.append(": ");
            message.append(detail.as_str());
            message
        },
    }
}

/// What a caller is told of an attempt to connect straight to a URL that failed.
pub fn direct_complaint_text(detail: &str) -> (message: String)
    ensures
        message@ == "[NetworkError] ws connect: "@ + detail@,
{
    let mut message = "[NetworkError] ws connect: ".to_owned();
    message.append(detail);
    message
}

} // verus!
