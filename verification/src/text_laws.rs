//! What texts, numbers and values say, as a caller sees it: each law speaks of what calls are given
//! and what they give back.

use vstd::prelude::*;

use crate::client::ClientState;
use crate::clock::{epoch_ms, reading_ms};
use crate::json::{json_document, json_form, json_rendering, json_tree, parse_text};
use crate::json::{read_document, text_value};
use crate::proxy::{connect_request_text, destination_of, direct_complaint_text, first_line};
use crate::proxy::{lossy_text, mentions, plan_tunnel, refused_line_of, tunnel_between, url_parts};
use crate::proxy::{tunnel_complaint_text, ConnectHead, HeadStep, Tunnel, TunnelFault, UrlParts};
use crate::reference::{after_colon, decimal, decimal_text, reference_to};
use crate::reference::{reference_url, url_of_reference};
use crate::traffic_laws::reading;
use crate::value::{lookup, Dict, Tree, Value};

verus! {

/// The limits of the transport, in milliseconds and seconds, entries and bytes.
pub proof fn law_limits_are_these()
    ensures
        crate::lifecycle::TASKS_PER_CLIENT == 3,
        crate::lifecycle::CONNECT_DEADLINE_SECS == 30,
        crate::lifecycle::KEEP_ALIVE_SECS == 30,
        crate::lifecycle::MOCK_MESSAGE_BUDGET_MS == 1500,
        crate::flight::MOCK_FLIGHT_BUDGET_MS == 1500,
        crate::flight::FLIGHT_BUDGET_MS == 60000,
        crate::bounds::MAX_PAYLOAD_BYTES == 262144,
        crate::bounds::MAX_DECODED_BYTES == 1048576,
        crate::bounds::EXPANSION_LIMIT == 1048577,
        crate::bounds::INCOMING_CAPACITY == 256,
        crate::bounds::INCOMING_BYTES == 4194304,
        crate::bounds::OUTGOING_CAPACITY == 64,
        crate::bounds::OUTGOING_BYTES == 1048576,
        crate::raw::RAW_BUS_CAPACITY == 64,
        crate::raw::RAW_ALL_CAPACITY == 256,
        crate::raw::MAX_RAW_URLS == 256,
        crate::raw::MAX_URL_BYTES == 4096,
        crate::transport::MAX_CLIENTS == 1024,
        crate::transport::MAX_SCOPE_CLIENTS == 256,
        crate::proxy::DEFAULT_TARGET_PORT == 443,
        crate::proxy::DEFAULT_PROXY_PORT == 8080,
        crate::proxy::MAX_CONNECT_HEAD == 8192,
{
}

/// The number that a text of decimal digits says.
pub open spec fn number_said(digits: Seq<char>) -> int
    decreases digits.len(),
{
    if digits.len() == 0 {
        0
    } else {
        number_said(digits.drop_last()) * 10 + (digits.last() as int - '0' as int)
    }
}

/// A number in decimal says that number, in digits alone, and begins with none but where it is one
/// digit long.
pub proof fn law_decimal_says_its_number(value: nat)
    ensures
        number_said(decimal(value)) == value,
        decimal(value).len() > 0,
        forall|i: int|
            0 <= i < decimal(value).len() ==> '0' <= #[trigger] decimal(value)[i]
                && decimal(value)[i] <= '9',
        decimal(value).len() > 1 ==> decimal(value)[0] != '0',
        value > 0 ==> decimal(value)[0] != '0',
    decreases value,
{
    if value < 10 {
        assert(decimal(value).drop_last() =~= Seq::empty());
        assert(number_said(decimal(value).drop_last()) == 0);
    } else {
        law_decimal_says_its_number(value / 10);
        assert(decimal(value).drop_last() =~= decimal(value / 10));
        assert(decimal(value)[0] == decimal(value / 10)[0]);
    }
}

/// A number is written as what says it, and a reference as the generation, the owner and the URL,
/// with a colon after each number; the URL of a text is what follows its second colon.
pub proof fn law_references_are_written_and_read(
    value: u64,
    text: String,
    generation: u64,
    scope_id: u64,
    url: &str,
    reference: String,
    read: Option<String>,
    other: &str,
    found: Option<String>,
    first: int,
    second: int,
)
    requires
        call_ensures(decimal_text, (value,), text),
        call_ensures(reference_to, (generation, scope_id, url), reference),
        call_ensures(reference_url, (other,), found),
    ensures
        number_said(text@) == value,
        reference@ == decimal(generation as nat) + seq![':'] + decimal(scope_id as nat) + seq![':']
            + url@,
        url_of_reference(reference@) == Some(url@),
        0 <= first < second < other@.len() && other@[first] == ':' && other@[second] == ':' && (
        forall|i: int| 0 <= i < second && i != first ==> #[trigger] other@[i] != ':')
            ==> found is Some && found->0@ == other@.skip(second + 1),
        found is Some ==> exists|i: int, j: int|
            0 <= i < j < other@.len() && #[trigger] other@[i] == ':' && #[trigger] other@[j] == ':'
                && found->0@ == other@.skip(j + 1),
{
    law_decimal_says_its_number(value as nat);
    crate::reference::law_reference_holds_its_url(generation, scope_id, url@);
    assert(reference@ =~= decimal(generation as nat) + seq![':'] + decimal(scope_id as nat)
        + seq![':'] + url@);
    lemma_after_colon_is(other@);
    if let Some(rest) = after_colon(other@) {
        lemma_after_colon_is(rest);
        let i = choose|i: int|
            0 <= i < other@.len() && #[trigger] other@[i] == ':' && rest == other@.skip(i + 1)
                && forall|k: int| 0 <= k < i ==> #[trigger] other@[k] != ':';
        if let Some(last) = after_colon(rest) {
            let j = choose|j: int|
                0 <= j < rest.len() && #[trigger] rest[j] == ':' && last == rest.skip(j + 1)
                    && forall|k: int| 0 <= k < j ==> #[trigger] rest[k] != ':';
            assert(other@[i + 1 + j] == ':');
            assert(last =~= other@.skip(i + 1 + j + 1));
            if 0 <= first < second < other@.len() && other@[first] == ':' && other@[second] == ':'
                && (forall|k: int| 0 <= k < second && k != first ==> #[trigger] other@[k] != ':') {
                assert(first == i);
                assert(rest[second - i - 1] == ':');
                assert(j == second - i - 1);
            }
        } else if 0 <= first < second < other@.len() && other@[first] == ':' && other@[second]
            == ':' && (forall|k: int| 0 <= k < second && k != first ==> #[trigger] other@[k]
            != ':') {
            assert(first == i);
            assert(rest[second - i - 1] == ':');
        }
    }
}

/// A client's reference says its own generation, owner and URL.
pub proof fn law_client_says_its_reference(client: ClientState, reference: String)
    requires
        call_ensures(ClientState::reference, (&client,), reference),
    ensures
        reference@ == decimal(client@.generation as nat) + seq![':'] + decimal(
            client@.scope_id as nat,
        ) + seq![':'] + client@.url,
{
    assert(reference@ =~= decimal(client@.generation as nat) + seq![':'] + decimal(
        client@.scope_id as nat,
    ) + seq![':'] + client@.url);
}

proof fn lemma_after_colon_is(text: Seq<char>)
    ensures
        match after_colon(text) {
            Some(rest) => exists|i: int|
                0 <= i < text.len() && #[trigger] text[i] == ':' && rest == text.skip(i + 1)
                    && forall|k: int| 0 <= k < i ==> #[trigger] text[k] != ':',
            None => forall|k: int| 0 <= k < text.len() ==> #[trigger] text[k] != ':',
        },
    decreases text.len(),
{
    if text.len() > 0 {
        let tail = text.drop_first();
        if text[0] == ':' {
            assert(tail =~= text.skip(1));
        } else {
            lemma_after_colon_is(tail);
            match after_colon(tail) {
                Some(rest) => {
                    let i = choose|i: int|
                        0 <= i < tail.len() && #[trigger] tail[i] == ':' && rest == tail.skip(i + 1)
                            && forall|k: int| 0 <= k < i ==> #[trigger] tail[k] != ':';
                    assert(text[i + 1] == ':');
                    assert(rest =~= text.skip(i + 2));
                    assert forall|k: int| 0 <= k < i + 1 implies #[trigger] text[k] != ':' by {
                        if k > 0 {
                            assert(tail[k - 1] == text[k]);
                        }
                    }
                },
                None => {
                    assert forall|k: int| 0 <= k < text.len() implies #[trigger] text[k] != ':' by {
                        if k > 0 {
                            assert(tail[k - 1] == text[k]);
                        }
                    }
                },
            }
        }
    }
}

/// A text reads as the document that it is, else as itself; a document that was read is what stands
/// for the text.
pub proof fn law_text_reads_as_its_document(
    text: &str,
    value: Value,
    document: Option<Value>,
    given: Option<Value>,
    chosen: Value,
)
    requires
        call_ensures(parse_text, (text,), value),
        call_ensures(read_document, (text,), document),
        call_ensures(text_value, (given, text), chosen),
    ensures
        value@ == reading(text@),
        (document is Some) == (json_document(text@) is Some),
        document is Some ==> document->0@ == json_document(text@)->0,
        given is Some ==> chosen@ == given->0@,
        given is None ==> chosen@ == Tree::Str(text@),
{
}

/// As JSON a value keeps its shape: texts, flags, integers and nothing stay; an array keeps its
/// items in order, a dictionary its keys in order with their values; a number is an integer where it
/// is one. The text of a value is that of its JSON, and a document holds what it was read as.
pub proof fn law_json_keeps_the_shape(
    tree: Tree,
    i: int,
    value: Value,
    text: String,
    json: serde_json::Value,
    made: serde_json::Value,
    read: Value,
)
    requires
        call_ensures(Value::json_text, (&value,), text),
        call_ensures(Value::to_json, (&value,), made),
        call_ensures(Value::from_json, (&json,), read),
    ensures
        match tree {
            Tree::Arr(items) => json_form(tree) is Arr && json_form(tree)->Arr_0.len()
                == items.len() && (0 <= i < items.len() ==> json_form(tree)->Arr_0[i] == json_form(
                items[i],
            )),
            Tree::Dict(entries) => json_form(tree) is Dict && json_form(tree)->Dict_0.len()
                == entries.len() && (0 <= i < entries.len() ==> json_form(tree)->Dict_0[i] == (
                entries[i].0,
                json_form(entries[i].1),
            )),
            Tree::Float(number) => json_form(tree) == match crate::json::json_integer(number) {
                Some(integer) => Tree::Int(integer),
                None => tree,
            },
            _ => json_form(tree) == tree,
        },
        text@ == json_rendering(json_form(value@)),
        value@ is Arr && (forall|k: int|
            0 <= k < value@->Arr_0.len() ==> (#[trigger] value@->Arr_0[k]) is Str)
            ==> json_document(text@) == Some(value@),
        json_tree(made) == json_form(value@),
        read@ == json_tree(json),
{
    if value@ is Arr && (forall|k: int|
        0 <= k < value@->Arr_0.len() ==> (#[trigger] value@->Arr_0[k]) is Str) {
        assert forall|k: int| 0 <= k < value@->Arr_0.len() implies json_form(value@)->Arr_0[k]
            == #[trigger] value@->Arr_0[k] by {
            assert(json_form(value@->Arr_0[k]) == value@->Arr_0[k]);
        }
        assert(json_form(value@)->Arr_0 =~= value@->Arr_0);
    }
}

/// A value has under a key what its dictionary holds there, and nothing where it is none; its text
/// is there where it is one; and values are made of what they are given.
pub proof fn law_values_are_what_they_hold(
    value: Value,
    key: &str,
    found: Option<&Value>,
    text: Option<String>,
    own: Option<&str>,
    made: Value,
    items: Vec<Value>,
    array: Value,
    dict: Dict,
    dictionary: Value,
    copy: Value,
)
    requires
        call_ensures(Value::field, (&value, key), found),
        call_ensures(Value::text_field, (&value, key), text),
        call_ensures(Value::as_str, (&value,), own),
        call_ensures(Value::text, (key,), made),
        call_ensures(Value::array, (items,), array),
        call_ensures(Value::dict, (dict,), dictionary),
        call_ensures(<Value as Clone>::clone, (&value,), copy),
    ensures
        !(value@ is Dict) ==> found is None && text is None,
        value@ is Dict ==> (found is Some) == (lookup(value@->Dict_0, key@) is Some),
        value@ is Dict && found is Some ==> found->0@ == lookup(value@->Dict_0, key@)->0,
        value@ is Dict ==> (text is Some) == (lookup(value@->Dict_0, key@) is Some && lookup(
            value@->Dict_0,
            key@,
        )->0 is Str),
        text is Some ==> lookup(value@->Dict_0, key@) == Some(Tree::Str(text->0@)),
        (own is Some) == (value@ is Str),
        own is Some ==> value@ == Tree::Str(own->0@),
        made@ == Tree::Str(key@),
        array@ is Arr && array@->Arr_0.len() == items@.len(),
        forall|i: int| 0 <= i < items@.len() ==> #[trigger] array@->Arr_0[i] == items@[i]@,
        dictionary@ == Tree::Dict(dict@),
        copy@ == value@,
{
}

/// The request for a tunnel names the host and the port, twice, and keeps the connection alive.
pub open spec fn request_text(host: Seq<char>, port: u16) -> Seq<char> {
    "CONNECT "@ + host + ":"@ + decimal(port as nat) + " HTTP/1.1\r\nHost: "@ + host + ":"@
        + decimal(port as nat) + "\r\nProxy-Connection: Keep-Alive\r\n\r\n"@
}

/// The host and the port that a URL leads to, that of its scheme or else the one that is given.
pub open spec fn leads_to(
    parts: Result<(Option<Seq<char>>, Option<u16>), Seq<char>>,
    default_port: u16,
) -> Option<(Seq<char>, u16)> {
    match parts {
        Ok((Some(host), Some(port))) => Some((host, port)),
        Ok((Some(host), None)) => Some((host, default_port)),
        _ => None,
    }
}

/// Why a URL leads nowhere.
pub open spec fn why_nowhere(
    kind: Seq<char>,
    text: Seq<char>,
    parts: Result<(Option<Seq<char>>, Option<u16>), Seq<char>>,
) -> Seq<char> {
    match parts {
        Err(error) => "[NetworkError] ws "@ + kind + " "@ + text + ": "@ + error,
        _ => "[NetworkError] ws "@ + kind + " "@ + text + " has no host"@,
    }
}

/// A tunnel is asked for at the proxy's host and port, 8080 where it gives none, to the host and port
/// of the URL, 443 where it gives none. Where the URL leads nowhere, or else the proxy's, that is
/// said.
pub proof fn law_tunnel_leads_through_the_proxy(
    url: &str,
    proxy: &str,
    plan: Result<Tunnel, String>,
    host: &str,
    port: u16,
    request: String,
)
    requires
        call_ensures(plan_tunnel, (url, proxy), plan),
        call_ensures(connect_request_text, (host, port), request),
    ensures
        ({
            let target = leads_to(url_parts(url@), 443);
            let relay = leads_to(url_parts(proxy@), 8080);
            &&& (plan is Ok) == (target is Some && relay is Some)
            &&& plan is Ok ==> plan->Ok_0.proxy_host@ == (relay->0).0 && plan->Ok_0.proxy_port == (
            relay->0).1 && plan->Ok_0.request@ == request_text((target->0).0, (target->0).1)
            &&& target is None ==> plan->Err_0@ == why_nowhere("url"@, url@, url_parts(url@))
            &&& target is Some && relay is None ==> plan->Err_0@ == why_nowhere(
                "proxy"@,
                proxy@,
                url_parts(proxy@),
            )
        }),
        request@ == request_text(host@, port),
{
    lemma_request(host@, port);
    if let Some((target, number)) = leads_to(url_parts(url@), 443) {
        lemma_request(target, number);
    }
}

proof fn lemma_request(host: Seq<char>, port: u16)
    ensures
        crate::proxy::connect_request(host, port) == request_text(host, port),
{
    assert(crate::proxy::connect_request(host, port) =~= request_text(host, port));
}

/// The parts of a URL as a reading gives them.
pub open spec fn parts_read(read: Result<UrlParts, String>) -> Result<
    (Option<Seq<char>>, Option<u16>),
    Seq<char>,
> {
    match read {
        Err(message) => Err(message@),
        Ok(parts) => Ok(
            (
                match parts.host {
                    Some(host) => Some(host@),
                    None => None,
                },
                parts.port,
            ),
        ),
    }
}

/// Given how two URLs read, a tunnel leads through the proxy in the same way.
pub proof fn law_tunnel_goes_by_how_urls_read(
    url: &str,
    target: Result<UrlParts, String>,
    proxy: &str,
    relay: Result<UrlParts, String>,
    plan: Result<Tunnel, String>,
    kind: &str,
    default_port: u16,
    answer: Result<(String, u16), String>,
)
    requires
        call_ensures(tunnel_between, (url, target, proxy, relay), plan),
        call_ensures(destination_of, (kind, url, target, default_port), answer),
    ensures
        ({
            let to = leads_to(parts_read(target), 443);
            let through = leads_to(parts_read(relay), 8080);
            &&& (plan is Ok) == (to is Some && through is Some)
            &&& plan is Ok ==> plan->Ok_0.proxy_host@ == (through->0).0 && plan->Ok_0.proxy_port
                == (through->0).1 && plan->Ok_0.request@ == request_text((to->0).0, (to->0).1)
            &&& to is None ==> plan->Err_0@ == why_nowhere("url"@, url@, parts_read(target))
            &&& to is Some && through is None ==> plan->Err_0@ == why_nowhere(
                "proxy"@,
                proxy@,
                parts_read(relay),
            )
        }),
        ({
            let found = leads_to(parts_read(target), default_port);
            &&& (answer is Ok) == (found is Some)
            &&& found is Some ==> (answer->Ok_0).0@ == (found->0).0 && (answer->Ok_0).1 == (
            found->0).1
            &&& found is None ==> answer->Err_0@ == why_nowhere(kind@, url@, parts_read(target))
        }),
{
    if let Some((host, number)) = leads_to(parts_read(target), 443) {
        lemma_request(host, number);
    }
}

/// The first line of a text is what comes before its first line ending, or all of it where there is
/// none. A carriage return before the line feed belongs to the ending.
pub proof fn law_first_line_ends_at_its_ending(text: Seq<char>)
    ensures
        first_line(text).len() <= text.len(),
        first_line(text) == text.take(first_line(text).len() as int),
        forall|i: int| 0 <= i < first_line(text).len() ==> #[trigger] text[i] != '\n',
        ({
            let end = first_line(text).len() as int;
            ||| end == text.len()
            ||| text[end] == '\n' && !(end > 0 && text[end - 1] == '\r')
            ||| end + 1 < text.len() && text[end] == '\r' && text[end + 1] == '\n'
        }),
    decreases text.len(),
{
    if text.len() == 0 || text[0] == '\n' {
        assert(text.take(0) =~= Seq::empty());
    } else if text.len() >= 2 && text[0] == '\r' && text[1] == '\n' {
        assert(text.take(0) =~= Seq::empty());
    } else {
        let rest = text.drop_first();
        law_first_line_ends_at_its_ending(rest);
        let line = first_line(rest);
        assert(first_line(text) =~= seq![text[0]] + line);
        assert(text.take(line.len() as int + 1) =~= seq![text[0]] + rest.take(line.len() as int));
        assert forall|i: int| 0 <= i < first_line(text).len() implies #[trigger] text[i]
            != '\n' by {
            if i > 0 {
                assert(rest[i - 1] == text[i]);
            }
        }
        let end = line.len() as int;
        if end < rest.len() {
            assert(rest[end] == text[end + 1]);
            if end > 0 {
                assert(rest[end - 1] == text[end]);
            }
            if end + 1 < rest.len() {
                assert(rest[end + 1] == text[end + 2]);
            }
        }
    }
}

/// A reply opens the tunnel exactly where ` 200` stands in its first line; else that line is the
/// refusal.
pub proof fn law_reply_opens_by_its_first_line(
    text: &str,
    line: Option<String>,
    head: ConnectHead,
    refusal: Option<String>,
)
    requires
        call_ensures(refused_line_of, (text,), line),
        call_ensures(ConnectHead::refusal, (&head,), refusal),
    ensures
        (line is None) == says_ok(first_line(text@)),
        line is Some ==> line->0@ == first_line(text@),
        (refusal is None) == says_ok(first_line(lossy_text(head@))),
        refusal is Some ==> refusal->0@ == first_line(lossy_text(head@)),
{
    lemma_says_ok(first_line(text@));
    lemma_says_ok(first_line(lossy_text(head@)));
}

/// Whether ` 200` stands in a text.
pub open spec fn says_ok(text: Seq<char>) -> bool {
    exists|i: int|
        0 <= i && i + 4 <= text.len() && #[trigger] text[i] == ' ' && text[i + 1] == '2' && text[i
            + 2] == '0' && text[i + 3] == '0'
}

proof fn lemma_says_ok(text: Seq<char>)
    ensures
        says_ok(text) == mentions(text, " 200"@),
{
    reveal_strlit(" 200");
    if says_ok(text) {
        let i = choose|i: int|
            0 <= i && i + 4 <= text.len() && #[trigger] text[i] == ' ' && text[i + 1] == '2'
                && text[i + 2] == '0' && text[i + 3] == '0';
        assert(text.subrange(i, i + 4) =~= " 200"@);
        assert(text.subrange(i, i + " 200"@.len()) == " 200"@);
    }
    if mentions(text, " 200"@) {
        let i = choose|i: int|
            0 <= i <= text.len() - " 200"@.len() && #[trigger] text.subrange(
                i,
                i + " 200"@.len(),
            ) == " 200"@;
        let part = text.subrange(i, i + 4);
        assert(part == " 200"@);
        assert(part[0] == text[i] && part[1] == text[i + 1] && part[2] == text[i + 2] && part[3]
            == text[i + 3]);
    }
}

/// A reply's head is read byte by byte, from nothing. It is complete at an empty line, and too long
/// beyond 8192 bytes.
pub proof fn law_head_is_read_to_the_empty_line(
    fresh: ConnectHead,
    head: &mut ConnectHead,
    byte: u8,
    step: HeadStep,
)
    requires
        call_ensures(ConnectHead::new, (), fresh),
        call_ensures(ConnectHead::accept, (head, byte), step),
    ensures
        fresh@.len() == 0,
        final(head)@ == old(head)@.push(byte),
        final(head)@.len() > 8192 ==> step == HeadStep::Oversized,
        ({
            let read = final(head)@;
            let n = read.len() as int;
            let ended = n >= 4 && read.skip(n - 4) == seq![13u8, 10u8, 13u8, 10u8];
            &&& n <= 8192 && ended ==> step == HeadStep::Complete
            &&& n <= 8192 && !ended ==> step == HeadStep::More
        }),
{
    let read = final(head)@;
    let n = read.len() as int;
    if n >= 4 {
        let tail = read.skip(n - 4);
        assert(tail[0] == read[n - 4] && tail[1] == read[n - 3] && tail[2] == read[n - 2]
            && tail[3] == read[n - 1]);
        if crate::proxy::head_ends(read) {
            assert(tail =~= seq![13u8, 10u8, 13u8, 10u8]);
        }
    }
}

/// What a caller is told of a tunnel, or of a connection without one, names the proxy or the URL and
/// says what went wrong.
pub proof fn law_tunnel_faults_are_told(
    url: &str,
    proxy: &str,
    fault: TunnelFault,
    message: String,
    detail: &str,
    direct: String,
)
    requires
        call_ensures(tunnel_complaint_text, (url, proxy, fault), message),
        call_ensures(direct_complaint_text, (detail,), direct),
    ensures
        match fault {
            TunnelFault::Unreachable(text) => message@ == "[NetworkError] ws proxy connect "@
                + proxy@ + ": "@ + text@,
            TunnelFault::Interrupted(text) => message@ == "[NetworkError] ws proxy CONNECT "@
                + proxy@ + ": "@ + text@,
            TunnelFault::Closed => message@ == "[NetworkError] ws proxy "@ + proxy@
                + " closed during CONNECT"@,
            TunnelFault::Oversized => message@ == "[NetworkError] ws proxy "@ + proxy@
                + " sent an oversized CONNECT reply"@,
            TunnelFault::Refused(line) => message@ == "[NetworkError] ws proxy "@ + proxy@
                + " refused CONNECT: "@ + line@,
            TunnelFault::Handshake(text) => message@ == "[NetworkError] ws connect "@ + url@
                + " via "@ + proxy@ + ": "@ + text@,
        },
        direct@ == "[NetworkError] ws connect: "@ + detail@,
{
}

/// The milliseconds of a reading are those that elapsed, and none before the epoch.
pub proof fn law_time_counts_from_the_epoch(
    elapsed: Option<u128>,
    millis: i64,
    time: std::time::SystemTime,
)
    requires
        call_ensures(epoch_ms, (elapsed,), millis),
    ensures
        elapsed is None ==> millis == 0,
        elapsed is Some && elapsed->0 <= i64::MAX ==> millis == elapsed->0,
        crate::clock::elapsed_since_epoch(time) is None ==> reading_ms(time) == 0,
        crate::clock::elapsed_since_epoch(time) is Some && crate::clock::duration_millis(
            crate::clock::elapsed_since_epoch(time)->0,
        ) <= i64::MAX ==> reading_ms(time) == crate::clock::duration_millis(
            crate::clock::elapsed_since_epoch(time)->0,
        ),
{
}

} // verus!
