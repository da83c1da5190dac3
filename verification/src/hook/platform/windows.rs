//! The rules of the handler that is attached to a page on Windows.
use vstd::prelude::*;
use http::HeaderMap;
use crate::hook::ignore_filter;
use crate::hook::platform;
use crate::hook::policy::{Decision, DecisionView};
use crate::hook::protocol_bypass;
use crate::hook::protocol_bypass::RequestBypassReason;
use crate::hook::websocket;
use crate::text;
use crate::urls;

verus! {

/// What the handler does with a request.
#[derive(Debug, Clone, Copy, PartialEq, Eq, Structural)]
pub enum Gate {
    /// Not a GET request: the page performs it itself.
    NotGet,
    /// A WebSocket handshake: the page performs it itself.
    WebSocket,
    /// A request that bypasses the cache: the page performs it itself.
    Bypass(RequestBypassReason),
    /// A request to the local machine: the page performs it itself.
    Local,
    /// The handler answers the request, as the policy decides.
    Evaluate,
}

/// What the handler does with a request: the first of the exceptions that holds,
/// and otherwise it answers.
pub open spec fn gate(method: Seq<char>, headers: HeaderMap, url: Seq<char>) -> Gate {
    if text::lower(method) != text::lower("GET"@) {
        Gate::NotGet
    } else if websocket::websocket_upgrade(headers) {
        Gate::WebSocket
    } else if protocol_bypass::request_reason(headers) is Some {
        Gate::Bypass(protocol_bypass::request_reason(headers)->0)
    } else if platform::local_host(
        match ignore_filter::host_of(url) {
            Some(host) => host,
            None => Seq::empty(),
        },
    ) {
        Gate::Local
    } else {
        Gate::Evaluate
    }
}

/// Decide what the handler does with a request.
pub fn handle_request(method: &str, headers: &HeaderMap, url: &str) -> (r: Gate)
    ensures
        r == gate(method@, *headers, url@),
{
    if !text::same_ignoring_case(method, "GET") {
        return Gate::NotGet;
    }
    if websocket::is_websocket_upgrade(headers) {
        return Gate::WebSocket;
    }
    if let Some(reason) = protocol_bypass::request_bypass_reason(headers) {
        return Gate::Bypass(reason);
    }
    let host: String = match urls::parse_url(url) {
        Ok(parts) => match &parts.host {
            Some(h) => text::to_lower(h.as_str()),
            None => String::new(),
        },
        Err(_) => String::new(),
    };
    if platform::is_local_host(host.as_str()) {
        return Gate::Local;
    }
    Gate::Evaluate
}

/// A response in the form that the platform takes.
pub struct PlatformResponse {
    pub status: u16,
    pub phrase: String,
    /// The headers, one `Name: Value` per line, with a line break between them.
    pub headers: String,
    pub body: Vec<u8>,
}

/// The line for a header, with its line break.
pub open spec fn header_line(name: Seq<char>, value: Seq<char>) -> Seq<char> {
    name + ": "@ + value + "\r\n"@
}

/// Whether a value holds a line break, which would end its line.
pub open spec fn breaks_line(value: Seq<char>) -> bool {
    value.contains('\r') || value.contains('\n')
}

/// The lines for a list of headers; a header whose value holds a line break has
/// none.
pub open spec fn header_lines(extras: Seq<(Seq<char>, Seq<char>)>) -> Seq<char>
    decreases extras.len(),
{
    if extras.len() == 0 {
        Seq::empty()
    } else if breaks_line(extras.last().1) {
        header_lines(extras.drop_last())
    } else {
        header_lines(extras.drop_last()) + header_line(extras.last().0, extras.last().1)
    }
}

/// The headers of a response: the content type where there is one, the other
/// headers, and the length of the body.
pub open spec fn header_block(
    content_type: Option<Seq<char>>,
    extras: Seq<(Seq<char>, Seq<char>)>,
    length: nat,
) -> Seq<char> {
    (match content_type {
        Some(ct) => header_line("Content-Type"@, ct),
        None => Seq::empty(),
    }) + header_lines(extras) + "Content-Length: "@ + text::decimal(length)
}

/// The lines for a list of headers.
fn write_header_lines(extras: &Vec<(String, String)>) -> (r: String)
    ensures
        r@ == header_lines(text::pairs(extras@)),
{
    let mut out: String = String::new();
    let ghost all = text::pairs(extras@);
    let mut i: usize = 0;
    proof {
        assert(out@ =~= header_lines(all.take(0)));
    }
    while i < extras.len()
        invariant
            i <= extras.len(),
            all == text::pairs(extras@),
            out@ == header_lines(all.take(i as int)),
        decreases extras.len() - i,
    {
        proof {
            assert(all.take(i + 1).drop_last() =~= all.take(i as int));
            assert(all.take(i + 1).last() == (extras@[i as int].0@, extras@[i as int].1@));
        }
        let value = text::chars_of(extras[i].1.as_str());
        if !text::has_char(value.as_slice(), '\r') && !text::has_char(value.as_slice(), '\n') {
            let ghost earlier = out@;
            out.append(extras[i].0.as_str());
            out.append(": ");
            out.append(extras[i].1.as_str());
            out.append("\r\n");
            proof {
                assert(out@ =~= earlier + header_line(extras@[i as int].0@, extras@[i as int].1@));
            }
        }
        i += 1;
    }
    proof {
        assert(all.take(i as int) =~= all);
    }
    out
}

/// The response that the platform is handed for a decision. Where there is no
/// useful response, it is an error response without a body.
pub fn apply_decision(decision: Decision) -> (r: PlatformResponse)
    ensures
        match decision@ {
            DecisionView::Respond { body, content_type, extra_headers } => {
                &&& r.status == 200
                &&& r.phrase@ == "OK"@
                &&& r.body@ == body
                &&& r.headers@ == header_block(content_type, extra_headers, body.len())
            },
            DecisionView::Bypass => {
                &&& r.status == 502
                &&& r.phrase@ == "Bad Gateway"@
                &&& r.body@.len() == 0
                &&& r.headers@ == "X-Hook-Bypass-Reason: policy bypass"@
            },
        },
{
    match decision {
        Decision::Respond { body, content_type, extra_headers } => {
            let mut headers: String = String::new();
            if let Some(ct) = &content_type {
                headers.append("Content-Type");
                headers.append(": ");
                headers.append(ct.as_str());
                headers.append("\r\n");
            }
            let lines = write_header_lines(&extra_headers);
            headers.append(lines.as_str());
            headers.append("Content-Length: ");
            let length = text::number(body.len());
            headers.append(length.as_str());
            proof {
                assert(headers@ =~= header_block(
                    text::opt(content_type),
                    text::pairs(extra_headers@),
                    body@.len(),
                ));
            }
            PlatformResponse { status: 200, phrase: "OK".to_owned(), headers, body }
        },
        Decision::Bypass => PlatformResponse {
            status: 502,
            phrase: "Bad Gateway".to_owned(),
            headers: "X-Hook-Bypass-Reason: policy bypass".to_owned(),
            body: Vec::new(),
        },
    }
}

/// How many line breaks a text holds.
pub open spec fn line_feeds(s: Seq<char>) -> nat {
    ignore_filter::occurrences(s, '\n')
}

proof fn lemma_line_feeds_concat(a: Seq<char>, b: Seq<char>)
    ensures
        line_feeds(a + b) == line_feeds(a) + line_feeds(b),
    decreases a.len(),
{
    if a.len() == 0 {
        assert(a + b =~= b);
    } else {
        lemma_line_feeds_concat(a.skip(1), b);
        assert((a + b).skip(1) =~= a.skip(1) + b);
    }
}

proof fn lemma_no_line_feed(s: Seq<char>)
    requires
        !s.contains('\n'),
    ensures
        line_feeds(s) == 0,
    decreases s.len(),
{
    if s.len() > 0 {
        assert(s[0] != '\n');
        assert forall|c: char| s.skip(1).contains(c) implies s.contains(c) by {
            let i = choose|i: int| 0 <= i < s.skip(1).len() && s.skip(1)[i] == c;
            assert(s[i + 1] == c);
        }
        lemma_no_line_feed(s.skip(1));
    }
}

/// No value adds a line of its own: there are at most as many lines as headers,
/// where no name holds a line break.
pub proof fn law_values_add_no_lines(extras: Seq<(Seq<char>, Seq<char>)>)
    requires
        forall|i: int| 0 <= i < extras.len() ==> !(#[trigger] extras[i]).0.contains('\n'),
    ensures
        line_feeds(header_lines(extras)) <= extras.len(),
    decreases extras.len(),
{
    if extras.len() > 0 {
        let rest = extras.drop_last();
        assert forall|i: int| 0 <= i < rest.len() implies !(#[trigger] rest[i]).0.contains('\n') by {
            assert(rest[i] == extras[i]);
        }
        law_values_add_no_lines(rest);
        let (name, value) = extras.last();
        if !breaks_line(value) {
            reveal_strlit(": ");
            reveal_strlit("\r\n");
            lemma_no_line_feed(name);
            lemma_no_line_feed(value);
            lemma_no_line_feed(": "@);
            assert(line_feeds("\r\n"@) == 1) by {
                reveal_with_fuel(ignore_filter::occurrences, 3);
            }
            lemma_line_feeds_concat(name, ": "@);
            lemma_line_feeds_concat(name + ": "@, value);
            lemma_line_feeds_concat(name + ": "@ + value, "\r\n"@);
            lemma_line_feeds_concat(header_lines(rest), header_line(name, value));
        }
    }
}

/// The handler answers the GET requests to remote hosts, in any case of the method,
/// that open no WebSocket and bypass no cache, and leaves all others to the page.
pub proof fn law_which_requests_are_answered(method: Seq<char>, headers: HeaderMap, url: Seq<char>)
    ensures
        ({
            let host = match urls::parsed(url) {
                Some(p) => match p.host {
                    Some(h) => text::lower(h),
                    None => Seq::empty(),
                },
                None => Seq::empty(),
            };
            let get = text::lower(method) == "get"@;
            let upgrade = websocket::websocket_upgrade(headers);
            let bypass = protocol_bypass::request_reason(headers);
            &&& gate(method, headers, url) == Gate::Evaluate <==> get && !upgrade && bypass is None
                && !platform::local_host(host)
            &&& gate(method, headers, url) == Gate::NotGet <==> !get
            &&& gate(method, headers, url) == Gate::WebSocket <==> get && upgrade
            &&& gate(method, headers, url) == Gate::Local <==> get && !upgrade && bypass is None
                && platform::local_host(host)
            &&& get && !upgrade && bypass is Some ==> gate(method, headers, url) == Gate::Bypass(bypass->0)
        }),
{
    reveal_strlit("GET");
    reveal_strlit("get");
    assert(text::lower("GET"@) =~= "get"@);
}

/// Every header has its line, in order, unless its value would end the line.
pub proof fn law_every_header_has_its_line(
    a: Seq<(Seq<char>, Seq<char>)>,
    b: Seq<(Seq<char>, Seq<char>)>,
    header: (Seq<char>, Seq<char>),
)
    ensures
        header_lines(a + b) == header_lines(a) + header_lines(b),
        header_lines(seq![header]) == if header.1.contains('\r') || header.1.contains('\n') {
            Seq::empty()
        } else {
            header.0 + ": "@ + header.1 + "\r\n"@
        },
    decreases b.len(),
{
    if b.len() == 0 {
        assert(a + b =~= a);
        assert(header_lines(a) + header_lines(b) =~= header_lines(a));
    } else {
        law_every_header_has_its_line(a, b.drop_last(), header);
        assert((a + b).drop_last() =~= a + b.drop_last());
        assert((a + b).last() == b.last());
        assert(header_lines(a + b) =~= header_lines(a) + header_lines(b));
    }
    reveal_with_fuel(header_lines, 2);
    assert(seq![header].drop_last() =~= Seq::<(Seq<char>, Seq<char>)>::empty());
    assert(seq![header].last() == header);
    assert(header_lines(Seq::<(Seq<char>, Seq<char>)>::empty()) =~= Seq::empty());
    if !breaks_line(header.1) {
        assert(header_lines(seq![header]) =~= header_line(header.0, header.1));
    }
}

/// The headers of a response are the content type, where there is one, then the
/// other headers, and then the length of the body.
pub proof fn law_what_stands_in_the_header_block(
    content_type: Seq<char>,
    extras: Seq<(Seq<char>, Seq<char>)>,
    length: nat,
)
    ensures
        header_block(Some(content_type), extras, length) == "Content-Type"@ + ": "@ + content_type + "\r\n"@
            + header_lines(extras) + "Content-Length: "@ + text::decimal(length),
        header_block(None, extras, length) == header_lines(extras) + "Content-Length: "@ + text::decimal(length),
{
    assert(Seq::<char>::empty() + header_lines(extras) =~= header_lines(extras));
}

} // verus!
