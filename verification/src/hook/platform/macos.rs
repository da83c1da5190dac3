//! The rules of an interceptor inside the page's own loader on macOS.
use vstd::prelude::*;
use http::HeaderMap;
use crate::headers;
use crate::hook::platform;
use crate::hook::platform::InstallError;
use crate::hook::policy::{Decision, DecisionView};
use crate::http_fetcher;
use crate::http_fetcher::BYPASS_HEADER;
use crate::text;
use crate::urls;

verus! {

/// The page is told that the URL is bad.
pub const ERROR_BAD_URL: isize = -1000;

/// The page is told of an error without a name.
pub const ERROR_UNKNOWN: isize = -1;

/// The page is told that the response could not be loaded.
pub const ERROR_CANNOT_LOAD: isize = -2000;

/// The page is told that there is no connection.
pub const ERROR_NOT_CONNECTED: isize = -1009;

/// Install the interceptor once. It needs the class that routes the web schemes
/// to it; where that class is missing, nothing is installed.
pub fn install_global(installed: &mut bool, controller_available: bool) -> (r: Result<(), InstallError>)
    ensures
        r is Ok <==> *old(installed) || controller_available,
        *final(installed) == (*old(installed) || controller_available),
        r matches Err(e) ==> (e matches InstallError::Platform(words) && words@
            == "WKBrowsingContextController class not found — WebKit private API shifted?"@),
{
    if *installed {
        return Ok(());
    }
    if !controller_available {
        return Err(
            InstallError::Platform(
                "WKBrowsingContextController class not found — WebKit private API shifted?".to_owned(),
            ),
        );
    }
    *installed = true;
    Ok(())
}

/// Whether the interceptor takes a request: one for a web scheme and a remote
/// host, made with GET, which is also meant where no method is given, and
/// without the mark of the program.
pub open spec fn takes(
    scheme: Option<Seq<char>>,
    host: Option<Seq<char>>,
    method: Option<Seq<char>>,
    marked: bool,
) -> bool {
    &&& scheme is Some
    &&& urls::is_web_scheme(text::lower(scheme->0))
    &&& host is Some
    &&& !platform::local_host(text::lower(host->0))
    &&& method is Some ==> text::lower(method->0) == text::lower("GET"@)
    &&& !marked
}

/// What the program itself sends upstream is never taken again, whatever headers
/// came from the page.
pub proof fn law_own_requests_are_not_taken(
    scheme: Option<Seq<char>>,
    host: Option<Seq<char>>,
    method: Option<Seq<char>>,
    values: Seq<Option<Seq<char>>>,
)
    ensures
        !takes(scheme, host, method, http_fetcher::sent_values(BYPASS_HEADER@, values).len() > 0),
{
    reveal_strlit("x-hook-bypass");
    reveal_strlit("if-match");
    reveal_strlit("if-none-match");
    reveal_strlit("if-modified-since");
    reveal_strlit("if-unmodified-since");
    reveal_strlit("if-range");
    assert(text::lower("x-hook-bypass"@) =~= "x-hook-bypass"@);
    assert("x-hook-bypass"@[0] == 'x' && "if-match"@[0] == 'i' && "if-none-match"@[0] == 'i'
        && "if-modified-since"@[0] == 'i' && "if-unmodified-since"@[0] == 'i' && "if-range"@[0] == 'i');
}

/// Decide whether the interceptor takes a request.
pub fn can_init_with_request(
    scheme: Option<&str>,
    host: Option<&str>,
    method: Option<&str>,
    marked: bool,
) -> (r: bool)
    ensures
        r == takes(text::opt_str(scheme), text::opt_str(host), text::opt_str(method), marked),
{
    let scheme = match scheme {
        Some(s) => text::to_lower(s),
        None => {
            return false;
        },
    };
    if !urls::web_scheme(scheme.as_str()) {
        return false;
    }
    let host = match host {
        Some(h) => text::to_lower(h),
        None => String::new(),
    };
    if platform::is_local_host(host.as_str()) {
        return false;
    }
    if let Some(m) = method {
        if !text::same_ignoring_case(m, "GET") {
            return false;
        }
    }
    !marked
}

/// What is done with a request that was taken.
pub enum Start {
    /// The page is told of an error with this code.
    Fail { code: isize },
    /// The policy decides on this URL, with these headers of the page.
    Evaluate { url: String, headers: HeaderMap },
}

/// Begin to answer a request, given its URL, where it has one, and its header
/// fields. A field that cannot be a header is left out; fields that do not fit
/// into a header map are an error.
pub fn start_loading(url: Option<&str>, fields: &Vec<(String, String)>) -> (r: Start)
    ensures
        match r {
            Start::Fail { code } => {
                ||| url is None && code == -1000
                ||| url is Some && code == -1 && fields@.len() > headers::ALWAYS_ROOM
            },
            Start::Evaluate { url: u, headers } => {
                &&& url is Some
                &&& u@ == url->0@
                &&& forall|n: Seq<char>|
                    #[trigger] headers::held_values(headers, n) == platform::pair_values(
                        text::pairs(fields@),
                        n,
                    )
            },
        },
{
    match url {
        None => Start::Fail { code: ERROR_BAD_URL },
        Some(u) => match platform::headers_to_http(fields) {
            Some(headers) => Start::Evaluate { url: u.to_owned(), headers },
            None => Start::Fail { code: ERROR_UNKNOWN },
        },
    }
}

// ---------------------------------------------------------------------------
// Response headers.

/// The values of one header.
pub struct HeaderGroup {
    /// The name in lower case.
    pub lower: String,
    /// The name as it was first written.
    pub name: String,
    pub values: Vec<String>,
}

/// The values that are listed under a name, whatever its ASCII case, in order.
pub open spec fn listed_values(extras: Seq<(Seq<char>, Seq<char>)>, lower: Seq<char>) -> Seq<Seq<char>>
    decreases extras.len(),
{
    if extras.len() == 0 {
        Seq::empty()
    } else if text::lower(extras.last().0) == lower {
        listed_values(extras.drop_last(), lower).push(extras.last().1)
    } else {
        listed_values(extras.drop_last(), lower)
    }
}

/// The first way in which a name is written.
pub open spec fn first_spelling(extras: Seq<(Seq<char>, Seq<char>)>, lower: Seq<char>) -> Seq<char>
    decreases extras.len(),
{
    if extras.len() == 0 {
        Seq::empty()
    } else if text::lower(extras[0].0) == lower {
        extras[0].0
    } else {
        first_spelling(extras.skip(1), lower)
    }
}

/// Whether the groups are in the order of their names, no name twice.
pub open spec fn in_order(groups: Seq<HeaderGroup>) -> bool {
    forall|i: int, j: int|
        0 <= i < j < groups.len() ==> text::before((#[trigger] groups[i]).lower@, (#[trigger] groups[j]).lower@)
}

/// Whether there is a group for a name.
pub open spec fn has_group(groups: Seq<HeaderGroup>, lower: Seq<char>) -> bool {
    exists|i: int| 0 <= i < groups.len() && (#[trigger] groups[i]).lower@ == lower
}

/// Whether the groups hold the listed headers: one group for each name, in the
/// order of the names, with the first spelling of the name and all its values.
pub open spec fn groups_hold(groups: Seq<HeaderGroup>, extras: Seq<(Seq<char>, Seq<char>)>) -> bool {
    &&& in_order(groups)
    &&& forall|i: int|
        0 <= i < groups.len() ==> {
            &&& text::texts((#[trigger] groups[i]).values@) == listed_values(extras, groups[i].lower@)
            &&& groups[i].name@ == first_spelling(extras, groups[i].lower@)
            &&& text::lower(groups[i].name@) == groups[i].lower@
        }
    &&& forall|lower: Seq<char>| #[trigger]
        has_group(groups, lower) <==> listed_values(extras, lower).len() > 0
}

proof fn lemma_first_spelling_step(extras: Seq<(Seq<char>, Seq<char>)>, lower: Seq<char>)
    requires
        extras.len() > 0,
    ensures
        listed_values(extras.drop_last(), lower).len() > 0 ==> first_spelling(extras, lower)
            == first_spelling(extras.drop_last(), lower),
        listed_values(extras.drop_last(), lower).len() == 0 && text::lower(extras.last().0) == lower
            ==> first_spelling(extras, lower) == extras.last().0,
    decreases extras.len(),
{
    let rest = extras.drop_last();
    if text::lower(extras[0].0) == lower {
        if rest.len() > 0 {
            assert(rest[0] == extras[0]);
            lemma_listed_first(rest, lower);
        }
    } else if rest.len() > 0 {
        assert(extras.skip(1).drop_last() =~= rest.skip(1));
        assert(rest[0] == extras[0]);
        lemma_first_spelling_step(extras.skip(1), lower);
        lemma_listed_skip(rest, lower);
    }
}

/// A name that the first header bears has a value.
proof fn lemma_listed_first(extras: Seq<(Seq<char>, Seq<char>)>, lower: Seq<char>)
    requires
        extras.len() > 0,
        text::lower(extras[0].0) == lower,
    ensures
        listed_values(extras, lower).len() > 0,
    decreases extras.len(),
{
    if extras.len() > 1 {
        assert(extras.drop_last()[0] == extras[0]);
        lemma_listed_first(extras.drop_last(), lower);
    }
}

/// A header of another name in front changes no values.
proof fn lemma_listed_skip(extras: Seq<(Seq<char>, Seq<char>)>, lower: Seq<char>)
    requires
        extras.len() > 0,
        text::lower(extras[0].0) != lower,
    ensures
        listed_values(extras.skip(1), lower) == listed_values(extras, lower),
    decreases extras.len(),
{
    if extras.len() > 1 {
        assert(extras.drop_last()[0] == extras[0]);
        lemma_listed_skip(extras.drop_last(), lower);
        assert(extras.skip(1).drop_last() =~= extras.drop_last().skip(1));
    } else {
        assert(extras.drop_last() =~= Seq::empty());
        assert(extras.skip(1) =~= Seq::empty());
    }
}

/// Where a name belongs among the groups: the position of its group, or else the
/// position before which its group is to stand.
fn place_of(groups: &Vec<HeaderGroup>, lower: &str) -> (r: (usize, bool))
    requires
        in_order(groups@),
    ensures
        r.0 <= groups@.len(),
        r.1 ==> r.0 < groups@.len() && groups@[r.0 as int].lower@ == lower@,
        !r.1 ==> !has_group(groups@, lower@),
        !r.1 ==> forall|j: int| 0 <= j < r.0 ==> text::before((#[trigger] groups@[j]).lower@, lower@),
        !r.1 ==> forall|j: int|
            r.0 <= j < groups@.len() ==> text::before(lower@, (#[trigger] groups@[j]).lower@),
{
    let wanted = text::chars_of(lower);
    let mut i: usize = 0;
    while i < groups.len()
        invariant
            i <= groups.len(),
            wanted@ == lower@,
            in_order(groups@),
            forall|j: int| 0 <= j < i ==> text::before((#[trigger] groups@[j]).lower@, lower@),
        decreases groups.len() - i,
    {
        let here = text::chars_of(groups[i].lower.as_str());
        if !text::is_before(here.as_slice(), wanted.as_slice()) {
            proof {
                text::lemma_before_total(groups@[i as int].lower@, lower@);
            }
            if text::same_chars(here.as_slice(), wanted.as_slice()) {
                return (i, true);
            }
            proof {
                assert forall|j: int| i <= j < groups@.len() implies text::before(
                    lower@,
                    (#[trigger] groups@[j]).lower@,
                ) by {
                    if i < j {
                        text::lemma_before_transitive(
                            lower@,
                            groups@[i as int].lower@,
                            groups@[j].lower@,
                        );
                    }
                }
                assert forall|j: int| 0 <= j < groups@.len() implies (#[trigger] groups@[j]).lower@
                    != lower@ by {
                    text::lemma_before_total(groups@[j].lower@, lower@);
                }
            }
            return (i, false);
        }
        i += 1;
    }
    proof {
        assert forall|j: int| 0 <= j < groups@.len() implies (#[trigger] groups@[j]).lower@ != lower@ by {
            text::lemma_before_total(groups@[j].lower@, lower@);
        }
    }
    (i, false)
}

/// Add a header to the groups.
fn add_header(groups: &mut Vec<HeaderGroup>, name: &str, value: &str, Ghost(extras): Ghost<Seq<(Seq<char>, Seq<char>)>>)
    requires
        groups_hold(old(groups)@, extras),
    ensures
        groups_hold(final(groups)@, extras.push((name@, value@))),
{
    let lower = text::to_lower(name);
    let (at, known) = place_of(groups, lower.as_str());
    let ghost before = groups@;
    let ghost longer = extras.push((name@, value@));
    proof {
        assert(longer.drop_last() =~= extras);
    }
    if known {
        let mut group = groups.remove(at);
        let ghost old_values = group.values@;
        group.values.push(value.to_owned());
        proof {
            assert(text::texts(group.values@) =~= text::texts(old_values).push(value@));
        }
        let ghost added = group;
        groups.insert(at, group);
        proof {
            assert(groups@ =~= before.update(at as int, added));
            lemma_groups_hold_update(before, groups@, extras, name@, value@, at as int);
        }
    } else {
        let mut values: Vec<String> = Vec::new();
        values.push(value.to_owned());
        let group = HeaderGroup { lower, name: name.to_owned(), values };
        let ghost added = group;
        proof {
            assert(text::texts(added.values@) =~= seq![value@]);
        }
        groups.insert(at, group);
        proof {
            assert(groups@ =~= before.insert(at as int, added));
            lemma_groups_hold_insert(before, added, extras, name@, value@, at as int);
        }
    }
}

proof fn lemma_groups_hold_update(
    before: Seq<HeaderGroup>,
    after: Seq<HeaderGroup>,
    extras: Seq<(Seq<char>, Seq<char>)>,
    name: Seq<char>,
    value: Seq<char>,
    at: int,
)
    requires
        groups_hold(before, extras),
        0 <= at < before.len(),
        before[at].lower@ == text::lower(name),
        after == before.update(at, after[at]),
        after[at].lower == before[at].lower,
        after[at].name == before[at].name,
        text::texts(after[at].values@) == text::texts(before[at].values@).push(value),
    ensures
        groups_hold(after, extras.push((name, value))),
{
    let longer = extras.push((name, value));
    assert(longer.drop_last() =~= extras);
    assert forall|i: int| 0 <= i < after.len() implies {
        &&& text::texts((#[trigger] after[i]).values@) == listed_values(longer, after[i].lower@)
        &&& after[i].name@ == first_spelling(longer, after[i].lower@)
        &&& text::lower(after[i].name@) == after[i].lower@
    } by {
        let l = after[i].lower@;
        assert(before[i].lower@ == l);
        lemma_first_spelling_step(longer, l);
        assert(has_group(before, l));
        assert(listed_values(extras, l).len() > 0);
        if i != at {
            if i < at {
                assert(text::before(before[i].lower@, before[at].lower@));
            } else {
                assert(text::before(before[at].lower@, before[i].lower@));
            }
            text::lemma_before_total(before[i].lower@, before[at].lower@);
        }
    }
    assert forall|i: int, j: int| 0 <= i < j < after.len() implies text::before(
        (#[trigger] after[i]).lower@,
        (#[trigger] after[j]).lower@,
    ) by {
        assert(after[i].lower == before[i].lower);
        assert(after[j].lower == before[j].lower);
    }
    assert forall|l: Seq<char>| #[trigger] has_group(after, l) <==> listed_values(longer, l).len() > 0 by {
        if has_group(after, l) {
            let i = choose|i: int| 0 <= i < after.len() && (#[trigger] after[i]).lower@ == l;
            assert(before[i].lower@ == l);
            assert(has_group(before, l));
        }
        if listed_values(longer, l).len() > 0 {
            if l == text::lower(name) {
                assert(after[at].lower@ == l);
            } else {
                assert(has_group(before, l));
                let i = choose|i: int| 0 <= i < before.len() && (#[trigger] before[i]).lower@ == l;
                assert(after[i].lower@ == l);
            }
        }
    }
}

proof fn lemma_groups_hold_insert(
    before: Seq<HeaderGroup>,
    added: HeaderGroup,
    extras: Seq<(Seq<char>, Seq<char>)>,
    name: Seq<char>,
    value: Seq<char>,
    at: int,
)
    requires
        groups_hold(before, extras),
        0 <= at <= before.len(),
        added.lower@ == text::lower(name),
        added.name@ == name,
        text::texts(added.values@) == seq![value],
        !has_group(before, text::lower(name)),
        forall|j: int| 0 <= j < at ==> text::before((#[trigger] before[j]).lower@, text::lower(name)),
        forall|j: int|
            at <= j < before.len() ==> text::before(text::lower(name), (#[trigger] before[j]).lower@),
    ensures
        groups_hold(before.insert(at, added), extras.push((name, value))),
{
    let after = before.insert(at, added);
    let longer = extras.push((name, value));
    let lower = text::lower(name);
    assert(longer.drop_last() =~= extras);
    assert(listed_values(extras, lower).len() == 0);
    assert forall|i: int| 0 <= i < after.len() implies {
        &&& text::texts((#[trigger] after[i]).values@) == listed_values(longer, after[i].lower@)
        &&& after[i].name@ == first_spelling(longer, after[i].lower@)
        &&& text::lower(after[i].name@) == after[i].lower@
    } by {
        let l = after[i].lower@;
        lemma_first_spelling_step(longer, l);
        if i == at {
            assert(listed_values(longer, lower) =~= seq![value]);
        } else {
            let k = if i < at {
                i
            } else {
                i - 1
            };
            assert(after[i] == before[k]);
            assert(has_group(before, l));
            assert(l != lower);
        }
    }
    assert forall|i: int, j: int| 0 <= i < j < after.len() implies text::before(
        (#[trigger] after[i]).lower@,
        (#[trigger] after[j]).lower@,
    ) by {
        if i != at {
            assert(after[i] == before[if i < at {
                i
            } else {
                i - 1
            }]);
        }
        if j != at {
            assert(after[j] == before[if j < at {
                j
            } else {
                j - 1
            }]);
        }
    }
    assert forall|l: Seq<char>| #[trigger] has_group(after, l) <==> listed_values(longer, l).len() > 0 by {
        if has_group(after, l) && l != lower {
            let i = choose|i: int| 0 <= i < after.len() && (#[trigger] after[i]).lower@ == l;
            assert(before[if i < at {
                i
            } else {
                i - 1
            }] == after[i]);
            assert(has_group(before, l));
        }
        if listed_values(longer, l).len() > 0 {
            if l == lower {
                assert(after[at].lower@ == l);
            } else {
                assert(has_group(before, l));
                let i = choose|i: int| 0 <= i < before.len() && (#[trigger] before[i]).lower@ == l;
                assert(after[if i < at {
                    i
                } else {
                    i + 1
                }] == before[i]);
            }
        }
    }
}

/// Group headers by their names.
pub fn group_headers(extras: &Vec<(String, String)>) -> (r: Vec<HeaderGroup>)
    ensures
        groups_hold(r@, text::pairs(extras@)),
{
    let mut groups: Vec<HeaderGroup> = Vec::new();
    let ghost all = text::pairs(extras@);
    let mut i: usize = 0;
    while i < extras.len()
        invariant
            i <= extras.len(),
            all == text::pairs(extras@),
            groups_hold(groups@, all.take(i as int)),
        decreases extras.len() - i,
    {
        add_header(
            &mut groups,
            extras[i].0.as_str(),
            extras[i].1.as_str(),
            Ghost(all.take(i as int)),
        );
        proof {
            assert(all.take(i + 1) =~= all.take(i as int).push(
                (extras@[i as int].0@, extras@[i as int].1@),
            ));
        }
        i += 1;
    }
    proof {
        assert(all.take(i as int) =~= all);
    }
    groups
}

/// The values of a header in one text: cookies on lines of their own, all other
/// values in a list.
pub open spec fn group_text(group: HeaderGroup) -> Seq<char> {
    if group.lower@ == "set-cookie"@ {
        text::join(text::texts(group.values@), "\n"@)
    } else {
        text::join(text::texts(group.values@), ", "@)
    }
}

/// The name and the text of each group.
pub open spec fn group_fields(groups: Seq<HeaderGroup>) -> Seq<(Seq<char>, Seq<char>)> {
    Seq::new(groups.len(), |i: int| (groups[i].name@, group_text(groups[i])))
}

/// The fields that come first: the content type where there is one, and the
/// length of the body.
pub open spec fn leading_fields(content_type: Option<Seq<char>>, length: nat) -> Seq<(Seq<char>, Seq<char>)> {
    let length_field = ("Content-Length"@, text::decimal(length));
    match content_type {
        Some(ct) => seq![("Content-Type"@, ct), length_field],
        None => seq![length_field],
    }
}

/// Whether `fields` are the fields of a response: content type, length of the
/// body, and one field for each group of the other headers.
pub open spec fn are_fields_for(
    fields: Seq<(Seq<char>, Seq<char>)>,
    content_type: Option<Seq<char>>,
    length: nat,
    extras: Seq<(Seq<char>, Seq<char>)>,
) -> bool {
    exists|groups: Seq<HeaderGroup>| #[trigger]
        groups_hold(groups, extras) && fields == leading_fields(content_type, length) + group_fields(groups)
}

/// The header fields of a response, no name twice among the forwarded headers:
/// content type, length of the body, and the forwarded headers in the order of
/// their names, each with all its values.
pub fn build_response_header_dict(
    content_type: Option<&str>,
    content_length: usize,
    extra_headers: &Vec<(String, String)>,
) -> (r: Vec<(String, String)>)
    ensures
        are_fields_for(
            text::pairs(r@),
            text::opt_str(content_type),
            content_length as nat,
            text::pairs(extra_headers@),
        ),
{
    let groups = group_headers(extra_headers);
    let mut out: Vec<(String, String)> = Vec::new();
    if let Some(ct) = content_type {
        out.push(("Content-Type".to_owned(), ct.to_owned()));
    }
    out.push(("Content-Length".to_owned(), text::number(content_length)));
    let ghost lead = leading_fields(text::opt_str(content_type), content_length as nat);
    proof {
        assert(text::pairs(out@) =~= lead);
    }
    let mut i: usize = 0;
    while i < groups.len()
        invariant
            i <= groups.len(),
            text::pairs(out@) =~= lead + group_fields(groups@).take(i as int),
        decreases groups.len() - i,
    {
        let sep = if text::same(groups[i].lower.as_str(), "set-cookie") {
            "\n"
        } else {
            ", "
        };
        let value = text::joined(&groups[i].values, sep);
        let ghost earlier = out@;
        out.push((groups[i].name.clone(), value));
        proof {
            assert(text::pairs(out@) =~= text::pairs(earlier).push(group_fields(groups@)[i as int]));
        }
        i += 1;
    }
    proof {
        assert(text::pairs(out@) =~= lead + group_fields(groups@));
        assert(groups_hold(groups@, text::pairs(extra_headers@)));
    }
    out
}

/// What the page's loader is told.
pub enum Delivery {
    /// A response with status 200, these header fields and this body.
    Response { fields: Vec<(String, String)>, body: Vec<u8> },
    /// An error with this code.
    Error { code: isize },
}

/// What the page's loader is told in place of a response that could not be made.
pub fn failed_delivery() -> (r: Delivery)
    ensures
        r matches Delivery::Error { code } && code == -2000,
{
    Delivery::Error { code: ERROR_CANNOT_LOAD }
}

/// What the page's loader is told for a decision.
pub fn deliver(decision: Decision) -> (r: Delivery)
    ensures
        match decision@ {
            DecisionView::Respond { body, content_type, extra_headers } => {
                &&& r matches Delivery::Response { fields, body: sent }
                &&& sent@ == body
                &&& are_fields_for(text::pairs(fields@), content_type, body.len(), extra_headers)
            },
            DecisionView::Bypass => r matches Delivery::Error { code } && code == -1009,
        },
{
    match decision {
        Decision::Respond { body, content_type, extra_headers } => {
            let fields = match &content_type {
                Some(ct) => build_response_header_dict(Some(ct.as_str()), body.len(), &extra_headers),
                None => build_response_header_dict(None, body.len(), &extra_headers),
            };
            Delivery::Response { fields, body }
        },
        Decision::Bypass => Delivery::Error { code: ERROR_NOT_CONNECTED },
    }
}

// ---------------------------------------------------------------------------
// What holds of requests and responses.

/// A request is taken where it is a GET request, by name or for want of one, for a
/// remote host by `http` or `https`, in any case, without the mark of the program;
/// no other is.
pub proof fn law_which_requests_are_taken(
    scheme: Seq<char>,
    host: Seq<char>,
    method: Seq<char>,
    other: Option<Seq<char>>,
    marked: bool,
)
    ensures
        ({
            let web = text::lower(scheme) == "http"@ || text::lower(scheme) == "https"@;
            let remote = !platform::local_host(text::lower(host));
            &&& takes(Some(scheme), Some(host), None, marked) <==> web && remote && !marked
            &&& takes(Some(scheme), Some(host), Some(method), marked) <==> web && remote && !marked && text::lower(
                method,
            ) == "get"@
            &&& !takes(None, Some(host), other, marked)
            &&& !takes(Some(scheme), None, other, marked)
        }),
{
    reveal_strlit("GET");
    reveal_strlit("get");
    assert(text::lower("GET"@) =~= "get"@);
}

/// The values under a name are those of all headers of that name, in any case, in
/// order.
pub proof fn law_every_value_is_listed(extras: Seq<(Seq<char>, Seq<char>)>, lower: Seq<char>)
    ensures
        listed_values(extras, lower) == extras.filter(
            |e: (Seq<char>, Seq<char>)| text::lower(e.0) == lower,
        ).map_values(|e: (Seq<char>, Seq<char>)| e.1),
    decreases extras.len(),
{
    reveal(Seq::filter);
    let named = |e: (Seq<char>, Seq<char>)| text::lower(e.0) == lower;
    let value = |e: (Seq<char>, Seq<char>)| e.1;
    if extras.len() > 0 {
        law_every_value_is_listed(extras.drop_last(), lower);
    }
    assert(listed_values(extras, lower) =~= extras.filter(named).map_values(value));
}

/// A name is written as it is written first.
pub proof fn law_first_spelling_counts(
    a: Seq<(Seq<char>, Seq<char>)>,
    header: (Seq<char>, Seq<char>),
    b: Seq<(Seq<char>, Seq<char>)>,
)
    requires
        forall|i: int| 0 <= i < a.len() ==> text::lower((#[trigger] a[i]).0) != text::lower(header.0),
    ensures
        first_spelling(a.push(header) + b, text::lower(header.0)) == header.0,
    decreases a.len(),
{
    let all = a.push(header) + b;
    if a.len() > 0 {
        assert(all[0] == a[0]);
        assert(text::lower(a[0].0) != text::lower(header.0));
        assert(all.skip(1) =~= a.skip(1).push(header) + b);
        assert forall|i: int| 0 <= i < a.skip(1).len() implies text::lower((#[trigger] a.skip(1)[i]).0) != text::lower(
            header.0,
        ) by {
            assert(a.skip(1)[i] == a[i + 1]);
        }
        law_first_spelling_counts(a.skip(1), header, b);
    }
}

/// A response begins with its content type, where there is one, and the length of
/// its body.
pub proof fn law_how_a_response_begins(
    fields: Seq<(Seq<char>, Seq<char>)>,
    content_type: Option<Seq<char>>,
    length: nat,
    extras: Seq<(Seq<char>, Seq<char>)>,
)
    requires
        are_fields_for(fields, content_type, length, extras),
    ensures
        content_type matches Some(ct) ==> fields.len() >= 2 && fields[0] == ("Content-Type"@, ct) && fields[1] == (
            "Content-Length"@,
            text::decimal(length),
        ),
        content_type is None ==> fields.len() >= 1 && fields[0] == ("Content-Length"@, text::decimal(length)),
{
    let groups = choose|groups: Seq<HeaderGroup>| #[trigger]
        groups_hold(groups, extras) && fields == leading_fields(content_type, length) + group_fields(groups);
    assert(groups_hold(groups, extras));
}

/// Behind that, every forwarded header has a field: under its name, in any case, all
/// values of that name stand in one text, in order, cookies on lines of their own
/// and the others with commas.
pub proof fn law_every_forwarded_header_has_a_field(
    fields: Seq<(Seq<char>, Seq<char>)>,
    content_type: Option<Seq<char>>,
    length: nat,
    extras: Seq<(Seq<char>, Seq<char>)>,
    i: int,
) -> (k: int)
    requires
        are_fields_for(fields, content_type, length, extras),
        0 <= i < extras.len(),
    ensures
        (if content_type is Some {
            2int
        } else {
            1int
        }) <= k < fields.len(),
        ({
            let lower = text::lower(extras[i].0);
            let values = extras.filter(|e: (Seq<char>, Seq<char>)| text::lower(e.0) == lower).map_values(
                |e: (Seq<char>, Seq<char>)| e.1,
            );
            &&& text::lower(fields[k].0) == lower
            &&& lower == "set-cookie"@ ==> fields[k].1 == text::join(values, "\n"@)
            &&& lower != "set-cookie"@ ==> fields[k].1 == text::join(values, ", "@)
        }),
{
    let groups = choose|groups: Seq<HeaderGroup>| #[trigger]
        groups_hold(groups, extras) && fields == leading_fields(content_type, length) + group_fields(groups);
    assert(groups_hold(groups, extras));
    let lower = text::lower(extras[i].0);
    lemma_listed_has(extras, i);
    law_every_value_is_listed(extras, lower);
    assert(has_group(groups, lower));
    let g = choose|g: int| 0 <= g < groups.len() && (#[trigger] groups[g]).lower@ == lower;
    let lead = leading_fields(content_type, length);
    let k = lead.len() + g;
    assert(fields[k] == group_fields(groups)[g]);
    k
}

/// A header has a value under its name.
proof fn lemma_listed_has(extras: Seq<(Seq<char>, Seq<char>)>, i: int)
    requires
        0 <= i < extras.len(),
    ensures
        listed_values(extras, text::lower(extras[i].0)).len() > 0,
    decreases extras.len(),
{
    if i < extras.len() - 1 {
        assert(extras.drop_last()[i] == extras[i]);
        lemma_listed_has(extras.drop_last(), i);
    }
}

/// The fields of the forwarded headers stand in the order of their names, no name
/// twice, each as one of the forwarded headers is written.
pub proof fn law_fields_are_in_order(
    fields: Seq<(Seq<char>, Seq<char>)>,
    content_type: Option<Seq<char>>,
    length: nat,
    extras: Seq<(Seq<char>, Seq<char>)>,
    j: int,
    k: int,
)
    requires
        are_fields_for(fields, content_type, length, extras),
        (if content_type is Some {
            2int
        } else {
            1int
        }) <= j < k < fields.len(),
    ensures
        text::before(text::lower(fields[j].0), text::lower(fields[k].0)),
        fields[j].0 == first_spelling(extras, text::lower(fields[j].0)),
        fields[k].0 == first_spelling(extras, text::lower(fields[k].0)),
{
    let groups = choose|groups: Seq<HeaderGroup>| #[trigger]
        groups_hold(groups, extras) && fields == leading_fields(content_type, length) + group_fields(groups);
    assert(groups_hold(groups, extras));
    let lead = leading_fields(content_type, length);
    let a = j - lead.len();
    let b = k - lead.len();
    assert(fields[j] == group_fields(groups)[a]);
    assert(fields[k] == group_fields(groups)[b]);
    assert(groups[a].lower@ == text::lower(groups[a].name@));
    assert(groups[b].lower@ == text::lower(groups[b].name@));
}

} // verus!
