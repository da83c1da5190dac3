//! How a single intercepted GET request is answered: from the cache, by a fetch
//! that is stored, by a fetch that is not stored, or not at all.
//!
//! The steps of an evaluation are [`evaluate`], then, where it asks for the
//! cache, [`after_lookup`], then, where that asks for a fetch, [`fetch_only`] or
//! [`fetch_and_cache`]. The program reads the cache and fetches in between.
//!
//! The answer is always complete: a response, or the admission that there is
//! none, which the page sees as a network error. Only GET requests come here.
use vstd::prelude::*;
use http::HeaderMap;
use crate::cache_store;
use crate::cache_store::{CacheKeyError, CachePolicy, Metadata};
use crate::headers;
use crate::hook::ignore_filter;
use crate::hook::ignore_filter::IgnoreMatcher;
use crate::text;

verus! {

/// How many seconds a fetch may take.
pub const UPSTREAM_TIMEOUT_SECS: u64 = 30;

/// The answer to an intercepted request.
#[derive(Debug)]
pub enum Decision {
    /// Reply with this body and these headers. A header with several values has
    /// several entries.
    Respond {
        body: Vec<u8>,
        content_type: Option<String>,
        extra_headers: Vec<(String, String)>,
    },
    /// There is no useful response.
    Bypass,
}

/// The model of [`Decision`].
pub enum DecisionView {
    Respond {
        body: Seq<u8>,
        content_type: Option<Seq<char>>,
        extra_headers: Seq<(Seq<char>, Seq<char>)>,
    },
    Bypass,
}

impl View for Decision {
    type V = DecisionView;

    open spec fn view(&self) -> DecisionView {
        match *self {
            Decision::Respond { body, content_type, extra_headers } => DecisionView::Respond {
                body: body@,
                content_type: text::opt(content_type),
                extra_headers: text::pairs(extra_headers@),
            },
            Decision::Bypass => DecisionView::Bypass,
        }
    }
}

// ---------------------------------------------------------------------------
// Which headers go on.

/// Whether a header, named in lower case, is meant for the connection alone or
/// is computed anew from the body, and so does not go on to the page.
pub open spec fn stays_behind(name: Seq<char>) -> bool {
    ||| name == "connection"@
    ||| name == "keep-alive"@
    ||| name == "transfer-encoding"@
    ||| name == "te"@
    ||| name == "upgrade"@
    ||| name == "proxy-authenticate"@
    ||| name == "proxy-authorization"@
    ||| name == "trailer"@
    ||| name == "content-length"@
    ||| name == "content-encoding"@
}

/// Whether a header goes on to the page beside the content type: it does not
/// stay behind, and its value has a text.
pub open spec fn goes_on(entry: headers::Entry) -> bool {
    let name = text::lower(entry.0);
    name != "content-type"@ && !stays_behind(name) && entry.1 is Some
}

/// The headers that go on to the page beside the content type, in order.
pub open spec fn forwarded(entries: Seq<headers::Entry>) -> Seq<(Seq<char>, Seq<char>)>
    decreases entries.len(),
{
    if entries.len() == 0 {
        Seq::empty()
    } else if goes_on(entries.last()) {
        forwarded(entries.drop_last()).push((entries.last().0, entries.last().1->0))
    } else {
        forwarded(entries.drop_last())
    }
}

/// Whether a header may be replayed from the cache.
pub open spec fn may_be_replayed(header: (Seq<char>, Seq<char>)) -> bool {
    text::lower(header.0) != "set-cookie"@
}

/// The headers that may be replayed from the cache, in order.
pub open spec fn replayable(extras: Seq<(Seq<char>, Seq<char>)>) -> Seq<(Seq<char>, Seq<char>)>
    decreases extras.len(),
{
    if extras.len() == 0 {
        Seq::empty()
    } else if may_be_replayed(extras.last()) {
        replayable(extras.drop_last()).push(extras.last())
    } else {
        replayable(extras.drop_last())
    }
}

/// Whether a header, named in lower case, does not go on to the page.
fn is_left_behind(name: &str) -> (r: bool)
    ensures
        r == stays_behind(name@),
{
    text::same(name, "connection") || text::same(name, "keep-alive") || text::same(
        name,
        "transfer-encoding",
    ) || text::same(name, "te") || text::same(name, "upgrade") || text::same(name, "proxy-authenticate")
        || text::same(name, "proxy-authorization") || text::same(name, "trailer") || text::same(
        name,
        "content-length",
    ) || text::same(name, "content-encoding")
}

/// The headers that may be replayed from the cache. A stored `Set-Cookie` is
/// never replayed: it would overwrite a cookie that has moved on since.
pub fn headers_for_sidecar(extras: &Vec<(String, String)>) -> (r: Vec<(String, String)>)
    ensures
        text::pairs(r@) == replayable(text::pairs(extras@)),
{
    let mut out: Vec<(String, String)> = Vec::new();
    let ghost all = text::pairs(extras@);
    let mut i: usize = 0;
    proof {
        assert(text::pairs(out@) =~= replayable(all.take(0)));
    }
    while i < extras.len()
        invariant
            i <= extras.len(),
            all == text::pairs(extras@),
            text::pairs(out@) == replayable(all.take(i as int)),
        decreases extras.len() - i,
    {
        let name = text::to_lower(extras[i].0.as_str());
        let ghost before = out@;
        proof {
            assert(all.take(i + 1).drop_last() =~= all.take(i as int));
            assert(all.take(i + 1).last() == (extras@[i as int].0@, extras@[i as int].1@));
        }
        if !text::same(name.as_str(), "set-cookie") {
            out.push((extras[i].0.clone(), extras[i].1.clone()));
            proof {
                assert(text::pairs(out@) =~= text::pairs(before).push(all[i as int]));
            }
        }
        i += 1;
    }
    proof {
        assert(all.take(i as int) =~= all);
    }
    out
}

/// The headers that go on to the page beside the content type.
pub fn forwardable_headers(headers: &HeaderMap) -> (r: Vec<(String, String)>)
    ensures
        text::pairs(r@) == forwarded(headers::header_entries(*headers)),
{
    let entries = headers::entries(headers);
    let ghost all = headers::header_entries(*headers);
    let mut out: Vec<(String, String)> = Vec::new();
    let mut i: usize = 0;
    proof {
        assert(headers::entry_texts(entries@).len() == entries@.len());
        assert(text::pairs(out@) =~= forwarded(all.take(0)));
    }
    while i < entries.len()
        invariant
            i <= entries.len(),
            all == headers::entry_texts(entries@),
            all.len() == entries@.len(),
            text::pairs(out@) == forwarded(all.take(i as int)),
        decreases entries.len() - i,
    {
        let ghost before = out@;
        proof {
            assert(all.take(i + 1).drop_last() =~= all.take(i as int));
            assert(all.take(i + 1).last() == (entries@[i as int].0@, text::opt(entries@[i as int].1)));
        }
        let name = text::to_lower(entries[i].0.as_str());
        if !text::same(name.as_str(), "content-type") && !is_left_behind(name.as_str()) {
            if let Some(value) = &entries[i].1 {
                out.push((entries[i].0.clone(), value.clone()));
                proof {
                    assert(text::pairs(out@) =~= text::pairs(before).push((all[i as int].0, all[i as int].1->0)));
                }
            }
        }
        i += 1;
    }
    proof {
        assert(all.take(i as int) =~= all);
    }
    out
}

/// The content type of a response, and the headers that go on beside it.
pub fn forward_response_headers(headers: &HeaderMap) -> (r: (Option<String>, Vec<(String, String)>))
    ensures
        text::opt(r.0) == headers::header_text(*headers, "content-type"@),
        text::pairs(r.1@) == forwarded(headers::header_entries(*headers)),
{
    (headers::first_text(headers, "content-type"), forwardable_headers(headers))
}

/// What is stored beside the body of a response.
pub open spec fn sidecar_of(url: Seq<char>, headers: HeaderMap, saved_at: Seq<char>) -> cache_store::MetadataView {
    cache_store::MetadataView {
        original_url: url,
        content_type: headers::header_text(headers, "content-type"@),
        etag: headers::header_text(headers, "etag"@),
        last_modified: headers::header_text(headers, "last-modified"@),
        saved_at,
        forwarded_headers: replayable(forwarded(headers::header_entries(headers))),
    }
}

/// What is stored beside the body of a response.
pub fn sidecar_for(url: &str, headers: &HeaderMap, saved_at: String) -> (r: Metadata)
    ensures
        r@ == sidecar_of(url@, *headers, saved_at@),
{
    let extras = forwardable_headers(headers);
    Metadata {
        original_url: url.to_owned(),
        content_type: headers::first_text(headers, "content-type"),
        etag: headers::first_text(headers, "etag"),
        last_modified: headers::first_text(headers, "last-modified"),
        saved_at,
        forwarded_headers: headers_for_sidecar(&extras),
    }
}

/// Whether a response may be stored, by its `Cache-Control`.
pub open spec fn storable(headers: HeaderMap) -> bool {
    cache_store::skip_reason(headers::header_text(headers, "cache-control"@)) is None
}

/// What the `Cache-Control` of a response says about storing it.
pub fn response_policy(headers: &HeaderMap) -> (r: CachePolicy)
    ensures
        r@ == cache_store::skip_reason(headers::header_text(*headers, "cache-control"@)),
{
    match headers::first_text(headers, "cache-control") {
        Some(value) => cache_store::should_cache(Some(value.as_str())),
        None => cache_store::should_cache(None),
    }
}

// ---------------------------------------------------------------------------
// The steps.

/// What to do first about a request.
pub enum Evaluation {
    /// The URL is on the ignore list: fetch it, and neither look into the cache
    /// nor store what comes.
    FetchOnly,
    /// The URL has no cache key: there is no response.
    NoKey(CacheKeyError),
    /// Look into the cache under this key.
    LookUp { cache_key: String },
}

/// Decide what to do first about a request.
pub fn evaluate(installed: &Vec<IgnoreMatcher>, url: &str) -> (r: Evaluation)
    ensures
        match r {
            Evaluation::FetchOnly => ignore_filter::ignored(installed@, url@),
            Evaluation::NoKey(e) => !ignore_filter::ignored(installed@, url@) && cache_store::cache_key(
                url@,
            ) is None && cache_store::is_key_error(url@, e),
            Evaluation::LookUp { cache_key } => !ignore_filter::ignored(installed@, url@)
                && cache_store::cache_key(url@) == Some(cache_key@),
        },
{
    if ignore_filter::is_ignored(installed, url) {
        return Evaluation::FetchOnly;
    }
    match cache_store::cache_key_from_url(url) {
        Ok(cache_key) => Evaluation::LookUp { cache_key },
        Err(e) => Evaluation::NoKey(e),
    }
}

/// The answer from an entry of the cache: its body, its content type and the
/// headers that it keeps.
pub open spec fn replay(body: Seq<u8>, meta: cache_store::MetadataView) -> DecisionView {
    DecisionView::Respond {
        body,
        content_type: meta.content_type,
        extra_headers: meta.forwarded_headers,
    }
}

/// The answer, where the cache holds the entry that was looked up; otherwise the
/// response has to be fetched and stored.
pub fn after_lookup(cached: Option<(Vec<u8>, Metadata)>) -> (r: Option<Decision>)
    ensures
        r is Some <==> cached is Some,
        r matches Some(d) ==> d@ == replay((cached->0).0@, (cached->0).1@),
{
    match cached {
        Some((body, meta)) => Some(
            Decision::Respond {
                body,
                content_type: meta.content_type,
                extra_headers: meta.forwarded_headers,
            },
        ),
        None => None,
    }
}

/// What came of a fetch.
pub enum Upstream {
    /// Nothing came within the time allowed.
    TimedOut,
    /// The fetch failed.
    Failed,
    /// A response came. The body is missing where reading it failed.
    Response { status: u16, headers: HeaderMap, body: Option<Vec<u8>> },
}

/// Whether a status code says that the request succeeded.
pub open spec fn success(status: u16) -> bool {
    200 <= status <= 299
}

/// Whether a status code says that the request succeeded.
pub fn is_success(status: u16) -> (r: bool)
    ensures
        r == success(status),
{
    200 <= status && status <= 299
}

/// Whether a fetch gave a response that can be passed on: one that succeeded and
/// whose body was read.
pub open spec fn usable(upstream: Upstream) -> bool {
    upstream matches Upstream::Response { status, body, .. } && success(status) && body is Some
}

/// The answer from a fetched response.
pub open spec fn fresh(upstream: Upstream) -> DecisionView {
    match upstream {
        Upstream::Response { status, headers, body } => if success(status) && body is Some {
            DecisionView::Respond {
                body: body->0@,
                content_type: headers::header_text(headers, "content-type"@),
                extra_headers: forwarded(headers::header_entries(headers)),
            }
        } else {
            DecisionView::Bypass
        },
        _ => DecisionView::Bypass,
    }
}

/// The answer for an ignored URL: what was fetched, where it can be passed on.
/// Nothing is stored.
pub fn fetch_only(upstream: Upstream) -> (r: Decision)
    ensures
        r@ == fresh(upstream),
{
    match upstream {
        Upstream::Response { status, headers, body } => {
            if !is_success(status) {
                return Decision::Bypass;
            }
            let (content_type, extra_headers) = forward_response_headers(&headers);
            match body {
                Some(body) => Decision::Respond { body, content_type, extra_headers },
                None => Decision::Bypass,
            }
        },
        _ => Decision::Bypass,
    }
}

/// The answer after a miss, and the metadata under which its body is to be
/// stored, where it is to be stored. Whether storing succeeds does not change
/// the answer.
pub struct FetchPlan {
    pub decision: Decision,
    pub store: Option<Metadata>,
}

/// `chrono::Utc::now().to_rfc3339()`: the time in ISO 8601. Nothing is said of
/// it: it is another one at every call.
#[verifier::external_body]
pub(crate) fn now_rfc3339() -> (r: String) {
    chrono::Utc::now().to_rfc3339()
}

/// The answer after a miss, and what is stored, with the time of the write
/// given.
pub fn fetch_and_cache_at(url: &str, upstream: Upstream, saved_at: String) -> (r: FetchPlan)
    ensures
        r.decision@ == fresh(upstream),
        r.store is Some <==> usable(upstream) && storable(upstream->headers),
        r.store matches Some(meta) ==> meta@ == sidecar_of(url@, upstream->headers, saved_at@),
{
    match upstream {
        Upstream::Response { status, headers, body } => {
            if !is_success(status) {
                return FetchPlan { decision: Decision::Bypass, store: None };
            }
            let (content_type, extra_headers) = forward_response_headers(&headers);
            let policy = response_policy(&headers);
            match body {
                None => FetchPlan { decision: Decision::Bypass, store: None },
                Some(body) => {
                    let store = match policy {
                        CachePolicy::Store => Some(sidecar_for(url, &headers, saved_at)),
                        CachePolicy::Skip { .. } => None,
                    };
                    FetchPlan {
                        decision: Decision::Respond { body, content_type, extra_headers },
                        store,
                    }
                },
            }
        },
        _ => FetchPlan { decision: Decision::Bypass, store: None },
    }
}

/// The answer after a miss, and what is stored, at the present time.
pub fn fetch_and_cache(url: &str, upstream: Upstream) -> (r: FetchPlan)
    ensures
        r.decision@ == fresh(upstream),
        r.store is Some <==> usable(upstream) && storable(upstream->headers),
        r.store matches Some(meta) ==> meta@ == sidecar_of(url@, upstream->headers, meta@.saved_at),
{
    let saved_at = now_rfc3339();
    fetch_and_cache_at(url, upstream, saved_at)
}

// ---------------------------------------------------------------------------
// What holds of the headers.

/// Nothing that goes on to the page is a header that stays behind, or a second
/// content type.
pub proof fn law_forwarded_headers_leave_connection_behind(entries: Seq<headers::Entry>, i: int)
    requires
        0 <= i < forwarded(entries).len(),
    ensures
        !stays_behind(text::lower(forwarded(entries)[i].0)),
        text::lower(forwarded(entries)[i].0) != "content-type"@,
    decreases entries.len(),
{
    if entries.len() > 0 {
        let rest = forwarded(entries.drop_last());
        if i < rest.len() {
            law_forwarded_headers_leave_connection_behind(entries.drop_last(), i);
        }
    }
}

/// Every header that has a text and does not stay behind goes on.
pub proof fn law_other_headers_are_forwarded(entries: Seq<headers::Entry>, i: int)
    requires
        0 <= i < entries.len(),
        goes_on(entries[i]),
    ensures
        forwarded(entries).contains((entries[i].0, entries[i].1->0)),
    decreases entries.len(),
{
    let rest = forwarded(entries.drop_last());
    if i < entries.len() - 1 {
        law_other_headers_are_forwarded(entries.drop_last(), i);
        let k = choose|k: int| 0 <= k < rest.len() && rest[k] == (entries[i].0, entries[i].1->0);
        assert(forwarded(entries)[k] == (entries[i].0, entries[i].1->0));
    } else {
        assert(forwarded(entries).last() == (entries[i].0, entries[i].1->0));
    }
}

/// No stored response sets a cookie when it is replayed.
pub proof fn law_no_cookie_is_replayed(extras: Seq<(Seq<char>, Seq<char>)>, i: int)
    requires
        0 <= i < replayable(extras).len(),
    ensures
        text::lower(replayable(extras)[i].0) != "set-cookie"@,
        extras.contains(replayable(extras)[i]),
    decreases extras.len(),
{
    if extras.len() > 0 {
        let rest = replayable(extras.drop_last());
        if i < rest.len() {
            law_no_cookie_is_replayed(extras.drop_last(), i);
            let k = choose|k: int| 0 <= k < extras.drop_last().len() && extras.drop_last()[k] == rest[i];
            assert(extras[k] == rest[i]);
        } else {
            assert(extras.last() == replayable(extras)[i]);
        }
    }
}

/// Headers that set no cookie are replayed as they are.
pub proof fn law_headers_without_cookie_are_replayed(extras: Seq<(Seq<char>, Seq<char>)>)
    requires
        forall|i: int| 0 <= i < extras.len() ==> may_be_replayed(#[trigger] extras[i]),
    ensures
        replayable(extras) == extras,
    decreases extras.len(),
{
    if extras.len() > 0 {
        assert forall|i: int| 0 <= i < extras.drop_last().len() implies may_be_replayed(
            #[trigger] extras.drop_last()[i],
        ) by {
            assert(extras[i] == extras.drop_last()[i]);
        }
        law_headers_without_cookie_are_replayed(extras.drop_last());
        assert(may_be_replayed(extras.last()));
        assert(replayable(extras) =~= extras);
    }
}

/// A hit answers as the miss did that stored the entry: with the same body, the
/// same content type and, but for cookies, the same headers.
pub proof fn law_hit_answers_as_the_miss(
    files: cache_store::Files,
    root: Seq<char>,
    key: Seq<char>,
    url: Seq<char>,
    upstream: Upstream,
    saved_at: Seq<char>,
)
    requires
        usable(upstream),
    ensures
        ({
            let body = fresh(upstream)->body;
            let meta = sidecar_of(url, upstream->headers, saved_at);
            let later = cache_store::found(
                cache_store::written(files, root, key, body, meta),
                root,
                key,
            );
            &&& later is Some
            &&& replay((later->0).0, (later->0).1) == DecisionView::Respond {
                body,
                content_type: fresh(upstream)->content_type,
                extra_headers: replayable(fresh(upstream)->extra_headers),
            }
        }),
{
    let body = fresh(upstream)->body;
    let meta = sidecar_of(url, upstream->headers, saved_at);
    cache_store::law_read_gives_back_write(files, root, key, body, meta);
}

/// What goes on of two lists of headers is what goes on of the first and then of the
/// second. One header goes on with its name and its value, unless it has no text, is
/// the content type, or is one of those that belong to the connection or are
/// computed anew.
pub proof fn law_which_headers_go_on(a: Seq<headers::Entry>, b: Seq<headers::Entry>, e: headers::Entry)
    ensures
        forwarded(a + b) == forwarded(a) + forwarded(b),
        ({
            let name = text::lower(e.0);
            let held_back = name == "content-type"@ || name == "connection"@ || name == "keep-alive"@ || name
                == "transfer-encoding"@ || name == "te"@ || name == "upgrade"@ || name == "proxy-authenticate"@ || name
                == "proxy-authorization"@ || name == "trailer"@ || name == "content-length"@ || name
                == "content-encoding"@;
            forwarded(seq![e]) == if held_back || e.1 is None {
                Seq::empty()
            } else {
                seq![(e.0, e.1->0)]
            }
        }),
    decreases b.len(),
{
    if b.len() == 0 {
        assert(a + b =~= a);
        assert(forwarded(a) + forwarded(b) =~= forwarded(a));
    } else {
        law_which_headers_go_on(a, b.drop_last(), e);
        assert((a + b).drop_last() =~= a + b.drop_last());
        assert((a + b).last() == b.last());
        assert(forwarded(a + b) =~= forwarded(a) + forwarded(b));
    }
    reveal_with_fuel(forwarded, 2);
    assert(seq![e].drop_last() =~= Seq::<headers::Entry>::empty());
    assert(seq![e].last() == e);
    assert(forwarded(Seq::<headers::Entry>::empty()) =~= Seq::empty());
    if goes_on(e) {
        assert(forwarded(seq![e]) =~= seq![(e.0, e.1->0)]);
    }
}

/// Every header with a text goes on, wherever it stands, unless its name, in lower
/// case, is one of those that are held back; so does what lets a page of another
/// origin read the response.
pub proof fn law_every_other_header_goes_on(entries: Seq<headers::Entry>, i: int)
    requires
        0 <= i < entries.len(),
        entries[i].1 is Some,
        ({
            let name = text::lower(entries[i].0);
            name != "content-type"@ && name != "connection"@ && name != "keep-alive"@ && name
                != "transfer-encoding"@ && name != "te"@ && name != "upgrade"@ && name != "proxy-authenticate"@ && name
                != "proxy-authorization"@ && name != "trailer"@ && name != "content-length"@ && name
                != "content-encoding"@
        }),
    ensures
        forwarded(entries).contains((entries[i].0, entries[i].1->0)),
{
    law_other_headers_are_forwarded(entries, i);
}

/// What is replayed of two lists of headers is what is replayed of the first and
/// then of the second; one header is replayed as it is, unless it sets a cookie.
pub proof fn law_which_headers_are_replayed(
    a: Seq<(Seq<char>, Seq<char>)>,
    b: Seq<(Seq<char>, Seq<char>)>,
    header: (Seq<char>, Seq<char>),
)
    ensures
        replayable(a + b) == replayable(a) + replayable(b),
        replayable(seq![header]) == if text::lower(header.0) == "set-cookie"@ {
            Seq::empty()
        } else {
            seq![header]
        },
    decreases b.len(),
{
    if b.len() == 0 {
        assert(a + b =~= a);
        assert(replayable(a) + replayable(b) =~= replayable(a));
    } else {
        law_which_headers_are_replayed(a, b.drop_last(), header);
        assert((a + b).drop_last() =~= a + b.drop_last());
        assert((a + b).last() == b.last());
        assert(replayable(a + b) =~= replayable(a) + replayable(b));
    }
    reveal_with_fuel(replayable, 2);
    assert(seq![header].drop_last() =~= Seq::<(Seq<char>, Seq<char>)>::empty());
    assert(seq![header].last() == header);
    assert(replayable(Seq::<(Seq<char>, Seq<char>)>::empty()) =~= Seq::empty());
    if may_be_replayed(header) {
        assert(replayable(seq![header]) =~= seq![header]);
    }
}

/// A response with a status from 200 to 299 whose body was read reaches the page:
/// its body, its content type, and its headers. Anything else does not.
pub proof fn law_only_a_success_reaches_the_page(status: u16, headers: HeaderMap, body: Option<Vec<u8>>)
    ensures
        ({
            let answer = fresh(Upstream::Response { status, headers, body });
            if 200 <= status && status < 300 && body is Some {
                answer == DecisionView::Respond {
                    body: body->0@,
                    content_type: headers::header_text(headers, "content-type"@),
                    extra_headers: forwarded(headers::header_entries(headers)),
                }
            } else {
                answer == DecisionView::Bypass
            }
        }),
        usable(Upstream::Response { status, headers, body }) <==> 200 <= status < 300 && body is Some,
        fresh(Upstream::TimedOut) == DecisionView::Bypass,
        fresh(Upstream::Failed) == DecisionView::Bypass,
        !usable(Upstream::TimedOut),
        !usable(Upstream::Failed),
{
}

/// What is stored beside a body says where it came from and when, and holds the
/// headers that are needed to serve it again: the content type, what tells whether
/// it has changed, and all that went to the page but cookies.
pub proof fn law_sidecar_tells_of_the_response(url: Seq<char>, headers: HeaderMap, saved_at: Seq<char>, i: int)
    ensures
        ({
            let meta = sidecar_of(url, headers, saved_at);
            let sent = forwarded(headers::header_entries(headers));
            &&& meta.original_url == url
            &&& meta.saved_at == saved_at
            &&& meta.content_type == headers::header_text(headers, "content-type"@)
            &&& meta.etag == headers::header_text(headers, "etag"@)
            &&& meta.last_modified == headers::header_text(headers, "last-modified"@)
            &&& 0 <= i < sent.len() && text::lower(sent[i].0) != "set-cookie"@
                ==> meta.forwarded_headers.contains(sent[i])
            &&& meta.forwarded_headers == replayable(sent)
        }),
{
    let sent = forwarded(headers::header_entries(headers));
    if 0 <= i < sent.len() && text::lower(sent[i].0) != "set-cookie"@ {
        let before = sent.take(i);
        let after = sent.skip(i + 1);
        assert(sent =~= before + seq![sent[i]] + after);
        law_which_headers_are_replayed(before + seq![sent[i]], after, sent[i]);
        law_which_headers_are_replayed(before, seq![sent[i]], sent[i]);
        let kept = replayable(sent);
        assert(kept =~= replayable(before) + seq![sent[i]] + replayable(after));
        assert(kept[replayable(before).len() as int] == sent[i]);
    }
}

/// Whether a response is stored is decided by its first `Cache-Control`: without
/// one it is, and otherwise unless a directive in it forbids it.
pub proof fn law_cache_control_decides(headers: HeaderMap)
    ensures
        headers::header_text(headers, "cache-control"@) is None ==> storable(headers),
        headers::header_text(headers, "cache-control"@) matches Some(raw) ==> (storable(headers)
            <==> cache_store::skip_reason(Some(raw)) is None),
{
    cache_store::law_stored_unless_a_directive_forbids(Seq::empty());
}

/// What is served from the cache is what is stored there.
pub proof fn law_replay_serves_what_is_stored(body: Seq<u8>, meta: cache_store::MetadataView)
    ensures
        replay(body, meta) is Respond,
        replay(body, meta)->body == body,
        replay(body, meta)->content_type == meta.content_type,
        replay(body, meta)->extra_headers == meta.forwarded_headers,
{
}

} // verus!
