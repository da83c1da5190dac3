//! What the proxy does with a request and with its response.
//!
//! The state of a request in flight is a [`PouchHandler`]. The steps are
//! [`PouchHandler::handle_request`], [`PouchHandler::after_lookup`] where the
//! cache is to be looked into, and then, for the response,
//! [`PouchHandler::handle_response`], [`after_decode`] and [`after_collect`].
//! The program reads and writes the cache and moves the bytes in between.
use vstd::prelude::*;
use vstd::string::StrSliceExecFns;
use http::HeaderMap;
use crate::cache_store;
use crate::cache_store::{CacheKeyError, CachePolicy, Metadata};
use crate::headers;
use crate::hook::ignore_filter;
use crate::hook::ignore_filter::IgnoreMatcher;
use crate::hook::platform;
use crate::hook::policy;
use crate::hook::protocol_bypass;
use crate::hook::protocol_bypass::{RequestBypassReason, ResponseBypassReason};
use crate::hook::websocket;
use crate::mitm::learned;
use crate::mitm::learned::LearnedHosts;
use crate::text;

verus! {

/// The address of a request, as the proxy receives it.
pub struct RequestUri {
    pub has_scheme: bool,
    pub has_authority: bool,
    /// The whole of it.
    pub text: String,
    pub path_and_query: Option<String>,
}

/// The URL of a request: its address where that is complete, and otherwise what
/// the `Host` header and the path make up.
pub open spec fn url_of(uri: RequestUri, headers: HeaderMap) -> Seq<char> {
    if uri.has_scheme && uri.has_authority {
        uri.text@
    } else {
        "https://"@ + (match headers::header_text(headers, "host"@) {
            Some(host) => host,
            None => Seq::empty(),
        }) + (match uri.path_and_query {
            Some(p) => p@,
            None => "/"@,
        })
    }
}

/// The URL of a request.
pub fn full_url(uri: &RequestUri, headers: &HeaderMap) -> (r: String)
    ensures
        r@ == url_of(*uri, *headers),
{
    if uri.has_scheme && uri.has_authority {
        return uri.text.clone();
    }
    let mut out: String = "https://".to_owned();
    if let Some(host) = headers::first_text(headers, "host") {
        out.append(host.as_str());
    }
    match &uri.path_and_query {
        Some(p) => {
            out.append(p.as_str());
        },
        None => {
            out.append("/");
        },
    }
    proof {
        assert(out@ =~= url_of(*uri, *headers));
    }
    out
}

/// What is remembered of a request until its response comes: its number, its URL
/// and its cache key.
pub struct RequestMeta {
    pub id: u64,
    pub url: String,
    pub cache_key: String,
}

/// The state of a request in flight.
pub struct PouchHandler {
    /// There only while the response to a request that missed the cache is
    /// awaited.
    pub request_meta: Option<RequestMeta>,
}

/// Why a request goes on upstream without the cache.
pub enum ForwardReason {
    NotGet,
    WebSocket,
    Bypass(RequestBypassReason),
    Ignored,
    NoKey(CacheKeyError),
}

/// What to do with a request.
pub enum RequestStep {
    /// Send it on; its response is not looked at.
    Forward(ForwardReason),
    /// Look into the cache.
    LookUp(RequestMeta),
}

/// The cache key under which a request is looked up, where it is: it is a GET
/// request, no WebSocket handshake and no bypass, its URL is not ignored and has
/// a key.
pub open spec fn looked_up(
    installed: Seq<IgnoreMatcher>,
    method: Seq<char>,
    uri: RequestUri,
    headers: HeaderMap,
) -> Option<Seq<char>> {
    let url = url_of(uri, headers);
    if method != "GET"@ || websocket::websocket_upgrade(headers) || protocol_bypass::request_reason(
        headers,
    ) is Some || ignore_filter::ignored(installed, url) {
        None
    } else {
        cache_store::cache_key(url)
    }
}

/// Whether a reason is the first that holds for a request.
pub open spec fn first_reason(
    reason: ForwardReason,
    installed: Seq<IgnoreMatcher>,
    method: Seq<char>,
    uri: RequestUri,
    headers: HeaderMap,
) -> bool {
    let url = url_of(uri, headers);
    if method != "GET"@ {
        reason is NotGet
    } else if websocket::websocket_upgrade(headers) {
        reason is WebSocket
    } else if protocol_bypass::request_reason(headers) is Some {
        reason == ForwardReason::Bypass(protocol_bypass::request_reason(headers)->0)
    } else if ignore_filter::ignored(installed, url) {
        reason is Ignored
    } else {
        reason matches ForwardReason::NoKey(e) && cache_store::cache_key(url) is None
            && cache_store::is_key_error(url, e)
    }
}

/// Give out the number of the next request.
pub fn next_request_id(counter: &mut u64) -> (r: u64)
    ensures
        r == *old(counter),
        *final(counter) == if *old(counter) == u64::MAX {
            0
        } else {
            (*old(counter) + 1) as u64
        },
{
    let id: u64 = *counter;
    *counter = id.wrapping_add(1);
    id
}

/// What came of a look into the cache.
pub enum LookupStep {
    /// Reply with status 200, these headers and this body.
    Hit { headers: HeaderMap, body: Vec<u8> },
    /// The stored headers do not fit into a header map.
    TooManyHeaders,
    /// Send the request on and store its response.
    Miss,
}

/// What is replayed under a header name from an entry whose body is `length`
/// bytes long: the length itself, the stored content type, and of every other
/// header the stored values, as far as they can be header values.
pub open spec fn hit_values(meta: cache_store::MetadataView, length: nat, name: Seq<char>) -> Seq<
    Option<Seq<char>>,
> {
    let lower = text::lower(name);
    if lower == "content-length"@ {
        seq![Some(text::decimal(length))]
    } else if lower == "content-type"@ {
        match meta.content_type {
            Some(ct) => if headers::is_value(ct) {
                seq![headers::stored_value(ct)]
            } else {
                Seq::empty()
            },
            None => Seq::empty(),
        }
    } else {
        platform::pair_values(meta.forwarded_headers, name)
    }
}

/// Whether a header is one that a hit computes and does not replay.
pub open spec fn is_computed(name: Seq<char>) -> bool {
    text::lower(name) == "content-length"@ || text::lower(name) == "content-type"@
}

/// The headers with which an entry of the cache is served.
pub fn build_response_from_cached(body_len: usize, meta: &Metadata) -> (r: Option<HeaderMap>)
    ensures
        meta.forwarded_headers@.len() + 2 <= headers::ALWAYS_ROOM ==> r is Some,
        r matches Some(map) ==> forall|n: Seq<char>|
            #[trigger] headers::held_values(map, n) == hit_values(meta@, body_len as nat, n),
{
    proof {
        reveal_strlit("content-type");
        reveal_strlit("content-length");
        assert(text::lower("content-type"@) =~= "content-type"@);
        assert(text::lower("content-length"@) =~= "content-length"@);
        text::lemma_decimal_is_number(body_len as nat);
        assert(headers::is_visible(text::decimal(body_len as nat)));
        assert(headers::is_value(text::decimal(body_len as nat)));
    }
    let mut map = headers::empty_map();
    if let Some(ct) = &meta.content_type {
        if headers::accepts_value(ct.as_str()) {
            if !headers::try_insert(&mut map, "content-type", ct.as_str()) {
                return None;
            }
        }
    }
    let length = text::number(body_len);
    if !headers::try_insert(&mut map, "content-length", length.as_str()) {
        return None;
    }
    let ghost base = map;
    let ghost all = text::pairs(meta.forwarded_headers@);
    let mut i: usize = 0;
    proof {
        assert forall|n: Seq<char>| #[trigger]
            headers::held_values(base, n) == if is_computed(n) {
                hit_values(meta@, body_len as nat, n)
            } else {
                Seq::empty()
            } by {}
        assert(all.take(0) =~= Seq::empty());
    }
    while i < meta.forwarded_headers.len()
        invariant
            i <= meta.forwarded_headers.len(),
            all == text::pairs(meta.forwarded_headers@),
            headers::header_entries(map).len() <= i + 2,
            forall|n: Seq<char>| #[trigger]
                headers::held_values(map, n) == if is_computed(n) {
                    hit_values(meta@, body_len as nat, n)
                } else {
                    platform::pair_values(all.take(i as int), n)
                },
        decreases meta.forwarded_headers.len() - i,
    {
        let name = meta.forwarded_headers[i].0.as_str();
        let value = meta.forwarded_headers[i].1.as_str();
        proof {
            assert(all.take(i + 1).drop_last() =~= all.take(i as int));
            assert(all.take(i + 1).last() == (name@, value@));
        }
        let low = text::to_lower(name);
        if !text::same(low.as_str(), "content-length") && !text::same(low.as_str(), "content-type") {
            if headers::parse_name(name).is_some() && headers::accepts_value(value) {
                if !headers::try_append(&mut map, name, value) {
                    return None;
                }
            }
        }
        i += 1;
    }
    proof {
        assert(all.take(i as int) =~= all);
    }
    Some(map)
}

/// What to do with a response.
pub enum ResponseStep {
    /// Pass it on; the cache has nothing to do with it.
    PassOn,
    /// Pass it on, for this reason.
    Bypass(ResponseBypassReason),
    /// Undo its content encoding.
    Decode(RequestMeta),
}

impl PouchHandler {
    /// A handler with no request in flight.
    pub fn new() -> (r: Self)
        ensures
            r.request_meta is None,
    {
        PouchHandler { request_meta: None }
    }

    /// Whether the proxy opens a tunnel to `authority`, rather than pass its
    /// bytes on. It does unless the host has been learned.
    pub fn should_intercept(&self, learned: &LearnedHosts, authority: Option<&str>) -> (r: bool)
        ensures
            r == !(authority matches Some(a) && learned::passes_by(learned@, a@)),
    {
        match authority {
            Some(a) => !learned::is_learned_passthrough(learned, a),
            None => true,
        }
    }

    /// Take in a request. Whatever was in flight is forgotten.
    pub fn handle_request(
        &mut self,
        installed: &Vec<IgnoreMatcher>,
        id: u64,
        method: &str,
        uri: &RequestUri,
        headers: &HeaderMap,
    ) -> (r: RequestStep)
        ensures
            final(self).request_meta is None,
            match r {
                RequestStep::LookUp(meta) => {
                    &&& looked_up(installed@, method@, *uri, *headers) == Some(meta.cache_key@)
                    &&& meta.id == id
                    &&& meta.url@ == url_of(*uri, *headers)
                },
                RequestStep::Forward(reason) => {
                    &&& looked_up(installed@, method@, *uri, *headers) is None
                    &&& first_reason(reason, installed@, method@, *uri, *headers)
                },
            },
    {
        self.request_meta = None;
        if !text::same(method, "GET") {
            return RequestStep::Forward(ForwardReason::NotGet);
        }
        let url = full_url(uri, headers);
        if websocket::is_websocket_upgrade(headers) {
            return RequestStep::Forward(ForwardReason::WebSocket);
        }
        if let Some(reason) = protocol_bypass::request_bypass_reason(headers) {
            return RequestStep::Forward(ForwardReason::Bypass(reason));
        }
        if ignore_filter::is_ignored(installed, url.as_str()) {
            return RequestStep::Forward(ForwardReason::Ignored);
        }
        match cache_store::cache_key_from_url(url.as_str()) {
            Ok(cache_key) => RequestStep::LookUp(RequestMeta { id, url, cache_key }),
            Err(e) => RequestStep::Forward(ForwardReason::NoKey(e)),
        }
    }

    /// Take in what the cache holds for a request. On a miss the request is in
    /// flight from now on; on a hit it is answered and forgotten.
    pub fn after_lookup(&mut self, meta: RequestMeta, cached: Option<(Vec<u8>, Metadata)>) -> (r: LookupStep)
        ensures
            match r {
                LookupStep::Hit { headers, body } => {
                    &&& cached is Some
                    &&& *final(self) == *old(self)
                    &&& body@ == (cached->0).0@
                    &&& forall|n: Seq<char>|
                        #[trigger] headers::held_values(headers, n) == hit_values(
                            (cached->0).1@,
                            body@.len(),
                            n,
                        )
                },
                LookupStep::TooManyHeaders => {
                    &&& cached is Some
                    &&& *final(self) == *old(self)
                    &&& (cached->0).1.forwarded_headers@.len() + 2 > headers::ALWAYS_ROOM
                },
                LookupStep::Miss => {
                    &&& cached is None
                    &&& final(self).request_meta == Some(meta)
                },
            },
    {
        match cached {
            Some((body, stored)) => match build_response_from_cached(body.len(), &stored) {
                Some(headers) => LookupStep::Hit { headers, body },
                None => LookupStep::TooManyHeaders,
            },
            None => {
                self.request_meta = Some(meta);
                LookupStep::Miss
            },
        }
    }

    /// Take in the head of a response. The request is no longer in flight.
    pub fn handle_response(&mut self, status: u16, headers: &HeaderMap) -> (r: ResponseStep)
        ensures
            final(self).request_meta is None,
            match old(self).request_meta {
                None => r is PassOn,
                Some(meta) => match protocol_bypass::response_reason(status, *headers) {
                    Some(reason) => r == ResponseStep::Bypass(reason),
                    None => r == ResponseStep::Decode(meta),
                },
            },
    {
        match self.request_meta.take() {
            None => ResponseStep::PassOn,
            Some(meta) => match protocol_bypass::response_bypass_reason(status, headers) {
                Some(reason) => ResponseStep::Bypass(reason),
                None => ResponseStep::Decode(meta),
            },
        }
    }
}

/// What to do with a response whose content encoding was to be undone.
#[derive(Debug, Clone, Copy, PartialEq, Eq, Structural)]
pub enum DecodeStep {
    /// It could not be undone: reply with an empty response.
    Empty,
    /// It is no success: pass it on.
    PassOn,
    /// Collect its body.
    Collect,
}

/// Decide what to do with a response, given whether its content encoding could
/// be undone.
pub fn after_decode(decoded: bool, status: u16) -> (r: DecodeStep)
    ensures
        r == if !decoded {
            DecodeStep::Empty
        } else if policy::success(status) {
            DecodeStep::Collect
        } else {
            DecodeStep::PassOn
        },
{
    if !decoded {
        DecodeStep::Empty
    } else if policy::is_success(status) {
        DecodeStep::Collect
    } else {
        DecodeStep::PassOn
    }
}

/// What to do with a response whose body has been collected: reply with this
/// body, and store it under the cache key with this metadata, where there is
/// any. Whether storing succeeds does not change the reply.
pub struct CollectPlan {
    pub body: Vec<u8>,
    pub store: Option<Metadata>,
}

/// Decide what to do with a response whose body has been collected, with the
/// time of the write given. The body is missing where collecting it failed; the
/// reply is then without one.
pub fn after_collect_at(
    meta: &RequestMeta,
    headers: &HeaderMap,
    body: Option<Vec<u8>>,
    saved_at: String,
) -> (r: CollectPlan)
    ensures
        r.body@ == match body {
            Some(b) => b@,
            None => Seq::empty(),
        },
        r.store is Some <==> body is Some && policy::storable(*headers),
        r.store matches Some(m) ==> m@ == policy::sidecar_of(meta.url@, *headers, saved_at@),
{
    match body {
        None => CollectPlan { body: Vec::new(), store: None },
        Some(body) => {
            let store = match policy::response_policy(headers) {
                CachePolicy::Store => Some(policy::sidecar_for(meta.url.as_str(), headers, saved_at)),
                CachePolicy::Skip { .. } => None,
            };
            CollectPlan { body, store }
        },
    }
}

/// Decide what to do with a response whose body has been collected, at the
/// present time.
pub fn after_collect(meta: &RequestMeta, headers: &HeaderMap, body: Option<Vec<u8>>) -> (r: CollectPlan)
    ensures
        r.body@ == match body {
            Some(b) => b@,
            None => Seq::empty(),
        },
        r.store is Some <==> body is Some && policy::storable(*headers),
        r.store matches Some(m) ==> m@ == policy::sidecar_of(meta.url@, *headers, m@.saved_at),
{
    let saved_at = policy::now_rfc3339();
    after_collect_at(meta, headers, body, saved_at)
}

// ---------------------------------------------------------------------------
// What holds of a request and its response together.

/// The key under which the response to a request is stored, where it is: the
/// request was looked up and missed, the response is no bypass, could be decoded,
/// is a success, was collected and may be stored.
pub open spec fn stored_under(
    installed: Seq<IgnoreMatcher>,
    method: Seq<char>,
    uri: RequestUri,
    request: HeaderMap,
    hit: bool,
    status: u16,
    response: HeaderMap,
    decoded: bool,
    collected: bool,
) -> Option<Seq<char>> {
    if !hit && protocol_bypass::response_reason(status, response) is None && decoded && policy::success(status)
        && collected && policy::storable(response) {
        looked_up(installed, method, uri, request)
    } else {
        None
    }
}

/// What passes by the cache is never stored: requests other than GET, WebSocket
/// handshakes, bypasses and ignored URLs, and responses that are partial, event
/// streams, no success, or not to be stored.
pub proof fn law_what_passes_by_is_not_stored(
    installed: Seq<IgnoreMatcher>,
    method: Seq<char>,
    uri: RequestUri,
    request: HeaderMap,
    hit: bool,
    status: u16,
    response: HeaderMap,
    decoded: bool,
    collected: bool,
)
    requires
        method != "GET"@ || websocket::websocket_upgrade(request) || protocol_bypass::request_reason(
            request,
        ) is Some || ignore_filter::ignored(installed, url_of(uri, request)) || status == 206
            || protocol_bypass::response_reason(status, response) is Some || !policy::success(status)
            || !policy::storable(response),
    ensures
        stored_under(installed, method, uri, request, hit, status, response, decoded, collected) is None,
{
}

/// Everything else that is collected after a miss is stored under the cache key
/// of its URL.
pub proof fn law_other_responses_are_stored(
    installed: Seq<IgnoreMatcher>,
    uri: RequestUri,
    request: HeaderMap,
    status: u16,
    response: HeaderMap,
)
    requires
        !websocket::websocket_upgrade(request),
        protocol_bypass::request_reason(request) is None,
        !ignore_filter::ignored(installed, url_of(uri, request)),
        protocol_bypass::response_reason(status, response) is None,
        policy::success(status),
        policy::storable(response),
    ensures
        stored_under(installed, "GET"@, uri, request, false, status, response, true, true)
            == cache_store::cache_key(url_of(uri, request)),
{
}

/// What was fetched once comes from the cache the next time: a later request for
/// the same URL is looked up under the key that the response was stored under, and
/// what is found there is that response.
pub proof fn law_next_load_comes_from_the_cache(
    files: cache_store::Files,
    root: Seq<char>,
    installed: Seq<IgnoreMatcher>,
    uri: RequestUri,
    request: HeaderMap,
    status: u16,
    response: HeaderMap,
    body: Seq<u8>,
    saved_at: Seq<char>,
    later_uri: RequestUri,
    later: HeaderMap,
)
    requires
        stored_under(installed, "GET"@, uri, request, false, status, response, true, true) is Some,
        url_of(later_uri, later) == url_of(uri, request),
        !websocket::websocket_upgrade(later),
        protocol_bypass::request_reason(later) is None,
    ensures
        ({
            let key = stored_under(installed, "GET"@, uri, request, false, status, response, true, true)->0;
            let meta = policy::sidecar_of(url_of(uri, request), response, saved_at);
            &&& looked_up(installed, "GET"@, later_uri, later) == Some(key)
            &&& cache_store::found(cache_store::written(files, root, key, body, meta), root, key) == Some(
                (body, meta),
            )
        }),
{
    let key = stored_under(installed, "GET"@, uri, request, false, status, response, true, true)->0;
    let meta = policy::sidecar_of(url_of(uri, request), response, saved_at);
    cache_store::law_read_gives_back_write(files, root, key, body, meta);
}

/// A hit states the length of the body that it serves, also where that body is not
/// the one that was stored.
pub proof fn law_hit_states_its_length(meta: cache_store::MetadataView, length: nat)
    ensures
        hit_values(meta, length, "Content-Length"@) == seq![Some(text::decimal(length))],
{
    reveal_strlit("Content-Length");
    reveal_strlit("content-length");
    assert(text::lower("Content-Length"@) =~= "content-length"@);
}

/// A hit replays every header that the miss stored: under a name that is not
/// computed, the values are those that were forwarded, cookies excepted.
pub proof fn law_hit_replays_stored_headers(
    url: Seq<char>,
    response: HeaderMap,
    saved_at: Seq<char>,
    length: nat,
    name: Seq<char>,
)
    requires
        !is_computed(name),
    ensures
        hit_values(policy::sidecar_of(url, response, saved_at), length, name) == platform::pair_values(
            policy::replayable(policy::forwarded(headers::header_entries(response))),
            name,
        ),
{
}

/// Of the headers that are forwarded and replayed, those under a name that neither
/// stays behind nor sets cookies are the ones that the entries hold under it, where
/// all of these have a text.
proof fn lemma_replayed_values(entries: Seq<headers::Entry>, name: Seq<char>)
    requires
        headers::well_formed(entries),
        headers::is_name(name),
        forall|i: int|
            0 <= i < entries.len() && (#[trigger] entries[i]).0 == text::lower(name) ==> entries[i].1 is Some,
        !is_computed(name),
        !policy::stays_behind(text::lower(name)),
        text::lower(name) != "set-cookie"@,
    ensures
        platform::pair_values(policy::replayable(policy::forwarded(entries)), name)
            == headers::values_under(entries, text::lower(name)),
    decreases entries.len(),
{
    if entries.len() > 0 {
        let rest = entries.drop_last();
        let e = entries.last();
        assert(e == entries[entries.len() - 1]);
        assert(headers::is_entry(e));
        assert forall|i: int| 0 <= i < rest.len() && (#[trigger] rest[i]).0 == text::lower(name) implies rest[i].1 is Some by {
            assert(rest[i] == entries[i]);
        }
        assert(headers::well_formed(rest)) by {
            assert forall|i: int| 0 <= i < rest.len() implies headers::is_entry(#[trigger] rest[i]) by {
                assert(rest[i] == entries[i]);
            }
        }
        lemma_replayed_values(rest, name);
        if e.0 == text::lower(name) {
            headers::lemma_lower_name(name);
            text::lemma_lower_idempotent(name);
        }
        if policy::goes_on(e) {
            let pair = (e.0, e.1->0);
            assert(policy::forwarded(entries).drop_last() =~= policy::forwarded(rest));
            if policy::may_be_replayed(pair) {
                assert(policy::replayable(policy::forwarded(entries)).drop_last() =~= policy::replayable(
                    policy::forwarded(rest),
                ));
            }
        }
    }
}

proof fn lemma_no_values_without_a_name(pairs: Seq<(Seq<char>, Seq<char>)>, name: Seq<char>)
    requires
        !headers::is_name(name),
    ensures
        platform::pair_values(pairs, name).len() == 0,
    decreases pairs.len(),
{
    if pairs.len() > 0 {
        lemma_no_values_without_a_name(pairs.drop_last(), name);
        headers::lemma_lower_name(name);
        headers::lemma_lower_name(pairs.last().0);
    }
}

/// A hit carries the headers of the response that was stored: under a name that
/// is neither computed nor left behind nor sets cookies, the values are those of
/// that response, where all its values under that name have a text.
pub proof fn law_hit_carries_response_headers(
    url: Seq<char>,
    response: HeaderMap,
    saved_at: Seq<char>,
    length: nat,
    name: Seq<char>,
)
    requires
        headers::well_formed(headers::header_entries(response)),
        !headers::header_values(response, name).contains(None),
        !is_computed(name),
        !policy::stays_behind(text::lower(name)),
        text::lower(name) != "set-cookie"@,
    ensures
        hit_values(policy::sidecar_of(url, response, saved_at), length, name) == headers::header_values(
            response,
            name,
        ),
{
    let entries = headers::header_entries(response);
    if headers::is_name(name) {
        assert forall|i: int| 0 <= i < entries.len() && (#[trigger] entries[i]).0 == text::lower(name) implies entries[i].1 is Some by {
            headers::lemma_value_is_under_its_name(entries, i);
        }
        lemma_replayed_values(entries, name);
    } else {
        let pairs = policy::replayable(policy::forwarded(entries));
        lemma_no_values_without_a_name(pairs, name);
        assert(platform::pair_values(pairs, name) =~= Seq::empty());
    }
}

/// A hit sets no cookie.
pub proof fn law_hit_sets_no_cookie(extras: Seq<(Seq<char>, Seq<char>)>)
    ensures
        platform::pair_values(policy::replayable(extras), "set-cookie"@).len() == 0,
    decreases extras.len(),
{
    reveal_strlit("set-cookie");
    assert(text::lower("set-cookie"@) =~= "set-cookie"@);
    if extras.len() > 0 {
        law_hit_sets_no_cookie(extras.drop_last());
        if policy::may_be_replayed(extras.last()) {
            assert(policy::replayable(extras).drop_last() =~= policy::replayable(extras.drop_last()));
        }
    }
}

// ---------------------------------------------------------------------------
// What the log says.

/// The start of a URL, for the log: its first 120 characters.
pub fn short_url(url: &str) -> (r: &str)
    ensures
        r@ == if url@.len() <= 120 {
            url@
        } else {
            url@.take(120)
        },
{
    if url.unicode_len() <= 120 {
        url
    } else {
        url.substring_char(0, 120)
    }
}

/// The time in milliseconds above which a request counts as slow, given the
/// setting for it: a number, or one second.
pub fn slow_threshold_ms(setting: Option<&str>) -> (r: u128)
    ensures
        r == match setting {
            Some(s) => match text::parsed_number(text::trim(s@), u128::MAX as nat) {
                Some(n) => n,
                None => 1000,
            },
            None => 1000,
        },
{
    match setting {
        Some(s) => {
            let chars = text::chars_of(s);
            match text::parse_number(text::trim_chars(chars.as_slice())) {
                Some(n) => n,
                None => 1000,
            }
        },
        None => 1000,
    }
}

/// Whether a request was slow.
pub fn is_slow_ms(elapsed_ms: u128, threshold_ms: u128) -> (r: bool)
    ensures
        r == (elapsed_ms > threshold_ms),
{
    elapsed_ms > threshold_ms
}

/// How long the upstream server took: the whole time without the time spent on
/// the request and on the response, and never less than nothing.
pub fn upstream_wait_ms(total_ms: u128, request_ms: u128, response_ms: u128) -> (r: u128)
    ensures
        r == if total_ms >= request_ms + response_ms {
            total_ms - request_ms - response_ms
        } else {
            0
        },
{
    total_ms.saturating_sub(request_ms).saturating_sub(response_ms)
}

/// Whether hits are logged, given the setting for it.
pub fn log_hits_enabled(setting: Option<&str>) -> (r: bool)
    ensures
        r == (setting matches Some(s) && {
            let value = text::trim(s@);
            value == "1"@ || text::lower(value) == text::lower("true"@) || text::lower(value)
                == text::lower("yes"@) || text::lower(value) == text::lower("on"@)
        }),
{
    match setting {
        Some(s) => {
            let value = text::trimmed(s);
            text::same(value.as_str(), "1") || text::same_ignoring_case(value.as_str(), "true")
                || text::same_ignoring_case(value.as_str(), "yes") || text::same_ignoring_case(
                value.as_str(),
                "on",
            )
        },
        None => false,
    }
}

// ---------------------------------------------------------------------------
// What holds of each step.

/// The URL of a request is its address, where that is complete; otherwise it is
/// made up of the host that the request names and of the path.
pub proof fn law_what_the_url_of_a_request_is(uri: RequestUri, headers: HeaderMap)
    ensures
        uri.has_scheme && uri.has_authority ==> url_of(uri, headers) == uri.text@,
        !(uri.has_scheme && uri.has_authority) ==> ({
            let host = headers::header_text(headers, "host"@);
            let path = uri.path_and_query;
            &&& host is Some && path is Some ==> url_of(uri, headers) == "https://"@ + host->0 + path->0@
            &&& host is Some && path is None ==> url_of(uri, headers) == "https://"@ + host->0 + "/"@
            &&& host is None && path is Some ==> url_of(uri, headers) == "https://"@ + path->0@
        }),
{
    if headers::header_text(headers, "host"@) is None && uri.path_and_query is Some {
        let path = uri.path_and_query->0@;
        assert("https://"@ + Seq::<char>::empty() + path =~= "https://"@ + path);
    }
}

/// A GET request is looked up under the key of its URL, whatever its host, unless
/// it opens a WebSocket, bypasses the cache or is ignored; no other request is
/// looked up.
pub proof fn law_which_requests_are_looked_up(
    installed: Seq<IgnoreMatcher>,
    method: Seq<char>,
    uri: RequestUri,
    headers: HeaderMap,
)
    ensures
        looked_up(installed, method, uri, headers) is Some ==> {
            &&& method == "GET"@
            &&& !websocket::websocket_upgrade(headers)
            &&& protocol_bypass::request_reason(headers) is None
            &&& !ignore_filter::ignored(installed, url_of(uri, headers))
            &&& looked_up(installed, method, uri, headers) == cache_store::cache_key(url_of(uri, headers))
        },
        method == "GET"@ && !websocket::websocket_upgrade(headers) && protocol_bypass::request_reason(headers) is None
            && !ignore_filter::ignored(installed, url_of(uri, headers)) ==> looked_up(
            installed,
            method,
            uri,
            headers,
        ) == cache_store::cache_key(url_of(uri, headers)),
{
}

/// The reason for which a request goes on without the cache is one that holds.
pub proof fn law_the_reason_holds(
    reason: ForwardReason,
    installed: Seq<IgnoreMatcher>,
    method: Seq<char>,
    uri: RequestUri,
    headers: HeaderMap,
)
    requires
        first_reason(reason, installed, method, uri, headers),
    ensures
        reason is NotGet <==> method != "GET"@,
        reason is WebSocket ==> websocket::websocket_upgrade(headers),
        reason matches ForwardReason::Bypass(why) ==> protocol_bypass::request_reason(headers) == Some(why),
        reason is Ignored ==> ignore_filter::ignored(installed, url_of(uri, headers)),
        reason matches ForwardReason::NoKey(e) ==> cache_store::cache_key(url_of(uri, headers)) is None
            && cache_store::is_key_error(url_of(uri, headers), e),
        method == "GET"@ && websocket::websocket_upgrade(headers) ==> reason is WebSocket,
{
}

/// A hit is served with the stored content type, with the length of the body, and,
/// under every other name, with the stored values that can be header values.
pub proof fn law_with_what_a_hit_is_served(meta: cache_store::MetadataView, length: nat, name: Seq<char>)
    ensures
        text::lower(name) == "content-length"@ ==> hit_values(meta, length, name) == seq![
            Some(text::decimal(length)),
        ],
        text::lower(name) == "content-type"@ ==> ({
            &&& meta.content_type is None ==> hit_values(meta, length, name).len() == 0
            &&& meta.content_type matches Some(ct) ==> {
                &&& headers::is_visible(ct) ==> hit_values(meta, length, name) == seq![Some(ct)]
                &&& !headers::is_value(ct) ==> hit_values(meta, length, name).len() == 0
                &&& headers::is_value(ct) && !headers::is_visible(ct) ==> hit_values(meta, length, name) == seq![
                    None::<Seq<char>>,
                ]
            }
        }),
        text::lower(name) != "content-length"@ && text::lower(name) != "content-type"@ ==> hit_values(
            meta,
            length,
            name,
        ) == platform::pair_values(meta.forwarded_headers, name),
{
    reveal_strlit("content-length");
    reveal_strlit("content-type");
    assert("content-length"@.len() != "content-type"@.len());
    if meta.content_type is Some && headers::is_visible(meta.content_type->0) {
        lemma_visible_is_value(meta.content_type->0);
    }
}

proof fn lemma_visible_is_value(s: Seq<char>)
    requires
        headers::is_visible(s),
    ensures
        headers::is_value(s),
{
    assert forall|i: int| 0 <= i < s.len() implies ((#[trigger] s[i]) as u32 >= 32 && s[i] as u32 != 127) || s[i]
        == '\t' by {}
}

/// A response is stored under the key of its request exactly where the request was
/// looked up and not found, and the response is whole, no stream, a success, and
/// not forbidden to be stored.
pub proof fn law_what_is_stored(
    installed: Seq<IgnoreMatcher>,
    method: Seq<char>,
    uri: RequestUri,
    request: HeaderMap,
    hit: bool,
    status: u16,
    response: HeaderMap,
    decoded: bool,
    collected: bool,
)
    ensures
        ({
            let under = stored_under(installed, method, uri, request, hit, status, response, decoded, collected);
            let owed = !hit && decoded && collected && 200 <= status && status < 300
                && protocol_bypass::response_reason(status, response) is None && policy::storable(response);
            &&& owed ==> under == looked_up(installed, method, uri, request)
            &&& !owed ==> under is None
        }),
{
}

} // verus!
