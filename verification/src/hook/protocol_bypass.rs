//! HTTP semantics that must bypass the disk cache.
use vstd::prelude::*;
use http::HeaderMap;
use crate::headers;
use crate::text;

verus! {

/// Why a request bypasses the cache.
#[derive(Debug, Clone, Copy, PartialEq, Eq, Structural)]
pub enum RequestBypassReason {
    SseAccept,
    Range,
    CacheControlNoCache,
    CacheControlNoStore,
}

/// Why a response bypasses the cache.
#[derive(Debug, Clone, Copy, PartialEq, Eq, Structural)]
pub enum ResponseBypassReason {
    SseContentType,
    PartialContent,
}

impl RequestBypassReason {
    /// The word for the reason in the log.
    pub open spec fn word(self) -> Seq<char> {
        match self {
            RequestBypassReason::SseAccept => "sse_accept"@,
            RequestBypassReason::Range => "range"@,
            RequestBypassReason::CacheControlNoCache => "cache_control_no_cache"@,
            RequestBypassReason::CacheControlNoStore => "cache_control_no_store"@,
        }
    }

    /// The word for the reason in the log.
    pub fn as_str(self) -> (r: &'static str)
        ensures
            r@ == self.word(),
    {
        match self {
            RequestBypassReason::SseAccept => "sse_accept",
            RequestBypassReason::Range => "range",
            RequestBypassReason::CacheControlNoCache => "cache_control_no_cache",
            RequestBypassReason::CacheControlNoStore => "cache_control_no_store",
        }
    }
}

impl ResponseBypassReason {
    /// The word for the reason in the log.
    pub open spec fn word(self) -> Seq<char> {
        match self {
            ResponseBypassReason::SseContentType => "sse_content_type"@,
            ResponseBypassReason::PartialContent => "partial_content"@,
        }
    }

    /// The word for the reason in the log.
    pub fn as_str(self) -> (r: &'static str)
        ensures
            r@ == self.word(),
    {
        match self {
            ResponseBypassReason::SseContentType => "sse_content_type",
            ResponseBypassReason::PartialContent => "partial_content",
        }
    }
}

/// Whether one element of a comma-separated list names the media type
/// `expected`: what stands before the first semicolon counts, without the space
/// around it and without regard to case.
pub open spec fn names_media_type(part: Seq<char>, expected: Seq<char>) -> bool {
    text::lower(text::trim(part.take(text::first_index(part, ';')))) == text::lower(expected)
}

/// Whether some element of the list `value` names the media type `expected`.
pub open spec fn lists_media_type(value: Seq<char>, expected: Seq<char>) -> bool {
    exists|k: int|
        0 <= k < text::split(value, ',').len() && #[trigger] names_media_type(
            text::split(value, ',')[k],
            expected,
        )
}

/// Whether one of the values that have a text lists the media type `expected`.
pub open spec fn some_lists_media_type(values: Seq<Option<Seq<char>>>, expected: Seq<char>) -> bool {
    exists|i: int|
        0 <= i < values.len() && (#[trigger] values[i]) is Some && lists_media_type(
            values[i]->0,
            expected,
        )
}

/// The reason that one `Cache-Control` directive of a request gives.
pub open spec fn directive_reason(token: Seq<char>) -> Option<RequestBypassReason> {
    let name = text::lower(
        text::trim(
            match text::split_once(token, '=') {
                Some((n, _)) => n,
                None => token,
            },
        ),
    );
    if name == text::lower("no-cache"@) {
        Some(RequestBypassReason::CacheControlNoCache)
    } else if name == text::lower("no-store"@) {
        Some(RequestBypassReason::CacheControlNoStore)
    } else {
        None
    }
}

/// The reason of the first directive that gives one.
pub open spec fn first_reason(tokens: Seq<Seq<char>>) -> Option<RequestBypassReason>
    decreases tokens.len(),
{
    if tokens.len() == 0 {
        None
    } else if directive_reason(tokens[0]) is Some {
        directive_reason(tokens[0])
    } else {
        first_reason(tokens.skip(1))
    }
}

/// The reason that the `Cache-Control` values of a request give: that of the
/// first directive, in the order of the values, that gives one.
pub open spec fn cache_control_reason(values: Seq<Option<Seq<char>>>) -> Option<RequestBypassReason>
    decreases values.len(),
{
    if values.len() == 0 {
        None
    } else if values[0] is Some && first_reason(text::split(values[0]->0, ',')) is Some {
        first_reason(text::split(values[0]->0, ','))
    } else {
        cache_control_reason(values.skip(1))
    }
}

/// Why a request with these headers bypasses the cache, if it does: it asks for
/// an event stream, for a range, or for a fresh response.
pub open spec fn request_reason(headers: HeaderMap) -> Option<RequestBypassReason> {
    if some_lists_media_type(headers::header_values(headers, "accept"@), "text/event-stream"@) {
        Some(RequestBypassReason::SseAccept)
    } else if headers::header_values(headers, "range"@).len() > 0 {
        Some(RequestBypassReason::Range)
    } else {
        cache_control_reason(headers::header_values(headers, "cache-control"@))
    }
}

/// Why a response bypasses the cache, if it does: it is partial, or it is an
/// event stream.
pub open spec fn response_reason(status: u16, headers: HeaderMap) -> Option<ResponseBypassReason> {
    if status == 206 {
        Some(ResponseBypassReason::PartialContent)
    } else if some_lists_media_type(
        headers::header_values(headers, "content-type"@),
        "text/event-stream"@,
    ) {
        Some(ResponseBypassReason::SseContentType)
    } else {
        None
    }
}

/// Decide whether a request bypasses the cache.
pub fn request_bypass_reason(headers: &HeaderMap) -> (r: Option<RequestBypassReason>)
    ensures
        r == request_reason(*headers),
{
    if has_media_type(headers, "accept", "text/event-stream") {
        return Some(RequestBypassReason::SseAccept);
    }
    if headers::has_header(headers, "range") {
        return Some(RequestBypassReason::Range);
    }
    cache_control_bypass_reason(headers)
}

/// Decide whether a response with the given status code bypasses the cache.
pub fn response_bypass_reason(status: u16, headers: &HeaderMap) -> (r: Option<ResponseBypassReason>)
    ensures
        r == response_reason(status, *headers),
{
    if status == 206 {
        return Some(ResponseBypassReason::PartialContent);
    }
    if has_media_type(headers, "content-type", "text/event-stream") {
        return Some(ResponseBypassReason::SseContentType);
    }
    None
}

/// Whether some element of the list `value` names the media type `expected`.
fn value_has_media_type(value: &str, expected: &str) -> (r: bool)
    ensures
        r == lists_media_type(value@, expected@),
{
    let chars = text::chars_of(value);
    let parts = text::split_chars(chars.as_slice(), ',');
    let mut k: usize = 0;
    while k < parts.len()
        invariant
            k <= parts.len(),
            parts@.len() == text::split(value@, ',').len(),
            forall|j: int| 0 <= j < parts@.len() ==> (#[trigger] parts@[j])@ == text::split(value@, ',')[j],
            forall|j: int|
                0 <= j < k ==> !#[trigger] names_media_type(text::split(value@, ',')[j], expected@),
        decreases parts.len() - k,
    {
        let part = parts[k].as_slice();
        proof {
            text::lemma_first_index(part@, ';');
            assert(part@.take(part@.len() as int) =~= part@);
        }
        let head = match text::index_of(part, ';') {
            Some(i) => text::take_chars(part, i),
            None => part,
        };
        let media_type = text::string_of(text::trim_chars(head));
        if text::same_ignoring_case(media_type.as_str(), expected) {
            proof {
                assert(names_media_type(text::split(value@, ',')[k as int], expected@));
            }
            return true;
        }
        k += 1;
    }
    false
}

/// Whether a value under `name` lists the media type `expected`.
fn has_media_type(headers: &HeaderMap, name: &str, expected: &str) -> (r: bool)
    ensures
        r == some_lists_media_type(headers::header_values(*headers, name@), expected@),
{
    let values = headers::get_all(headers, name);
    let ghost all = headers::header_values(*headers, name@);
    proof {
        assert(headers::value_texts(values@).len() == values@.len());
    }
    let mut i: usize = 0;
    while i < values.len()
        invariant
            i <= values.len(),
            all == headers::header_values(*headers, name@),
            all == headers::value_texts(values@),
            all.len() == values@.len(),
            forall|j: int|
                0 <= j < i ==> !((#[trigger] all[j]) is Some && lists_media_type(all[j]->0, expected@)),
        decreases values.len() - i,
    {
        proof {
            assert(all[i as int] == text::opt(values@[i as int]));
        }
        if let Some(value) = &values[i] {
            if value_has_media_type(value.as_str(), expected) {
                return true;
            }
        }
        i += 1;
    }
    false
}

/// The reason that one directive gives.
fn token_reason(token: &[char]) -> (r: Option<RequestBypassReason>)
    ensures
        r == directive_reason(token@),
{
    proof {
        text::lemma_first_index(token@, '=');
    }
    let head = match text::index_of(token, '=') {
        Some(i) => text::take_chars(token, i),
        None => token,
    };
    let directive = text::string_of(text::trim_chars(head));
    if text::same_ignoring_case(directive.as_str(), "no-cache") {
        return Some(RequestBypassReason::CacheControlNoCache);
    }
    if text::same_ignoring_case(directive.as_str(), "no-store") {
        return Some(RequestBypassReason::CacheControlNoStore);
    }
    None
}

/// The reason that one `Cache-Control` value gives.
fn value_reason(value: &str) -> (r: Option<RequestBypassReason>)
    ensures
        r == first_reason(text::split(value@, ',')),
{
    let chars = text::chars_of(value);
    let tokens = text::split_chars(chars.as_slice(), ',');
    let ghost all = text::split(value@, ',');
    let mut i: usize = 0;
    proof {
        assert(all.skip(0) =~= all);
    }
    while i < tokens.len()
        invariant
            i <= tokens.len(),
            all == text::split(value@, ','),
            tokens@.len() == all.len(),
            forall|k: int| 0 <= k < all.len() ==> (#[trigger] tokens@[k])@ == all[k],
            first_reason(all) == first_reason(all.skip(i as int)),
        decreases tokens.len() - i,
    {
        let reason = token_reason(tokens[i].as_slice());
        proof {
            assert(all.skip(i as int)[0] == tokens@[i as int]@);
            assert(all.skip(i as int).skip(1) =~= all.skip(i + 1));
        }
        if reason.is_some() {
            return reason;
        }
        i += 1;
    }
    None
}

/// The reason that the `Cache-Control` headers give.
fn cache_control_bypass_reason(headers: &HeaderMap) -> (r: Option<RequestBypassReason>)
    ensures
        r == cache_control_reason(headers::header_values(*headers, "cache-control"@)),
{
    let values = headers::get_all(headers, "cache-control");
    let ghost all = headers::header_values(*headers, "cache-control"@);
    let mut i: usize = 0;
    proof {
        assert(headers::value_texts(values@).len() == values@.len());
        assert(all.skip(0) =~= all);
    }
    while i < values.len()
        invariant
            i <= values.len(),
            all == headers::header_values(*headers, "cache-control"@),
            all == headers::value_texts(values@),
            all.len() == values@.len(),
            cache_control_reason(all) == cache_control_reason(all.skip(i as int)),
        decreases values.len() - i,
    {
        proof {
            assert(all.skip(i as int)[0] == text::opt(values@[i as int]));
            assert(all.skip(i as int).skip(1) =~= all.skip(i + 1));
        }
        if let Some(value) = &values[i] {
            let reason = value_reason(value.as_str());
            if reason.is_some() {
                return reason;
            }
        }
        i += 1;
    }
    None
}

// ---------------------------------------------------------------------------
// What holds of bypasses.

/// A media type counts wherever it stands in a list: a list with another behind it
/// names what either names.
pub proof fn law_every_media_type_counts(a: Seq<char>, b: Seq<char>, expected: Seq<char>)
    ensures
        lists_media_type(a.push(',') + b, expected) <==> lists_media_type(a, expected) || lists_media_type(
            b,
            expected,
        ),
{
    let s = a.push(',') + b;
    let (x, y, z) = (text::split(a, ','), text::split(b, ','), text::split(s, ','));
    text::law_split_goes_piece_by_piece(a, ',', b);
    if lists_media_type(s, expected) {
        let k = choose|k: int| 0 <= k < z.len() && #[trigger] names_media_type(text::split(s, ',')[k], expected);
        if k < x.len() {
            assert(names_media_type(text::split(a, ',')[k], expected));
        } else {
            assert(names_media_type(text::split(b, ',')[k - x.len()], expected));
        }
    }
    if lists_media_type(a, expected) {
        let k = choose|k: int| 0 <= k < x.len() && #[trigger] names_media_type(text::split(a, ',')[k], expected);
        assert(names_media_type(text::split(s, ',')[k], expected));
    }
    if lists_media_type(b, expected) {
        let k = choose|k: int| 0 <= k < y.len() && #[trigger] names_media_type(text::split(b, ',')[k], expected);
        assert(names_media_type(text::split(s, ',')[x.len() + k], expected));
    }
}

/// One element of a list names a media type without regard to what follows a
/// semicolon, to the space around it, and to case.
pub proof fn law_parameters_do_not_count(media_type: Seq<char>, parameters: Seq<char>, expected: Seq<char>)
    requires
        !media_type.contains(','),
        !media_type.contains(';'),
        !parameters.contains(','),
    ensures
        lists_media_type(media_type, expected) <==> text::lower(text::trim(media_type)) == text::lower(expected),
        lists_media_type(media_type.push(';') + parameters, expected) <==> lists_media_type(media_type, expected),
{
    let long = media_type.push(';') + parameters;
    assert(!long.contains(',')) by {
        assert forall|k: int| 0 <= k < long.len() implies long[k] != ',' by {
            if k < media_type.len() {
                assert(media_type.contains(media_type[k]));
            } else if k > media_type.len() {
                assert(parameters.contains(parameters[k - media_type.len() - 1]));
            }
        }
    }
    text::law_split_goes_piece_by_piece(media_type, ',', Seq::empty());
    text::law_split_goes_piece_by_piece(long, ',', Seq::empty());
    assert forall|k: int| 0 <= k < media_type.len() implies media_type[k] != ';' && long[k] != ';' by {
        assert(media_type.contains(media_type[k]));
    }
    text::lemma_first_index_is(media_type, ';', media_type.len() as int);
    text::lemma_first_index_is(long, ';', media_type.len() as int);
    assert(media_type.take(media_type.len() as int) =~= media_type);
    assert(long.take(media_type.len() as int) =~= media_type);
    assert(text::split(media_type, ',')[0] == media_type);
    assert(text::split(long, ',')[0] == long);
    if text::lower(text::trim(media_type)) == text::lower(expected) {
        assert(names_media_type(text::split(media_type, ',')[0], expected));
        assert(names_media_type(text::split(long, ',')[0], expected));
    }
}

/// Every value of a header counts, however many there are.
pub proof fn law_every_value_counts(a: Seq<Option<Seq<char>>>, b: Seq<Option<Seq<char>>>, expected: Seq<char>)
    ensures
        some_lists_media_type(a + b, expected) <==> some_lists_media_type(a, expected) || some_lists_media_type(
            b,
            expected,
        ),
        cache_control_reason(a + b) == match cache_control_reason(a) {
            Some(reason) => Some(reason),
            None => cache_control_reason(b),
        },
        a.len() == 1 ==> (some_lists_media_type(a, expected) <==> (a[0] matches Some(v) && lists_media_type(
            v,
            expected,
        ))),
    decreases a.len(),
{
    let c = a + b;
    if some_lists_media_type(c, expected) {
        let i = choose|i: int|
            0 <= i < c.len() && (#[trigger] c[i]) is Some && lists_media_type(c[i]->0, expected);
        if i < a.len() {
            assert(a[i] == c[i]);
        } else {
            assert(b[i - a.len()] == c[i]);
        }
    }
    if some_lists_media_type(a, expected) {
        let i = choose|i: int|
            0 <= i < a.len() && (#[trigger] a[i]) is Some && lists_media_type(a[i]->0, expected);
        assert(c[i] == a[i]);
    }
    if some_lists_media_type(b, expected) {
        let i = choose|i: int|
            0 <= i < b.len() && (#[trigger] b[i]) is Some && lists_media_type(b[i]->0, expected);
        assert(c[a.len() + i] == b[i]);
    }
    if a.len() == 0 {
        assert(c =~= b);
    } else {
        law_every_value_counts(a.skip(1), b, expected);
        assert(c.skip(1) =~= a.skip(1) + b);
        assert(c[0] == a[0]);
    }
}

/// Every directive of a `Cache-Control` counts, wherever it stands. One that asks
/// for a fresh response does so without regard to case, to the space around it, and
/// to a value behind it.
pub proof fn law_every_directive_counts(a: Seq<char>, b: Seq<char>)
    ensures
        cache_control_reason(seq![Some(a.push(',') + b)]) == match cache_control_reason(seq![Some(a)]) {
            Some(reason) => Some(reason),
            None => cache_control_reason(seq![Some(b)]),
        },
        !a.contains(',') ==> ({
            let name = text::lower(
                text::trim(
                    match text::split_once(a, '=') {
                        Some((n, _)) => n,
                        None => a,
                    },
                ),
            );
            cache_control_reason(seq![Some(a)]) == if name == "no-cache"@ {
                Some(RequestBypassReason::CacheControlNoCache)
            } else if name == "no-store"@ {
                Some(RequestBypassReason::CacheControlNoStore)
            } else {
                None
            }
        }),
        cache_control_reason(seq![None]) is None,
{
    reveal_with_fuel(cache_control_reason, 2);
    reveal_strlit("no-cache");
    reveal_strlit("no-store");
    assert(text::lower("no-cache"@) =~= "no-cache"@);
    assert(text::lower("no-store"@) =~= "no-store"@);
    text::law_split_goes_piece_by_piece(a, ',', b);
    lemma_first_reason_concat(text::split(a, ','), text::split(b, ','));
    assert(seq![Some(a)].skip(1) =~= Seq::<Option<Seq<char>>>::empty());
    assert(seq![Some(b)].skip(1) =~= Seq::<Option<Seq<char>>>::empty());
    assert(seq![Some(a.push(',') + b)].skip(1) =~= Seq::<Option<Seq<char>>>::empty());
    assert(seq![None::<Seq<char>>].skip(1) =~= Seq::<Option<Seq<char>>>::empty());
    if !a.contains(',') {
        reveal_with_fuel(first_reason, 2);
        assert(seq![a].skip(1) =~= Seq::<Seq<char>>::empty());
        assert(first_reason(seq![a]) == directive_reason(a));
    }
}

proof fn lemma_first_reason_concat(a: Seq<Seq<char>>, b: Seq<Seq<char>>)
    ensures
        first_reason(a + b) == match first_reason(a) {
            Some(reason) => Some(reason),
            None => first_reason(b),
        },
    decreases a.len(),
{
    if a.len() == 0 {
        assert(a + b =~= b);
    } else {
        lemma_first_reason_concat(a.skip(1), b);
        assert((a + b).skip(1) =~= a.skip(1) + b);
        assert((a + b)[0] == a[0]);
    }
}

/// A request bypasses the cache where it accepts an event stream, asks for a range,
/// or asks for a fresh response, and in no other case.
pub proof fn law_which_requests_bypass(headers: HeaderMap)
    ensures
        ({
            let stream = some_lists_media_type(headers::header_values(headers, "accept"@), "text/event-stream"@);
            let range = headers::header_values(headers, "range"@).len() > 0;
            let fresh = cache_control_reason(headers::header_values(headers, "cache-control"@));
            &&& request_reason(headers) is None <==> !stream && !range && fresh is None
            &&& stream <==> request_reason(headers) == Some(RequestBypassReason::SseAccept)
            &&& !stream && range <==> request_reason(headers) == Some(RequestBypassReason::Range)
            &&& !stream && !range ==> request_reason(headers) == fresh
        }),
{
    lemma_cache_control_reason(headers::header_values(headers, "cache-control"@));
}

proof fn lemma_cache_control_reason(values: Seq<Option<Seq<char>>>)
    ensures
        cache_control_reason(values) != Some(RequestBypassReason::SseAccept),
        cache_control_reason(values) != Some(RequestBypassReason::Range),
    decreases values.len(),
{
    if values.len() > 0 {
        lemma_cache_control_reason(values.skip(1));
        if values[0] is Some {
            lemma_first_reason(text::split(values[0]->0, ','));
        }
    }
}

proof fn lemma_first_reason(tokens: Seq<Seq<char>>)
    ensures
        first_reason(tokens) != Some(RequestBypassReason::SseAccept),
        first_reason(tokens) != Some(RequestBypassReason::Range),
    decreases tokens.len(),
{
    if tokens.len() > 0 {
        lemma_first_reason(tokens.skip(1));
    }
}

/// A response bypasses the cache where it is partial or an event stream, and in no
/// other case.
pub proof fn law_which_responses_bypass(status: u16, headers: HeaderMap)
    ensures
        status == 206 <==> response_reason(status, headers) == Some(ResponseBypassReason::PartialContent),
        status != 206 && some_lists_media_type(
            headers::header_values(headers, "content-type"@),
            "text/event-stream"@,
        ) <==> response_reason(status, headers) == Some(ResponseBypassReason::SseContentType),
{
}

/// Each reason goes by a word of its own.
pub proof fn law_words_of_the_reasons(a: RequestBypassReason, b: RequestBypassReason)
    ensures
        RequestBypassReason::SseAccept.word() == "sse_accept"@,
        RequestBypassReason::Range.word() == "range"@,
        RequestBypassReason::CacheControlNoCache.word() == "cache_control_no_cache"@,
        RequestBypassReason::CacheControlNoStore.word() == "cache_control_no_store"@,
        ResponseBypassReason::SseContentType.word() == "sse_content_type"@,
        ResponseBypassReason::PartialContent.word() == "partial_content"@,
        a.word() == b.word() ==> a == b,
{
    reveal_strlit("sse_accept");
    reveal_strlit("range");
    reveal_strlit("cache_control_no_cache");
    reveal_strlit("cache_control_no_store");
    assert("cache_control_no_cache"@[17] == 'c' && "cache_control_no_store"@[17] == 's');
    assert("sse_accept"@.len() == 10 && "range"@.len() == 5);
    assert("cache_control_no_cache"@.len() == 22 && "cache_control_no_store"@.len() == 22);
}

} // verus!
