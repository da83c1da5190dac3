//! WebSocket upgrade detection.
use vstd::prelude::*;
use http::HeaderMap;
use crate::headers;
use crate::text;

verus! {

/// Whether some element of the comma-separated list `value` is `expected`,
/// without the space around it and without regard to case.
pub open spec fn lists_token(value: Seq<char>, expected: Seq<char>) -> bool {
    exists|k: int|
        0 <= k < text::split(value, ',').len() && text::lower(
            text::trim(#[trigger] text::split(value, ',')[k]),
        ) == text::lower(expected)
}

/// Whether one of the values that have a text lists `expected`.
pub open spec fn some_lists_token(values: Seq<Option<Seq<char>>>, expected: Seq<char>) -> bool {
    exists|i: int|
        0 <= i < values.len() && (#[trigger] values[i]) is Some && lists_token(values[i]->0, expected)
}

/// Whether the headers are those of a WebSocket opening handshake: the pair
/// `Upgrade: websocket` and `Connection: Upgrade`, or the pair of
/// `Sec-WebSocket-Key` and `Sec-WebSocket-Version`.
pub open spec fn websocket_upgrade(headers: HeaderMap) -> bool {
    ||| (some_lists_token(headers::header_values(headers, "upgrade"@), "websocket"@)
        && some_lists_token(headers::header_values(headers, "connection"@), "upgrade"@))
    ||| (headers::header_values(headers, "sec-websocket-key"@).len() > 0
        && headers::header_values(headers, "sec-websocket-version"@).len() > 0)
}

/// Decide whether the headers are those of a WebSocket opening handshake.
///
/// Host, port and URL have no say in it.
pub fn is_websocket_upgrade(headers: &HeaderMap) -> (r: bool)
    ensures
        r == websocket_upgrade(*headers),
{
    let has_upgrade_websocket = header_values_contain_token(headers, "upgrade", "websocket");
    let has_connection_upgrade = header_values_contain_token(headers, "connection", "upgrade");
    let has_sec_websocket_pair = headers::has_header(headers, "sec-websocket-key")
        && headers::has_header(headers, "sec-websocket-version");
    (has_upgrade_websocket && has_connection_upgrade) || has_sec_websocket_pair
}

/// Whether some element of the list `value` is `expected`.
fn value_contains_token(value: &str, expected: &str) -> (r: bool)
    ensures
        r == lists_token(value@, expected@),
{
    let chars = text::chars_of(value);
    let parts = text::split_chars(chars.as_slice(), ',');
    let ghost all = text::split(value@, ',');
    let mut k: usize = 0;
    while k < parts.len()
        invariant
            k <= parts.len(),
            all == text::split(value@, ','),
            parts@.len() == all.len(),
            forall|j: int| 0 <= j < parts@.len() ==> (#[trigger] parts@[j])@ == all[j],
            forall|j: int|
                0 <= j < k ==> text::lower(text::trim(#[trigger] all[j])) != text::lower(expected@),
        decreases parts.len() - k,
    {
        proof {
            assert(parts@[k as int]@ == all[k as int]);
        }
        let token = text::string_of(text::trim_chars(parts[k].as_slice()));
        if text::same_ignoring_case(token.as_str(), expected) {
            return true;
        }
        k += 1;
    }
    false
}

/// Whether a value under `name` lists the token `expected`.
fn header_values_contain_token(headers: &HeaderMap, name: &str, expected: &str) -> (r: bool)
    ensures
        r == some_lists_token(headers::header_values(*headers, name@), expected@),
{
    let values = headers::get_all(headers, name);
    let ghost all = headers::header_values(*headers, name@);
    proof {
        assert(headers::value_texts(values@).len() == values@.len());
    }
    let mut i: usize = 0;
    while i < values.len()
        invariant
            i <= values.len(),
            all == headers::header_values(*headers, name@),
            all == headers::value_texts(values@),
            all.len() == values@.len(),
            forall|j: int|
                0 <= j < i ==> !((#[trigger] all[j]) is Some && lists_token(all[j]->0, expected@)),
        decreases values.len() - i,
    {
        proof {
            assert(all[i as int] == text::opt(values@[i as int]));
        }
        if let Some(value) = &values[i] {
            if value_contains_token(value.as_str(), expected) {
                return true;
            }
        }
        i += 1;
    }
    false
}

/// An element counts wherever it stands in a list: a list with another behind it
/// holds what either holds, and one element is held without regard to the space
/// around it and to case.
pub proof fn law_every_element_counts(a: Seq<char>, b: Seq<char>, expected: Seq<char>)
    ensures
        lists_token(a.push(',') + b, expected) <==> lists_token(a, expected) || lists_token(b, expected),
        !a.contains(',') ==> (lists_token(a, expected) <==> text::lower(text::trim(a)) == text::lower(expected)),
{
    let s = a.push(',') + b;
    let (x, y) = (text::split(a, ','), text::split(b, ','));
    text::law_split_goes_piece_by_piece(a, ',', b);
    let low = text::lower(expected);
    if lists_token(s, expected) {
        let k = choose|k: int| 0 <= k < text::split(s, ',').len() && text::lower(
            text::trim(#[trigger] text::split(s, ',')[k]),
        ) == low;
        if k < x.len() {
            assert(text::lower(text::trim(text::split(a, ',')[k])) == low);
        } else {
            assert(text::lower(text::trim(text::split(b, ',')[k - x.len()])) == low);
        }
    }
    if lists_token(a, expected) {
        let k = choose|k: int| 0 <= k < x.len() && text::lower(text::trim(#[trigger] text::split(a, ',')[k])) == low;
        assert(text::split(s, ',')[k] == x[k]);
    }
    if lists_token(b, expected) {
        let k = choose|k: int| 0 <= k < y.len() && text::lower(text::trim(#[trigger] text::split(b, ',')[k])) == low;
        assert(text::split(s, ',')[x.len() + k] == y[k]);
    }
    if !a.contains(',') {
        assert(text::split(a, ',')[0] == a);
    }
}

/// A handshake is told by the two pairs of headers alone. Of a header that is sent
/// more than once, every value counts.
pub proof fn law_what_tells_a_handshake(headers: HeaderMap)
    ensures
        websocket_upgrade(headers) <==> {
            ||| {
                &&& exists|i: int|
                    0 <= i < headers::header_values(headers, "upgrade"@).len() && (
                    #[trigger] headers::header_values(headers, "upgrade"@)[i] matches Some(v) && lists_token(
                        v,
                        "websocket"@,
                    ))
                &&& exists|i: int|
                    0 <= i < headers::header_values(headers, "connection"@).len() && (
                    #[trigger] headers::header_values(headers, "connection"@)[i] matches Some(v) && lists_token(
                        v,
                        "upgrade"@,
                    ))
            }
            ||| {
                &&& headers::header_values(headers, "sec-websocket-key"@).len() > 0
                &&& headers::header_values(headers, "sec-websocket-version"@).len() > 0
            }
        },
{
}

} // verus!
