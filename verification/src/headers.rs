//! HTTP header maps, as the rest of the crate reads and fills them.
//!
//! `http::HeaderMap` is kept as it is: Verus sees it as an opaque value whose
//! contents have a name, [`header_entries`], and every method used here has a
//! wrapper that says over that name what the method does.
use vstd::prelude::*;
use crate::text;

verus! {

/// `http::HeaderMap`, opaque.
#[verifier::external_type_specification]
#[verifier::external_body]
#[verifier::reject_recursive_types(T)]
pub struct ExHeaderMap<T>(http::HeaderMap<T>);

/// `http::HeaderValue`, opaque: the value type of a header map.
#[verifier::external_type_specification]
#[verifier::external_body]
pub struct ExHeaderValue(http::HeaderValue);

/// One header line: its name in lower case, and the text of its value, where
/// the value consists of visible ASCII characters, spaces and tabs.
pub type Entry = (Seq<char>, Option<Seq<char>>);

/// What a header map holds, in the order in which it is walked: one entry per
/// value, the values of one name in the order in which they were added.
pub uninterp spec fn header_entries(map: http::HeaderMap) -> Seq<(Seq<char>, Option<Seq<char>>)>;

/// The values that `entries` holds under `name`, in order.
pub open spec fn values_under(entries: Seq<Entry>, name: Seq<char>) -> Seq<Option<Seq<char>>>
    decreases entries.len(),
{
    if entries.len() == 0 {
        Seq::empty()
    } else if entries.last().0 == name {
        values_under(entries.drop_last(), name).push(entries.last().1)
    } else {
        values_under(entries.drop_last(), name)
    }
}

/// The values that a header map holds under `name`, in order. The ASCII case of
/// the name does not matter.
pub open spec fn held_values(map: http::HeaderMap, name: Seq<char>) -> Seq<Option<Seq<char>>> {
    values_under(header_entries(map), text::lower(name))
}

/// The values that a lookup of `name` finds in a header map, in order. What is no
/// header name is not found, also where the map holds it: the names that came by
/// HTTP/2 may hold a double quote.
pub open spec fn header_values(map: http::HeaderMap, name: Seq<char>) -> Seq<Option<Seq<char>>> {
    if is_name(name) {
        held_values(map, name)
    } else {
        Seq::empty()
    }
}

/// The text of the first value under `name`, where there is one and it has a
/// text.
pub open spec fn header_text(map: http::HeaderMap, name: Seq<char>) -> Option<Seq<char>> {
    let values = header_values(map, name);
    if values.len() > 0 {
        values[0]
    } else {
        None
    }
}

/// The texts of a list of values.
pub open spec fn value_texts(v: Seq<Option<String>>) -> Seq<Option<Seq<char>>> {
    Seq::new(v.len(), |i: int| text::opt(v[i]))
}

/// The entries that a list of names and values stands for.
pub open spec fn entry_texts(v: Seq<(String, Option<String>)>) -> Seq<Entry> {
    Seq::new(v.len(), |i: int| (v[i].0@, text::opt(v[i].1)))
}

/// Whether `c` may stand in a header name.
pub open spec fn name_char(c: char) -> bool {
    ||| 'a' <= c <= 'z'
    ||| 'A' <= c <= 'Z'
    ||| '0' <= c <= '9'
    ||| c == '!'
    ||| '#' <= c <= '\''
    ||| c == '*'
    ||| c == '+'
    ||| c == '-'
    ||| c == '.'
    ||| c == '^'
    ||| c == '_'
    ||| c == '`'
    ||| c == '|'
    ||| c == '~'
}

/// What holds of every entry of a header map: its name is in lower case, and the
/// text of its value is visible. The name need not be one that [`is_name`] accepts.
pub open spec fn is_entry(e: Entry) -> bool {
    text::lower(e.0) == e.0 && (e.1 is Some ==> is_visible(e.1->0))
}

/// Whether that holds of all entries.
pub open spec fn well_formed(entries: Seq<Entry>) -> bool {
    forall|i: int| 0 <= i < entries.len() ==> is_entry(#[trigger] entries[i])
}

/// The greatest length of a header name.
pub const MAX_NAME_LEN: usize = 65535;

/// Whether `s` is a header name that can be looked up and added.
pub open spec fn is_name(s: Seq<char>) -> bool {
    0 < s.len() <= MAX_NAME_LEN && forall|i: int| 0 <= i < s.len() ==> name_char(#[trigger] s[i])
}

/// Whether `s` can be a header value: no control character but the tab.
pub open spec fn is_value(s: Seq<char>) -> bool {
    forall|i: int|
        0 <= i < s.len() ==> ((#[trigger] s[i]) as u32 >= 32 && s[i] as u32 != 127) || s[i] == '\t'
}

/// Whether `s` reads back as text: visible ASCII, spaces and tabs only.
pub open spec fn is_visible(s: Seq<char>) -> bool {
    forall|i: int| 0 <= i < s.len() ==> 32 <= (#[trigger] s[i]) as u32 <= 126 || s[i] == '\t'
}

/// The ASCII case does not matter to whether a text is a header name.
pub proof fn lemma_lower_name(s: Seq<char>)
    ensures
        is_name(text::lower(s)) <==> is_name(s),
{
    let low = text::lower(s);
    assert forall|i: int| 0 <= i < s.len() implies name_char(#[trigger] low[i]) == name_char(s[i]) by {}
    if is_name(low) {
        assert forall|i: int| 0 <= i < s.len() implies name_char(#[trigger] s[i]) by {
            assert(name_char(low[i]));
        }
    }
}

/// The value of an entry is among those under its name.
pub proof fn lemma_value_is_under_its_name(entries: Seq<Entry>, i: int)
    requires
        0 <= i < entries.len(),
    ensures
        values_under(entries, entries[i].0).contains(entries[i].1),
    decreases entries.len(),
{
    let rest = entries.drop_last();
    let all = values_under(entries, entries[i].0);
    if i < rest.len() {
        lemma_value_is_under_its_name(rest, i);
        let under = values_under(rest, entries[i].0);
        let k = choose|k: int| 0 <= k < under.len() && under[k] == entries[i].1;
        assert(all[k] == entries[i].1);
    } else {
        assert(all.last() == entries[i].1);
    }
}

/// What a header map keeps of the value `s`.
pub open spec fn stored_value(s: Seq<char>) -> Option<Seq<char>> {
    if is_visible(s) {
        Some(s)
    } else {
        None
    }
}

/// As many entries as a header map always has room for one more beside.
pub const ALWAYS_ROOM: usize = 6553;

/// `http::HeaderMap::get_all`, each value given as the text that
/// `HeaderValue::to_str` makes of it. The name is looked up without regard to
/// ASCII case, and nothing is found under a text that is no header name; the values
/// come in the order in which the map holds them.
#[verifier::external_body]
pub(crate) fn get_all(map: &http::HeaderMap, name: &str) -> (r: Vec<Option<String>>)
    ensures
        value_texts(r@) == header_values(*map, name@),
{
    map.get_all(name).iter().map(|v| v.to_str().ok().map(|s| s.to_string())).collect()
}

/// `http::HeaderMap::iter`, each entry given as the name that `HeaderName::as_str`
/// writes, in lower case, and the text that `HeaderValue::to_str` makes of the
/// value, which is visible ASCII, spaces and tabs.
#[verifier::external_body]
pub(crate) fn entries(map: &http::HeaderMap) -> (r: Vec<(String, Option<String>)>)
    ensures
        entry_texts(r@) == header_entries(*map),
        well_formed(entry_texts(r@)),
{
    map.iter().map(|(n, v)| (n.as_str().to_string(), v.to_str().ok().map(|s| s.to_string()))).collect()
}

/// `http::HeaderMap::new`: a map without entries.
#[verifier::external_body]
pub(crate) fn empty_map() -> (r: http::HeaderMap)
    ensures
        header_entries(r) == Seq::<Entry>::empty(),
{
    http::HeaderMap::new()
}

/// `Clone::clone` of an `http::HeaderMap`: a map with the same entries.
#[verifier::external_body]
pub(crate) fn copy_map(map: &http::HeaderMap) -> (r: http::HeaderMap)
    ensures
        header_entries(r) == header_entries(*map),
{
    map.clone()
}

/// `http::HeaderMap::remove`: the values under a header name go, whatever the ASCII
/// case it is written in, and those under other names stay. A text that is no
/// header name takes nothing away.
#[verifier::external_body]
pub(crate) fn remove_all(map: &mut http::HeaderMap, name: &str)
    ensures
        forall|n: Seq<char>|
            #[trigger] held_values(*final(map), n) == if is_name(name@) && text::lower(n) == text::lower(name@) {
                Seq::empty()
            } else {
                held_values(*old(map), n)
            },
        header_entries(*final(map)).len() <= header_entries(*old(map)).len(),
{
    map.remove(name);
}

/// `http::HeaderName::from_bytes`: gives the name in lower case where the text
/// is a header name, and an error where it is not.
#[verifier::external_body]
pub(crate) fn parse_name(name: &str) -> (r: Option<String>)
    ensures
        text::opt(r) == if is_name(name@) {
            Some(text::lower(name@))
        } else {
            None
        },
{
    http::HeaderName::from_bytes(name.as_bytes()).ok().map(|n| n.as_str().to_string())
}

/// `http::HeaderValue::from_str` succeeds where the text can be a header value.
#[verifier::external_body]
pub(crate) fn accepts_value(value: &str) -> (r: bool)
    ensures
        r == is_value(value@),
{
    http::HeaderValue::from_str(value).is_ok()
}

/// `http::HeaderMap::try_append`: adds the value behind those that the map
/// already holds under the name. It gives up, and leaves the entries as they
/// are, where the map cannot grow; up to [`ALWAYS_ROOM`] entries it can.
#[verifier::external_body]
pub(crate) fn try_append(map: &mut http::HeaderMap, name: &str, value: &str) -> (r: bool)
    requires
        is_name(name@),
        is_value(value@),
    ensures
        header_entries(*old(map)).len() <= ALWAYS_ROOM ==> r,
        r ==> header_entries(*final(map)).len() == header_entries(*old(map)).len() + 1,
        r ==> forall|n: Seq<char>|
            #[trigger] held_values(*final(map), n) == if text::lower(n) == text::lower(name@) {
                held_values(*old(map), n).push(stored_value(value@))
            } else {
                held_values(*old(map), n)
            },
        !r ==> header_entries(*final(map)) == header_entries(*old(map)),
{
    let n = http::HeaderName::from_bytes(name.as_bytes()).unwrap();
    let v = http::HeaderValue::from_str(value).unwrap();
    map.try_append(n, v).is_ok()
}

/// `http::HeaderMap::try_insert`: the value takes the place of all that the map
/// holds under the name. It gives up, and leaves the entries as they are, where
/// the map cannot grow; up to [`ALWAYS_ROOM`] entries it can.
#[verifier::external_body]
pub(crate) fn try_insert(map: &mut http::HeaderMap, name: &str, value: &str) -> (r: bool)
    requires
        is_name(name@),
        is_value(value@),
    ensures
        header_entries(*old(map)).len() <= ALWAYS_ROOM ==> r,
        r ==> header_entries(*final(map)).len() <= header_entries(*old(map)).len() + 1,
        r ==> forall|n: Seq<char>|
            #[trigger] held_values(*final(map), n) == if text::lower(n) == text::lower(name@) {
                seq![stored_value(value@)]
            } else {
                held_values(*old(map), n)
            },
        !r ==> header_entries(*final(map)) == header_entries(*old(map)),
{
    let n = http::HeaderName::from_bytes(name.as_bytes()).unwrap();
    let v = http::HeaderValue::from_str(value).unwrap();
    map.try_insert(n, v).is_ok()
}

/// Whether the map holds a value under `name`.
pub fn has_header(map: &http::HeaderMap, name: &str) -> (r: bool)
    ensures
        r == (header_values(*map, name@).len() > 0),
{
    let values = get_all(map, name);
    proof {
        assert(value_texts(values@).len() == values@.len());
    }
    values.len() > 0
}

/// The text of the first value under `name`.
pub fn first_text(map: &http::HeaderMap, name: &str) -> (r: Option<String>)
    ensures
        text::opt(r) == header_text(*map, name@),
{
    let values = get_all(map, name);
    proof {
        assert(value_texts(values@).len() == values@.len());
    }
    if values.len() > 0 {
        proof {
            assert(value_texts(values@)[0] == text::opt(values@[0]));
        }
        text::copy_opt(&values[0])
    } else {
        None
    }
}

// ---------------------------------------------------------------------------
// What holds of headers.

/// The values under a name are those of all entries with that name, in order.
pub proof fn law_every_entry_counts_under_its_name(a: Seq<Entry>, b: Seq<Entry>, name: Seq<char>)
    ensures
        values_under(a + b, name) == values_under(a, name) + values_under(b, name),
        a.len() == 1 && a[0].0 == name ==> values_under(a, name) == seq![a[0].1],
        a.len() == 1 && a[0].0 != name ==> values_under(a, name).len() == 0,
    decreases b.len(),
{
    if b.len() == 0 {
        assert(a + b =~= a);
        assert(values_under(a, name) + values_under(b, name) =~= values_under(a, name));
    } else {
        law_every_entry_counts_under_its_name(a, b.drop_last(), name);
        assert((a + b).drop_last() =~= a + b.drop_last());
        assert((a + b).last() == b.last());
        assert(values_under(a + b, name) =~= values_under(a, name) + values_under(b, name));
    }
    if a.len() == 1 {
        reveal_with_fuel(values_under, 2);
        assert(a.drop_last() =~= Seq::empty());
        assert(a.last() == a[0]);
        assert(values_under(a.drop_last(), name) =~= Seq::empty());
        if a[0].0 == name {
            assert(values_under(a, name) =~= seq![a[0].1]);
        }
    }
}

/// A header is found under its name in any case, and its text is that of the first
/// value, where that has one.
pub proof fn law_header_is_found_in_any_case(map: http::HeaderMap, name: Seq<char>)
    ensures
        is_name(name) ==> header_values(map, name) == values_under(header_entries(map), text::lower(name)),
        header_values(map, text::lower(name)) == header_values(map, name),
        header_values(map, name).len() == 0 ==> header_text(map, name) is None,
        header_values(map, name).len() > 0 ==> header_text(map, name) == header_values(map, name)[0],
{
    text::lemma_lower_idempotent(name);
    lemma_lower_name(name);
}

/// A header name consists of letters, digits and some marks, at least one and not
/// too many.
pub proof fn law_what_a_header_name_is(s: Seq<char>)
    ensures
        is_name(s) <==> 0 < s.len() <= 65535 && forall|i: int|
            0 <= i < s.len() ==> {
                let c = #[trigger] s[i];
                'a' <= c <= 'z' || 'A' <= c <= 'Z' || '0' <= c <= '9' || c == '!' || c == '#' || c == '$' || c == '%'
                    || c == '&' || c == '\'' || c == '*' || c == '+' || c == '-' || c == '.' || c == '^' || c == '_'
                    || c == '`' || c == '|' || c == '~'
            },
{
    if is_name(s) {
        assert forall|i: int| 0 <= i < s.len() implies {
            let c = #[trigger] s[i];
            'a' <= c <= 'z' || 'A' <= c <= 'Z' || '0' <= c <= '9' || c == '!' || c == '#' || c == '$' || c == '%' || c
                == '&' || c == '\'' || c == '*' || c == '+' || c == '-' || c == '.' || c == '^' || c == '_' || c
                == '`' || c == '|' || c == '~'
        } by {
            assert(name_char(s[i]));
        }
    }
}

/// A header value holds no control character but the tab, and reads back where it
/// is ASCII.
pub proof fn law_what_a_header_value_is(s: Seq<char>)
    ensures
        is_value(s) <==> forall|i: int| 0 <= i < s.len() ==> (#[trigger] s[i]) == '\t' || (s[i] >= ' ' && s[i]
            != '\u{7f}'),
        (forall|i: int| 0 <= i < s.len() ==> (#[trigger] s[i]) == '\t' || ' ' <= s[i] <= '~') ==> stored_value(s)
            == Some(s),
        (exists|i: int| 0 <= i < s.len() && (#[trigger] s[i]) != '\t' && !(' ' <= s[i] <= '~')) ==> stored_value(
            s,
        ) is None,
{
    if is_value(s) {
        assert forall|i: int| 0 <= i < s.len() implies (#[trigger] s[i]) == '\t' || (s[i] >= ' ' && s[i]
            != '\u{7f}') by {
            lemma_value_character(s[i]);
        }
    } else {
        let i = choose|i: int|
            0 <= i < s.len() && !(((#[trigger] s[i]) as u32 >= 32 && s[i] as u32 != 127) || s[i] == '\t');
        lemma_value_character(s[i]);
    }
    if is_visible(s) {
        assert forall|i: int| 0 <= i < s.len() implies (#[trigger] s[i]) == '\t' || ' ' <= s[i] <= '~' by {
            lemma_value_character(s[i]);
        }
    } else {
        let i = choose|i: int| 0 <= i < s.len() && !(32 <= (#[trigger] s[i]) as u32 <= 126 || s[i] == '\t');
        lemma_value_character(s[i]);
    }
}

proof fn lemma_value_character(c: char)
    ensures
        (c as u32 >= 32 && c as u32 != 127) <==> (c >= ' ' && c != '\u{7f}'),
        32 <= c as u32 <= 126 <==> ' ' <= c <= '~',
{
}

} // verus!
