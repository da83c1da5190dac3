//! JSON texts of strings and lists of strings.
use vstd::prelude::*;
use crate::text;

verus! {

/// How a character is written inside a JSON string.
pub open spec fn json_char(c: char) -> Seq<char> {
    if c == '"' {
        seq!['\\', '"']
    } else if c == '\\' {
        seq!['\\', '\\']
    } else if c as u32 == 0x08 {
        seq!['\\', 'b']
    } else if c as u32 == 0x09 {
        seq!['\\', 't']
    } else if c as u32 == 0x0a {
        seq!['\\', 'n']
    } else if c as u32 == 0x0c {
        seq!['\\', 'f']
    } else if c as u32 == 0x0d {
        seq!['\\', 'r']
    } else if (c as u32) < 0x20 {
        seq!['\\', 'u', '0', '0'] + text::hex(c as nat, 2)
    } else {
        seq![c]
    }
}

/// How a text is written inside a JSON string.
pub open spec fn json_body(s: Seq<char>) -> Seq<char>
    decreases s.len(),
{
    if s.len() == 0 {
        Seq::empty()
    } else {
        json_char(s[0]) + json_body(s.skip(1))
    }
}

/// The JSON string for a text.
pub open spec fn json_string(s: Seq<char>) -> Seq<char> {
    seq!['"'] + json_body(s) + seq!['"']
}

/// The JSON strings for a list of texts.
pub open spec fn json_strings(list: Seq<Seq<char>>) -> Seq<Seq<char>> {
    Seq::new(list.len(), |i: int| json_string(list[i]))
}

/// The JSON array for a list of texts.
pub open spec fn json_list(list: Seq<Seq<char>>) -> Seq<char> {
    seq!['['] + text::join(json_strings(list), ","@) + seq![']']
}

/// The list of texts that a JSON text is, where it is one.
pub uninterp spec fn json_list_parsed(raw: Seq<char>) -> Option<Seq<Seq<char>>>;

/// `serde_json::to_string` of a string: the JSON string for it.
#[verifier::external_body]
pub(crate) fn json_str(s: &str) -> (r: String)
    ensures
        r@ == json_string(s@),
{
    serde_json::to_string(s).unwrap()
}

/// `serde_json::to_string` of a list of strings: the JSON array for it, from which
/// the list is read back.
#[verifier::external_body]
pub(crate) fn encode_list(list: &Vec<String>) -> (r: String)
    ensures
        r@ == json_list(text::texts(list@)),
        json_list_parsed(r@) == Some(text::texts(list@)),
{
    serde_json::to_string(list).unwrap()
}

/// `serde_json::from_str` to a list of strings: the list, or `None` where the
/// text is no JSON array of strings.
#[verifier::external_body]
pub(crate) fn decode_list(raw: &str) -> (r: Option<Vec<String>>)
    ensures
        match r {
            Some(list) => json_list_parsed(raw@) == Some(text::texts(list@)),
            None => json_list_parsed(raw@) is None,
        },
{
    serde_json::from_str::<Vec<String>>(raw).ok()
}

/// The text in a field of a JSON object: `None` where the bytes are no JSON, and
/// no text where there is no such field or it holds no string.
pub uninterp spec fn json_text_field(bytes: Seq<u8>, field: Seq<char>) -> Option<Option<Seq<char>>>;

/// `serde_json::from_slice` to a JSON value, and the string that the value holds
/// under a field.
#[verifier::external_body]
pub(crate) fn text_field(bytes: &[u8], field: &str) -> (r: Option<Option<String>>)
    ensures
        match r {
            Some(value) => json_text_field(bytes@, field@) == Some(text::opt(value)),
            None => json_text_field(bytes@, field@) is None,
        },
{
    let value: serde_json::Value = serde_json::from_slice(bytes).ok()?;
    Some(value[field].as_str().map(|s| s.to_string()))
}

/// A JSON string holds no control characters: it stays on its line.
pub proof fn law_json_string_has_no_control_characters(s: Seq<char>, i: int)
    requires
        0 <= i < json_string(s).len(),
    ensures
        json_string(s)[i] as u32 >= 0x20,
{
    if 0 < i < json_string(s).len() - 1 {
        assert(json_string(s)[i] == json_body(s)[i - 1]);
        lemma_body_has_no_control_characters(s, i - 1);
    }
}

proof fn lemma_body_has_no_control_characters(s: Seq<char>, i: int)
    requires
        0 <= i < json_body(s).len(),
    ensures
        json_body(s)[i] as u32 >= 0x20,
    decreases s.len(),
{
    if s.len() > 0 {
        let head = json_char(s[0]);
        reveal_with_fuel(text::hex, 3);
        if i < head.len() {
            assert(json_body(s)[i] == head[i]);
        } else {
            assert(json_body(s)[i] == json_body(s.skip(1))[i - head.len()]);
            lemma_body_has_no_control_characters(s.skip(1), i - head.len());
        }
    }
}

/// Different texts have different JSON strings.
pub proof fn law_json_string_tells_texts_apart(a: Seq<char>, b: Seq<char>)
    requires
        json_string(a) == json_string(b),
    ensures
        a == b,
{
    assert(json_body(a) =~= json_string(a).subrange(1, json_string(a).len() - 1));
    assert(json_body(b) =~= json_string(b).subrange(1, json_string(b).len() - 1));
    lemma_body_injective(a, b);
}

proof fn lemma_body_injective(a: Seq<char>, b: Seq<char>)
    requires
        json_body(a) == json_body(b),
    ensures
        a == b,
    decreases a.len(),
{
    if a.len() == 0 {
        if b.len() > 0 {
            assert(json_body(b).len() >= json_char(b[0]).len() >= 1);
        }
        assert(a =~= b);
    } else {
        assert(json_body(a).len() >= json_char(a[0]).len() >= 1);
        assert(b.len() > 0);
        lemma_char_prefix(a[0], json_body(a.skip(1)), b[0], json_body(b.skip(1)));
        let head = json_char(a[0]);
        assert(json_body(a.skip(1)) =~= json_body(a).skip(head.len() as int));
        assert(json_body(b.skip(1)) =~= json_body(b).skip(head.len() as int));
        lemma_body_injective(a.skip(1), b.skip(1));
        assert(a =~= seq![a[0]] + a.skip(1));
        assert(b =~= seq![b[0]] + b.skip(1));
    }
}

/// No character's code is the beginning of another's.
proof fn lemma_char_prefix(c: char, x: Seq<char>, d: char, y: Seq<char>)
    requires
        json_char(c) + x == json_char(d) + y,
    ensures
        c == d,
{
    let l = json_char(c) + x;
    let r = json_char(d) + y;
    reveal_with_fuel(text::hex, 3);
    assert(l[0] == json_char(c)[0] && r[0] == json_char(d)[0]);
    if json_char(c).len() > 1 && json_char(d).len() > 1 {
        assert(l[1] == json_char(c)[1] && r[1] == json_char(d)[1]);
        if l[1] == 'u' {
            assert(l[4] == json_char(c)[4] && r[4] == json_char(d)[4]);
            assert(l[5] == json_char(c)[5] && r[5] == json_char(d)[5]);
        }
    }
}

/// A text is written character by character, between quotes. Quotes, backslashes
/// and control characters are escaped; every other character stands for itself.
pub proof fn law_json_goes_character_by_character(a: Seq<char>, b: Seq<char>, c: char)
    ensures
        json_string(a) == seq!['"'] + json_body(a) + seq!['"'],
        json_body(a + b) == json_body(a) + json_body(b),
        c as u32 >= 0x20 && c != '"' && c != '\\' ==> json_body(seq![c]) == seq![c],
        json_body(seq!['"']) == seq!['\\', '"'],
        json_body(seq!['\\']) == seq!['\\', '\\'],
        json_body(seq!['\n']) == seq!['\\', 'n'],
        json_body(seq!['\r']) == seq!['\\', 'r'],
        json_body(seq!['\t']) == seq!['\\', 't'],
        json_body(seq!['\u{8}']) == seq!['\\', 'b'],
        json_body(seq!['\u{c}']) == seq!['\\', 'f'],
        (c < '\u{8}' || c == '\u{b}' || '\u{e}' <= c <= '\u{1f}') ==> json_body(seq![c]) == seq![
            '\\',
            'u',
            '0',
            '0',
        ] + text::hex(c as nat, 2),
    decreases a.len(),
{
    if a.len() == 0 {
        assert(a + b =~= b);
        assert(json_body(a) + json_body(b) =~= json_body(b));
    } else {
        law_json_goes_character_by_character(a.skip(1), b, c);
        assert((a + b).skip(1) =~= a.skip(1) + b);
        assert((a + b)[0] == a[0]);
        assert(json_body(a + b) =~= json_body(a) + json_body(b));
    }
    lemma_body_of_one(c);
    lemma_body_of_one('"');
    lemma_body_of_one('\\');
    lemma_body_of_one('\n');
    lemma_body_of_one('\r');
    lemma_body_of_one('\t');
    lemma_body_of_one('\u{8}');
    lemma_body_of_one('\u{c}');
}

proof fn lemma_body_of_one(c: char)
    ensures
        json_body(seq![c]) == json_char(c),
{
    reveal_with_fuel(json_body, 2);
    assert(seq![c].skip(1) =~= Seq::empty());
    assert(json_body(seq![c]) =~= json_char(c));
}

/// A list is written text by text, between brackets, with commas.
pub proof fn law_json_list_goes_text_by_text(list: Seq<Seq<char>>, s: Seq<char>)
    ensures
        json_list(Seq::empty()) == "[]"@,
        json_list(seq![s]) == "["@ + json_string(s) + "]"@,
        list.len() > 0 ==> json_list(list.push(s)) == json_list(list).drop_last() + ","@ + json_string(s) + "]"@,
{
    reveal_strlit("[]");
    reveal_strlit("[");
    reveal_strlit("]");
    let one = json_strings(seq![s]);
    assert(one =~= seq![json_string(s)]);
    assert(json_strings(Seq::empty()) =~= Seq::<Seq<char>>::empty());
    assert(json_list(Seq::empty()) =~= "[]"@);
    assert(json_list(seq![s]) =~= "["@ + json_string(s) + "]"@);
    if list.len() > 0 {
        let all = json_strings(list.push(s));
        assert(all.drop_last() =~= json_strings(list));
        assert(all.last() == json_string(s));
        assert(json_list(list.push(s)) =~= json_list(list).drop_last() + ","@ + json_string(s) + "]"@);
    }
}

} // verus!
