//! Text as a sequence of characters: the vocabulary the contracts of this
//! crate are written in, and the executable functions that compute it.
use vstd::prelude::*;
use vstd::slice::slice_subrange;

verus! {

/// `String::push` appends the given character to the end of the string.
pub assume_specification[ String::push ](s: &mut String, c: char)
    ensures
        final(s)@ == old(s)@.push(c),
;

// ---------------------------------------------------------------------------
// Views of the compound values that cross function boundaries.

/// The text of an optional string.
pub open spec fn opt(o: Option<String>) -> Option<Seq<char>> {
    match o {
        Some(s) => Some(s@),
        None => None,
    }
}

/// The text of an optional string slice.
pub open spec fn opt_str(o: Option<&str>) -> Option<Seq<char>> {
    match o {
        Some(s) => Some(s@),
        None => None,
    }
}

/// The texts of a list of strings.
pub open spec fn texts(v: Seq<String>) -> Seq<Seq<char>> {
    Seq::new(v.len(), |i: int| v[i]@)
}

/// The texts of a list of pairs.
pub open spec fn pairs(v: Seq<(String, String)>) -> Seq<(Seq<char>, Seq<char>)> {
    Seq::new(v.len(), |i: int| (v[i].0@, v[i].1@))
}

// ---------------------------------------------------------------------------
// Characters.

/// The Unicode White_Space property.
pub open spec fn white_space(c: char) -> bool {
    ||| 0x09 <= c as u32 <= 0x0d
    ||| c as u32 == 0x20
    ||| c as u32 == 0x85
    ||| c as u32 == 0xa0
    ||| c as u32 == 0x1680
    ||| 0x2000 <= c as u32 <= 0x200a
    ||| c as u32 == 0x2028
    ||| c as u32 == 0x2029
    ||| c as u32 == 0x202f
    ||| c as u32 == 0x205f
    ||| c as u32 == 0x3000
}

/// The ASCII lower-case form of a character: `A` to `Z` become `a` to `z`,
/// every other character is its own lower-case form.
pub open spec fn lower_char(c: char) -> char {
    if 'A' <= c <= 'Z' {
        (c as u32 + 32) as char
    } else {
        c
    }
}

/// Whether `c` is a decimal digit.
pub open spec fn is_digit(c: char) -> bool {
    '0' <= c <= '9'
}

pub fn is_white_space(c: char) -> (r: bool)
    ensures
        r == white_space(c),
{
    let n: u32 = c as u32;
    (0x09 <= n && n <= 0x0d) || n == 0x20 || n == 0x85 || n == 0xa0 || n == 0x1680 || (0x2000 <= n
        && n <= 0x200a) || n == 0x2028 || n == 0x2029 || n == 0x202f || n == 0x205f || n == 0x3000
}

pub fn to_lower_char(c: char) -> (r: char)
    ensures
        r == lower_char(c),
{
    if 'A' <= c && c <= 'Z' {
        (c as u8 + 32) as char
    } else {
        c
    }
}

// ---------------------------------------------------------------------------
// Text: what the operations mean.

/// `s` in ASCII lower case.
pub open spec fn lower(s: Seq<char>) -> Seq<char> {
    Seq::new(s.len(), |i: int| lower_char(s[i]))
}

/// `s` without its leading white space.
pub open spec fn trim_start(s: Seq<char>) -> Seq<char>
    decreases s.len(),
{
    if s.len() > 0 && white_space(s[0]) {
        trim_start(s.skip(1))
    } else {
        s
    }
}

/// `s` without its trailing white space.
pub open spec fn trim_end(s: Seq<char>) -> Seq<char>
    decreases s.len(),
{
    if s.len() > 0 && white_space(s.last()) {
        trim_end(s.drop_last())
    } else {
        s
    }
}

/// `s` without the white space on either side.
pub open spec fn trim(s: Seq<char>) -> Seq<char> {
    trim_end(trim_start(s))
}

/// `s` without the characters `c` on either side.
pub open spec fn strip_char(s: Seq<char>, c: char) -> Seq<char>
    decreases s.len(),
{
    if s.len() > 0 && s[0] == c {
        strip_char(s.skip(1), c)
    } else if s.len() > 0 && s.last() == c {
        strip_char(s.drop_last(), c)
    } else {
        s
    }
}

/// The position of the first `c` in `s`; the length of `s` where there is none.
pub open spec fn first_index(s: Seq<char>, c: char) -> int
    decreases s.len(),
{
    if s.len() == 0 || s[0] == c {
        0
    } else {
        1 + first_index(s.skip(1), c)
    }
}

/// The position of the last `c` in `s`; `-1` where there is none.
pub open spec fn last_index(s: Seq<char>, c: char) -> int
    decreases s.len(),
{
    if s.len() == 0 {
        -1
    } else if s.last() == c {
        s.len() - 1
    } else {
        last_index(s.drop_last(), c)
    }
}

/// The pieces of `s` between the separators `c`.
pub open spec fn split(s: Seq<char>, c: char) -> Seq<Seq<char>>
    decreases s.len(),
{
    let i = first_index(s, c);
    if 0 <= i < s.len() {
        seq![s.take(i)] + split(s.skip(i + 1), c)
    } else {
        seq![s]
    }
}

/// The text before and after the first `c`, where there is one.
pub open spec fn split_once(s: Seq<char>, c: char) -> Option<(Seq<char>, Seq<char>)> {
    let i = first_index(s, c);
    if i < s.len() {
        Some((s.take(i), s.skip(i + 1)))
    } else {
        None
    }
}

/// The position of the first white space in `s`; the length of `s` where there is
/// none.
pub open spec fn first_space(s: Seq<char>) -> int
    decreases s.len(),
{
    if s.len() == 0 || white_space(s[0]) {
        0
    } else {
        1 + first_space(s.skip(1))
    }
}

/// A line without the carriage return at its end.
pub open spec fn without_cr(line: Seq<char>) -> Seq<char> {
    if line.len() > 0 && line.last() == '\r' {
        line.drop_last()
    } else {
        line
    }
}

/// The lines of a text, each ended by a line feed, or by a carriage return and a
/// line feed; the last need not be ended.
pub open spec fn lines(s: Seq<char>) -> Seq<Seq<char>>
    decreases s.len(),
{
    let i = first_index(s, '\n');
    if s.len() == 0 {
        Seq::empty()
    } else if 0 <= i < s.len() {
        seq![without_cr(s.take(i))] + lines(s.skip(i + 1))
    } else {
        seq![s]
    }
}

/// Whether `s` begins with `p`.
pub open spec fn starts_with(s: Seq<char>, p: Seq<char>) -> bool {
    p.len() <= s.len() && s.take(p.len() as int) == p
}

/// Whether `s` ends with `p`.
pub open spec fn ends_with(s: Seq<char>, p: Seq<char>) -> bool {
    p.len() <= s.len() && s.skip(s.len() - p.len()) == p
}

/// Whether `p` stands in `s` at position `i`.
pub open spec fn occurs_at(s: Seq<char>, p: Seq<char>, i: int) -> bool {
    0 <= i && i + p.len() <= s.len() && s.subrange(i, i + p.len()) == p
}

/// Whether `p` stands somewhere in `s`.
pub open spec fn contains(s: Seq<char>, p: Seq<char>) -> bool {
    exists|i: int| #[trigger] occurs_at(s, p, i)
}

/// The decimal digits of `n`.
pub open spec fn decimal(n: nat) -> Seq<char>
    decreases n,
{
    if n < 10 {
        seq![('0' as u32 + n) as char]
    } else {
        decimal(n / 10).push(('0' as u32 + n % 10) as char)
    }
}

/// The digit for the value `d`, which is below 16.
pub open spec fn hex_digit(d: int) -> char {
    if d < 10 {
        ('0' as u32 + d) as char
    } else {
        ('a' as u32 + d - 10) as char
    }
}

/// The last `width` hexadecimal digits of `n`, in lower case.
pub open spec fn hex(n: nat, width: nat) -> Seq<char>
    decreases width,
{
    if width == 0 {
        Seq::empty()
    } else {
        hex(n / 16, (width - 1) as nat).push(hex_digit((n % 16) as int))
    }
}

/// Whether `s` consists of decimal digits, at least one.
pub open spec fn is_number(s: Seq<char>) -> bool {
    s.len() > 0 && forall|i: int| 0 <= i < s.len() ==> is_digit(#[trigger] s[i])
}

/// The value of a text of decimal digits.
pub open spec fn digits_value(s: Seq<char>) -> nat
    decreases s.len(),
{
    if s.len() == 0 {
        0
    } else {
        digits_value(s.drop_last()) * 10 + (s.last() as u32 - '0' as u32) as nat
    }
}

/// The number that a text writes in decimal, perhaps with a plus sign before it,
/// where it is one and is not above `max`.
pub open spec fn parsed_number(s: Seq<char>, max: nat) -> Option<nat> {
    let digits = if s.len() > 0 && s[0] == '+' {
        s.skip(1)
    } else {
        s
    };
    if is_number(digits) && digits_value(digits) <= max {
        Some(digits_value(digits))
    } else {
        None
    }
}

/// The texts one behind the other, with `sep` between them.
pub open spec fn join(parts: Seq<Seq<char>>, sep: Seq<char>) -> Seq<char>
    decreases parts.len(),
{
    if parts.len() == 0 {
        Seq::empty()
    } else if parts.len() == 1 {
        parts[0]
    } else {
        join(parts.drop_last(), sep) + sep + parts.last()
    }
}

/// Whether `a` comes before `b` in the order of a dictionary.
pub open spec fn before(a: Seq<char>, b: Seq<char>) -> bool
    decreases a.len(),
{
    if b.len() == 0 {
        false
    } else if a.len() == 0 {
        true
    } else if a[0] == b[0] {
        before(a.skip(1), b.skip(1))
    } else {
        a[0] < b[0]
    }
}

// ---------------------------------------------------------------------------
// Facts about these operations.

/// How many texts of `width` hexadecimal digits there are.
pub open spec fn hex_range(width: nat) -> nat
    decreases width,
{
    if width == 0 {
        1
    } else {
        16 * hex_range((width - 1) as nat)
    }
}

/// A text of `width` digits has that length.
pub proof fn lemma_hex_len(n: nat, width: nat)
    ensures
        hex(n, width).len() == width,
    decreases width,
{
    if width > 0 {
        lemma_hex_len(n / 16, (width - 1) as nat);
    }
}

/// Numbers that fit are told apart by their digits.
pub proof fn lemma_hex_injective(n: nat, m: nat, width: nat)
    requires
        n < hex_range(width),
        m < hex_range(width),
        hex(n, width) == hex(m, width),
    ensures
        n == m,
    decreases width,
{
    if width > 0 {
        let a = hex(n, width);
        let b = hex(m, width);
        let w = (width - 1) as nat;
        lemma_hex_len(n / 16, w);
        lemma_hex_len(m / 16, w);
        assert(a.last() == b.last());
        assert(hex_digit((n % 16) as int) == hex_digit((m % 16) as int));
        assert(a.drop_last() =~= hex(n / 16, w));
        assert(b.drop_last() =~= hex(m / 16, w));
        lemma_hex_injective(n / 16, m / 16, w);
    }
}

/// A number in decimal consists of digits.
pub proof fn lemma_decimal_is_number(n: nat)
    ensures
        is_number(decimal(n)),
    decreases n,
{
    if n >= 10 {
        lemma_decimal_is_number(n / 10);
        assert forall|i: int| 0 <= i < decimal(n).len() implies is_digit(#[trigger] decimal(n)[i]) by {
            if i < decimal(n).len() - 1 {
                assert(decimal(n)[i] == decimal(n / 10)[i]);
            }
        }
    }
}

/// The digits of a number have its value.
pub proof fn lemma_decimal_value(n: nat)
    ensures
        digits_value(decimal(n)) == n,
    decreases n,
{
    if n < 10 {
        reveal_with_fuel(digits_value, 2);
        assert(decimal(n).drop_last() =~= Seq::empty());
    } else {
        lemma_decimal_value(n / 10);
        assert(decimal(n).drop_last() =~= decimal(n / 10));
    }
}

/// Of two texts, one comes before the other, or they are the same.
pub proof fn lemma_before_total(a: Seq<char>, b: Seq<char>)
    ensures
        before(a, b) || before(b, a) || a == b,
        !(before(a, b) && before(b, a)),
        a == b ==> !before(a, b),
    decreases a.len(),
{
    if a.len() > 0 && b.len() > 0 && a[0] == b[0] {
        lemma_before_total(a.skip(1), b.skip(1));
        if a.skip(1) == b.skip(1) {
            assert(a =~= seq![a[0]] + a.skip(1));
            assert(b =~= seq![b[0]] + b.skip(1));
        }
    } else if a.len() == 0 && b.len() == 0 {
        assert(a =~= b);
    }
}

/// The order of texts is transitive.
pub proof fn lemma_before_transitive(a: Seq<char>, b: Seq<char>, c: Seq<char>)
    requires
        before(a, b),
        before(b, c),
    ensures
        before(a, c),
    decreases a.len(),
{
    if a.len() > 0 && a[0] == b[0] && b[0] == c[0] {
        lemma_before_transitive(a.skip(1), b.skip(1), c.skip(1));
    }
}

/// The first position is in range, holds `c` unless it is the length, and no
/// earlier position holds `c`.
pub proof fn lemma_first_index(s: Seq<char>, c: char)
    ensures
        0 <= first_index(s, c) <= s.len(),
        first_index(s, c) < s.len() ==> s[first_index(s, c)] == c,
        forall|j: int| 0 <= j < first_index(s, c) ==> s[j] != c,
    decreases s.len(),
{
    if s.len() > 0 && s[0] != c {
        lemma_first_index(s.skip(1), c);
        assert forall|j: int| 0 <= j < first_index(s, c) implies s[j] != c by {
            if j > 0 {
                assert(s.skip(1)[j - 1] == s[j]);
            }
        }
    }
}

/// A position with those three properties is the first position.
pub proof fn lemma_first_index_is(s: Seq<char>, c: char, i: int)
    requires
        0 <= i <= s.len(),
        i < s.len() ==> s[i] == c,
        forall|j: int| 0 <= j < i ==> s[j] != c,
    ensures
        first_index(s, c) == i,
{
    lemma_first_index(s, c);
    let k = first_index(s, c);
    if k < i {
        assert(s[k] != c);
    } else if i < k {
        assert(s[i] != c);
    }
}

/// The pieces between the `c` of a text hold no `c`.
pub proof fn lemma_split_pieces(s: Seq<char>, c: char)
    ensures
        split(s, c).len() > 0,
        forall|i: int| 0 <= i < split(s, c).len() ==> !(#[trigger] split(s, c)[i]).contains(c),
    decreases s.len(),
{
    let i = first_index(s, c);
    lemma_first_index(s, c);
    if i < s.len() {
        lemma_split_pieces(s.skip(i + 1), c);
        assert forall|k: int| 0 <= k < split(s, c).len() implies !(#[trigger] split(s, c)[k]).contains(c) by {
            if k > 0 {
                assert(split(s, c)[k] == split(s.skip(i + 1), c)[k - 1]);
            } else {
                assert(split(s, c)[k] == s.take(i));
            }
        }
    } else {
        assert(!s.contains(c));
    }
}

/// A piece without `c` that is set behind a text, with a `c` between them, is the
/// last piece of the whole.
pub proof fn lemma_split_push(a: Seq<char>, c: char, b: Seq<char>)
    requires
        !b.contains(c),
    ensures
        split(a.push(c) + b, c) == split(a, c).push(b),
    decreases a.len(),
{
    let s = a.push(c) + b;
    let i = first_index(a, c);
    lemma_first_index(a, c);
    assert forall|k: int| 0 <= k < i implies s[k] != c by {
        assert(s[k] == a[k]);
    }
    assert(s[i] == c);
    lemma_first_index_is(s, c, i);
    assert(s.take(i) =~= a.take(i));
    if i < a.len() {
        assert(s.skip(i + 1) =~= a.skip(i + 1).push(c) + b);
        lemma_split_push(a.skip(i + 1), c, b);
        assert(split(s, c) =~= split(a, c).push(b));
    } else {
        assert(s.skip(i + 1) =~= b);
        lemma_first_index(b, c);
        assert(split(b, c) =~= seq![b]);
        assert(a.take(i) =~= a);
        assert(split(s, c) =~= split(a, c).push(b));
    }
}

/// Pieces without `c` that are joined by `c` are the pieces of the whole.
pub proof fn lemma_split_join(pieces: Seq<Seq<char>>, c: char)
    requires
        pieces.len() > 0,
        forall|i: int| 0 <= i < pieces.len() ==> !(#[trigger] pieces[i]).contains(c),
    ensures
        split(join(pieces, seq![c]), c) == pieces,
    decreases pieces.len(),
{
    let last = pieces.last();
    assert(!pieces[pieces.len() - 1].contains(c));
    if pieces.len() == 1 {
        lemma_first_index(last, c);
        assert(pieces =~= seq![last]);
    } else {
        let rest = pieces.drop_last();
        assert forall|i: int| 0 <= i < rest.len() implies !(#[trigger] rest[i]).contains(c) by {
            assert(rest[i] == pieces[i]);
        }
        lemma_split_join(rest, c);
        lemma_split_push(join(rest, seq![c]), c, last);
        assert(join(pieces, seq![c]) =~= join(rest, seq![c]).push(c) + last);
        assert(split(join(pieces, seq![c]), c) =~= pieces);
    }
}

/// What is joined begins with its first piece.
pub proof fn lemma_join_begins(pieces: Seq<Seq<char>>, sep: Seq<char>)
    requires
        pieces.len() > 0,
    ensures
        join(pieces, sep).len() >= pieces[0].len(),
        join(pieces, sep).take(pieces[0].len() as int) == pieces[0],
    decreases pieces.len(),
{
    if pieces.len() > 1 {
        lemma_join_begins(pieces.drop_last(), sep);
        assert(join(pieces, sep).take(pieces[0].len() as int) =~= join(pieces.drop_last(), sep).take(
            pieces[0].len() as int,
        ));
    } else {
        assert(pieces[0].take(pieces[0].len() as int) =~= pieces[0]);
    }
}

/// The last position is in range, holds `c` unless it is `-1`, and no later
/// position holds `c`.
pub proof fn lemma_last_index(s: Seq<char>, c: char)
    ensures
        -1 <= last_index(s, c) < s.len(),
        last_index(s, c) >= 0 ==> s[last_index(s, c)] == c,
        forall|j: int| last_index(s, c) < j < s.len() ==> s[j] != c,
    decreases s.len(),
{
    if s.len() > 0 && s.last() != c {
        lemma_last_index(s.drop_last(), c);
        assert forall|j: int| last_index(s, c) < j < s.len() implies s[j] != c by {
            if j < s.len() - 1 {
                assert(s.drop_last()[j] == s[j]);
            }
        }
    }
}

/// Text without leading white space is left as it is.
pub proof fn lemma_trim_start_fixed(s: Seq<char>)
    ensures
        trim_start(s).len() <= s.len(),
        trim_start(s).len() > 0 ==> !white_space(trim_start(s)[0]),
        trim_start(trim_start(s)) == trim_start(s),
    decreases s.len(),
{
    if s.len() > 0 && white_space(s[0]) {
        lemma_trim_start_fixed(s.skip(1));
    }
}

/// Text without trailing white space is left as it is, and what is left of a
/// text starts as the text did.
pub proof fn lemma_trim_end_fixed(s: Seq<char>)
    ensures
        trim_end(s).len() <= s.len(),
        trim_end(s) == s.take(trim_end(s).len() as int),
        trim_end(s).len() > 0 ==> !white_space(trim_end(s).last()),
        trim_end(trim_end(s)) == trim_end(s),
    decreases s.len(),
{
    if s.len() > 0 && white_space(s.last()) {
        lemma_trim_end_fixed(s.drop_last());
        assert(trim_end(s) =~= s.take(trim_end(s).len() as int));
    } else {
        assert(s =~= s.take(s.len() as int));
    }
}

/// Trimming twice is trimming once.
pub proof fn lemma_trim_idempotent(s: Seq<char>)
    ensures
        trim(trim(s)) == trim(s),
{
    let a = trim_start(s);
    let b = trim_end(a);
    lemma_trim_start_fixed(s);
    lemma_trim_end_fixed(a);
    if b.len() > 0 {
        assert(b[0] == a[0]);
    }
    assert(trim_start(b) == b);
}

/// Lower case is kept by lowering again.
pub proof fn lemma_lower_idempotent(s: Seq<char>)
    ensures
        lower(lower(s)) == lower(s),
{
    assert(lower(lower(s)) =~= lower(s));
}

/// Lowering changes neither white space nor any character that is no letter.
pub proof fn lemma_lower_char(c: char)
    ensures
        white_space(lower_char(c)) == white_space(c),
        forall|d: char| !('A' <= d <= 'Z' || 'a' <= d <= 'z') ==> (#[trigger] same_char(
            lower_char(c),
            d,
        ) <==> c == d),
{
}

/// Whether two characters are the same.
pub open spec fn same_char(a: char, b: char) -> bool {
    a == b
}

/// Trimming and lowering go in either order.
pub proof fn lemma_trim_lower(s: Seq<char>)
    ensures
        trim(lower(s)) == lower(trim(s)),
{
    lemma_trim_start_lower(s);
    lemma_trim_end_lower(trim_start(s));
}

proof fn lemma_trim_start_lower(s: Seq<char>)
    ensures
        trim_start(lower(s)) == lower(trim_start(s)),
    decreases s.len(),
{
    if s.len() > 0 {
        lemma_lower_char(s[0]);
        assert(lower(s)[0] == lower_char(s[0]));
        if white_space(s[0]) {
            lemma_trim_start_lower(s.skip(1));
            assert(lower(s).skip(1) =~= lower(s.skip(1)));
        }
    }
}

proof fn lemma_trim_end_lower(s: Seq<char>)
    ensures
        trim_end(lower(s)) == lower(trim_end(s)),
    decreases s.len(),
{
    if s.len() > 0 {
        lemma_lower_char(s.last());
        assert(lower(s).last() == lower_char(s.last()));
        if white_space(s.last()) {
            lemma_trim_end_lower(s.drop_last());
            assert(lower(s).drop_last() =~= lower(s.drop_last()));
        }
    }
}

/// Lowering keeps the first position of a character that is no letter.
pub proof fn lemma_first_index_lower(s: Seq<char>, c: char)
    requires
        !('A' <= c <= 'Z' || 'a' <= c <= 'z'),
    ensures
        first_index(lower(s), c) == first_index(s, c),
{
    lemma_first_index(s, c);
    let i = first_index(s, c);
    assert forall|j: int| 0 <= j < i implies lower(s)[j] != c by {
        lemma_lower_char(s[j]);
        assert(same_char(lower_char(s[j]), c) <==> s[j] == c);
    }
    lemma_first_index_is(lower(s), c, i);
}

/// Splitting at a character that is no letter and lowering go in either order.
pub proof fn lemma_split_lower(s: Seq<char>, c: char)
    requires
        !('A' <= c <= 'Z' || 'a' <= c <= 'z'),
    ensures
        split(lower(s), c).len() == split(s, c).len(),
        forall|k: int| 0 <= k < split(s, c).len() ==> #[trigger] split(lower(s), c)[k] == lower(split(s, c)[k]),
    decreases s.len(),
{
    lemma_first_index(s, c);
    lemma_first_index_lower(s, c);
    let i = first_index(s, c);
    if i < s.len() {
        lemma_split_lower(s.skip(i + 1), c);
        assert(lower(s).skip(i + 1) =~= lower(s.skip(i + 1)));
        assert(lower(s).take(i) =~= lower(s.take(i)));
        assert forall|k: int| 0 <= k < split(s, c).len() implies #[trigger] split(lower(s), c)[k] == lower(
            split(s, c)[k],
        ) by {
            if k > 0 {
                assert(split(s, c)[k] == split(s.skip(i + 1), c)[k - 1]);
                assert(split(lower(s), c)[k] == split(lower(s.skip(i + 1)), c)[k - 1]);
            }
        }
    }
}

// ---------------------------------------------------------------------------
// Text: the executable operations.

/// The characters of `s`, in order.
pub fn chars_of(s: &str) -> (r: Vec<char>)
    ensures
        r@ == s@,
{
    let mut out: Vec<char> = Vec::new();
    for c in it: s.chars()
        invariant
            out@ == s@.take(it.index() as int),
            it.seq() == s@,
    {
        out.push(c);
        proof {
            assert(s@.take(it.index() + 1) =~= s@.take(it.index() as int).push(c));
        }
    }
    proof {
        assert(s@.take(s@.len() as int) =~= s@);
    }
    out
}

/// The string that holds `chars`, in order.
pub fn string_of(chars: &[char]) -> (r: String)
    ensures
        r@ == chars@,
{
    let mut out: String = String::new();
    let mut i: usize = 0;
    while i < chars.len()
        invariant
            i <= chars.len(),
            out@ == chars@.take(i as int),
        decreases chars.len() - i,
    {
        out.push(chars[i]);
        i += 1;
        proof {
            assert(chars@.take(i as int) =~= chars@.take(i - 1).push(chars@[i - 1]));
        }
    }
    proof {
        assert(chars@.take(i as int) =~= chars@);
    }
    out
}

/// Whether two slices hold the same characters.
pub fn same_chars(a: &[char], b: &[char]) -> (r: bool)
    ensures
        r == (a@ == b@),
{
    if a.len() != b.len() {
        return false;
    }
    let mut i: usize = 0;
    while i < a.len()
        invariant
            i <= a.len(),
            a.len() == b.len(),
            forall|j: int| 0 <= j < i ==> a@[j] == b@[j],
        decreases a.len() - i,
    {
        if a[i] != b[i] {
            return false;
        }
        i += 1;
    }
    proof {
        assert(a@ =~= b@);
    }
    true
}

/// Whether two strings are the same text.
pub fn same(a: &str, b: &str) -> (r: bool)
    ensures
        r == (a@ == b@),
{
    let ac = chars_of(a);
    let bc = chars_of(b);
    same_chars(ac.as_slice(), bc.as_slice())
}

/// A copy of an optional string.
pub fn copy_opt(o: &Option<String>) -> (r: Option<String>)
    ensures
        opt(r) == opt(*o),
{
    match o {
        Some(s) => Some(s.clone()),
        None => None,
    }
}

/// The ASCII lower case of a slice.
pub fn lower_chars(s: &[char]) -> (r: Vec<char>)
    ensures
        r@ == lower(s@),
{
    let mut out: Vec<char> = Vec::new();
    let mut i: usize = 0;
    while i < s.len()
        invariant
            i <= s.len(),
            out@ =~= lower(s@).take(i as int),
        decreases s.len() - i,
    {
        out.push(to_lower_char(s[i]));
        i += 1;
    }
    proof {
        assert(out@ =~= lower(s@));
    }
    out
}

/// The ASCII lower case of a string.
pub fn to_lower(s: &str) -> (r: String)
    ensures
        r@ == lower(s@),
{
    let cs = chars_of(s);
    let low = lower_chars(cs.as_slice());
    string_of(low.as_slice())
}

/// Whether two strings are equal when ASCII case is ignored.
pub fn same_ignoring_case(a: &str, b: &str) -> (r: bool)
    ensures
        r == (lower(a@) == lower(b@)),
{
    let x = to_lower(a);
    let y = to_lower(b);
    same(x.as_str(), y.as_str())
}

/// The slice without its leading white space.
pub fn trim_start_chars(s: &[char]) -> (r: &[char])
    ensures
        r@ == trim_start(s@),
{
    let mut i: usize = 0;
    proof {
        assert(s@.skip(0) =~= s@);
    }
    while i < s.len() && is_white_space(s[i])
        invariant
            i <= s.len(),
            trim_start(s@) == trim_start(s@.skip(i as int)),
        decreases s.len() - i,
    {
        proof {
            assert(s@.skip(i as int).skip(1) =~= s@.skip(i + 1));
        }
        i += 1;
    }
    proof {
        assert(s@.subrange(i as int, s@.len() as int) =~= s@.skip(i as int));
    }
    slice_subrange(s, i, s.len())
}

/// The slice without its trailing white space.
pub fn trim_end_chars(s: &[char]) -> (r: &[char])
    ensures
        r@ == trim_end(s@),
{
    let mut n: usize = s.len();
    proof {
        assert(s@.take(n as int) =~= s@);
    }
    while n > 0 && is_white_space(s[n - 1])
        invariant
            n <= s.len(),
            trim_end(s@) == trim_end(s@.take(n as int)),
        decreases n,
    {
        proof {
            assert(s@.take(n as int).drop_last() =~= s@.take(n - 1));
        }
        n -= 1;
    }
    proof {
        assert(s@.subrange(0, n as int) =~= s@.take(n as int));
    }
    slice_subrange(s, 0, n)
}

/// The slice without the white space on either side.
pub fn trim_chars(s: &[char]) -> (r: &[char])
    ensures
        r@ == trim(s@),
{
    trim_end_chars(trim_start_chars(s))
}

/// The slice without the characters `c` on either side.
pub fn strip_chars(s: &[char], c: char) -> (r: &[char])
    ensures
        r@ == strip_char(s@, c),
{
    let mut i: usize = 0;
    let mut n: usize = s.len();
    proof {
        assert(s@.subrange(0, n as int) =~= s@);
    }
    while i < n && (s[i] == c || s[n - 1] == c)
        invariant
            i <= n <= s.len(),
            strip_char(s@, c) == strip_char(s@.subrange(i as int, n as int), c),
        decreases n - i,
    {
        let ghost cur = s@.subrange(i as int, n as int);
        if s[i] == c {
            proof {
                assert(cur.skip(1) =~= s@.subrange(i + 1, n as int));
            }
            i += 1;
        } else {
            proof {
                assert(cur.drop_last() =~= s@.subrange(i as int, n - 1));
            }
            n -= 1;
        }
    }
    slice_subrange(s, i, n)
}

/// The string without the white space on either side.
pub fn trimmed(s: &str) -> (r: String)
    ensures
        r@ == trim(s@),
{
    let cs = chars_of(s);
    string_of(trim_chars(cs.as_slice()))
}

/// The position of the first `c`, where there is one.
pub fn index_of(s: &[char], c: char) -> (r: Option<usize>)
    ensures
        match r {
            Some(i) => i == first_index(s@, c) && i < s@.len() && i < usize::MAX,
            None => first_index(s@, c) == s@.len(),
        },
{
    let mut i: usize = 0;
    while i < s.len()
        invariant
            i <= s.len(),
            forall|j: int| 0 <= j < i ==> s@[j] != c,
        decreases s.len() - i,
    {
        if s[i] == c {
            proof {
                lemma_first_index_is(s@, c, i as int);
            }
            return Some(i);
        }
        i += 1;
    }
    proof {
        lemma_first_index_is(s@, c, i as int);
    }
    None
}

/// The position of the last `c`, where there is one.
pub fn last_index_of(s: &[char], c: char) -> (r: Option<usize>)
    ensures
        match r {
            Some(i) => i == last_index(s@, c) && i < usize::MAX,
            None => last_index(s@, c) == -1,
        },
{
    let mut n: usize = s.len();
    proof {
        assert(s@.take(n as int) =~= s@);
    }
    while n > 0
        invariant
            n <= s.len(),
            last_index(s@, c) == last_index(s@.take(n as int), c),
        decreases n,
    {
        if s[n - 1] == c {
            return Some(n - 1);
        }
        proof {
            assert(s@.take(n as int).drop_last() =~= s@.take(n - 1));
        }
        n -= 1;
    }
    None
}

/// Whether `c` stands in `s`.
pub fn has_char(s: &[char], c: char) -> (r: bool)
    ensures
        r == s@.contains(c),
{
    proof {
        lemma_first_index(s@, c);
    }
    match index_of(s, c) {
        Some(i) => {
            proof {
                assert(s@[i as int] == c);
            }
            true
        },
        None => false,
    }
}

/// The slice from `i` on.
pub fn skip_chars(s: &[char], i: usize) -> (r: &[char])
    requires
        i <= s@.len(),
    ensures
        r@ == s@.skip(i as int),
{
    proof {
        assert(s@.subrange(i as int, s@.len() as int) =~= s@.skip(i as int));
    }
    slice_subrange(s, i, s.len())
}

/// The first `i` characters of the slice.
pub fn take_chars(s: &[char], i: usize) -> (r: &[char])
    requires
        i <= s@.len(),
    ensures
        r@ == s@.take(i as int),
{
    proof {
        assert(s@.subrange(0, i as int) =~= s@.take(i as int));
    }
    slice_subrange(s, 0, i)
}

/// Whether `s` begins with `p`.
pub fn starts_with_chars(s: &[char], p: &[char]) -> (r: bool)
    ensures
        r == starts_with(s@, p@),
{
    p.len() <= s.len() && same_chars(take_chars(s, p.len()), p)
}

/// Whether `s` ends with `p`.
pub fn ends_with_chars(s: &[char], p: &[char]) -> (r: bool)
    ensures
        r == ends_with(s@, p@),
{
    p.len() <= s.len() && same_chars(skip_chars(s, s.len() - p.len()), p)
}

/// Whether the string `s` begins with `p`.
pub fn begins(s: &str, p: &str) -> (r: bool)
    ensures
        r == starts_with(s@, p@),
{
    let sc = chars_of(s);
    let pc = chars_of(p);
    starts_with_chars(sc.as_slice(), pc.as_slice())
}

/// Whether the string `s` ends with `p`.
pub fn ends(s: &str, p: &str) -> (r: bool)
    ensures
        r == ends_with(s@, p@),
{
    let sc = chars_of(s);
    let pc = chars_of(p);
    ends_with_chars(sc.as_slice(), pc.as_slice())
}

/// Whether `p` stands somewhere in the string `s`.
pub fn has_text(s: &str, p: &str) -> (r: bool)
    ensures
        r == contains(s@, p@),
{
    let sc = chars_of(s);
    let pc = chars_of(p);
    if pc.len() > sc.len() {
        return false;
    }
    if pc.len() == 0 {
        proof {
            assert(s@.subrange(0, 0) =~= p@);
            assert(occurs_at(s@, p@, 0));
        }
        return true;
    }
    let mut i: usize = 0;
    while i <= sc.len() - pc.len()
        invariant
            0 < pc.len() <= sc.len(),
            i <= sc.len() - pc.len() + 1,
            sc@ == s@,
            pc@ == p@,
            forall|j: int| 0 <= j < i ==> !#[trigger] occurs_at(s@, p@, j),
        decreases sc.len() - pc.len() + 1 - i,
    {
        if same_chars(slice_subrange(sc.as_slice(), i, i + pc.len()), pc.as_slice()) {
            proof {
                assert(occurs_at(s@, p@, i as int));
            }
            return true;
        }
        i += 1;
    }
    proof {
        assert forall|j: int| !#[trigger] occurs_at(s@, p@, j) by {
            if 0 <= j && j + p@.len() <= s@.len() {
                assert(j < i);
            }
        }
    }
    false
}

/// The pieces of `s` between the separators `c`.
pub fn split_chars(s: &[char], c: char) -> (r: Vec<Vec<char>>)
    ensures
        r@.len() == split(s@, c).len(),
        forall|k: int| 0 <= k < r@.len() ==> (#[trigger] r@[k])@ == split(s@, c)[k],
    decreases s@.len(),
{
    proof {
        lemma_first_index(s@, c);
    }
    let mut out: Vec<Vec<char>> = Vec::new();
    match index_of(s, c) {
        None => {
            out.push(vstd::slice::slice_to_vec(s));
        },
        Some(i) => {
            out.push(vstd::slice::slice_to_vec(take_chars(s, i)));
            let mut rest = split_chars(skip_chars(s, i + 1), c);
            let ghost tail = rest@;
            let ghost head = out@;
            out.append(&mut rest);
            proof {
                assert(out@ == head + tail);
            }
        },
    }
    out
}

/// The decimal digits of `n`.
pub fn decimal_chars(n: usize) -> (r: Vec<char>)
    ensures
        r@ == decimal(n as nat),
    decreases n,
{
    let digit: char = (48 + (n % 10) as u8) as char;
    if n < 10 {
        let mut out: Vec<char> = Vec::new();
        out.push(digit);
        proof {
            assert(out@ =~= decimal(n as nat));
        }
        out
    } else {
        let mut out = decimal_chars(n / 10);
        out.push(digit);
        out
    }
}

/// The decimal digits of `n`, as a string.
pub fn number(n: usize) -> (r: String)
    ensures
        r@ == decimal(n as nat),
{
    let digits = decimal_chars(n);
    string_of(digits.as_slice())
}

/// The texts one behind the other, with `sep` between them.
pub fn joined(parts: &Vec<String>, sep: &str) -> (r: String)
    ensures
        r@ == join(texts(parts@), sep@),
{
    let mut out: String = String::new();
    let ghost all = texts(parts@);
    let mut i: usize = 0;
    proof {
        assert(out@ =~= join(all.take(0), sep@));
    }
    while i < parts.len()
        invariant
            i <= parts.len(),
            all == texts(parts@),
            out@ == join(all.take(i as int), sep@),
        decreases parts.len() - i,
    {
        proof {
            assert(all.take(i + 1).drop_last() =~= all.take(i as int));
            assert(all.take(i + 1).last() == parts@[i as int]@);
            assert(all.take(0) =~= Seq::<Seq<char>>::empty());
        }
        let ghost earlier = out@;
        if i > 0 {
            out.append(sep);
        }
        out.append(parts[i].as_str());
        proof {
            if i == 0 {
                assert(earlier =~= Seq::<char>::empty());
                assert(out@ =~= parts@[0]@);
            }
            assert(out@ =~= join(all.take(i + 1), sep@));
        }
        i += 1;
    }
    proof {
        assert(all.take(i as int) =~= all);
    }
    out
}

/// Whether `a` comes before `b` in the order of a dictionary.
pub fn is_before(a: &[char], b: &[char]) -> (r: bool)
    ensures
        r == before(a@, b@),
{
    let mut i: usize = 0;
    proof {
        assert(a@.skip(0) =~= a@);
        assert(b@.skip(0) =~= b@);
    }
    while i < a.len() && i < b.len() && a[i] == b[i]
        invariant
            i <= a.len(),
            i <= b.len(),
            before(a@, b@) == before(a@.skip(i as int), b@.skip(i as int)),
        decreases a.len() - i,
    {
        proof {
            assert(a@.skip(i as int).skip(1) =~= a@.skip(i + 1));
            assert(b@.skip(i as int).skip(1) =~= b@.skip(i + 1));
        }
        i += 1;
    }
    if i >= b.len() {
        false
    } else if i >= a.len() {
        true
    } else {
        a[i] < b[i]
    }
}

proof fn lemma_digits_value_grows(s: Seq<char>, i: int)
    requires
        0 <= i <= s.len(),
    ensures
        digits_value(s.take(i)) <= digits_value(s),
    decreases s.len() - i,
{
    if i < s.len() {
        lemma_digits_value_grows(s, i + 1);
        assert(s.take(i + 1).drop_last() =~= s.take(i));
    } else {
        assert(s.take(i) =~= s);
    }
}

/// The number that a text writes in decimal, where it is one that fits.
pub fn parse_number(s: &[char]) -> (r: Option<u128>)
    ensures
        match r {
            Some(n) => parsed_number(s@, u128::MAX as nat) == Some(n as nat),
            None => parsed_number(s@, u128::MAX as nat) is None,
        },
{
    let digits: &[char] = if s.len() > 0 && s[0] == '+' {
        skip_chars(s, 1)
    } else {
        s
    };
    if digits.len() == 0 {
        return None;
    }
    let mut value: u128 = 0;
    let mut i: usize = 0;
    while i < digits.len()
        invariant
            i <= digits.len(),
            forall|j: int| 0 <= j < i ==> is_digit(#[trigger] digits@[j]),
            value == digits_value(digits@.take(i as int)),
            parsed_number(s@, u128::MAX as nat) == if is_number(digits@) && digits_value(digits@)
                <= u128::MAX {
                Some(digits_value(digits@))
            } else {
                None
            },
        decreases digits.len() - i,
    {
        let c = digits[i];
        if c < '0' || c > '9' {
            proof {
                assert(!is_digit(digits@[i as int]));
            }
            return None;
        }
        let d: u128 = (c as u32 - 48) as u128;
        proof {
            assert(digits@.take(i + 1).drop_last() =~= digits@.take(i as int));
            lemma_digits_value_grows(digits@, i + 1);
        }
        if value > (u128::MAX - d) / 10 {
            proof {
                assert(value * 10 + d > u128::MAX);
            }
            return None;
        }
        value = value * 10 + d;
        i += 1;
    }
    proof {
        assert(digits@.take(i as int) =~= digits@);
    }
    Some(value)
}

/// The digit for the value `d`.
fn hex_char(d: u32) -> (r: char)
    requires
        d < 16,
    ensures
        r == hex_digit(d as int),
{
    if d < 10 {
        (48 + d as u8) as char
    } else {
        (87 + d as u8) as char
    }
}

/// The last `width` hexadecimal digits of `n`.
pub fn hex_chars(n: u32, width: u32) -> (r: Vec<char>)
    ensures
        r@ == hex(n as nat, width as nat),
    decreases width,
{
    if width == 0 {
        Vec::new()
    } else {
        let mut out = hex_chars(n / 16, width - 1);
        out.push(hex_char(n % 16));
        out
    }
}

/// The position of the first white space; the length where there is none.
pub fn find_space(s: &[char]) -> (r: usize)
    ensures
        r == first_space(s@),
        r <= s@.len(),
{
    let mut i: usize = 0;
    proof {
        assert(s@.skip(0) =~= s@);
    }
    while i < s.len() && !is_white_space(s[i])
        invariant
            i <= s.len(),
            first_space(s@) == i + first_space(s@.skip(i as int)),
        decreases s.len() - i,
    {
        proof {
            assert(s@.skip(i as int).skip(1) =~= s@.skip(i + 1));
        }
        i += 1;
    }
    i
}

/// The lines of a text.
pub fn split_lines(s: &[char]) -> (r: Vec<Vec<char>>)
    ensures
        r@.len() == lines(s@).len(),
        forall|k: int| 0 <= k < r@.len() ==> (#[trigger] r@[k])@ == lines(s@)[k],
{
    let mut out: Vec<Vec<char>> = Vec::new();
    let mut start: usize = 0;
    proof {
        assert(s@.skip(0) =~= s@);
    }
    while start < s.len()
        invariant
            start <= s.len(),
            lines(s@).len() == out@.len() + lines(s@.skip(start as int)).len(),
            forall|k: int| 0 <= k < out@.len() ==> (#[trigger] out@[k])@ == lines(s@)[k],
            forall|k: int|
                0 <= k < lines(s@.skip(start as int)).len() ==> #[trigger] lines(
                    s@.skip(start as int),
                )[k] == lines(s@)[out@.len() + k],
        decreases s.len() - start,
    {
        let rest = skip_chars(s, start);
        let ghost tail = s@.skip(start as int);
        proof {
            lemma_first_index(rest@, '\n');
        }
        match index_of(rest, '\n') {
            Some(i) => {
                let line = take_chars(rest, i);
                let kept = if line.len() > 0 && line[line.len() - 1] == '\r' {
                    take_chars(line, line.len() - 1)
                } else {
                    line
                };
                proof {
                    assert(kept@ =~= without_cr(tail.take(i as int)));
                    assert(tail.skip(i + 1) =~= s@.skip(start + i + 1));
                    assert(lines(tail)[0] == kept@);
                    assert forall|k: int| 0 <= k < lines(tail.skip(i + 1)).len() implies #[trigger] lines(
                        tail.skip(i + 1),
                    )[k] == lines(s@)[out@.len() + 1 + k] by {
                        assert(lines(tail)[k + 1] == lines(tail.skip(i + 1))[k]);
                    }
                }
                out.push(vstd::slice::slice_to_vec(kept));
                start = start + i + 1;
            },
            None => {
                proof {
                    assert(lines(tail) =~= seq![tail]);
                    assert(lines(tail)[0] == lines(s@)[out@.len() as int]);
                    assert(s@.skip(s@.len() as int) =~= Seq::empty());
                }
                out.push(vstd::slice::slice_to_vec(rest));
                start = s.len();
            },
        }
    }
    proof {
        assert(s@.skip(start as int) =~= Seq::empty());
    }
    out
}

// ---------------------------------------------------------------------------
// What holds of every text.

/// White space is the tab, the line breaks, the space, and the spaces and
/// separators of Unicode.
pub proof fn law_white_space_is_that_of_unicode(c: char)
    ensures
        white_space(c) <==> (c == '\t' || c == '\n' || c == '\u{b}' || c == '\u{c}' || c == '\r' || c == ' ' || c
            == '\u{85}' || c == '\u{a0}' || c == '\u{1680}' || '\u{2000}' <= c <= '\u{200a}' || c == '\u{2028}' || c
            == '\u{2029}' || c == '\u{202f}' || c == '\u{205f}' || c == '\u{3000}'),
{
}

/// Lower case keeps the length, turns each of the letters `A` to `Z` into the one
/// that stands 32 places behind it, and keeps everything else.
pub proof fn law_lower_changes_only_capital_letters(s: Seq<char>, i: int)
    requires
        0 <= i < s.len(),
    ensures
        lower(s).len() == s.len(),
        'A' <= s[i] <= 'Z' ==> lower(s)[i] as u32 == s[i] as u32 + 32,
        !('A' <= s[i] <= 'Z') ==> lower(s)[i] == s[i],
{
}

/// Trimming takes off the white space at the beginning and nothing else.
pub proof fn law_trim_start_takes_off_leading_space(s: Seq<char>) -> (i: int)
    ensures
        0 <= i <= s.len(),
        trim_start(s) == s.skip(i),
        forall|k: int| 0 <= k < i ==> white_space(#[trigger] s[k]),
        i < s.len() ==> !white_space(s[i]),
    decreases s.len(),
{
    if s.len() > 0 && white_space(s[0]) {
        let j = law_trim_start_takes_off_leading_space(s.skip(1));
        assert(s.skip(1).skip(j) =~= s.skip(j + 1));
        assert forall|k: int| 0 <= k < j + 1 implies white_space(#[trigger] s[k]) by {
            if k > 0 {
                assert(s.skip(1)[k - 1] == s[k]);
            }
        }
        if j + 1 < s.len() {
            assert(s.skip(1)[j] == s[j + 1]);
        }
        j + 1
    } else {
        assert(s.skip(0) =~= s);
        0
    }
}

/// Trimming takes off the white space at the end and nothing else.
pub proof fn law_trim_end_takes_off_trailing_space(s: Seq<char>) -> (j: int)
    ensures
        0 <= j <= s.len(),
        trim_end(s) == s.take(j),
        forall|k: int| j <= k < s.len() ==> white_space(#[trigger] s[k]),
        j > 0 ==> !white_space(s[j - 1]),
    decreases s.len(),
{
    if s.len() > 0 && white_space(s.last()) {
        let j = law_trim_end_takes_off_trailing_space(s.drop_last());
        assert(s.drop_last().take(j) =~= s.take(j));
        assert forall|k: int| j <= k < s.len() implies white_space(#[trigger] s[k]) by {
            if k < s.len() - 1 {
                assert(s.drop_last()[k] == s[k]);
            }
        }
        if j > 0 {
            assert(s.drop_last()[j - 1] == s[j - 1]);
        }
        j
    } else {
        assert(s.take(s.len() as int) =~= s);
        s.len() as int
    }
}

/// Trimming takes off the white space on both sides and nothing else: what is left
/// is a part of the text, all before and behind it is white space, and it neither
/// begins nor ends with white space.
pub proof fn law_trim_takes_off_space_on_both_sides(s: Seq<char>) -> (r: (int, int))
    ensures
        0 <= r.0 <= r.1 <= s.len(),
        trim(s) == s.subrange(r.0, r.1),
        forall|k: int| 0 <= k < r.0 || r.1 <= k < s.len() ==> white_space(#[trigger] s[k]),
        r.0 < r.1 ==> !white_space(s[r.0]) && !white_space(s[r.1 - 1]),
{
    let i = law_trim_start_takes_off_leading_space(s);
    let t = s.skip(i);
    let n = law_trim_end_takes_off_trailing_space(t);
    assert(t.take(n) =~= s.subrange(i, i + n));
    assert forall|k: int| 0 <= k < i || i + n <= k < s.len() implies white_space(#[trigger] s[k]) by {
        if k >= i + n {
            assert(t[k - i] == s[k]);
        }
    }
    if n > 0 {
        assert(t[0] == s[i]);
        assert(t[n - 1] == s[i + n - 1]);
    }
    (i, i + n)
}

/// Stripping takes a character off on both sides and nothing else.
pub proof fn law_strip_takes_off_one_character(s: Seq<char>, c: char) -> (r: (int, int))
    ensures
        0 <= r.0 <= r.1 <= s.len(),
        strip_char(s, c) == s.subrange(r.0, r.1),
        forall|k: int| 0 <= k < r.0 || r.1 <= k < s.len() ==> (#[trigger] s[k]) == c,
        r.0 < r.1 ==> s[r.0] != c && s[r.1 - 1] != c,
    decreases s.len(),
{
    if s.len() > 0 && s[0] == c {
        let (i, j) = law_strip_takes_off_one_character(s.skip(1), c);
        assert(s.skip(1).subrange(i, j) =~= s.subrange(i + 1, j + 1));
        assert forall|k: int| 0 <= k < i + 1 || j + 1 <= k < s.len() implies (#[trigger] s[k]) == c by {
            if k > 0 {
                assert(s.skip(1)[k - 1] == s[k]);
            }
        }
        (i + 1, j + 1)
    } else if s.len() > 0 && s.last() == c {
        let (i, j) = law_strip_takes_off_one_character(s.drop_last(), c);
        assert(s.drop_last().subrange(i, j) =~= s.subrange(i, j));
        assert forall|k: int| 0 <= k < i || j <= k < s.len() implies (#[trigger] s[k]) == c by {
            if k < s.len() - 1 {
                assert(s.drop_last()[k] == s[k]);
            }
        }
        (i, j)
    } else {
        assert(s.subrange(0, s.len() as int) =~= s);
        (0, s.len() as int)
    }
}

/// The pieces of two texts with a separator between them are those of the first
/// and then those of the second; a text without the separator is one piece.
pub proof fn law_split_goes_piece_by_piece(a: Seq<char>, c: char, b: Seq<char>)
    ensures
        split(a.push(c) + b, c) == split(a, c) + split(b, c),
        !a.contains(c) ==> split(a, c) == seq![a],
    decreases a.len(),
{
    let s = a.push(c) + b;
    let i = first_index(a, c);
    lemma_first_index(a, c);
    assert forall|k: int| 0 <= k < i implies s[k] != c by {
        assert(s[k] == a[k]);
    }
    lemma_first_index_is(s, c, i);
    assert(s.take(i) =~= a.take(i));
    if i < a.len() {
        assert(a.contains(a[i]));
        assert(s.skip(i + 1) =~= a.skip(i + 1).push(c) + b);
        law_split_goes_piece_by_piece(a.skip(i + 1), c, b);
        assert(split(s, c) =~= split(a, c) + split(b, c));
    } else {
        assert(s.skip(i + 1) =~= b);
        assert(a.take(i) =~= a);
        assert(split(s, c) =~= split(a, c) + split(b, c));
    }
}

/// The pieces of a text hold no separator, and with separators between them they
/// are the text.
pub proof fn law_pieces_make_up_the_text(s: Seq<char>, c: char)
    ensures
        join(split(s, c), seq![c]) == s,
        forall|i: int| 0 <= i < split(s, c).len() ==> !(#[trigger] split(s, c)[i]).contains(c),
    decreases s.len(),
{
    lemma_split_pieces(s, c);
    let k = last_index(s, c);
    lemma_last_index(s, c);
    if k >= 0 {
        let a = s.take(k);
        let b = s.skip(k + 1);
        assert(s =~= a.push(c) + b);
        assert(!b.contains(c)) by {
            assert forall|j: int| 0 <= j < b.len() implies b[j] != c by {
                assert(s[k + 1 + j] != c);
            }
        }
        law_pieces_make_up_the_text(a, c);
        lemma_split_push(a, c, b);
        lemma_split_pieces(a, c);
        assert(split(s, c).drop_last() =~= split(a, c));
        assert(join(split(s, c), seq![c]) =~= s);
    } else {
        assert(!s.contains(c)) by {
            assert forall|j: int| 0 <= j < s.len() implies s[j] != c by {}
        }
        law_split_goes_piece_by_piece(s, c, Seq::empty());
    }
}

/// A text is cut at the first separator, and nowhere where it has none.
pub proof fn law_split_once_cuts_at_the_first(a: Seq<char>, c: char, b: Seq<char>)
    requires
        !a.contains(c),
    ensures
        split_once(a.push(c) + b, c) == Some((a, b)),
        split_once(a, c) is None,
{
    let s = a.push(c) + b;
    assert forall|k: int| 0 <= k < a.len() implies s[k] != c && a[k] != c by {
        assert(a.contains(a[k]));
    }
    lemma_first_index_is(s, c, a.len() as int);
    lemma_first_index_is(a, c, a.len() as int);
    assert(s.take(a.len() as int) =~= a);
    assert(s.skip(a.len() as int + 1) =~= b);
}

/// A line ends at the first line feed, a carriage return before it belongs to the
/// line break, and the last line need not be ended.
pub proof fn law_lines_end_at_line_feeds(a: Seq<char>, b: Seq<char>)
    requires
        !a.contains('\n'),
    ensures
        lines(a.push('\n') + b) == seq![
            if a.len() > 0 && a.last() == '\r' {
                a.drop_last()
            } else {
                a
            },
        ] + lines(b),
        lines(a) == if a.len() == 0 {
            Seq::<Seq<char>>::empty()
        } else {
            seq![a]
        },
{
    let s = a.push('\n') + b;
    assert forall|k: int| 0 <= k < a.len() implies s[k] != '\n' && a[k] != '\n' by {
        assert(a.contains(a[k]));
    }
    lemma_first_index_is(s, '\n', a.len() as int);
    lemma_first_index_is(a, '\n', a.len() as int);
    assert(s.take(a.len() as int) =~= a);
    assert(s.skip(a.len() as int + 1) =~= b);
}

/// A text begins with another where it is that one and something behind it, and
/// ends with it where it is something and that one behind it.
pub proof fn law_beginning_and_end(s: Seq<char>, p: Seq<char>)
    ensures
        starts_with(s, p) <==> exists|rest: Seq<char>| s == #[trigger] (p + rest),
        ends_with(s, p) <==> exists|rest: Seq<char>| s == #[trigger] (rest + p),
{
    if starts_with(s, p) {
        assert(s =~= p + s.skip(p.len() as int));
    }
    if exists|rest: Seq<char>| s == #[trigger] (p + rest) {
        let rest = choose|rest: Seq<char>| s == #[trigger] (p + rest);
        assert(s.take(p.len() as int) =~= p);
    }
    if ends_with(s, p) {
        let n = s.len() - p.len();
        assert(s =~= s.take(n) + s.skip(n));
    }
    if exists|rest: Seq<char>| s == #[trigger] (rest + p) {
        let rest = choose|rest: Seq<char>| s == #[trigger] (rest + p);
        assert(s.skip(s.len() - p.len()) =~= p);
    }
}

/// A text stands in another where that is something, the text, and something.
pub proof fn law_contained_text(a: Seq<char>, p: Seq<char>, b: Seq<char>)
    ensures
        contains(a + p + b, p),
        contains(a, p) ==> exists|i: int| 0 <= i <= a.len() - p.len() && #[trigger] a.skip(i).take(p.len() as int) == p,
{
    let s = a + p + b;
    assert(s.subrange(a.len() as int, a.len() as int + p.len()) =~= p);
    assert(occurs_at(s, p, a.len() as int));
    if contains(a, p) {
        let i = choose|i: int| #[trigger] occurs_at(a, p, i);
        assert(a.skip(i).take(p.len() as int) =~= a.subrange(i, i + p.len()));
    }
}

/// A number that is written in decimal reads back, with and without a plus sign,
/// unless it is too great.
pub proof fn law_decimal_reads_back(n: nat, max: nat)
    ensures
        parsed_number(decimal(n), max) == if n <= max {
            Some(n)
        } else {
            None
        },
        parsed_number(seq!['+'] + decimal(n), max) == parsed_number(decimal(n), max),
{
    lemma_decimal_is_number(n);
    lemma_decimal_value(n);
    assert((seq!['+'] + decimal(n)).skip(1) =~= decimal(n));
    assert(is_digit(decimal(n)[0]));
}

/// What holds a character that is no digit behind its first is no number.
pub proof fn law_numbers_have_digits_only(s: Seq<char>, max: nat, i: int)
    requires
        0 < i < s.len(),
        !('0' <= s[i] <= '9'),
    ensures
        parsed_number(s, max) is None,
{
    if s[0] == '+' {
        assert(s.skip(1)[i - 1] == s[i]);
        if is_number(s.skip(1)) {
            assert(is_digit(s.skip(1)[i - 1]));
        }
    } else if is_number(s) {
        assert(is_digit(s[i]));
    }
}

/// In the order of a dictionary the first character decides in which two texts
/// differ, and a text comes before what goes on behind it.
pub proof fn law_dictionary_order(p: Seq<char>, x: char, a: Seq<char>, y: char, b: Seq<char>)
    requires
        x != y,
    ensures
        before(p.push(x) + a, p.push(y) + b) <==> x < y,
        before(p, p.push(x) + a),
        !before(p.push(x) + a, p),
    decreases p.len(),
{
    let l = p.push(x) + a;
    let r = p.push(y) + b;
    if p.len() > 0 {
        law_dictionary_order(p.skip(1), x, a, y, b);
        assert(l.skip(1) =~= p.skip(1).push(x) + a);
        assert(r.skip(1) =~= p.skip(1).push(y) + b);
        assert(l[0] == p[0] && r[0] == p[0]);
    }
}

/// A hexadecimal text has the digits asked for, and the last of them is that of
/// the number's remainder.
pub proof fn law_hex_digits(n: nat, width: nat)
    ensures
        hex(n, width + 1).len() == width + 1,
        hex(n, width + 1).drop_last() == hex(n / 16, width),
        n % 16 < 10 ==> hex(n, width + 1).last() as u32 == 48 + n % 16,
        n % 16 >= 10 ==> hex(n, width + 1).last() as u32 == 87 + n % 16,
{
    lemma_hex_len(n, width + 1);
    assert(hex(n, width + 1).drop_last() =~= hex(n / 16, width));
}

/// The first white space of a text is the one behind what holds none.
pub proof fn law_first_space_is_found(a: Seq<char>, c: char, b: Seq<char>)
    requires
        forall|k: int| 0 <= k < a.len() ==> !white_space(#[trigger] a[k]),
        white_space(c),
    ensures
        first_space(a.push(c) + b) == a.len(),
        first_space(a) == a.len(),
    decreases a.len(),
{
    let s = a.push(c) + b;
    if a.len() > 0 {
        let rest = a.skip(1);
        assert forall|k: int| 0 <= k < rest.len() implies !white_space(#[trigger] rest[k]) by {
            assert(rest[k] == a[k + 1]);
        }
        law_first_space_is_found(rest, c, b);
        assert(s.skip(1) =~= rest.push(c) + b);
        assert(s[0] == a[0]);
    }
}

/// The digits count from the left, ten times as much each; a sign may stand before
/// them, and there must be at least one.
pub proof fn law_digits_count_tenfold(s: Seq<char>, d: char, max: nat)
    requires
        is_number(s),
        '0' <= d <= '9',
    ensures
        parsed_number(seq![d], max) == if d as u32 - 48 <= max {
            Some((d as u32 - 48) as nat)
        } else {
            None
        },
        parsed_number(s.push(d), max) == {
            let n = (10 * digits_value(s) + (d as u32 - 48)) as nat;
            if n <= max {
                Some(n)
            } else {
                None
            }
        },
        parsed_number(Seq::empty(), max) is None,
        parsed_number(seq!['+'], max) is None,
{
    assert(s.push(d).drop_last() =~= s);
    assert(s.push(d)[0] == s[0]);
    assert(is_number(s.push(d)));
    assert(seq![d].drop_last() =~= Seq::empty());
    reveal_with_fuel(digits_value, 2);
    assert(seq!['+'].skip(1).len() == 0);
}

/// A text that begins with neither a digit nor a sign is no number.
pub proof fn law_numbers_begin_with_a_digit(s: Seq<char>, max: nat)
    requires
        s.len() > 0,
        !('0' <= s[0] <= '9'),
        s[0] != '+',
    ensures
        parsed_number(s, max) is None,
{
    assert(!is_digit(s[0]));
}

/// Lists are joined one behind the other.
pub proof fn law_join_goes_part_by_part(a: Seq<Seq<char>>, b: Seq<Seq<char>>, x: Seq<char>, sep: Seq<char>)
    ensures
        a.len() > 0 && b.len() > 0 ==> join(a + b, sep) == join(a, sep) + sep + join(b, sep),
        join(seq![x], sep) == x,
        join(Seq::empty(), sep) == Seq::<char>::empty(),
    decreases b.len(),
{
    if a.len() > 0 && b.len() > 0 {
        assert((a + b).drop_last() =~= a + b.drop_last());
        assert((a + b).last() == b.last());
        if b.len() == 1 {
            assert(a + b.drop_last() =~= a);
        } else {
            law_join_goes_part_by_part(a, b.drop_last(), x, sep);
            assert(join(a + b, sep) =~= join(a, sep) + sep + join(b, sep));
        }
    }
}

/// A number is written without zeros in front.
pub proof fn law_decimal_has_no_leading_zero(n: nat)
    ensures
        decimal(n).len() > 0,
        n > 0 ==> decimal(n)[0] != '0',
        n < 10 ==> decimal(n).len() == 1,
    decreases n,
{
    if n >= 10 {
        law_decimal_has_no_leading_zero(n / 10);
    }
}

} // verus!
