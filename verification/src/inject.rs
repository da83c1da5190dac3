//! Scripts that run in the pages they are written for.
//!
//! Every `.js` file below the script directory begins with a header in the style
//! of a user script:
//!
//! ```text
//! // ==UserScript==
//! // @name  my script
//! // @match https://example.com/*
//! // ==/UserScript==
//! ```
//!
//! A file whose header is never closed, or gives no `@match`, is left out. Other
//! `@` lines are passed over, so that common user scripts can be used as they are.
//! One script that is put into every page, the dispatcher, holds all of them and
//! runs those that match.
use vstd::prelude::*;
use crate::cache_store;
use crate::json;
use crate::text;
use crate::util;
use crate::util::UserDataKind;

verus! {

/// A `@match` line.
#[derive(Debug, Clone, PartialEq, Eq)]
pub enum MatchPattern {
    /// A text in which `*` stands for anything; it is held against the whole URL.
    Glob(String),
    /// A regular expression of the page's own kind.
    Regex(String),
}

/// The model of [`MatchPattern`].
pub enum PatternView {
    Glob(Seq<char>),
    Regex(Seq<char>),
}

impl View for MatchPattern {
    type V = PatternView;

    open spec fn view(&self) -> PatternView {
        match self {
            MatchPattern::Glob(s) => PatternView::Glob(s@),
            MatchPattern::Regex(s) => PatternView::Regex(s@),
        }
    }
}

/// The models of a list of patterns.
pub open spec fn patterns_view(patterns: Seq<MatchPattern>) -> Seq<PatternView> {
    Seq::new(patterns.len(), |i: int| patterns[i]@)
}

/// A script, the name it goes by, and where it runs.
#[derive(Debug, Clone)]
pub struct InjectRule {
    pub name: String,
    /// At least one.
    pub patterns: Vec<MatchPattern>,
    /// The whole file.
    pub code: String,
}

/// The model of [`InjectRule`].
pub struct RuleView {
    pub name: Seq<char>,
    pub patterns: Seq<PatternView>,
    pub code: Seq<char>,
}

impl View for InjectRule {
    type V = RuleView;

    open spec fn view(&self) -> RuleView {
        RuleView { name: self.name@, patterns: patterns_view(self.patterns@), code: self.code@ }
    }
}

/// The models of a list of rules.
pub open spec fn rules_view(rules: Seq<InjectRule>) -> Seq<RuleView> {
    Seq::new(rules.len(), |i: int| rules[i]@)
}

// ---------------------------------------------------------------------------
// Headers.

/// The lines behind the first that opens a header.
pub open spec fn after_opening(lines: Seq<Seq<char>>) -> Seq<Seq<char>>
    decreases lines.len(),
{
    if lines.len() == 0 {
        Seq::empty()
    } else if text::trim_start(lines[0]) == "// ==UserScript=="@ {
        lines.skip(1)
    } else {
        after_opening(lines.skip(1))
    }
}

/// The lines before the first that closes a header.
pub open spec fn before_closing(lines: Seq<Seq<char>>) -> Seq<Seq<char>>
    decreases lines.len(),
{
    if lines.len() == 0 || text::trim_start(lines[0]) == "// ==/UserScript=="@ {
        Seq::empty()
    } else {
        seq![lines[0]] + before_closing(lines.skip(1))
    }
}

/// Whether one of the lines closes a header.
pub open spec fn has_closing(lines: Seq<Seq<char>>) -> bool {
    exists|i: int| 0 <= i < lines.len() && text::trim_start(#[trigger] lines[i]) == "// ==/UserScript=="@
}

/// The header that the lines behind its opening line begin with; one that is never
/// closed is none.
pub open spec fn closed_header(lines: Seq<Seq<char>>) -> Seq<Seq<char>> {
    if has_closing(lines) {
        before_closing(lines)
    } else {
        Seq::empty()
    }
}

/// The lines of the header of a script.
pub open spec fn header_lines(content: Seq<char>) -> Seq<Seq<char>> {
    closed_header(after_opening(text::lines(content)))
}

/// The key and the value of a header line, where it has both.
pub open spec fn field(line: Seq<char>) -> Option<(Seq<char>, Seq<char>)> {
    let l = text::trim_start(line);
    if text::starts_with(l, "// @"@) {
        let rest = l.skip(4);
        let space = text::first_space(rest);
        if space < rest.len() && text::trim(rest.skip(space + 1)).len() > 0 {
            Some((rest.take(space), text::trim(rest.skip(space + 1))))
        } else {
            None
        }
    } else {
        None
    }
}

/// The name that the lines give: the last one counts.
pub open spec fn declared_name(lines: Seq<Seq<char>>) -> Option<Seq<char>>
    decreases lines.len(),
{
    if lines.len() == 0 {
        None
    } else {
        match field(lines.last()) {
            Some((key, value)) => if key == "name"@ {
                Some(value)
            } else {
                declared_name(lines.drop_last())
            },
            None => declared_name(lines.drop_last()),
        }
    }
}

/// The pattern that the value of a `@match` line stands for.
pub open spec fn pattern_of(value: Seq<char>) -> PatternView {
    if text::starts_with(value, "regex:"@) {
        PatternView::Regex(value.skip(6))
    } else {
        PatternView::Glob(value)
    }
}

/// The patterns that the lines give, in order.
pub open spec fn declared_patterns(lines: Seq<Seq<char>>) -> Seq<PatternView>
    decreases lines.len(),
{
    if lines.len() == 0 {
        Seq::empty()
    } else {
        match field(lines.last()) {
            Some((key, value)) => if key == "match"@ {
                declared_patterns(lines.drop_last()).push(pattern_of(value))
            } else {
                declared_patterns(lines.drop_last())
            },
            None => declared_patterns(lines.drop_last()),
        }
    }
}

/// The key and the value of a header line, where it has both.
fn parse_field(line: &[char]) -> (r: Option<(String, Vec<char>)>)
    ensures
        match r {
            Some((key, value)) => field(line@) == Some((key@, value@)),
            None => field(line@) is None,
        },
{
    let l = text::trim_start_chars(line);
    let lead = text::chars_of("// @");
    proof {
        reveal_strlit("// @");
    }
    if !text::starts_with_chars(l, lead.as_slice()) {
        return None;
    }
    let rest = text::skip_chars(l, 4);
    let space = text::find_space(rest);
    if space >= rest.len() {
        return None;
    }
    let value = text::trim_chars(text::skip_chars(rest, space + 1));
    if value.len() == 0 {
        return None;
    }
    Some((text::string_of(text::take_chars(rest, space)), vstd::slice::slice_to_vec(value)))
}

/// The pattern that the value of a `@match` line stands for.
fn parse_pattern(value: &[char]) -> (r: MatchPattern)
    ensures
        r@ == pattern_of(value@),
{
    let lead = text::chars_of("regex:");
    proof {
        reveal_strlit("regex:");
    }
    if text::starts_with_chars(value, lead.as_slice()) {
        MatchPattern::Regex(text::string_of(text::skip_chars(value, 6)))
    } else {
        MatchPattern::Glob(text::string_of(value))
    }
}

/// Whether a line, without the space before it, is `marker`.
fn is_marker(line: &[char], marker: &str) -> (r: bool)
    ensures
        r == (text::trim_start(line@) == marker@),
{
    let wanted = text::chars_of(marker);
    text::same_chars(text::trim_start_chars(line), wanted.as_slice())
}

/// The name and the patterns of a script, where it has a header and that gives a
/// pattern.
pub fn parse_frontmatter(content: &str) -> (r: Option<(Option<String>, Vec<MatchPattern>)>)
    ensures
        r is Some <==> declared_patterns(header_lines(content@)).len() > 0,
        r matches Some((name, patterns)) ==> {
            &&& text::opt(name) == declared_name(header_lines(content@))
            &&& patterns_view(patterns@) == declared_patterns(header_lines(content@))
        },
{
    let chars = text::chars_of(content);
    let lines = text::split_lines(chars.as_slice());
    let ghost all = text::lines(content@);
    let mut i: usize = 0;
    proof {
        assert(all.skip(0) =~= all);
    }
    while i < lines.len() && !is_marker(lines[i].as_slice(), "// ==UserScript==")
        invariant
            i <= lines.len(),
            lines@.len() == all.len(),
            forall|k: int| 0 <= k < all.len() ==> (#[trigger] lines@[k])@ == all[k],
            after_opening(all) == after_opening(all.skip(i as int)),
        decreases lines.len() - i,
    {
        proof {
            assert(all.skip(i as int)[0] == lines@[i as int]@);
            assert(all.skip(i as int).skip(1) =~= all.skip(i + 1));
        }
        i += 1;
    }
    let mut name: Option<String> = None;
    let mut patterns: Vec<MatchPattern> = Vec::new();
    if i >= lines.len() {
        proof {
            assert(header_lines(content@) =~= Seq::empty());
        }
        return None;
    }
    proof {
        assert(all.skip(i as int)[0] == lines@[i as int]@);
        assert(all.skip(i as int).skip(1) =~= all.skip(i + 1));
    }
    let start: usize = i + 1;
    let ghost body = all.skip(start as int);
    let ghost block = before_closing(body);
    i = start;
    proof {
        assert(body == after_opening(all));
        assert(all.skip(i as int) =~= body);
        assert(Seq::<Seq<char>>::empty() + before_closing(body) =~= block);
        assert(patterns_view(patterns@) =~= declared_patterns(body.take(0)));
        assert(body.take(0) =~= Seq::empty());
    }
    while i < lines.len() && !is_marker(lines[i].as_slice(), "// ==/UserScript==")
        invariant
            start <= i <= lines.len(),
            lines@.len() == all.len(),
            forall|k: int| 0 <= k < all.len() ==> (#[trigger] lines@[k])@ == all[k],
            body == all.skip(start as int),
            block == before_closing(body),
            block == body.take(i - start) + before_closing(all.skip(i as int)),
            forall|k: int|
                0 <= k < i - start ==> text::trim_start(#[trigger] body[k]) != "// ==/UserScript=="@,
            text::opt(name) == declared_name(body.take(i - start)),
            patterns_view(patterns@) == declared_patterns(body.take(i - start)),
        decreases lines.len() - i,
    {
        let ghost seen = body.take(i - start);
        let ghost now = body.take(i + 1 - start);
        proof {
            assert(all.skip(i as int)[0] == lines@[i as int]@);
            assert(all.skip(i as int).skip(1) =~= all.skip(i + 1));
            assert(body[i - start] == all[i as int]);
            assert(now.drop_last() =~= seen);
            assert(now.last() == lines@[i as int]@);
            assert(block =~= now + before_closing(all.skip(i + 1)));
        }
        let ghost before = patterns@;
        if let Some((key, value)) = parse_field(lines[i].as_slice()) {
            proof {
                reveal_strlit("name");
                reveal_strlit("match");
                assert("name"@.len() != "match"@.len());
            }
            if text::same(key.as_str(), "name") {
                name = Some(text::string_of(value.as_slice()));
            } else if text::same(key.as_str(), "match") {
                let pattern = parse_pattern(value.as_slice());
                let ghost p = pattern@;
                patterns.push(pattern);
                proof {
                    assert(patterns_view(patterns@) =~= patterns_view(before).push(p));
                }
            }
        }
        i += 1;
    }
    if i >= lines.len() {
        proof {
            assert(!has_closing(body));
        }
        return None;
    }
    proof {
        let seen = body.take(i - start);
        assert(all.skip(i as int)[0] == lines@[i as int]@);
        assert(body[i - start] == lines@[i as int]@);
        assert(has_closing(body));
        assert(before_closing(all.skip(i as int)) =~= Seq::empty());
        assert(block =~= seen);
        assert(patterns_view(patterns@).len() == patterns@.len());
    }
    if patterns.len() == 0 {
        return None;
    }
    Some((name, patterns))
}

proof fn lemma_header_ends_at_its_closing_line(before: Seq<Seq<char>>, after: Seq<Seq<char>>, other: Seq<Seq<char>>)
    ensures
        before_closing(before + seq!["// ==/UserScript=="@] + after) == before_closing(
            before + seq!["// ==/UserScript=="@] + other,
        ),
    decreases before.len(),
{
    let close = seq!["// ==/UserScript=="@];
    let a = before + close + after;
    let b = before + close + other;
    if before.len() == 0 {
        reveal_strlit("// ==/UserScript==");
        assert(a[0] == "// ==/UserScript=="@ && b[0] == "// ==/UserScript=="@);
        assert(text::trim_start("// ==/UserScript=="@) == "// ==/UserScript=="@);
    } else {
        lemma_header_ends_at_its_closing_line(before.skip(1), after, other);
        assert(a.skip(1) =~= before.skip(1) + close + after);
        assert(b.skip(1) =~= before.skip(1) + close + other);
        assert(a[0] == before[0] && b[0] == before[0]);
    }
}

/// What stands behind the header of a script has no say in where it runs.
pub proof fn law_header_ends_at_its_closing_line(before: Seq<Seq<char>>, after: Seq<Seq<char>>, other: Seq<Seq<char>>)
    ensures
        closed_header(before + seq!["// ==/UserScript=="@] + after) == closed_header(
            before + seq!["// ==/UserScript=="@] + other,
        ),
{
    let close = seq!["// ==/UserScript=="@];
    let a = before + close + after;
    let b = before + close + other;
    let n = before.len() as int;
    lemma_header_ends_at_its_closing_line(before, after, other);
    reveal_strlit("// ==/UserScript==");
    assert(a[n] == "// ==/UserScript=="@ && b[n] == "// ==/UserScript=="@);
    assert(text::trim_start("// ==/UserScript=="@) == "// ==/UserScript=="@);
}

/// A script whose header is never closed has no header: nothing in it says where
/// it runs.
pub proof fn law_open_header_gives_no_pattern(content: Seq<char>)
    requires
        !has_closing(after_opening(text::lines(content))),
    ensures
        declared_patterns(header_lines(content)).len() == 0,
        declared_name(header_lines(content)) is None,
{
}

// ---------------------------------------------------------------------------
// The script directory.

/// A file below the script directory: its path relative to the directory, and
/// what it holds, where it could be read.
pub struct ScriptFile {
    pub path: String,
    pub content: Option<String>,
}

/// Whether a path is that of a script: it ends with the extension `.js`.
pub open spec fn is_script(path: Seq<char>) -> bool {
    cache_store::extension(cache_store::file_name(path)) == ".js"@
}

/// The name of a file without directory and extension.
pub open spec fn stem(path: Seq<char>) -> Seq<char> {
    let name = cache_store::file_name(path);
    name.take(name.len() - cache_store::extension(name).len())
}

/// Whether one list of names comes before another: by the first name in which
/// they differ.
pub open spec fn names_before(a: Seq<Seq<char>>, b: Seq<Seq<char>>) -> bool
    decreases a.len(),
{
    if b.len() == 0 {
        false
    } else if a.len() == 0 {
        true
    } else if a[0] == b[0] {
        names_before(a.skip(1), b.skip(1))
    } else {
        text::before(a[0], b[0])
    }
}

/// Whether one path comes before another: by the first name in which they differ.
pub open spec fn path_before(a: Seq<char>, b: Seq<char>) -> bool {
    names_before(text::split(a, '/'), text::split(b, '/'))
}

/// Whether files stand in the order of their paths.
pub open spec fn in_path_order(files: Seq<ScriptFile>) -> bool {
    forall|i: int, j: int|
        0 <= i < j < files.len() ==> !path_before((#[trigger] files[j]).path@, (#[trigger] files[i]).path@)
}

/// The rule that a file gives, where it is a script that could be read and whose
/// header gives a pattern.
pub open spec fn rule_of(file: ScriptFile) -> Option<RuleView> {
    match file.content {
        Some(content) => {
            let header = header_lines(content@);
            if is_script(file.path@) && declared_patterns(header).len() > 0 {
                Some(
                    RuleView {
                        name: match declared_name(header) {
                            Some(name) => name,
                            None => stem(file.path@),
                        },
                        patterns: declared_patterns(header),
                        code: content@,
                    },
                )
            } else {
                None
            }
        },
        None => None,
    }
}

/// The rules that files give, in order.
pub open spec fn rules_of(files: Seq<ScriptFile>) -> Seq<RuleView>
    decreases files.len(),
{
    if files.len() == 0 {
        Seq::empty()
    } else {
        match rule_of(files.last()) {
            Some(rule) => rules_of(files.drop_last()).push(rule),
            None => rules_of(files.drop_last()),
        }
    }
}

proof fn lemma_names_before_total(a: Seq<Seq<char>>, b: Seq<Seq<char>>)
    ensures
        names_before(a, b) || names_before(b, a) || a == b,
        !(names_before(a, b) && names_before(b, a)),
        a == b ==> !names_before(a, b),
    decreases a.len(),
{
    if a.len() > 0 && b.len() > 0 {
        text::lemma_before_total(a[0], b[0]);
        if a[0] == b[0] {
            lemma_names_before_total(a.skip(1), b.skip(1));
            if a.skip(1) == b.skip(1) {
                assert(a =~= seq![a[0]] + a.skip(1));
                assert(b =~= seq![b[0]] + b.skip(1));
            }
        }
    } else if a.len() == 0 && b.len() == 0 {
        assert(a =~= b);
    }
}

proof fn lemma_names_before_transitive(a: Seq<Seq<char>>, b: Seq<Seq<char>>, c: Seq<Seq<char>>)
    requires
        names_before(a, b),
        names_before(b, c),
    ensures
        names_before(a, c),
    decreases a.len(),
{
    if a.len() > 0 {
        text::lemma_before_total(a[0], b[0]);
        text::lemma_before_total(b[0], c[0]);
        if a[0] == b[0] {
            if b[0] == c[0] {
                lemma_names_before_transitive(a.skip(1), b.skip(1), c.skip(1));
            }
        } else if b[0] != c[0] {
            text::lemma_before_transitive(a[0], b[0], c[0]);
            text::lemma_before_total(a[0], c[0]);
        }
    }
}

/// Where `a` does not come after `b`, nor `b` after `c`, `a` does not come after
/// `c`.
proof fn lemma_path_order_transitive(a: Seq<char>, b: Seq<char>, c: Seq<char>)
    requires
        !path_before(b, a),
        !path_before(c, b),
    ensures
        !path_before(c, a),
{
    let (x, y, z) = (text::split(a, '/'), text::split(b, '/'), text::split(c, '/'));
    lemma_names_before_total(x, y);
    if names_before(z, x) && names_before(x, y) {
        lemma_names_before_transitive(z, x, y);
    }
}

/// Whether one path comes before another.
fn is_path_before(a: &str, b: &str) -> (r: bool)
    ensures
        r == path_before(a@, b@),
{
    let ac = text::chars_of(a);
    let bc = text::chars_of(b);
    let x = text::split_chars(ac.as_slice(), '/');
    let y = text::split_chars(bc.as_slice(), '/');
    let ghost xs = text::split(a@, '/');
    let ghost ys = text::split(b@, '/');
    let mut i: usize = 0;
    proof {
        assert(xs.skip(0) =~= xs);
        assert(ys.skip(0) =~= ys);
    }
    while i < x.len() && i < y.len() && text::same_chars(x[i].as_slice(), y[i].as_slice())
        invariant
            i <= x.len(),
            i <= y.len(),
            x@.len() == xs.len(),
            y@.len() == ys.len(),
            forall|k: int| 0 <= k < xs.len() ==> (#[trigger] x@[k])@ == xs[k],
            forall|k: int| 0 <= k < ys.len() ==> (#[trigger] y@[k])@ == ys[k],
            names_before(xs, ys) == names_before(xs.skip(i as int), ys.skip(i as int)),
        decreases x.len() - i,
    {
        proof {
            assert(x@[i as int]@ == xs[i as int]);
            assert(y@[i as int]@ == ys[i as int]);
            assert(xs.skip(i as int).skip(1) =~= xs.skip(i + 1));
            assert(ys.skip(i as int).skip(1) =~= ys.skip(i + 1));
        }
        i += 1;
    }
    if i >= y.len() {
        false
    } else if i >= x.len() {
        true
    } else {
        proof {
            assert(x@[i as int]@ == xs[i as int]);
            assert(y@[i as int]@ == ys[i as int]);
        }
        text::is_before(x[i].as_slice(), y[i].as_slice())
    }
}

/// The files in the order of their paths.
pub fn sort_by_path(files: Vec<ScriptFile>) -> (r: Vec<ScriptFile>)
    ensures
        in_path_order(r@),
        r@.to_multiset() == files@.to_multiset(),
{
    let mut remaining: Vec<ScriptFile> = files;
    let mut out: Vec<ScriptFile> = Vec::new();
    proof {
        broadcast use vstd::multiset::group_multiset_axioms;
        broadcast use vstd::seq_lib::group_to_multiset_ensures;
        assert(out@.to_multiset().len() == 0);
        assert(remaining@.to_multiset().add(out@.to_multiset()) =~= files@.to_multiset());
    }
    while remaining.len() > 0
        invariant
            in_path_order(out@),
            remaining@.to_multiset().add(out@.to_multiset()) == files@.to_multiset(),
        decreases remaining.len(),
    {
        let ghost left = remaining@;
        let ghost sorted = out@;
        let file = remaining.remove(0);
        let ghost added = file;
        let mut at: usize = 0;
        while at < out.len() && !is_path_before(file.path.as_str(), out[at].path.as_str())
            invariant
                at <= out.len(),
                out@ == sorted,
                forall|j: int|
                    0 <= j < at ==> !path_before(file.path@, (#[trigger] sorted[j]).path@),
            decreases out.len() - at,
        {
            at += 1;
        }
        out.insert(at, file);
        proof {
            broadcast use vstd::multiset::group_multiset_axioms;
            assert(remaining@ =~= left.remove(0));
            assert(out@ =~= sorted.insert(at as int, added));
            vstd::seq_lib::to_multiset_remove(left, 0);
            vstd::seq_lib::to_multiset_insert(sorted, at as int, added);
            assert(left.to_multiset().count(added) > 0) by {
                broadcast use vstd::seq_lib::group_to_multiset_ensures;
                assert(left[0] == added);
                assert(left.contains(added));
            }
            assert(remaining@.to_multiset().add(out@.to_multiset()) =~= left.to_multiset().add(
                sorted.to_multiset(),
            ));
            assert forall|i: int, j: int| 0 <= i < j < out@.len() implies !path_before(
                (#[trigger] out@[j]).path@,
                (#[trigger] out@[i]).path@,
            ) by {
                let k: int = at as int;
                lemma_names_before_total(
                    text::split(out@[i].path@, '/'),
                    text::split(out@[j].path@, '/'),
                );
                if i == k {
                    // The new file comes before the one it was put in front of.
                    assert(sorted[j - 1] == out@[j]);
                    lemma_names_before_total(
                        text::split(added.path@, '/'),
                        text::split(sorted[k].path@, '/'),
                    );
                    if j - 1 > k {
                        assert(!path_before(sorted[j - 1].path@, sorted[k].path@));
                        lemma_path_order_transitive(added.path@, sorted[k].path@, sorted[j - 1].path@);
                    }
                } else if j == k {
                    assert(sorted[i] == out@[i]);
                } else {
                    assert(out@[i] == sorted[if i < k {
                        i
                    } else {
                        i - 1
                    }]);
                    assert(out@[j] == sorted[if j < k {
                        j
                    } else {
                        j - 1
                    }]);
                }
            }
        }
    }
    proof {
        broadcast use vstd::multiset::group_multiset_axioms;
        broadcast use vstd::seq_lib::group_to_multiset_ensures;
        assert(remaining@.to_multiset().len() == 0);
        assert(out@.to_multiset() =~= files@.to_multiset());
    }
    out
}

/// The name of a file without directory and extension, where it is a script.
pub fn script_stem(path: &str) -> (r: Option<String>)
    ensures
        match r {
            Some(s) => is_script(path@) && s@ == stem(path@),
            None => !is_script(path@),
        },
{
    let chars = text::chars_of(path);
    proof {
        text::lemma_last_index(path@, '/');
    }
    let start: usize = match text::last_index_of(chars.as_slice(), '/') {
        Some(i) => i + 1,
        None => 0,
    };
    let name = text::skip_chars(chars.as_slice(), start);
    proof {
        text::lemma_last_index(name@, '.');
        reveal_strlit(".js");
        assert(".js"@.len() == 3);
        assert(name@ == cache_store::file_name(path@));
    }
    match text::last_index_of(name, '.') {
        Some(dot) => {
            if dot == 0 {
                return None;
            }
            let ext = text::string_of(text::skip_chars(name, dot));
            if text::same(ext.as_str(), ".js") {
                Some(text::string_of(text::take_chars(name, dot)))
            } else {
                None
            }
        },
        None => None,
    }
}

/// The rule that a file gives.
fn file_rule(file: &ScriptFile) -> (r: Option<InjectRule>)
    ensures
        match r {
            Some(rule) => rule_of(*file) == Some(rule@),
            None => rule_of(*file) is None,
        },
{
    let stem = match script_stem(file.path.as_str()) {
        Some(s) => s,
        None => {
            return None;
        },
    };
    match &file.content {
        None => None,
        Some(content) => match parse_frontmatter(content.as_str()) {
            None => None,
            Some((name, patterns)) => {
                let name = match name {
                    Some(n) => n,
                    None => stem,
                };
                Some(InjectRule { name, patterns, code: content.clone() })
            },
        },
    }
}

/// The rules that files give, in order.
pub fn rules_from(files: &Vec<ScriptFile>) -> (r: Vec<InjectRule>)
    ensures
        rules_view(r@) == rules_of(files@),
{
    let mut out: Vec<InjectRule> = Vec::new();
    let mut i: usize = 0;
    proof {
        assert(rules_view(out@) =~= rules_of(files@.take(0)));
    }
    while i < files.len()
        invariant
            i <= files.len(),
            rules_view(out@) == rules_of(files@.take(i as int)),
        decreases files.len() - i,
    {
        let ghost before = out@;
        proof {
            assert(files@.take(i + 1).drop_last() =~= files@.take(i as int));
        }
        if let Some(rule) = file_rule(&files[i]) {
            let ghost v = rule@;
            out.push(rule);
            proof {
                assert(rules_view(out@) =~= rules_view(before).push(v));
            }
        }
        i += 1;
    }
    proof {
        assert(files@.take(i as int) =~= files@);
    }
    out
}

/// The rules of the script directory, given the files below it: those of the
/// scripts, in the order of their paths.
pub fn scan_inject_dir(files: Vec<ScriptFile>) -> (r: Vec<InjectRule>)
    ensures
        exists|sorted: Seq<ScriptFile>| #[trigger]
            in_path_order(sorted) && sorted.to_multiset() == files@.to_multiset() && rules_view(r@)
                == rules_of(sorted),
{
    let sorted = sort_by_path(files);
    let rules = rules_from(&sorted);
    proof {
        assert(in_path_order(sorted@));
    }
    rules
}

/// Every rule has a pattern.
pub proof fn law_every_rule_has_a_pattern(files: Seq<ScriptFile>, i: int)
    requires
        0 <= i < rules_of(files).len(),
    ensures
        rules_of(files)[i].patterns.len() > 0,
    decreases files.len(),
{
    if files.len() > 0 {
        let rest = rules_of(files.drop_last());
        if i < rest.len() {
            law_every_rule_has_a_pattern(files.drop_last(), i);
        }
    }
}

/// The script directory: in the data directory, or else in the working
/// directory, given which of them are there.
pub fn resolve_inject_dir(roots: &util::DataRoots, in_data_root: bool, in_working_dir: bool) -> (r: Option<String>)
    ensures
        text::opt(r) == if roots.data_root() is Some && in_data_root {
            Some(util::joined(roots.data_root()->0, "inject"@))
        } else if in_working_dir {
            Some("inject"@)
        } else {
            None
        },
{
    if let Some(primary) = util::user_data_dir(UserDataKind::Inject, roots) {
        if in_data_root {
            return Some(primary);
        }
    }
    if in_working_dir {
        Some("inject".to_owned())
    } else {
        None
    }
}

// ---------------------------------------------------------------------------
// The dispatcher.

/// The dispatcher up to its rules: it matches the address of the page against a
/// glob, in which `*` also stands for slashes, or against a regular expression,
/// of which a faulty one matches nothing.
pub const DISPATCHER_HEAD: &'static str = r#"(function(){
'use strict';
var url=location.href;
function matchGlob(pattern,url){
  var re=new RegExp('^'+pattern.replace(/[.+?^${}()|[\]\\]/g,'\\$&').replace(/\*/g,'.*')+'$');
  return re.test(url);
}
function matchRegex(pattern,url){
  try{return new RegExp(pattern).test(url);}
  catch(e){console.error('[hook-inject] bad regex:',pattern,e);return false;}
}
var rules=["#;

/// The dispatcher behind its rules: it runs each rule that matches in a function
/// of its own; one that fails does not keep the others from running.
pub const DISPATCHER_TAIL: &'static str = r#"];
rules.forEach(function(rule){
  var hit=rule.patterns.some(function(p){
    return p.kind==='regex'?matchRegex(p.value,url):matchGlob(p.value,url);
  });
  if(!hit) return;
  try{(new Function(rule.code))();}
  catch(e){console.error('[hook-inject] rule "'+rule.name+'" failed:',e);}
});
})();"#;

/// How the dispatcher writes a pattern.
pub open spec fn pattern_js(p: PatternView) -> Seq<char> {
    match p {
        PatternView::Glob(value) => "{kind:"@ + json::json_string("glob"@) + ",value:"@
            + json::json_string(value) + "},"@,
        PatternView::Regex(value) => "{kind:"@ + json::json_string("regex"@) + ",value:"@
            + json::json_string(value) + "},"@,
    }
}

/// How the dispatcher writes a list of patterns.
pub open spec fn patterns_js(patterns: Seq<PatternView>) -> Seq<char>
    decreases patterns.len(),
{
    if patterns.len() == 0 {
        Seq::empty()
    } else {
        patterns_js(patterns.drop_last()) + pattern_js(patterns.last())
    }
}

/// How the dispatcher writes a rule: every text in it as a JSON string.
pub open spec fn rule_js(rule: RuleView) -> Seq<char> {
    "{name:"@ + json::json_string(rule.name) + ",patterns:["@ + patterns_js(rule.patterns) + "],code:"@
        + json::json_string(rule.code) + "},"@
}

/// How the dispatcher writes its rules.
pub open spec fn rules_js(rules: Seq<RuleView>) -> Seq<char>
    decreases rules.len(),
{
    if rules.len() == 0 {
        Seq::empty()
    } else {
        rules_js(rules.drop_last()) + rule_js(rules.last())
    }
}

/// How the dispatcher writes a pattern.
fn write_pattern(p: &MatchPattern) -> (r: String)
    ensures
        r@ == pattern_js(p@),
{
    let (kind, value) = match p {
        MatchPattern::Glob(v) => ("glob", v),
        MatchPattern::Regex(v) => ("regex", v),
    };
    let mut out: String = "{kind:".to_owned();
    let k = json::json_str(kind);
    out.append(k.as_str());
    out.append(",value:");
    let v = json::json_str(value.as_str());
    out.append(v.as_str());
    out.append("},");
    out
}

/// How the dispatcher writes a list of patterns.
fn write_patterns(patterns: &Vec<MatchPattern>) -> (r: String)
    ensures
        r@ == patterns_js(patterns_view(patterns@)),
{
    let mut out: String = String::new();
    let ghost all = patterns_view(patterns@);
    let mut i: usize = 0;
    proof {
        assert(out@ =~= patterns_js(all.take(0)));
    }
    while i < patterns.len()
        invariant
            i <= patterns.len(),
            all == patterns_view(patterns@),
            out@ == patterns_js(all.take(i as int)),
        decreases patterns.len() - i,
    {
        proof {
            assert(all.take(i + 1).drop_last() =~= all.take(i as int));
            assert(all.take(i + 1).last() == patterns@[i as int]@);
        }
        let written = write_pattern(&patterns[i]);
        out.append(written.as_str());
        i += 1;
    }
    proof {
        assert(all.take(i as int) =~= all);
    }
    out
}

/// How the dispatcher writes a rule.
fn write_rule(rule: &InjectRule) -> (r: String)
    ensures
        r@ == rule_js(rule@),
{
    let mut out: String = "{name:".to_owned();
    let name = json::json_str(rule.name.as_str());
    out.append(name.as_str());
    out.append(",patterns:[");
    let patterns = write_patterns(&rule.patterns);
    out.append(patterns.as_str());
    out.append("],code:");
    let code = json::json_str(rule.code.as_str());
    out.append(code.as_str());
    out.append("},");
    out
}

/// The script that is put into every page, where there are rules.
pub fn build_dispatcher_js(rules: &[InjectRule]) -> (r: Option<String>)
    ensures
        text::opt(r) == if rules@.len() == 0 {
            None
        } else {
            Some(DISPATCHER_HEAD@ + rules_js(rules_view(rules@)) + DISPATCHER_TAIL@)
        },
{
    if rules.len() == 0 {
        return None;
    }
    let mut out: String = DISPATCHER_HEAD.to_owned();
    let ghost all = rules_view(rules@);
    let mut i: usize = 0;
    proof {
        assert(out@ =~= DISPATCHER_HEAD@ + rules_js(all.take(0)));
    }
    while i < rules.len()
        invariant
            i <= rules.len(),
            all == rules_view(rules@),
            out@ == DISPATCHER_HEAD@ + rules_js(all.take(i as int)),
        decreases rules.len() - i,
    {
        proof {
            assert(all.take(i + 1).drop_last() =~= all.take(i as int));
            assert(all.take(i + 1).last() == rules@[i as int]@);
        }
        let written = write_rule(&rules[i]);
        let ghost before = out@;
        out.append(written.as_str());
        proof {
            assert(out@ =~= DISPATCHER_HEAD@ + rules_js(all.take(i + 1)));
        }
        i += 1;
    }
    proof {
        assert(all.take(i as int) =~= all);
    }
    out.append(DISPATCHER_TAIL);
    Some(out)
}

// ---------------------------------------------------------------------------
// What holds of scripts.

/// The header is what stands between the first line that opens one and the first
/// line after it that closes one, all of it and nothing else.
pub proof fn law_header_stands_between_its_lines(
    before: Seq<Seq<char>>,
    open: Seq<char>,
    inner: Seq<Seq<char>>,
    close: Seq<char>,
    after: Seq<Seq<char>>,
)
    requires
        forall|i: int| 0 <= i < before.len() ==> text::trim_start(#[trigger] before[i]) != "// ==UserScript=="@,
        text::trim_start(open) == "// ==UserScript=="@,
        forall|i: int| 0 <= i < inner.len() ==> text::trim_start(#[trigger] inner[i]) != "// ==/UserScript=="@,
        text::trim_start(close) == "// ==/UserScript=="@,
    ensures
        closed_header(after_opening(before + seq![open] + inner + seq![close] + after)) == inner,
{
    let rest = inner + seq![close] + after;
    lemma_after_opening(before, open, rest);
    assert(before + seq![open] + inner + seq![close] + after =~= before + seq![open] + rest);
    lemma_before_closing(inner, close, after);
    assert(rest[inner.len() as int] == close);
    assert(has_closing(rest));
}

/// The header of a script is that of its lines.
pub proof fn law_header_is_that_of_the_lines(content: Seq<char>)
    ensures
        header_lines(content) == closed_header(after_opening(text::lines(content))),
        (forall|i: int|
            0 <= i < text::lines(content).len() ==> text::trim_start(#[trigger] text::lines(content)[i])
                != "// ==UserScript=="@) ==> header_lines(content).len() == 0,
{
    lemma_no_opening(text::lines(content));
}

proof fn lemma_no_opening(lines: Seq<Seq<char>>)
    ensures
        (forall|i: int| 0 <= i < lines.len() ==> text::trim_start(#[trigger] lines[i]) != "// ==UserScript=="@)
            ==> after_opening(lines).len() == 0,
    decreases lines.len(),
{
    if lines.len() > 0 && forall|i: int|
        0 <= i < lines.len() ==> text::trim_start(#[trigger] lines[i]) != "// ==UserScript=="@ {
        let rest = lines.skip(1);
        assert forall|i: int| 0 <= i < rest.len() implies text::trim_start(#[trigger] rest[i])
            != "// ==UserScript=="@ by {
            assert(rest[i] == lines[i + 1]);
        }
        lemma_no_opening(rest);
    }
}

proof fn lemma_after_opening(before: Seq<Seq<char>>, open: Seq<char>, rest: Seq<Seq<char>>)
    requires
        forall|i: int| 0 <= i < before.len() ==> text::trim_start(#[trigger] before[i]) != "// ==UserScript=="@,
        text::trim_start(open) == "// ==UserScript=="@,
    ensures
        after_opening(before + seq![open] + rest) == rest,
    decreases before.len(),
{
    let all = before + seq![open] + rest;
    if before.len() == 0 {
        assert(all[0] == open);
        assert(all.skip(1) =~= rest);
    } else {
        let fewer = before.skip(1);
        assert forall|i: int| 0 <= i < fewer.len() implies text::trim_start(#[trigger] fewer[i])
            != "// ==UserScript=="@ by {
            assert(fewer[i] == before[i + 1]);
        }
        lemma_after_opening(fewer, open, rest);
        assert(all[0] == before[0]);
        assert(all.skip(1) =~= fewer + seq![open] + rest);
    }
}

proof fn lemma_before_closing(inner: Seq<Seq<char>>, close: Seq<char>, after: Seq<Seq<char>>)
    requires
        forall|i: int| 0 <= i < inner.len() ==> text::trim_start(#[trigger] inner[i]) != "// ==/UserScript=="@,
        text::trim_start(close) == "// ==/UserScript=="@,
    ensures
        before_closing(inner + seq![close] + after) == inner,
    decreases inner.len(),
{
    let all = inner + seq![close] + after;
    if inner.len() == 0 {
        assert(all[0] == close);
        assert(before_closing(all) =~= inner);
    } else {
        let fewer = inner.skip(1);
        assert forall|i: int| 0 <= i < fewer.len() implies text::trim_start(#[trigger] fewer[i])
            != "// ==/UserScript=="@ by {
            assert(fewer[i] == inner[i + 1]);
        }
        lemma_before_closing(fewer, close, after);
        assert(all[0] == inner[0]);
        assert(all.skip(1) =~= fewer + seq![close] + after);
        assert(before_closing(all) =~= inner);
    }
}

/// A header line is `// @`, a key, white space and a value: the key is what stands
/// before the white space, and the value what stands behind it, without the space
/// around it. A line without a value says nothing.
pub proof fn law_line_has_a_key_and_a_value(line: Seq<char>, key: Seq<char>, space: char, value: Seq<char>)
    requires
        text::trim_start(line) == "// @"@ + key + seq![space] + value,
        forall|k: int| 0 <= k < key.len() ==> !text::white_space(#[trigger] key[k]),
        text::white_space(space),
    ensures
        text::trim(value).len() > 0 ==> field(line) == Some((key, text::trim(value))),
        text::trim(value).len() == 0 ==> field(line) is None,
{
    reveal_strlit("// @");
    let l = text::trim_start(line);
    let rest = key.push(space) + value;
    assert(l.take(4) =~= "// @"@);
    assert(l.skip(4) =~= rest);
    text::law_first_space_is_found(key, space, value);
    assert(rest.take(key.len() as int) =~= key);
    assert(rest.skip(key.len() as int + 1) =~= value);
}

/// A line that does not begin with `// @` says nothing, and neither does one
/// without white space behind its key.
pub proof fn law_other_lines_say_nothing(line: Seq<char>, key: Seq<char>)
    ensures
        !text::starts_with(text::trim_start(line), "// @"@) ==> field(line) is None,
        text::trim_start(line) == "// @"@ + key && (forall|k: int|
            0 <= k < key.len() ==> !text::white_space(#[trigger] key[k])) ==> field(line) is None,
{
    if text::trim_start(line) == "// @"@ + key && (forall|k: int|
        0 <= k < key.len() ==> !text::white_space(#[trigger] key[k])) {
        reveal_strlit("// @");
        assert(text::trim_start(line).skip(4) =~= key);
        text::law_first_space_is_found(key, ' ', Seq::empty());
    }
}

/// Every `@match` line of a header gives its pattern, in the order of the lines, and
/// no other line gives one: the patterns of two pieces of a header are those of the
/// first and then those of the second.
pub proof fn law_every_match_line_counts(a: Seq<Seq<char>>, b: Seq<Seq<char>>, line: Seq<char>)
    ensures
        declared_patterns(a + b) == declared_patterns(a) + declared_patterns(b),
        (field(line) matches Some((key, value)) && key == "match"@) ==> declared_patterns(seq![line]) == seq![
            pattern_of((field(line)->0).1),
        ],
        !(field(line) matches Some((key, value)) && key == "match"@) ==> declared_patterns(seq![line]).len() == 0,
    decreases b.len(),
{
    if b.len() == 0 {
        assert(a + b =~= a);
        assert(declared_patterns(a) + declared_patterns(b) =~= declared_patterns(a));
    } else {
        law_every_match_line_counts(a, b.drop_last(), line);
        assert((a + b).drop_last() =~= a + b.drop_last());
        assert((a + b).last() == b.last());
        assert(declared_patterns(a + b) =~= declared_patterns(a) + declared_patterns(b));
    }
    reveal_with_fuel(declared_patterns, 2);
    assert(seq![line].drop_last() =~= Seq::<Seq<char>>::empty());
    assert(seq![line].last() == line);
    assert(declared_patterns(Seq::<Seq<char>>::empty()) =~= Seq::empty());
    if field(line) matches Some((key, value)) && key == "match"@ {
        assert(declared_patterns(seq![line]) =~= seq![pattern_of((field(line)->0).1)]);
    }
}

/// The pattern of each `@match` line is among the patterns of the script.
pub proof fn law_no_match_line_is_lost(lines: Seq<Seq<char>>, i: int)
    requires
        0 <= i < lines.len(),
        field(lines[i]) matches Some((key, value)) && key == "match"@,
    ensures
        declared_patterns(lines).contains(pattern_of((field(lines[i])->0).1)),
{
    let (before, after) = (lines.take(i), lines.skip(i + 1));
    let p = pattern_of((field(lines[i])->0).1);
    assert(lines =~= before + seq![lines[i]] + after);
    law_every_match_line_counts(before + seq![lines[i]], after, lines[i]);
    law_every_match_line_counts(before, seq![lines[i]], lines[i]);
    assert(declared_patterns(lines)[declared_patterns(before).len() as int] == p);
}

/// A value with `regex:` before it is a regular expression, any other a glob, whole.
pub proof fn law_what_a_pattern_is(value: Seq<char>)
    ensures
        pattern_of("regex:"@ + value) == PatternView::Regex(value),
        !text::starts_with(value, "regex:"@) ==> pattern_of(value) == PatternView::Glob(value),
{
    reveal_strlit("regex:");
    let s = "regex:"@ + value;
    assert(s.take(6) =~= "regex:"@);
    assert(s.skip(6) =~= value);
}

/// The last `@name` line counts.
pub proof fn law_last_name_counts(a: Seq<Seq<char>>, b: Seq<Seq<char>>, line: Seq<char>)
    ensures
        declared_name(a + b) == match declared_name(b) {
            Some(name) => Some(name),
            None => declared_name(a),
        },
        declared_name(seq![line]) == if field(line) matches Some((key, value)) && key == "name"@ {
            Some((field(line)->0).1)
        } else {
            None
        },
    decreases b.len(),
{
    if b.len() == 0 {
        assert(a + b =~= a);
    } else {
        law_last_name_counts(a, b.drop_last(), line);
        assert((a + b).drop_last() =~= a + b.drop_last());
        assert((a + b).last() == b.last());
    }
    reveal_with_fuel(declared_name, 2);
    assert(seq![line].drop_last() =~= Seq::<Seq<char>>::empty());
    assert(seq![line].last() == line);
}

/// A file is a script where its name ends with `.js` behind something, and goes by
/// what stands before that.
pub proof fn law_which_files_are_scripts(dir: Seq<char>, name: Seq<char>)
    requires
        dir.len() == 0 || dir.last() == '/',
        name.len() > 0,
        !name.contains('/'),
    ensures
        is_script(dir + name + ".js"@),
        stem(dir + name + ".js"@) == name,
        is_script(dir + name) ==> text::ends_with(name, ".js"@) && name.len() > 3,
{
    reveal_strlit(".js");
    let full = name + ".js"@;
    assert(full =~= name + seq!['.', 'j', 's']);
    assert(dir + name + ".js"@ =~= dir + full);
    assert(!full.contains('/')) by {
        assert forall|k: int| 0 <= k < full.len() implies full[k] != '/' by {
            if k < name.len() {
                assert(name.contains(name[k]));
            }
        }
    }
    cache_store::lemma_file_name(dir, full);
    cache_store::lemma_file_name(dir, name);
    text::lemma_last_index(full, '.');
    text::lemma_last_index(name, '.');
    let dot = text::last_index(full, '.');
    assert(full[name.len() as int] == '.');
    assert(full[name.len() as int + 1] == 'j' && full[name.len() as int + 2] == 's');
    assert(dot == name.len());
    assert(full.skip(dot) =~= ".js"@);
    assert(full.take(full.len() - 3) =~= name);
}

/// Every script that could be read and whose header gives a pattern is a rule, with
/// its patterns, its whole text, and the name that it gives itself or else that of
/// its file; nothing else is a rule, and the rules stand in the order of the files.
pub proof fn law_every_script_is_a_rule(a: Seq<ScriptFile>, b: Seq<ScriptFile>, file: ScriptFile)
    ensures
        rules_of(a + b) == rules_of(a) + rules_of(b),
        ({
            let header = header_lines(file.content->0@);
            rules_of(seq![file]) == if file.content is Some && is_script(file.path@) && declared_patterns(
                header,
            ).len() > 0 {
                seq![
                    RuleView {
                        name: if declared_name(header) is Some {
                            declared_name(header)->0
                        } else {
                            stem(file.path@)
                        },
                        patterns: declared_patterns(header),
                        code: file.content->0@,
                    },
                ]
            } else {
                Seq::empty()
            }
        }),
    decreases b.len(),
{
    if b.len() == 0 {
        assert(a + b =~= a);
        assert(rules_of(a) + rules_of(b) =~= rules_of(a));
    } else {
        law_every_script_is_a_rule(a, b.drop_last(), file);
        assert((a + b).drop_last() =~= a + b.drop_last());
        assert((a + b).last() == b.last());
        assert(rules_of(a + b) =~= rules_of(a) + rules_of(b));
    }
    reveal_with_fuel(rules_of, 2);
    assert(seq![file].drop_last() =~= Seq::<ScriptFile>::empty());
    assert(seq![file].last() == file);
    assert(rules_of(Seq::<ScriptFile>::empty()) =~= Seq::empty());
    if rule_of(file) is Some {
        assert(rules_of(seq![file]) =~= seq![rule_of(file)->0]);
    }
}

/// Paths are ordered name by name: the first name decides in which they differ, and
/// a directory comes before what lies in it.
pub proof fn law_paths_are_ordered_name_by_name(
    p: Seq<Seq<char>>,
    x: Seq<char>,
    a: Seq<Seq<char>>,
    y: Seq<char>,
    b: Seq<Seq<char>>,
)
    requires
        x != y,
    ensures
        names_before(p.push(x) + a, p.push(y) + b) <==> text::before(x, y),
        names_before(p, p.push(x) + a),
        !names_before(p.push(x) + a, p),
        !names_before(p, p),
    decreases p.len(),
{
    let l = p.push(x) + a;
    let r = p.push(y) + b;
    if p.len() > 0 {
        law_paths_are_ordered_name_by_name(p.skip(1), x, a, y, b);
        assert(l.skip(1) =~= p.skip(1).push(x) + a);
        assert(r.skip(1) =~= p.skip(1).push(y) + b);
        assert(l[0] == p[0] && r[0] == p[0]);
    }
}

/// The dispatcher holds every rule, and every rule all its patterns, its name and
/// its code, each text as a JSON string.
pub proof fn law_dispatcher_holds_every_rule(
    a: Seq<RuleView>,
    b: Seq<RuleView>,
    rule: RuleView,
    pattern: PatternView,
)
    ensures
        rules_js(a + b) == rules_js(a) + rules_js(b),
        rules_js(seq![rule]) == "{name:"@ + json::json_string(rule.name) + ",patterns:["@ + patterns_js(
            rule.patterns,
        ) + "],code:"@ + json::json_string(rule.code) + "},"@,
        patterns_js(rule.patterns.push(pattern)) == patterns_js(rule.patterns) + match pattern {
            PatternView::Glob(value) => "{kind:"@ + json::json_string("glob"@) + ",value:"@ + json::json_string(
                value,
            ) + "},"@,
            PatternView::Regex(value) => "{kind:"@ + json::json_string("regex"@) + ",value:"@
                + json::json_string(value) + "},"@,
        },
        patterns_js(Seq::empty()).len() == 0,
    decreases b.len(),
{
    if b.len() == 0 {
        assert(a + b =~= a);
        assert(rules_js(a) + rules_js(b) =~= rules_js(a));
    } else {
        law_dispatcher_holds_every_rule(a, b.drop_last(), rule, pattern);
        assert((a + b).drop_last() =~= a + b.drop_last());
        assert((a + b).last() == b.last());
        assert(rules_js(a + b) =~= rules_js(a) + rules_js(b));
    }
    reveal_with_fuel(rules_js, 2);
    assert(seq![rule].drop_last() =~= Seq::<RuleView>::empty());
    assert(seq![rule].last() == rule);
    assert(rules_js(Seq::<RuleView>::empty()) =~= Seq::empty());
    assert(rules_js(seq![rule]) =~= rule_js(rule));
    assert(rule.patterns.push(pattern).drop_last() =~= rule.patterns);
}

/// Around its rules the dispatcher is always the same script: it runs, on the pages
/// that one of its patterns names, the code of each rule.
pub proof fn law_dispatcher_runs_what_matches(rules: Seq<RuleView>)
    ensures
        DISPATCHER_HEAD@ + rules_js(rules) + DISPATCHER_TAIL@ == r#"(function(){
'use strict';
var url=location.href;
function matchGlob(pattern,url){
  var re=new RegExp('^'+pattern.replace(/[.+?^${}()|[\]\\]/g,'\\$&').replace(/\*/g,'.*')+'$');
  return re.test(url);
}
function matchRegex(pattern,url){
  try{return new RegExp(pattern).test(url);}
  catch(e){console.error('[hook-inject] bad regex:',pattern,e);return false;}
}
var rules=["#@ + rules_js(rules) + r#"];
rules.forEach(function(rule){
  var hit=rule.patterns.some(function(p){
    return p.kind==='regex'?matchRegex(p.value,url):matchGlob(p.value,url);
  });
  if(!hit) return;
  try{(new Function(rule.code))();}
  catch(e){console.error('[hook-inject] rule "'+rule.name+'" failed:',e);}
});
})();"#@,
{
}

/// The patterns are those of the lines whose key is `match`: one for each, in the
/// order of the lines.
pub proof fn law_patterns_are_those_of_the_match_lines(lines: Seq<Seq<char>>)
    ensures
        declared_patterns(lines) == lines.filter(
            |l: Seq<char>| field(l) is Some && (field(l)->0).0 == "match"@,
        ).map_values(|l: Seq<char>| pattern_of((field(l)->0).1)),
    decreases lines.len(),
{
    reveal(Seq::filter);
    let is_match = |l: Seq<char>| field(l) is Some && (field(l)->0).0 == "match"@;
    let pattern = |l: Seq<char>| pattern_of((field(l)->0).1);
    if lines.len() > 0 {
        law_patterns_are_those_of_the_match_lines(lines.drop_last());
    }
    assert(declared_patterns(lines) =~= lines.filter(is_match).map_values(pattern));
}

/// Files in path order stand so that of any two the one whose names come first is
/// the earlier one.
pub proof fn law_earlier_paths_come_first(files: Seq<ScriptFile>, i: int, j: int)
    requires
        in_path_order(files),
        0 <= i < files.len(),
        0 <= j < files.len(),
        names_before(text::split(files[i].path@, '/'), text::split(files[j].path@, '/')),
    ensures
        i < j,
{
    let a = text::split(files[i].path@, '/');
    let b = text::split(files[j].path@, '/');
    lemma_names_before_total(a, b);
    if j < i {
        assert(!path_before(files[i].path@, files[j].path@));
    }
}

} // verus!
