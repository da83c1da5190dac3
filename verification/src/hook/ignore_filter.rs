//! The ignore list: URLs that pass by the cache.
//!
//! Each entry is one of four shapes:
//!
//! | Field          | Looks at | Matches                                                |
//! |----------------|----------|--------------------------------------------------------|
//! | `suffix`       | host     | the host itself and every subdomain of it              |
//! | `wildcard`     | host     | a glob in which `*` stands for a run without `.`       |
//! | `url_wildcard` | full URL | a glob in which `*` stands for a run without `/`       |
//! | `url_regex`    | full URL | a regular expression, not anchored                     |
//!
//! There are no built-in rules. Without rules, nothing is ignored.
use vstd::prelude::*;
use regex::Regex;
use crate::text;
use crate::urls;

verus! {

/// `regex::Regex`, opaque.
#[verifier::external_type_specification]
#[verifier::external_body]
pub struct ExRegex(Regex);

/// The texts in which a regular expression finds a match.
pub uninterp spec fn regex_language(re: regex::Regex) -> Set<Seq<char>>;

/// The texts in which the pattern finds a match, where it is a regular
/// expression that `Regex::new` accepts.
pub uninterp spec fn pattern_language(pattern: Seq<char>) -> Option<Set<Seq<char>>>;

/// An entry of the ignore list, as the configuration writes it. The comment has
/// no effect.
#[derive(Debug)]
pub enum IgnoreEntry {
    /// A host and its subdomains.
    Suffix { suffix: String, comment: Option<String> },
    /// A host glob.
    Wildcard { wildcard: String, comment: Option<String> },
    /// A URL glob.
    UrlWildcard { url_wildcard: String, comment: Option<String> },
    /// A regular expression for the URL.
    UrlRegex { url_regex: String, comment: Option<String> },
}

/// An entry in the form in which URLs are held against it.
#[derive(Debug)]
pub enum IgnoreMatcher {
    /// The host in lower case.
    HostSuffix(String),
    /// A regular expression for the host.
    HostRegex(Regex),
    /// A regular expression for the URL.
    UrlRegex(Regex),
}

// ---------------------------------------------------------------------------
// Globs.

/// Whether `hay` as a whole matches `glob`, in which `*` stands for any run of
/// characters without `sep`, and every other character for itself.
pub open spec fn glob_matches(glob: Seq<char>, sep: char, hay: Seq<char>) -> bool
    decreases glob.len() + hay.len(),
{
    if glob.len() == 0 {
        hay.len() == 0
    } else if glob[0] == '*' {
        ||| glob_matches(glob.skip(1), sep, hay)
        ||| (hay.len() > 0 && hay[0] != sep && glob_matches(glob, sep, hay.skip(1)))
    } else {
        hay.len() > 0 && hay[0] == glob[0] && glob_matches(glob.skip(1), sep, hay.skip(1))
    }
}

/// Whether a character has a meaning of its own in a regular expression.
pub open spec fn is_meta(c: char) -> bool {
    c == '.' || c == '\\' || c == '+' || c == '?' || c == '(' || c == ')' || c == '[' || c == ']' || c == '{'
        || c == '}' || c == '|' || c == '^' || c == '$'
}

/// The regular expression for one character of a glob.
pub open spec fn glob_piece(c: char, sep: char) -> Seq<char> {
    if c == '*' {
        seq!['[', '^', sep, ']', '*']
    } else if is_meta(c) {
        seq!['\\', c]
    } else {
        seq![c]
    }
}

/// The regular expressions for the characters of a glob, one behind the other.
pub open spec fn glob_body(glob: Seq<char>, sep: char) -> Seq<char>
    decreases glob.len(),
{
    if glob.len() == 0 {
        Seq::empty()
    } else {
        glob_body(glob.drop_last(), sep) + glob_piece(glob.last(), sep)
    }
}

/// The anchored regular expression for a glob.
pub open spec fn glob_pattern(glob: Seq<char>, sep: char) -> Seq<char> {
    seq!['^'] + glob_body(glob, sep) + seq!['$']
}

/// How often `c` stands in `s`.
pub open spec fn occurrences(s: Seq<char>, c: char) -> nat
    decreases s.len(),
{
    if s.len() == 0 {
        0
    } else {
        occurrences(s.skip(1), c) + if s[0] == c {
            1nat
        } else {
            0nat
        }
    }
}

/// A `*` never reaches over a separator: what matches a glob has as many
/// separators as the glob.
pub proof fn law_wildcard_keeps_separators(glob: Seq<char>, sep: char, hay: Seq<char>)
    requires
        glob_matches(glob, sep, hay),
        sep != '*',
    ensures
        occurrences(hay, sep) == occurrences(glob, sep),
    decreases glob.len() + hay.len(),
{
    if glob.len() > 0 {
        if glob[0] == '*' {
            if glob_matches(glob.skip(1), sep, hay) {
                law_wildcard_keeps_separators(glob.skip(1), sep, hay);
            } else {
                law_wildcard_keeps_separators(glob, sep, hay.skip(1));
            }
        } else {
            law_wildcard_keeps_separators(glob.skip(1), sep, hay.skip(1));
        }
    }
}

/// A glob without `*` matches itself and nothing else.
pub proof fn law_plain_glob_matches_itself(glob: Seq<char>, sep: char, hay: Seq<char>)
    requires
        !glob.contains('*'),
    ensures
        glob_matches(glob, sep, hay) <==> glob == hay,
    decreases glob.len(),
{
    if glob.len() == 0 {
        assert(glob == hay <==> hay.len() == 0) by {
            if hay.len() == 0 {
                assert(glob =~= hay);
            }
        }
    } else {
        assert(glob[0] != '*');
        assert forall|c: char| glob.skip(1).contains(c) implies glob.contains(c) by {
            let i = choose|i: int| 0 <= i < glob.skip(1).len() && glob.skip(1)[i] == c;
            assert(glob[i + 1] == c);
        }
        if hay.len() > 0 {
            law_plain_glob_matches_itself(glob.skip(1), sep, hay.skip(1));
            assert(glob =~= seq![glob[0]] + glob.skip(1));
            assert(hay =~= seq![hay[0]] + hay.skip(1));
        }
    }
}

/// A lone `*` matches exactly the texts without a separator.
pub proof fn law_star_matches_a_run(sep: char, hay: Seq<char>)
    ensures
        glob_matches(seq!['*'], sep, hay) <==> !hay.contains(sep),
    decreases hay.len(),
{
    reveal_with_fuel(glob_matches, 2);
    assert(seq!['*'].skip(1) =~= Seq::<char>::empty());
    if hay.len() > 0 {
        law_star_matches_a_run(sep, hay.skip(1));
        assert(hay.contains(sep) <==> hay[0] == sep || hay.skip(1).contains(sep)) by {
            if hay.contains(sep) && hay[0] != sep {
                let i = choose|i: int| 0 <= i < hay.len() && hay[i] == sep;
                assert(hay.skip(1)[i - 1] == sep);
            }
            if hay.skip(1).contains(sep) {
                let i = choose|i: int| 0 <= i < hay.skip(1).len() && hay.skip(1)[i] == sep;
                assert(hay[i + 1] == sep);
            }
        }
    }
}

// ---------------------------------------------------------------------------
// What the rules mean.

/// Whether `host` is the host `suffix` or a subdomain of it.
pub open spec fn in_domain(host: Seq<char>, suffix: Seq<char>) -> bool {
    host == suffix || text::ends_with(host, seq!['.'] + suffix)
}

/// A host is in a domain exactly when it is the domain, or some name and a dot
/// stand before the domain.
pub proof fn law_suffix_is_apex_or_subdomain(host: Seq<char>, suffix: Seq<char>)
    ensures
        in_domain(host, suffix) <==> host == suffix || exists|sub: Seq<char>|
            #[trigger] (sub + seq!['.'] + suffix) == host,
{
    let dotted = seq!['.'] + suffix;
    if text::ends_with(host, dotted) {
        let sub = host.take(host.len() - dotted.len());
        assert(sub + seq!['.'] + suffix =~= host) by {
            assert(host =~= sub + host.skip(host.len() - dotted.len()));
        }
    }
    if exists|sub: Seq<char>| #[trigger] (sub + seq!['.'] + suffix) == host {
        let sub = choose|sub: Seq<char>| #[trigger] (sub + seq!['.'] + suffix) == host;
        assert(host.skip(host.len() - dotted.len()) =~= dotted);
    }
}

/// Whether a rule applies to a URL with the given host.
pub open spec fn applies(m: IgnoreMatcher, url: Seq<char>, host: Option<Seq<char>>) -> bool {
    match m {
        IgnoreMatcher::HostSuffix(suffix) => host is Some && in_domain(host->0, suffix@),
        IgnoreMatcher::HostRegex(re) => host is Some && regex_language(re).contains(host->0),
        IgnoreMatcher::UrlRegex(re) => regex_language(re).contains(url),
    }
}

/// The host of a URL, in lower case.
pub open spec fn host_of(url: Seq<char>) -> Option<Seq<char>> {
    match urls::parsed(url) {
        Some(p) => match p.host {
            Some(h) => Some(text::lower(h)),
            None => None,
        },
        None => None,
    }
}

/// Whether some rule applies to a URL.
pub open spec fn ignored(installed: Seq<IgnoreMatcher>, url: Seq<char>) -> bool {
    exists|i: int| 0 <= i < installed.len() && #[trigger] applies(installed[i], url, host_of(url))
}

/// The regular expression that an entry is compiled to, where it is compiled to
/// one.
pub open spec fn entry_pattern(entry: IgnoreEntry) -> Option<Seq<char>> {
    match entry {
        IgnoreEntry::Suffix { .. } => None,
        IgnoreEntry::Wildcard { wildcard, .. } => Some(
            glob_pattern(text::lower(text::trim(wildcard@)), '.'),
        ),
        IgnoreEntry::UrlWildcard { url_wildcard, .. } => Some(
            glob_pattern(text::trim(url_wildcard@), '/'),
        ),
        IgnoreEntry::UrlRegex { url_regex, .. } => Some(text::trim(url_regex@)),
    }
}

/// The text of an entry.
pub open spec fn entry_text(entry: IgnoreEntry) -> Seq<char> {
    match entry {
        IgnoreEntry::Suffix { suffix, .. } => suffix@,
        IgnoreEntry::Wildcard { wildcard, .. } => wildcard@,
        IgnoreEntry::UrlWildcard { url_wildcard, .. } => url_wildcard@,
        IgnoreEntry::UrlRegex { url_regex, .. } => url_regex@,
    }
}

/// Whether an entry can be used: it is not blank, and its regular expression is
/// one.
pub open spec fn usable(entry: IgnoreEntry) -> bool {
    text::trim(entry_text(entry)).len() > 0 && (entry_pattern(entry) is Some ==> pattern_language(
        entry_pattern(entry)->0,
    ) is Some)
}

/// Whether a rule is what an entry is compiled to.
pub open spec fn is_rule_for(m: IgnoreMatcher, entry: IgnoreEntry) -> bool {
    match entry {
        IgnoreEntry::Suffix { suffix, .. } => m matches IgnoreMatcher::HostSuffix(s) && s@ == text::lower(
            text::trim(suffix@),
        ),
        IgnoreEntry::Wildcard { wildcard, .. } => {
            &&& m matches IgnoreMatcher::HostRegex(re)
            &&& pattern_language(entry_pattern(entry)->0) == Some(regex_language(re))
            &&& forall|h: Seq<char>| #[trigger]
                regex_language(re).contains(h) <==> glob_matches(
                    text::lower(text::trim(wildcard@)),
                    '.',
                    h,
                )
        },
        IgnoreEntry::UrlWildcard { url_wildcard, .. } => {
            &&& m matches IgnoreMatcher::UrlRegex(re)
            &&& pattern_language(entry_pattern(entry)->0) == Some(regex_language(re))
            &&& forall|u: Seq<char>| #[trigger]
                regex_language(re).contains(u) <==> glob_matches(text::trim(url_wildcard@), '/', u)
        },
        IgnoreEntry::UrlRegex { .. } => m matches IgnoreMatcher::UrlRegex(re) && pattern_language(
            entry_pattern(entry)->0,
        ) == Some(regex_language(re)),
    }
}

/// The entries that can be used, in order.
pub open spec fn usable_entries(entries: Seq<IgnoreEntry>) -> Seq<IgnoreEntry> {
    entries.filter(|e: IgnoreEntry| usable(e))
}

/// Whether `rules` are the rules for the entries that can be used, in order.
pub open spec fn are_rules_for(rules: Seq<IgnoreMatcher>, entries: Seq<IgnoreEntry>) -> bool {
    &&& rules.len() == usable_entries(entries).len()
    &&& forall|i: int|
        0 <= i < rules.len() ==> is_rule_for(#[trigger] rules[i], usable_entries(entries)[i])
}

// ---------------------------------------------------------------------------
// Regular expressions.

/// `regex::Regex::new`: `None` where the pattern is not accepted. For the
/// pattern of a glob, an accepted expression matches what the glob matches: `^`
/// and `$` tie it to both ends, `[^x]*` stands for any run without `x`, an
/// escaped character and one without a special meaning stand for themselves.
/// Whether a pattern is accepted, and what any other pattern matches, is left to
/// the name.
#[verifier::external_body]
fn compile(pattern: &str) -> (r: Option<Regex>)
    ensures
        r matches Some(re) ==> pattern_language(pattern@) == Some(regex_language(re)),
        r is None ==> pattern_language(pattern@) is None,
        r matches Some(re) ==> forall|glob: Seq<char>, sep: char, hay: Seq<char>|
            (sep == '.' || sep == '/') && pattern@ == #[trigger] glob_pattern(glob, sep) ==> (
            #[trigger] regex_language(re).contains(hay) <==> glob_matches(glob, sep, hay)),
{
    Regex::new(pattern).ok()
}

/// `regex::Regex::is_match`: whether the expression finds a match in the text.
#[verifier::external_body]
fn is_match(re: &Regex, hay: &str) -> (r: bool)
    ensures
        r == regex_language(*re).contains(hay@),
{
    re.is_match(hay)
}

/// The anchored regular expression for a glob.
fn glob_to_regex(glob: &str, sep: char) -> (r: String)
    ensures
        r@ == glob_pattern(glob@, sep),
{
    let chars = text::chars_of(glob);
    let mut out: Vec<char> = Vec::new();
    out.push('^');
    let mut i: usize = 0;
    proof {
        assert(out@ =~= seq!['^'] + glob_body(glob@.take(0), sep));
    }
    while i < chars.len()
        invariant
            i <= chars.len(),
            chars@ == glob@,
            out@ == seq!['^'] + glob_body(glob@.take(i as int), sep),
        decreases chars.len() - i,
    {
        let c = chars[i];
        proof {
            assert(glob@.take(i + 1).drop_last() =~= glob@.take(i as int));
        }
        let ghost before = out@;
        if c == '*' {
            out.push('[');
            out.push('^');
            out.push(sep);
            out.push(']');
            out.push('*');
        } else if c == '.' || c == '\\' || c == '+' || c == '?' || c == '(' || c == ')' || c == '[' || c == ']'
            || c == '{' || c == '}' || c == '|' || c == '^' || c == '$' {
            out.push('\\');
            out.push(c);
        } else {
            out.push(c);
        }
        proof {
            assert(out@ =~= before + glob_piece(c, sep));
            assert(out@ =~= seq!['^'] + glob_body(glob@.take(i + 1), sep));
        }
        i += 1;
    }
    proof {
        assert(glob@.take(i as int) =~= glob@);
    }
    out.push('$');
    proof {
        assert(out@ =~= glob_pattern(glob@, sep));
    }
    text::string_of(out.as_slice())
}

/// The anchored regular expression for a host glob: `*` stands for a run
/// without a dot.
pub fn host_glob_to_regex(glob: &str) -> (r: String)
    ensures
        r@ == glob_pattern(glob@, '.'),
{
    glob_to_regex(glob, '.')
}

/// The anchored regular expression for a URL glob: `*` stands for a run without
/// a slash.
pub fn url_glob_to_regex(glob: &str) -> (r: String)
    ensures
        r@ == glob_pattern(glob@, '/'),
{
    glob_to_regex(glob, '/')
}

// ---------------------------------------------------------------------------
// Compiling and matching.

/// Compile one entry, where it can be used.
fn compile_entry(entry: &IgnoreEntry) -> (r: Option<IgnoreMatcher>)
    ensures
        r is Some <==> usable(*entry),
        r matches Some(m) ==> is_rule_for(m, *entry),
{
    match entry {
        IgnoreEntry::Suffix { suffix, .. } => {
            let trimmed = text::trimmed(suffix.as_str());
            if trimmed.as_str().unicode_len() == 0 {
                None
            } else {
                Some(IgnoreMatcher::HostSuffix(text::to_lower(trimmed.as_str())))
            }
        },
        IgnoreEntry::Wildcard { wildcard, .. } => {
            let trimmed = text::trimmed(wildcard.as_str());
            if trimmed.as_str().unicode_len() == 0 {
                None
            } else {
                let low = text::to_lower(trimmed.as_str());
                let source = host_glob_to_regex(low.as_str());
                match compile(source.as_str()) {
                    Some(re) => Some(IgnoreMatcher::HostRegex(re)),
                    None => None,
                }
            }
        },
        IgnoreEntry::UrlWildcard { url_wildcard, .. } => {
            let trimmed = text::trimmed(url_wildcard.as_str());
            if trimmed.as_str().unicode_len() == 0 {
                None
            } else {
                let source = url_glob_to_regex(trimmed.as_str());
                match compile(source.as_str()) {
                    Some(re) => Some(IgnoreMatcher::UrlRegex(re)),
                    None => None,
                }
            }
        },
        IgnoreEntry::UrlRegex { url_regex, .. } => {
            let trimmed = text::trimmed(url_regex.as_str());
            if trimmed.as_str().unicode_len() == 0 {
                None
            } else {
                match compile(trimmed.as_str()) {
                    Some(re) => Some(IgnoreMatcher::UrlRegex(re)),
                    None => None,
                }
            }
        },
    }
}

/// Compile the entries, leaving out those that cannot be used.
pub fn compile_entries(entries: &[IgnoreEntry]) -> (r: Vec<IgnoreMatcher>)
    ensures
        are_rules_for(r@, entries@),
{
    let mut out: Vec<IgnoreMatcher> = Vec::new();
    let mut i: usize = 0;
    proof {
        reveal(Seq::filter);
        assert(usable_entries(entries@.take(0)) =~= Seq::<IgnoreEntry>::empty());
    }
    while i < entries.len()
        invariant
            i <= entries.len(),
            are_rules_for(out@, entries@.take(i as int)),
        decreases entries.len() - i,
    {
        proof {
            reveal(Seq::filter);
            assert(entries@.take(i + 1).drop_last() =~= entries@.take(i as int));
        }
        if let Some(m) = compile_entry(&entries[i]) {
            out.push(m);
        }
        i += 1;
    }
    proof {
        assert(entries@.take(i as int) =~= entries@);
    }
    out
}

/// Replace the installed rules by those for `entries`.
pub fn set_matchers(installed: &mut Vec<IgnoreMatcher>, entries: &[IgnoreEntry])
    ensures
        are_rules_for(final(installed)@, entries@),
{
    *installed = compile_entries(entries);
}

impl IgnoreMatcher {
    /// Hold a URL against the rule. `host` is the host of the URL in lower case;
    /// without one, the rules for hosts do not apply.
    pub fn matches(&self, url: &str, host: Option<&str>) -> (r: bool)
        ensures
            r == applies(*self, url@, text::opt_str(host)),
    {
        match self {
            IgnoreMatcher::HostSuffix(suffix) => match host {
                Some(h) => {
                    let mut dotted: String = String::new();
                    dotted.push('.');
                    dotted.append(suffix.as_str());
                    proof {
                        assert(dotted@ =~= seq!['.'] + suffix@);
                    }
                    text::same(h, suffix.as_str()) || text::ends(h, dotted.as_str())
                },
                None => false,
            },
            IgnoreMatcher::HostRegex(re) => match host {
                Some(h) => is_match(re, h),
                None => false,
            },
            IgnoreMatcher::UrlRegex(re) => is_match(re, url),
        }
    }
}

/// Whether some rule applies to a URL whose host, in lower case, is given.
pub fn any_matches(installed: &Vec<IgnoreMatcher>, url: &str, host: Option<&str>) -> (r: bool)
    ensures
        r == exists|i: int|
            0 <= i < installed@.len() && #[trigger] applies(installed@[i], url@, text::opt_str(host)),
{
    let mut i: usize = 0;
    while i < installed.len()
        invariant
            i <= installed.len(),
            forall|j: int|
                0 <= j < i ==> !#[trigger] applies(installed@[j], url@, text::opt_str(host)),
        decreases installed.len() - i,
    {
        if installed[i].matches(url, host) {
            return true;
        }
        i += 1;
    }
    false
}

/// Whether some installed rule applies to a URL.
pub fn is_ignored(installed: &Vec<IgnoreMatcher>, original_url: &str) -> (r: bool)
    ensures
        r == ignored(installed@, original_url@),
        forall|i: int|
            0 <= i < installed@.len() && #[trigger] applies(
                installed@[i],
                original_url@,
                host_of(original_url@),
            ) ==> r,
        r ==> exists|i: int|
            0 <= i < installed@.len() && #[trigger] applies(
                installed@[i],
                original_url@,
                host_of(original_url@),
            ),
{
    if installed.len() == 0 {
        return false;
    }
    let host: Option<String> = match urls::parse_url(original_url) {
        Ok(parts) => match &parts.host {
            Some(h) => Some(text::to_lower(h.as_str())),
            None => None,
        },
        Err(_) => None,
    };
    match &host {
        Some(h) => any_matches(installed, original_url, Some(h.as_str())),
        None => any_matches(installed, original_url, None),
    }
}

/// What one rule of the list ignores is ignored, wherever the rule stands, and
/// nothing else is: the rules of two lists together ignore what either ignores.
pub proof fn law_every_rule_counts(a: Seq<IgnoreMatcher>, b: Seq<IgnoreMatcher>, url: Seq<char>)
    ensures
        ignored(a + b, url) <==> ignored(a, url) || ignored(b, url),
        a.len() == 1 ==> (ignored(a, url) <==> applies(a[0], url, host_of(url))),
{
    let host = host_of(url);
    if ignored(a + b, url) {
        let i = choose|i: int| 0 <= i < (a + b).len() && #[trigger] applies((a + b)[i], url, host);
        if i < a.len() {
            assert(applies(a[i], url, host));
        } else {
            assert(applies(b[i - a.len()], url, host));
        }
    }
    if ignored(a, url) {
        let i = choose|i: int| 0 <= i < a.len() && #[trigger] applies(a[i], url, host);
        assert(applies((a + b)[i], url, host));
    }
    if ignored(b, url) {
        let i = choose|i: int| 0 <= i < b.len() && #[trigger] applies(b[i], url, host);
        assert(applies((a + b)[a.len() + i], url, host));
    }
    if a.len() == 1 && applies(a[0], url, host) {
        assert(ignored(a, url));
    }
}

/// What a rule is held against: a domain and a host expression against the host of
/// the URL, in lower case, and a URL expression against the whole URL. Without a
/// host, only the last can apply.
pub proof fn law_what_a_rule_is_held_against(suffix: String, re: Regex, url: Seq<char>, host: Seq<char>)
    requires
        urls::parsed(url) matches Some(p) && p.host == Some(host),
    ensures
        applies(IgnoreMatcher::HostSuffix(suffix), url, host_of(url)) <==> (text::lower(host) == suffix@
            || exists|sub: Seq<char>| #[trigger] (sub + seq!['.'] + suffix@) == text::lower(host)),
        applies(IgnoreMatcher::HostRegex(re), url, host_of(url)) <==> regex_language(re).contains(
            text::lower(host),
        ),
        applies(IgnoreMatcher::UrlRegex(re), url, host_of(url)) <==> regex_language(re).contains(url),
        !applies(IgnoreMatcher::HostSuffix(suffix), url, None),
        !applies(IgnoreMatcher::HostRegex(re), url, None),
        applies(IgnoreMatcher::UrlRegex(re), url, None) <==> regex_language(re).contains(url),
{
    law_suffix_is_apex_or_subdomain(text::lower(host), suffix@);
}

/// Where a URL has no host, or is none, no rule for hosts applies.
pub proof fn law_no_host_no_host_rule(url: Seq<char>)
    ensures
        host_of(url) is Some <==> urls::parsed(url) is Some && urls::parsed(url)->0.host is Some,
        host_of(url) is Some ==> host_of(url) == Some(text::lower(urls::parsed(url)->0.host->0)),
{
}

/// A URL is ignored exactly where one of the entries of the list, wherever it
/// stands, means it: its host is the domain of the entry or below it, its host
/// matches the host glob, or it matches the URL glob or the expression. Space
/// around an entry and the case of hosts do not count; a blank entry and a faulty
/// expression mean nothing.
pub proof fn law_url_is_ignored_by_its_entries(entries: Seq<IgnoreEntry>, rules: Seq<IgnoreMatcher>, url: Seq<char>)
    requires
        are_rules_for(rules, entries),
    ensures
        ignored(rules, url) <==> exists|i: int|
            0 <= i < entries.len() && match #[trigger] entries[i] {
                IgnoreEntry::Suffix { suffix, .. } => {
                    &&& text::trim(suffix@).len() > 0
                    &&& urls::parsed(url) matches Some(p)
                    &&& p.host matches Some(h)
                    &&& (text::lower(h) == text::lower(text::trim(suffix@)) || text::ends_with(
                        text::lower(h),
                        seq!['.'] + text::lower(text::trim(suffix@)),
                    ))
                },
                IgnoreEntry::Wildcard { wildcard, .. } => {
                    let glob = text::lower(text::trim(wildcard@));
                    &&& text::trim(wildcard@).len() > 0
                    &&& pattern_language(glob_pattern(glob, '.')) is Some
                    &&& urls::parsed(url) matches Some(p)
                    &&& p.host matches Some(h)
                    &&& glob_matches(glob, '.', text::lower(h))
                },
                IgnoreEntry::UrlWildcard { url_wildcard, .. } => {
                    let glob = text::trim(url_wildcard@);
                    &&& glob.len() > 0
                    &&& pattern_language(glob_pattern(glob, '/')) is Some
                    &&& glob_matches(glob, '/', url)
                },
                IgnoreEntry::UrlRegex { url_regex, .. } => {
                    &&& text::trim(url_regex@).len() > 0
                    &&& pattern_language(text::trim(url_regex@)) matches Some(language)
                    &&& language.contains(url)
                },
            },
{
    let host = host_of(url);
    let used = usable_entries(entries);
    if ignored(rules, url) {
        let k = choose|k: int| 0 <= k < rules.len() && #[trigger] applies(rules[k], url, host);
        assert(is_rule_for(rules[k], used[k]));
        lemma_used_entry(entries, k);
        let i = choose|i: int| 0 <= i < entries.len() && entries[i] == used[k];
        assert(usable(entries[i]));
    }
    if exists|i: int| 0 <= i < entries.len() && entry_means(#[trigger] entries[i], url) {
        let i = choose|i: int| 0 <= i < entries.len() && entry_means(#[trigger] entries[i], url);
        assert(usable(entries[i]));
        lemma_usable_entry(entries, i);
        let k = choose|k: int| 0 <= k < used.len() && used[k] == entries[i];
        assert(is_rule_for(rules[k], used[k]));
        assert(applies(rules[k], url, host));
    }
    assert forall|i: int| 0 <= i < entries.len() && match #[trigger] entries[i] {
        IgnoreEntry::Suffix { suffix, .. } => {
            &&& text::trim(suffix@).len() > 0
            &&& urls::parsed(url) matches Some(p)
            &&& p.host matches Some(h)
            &&& (text::lower(h) == text::lower(text::trim(suffix@)) || text::ends_with(
                text::lower(h),
                seq!['.'] + text::lower(text::trim(suffix@)),
            ))
        },
        IgnoreEntry::Wildcard { wildcard, .. } => {
            let glob = text::lower(text::trim(wildcard@));
            &&& text::trim(wildcard@).len() > 0
            &&& pattern_language(glob_pattern(glob, '.')) is Some
            &&& urls::parsed(url) matches Some(p)
            &&& p.host matches Some(h)
            &&& glob_matches(glob, '.', text::lower(h))
        },
        IgnoreEntry::UrlWildcard { url_wildcard, .. } => {
            let glob = text::trim(url_wildcard@);
            &&& glob.len() > 0
            &&& pattern_language(glob_pattern(glob, '/')) is Some
            &&& glob_matches(glob, '/', url)
        },
        IgnoreEntry::UrlRegex { url_regex, .. } => {
            &&& text::trim(url_regex@).len() > 0
            &&& pattern_language(text::trim(url_regex@)) matches Some(language)
            &&& language.contains(url)
        },
    } implies entry_means(entries[i], url) by {}
}

/// Whether an entry that can be used applies to a URL once it is compiled.
spec fn entry_means(entry: IgnoreEntry, url: Seq<char>) -> bool {
    usable(entry) && match entry {
        IgnoreEntry::Suffix { suffix, .. } => host_of(url) is Some && in_domain(
            host_of(url)->0,
            text::lower(text::trim(suffix@)),
        ),
        IgnoreEntry::Wildcard { wildcard, .. } => host_of(url) is Some && glob_matches(
            text::lower(text::trim(wildcard@)),
            '.',
            host_of(url)->0,
        ),
        IgnoreEntry::UrlWildcard { url_wildcard, .. } => glob_matches(text::trim(url_wildcard@), '/', url),
        IgnoreEntry::UrlRegex { url_regex, .. } => pattern_language(text::trim(url_regex@))->0.contains(url),
    }
}

proof fn lemma_used_entry(entries: Seq<IgnoreEntry>, k: int)
    requires
        0 <= k < usable_entries(entries).len(),
    ensures
        usable(usable_entries(entries)[k]),
        exists|i: int| 0 <= i < entries.len() && entries[i] == usable_entries(entries)[k],
    decreases entries.len(),
{
    reveal(Seq::filter);
    if entries.len() > 0 {
        let rest = entries.drop_last();
        let fewer = usable_entries(rest);
        if k < fewer.len() {
            lemma_used_entry(rest, k);
            let i = choose|i: int| 0 <= i < rest.len() && rest[i] == fewer[k];
            assert(entries[i] == usable_entries(entries)[k]);
        } else {
            assert(entries[entries.len() - 1] == usable_entries(entries)[k]);
        }
    }
}

proof fn lemma_usable_entry(entries: Seq<IgnoreEntry>, i: int)
    requires
        0 <= i < entries.len(),
        usable(entries[i]),
    ensures
        exists|k: int| 0 <= k < usable_entries(entries).len() && usable_entries(entries)[k] == entries[i],
    decreases entries.len(),
{
    reveal(Seq::filter);
    let rest = entries.drop_last();
    let all = usable_entries(entries);
    if i < rest.len() {
        lemma_usable_entry(rest, i);
        let fewer = usable_entries(rest);
        let k = choose|k: int| 0 <= k < fewer.len() && fewer[k] == entries[i];
        assert(all[k] == entries[i]);
    } else {
        assert(all[all.len() - 1] == entries[i]);
    }
}

/// A glob is matched part by part: what two globs, one behind the other, match is
/// what the first matches and what the second matches behind it.
pub proof fn law_glob_is_matched_part_by_part(a: Seq<char>, b: Seq<char>, sep: char, hay: Seq<char>)
    ensures
        glob_matches(a + b, sep, hay) <==> exists|i: int|
            0 <= i <= hay.len() && #[trigger] glob_matches(a, sep, hay.take(i)) && glob_matches(
                b,
                sep,
                hay.skip(i),
            ),
    decreases a.len() + hay.len(),
{
    let all = a + b;
    if a.len() == 0 {
        assert(all =~= b);
        assert(hay.take(0) =~= Seq::<char>::empty());
        assert(hay.skip(0) =~= hay);
        if glob_matches(all, sep, hay) {
            assert(glob_matches(a, sep, hay.take(0)));
        }
        assert forall|i: int| 0 <= i <= hay.len() && #[trigger] glob_matches(a, sep, hay.take(i)) && glob_matches(
            b,
            sep,
            hay.skip(i),
        ) implies glob_matches(all, sep, hay) by {
            assert(i == 0);
        }
    } else {
        assert(all.skip(1) =~= a.skip(1) + b);
        assert(all[0] == a[0]);
        law_glob_is_matched_part_by_part(a.skip(1), b, sep, hay);
        if hay.len() > 0 {
            law_glob_is_matched_part_by_part(a.skip(1), b, sep, hay.skip(1));
            law_glob_is_matched_part_by_part(a, b, sep, hay.skip(1));
        }
        if glob_matches(all, sep, hay) {
            if a[0] == '*' && glob_matches(all.skip(1), sep, hay) {
                let i = choose|i: int| 0 <= i <= hay.len() && #[trigger] glob_matches(
                    a.skip(1),
                    sep,
                    hay.take(i),
                ) && glob_matches(b, sep, hay.skip(i));
                assert(glob_matches(a, sep, hay.take(i)));
            } else {
                let tail = hay.skip(1);
                let head = if a[0] == '*' {
                    a
                } else {
                    a.skip(1)
                };
                let i = choose|i: int| 0 <= i <= tail.len() && #[trigger] glob_matches(head, sep, tail.take(i))
                    && glob_matches(b, sep, tail.skip(i));
                assert(hay.take(i + 1).skip(1) =~= tail.take(i));
                assert(hay.skip(i + 1) =~= tail.skip(i));
                assert(hay.take(i + 1)[0] == hay[0]);
                assert(glob_matches(a, sep, hay.take(i + 1)));
            }
        }
        assert forall|i: int| 0 <= i <= hay.len() && #[trigger] glob_matches(a, sep, hay.take(i)) && glob_matches(
            b,
            sep,
            hay.skip(i),
        ) implies glob_matches(all, sep, hay) by {
            let front = hay.take(i);
            if a[0] == '*' && glob_matches(a.skip(1), sep, front) {
                assert(glob_matches(all.skip(1), sep, hay));
            } else {
                let tail = hay.skip(1);
                assert(front[0] == hay[0]);
                assert(front.skip(1) =~= tail.take(i - 1));
                assert(tail.skip(i - 1) =~= hay.skip(i));
                if a[0] == '*' {
                    assert(glob_matches(a, sep, tail.take(i - 1)));
                } else {
                    assert(glob_matches(a.skip(1), sep, tail.take(i - 1)));
                }
            }
        }
    }
}

/// The regular expression for a glob is tied to both ends, and is put together
/// character by character: a `*` is a run without the separator, the characters
/// with a meaning of their own are escaped, and every other one stands for itself.
pub proof fn law_pattern_is_written_character_by_character(a: Seq<char>, c: char, sep: char)
    ensures
        glob_pattern(Seq::empty(), sep) == seq!['^', '$'],
        c == '*' ==> glob_pattern(a.push(c), sep) == glob_pattern(a, sep).drop_last() + seq![
            '[',
            '^',
            sep,
            ']',
            '*',
            '$',
        ],
        (c == '.' || c == '\\' || c == '+' || c == '?' || c == '(' || c == ')' || c == '[' || c == ']' || c == '{'
            || c == '}' || c == '|' || c == '^' || c == '$') ==> glob_pattern(a.push(c), sep) == glob_pattern(
            a,
            sep,
        ).drop_last() + seq!['\\', c, '$'],
        !(c == '*' || c == '.' || c == '\\' || c == '+' || c == '?' || c == '(' || c == ')' || c == '[' || c == ']'
            || c == '{' || c == '}' || c == '|' || c == '^' || c == '$') ==> glob_pattern(a.push(c), sep)
            == glob_pattern(a, sep).drop_last() + seq![c, '$'],
{
    assert(glob_pattern(Seq::empty(), sep) =~= seq!['^', '$']);
    assert(a.push(c).drop_last() =~= a);
    assert(glob_pattern(a, sep).drop_last() =~= seq!['^'] + glob_body(a, sep));
    let piece = glob_piece(c, sep);
    assert(glob_pattern(a.push(c), sep) =~= glob_pattern(a, sep).drop_last() + piece + seq!['$']);
    assert(piece + seq!['$'] =~= piece.push('$'));
    assert(seq!['[', '^', sep, ']', '*'] + seq!['$'] =~= seq!['[', '^', sep, ']', '*', '$']);
    assert(seq!['\\', c] + seq!['$'] =~= seq!['\\', c, '$']);
    assert(seq![c] + seq!['$'] =~= seq![c, '$']);
    let front = glob_pattern(a, sep).drop_last();
    assert(front + piece + seq!['$'] =~= front + (piece + seq!['$']));
}

/// Without rules, nothing is ignored.
pub proof fn law_no_rules_ignore_nothing(url: Seq<char>)
    ensures
        !ignored(Seq::empty(), url),
{
}

} // verus!
