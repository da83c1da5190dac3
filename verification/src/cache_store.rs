//! The cache on disk: under which key a URL is stored, in which files, and
//! which responses are stored at all.
//!
//! Layout:
//! - `<cache root>/<host>/<path>`: body bytes
//! - `<cache root>/<host>/<path>.meta.json`: sidecar metadata
use vstd::prelude::*;
use vstd::std_specs::hash::DefaultHasherAdditionalSpecFns;
use std::hash::{DefaultHasher, Hasher};
use crate::text;
use crate::urls;
use crate::util;

verus! {

// ---------------------------------------------------------------------------
// Cache keys.

/// Why a URL has no cache key.
#[derive(Debug)]
pub enum CacheKeyError {
    /// The text is not a URL.
    Parse(url::ParseError),
    /// The URL has no host.
    MissingHost,
}

/// The file path that stands for the path of a URL: a directory stands for the
/// `index.html` in it.
pub open spec fn pathname(path: Seq<char>) -> Seq<char> {
    if path.len() == 0 {
        "/index.html"@
    } else if path.last() == '/' {
        path + "index.html"@
    } else {
        path
    }
}

/// The standard library's default hash of a text, seeded as
/// `DefaultHasher::new` seeds it: of the bytes of the text and the byte 255
/// that ends every text.
pub open spec fn default_hash(query: Seq<char>) -> u64 {
    DefaultHasher::spec_finish(seq![vstd::utf8::encode_utf8(query), seq![255u8]])
}

/// The low 32 bits of the hash of a query.
pub open spec fn query_hash(query: Seq<char>) -> nat {
    default_hash(query) as nat % 0x1_0000_0000
}

/// The file name: what follows the last slash.
pub open spec fn file_name(base: Seq<char>) -> Seq<char> {
    base.skip(text::last_index(base, '/') + 1)
}

/// The extension of a file name with its dot. A name whose only dot is its
/// first character has none.
pub open spec fn extension(name: Seq<char>) -> Seq<char> {
    let dot = text::last_index(name, '.');
    if dot > 0 {
        name.skip(dot)
    } else {
        Seq::empty()
    }
}

/// `base` with the marker for a query with the digest `hash` behind it, and its
/// extension once more behind that.
pub open spec fn with_marker(base: Seq<char>, hash: Seq<char>) -> Seq<char> {
    base + ".__qs_"@ + hash + "__"@ + extension(file_name(base))
}

/// The cache key of a URL with a host: host and path, and a marker for the
/// query where there is a query that is not empty. Neither the scheme nor a
/// fragment has a say.
pub open spec fn key_for(host: Seq<char>, path: Seq<char>, query: Option<Seq<char>>) -> Seq<char> {
    let base = host + pathname(path);
    match query {
        Some(q) => if q.len() > 0 {
            with_marker(base, text::hex(query_hash(q), 8))
        } else {
            base
        },
        None => base,
    }
}

/// The cache key of a URL, where it is a URL with a host.
pub open spec fn cache_key(url: Seq<char>) -> Option<Seq<char>> {
    match urls::parsed(url) {
        Some(p) => match p.host {
            Some(host) => Some(key_for(host, p.path, p.query)),
            None => None,
        },
        None => None,
    }
}

/// A key begins with the host and a slash.
proof fn lemma_key_starts_with_host(host: Seq<char>, path: Seq<char>, query: Option<Seq<char>>)
    requires
        path.len() == 0 || path[0] == '/',
    ensures
        text::starts_with(key_for(host, path, query), host.push('/')),
{
    reveal_strlit("/index.html");
    let key = key_for(host, path, query);
    assert(pathname(path).len() > 0 && pathname(path)[0] == '/');
    assert(key.take(host.len() as int + 1) =~= host.push('/'));
}

/// Eight hexadecimal digits for a query: the low half of its default hash.
///
/// The hash keeps entries apart, it protects nothing; it may change with the
/// compiler that the program is built with.
pub fn short_query_hash(query: &str) -> (r: String)
    ensures
        r@ == text::hex(query_hash(query@), 8),
{
    let mut h = DefaultHasher::new();
    h.write(query.as_bytes());
    let end: [u8; 1] = [255u8];
    h.write(end.as_slice());
    let full: u64 = h.finish();
    proof {
        assert(end@ =~= seq![255u8]);
        assert(h@ =~= seq![vstd::utf8::encode_utf8(query@), seq![255u8]]);
        assert((full as u32) as u64 == full % 0x1_0000_0000) by (bit_vector);
    }
    let low: u32 = #[verifier::truncate] (full as u32);
    let digits = text::hex_chars(low, 8);
    text::string_of(digits.as_slice())
}

/// Append the marker `.__qs_<hash>__` to `base`, then repeat the extension of
/// the last path segment: `foo.js` becomes `foo.js.__qs_<hash>__.js`. A name
/// that begins with its only dot has no extension to repeat.
pub fn append_qs_marker(base: &str, hash: &str) -> (r: String)
    ensures
        r@ == with_marker(base@, hash@),
{
    let chars = text::chars_of(base);
    proof {
        text::lemma_last_index(base@, '/');
    }
    let start: usize = match text::last_index_of(chars.as_slice(), '/') {
        Some(i) => i + 1,
        None => 0,
    };
    let name = text::skip_chars(chars.as_slice(), start);
    let mut out: String = base.to_owned();
    out.append(".__qs_");
    out.append(hash);
    out.append("__");
    proof {
        text::lemma_last_index(name@, '.');
    }
    if let Some(dot) = text::last_index_of(name, '.') {
        if dot > 0 {
            let ext = text::string_of(text::skip_chars(name, dot));
            out.append(ext.as_str());
        }
    }
    proof {
        assert(out@ =~= with_marker(base@, hash@));
    }
    out
}

/// The cache key of the URL whose parts are given.
pub fn cache_key_of_parts(parts: &urls::UrlParts) -> (r: Option<String>)
    ensures
        text::opt(r) == match parts@.host {
            Some(host) => Some(key_for(host, parts@.path, parts@.query)),
            None => None,
        },
        parts@.host is Some && (parts@.query is None || parts@.query->0.len() == 0) && parts@.path.len() > 0
            && parts@.path.last() != '/' ==> text::opt(r) == Some(parts@.host->0 + parts@.path),
{
    let host = match &parts.host {
        Some(h) => h,
        None => {
            return None;
        },
    };
    let path = text::chars_of(parts.path.as_str());
    let mut base: String = host.clone();
    if path.len() == 0 {
        base.append("/index.html");
    } else {
        base.append(parts.path.as_str());
        if path[path.len() - 1] == '/' {
            base.append("index.html");
        }
    }
    proof {
        assert(base@ =~= host@ + pathname(parts.path@));
    }
    match &parts.query {
        Some(q) => {
            if q.as_str().unicode_len() > 0 {
                let hash = short_query_hash(q.as_str());
                Some(append_qs_marker(base.as_str(), hash.as_str()))
            } else {
                Some(base)
            }
        },
        None => Some(base),
    }
}

/// Whether an error says why a URL has no cache key: it is no URL, or it has no
/// host.
pub open spec fn is_key_error(url: Seq<char>, error: CacheKeyError) -> bool {
    match error {
        CacheKeyError::Parse(e) => urls::url_parse(url) == Err::<
            (Seq<char>, Option<Seq<char>>, Seq<char>, Option<Seq<char>>),
            _,
        >(e),
        CacheKeyError::MissingHost => urls::parsed(url) matches Some(p) && p.host is None,
    }
}

/// Derive the cache key from a URL.
///
/// - Without a query the key is `<host><path>`, and `index.html` behind it where
///   the path ends with a slash.
/// - With a query, the marker that [`append_qs_marker`] writes follows, so that
///   URLs that differ in the query alone are stored apart. The order of the
///   parameters counts.
/// - Scheme and fragment do not count.
pub fn cache_key_from_url(url: &str) -> (r: Result<String, CacheKeyError>)
    ensures
        match r {
            Ok(key) => cache_key(url@) == Some(key@),
            Err(e) => cache_key(url@) is None && is_key_error(url@, e),
        },
        r matches Ok(key) ==> urls::parsed(url@) matches Some(p) && p.host matches Some(host)
            && text::starts_with(key@, host.push('/')),
        r is Ok <==> urls::parsed(url@) is Some && urls::parsed(url@)->0.host is Some,
        (urls::parsed(url@) matches Some(p) && p.host is Some && (p.query is None || p.query->0.len() == 0)
            && p.path.len() > 0 && p.path.last() != '/') ==> (r matches Ok(key) && key@ == urls::parsed(
            url@,
        )->0.host->0 + urls::parsed(url@)->0.path),
{
    match urls::parse_url(url) {
        Err(e) => Err(CacheKeyError::Parse(e)),
        Ok(parts) => match cache_key_of_parts(&parts) {
            Some(key) => {
                proof {
                    lemma_key_starts_with_host(parts@.host->0, parts@.path, parts@.query);
                }
                Ok(key)
            },
            None => Err(CacheKeyError::MissingHost),
        },
    }
}

impl CacheKeyError {
    /// What the error says, given the words of the URL parser for the first kind.
    pub fn message(&self, parse_words: &str) -> (r: String)
        ensures
            r@ == match *self {
                CacheKeyError::Parse(_) => "invalid URL: "@ + parse_words@,
                CacheKeyError::MissingHost => "URL is missing a host component"@,
            },
    {
        match self {
            CacheKeyError::Parse(_) => {
                let mut out: String = "invalid URL: ".to_owned();
                out.append(parse_words);
                out
            },
            CacheKeyError::MissingHost => "URL is missing a host component".to_owned(),
        }
    }
}

// ---------------------------------------------------------------------------
// What holds of the keys.

/// Two URLs with the same host and path, each with a query, share a cache entry
/// exactly when the digests of the queries agree.
pub proof fn law_queries_are_stored_apart(host: Seq<char>, path: Seq<char>, q1: Seq<char>, q2: Seq<char>)
    requires
        q1.len() > 0,
        q2.len() > 0,
    ensures
        key_for(host, path, Some(q1)) == key_for(host, path, Some(q2)) <==> query_hash(q1) == query_hash(
            q2,
        ),
{
    let base = host + pathname(path);
    let h1 = text::hex(query_hash(q1), 8);
    let h2 = text::hex(query_hash(q2), 8);
    text::lemma_hex_len(query_hash(q1), 8);
    text::lemma_hex_len(query_hash(q2), 8);
    if with_marker(base, h1) == with_marker(base, h2) {
        let from = (base + ".__qs_"@).len() as int;
        assert(with_marker(base, h1).subrange(from, from + 8) =~= h1);
        assert(with_marker(base, h2).subrange(from, from + 8) =~= h2);
        assert(text::hex_range(8) == 0x1_0000_0000) by {
            reveal_with_fuel(text::hex_range, 9);
        }
        text::lemma_hex_injective(query_hash(q1), query_hash(q2), 8);
    }
}

/// The key of a URL with a query begins with the key of the URL without it, is
/// longer, and ends with the same extension.
pub proof fn law_query_key_extends_plain_key(host: Seq<char>, path: Seq<char>, q: Seq<char>)
    requires
        q.len() > 0,
    ensures
        text::starts_with(key_for(host, path, Some(q)), key_for(host, path, None)),
        key_for(host, path, Some(q)).len() > key_for(host, path, None).len(),
        text::ends_with(key_for(host, path, Some(q)), extension(file_name(key_for(host, path, None)))),
{
    reveal_strlit(".__qs_");
    let base = key_for(host, path, None);
    let key = key_for(host, path, Some(q));
    let ext = extension(file_name(base));
    assert(key.take(base.len() as int) =~= base);
    assert(key.skip(key.len() - ext.len()) =~= ext);
}

/// URLs that agree in host, path and query have one cache key, whatever their
/// schemes and fragments.
pub proof fn law_scheme_and_fragment_do_not_count(a: Seq<char>, b: Seq<char>)
    requires
        urls::parsed(a) matches Some(p) && urls::parsed(b) matches Some(q) && p.host == q.host && p.path
            == q.path && p.query == q.query,
    ensures
        cache_key(a) == cache_key(b),
{
}

/// Without a query, the key is the host and the whole path; a path that ends with a
/// slash, or is empty, stands for the `index.html` there.
pub proof fn law_plain_key_is_host_and_path(host: Seq<char>, path: Seq<char>)
    ensures
        path.len() > 0 && path.last() != '/' ==> key_for(host, path, None) == host + path,
        path.len() > 0 && path.last() == '/' ==> key_for(host, path, None) == host + path + "index.html"@,
        path.len() == 0 ==> key_for(host, path, None) == host + "/index.html"@,
{
    if path.len() > 0 && path.last() == '/' {
        assert(host + (path + "index.html"@) =~= host + path + "index.html"@);
    }
}

/// Different paths of a host have different keys.
pub proof fn law_paths_have_their_own_keys(host: Seq<char>, a: Seq<char>, b: Seq<char>)
    requires
        a != b,
        a.len() > 0 && a.last() != '/',
        b.len() > 0 && b.last() != '/',
    ensures
        key_for(host, a, None) != key_for(host, b, None),
{
    law_plain_key_is_host_and_path(host, a);
    law_plain_key_is_host_and_path(host, b);
    if host + a == host + b {
        assert(a =~= (host + a).skip(host.len() as int));
        assert(b =~= (host + b).skip(host.len() as int));
    }
}

/// Different hosts have different keys, whatever is asked of them.
pub proof fn law_hosts_have_their_own_keys(
    a: Seq<char>,
    path_a: Seq<char>,
    query_a: Option<Seq<char>>,
    b: Seq<char>,
    path_b: Seq<char>,
    query_b: Option<Seq<char>>,
)
    requires
        a != b,
        !a.contains('/'),
        !b.contains('/'),
        path_a.len() == 0 || path_a[0] == '/',
        path_b.len() == 0 || path_b[0] == '/',
    ensures
        key_for(a, path_a, query_a) != key_for(b, path_b, query_b),
{
    let x = key_for(a, path_a, query_a);
    let y = key_for(b, path_b, query_b);
    lemma_key_starts_with_host(a, path_a, query_a);
    lemma_key_starts_with_host(b, path_b, query_b);
    assert forall|k: int| 0 <= k < a.len() implies x[k] != '/' && x[k] == a[k] by {
        assert(a.contains(a[k]));
        assert(x.take(a.len() as int + 1)[k] == a.push('/')[k]);
    }
    assert forall|k: int| 0 <= k < b.len() implies y[k] != '/' && y[k] == b[k] by {
        assert(b.contains(b[k]));
        assert(y.take(b.len() as int + 1)[k] == b.push('/')[k]);
    }
    assert(x.take(a.len() as int + 1)[a.len() as int] == '/');
    assert(y.take(b.len() as int + 1)[b.len() as int] == '/');
    if x == y {
        if a.len() < b.len() {
            assert(y[a.len() as int] != '/');
        } else if b.len() < a.len() {
            assert(x[b.len() as int] != '/');
        }
        assert(a =~= b);
    }
}

/// With a query, the digest of the query follows the key without it: the low half
/// of its default hash, in eight hexadecimal digits. An empty query is none.
pub proof fn law_query_key_holds_the_digest(host: Seq<char>, path: Seq<char>, q: Seq<char>)
    requires
        q.len() > 0,
    ensures
        ({
            let full = DefaultHasher::spec_finish(seq![vstd::utf8::encode_utf8(q), seq![255u8]]);
            text::starts_with(
                key_for(host, path, Some(q)),
                key_for(host, path, None) + ".__qs_"@ + text::hex(full as nat % 0x1_0000_0000, 8) + "__"@,
            ) && key_for(host, path, Some(q)) == with_marker(
                key_for(host, path, None),
                text::hex(full as nat % 0x1_0000_0000, 8),
            )
        }),
        key_for(host, path, Some(Seq::empty())) == key_for(host, path, None),
{
    let base = key_for(host, path, None);
    let digits = text::hex(query_hash(q), 8);
    let lead = base + ".__qs_"@ + digits + "__"@;
    assert(key_for(host, path, Some(q)).take(lead.len() as int) =~= lead);
}

/// The marker for a query is followed by the extension of the file once more, so
/// that a script stays a script.
pub proof fn law_marker_repeats_the_extension(dir: Seq<char>, stem: Seq<char>, ext: Seq<char>, hash: Seq<char>)
    requires
        dir.len() == 0 || dir.last() == '/',
        stem.len() > 0,
        !stem.contains('/'),
        !ext.contains('/'),
        !ext.contains('.'),
    ensures
        ({
            let base = dir + stem + seq!['.'] + ext;
            with_marker(base, hash) == base + ".__qs_"@ + hash + "__"@ + seq!['.'] + ext
        }),
{
    let name = stem + seq!['.'] + ext;
    let base = dir + stem + seq!['.'] + ext;
    lemma_file_name(dir, name);
    assert(base =~= dir + name);
    text::lemma_last_index(name, '.');
    let dot = text::last_index(name, '.');
    assert(name[stem.len() as int] == '.');
    assert forall|k: int| stem.len() < k < name.len() implies name[k] != '.' by {
        assert(ext.contains(ext[k - stem.len() - 1]));
    }
    assert(dot == stem.len());
    assert(name.skip(dot) =~= seq!['.'] + ext);
    assert(with_marker(base, hash) =~= base + ".__qs_"@ + hash + "__"@ + seq!['.'] + ext);
}

/// Nothing follows the marker where the file has no extension: its name has no dot,
/// or begins with its only one.
pub proof fn law_marker_without_an_extension(dir: Seq<char>, name: Seq<char>, hash: Seq<char>)
    requires
        dir.len() == 0 || dir.last() == '/',
        !name.contains('/'),
        forall|k: int| 0 < k < name.len() ==> (#[trigger] name[k]) != '.',
    ensures
        with_marker(dir + name, hash) == dir + name + ".__qs_"@ + hash + "__"@,
{
    lemma_file_name(dir, name);
    text::lemma_last_index(name, '.');
    let base = dir + name;
    assert(with_marker(base, hash) =~= base + ".__qs_"@ + hash + "__"@);
}

/// The file name is what stands behind the directory.
pub proof fn lemma_file_name(dir: Seq<char>, name: Seq<char>)
    requires
        dir.len() == 0 || dir.last() == '/',
        !name.contains('/'),
    ensures
        file_name(dir + name) == name,
{
    let base = dir + name;
    text::lemma_last_index(base, '/');
    let k = text::last_index(base, '/');
    assert forall|j: int| dir.len() <= j < base.len() implies base[j] != '/' by {
        assert(name.contains(name[j - dir.len()]));
    }
    if dir.len() > 0 {
        assert(base[dir.len() - 1] == '/');
    }
    assert(k == dir.len() - 1);
    assert(base.skip(k + 1) =~= name);
}

/// The key of a URL is that of its host, its path and its query, and there is one
/// exactly where there is a host.
pub proof fn law_url_with_a_host_has_a_key(url: Seq<char>)
    ensures
        cache_key(url) is Some <==> urls::parsed(url) is Some && urls::parsed(url)->0.host is Some,
        (urls::parsed(url) matches Some(p) && p.host is Some && p.query is None && p.path.len() > 0
            && p.path.last() != '/') ==> cache_key(url) == Some(
            urls::parsed(url)->0.host->0 + urls::parsed(url)->0.path,
        ),
{
}

/// An empty query is no query.
pub proof fn law_empty_query_is_no_query(host: Seq<char>, path: Seq<char>)
    ensures
        key_for(host, path, Some(Seq::empty())) == key_for(host, path, None),
{
}

// ---------------------------------------------------------------------------
// Which responses are stored.

/// What `Cache-Control` says about storing a response.
#[derive(Debug, Clone, Copy, PartialEq, Eq)]
pub enum CachePolicy {
    /// Store body and metadata.
    Store,
    /// Serve the response without storing it, for the directive `reason`.
    Skip { reason: &'static str },
}

impl View for CachePolicy {
    type V = Option<Seq<char>>;

    /// The reason for not storing, where there is one.
    open spec fn view(&self) -> Option<Seq<char>> {
        match *self {
            CachePolicy::Store => None,
            CachePolicy::Skip { reason } => Some(reason@),
        }
    }
}

/// The name and the value of a directive, in lower case.
pub open spec fn directive(token: Seq<char>) -> (Seq<char>, Option<Seq<char>>) {
    let d = text::lower(text::trim(token));
    match text::split_once(d, '=') {
        Some((name, value)) => (
            text::trim(name),
            Some(text::strip_char(text::trim(value), '"')),
        ),
        None => (d, None),
    }
}

/// The reason that a directive gives for not storing, where it gives one.
pub open spec fn directive_reason(token: Seq<char>) -> Option<Seq<char>> {
    let (name, value) = directive(token);
    if name == "no-store"@ {
        Some("no-store"@)
    } else if name == "no-cache"@ {
        Some("no-cache"@)
    } else if name == "private"@ {
        Some("private"@)
    } else if name == "max-age"@ && value == Some("0"@) {
        Some("max-age=0"@)
    } else if name == "s-maxage"@ && value == Some("0"@) {
        Some("s-maxage=0"@)
    } else {
        None
    }
}

/// The reason of the first directive that gives one.
pub open spec fn first_reason(tokens: Seq<Seq<char>>) -> Option<Seq<char>>
    decreases tokens.len(),
{
    if tokens.len() == 0 {
        None
    } else if directive_reason(tokens[0]) is Some {
        directive_reason(tokens[0])
    } else {
        first_reason(tokens.skip(1))
    }
}

/// The reason that a `Cache-Control` value gives for not storing.
pub open spec fn skip_reason(cache_control: Option<Seq<char>>) -> Option<Seq<char>> {
    match cache_control {
        Some(raw) => first_reason(text::split(raw, ',')),
        None => None,
    }
}

/// The verdict of one directive.
fn directive_policy(token: &[char]) -> (r: CachePolicy)
    ensures
        r@ == directive_reason(token@),
{
    let d = text::lower_chars(text::trim_chars(token));
    proof {
        text::lemma_first_index(d@, '=');
    }
    let (name, zero): (String, bool) = match text::index_of(d.as_slice(), '=') {
        Some(i) => {
            let value = text::strip_chars(text::trim_chars(text::skip_chars(d.as_slice(), i + 1)), '"');
            let value_text = text::string_of(value);
            (
                text::string_of(text::trim_chars(text::take_chars(d.as_slice(), i))),
                text::same(value_text.as_str(), "0"),
            )
        },
        None => (text::string_of(d.as_slice()), false),
    };
    if text::same(name.as_str(), "no-store") {
        CachePolicy::Skip { reason: "no-store" }
    } else if text::same(name.as_str(), "no-cache") {
        CachePolicy::Skip { reason: "no-cache" }
    } else if text::same(name.as_str(), "private") {
        CachePolicy::Skip { reason: "private" }
    } else if text::same(name.as_str(), "max-age") && zero {
        CachePolicy::Skip { reason: "max-age=0" }
    } else if text::same(name.as_str(), "s-maxage") && zero {
        CachePolicy::Skip { reason: "s-maxage=0" }
    } else {
        CachePolicy::Store
    }
}

/// Decide from the `Cache-Control` of a response whether it is stored.
///
/// `no-store`, `no-cache` and `private` rule it out, and so does a `max-age` or
/// `s-maxage` of zero; the first such directive is the reason. Freshness is not
/// tracked: what is stored stays until it is cleared.
pub fn should_cache(cache_control: Option<&str>) -> (r: CachePolicy)
    ensures
        r@ == skip_reason(text::opt_str(cache_control)),
        r is Store <==> skip_reason(text::opt_str(cache_control)) is None,
        r matches CachePolicy::Skip { reason } ==> skip_reason(text::opt_str(cache_control)) == Some(reason@),
{
    let raw = match cache_control {
        Some(raw) => raw,
        None => {
            return CachePolicy::Store;
        },
    };
    let chars = text::chars_of(raw);
    let tokens = text::split_chars(chars.as_slice(), ',');
    let ghost all = text::split(raw@, ',');
    let mut i: usize = 0;
    proof {
        assert(all.skip(0) =~= all);
    }
    while i < tokens.len()
        invariant
            i <= tokens.len(),
            tokens@.len() == all.len(),
            forall|k: int| 0 <= k < all.len() ==> (#[trigger] tokens@[k])@ == all[k],
            first_reason(all) == first_reason(all.skip(i as int)),
            skip_reason(text::opt_str(cache_control)) == first_reason(all),
        decreases tokens.len() - i,
    {
        let verdict = directive_policy(tokens[i].as_slice());
        proof {
            assert(all.skip(i as int)[0] == tokens@[i as int]@);
            assert(all.skip(i as int).skip(1) =~= all.skip(i + 1));
        }
        if let CachePolicy::Skip { .. } = verdict {
            return verdict;
        }
        i += 1;
    }
    CachePolicy::Store
}

proof fn lemma_first_reason_concat(a: Seq<Seq<char>>, b: Seq<Seq<char>>)
    ensures
        first_reason(a + b) == match first_reason(a) {
            Some(reason) => Some(reason),
            None => first_reason(b),
        },
    decreases a.len(),
{
    if a.len() == 0 {
        assert(a + b =~= b);
    } else {
        lemma_first_reason_concat(a.skip(1), b);
        assert((a + b).skip(1) =~= a.skip(1) + b);
        assert((a + b)[0] == a[0]);
    }
}

/// Directives count wherever they stand: of two lists with a comma between them,
/// the first gives the reason where it has one, and otherwise the second does.
pub proof fn law_directives_count_wherever_they_stand(a: Seq<char>, b: Seq<char>)
    ensures
        skip_reason(Some(a.push(',') + b)) == match skip_reason(Some(a)) {
            Some(reason) => Some(reason),
            None => skip_reason(Some(b)),
        },
{
    text::law_split_goes_piece_by_piece(a, ',', b);
    lemma_first_reason_concat(text::split(a, ','), text::split(b, ','));
}

/// What a directive forbids: storing at all, without asking again, in a shared
/// cache, or for any time. Its name counts without regard to case, to space around
/// it, and to quotes around its value.
pub proof fn law_what_a_directive_forbids(token: Seq<char>)
    requires
        !token.contains(','),
    ensures
        ({
            let d = text::lower(text::trim(token));
            let (name, value) = match text::split_once(d, '=') {
                Some((n, v)) => (text::trim(n), Some(text::strip_char(text::trim(v), '"'))),
                None => (d, None),
            };
            let reason = skip_reason(Some(token));
            &&& name == "no-store"@ <==> reason == Some("no-store"@)
            &&& name == "no-cache"@ <==> reason == Some("no-cache"@)
            &&& name == "private"@ <==> reason == Some("private"@)
            &&& name == "max-age"@ && value == Some("0"@) <==> reason == Some("max-age=0"@)
            &&& name == "s-maxage"@ && value == Some("0"@) <==> reason == Some("s-maxage=0"@)
            &&& reason is Some ==> (reason == Some("no-store"@) || reason == Some("no-cache"@) || reason == Some(
                "private"@,
            ) || reason == Some("max-age=0"@) || reason == Some("s-maxage=0"@))
        }),
{
    text::law_split_goes_piece_by_piece(token, ',', Seq::empty());
    reveal_with_fuel(first_reason, 2);
    assert(seq![token].skip(1) =~= Seq::<Seq<char>>::empty());
    reveal_strlit("no-store");
    reveal_strlit("no-cache");
    reveal_strlit("private");
    reveal_strlit("max-age");
    reveal_strlit("s-maxage");
    reveal_strlit("max-age=0");
    reveal_strlit("s-maxage=0");
    assert("no-store"@[3] == 's' && "no-cache"@[3] == 'c');
    assert("max-age"@[0] == 'm' && "private"@[0] == 'p');
    assert("no-store"@[0] == 'n' && "s-maxage"@[0] == 's' && "no-cache"@[0] == 'n');
    assert("no-store"@ != "no-cache"@ && "no-store"@ != "private"@ && "no-cache"@ != "private"@);
    assert("max-age=0"@.len() == 9 && "s-maxage=0"@.len() == 10);
    assert(first_reason(seq![token]) == directive_reason(token));
    assert(skip_reason(Some(token)) == directive_reason(token));
}

/// A response is stored unless one of the directives, wherever it stands, forbids
/// it; without a `Cache-Control` it is stored.
pub proof fn law_stored_unless_a_directive_forbids(raw: Seq<char>)
    ensures
        skip_reason(None) is None,
        skip_reason(Some(raw)) is None <==> forall|k: int|
            0 <= k < text::split(raw, ',').len() ==> {
                let d = text::lower(text::trim(#[trigger] text::split(raw, ',')[k]));
                let name = match text::split_once(d, '=') {
                    Some((n, _)) => text::trim(n),
                    None => d,
                };
                let zero = text::split_once(d, '=') matches Some((_, v)) && text::strip_char(
                    text::trim(v),
                    '"',
                ) == "0"@;
                &&& name != "no-store"@
                &&& name != "no-cache"@
                &&& name != "private"@
                &&& !(name == "max-age"@ && zero)
                &&& !(name == "s-maxage"@ && zero)
            },
{
    lemma_first_reason_none(text::split(raw, ','));
}

proof fn lemma_first_reason_none(tokens: Seq<Seq<char>>)
    ensures
        first_reason(tokens) is None <==> forall|k: int|
            0 <= k < tokens.len() ==> directive_reason(#[trigger] tokens[k]) is None,
    decreases tokens.len(),
{
    if tokens.len() > 0 {
        let rest = tokens.skip(1);
        lemma_first_reason_none(rest);
        if first_reason(tokens) is None {
            assert forall|k: int| 0 <= k < tokens.len() implies directive_reason(#[trigger] tokens[k]) is None by {
                if k > 0 {
                    assert(rest[k - 1] == tokens[k]);
                }
            }
        } else if directive_reason(tokens[0]) is None {
            let k = choose|k: int| 0 <= k < rest.len() && directive_reason(#[trigger] rest[k]) is Some;
            assert(tokens[k + 1] == rest[k]);
        }
    }
}

/// The ASCII case of a `Cache-Control` value does not matter.
pub proof fn law_cache_control_ignores_case(raw: Seq<char>)
    ensures
        skip_reason(Some(text::lower(raw))) == skip_reason(Some(raw)),
{
    text::lemma_split_lower(raw, ',');
    lemma_first_reason_lower(text::split(raw, ','), text::split(text::lower(raw), ','));
}

proof fn lemma_first_reason_lower(a: Seq<Seq<char>>, b: Seq<Seq<char>>)
    requires
        a.len() == b.len(),
        forall|k: int| 0 <= k < a.len() ==> #[trigger] b[k] == text::lower(a[k]),
    ensures
        first_reason(b) == first_reason(a),
    decreases a.len(),
{
    if a.len() > 0 {
        text::lemma_trim_lower(a[0]);
        text::lemma_lower_idempotent(text::trim(a[0]));
        assert(b[0] == text::lower(a[0]));
        assert(directive(b[0]) == directive(a[0]));
        assert forall|k: int| 0 <= k < a.skip(1).len() implies #[trigger] b.skip(1)[k] == text::lower(
            a.skip(1)[k],
        ) by {
            assert(b[k + 1] == text::lower(a[k + 1]));
        }
        lemma_first_reason_lower(a.skip(1), b.skip(1));
    }
}

// ---------------------------------------------------------------------------
// What is stored beside a body.

/// What is recorded beside a stored body.
#[derive(Debug, Clone, PartialEq, Eq)]
pub struct Metadata {
    pub original_url: String,
    pub content_type: Option<String>,
    pub etag: Option<String>,
    pub last_modified: Option<String>,
    /// ISO 8601 time of the write.
    pub saved_at: String,
    /// The response headers that went to the page when the entry was written
    /// and that are replayed when it is served again. An entry that lacks them
    /// reads as one with none.
    pub forwarded_headers: Vec<(String, String)>,
}

/// The texts of [`Metadata`].
pub struct MetadataView {
    pub original_url: Seq<char>,
    pub content_type: Option<Seq<char>>,
    pub etag: Option<Seq<char>>,
    pub last_modified: Option<Seq<char>>,
    pub saved_at: Seq<char>,
    pub forwarded_headers: Seq<(Seq<char>, Seq<char>)>,
}

impl View for Metadata {
    type V = MetadataView;

    open spec fn view(&self) -> MetadataView {
        MetadataView {
            original_url: self.original_url@,
            content_type: text::opt(self.content_type),
            etag: text::opt(self.etag),
            last_modified: text::opt(self.last_modified),
            saved_at: self.saved_at@,
            forwarded_headers: text::pairs(self.forwarded_headers@),
        }
    }
}

impl Default for Metadata {
    /// Metadata that says nothing.
    fn default() -> (r: Self)
        ensures
            r@ == (MetadataView {
                original_url: Seq::empty(),
                content_type: None,
                etag: None,
                last_modified: None,
                saved_at: Seq::empty(),
                forwarded_headers: Seq::empty(),
            }),
    {
        let r = Metadata {
            original_url: String::new(),
            content_type: None,
            etag: None,
            last_modified: None,
            saved_at: String::new(),
            forwarded_headers: Vec::new(),
        };
        proof {
            assert(r@.forwarded_headers =~= Seq::empty());
        }
        r
    }
}

// ---------------------------------------------------------------------------
// The files of an entry.

/// The value of a hexadecimal digit of either case.
pub open spec fn digit_value(b: u8) -> Option<int> {
    if 48 <= b <= 57 {
        Some(b - 48)
    } else if 65 <= b <= 70 {
        Some(b - 55)
    } else if 97 <= b <= 102 {
        Some(b - 87)
    } else {
        None
    }
}

/// `bytes` with every `%` that two hexadecimal digits follow replaced, together
/// with them, by the byte they denote.
pub open spec fn percent_decoded(bytes: Seq<u8>) -> Seq<u8>
    decreases bytes.len(),
{
    if bytes.len() == 0 {
        Seq::empty()
    } else if bytes.len() >= 3 && bytes[0] == 37 && digit_value(bytes[1]) is Some && digit_value(
        bytes[2],
    ) is Some {
        seq![(digit_value(bytes[1])->0 * 16 + digit_value(bytes[2])->0) as u8] + percent_decoded(
            bytes.skip(3),
        )
    } else {
        seq![bytes[0]] + percent_decoded(bytes.skip(1))
    }
}

/// What `percent_decode_str(..).decode_utf8_lossy()` makes of a text.
pub uninterp spec fn decoded_text(s: Seq<char>) -> Seq<char>;

/// `percent_encoding::percent_decode_str`, and `decode_utf8_lossy` of what it
/// gives: where the decoded bytes are UTF-8, the result is the text they encode,
/// and a text without `%` comes back as it is. What stands for bytes that are
/// not UTF-8 is left to the name.
#[verifier::external_body]
fn percent_decode(s: &str) -> (r: String)
    ensures
        r@ == decoded_text(s@),
        vstd::utf8::valid_utf8(percent_decoded(vstd::utf8::encode_utf8(s@))) ==> r@
            == vstd::utf8::decode_utf8(percent_decoded(vstd::utf8::encode_utf8(s@))),
        !s@.contains('%') ==> r@ == s@,
{
    percent_encoding::percent_decode_str(s).decode_utf8_lossy().into_owned()
}

/// The cache root: where the setting says, or in the data directory, or, without
/// one, in the working directory.
pub fn cache_root(setting: Option<&str>, roots: &util::DataRoots) -> (r: String)
    ensures
        r@ == match setting {
            Some(path) => path@,
            None => match roots.data_root() {
                Some(root) => util::joined(root, "overrides"@),
                None => "overrides"@,
            },
        },
{
    if let Some(path) = setting {
        return path.to_owned();
    }
    match util::user_data_dir(util::UserDataKind::Overrides, roots) {
        Some(dir) => dir,
        None => "overrides".to_owned(),
    }
}

/// The path, relative to the cache root, that a cache key stands for.
pub fn decode_key(cache_key: &str) -> (r: String)
    ensures
        r@ == decoded_text(cache_key@),
        vstd::utf8::valid_utf8(percent_decoded(vstd::utf8::encode_utf8(cache_key@))) ==> r@
            == vstd::utf8::decode_utf8(percent_decoded(vstd::utf8::encode_utf8(cache_key@))),
        !cache_key@.contains('%') ==> r@ == cache_key@,
{
    percent_decode(cache_key)
}

/// Where the body of the entry with the decoded key `rel` lies.
pub open spec fn body_file(root: Seq<char>, rel: Seq<char>) -> Seq<char> {
    util::joined(root, rel)
}

/// Where the sidecar of a body lies.
pub open spec fn sidecar_file(body: Seq<char>) -> Seq<char> {
    body + ".meta.json"@
}

/// The file that holds the body of an entry.
pub fn body_path(root: &str, cache_key: &str) -> (r: String)
    ensures
        r@ == body_file(root@, decoded_text(cache_key@)),
{
    let rel = decode_key(cache_key);
    util::join_path(root, rel.as_str())
}

/// The file that holds the metadata of the entry with the body file `body`.
pub fn sidecar_path(body: &str) -> (r: String)
    ensures
        r@ == sidecar_file(body@),
{
    let mut out: String = body.to_owned();
    out.append(".meta.json");
    out
}

/// What a file of the cache holds.
pub enum FileContent {
    Body(Vec<u8>),
    Sidecar(Metadata),
}

/// The model of [`FileContent`].
pub enum FileView {
    Body(Seq<u8>),
    Sidecar(MetadataView),
}

impl View for FileContent {
    type V = FileView;

    open spec fn view(&self) -> FileView {
        match self {
            FileContent::Body(b) => FileView::Body(b@),
            FileContent::Sidecar(m) => FileView::Sidecar(m@),
        }
    }
}

/// The files of the cache root: what lies at which path.
pub type Files = Map<Seq<char>, FileView>;

/// The two files to write for an entry, in this order: first the body.
pub struct WritePlan {
    pub body_path: String,
    pub body: FileContent,
    pub sidecar_path: String,
    pub sidecar: FileContent,
}

impl WritePlan {
    /// The files once the plan is carried out.
    pub open spec fn carried_out(self, files: Files) -> Files {
        files.insert(self.body_path@, self.body@).insert(self.sidecar_path@, self.sidecar@)
    }
}

/// The files after an entry was written under a key.
pub open spec fn written(
    files: Files,
    root: Seq<char>,
    key: Seq<char>,
    body: Seq<u8>,
    meta: MetadataView,
) -> Files {
    let path = body_file(root, decoded_text(key));
    files.insert(path, FileView::Body(body)).insert(sidecar_file(path), FileView::Sidecar(meta))
}

/// What is read under a key: both files have to be there.
pub open spec fn found(files: Files, root: Seq<char>, key: Seq<char>) -> Option<(Seq<u8>, MetadataView)> {
    let path = body_file(root, decoded_text(key));
    if files.contains_key(path) && files.contains_key(sidecar_file(path)) {
        match (files[path], files[sidecar_file(path)]) {
            (FileView::Body(b), FileView::Sidecar(m)) => Some((b, m)),
            _ => None,
        }
    } else {
        None
    }
}

/// The files after the entry under a key was cleared.
pub open spec fn cleared(files: Files, root: Seq<char>, key: Seq<char>) -> Files {
    let path = body_file(root, decoded_text(key));
    files.remove(path).remove(sidecar_file(path))
}

/// Plan the write of an entry.
pub fn write(root: &str, cache_key: &str, body: Vec<u8>, meta: Metadata) -> (r: WritePlan)
    ensures
        forall|files: Files| #[trigger]
            r.carried_out(files) == written(files, root@, cache_key@, body@, meta@),
        r.body@ == FileView::Body(body@),
        r.body_path@ == body_file(root@, decoded_text(cache_key@)),
{
    let body_path = body_path(root, cache_key);
    let sidecar_path = sidecar_path(body_path.as_str());
    WritePlan {
        body_path,
        body: FileContent::Body(body),
        sidecar_path,
        sidecar: FileContent::Sidecar(meta),
    }
}

/// The two files of an entry: its body and its sidecar.
pub struct EntryPaths {
    pub body: String,
    pub sidecar: String,
}

/// Where to read an entry.
pub fn entry_paths(root: &str, cache_key: &str) -> (r: EntryPaths)
    ensures
        r.body@ == body_file(root@, decoded_text(cache_key@)),
        r.sidecar@ == sidecar_file(r.body@),
{
    let body = body_path(root, cache_key);
    let sidecar = sidecar_path(body.as_str());
    EntryPaths { body, sidecar }
}

/// The two files to remove to clear an entry. That they are missing is no
/// failure.
pub fn clear_url(root: &str, cache_key: &str) -> (r: EntryPaths)
    ensures
        r.body@ == body_file(root@, decoded_text(cache_key@)),
        r.sidecar@ == sidecar_file(r.body@),
        forall|files: Files| #[trigger]
            cleared(files, root@, cache_key@) == files.remove(r.body@).remove(r.sidecar@),
{
    entry_paths(root, cache_key)
}

/// The entry, given what reading its two files gave. It is there only where both
/// are there and the sidecar could be understood.
pub fn read(body: Option<Vec<u8>>, sidecar: Option<Metadata>) -> (r: Option<(Vec<u8>, Metadata)>)
    ensures
        r is Some <==> body is Some && sidecar is Some,
        r matches Some(e) ==> e.0@ == body->0@ && e.1@ == sidecar->0@,
{
    match (body, sidecar) {
        (Some(b), Some(m)) => Some((b, m)),
        _ => None,
    }
}

/// The directory to remove to clear all entries of a host.
pub fn clear_host(root: &str, host: &str) -> (r: String)
    ensures
        r@ == body_file(root@, decoded_text(host@)),
{
    body_path(root, host)
}

/// What clearing the whole cache does with an entry of the cache root.
#[derive(Debug, Clone, Copy, PartialEq, Eq, Structural)]
pub enum ClearAction {
    Keep,
    RemoveTree,
    RemoveFile,
}

/// Clearing the whole cache removes every entry of the cache root but
/// `.gitkeep`.
pub fn clear_all(file_name: &str, is_dir: bool) -> (r: ClearAction)
    ensures
        r == if file_name@ == ".gitkeep"@ {
            ClearAction::Keep
        } else if is_dir {
            ClearAction::RemoveTree
        } else {
            ClearAction::RemoveFile
        },
{
    if text::same(file_name, ".gitkeep") {
        ClearAction::Keep
    } else if is_dir {
        ClearAction::RemoveTree
    } else {
        ClearAction::RemoveFile
    }
}

/// Why a file operation failed.
#[derive(Debug, Clone, Copy, PartialEq, Eq, Structural)]
pub enum IoFailure {
    NotFound,
    Other,
}

/// Removing what is not there is no failure.
pub fn ignore_not_found(r: Result<(), IoFailure>) -> (out: Result<(), IoFailure>)
    ensures
        out == if r == Err::<(), _>(IoFailure::NotFound) {
            Ok(())
        } else {
            r
        },
{
    match r {
        Err(IoFailure::NotFound) => Ok(()),
        other => other,
    }
}

// ---------------------------------------------------------------------------
// What holds of the files.

proof fn lemma_sidecar_is_longer(body: Seq<char>)
    ensures
        sidecar_file(body).len() == body.len() + 10,
        sidecar_file(body) != body,
{
    reveal_strlit(".meta.json");
}

proof fn lemma_sidecar_injective(a: Seq<char>, b: Seq<char>)
    requires
        sidecar_file(a) == sidecar_file(b),
    ensures
        a == b,
{
    reveal_strlit(".meta.json");
    assert(a =~= sidecar_file(a).take(sidecar_file(a).len() - 10));
    assert(b =~= sidecar_file(b).take(sidecar_file(b).len() - 10));
}

/// Reading gives back what was written: the same bytes and the same metadata.
pub proof fn law_read_gives_back_write(
    files: Files,
    root: Seq<char>,
    key: Seq<char>,
    body: Seq<u8>,
    meta: MetadataView,
)
    ensures
        found(written(files, root, key, body, meta), root, key) == Some((body, meta)),
{
    lemma_sidecar_is_longer(body_file(root, decoded_text(key)));
}

/// An edited file is served: where the body of an entry was replaced, reading
/// gives the new body with the metadata of the old one.
pub proof fn law_edited_body_is_served(files: Files, root: Seq<char>, key: Seq<char>, edited: Seq<u8>)
    requires
        found(files, root, key) is Some,
    ensures
        found(files.insert(body_file(root, decoded_text(key)), FileView::Body(edited)), root, key) == Some(
            (edited, (found(files, root, key)->0).1),
        ),
{
    lemma_sidecar_is_longer(body_file(root, decoded_text(key)));
}

/// An entry one of whose files was deleted is no longer found, so that it is
/// fetched again.
pub proof fn law_entry_needs_both_files(files: Files, root: Seq<char>, key: Seq<char>)
    ensures
        found(files.remove(body_file(root, decoded_text(key))), root, key) is None,
        found(files.remove(sidecar_file(body_file(root, decoded_text(key)))), root, key) is None,
{
}

/// A write leaves every entry as it was whose two files are not the files
/// written.
pub proof fn law_write_leaves_other_entries(
    files: Files,
    root: Seq<char>,
    key: Seq<char>,
    other: Seq<char>,
    body: Seq<u8>,
    meta: MetadataView,
)
    requires
        body_file(root, decoded_text(key)) != body_file(root, decoded_text(other)),
        sidecar_file(body_file(root, decoded_text(key))) != body_file(root, decoded_text(other)),
        body_file(root, decoded_text(key)) != sidecar_file(body_file(root, decoded_text(other))),
    ensures
        found(written(files, root, key, body, meta), root, other) == found(files, root, other),
{
    let a = body_file(root, decoded_text(key));
    let b = body_file(root, decoded_text(other));
    if sidecar_file(a) == sidecar_file(b) {
        lemma_sidecar_injective(a, b);
    }
}

/// A cleared entry is gone, and clearing it again changes nothing.
pub proof fn law_cleared_entry_is_gone(files: Files, root: Seq<char>, key: Seq<char>)
    ensures
        found(cleared(files, root, key), root, key) is None,
        cleared(cleared(files, root, key), root, key) == cleared(files, root, key),
{
    assert(cleared(cleared(files, root, key), root, key) =~= cleared(files, root, key));
}

/// The body of an entry lies below the cache root, under the name that its key
/// stands for, and its sidecar beside it.
pub proof fn law_entry_lies_below_the_root(root: Seq<char>, rel: Seq<char>)
    requires
        root.len() > 0 && root.last() != '/',
        rel.len() == 0 || rel[0] != '/',
    ensures
        body_file(root, rel) == root + seq!['/'] + rel,
        sidecar_file(body_file(root, rel)) == root + seq!['/'] + rel + ".meta.json"@,
{
    assert(root.push('/') =~= root + seq!['/']);
}

/// A write puts the body and the metadata into the two files of the entry, and
/// leaves every other file as it was.
pub proof fn law_write_touches_two_files(
    files: Files,
    root: Seq<char>,
    key: Seq<char>,
    body: Seq<u8>,
    meta: MetadataView,
    path: Seq<char>,
)
    ensures
        ({
            let entry = body_file(root, decoded_text(key));
            let after = written(files, root, key, body, meta);
            &&& after.contains_key(entry) && after[entry] == FileView::Body(body)
            &&& after.contains_key(entry + ".meta.json"@) && after[entry + ".meta.json"@] == FileView::Sidecar(meta)
            &&& path != entry && path != entry + ".meta.json"@ ==> (after.contains_key(path) == files.contains_key(
                path,
            ) && after[path] == files[path])
        }),
{
    lemma_sidecar_is_longer(body_file(root, decoded_text(key)));
}

/// Clearing an entry removes its two files and leaves every other file as it was.
pub proof fn law_clearing_touches_two_files(files: Files, root: Seq<char>, key: Seq<char>, path: Seq<char>)
    ensures
        ({
            let entry = body_file(root, decoded_text(key));
            let after = cleared(files, root, key);
            &&& !after.contains_key(entry)
            &&& !after.contains_key(entry + ".meta.json"@)
            &&& path != entry && path != entry + ".meta.json"@ ==> (after.contains_key(path) == files.contains_key(
                path,
            ) && after[path] == files[path])
        }),
{
}

/// A `%` and two hexadecimal digits stand for the byte with that value; every other
/// byte stands for itself.
pub proof fn law_percent_stands_for_a_byte(byte: u8, high: u8, low: u8, rest: Seq<u8>)
    ensures
        byte != 37 ==> percent_decoded(seq![byte] + rest) == seq![byte] + percent_decoded(rest),
        48 <= high <= 57 && 48 <= low <= 57 ==> percent_decoded(seq![37u8, high, low] + rest) == seq![
            ((high - 48) * 16 + (low - 48)) as u8,
        ] + percent_decoded(rest),
        48 <= high <= 57 && 65 <= low <= 70 ==> percent_decoded(seq![37u8, high, low] + rest) == seq![
            ((high - 48) * 16 + (low - 55)) as u8,
        ] + percent_decoded(rest),
        48 <= high <= 57 && 97 <= low <= 102 ==> percent_decoded(seq![37u8, high, low] + rest) == seq![
            ((high - 48) * 16 + (low - 87)) as u8,
        ] + percent_decoded(rest),
        65 <= high <= 70 && 48 <= low <= 57 ==> percent_decoded(seq![37u8, high, low] + rest) == seq![
            ((high - 55) * 16 + (low - 48)) as u8,
        ] + percent_decoded(rest),
        97 <= high <= 102 && 48 <= low <= 57 ==> percent_decoded(seq![37u8, high, low] + rest) == seq![
            ((high - 87) * 16 + (low - 48)) as u8,
        ] + percent_decoded(rest),
{
    let plain = seq![byte] + rest;
    assert(plain.skip(1) =~= rest);
    let coded = seq![37u8, high, low] + rest;
    assert(coded.skip(3) =~= rest);
    assert(coded[0] == 37 && coded[1] == high && coded[2] == low);
}

/// Carrying out a write puts its two files in place and touches no other.
pub proof fn law_write_is_carried_out(plan: WritePlan, files: Files, path: Seq<char>)
    requires
        plan.body_path@ != plan.sidecar_path@,
    ensures
        ({
            let after = plan.carried_out(files);
            &&& after.contains_key(plan.body_path@) && after[plan.body_path@] == plan.body@
            &&& after.contains_key(plan.sidecar_path@) && after[plan.sidecar_path@] == plan.sidecar@
            &&& path != plan.body_path@ && path != plan.sidecar_path@ ==> (after.contains_key(path)
                == files.contains_key(path) && after[path] == files[path])
        }),
{
}

/// A URL has no key for one of two reasons: it cannot be read, or it names no host.
pub proof fn law_why_a_url_has_no_key(url: Seq<char>, e: url::ParseError)
    ensures
        is_key_error(url, CacheKeyError::MissingHost) <==> urls::url_parse(url) is Ok && urls::url_parse(
            url,
        )->Ok_0.1 is None,
        is_key_error(url, CacheKeyError::Parse(e)) <==> urls::url_parse(url) is Err && urls::url_parse(
            url,
        )->Err_0 == e,
{
}

} // verus!
