//! Hosts that the proxy has learned to leave alone.
//!
//! Where a TLS handshake through the proxy fails, because of a pinned
//! certificate or a protocol that the proxy does not speak, the host is
//! remembered, and the next connection to it is passed on as it is.
use vstd::prelude::*;
use crate::hook::ignore_filter;
use crate::text;
use crate::urls;
use crate::util;

verus! {

/// The file of the learned hosts, given the program's data directory.
pub fn store_path(app_support: Option<&str>) -> (r: Option<String>)
    ensures
        text::opt(r) == match app_support {
            Some(root) => Some(util::joined(util::joined(root@, "cache"@), "learned_passthrough.db"@)),
            None => None,
        },
{
    match app_support {
        Some(root) => {
            let cache = util::join_path(root, "cache");
            Some(util::join_path(cache.as_str(), "learned_passthrough.db"))
        },
        None => None,
    }
}

/// The host in `host`, `host:port` or `[address]:port`, in lower case. An address
/// in brackets keeps them.
pub open spec fn normalised(input: Seq<char>) -> Option<Seq<char>> {
    let s = text::trim(input);
    if s.len() == 0 {
        None
    } else if s[0] == '[' {
        let close = text::first_index(s, ']');
        if close < s.len() {
            Some(text::lower(s.take(close + 1)))
        } else {
            None
        }
    } else {
        let host = s.take(text::first_index(s, ':'));
        if host.len() > 0 {
            Some(text::lower(host))
        } else {
            None
        }
    }
}

/// The host in `host`, `host:port` or `[address]:port`, in lower case.
pub fn normalise_host(input: &str) -> (r: Option<String>)
    ensures
        text::opt(r) == normalised(input@),
{
    let chars = text::chars_of(input);
    let s = text::trim_chars(chars.as_slice());
    if s.len() == 0 {
        return None;
    }
    proof {
        text::lemma_first_index(s@, ']');
        text::lemma_first_index(s@, ':');
        assert(s@.take(s@.len() as int) =~= s@);
    }
    if s[0] == '[' {
        return match text::index_of(s, ']') {
            Some(close) => {
                let low = text::lower_chars(text::take_chars(s, close + 1));
                Some(text::string_of(low.as_slice()))
            },
            None => None,
        };
    }
    let host = match text::index_of(s, ':') {
        Some(colon) => text::take_chars(s, colon),
        None => s,
    };
    if host.len() == 0 {
        return None;
    }
    let low = text::lower_chars(host);
    Some(text::string_of(low.as_slice()))
}

/// A host that has been normalised is its own normal form, unless white space
/// ends it.
pub proof fn law_normal_host_is_normal(input: Seq<char>)
    requires
        normalised(input) matches Some(n) && text::trim(n) == n,
    ensures
        normalised(normalised(input)->0) == normalised(input),
{
    let s = text::trim(input);
    let n = normalised(input)->0;
    text::lemma_first_index(s, ']');
    text::lemma_first_index(s, ':');
    if s[0] == '[' {
        let close = text::first_index(s, ']');
        let kept = s.take(close + 1);
        assert(n[0] == '[');
        assert forall|j: int| 0 <= j < close implies n[j] != ']' by {
            assert(s[j] != ']');
            text::lemma_lower_char(s[j]);
            assert(text::same_char(text::lower_char(s[j]), ']') <==> s[j] == ']');
        }
        text::lemma_first_index_is(n, ']', close);
        assert(n.take(close + 1) =~= n);
        text::lemma_lower_idempotent(kept);
    } else {
        let colon = text::first_index(s, ':');
        let host = s.take(colon);
        text::lemma_lower_char(s[0]);
        assert(text::same_char(text::lower_char(s[0]), '[') <==> s[0] == '[');
        assert(n[0] != '[');
        assert forall|j: int| 0 <= j < colon implies n[j] != ':' by {
            assert(s[j] != ':');
            text::lemma_lower_char(s[j]);
            assert(text::same_char(text::lower_char(s[j]), ':') <==> s[j] == ':');
        }
        text::lemma_first_index_is(n, ':', colon);
        assert(n.take(colon) =~= n);
        text::lemma_lower_idempotent(host);
    }
}

/// The hosts that have been learned.
pub struct LearnedHosts {
    hosts: Vec<String>,
}

impl View for LearnedHosts {
    type V = Set<Seq<char>>;

    closed spec fn view(&self) -> Set<Seq<char>> {
        text::texts(self.hosts@).to_set()
    }
}

impl LearnedHosts {
    /// No host is listed twice.
    pub closed spec fn wf(&self) -> bool {
        text::texts(self.hosts@).no_duplicates()
    }

    /// No hosts.
    pub fn new() -> (r: Self)
        ensures
            r.wf(),
            r@ == Set::<Seq<char>>::empty(),
    {
        let r = LearnedHosts { hosts: Vec::new() };
        proof {
            assert(r@ =~= Set::<Seq<char>>::empty());
        }
        r
    }

    /// How many hosts there are.
    pub fn len(&self) -> (r: usize)
        requires
            self.wf(),
        ensures
            r == self@.len(),
    {
        proof {
            text::texts(self.hosts@).unique_seq_to_set();
        }
        self.hosts.len()
    }

    /// Whether a host is listed.
    pub fn contains(&self, host: &str) -> (r: bool)
        ensures
            r == self@.contains(host@),
    {
        let ghost all = text::texts(self.hosts@);
        let mut i: usize = 0;
        while i < self.hosts.len()
            invariant
                i <= self.hosts.len(),
                all == text::texts(self.hosts@),
                forall|j: int| 0 <= j < i ==> all[j] != host@,
            decreases self.hosts.len() - i,
        {
            if text::same(self.hosts[i].as_str(), host) {
                proof {
                    assert(all[i as int] == host@);
                    assert(all.contains(host@));
                }
                return true;
            }
            i += 1;
        }
        proof {
            assert(!all.contains(host@));
        }
        false
    }

    /// List a host. The answer is whether it was new.
    fn insert(&mut self, host: String) -> (r: bool)
        requires
            old(self).wf(),
        ensures
            final(self).wf(),
            final(self)@ == old(self)@.insert(host@),
            r == !old(self)@.contains(host@),
    {
        if self.contains(host.as_str()) {
            proof {
                assert(self@.insert(host@) =~= self@);
            }
            return false;
        }
        let ghost before = text::texts(self.hosts@);
        let ghost added = host@;
        self.hosts.push(host);
        proof {
            let after = text::texts(self.hosts@);
            assert(after =~= before.push(added));
            assert(!before.contains(added));
            assert(after.to_set() =~= before.to_set().insert(added)) by {
                assert forall|x: Seq<char>| after.contains(x) <==> before.contains(x) || x == added by {
                    if before.contains(x) {
                        let i = choose|i: int| 0 <= i < before.len() && before[i] == x;
                        assert(after[i] == x);
                    }
                    assert(after[before.len() as int] == added);
                }
            }
        }
        true
    }
}

/// Remember a host. The answer is whether it was new; text without a host is not
/// remembered.
pub fn learn_passthrough(learned: &mut LearnedHosts, host: &str) -> (r: bool)
    requires
        old(learned).wf(),
    ensures
        final(learned).wf(),
        match normalised(host@) {
            Some(h) => final(learned)@ == old(learned)@.insert(h) && r == !old(learned)@.contains(h),
            None => *final(learned) == *old(learned) && !r,
        },
{
    match normalise_host(host) {
        Some(h) => learned.insert(h),
        None => false,
    }
}

/// Whether the host of an authority is one of `learned`.
pub open spec fn passes_by(learned: Set<Seq<char>>, authority: Seq<char>) -> bool {
    normalised(authority) is Some && learned.contains(normalised(authority)->0)
}

/// Whether connections to `authority` pass by the proxy.
pub fn is_learned_passthrough(learned: &LearnedHosts, authority: &str) -> (r: bool)
    ensures
        r == passes_by(learned@, authority@),
{
    match normalise_host(authority) {
        Some(h) => learned.contains(h.as_str()),
        None => false,
    }
}

/// What has been learned passes by from then on, and nothing is forgotten.
pub proof fn law_learned_host_passes_by(learned: Set<Seq<char>>, host: Seq<char>, other: Seq<char>)
    requires
        normalised(host) is Some,
    ensures
        passes_by(learned.insert(normalised(host)->0), host),
        passes_by(learned, other) ==> passes_by(learned.insert(normalised(host)->0), other),
{
}

/// The hosts that a list of stored rows names.
pub open spec fn stored_hosts(rows: Seq<Seq<char>>) -> Set<Seq<char>>
    decreases rows.len(),
{
    if rows.len() == 0 {
        Set::empty()
    } else {
        match normalised(rows.last()) {
            Some(h) => stored_hosts(rows.drop_last()).insert(h),
            None => stored_hosts(rows.drop_last()),
        }
    }
}

/// The hosts that the stored rows name, and how many they are.
pub fn load_learned_passthrough(rows: &Vec<String>) -> (r: (LearnedHosts, usize))
    ensures
        r.0.wf(),
        r.0@ == stored_hosts(text::texts(rows@)),
        r.1 == r.0@.len(),
{
    let mut learned = LearnedHosts::new();
    let ghost all = text::texts(rows@);
    let mut i: usize = 0;
    while i < rows.len()
        invariant
            i <= rows.len(),
            all == text::texts(rows@),
            learned.wf(),
            learned@ == stored_hosts(all.take(i as int)),
        decreases rows.len() - i,
    {
        proof {
            assert(all.take(i + 1).drop_last() =~= all.take(i as int));
            assert(all.take(i + 1).last() == rows@[i as int]@);
        }
        let _ = learn_passthrough(&mut learned, rows[i].as_str());
        i += 1;
    }
    proof {
        assert(all.take(i as int) =~= all);
    }
    let n = learned.len();
    (learned, n)
}

// ---------------------------------------------------------------------------
// Learning from the proxy's own reports.

/// The text of a URI without the quotes around it.
pub open spec fn unquoted(s: Seq<char>) -> Seq<char> {
    if s.len() >= 2 && s[0] == '"' && s.last() == '"' {
        s.subrange(1, s.len() - 1)
    } else {
        s
    }
}

/// The text of a URI without the quotes around it.
pub fn strip_quotes(s: &str) -> (r: String)
    ensures
        r@ == unquoted(s@),
{
    let chars = text::chars_of(s);
    if chars.len() >= 2 && chars[0] == '"' && chars[chars.len() - 1] == '"' {
        text::string_of(vstd::slice::slice_subrange(chars.as_slice(), 1, chars.len() - 1))
    } else {
        s.to_owned()
    }
}

/// The host that a reported URI names: that of the URL, or that of the authority.
pub open spec fn reported_host(uri: Seq<char>) -> Option<Seq<char>> {
    let s = text::trim(uri);
    if text::contains(s, "://"@) {
        ignore_filter::host_of(s)
    } else {
        normalised(s)
    }
}

/// The host that a reported URI names.
pub fn extract_host(uri: &str) -> (r: Option<String>)
    ensures
        text::opt(r) == reported_host(uri@),
{
    let s = text::trimmed(uri);
    if text::has_text(s.as_str(), "://") {
        return match urls::parse_url(s.as_str()) {
            Ok(parts) => match &parts.host {
                Some(h) => Some(text::to_lower(h.as_str())),
                None => None,
            },
            Err(_) => None,
        };
    }
    normalise_host(s.as_str())
}

/// The host that the first of the URIs names that names one; a span without a
/// URI counts for nothing.
pub open spec fn first_host(uris: Seq<Option<Seq<char>>>) -> Option<Seq<char>>
    decreases uris.len(),
{
    if uris.len() == 0 {
        None
    } else if uris[0] is Some && reported_host(uris[0]->0) is Some {
        reported_host(uris[0]->0)
    } else {
        first_host(uris.skip(1))
    }
}

/// Whether a report is an error of the proxy.
pub open spec fn is_proxy_error(target: Seq<char>, is_error: bool) -> bool {
    is_error && target != "hook"@ && text::starts_with(target, "hudsucker"@)
}

/// Learns hosts from the errors that the proxy reports.
pub struct LearnerLayer;

impl LearnerLayer {
    /// Take in a report: where it comes from, whether it is an error, and the
    /// URIs of the spans around it, the innermost first. The host of an error of
    /// the proxy is learned; it is handed back where it is new, to be stored.
    pub fn on_event(
        &self,
        learned: &mut LearnedHosts,
        target: &str,
        is_error: bool,
        scope_uris: &Vec<Option<String>>,
    ) -> (r: Option<String>)
        requires
            old(learned).wf(),
        ensures
            final(learned).wf(),
            ({
                let host = first_host(Seq::new(scope_uris@.len(), |i: int| text::opt(scope_uris@[i])));
                if is_proxy_error(target@, is_error) && host is Some && normalised(host->0) is Some {
                    let h = normalised(host->0)->0;
                    &&& final(learned)@ == old(learned)@.insert(h)
                    &&& text::opt(r) == if old(learned)@.contains(h) {
                        None
                    } else {
                        Some(h)
                    }
                } else {
                    final(learned)@ == old(learned)@ && r is None
                }
            }),
    {
        if !is_error || text::same(target, "hook") || !text::begins(target, "hudsucker") {
            return None;
        }
        let ghost all = Seq::new(scope_uris@.len(), |i: int| text::opt(scope_uris@[i]));
        let mut i: usize = 0;
        proof {
            assert(all.skip(0) =~= all);
        }
        while i < scope_uris.len()
            invariant
                i <= scope_uris.len(),
                all == Seq::new(scope_uris@.len(), |i: int| text::opt(scope_uris@[i])),
                first_host(all) == first_host(all.skip(i as int)),
                learned.wf(),
                *learned == *old(learned),
                is_proxy_error(target@, is_error),
            decreases scope_uris.len() - i,
        {
            proof {
                assert(all.skip(i as int)[0] == text::opt(scope_uris@[i as int]));
                assert(all.skip(i as int).skip(1) =~= all.skip(i + 1));
            }
            if let Some(uri) = &scope_uris[i] {
                if let Some(host) = extract_host(uri.as_str()) {
                    return match normalise_host(host.as_str()) {
                        Some(h) => {
                            if learn_passthrough(learned, host.as_str()) {
                                Some(h)
                            } else {
                                None
                            }
                        },
                        None => None,
                    };
                }
            }
            i += 1;
        }
        None
    }
}

// ---------------------------------------------------------------------------
// What holds of hosts and reports.

/// A host is what stands before the port, in lower case; connections to it pass by
/// with the port and without it.
pub proof fn law_host_stands_before_the_port(learned: Set<Seq<char>>, host: Seq<char>, port: Seq<char>)
    requires
        host.len() > 0,
        host[0] != '[',
        !host.contains(':'),
        !text::white_space(host[0]),
        !text::white_space(host.last()),
        port.len() > 0 ==> !text::white_space(port.last()),
    ensures
        normalised(host) == Some(text::lower(host)),
        normalised(host.push(':') + port) == Some(text::lower(host)),
        passes_by(learned, host) <==> learned.contains(text::lower(host)),
        passes_by(learned, host.push(':') + port) <==> learned.contains(text::lower(host)),
{
    let s = host.push(':') + port;
    assert(text::trim(host) == host);
    assert(s[0] == host[0]);
    assert(s.last() == if port.len() > 0 {
        port.last()
    } else {
        ':'
    });
    assert(text::trim(s) == s);
    text::lemma_first_index_is(s, ':', host.len() as int);
    text::lemma_first_index_is(host, ':', host.len() as int);
    assert(s.take(host.len() as int) =~= host);
    assert(host.take(host.len() as int) =~= host);
}

/// An address in brackets keeps them, and what stands behind them does not count.
pub proof fn law_address_keeps_its_brackets(learned: Set<Seq<char>>, address: Seq<char>, rest: Seq<char>)
    requires
        !address.contains(']'),
        rest.len() > 0 ==> !text::white_space(rest.last()),
    ensures
        normalised(seq!['['] + address + seq![']'] + rest) == Some(seq!['['] + text::lower(address) + seq![']']),
        passes_by(learned, seq!['['] + address + seq![']'] + rest) <==> learned.contains(
            seq!['['] + text::lower(address) + seq![']'],
        ),
{
    let s = seq!['['] + address + seq![']'] + rest;
    assert(s[0] == '[');
    assert(s.last() == if rest.len() > 0 {
        rest.last()
    } else {
        ']'
    });
    assert(text::trim(s) == s);
    let close = (address.len() + 1) as int;
    assert forall|j: int| 0 <= j < close implies s[j] != ']' by {
        if j > 0 {
            assert(s[j] == address[j - 1]);
        }
    }
    text::lemma_first_index_is(s, ']', close);
    assert(text::lower(s.take(close + 1)) =~= seq!['['] + text::lower(address) + seq![']']);
}

/// White space around it does not count, and only a blank text, one that begins
/// with the port, and one whose bracket is not closed have no host.
pub proof fn law_which_texts_have_no_host(input: Seq<char>)
    ensures
        normalised(text::trim(input)) == normalised(input),
        ({
            let s = text::trim(input);
            normalised(input) is None <==> (s.len() == 0 || s[0] == ':' || (s[0] == '[' && !s.contains(']')))
        }),
{
    let s = text::trim(input);
    text::lemma_trim_idempotent(input);
    text::lemma_first_index(s, ']');
    text::lemma_first_index(s, ':');
    if s.contains(']') {
        let i = choose|i: int| 0 <= i < s.len() && s[i] == ']';
        assert(s[i] == ']');
    }
}

/// Every stored row counts, and nothing else.
pub proof fn law_every_row_is_learned(rows: Seq<Seq<char>>, host: Seq<char>)
    ensures
        stored_hosts(rows).contains(host) <==> exists|i: int|
            0 <= i < rows.len() && normalised(#[trigger] rows[i]) == Some(host),
    decreases rows.len(),
{
    if rows.len() > 0 {
        let before = rows.drop_last();
        law_every_row_is_learned(before, host);
        if stored_hosts(before).contains(host) {
            let i = choose|i: int| 0 <= i < before.len() && normalised(#[trigger] before[i]) == Some(host);
            assert(rows[i] == before[i]);
        }
        assert(rows[rows.len() - 1] == rows.last());
        if exists|i: int| 0 <= i < rows.len() && normalised(#[trigger] rows[i]) == Some(host) {
            let i = choose|i: int| 0 <= i < rows.len() && normalised(#[trigger] rows[i]) == Some(host);
            if i < before.len() {
                assert(before[i] == rows[i]);
            }
        }
    }
}

/// One quote on either side is taken off, where both are there.
pub proof fn law_quotes_are_taken_off(s: Seq<char>)
    ensures
        unquoted(seq!['"'] + s + seq!['"']) == s,
        s.len() < 2 || s[0] != '"' || s.last() != '"' ==> unquoted(s) == s,
{
    let quoted = seq!['"'] + s + seq!['"'];
    assert(quoted.subrange(1, quoted.len() - 1) =~= s);
}

/// A report names the host of its URL, in lower case, or that of its authority.
pub proof fn law_which_host_is_reported(a: Seq<char>, b: Seq<char>, authority: Seq<char>)
    ensures
        ({
            let url = a + "://"@ + b;
            text::trim(url) == url ==> reported_host(url) == match urls::parsed(url) {
                Some(p) => match p.host {
                    Some(h) => Some(text::lower(h)),
                    None => None,
                },
                None => None,
            }
        }),
        !text::contains(text::trim(authority), "://"@) ==> reported_host(authority) == normalised(authority),
        reported_host(text::trim(authority)) == reported_host(authority),
{
    text::law_contained_text(a, "://"@, b);
    text::lemma_trim_idempotent(authority);
}

/// The spans are asked one after the other, and the first that names a host
/// answers.
pub proof fn law_first_span_with_a_host_answers(
    a: Seq<Option<Seq<char>>>,
    uri: Option<Seq<char>>,
    b: Seq<Option<Seq<char>>>,
)
    requires
        first_host(a) is None,
    ensures
        uri is Some && reported_host(uri->0) is Some ==> first_host(a.push(uri) + b) == reported_host(uri->0),
        uri is None || reported_host(uri->0) is None ==> first_host(a.push(uri) + b) == first_host(b),
        first_host(Seq::empty()) is None,
    decreases a.len(),
{
    let all = a.push(uri) + b;
    if a.len() == 0 {
        assert(all[0] == uri);
        assert(all.skip(1) =~= b);
    } else {
        assert(all[0] == a[0]);
        law_first_span_with_a_host_answers(a.skip(1), uri, b);
        assert(all.skip(1) =~= a.skip(1).push(uri) + b);
    }
}

/// The errors of the proxy are those whose source begins with its name; a report
/// that is no error is none of them.
pub proof fn law_which_reports_are_proxy_errors(target: Seq<char>, rest: Seq<char>)
    ensures
        is_proxy_error("hudsucker"@ + rest, true),
        is_proxy_error(target, true) ==> exists|tail: Seq<char>| target == #[trigger] ("hudsucker"@ + tail),
        !is_proxy_error(target, false),
{
    reveal_strlit("hudsucker");
    reveal_strlit("hook");
    let s = "hudsucker"@ + rest;
    text::law_beginning_and_end(s, "hudsucker"@);
    text::law_beginning_and_end(target, "hudsucker"@);
    assert(s.len() > "hook"@.len());
}

} // verus!
