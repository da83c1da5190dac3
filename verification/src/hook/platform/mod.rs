//! What the two interceptors, one per platform, decide and compute.
//!
//! On macOS the proxy of [`crate::mitm`] sees every request, and
//! [`macos`] holds the rules of an interceptor inside the page's own loader. On
//! Windows, [`windows`] holds the rules of the handler that is attached to a
//! page once it exists.
use vstd::prelude::*;
use http::HeaderMap;
use crate::headers;
use crate::text;

pub mod macos;
pub mod windows;

verus! {

/// Why an interceptor could not be installed.
#[derive(Debug)]
pub enum InstallError {
    /// The platform reported a failure.
    Platform(String),
}

impl InstallError {
    /// What the error says.
    pub fn message(&self) -> (r: String)
        ensures
            self matches InstallError::Platform(words) && r@ == "platform interceptor install failed: "@
                + words@,
    {
        match self {
            InstallError::Platform(words) => {
                let mut out: String = "platform interceptor install failed: ".to_owned();
                out.append(words.as_str());
                out
            },
        }
    }
}

/// What is set up before any page exists: nothing, on either platform.
pub fn install_global() -> (r: Result<(), InstallError>)
    ensures
        r == Ok::<(), InstallError>(()),
{
    Ok(())
}

/// Whether a host, in lower case, is the local machine. No host at all counts as
/// local.
pub open spec fn local_host(host: Seq<char>) -> bool {
    ||| host.len() == 0
    ||| host == "localhost"@
    ||| host == "127.0.0.1"@
    ||| host == "0.0.0.0"@
    ||| host == "::1"@
    ||| text::ends_with(host, ".localhost"@)
}

/// Whether a host, in lower case, is the local machine. Pages of the local
/// machine are the program's own and are not intercepted.
pub fn is_local_host(host: &str) -> (r: bool)
    ensures
        r == local_host(host@),
{
    host.unicode_len() == 0 || text::same(host, "localhost") || text::same(host, "127.0.0.1")
        || text::same(host, "0.0.0.0") || text::same(host, "::1") || text::ends(host, ".localhost")
}

/// Whether a pair of texts can be a header.
pub open spec fn is_header(pair: (Seq<char>, Seq<char>)) -> bool {
    headers::is_name(pair.0) && headers::is_value(pair.1)
}

/// The values of the pairs that can be headers and are named `name`, in any
/// ASCII case.
pub open spec fn pair_values(pairs: Seq<(Seq<char>, Seq<char>)>, name: Seq<char>) -> Seq<
    Option<Seq<char>>,
>
    decreases pairs.len(),
{
    if pairs.len() == 0 {
        Seq::empty()
    } else if is_header(pairs.last()) && text::lower(pairs.last().0) == text::lower(name) {
        pair_values(pairs.drop_last(), name).push(headers::stored_value(pairs.last().1))
    } else {
        pair_values(pairs.drop_last(), name)
    }
}

/// The header map for the headers that the platform lists. What cannot be a
/// header is left out. There is no answer only where the map could not grow.
pub fn headers_to_http(list: &Vec<(String, String)>) -> (r: Option<HeaderMap>)
    ensures
        list@.len() <= headers::ALWAYS_ROOM ==> r is Some,
        r matches Some(map) ==> forall|n: Seq<char>|
            #[trigger] headers::held_values(map, n) == pair_values(text::pairs(list@), n),
{
    let mut map = headers::empty_map();
    let ghost all = text::pairs(list@);
    let mut i: usize = 0;
    while i < list.len()
        invariant
            i <= list.len(),
            all == text::pairs(list@),
            headers::header_entries(map).len() <= i,
            forall|n: Seq<char>|
                #[trigger] headers::held_values(map, n) == pair_values(all.take(i as int), n),
        decreases list.len() - i,
    {
        let name = list[i].0.as_str();
        let value = list[i].1.as_str();
        proof {
            assert(all.take(i + 1).drop_last() =~= all.take(i as int));
            assert(all.take(i + 1).last() == (name@, value@));
        }
        if headers::parse_name(name).is_some() && headers::accepts_value(value) {
            if !headers::try_append(&mut map, name, value) {
                return None;
            }
        }
        i += 1;
    }
    proof {
        assert(all.take(i as int) =~= all);
    }
    Some(map)
}

/// The local machine is told by its names and addresses, and by the names below
/// `localhost`; every other host is remote.
pub proof fn law_which_hosts_are_local(host: Seq<char>)
    ensures
        local_host(host) <==> (host.len() == 0 || host == "localhost"@ || host == "127.0.0.1"@ || host == "0.0.0.0"@
            || host == "::1"@ || exists|sub: Seq<char>| host == #[trigger] (sub + ".localhost"@)),
{
    text::law_beginning_and_end(host, ".localhost"@);
}

/// Every pair that can be a header counts under its name, in any case, with the
/// others of that name, in order; a pair that cannot be one does not count.
pub proof fn law_every_pair_counts_under_its_name(
    a: Seq<(Seq<char>, Seq<char>)>,
    b: Seq<(Seq<char>, Seq<char>)>,
    pair: (Seq<char>, Seq<char>),
    name: Seq<char>,
)
    ensures
        pair_values(a + b, name) == pair_values(a, name) + pair_values(b, name),
        headers::is_name(pair.0) && headers::is_value(pair.1) && text::lower(pair.0) == text::lower(name)
            ==> pair_values(seq![pair], name) == seq![headers::stored_value(pair.1)],
        !(headers::is_name(pair.0) && headers::is_value(pair.1) && text::lower(pair.0) == text::lower(name))
            ==> pair_values(seq![pair], name).len() == 0,
    decreases b.len(),
{
    if b.len() == 0 {
        assert(a + b =~= a);
        assert(pair_values(a, name) + pair_values(b, name) =~= pair_values(a, name));
    } else {
        law_every_pair_counts_under_its_name(a, b.drop_last(), pair, name);
        assert((a + b).drop_last() =~= a + b.drop_last());
        assert((a + b).last() == b.last());
        assert(pair_values(a + b, name) =~= pair_values(a, name) + pair_values(b, name));
    }
    reveal_with_fuel(pair_values, 2);
    assert(seq![pair].drop_last() =~= Seq::<(Seq<char>, Seq<char>)>::empty());
    assert(seq![pair].last() == pair);
    assert(pair_values(Seq::<(Seq<char>, Seq<char>)>::empty(), name) =~= Seq::empty());
    if is_header(pair) && text::lower(pair.0) == text::lower(name) {
        assert(pair_values(seq![pair], name) =~= seq![headers::stored_value(pair.1)]);
    }
}

} // verus!
