//! The headers of a request that goes upstream.
use vstd::prelude::*;
use http::HeaderMap;
use crate::headers;
use crate::text;

verus! {

/// The header that marks a request as the program's own.
pub const BYPASS_HEADER: &'static str = "x-hook-bypass";

/// How many redirects a fetch follows.
pub const MAX_REDIRECTS: usize = 10;

/// Whether a header, named in lower case, makes a request conditional.
///
/// The page's own cache adds such headers. The answer to them may be "not
/// modified", without a body, and nothing could be made of that here.
pub open spec fn is_conditional(name: Seq<char>) -> bool {
    ||| name == "if-match"@
    ||| name == "if-none-match"@
    ||| name == "if-modified-since"@
    ||| name == "if-unmodified-since"@
    ||| name == "if-range"@
}

/// What goes upstream under a name, when `values` came from the page under it:
/// nothing for a conditional header, the mark behind what came for the mark, and
/// what came for every other header.
pub open spec fn sent_values(name: Seq<char>, values: Seq<Option<Seq<char>>>) -> Seq<
    Option<Seq<char>>,
> {
    if is_conditional(text::lower(name)) {
        Seq::empty()
    } else if text::lower(name) == "x-hook-bypass"@ {
        values.push(Some("1"@))
    } else {
        values
    }
}

/// No conditional header goes upstream, so that no answer without a body comes
/// back.
pub proof fn law_no_conditional_header_goes_upstream(name: Seq<char>, values: Seq<Option<Seq<char>>>)
    requires
        is_conditional(text::lower(name)),
    ensures
        sent_values(name, values).len() == 0,
{
}

/// Every other header goes upstream as it came, but for the mark.
pub proof fn law_other_headers_go_upstream(name: Seq<char>, values: Seq<Option<Seq<char>>>)
    requires
        !is_conditional(text::lower(name)),
        text::lower(name) != "x-hook-bypass"@,
    ensures
        sent_values(name, values) == values,
{
}

/// The headers that go upstream with a request of the page: conditional headers
/// are left out, and the mark of the program is added. There is no answer only
/// where the header map could not grow.
pub fn upstream_headers(request_headers: &HeaderMap) -> (r: Option<HeaderMap>)
    ensures
        headers::header_entries(*request_headers).len() <= headers::ALWAYS_ROOM ==> r is Some,
        r matches Some(sent) ==> forall|n: Seq<char>|
            #[trigger] headers::held_values(sent, n) == sent_values(
                n,
                headers::held_values(*request_headers, n),
            ),
{
    let mut clean = headers::copy_map(request_headers);
    headers::remove_all(&mut clean, "if-match");
    headers::remove_all(&mut clean, "if-none-match");
    headers::remove_all(&mut clean, "if-modified-since");
    headers::remove_all(&mut clean, "if-unmodified-since");
    headers::remove_all(&mut clean, "if-range");
    proof {
        reveal_strlit("if-match");
        reveal_strlit("if-none-match");
        reveal_strlit("if-modified-since");
        reveal_strlit("if-unmodified-since");
        reveal_strlit("if-range");
        reveal_strlit("x-hook-bypass");
        reveal_strlit("1");
        assert(text::lower("if-match"@) =~= "if-match"@);
        assert(text::lower("if-none-match"@) =~= "if-none-match"@);
        assert(text::lower("if-modified-since"@) =~= "if-modified-since"@);
        assert(text::lower("if-unmodified-since"@) =~= "if-unmodified-since"@);
        assert(text::lower("if-range"@) =~= "if-range"@);
        assert(text::lower("x-hook-bypass"@) =~= "x-hook-bypass"@);
    }
    let ghost stripped = clean;
    proof {
        assert forall|n: Seq<char>| #[trigger]
            headers::held_values(stripped, n) == if is_conditional(text::lower(n)) {
                Seq::empty()
            } else {
                headers::held_values(*request_headers, n)
            } by {}
    }
    if headers::try_append(&mut clean, "x-hook-bypass", "1") {
        proof {
            assert("x-hook-bypass"@[0] == 'x' && "if-none-match"@[0] == 'i');
            assert(!is_conditional("x-hook-bypass"@));
            assert(headers::stored_value("1"@) == Some("1"@));
        }
        Some(clean)
    } else {
        None
    }
}

/// Of what the page sends, only five headers stay behind, all of them conditions on
/// the response; every other header goes upstream with its values, and the mark of
/// the program has one more.
pub proof fn law_which_headers_go_upstream(name: Seq<char>, values: Seq<Option<Seq<char>>>)
    ensures
        ({
            let low = text::lower(name);
            let condition = low == "if-match"@ || low == "if-none-match"@ || low == "if-modified-since"@ || low
                == "if-unmodified-since"@ || low == "if-range"@;
            &&& condition ==> sent_values(name, values).len() == 0
            &&& !condition && low != "x-hook-bypass"@ ==> sent_values(name, values) == values
            &&& low == "x-hook-bypass"@ ==> sent_values(name, values) == values + seq![Some("1"@)]
        }),
{
    reveal_strlit("x-hook-bypass");
    reveal_strlit("if-match");
    reveal_strlit("if-none-match");
    reveal_strlit("if-modified-since");
    reveal_strlit("if-unmodified-since");
    reveal_strlit("if-range");
    assert("x-hook-bypass"@[0] == 'x' && "if-match"@[0] == 'i' && "if-none-match"@[0] == 'i'
        && "if-modified-since"@[0] == 'i' && "if-unmodified-since"@[0] == 'i' && "if-range"@[0] == 'i');
    assert(values.push(Some("1"@)) =~= values + seq![Some("1"@)]);
}

} // verus!
