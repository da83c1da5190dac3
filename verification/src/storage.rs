//! What is kept from one session to the next, in one table of keys and JSON
//! values.
use vstd::prelude::*;
use crate::json;
use crate::text;
use crate::util;

verus! {

/// The file of the table.
pub const STORAGE_FILENAME: &'static str = "storage.db";

/// The key of the window geometry.
pub const KEY_WINDOW_STATE: &'static str = "window_state";

/// The key of the list of recent URLs.
pub const KEY_RECENT_URLS: &'static str = "recent_urls";

/// How many recent URLs are kept.
pub const MAX_RECENT: usize = 20;

/// The geometry and the mode of a window: its position in pixels of the screen,
/// its size in logical pixels. The position and size are also kept for a window
/// that fills the screen, for when it no longer does.
#[derive(Debug, Clone, Copy, PartialEq, Eq, Structural)]
pub struct WindowState {
    pub x: i32,
    pub y: i32,
    pub width: u32,
    pub height: u32,
    pub maximized: bool,
    pub fullscreen: bool,
}

impl Default for WindowState {
    fn default() -> (r: Self)
        ensures
            r == (WindowState { x: 0, y: 0, width: 0, height: 0, maximized: false, fullscreen: false }),
    {
        WindowState { x: 0, y: 0, width: 0, height: 0, maximized: false, fullscreen: false }
    }
}

/// The file of the table: where the setting says, or in the data directory, or,
/// without one, in the working directory.
pub fn storage_path(setting: Option<&str>, roots: &util::DataRoots) -> (r: String)
    ensures
        r@ == match setting {
            Some(path) => path@,
            None => match roots.data_root() {
                Some(root) => util::joined(root, "storage.db"@),
                None => "storage.db"@,
            },
        },
{
    if let Some(path) = setting {
        return path.to_owned();
    }
    match util::data_root(roots) {
        Some(root) => util::join_path(root.as_str(), STORAGE_FILENAME),
        None => STORAGE_FILENAME.to_owned(),
    }
}

/// The recent URLs that a stored value holds, the latest first; a value that
/// holds no list, and no value at all, stand for an empty list.
pub open spec fn recent_urls(stored: Option<Seq<char>>) -> Seq<Seq<char>> {
    match stored {
        Some(raw) => match json::json_list_parsed(raw) {
            Some(list) => list,
            None => Seq::empty(),
        },
        None => Seq::empty(),
    }
}

/// `urls` without `url`.
pub open spec fn without(urls: Seq<Seq<char>>, url: Seq<char>) -> Seq<Seq<char>>
    decreases urls.len(),
{
    if urls.len() == 0 {
        Seq::empty()
    } else if urls.last() == url {
        without(urls.drop_last(), url)
    } else {
        without(urls.drop_last(), url).push(urls.last())
    }
}

/// The first `n` of a list.
pub open spec fn at_most(urls: Seq<Seq<char>>, n: nat) -> Seq<Seq<char>> {
    if urls.len() <= n {
        urls
    } else {
        urls.take(n as int)
    }
}

/// The recent URLs once `url`, which is not blank, has been used: it is the
/// latest, it is there once, and the oldest give way.
pub open spec fn remembered(urls: Seq<Seq<char>>, url: Seq<char>) -> Seq<Seq<char>> {
    at_most(seq![text::trim(url)] + without(urls, text::trim(url)), MAX_RECENT as nat)
}

/// The recent URLs that a stored value holds, the latest first.
pub fn load_recent_urls(stored: Option<&str>) -> (r: Vec<String>)
    ensures
        text::texts(r@) == recent_urls(text::opt_str(stored)),
{
    match stored {
        Some(raw) => match json::decode_list(raw) {
            Some(list) => list,
            None => {
                let out: Vec<String> = Vec::new();
                proof {
                    assert(text::texts(out@) =~= Seq::empty());
                }
                out
            },
        },
        None => {
            let out: Vec<String> = Vec::new();
            proof {
                assert(text::texts(out@) =~= Seq::empty());
            }
            out
        },
    }
}

/// The list with `url` as its latest entry.
pub fn remember(urls: &Vec<String>, url: &str) -> (r: Vec<String>)
    ensures
        text::texts(r@) == remembered(text::texts(urls@), url@),
{
    let entry = text::trimmed(url);
    let ghost all = text::texts(urls@);
    let ghost first = text::trim(url@);
    let mut out: Vec<String> = Vec::new();
    out.push(entry.clone());
    let mut i: usize = 0;
    proof {
        assert(text::texts(out@) =~= seq![first] + without(all.take(0), first));
    }
    while i < urls.len()
        invariant
            i <= urls.len(),
            all == text::texts(urls@),
            entry@ == first,
            text::texts(out@) == seq![first] + without(all.take(i as int), first),
        decreases urls.len() - i,
    {
        let ghost before = out@;
        proof {
            assert(all.take(i + 1).drop_last() =~= all.take(i as int));
            assert(all.take(i + 1).last() == urls@[i as int]@);
        }
        if !text::same(urls[i].as_str(), entry.as_str()) {
            out.push(urls[i].clone());
            proof {
                assert(text::texts(out@) =~= text::texts(before).push(urls@[i as int]@));
                assert(text::texts(out@) =~= seq![first] + without(all.take(i + 1), first));
            }
        }
        i += 1;
    }
    proof {
        assert(all.take(i as int) =~= all);
    }
    let ghost full = out@;
    if out.len() > MAX_RECENT {
        out.truncate(MAX_RECENT);
        proof {
            assert(text::texts(out@) =~= text::texts(full).take(MAX_RECENT as int));
        }
    }
    out
}

/// The value to store once `url` has been used, where there is one: a blank text
/// is not remembered. The value reads back as the new list.
pub fn add_recent_url(stored: Option<&str>, url: &str) -> (r: Option<String>)
    ensures
        r is Some <==> text::trim(url@).len() > 0,
        r matches Some(value) ==> {
            let list = remembered(recent_urls(text::opt_str(stored)), url@);
            &&& value@ == json::json_list(list)
            &&& recent_urls(Some(value@)) == list
        },
{
    let entry = text::trimmed(url);
    if entry.as_str().is_empty() {
        return None;
    }
    let urls = load_recent_urls(stored);
    let list = remember(&urls, url);
    Some(json::encode_list(&list))
}

// ---------------------------------------------------------------------------
// What holds of the list.

proof fn lemma_without(urls: Seq<Seq<char>>, url: Seq<char>)
    ensures
        !without(urls, url).contains(url),
        forall|x: Seq<char>| #[trigger] without(urls, url).contains(x) ==> urls.contains(x),
        urls.no_duplicates() ==> without(urls, url).no_duplicates(),
        !urls.contains(url) ==> without(urls, url) == urls,
        without(urls, url).len() <= urls.len(),
    decreases urls.len(),
{
    if urls.len() > 0 {
        let rest = urls.drop_last();
        let kept = without(rest, url);
        lemma_without(rest, url);
        assert forall|x: Seq<char>| rest.contains(x) implies urls.contains(x) by {
            let i = choose|i: int| 0 <= i < rest.len() && rest[i] == x;
            assert(urls[i] == x);
        }
        assert(urls.contains(urls.last())) by {
            assert(urls[urls.len() - 1] == urls.last());
        }
        if urls.last() != url {
            let w = without(urls, url);
            assert(w =~= kept.push(urls.last()));
            assert forall|x: Seq<char>| w.contains(x) implies kept.contains(x) || x == urls.last() by {
                let i = choose|i: int| 0 <= i < w.len() && w[i] == x;
                if i < kept.len() {
                    assert(kept[i] == x);
                }
            }
            if urls.no_duplicates() {
                assert(rest.no_duplicates()) by {
                    assert forall|i: int, j: int| 0 <= i < rest.len() && 0 <= j < rest.len() && i != j implies rest[i]
                        != rest[j] by {
                        assert(urls[i] != urls[j]);
                    }
                }
                assert(!rest.contains(urls.last())) by {
                    if rest.contains(urls.last()) {
                        let i = choose|i: int| 0 <= i < rest.len() && rest[i] == urls.last();
                        assert(urls[i] == urls[urls.len() - 1]);
                    }
                }
                assert(w.no_duplicates()) by {
                    assert forall|i: int, j: int| 0 <= i < w.len() && 0 <= j < w.len() && i != j implies w[i]
                        != w[j] by {
                        if i == kept.len() {
                            assert(kept.contains(w[j]));
                        } else if j == kept.len() {
                            assert(kept.contains(w[i]));
                        }
                    }
                }
            }
            if !urls.contains(url) {
                assert(!rest.contains(url));
                assert(w =~= urls);
            }
        } else if urls.no_duplicates() {
            assert(rest.no_duplicates()) by {
                assert forall|i: int, j: int| 0 <= i < rest.len() && 0 <= j < rest.len() && i != j implies rest[i]
                    != rest[j] by {
                    assert(urls[i] != urls[j]);
                }
            }
        }
    }
}

/// The URL used last stands first, there are never more than [`MAX_RECENT`], and
/// no URL that was there once is there twice.
pub proof fn law_recent_urls_are_latest_first_and_bounded(urls: Seq<Seq<char>>, url: Seq<char>)
    ensures
        remembered(urls, url).len() > 0,
        remembered(urls, url)[0] == text::trim(url),
        remembered(urls, url).len() <= MAX_RECENT,
        urls.no_duplicates() ==> remembered(urls, url).no_duplicates(),
{
    let first = text::trim(url);
    let kept = without(urls, first);
    lemma_without(urls, first);
    let full = seq![first] + kept;
    if urls.no_duplicates() {
        assert forall|i: int, j: int| 0 <= i < full.len() && 0 <= j < full.len() && i != j implies full[i]
            != full[j] by {
            if i == 0 {
                assert(kept.contains(full[j])) by {
                    assert(kept[j - 1] == full[j]);
                }
            } else if j == 0 {
                assert(kept.contains(full[i])) by {
                    assert(kept[i - 1] == full[i]);
                }
            }
        }
    }
}

/// Using the URL that was used last changes nothing.
pub proof fn law_using_the_latest_again_changes_nothing(urls: Seq<Seq<char>>, url: Seq<char>)
    ensures
        remembered(remembered(urls, url), url) == remembered(urls, url),
{
    let first = text::trim(url);
    let kept = without(urls, first);
    let list = remembered(urls, url);
    lemma_without(urls, first);
    let tail = list.skip(1);
    assert(!tail.contains(first)) by {
        if tail.contains(first) {
            let i = choose|i: int| 0 <= i < tail.len() && tail[i] == first;
            assert(kept[i] == first);
            assert(kept.contains(first));
        }
    }
    assert(list =~= seq![first] + tail);
    lemma_without_first(tail, first);
    assert(seq![first] + without(list, first) =~= list);
}

/// Taking out what stands first leaves the rest, where it stands there once.
proof fn lemma_without_first(tail: Seq<Seq<char>>, first: Seq<char>)
    requires
        !tail.contains(first),
    ensures
        without(seq![first] + tail, first) == tail,
    decreases tail.len(),
{
    let list = seq![first] + tail;
    if tail.len() == 0 {
        reveal_with_fuel(without, 2);
        assert(list.last() == first);
        assert(list.drop_last() =~= Seq::empty());
        assert(tail =~= Seq::empty());
    } else {
        let shorter = tail.drop_last();
        assert(list.drop_last() =~= seq![first] + shorter);
        assert(tail.last() != first) by {
            assert(tail[tail.len() - 1] == tail.last());
        }
        assert(!shorter.contains(first)) by {
            if shorter.contains(first) {
                let i = choose|i: int| 0 <= i < shorter.len() && shorter[i] == first;
                assert(tail[i] == first);
            }
        }
        lemma_without_first(shorter, first);
        assert(tail =~= shorter.push(tail.last()));
    }
}

/// White space around a URL does not matter.
pub proof fn law_space_around_a_url_does_not_matter(urls: Seq<Seq<char>>, url: Seq<char>)
    ensures
        remembered(urls, text::trim(url)) == remembered(urls, url),
{
    text::lemma_trim_idempotent(url);
}

/// The other URLs stay, in their order, as far as the twenty places reach.
pub proof fn law_other_urls_stay_in_order(urls: Seq<Seq<char>>, url: Seq<char>)
    ensures
        ({
            let first = text::trim(url);
            let all = seq![first] + urls.filter(|u: Seq<char>| u != first);
            &&& all.len() <= 20 ==> remembered(urls, url) == all
            &&& all.len() > 20 ==> remembered(urls, url) == all.take(20)
        }),
{
    lemma_without_is_filter(urls, text::trim(url));
}

proof fn lemma_without_is_filter(urls: Seq<Seq<char>>, url: Seq<char>)
    ensures
        without(urls, url) == urls.filter(|u: Seq<char>| u != url),
    decreases urls.len(),
{
    reveal(Seq::filter);
    if urls.len() > 0 {
        lemma_without_is_filter(urls.drop_last(), url);
    }
}

/// A stored value that holds a list stands for that list, and any other for an
/// empty one.
pub proof fn law_stored_list_is_read(raw: Seq<char>, list: Seq<Seq<char>>)
    ensures
        json::json_list_parsed(raw) == Some(list) ==> recent_urls(Some(raw)) == list,
        json::json_list_parsed(raw) is None ==> recent_urls(Some(raw)).len() == 0,
        recent_urls(None).len() == 0,
{
}

} // verus!
