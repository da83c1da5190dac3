//! The windows that are opened beside the main window, and the question for a
//! URL.
use vstd::prelude::*;
use crate::config::{WindowDimensions, WindowDimensionsMode};
use crate::text;
use crate::urls;

verus! {

/// The label of the main window.
pub const MAIN_LABEL: &'static str = "main";

/// The number of the first window beside the main window.
pub const FIRST_LABEL: usize = 2;

/// The answer of an alert whose first button was pressed.
pub const FIRST_BUTTON: isize = 1000;

/// The label of the window with the number `n`.
pub open spec fn window_label(n: nat) -> Seq<char> {
    "window-"@ + text::decimal(n)
}

/// Give out the label of the next window.
pub fn next_window_label(counter: &mut usize) -> (r: String)
    ensures
        r@ == window_label(*old(counter) as nat),
        *final(counter) == if *old(counter) == usize::MAX {
            0
        } else {
            (*old(counter) + 1) as usize
        },
{
    let n: usize = *counter;
    *counter = n.wrapping_add(1);
    let mut out: String = "window-".to_owned();
    let digits = text::number(n);
    out.append(digits.as_str());
    out
}

/// No two windows have the same label, and none has that of the main window.
pub proof fn law_window_labels_differ(n: nat, m: nat)
    requires
        n != m,
    ensures
        window_label(n) != window_label(m),
        window_label(n) != "main"@,
{
    reveal_strlit("window-");
    reveal_strlit("main");
    if window_label(n) == window_label(m) {
        assert(text::decimal(n) =~= window_label(n).skip(7));
        assert(text::decimal(m) =~= window_label(m).skip(7));
        text::lemma_decimal_value(n);
        text::lemma_decimal_value(m);
    }
    assert(window_label(n)[0] == 'w' && "main"@[0] == 'm');
}

/// Note the window dimensions for the windows opened later. The first note stays.
pub fn cache_window_dimensions(cached: &mut Option<WindowDimensions>, window_dimensions: WindowDimensions)
    ensures
        *final(cached) == if *old(cached) is Some {
            *old(cached)
        } else {
            Some(window_dimensions)
        },
{
    if cached.is_none() {
        *cached = Some(window_dimensions);
    }
}

/// The noted window dimensions, or the default.
pub fn current_window_dimensions(cached: &Option<WindowDimensions>) -> (r: WindowDimensions)
    ensures
        r == match *cached {
            Some(w) => w,
            None => WindowDimensions::Mode(WindowDimensionsMode::Inherit),
        },
{
    match cached {
        Some(w) => *w,
        None => WindowDimensions::Mode(WindowDimensionsMode::Inherit),
    }
}

/// A question for a URL.
pub struct UrlPrompt {
    pub title: &'static str,
    pub info: &'static str,
}

/// The question at the start, where the configuration names no URL.
pub fn prompt_initial_url() -> (r: UrlPrompt)
    ensures
        r.title@ == "Welcome to Pouch"@,
        r.info@ == "Enter a URL to open:"@,
{
    UrlPrompt { title: "Welcome to Pouch", info: "Enter a URL to open:" }
}

/// The question for the URL of a new window.
pub fn prompt_url_for_new_window() -> (r: UrlPrompt)
    ensures
        r.title@ == "New Window"@,
        r.info@ == "Enter a URL (http or https):"@,
{
    UrlPrompt { title: "New Window", info: "Enter a URL (http or https):" }
}

/// What was entered, given the answer of the alert: what stands in the field
/// where the first button was pressed, and nothing otherwise.
pub fn prompt_url_via_alert(response: Option<isize>, field: &str) -> (r: Option<String>)
    ensures
        text::opt(r) == if response == Some(1000isize) {
            Some(field@)
        } else {
            None
        },
{
    match response {
        Some(code) => if code == FIRST_BUTTON {
            Some(field.to_owned())
        } else {
            None
        },
        None => None,
    }
}

/// What to do about what was entered for a new window.
pub enum NewWindow {
    /// Nothing was entered.
    Nothing,
    /// It is no URL.
    NotAUrl(url::ParseError),
    /// It is a URL that is not opened.
    NotWeb,
    /// Open it. Once it is open, it is remembered as it was entered.
    Open { entry: String },
}

/// Whether a text is a URL that is opened in a window.
pub open spec fn opens(entry: Seq<char>) -> bool {
    urls::parsed(entry) matches Some(p) && urls::is_web_scheme(p.scheme)
}

/// Decide what to do about what was entered for a new window: space around it
/// does not count, and only a web URL is opened.
pub fn show_new_window_dialog(entered: Option<&str>) -> (r: NewWindow)
    ensures
        match r {
            NewWindow::Nothing => entered is None || text::trim(entered->0@).len() == 0,
            NewWindow::NotAUrl(e) => entered is Some && text::trim(entered->0@).len() > 0
                && urls::url_parse(text::trim(entered->0@)) == Err::<
                (Seq<char>, Option<Seq<char>>, Seq<char>, Option<Seq<char>>),
                _,
            >(e),
            NewWindow::NotWeb => entered is Some && text::trim(entered->0@).len() > 0 && (urls::parsed(
                text::trim(entered->0@),
            ) matches Some(p) && !urls::is_web_scheme(p.scheme)),
            NewWindow::Open { entry } => entered is Some && entry@ == text::trim(entered->0@)
                && entry@.len() > 0 && opens(entry@),
        },
{
    let raw = match entered {
        Some(s) => s,
        None => {
            return NewWindow::Nothing;
        },
    };
    let entry = text::trimmed(raw);
    if entry.as_str().is_empty() {
        return NewWindow::Nothing;
    }
    match urls::parse_url(entry.as_str()) {
        Err(e) => NewWindow::NotAUrl(e),
        Ok(parts) => if urls::web_scheme(parts.scheme.as_str()) {
            NewWindow::Open { entry }
        } else {
            NewWindow::NotWeb
        },
    }
}

/// A URL opens in a window where its scheme is `http` or `https`; no other does.
pub proof fn law_which_urls_open(entry: Seq<char>)
    ensures
        opens(entry) <==> (urls::url_parse(entry) is Ok && (urls::url_parse(entry)->Ok_0.0 == "http"@
            || urls::url_parse(entry)->Ok_0.0 == "https"@)),
{
}

} // verus!
