//! What the configuration file says.
//!
//! The file is looked for in the data directory and then in the working
//! directory. The first that can be read and understood counts.
use vstd::prelude::*;
use crate::hook::ignore_filter;
use crate::hook::ignore_filter::{IgnoreEntry, IgnoreMatcher};
use crate::text;
use crate::util;
use crate::util::UserDataKind;

verus! {

/// The file that an older version read.
pub const LEGACY_CONFIG_FILENAME: &'static str = "hook.config.json";

/// How a new window is to be shown.
#[derive(Debug, Clone, Copy, PartialEq, Eq, Structural)]
pub enum WindowDimensionsMode {
    /// A window of the default size.
    Default,
    /// As the last window was left.
    Inherit,
    /// Filling the work area.
    Maximized,
    /// Filling the screen.
    Fullscreen,
}

/// The dimensions of a new window: a mode, or a size in logical pixels.
#[derive(Debug, Clone, Copy, PartialEq, Eq, Structural)]
pub enum WindowDimensions {
    Mode(WindowDimensionsMode),
    Size { width: u32, height: u32 },
}

impl Default for WindowDimensions {
    fn default() -> (r: Self)
        ensures
            r == WindowDimensions::Mode(WindowDimensionsMode::Inherit),
    {
        WindowDimensions::Mode(WindowDimensionsMode::Inherit)
    }
}

impl WindowDimensionsMode {
    /// The word for the mode.
    pub open spec fn word(self) -> Seq<char> {
        match self {
            WindowDimensionsMode::Default => "default"@,
            WindowDimensionsMode::Inherit => "inherit"@,
            WindowDimensionsMode::Maximized => "maximized"@,
            WindowDimensionsMode::Fullscreen => "fullscreen"@,
        }
    }

    /// The mode that a word names; the word counts letter for letter.
    pub fn from_word(word: &str) -> (r: Option<WindowDimensionsMode>)
        ensures
            r matches Some(mode) ==> word@ == mode.word(),
            r is None ==> forall|mode: WindowDimensionsMode| #[trigger] mode.word() != word@,
    {
        if text::same(word, "default") {
            Some(WindowDimensionsMode::Default)
        } else if text::same(word, "inherit") {
            Some(WindowDimensionsMode::Inherit)
        } else if text::same(word, "maximized") {
            Some(WindowDimensionsMode::Maximized)
        } else if text::same(word, "fullscreen") {
            Some(WindowDimensionsMode::Fullscreen)
        } else {
            None
        }
    }
}

/// What the file says about updates.
#[derive(Debug, Clone, Copy, PartialEq, Eq, Structural)]
pub struct UpdaterConfig {
    /// Whether updates are looked for after the start, unasked.
    pub auto_check: bool,
}

/// Updates are looked for unless the file says otherwise.
pub fn default_auto_check() -> (r: bool)
    ensures
        r,
{
    true
}

impl Default for UpdaterConfig {
    fn default() -> (r: Self)
        ensures
            r.auto_check,
    {
        UpdaterConfig { auto_check: default_auto_check() }
    }
}

/// The configuration file, as it is written.
#[derive(Debug)]
pub struct ConfigFile {
    pub startup_urls: Option<Vec<String>>,
    pub window_dimensions: Option<WindowDimensions>,
    pub ignore_urls: Option<Vec<IgnoreEntry>>,
    pub updater: Option<UpdaterConfig>,
}

/// The configuration that the windows are opened by.
#[derive(Debug)]
pub struct Config {
    /// The web addresses to open at the start, the first in the main window.
    pub startup_urls: Vec<String>,
    pub window_dimensions: WindowDimensions,
}

/// What the configuration sets for the whole process.
pub struct Settings {
    /// The rules of the ignore list.
    pub matchers: Vec<IgnoreMatcher>,
    /// Whether updates are looked for after the start, unasked.
    pub updater_auto_check: bool,
}

impl Settings {
    /// The settings before any file is read: no rules, and updates are looked
    /// for.
    pub fn new() -> (r: Self)
        ensures
            r.matchers@.len() == 0,
            r.updater_auto_check,
    {
        Settings { matchers: Vec::new(), updater_auto_check: true }
    }
}

/// What came of reading a configuration file.
pub enum Candidate {
    Parsed(ConfigFile),
    /// The file is there and cannot be understood.
    Malformed,
    Missing,
    /// The file could not be read.
    Unreadable,
}

/// Whether a text begins like a web address.
pub open spec fn is_web_address(s: Seq<char>) -> bool {
    text::starts_with(s, "http://"@) || text::starts_with(s, "https://"@)
}

/// Whether a text begins like a web address.
pub fn looks_like_url(s: &str) -> (r: bool)
    ensures
        r == is_web_address(s@),
{
    text::begins(s, "http://") || text::begins(s, "https://")
}

/// The web addresses in a list, in order.
pub open spec fn web_addresses(urls: Seq<Seq<char>>) -> Seq<Seq<char>>
    decreases urls.len(),
{
    if urls.len() == 0 {
        Seq::empty()
    } else if is_web_address(urls.last()) {
        web_addresses(urls.drop_last()).push(urls.last())
    } else {
        web_addresses(urls.drop_last())
    }
}

/// The startup addresses that a file gives.
pub open spec fn startup_of(file: ConfigFile) -> Seq<Seq<char>> {
    match file.startup_urls {
        Some(urls) => web_addresses(text::texts(urls@)),
        None => Seq::empty(),
    }
}

/// The window dimensions that a file gives.
pub open spec fn dimensions_of(file: ConfigFile) -> WindowDimensions {
    match file.window_dimensions {
        Some(w) => w,
        None => WindowDimensions::Mode(WindowDimensionsMode::Inherit),
    }
}

/// The entries of the ignore list that a file gives.
pub open spec fn ignore_of(file: ConfigFile) -> Seq<IgnoreEntry> {
    match file.ignore_urls {
        Some(entries) => entries@,
        None => Seq::empty(),
    }
}

/// Whether a file asks to look for updates.
pub open spec fn auto_check_of(file: ConfigFile) -> bool {
    match file.updater {
        Some(u) => u.auto_check,
        None => true,
    }
}

/// The position of the first file that could be understood; the number of files
/// where there is none.
pub open spec fn first_parsed(candidates: Seq<Candidate>) -> int
    decreases candidates.len(),
{
    if candidates.len() == 0 || candidates[0] is Parsed {
        0
    } else {
        1 + first_parsed(candidates.skip(1))
    }
}

proof fn lemma_first_parsed(candidates: Seq<Candidate>, i: int)
    requires
        0 <= i <= candidates.len(),
        forall|j: int| 0 <= j < i ==> !((#[trigger] candidates[j]) is Parsed),
        i < candidates.len() ==> candidates[i] is Parsed,
    ensures
        first_parsed(candidates) == i,
    decreases candidates.len(),
{
    if candidates.len() > 0 && i > 0 {
        assert(!(candidates[0] is Parsed));
        let rest = candidates.skip(1);
        assert forall|j: int| 0 <= j < i - 1 implies !((#[trigger] rest[j]) is Parsed) by {
            assert(rest[j] == candidates[j + 1]);
        }
        lemma_first_parsed(rest, i - 1);
    }
}

/// The web addresses in a list.
fn keep_web_addresses(urls: &Vec<String>) -> (r: Vec<String>)
    ensures
        text::texts(r@) == web_addresses(text::texts(urls@)),
{
    let mut out: Vec<String> = Vec::new();
    let ghost all = text::texts(urls@);
    let mut i: usize = 0;
    proof {
        assert(text::texts(out@) =~= web_addresses(all.take(0)));
    }
    while i < urls.len()
        invariant
            i <= urls.len(),
            all == text::texts(urls@),
            text::texts(out@) == web_addresses(all.take(i as int)),
        decreases urls.len() - i,
    {
        let ghost before = out@;
        proof {
            assert(all.take(i + 1).drop_last() =~= all.take(i as int));
            assert(all.take(i + 1).last() == urls@[i as int]@);
        }
        if looks_like_url(urls[i].as_str()) {
            out.push(urls[i].clone());
            proof {
                assert(text::texts(out@) =~= text::texts(before).push(urls@[i as int]@));
            }
        }
        i += 1;
    }
    proof {
        assert(all.take(i as int) =~= all);
    }
    out
}

/// Take over what a file says.
pub fn adopt(settings: &mut Settings, file: &ConfigFile) -> (r: Config)
    ensures
        text::texts(r.startup_urls@) == startup_of(*file),
        r.window_dimensions == dimensions_of(*file),
        ignore_filter::are_rules_for(final(settings).matchers@, ignore_of(*file)),
        final(settings).updater_auto_check == auto_check_of(*file),
{
    match &file.ignore_urls {
        Some(entries) => {
            ignore_filter::set_matchers(&mut settings.matchers, entries.as_slice());
        },
        None => {
            let none: Vec<IgnoreEntry> = Vec::new();
            ignore_filter::set_matchers(&mut settings.matchers, none.as_slice());
            proof {
                assert(none@ =~= Seq::empty());
            }
        },
    }
    settings.updater_auto_check = match file.updater {
        Some(u) => u.auto_check,
        None => default_auto_check(),
    };
    let window_dimensions = match file.window_dimensions {
        Some(w) => w,
        None => WindowDimensions::Mode(WindowDimensionsMode::Inherit),
    };
    let startup_urls: Vec<String> = match &file.startup_urls {
        Some(urls) => keep_web_addresses(urls),
        None => {
            let none: Vec<String> = Vec::new();
            proof {
                assert(text::texts(none@) =~= Seq::empty());
            }
            none
        },
    };
    Config { startup_urls, window_dimensions }
}

/// Load the configuration, given what came of reading the candidates in order.
///
/// The first file that could be understood is taken over: its rules replace the
/// rules in force, also where it has none. Where there is no such file, the
/// settings stay as they are and the configuration is the default.
pub fn load(settings: &mut Settings, candidates: &Vec<Candidate>) -> (r: Config)
    ensures
        ({
            let i = first_parsed(candidates@);
            if i < candidates@.len() {
                let file = candidates@[i]->Parsed_0;
                &&& text::texts(r.startup_urls@) == startup_of(file)
                &&& r.window_dimensions == dimensions_of(file)
                &&& ignore_filter::are_rules_for(final(settings).matchers@, ignore_of(file))
                &&& final(settings).updater_auto_check == auto_check_of(file)
            } else {
                &&& *final(settings) == *old(settings)
                &&& r.startup_urls@.len() == 0
                &&& r.window_dimensions == WindowDimensions::Mode(WindowDimensionsMode::Inherit)
            }
        }),
{
    let mut i: usize = 0;
    while i < candidates.len()
        invariant
            i <= candidates.len(),
            *settings == *old(settings),
            forall|j: int| 0 <= j < i ==> !((#[trigger] candidates@[j]) is Parsed),
        decreases candidates.len() - i,
    {
        if let Candidate::Parsed(file) = &candidates[i] {
            proof {
                lemma_first_parsed(candidates@, i as int);
            }
            return adopt(settings, file);
        }
        i += 1;
    }
    proof {
        lemma_first_parsed(candidates@, i as int);
    }
    Config {
        startup_urls: Vec::new(),
        window_dimensions: WindowDimensions::Mode(WindowDimensionsMode::Inherit),
    }
}

/// Whether updates are looked for after the start, unasked.
pub fn is_updater_auto_check_enabled(settings: &Settings) -> (r: bool)
    ensures
        r == settings.updater_auto_check,
{
    settings.updater_auto_check
}

/// Where a file is looked for: in the data directory, where there is one, and
/// then in the working directory.
pub open spec fn lookup_paths(root: Option<Seq<char>>, name: Seq<char>) -> Seq<Seq<char>> {
    match root {
        Some(root) => seq![util::joined(root, name), name],
        None => seq![name],
    }
}

/// Where the configuration file is looked for, in order.
pub fn candidate_config_paths(roots: &util::DataRoots) -> (r: Vec<String>)
    ensures
        text::texts(r@) == lookup_paths(roots.data_root(), "hook.conf.toml"@),
{
    let mut out: Vec<String> = Vec::new();
    if let Some(path) = util::user_data_path(UserDataKind::Config, roots) {
        out.push(path);
    }
    out.push("hook.conf.toml".to_owned());
    proof {
        assert(text::texts(out@) =~= lookup_paths(roots.data_root(), "hook.conf.toml"@));
    }
    out
}

/// Where the file of an older version is looked for, in order. It is not read;
/// where it lies, the user is told so once.
pub fn legacy_config_paths(roots: &util::DataRoots) -> (r: Vec<String>)
    ensures
        text::texts(r@) == lookup_paths(roots.data_root(), "hook.config.json"@),
{
    let mut out: Vec<String> = Vec::new();
    if let Some(root) = util::data_root(roots) {
        out.push(util::join_path(root.as_str(), LEGACY_CONFIG_FILENAME));
    }
    out.push(LEGACY_CONFIG_FILENAME.to_owned());
    proof {
        assert(text::texts(out@) =~= lookup_paths(roots.data_root(), "hook.config.json"@));
    }
    out
}

/// The first of the paths that holds a file, given which do: the one that the
/// user is told of.
pub fn warn_if_legacy_json_present(present: &Vec<bool>) -> (r: Option<usize>)
    ensures
        match r {
            Some(i) => i < present@.len() && present@[i as int] && forall|j: int|
                0 <= j < i ==> !#[trigger] present@[j],
            None => forall|j: int| 0 <= j < present@.len() ==> !#[trigger] present@[j],
        },
{
    let mut i: usize = 0;
    while i < present.len()
        invariant
            i <= present.len(),
            forall|j: int| 0 <= j < i ==> !#[trigger] present@[j],
        decreases present.len() - i,
    {
        if present[i] {
            return Some(i);
        }
        i += 1;
    }
    None
}

/// Every startup address begins like a web address.
pub proof fn law_startup_urls_are_web_addresses(urls: Seq<Seq<char>>, i: int)
    requires
        0 <= i < web_addresses(urls).len(),
    ensures
        is_web_address(web_addresses(urls)[i]),
        urls.contains(web_addresses(urls)[i]),
    decreases urls.len(),
{
    if urls.len() > 0 {
        let rest = web_addresses(urls.drop_last());
        if i < rest.len() {
            law_startup_urls_are_web_addresses(urls.drop_last(), i);
            let k = choose|k: int| 0 <= k < urls.drop_last().len() && urls.drop_last()[k] == rest[i];
            assert(urls[k] == rest[i]);
        } else {
            assert(urls[urls.len() - 1] == web_addresses(urls)[i]);
        }
    }
}

/// Loading a file again gives the same rules, whatever was in force before: rules
/// for the same entries apply to the same URLs.
pub proof fn law_reload_replaces_rules(
    entries: Seq<IgnoreEntry>,
    a: Seq<IgnoreMatcher>,
    b: Seq<IgnoreMatcher>,
    url: Seq<char>,
)
    requires
        ignore_filter::are_rules_for(a, entries),
        ignore_filter::are_rules_for(b, entries),
    ensures
        ignore_filter::ignored(a, url) == ignore_filter::ignored(b, url),
{
    let host = ignore_filter::host_of(url);
    assert forall|i: int| 0 <= i < a.len() implies ignore_filter::applies(#[trigger] a[i], url, host)
        == ignore_filter::applies(b[i], url, host) by {
        let e = ignore_filter::usable_entries(entries)[i];
        assert(ignore_filter::is_rule_for(a[i], e));
        assert(ignore_filter::is_rule_for(b[i], e));
    }
    if ignore_filter::ignored(a, url) {
        let i = choose|i: int| 0 <= i < a.len() && #[trigger] ignore_filter::applies(a[i], url, host);
        assert(ignore_filter::applies(b[i], url, host));
    }
    if ignore_filter::ignored(b, url) {
        let i = choose|i: int| 0 <= i < b.len() && #[trigger] ignore_filter::applies(b[i], url, host);
        assert(ignore_filter::applies(a[i], url, host));
    }
}

/// Every text in the list that begins with `http://` or `https://` is opened, in
/// order, and no other.
pub proof fn law_every_web_address_counts(a: Seq<Seq<char>>, b: Seq<Seq<char>>, url: Seq<char>)
    ensures
        web_addresses(a + b) == web_addresses(a) + web_addresses(b),
        (exists|rest: Seq<char>| url == #[trigger] ("http://"@ + rest)) || (exists|rest: Seq<char>|
            url == #[trigger] ("https://"@ + rest)) ==> web_addresses(seq![url]) == seq![url],
        !(exists|rest: Seq<char>| url == #[trigger] ("http://"@ + rest)) && !(exists|rest: Seq<char>|
            url == #[trigger] ("https://"@ + rest)) ==> web_addresses(seq![url]).len() == 0,
    decreases b.len(),
{
    if b.len() == 0 {
        assert(a + b =~= a);
        assert(web_addresses(a) + web_addresses(b) =~= web_addresses(a));
    } else {
        law_every_web_address_counts(a, b.drop_last(), url);
        assert((a + b).drop_last() =~= a + b.drop_last());
        assert((a + b).last() == b.last());
        assert(web_addresses(a + b) =~= web_addresses(a) + web_addresses(b));
    }
    text::law_beginning_and_end(url, "http://"@);
    text::law_beginning_and_end(url, "https://"@);
    reveal_with_fuel(web_addresses, 2);
    assert(seq![url].drop_last() =~= Seq::empty());
    assert(seq![url].last() == url);
    assert(Seq::<Seq<char>>::empty().push(url) =~= seq![url]);
}

/// The first file that can be understood counts, whatever stands before it and
/// behind it.
pub proof fn law_first_file_counts(a: Seq<Candidate>, file: ConfigFile, b: Seq<Candidate>)
    requires
        forall|i: int| 0 <= i < a.len() ==> !((#[trigger] a[i]) is Parsed),
    ensures
        first_parsed(a.push(Candidate::Parsed(file)) + b) == a.len(),
        first_parsed(a) == a.len(),
{
    let all = a.push(Candidate::Parsed(file)) + b;
    assert forall|j: int| 0 <= j < a.len() implies !((#[trigger] all[j]) is Parsed) by {
        assert(all[j] == a[j]);
    }
    lemma_first_parsed(all, a.len() as int);
    lemma_first_parsed(a, a.len() as int);
}

/// What a file says counts as it says it; what it leaves out is no startup address,
/// no rule, the dimensions of the last window, and that updates are looked for.
pub proof fn law_what_a_file_leaves_out(file: ConfigFile)
    ensures
        file.startup_urls is None ==> startup_of(file).len() == 0,
        file.startup_urls is Some ==> startup_of(file) == web_addresses(text::texts(file.startup_urls->0@)),
        file.window_dimensions is None ==> dimensions_of(file) == WindowDimensions::Mode(WindowDimensionsMode::Inherit),
        file.window_dimensions is Some ==> Some(dimensions_of(file)) == file.window_dimensions,
        file.ignore_urls is None ==> ignore_of(file).len() == 0,
        file.ignore_urls is Some ==> ignore_of(file) == file.ignore_urls->0@,
        file.updater is None ==> auto_check_of(file),
        file.updater is Some ==> auto_check_of(file) == file.updater->0.auto_check,
{
}

/// Each mode has its word, and no two have the same.
pub proof fn law_words_of_the_modes(a: WindowDimensionsMode, b: WindowDimensionsMode)
    ensures
        WindowDimensionsMode::Default.word() == "default"@,
        WindowDimensionsMode::Inherit.word() == "inherit"@,
        WindowDimensionsMode::Maximized.word() == "maximized"@,
        WindowDimensionsMode::Fullscreen.word() == "fullscreen"@,
        a.word() == b.word() ==> a == b,
{
    reveal_strlit("default");
    reveal_strlit("inherit");
    reveal_strlit("maximized");
    reveal_strlit("fullscreen");
    assert("default"@[0] == 'd' && "inherit"@[0] == 'i' && "maximized"@[0] == 'm' && "fullscreen"@[0] == 'f');
}

/// A file is looked for in the working directory last, and before that in the data
/// directory, where there is one.
pub proof fn law_where_a_file_is_looked_for(root: Seq<char>, name: Seq<char>)
    ensures
        lookup_paths(Some(root), name).len() == 2,
        lookup_paths(Some(root), name)[0] == util::joined(root, name),
        lookup_paths(Some(root), name)[1] == name,
        lookup_paths(None, name) == seq![name],
{
}

} // verus!
