//! From the launch to the open windows, and what the menu does.
use vstd::prelude::*;
use crate::dialog;
use crate::text;
use crate::urls;

verus! {

// ---------------------------------------------------------------------------
// The order of the launch.

/// What is to be done next in a launch.
#[derive(Debug, Clone, Copy, PartialEq, Eq, Structural)]
pub enum Stage {
    /// Move the data of an older version.
    Migrate,
    /// Put the sample data in place.
    Bootstrap,
    /// Load the configuration.
    LoadConfig,
    /// Install what comes before any page.
    InstallGlobal,
    /// Start the proxy.
    StartProxy,
    /// Have the root certificate trusted.
    TrustCertificate,
    /// Read the scripts.
    ScanScripts,
    /// Open the windows.
    OpenWindows,
    /// Attach the interceptor to the pages.
    AttachHandler,
    /// Look for updates a little later.
    ScheduleUpdateCheck,
    /// The program runs.
    Running,
    /// The program ends with this code.
    Quit { code: i32 },
}

/// What follows a stage, given whether it succeeded. Only the proxy platform has
/// a proxy. A proxy that does not start is done without; a certificate that is not
/// trusted, and what comes before any page or the windows failing, end the launch.
pub open spec fn stage_after(stage: Stage, ok: bool, has_proxy: bool) -> Stage {
    match stage {
        Stage::Migrate => Stage::Bootstrap,
        Stage::Bootstrap => Stage::LoadConfig,
        Stage::LoadConfig => Stage::InstallGlobal,
        Stage::InstallGlobal => if !ok {
            Stage::Quit { code: 1 }
        } else if has_proxy {
            Stage::StartProxy
        } else {
            Stage::ScanScripts
        },
        Stage::StartProxy => if ok {
            Stage::TrustCertificate
        } else {
            Stage::ScanScripts
        },
        Stage::TrustCertificate => if ok {
            Stage::ScanScripts
        } else {
            Stage::Quit { code: 1 }
        },
        Stage::ScanScripts => Stage::OpenWindows,
        Stage::OpenWindows => if ok {
            Stage::AttachHandler
        } else {
            Stage::Quit { code: 1 }
        },
        Stage::AttachHandler => Stage::ScheduleUpdateCheck,
        Stage::ScheduleUpdateCheck => Stage::Running,
        Stage::Running => Stage::Running,
        Stage::Quit { code } => Stage::Quit { code },
    }
}

/// What follows a stage.
pub fn next_stage(stage: Stage, ok: bool, has_proxy: bool) -> (r: Stage)
    ensures
        r == stage_after(stage, ok, has_proxy),
{
    match stage {
        Stage::Migrate => Stage::Bootstrap,
        Stage::Bootstrap => Stage::LoadConfig,
        Stage::LoadConfig => Stage::InstallGlobal,
        Stage::InstallGlobal => if !ok {
            Stage::Quit { code: 1 }
        } else if has_proxy {
            Stage::StartProxy
        } else {
            Stage::ScanScripts
        },
        Stage::StartProxy => if ok {
            Stage::TrustCertificate
        } else {
            Stage::ScanScripts
        },
        Stage::TrustCertificate => if ok {
            Stage::ScanScripts
        } else {
            Stage::Quit { code: 1 }
        },
        Stage::ScanScripts => Stage::OpenWindows,
        Stage::OpenWindows => if ok {
            Stage::AttachHandler
        } else {
            Stage::Quit { code: 1 }
        },
        Stage::AttachHandler => Stage::ScheduleUpdateCheck,
        Stage::ScheduleUpdateCheck => Stage::Running,
        Stage::Running => Stage::Running,
        Stage::Quit { code } => Stage::Quit { code },
    }
}

/// Scripts are read, and windows opened after that, only with a trusted
/// certificate, without a proxy, or where the platform has none.
pub proof fn law_no_windows_without_trust(stage: Stage, ok: bool, has_proxy: bool)
    requires
        stage_after(stage, ok, has_proxy) == Stage::ScanScripts,
        stage != Stage::ScanScripts,
    ensures
        (stage == Stage::TrustCertificate && ok) || (stage == Stage::StartProxy && !ok) || (stage
            == Stage::InstallGlobal && !has_proxy),
{
}

// ---------------------------------------------------------------------------
// The windows of the launch.

/// A window to open.
pub struct PlannedWindow {
    pub label: String,
    pub url: String,
}

/// What to open at the launch.
pub struct StartupPlan {
    pub windows: Vec<PlannedWindow>,
    /// Whether the user is asked for the URL of the main window.
    pub ask: bool,
}

/// The labels and URLs of windows.
pub open spec fn window_views(windows: Seq<PlannedWindow>) -> Seq<(Seq<char>, Seq<char>)> {
    Seq::new(windows.len(), |i: int| (windows[i].label@, windows[i].url@))
}

/// How many of the URLs but the first are URLs.
pub open spec fn extra_count(urls: Seq<Seq<char>>) -> nat
    decreases urls.len(),
{
    if urls.len() <= 1 {
        0
    } else {
        extra_count(urls.drop_last()) + if urls::parsed(urls.last()) is Some {
            1nat
        } else {
            0nat
        }
    }
}

/// The windows for the URLs: the first opens in the main window, each further one
/// in a window of its own, numbered from `first` on. What is no URL is left out.
pub open spec fn startup_windows(urls: Seq<Seq<char>>, first: nat) -> Seq<(Seq<char>, Seq<char>)>
    decreases urls.len(),
{
    if urls.len() == 0 {
        Seq::empty()
    } else if urls::parsed(urls.last()) is None {
        startup_windows(urls.drop_last(), first)
    } else if urls.len() == 1 {
        seq![("main"@, urls.last())]
    } else {
        startup_windows(urls.drop_last(), first).push(
            (dialog::window_label(first + extra_count(urls.drop_last())), urls.last()),
        )
    }
}

/// Plan the windows of the launch. Where there is no URL for the main window, the
/// user is asked for one.
pub fn plan_startup(urls: &Vec<String>, counter: &mut usize) -> (r: StartupPlan)
    requires
        *old(counter) + urls@.len() <= usize::MAX,
    ensures
        window_views(r.windows@) == startup_windows(text::texts(urls@), *old(counter) as nat),
        *final(counter) == *old(counter) + extra_count(text::texts(urls@)),
        r.ask <==> urls@.len() == 0 || urls::parsed(urls@[0]@) is None,
{
    let mut windows: Vec<PlannedWindow> = Vec::new();
    let ghost all = text::texts(urls@);
    let ghost first = *counter as nat;
    let mut ask: bool = true;
    let mut i: usize = 0;
    proof {
        assert(window_views(windows@) =~= startup_windows(all.take(0), first));
    }
    while i < urls.len()
        invariant
            i <= urls.len(),
            all == text::texts(urls@),
            first == *old(counter),
            first + urls@.len() <= usize::MAX,
            extra_count(all.take(i as int)) <= i,
            *counter == first + extra_count(all.take(i as int)),
            window_views(windows@) == startup_windows(all.take(i as int), first),
            ask <==> i == 0 || urls::parsed(urls@[0]@) is None,
        decreases urls.len() - i,
    {
        let ghost before = windows@;
        let ghost seen = all.take(i as int);
        let ghost now = all.take(i + 1);
        proof {
            assert(now.drop_last() =~= seen);
            assert(now.last() == urls@[i as int]@);
        }
        if let Ok(_) = urls::parse_url(urls[i].as_str()) {
            let label: String = if i == 0 {
                ask = false;
                dialog::MAIN_LABEL.to_owned()
            } else {
                dialog::next_window_label(counter)
            };
            let ghost view = (label@, urls@[i as int]@);
            windows.push(PlannedWindow { label, url: urls[i].clone() });
            proof {
                assert(window_views(windows@) =~= window_views(before).push(view));
                if i == 0 {
                    assert(seen =~= Seq::empty());
                    assert(window_views(windows@) =~= startup_windows(now, first));
                }
            }
        }
        i += 1;
    }
    proof {
        assert(all.take(i as int) =~= all);
    }
    StartupPlan { windows, ask }
}

/// What was answered to the question for a URL.
pub enum Answer<'a> {
    /// There is no way to ask.
    Unavailable,
    /// The user gave none.
    Declined,
    Entered(&'a str),
}

/// What to do about the answer.
pub enum MainWindow {
    /// Wait, without a window, for the configuration to be filled in.
    Wait,
    /// End the program.
    Exit,
    /// The launch fails: what was entered is no URL.
    NotAUrl(url::ParseError),
    /// Open this in the main window.
    Open { url: String },
}

/// Decide what to do about the answer to the question for the first URL: only a
/// web URL is opened, and space around it does not count. Where there is no way to
/// ask, the program waits if the configuration lists no URL, and ends if it lists
/// some and the first is none.
pub fn main_window_for(answer: Answer, listed: bool) -> (r: MainWindow)
    ensures
        match answer {
            Answer::Unavailable => if listed {
                r is Exit
            } else {
                r is Wait
            },
            Answer::Declined => r is Exit,
            Answer::Entered(raw) => {
                let url = text::trim(raw@);
                match urls::parsed(url) {
                    None => r matches MainWindow::NotAUrl(e) && urls::url_parse(url) == Err::<
                        (Seq<char>, Option<Seq<char>>, Seq<char>, Option<Seq<char>>),
                        _,
                    >(e),
                    Some(p) => if urls::is_web_scheme(p.scheme) {
                        r matches MainWindow::Open { url: u } && u@ == url
                    } else {
                        r is Exit
                    },
                }
            },
        },
{
    match answer {
        Answer::Unavailable => if listed {
            MainWindow::Exit
        } else {
            MainWindow::Wait
        },
        Answer::Declined => MainWindow::Exit,
        Answer::Entered(raw) => {
            let url = text::trimmed(raw);
            match urls::parse_url(url.as_str()) {
                Err(e) => MainWindow::NotAUrl(e),
                Ok(parts) => if urls::web_scheme(parts.scheme.as_str()) {
                    MainWindow::Open { url }
                } else {
                    MainWindow::Exit
                },
            }
        },
    }
}

/// At most one window of the launch is the main window: only the first URL opens
/// in it.
pub proof fn law_only_the_first_url_is_main(urls: Seq<Seq<char>>, first: nat, i: int)
    requires
        0 < i < startup_windows(urls, first).len(),
    ensures
        startup_windows(urls, first)[i].0 != "main"@,
    decreases urls.len(),
{
    reveal_with_fuel(startup_windows, 2);
    if urls.len() > 1 {
        let rest = startup_windows(urls.drop_last(), first);
        if i < rest.len() {
            law_only_the_first_url_is_main(urls.drop_last(), first, i);
        } else {
            let n = first + extra_count(urls.drop_last());
            dialog::law_window_labels_differ(n, n + 1);
        }
    }
}

/// Every URL of the launch that is one is opened.
pub proof fn law_every_url_is_opened(urls: Seq<Seq<char>>, first: nat, i: int)
    requires
        0 <= i < urls.len(),
        urls::parsed(urls[i]) is Some,
    ensures
        exists|k: int|
            0 <= k < startup_windows(urls, first).len() && (#[trigger] startup_windows(urls, first)[k]).1
                == urls[i],
    decreases urls.len(),
{
    let all = startup_windows(urls, first);
    if i < urls.len() - 1 {
        let rest = startup_windows(urls.drop_last(), first);
        law_every_url_is_opened(urls.drop_last(), first, i);
        let k = choose|k: int| 0 <= k < rest.len() && (#[trigger] rest[k]).1 == urls.drop_last()[i];
        assert(all[k] == rest[k]);
    } else {
        assert(all[all.len() - 1].1 == urls[i]);
    }
}

// ---------------------------------------------------------------------------
// The menu, and the end.

pub const MENU_ID_OPEN_DEVTOOLS: &'static str = "pouch.open_devtools";

pub const MENU_ID_CHECK_FOR_UPDATES: &'static str = "pouch.check_for_updates";

pub const MENU_ID_NEW_WINDOW: &'static str = "pouch.new_window";

pub const MENU_ID_REVEAL_FOLDER: &'static str = "pouch.reveal_folder";

pub const MENU_ID_RELOAD: &'static str = "pouch.reload";

/// What an entry of the menu does.
#[derive(Debug, Clone, Copy, PartialEq, Eq, Structural)]
pub enum MenuAction {
    ToggleDevtools,
    CheckForUpdates,
    NewWindow,
    RevealFolder,
    Reload,
}

/// What the entry of the menu with the given id does. The last three are there
/// only on the platform with the full menu.
pub fn menu_action(id: &str, full_menu: bool) -> (r: Option<MenuAction>)
    ensures
        r == if id@ == "pouch.open_devtools"@ {
            Some(MenuAction::ToggleDevtools)
        } else if id@ == "pouch.check_for_updates"@ {
            Some(MenuAction::CheckForUpdates)
        } else if full_menu && id@ == "pouch.new_window"@ {
            Some(MenuAction::NewWindow)
        } else if full_menu && id@ == "pouch.reveal_folder"@ {
            Some(MenuAction::RevealFolder)
        } else if full_menu && id@ == "pouch.reload"@ {
            Some(MenuAction::Reload)
        } else {
            None
        },
{
    if text::same(id, MENU_ID_OPEN_DEVTOOLS) {
        Some(MenuAction::ToggleDevtools)
    } else if text::same(id, MENU_ID_CHECK_FOR_UPDATES) {
        Some(MenuAction::CheckForUpdates)
    } else if full_menu && text::same(id, MENU_ID_NEW_WINDOW) {
        Some(MenuAction::NewWindow)
    } else if full_menu && text::same(id, MENU_ID_REVEAL_FOLDER) {
        Some(MenuAction::RevealFolder)
    } else if full_menu && text::same(id, MENU_ID_RELOAD) {
        Some(MenuAction::Reload)
    } else {
        None
    }
}

/// The first window that has the focus, given which do; a window that could not
/// tell counts as one without.
pub fn focused_webview_window(focused: &Vec<Option<bool>>) -> (r: Option<usize>)
    ensures
        match r {
            Some(i) => i < focused@.len() && focused@[i as int] == Some(true) && forall|j: int|
                0 <= j < i ==> #[trigger] focused@[j] != Some(true),
            None => forall|j: int| 0 <= j < focused@.len() ==> #[trigger] focused@[j] != Some(true),
        },
{
    let mut i: usize = 0;
    while i < focused.len()
        invariant
            i <= focused.len(),
            forall|j: int| 0 <= j < i ==> #[trigger] focused@[j] != Some(true),
        decreases focused.len() - i,
    {
        if let Some(has_focus) = focused[i] {
            if has_focus {
                return Some(i);
            }
        }
        i += 1;
    }
    None
}

/// The code with which the program ends when asked to, the first time it is
/// asked; later requests are not answered.
pub fn exit_code(exiting: &mut bool, requested: Option<i32>) -> (r: Option<i32>)
    ensures
        *final(exiting),
        r == if *old(exiting) {
            None
        } else {
            Some(
                match requested {
                    Some(code) => code,
                    None => 0,
                },
            )
        },
{
    if *exiting {
        return None;
    }
    *exiting = true;
    match requested {
        Some(code) => Some(code),
        None => Some(0),
    }
}

// ---------------------------------------------------------------------------
// What holds of a launch.

/// The launch goes through its stages in order: the data, the samples and the
/// configuration come first whatever comes of them, then what comes before any page,
/// the proxy and its certificate, the scripts, the windows, and the rest.
pub proof fn law_order_of_the_launch(a: bool, b: bool, c: bool, has_proxy: bool)
    ensures
        stage_after(Stage::Migrate, a, has_proxy) == Stage::Bootstrap,
        stage_after(Stage::Bootstrap, b, has_proxy) == Stage::LoadConfig,
        stage_after(Stage::LoadConfig, c, has_proxy) == Stage::InstallGlobal,
        stage_after(Stage::InstallGlobal, true, true) == Stage::StartProxy,
        stage_after(Stage::InstallGlobal, true, false) == Stage::ScanScripts,
        stage_after(Stage::StartProxy, true, has_proxy) == Stage::TrustCertificate,
        stage_after(Stage::StartProxy, false, has_proxy) == Stage::ScanScripts,
        stage_after(Stage::TrustCertificate, true, has_proxy) == Stage::ScanScripts,
        stage_after(Stage::ScanScripts, a, has_proxy) == Stage::OpenWindows,
        stage_after(Stage::OpenWindows, true, has_proxy) == Stage::AttachHandler,
        stage_after(stage_after(Stage::AttachHandler, b, has_proxy), c, has_proxy) == Stage::Running,
{
}

/// A launch ends with an error exactly where what comes before any page, the
/// certificate or the windows fail.
pub proof fn law_when_a_launch_ends(stage: Stage, ok: bool, has_proxy: bool)
    requires
        !(stage is Quit),
    ensures
        stage_after(stage, ok, has_proxy) is Quit <==> !ok && (stage == Stage::InstallGlobal || stage
            == Stage::TrustCertificate || stage == Stage::OpenWindows),
        stage_after(stage, ok, has_proxy) is Quit ==> stage_after(stage, ok, has_proxy) == (Stage::Quit { code: 1 }),
{
}

/// The windows open the URLs that are URLs, in their order, and no others.
pub proof fn law_windows_open_the_urls_in_order(urls: Seq<Seq<char>>, first: nat)
    ensures
        startup_windows(urls, first).map_values(|w: (Seq<char>, Seq<char>)| w.1) == urls.filter(
            |u: Seq<char>| urls::parsed(u) is Some,
        ),
    decreases urls.len(),
{
    let url = |w: (Seq<char>, Seq<char>)| w.1;
    let is_url = |u: Seq<char>| urls::parsed(u) is Some;
    reveal(Seq::filter);
    if urls.len() == 0 {
        assert(startup_windows(urls, first).map_values(url) =~= urls.filter(is_url));
    } else {
        law_windows_open_the_urls_in_order(urls.drop_last(), first);
        let rest = urls.drop_last();
        if urls.len() == 1 {
            reveal_with_fuel(startup_windows, 2);
            assert(rest.filter(is_url) =~= Seq::empty());
        }
        assert(startup_windows(urls, first).map_values(url) =~= urls.filter(is_url));
    }
}

/// The first URL opens in the main window. The others are numbered one by one, also
/// where the first is no URL, and what is no URL takes no number.
pub proof fn law_windows_are_numbered(urls: Seq<Seq<char>>, first: nat, i: int)
    requires
        0 <= i < startup_windows(urls, first).len(),
    ensures
        ({
            let has_main = urls::parsed(urls[0]) is Some;
            let w = startup_windows(urls, first);
            &&& has_main && i == 0 ==> w[i].0 == "main"@
            &&& has_main && i > 0 ==> w[i].0 == "window-"@ + text::decimal((first + i - 1) as nat)
            &&& !has_main ==> w[i].0 == "window-"@ + text::decimal((first + i) as nat)
            &&& extra_count(urls) == w.len() - if has_main {
                1int
            } else {
                0int
            }
        }),
    decreases urls.len(),
{
    lemma_window_count(urls, first);
    if urls.len() > 0 {
        let rest = urls.drop_last();
        let before = startup_windows(rest, first);
        reveal_with_fuel(startup_windows, 2);
        if urls.len() > 1 {
            assert(rest[0] == urls[0]);
            lemma_window_count(rest, first);
            if i < before.len() {
                law_windows_are_numbered(rest, first, i);
            }
        }
    }
}

proof fn lemma_window_count(urls: Seq<Seq<char>>, first: nat)
    ensures
        startup_windows(urls, first).len() == extra_count(urls) + if urls.len() > 0 && urls::parsed(urls[0]) is Some {
            1int
        } else {
            0int
        },
    decreases urls.len(),
{
    if urls.len() > 0 {
        lemma_window_count(urls.drop_last(), first);
        reveal_with_fuel(startup_windows, 2);
    }
}

} // verus!
