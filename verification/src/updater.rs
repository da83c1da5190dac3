//! Looking for updates: when to look, whether a version is newer, and what the
//! user is told.
use vstd::prelude::*;
use crate::config;
use crate::config::Settings;
use crate::hook::policy;
use crate::json;
use crate::text;

verus! {

pub const RELEASES_URL: &'static str = "https://github.com/leaker/pouch/releases/latest";

pub const LATEST_JSON_URL: &'static str = "https://github.com/leaker/pouch/releases/latest/download/latest.json";

/// How many seconds after the launch updates are looked for.
pub const SILENT_CHECK_DELAY_SECS: u64 = 5;

/// How many seconds later they are looked for again.
pub const RECHECK_INTERVAL_SECS: u64 = 60 * 60 * 24;

/// The part of the executable's path that tells an installed program on macOS.
pub const APP_BUNDLE: &'static str = "/Pouch.app/Contents/MacOS/";

/// The part of the executable's path, in lower case, that tells that the program
/// was installed by Scoop.
pub const SCOOP_DIR: &'static str = "\\scoop\\apps\\pouch\\";

pub const SCOOP_COMMAND: &'static str = "scoop update pouch";

/// The platform the program runs on.
#[derive(Debug, Clone, Copy, PartialEq, Eq, Structural)]
pub enum Platform {
    MacOs,
    Windows,
    Other,
}

// ---------------------------------------------------------------------------
// When to look.

/// Whether the program was installed in a way that can be updated.
pub open spec fn installed_layout(platform: Platform, debug: bool, exe: Option<Seq<char>>) -> bool {
    !debug && match platform {
        Platform::MacOs => exe is Some && text::contains(exe->0, APP_BUNDLE@),
        Platform::Windows => true,
        Platform::Other => false,
    }
}

/// Whether the program was installed in a way that can be updated, given whether
/// it is a debug build and the path of its executable, where it is known.
pub fn is_installed_layout(platform: Platform, debug: bool, exe: Option<&str>) -> (r: bool)
    ensures
        r == installed_layout(platform, debug, text::opt_str(exe)),
{
    if debug {
        return false;
    }
    match platform {
        Platform::MacOs => match exe {
            Some(path) => text::has_text(path, APP_BUNDLE),
            None => false,
        },
        Platform::Windows => true,
        Platform::Other => false,
    }
}

/// Whether to look for updates unasked: where the program can be updated and the
/// configuration does not forbid it.
pub fn check_silent(installed: bool, settings: &Settings) -> (r: bool)
    ensures
        r == (installed && settings.updater_auto_check),
{
    installed && config::is_updater_auto_check_enabled(settings)
}

/// `str::to_lowercase`: a text in lower case.
pub uninterp spec fn unicode_lower(s: Seq<char>) -> Seq<char>;

/// `str::to_lowercase`. An ASCII text is put in lower case letter by letter.
#[verifier::external_body]
fn to_lowercase(s: &str) -> (r: String)
    ensures
        r@ == unicode_lower(s@),
        (forall|i: int| 0 <= i < s@.len() ==> (#[trigger] s@[i] as u32) < 128) ==> r@ == text::lower(s@),
{
    s.to_lowercase()
}

/// Whether a path in lower case is that of a program installed by Scoop.
pub fn is_scoop_path(lowered: &str) -> (r: bool)
    ensures
        r == text::contains(lowered@, "\\scoop\\apps\\pouch\\"@),
{
    text::has_text(lowered, SCOOP_DIR)
}

/// Whether the program was installed by Scoop, given the path of its executable,
/// where it is known. Case does not count.
pub fn is_scoop_install(exe: Option<&str>) -> (r: bool)
    ensures
        r == (exe is Some && text::contains(unicode_lower(exe->0@), "\\scoop\\apps\\pouch\\"@)),
{
    match exe {
        Some(path) => {
            let lowered = to_lowercase(path);
            is_scoop_path(lowered.as_str())
        },
        None => false,
    }
}

// ---------------------------------------------------------------------------
// Versions.

/// A version: three numbers, the name of a pre-release, and that of a build.
pub struct Version {
    pub major: u64,
    pub minor: u64,
    pub patch: u64,
    pub pre: String,
    pub build: String,
}

/// The model of [`Version`].
pub struct VersionView {
    pub major: u64,
    pub minor: u64,
    pub patch: u64,
    pub pre: Seq<char>,
    pub build: Seq<char>,
}

impl View for Version {
    type V = VersionView;

    open spec fn view(&self) -> VersionView {
        VersionView {
            major: self.major,
            minor: self.minor,
            patch: self.patch,
            pre: self.pre@,
            build: self.build@,
        }
    }
}

/// `semver::Version::parse`: the version that a text stands for, where it stands
/// for one.
pub uninterp spec fn semver_parse(s: Seq<char>) -> Option<(u64, u64, u64, Seq<char>, Seq<char>)>;

/// The version that a text stands for.
pub open spec fn version_of(s: Seq<char>) -> Option<VersionView> {
    match semver_parse(s) {
        Some(p) => Some(
            VersionView { major: p.0, minor: p.1, patch: p.2, pre: p.3, build: p.4 },
        ),
        None => None,
    }
}

/// `semver::Version::parse`.
#[verifier::external_body]
fn parse_version(s: &str) -> (r: Option<Version>)
    ensures
        match r {
            Some(v) => semver_parse(s@) == Some((v.major, v.minor, v.patch, v.pre@, v.build@)),
            None => semver_parse(s@) is None,
        },
{
    let v = semver::Version::parse(s).ok()?;
    let (pre, build) = (v.pre.to_string(), v.build.to_string());
    Some(Version { major: v.major, minor: v.minor, patch: v.patch, pre, build })
}

/// Whether the first of two names of pre-releases is the greater, in the order of
/// `semver::Prerelease`. A text that is no such name is less than one that is.
pub uninterp spec fn pre_above(a: Seq<char>, b: Seq<char>) -> bool;

/// The order of `semver::Prerelease`: no name is above itself, and none is above
/// the empty name, which stands for the release.
#[verifier::external_body]
fn is_pre_above(a: &str, b: &str) -> (r: bool)
    ensures
        r == pre_above(a@, b@),
        a@ == b@ ==> !r,
        b@.len() == 0 ==> !r,
        a@.len() == 0 && b@.len() > 0 ==> r,
{
    semver::Prerelease::new(a).ok() > semver::Prerelease::new(b).ok()
}

/// Whether the first of two names of builds is the greater, in the order of
/// `semver::BuildMetadata`. A text that is no such name is less than one that is.
pub uninterp spec fn build_above(a: Seq<char>, b: Seq<char>) -> bool;

/// The order of `semver::BuildMetadata`: no name is above itself.
#[verifier::external_body]
fn is_build_above(a: &str, b: &str) -> (r: bool)
    ensures
        r == build_above(a@, b@),
        a@ == b@ ==> !r,
{
    semver::BuildMetadata::new(a).ok() > semver::BuildMetadata::new(b).ok()
}

/// Whether the first version is newer: the numbers count first, in order, and
/// after them the names of the pre-release and of the build.
pub open spec fn newer(a: VersionView, b: VersionView) -> bool {
    if a.major != b.major {
        a.major > b.major
    } else if a.minor != b.minor {
        a.minor > b.minor
    } else if a.patch != b.patch {
        a.patch > b.patch
    } else if a.pre != b.pre {
        pre_above(a.pre, b.pre)
    } else {
        a.build != b.build && build_above(a.build, b.build)
    }
}

/// Whether the first version is newer.
pub fn is_newer(a: &Version, b: &Version) -> (r: bool)
    ensures
        r == newer(a@, b@),
{
    if a.major != b.major {
        a.major > b.major
    } else if a.minor != b.minor {
        a.minor > b.minor
    } else if a.patch != b.patch {
        a.patch > b.patch
    } else if !text::same(a.pre.as_str(), b.pre.as_str()) {
        is_pre_above(a.pre.as_str(), b.pre.as_str())
    } else {
        !text::same(a.build.as_str(), b.build.as_str()) && is_build_above(
            a.build.as_str(),
            b.build.as_str(),
        )
    }
}

/// Whether the latest version is newer than the running one; nothing where one of
/// them is no version.
pub fn is_update(latest: &str, current: &str) -> (r: Option<bool>)
    ensures
        r == match (version_of(latest@), version_of(current@)) {
            (Some(l), Some(c)) => Some(newer(l, c)),
            _ => None,
        },
{
    match (parse_version(latest), parse_version(current)) {
        (Some(l), Some(c)) => Some(is_newer(&l, &c)),
        _ => None,
    }
}

/// No version is newer than itself: the running version is never offered.
pub proof fn law_running_version_is_no_update(s: Seq<char>)
    ensures
        version_of(s) matches Some(v) ==> !newer(v, v),
{
}

/// The numbers count before the names: a version with greater numbers is newer,
/// and then the other is not.
pub proof fn law_greater_numbers_are_newer(a: VersionView, b: VersionView)
    requires
        a.major > b.major || (a.major == b.major && a.minor > b.minor) || (a.major == b.major && a.minor
            == b.minor && a.patch > b.patch),
    ensures
        newer(a, b),
        !newer(b, a),
{
}

/// The latest version, given the answer to the request for it: nothing where the
/// answer is no success, is no JSON, or names no version.
pub fn fetch_latest_version(status: u16, body: &[u8]) -> (r: Option<String>)
    ensures
        text::opt(r) == if policy::success(status) && json::json_text_field(body@, "version"@) is Some {
            json::json_text_field(body@, "version"@)->0
        } else {
            None
        },
{
    if !policy::is_success(status) {
        return None;
    }
    match json::text_field(body, "version") {
        Some(version) => version,
        None => None,
    }
}

/// Whether to tell the user of an update unasked: where the latest version is
/// known and newer.
pub fn should_notify(latest: Option<&str>, current: &str) -> (r: bool)
    ensures
        r == (latest is Some && match (version_of(latest->0@), version_of(current@)) {
            (Some(l), Some(c)) => newer(l, c),
            _ => false,
        }),
{
    match latest {
        Some(version) => match is_update(version, current) {
            Some(newer_one) => newer_one,
            None => false,
        },
        None => false,
    }
}

// ---------------------------------------------------------------------------
// What the user is told.

/// A message to the user.
pub struct Message {
    pub title: String,
    pub body: String,
}

/// What came of looking for an update when asked to.
pub enum Checked<'a> {
    /// The program cannot be updated.
    Unavailable,
    /// The latest version could not be had.
    Unreachable,
    /// It, or the running version, is no version.
    Unreadable,
    /// The running version is the latest.
    UpToDate,
    /// There is a newer version.
    Available { version: &'a str },
}

/// What came of looking, given whether the program can be updated and the latest
/// version, where it could be had.
pub fn check_interactive<'a>(installed: bool, latest: Option<&'a str>, current: &str) -> (r: Checked<'a>)
    ensures
        match r {
            Checked::Unavailable => !installed,
            Checked::Unreachable => installed && latest is None,
            Checked::Unreadable => installed && latest is Some && (version_of(latest->0@) is None
                || version_of(current@) is None),
            Checked::UpToDate => installed && latest is Some && version_of(latest->0@) is Some
                && version_of(current@) is Some && !newer(
                version_of(latest->0@)->0,
                version_of(current@)->0,
            ),
            Checked::Available { version } => installed && latest == Some(version) && version_of(
                version@,
            ) is Some && version_of(current@) is Some && newer(
                version_of(version@)->0,
                version_of(current@)->0,
            ),
        },
{
    if !installed {
        return Checked::Unavailable;
    }
    match latest {
        None => Checked::Unreachable,
        Some(version) => match is_update(version, current) {
            None => Checked::Unreadable,
            Some(true) => Checked::Available { version },
            Some(false) => Checked::UpToDate,
        },
    }
}

fn told(title: &str, before: &str, middle: &str, after: &str) -> (r: Message)
    ensures
        r.title@ == title@,
        r.body@ == before@ + middle@ + after@,
{
    let mut body: String = before.to_owned();
    body.append(middle);
    body.append(after);
    Message { title: title.to_owned(), body }
}

/// What the user is told of what came of looking; of a newer version they are
/// asked instead.
pub fn checked_message(checked: &Checked) -> (r: Option<Message>)
    ensures
        match *checked {
            Checked::Unavailable => r matches Some(m) && m.title@ == "Auto-update unavailable"@ && m.body@
                == "This build does not support auto-update.\n\nDownload the latest release from:\n"@
                + "https://github.com/leaker/pouch/releases/latest"@,
            Checked::Unreachable => r matches Some(m) && m.title@ == "Update check failed"@ && m.body@
                == "Could not reach GitHub to check for updates.\n\nVisit "@
                + "https://github.com/leaker/pouch/releases/latest"@ + " manually."@,
            Checked::Unreadable => r matches Some(m) && m.title@ == "Update check failed"@ && m.body@
                == "Could not parse version info from GitHub.\n\nVisit "@
                + "https://github.com/leaker/pouch/releases/latest"@ + " manually."@,
            Checked::UpToDate => r matches Some(m) && m.title@ == "No update available"@ && m.body@
                == "You are running the latest version of Pouch."@,
            Checked::Available { version } => r is None,
        },
{
    proof {
        reveal_strlit("");
    }
    match checked {
        Checked::Unavailable => Some(
            told(
                "Auto-update unavailable",
                "This build does not support auto-update.\n\nDownload the latest release from:\n",
                RELEASES_URL,
                "",
            ),
        ),
        Checked::Unreachable => Some(
            told(
                "Update check failed",
                "Could not reach GitHub to check for updates.\n\nVisit ",
                RELEASES_URL,
                " manually.",
            ),
        ),
        Checked::Unreadable => Some(
            told(
                "Update check failed",
                "Could not parse version info from GitHub.\n\nVisit ",
                RELEASES_URL,
                " manually.",
            ),
        ),
        Checked::UpToDate => Some(
            told("No update available", "You are running the latest version of Pouch.", "", ""),
        ),
        Checked::Available { .. } => None,
    }
}

/// What failed in an update on macOS.
#[derive(Debug, Clone, Copy, PartialEq, Eq, Structural)]
pub enum UpdateFailure {
    NoPlugin,
    Check,
    Install,
}

/// What the user is told of a failure, given the words of the error.
pub fn failure_message(failure: UpdateFailure, error: &str) -> (r: Message)
    ensures
        match failure {
            UpdateFailure::NoPlugin => r.title@ == "Update check failed"@ && r.body@
                == "Updater plugin not available:\n"@ + error@,
            UpdateFailure::Check => r.title@ == "Update check failed"@ && r.body@
                == "Could not check for updates:\n"@ + error@,
            UpdateFailure::Install => r.title@ == "Update failed"@ && r.body@ == "Update failed:\n"@ + error@,
        },
{
    proof {
        reveal_strlit("");
        assert(error@ + ""@ =~= error@);
    }
    match failure {
        UpdateFailure::NoPlugin => told(
            "Update check failed",
            "Updater plugin not available:\n",
            error,
            "",
        ),
        UpdateFailure::Check => told("Update check failed", "Could not check for updates:\n", error, ""),
        UpdateFailure::Install => told("Update failed", "Update failed:\n", error, ""),
    }
}

/// The question whether to update on macOS, with the notes on the version, where
/// there are any that are not blank.
pub open spec fn offer_text(version: Seq<char>, notes: Option<Seq<char>>) -> Seq<char> {
    let lead = "Pouch v"@ + version + " is available.\n\n"@;
    match notes {
        Some(n) => if text::trim(n).len() > 0 {
            lead + n + "\n\nUpdate now?"@
        } else {
            lead + "Update now?"@
        },
        None => lead + "Update now?"@,
    }
}

/// Ask whether to update on macOS.
pub fn update_offer(version: &str, notes: Option<&str>) -> (r: Message)
    ensures
        r.title@ == "Update to v"@ + version@,
        r.body@ == offer_text(version@, text::opt_str(notes)),
{
    let mut title: String = "Update to v".to_owned();
    title.append(version);
    let mut body: String = "Pouch v".to_owned();
    body.append(version);
    body.append(" is available.\n\n");
    if let Some(n) = notes {
        let kept = text::trimmed(n);
        if !kept.as_str().is_empty() {
            body.append(n);
            body.append("\n\n");
            body.append("Update now?");
            proof {
                reveal_strlit("\n\n");
                reveal_strlit("Update now?");
                reveal_strlit("\n\nUpdate now?");
                assert("\n\n"@ + "Update now?"@ =~= "\n\nUpdate now?"@);
                assert(body@ =~= offer_text(version@, text::opt_str(notes)));
            }
            return Message { title, body };
        }
    }
    body.append("Update now?");
    Message { title, body }
}

/// What is offered of a newer version on Windows, where the program does not
/// replace itself: the text, and what its button does.
pub struct WindowsOffer {
    pub message: Message,
    pub button: &'static str,
    /// What is put on the clipboard. Without it, or where that fails, the page of
    /// the releases is opened.
    pub copies: Option<&'static str>,
}

/// Offer a newer version on Windows.
pub fn windows_offer(version: &str, scoop: bool) -> (r: WindowsOffer)
    ensures
        r.message.title@ == "Update available"@,
        scoop ==> r.message.body@ == "Pouch v"@ + version@
            + " is available. Update with:\n\nscoop update pouch"@ && r.button@ == "Copy command"@
            && r.copies is Some && r.copies->0@ == "scoop update pouch"@,
        !scoop ==> r.message.body@ == "Pouch v"@ + version@
            + " is available. Download the latest release from GitHub."@ && r.button@
            == "Open release page"@ && r.copies is None,
{
    if scoop {
        WindowsOffer {
            message: told(
                "Update available",
                "Pouch v",
                version,
                " is available. Update with:\n\nscoop update pouch",
            ),
            button: "Copy command",
            copies: Some(SCOOP_COMMAND),
        }
    } else {
        WindowsOffer {
            message: told(
                "Update available",
                "Pouch v",
                version,
                " is available. Download the latest release from GitHub.",
            ),
            button: "Open release page",
            copies: None,
        }
    }
}

// ---------------------------------------------------------------------------
// What holds of updates.

/// Where the numbers are the same, the names of the pre-releases count, and where
/// those are the same, the names of the builds.
pub proof fn law_names_count_after_the_numbers(a: VersionView, b: VersionView)
    requires
        a.major == b.major && a.minor == b.minor && a.patch == b.patch,
    ensures
        a.pre != b.pre ==> newer(a, b) == pre_above(a.pre, b.pre),
        a.pre == b.pre && a.build != b.build ==> newer(a, b) == build_above(a.build, b.build),
        a.pre == b.pre && a.build == b.build ==> !newer(a, b),
{
}

/// A version is what its text says, number by number and name by name.
pub proof fn law_version_is_what_its_text_says(s: Seq<char>)
    ensures
        semver_parse(s) is None ==> version_of(s) is None,
        semver_parse(s) matches Some(p) ==> (version_of(s) matches Some(v) && v.major == p.0 && v.minor == p.1
            && v.patch == p.2 && v.pre == p.3 && v.build == p.4),
{
}

/// Which programs can be updated: on macOS those that run out of the application's
/// bundle, on Windows all; never a debug build.
pub proof fn law_which_programs_can_be_updated(a: Seq<char>, b: Seq<char>, exe: Option<Seq<char>>, platform: Platform)
    ensures
        installed_layout(Platform::MacOs, false, Some(a + "/Pouch.app/Contents/MacOS/"@ + b)),
        installed_layout(Platform::MacOs, false, exe) ==> exe is Some && exists|i: int|
            0 <= i <= exe->0.len() - "/Pouch.app/Contents/MacOS/"@.len() && #[trigger] exe->0.skip(i).take(
                "/Pouch.app/Contents/MacOS/"@.len() as int,
            ) == "/Pouch.app/Contents/MacOS/"@,
        installed_layout(Platform::Windows, false, exe),
        !installed_layout(Platform::Other, false, exe),
        !installed_layout(platform, true, exe),
{
    text::law_contained_text(a, "/Pouch.app/Contents/MacOS/"@, b);
    if exe is Some {
        text::law_contained_text(exe->0, "/Pouch.app/Contents/MacOS/"@, b);
    }
}

/// The question names the version, holds the notes as they are where they are not
/// blank, and ends with what is asked.
pub proof fn law_what_the_question_says(version: Seq<char>, notes: Seq<char>)
    ensures
        text::trim(notes).len() > 0 ==> offer_text(version, Some(notes)) == "Pouch v"@ + version
            + " is available.\n\n"@ + notes + "\n\nUpdate now?"@,
        text::trim(notes).len() == 0 ==> offer_text(version, Some(notes)) == offer_text(version, None),
        offer_text(version, None) == "Pouch v"@ + version + " is available.\n\n"@ + "Update now?"@,
{
}

} // verus!
