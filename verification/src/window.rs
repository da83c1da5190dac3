//! How a window is shown: its geometry, its title, and when its geometry is
//! saved.
use vstd::prelude::*;
use crate::config::{WindowDimensions, WindowDimensionsMode};
use crate::storage::WindowState;
use crate::text;
use crate::util::{DEFAULT_WINDOW_HEIGHT, DEFAULT_WINDOW_WIDTH};

verus! {

/// The title of a window while its page loads.
pub const LOADING_TITLE: &'static str = "⏳ Loading...";

/// The title of a page that has none and comes from no host.
pub const FALLBACK_TITLE: &'static str = "Pouch";

/// How many seconds the geometry of a window must have rested before it is saved.
pub const SAVE_DEBOUNCE_SECS: u64 = 1;

/// The geometry and mode of a new window. Without a position the platform places
/// it. The size is also that to which a window returns that fills the screen.
#[derive(Debug, Clone, Copy, PartialEq, Eq)]
pub struct Geometry {
    pub position: Option<(i32, i32)>,
    pub width: u32,
    pub height: u32,
    pub maximized: bool,
    pub fullscreen: bool,
}

/// A window of the default size in the given mode.
pub open spec fn default_sized(maximized: bool, fullscreen: bool) -> Geometry {
    Geometry {
        position: None,
        width: DEFAULT_WINDOW_WIDTH,
        height: DEFAULT_WINDOW_HEIGHT,
        maximized,
        fullscreen,
    }
}

/// The geometry of a window that is to be as the last one was left: its state,
/// where one was saved and has a size, and the default otherwise.
pub open spec fn inherited(saved: Option<WindowState>) -> Geometry {
    match saved {
        Some(s) => if s.width > 0 && s.height > 0 {
            Geometry {
                position: Some((s.x, s.y)),
                width: s.width,
                height: s.height,
                maximized: s.maximized,
                fullscreen: s.fullscreen,
            }
        } else {
            default_sized(false, false)
        },
        None => default_sized(false, false),
    }
}

/// The geometry for the configured dimensions. A size without width or height
/// stands for a window that fills the work area.
pub open spec fn geometry_for(dimensions: WindowDimensions, saved: Option<WindowState>) -> Geometry {
    match dimensions {
        WindowDimensions::Mode(WindowDimensionsMode::Default) => default_sized(false, false),
        WindowDimensions::Mode(WindowDimensionsMode::Inherit) => inherited(saved),
        WindowDimensions::Mode(WindowDimensionsMode::Maximized) => default_sized(true, false),
        WindowDimensions::Mode(WindowDimensionsMode::Fullscreen) => default_sized(false, true),
        WindowDimensions::Size { width, height } => if width > 0 && height > 0 {
            Geometry { position: None, width, height, maximized: false, fullscreen: false }
        } else {
            default_sized(true, false)
        },
    }
}

fn default_geometry(maximized: bool, fullscreen: bool) -> (r: Geometry)
    ensures
        r == default_sized(maximized, fullscreen),
{
    Geometry {
        position: None,
        width: DEFAULT_WINDOW_WIDTH,
        height: DEFAULT_WINDOW_HEIGHT,
        maximized,
        fullscreen,
    }
}

/// The geometry of a window that is to be as the last one was left.
pub fn apply_inherit_mode(saved: Option<WindowState>) -> (r: Geometry)
    ensures
        r == inherited(saved),
{
    match saved {
        Some(s) => if s.width > 0 && s.height > 0 {
            Geometry {
                position: Some((s.x, s.y)),
                width: s.width,
                height: s.height,
                maximized: s.maximized,
                fullscreen: s.fullscreen,
            }
        } else {
            default_geometry(false, false)
        },
        None => default_geometry(false, false),
    }
}

/// The geometry for the configured dimensions. It is the same for the main window
/// and for those beside it.
pub fn window_geometry(dimensions: WindowDimensions, saved: Option<WindowState>) -> (r: Geometry)
    ensures
        r == geometry_for(dimensions, saved),
{
    match dimensions {
        WindowDimensions::Mode(WindowDimensionsMode::Default) => default_geometry(false, false),
        WindowDimensions::Mode(WindowDimensionsMode::Inherit) => apply_inherit_mode(saved),
        WindowDimensions::Mode(WindowDimensionsMode::Maximized) => default_geometry(true, false),
        WindowDimensions::Mode(WindowDimensionsMode::Fullscreen) => default_geometry(false, true),
        WindowDimensions::Size { width, height } => if width > 0 && height > 0 {
            Geometry { position: None, width, height, maximized: false, fullscreen: false }
        } else {
            default_geometry(true, false)
        },
    }
}

/// A new window always has a size.
pub proof fn law_windows_have_a_size(dimensions: WindowDimensions, saved: Option<WindowState>)
    ensures
        geometry_for(dimensions, saved).width > 0,
        geometry_for(dimensions, saved).height > 0,
{
}

/// The state to save for a window, given what the platform says of it. A mode
/// that the platform did not tell counts as off.
pub fn capture_window_state(
    position: (i32, i32),
    size: (u32, u32),
    maximized: Option<bool>,
    fullscreen: Option<bool>,
) -> (r: WindowState)
    ensures
        r == (WindowState {
            x: position.0,
            y: position.1,
            width: size.0,
            height: size.1,
            maximized: maximized == Some(true),
            fullscreen: fullscreen == Some(true),
        }),
{
    WindowState {
        x: position.0,
        y: position.1,
        width: size.0,
        height: size.1,
        maximized: match maximized {
            Some(b) => b,
            None => false,
        },
        fullscreen: match fullscreen {
            Some(b) => b,
            None => false,
        },
    }
}

/// A window that is to be as the last one was left is as its saved state says,
/// where that has a size.
pub proof fn law_saved_state_is_restored(state: WindowState)
    requires
        state.width > 0,
        state.height > 0,
    ensures
        ({
            let g = geometry_for(WindowDimensions::Mode(WindowDimensionsMode::Inherit), Some(state));
            &&& g.position == Some((state.x, state.y))
            &&& g.width == state.width
            &&& g.height == state.height
            &&& g.maximized == state.maximized
            &&& g.fullscreen == state.fullscreen
        }),
{
}

// ---------------------------------------------------------------------------
// Saving once a window has come to rest.

/// Counts the changes of all windows.
pub struct SaveClock {
    pub version: u64,
}

/// Whether the change with this ticket is the latest of all.
pub open spec fn is_latest(clock: SaveClock, ticket: u64) -> bool {
    clock.version == ticket
}

/// Note a change. The ticket for it is given out; it is asked about once the
/// window has rested.
pub fn schedule_save_state(clock: &mut SaveClock) -> (ticket: u64)
    requires
        old(clock).version < u64::MAX,
    ensures
        ticket == old(clock).version + 1,
        *final(clock) == (SaveClock { version: ticket }),
{
    clock.version = clock.version + 1;
    clock.version
}

/// Whether a change is still the latest, and its window to be saved.
pub fn is_save_due(clock: &SaveClock, ticket: u64) -> (r: bool)
    ensures
        r == is_latest(*clock, ticket),
{
    clock.version == ticket
}

/// Of several changes only the last is saved: once a further change has been
/// noted, no ticket given out before is due, and that of the change is.
pub proof fn law_only_the_last_change_is_saved(before: SaveClock, ticket: u64, after: SaveClock, latest: u64)
    requires
        ticket <= before.version < u64::MAX,
        latest == before.version + 1,
        after == (SaveClock { version: latest }),
    ensures
        !is_latest(after, ticket),
        is_latest(after, latest),
{
}

// ---------------------------------------------------------------------------
// Titles.

/// Whether a title that a page gives itself becomes that of its window: a blank
/// one does not.
pub fn accepts_title(title: &str) -> (r: bool)
    ensures
        r == (text::trim(title@).len() > 0),
{
    let kept = text::trimmed(title);
    !kept.as_str().is_empty()
}

/// The title that a window gets once its page has loaded, where it gets one: a
/// window that still has the title of a loading page gets the name of the host.
pub fn title_after_load(current: Option<&str>, host: Option<&str>) -> (r: Option<String>)
    ensures
        text::opt(r) == if current is Some && text::starts_with(current->0@, "⏳ Loading..."@) {
            Some(
                match host {
                    Some(h) => h@,
                    None => "Pouch"@,
                },
            )
        } else {
            None
        },
{
    match current {
        Some(title) => {
            if !text::begins(title, LOADING_TITLE) {
                return None;
            }
            match host {
                Some(h) => Some(h.to_owned()),
                None => Some(FALLBACK_TITLE.to_owned()),
            }
        },
        None => None,
    }
}

/// The symbol on the button for the developer tools.
pub fn devtools_symbol(is_open: bool) -> (r: &'static str)
    ensures
        r@ == if is_open {
            "wrench.and.screwdriver.fill"@
        } else {
            "wrench.and.screwdriver"@
        },
{
    if is_open {
        "wrench.and.screwdriver.fill"
    } else {
        "wrench.and.screwdriver"
    }
}

/// How a window is shown in each mode, and with a size of its own. Without a saved
/// state that has a size, a window is as in the default mode.
pub proof fn law_how_windows_are_shown(width: u32, height: u32, saved: Option<WindowState>)
    ensures
        ({
            let shown = |mode: WindowDimensionsMode| geometry_for(WindowDimensions::Mode(mode), saved);
            let plain = shown(WindowDimensionsMode::Default);
            let maximized = shown(WindowDimensionsMode::Maximized);
            let fullscreen = shown(WindowDimensionsMode::Fullscreen);
            let sized = geometry_for(WindowDimensions::Size { width, height }, saved);
            &&& plain.position is None && plain.width == 1280 && plain.height == 960 && !plain.maximized
                && !plain.fullscreen
            &&& maximized == (Geometry { maximized: true, ..plain })
            &&& fullscreen == (Geometry { fullscreen: true, ..plain })
            &&& width > 0 && height > 0 ==> sized == (Geometry { width, height, ..plain })
            &&& width == 0 || height == 0 ==> sized == maximized
            &&& saved is None || saved->0.width == 0 || saved->0.height == 0 ==> shown(WindowDimensionsMode::Inherit)
                == plain
        }),
{
}

} // verus!
