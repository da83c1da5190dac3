//! Moving the data of an older version on Windows.
//!
//! An older version kept its data beside the executable. It is copied once into
//! the data directory; what is there already stays as it is.
use vstd::prelude::*;
use crate::bootstrap::{step_views, FileStep, StepView};
use crate::util;
use crate::util::PathComponent;

verus! {

/// The file that says that the data has been moved.
pub const MARKER_FILENAME: &'static str = ".migrated-from-portable";

/// A directory: its path, and the components that the platform takes it for.
pub struct Directory {
    pub path: String,
    pub components: Vec<PathComponent>,
}

/// What is found before the data is moved.
pub struct LegacyProbe {
    /// The data directory.
    pub new_root: Option<Directory>,
    /// The directory of the executable.
    pub old_root: Option<Directory>,
    /// Whether the data has been moved before.
    pub has_marker: bool,
    /// What lies beside the executable.
    pub has_old_config: bool,
    pub has_old_inject: bool,
    pub has_old_overrides: bool,
    /// Whether the data directory already holds a configuration file.
    pub has_new_config: bool,
}

/// Whether there is data to move: both directories are known and differ in their
/// components, it has not been done before, and something lies beside the
/// executable.
pub open spec fn is_due(probe: LegacyProbe) -> bool {
    &&& probe.new_root is Some
    &&& probe.old_root is Some
    &&& util::parts(probe.old_root->0.components@) != util::parts(probe.new_root->0.components@)
    &&& !probe.has_marker
    &&& probe.has_old_config || probe.has_old_inject || probe.has_old_overrides
}

/// The steps that move the data: the mark comes last, so that a move that was cut
/// off is taken up again.
pub open spec fn move_steps(probe: LegacyProbe) -> Seq<StepView> {
    if !is_due(probe) {
        Seq::empty()
    } else {
        let new = probe.new_root->0.path@;
        let old_dir = probe.old_root->0.path@;
        let made = seq![StepView::CreateDir { path: new }];
        let config = if probe.has_old_config && !probe.has_new_config {
            seq![
                StepView::CopyFile {
                    from: util::joined(old_dir, "hook.conf.toml"@),
                    to: util::joined(new, "hook.conf.toml"@),
                },
            ]
        } else {
            Seq::empty()
        };
        let inject = if probe.has_old_inject {
            seq![
                StepView::CopyTree {
                    from: util::joined(old_dir, "inject"@),
                    to: util::joined(new, "inject"@),
                },
            ]
        } else {
            Seq::empty()
        };
        let overrides = if probe.has_old_overrides {
            seq![
                StepView::CopyTree {
                    from: util::joined(old_dir, "overrides"@),
                    to: util::joined(new, "overrides"@),
                },
            ]
        } else {
            Seq::empty()
        };
        made + config + inject + overrides + seq![
            StepView::WriteMarker { path: util::joined(new, ".migrated-from-portable"@) },
        ]
    }
}

/// Plan the move of the data of an older version. A directory that cannot be made
/// ends the plan; a step after it that fails does not keep the others from being
/// taken. See [`crate::bootstrap::Failure::NeedsDirectory`].
pub fn migrate_legacy_windows_data(probe: &LegacyProbe) -> (r: Vec<FileStep>)
    ensures
        step_views(r@) == move_steps(*probe),
{
    let mut out: Vec<FileStep> = Vec::new();
    proof {
        assert(step_views(out@) =~= Seq::empty());
    }
    let new_root = match &probe.new_root {
        Some(n) => n,
        None => {
            return out;
        },
    };
    let old_root = match &probe.old_root {
        Some(o) => o,
        None => {
            return out;
        },
    };
    if util::same_components(&old_root.components, &new_root.components) || probe.has_marker {
        return out;
    }
    if !probe.has_old_config && !probe.has_old_inject && !probe.has_old_overrides {
        return out;
    }
    let new = &new_root.path;
    let old_dir = &old_root.path;
    out.push(FileStep::CreateDir { path: new.clone() });
    if probe.has_old_config && !probe.has_new_config {
        out.push(
            FileStep::CopyFile {
                from: util::join_path(old_dir.as_str(), "hook.conf.toml"),
                to: util::join_path(new.as_str(), "hook.conf.toml"),
            },
        );
    }
    if probe.has_old_inject {
        out.push(
            FileStep::CopyTree {
                from: util::join_path(old_dir.as_str(), "inject"),
                to: util::join_path(new.as_str(), "inject"),
            },
        );
    }
    if probe.has_old_overrides {
        out.push(
            FileStep::CopyTree {
                from: util::join_path(old_dir.as_str(), "overrides"),
                to: util::join_path(new.as_str(), "overrides"),
            },
        );
    }
    out.push(FileStep::WriteMarker { path: util::join_path(new.as_str(), MARKER_FILENAME) });
    proof {
        assert(step_views(out@) =~= move_steps(*probe));
    }
    out
}

/// Once the mark is there, nothing is moved again.
pub proof fn law_data_is_moved_once(probe: LegacyProbe)
    requires
        probe.has_marker,
    ensures
        move_steps(probe).len() == 0,
{
}

/// Nothing is moved onto itself.
pub proof fn law_nothing_is_moved_onto_itself(probe: LegacyProbe)
    requires
        probe.new_root is Some,
        probe.old_root is Some,
        util::parts(probe.old_root->0.components@) == util::parts(probe.new_root->0.components@),
    ensures
        move_steps(probe).len() == 0,
{
}

/// A move that does anything ends with the mark.
pub proof fn law_the_mark_comes_last(probe: LegacyProbe)
    requires
        move_steps(probe).len() > 0,
    ensures
        move_steps(probe).last() == (StepView::WriteMarker {
            path: util::joined(probe.new_root->0.path@, ".migrated-from-portable"@),
        }),
{
}

/// A configuration file in the data directory is never written over.
pub proof fn law_new_config_is_kept(probe: LegacyProbe, i: int)
    requires
        probe.has_new_config,
        0 <= i < move_steps(probe).len(),
    ensures
        !(move_steps(probe)[i] is CopyFile),
{
}

/// Data is moved exactly where both directories are known and differ, it has not
/// been moved before, and any of it lies beside the executable.
pub proof fn law_when_data_is_moved(probe: LegacyProbe)
    ensures
        move_steps(probe).len() > 0 <==> (probe.new_root is Some && probe.old_root is Some && util::parts(
            probe.old_root->0.components@,
        ) != util::parts(probe.new_root->0.components@) && !probe.has_marker && (probe.has_old_config
            || probe.has_old_inject || probe.has_old_overrides)),
{
}

/// A move makes the data directory first and then copies each part that lies beside
/// the executable; only a configuration that is there already stays.
pub proof fn law_what_is_moved(probe: LegacyProbe)
    requires
        move_steps(probe).len() > 0,
    ensures
        ({
            let steps = move_steps(probe);
            let new = probe.new_root->0.path@;
            let former = probe.old_root->0.path@;
            let config = StepView::CopyFile {
                from: util::joined(former, "hook.conf.toml"@),
                to: util::joined(new, "hook.conf.toml"@),
            };
            let inject = StepView::CopyTree {
                from: util::joined(former, "inject"@),
                to: util::joined(new, "inject"@),
            };
            let overrides = StepView::CopyTree {
                from: util::joined(former, "overrides"@),
                to: util::joined(new, "overrides"@),
            };
            &&& steps[0] == (StepView::CreateDir { path: new })
            &&& steps.contains(config) <==> probe.has_old_config && !probe.has_new_config
            &&& probe.has_old_inject ==> steps.contains(inject)
            &&& probe.has_old_overrides ==> steps.contains(overrides)
            &&& forall|i: int|
                0 < i < steps.len() - 1 ==> (#[trigger] steps[i] == config || (steps[i] == inject
                    && probe.has_old_inject) || (steps[i] == overrides && probe.has_old_overrides))
        }),
{
    let steps = move_steps(probe);
    let new = probe.new_root->0.path@;
    let former = probe.old_root->0.path@;
    let c: int = if probe.has_old_config && !probe.has_new_config {
        1
    } else {
        0
    };
    let j: int = if probe.has_old_inject {
        1
    } else {
        0
    };
    if c == 1 {
        assert(steps[1] == (StepView::CopyFile {
            from: util::joined(former, "hook.conf.toml"@),
            to: util::joined(new, "hook.conf.toml"@),
        }));
    }
    if j == 1 {
        assert(steps[1 + c] == (StepView::CopyTree {
            from: util::joined(former, "inject"@),
            to: util::joined(new, "inject"@),
        }));
    }
    if probe.has_old_overrides {
        assert(steps[1 + c + j] == (StepView::CopyTree {
            from: util::joined(former, "overrides"@),
            to: util::joined(new, "overrides"@),
        }));
    }
}

} // verus!
