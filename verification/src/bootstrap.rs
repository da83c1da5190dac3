//! Putting data in place at the first launch, and copying trees of files.
use vstd::prelude::*;
use crate::text;
use crate::util;

verus! {

/// The directory of the sample data in the program's resources.
pub const SAMPLE_DIR: &'static str = "sample";

/// A step that puts files in place.
pub enum FileStep {
    /// Make a directory and those above it, where they are missing.
    CreateDir { path: String },
    /// Copy a file.
    CopyFile { from: String, to: String },
    /// Copy a directory with all below it.
    CopyTree { from: String, to: String },
    /// Write a file that says that the steps before it are done.
    WriteMarker { path: String },
}

/// The model of [`FileStep`].
pub enum StepView {
    CreateDir { path: Seq<char> },
    CopyFile { from: Seq<char>, to: Seq<char> },
    CopyTree { from: Seq<char>, to: Seq<char> },
    WriteMarker { path: Seq<char> },
}

impl View for FileStep {
    type V = StepView;

    open spec fn view(&self) -> StepView {
        match self {
            FileStep::CreateDir { path } => StepView::CreateDir { path: path@ },
            FileStep::CopyFile { from, to } => StepView::CopyFile { from: from@, to: to@ },
            FileStep::CopyTree { from, to } => StepView::CopyTree { from: from@, to: to@ },
            FileStep::WriteMarker { path } => StepView::WriteMarker { path: path@ },
        }
    }
}

/// The models of a list of steps.
pub open spec fn step_views(steps: Seq<FileStep>) -> Seq<StepView> {
    Seq::new(steps.len(), |i: int| steps[i]@)
}

/// What is found before the sample data is put in place.
pub struct SampleProbe {
    /// The data directory.
    pub user_dir: Option<String>,
    /// The directory of the program's resources.
    pub resource_dir: Option<String>,
    /// Whether the sample data is there.
    pub has_sample: bool,
    pub has_sample_config: bool,
    pub has_sample_inject: bool,
    /// Whether the data directory already holds a configuration file.
    pub has_config: bool,
    /// Whether the data directory already holds a script directory.
    pub has_inject: bool,
}

/// The steps that put the sample data in place: each part on its own, and only
/// where there is nothing yet.
pub open spec fn seed_steps(probe: SampleProbe) -> Seq<StepView> {
    match probe.user_dir {
        None => Seq::empty(),
        Some(dir) => {
            let made = seq![StepView::CreateDir { path: dir@ }];
            match probe.resource_dir {
                None => made,
                Some(res) => if !probe.has_sample {
                    made
                } else {
                    let sample = util::joined(res@, "sample"@);
                    let config = if !probe.has_config && probe.has_sample_config {
                        seq![
                            StepView::CopyFile {
                                from: util::joined(sample, "hook.conf.toml"@),
                                to: util::joined(dir@, "hook.conf.toml"@),
                            },
                        ]
                    } else {
                        Seq::empty()
                    };
                    let inject = if !probe.has_inject && probe.has_sample_inject {
                        seq![
                            StepView::CopyTree {
                                from: util::joined(sample, "inject"@),
                                to: util::joined(dir@, "inject"@),
                            },
                        ]
                    } else {
                        Seq::empty()
                    };
                    made + config + inject
                },
            }
        },
    }
}

/// Plan how the sample data is put in place. What the user has stays as it is. A
/// directory that cannot be made ends the plan; see [`Failure::NeedsDirectory`].
pub fn bootstrap_macos_user_dir(probe: &SampleProbe) -> (r: Vec<FileStep>)
    ensures
        step_views(r@) == seed_steps(*probe),
{
    let mut out: Vec<FileStep> = Vec::new();
    let dir = match &probe.user_dir {
        Some(d) => d,
        None => {
            proof {
                assert(step_views(out@) =~= seed_steps(*probe));
            }
            return out;
        },
    };
    out.push(FileStep::CreateDir { path: dir.clone() });
    let res = match &probe.resource_dir {
        Some(r) => r,
        None => {
            proof {
                assert(step_views(out@) =~= seed_steps(*probe));
            }
            return out;
        },
    };
    if !probe.has_sample {
        proof {
            assert(step_views(out@) =~= seed_steps(*probe));
        }
        return out;
    }
    let sample = util::join_path(res.as_str(), SAMPLE_DIR);
    if !probe.has_config && probe.has_sample_config {
        out.push(
            FileStep::CopyFile {
                from: util::join_path(sample.as_str(), "hook.conf.toml"),
                to: util::join_path(dir.as_str(), "hook.conf.toml"),
            },
        );
    }
    if !probe.has_inject && probe.has_sample_inject {
        out.push(
            FileStep::CopyTree {
                from: util::join_path(sample.as_str(), "inject"),
                to: util::join_path(dir.as_str(), "inject"),
            },
        );
    }
    proof {
        assert(step_views(out@) =~= seed_steps(*probe));
    }
    out
}

/// What lies at a place in a tree of files.
#[derive(Debug, Clone, Copy, PartialEq, Eq, Structural)]
pub enum EntryKind {
    Dir,
    File,
    Other,
}

/// A place in a tree: its path relative to the root of the tree, what lies there,
/// and whether a file is already at the place it would be copied to.
pub struct TreeEntry {
    pub path: String,
    pub kind: EntryKind,
    pub taken: bool,
}

/// What is copied of a place in a tree: a directory is made, a file is copied,
/// unless it is to be kept where it is already, and nothing else is copied.
pub open spec fn entry_step(entry: TreeEntry, from: Seq<char>, to: Seq<char>, keep: bool) -> Option<StepView> {
    match entry.kind {
        EntryKind::Dir => Some(StepView::CreateDir { path: util::joined(to, entry.path@) }),
        EntryKind::File => if keep && entry.taken {
            None
        } else {
            Some(
                StepView::CopyFile {
                    from: util::joined(from, entry.path@),
                    to: util::joined(to, entry.path@),
                },
            )
        },
        EntryKind::Other => None,
    }
}

/// The steps for the places in a tree, in order.
pub open spec fn entry_steps(entries: Seq<TreeEntry>, from: Seq<char>, to: Seq<char>, keep: bool) -> Seq<
    StepView,
>
    decreases entries.len(),
{
    if entries.len() == 0 {
        Seq::empty()
    } else {
        match entry_step(entries.last(), from, to, keep) {
            Some(step) => entry_steps(entries.drop_last(), from, to, keep).push(step),
            None => entry_steps(entries.drop_last(), from, to, keep),
        }
    }
}

/// How many of the steps copy a file.
pub open spec fn copied_files(steps: Seq<StepView>) -> nat
    decreases steps.len(),
{
    if steps.len() == 0 {
        0
    } else {
        copied_files(steps.drop_last()) + if steps.last() is CopyFile {
            1nat
        } else {
            0nat
        }
    }
}

/// Plan the copy of a tree of files, given the places in it, a directory before
/// what lies in it, and count the files. With `keep`, a file that is already at
/// its place is left as it is.
pub fn copy_dir_recursive(from: &str, to: &str, entries: &Vec<TreeEntry>, keep: bool) -> (r: (Vec<FileStep>, u64))
    requires
        entries@.len() < u64::MAX,
    ensures
        step_views(r.0@) == seq![StepView::CreateDir { path: to@ }] + entry_steps(
            entries@,
            from@,
            to@,
            keep,
        ),
        r.1 == copied_files(step_views(r.0@)),
{
    let mut out: Vec<FileStep> = Vec::new();
    out.push(FileStep::CreateDir { path: to.to_owned() });
    let mut count: u64 = 0;
    let mut i: usize = 0;
    let ghost lead = seq![StepView::CreateDir { path: to@ }];
    proof {
        reveal_with_fuel(copied_files, 2);
        assert(step_views(out@) =~= lead + entry_steps(entries@.take(0), from@, to@, keep));
        assert(step_views(out@).drop_last() =~= Seq::empty());
    }
    while i < entries.len()
        invariant
            i <= entries.len(),
            count <= i,
            entries@.len() < u64::MAX,
            step_views(out@) == lead + entry_steps(entries@.take(i as int), from@, to@, keep),
            count == copied_files(step_views(out@)),
        decreases entries.len() - i,
    {
        let ghost before = out@;
        proof {
            assert(entries@.take(i + 1).drop_last() =~= entries@.take(i as int));
        }
        let path = entries[i].path.as_str();
        let step: Option<FileStep> = match entries[i].kind {
            EntryKind::Dir => Some(FileStep::CreateDir { path: util::join_path(to, path) }),
            EntryKind::File => if keep && entries[i].taken {
                None
            } else {
                count = count + 1;
                Some(
                    FileStep::CopyFile { from: util::join_path(from, path), to: util::join_path(to, path) },
                )
            },
            EntryKind::Other => None,
        };
        if let Some(s) = step {
            let ghost v = s@;
            out.push(s);
            proof {
                assert(step_views(out@) =~= step_views(before).push(v));
                assert(step_views(out@).drop_last() =~= step_views(before));
                assert(step_views(out@) =~= lead + entry_steps(entries@.take(i + 1), from@, to@, keep));
            }
        }
        i += 1;
    }
    proof {
        assert(entries@.take(i as int) =~= entries@);
    }
    (out, count)
}

/// A copy that keeps what is there writes no file that is already at its place.
pub proof fn law_kept_files_are_not_written(
    entries: Seq<TreeEntry>,
    from: Seq<char>,
    to: Seq<char>,
    k: int,
)
    requires
        0 <= k < entry_steps(entries, from, to, true).len(),
        entry_steps(entries, from, to, true)[k] is CopyFile,
    ensures
        exists|i: int|
            0 <= i < entries.len() && !(#[trigger] entries[i]).taken && entry_steps(entries, from, to, true)[k]
                == (StepView::CopyFile {
                from: util::joined(from, entries[i].path@),
                to: util::joined(to, entries[i].path@),
            }),
    decreases entries.len(),
{
    if entries.len() > 0 {
        let rest = entry_steps(entries.drop_last(), from, to, true);
        let all = entry_steps(entries, from, to, true);
        if k < rest.len() {
            law_kept_files_are_not_written(entries.drop_last(), from, to, k);
            let short = entries.drop_last();
            let i = choose|i: int|
                0 <= i < short.len() && !(#[trigger] short[i]).taken && rest[k] == (StepView::CopyFile {
                    from: util::joined(from, short[i].path@),
                    to: util::joined(to, short[i].path@),
                });
            assert(entries[i] == short[i]);
            assert(all[k] == rest[k]);
        } else {
            let last = entries[entries.len() - 1];
            assert(!last.taken);
        }
    }
}

// ---------------------------------------------------------------------------
// Steps that fail.

/// What the failure of a step means for those after it.
#[derive(Debug, Clone, Copy, PartialEq, Eq, Structural)]
pub enum Failure {
    /// A directory that cannot be made ends the plan; any other step that fails is
    /// passed over.
    NeedsDirectory,
    /// Any step that fails ends the plan.
    Ends,
    /// What lies in a directory that cannot be made is passed over with it; any
    /// other step that fails is passed over alone.
    SkipsBelow,
}

/// What a failure means in the copy of a tree: one that keeps what is there brings
/// over what it can, any other is whole or ends.
pub fn copy_failure(keep: bool) -> (r: Failure)
    ensures
        r == if keep {
            Failure::SkipsBelow
        } else {
            Failure::Ends
        },
{
    if keep {
        Failure::SkipsBelow
    } else {
        Failure::Ends
    }
}

/// Where a step puts something.
pub open spec fn target(step: StepView) -> Seq<char> {
    match step {
        StepView::CreateDir { path } => path,
        StepView::CopyFile { to, .. } => to,
        StepView::CopyTree { to, .. } => to,
        StepView::WriteMarker { path } => path,
    }
}

/// Whether a path lies below a directory.
pub open spec fn lies_below(path: Seq<char>, dir: Seq<char>) -> bool {
    text::starts_with(path, util::joined(dir, Seq::empty()))
}

/// The first position from `at` on whose step puts nothing below the directory; the
/// number of steps where there is none.
pub open spec fn first_outside(steps: Seq<StepView>, at: int, dir: Seq<char>) -> int
    decreases steps.len() - at,
{
    if 0 <= at < steps.len() && lies_below(target(steps[at]), dir) {
        first_outside(steps, at + 1, dir)
    } else {
        at
    }
}

/// The position of the step that is taken after the one at `at`, given whether that
/// one was done; the number of steps where the plan ends.
pub open spec fn following(steps: Seq<StepView>, at: int, done: bool, failure: Failure) -> int {
    if done {
        at + 1
    } else {
        match failure {
            Failure::Ends => steps.len() as int,
            Failure::NeedsDirectory => if steps[at] is CreateDir {
                steps.len() as int
            } else {
                at + 1
            },
            Failure::SkipsBelow => match steps[at] {
                StepView::CreateDir { path } => first_outside(steps, at + 1, path),
                _ => at + 1,
            },
        }
    }
}

/// Where a step puts something.
fn target_of(step: &FileStep) -> (r: &str)
    ensures
        r@ == target(step@),
{
    match step {
        FileStep::CreateDir { path } => path.as_str(),
        FileStep::CopyFile { to, .. } => to.as_str(),
        FileStep::CopyTree { to, .. } => to.as_str(),
        FileStep::WriteMarker { path } => path.as_str(),
    }
}

/// The position of the step that is taken after the one at `at`, given whether that
/// one was done; the number of steps where the plan ends.
pub fn next_step(steps: &Vec<FileStep>, at: usize, done: bool, failure: Failure) -> (r: usize)
    requires
        at < steps@.len(),
    ensures
        r == following(step_views(steps@), at as int, done, failure),
        at < r <= steps@.len(),
{
    let ghost all = step_views(steps@);
    let count: usize = steps.len();
    if done {
        return at + 1;
    }
    match failure {
        Failure::Ends => count,
        Failure::NeedsDirectory => match &steps[at] {
            FileStep::CreateDir { .. } => count,
            _ => at + 1,
        },
        Failure::SkipsBelow => match &steps[at] {
            FileStep::CreateDir { path } => {
                let lead = util::join_path(path.as_str(), "");
                proof {
                    reveal_strlit("");
                    assert(""@ =~= Seq::empty());
                }
                let mut i: usize = at + 1;
                while i < count && text::begins(target_of(&steps[i]), lead.as_str())
                    invariant
                        at < i <= count,
                        count == steps@.len(),
                        all == step_views(steps@),
                        lead@ == util::joined(path@, Seq::empty()),
                        first_outside(all, at + 1, path@) == first_outside(all, i as int, path@),
                    decreases count - i,
                {
                    proof {
                        assert(all[i as int] == steps@[i as int]@);
                    }
                    i += 1;
                }
                proof {
                    if i < steps@.len() {
                        assert(all[i as int] == steps@[i as int]@);
                    }
                }
                i
            },
            _ => at + 1,
        },
    }
}

proof fn lemma_first_outside(steps: Seq<StepView>, at: int, dir: Seq<char>, k: int)
    requires
        0 <= at <= k < first_outside(steps, at, dir),
    ensures
        k < steps.len(),
        lies_below(target(steps[k]), dir),
    decreases steps.len() - at,
{
    if at < k {
        lemma_first_outside(steps, at + 1, dir, k);
    }
}

/// Where a copy goes on after a directory that could not be made, every step that is
/// left out would have put something into that directory.
pub proof fn law_only_what_lies_below_is_left_out(steps: Seq<StepView>, at: int, k: int)
    requires
        0 <= at < steps.len(),
        at < k < following(steps, at, false, Failure::SkipsBelow),
    ensures
        steps[at] is CreateDir,
        k < steps.len(),
        lies_below(target(steps[k]), target(steps[at])),
{
    lemma_first_outside(steps, at + 1, target(steps[at]), k);
}

// ---------------------------------------------------------------------------
// What holds of the steps.

/// Which of the sample data is put in place: the configuration and the scripts, each
/// where the samples have it and the user does not, into a directory that is made
/// first, and nothing else.
pub proof fn law_which_samples_are_copied(probe: SampleProbe, dir: String, res: String)
    requires
        probe.user_dir == Some(dir),
        probe.resource_dir == Some(res),
    ensures
        ({
            let steps = seed_steps(probe);
            let sample = util::joined(res@, "sample"@);
            let config = StepView::CopyFile {
                from: util::joined(sample, "hook.conf.toml"@),
                to: util::joined(dir@, "hook.conf.toml"@),
            };
            let inject = StepView::CopyTree {
                from: util::joined(sample, "inject"@),
                to: util::joined(dir@, "inject"@),
            };
            &&& steps.len() > 0
            &&& steps[0] == (StepView::CreateDir { path: dir@ })
            &&& steps.contains(config) <==> probe.has_sample && probe.has_sample_config && !probe.has_config
            &&& steps.contains(inject) <==> probe.has_sample && probe.has_sample_inject && !probe.has_inject
            &&& steps.no_duplicates()
            &&& forall|i: int| 0 < i < steps.len() ==> #[trigger] steps[i] == config || steps[i] == inject
        }),
{
    let steps = seed_steps(probe);
    let sample = util::joined(res@, "sample"@);
    let config = StepView::CopyFile {
        from: util::joined(sample, "hook.conf.toml"@),
        to: util::joined(dir@, "hook.conf.toml"@),
    };
    let inject = StepView::CopyTree { from: util::joined(sample, "inject"@), to: util::joined(dir@, "inject"@) };
    if probe.has_sample && probe.has_sample_config && !probe.has_config {
        assert(steps[1] == config);
    }
    if probe.has_sample && probe.has_sample_inject && !probe.has_inject {
        assert(steps[steps.len() - 1] == inject);
    }
}

/// Without a data directory nothing is put in place, and without the resources only
/// the directory is made.
pub proof fn law_nothing_to_copy_from(probe: SampleProbe)
    ensures
        probe.user_dir is None ==> seed_steps(probe).len() == 0,
        probe.user_dir matches Some(dir) ==> probe.resource_dir is None || !probe.has_sample ==> seed_steps(probe)
            == seq![StepView::CreateDir { path: dir@ }],
{
}

/// Every place in a tree counts, in order: a directory is made, a file is copied
/// unless it is to be kept where it is, and nothing else is.
pub proof fn law_every_place_counts(
    a: Seq<TreeEntry>,
    b: Seq<TreeEntry>,
    entry: TreeEntry,
    from: Seq<char>,
    to: Seq<char>,
    keep: bool,
)
    ensures
        entry_steps(a + b, from, to, keep) == entry_steps(a, from, to, keep) + entry_steps(b, from, to, keep),
        entry.kind is Dir ==> entry_steps(seq![entry], from, to, keep) == seq![
            StepView::CreateDir { path: util::joined(to, entry.path@) },
        ],
        entry.kind is File && !(keep && entry.taken) ==> entry_steps(seq![entry], from, to, keep) == seq![
            StepView::CopyFile {
                from: util::joined(from, entry.path@),
                to: util::joined(to, entry.path@),
            },
        ],
        entry.kind is File && keep && entry.taken ==> entry_steps(seq![entry], from, to, keep).len() == 0,
        entry.kind is Other ==> entry_steps(seq![entry], from, to, keep).len() == 0,
    decreases b.len(),
{
    if b.len() == 0 {
        assert(a + b =~= a);
        assert(entry_steps(a, from, to, keep) + entry_steps(b, from, to, keep) =~= entry_steps(a, from, to, keep));
    } else {
        law_every_place_counts(a, b.drop_last(), entry, from, to, keep);
        assert((a + b).drop_last() =~= a + b.drop_last());
        assert((a + b).last() == b.last());
        assert(entry_steps(a + b, from, to, keep) =~= entry_steps(a, from, to, keep) + entry_steps(b, from, to, keep));
    }
    reveal_with_fuel(entry_steps, 2);
    assert(seq![entry].drop_last() =~= Seq::empty());
    assert(seq![entry].last() == entry);
    if entry_step(entry, from, to, keep) is Some {
        assert(entry_steps(seq![entry], from, to, keep) =~= seq![entry_step(entry, from, to, keep)->0]);
    }
}

/// The number of copied files is that of the steps that copy one.
pub proof fn law_copied_files_are_counted(steps: Seq<StepView>)
    ensures
        copied_files(steps) == steps.filter(|s: StepView| s is CopyFile).len(),
    decreases steps.len(),
{
    reveal(Seq::filter);
    if steps.len() > 0 {
        law_copied_files_are_counted(steps.drop_last());
    }
}

/// What lies below a directory begins with it and a slash.
pub proof fn law_what_lies_below_a_directory(dir: Seq<char>, rest: Seq<char>, path: Seq<char>)
    requires
        dir.len() > 0,
        dir.last() != '/',
    ensures
        lies_below(dir + "/"@ + rest, dir),
        lies_below(path, dir) ==> exists|tail: Seq<char>| path == #[trigger] (dir + "/"@ + tail),
{
    reveal_strlit("/");
    let lead = util::joined(dir, Seq::empty());
    assert(lead =~= dir + "/"@);
    assert((dir + "/"@ + rest).take(lead.len() as int) =~= lead);
    if lies_below(path, dir) {
        assert(path =~= dir + "/"@ + path.skip(lead.len() as int));
    }
}

/// How a plan goes on: with the next step where one was done; otherwise as the plan
/// takes failures.
pub proof fn law_how_a_plan_goes_on(steps: Seq<StepView>, at: int, failure: Failure)
    requires
        0 <= at < steps.len(),
    ensures
        following(steps, at, true, failure) == at + 1,
        following(steps, at, false, Failure::Ends) == steps.len(),
        steps[at] is CreateDir ==> following(steps, at, false, Failure::NeedsDirectory) == steps.len(),
        !(steps[at] is CreateDir) ==> following(steps, at, false, Failure::NeedsDirectory) == at + 1,
        !(steps[at] is CreateDir) ==> following(steps, at, false, Failure::SkipsBelow) == at + 1,
        steps[at] matches StepView::CreateDir { path } ==> ({
            let next = following(steps, at, false, Failure::SkipsBelow);
            &&& at < next <= steps.len()
            &&& next < steps.len() ==> !lies_below(target(steps[next]), path)
        }),
{
    if let StepView::CreateDir { path } = steps[at] {
        lemma_outside(steps, at + 1, path);
    }
}

proof fn lemma_outside(steps: Seq<StepView>, at: int, dir: Seq<char>)
    requires
        0 <= at <= steps.len(),
    ensures
        at <= first_outside(steps, at, dir) <= steps.len(),
        first_outside(steps, at, dir) < steps.len() ==> !lies_below(
            target(steps[first_outside(steps, at, dir)]),
            dir,
        ),
    decreases steps.len() - at,
{
    if at < steps.len() && lies_below(target(steps[at]), dir) {
        lemma_outside(steps, at + 1, dir);
    }
}

/// Where each step puts something.
pub proof fn law_where_steps_put_things(from: Seq<char>, to: Seq<char>)
    ensures
        target(StepView::CreateDir { path: to }) == to,
        target(StepView::CopyFile { from, to }) == to,
        target(StepView::CopyTree { from, to }) == to,
        target(StepView::WriteMarker { path: to }) == to,
{
}

} // verus!
