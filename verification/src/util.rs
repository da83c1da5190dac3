//! Where the files of the program lie, and paths.
//!
//! A path is a text in which slashes stand between the names; the program hands
//! over the paths of a platform with another separator with slashes. Where drives
//! and shares matter, a path is the list of its [`PathComponent`]s, as the platform
//! tells them apart.
use vstd::prelude::*;
use crate::text;

verus! {

/// The path `leaf` taken relative to `base`: an absolute `leaf` stands for
/// itself, any other is set behind `base` with one slash between them.
pub open spec fn joined(base: Seq<char>, leaf: Seq<char>) -> Seq<char> {
    if leaf.len() > 0 && leaf[0] == '/' {
        leaf
    } else if base.len() == 0 || base.last() == '/' {
        base + leaf
    } else {
        base.push('/') + leaf
    }
}

/// The path `leaf` taken relative to `base`.
pub fn join_path(base: &str, leaf: &str) -> (r: String)
    ensures
        r@ == joined(base@, leaf@),
{
    let b = text::chars_of(base);
    let l = text::chars_of(leaf);
    if l.len() > 0 && l[0] == '/' {
        return leaf.to_owned();
    }
    let mut out: String = base.to_owned();
    if b.len() > 0 && b[b.len() - 1] != '/' {
        out.push('/');
    }
    out.append(leaf);
    proof {
        assert(out@ =~= joined(base@, leaf@));
    }
    out
}

// ---------------------------------------------------------------------------
// Windows.

/// The width of a window for which nothing else is said, in logical pixels.
pub const DEFAULT_WINDOW_WIDTH: u32 = 1280;

/// The height of a window for which nothing else is said, in logical pixels.
pub const DEFAULT_WINDOW_HEIGHT: u32 = 960;

// ---------------------------------------------------------------------------
// The data of the user.

/// What lies in the data directory.
#[derive(Debug, Clone, Copy, PartialEq, Eq, Structural)]
pub enum UserDataKind {
    /// The directory of the scripts.
    Inject,
    /// The directory of the cache.
    Overrides,
    /// The configuration file.
    Config,
}

impl UserDataKind {
    /// The name in the data directory.
    pub open spec fn file_name(self) -> Seq<char> {
        match self {
            UserDataKind::Inject => "inject"@,
            UserDataKind::Overrides => "overrides"@,
            UserDataKind::Config => "hook.conf.toml"@,
        }
    }

    /// The name in the data directory.
    pub fn name(self) -> (r: &'static str)
        ensures
            r@ == self.file_name(),
    {
        match self {
            UserDataKind::Inject => "inject",
            UserDataKind::Overrides => "overrides",
            UserDataKind::Config => "hook.conf.toml",
        }
    }
}

/// The directories from which the data directory is chosen.
pub struct DataRoots {
    /// The directory of the sources, in a development build.
    pub dev: Option<String>,
    /// The program's own directory below what the platform has for such data.
    pub platform: Option<String>,
    /// The directory of the executable.
    pub exe: Option<String>,
}

impl DataRoots {
    /// The data directory: in a development build the parent of the sources, else
    /// what the platform has for it, else the directory of the executable.
    pub open spec fn data_root(&self) -> Option<Seq<char>> {
        match self.dev {
            Some(dev) => Some(joined(dev@, ".."@)),
            None => match self.platform {
                Some(root) => Some(root@),
                None => text::opt(self.exe),
            },
        }
    }
}

/// The data directory.
pub fn data_root(roots: &DataRoots) -> (r: Option<String>)
    ensures
        text::opt(r) == roots.data_root(),
{
    if let Some(dev) = &roots.dev {
        return Some(join_path(dev.as_str(), ".."));
    }
    if let Some(root) = &roots.platform {
        return Some(root.clone());
    }
    text::copy_opt(&roots.exe)
}

/// The path of something in the data directory. Nothing need lie there.
pub fn user_data_path(kind: UserDataKind, roots: &DataRoots) -> (r: Option<String>)
    ensures
        text::opt(r) == match roots.data_root() {
            Some(root) => Some(joined(root, kind.file_name())),
            None => None,
        },
{
    match data_root(roots) {
        Some(root) => Some(join_path(root.as_str(), kind.name())),
        None => None,
    }
}

/// The path of a directory in the data directory.
pub fn user_data_dir(kind: UserDataKind, roots: &DataRoots) -> (r: Option<String>)
    ensures
        text::opt(r) == match roots.data_root() {
            Some(root) => Some(joined(root, kind.file_name())),
            None => None,
        },
{
    user_data_path(kind, roots)
}

/// The program's own directory on macOS, given the home directory.
pub fn macos_app_support_dir(home: Option<&str>) -> (r: Option<String>)
    ensures
        text::opt(r) == match home {
            Some(h) => Some(
                joined(joined(joined(h@, "Library"@), "Application Support"@), "Pouch"@),
            ),
            None => None,
        },
{
    match home {
        Some(h) => {
            let library = join_path(h, "Library");
            let support = join_path(library.as_str(), "Application Support");
            Some(join_path(support.as_str(), "Pouch"))
        },
        None => None,
    }
}

/// The program's own directory on Windows, given the directory for application
/// data.
pub fn windows_appdata_dir(appdata: Option<&str>) -> (r: Option<String>)
    ensures
        text::opt(r) == match appdata {
            Some(a) => Some(joined(a@, "Pouch"@)),
            None => None,
        },
{
    match appdata {
        Some(a) => Some(join_path(a, "Pouch")),
        None => None,
    }
}

// ---------------------------------------------------------------------------
// Paths without `.` and `..`.

/// A component of a path.
#[derive(Debug)]
pub enum PathComponent {
    /// A drive or a share.
    Prefix(String),
    /// The root.
    RootDir,
    /// `.`
    CurDir,
    /// `..`
    ParentDir,
    /// A name.
    Normal(String),
}

/// The model of [`PathComponent`].
pub enum Part {
    Prefix(Seq<char>),
    RootDir,
    CurDir,
    ParentDir,
    Normal(Seq<char>),
}

impl View for PathComponent {
    type V = Part;

    open spec fn view(&self) -> Part {
        match self {
            PathComponent::Prefix(p) => Part::Prefix(p@),
            PathComponent::RootDir => Part::RootDir,
            PathComponent::CurDir => Part::CurDir,
            PathComponent::ParentDir => Part::ParentDir,
            PathComponent::Normal(n) => Part::Normal(n@),
        }
    }
}

/// The models of a list of components.
pub open spec fn parts(components: Seq<PathComponent>) -> Seq<Part> {
    Seq::new(components.len(), |i: int| components[i]@)
}

/// Whether a part ties a path to a place: a prefix or the root.
pub open spec fn is_anchor(p: Part) -> bool {
    p is Prefix || p is RootDir
}

/// Whether anchors stand only at the beginning, as they do in every path.
pub open spec fn anchors_first(path: Seq<Part>) -> bool {
    forall|i: int, j: int|
        0 <= i < j < path.len() && is_anchor(#[trigger] path[j]) ==> is_anchor(#[trigger] path[i])
}

/// Whether a path is tied to a place.
pub open spec fn is_anchored(path: Seq<Part>) -> bool {
    exists|i: int| 0 <= i < path.len() && is_anchor(#[trigger] path[i])
}

/// A path without `.`, in which every `..` has taken away the name before it. One
/// with no name before it stays in a path that is tied to no place, and goes in
/// one that is: the root is its own parent.
pub open spec fn normal_form(path: Seq<Part>) -> Seq<Part>
    decreases path.len(),
{
    if path.len() == 0 {
        Seq::empty()
    } else {
        let rest = normal_form(path.drop_last());
        match path.last() {
            Part::CurDir => rest,
            Part::ParentDir => if rest.len() > 0 && rest.last() is Normal {
                rest.drop_last()
            } else if is_anchored(path) {
                rest
            } else {
                rest.push(Part::ParentDir)
            },
            part => rest.push(part),
        }
    }
}

/// Whether a path is in normal form: no `.`, and no `..` but at the beginning of
/// a path that is tied to no place.
pub open spec fn is_normal(path: Seq<Part>) -> bool {
    &&& anchors_first(path)
    &&& forall|i: int| 0 <= i < path.len() ==> !((#[trigger] path[i]) is CurDir)
    &&& forall|i: int, j: int|
        0 <= i <= j < path.len() && (#[trigger] path[j]) is ParentDir ==> (#[trigger] path[i]) is ParentDir
}

proof fn lemma_anchored(path: Seq<Part>)
    requires
        path.len() > 0,
        anchors_first(path),
    ensures
        anchors_first(path.drop_last()),
        is_anchored(path) <==> is_anchor(path[0]),
        path.len() > 1 ==> (is_anchored(path.drop_last()) <==> is_anchored(path)),
{
    let rest = path.drop_last();
    assert forall|i: int, j: int| 0 <= i < j < rest.len() && is_anchor(#[trigger] rest[j]) implies is_anchor(
        #[trigger] rest[i],
    ) by {
        assert(is_anchor(path[j]));
        assert(is_anchor(path[i]));
    }
    if is_anchored(path) {
        let i = choose|i: int| 0 <= i < path.len() && is_anchor(#[trigger] path[i]);
        if i > 0 {
            assert(is_anchor(path[0]));
        }
    }
    if path.len() > 1 {
        if is_anchor(path[0]) {
            assert(is_anchor(rest[0]));
        }
        if is_anchored(rest) {
            let i = choose|i: int| 0 <= i < rest.len() && is_anchor(#[trigger] rest[i]);
            assert(is_anchor(path[i]));
        }
    }
}

proof fn lemma_normal_form(path: Seq<Part>)
    requires
        anchors_first(path),
    ensures
        is_normal(normal_form(path)),
        is_anchored(normal_form(path)) <==> is_anchored(path),
        is_anchored(path) ==> normal_form(path).len() > 0 && is_anchor(normal_form(path)[0]),
        is_anchored(path) ==> forall|i: int|
            0 <= i < normal_form(path).len() ==> !((#[trigger] normal_form(path)[i]) is ParentDir),
        path.len() > 0 && is_anchor(path.last()) ==> normal_form(path) == path,
    decreases path.len(),
{
    if path.len() > 0 {
        lemma_anchored(path);
        let rest = path.drop_last();
        let r = normal_form(rest);
        let n = normal_form(path);
        lemma_normal_form(rest);
        match path.last() {
            Part::CurDir => {
                assert(is_anchored(path) <==> is_anchored(rest)) by {
                    if is_anchored(path) {
                        assert(path.len() > 1);
                    }
                    if is_anchored(rest) {
                        let i = choose|i: int| 0 <= i < rest.len() && is_anchor(#[trigger] rest[i]);
                        assert(is_anchor(path[i]));
                    }
                }
            },
            Part::ParentDir => {
                assert(is_anchored(path) <==> is_anchored(rest)) by {
                    if is_anchored(path) {
                        assert(path.len() > 1);
                    }
                    if is_anchored(rest) {
                        let i = choose|i: int| 0 <= i < rest.len() && is_anchor(#[trigger] rest[i]);
                        assert(is_anchor(path[i]));
                    }
                }
                if r.len() > 0 && r.last() is Normal {
                    lemma_shorter_is_normal(r);
                    if is_anchored(path) {
                        lemma_anchored(n);
                    }
                } else if !is_anchored(path) {
                    assert forall|i: int| 0 <= i < r.len() implies (#[trigger] r[i]) is ParentDir by {
                        let l = r[r.len() - 1];
                        assert(!(l is CurDir));
                        assert(!is_anchor(l)) by {
                            if is_anchor(l) {
                                assert(is_anchored(r));
                            }
                        }
                        assert(l is ParentDir);
                        assert(r[i] is ParentDir);
                    }
                    assert forall|i: int, j: int| 0 <= i <= j < n.len() && (#[trigger] n[j]) is ParentDir implies (
                    #[trigger] n[i]) is ParentDir by {
                        if i < r.len() {
                            assert(n[i] == r[i]);
                        }
                    }
                    assert(anchors_first(n)) by {
                        assert forall|j: int| 0 <= j < n.len() implies !is_anchor(#[trigger] n[j]) by {
                            if j < r.len() {
                                assert(n[j] == r[j]);
                            }
                        }
                    }
                    assert(!is_anchored(n)) by {
                        assert forall|j: int| 0 <= j < n.len() implies !is_anchor(#[trigger] n[j]) by {
                            if j < r.len() {
                                assert(n[j] == r[j]);
                            }
                        }
                    }
                }
            },
            Part::Normal(name) => {
                assert(is_anchored(path) <==> is_anchored(rest)) by {
                    if is_anchored(path) {
                        assert(path.len() > 1);
                    }
                    if is_anchored(rest) {
                        let i = choose|i: int| 0 <= i < rest.len() && is_anchor(#[trigger] rest[i]);
                        assert(is_anchor(path[i]));
                    }
                }
                lemma_push_is_normal(r, Part::Normal(name));
            },
            part => {
                assert(is_anchor(path[path.len() - 1]));
                assert forall|i: int| 0 <= i < rest.len() implies is_anchor(#[trigger] rest[i]) by {
                    assert(is_anchor(path[i]));
                }
                assert(r =~= rest) by {
                    if rest.len() > 0 {
                        assert(is_anchor(rest.last()));
                    }
                }
                assert(n =~= path);
                assert(is_anchor(n[0]));
            },
        }
    }
}

proof fn lemma_shorter_is_normal(r: Seq<Part>)
    requires
        is_normal(r),
        r.len() > 0,
        r.last() is Normal,
    ensures
        is_normal(r.drop_last()),
        is_anchored(r.drop_last()) <==> is_anchored(r),
{
    let s = r.drop_last();
    assert forall|i: int| 0 <= i < s.len() implies s[i] == r[i] by {}
    if is_anchored(r) {
        let i = choose|i: int| 0 <= i < r.len() && is_anchor(#[trigger] r[i]);
        assert(i < s.len());
        assert(is_anchor(s[i]));
    }
    if is_anchored(s) {
        let i = choose|i: int| 0 <= i < s.len() && is_anchor(#[trigger] s[i]);
        assert(is_anchor(r[i]));
    }
}

proof fn lemma_push_is_normal(r: Seq<Part>, part: Part)
    requires
        is_normal(r),
        part is Normal,
    ensures
        is_normal(r.push(part)),
        is_anchored(r.push(part)) <==> is_anchored(r),
{
    let s = r.push(part);
    assert forall|i: int| 0 <= i < r.len() implies s[i] == r[i] by {}
    if is_anchored(s) {
        let i = choose|i: int| 0 <= i < s.len() && is_anchor(#[trigger] s[i]);
        assert(is_anchor(r[i]));
    }
    if is_anchored(r) {
        let i = choose|i: int| 0 <= i < r.len() && is_anchor(#[trigger] r[i]);
        assert(is_anchor(s[i]));
    }
}

proof fn lemma_normal_form_of_normal(path: Seq<Part>)
    requires
        is_normal(path),
    ensures
        normal_form(path) == path,
    decreases path.len(),
{
    if path.len() > 0 {
        lemma_anchored(path);
        let rest = path.drop_last();
        assert(is_normal(rest)) by {
            assert forall|i: int| 0 <= i < rest.len() implies rest[i] == path[i] by {}
        }
        lemma_normal_form_of_normal(rest);
        assert(!(path[path.len() - 1] is CurDir));
        if path.last() is ParentDir {
            assert forall|i: int| 0 <= i < path.len() implies (#[trigger] path[i]) is ParentDir by {
                assert(path[path.len() - 1] is ParentDir);
            }
            assert(!is_anchored(path));
            if rest.len() > 0 {
                assert(path[rest.len() - 1] is ParentDir);
            }
        }
        assert(normal_form(path) =~= path);
    }
}

/// A normal form holds no `.`, and `..` only at the beginning of a path that is
/// tied to no place; a path that is tied to a place stays so.
pub proof fn law_normal_form_is_normal(path: Seq<Part>)
    requires
        anchors_first(path),
    ensures
        is_normal(normal_form(path)),
        is_anchored(normal_form(path)) <==> is_anchored(path),
        is_anchored(path) ==> forall|i: int|
            0 <= i < normal_form(path).len() ==> !((#[trigger] normal_form(path)[i]) is ParentDir),
{
    lemma_normal_form(path);
}

/// A normal form is its own normal form.
pub proof fn law_normal_form_is_stable(path: Seq<Part>)
    requires
        anchors_first(path),
    ensures
        normal_form(normal_form(path)) == normal_form(path),
{
    lemma_normal_form(path);
    lemma_normal_form_of_normal(normal_form(path));
}

/// Whether a path ends with a name.
fn ends_with_name(path: &Vec<PathComponent>) -> (r: bool)
    ensures
        r == (parts(path@).len() > 0 && parts(path@).last() is Normal),
{
    if path.len() == 0 {
        return false;
    }
    match &path[path.len() - 1] {
        PathComponent::Normal(_) => true,
        _ => false,
    }
}

/// Take `.` and `..` out of a path, without looking at any file.
pub fn normalize_components(path: Vec<PathComponent>) -> (r: Vec<PathComponent>)
    requires
        anchors_first(parts(path@)),
    ensures
        parts(r@) == normal_form(parts(path@)),
{
    let ghost all = parts(path@);
    let mut remaining: Vec<PathComponent> = path;
    let mut out: Vec<PathComponent> = Vec::new();
    let mut anchored: bool = false;
    proof {
        assert(all.take(0) =~= Seq::empty());
        assert(parts(out@) =~= normal_form(all.take(0)));
        assert(!is_anchored(all.take(0)));
        assert(all.skip(0) =~= all);
    }
    let ghost mut done: int = 0;
    while remaining.len() > 0
        invariant
            0 <= done <= all.len(),
            all.skip(done) == parts(remaining@),
            parts(out@) == normal_form(all.take(done)),
            anchored == is_anchored(all.take(done)),
        decreases remaining.len(),
    {
        let ghost left = remaining@;
        let component = remaining.remove(0);
        let ghost seen = all.take(done);
        let ghost now = all.take(done + 1);
        let ghost before = out@;
        proof {
            assert(all.skip(done).len() == parts(left).len());
            assert(all.skip(done)[0] == component@);
            assert(now.drop_last() =~= seen);
            assert(now.last() == component@);
            assert(all.skip(done + 1) =~= all.skip(done).skip(1));
            assert(parts(remaining@) =~= parts(left).skip(1));
            assert forall|i: int| 0 <= i < seen.len() implies seen[i] == now[i] by {}
            if is_anchored(seen) {
                let i = choose|i: int| 0 <= i < seen.len() && is_anchor(#[trigger] seen[i]);
                assert(is_anchor(now[i]));
            }
            if is_anchor(component@) {
                assert(is_anchor(now[done]));
            } else if is_anchored(now) {
                let i = choose|i: int| 0 <= i < now.len() && is_anchor(#[trigger] now[i]);
                assert(is_anchor(seen[i]));
            }
        }
        match component {
            PathComponent::CurDir => {},
            PathComponent::ParentDir => {
                if ends_with_name(&out) {
                    let _ = out.pop();
                    proof {
                        assert(parts(out@) =~= parts(before).drop_last());
                    }
                } else if !anchored {
                    out.push(PathComponent::ParentDir);
                    proof {
                        assert(parts(out@) =~= parts(before).push(Part::ParentDir));
                    }
                }
            },
            PathComponent::Normal(name) => {
                let ghost part = Part::Normal(name@);
                out.push(PathComponent::Normal(name));
                proof {
                    assert(parts(out@) =~= parts(before).push(part));
                }
            },
            anchor => {
                let ghost part = anchor@;
                out.push(anchor);
                anchored = true;
                proof {
                    assert(parts(out@) =~= parts(before).push(part));
                }
            },
        }
        proof {
            done = done + 1;
        }
    }
    proof {
        assert(all.skip(done).len() == 0);
        assert(all.take(done) =~= all);
    }
    out
}

/// The path `path` taken relative to `base`: one with a prefix stands for itself,
/// one that begins at the root does so behind the prefix of `base`, and any other
/// is set behind `base`.
pub open spec fn joined_parts(base: Seq<Part>, path: Seq<Part>) -> Seq<Part> {
    if path.len() > 0 && path[0] is Prefix {
        path
    } else if path.len() > 0 && path[0] is RootDir {
        if base.len() > 0 && base[0] is Prefix {
            seq![base[0]] + path
        } else {
            path
        }
    } else {
        base + path
    }
}

/// A path for the log: taken relative to the working directory, where it is known,
/// and without `.` and `..`; one without parts is `.`.
pub open spec fn pretty_parts(path: Seq<Part>, working_dir: Option<Seq<Part>>) -> Seq<Part> {
    let normal = normal_form(
        match working_dir {
            Some(dir) => joined_parts(dir, path),
            None => path,
        },
    );
    if normal.len() == 0 {
        seq![Part::CurDir]
    } else {
        normal
    }
}

/// The path `path` taken relative to `base`.
fn join_components(base: Vec<PathComponent>, path: Vec<PathComponent>) -> (r: Vec<PathComponent>)
    requires
        anchors_first(parts(base@)),
        anchors_first(parts(path@)),
    ensures
        parts(r@) == joined_parts(parts(base@), parts(path@)),
        anchors_first(parts(r@)),
{
    let ghost all_base = parts(base@);
    let ghost all_path = parts(path@);
    let mut base: Vec<PathComponent> = base;
    let mut path: Vec<PathComponent> = path;
    let anchor: Option<bool> = if path.len() == 0 {
        None
    } else {
        match &path[0] {
            PathComponent::Prefix(_) => Some(true),
            PathComponent::RootDir => Some(false),
            _ => None,
        }
    };
    match anchor {
        Some(true) => path,
        Some(false) => {
            if base.len() > 0 {
                let ghost first = base@[0]@;
                if let PathComponent::Prefix(prefix) = base.remove(0) {
                    path.insert(0, PathComponent::Prefix(prefix));
                    proof {
                        let p = parts(path@);
                        assert(p =~= seq![first] + all_path);
                        assert forall|i: int, j: int| 0 <= i < j < p.len() && is_anchor(#[trigger] p[j]) implies is_anchor(
                            #[trigger] p[i],
                        ) by {
                            if i > 0 {
                                assert(is_anchor(all_path[j - 1]));
                                assert(is_anchor(all_path[i - 1]));
                            }
                        }
                    }
                }
            }
            path
        },
        None => {
            base.append(&mut path);
            proof {
                let p = parts(base@);
                assert(p =~= all_base + all_path);
                assert forall|i: int, j: int| 0 <= i < j < p.len() && is_anchor(#[trigger] p[j]) implies is_anchor(
                    #[trigger] p[i],
                ) by {
                    if j < all_base.len() {
                        assert(is_anchor(all_base[j]));
                        assert(is_anchor(all_base[i]));
                    } else {
                        let k = j - all_base.len();
                        assert(is_anchor(all_path[k]));
                        assert(is_anchor(all_path[0]));
                    }
                }
            }
            base
        },
    }
}

/// A path for the log: taken relative to the working directory, where it is known,
/// and without `.` and `..`.
pub fn pretty_components(path: Vec<PathComponent>, working_dir: Option<Vec<PathComponent>>) -> (r: Vec<PathComponent>)
    requires
        anchors_first(parts(path@)),
        working_dir matches Some(dir) ==> anchors_first(parts(dir@)),
    ensures
        parts(r@) == pretty_parts(
            parts(path@),
            match working_dir {
                Some(dir) => Some(parts(dir@)),
                None => None,
            },
        ),
{
    let whole = match working_dir {
        Some(dir) => join_components(dir, path),
        None => path,
    };
    let mut normal = normalize_components(whole);
    if normal.len() == 0 {
        normal.push(PathComponent::CurDir);
        proof {
            assert(parts(normal@) =~= seq![Part::CurDir]);
        }
    }
    normal
}

/// Whether two components are the same.
fn same_component(a: &PathComponent, b: &PathComponent) -> (r: bool)
    ensures
        r == (a@ == b@),
{
    match (a, b) {
        (PathComponent::Prefix(x), PathComponent::Prefix(y)) => text::same(x.as_str(), y.as_str()),
        (PathComponent::Normal(x), PathComponent::Normal(y)) => text::same(x.as_str(), y.as_str()),
        (PathComponent::RootDir, PathComponent::RootDir) => true,
        (PathComponent::CurDir, PathComponent::CurDir) => true,
        (PathComponent::ParentDir, PathComponent::ParentDir) => true,
        _ => false,
    }
}

/// Whether two paths have the same components.
pub fn same_components(a: &Vec<PathComponent>, b: &Vec<PathComponent>) -> (r: bool)
    ensures
        r == (parts(a@) == parts(b@)),
{
    if a.len() != b.len() {
        proof {
            assert(parts(a@).len() != parts(b@).len());
        }
        return false;
    }
    let mut i: usize = 0;
    while i < a.len()
        invariant
            i <= a.len(),
            a@.len() == b@.len(),
            forall|k: int| 0 <= k < i ==> parts(a@)[k] == parts(b@)[k],
        decreases a.len() - i,
    {
        if !same_component(&a[i], &b[i]) {
            proof {
                assert(parts(a@)[i as int] != parts(b@)[i as int]);
            }
            return false;
        }
        i += 1;
    }
    proof {
        assert(parts(a@) =~= parts(b@));
    }
    true
}

// ---------------------------------------------------------------------------
// Path text with slashes.

/// The part that stands between two slashes, where something does.
pub open spec fn piece_part(piece: Seq<char>) -> Option<Part> {
    if piece.len() == 0 {
        None
    } else if piece == "."@ {
        Some(Part::CurDir)
    } else if piece == ".."@ {
        Some(Part::ParentDir)
    } else {
        Some(Part::Normal(piece))
    }
}

/// The parts between the slashes.
pub open spec fn pieces_parts(pieces: Seq<Seq<char>>) -> Seq<Part>
    decreases pieces.len(),
{
    if pieces.len() == 0 {
        Seq::empty()
    } else {
        match piece_part(pieces.last()) {
            Some(part) => pieces_parts(pieces.drop_last()).push(part),
            None => pieces_parts(pieces.drop_last()),
        }
    }
}

/// The parts of a path: the root where it begins with a slash, and what stands
/// between the slashes.
pub open spec fn path_parts(s: Seq<char>) -> Seq<Part> {
    if s.len() > 0 && s[0] == '/' {
        seq![Part::RootDir] + pieces_parts(text::split(s, '/'))
    } else {
        pieces_parts(text::split(s, '/'))
    }
}

/// How a part is written.
pub open spec fn part_text(p: Part) -> Seq<char> {
    match p {
        Part::Prefix(prefix) => prefix,
        Part::RootDir => Seq::empty(),
        Part::CurDir => "."@,
        Part::ParentDir => ".."@,
        Part::Normal(name) => name,
    }
}

/// How the parts of a path are written.
pub open spec fn part_texts(path: Seq<Part>) -> Seq<Seq<char>> {
    Seq::new(path.len(), |i: int| part_text(path[i]))
}

/// How a path is written; one without parts is `.`.
pub open spec fn path_text(path: Seq<Part>) -> Seq<char> {
    if path.len() == 0 {
        "."@
    } else if path[0] is RootDir {
        "/"@ + text::join(part_texts(path.skip(1)), "/"@)
    } else {
        text::join(part_texts(path), "/"@)
    }
}

proof fn lemma_pieces_have_no_anchor(pieces: Seq<Seq<char>>)
    ensures
        forall|i: int| 0 <= i < pieces_parts(pieces).len() ==> !is_anchor(#[trigger] pieces_parts(pieces)[i]),
    decreases pieces.len(),
{
    if pieces.len() > 0 {
        let rest = pieces_parts(pieces.drop_last());
        lemma_pieces_have_no_anchor(pieces.drop_last());
        assert forall|i: int| 0 <= i < pieces_parts(pieces).len() implies !is_anchor(
            #[trigger] pieces_parts(pieces)[i],
        ) by {
            if i < rest.len() {
                assert(pieces_parts(pieces)[i] == rest[i]);
            }
        }
    }
}

// ---------------------------------------------------------------------------
// What is written of a normal path reads back as that path.

/// Whether a part reads back from how it is written: a name is not empty, holds no
/// slash and is neither `.` nor `..`.
spec fn reads_back(p: Part) -> bool {
    match p {
        Part::Prefix(_) => false,
        Part::Normal(name) => name.len() > 0 && !name.contains('/') && name != "."@ && name != ".."@,
        _ => true,
    }
}

/// Whether all parts read back, and the root stands only at the beginning.
spec fn is_written_path(path: Seq<Part>) -> bool {
    forall|i: int| 0 <= i < path.len() ==> reads_back(#[trigger] path[i]) && (i > 0 ==> !(path[i] is RootDir))
}

/// Whether a path begins at the root.
spec fn begins_at_root(path: Seq<Part>) -> bool {
    path.len() > 0 && path[0] is RootDir
}

proof fn lemma_pieces_read_back(pieces: Seq<Seq<char>>)
    requires
        forall|i: int| 0 <= i < pieces.len() ==> !(#[trigger] pieces[i]).contains('/'),
    ensures
        forall|i: int|
            0 <= i < pieces_parts(pieces).len() ==> reads_back(#[trigger] pieces_parts(pieces)[i]) && !(
            pieces_parts(pieces)[i] is RootDir),
    decreases pieces.len(),
{
    if pieces.len() > 0 {
        let fewer = pieces.drop_last();
        let rest = pieces_parts(fewer);
        assert forall|i: int| 0 <= i < fewer.len() implies !(#[trigger] fewer[i]).contains('/') by {
            assert(fewer[i] == pieces[i]);
        }
        lemma_pieces_read_back(fewer);
        let all = pieces_parts(pieces);
        assert forall|i: int| 0 <= i < all.len() implies reads_back(#[trigger] all[i]) && !(all[i] is RootDir) by {
            if i < rest.len() {
                assert(all[i] == rest[i]);
            } else {
                assert(!pieces[pieces.len() - 1].contains('/'));
            }
        }
    }
}

proof fn lemma_path_parts_are_written(s: Seq<char>)
    ensures
        is_written_path(path_parts(s)),
        anchors_first(path_parts(s)),
        begins_at_root(path_parts(s)) <==> s.len() > 0 && s[0] == '/',
{
    let pieces = text::split(s, '/');
    let p = path_parts(s);
    text::lemma_split_pieces(s, '/');
    lemma_pieces_read_back(pieces);
    lemma_pieces_have_no_anchor(pieces);
    if s.len() > 0 && s[0] == '/' {
        assert forall|i: int| 0 < i < p.len() implies p[i] == pieces_parts(pieces)[i - 1] by {}
    }
}

proof fn lemma_normal_form_is_written(path: Seq<Part>)
    requires
        is_written_path(path),
    ensures
        is_written_path(normal_form(path)),
        begins_at_root(normal_form(path)) <==> begins_at_root(path),
    decreases path.len(),
{
    if path.len() > 0 {
        let rest = path.drop_last();
        let r = normal_form(rest);
        let n = normal_form(path);
        assert forall|i: int| 0 <= i < rest.len() implies reads_back(#[trigger] rest[i]) && (i > 0 ==> !(
        rest[i] is RootDir)) by {
            assert(rest[i] == path[i]);
        }
        lemma_normal_form_is_written(rest);
        assert(reads_back(path[path.len() - 1]));
        if rest.len() > 0 {
            assert(rest[0] == path[0]);
        }
        assert forall|i: int| 0 <= i < n.len() implies reads_back(#[trigger] n[i]) && (i > 0 ==> !(
        n[i] is RootDir)) by {
            if i < r.len() {
                assert(n[i] == r[i]);
            }
        }
        if begins_at_root(path) && path.len() > 1 {
            assert(r[0] is RootDir);
            assert(n.len() > 0 && n[0] == r[0]);
        }
        if n.len() > 0 && r.len() > 0 {
            assert(n[0] == r[0]);
        }
    }
}

proof fn lemma_texts_read_back(path: Seq<Part>)
    requires
        forall|i: int|
            0 <= i < path.len() ==> reads_back(#[trigger] path[i]) && !(path[i] is RootDir),
    ensures
        pieces_parts(part_texts(path)) == path,
        forall|i: int|
            0 <= i < path.len() ==> (#[trigger] part_texts(path)[i]).len() > 0 && !part_texts(path)[i].contains('/'),
    decreases path.len(),
{
    reveal_strlit(".");
    reveal_strlit("..");
    assert("."@[0] == '.' && ".."@[0] == '.' && ".."@[1] == '.');
    assert("."@.len() != ".."@.len());
    if path.len() > 0 {
        let rest = path.drop_last();
        let last = path.last();
        assert(last == path[path.len() - 1]);
        assert forall|i: int| 0 <= i < rest.len() implies reads_back(#[trigger] rest[i]) && !(
        rest[i] is RootDir) by {
            assert(rest[i] == path[i]);
        }
        lemma_texts_read_back(rest);
        assert(part_texts(path).drop_last() =~= part_texts(rest));
        assert(part_texts(path).last() == part_text(last));
        assert(piece_part(part_text(last)) == Some(last));
        assert(pieces_parts(part_texts(path)) =~= path);
        assert forall|i: int| 0 <= i < path.len() implies (#[trigger] part_texts(path)[i]).len() > 0
            && !part_texts(path)[i].contains('/') by {
            if i < rest.len() {
                assert(part_texts(path)[i] == part_texts(rest)[i]);
            }
        }
    }
}

proof fn lemma_empty_piece_in_front(pieces: Seq<Seq<char>>)
    ensures
        pieces_parts(seq![Seq::<char>::empty()] + pieces) == pieces_parts(pieces),
    decreases pieces.len(),
{
    let all = seq![Seq::<char>::empty()] + pieces;
    reveal_with_fuel(pieces_parts, 2);
    if pieces.len() == 0 {
        assert(all.drop_last() =~= Seq::empty());
        assert(all.last() == Seq::<char>::empty());
    } else {
        lemma_empty_piece_in_front(pieces.drop_last());
        assert(all.drop_last() =~= seq![Seq::<char>::empty()] + pieces.drop_last());
        assert(all.last() == pieces.last());
    }
}

/// A normal path that is written down and read again is the same path, and it is
/// written from the root or not as its parts are.
proof fn lemma_text_of_normal_path(n: Seq<Part>)
    requires
        is_normal(n),
        is_written_path(n),
        n.len() > 0,
    ensures
        path_parts(path_text(n)) == n,
        path_text(n).len() > 0,
        path_text(n)[0] == '/' <==> begins_at_root(n),
{
    reveal_strlit("/");
    let slash = "/"@;
    assert(slash =~= seq!['/']);
    let t = path_text(n);
    let names = if n[0] is RootDir {
        n.skip(1)
    } else {
        n
    };
    assert forall|i: int| 0 <= i < names.len() implies reads_back(#[trigger] names[i]) && !(
    names[i] is RootDir) by {
        if n[0] is RootDir {
            assert(names[i] == n[i + 1]);
        }
    }
    lemma_texts_read_back(names);
    let written = text::join(part_texts(names), slash);
    if names.len() > 0 {
        text::lemma_split_join(part_texts(names), '/');
        text::lemma_join_begins(part_texts(names), slash);
        assert(part_texts(names)[0].len() > 0);
        assert(part_texts(names)[0].contains(part_texts(names)[0][0]));
    }
    if n[0] is RootDir {
        assert(t[0] == '/');
        assert(text::first_index(t, '/') == 0);
        assert(t.skip(1) =~= written);
        assert(t.take(0) =~= Seq::empty());
        let pieces = text::split(written, '/');
        assert(text::split(t, '/') == seq![Seq::<char>::empty()] + pieces);
        lemma_empty_piece_in_front(pieces);
        if names.len() == 0 {
            assert(pieces =~= seq![Seq::<char>::empty()]);
            lemma_empty_piece_in_front(Seq::empty());
            assert(pieces =~= seq![Seq::<char>::empty()] + Seq::<Seq<char>>::empty());
        }
        assert(path_parts(t) =~= n);
    }
}

/// Writing a path without `.` and `..` and doing so again changes nothing. The
/// result is never empty, begins at the root where the path does, and is `.` or has
/// no `.` in it; `..` stands in it only at the front, and not behind the root.
pub proof fn law_normal_path_is_stable(path: Seq<char>)
    ensures
        ({
            let r = path_text(normal_form(path_parts(path)));
            let rooted = path.len() > 0 && path[0] == '/';
            &&& normal_form(path_parts(r)) == normal_form(path_parts(path))
            &&& path_text(normal_form(path_parts(r))) == r
            &&& r.len() > 0
            &&& r[0] == '/' <==> rooted
            &&& r != "."@ ==> is_normal(path_parts(r))
            &&& forall|i: int|
                rooted && 0 <= i < path_parts(r).len() ==> !((#[trigger] path_parts(r)[i]) is ParentDir)
        }),
{
    let p = path_parts(path);
    let n = normal_form(p);
    let r = path_text(n);
    lemma_path_parts_are_written(path);
    lemma_normal_form_is_written(p);
    lemma_normal_form(p);
    reveal_strlit(".");
    if n.len() == 0 {
        reveal_with_fuel(pieces_parts, 2);
        reveal_with_fuel(normal_form, 2);
        assert(r == "."@ && r[0] == '.' && r.len() == 1);
        text::lemma_first_index(r, '/');
        assert(text::split(r, '/') =~= seq![r]);
        assert(seq![r].drop_last() =~= Seq::empty());
        assert(path_parts(r) =~= seq![Part::CurDir]);
        assert(path_parts(r).drop_last() =~= Seq::empty());
        assert(normal_form(path_parts(r)) =~= n);
    } else {
        lemma_text_of_normal_path(n);
        lemma_normal_form_of_normal(n);
        if begins_at_root(p) {
            assert(is_anchored(p)) by {
                assert(is_anchor(p[0]));
            }
        }
    }
}

/// The components of a path.
fn components(path: &str) -> (r: Vec<PathComponent>)
    ensures
        parts(r@) == path_parts(path@),
        anchors_first(parts(r@)),
{
    let chars = text::chars_of(path);
    let pieces = text::split_chars(chars.as_slice(), '/');
    let ghost all = text::split(path@, '/');
    let mut out: Vec<PathComponent> = Vec::new();
    let ghost lead: Seq<Part> = if path@.len() > 0 && path@[0] == '/' {
        seq![Part::RootDir]
    } else {
        Seq::empty()
    };
    if chars.len() > 0 && chars[0] == '/' {
        out.push(PathComponent::RootDir);
    }
    let mut i: usize = 0;
    proof {
        assert(parts(out@) =~= lead + pieces_parts(all.take(0)));
    }
    while i < pieces.len()
        invariant
            i <= pieces.len(),
            pieces@.len() == all.len(),
            forall|k: int| 0 <= k < all.len() ==> (#[trigger] pieces@[k])@ == all[k],
            parts(out@) == lead + pieces_parts(all.take(i as int)),
        decreases pieces.len() - i,
    {
        let ghost before = out@;
        let piece = text::string_of(pieces[i].as_slice());
        proof {
            assert(all.take(i + 1).drop_last() =~= all.take(i as int));
            assert(all.take(i + 1).last() == piece@);
        }
        if !piece.as_str().is_empty() {
            let ghost name = piece@;
            let component = if text::same(piece.as_str(), ".") {
                PathComponent::CurDir
            } else if text::same(piece.as_str(), "..") {
                PathComponent::ParentDir
            } else {
                PathComponent::Normal(piece)
            };
            let ghost part = component@;
            out.push(component);
            proof {
                assert(piece_part(name) == Some(part));
                assert(parts(out@) =~= parts(before).push(part));
                assert(parts(out@) =~= lead + pieces_parts(all.take(i + 1)));
            }
        }
        i += 1;
    }
    proof {
        assert(all.take(i as int) =~= all);
        lemma_pieces_have_no_anchor(all);
        assert(parts(out@) =~= path_parts(path@));
        let p = parts(out@);
        assert forall|a: int, b: int| 0 <= a < b < p.len() && is_anchor(#[trigger] p[b]) implies is_anchor(
            #[trigger] p[a],
        ) by {
            assert(p[b] == pieces_parts(all)[b - lead.len()]);
        }
    }
    out
}

/// How components are written, each on its own.
fn component_texts(path: &Vec<PathComponent>, from: usize) -> (r: Vec<String>)
    requires
        from <= path@.len(),
    ensures
        text::texts(r@) == part_texts(parts(path@).skip(from as int)),
{
    let mut out: Vec<String> = Vec::new();
    let ghost all = part_texts(parts(path@).skip(from as int));
    let mut i: usize = from;
    while i < path.len()
        invariant
            from <= i <= path.len(),
            all == part_texts(parts(path@).skip(from as int)),
            text::texts(out@) =~= all.take(i - from),
        decreases path.len() - i,
    {
        let ghost before = out@;
        let written: String = match &path[i] {
            PathComponent::Prefix(prefix) => prefix.clone(),
            PathComponent::RootDir => String::new(),
            PathComponent::CurDir => ".".to_owned(),
            PathComponent::ParentDir => "..".to_owned(),
            PathComponent::Normal(name) => name.clone(),
        };
        let ghost w = written@;
        out.push(written);
        proof {
            assert(w =~= part_text(path@[i as int]@));
            assert(all[i - from] == part_text(parts(path@)[i as int]));
            assert(text::texts(out@) =~= text::texts(before).push(w));
        }
        i += 1;
    }
    proof {
        assert(all.take(i - from) =~= all);
    }
    out
}

/// Take `.` and `..` out of a path that is written with slashes, without looking at
/// any file.
pub fn lexical_normalize(path: &str) -> (r: String)
    ensures
        r@ == path_text(normal_form(path_parts(path@))),
{
    let normal = normalize_components(components(path));
    if normal.len() == 0 {
        return ".".to_owned();
    }
    let rooted: bool = match &normal[0] {
        PathComponent::RootDir => true,
        _ => false,
    };
    if rooted {
        let mut out: String = "/".to_owned();
        let names = component_texts(&normal, 1);
        let rest = text::joined(&names, "/");
        out.append(rest.as_str());
        out
    } else {
        let names = component_texts(&normal, 0);
        proof {
            assert(parts(normal@).skip(0) =~= parts(normal@));
        }
        text::joined(&names, "/")
    }
}

/// A path for the log, written with slashes: taken relative to the working
/// directory, where it is known, and without `.` and `..`. Where paths have drives,
/// see [`pretty_components`].
pub fn pretty_path(path: &str, working_dir: Option<&str>) -> (r: String)
    ensures
        r@ == path_text(
            normal_form(
                path_parts(
                    match working_dir {
                        Some(dir) => joined(dir@, path@),
                        None => path@,
                    },
                ),
            ),
        ),
{
    match working_dir {
        Some(dir) => {
            let absolute = join_path(dir, path);
            lexical_normalize(absolute.as_str())
        },
        None => lexical_normalize(path),
    }
}

// ---------------------------------------------------------------------------
// What holds of paths.

/// A relative path is set behind the directory, with one slash between them; an
/// absolute one stands for itself.
pub proof fn law_path_below_a_directory(base: Seq<char>, leaf: Seq<char>, absolute: Seq<char>)
    requires
        leaf.len() > 0 ==> leaf[0] != '/',
        base.len() > 0 ==> base.last() != '/',
    ensures
        base.len() > 0 ==> joined(base, leaf) == base + "/"@ + leaf,
        joined(base + "/"@, leaf) == base + "/"@ + leaf,
        joined(Seq::empty(), leaf) == leaf,
        joined(base, "/"@ + absolute) == "/"@ + absolute,
{
    reveal_strlit("/");
    assert(base.push('/') =~= base + "/"@);
    assert((base + "/"@).last() == '/');
    assert(("/"@ + absolute)[0] == '/');
    assert(Seq::<char>::empty() + leaf =~= leaf);
}

/// Which directory the data lies in, and under which names.
pub proof fn law_where_the_data_lies(roots: DataRoots)
    ensures
        roots.dev matches Some(dev) ==> roots.data_root() == Some(joined(dev@, ".."@)),
        roots.dev is None && roots.platform is Some ==> roots.data_root() == Some(roots.platform->0@),
        roots.dev is None && roots.platform is None && roots.exe is Some ==> roots.data_root() == Some(roots.exe->0@),
        roots.dev is None && roots.platform is None && roots.exe is None ==> roots.data_root() is None,
        UserDataKind::Inject.file_name() == "inject"@,
        UserDataKind::Overrides.file_name() == "overrides"@,
        UserDataKind::Config.file_name() == "hook.conf.toml"@,
{
}

/// A name and the `..` behind it take each other away, wherever they stand.
pub proof fn law_parent_takes_a_name_away(a: Seq<Part>, name: Seq<char>, b: Seq<Part>)
    ensures
        normal_form(a.push(Part::Normal(name)).push(Part::ParentDir) + b) == normal_form(a + b),
    decreases b.len(),
{
    let with = a.push(Part::Normal(name)).push(Part::ParentDir) + b;
    if b.len() == 0 {
        assert(a + b =~= a);
        assert(with.drop_last() =~= a.push(Part::Normal(name)));
        assert(with.drop_last().drop_last() =~= a);
        assert(normal_form(a.push(Part::Normal(name))) == normal_form(a).push(Part::Normal(name)));
        assert(normal_form(a).push(Part::Normal(name)).drop_last() =~= normal_form(a));
    } else {
        law_parent_takes_a_name_away(a, name, b.drop_last());
        assert(with.drop_last() =~= a.push(Part::Normal(name)).push(Part::ParentDir) + b.drop_last());
        assert((a + b).drop_last() =~= a + b.drop_last());
        assert(is_anchored(with) == is_anchored(a + b)) by {
            if is_anchored(with) {
                let i = choose|i: int| 0 <= i < with.len() && is_anchor(#[trigger] with[i]);
                assert(is_anchor((a + b)[if i < a.len() {
                    i
                } else {
                    i - 2
                }]));
            }
            if is_anchored(a + b) {
                let i = choose|i: int| 0 <= i < (a + b).len() && is_anchor(#[trigger] (a + b)[i]);
                assert(is_anchor(with[if i < a.len() {
                    i
                } else {
                    i + 2
                }]));
            }
        }
    }
}

/// A `.` does not count, wherever it stands.
pub proof fn law_dot_does_not_count(a: Seq<Part>, b: Seq<Part>)
    ensures
        normal_form(a.push(Part::CurDir) + b) == normal_form(a + b),
    decreases b.len(),
{
    let with = a.push(Part::CurDir) + b;
    if b.len() == 0 {
        assert(a + b =~= a);
        assert(with.drop_last() =~= a);
    } else {
        law_dot_does_not_count(a, b.drop_last());
        assert(with.drop_last() =~= a.push(Part::CurDir) + b.drop_last());
        assert((a + b).drop_last() =~= a + b.drop_last());
        assert(is_anchored(with) == is_anchored(a + b)) by {
            if is_anchored(with) {
                let i = choose|i: int| 0 <= i < with.len() && is_anchor(#[trigger] with[i]);
                assert(is_anchor((a + b)[if i < a.len() {
                    i
                } else {
                    i - 1
                }]));
            }
            if is_anchored(a + b) {
                let i = choose|i: int| 0 <= i < (a + b).len() && is_anchor(#[trigger] (a + b)[i]);
                assert(is_anchor(with[if i < a.len() {
                    i
                } else {
                    i + 1
                }]));
            }
        }
    }
}

/// A path that has neither `.` nor `..` stays as it is.
pub proof fn law_plain_path_stays(path: Seq<Part>)
    requires
        forall|i: int| 0 <= i < path.len() ==> !((#[trigger] path[i]) is CurDir) && !(path[i] is ParentDir),
    ensures
        normal_form(path) == path,
    decreases path.len(),
{
    if path.len() > 0 {
        assert forall|i: int| 0 <= i < path.len() - 1 implies !((#[trigger] path.drop_last()[i]) is CurDir)
            && !(path.drop_last()[i] is ParentDir) by {
            assert(path.drop_last()[i] == path[i]);
        }
        law_plain_path_stays(path.drop_last());
        assert(!(path[path.len() - 1] is CurDir) && !(path[path.len() - 1] is ParentDir));
        assert(normal_form(path) =~= path);
    }
}

/// A `..` at the beginning stays in a path that is tied to no place, and goes where
/// only the root stands before it.
pub proof fn law_parent_at_the_beginning(n: nat, prefix: Seq<char>)
    ensures
        normal_form(Seq::new(n, |i: int| Part::ParentDir)) == Seq::new(n, |i: int| Part::ParentDir),
        normal_form(seq![Part::RootDir, Part::ParentDir]) == seq![Part::RootDir],
        normal_form(seq![Part::Prefix(prefix), Part::ParentDir]) == seq![Part::Prefix(prefix)],
    decreases n,
{
    let ups = Seq::new(n, |i: int| Part::ParentDir);
    if n > 0 {
        law_parent_at_the_beginning((n - 1) as nat, prefix);
        assert(ups.drop_last() =~= Seq::new((n - 1) as nat, |i: int| Part::ParentDir));
        assert(!is_anchored(ups));
        assert(normal_form(ups) =~= ups);
    } else {
        assert(ups =~= Seq::empty());
    }
    reveal_with_fuel(normal_form, 3);
    let rooted = seq![Part::RootDir, Part::ParentDir];
    assert(is_anchor(rooted[0]));
    assert(rooted.drop_last() =~= seq![Part::RootDir]);
    assert(rooted.drop_last().drop_last() =~= Seq::empty());
    assert(normal_form(rooted) =~= seq![Part::RootDir]);
    let drive = seq![Part::Prefix(prefix), Part::ParentDir];
    assert(is_anchor(drive[0]));
    assert(drive.drop_last() =~= seq![Part::Prefix(prefix)]);
    assert(drive.drop_last().drop_last() =~= Seq::empty());
    assert(normal_form(drive) =~= seq![Part::Prefix(prefix)]);
}

/// The parts of a path stand between its slashes, in order.
pub proof fn law_parts_stand_between_slashes(a: Seq<char>, b: Seq<char>)
    requires
        b.len() > 0 ==> b[0] != '/',
    ensures
        a.len() > 0 ==> path_parts(a + "/"@ + b) == path_parts(a) + path_parts(b),
        path_parts("/"@ + b) == seq![Part::RootDir] + path_parts(b),
{
    reveal_strlit("/");
    text::law_split_goes_piece_by_piece(a, '/', b);
    lemma_pieces_one_behind_the_other(text::split(a, '/'), text::split(b, '/'));
    assert(a + "/"@ + b =~= a.push('/') + b);
    if a.len() > 0 {
        assert((a + "/"@ + b)[0] == a[0]);
        assert(path_parts(a + "/"@ + b) =~= path_parts(a) + path_parts(b));
    }
    let none = Seq::<char>::empty();
    text::law_split_goes_piece_by_piece(none, '/', b);
    lemma_pieces_one_behind_the_other(text::split(none, '/'), text::split(b, '/'));
    lemma_parts_of_one_piece(none);
    assert("/"@ + b =~= none.push('/') + b);
    assert(("/"@ + b)[0] == '/');
    assert(path_parts("/"@ + b) =~= seq![Part::RootDir] + path_parts(b));
}

proof fn lemma_pieces_one_behind_the_other(a: Seq<Seq<char>>, b: Seq<Seq<char>>)
    ensures
        pieces_parts(a + b) == pieces_parts(a) + pieces_parts(b),
    decreases b.len(),
{
    if b.len() == 0 {
        assert(a + b =~= a);
        assert(pieces_parts(a) + pieces_parts(b) =~= pieces_parts(a));
    } else {
        lemma_pieces_one_behind_the_other(a, b.drop_last());
        assert((a + b).drop_last() =~= a + b.drop_last());
        assert((a + b).last() == b.last());
        assert(pieces_parts(a + b) =~= pieces_parts(a) + pieces_parts(b));
    }
}

proof fn lemma_parts_of_one_piece(piece: Seq<char>)
    requires
        !piece.contains('/'),
    ensures
        text::split(piece, '/') == seq![piece],
        path_parts(piece) == match piece_part(piece) {
            Some(part) => seq![part],
            None => Seq::empty(),
        },
{
    text::lemma_first_index_is(piece, '/', piece.len() as int);
    assert(text::split(piece, '/') =~= seq![piece]);
    reveal_with_fuel(pieces_parts, 2);
    assert(seq![piece].drop_last() =~= Seq::empty());
    assert(seq![piece].last() == piece);
    if piece.len() > 0 {
        assert(piece[0] != '/');
    }
    assert(path_parts(piece) =~= match piece_part(piece) {
        Some(part) => seq![part],
        None => Seq::empty(),
    });
}

/// What a text without a slash stands for: nothing, `.`, `..`, or a name.
pub proof fn law_what_a_part_is(name: Seq<char>)
    requires
        !name.contains('/'),
    ensures
        path_parts(Seq::empty()).len() == 0,
        path_parts("."@) == seq![Part::CurDir],
        path_parts(".."@) == seq![Part::ParentDir],
        name.len() > 0 && name != "."@ && name != ".."@ ==> path_parts(name) == seq![Part::Normal(name)],
{
    reveal_strlit(".");
    reveal_strlit("..");
    lemma_parts_of_one_piece(Seq::empty());
    assert(!"."@.contains('/'));
    assert(!".."@.contains('/'));
    assert("."@.len() != ".."@.len());
    lemma_parts_of_one_piece("."@);
    lemma_parts_of_one_piece(".."@);
    lemma_parts_of_one_piece(name);
}

/// A path is written part by part, with slashes.
pub proof fn law_path_is_written_part_by_part(path: Seq<Part>, name: Seq<char>)
    requires
        path.len() > 0,
    ensures
        path_text(Seq::empty()) == "."@,
        path_text(seq![Part::RootDir]) == "/"@,
        path_text(seq![Part::ParentDir]) == ".."@,
        path_text(seq![Part::Normal(name)]) == name,
        path_text(seq![Part::RootDir, Part::Normal(name)]) == "/"@ + name,
        path != seq![Part::RootDir] ==> path_text(path.push(Part::Normal(name))) == path_text(path) + "/"@ + name,
        path != seq![Part::RootDir] ==> path_text(path.push(Part::ParentDir)) == path_text(path) + "/"@ + ".."@,
{
    assert(part_texts(seq![Part::RootDir].skip(1)) =~= Seq::empty());
    assert(path_text(seq![Part::RootDir]) =~= "/"@);
    assert(part_texts(seq![Part::ParentDir]) =~= seq![".."@]);
    assert(part_texts(seq![Part::Normal(name)]) =~= seq![name]);
    assert(part_texts(seq![Part::RootDir, Part::Normal(name)].skip(1)) =~= seq![name]);
    if path != seq![Part::RootDir] {
        if path[0] is RootDir {
            assert(path.len() > 1) by {
                if path.len() == 1 {
                    assert(path =~= seq![Part::RootDir]);
                }
            }
        }
        lemma_part_is_written_behind(path, Part::Normal(name));
        lemma_part_is_written_behind(path, Part::ParentDir);
    }
}

proof fn lemma_part_is_written_behind(path: Seq<Part>, part: Part)
    requires
        path.len() > 0,
        path[0] is RootDir ==> path.len() > 1,
    ensures
        path_text(path.push(part)) == path_text(path) + "/"@ + part_text(part),
{
    let more = path.push(part);
    assert(more[0] == path[0]);
    if path[0] is RootDir {
        let names = part_texts(path.skip(1));
        assert(part_texts(more.skip(1)) =~= names.push(part_text(part)));
        assert(names.push(part_text(part)).drop_last() =~= names);
        assert(path_text(more) =~= path_text(path) + "/"@ + part_text(part));
    } else {
        let names = part_texts(path);
        assert(part_texts(more) =~= names.push(part_text(part)));
        assert(names.push(part_text(part)).drop_last() =~= names);
    }
}

/// How a path is taken relative to a directory: one with a prefix stands for itself,
/// one that begins at the root keeps the drive of the directory, and any other is
/// set behind the directory.
pub proof fn law_components_below_a_directory(base: Seq<Part>, path: Seq<Part>, prefix: Seq<char>, rest: Seq<Part>)
    requires
        path.len() > 0 ==> !is_anchor(path[0]),
    ensures
        joined_parts(base, path) == base + path,
        joined_parts(base, seq![Part::Prefix(prefix)] + rest) == seq![Part::Prefix(prefix)] + rest,
        base.len() == 0 || !(base[0] is Prefix) ==> joined_parts(base, seq![Part::RootDir] + rest)
            == seq![Part::RootDir] + rest,
        joined_parts(seq![Part::Prefix(prefix)] + base, seq![Part::RootDir] + rest) == seq![
            Part::Prefix(prefix),
            Part::RootDir,
        ] + rest,
{
    assert((seq![Part::Prefix(prefix)] + rest)[0] == Part::Prefix(prefix));
    assert((seq![Part::RootDir] + rest)[0] == Part::RootDir);
    assert((seq![Part::Prefix(prefix)] + base)[0] == Part::Prefix(prefix));
    assert(seq![Part::Prefix(prefix)] + (seq![Part::RootDir] + rest) =~= seq![
        Part::Prefix(prefix),
        Part::RootDir,
    ] + rest);
}

/// A path for the log is the normal form of the path below the working directory;
/// where nothing is left of it, it is `.`.
pub proof fn law_path_for_the_log(path: Seq<Part>, dir: Seq<Part>)
    ensures
        ({
            let below = normal_form(joined_parts(dir, path));
            &&& below.len() > 0 ==> pretty_parts(path, Some(dir)) == below
            &&& below.len() == 0 ==> pretty_parts(path, Some(dir)) == seq![Part::CurDir]
            &&& normal_form(path).len() > 0 ==> pretty_parts(path, None) == normal_form(path)
            &&& normal_form(path).len() == 0 ==> pretty_parts(path, None) == seq![Part::CurDir]
        }),
{
}

} // verus!
