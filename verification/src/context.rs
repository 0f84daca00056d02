//! Working directory resolution.
//!
//! Detects the correct working directory for a command by the marker files of
//! projects (`Cargo.toml`, `package.json`, `Makefile`, …). If the working
//! directory lacks the marker that a command expects, the directories above it
//! are searched, and a `cd` to the one with the marker is prepended to the
//! command; of several, to the one whose marker was modified last, and to the
//! nearest where that does not tell them apart.
use vstd::prelude::*;
use vstd::string::*;

use crate::numerals;
use crate::paths;
use crate::text;

verus! {

/// The number of entries of [`TOOL_MARKERS`].
pub const TOOL_COUNT: usize = 21;

/// Tools, and the marker file of the projects that they work in.
pub const TOOL_MARKERS: [(&'static str, &'static str); 21] = [
    ("cargo", "Cargo.toml"),
    ("rustc", "Cargo.toml"),
    ("npm", "package.json"),
    ("npx", "package.json"),
    ("pnpm", "package.json"),
    ("yarn", "package.json"),
    ("vitest", "package.json"),
    ("tsc", "package.json"),
    ("eslint", "package.json"),
    ("prettier", "package.json"),
    ("playwright", "package.json"),
    ("prisma", "package.json"),
    ("next", "package.json"),
    ("make", "Makefile"),
    ("cmake", "CMakeLists.txt"),
    ("go", "go.mod"),
    ("python", "setup.py"),
    ("pip", "setup.py"),
    ("poetry", "pyproject.toml"),
    ("gradle", "build.gradle"),
    ("mvn", "pom.xml"),
];

/// The marker of the first entry at or after index `i` for a tool.
pub open spec fn marker_from(tool: Seq<char>, i: int) -> Option<Seq<char>>
    decreases TOOL_COUNT - i,
{
    if i < 0 || i >= TOOL_COUNT {
        None
    } else if TOOL_MARKERS[i].0@ == tool {
        Some(TOOL_MARKERS[i].1@)
    } else {
        marker_from(tool, i + 1)
    }
}

/// The marker file that a command expects, by its first word.
pub open spec fn marker_of(command: Seq<char>) -> Option<Seq<char>> {
    marker_from(text::first_word_of(command), 0)
}

/// Detects which marker file a command expects.
pub fn detect_marker(command: &str) -> (r: Option<&'static str>)
    ensures
        text::opt_str(r) == marker_of(command@),
{
    let tool = text::first_word(command);
    let mut i: usize = 0;
    while i < TOOL_COUNT
        invariant
            i <= TOOL_COUNT,
            tool@ == text::first_word_of(command@),
            marker_from(tool@, i as int) == marker_of(command@),
        decreases TOOL_COUNT - i,
    {
        if text::same(TOOL_MARKERS[i].0, tool.as_str()) {
            return Some(TOOL_MARKERS[i].1);
        }
        i += 1;
    }
    None
}

// ---------------------------------------------------------------------------
// The workspace
// ---------------------------------------------------------------------------
/// A marker file that exists.
pub struct Mark {
    /// The directory that holds it.
    pub dir: String,
    /// Its name.
    pub marker: String,
    /// When it was last modified, in nanoseconds, if that is known.
    pub modified: Option<i128>,
}

/// What is known of the directories that a command may be meant for.
pub struct Workspace {
    /// The working directory, if it is known.
    pub cwd: Option<String>,
    /// The home directory, if it is set.
    pub home: Option<String>,
    /// The marker files that exist in the working directory and in those
    /// that [`search_dirs`] yields.
    pub marks: Vec<Mark>,
}

/// The time at which the marker file of a directory was modified, from index
/// `i` of the marks on; nothing if there is no such file.
pub open spec fn mark_from(
    marks: Seq<Mark>,
    dir: Seq<char>,
    marker: Seq<char>,
    i: int,
) -> Option<Option<i128>>
    decreases marks.len() - i,
{
    if i < 0 || i >= marks.len() {
        None
    } else if marks[i].dir@ == dir && marks[i].marker@ == marker {
        Some(marks[i].modified)
    } else {
        mark_from(marks, dir, marker, i + 1)
    }
}

/// The marker file stands in a directory.
pub open spec fn has_mark(ws: Workspace, dir: Seq<char>, marker: Seq<char>) -> bool {
    mark_from(ws.marks@, dir, marker, 0) is Some
}

/// When the marker file of a directory was modified, as far as it is known.
pub open spec fn mark_time(ws: Workspace, dir: Seq<char>, marker: Seq<char>) -> Option<i128> {
    match mark_from(ws.marks@, dir, marker, 0) {
        Some(t) => t,
        None => None,
    }
}

/// Looks up the marker file of a directory.
fn find_mark(ws: &Workspace, dir: &str, marker: &str) -> (r: Option<Option<i128>>)
    ensures
        r == mark_from(ws.marks@, dir@, marker@, 0),
{
    let mut i: usize = 0;
    while i < ws.marks.len()
        invariant
            i <= ws.marks@.len(),
            mark_from(ws.marks@, dir@, marker@, i as int) == mark_from(
                ws.marks@,
                dir@,
                marker@,
                0,
            ),
        decreases ws.marks@.len() - i,
    {
        if text::same(ws.marks[i].dir.as_str(), dir) && text::same(
            ws.marks[i].marker.as_str(),
            marker,
        ) {
            return Some(ws.marks[i].modified);
        }
        i += 1;
    }
    None
}

/// The directories above `dir`, nearest first, up to the home directory or
/// the root.
pub open spec fn upward(dir: Seq<char>, home: Option<Seq<char>>) -> Seq<Seq<char>>
    decreases dir.len(),
{
    proof {
        paths::lemma_parent_shorter(dir);
    }
    match paths::parent_of(dir) {
        None => Seq::empty(),
        Some(p) => if p == "/"@ || is_home(p, home) {
            seq![p]
        } else {
            seq![p] + upward(p, home)
        },
    }
}

/// A path is the home directory's.
pub open spec fn is_home(path: Seq<char>, home: Option<Seq<char>>) -> bool {
    match home {
        Some(h) => paths::same_path(path, h),
        None => false,
    }
}

/// The directories above the working directory, nearest first, up to the home
/// directory or the root.
pub fn search_dirs(cwd: &str, home: Option<&str>) -> (r: Vec<String>)
    ensures
        text::views(r@) == upward(cwd@, text::opt_str(home)),
{
    let ghost all = upward(cwd@, text::opt_str(home));
    let mut out: Vec<String> = Vec::new();
    let mut dir = cwd.to_owned();
    assert(text::views(out@) + all =~= all);
    loop
        invariant
            all == upward(cwd@, text::opt_str(home)),
            text::views(out@) + upward(dir@, text::opt_str(home)) == all,
        decreases dir@.len(),
    {
        let ghost before = text::views(out@);
        match paths::path_parent(dir.as_str()) {
            None => {
                assert(text::views(out@) =~= all);
                return out;
            },
            Some(parent) => {
                let at_home: bool = match home {
                    Some(h) => paths::is_same_path(parent.as_str(), h),
                    None => false,
                };
                let stop: bool = text::same(parent.as_str(), "/") || at_home;
                out.push(parent.clone());
                assert(text::views(out@) =~= before.push(parent@));
                if stop {
                    assert(text::views(out@) =~= all);
                    return out;
                }
                assert(text::views(out@) + upward(parent@, text::opt_str(home)) =~= before + (
                seq![parent@] + upward(parent@, text::opt_str(home))));
                dir = parent;
            },
        }
    }
}

/// The directories among `dirs` that hold the marker file, in order.
pub open spec fn marked(ws: Workspace, dirs: Seq<Seq<char>>, marker: Seq<char>) -> Seq<Seq<char>>
    decreases dirs.len(),
{
    if dirs.len() == 0 {
        Seq::empty()
    } else if has_mark(ws, dirs.last(), marker) {
        marked(ws, dirs.drop_last(), marker).push(dirs.last())
    } else {
        marked(ws, dirs.drop_last(), marker)
    }
}

/// The directories above `start` that hold the marker file.
pub fn search_upward(ws: &Workspace, start: &str, marker: &str) -> (r: Vec<String>)
    ensures
        text::views(r@) == marked(*ws, upward(start@, text::opt_view(ws.home)), marker@),
{
    let home: Option<&str> = match &ws.home {
        Some(h) => Some(h.as_str()),
        None => None,
    };
    let dirs = search_dirs(start, home);
    let ghost all = text::views(dirs@);
    let mut out: Vec<String> = Vec::new();
    let mut i: usize = 0;
    proof {
        assert(all.take(0) =~= Seq::<Seq<char>>::empty());
        assert(text::views(out@) =~= marked(*ws, all.take(0), marker@));
    }
    while i < dirs.len()
        invariant
            i <= dirs@.len(),
            all == text::views(dirs@),
            text::views(out@) == marked(*ws, all.take(i as int), marker@),
        decreases dirs@.len() - i,
    {
        let ghost before = text::views(out@);
        proof {
            let t = all.take(i + 1);
            assert(t.drop_last() =~= all.take(i as int));
            assert(t.last() == dirs@[i as int]@);
        }
        if find_mark(ws, dirs[i].as_str(), marker).is_some() {
            out.push(dirs[i].clone());
            assert(text::views(out@) =~= before.push(dirs@[i as int]@));
        }
        i += 1;
    }
    assert(all.take(i as int) =~= all);
    out
}

/// A time is no earlier than another; an unknown time is earlier than any
/// known one.
pub open spec fn no_earlier(a: Option<i128>, b: Option<i128>) -> bool {
    match (a, b) {
        (_, None) => true,
        (None, Some(_)) => false,
        (Some(x), Some(y)) => x >= y,
    }
}

/// The directory whose marker file was modified last; the first of them if
/// there are several. `dirs` is not empty.
pub open spec fn newest(ws: Workspace, dirs: Seq<Seq<char>>, marker: Seq<char>) -> Seq<char>
    decreases dirs.len(),
{
    if dirs.len() <= 1 {
        dirs[0]
    } else {
        let best = newest(ws, dirs.drop_last(), marker);
        if no_earlier(mark_time(ws, best, marker), mark_time(ws, dirs.last(), marker)) {
            best
        } else {
            dirs.last()
        }
    }
}

/// Among candidates, the nearest first, picks the one whose marker file was
/// modified last; the nearest of those that were modified at the same time or
/// at an unknown one.
pub fn most_recently_modified(ws: &Workspace, candidates: &Vec<String>, marker: &str) -> (r: String)
    requires
        candidates@.len() > 0,
    ensures
        r@ == newest(*ws, text::views(candidates@), marker@),
{
    let ghost all = text::views(candidates@);
    let mut best: usize = 0;
    let mut i: usize = 1;
    proof {
        assert(all.take(1)[0] == candidates@[0]@);
    }
    while i < candidates.len()
        invariant
            1 <= i <= candidates@.len(),
            best < i,
            all == text::views(candidates@),
            candidates@[best as int]@ == newest(*ws, all.take(i as int), marker@),
        decreases candidates@.len() - i,
    {
        proof {
            let t = all.take(i + 1);
            assert(t.drop_last() =~= all.take(i as int));
            assert(t.last() == candidates@[i as int]@);
        }
        let here: Option<i128> = match find_mark(ws, candidates[i].as_str(), marker) {
            Some(t) => t,
            None => None,
        };
        let there: Option<i128> = match find_mark(ws, candidates[best].as_str(), marker) {
            Some(t) => t,
            None => None,
        };
        let later: bool = match (here, there) {
            (None, _) => false,
            (Some(_), None) => true,
            (Some(x), Some(y)) => x > y,
        };
        if later {
            best = i;
        }
        i += 1;
    }
    assert(all.take(i as int) =~= all);
    candidates[best].clone()
}

// ---------------------------------------------------------------------------
// Resolution
// ---------------------------------------------------------------------------
/// Result of context resolution.
#[derive(Debug)]
pub struct ContextResult {
    /// The resolved project root directory, if it differs from the working
    /// directory.
    pub project_root: Option<String>,
    /// The marker file that was looked for.
    pub marker: Option<String>,
    /// The confidence in tenths, from 0 to 10.
    pub confidence: u32,
}

/// The model of a result.
pub struct ContextView {
    /// The project root.
    pub project_root: Option<Seq<char>>,
    /// The marker file.
    pub marker: Option<Seq<char>>,
    /// The confidence in tenths.
    pub confidence: u32,
}

impl View for ContextResult {
    type V = ContextView;

    open spec fn view(&self) -> ContextView {
        ContextView {
            project_root: text::opt_view(self.project_root),
            marker: text::opt_view(self.marker),
            confidence: self.confidence,
        }
    }
}

/// The root to change to among the directories that hold the marker, and the
/// confidence in it.
pub open spec fn choice(
    ws: Workspace,
    candidates: Seq<Seq<char>>,
    marker: Seq<char>,
) -> ContextView {
    if candidates.len() == 0 {
        ContextView { project_root: None, marker: Some(marker), confidence: 0 }
    } else if candidates.len() == 1 {
        ContextView { project_root: Some(candidates[0]), marker: Some(marker), confidence: 9 }
    } else {
        ContextView {
            project_root: Some(newest(ws, candidates, marker)),
            marker: Some(marker),
            confidence: 7,
        }
    }
}

/// The working directory that a command is meant for. No root is set if the
/// command expects no marker, if the working directory is unknown or holds
/// the marker, and if no directory above it does.
pub open spec fn resolution(command: Seq<char>, ws: Workspace) -> ContextView {
    match marker_of(command) {
        None => ContextView { project_root: None, marker: None, confidence: 0 },
        Some(marker) => match text::opt_view(ws.cwd) {
            None => ContextView { project_root: None, marker: Some(marker), confidence: 0 },
            Some(cwd) => if has_mark(ws, cwd, marker) {
                ContextView { project_root: None, marker: Some(marker), confidence: 10 }
            } else {
                choice(ws, marked(ws, upward(cwd, text::opt_view(ws.home)), marker), marker)
            },
        },
    }
}

/// Resolves the correct working directory for a command.
///
/// The root is set if the working directory is wrong and a better one was
/// found: the only one above it with the marker, or the one whose marker was
/// modified last, the nearest of those that were modified together.
pub fn resolve(command: &str, ws: &Workspace) -> (r: ContextResult)
    ensures
        r@ == resolution(command@, *ws),
{
    let marker = match detect_marker(command) {
        Some(m) => m,
        None => {
            return ContextResult { project_root: None, marker: None, confidence: 0 };
        },
    };
    let cwd = match &ws.cwd {
        Some(d) => d.as_str(),
        None => {
            return ContextResult {
                project_root: None,
                marker: Some(marker.to_owned()),
                confidence: 0,
            };
        },
    };
    if find_mark(ws, cwd, marker).is_some() {
        return ContextResult {
            project_root: None,
            marker: Some(marker.to_owned()),
            confidence: 10,
        };
    }
    let candidates = search_upward(ws, cwd, marker);
    let ghost all = text::views(candidates@);
    if candidates.len() == 0 {
        ContextResult { project_root: None, marker: Some(marker.to_owned()), confidence: 0 }
    } else if candidates.len() == 1 {
        assert(all[0] == candidates@[0]@);
        ContextResult {
            project_root: Some(candidates[0].clone()),
            marker: Some(marker.to_owned()),
            confidence: 9,
        }
    } else {
        ContextResult {
            project_root: Some(most_recently_modified(ws, &candidates, marker)),
            marker: Some(marker.to_owned()),
            confidence: 7,
        }
    }
}

/// A command behind a `cd`.
pub open spec fn behind_cd(root: Seq<char>, command: Seq<char>) -> Seq<char> {
    "cd "@ + root + " && "@ + command
}

/// The command with a `cd` to the project root, if one was found.
pub open spec fn applied(command: Seq<char>, ctx: ContextView) -> Option<Seq<char>> {
    match ctx.project_root {
        Some(root) => Some(behind_cd(root, command)),
        None => None,
    }
}

/// Prepends a `cd` to the command if context resolution found a different
/// project root.
pub fn apply(command: &str, ctx: &ContextResult) -> (r: Option<String>)
    ensures
        text::opt_view(r) == applied(command@, ctx@),
{
    match &ctx.project_root {
        Some(root) => {
            let mut out = "cd ".to_owned();
            out.append(root.as_str());
            out.append(" && ");
            out.append(command);
            Some(out)
        },
        None => None,
    }
}

/// A number of tenths with one decimal.
pub open spec fn tenths(n: u32) -> Seq<char> {
    numerals::dec((n / 10) as nat) + "."@ + numerals::dec((n % 10) as nat)
}

/// A number of tenths with one decimal.
pub fn tenths_text(n: u32) -> (r: String)
    ensures
        r@ == tenths(n),
{
    let mut out = numerals::dec_text((n / 10) as u64);
    out.append(".");
    numerals::push_dec(&mut out, (n % 10) as u64);
    out
}

/// The directories that hold the marker are directories that were searched.
proof fn lemma_marked(ws: Workspace, dirs: Seq<Seq<char>>, marker: Seq<char>)
    ensures
        forall|i: int|
            0 <= i < marked(ws, dirs, marker).len() ==> has_mark(
                ws,
                #[trigger] marked(ws, dirs, marker)[i],
                marker,
            ) && dirs.contains(marked(ws, dirs, marker)[i]),
    decreases dirs.len(),
{
    if dirs.len() > 0 {
        let t = dirs.drop_last();
        lemma_marked(ws, t, marker);
        let m = marked(ws, dirs, marker);
        assert forall|i: int| 0 <= i < m.len() implies has_mark(ws, #[trigger] m[i], marker)
            && dirs.contains(m[i]) by {
            if i < marked(ws, t, marker).len() {
                assert(m[i] == marked(ws, t, marker)[i]);
                let k = t.index_of(m[i]);
                assert(dirs[k] == m[i]);
            } else {
                assert(m[i] == dirs[dirs.len() - 1]);
            }
        }
    }
}

/// Without marker files no directory holds one.
pub proof fn lemma_nothing_marked(ws: Workspace, dirs: Seq<Seq<char>>, marker: Seq<char>)
    requires
        ws.marks@.len() == 0,
    ensures
        marked(ws, dirs, marker) == Seq::<Seq<char>>::empty(),
    decreases dirs.len(),
{
    if dirs.len() > 0 {
        lemma_nothing_marked(ws, dirs.drop_last(), marker);
    }
}

/// The directory at index `k` is newer than all before it.
pub open spec fn newer_than_nearer(
    ws: Workspace,
    dirs: Seq<Seq<char>>,
    marker: Seq<char>,
    k: int,
) -> bool {
    forall|j: int|
        0 <= j < k ==> !no_earlier(
            mark_time(ws, #[trigger] dirs[j], marker),
            mark_time(ws, dirs[k], marker),
        )
}

/// The newest of some directories is one of them, and the first that is.
proof fn lemma_newest(ws: Workspace, dirs: Seq<Seq<char>>, marker: Seq<char>)
    requires
        dirs.len() > 0,
    ensures
        dirs.contains(newest(ws, dirs, marker)),
        exists|k: int|
            0 <= k < dirs.len() && dirs[k] == newest(ws, dirs, marker)
                && #[trigger] newer_than_nearer(ws, dirs, marker, k),
        forall|i: int|
            0 <= i < dirs.len() ==> no_earlier(
                mark_time(ws, newest(ws, dirs, marker), marker),
                mark_time(ws, #[trigger] dirs[i], marker),
            ),
    decreases dirs.len(),
{
    if dirs.len() == 1 {
        assert(dirs[0] == newest(ws, dirs, marker));
        assert(newer_than_nearer(ws, dirs, marker, 0));
    } else {
        let t = dirs.drop_last();
        lemma_newest(ws, t, marker);
        let best = newest(ws, t, marker);
        let k = t.index_of(best);
        assert(dirs[k] == best);
        assert(dirs[dirs.len() - 1] == dirs.last());
        if newest(ws, dirs, marker) == best {
            let f = choose|f: int|
                0 <= f < t.len() && t[f] == best && #[trigger] newer_than_nearer(ws, t, marker, f);
            assert forall|j: int| 0 <= j < f implies !no_earlier(
                mark_time(ws, #[trigger] dirs[j], marker),
                mark_time(ws, dirs[f], marker),
            ) by {
                assert(t[j] == dirs[j]);
            }
            assert(newer_than_nearer(ws, dirs, marker, f));
        } else {
            let last = dirs.len() - 1;
            assert forall|j: int| 0 <= j < last implies !no_earlier(
                mark_time(ws, #[trigger] dirs[j], marker),
                mark_time(ws, dirs[last], marker),
            ) by {
                assert(t[j] == dirs[j]);
            }
            assert(newer_than_nearer(ws, dirs, marker, last));
        }
        assert forall|i: int| 0 <= i < dirs.len() implies no_earlier(
            mark_time(ws, newest(ws, dirs, marker), marker),
            mark_time(ws, #[trigger] dirs[i], marker),
        ) by {
            if i < t.len() {
                assert(t[i] == dirs[i]);
            }
        }
    }
}

/// A command is sent only to a directory above the working directory that
/// holds the marker that the command expects, and only if the working
/// directory does not hold it. No other such directory has a marker that was
/// modified later, and no nearer one has a marker that was not modified
/// earlier.
pub proof fn law_root_has_the_marker(command: Seq<char>, ws: Workspace)
    ensures
        resolution(command, ws).project_root matches Some(root) ==> {
            let marker = resolution(command, ws).marker->0;
            let cwd = text::opt_view(ws.cwd)->0;
            let above = upward(cwd, text::opt_view(ws.home));
            &&& marker_of(command) == Some(marker)
            &&& text::opt_view(ws.cwd) is Some
            &&& !has_mark(ws, cwd, marker)
            &&& above.contains(root)
            &&& has_mark(ws, root, marker)
            &&& forall|i: int|
                0 <= i < marked(ws, above, marker).len() ==> no_earlier(
                    mark_time(ws, root, marker),
                    mark_time(ws, #[trigger] marked(ws, above, marker)[i], marker),
                )
            &&& exists|k: int|
                0 <= k < marked(ws, above, marker).len() && marked(ws, above, marker)[k] == root
                    && #[trigger] newer_than_nearer(ws, marked(ws, above, marker), marker, k)
        },
{
    if resolution(command, ws).project_root is Some {
        let marker = marker_of(command)->0;
        let cwd = text::opt_view(ws.cwd)->0;
        let above = upward(cwd, text::opt_view(ws.home));
        let m = marked(ws, above, marker);
        lemma_marked(ws, above, marker);
        lemma_newest(ws, m, marker);
        if m.len() == 1 {
            assert(newest(ws, m, marker) == m[0]);
        }
        let root = newest(ws, m, marker);
        let k = m.index_of(root);
        assert(m[k] == root);
    }
}

// ---------------------------------------------------------------------------
// Laws
// ---------------------------------------------------------------------------
/// A tool expects the marker of its kind of project, and no other first word
/// expects one.
pub proof fn law_markers_by_tool(command: Seq<char>)
    ensures
        ({
            let w = text::first_word_of(command);
            let node = w == "npm"@ || w == "npx"@ || w == "pnpm"@ || w == "yarn"@ || w == "vitest"@
                || w == "tsc"@ || w == "eslint"@ || w == "prettier"@ || w == "playwright"@ || w
                == "prisma"@ || w == "next"@;
            &&& w == "cargo"@ || w == "rustc"@ ==> marker_of(command) == Some("Cargo.toml"@)
            &&& node ==> marker_of(command) == Some("package.json"@)
            &&& w == "make"@ ==> marker_of(command) == Some("Makefile"@)
            &&& w == "cmake"@ ==> marker_of(command) == Some("CMakeLists.txt"@)
            &&& w == "go"@ ==> marker_of(command) == Some("go.mod"@)
            &&& w == "python"@ || w == "pip"@ ==> marker_of(command) == Some("setup.py"@)
            &&& w == "poetry"@ ==> marker_of(command) == Some("pyproject.toml"@)
            &&& w == "gradle"@ ==> marker_of(command) == Some("build.gradle"@)
            &&& w == "mvn"@ ==> marker_of(command) == Some("pom.xml"@)
            &&& marker_of(command) is Some ==> node || w == "cargo"@ || w == "rustc"@ || w == "make"@
                || w == "cmake"@ || w == "go"@ || w == "python"@ || w == "pip"@ || w == "poetry"@
                || w == "gradle"@ || w == "mvn"@
        }),
{
    reveal_strlit("cargo");
    reveal_strlit("rustc");
    reveal_strlit("npm");
    reveal_strlit("npx");
    reveal_strlit("pnpm");
    reveal_strlit("yarn");
    reveal_strlit("vitest");
    reveal_strlit("tsc");
    reveal_strlit("eslint");
    reveal_strlit("prettier");
    reveal_strlit("playwright");
    reveal_strlit("prisma");
    reveal_strlit("next");
    reveal_strlit("make");
    reveal_strlit("cmake");
    reveal_strlit("go");
    reveal_strlit("python");
    reveal_strlit("pip");
    reveal_strlit("poetry");
    reveal_strlit("gradle");
    reveal_strlit("mvn");
    assert("cargo"@.len() == 5 && "cargo"@[0] == 'c' && "cargo"@[1] == 'a');
    assert("rustc"@.len() == 5 && "rustc"@[0] == 'r' && "rustc"@[1] == 'u');
    assert("npm"@.len() == 3 && "npm"@[0] == 'n' && "npm"@[1] == 'p');
    assert("npx"@.len() == 3 && "npx"@[0] == 'n' && "npx"@[1] == 'p');
    assert("pnpm"@.len() == 4 && "pnpm"@[0] == 'p' && "pnpm"@[1] == 'n');
    assert("yarn"@.len() == 4 && "yarn"@[0] == 'y' && "yarn"@[1] == 'a');
    assert("vitest"@.len() == 6 && "vitest"@[0] == 'v' && "vitest"@[1] == 'i');
    assert("tsc"@.len() == 3 && "tsc"@[0] == 't' && "tsc"@[1] == 's');
    assert("eslint"@.len() == 6 && "eslint"@[0] == 'e' && "eslint"@[1] == 's');
    assert("prettier"@.len() == 8 && "prettier"@[0] == 'p' && "prettier"@[1] == 'r');
    assert("playwright"@.len() == 10 && "playwright"@[0] == 'p' && "playwright"@[1] == 'l');
    assert("prisma"@.len() == 6 && "prisma"@[0] == 'p' && "prisma"@[1] == 'r');
    assert("next"@.len() == 4 && "next"@[0] == 'n' && "next"@[1] == 'e');
    assert("make"@.len() == 4 && "make"@[0] == 'm' && "make"@[1] == 'a');
    assert("cmake"@.len() == 5 && "cmake"@[0] == 'c' && "cmake"@[1] == 'm');
    assert("go"@.len() == 2 && "go"@[0] == 'g' && "go"@[1] == 'o');
    assert("python"@.len() == 6 && "python"@[0] == 'p' && "python"@[1] == 'y');
    assert("pip"@.len() == 3 && "pip"@[0] == 'p' && "pip"@[1] == 'i');
    assert("poetry"@.len() == 6 && "poetry"@[0] == 'p' && "poetry"@[1] == 'o');
    assert("gradle"@.len() == 6 && "gradle"@[0] == 'g' && "gradle"@[1] == 'r');
    assert("mvn"@.len() == 3 && "mvn"@[0] == 'm' && "mvn"@[1] == 'v');
    let w = text::first_word_of(command);
    assert(marker_from(w, 21) is None);
    assert(marker_from(w, 0) == (if w == "cargo"@ {
        Some("Cargo.toml"@)
    } else {
        marker_from(w, 1)
    }));
    assert(marker_from(w, 1) == (if w == "rustc"@ {
        Some("Cargo.toml"@)
    } else {
        marker_from(w, 2)
    }));
    assert(marker_from(w, 2) == (if w == "npm"@ {
        Some("package.json"@)
    } else {
        marker_from(w, 3)
    }));
    assert(marker_from(w, 3) == (if w == "npx"@ {
        Some("package.json"@)
    } else {
        marker_from(w, 4)
    }));
    assert(marker_from(w, 4) == (if w == "pnpm"@ {
        Some("package.json"@)
    } else {
        marker_from(w, 5)
    }));
    assert(marker_from(w, 5) == (if w == "yarn"@ {
        Some("package.json"@)
    } else {
        marker_from(w, 6)
    }));
    assert(marker_from(w, 6) == (if w == "vitest"@ {
        Some("package.json"@)
    } else {
        marker_from(w, 7)
    }));
    assert(marker_from(w, 7) == (if w == "tsc"@ {
        Some("package.json"@)
    } else {
        marker_from(w, 8)
    }));
    assert(marker_from(w, 8) == (if w == "eslint"@ {
        Some("package.json"@)
    } else {
        marker_from(w, 9)
    }));
    assert(marker_from(w, 9) == (if w == "prettier"@ {
        Some("package.json"@)
    } else {
        marker_from(w, 10)
    }));
    assert(marker_from(w, 10) == (if w == "playwright"@ {
        Some("package.json"@)
    } else {
        marker_from(w, 11)
    }));
    assert(marker_from(w, 11) == (if w == "prisma"@ {
        Some("package.json"@)
    } else {
        marker_from(w, 12)
    }));
    assert(marker_from(w, 12) == (if w == "next"@ {
        Some("package.json"@)
    } else {
        marker_from(w, 13)
    }));
    assert(marker_from(w, 13) == (if w == "make"@ {
        Some("Makefile"@)
    } else {
        marker_from(w, 14)
    }));
    assert(marker_from(w, 14) == (if w == "cmake"@ {
        Some("CMakeLists.txt"@)
    } else {
        marker_from(w, 15)
    }));
    assert(marker_from(w, 15) == (if w == "go"@ {
        Some("go.mod"@)
    } else {
        marker_from(w, 16)
    }));
    assert(marker_from(w, 16) == (if w == "python"@ {
        Some("setup.py"@)
    } else {
        marker_from(w, 17)
    }));
    assert(marker_from(w, 17) == (if w == "pip"@ {
        Some("setup.py"@)
    } else {
        marker_from(w, 18)
    }));
    assert(marker_from(w, 18) == (if w == "poetry"@ {
        Some("pyproject.toml"@)
    } else {
        marker_from(w, 19)
    }));
    assert(marker_from(w, 19) == (if w == "gradle"@ {
        Some("build.gradle"@)
    } else {
        marker_from(w, 20)
    }));
    assert(marker_from(w, 20) == (if w == "mvn"@ {
        Some("pom.xml"@)
    } else {
        marker_from(w, 21)
    }));}

/// A marker file stands in a directory: it is among those that exist.
pub open spec fn stands(ws: Workspace, dir: Seq<char>, marker: Seq<char>) -> bool {
    exists|i: int|
        0 <= i < ws.marks@.len() && (#[trigger] ws.marks@[i]).dir@ == dir && ws.marks@[i].marker@
            == marker
}

/// A search among the marks finds the first one of a directory.
proof fn lemma_mark_from(marks: Seq<Mark>, dir: Seq<char>, marker: Seq<char>, i: int)
    requires
        0 <= i,
    ensures
        match mark_from(marks, dir, marker, i) {
            Some(t) => exists|k: int|
                i <= k < marks.len() && (#[trigger] marks[k]).dir@ == dir && marks[k].marker@
                    == marker && marks[k].modified == t && forall|j: int|
                    i <= j < k ==> !((#[trigger] marks[j]).dir@ == dir && marks[j].marker@ == marker),
            None => forall|j: int|
                i <= j < marks.len() ==> !((#[trigger] marks[j]).dir@ == dir && marks[j].marker@
                    == marker),
        },
    decreases marks.len() - i,
{
    if i < marks.len() {
        if marks[i].dir@ == dir && marks[i].marker@ == marker {
            assert(marks[i].dir@ == dir);
        } else {
            lemma_mark_from(marks, dir, marker, i + 1);
            if let Some(t) = mark_from(marks, dir, marker, i + 1) {
                let k = choose|k: int|
                    i + 1 <= k < marks.len() && (#[trigger] marks[k]).dir@ == dir
                        && marks[k].marker@ == marker && marks[k].modified == t && forall|j: int|
                        i + 1 <= j < k ==> !((#[trigger] marks[j]).dir@ == dir && marks[j].marker@
                            == marker);
                assert(marks[k].dir@ == dir);
            }
        }
    }
}

/// A directory holds the marker files that are listed for it, and the time of
/// one is that of its first entry.
pub proof fn law_marks_are_looked_up(ws: Workspace, dir: Seq<char>, marker: Seq<char>, n: int)
    ensures
        has_mark(ws, dir, marker) == stands(ws, dir, marker),
        0 <= n < ws.marks@.len() && ws.marks@[n].dir@ == dir && ws.marks@[n].marker@ == marker && (
        forall|j: int|
            0 <= j < n ==> !((#[trigger] ws.marks@[j]).dir@ == dir && ws.marks@[j].marker@
                == marker)) ==> mark_time(ws, dir, marker) == ws.marks@[n].modified,
{
    let marks = ws.marks@;
    lemma_mark_from(marks, dir, marker, 0);
    if let Some(t) = mark_from(marks, dir, marker, 0) {
        let k = choose|k: int|
            0 <= k < marks.len() && (#[trigger] marks[k]).dir@ == dir && marks[k].marker@ == marker
                && marks[k].modified == t && forall|j: int|
                0 <= j < k ==> !((#[trigger] marks[j]).dir@ == dir && marks[j].marker@ == marker);
        assert(marks[k].dir@ == dir && marks[k].marker@ == marker);
        if 0 <= n < marks.len() && marks[n].dir@ == dir && marks[n].marker@ == marker && k < n {
            assert(marks[k].dir@ == dir);
        }
    }
}

/// The directories above one are its parent, the parent of that, and so on,
/// up to the home directory, the root, or where there is no parent.
pub proof fn law_directories_above(dir: Seq<char>, home: Option<Seq<char>>)
    ensures
        ({
            let above = upward(dir, home);
            &&& above.len() == 0 <==> paths::parent_of(dir) is None
            &&& above.len() > 0 ==> paths::parent_of(dir) == Some(above[0])
            &&& forall|i: int|
                0 <= i < above.len() - 1 ==> paths::parent_of(#[trigger] above[i]) == Some(
                    above[i + 1],
                ) && above[i] != seq!['/'] && !(home matches Some(h) && paths::same_path(
                    above[i],
                    h,
                ))
            &&& above.len() > 0 ==> above.last() == seq!['/'] || (home matches Some(h)
                && paths::same_path(above.last(), h)) || paths::parent_of(above.last()) is None
        }),
    decreases dir.len(),
{
    reveal_strlit("/");
    assert("/"@ =~= seq!['/']);
    paths::lemma_parent_shorter(dir);
    if let Some(p) = paths::parent_of(dir) {
        let above = upward(dir, home);
        if !(p == "/"@ || is_home(p, home)) {
            law_directories_above(p, home);
            let rest = upward(p, home);
            assert(above =~= seq![p] + rest);
            assert forall|i: int| 0 <= i < above.len() - 1 implies paths::parent_of(
                #[trigger] above[i],
            ) == Some(above[i + 1]) && above[i] != seq!['/'] && !(home matches Some(h)
                && paths::same_path(above[i], h)) by {
                if i > 0 {
                    assert(above[i] == rest[i - 1]);
                    assert(above[i + 1] == rest[i]);
                }
            }
            if rest.len() > 0 {
                assert(above.last() == rest.last());
            }
        }
    }
}

/// A directory with a marker is among those with a marker.
proof fn lemma_marked_has(ws: Workspace, dirs: Seq<Seq<char>>, marker: Seq<char>, k: int)
    requires
        0 <= k < dirs.len(),
        stands(ws, dirs[k], marker),
    ensures
        marked(ws, dirs, marker).contains(dirs[k]),
    decreases dirs.len(),
{
    let t = dirs.drop_last();
    let m = marked(ws, dirs, marker);
    if k < t.len() {
        assert(t[k] == dirs[k]);
        lemma_marked_has(ws, t, marker, k);
        let i = marked(ws, t, marker).index_of(dirs[k]);
        assert(m[i] == dirs[k]);
    } else {
        law_marks_are_looked_up(ws, dirs[k], marker, 0);
        assert(m[m.len() - 1] == dirs[k]);
    }
}

/// Where no directory holds the marker, none is among those with one.
proof fn lemma_marked_none(ws: Workspace, dirs: Seq<Seq<char>>, marker: Seq<char>)
    requires
        forall|j: int| 0 <= j < dirs.len() ==> !stands(ws, #[trigger] dirs[j], marker),
    ensures
        marked(ws, dirs, marker).len() == 0,
    decreases dirs.len(),
{
    if dirs.len() > 0 {
        let t = dirs.drop_last();
        assert forall|j: int| 0 <= j < t.len() implies !stands(ws, #[trigger] t[j], marker) by {
            assert(dirs[j] == t[j]);
        }
        lemma_marked_none(ws, t, marker);
        assert(!stands(ws, dirs[dirs.len() - 1], marker));
        law_marks_are_looked_up(ws, dirs.last(), marker, 0);
    }
}

/// Where one directory holds the marker, it is the only one with it.
proof fn lemma_marked_single(ws: Workspace, dirs: Seq<Seq<char>>, marker: Seq<char>, k: int)
    requires
        0 <= k < dirs.len(),
        stands(ws, dirs[k], marker),
        forall|j: int| 0 <= j < dirs.len() && stands(ws, #[trigger] dirs[j], marker) ==> j == k,
    ensures
        marked(ws, dirs, marker) == seq![dirs[k]],
    decreases dirs.len(),
{
    let t = dirs.drop_last();
    law_marks_are_looked_up(ws, dirs.last(), marker, 0);
    if k < t.len() {
        assert(t[k] == dirs[k]);
        assert forall|j: int| 0 <= j < t.len() && stands(ws, #[trigger] t[j], marker) implies j
            == k by {
            assert(dirs[j] == t[j]);
        }
        lemma_marked_single(ws, t, marker, k);
        assert(!stands(ws, dirs[dirs.len() - 1], marker));
    } else {
        assert forall|j: int| 0 <= j < t.len() implies !stands(ws, #[trigger] t[j], marker) by {
            assert(dirs[j] == t[j]);
        }
        lemma_marked_none(ws, t, marker);
        assert(marked(ws, dirs, marker) =~= seq![dirs[k]]);
    }
}

/// Where two directories hold the marker, there are at least two with it.
proof fn lemma_marked_two(ws: Workspace, dirs: Seq<Seq<char>>, marker: Seq<char>, j: int, k: int)
    requires
        0 <= j < k < dirs.len(),
        stands(ws, dirs[j], marker),
        stands(ws, dirs[k], marker),
    ensures
        marked(ws, dirs, marker).len() >= 2,
    decreases dirs.len(),
{
    let t = dirs.drop_last();
    assert(t[j] == dirs[j]);
    law_marks_are_looked_up(ws, dirs.last(), marker, 0);
    if k < t.len() {
        assert(t[k] == dirs[k]);
        lemma_marked_two(ws, t, marker, j, k);
    } else {
        lemma_marked_has(ws, t, marker, j);
        let i = marked(ws, t, marker).index_of(t[j]);
        assert(0 <= i < marked(ws, t, marker).len());
    }
}

/// Wherever the project's marker stands above a working directory without it,
/// a project is found: with high confidence if it stands in one directory
/// only, with less if it stands in several. The root that is set is such a
/// directory.
pub proof fn law_project_above_is_found(
    command: Seq<char>,
    ws: Workspace,
    marker: Seq<char>,
    cwd: Seq<char>,
    k: int,
)
    requires
        marker_of(command) == Some(marker),
        text::opt_view(ws.cwd) == Some(cwd),
        !stands(ws, cwd, marker),
        0 <= k < upward(cwd, text::opt_view(ws.home)).len(),
        stands(ws, upward(cwd, text::opt_view(ws.home))[k], marker),
    ensures
        ({
            let above = upward(cwd, text::opt_view(ws.home));
            let found = resolution(command, ws);
            &&& found.marker == Some(marker)
            &&& found.project_root matches Some(root) && above.contains(root) && stands(
                ws,
                root,
                marker,
            )
            &&& (forall|j: int|
                0 <= j < above.len() && stands(ws, #[trigger] above[j], marker) ==> j == k) ==> {
                &&& found.project_root == Some(above[k])
                &&& found.confidence == 9
            }
            &&& (exists|j: int|
                0 <= j < above.len() && j != k && stands(ws, #[trigger] above[j], marker))
                ==> found.confidence == 7
        }),
{
    let above = upward(cwd, text::opt_view(ws.home));
    let m = marked(ws, above, marker);
    law_marks_are_looked_up(ws, cwd, marker, 0);
    lemma_marked_has(ws, above, marker, k);
    let at = m.index_of(above[k]);
    assert(0 <= at < m.len());
    assert(resolution(command, ws) == choice(ws, m, marker));
    lemma_choice_is_marked(ws, above, marker);
    if forall|j: int|
        0 <= j < above.len() && stands(ws, #[trigger] above[j], marker) ==> j == k {
        lemma_marked_single(ws, above, marker, k);
    }
    if exists|j: int| 0 <= j < above.len() && j != k && stands(ws, #[trigger] above[j], marker) {
        let j = choose|j: int|
            0 <= j < above.len() && j != k && stands(ws, #[trigger] above[j], marker);
        if j < k {
            lemma_marked_two(ws, above, marker, j, k);
        } else {
            lemma_marked_two(ws, above, marker, k, j);
        }
    }
}

/// The root that is chosen is one of the directories with the marker.
proof fn lemma_choice_is_marked(ws: Workspace, dirs: Seq<Seq<char>>, marker: Seq<char>)
    requires
        marked(ws, dirs, marker).len() > 0,
    ensures
        choice(ws, marked(ws, dirs, marker), marker).project_root matches Some(root)
            && dirs.contains(root) && stands(ws, root, marker),
{
    let m = marked(ws, dirs, marker);
    lemma_marked(ws, dirs, marker);
    lemma_newest(ws, m, marker);
    let root = choice(ws, m, marker).project_root->0;
    if m.len() == 1 {
        assert(m[0] == root);
    }
    let i = m.index_of(root);
    assert(m[i] == root);
    assert(has_mark(ws, m[i], marker));
    law_marks_are_looked_up(ws, root, marker, 0);
}

/// No root is set if the command expects no marker, if the working directory
/// is unknown, if the marker stands in it, or if it stands nowhere above it.
pub proof fn law_no_root_without_need(command: Seq<char>, ws: Workspace)
    ensures
        marker_of(command) is None ==> resolution(command, ws) == (ContextView {
            project_root: None,
            marker: None,
            confidence: 0,
        }),
        marker_of(command) matches Some(marker) ==> {
            &&& text::opt_view(ws.cwd) is None ==> resolution(command, ws) == (ContextView {
                project_root: None,
                marker: Some(marker),
                confidence: 0,
            })
            &&& text::opt_view(ws.cwd) matches Some(cwd) ==> {
                let above = upward(cwd, text::opt_view(ws.home));
                &&& stands(ws, cwd, marker) ==> resolution(command, ws) == (ContextView {
                    project_root: None,
                    marker: Some(marker),
                    confidence: 10,
                })
                &&& !stands(ws, cwd, marker) && (forall|j: int|
                    0 <= j < above.len() ==> !stands(ws, #[trigger] above[j], marker))
                    ==> resolution(command, ws) == (ContextView {
                    project_root: None,
                    marker: Some(marker),
                    confidence: 0,
                })
            }
        },
{
    if let (Some(marker), Some(cwd)) = (marker_of(command), text::opt_view(ws.cwd)) {
        let above = upward(cwd, text::opt_view(ws.home));
        law_marks_are_looked_up(ws, cwd, marker, 0);
        if forall|j: int| 0 <= j < above.len() ==> !stands(ws, #[trigger] above[j], marker) {
            lemma_marked_none(ws, above, marker);
        }
    }
}

/// Of several roots the one whose marker was modified last is taken: no other
/// one's is later, a known time counts as later than an unknown one, and the
/// nearer root is taken where the times do not differ.
pub proof fn law_newest_root_is_taken(command: Seq<char>, ws: Workspace, j: int)
    ensures
        resolution(command, ws).project_root matches Some(root) ==> {
            let marker = marker_of(command)->0;
            let above = upward(text::opt_view(ws.cwd)->0, text::opt_view(ws.home));
            let time = |d: Seq<char>| mark_time(ws, d, marker);
            0 <= j < above.len() && stands(ws, above[j], marker) ==> match (
                time(root),
                time(above[j]),
            ) {
                (_, None) => true,
                (None, Some(_)) => false,
                (Some(x), Some(y)) => x >= y,
            }
        },
{
    if resolution(command, ws).project_root is Some {
        let marker = marker_of(command)->0;
        let above = upward(text::opt_view(ws.cwd)->0, text::opt_view(ws.home));
        let m = marked(ws, above, marker);
        law_root_has_the_marker(command, ws);
        if 0 <= j < above.len() && stands(ws, above[j], marker) {
            lemma_marked_has(ws, above, marker, j);
            let i = m.index_of(above[j]);
            assert(m[i] == above[j]);
        }
    }
}

/// The directories with a marker keep their order.
proof fn lemma_marked_order(ws: Workspace, dirs: Seq<Seq<char>>, marker: Seq<char>, k: int)
    requires
        0 <= k < marked(ws, dirs, marker).len(),
    ensures
        exists|n: int|
            0 <= n < dirs.len() && #[trigger] dirs[n] == marked(ws, dirs, marker)[k] && (forall|
                j: int,
            |
                0 <= j < n && stands(ws, #[trigger] dirs[j], marker) ==> exists|i: int|
                    0 <= i < k && #[trigger] marked(ws, dirs, marker)[i] == dirs[j]),
    decreases dirs.len(),
{
    let t = dirs.drop_last();
    let n = dirs.len() - 1;
    let (m, q) = (marked(ws, dirs, marker), marked(ws, t, marker));
    if k < q.len() {
        lemma_marked_order(ws, t, marker, k);
        let p = choose|p: int|
            0 <= p < t.len() && #[trigger] t[p] == q[k] && (forall|j: int|
                0 <= j < p && stands(ws, #[trigger] t[j], marker) ==> exists|i: int|
                    0 <= i < k && #[trigger] q[i] == t[j]);
        assert(dirs[p] == m[k]);
        assert forall|j: int|
            0 <= j < p && stands(ws, #[trigger] dirs[j], marker) implies exists|i: int|
            0 <= i < k && #[trigger] m[i] == dirs[j] by {
            assert(t[j] == dirs[j]);
            let i = choose|i: int| 0 <= i < k && #[trigger] q[i] == t[j];
            assert(m[i] == dirs[j]);
        }
    } else {
        assert(dirs[n] == m[k]);
        assert forall|j: int|
            0 <= j < n && stands(ws, #[trigger] dirs[j], marker) implies exists|i: int|
            0 <= i < k && #[trigger] m[i] == dirs[j] by {
            assert(t[j] == dirs[j]);
            lemma_marked_has(ws, t, marker, j);
            let i = q.index_of(t[j]);
            assert(m[i] == dirs[j]);
        }
    }
}

/// A root that is nearer than the one that is taken was modified earlier.
pub proof fn law_nearest_of_equals_is_taken(command: Seq<char>, ws: Workspace)
    ensures
        resolution(command, ws).project_root matches Some(root) ==> {
            let marker = marker_of(command)->0;
            let above = upward(text::opt_view(ws.cwd)->0, text::opt_view(ws.home));
            exists|n: int|
                0 <= n < above.len() && #[trigger] above[n] == root && forall|j: int|
                    0 <= j < n && stands(ws, #[trigger] above[j], marker) ==> match (
                        mark_time(ws, above[j], marker),
                        mark_time(ws, root, marker),
                    ) {
                        (None, Some(_)) => true,
                        (Some(x), Some(y)) => x < y,
                        _ => false,
                    }
        },
{
    if resolution(command, ws).project_root is Some {
        let marker = marker_of(command)->0;
        let above = upward(text::opt_view(ws.cwd)->0, text::opt_view(ws.home));
        let m = marked(ws, above, marker);
        let root = resolution(command, ws).project_root->0;
        law_root_has_the_marker(command, ws);
        let k = choose|k: int|
            0 <= k < m.len() && m[k] == root && #[trigger] newer_than_nearer(ws, m, marker, k);
        lemma_marked_order(ws, above, marker, k);
        let n = choose|n: int|
            0 <= n < above.len() && #[trigger] above[n] == m[k] && (forall|j: int|
                0 <= j < n && stands(ws, #[trigger] above[j], marker) ==> exists|i: int|
                    0 <= i < k && #[trigger] m[i] == above[j]);
        assert(above[n] == root);
        assert forall|j: int| 0 <= j < n && stands(ws, #[trigger] above[j], marker) implies match (
            mark_time(ws, above[j], marker),
            mark_time(ws, root, marker),
        ) {
            (None, Some(_)) => true,
            (Some(x), Some(y)) => x < y,
            _ => false,
        } by {
            let i = choose|i: int| 0 <= i < k && #[trigger] m[i] == above[j];
            assert(!no_earlier(mark_time(ws, m[i], marker), mark_time(ws, m[k], marker)));
        }
    }
}

/// A `cd` to the root stands before the command, which is kept; without a root
/// there is nothing to prepend.
pub proof fn law_cd_goes_before_the_command(command: Seq<char>, ctx: ContextView)
    ensures
        applied(command, ctx) is Some <==> ctx.project_root is Some,
        applied(command, ctx) matches Some(out) ==> {
            let root = ctx.project_root->0;
            let n = root.len() as int;
            &&& out.len() == root.len() + command.len() + 7
            &&& out.take(3) == "cd "@
            &&& out.subrange(3, 3 + n) == root
            &&& out.subrange(3 + n, 7 + n) == " && "@
            &&& out.skip(7 + n) == command
        },
{
    reveal_strlit("cd ");
    reveal_strlit(" && ");
    if let Some(root) = ctx.project_root {
        let out = applied(command, ctx)->0;
        let n = root.len() as int;
        assert(out.take(3) =~= "cd "@);
        assert(out.subrange(3, 3 + n) =~= root);
        assert(out.subrange(3 + n, 7 + n) =~= " && "@);
        assert(out.skip(7 + n) =~= command);
    }
}

/// Tenths are written with one decimal.
pub proof fn law_tenths_have_one_decimal(whole: u32, tenth: u32)
    requires
        whole <= 1000,
        tenth < 10,
    ensures
        tenths((10 * whole + tenth) as u32) == numerals::dec(whole as nat) + "."@ + numerals::dec(
            tenth as nat,
        ),
{
}

/// The working directory of a command, by the call and its result: where a
/// directory above the working directory is the only one that holds the marker of
/// the command's tool, and the working directory does not, that one is the root.
pub proof fn law_resolve(
    command: &str,
    ws: &Workspace,
    r: ContextResult,
    marker: Seq<char>,
    cwd: Seq<char>,
    k: int,
)
    requires
        call_ensures(resolve, (command, ws), r),
        marker_of(command@) == Some(marker),
        text::opt_view(ws.cwd) == Some(cwd),
        !stands(*ws, cwd, marker),
        0 <= k < upward(cwd, text::opt_view(ws.home)).len(),
        stands(*ws, upward(cwd, text::opt_view(ws.home))[k], marker),
        forall|j: int|
            0 <= j < upward(cwd, text::opt_view(ws.home)).len() && stands(
                *ws,
                #[trigger] upward(cwd, text::opt_view(ws.home))[j],
                marker,
            ) ==> j == k,
    ensures
        r@.project_root == Some(upward(cwd, text::opt_view(ws.home))[k]),
        r@.marker == Some(marker),
        r@.confidence == 9,
{
    law_project_above_is_found(command@, *ws, marker, cwd, k);
}

/// A command of cargo expects a `Cargo.toml`, by the command and the result.
pub proof fn law_detect_marker(command: &str, r: Option<&'static str>, rest: Seq<char>)
    requires
        call_ensures(detect_marker, (command,), r),
        rest.len() == 0 || text::is_space(rest[0]),
    ensures
        command@ == "cargo"@ + rest ==> (r matches Some(m) && m@ == "Cargo.toml"@),
        command@ == "npm"@ + rest ==> (r matches Some(m) && m@ == "package.json"@),
        command@ == "go"@ + rest ==> (r matches Some(m) && m@ == "go.mod"@),
        command@ == "ls"@ + rest ==> r is None,
{
    reveal_strlit("cargo");
    reveal_strlit("npm");
    reveal_strlit("go");
    reveal_strlit("ls");
    lemma_tool_then_rest("cargo"@, rest);
    lemma_tool_then_rest("npm"@, rest);
    lemma_tool_then_rest("go"@, rest);
    lemma_tool_then_rest("ls"@, rest);
    law_markers_by_tool(command@);
    if command@ == "ls"@ + rest {
        lemma_ls_is_no_build_tool();
    }
}

/// The first word of a command that begins with a tool's name.
proof fn lemma_tool_then_rest(tool: Seq<char>, rest: Seq<char>)
    requires
        tool.len() > 0,
        forall|i: int| 0 <= i < tool.len() ==> !text::is_space(#[trigger] tool[i]),
        rest.len() == 0 || text::is_space(rest[0]),
    ensures
        text::first_word_of(tool + rest) == tool,
{
    let none = Seq::<char>::empty();
    text::law_words_stand_between_spaces(none, tool, rest);
    assert(none + tool + rest =~= tool + rest);
}

/// `ls` is none of the tools that expect a marker.
proof fn lemma_ls_is_no_build_tool()
    ensures
        ({
            let w = "ls"@;
            &&& w != "npm"@ && w != "npx"@ && w != "pnpm"@ && w != "yarn"@ && w != "vitest"@
            &&& w != "tsc"@ && w != "eslint"@ && w != "prettier"@ && w != "playwright"@
            &&& w != "prisma"@ && w != "next"@ && w != "cargo"@ && w != "rustc"@ && w != "make"@
            &&& w != "cmake"@ && w != "go"@ && w != "python"@ && w != "pip"@ && w != "poetry"@
            &&& w != "gradle"@ && w != "mvn"@
        }),
{
    reveal_strlit("ls");
    reveal_strlit("npm");
    reveal_strlit("npx");
    reveal_strlit("pnpm");
    reveal_strlit("yarn");
    reveal_strlit("vitest");
    reveal_strlit("tsc");
    reveal_strlit("eslint");
    reveal_strlit("prettier");
    reveal_strlit("playwright");
    reveal_strlit("prisma");
    reveal_strlit("next");
    reveal_strlit("cargo");
    reveal_strlit("rustc");
    reveal_strlit("make");
    reveal_strlit("cmake");
    reveal_strlit("go");
    reveal_strlit("python");
    reveal_strlit("pip");
    reveal_strlit("poetry");
    reveal_strlit("gradle");
    reveal_strlit("mvn");
    assert("ls"@.len() == 2 && "go"@.len() == 2 && "go"@[0] == 'g' && "ls"@[0] == 'l');
    assert("npm"@.len() == 3 && "npx"@.len() == 3 && "tsc"@.len() == 3 && "pip"@.len() == 3
        && "mvn"@.len() == 3);
    assert("pnpm"@.len() == 4 && "yarn"@.len() == 4 && "next"@.len() == 4 && "make"@.len() == 4);
    assert("vitest"@.len() == 6 && "eslint"@.len() == 6 && "prisma"@.len() == 6 && "python"@.len()
        == 6 && "poetry"@.len() == 6 && "gradle"@.len() == 6);
    assert("cargo"@.len() == 5 && "rustc"@.len() == 5 && "cmake"@.len() == 5);
    assert("prettier"@.len() == 8 && "playwright"@.len() == 10);
}

/// A command gets a `cd` to its root before it, by the parts and the result.
pub proof fn law_apply(command: &str, ctx: &ContextResult, r: Option<String>, root: Seq<char>)
    requires
        call_ensures(apply, (command, ctx), r),
    ensures
        ctx@.project_root == Some(root) ==> (r matches Some(out) && out@ == "cd "@ + (root + (
        " && "@ + command@))),
        ctx@.project_root is None ==> r is None,
{
    if ctx@.project_root == Some(root) {
        assert(behind_cd(root, command@) =~= "cd "@ + (root + (" && "@ + command@)));
    }
}

} // verus!
