//! The skills that ship with the program.
use vstd::prelude::*;
use vstd::string::*;

use crate::paths;
use crate::text;

verus! {

/// The number of entries of [`BUILTIN_SKILLS`].
pub const BUILTIN_COUNT: usize = 12;

/// The file names of the shipped skills.
pub const BUILTIN_SKILLS: [&'static str; 12] = [
    "cargo-wrong-dir.toml",
    "git-wrong-dir.toml",
    "go-wrong-dir.toml",
    "make-wrong-dir.toml",
    "npm-wrong-dir.toml",
    "python-wrong-dir.toml",
    "gradle-wrong-dir.toml",
    "maven-wrong-dir.toml",
    "bazel-wrong-dir.toml",
    "docker-compose-wrong-dir.toml",
    "terraform-wrong-dir.toml",
    "just-wrong-dir.toml",
];

/// The indices of the files that are not there.
pub open spec fn missing(exists: Seq<bool>) -> Seq<int>
    decreases exists.len(),
{
    if exists.len() == 0 {
        Seq::empty()
    } else if exists.last() {
        missing(exists.drop_last())
    } else {
        missing(exists.drop_last()).push(exists.len() - 1)
    }
}

/// The values of a sequence of indices.
pub open spec fn indices(v: Seq<usize>) -> Seq<int> {
    Seq::new(v.len(), |i: int| v[i] as int)
}

/// Which files to write, given for each whether it exists. Existing files are
/// left alone, so that edits survive.
pub fn materialize(exists: &Vec<bool>) -> (r: Vec<usize>)
    ensures
        indices(r@) == missing(exists@),
{
    let mut out: Vec<usize> = Vec::new();
    let mut i: usize = 0;
    assert(indices(out@) =~= missing(exists@.take(0)));
    while i < exists.len()
        invariant
            i <= exists@.len(),
            indices(out@) == missing(exists@.take(i as int)),
        decreases exists@.len() - i,
    {
        let ghost before = indices(out@);
        proof {
            let t = exists@.take(i + 1);
            assert(t.drop_last() =~= exists@.take(i as int));
            assert(t.last() == exists@[i as int]);
        }
        if !exists[i] {
            out.push(i);
            assert(indices(out@) =~= before.push(i as int));
        }
        i += 1;
    }
    assert(exists@.take(i as int) =~= exists@);
    out
}

/// Once every file is there, none is written.
pub proof fn law_nothing_is_overwritten(exists: Seq<bool>)
    requires
        forall|i: int| 0 <= i < exists.len() ==> exists[i],
    ensures
        missing(exists).len() == 0,
    decreases exists.len(),
{
    if exists.len() > 0 {
        assert(exists.last() == exists[exists.len() - 1]);
        law_nothing_is_overwritten(exists.drop_last());
    }
}

/// The directories from `dir` upward, `n` of them or as many as there are.
pub open spec fn levels(dir: Option<Seq<char>>, n: nat) -> Seq<Seq<char>>
    decreases n,
{
    match dir {
        Some(d) => if n == 0 {
            Seq::empty()
        } else {
            seq![d] + levels(paths::parent_of(d), (n - 1) as nat)
        },
        None => Seq::empty(),
    }
}

/// The directory of the skills below the home directory.
pub open spec fn home_skills(home: Seq<char>) -> Seq<char> {
    home + "/.local/share/precc/skills/builtin"@
}

/// Where the directory of the shipped skills may be: next to the program or
/// up to four levels above it, then below the home directory.
pub open spec fn skills_places(exe: Option<Seq<char>>, home: Option<Seq<char>>) -> Seq<Seq<char>> {
    let near = match exe {
        Some(e) => levels(paths::parent_of(e), 5),
        None => Seq::empty(),
    };
    let first = Seq::new(near.len(), |i: int| paths::join_path(near[i], "skills/builtin"@));
    match home {
        Some(h) => first.push(home_skills(h)),
        None => first,
    }
}

/// The directory into which the shipped skills are written and from which
/// they are loaded: below the data directory that is set, else below the home
/// directory.
pub open spec fn skills_home_place(
    data_home: Option<Seq<char>>,
    home: Option<Seq<char>>,
) -> Option<Seq<char>> {
    match data_home {
        Some(d) => Some(paths::join_path(d, "precc/skills/builtin"@)),
        None => match home {
            Some(h) => Some(home_skills(h)),
            None => None,
        },
    }
}

/// The directory into which the shipped skills are written; nothing if
/// neither directory is set.
pub fn skills_home(data_home: Option<&str>, home: Option<&str>) -> (r: Option<String>)
    ensures
        text::opt_view(r) == skills_home_place(text::opt_str(data_home), text::opt_str(home)),
{
    match data_home {
        Some(d) => Some(paths::path_join(d, "precc/skills/builtin")),
        None => match home {
            Some(h) => {
                let mut own = h.to_owned();
                own.append("/.local/share/precc/skills/builtin");
                Some(own)
            },
            None => None,
        },
    }
}

/// The directories from `dir` upward.
fn climb(dir: Option<String>, n: usize) -> (r: Vec<String>)
    ensures
        text::views(r@) == levels(text::opt_view(dir), n as nat),
{
    let ghost all = levels(text::opt_view(dir), n as nat);
    let mut out: Vec<String> = Vec::new();
    let mut next = dir;
    let mut left: usize = n;
    assert(text::views(out@) + all =~= all);
    while left > 0
        invariant
            left <= n,
            all == levels(text::opt_view(dir), n as nat),
            text::views(out@) + levels(text::opt_view(next), left as nat) == all,
        decreases left,
    {
        let ghost before = text::views(out@);
        match next {
            Some(d) => {
                let parent = paths::path_parent(d.as_str());
                out.push(d);
                proof {
                    assert(text::views(out@) =~= before.push(d@));
                    assert(before + (seq![d@] + levels(paths::parent_of(d@), (left - 1) as nat))
                        =~= before.push(d@) + levels(paths::parent_of(d@), (left - 1) as nat));
                }
                next = parent;
            },
            None => {
                assert(text::views(out@) =~= all);
                return out;
            },
        }
        left -= 1;
    }
    proof {
        assert(levels(text::opt_view(next), 0) =~= Seq::empty());
        assert(text::views(out@) =~= all);
    }
    out
}

/// The directories to test, in order, for the shipped skills.
pub fn find_skills_dir(exe: Option<&str>, home: Option<&str>) -> (r: Vec<String>)
    ensures
        text::views(r@) == skills_places(text::opt_str(exe), text::opt_str(home)),
{
    let start: Option<String> = match exe {
        Some(e) => paths::path_parent(e),
        None => None,
    };
    let near = climb(start, 5);
    let ghost all = text::views(near@);
    assert(exe is None ==> all =~= Seq::empty());
    let ghost first = Seq::new(all.len(), |i: int| paths::join_path(all[i], "skills/builtin"@));
    let mut out: Vec<String> = Vec::new();
    let mut i: usize = 0;
    while i < near.len()
        invariant
            i <= near@.len(),
            all == text::views(near@),
            first == Seq::new(all.len(), |j: int| paths::join_path(all[j], "skills/builtin"@)),
            text::views(out@) == first.take(i as int),
        decreases near@.len() - i,
    {
        let ghost before = text::views(out@);
        out.push(paths::path_join(near[i].as_str(), "skills/builtin"));
        proof {
            assert(all[i as int] == near@[i as int]@);
            assert(text::views(out@) =~= before.push(first[i as int]));
            assert(first.take(i + 1) =~= first.take(i as int).push(first[i as int]));
        }
        i += 1;
    }
    assert(first.take(i as int) =~= first);
    if let Some(h) = home {
        let ghost before = text::views(out@);
        let mut own = h.to_owned();
        own.append("/.local/share/precc/skills/builtin");
        out.push(own);
        assert(text::views(out@) =~= before.push(home_skills(h@)));
    }
    out
}

/// The home directory's skills are always looked for, after all others.
pub proof fn law_home_skills_are_looked_for(exe: Option<Seq<char>>, home: Seq<char>)
    ensures
        skills_places(exe, Some(home)).len() > 0,
        skills_places(exe, Some(home)).last() == home_skills(home),
{
}

/// A file is written exactly if it is not there, and files are written in their
/// order, each once.
pub proof fn law_missing_files_are_written(exists: Seq<bool>)
    ensures
        forall|i: int| #[trigger] missing(exists).contains(i) <==> 0 <= i < exists.len()
            && !exists[i],
        forall|a: int, b: int|
            0 <= a < b < missing(exists).len() ==> missing(exists)[a] < missing(exists)[b],
    decreases exists.len(),
{
    let all = missing(exists);
    if exists.len() > 0 {
        let front = exists.drop_last();
        law_missing_files_are_written(front);
        let m = missing(front);
        let last = exists.len() - 1;
        assert forall|i: int| #[trigger] all.contains(i) <==> 0 <= i < exists.len()
            && !exists[i] by {
            assert(m.contains(i) <==> 0 <= i < front.len() && !front[i]);
            if !exists.last() {
                if all.contains(i) {
                    let k = choose|k: int| 0 <= k < all.len() && all[k] == i;
                    if k < m.len() {
                        assert(m[k] == i);
                    }
                }
                if m.contains(i) {
                    let k = choose|k: int| 0 <= k < m.len() && m[k] == i;
                    assert(all[k] == i);
                }
                if i == last {
                    assert(all[m.len() as int] == last);
                }
            }
        }
        assert forall|a: int, b: int| 0 <= a < b < all.len() implies all[a] < all[b] by {
            if b < m.len() {
                assert(m[a] < m[b]);
            } else {
                assert(m.contains(m[a]));
            }
        }
    }
}

/// The directories from one upward are that one and then the parent of each, as
/// many as asked for or as there are.
pub proof fn law_levels_go_upward(dir: Seq<char>, n: nat)
    ensures
        n == 0 ==> levels(Some(dir), n).len() == 0,
        n > 0 ==> {
            let all = levels(Some(dir), n);
            &&& all.len() > 0
            &&& all.len() <= n
            &&& all[0] == dir
            &&& forall|i: int|
                0 <= i < all.len() - 1 ==> paths::parent_of(#[trigger] all[i]) == Some(all[i + 1])
            &&& all.len() < n ==> paths::parent_of(all.last()) is None
        },
    decreases n,
{
    if n > 0 {
        let all = levels(Some(dir), n);
        if let Some(up) = paths::parent_of(dir) {
            law_levels_go_upward(up, (n - 1) as nat);
            let rest = levels(Some(up), (n - 1) as nat);
            assert(all =~= seq![dir] + rest);
            assert forall|i: int| 0 <= i < all.len() - 1 implies paths::parent_of(
                #[trigger] all[i],
            ) == Some(all[i + 1]) by {
                if i > 0 {
                    assert(all[i] == rest[i - 1]);
                    assert(all[i + 1] == rest[i]);
                }
            }
            if n > 1 {
                assert(all.last() == rest.last());
            }
        } else {
            assert(levels(None, (n - 1) as nat) == Seq::<Seq<char>>::empty());
            assert(all =~= seq![dir]);
        }
    }
}

/// The shipped skills are looked for next to the program, then in the four
/// directories above it, then below the home directory.
pub proof fn law_skills_are_looked_for_upward(
    exe: Seq<char>,
    dir: Seq<char>,
    home: Option<Seq<char>>,
    i: int,
)
    requires
        paths::parent_of(exe) == Some(dir),
    ensures
        ({
            let places = skills_places(Some(exe), home);
            let up = levels(Some(dir), 5);
            &&& places.len() == up.len() + (if home is Some {
                1int
            } else {
                0
            })
            &&& 0 <= i < up.len() ==> places[i] == paths::join_path(up[i], "skills/builtin"@)
            &&& home matches Some(h) ==> places.last() == h + "/.local/share/precc/skills/builtin"@
        }),
        skills_places(None, None).len() == 0,
{
}

/// The shipped skills are written below the data directory that is set, else
/// below the home directory, else nowhere.
pub proof fn law_place_of_written_skills(data: Seq<char>, home: Option<Seq<char>>, h: Seq<char>)
    ensures
        skills_home_place(Some(data), home) matches Some(p) ==> {
            &&& data.is_prefix_of(p)
            &&& paths::components(p) == paths::components(data) + paths::components(
                "precc/skills/builtin"@,
            )
        },
        skills_home_place(Some(data), home) is Some,
        skills_home_place(None, Some(h)) == Some(h + "/.local/share/precc/skills/builtin"@),
        skills_home_place(None, None) is None,
{
    reveal_strlit("precc/skills/builtin");
    paths::law_joined_paths(data, "precc/skills/builtin"@);
}

/// The files to write, by what exists and the result.
pub proof fn law_materialize(exists: &Vec<bool>, r: Vec<usize>, i: usize)
    requires
        call_ensures(materialize, (exists,), r),
    ensures
        r@.contains(i) <==> i < exists@.len() && !exists@[i as int],
{
    law_missing_files_are_written(exists@);
    let all = indices(r@);
    assert(missing(exists@).contains(i as int) <==> 0 <= i < exists@.len() && !exists@[i as int]);
    if r@.contains(i) {
        let k = choose|k: int| 0 <= k < r@.len() && r@[k] == i;
        assert(all[k] == i as int);
    }
    if all.contains(i as int) {
        let k = choose|k: int| 0 <= k < all.len() && all[k] == i as int;
        assert(r@[k] == i);
    }
}

} // verus!
