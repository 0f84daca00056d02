//! Unix paths as text.
use vstd::prelude::*;
use vstd::string::*;

use crate::text;
use crate::text::Class;

verus! {

/// A piece of a path between two slashes that names something: neither empty
/// nor the current directory.
pub open spec fn names_something(piece: Seq<char>) -> bool {
    piece.len() > 0 && piece != "."@
}

/// The pieces that name something, in order.
pub open spec fn kept(pieces: Seq<Seq<char>>) -> Seq<Seq<char>>
    decreases pieces.len(),
{
    if pieces.len() == 0 {
        Seq::empty()
    } else if names_something(pieces.last()) {
        kept(pieces.drop_last()).push(pieces.last())
    } else {
        kept(pieces.drop_last())
    }
}

/// The components of a path.
pub open spec fn components(path: Seq<char>) -> Seq<Seq<char>> {
    kept(text::split(path, '/'))
}

/// The component that stands `back` places before the last one, unless it is
/// the parent directory.
pub open spec fn name_from_end(path: Seq<char>, back: nat) -> Option<Seq<char>> {
    let parts = components(path);
    if parts.len() > back && parts[parts.len() - 1 - back] != ".."@ {
        Some(parts[parts.len() - 1 - back])
    } else {
        None
    }
}

/// The final component of a path, if it names a file or a directory.
pub open spec fn file_name_of(path: Seq<char>) -> Option<Seq<char>> {
    name_from_end(path, 0)
}

/// A file name up to its last dot; all of it if it has no dot after the first
/// character.
pub open spec fn stem_of(name: Seq<char>) -> Seq<char> {
    let n = name.len() - text::tail_len(name, Class::Not('.'));
    if n <= 1 {
        name
    } else {
        name.take(n - 1)
    }
}

/// The file name of a path without its extension.
pub open spec fn file_stem_of(path: Seq<char>) -> Option<Seq<char>> {
    match file_name_of(path) {
        Some(name) => Some(stem_of(name)),
        None => None,
    }
}

/// The extension of the file name of a path: what follows its last dot, if
/// that is not its first character.
pub open spec fn extension_of(path: Seq<char>) -> Option<Seq<char>> {
    match file_name_of(path) {
        Some(name) => {
            let n = name.len() - text::tail_len(name, Class::Not('.'));
            if n <= 1 {
                None
            } else {
                Some(name.skip(n))
            }
        },
        None => None,
    }
}

/// A path starts at the root.
pub open spec fn is_absolute(path: Seq<char>) -> bool {
    path.len() > 0 && path[0] == '/'
}

/// `rel` below the directory `base`; `rel` itself if it is absolute.
pub open spec fn join_path(base: Seq<char>, rel: Seq<char>) -> Seq<char> {
    if is_absolute(rel) {
        rel
    } else if base.len() == 0 || base.last() == '/' {
        base + rel
    } else {
        base + "/"@ + rel
    }
}

/// A path starts at the current directory, and says so.
pub open spec fn starts_here(path: Seq<char>) -> bool {
    path == "."@ || "./"@.is_prefix_of(path)
}

/// Two paths have the same components.
pub open spec fn same_path(a: Seq<char>, b: Seq<char>) -> bool {
    &&& is_absolute(a) == is_absolute(b)
    &&& starts_here(a) == starts_here(b)
    &&& components(a) == components(b)
}

/// A path without the slashes, and the references to the current directory
/// behind a slash, at its end.
pub open spec fn settled(path: Seq<char>) -> Seq<char>
    decreases path.len(),
{
    if path.len() > 1 && (path.last() == '/' || (path.last() == '.' && path[path.len() - 2] == '/'))
    {
        settled(path.drop_last())
    } else {
        path
    }
}

/// The directory that holds what a path names; nothing for the root and for
/// the empty path.
pub open spec fn parent_of(path: Seq<char>) -> Option<Seq<char>> {
    let p = settled(path);
    if p.len() == 0 || p == "/"@ {
        None
    } else {
        Some(settled(p.take(p.len() - text::tail_len(p, Class::Not('/')))))
    }
}

/// Settling a path shortens it.
pub proof fn lemma_settled(path: Seq<char>)
    ensures
        settled(path).len() <= path.len(),
        settled(path).is_prefix_of(path),
        settled(path).len() > 1 ==> settled(path).last() != '/',
    decreases path.len(),
{
    if path.len() > 1 && (path.last() == '/' || (path.last() == '.' && path[path.len() - 2] == '/'))
    {
        lemma_settled(path.drop_last());
        let q = settled(path);
        assert(path.subrange(0, q.len() as int) =~= path.drop_last().subrange(0, q.len() as int));
    }
}

/// A parent directory's path is shorter.
pub proof fn lemma_parent_shorter(path: Seq<char>)
    ensures
        parent_of(path) matches Some(p) ==> p.len() < path.len(),
{
    let p = settled(path);
    lemma_settled(path);
    reveal_strlit("/");
    if p.len() > 0 && p != "/"@ {
        let t = text::tail_len(p, Class::Not('/')) as int;
        text::lemma_tail_len(p, Class::Not('/'));
        lemma_settled(p.take(p.len() - t));
        if t == 0 {
            assert(p.last() == '/');
            if p.len() == 1 {
                assert(p =~= "/"@);
            }
        }
    }
}

/// The components of a path.
pub fn path_components(path: &str) -> (r: Vec<String>)
    ensures
        text::views(r@) == components(path@),
{
    let pieces = text::split_at_char(path, '/');
    let ghost all = text::views(pieces@);
    let mut out: Vec<String> = Vec::new();
    let mut i: usize = 0;
    assert(all.take(0) =~= Seq::<Seq<char>>::empty());
    assert(text::views(out@) =~= kept(all.take(0)));
    while i < pieces.len()
        invariant
            i <= pieces@.len(),
            all == text::views(pieces@),
            text::views(out@) == kept(all.take(i as int)),
        decreases pieces@.len() - i,
    {
        let ghost before = text::views(out@);
        proof {
            let t = all.take(i + 1);
            assert(t.drop_last() =~= all.take(i as int));
            assert(t.last() == pieces@[i as int]@);
        }
        let piece = &pieces[i];
        if !piece.as_str().is_empty() && !text::same(piece.as_str(), ".") {
            out.push(piece.clone());
            assert(text::views(out@) =~= before.push(pieces@[i as int]@));
        }
        i += 1;
    }
    assert(all.take(i as int) =~= all);
    out
}

/// Whether two paths have the same components.
pub fn is_same_path(a: &str, b: &str) -> (r: bool)
    ensures
        r == same_path(a@, b@),
{
    proof {
        reveal_strlit("/");
        if is_absolute(a@) {
            assert(a@.subrange(0, 1) =~= "/"@);
        }
        if is_absolute(b@) {
            assert(b@.subrange(0, 1) =~= "/"@);
        }
        if "/"@.is_prefix_of(a@) {
            assert(a@.subrange(0, 1)[0] == '/');
        }
        if "/"@.is_prefix_of(b@) {
            assert(b@.subrange(0, 1)[0] == '/');
        }
    }
    if text::starts(a, "/") != text::starts(b, "/") {
        return false;
    }
    if (text::same(a, ".") || text::starts(a, "./")) != (text::same(b, ".") || text::starts(
        b,
        "./",
    )) {
        return false;
    }
    let x = path_components(a);
    let y = path_components(b);
    let ghost (p, q) = (text::views(x@), text::views(y@));
    if x.len() != y.len() {
        assert(p.len() != q.len());
        return false;
    }
    let mut i: usize = 0;
    while i < x.len()
        invariant
            i <= x@.len(),
            x@.len() == y@.len(),
            p == text::views(x@),
            q == text::views(y@),
            p == components(a@),
            q == components(b@),
            forall|j: int| 0 <= j < i ==> p[j] == q[j],
        decreases x@.len() - i,
    {
        assert(p[i as int] == x@[i as int]@ && q[i as int] == y@[i as int]@);
        if !text::same(x[i].as_str(), y[i].as_str()) {
            return false;
        }
        i += 1;
    }
    assert(p =~= q);
    true
}

/// The component `back` places before the last one.
pub fn path_name(path: &str, back: usize) -> (r: Option<String>)
    ensures
        text::opt_view(r) == name_from_end(path@, back as nat),
{
    let parts = path_components(path);
    let ghost all = text::views(parts@);
    if parts.len() > back {
        let k: usize = parts.len() - 1 - back;
        assert(all[k as int] == parts@[k as int]@);
        if text::same(parts[k].as_str(), "..") {
            None
        } else {
            Some(parts[k].clone())
        }
    } else {
        None
    }
}

/// A file name without its extension.
pub fn name_stem(name: &str) -> (r: &str)
    ensures
        r@ == stem_of(name@),
{
    let v = text::chars_of(name);
    assert(v@.subrange(0, v@.len() as int) =~= name@);
    let n: usize = text::tail_start(&v, 0, v.len(), Class::Not('.'));
    if n <= 1 {
        name
    } else {
        let r = name.substring_char(0, n - 1);
        assert(r@ =~= name@.take(n - 1));
        r
    }
}

/// The file name of a path without its extension.
pub fn path_stem(path: &str) -> (r: Option<String>)
    ensures
        text::opt_view(r) == file_stem_of(path@),
{
    match path_name(path, 0) {
        Some(name) => Some(name_stem(name.as_str()).to_owned()),
        None => None,
    }
}

/// Whether the file name of a path has the extension `ext`.
pub fn has_extension(path: &str, ext: &str) -> (r: bool)
    ensures
        r == (extension_of(path@) == Some(ext@)),
{
    match path_name(path, 0) {
        Some(name) => {
            let v = text::chars_of(name.as_str());
            assert(v@.subrange(0, v@.len() as int) =~= name@);
            let n: usize = text::tail_start(&v, 0, v.len(), Class::Not('.'));
            if n <= 1 {
                false
            } else {
                let e = text::string_of(&v, n, v.len());
                assert(e@ =~= name@.skip(n as int));
                text::same(e.as_str(), ext)
            }
        },
        None => false,
    }
}

/// `rel` below the directory `base`, or `rel` itself if it is absolute.
pub fn path_join(base: &str, rel: &str) -> (r: String)
    ensures
        r@ == join_path(base@, rel@),
{
    let r = text::chars_of(rel);
    if r.len() > 0 && r[0] == '/' {
        return rel.to_owned();
    }
    let v = text::chars_of(base);
    let mut out = base.to_owned();
    if v.len() > 0 && v[v.len() - 1] != '/' {
        out.append("/");
    }
    out.append(rel);
    out
}

/// The end of a path's settled form in its first `to` characters.
fn settled_end(v: &Vec<char>, to: usize) -> (r: usize)
    requires
        to <= v@.len(),
    ensures
        r <= to,
        v@.take(r as int) == settled(v@.take(to as int)),
{
    let mut i: usize = to;
    while i > 1 && (v[i - 1] == '/' || (v[i - 1] == '.' && v[i - 2] == '/'))
        invariant
            i <= to <= v@.len(),
            settled(v@.take(i as int)) == settled(v@.take(to as int)),
        decreases i,
    {
        assert(v@.take(i as int).drop_last() =~= v@.take(i - 1));
        i -= 1;
    }
    i
}

/// The directory that holds what a path names.
pub fn path_parent(path: &str) -> (r: Option<String>)
    ensures
        text::opt_view(r) == parent_of(path@),
        r matches Some(p) ==> p@.len() < path@.len(),
{
    let v = text::chars_of(path);
    proof {
        assert(v@.take(v@.len() as int) =~= path@);
        reveal_strlit("/");
        lemma_parent_shorter(path@);
    }
    let e: usize = settled_end(&v, v.len());
    if e == 0 || (e == 1 && v[0] == '/') {
        proof {
            if e == 1 {
                assert(v@.take(1) =~= "/"@);
            }
        }
        None
    } else {
        proof {
            assert(v@.subrange(0, e as int) =~= settled(path@));
            if settled(path@) == "/"@ {
                assert(settled(path@)[0] == v@[0]);
            }
        }
        let n: usize = text::tail_start(&v, 0, e, Class::Not('/'));
        let k: usize = settled_end(&v, n);
        proof {
            assert(settled(path@).take(n as int) =~= v@.take(n as int));
            assert(v@.subrange(0, k as int) =~= v@.take(k as int));
        }
        Some(text::string_of(&v, 0, k))
    }
}

// ---------------------------------------------------------------------------
// Laws
// ---------------------------------------------------------------------------
/// A name that can be a component of a path.
pub open spec fn is_component(name: Seq<char>) -> bool {
    name.len() > 0 && !name.contains('/') && name != "."@
}

/// A path in its plainest form: it does not end in a slash or in a reference
/// to the current directory.
pub open spec fn is_plain(dir: Seq<char>) -> bool {
    &&& dir.len() > 0
    &&& dir.last() != '/'
    &&& dir.len() == 1 || dir.last() != '.' || dir[dir.len() - 2] != '/'
}

/// The path of something in a directory does not settle to a shorter one.
proof fn lemma_component_settled(front: Seq<char>, name: Seq<char>)
    requires
        is_component(name),
        front.len() == 0 || front.last() == '/',
    ensures
        settled(front + name) == front + name,
        text::tail_len(front + name, Class::Not('/')) == name.len(),
{
    let p = front + name;
    assert(p.last() == name.last());
    assert(name.contains(name.last()));
    assert(name.last() != '/');
    reveal_strlit(".");
    if p.len() > 1 && p.last() == '.' && p[p.len() - 2] == '/' {
        if name.len() == 1 {
            assert(name =~= "."@);
        } else {
            assert(p[p.len() - 2] == name[name.len() - 2]);
            assert(name.contains(name[name.len() - 2]));
        }
    }
    assert forall|i: int| p.len() - name.len() <= i < p.len() implies text::in_class(
        Class::Not('/'),
        p[i],
    ) by {
        assert(p[i] == name[i - front.len()]);
        assert(name.contains(name[i - front.len()]));
    }
    text::lemma_tail_unique(p, Class::Not('/'), name.len() as int);
}

/// What stands in a directory has that directory as its parent; slashes at
/// the end of a path mean nothing; the root and the empty path have no parent.
pub proof fn law_parent_holds_the_child(dir: Seq<char>, name: Seq<char>)
    requires
        is_component(name),
    ensures
        is_plain(dir) ==> parent_of(dir + seq!['/'] + name) == Some(dir),
        parent_of(seq!['/'] + name) == Some(seq!['/']),
        parent_of(name) == Some(Seq::<char>::empty()),
        dir.len() > 0 ==> parent_of(dir.push('/')) == parent_of(dir),
        parent_of(seq!['/']) is None,
        parent_of(Seq::<char>::empty()) is None,
{
    reveal_strlit("/");
    assert("/"@ =~= seq!['/']);
    let none = Seq::<char>::empty();
    let root = seq!['/'];
    if is_plain(dir) {
        let front = dir + root;
        let p = front + name;
        assert(p =~= dir + root + name);
        lemma_component_settled(front, name);
        assert(p.take(p.len() - name.len()) =~= front);
        assert(front.drop_last() =~= dir);
        assert(settled(dir) == dir);
        assert(p.len() >= 3);
    }
    lemma_component_settled(root, name);
    let p = root + name;
    assert(p.take(1) =~= root);
    assert(p.len() >= 2);
    lemma_component_settled(none, name);
    assert(none + name =~= name);
    assert(name.take(0) =~= none);
    assert(name != root) by {
        if name == root {
            assert(name[0] == '/');
            assert(name.contains('/'));
        }
    }
    if dir.len() > 0 {
        assert(dir.push('/').drop_last() =~= dir);
    }
}

/// The pieces that name something, of two lists.
proof fn lemma_kept_append(a: Seq<Seq<char>>, b: Seq<Seq<char>>)
    ensures
        kept(a + b) == kept(a) + kept(b),
    decreases b.len(),
{
    if b.len() == 0 {
        assert(a + b =~= a);
        assert(kept(a) + kept(b) =~= kept(a));
    } else {
        lemma_kept_append(a, b.drop_last());
        assert((a + b).drop_last() =~= a + b.drop_last());
        assert((a + b).last() == b.last());
        assert(kept(a + b) =~= kept(a) + kept(b));
    }
}

/// One piece, if it names something.
proof fn lemma_kept_one(piece: Seq<char>)
    ensures
        kept(seq![piece]) == (if names_something(piece) {
            seq![piece]
        } else {
            Seq::empty()
        }),
{
    let one = seq![piece];
    let none = Seq::<Seq<char>>::empty();
    assert(one.drop_last() =~= none);
    assert(one.last() == piece);
    assert(kept(one.drop_last()) == none);
    assert(none.push(piece) =~= one);
}

/// A path has the components of what stands before a slash and of what stands
/// behind it; empty pieces and dots between slashes are no components.
pub proof fn law_components_stand_between_slashes(a: Seq<char>, b: Seq<char>)
    ensures
        components(a + seq!['/'] + b) == components(a) + components(b),
        is_component(a) ==> components(a) == seq![a],
        components(Seq::<char>::empty()) == Seq::<Seq<char>>::empty(),
        components(seq!['.']) == Seq::<Seq<char>>::empty(),
{
    text::law_split_at_a_separator(a, '/', b);
    lemma_kept_append(text::split(a, '/'), text::split(b, '/'));
    reveal_strlit(".");
    assert("."@ =~= seq!['.']);
    let none = Seq::<char>::empty();
    text::law_split_at_a_separator(none, '/', none);
    text::law_split_at_a_separator(seq!['.'], '/', none);
    lemma_kept_one(a);
    lemma_kept_one(none);
    lemma_kept_one(seq!['.']);
    assert(!seq!['.'].contains('/'));
}

/// The last component names the file, and the one before it its directory;
/// a reference to the parent directory names nothing.
pub proof fn law_last_component_is_the_name(dir: Seq<char>, name: Seq<char>)
    requires
        is_component(name),
    ensures
        file_name_of(dir + seq!['/'] + name) == (if name == ".."@ {
            None
        } else {
            Some(name)
        }),
        file_name_of(name) == (if name == ".."@ {
            None
        } else {
            Some(name)
        }),
        file_name_of(dir + seq!['/'] + name + seq!['/']) == file_name_of(dir + seq!['/'] + name),
        name_from_end(dir + seq!['/'] + name, 1) == name_from_end(dir, 0),
{
    let p = dir + seq!['/'] + name;
    let none = Seq::<char>::empty();
    law_components_stand_between_slashes(dir, name);
    law_components_stand_between_slashes(name, none);
    law_components_stand_between_slashes(p, none);
    assert(p + seq!['/'] + none =~= p + seq!['/']);
    assert(components(p) =~= components(dir).push(name));
    assert(components(p) + Seq::<Seq<char>>::empty() =~= components(p));
}

/// A file name is its stem, a dot and its extension, cut at the last dot; a
/// name without a dot behind its first character is all stem.
pub proof fn law_stem_and_extension(dir: Seq<char>, stem: Seq<char>, extension: Seq<char>)
    requires
        stem.len() > 0,
        !stem.contains('/'),
        !extension.contains('/'),
        !extension.contains('.'),
        stem != "."@,
    ensures
        ({
            let path = dir + seq!['/'] + (stem + seq!['.'] + extension);
            &&& file_stem_of(path) == Some(stem)
            &&& extension_of(path) == Some(extension)
        }),
        extension.len() > 0 ==> {
            let path = dir + seq!['/'] + extension;
            &&& file_stem_of(path) == Some(extension)
            &&& extension_of(path) is None
        },
{
    let name = stem + seq!['.'] + extension;
    let k = Class::Not('.');
    reveal_strlit(".");
    reveal_strlit("..");
    assert(!name.contains('/')) by {
        if name.contains('/') {
            let i = name.index_of('/');
            if i < stem.len() {
                assert(stem[i] == '/');
            } else if i > stem.len() {
                assert(extension[i - stem.len() - 1] == '/');
            }
        }
    }
    assert(name.len() >= 2);
    if name == ".."@ {
        assert(stem[0] == name[0]);
        assert(extension.len() == 0);
        assert(stem =~= "."@);
    }
    law_last_component_is_the_name(dir, name);
    assert forall|i: int| name.len() - extension.len() <= i < name.len() implies text::in_class(
        k,
        name[i],
    ) by {
        assert(name[i] == extension[i - stem.len() - 1]);
        assert(extension.contains(extension[i - stem.len() - 1]));
    }
    assert(name[stem.len() as int] == '.');
    text::lemma_tail_unique(name, k, extension.len() as int);
    assert(name.take(stem.len() as int) =~= stem);
    assert(name.skip(stem.len() as int + 1) =~= extension);
    if extension.len() > 0 {
        if extension == "."@ || extension == ".."@ {
            assert(extension[0] == '.');
            assert(extension.contains('.'));
        }
        law_last_component_is_the_name(dir, extension);
        assert forall|i: int| 0 <= i < extension.len() implies text::in_class(k, extension[i]) by {
            assert(extension.contains(extension[i]));
        }
        text::lemma_tail_unique(extension, k, extension.len() as int);
    }
}

/// A relative path below a directory has the components of both; an absolute
/// one stands for itself.
pub proof fn law_joined_paths(base: Seq<char>, rel: Seq<char>)
    ensures
        rel.len() > 0 && rel[0] == '/' ==> join_path(base, rel) == rel,
        rel.len() == 0 || rel[0] != '/' ==> {
            &&& base.is_prefix_of(join_path(base, rel))
            &&& components(join_path(base, rel)) == components(base) + components(rel)
            &&& base.len() > 0 ==> is_absolute(join_path(base, rel)) == is_absolute(base)
        },
{
    reveal_strlit("/");
    assert("/"@ =~= seq!['/']);
    let none = Seq::<char>::empty();
    if rel.len() == 0 || rel[0] != '/' {
        let out = join_path(base, rel);
        assert(out.subrange(0, base.len() as int) =~= base);
        law_components_stand_between_slashes(base, rel);
        if base.len() == 0 {
            assert(out =~= rel);
            assert(base =~= none);
            law_components_stand_between_slashes(none, none);
            assert(components(base) + components(rel) =~= components(rel));
        } else if base.last() == '/' {
            let d = base.drop_last();
            assert(base =~= d + seq!['/'] + none);
            assert(out =~= d + seq!['/'] + rel);
            law_components_stand_between_slashes(d, rel);
            law_components_stand_between_slashes(d, none);
            assert(components(d) + Seq::<Seq<char>>::empty() =~= components(d));
        }
    }
}

/// Slashes at the end, doubled slashes and references to the current
/// directory between slashes do not tell two paths apart; a name does.
pub proof fn law_same_paths(dir: Seq<char>, name: Seq<char>, rest: Seq<char>)
    requires
        dir.len() > 0,
        is_component(name),
    ensures
        same_path(dir, dir + seq!['/']),
        same_path(dir + seq!['/'] + rest, dir + seq!['/', '/'] + rest),
        same_path(dir + seq!['/'] + rest, dir + seq!['/', '.', '/'] + rest),
        !same_path(dir, dir + seq!['/'] + name),
{
    let none = Seq::<char>::empty();
    let root = seq!['/'];
    reveal_strlit(".");
    reveal_strlit("./");
    law_components_stand_between_slashes(dir, none);
    law_components_stand_between_slashes(dir, rest);
    law_components_stand_between_slashes(dir, name);
    law_components_stand_between_slashes(name, none);
    law_components_stand_between_slashes(dir + root, rest);
    law_components_stand_between_slashes(dir, seq!['.']);
    law_components_stand_between_slashes(dir + root + seq!['.'], rest);
    let empty = Seq::<Seq<char>>::empty();
    assert(components(dir) + empty =~= components(dir));
    assert(dir + root + none =~= dir + root);
    let one = dir + root + rest;
    let two = dir + seq!['/', '/'] + rest;
    let dot = dir + seq!['/', '.', '/'] + rest;
    assert(two =~= dir + root + root + rest);
    assert(dot =~= dir + root + seq!['.'] + root + rest);
    assert(components(dir + root + name).len() == components(dir).len() + 1);
    assert forall|t: Seq<char>| starts_here(#[trigger] (dir + root + t)) == (dir[0] == '.' && (
    dir.len() == 1 || dir[1] == '/')) by {
        let p = dir + root + t;
        assert(p[0] == dir[0]);
        assert(p[1] == (if dir.len() > 1 {
            dir[1]
        } else {
            '/'
        }));
        if p[0] == '.' && p[1] == '/' {
            assert(p.subrange(0, 2) =~= "./"@);
        }
        if "./"@.is_prefix_of(p) {
            assert(p.subrange(0, 2)[0] == '.' && p.subrange(0, 2)[1] == '/');
        }
    }
    assert(dir + root + none =~= dir + root);
    assert(two =~= dir + root + (root + rest));
    assert(dot =~= dir + root + (seq!['.', '/'] + rest));
    assert(starts_here(dir) == (dir[0] == '.' && (dir.len() == 1 || dir[1] == '/'))) by {
        if dir[0] == '.' && dir.len() == 1 {
            assert(dir =~= "."@);
        }
        if dir.len() > 1 && dir[0] == '.' && dir[1] == '/' {
            assert(dir.subrange(0, 2) =~= "./"@);
        }
        if "./"@.is_prefix_of(dir) {
            assert(dir.subrange(0, 2)[0] == '.' && dir.subrange(0, 2)[1] == '/');
        }
    }
}

/// One slash stands between a directory and what is below it, and nothing else is
/// added.
pub proof fn law_one_slash_joins(base: Seq<char>, rel: Seq<char>)
    requires
        rel.len() == 0 || rel[0] != '/',
    ensures
        base.len() > 0 && base.last() != '/' ==> join_path(base, rel) == base + seq!['/'] + rel,
        base.len() > 0 && base.last() == '/' ==> join_path(base, rel) == base + rel,
        join_path(Seq::empty(), rel) == rel,
{
    reveal_strlit("/");
    assert("/"@ =~= seq!['/']);
    assert(Seq::<char>::empty() + rel =~= rel);
    if is_absolute(rel) {
        assert(rel.subrange(0, 1)[0] == rel[0]);
    }
}

/// A reference to the current directory at the end of a path changes nothing of where
/// it lies.
pub proof fn law_parent_ignores_the_current_directory(dir: Seq<char>)
    requires
        dir.len() > 0,
    ensures
        parent_of(dir + seq!['/', '.']) == parent_of(dir),
{
    let path = dir + seq!['/', '.'];
    assert(path.drop_last() =~= dir.push('/'));
    assert(dir.push('/').drop_last() =~= dir);
    assert(settled(path) == settled(dir.push('/')));
    assert(settled(dir.push('/')) == settled(dir));
}

} // verus!
