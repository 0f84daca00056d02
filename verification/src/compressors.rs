//! Compressor adapters: pluggable backends that wrap a recognised command
//! into a token-efficient invocation.
//!
//! A compressor is identified by name in the user's config. The default is
//! [`NoneCompressor`], which wraps nothing.
use vstd::prelude::*;
use vstd::string::*;

use crate::paths;
use crate::text;
use crate::text::Class;

verus! {

/// Backend that wraps a canonical invocation into a token-saving call.
pub trait Compressor {
    /// The short name.
    spec fn label(&self) -> Seq<char>;

    /// Whether the backend performs no work.
    spec fn does_nothing(&self) -> bool;

    /// Whether the backing tool is installed and runnable.
    spec fn installed(&self) -> bool;

    /// Whether `command` is an invocation of the backend already.
    spec fn wraps_already(&self, command: Seq<char>) -> bool;

    /// The invocation that wraps `canonical` followed by `tail`.
    spec fn wrapped(&self, canonical: Seq<char>, tail: Seq<char>) -> Seq<char>;

    /// Short name (e.g. `"rtk"`, `"none"`). Used in config and in reasons.
    fn name(&self) -> (r: &'static str)
        ensures
            r@ == self.label(),
    ;

    /// Whether this compressor performs no work.
    fn is_noop(&self) -> (r: bool)
        ensures
            r == self.does_nothing(),
    ;

    /// Whether the backing tool is installed and runnable.
    fn is_available(&self) -> (r: bool)
        ensures
            r == self.installed(),
    ;

    /// True if `command` is already a wrapped invocation of this compressor
    /// (avoids double-wrapping).
    fn is_already_wrapped(&self, command: &str) -> (r: bool)
        ensures
            r == self.wraps_already(command@),
    ;

    /// Produces the wrapped invocation. `canonical` is the rule's canonical
    /// form; `tail` is everything that followed the matched prefix in the raw
    /// command, beginning with a space if it is not empty: one is put before a
    /// tab or a line feed.
    fn wrap(&self, canonical: &str, tail: &str) -> (r: String)
        ensures
            r@ == self.wrapped(canonical@, tail@),
    ;
}

/// The no-op compressor. Commands are wrapped only once the user configures
/// a different one.
pub struct NoneCompressor;

impl Compressor for NoneCompressor {
    open spec fn label(&self) -> Seq<char> {
        "none"@
    }

    open spec fn does_nothing(&self) -> bool {
        true
    }

    open spec fn installed(&self) -> bool {
        true
    }

    open spec fn wraps_already(&self, command: Seq<char>) -> bool {
        false
    }

    open spec fn wrapped(&self, canonical: Seq<char>, tail: Seq<char>) -> Seq<char> {
        canonical + tail
    }

    fn name(&self) -> (r: &'static str) {
        "none"
    }

    fn is_noop(&self) -> (r: bool) {
        true
    }

    fn is_available(&self) -> (r: bool) {
        true
    }

    fn is_already_wrapped(&self, command: &str) -> (r: bool) {
        false
    }

    fn wrap(&self, canonical: &str, tail: &str) -> (r: String) {
        let mut out = canonical.to_owned();
        out.append(tail);
        out
    }
}

/// RTK compressor adapter: wraps a canonical command in an `rtk <canonical>`
/// invocation.
pub struct RtkCompressor {
    /// Whether the `rtk` binary was found on this machine.
    pub available: bool,
}

impl Compressor for RtkCompressor {
    open spec fn label(&self) -> Seq<char> {
        "rtk"@
    }

    open spec fn does_nothing(&self) -> bool {
        false
    }

    open spec fn installed(&self) -> bool {
        self.available
    }

    open spec fn wraps_already(&self, command: Seq<char>) -> bool {
        "rtk "@.is_prefix_of(command) || text::contains(command, "/rtk "@)
    }

    open spec fn wrapped(&self, canonical: Seq<char>, tail: Seq<char>) -> Seq<char> {
        "rtk "@ + canonical + tail
    }

    fn name(&self) -> (r: &'static str) {
        "rtk"
    }

    fn is_noop(&self) -> (r: bool) {
        false
    }

    fn is_available(&self) -> (r: bool) {
        self.available
    }

    fn is_already_wrapped(&self, command: &str) -> (r: bool) {
        text::starts(command, "rtk ") || text::has_text(command, "/rtk ")
    }

    fn wrap(&self, canonical: &str, tail: &str) -> (r: String) {
        let mut out = "rtk ".to_owned();
        out.append(canonical);
        out.append(tail);
        out
    }
}

/// A compressor picked by name.
pub enum Backend {
    /// No wrapping.
    Plain(NoneCompressor),
    /// Wrapping by `rtk`.
    Rtk(RtkCompressor),
}

impl Compressor for Backend {
    open spec fn label(&self) -> Seq<char> {
        match self {
            Backend::Plain(c) => c.label(),
            Backend::Rtk(c) => c.label(),
        }
    }

    open spec fn does_nothing(&self) -> bool {
        match self {
            Backend::Plain(c) => c.does_nothing(),
            Backend::Rtk(c) => c.does_nothing(),
        }
    }

    open spec fn installed(&self) -> bool {
        match self {
            Backend::Plain(c) => c.installed(),
            Backend::Rtk(c) => c.installed(),
        }
    }

    open spec fn wraps_already(&self, command: Seq<char>) -> bool {
        match self {
            Backend::Plain(c) => c.wraps_already(command),
            Backend::Rtk(c) => c.wraps_already(command),
        }
    }

    open spec fn wrapped(&self, canonical: Seq<char>, tail: Seq<char>) -> Seq<char> {
        match self {
            Backend::Plain(c) => c.wrapped(canonical, tail),
            Backend::Rtk(c) => c.wrapped(canonical, tail),
        }
    }

    fn name(&self) -> (r: &'static str) {
        match self {
            Backend::Plain(c) => c.name(),
            Backend::Rtk(c) => c.name(),
        }
    }

    fn is_noop(&self) -> (r: bool) {
        match self {
            Backend::Plain(c) => c.is_noop(),
            Backend::Rtk(c) => c.is_noop(),
        }
    }

    fn is_available(&self) -> (r: bool) {
        match self {
            Backend::Plain(c) => c.is_available(),
            Backend::Rtk(c) => c.is_available(),
        }
    }

    fn is_already_wrapped(&self, command: &str) -> (r: bool) {
        match self {
            Backend::Plain(c) => c.is_already_wrapped(command),
            Backend::Rtk(c) => c.is_already_wrapped(command),
        }
    }

    fn wrap(&self, canonical: &str, tail: &str) -> (r: String) {
        match self {
            Backend::Plain(c) => c.wrap(canonical, tail),
            Backend::Rtk(c) => c.wrap(canonical, tail),
        }
    }
}

/// The compressor that a name stands for on a machine where `rtk` is
/// installed or not.
pub open spec fn backend_for(name: Seq<char>, rtk_available: bool) -> Backend {
    if name == "rtk"@ {
        Backend::Rtk(RtkCompressor { available: rtk_available })
    } else {
        Backend::Plain(NoneCompressor)
    }
}

/// Picks a compressor by name. Unknown names fall back to no wrapping.
pub fn resolve(name: &str, rtk_available: bool) -> (r: Backend)
    ensures
        r == backend_for(name@, rtk_available),
{
    if text::same(name, "rtk") {
        Backend::Rtk(RtkCompressor { available: rtk_available })
    } else {
        Backend::Plain(NoneCompressor)
    }
}

/// The value of a `compressor` setting, given the line's text after the key:
/// an equals sign and the name in double quotes.
pub open spec fn setting_value(rest: Seq<char>) -> Option<Seq<char>> {
    match text::after_prefix(text::trim_start(rest), "="@) {
        Some(v) => match text::after_prefix(text::trim(v), "\""@) {
            Some(q) => if text::run_len(q, Class::Not('"')) < q.len() {
                Some(q.take(text::run_len(q, Class::Not('"')) as int))
            } else {
                None
            },
            None => None,
        },
        None => None,
    }
}

/// The compressor's name in the lines of a config file. The first line that
/// starts with the key decides, well-formed or not.
pub open spec fn setting_in(lines: Seq<Seq<char>>) -> Option<Seq<char>>
    decreases lines.len(),
{
    if lines.len() == 0 {
        None
    } else {
        match text::after_prefix(text::trim(lines[0]), "compressor"@) {
            Some(rest) => setting_value(rest),
            None => setting_in(lines.skip(1)),
        }
    }
}

/// Reads the value of a `compressor` setting.
fn read_setting(rest: &str) -> (r: Option<String>)
    ensures
        text::opt_view(r) == setting_value(rest@),
{
    match text::strip(text::trimmed_start(rest), "=") {
        Some(v) => match text::strip(text::trimmed(v), "\"") {
            Some(q) => {
                let c = text::chars_of(q);
                let e: usize = text::run_end(&c, 0, Class::Not('"'));
                assert(c@.skip(0) =~= q@);
                if e < c.len() {
                    assert(c@.subrange(0, e as int) =~= q@.take(e as int));
                    Some(text::string_of(&c, 0, e))
                } else {
                    None
                }
            },
            None => None,
        },
        None => None,
    }
}

/// Reads the compressor's name from the text of a config file.
pub fn configured_name(config: &str) -> (r: Option<String>)
    ensures
        text::opt_view(r) == setting_in(text::lines(config@)),
{
    let lines = text::split_lines(config);
    let ghost all = text::views(lines@);
    let mut i: usize = 0;
    assert(all.skip(0) =~= all);
    while i < lines.len()
        invariant
            i <= lines@.len(),
            all == text::views(lines@),
            setting_in(all.skip(i as int)) == setting_in(all),
            all == text::lines(config@),
        decreases lines@.len() - i,
    {
        proof {
            assert(all.skip(i as int)[0] == lines@[i as int]@);
            assert(all.skip(i as int).skip(1) =~= all.skip(i + 1));
        }
        match text::strip(text::trimmed(lines[i].as_str()), "compressor") {
            Some(rest) => {
                return read_setting(rest);
            },
            None => {},
        }
        i += 1;
    }
    None
}

/// The name under which a config selects a compressor: `"none"` without a
/// usable config.
pub open spec fn selected_name(config: Option<Seq<char>>) -> Seq<char> {
    match config {
        Some(t) => match setting_in(text::lines(t)) {
            Some(name) => name,
            None => "none"@,
        },
        None => "none"@,
    }
}

/// The compressor that the text of the config file selects. Defaults to no
/// wrapping.
pub fn active(config: Option<&str>, rtk_available: bool) -> (r: Backend)
    ensures
        r == backend_for(selected_name(text::opt_str(config)), rtk_available),
{
    let name: Option<String> = match config {
        Some(t) => configured_name(t),
        None => None,
    };
    match name {
        Some(n) => resolve(n.as_str(), rtk_available),
        None => resolve("none", rtk_available),
    }
}

/// A place where the `rtk` binary may be.
pub struct Probe {
    /// The path to test.
    pub path: String,
    /// Whether a hit is written to the cache file.
    pub remember: bool,
}

impl View for Probe {
    type V = (Seq<char>, bool);

    open spec fn view(&self) -> (Seq<char>, bool) {
        (self.path@, self.remember)
    }
}

/// The views of a sequence of probes.
pub open spec fn probe_views(v: Seq<Probe>) -> Seq<(Seq<char>, bool)> {
    Seq::new(v.len(), |i: int| v[i]@)
}

/// The cached path, tested first and not written again.
pub open spec fn cached_probe(cached: Option<Seq<char>>) -> Seq<(Seq<char>, bool)> {
    match cached {
        Some(c) => if text::trim(c).len() > 0 {
            seq![(text::trim(c), false)]
        } else {
            Seq::empty()
        },
        None => Seq::empty(),
    }
}

/// The places below the home directory and in the system directories.
pub open spec fn common_probes(home: Seq<char>) -> Seq<(Seq<char>, bool)> {
    seq![
        (home + "/.cargo/bin/rtk"@, true),
        ("/usr/local/bin/rtk"@, true),
        ("/usr/bin/rtk"@, true),
    ]
}

/// The directories of the search path.
pub open spec fn search_probes(
    dirs: Seq<Seq<char>>,
    binary: Seq<char>,
    remember: bool,
) -> Seq<(Seq<char>, bool)> {
    Seq::new(dirs.len(), |i: int| (paths::join_path(dirs[i], binary), remember))
}

/// The places to test for `rtk`, in order.
pub open spec fn rtk_places(
    home: Option<Seq<char>>,
    cached: Option<Seq<char>>,
    path_var: Option<Seq<char>>,
) -> Seq<(Seq<char>, bool)> {
    let near = match home {
        Some(h) => cached_probe(cached) + common_probes(h),
        None => Seq::empty(),
    };
    match path_var {
        Some(p) => near + search_probes(text::split(p, ':'), "rtk"@, home is Some),
        None => near,
    }
}

/// Where to look for the `rtk` binary, in order: the path found last time,
/// the usual places, then the search path. `rtk` is available if one of them
/// is a file; the first such one is remembered if its probe says so.
pub fn rtk_probes(home: Option<&str>, cached: Option<&str>, path_var: Option<&str>) -> (r: Vec<
    Probe,
>)
    ensures
        probe_views(r@) == rtk_places(
            text::opt_str(home),
            text::opt_str(cached),
            text::opt_str(path_var),
        ),
{
    let mut out: Vec<Probe> = Vec::new();
    if let Some(h) = home {
        if let Some(c) = cached {
            let p = text::trimmed(c);
            if !p.is_empty() {
                out.push(Probe { path: p.to_owned(), remember: false });
            }
        }
        assert(probe_views(out@) =~= cached_probe(text::opt_str(cached)));
        let mut own = h.to_owned();
        own.append("/.cargo/bin/rtk");
        out.push(Probe { path: own, remember: true });
        out.push(Probe { path: "/usr/local/bin/rtk".to_owned(), remember: true });
        out.push(Probe { path: "/usr/bin/rtk".to_owned(), remember: true });
        assert(probe_views(out@) =~= cached_probe(text::opt_str(cached)) + common_probes(h@));
    }
    let ghost near = probe_views(out@);
    if home.is_none() {
        assert(near =~= Seq::empty());
    }
    if let Some(p) = path_var {
        let dirs = text::split_at_char(p, ':');
        let ghost all = text::views(dirs@);
        let remember: bool = home.is_some();
        let ghost more = search_probes(all, "rtk"@, remember);
        let mut i: usize = 0;
        assert(near =~= near + more.take(0));
        while i < dirs.len()
            invariant
                i <= dirs@.len(),
                all == text::views(dirs@),
                more == search_probes(all, "rtk"@, remember),
                probe_views(out@) == near + more.take(i as int),
            decreases dirs@.len() - i,
        {
            let ghost before = probe_views(out@);
            out.push(Probe { path: paths::path_join(dirs[i].as_str(), "rtk"), remember: remember });
            proof {
                assert(all[i as int] == dirs@[i as int]@);
                assert(probe_views(out@) =~= before.push(more[i as int]));
                assert(more.take(i + 1) =~= more.take(i as int).push(more[i as int]));
                assert(probe_views(out@) =~= near + more.take(i + 1));
            }
            i += 1;
        }
        assert(more.take(i as int) =~= more);
    }
    out
}

/// The compressor named `rtk` wraps where it is installed; every other name
/// stands for the one that does nothing.
pub proof fn law_only_rtk_wraps(name: Seq<char>, rtk_available: bool)
    ensures
        name == "rtk"@ ==> {
            let c = backend_for(name, rtk_available);
            &&& !c.does_nothing()
            &&& c.installed() == rtk_available
            &&& c.label() == "rtk"@
        },
        name != "rtk"@ ==> {
            let c = backend_for(name, rtk_available);
            &&& c.does_nothing()
            &&& c.label() == "none"@
        },
{
}

/// A wrapped command is `rtk`, the canonical form and the tail; a command that
/// begins with `rtk` or runs an `rtk` by its path is wrapped already.
pub proof fn law_rtk_stands_before_the_command(
    c: &RtkCompressor,
    canonical: Seq<char>,
    tail: Seq<char>,
    before: Seq<char>,
)
    ensures
        c.wrapped(canonical, tail) == "rtk "@ + (canonical + tail),
        c.wraps_already(c.wrapped(canonical, tail)),
        c.wraps_already("rtk "@ + tail),
        c.wraps_already(before + "/rtk "@ + tail),
{
    assert(c.wrapped(canonical, tail) =~= "rtk "@ + (canonical + tail));
    let a = "rtk "@ + (canonical + tail);
    assert(a.subrange(0, "rtk "@.len() as int) =~= "rtk "@);
    let b = "rtk "@ + tail;
    assert(b.subrange(0, "rtk "@.len() as int) =~= "rtk "@);
    let d = before + "/rtk "@ + tail;
    text::law_find_yields_the_first(d, "/rtk "@);
    let n = before.len() as int;
    assert(d.subrange(n, n + "/rtk "@.len()) =~= "/rtk "@);
}

/// The first line of a config that begins with the key sets the compressor, by a
/// name in double quotes behind an equals sign, whatever space stands around
/// them and whatever follows.
pub proof fn law_config_line_names_the_compressor(
    skipped: Seq<Seq<char>>,
    front: Seq<char>,
    gap: Seq<char>,
    more_gap: Seq<char>,
    name: Seq<char>,
    more: Seq<char>,
    back: Seq<char>,
    rest: Seq<Seq<char>>,
)
    requires
        forall|i: int|
            0 <= i < skipped.len() ==> !"compressor"@.is_prefix_of(
                text::trim(#[trigger] skipped[i]),
            ),
        forall|i: int| 0 <= i < front.len() ==> text::is_space(#[trigger] front[i]),
        forall|i: int| 0 <= i < gap.len() ==> text::is_space(#[trigger] gap[i]),
        forall|i: int| 0 <= i < more_gap.len() ==> text::is_space(#[trigger] more_gap[i]),
        forall|i: int| 0 <= i < back.len() ==> text::is_space(#[trigger] back[i]),
        !name.contains('"'),
        more.len() > 0 ==> !text::is_space(more.last()),
    ensures
        setting_in(
            skipped + seq![
                front + ("compressor"@ + gap + "="@ + more_gap + "\""@ + name + "\""@ + more)
                    + back,
            ] + rest,
        ) == Some(name),
{
    let core = "compressor"@ + gap + "="@ + more_gap + "\""@ + name + "\""@ + more;
    let line = front + core + back;
    let all = skipped + seq![line] + rest;
    let end = "\""@ + more;
    let set = "="@ + (more_gap + ("\""@ + (name + end)));
    reveal_strlit("compressor");
    reveal_strlit("\"");
    assert(core =~= "compressor"@ + (gap + set)) by {
        assert("compressor"@ + (gap + set) =~= "compressor"@ + gap + set);
        assert(set =~= "="@ + more_gap + ("\""@ + name + end));
    }
    lemma_end_of_setting(more);
    assert(core =~= "compressor"@ + gap + "="@ + more_gap + "\""@ + name + end);
    assert(core.last() == end.last());
    text::law_trim_takes_spaces_off(front, core, back);
    text::law_prefix_and_rest(core, "compressor"@, gap + set);
    lemma_setting_value(gap, more_gap, name, more);
    assert forall|i: int| 0 <= i < skipped.len() implies !"compressor"@.is_prefix_of(
        text::trim(#[trigger] all[i]),
    ) by {
        assert(all[i] == skipped[i]);
    }
    lemma_setting_in(all, skipped.len() as int);
    assert(all[skipped.len() as int] == line);
}

/// What ends a setting's line is no space.
proof fn lemma_end_of_setting(more: Seq<char>)
    requires
        more.len() > 0 ==> !text::is_space(more.last()),
    ensures
        ("\""@ + more).len() > 0,
        !text::is_space(("\""@ + more).last()),
        ("\""@ + more)[0] == '"',
{
    reveal_strlit("\"");
    if more.len() > 0 {
        assert(("\""@ + more).last() == more.last());
    }
}

/// The value of a setting, behind its key.
proof fn lemma_setting_value(
    gap: Seq<char>,
    more_gap: Seq<char>,
    name: Seq<char>,
    more: Seq<char>,
)
    requires
        forall|i: int| 0 <= i < gap.len() ==> text::is_space(#[trigger] gap[i]),
        forall|i: int| 0 <= i < more_gap.len() ==> text::is_space(#[trigger] more_gap[i]),
        !name.contains('"'),
        more.len() > 0 ==> !text::is_space(more.last()),
    ensures
        setting_value(gap + ("="@ + (more_gap + ("\""@ + (name + ("\""@ + more)))))) == Some(name),
{
    let none = Seq::<char>::empty();
    let end = "\""@ + more;
    let q = name + end;
    let quoted = "\""@ + q;
    let v = more_gap + quoted;
    let set = "="@ + v;
    reveal_strlit("=");
    reveal_strlit("\"");
    lemma_end_of_setting(more);
    assert(q.last() == end.last());
    assert(quoted[0] == '"');
    assert(quoted.last() == q.last());
    assert(v.last() == quoted.last());
    assert(set[0] == '=');
    assert(set.last() == v.last());
    text::law_trim_takes_spaces_off(gap, set, none);
    assert(gap + set + none =~= gap + set);
    assert(set + none =~= set);
    text::law_prefix_and_rest(set, "="@, v);
    text::law_trim_takes_spaces_off(more_gap, quoted, none);
    assert(more_gap + quoted + none =~= v);
    text::law_prefix_and_rest(quoted, "\""@, q);
    let n = name.len() as int;
    assert forall|i: int| 0 <= i < n implies text::in_class(
        Class::Not('"'),
        #[trigger] q[i],
    ) by {
        assert(name.contains(name[i]));
    }
    assert(q[n] == '"');
    text::lemma_run_unique(q, Class::Not('"'), n);
    assert(q.take(n) =~= name);
}

/// Lines that do not begin with the key are passed over.
proof fn lemma_setting_in(lines: Seq<Seq<char>>, k: int)
    requires
        0 <= k <= lines.len(),
        forall|i: int|
            0 <= i < k ==> !"compressor"@.is_prefix_of(text::trim(#[trigger] lines[i])),
    ensures
        k == lines.len() ==> setting_in(lines) is None,
        k < lines.len() ==> match text::after_prefix(text::trim(lines[k]), "compressor"@) {
            Some(rest) => setting_in(lines) == setting_value(rest),
            None => true,
        },
    decreases k,
{
    if k > 0 {
        assert(!"compressor"@.is_prefix_of(text::trim(lines[0])));
        assert forall|i: int| 0 <= i < k - 1 implies !"compressor"@.is_prefix_of(
            text::trim(#[trigger] lines.skip(1)[i]),
        ) by {
            assert(lines.skip(1)[i] == lines[i + 1]);
        }
        lemma_setting_in(lines.skip(1), k - 1);
        if k < lines.len() {
            assert(lines.skip(1)[k - 1] == lines[k]);
        }
    }
}

/// Without a config, and with one that has no such line, no compressor is set
/// and `none` is selected; else the name that is set.
pub proof fn law_no_setting_selects_none(config: Seq<char>)
    ensures
        selected_name(None) == "none"@,
        (forall|i: int|
            0 <= i < text::lines(config).len() ==> !"compressor"@.is_prefix_of(
                text::trim(#[trigger] text::lines(config)[i]),
            )) ==> selected_name(Some(config)) == "none"@,
        setting_in(text::lines(config)) is Some ==> selected_name(Some(config)) == setting_in(
            text::lines(config),
        )->0,
{
    if forall|i: int|
        0 <= i < text::lines(config).len() ==> !"compressor"@.is_prefix_of(
            text::trim(#[trigger] text::lines(config)[i]),
        ) {
        lemma_setting_in(text::lines(config), text::lines(config).len() as int);
    }
}

/// `rtk` is looked for where it was found last time, which is not written down
/// again, then below the home directory and in the system's directories, then in
/// the directories of the search path in their order. A find outside of the
/// cache is written down if there is a home.
pub proof fn law_places_of_rtk(
    home: Seq<char>,
    front: Seq<char>,
    cached: Seq<char>,
    back: Seq<char>,
    path: Option<Seq<char>>,
    dirs: Seq<char>,
    dir: Seq<char>,
)
    requires
        forall|i: int| 0 <= i < front.len() ==> text::is_space(#[trigger] front[i]),
        forall|i: int| 0 <= i < back.len() ==> text::is_space(#[trigger] back[i]),
        cached.len() > 0,
        !text::is_space(cached[0]),
        !text::is_space(cached.last()),
    ensures
        rtk_places(Some(home), Some(front + cached + back), path) == seq![(cached, false)]
            + rtk_places(Some(home), None, path),
        rtk_places(Some(home), Some(front), path) == rtk_places(Some(home), None, path),
        rtk_places(Some(home), None, None) == seq![
            (home + "/.cargo/bin/rtk"@, true),
            ("/usr/local/bin/rtk"@, true),
            ("/usr/bin/rtk"@, true),
        ],
        rtk_places(None, Some(cached), None) == Seq::<(Seq<char>, bool)>::empty(),
        !dir.contains(':') ==> rtk_places(None, Some(cached), Some(dir)) == seq![
            (paths::join_path(dir, "rtk"@), false),
        ],
        !dir.contains(':') ==> rtk_places(None, Some(cached), Some(dirs + seq![':'] + dir))
            == rtk_places(None, Some(cached), Some(dirs)) + seq![
            (paths::join_path(dir, "rtk"@), false),
        ],
        !dir.contains(':') ==> rtk_places(Some(home), None, Some(dir)) == rtk_places(
            Some(home),
            None,
            None,
        ) + seq![(paths::join_path(dir, "rtk"@), true)],
        !dir.contains(':') ==> rtk_places(Some(home), None, Some(dirs + seq![':'] + dir))
            == rtk_places(Some(home), None, Some(dirs)) + seq![
            (paths::join_path(dir, "rtk"@), true),
        ],
{
    let none = Seq::<char>::empty();
    let nil = Seq::<(Seq<char>, bool)>::empty();
    text::law_trim_takes_spaces_off(front, cached, back);
    text::law_trim_takes_spaces_off(front, none, none);
    assert(front + none + none =~= front);
    assert(rtk_places(Some(home), Some(front + cached + back), path) =~= seq![(cached, false)]
        + rtk_places(Some(home), None, path));
    assert(nil + common_probes(home) =~= common_probes(home));
    if !dir.contains(':') {
        text::law_split_at_a_separator(dir, ':', none);
        text::law_split_at_a_separator(dirs, ':', dir);
        assert(rtk_places(None, Some(cached), Some(dir)) =~= seq![
            (paths::join_path(dir, "rtk"@), false),
        ]);
        assert(rtk_places(None, Some(cached), Some(dirs + seq![':'] + dir)) =~= rtk_places(
            None,
            Some(cached),
            Some(dirs),
        ) + seq![(paths::join_path(dir, "rtk"@), false)]);
        assert(rtk_places(Some(home), None, Some(dir)) =~= rtk_places(Some(home), None, None)
            + seq![(paths::join_path(dir, "rtk"@), true)]);
        assert(rtk_places(Some(home), None, Some(dirs + seq![':'] + dir)) =~= rtk_places(
            Some(home),
            None,
            Some(dirs),
        ) + seq![(paths::join_path(dir, "rtk"@), true)]);
    }
}

/// A compressor that was picked behaves as the one that it stands for.
pub proof fn law_picked_compressor(
    c: RtkCompressor,
    none: NoneCompressor,
    command: Seq<char>,
    canonical: Seq<char>,
    tail: Seq<char>,
)
    ensures
        ({
            let b = Backend::Rtk(c);
            &&& b.label() == "rtk"@
            &&& !b.does_nothing()
            &&& b.installed() == c.available
            &&& b.wraps_already(command) == c.wraps_already(command)
            &&& b.wrapped(canonical, tail) == "rtk "@ + (canonical + tail)
        }),
        ({
            let b = Backend::Plain(none);
            &&& b.label() == "none"@
            &&& b.does_nothing()
            &&& b.installed()
            &&& !b.wraps_already(command)
            &&& b.wrapped(canonical, tail) == canonical + tail
        }),
{
    assert("rtk "@ + canonical + tail =~= "rtk "@ + (canonical + tail));
}

} // verus!
