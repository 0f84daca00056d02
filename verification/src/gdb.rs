//! Debugging with GDB.
//!
//! Detects commands that could benefit from a debugger instead of the
//! edit-compile-read-edit cycle.
use vstd::prelude::*;
use vstd::string::*;

use crate::numerals;
use crate::paths;
use crate::text;

verus! {

/// If the same command has failed this many times recently, GDB is suggested.
pub const REPEATED_FAILURE_THRESHOLD: u32 = 2;

/// The second word of a command, empty if it has none.
pub open spec fn second_word_of(command: Seq<char>) -> Seq<char> {
    if text::words(command).len() > 1 {
        text::words(command)[1]
    } else {
        Seq::empty()
    }
}

/// A command runs a binary of the current directory: `./` and a name.
pub open spec fn runs_local_binary(command: Seq<char>) -> bool {
    match text::after_prefix(command, "./"@) {
        Some(rest) => rest.len() > 0 && (text::is_alphanumeric(rest[0]) || rest[0] == '_'),
        None => false,
    }
}

/// A command runs something that a debugger can step through.
pub open spec fn debuggable(command: Seq<char>) -> bool {
    if text::first_word_of(command) == "cargo"@ {
        second_word_of(command) == "test"@ || second_word_of(command) == "run"@
    } else {
        ||| "./target/debug/"@.is_prefix_of(command)
        ||| "./target/release/"@.is_prefix_of(command)
        ||| "target/debug/"@.is_prefix_of(command)
        ||| "target/release/"@.is_prefix_of(command)
        ||| runs_local_binary(command)
        ||| "node --inspect"@.is_prefix_of(command)
    }
}

/// Checks if a command matches a debuggable pattern.
pub fn is_debuggable(command: &str) -> (r: bool)
    ensures
        r == debuggable(command@),
{
    let words = text::split_words(command);
    let ghost w = text::views(words@);
    if words.len() > 0 {
        assert(w[0] == words@[0]@);
        if text::same(words[0].as_str(), "cargo") {
            if words.len() > 1 {
                assert(w[1] == words@[1]@);
                return text::same(words[1].as_str(), "test") || text::same(
                    words[1].as_str(),
                    "run",
                );
            }
            proof {
                reveal_strlit("test");
                reveal_strlit("run");
                assert("test"@.len() == 4 && "run"@.len() == 3);
            }
            return false;
        }
    } else {
        proof {
            reveal_strlit("cargo");
            assert("cargo"@.len() == 5);
        }
    }
    if text::starts(command, "./target/debug/") || text::starts(command, "./target/release/")
        || text::starts(command, "target/debug/") || text::starts(command, "target/release/") {
        return true;
    }
    if let Some(rest) = text::strip(command, "./") {
        let v = text::chars_of(rest);
        if v.len() > 0 && (v[0].is_alphanumeric() || v[0] == '_') {
            return true;
        }
    }
    text::starts(command, "node --inspect")
}

/// What to debug for a cargo command; another command itself.
pub open spec fn binary_hint(command: Seq<char>) -> Seq<char> {
    if "cargo test"@.is_prefix_of(command) {
        "target/debug/<test-binary>"@
    } else if "cargo run"@.is_prefix_of(command) {
        "target/debug/<binary>"@
    } else {
        command
    }
}

/// Extracts a hint for what binary to debug from a cargo command.
pub fn extract_binary_hint(command: &str) -> (r: String)
    ensures
        r@ == binary_hint(command@),
{
    if text::starts(command, "cargo test") {
        "target/debug/<test-binary>".to_owned()
    } else if text::starts(command, "cargo run") {
        "target/debug/<binary>".to_owned()
    } else {
        command.to_owned()
    }
}

/// The suggestion for a command that failed `failures` times.
pub open spec fn suggestion(command: Seq<char>, failures: nat) -> Seq<char> {
    if "cargo test"@.is_prefix_of(command) || "cargo run"@.is_prefix_of(command) {
        "This command has failed "@ + numerals::dec(failures) + " times. Consider: precc debug "@
            + binary_hint(command)
    } else {
        "This binary has failed "@ + numerals::dec(failures) + " times. Consider: precc debug "@
            + command
    }
}

/// Checks if a command could benefit from GDB-based debugging.
///
/// Yields a suggestion if the command can be debugged and has failed
/// repeatedly.
pub fn check_opportunity(command: &str, recent_failure_count: u32) -> (r: Option<String>)
    ensures
        text::opt_view(r) == (if debuggable(command@) && recent_failure_count
            >= REPEATED_FAILURE_THRESHOLD {
            Some(suggestion(command@, recent_failure_count as nat))
        } else {
            None
        }),
{
    if !is_debuggable(command) {
        return None;
    }
    if recent_failure_count < REPEATED_FAILURE_THRESHOLD {
        return None;
    }
    if text::starts(command, "cargo test") || text::starts(command, "cargo run") {
        let mut out = "This command has failed ".to_owned();
        numerals::push_dec(&mut out, recent_failure_count as u64);
        out.append(" times. Consider: precc debug ");
        let hint = extract_binary_hint(command);
        out.append(hint.as_str());
        Some(out)
    } else {
        let mut out = "This binary has failed ".to_owned();
        numerals::push_dec(&mut out, recent_failure_count as u64);
        out.append(" times. Consider: precc debug ");
        out.append(command);
        Some(out)
    }
}

/// The files that a binary may be on the search path, in order.
pub open spec fn places_on_path(binary: Seq<char>, path_var: Option<Seq<char>>) -> Seq<Seq<char>> {
    match path_var {
        Some(p) => {
            let dirs = text::split(p, ':');
            Seq::new(dirs.len(), |i: int| paths::join_path(dirs[i], binary))
        },
        None => Seq::empty(),
    }
}

/// The files to test for a binary on the search path.
pub fn find_in_path(binary: &str, path_var: Option<&str>) -> (r: Vec<String>)
    ensures
        text::views(r@) == places_on_path(binary@, text::opt_str(path_var)),
{
    let mut out: Vec<String> = Vec::new();
    if let Some(p) = path_var {
        let dirs = text::split_at_char(p, ':');
        let ghost all = text::views(dirs@);
        let ghost places = places_on_path(binary@, Some(p@));
        let mut i: usize = 0;
        while i < dirs.len()
            invariant
                i <= dirs@.len(),
                all == text::views(dirs@),
                places.len() == all.len(),
                forall|j: int|
                    0 <= j < all.len() ==> #[trigger] places[j] == paths::join_path(
                        all[j],
                        binary@,
                    ),
                out@.len() == i,
                forall|j: int| 0 <= j < i ==> (#[trigger] out@[j])@ == places[j],
            decreases dirs@.len() - i,
        {
            assert(all[i as int] == dirs@[i as int]@);
            out.push(paths::path_join(dirs[i].as_str(), binary));
            i += 1;
        }
        assert(text::views(out@) =~= places);
    } else {
        assert(text::views(out@) =~= Seq::empty());
    }
    out
}

/// Whether GDB is available, given for each place that [`find_in_path`]
/// yields whether it is a file.
pub fn gdb_available(is_file: &Vec<bool>) -> (r: bool)
    ensures
        r == is_file@.contains(true),
{
    let mut i: usize = 0;
    while i < is_file.len()
        invariant
            i <= is_file@.len(),
            forall|j: int| 0 <= j < i ==> !is_file@[j],
        decreases is_file@.len() - i,
    {
        if is_file[i] {
            assert(is_file@[i as int] == true);
            return true;
        }
        i += 1;
    }
    false
}

// ---------------------------------------------------------------------------
// Debugging sessions
// ---------------------------------------------------------------------------
/// A binary was built by cargo.
pub open spec fn is_rust_binary(binary: Seq<char>, in_cargo_project: bool) -> bool {
    ||| text::contains(binary, "target/debug"@)
    ||| text::contains(binary, "target/release"@)
    ||| in_cargo_project
}

/// The script that sets a debugging session up: breakpoints on the error
/// paths of the binary's language, and a backtrace on each stop.
pub open spec fn gdb_script(is_rust: bool) -> Seq<char> {
    "# Generated by precc debug\nset pagination off\nset print pretty on\nset print array on\nset confirm off\n\n"@
        + (if is_rust {
        "# Rust panic/abort breakpoints\nbreak rust_panic\nbreak rust_begin_unwind\nbreak std::panicking::begin_panic\nbreak std::panicking::rust_panic_with_hook\n"@
    } else {
        "# Error breakpoints\nbreak abort\nbreak exit\n"@
    })
        + "\n# Show backtrace on stop\ndefine hook-stop\n  bt 10\n  info locals\nend\n\nrun\n"@
}

/// Generates the script for a binary, given whether the working directory
/// holds a `Cargo.toml`.
pub fn generate_gdbinit(binary: &str, in_cargo_project: bool) -> (r: String)
    ensures
        r@ == gdb_script(is_rust_binary(binary@, in_cargo_project)),
{
    let is_rust: bool = text::has_text(binary, "target/debug") || text::has_text(
        binary,
        "target/release",
    ) || in_cargo_project;
    let mut out =
        "# Generated by precc debug\nset pagination off\nset print pretty on\nset print array on\nset confirm off\n\n".to_owned();
    if is_rust {
        out.append(
            "# Rust panic/abort breakpoints\nbreak rust_panic\nbreak rust_begin_unwind\nbreak std::panicking::begin_panic\nbreak std::panicking::rust_panic_with_hook\n",
        );
    } else {
        out.append("# Error breakpoints\nbreak abort\nbreak exit\n");
    }
    out.append("\n# Show backtrace on stop\ndefine hook-stop\n  bt 10\n  info locals\nend\n\nrun\n");
    out
}

/// The arguments for GDB: the script, the binary and the binary's arguments.
pub fn gdb_args(script_path: &str, binary: &str, args: &Vec<String>) -> (r: Vec<String>)
    ensures
        text::views(r@) == seq!["-x"@, script_path@, "--args"@, binary@] + text::views(args@),
{
    let mut out: Vec<String> = Vec::new();
    out.push("-x".to_owned());
    out.push(script_path.to_owned());
    out.push("--args".to_owned());
    out.push(binary.to_owned());
    let ghost first = seq!["-x"@, script_path@, "--args"@, binary@];
    let ghost all = text::views(args@);
    let mut i: usize = 0;
    assert(text::views(out@) =~= first + all.take(0));
    while i < args.len()
        invariant
            i <= args@.len(),
            all == text::views(args@),
            text::views(out@) == first + all.take(i as int),
        decreases args@.len() - i,
    {
        let ghost before = text::views(out@);
        out.push(args[i].clone());
        proof {
            assert(text::views(out@) =~= before.push(args@[i as int]@));
            assert(all[i as int] == args@[i as int]@);
            assert(all.take(i + 1) =~= all.take(i as int).push(all[i as int]));
            assert(text::views(out@) =~= first + all.take(i + 1));
        }
        i += 1;
    }
    assert(all.take(i as int) =~= all);
    out
}

/// A cargo command can be debugged exactly if it tests or runs.
pub proof fn law_cargo_tests_and_runs_are_debuggable(command: Seq<char>)
    requires
        text::words(command).len() > 0,
        text::words(command)[0] == "cargo"@,
    ensures
        text::words(command).len() > 1 ==> (debuggable(command) <==> text::words(command)[1]
            == "test"@ || text::words(command)[1] == "run"@),
        text::words(command).len() == 1 ==> !debuggable(command),
{
    reveal_strlit("test");
    reveal_strlit("run");
    assert("test"@.len() == 4 && "run"@.len() == 3);
    text::law_first_word_is_kept(command, Seq::empty());
}

/// A command that does not begin with a space or with `cargo` has another first
/// word.
proof fn lemma_not_cargo(command: Seq<char>)
    requires
        command.len() > 0,
        !text::is_space(command[0]),
        command[0] != 'c',
    ensures
        text::first_word_of(command) != "cargo"@,
{
    reveal_strlit("cargo");
    text::lemma_run_len(command, text::Class::NonSpace);
    let n = text::run_len(command, text::Class::NonSpace) as int;
    let none = Seq::<char>::empty();
    let word = command.take(n);
    let rest = command.skip(n);
    assert forall|i: int| 0 <= i < word.len() implies !text::is_space(#[trigger] word[i]) by {
        assert(text::in_class(text::Class::NonSpace, command[i]));
    }
    if n < command.len() {
        assert(rest[0] == command[n]);
    }
    assert(word.len() > 0);
    text::law_words_stand_between_spaces(none, word, rest);
    assert(none + word + rest =~= command);
    assert(word[0] == command[0]);
}

/// A binary that cargo built, one of the current directory and an inspected node
/// can be debugged, whatever follows.
pub proof fn law_binaries_are_debuggable(rest: Seq<char>, c: char)
    ensures
        debuggable("./target/debug/"@ + rest),
        debuggable("./target/release/"@ + rest),
        debuggable("target/debug/"@ + rest),
        debuggable("target/release/"@ + rest),
        debuggable("node --inspect"@ + rest),
        text::is_alphanumeric(c) || c == '_' ==> debuggable("./"@ + (seq![c] + rest)),
{
    reveal_strlit("./target/debug/");
    reveal_strlit("./target/release/");
    reveal_strlit("target/debug/");
    reveal_strlit("target/release/");
    reveal_strlit("node --inspect");
    reveal_strlit("./");
    let a = "./target/debug/"@ + rest;
    let b = "./target/release/"@ + rest;
    let d = "target/debug/"@ + rest;
    let e = "target/release/"@ + rest;
    let f = "node --inspect"@ + rest;
    let g = "./"@ + (seq![c] + rest);
    assert(a.subrange(0, "./target/debug/"@.len() as int) =~= "./target/debug/"@);
    assert(b.subrange(0, "./target/release/"@.len() as int) =~= "./target/release/"@);
    assert(d.subrange(0, "target/debug/"@.len() as int) =~= "target/debug/"@);
    assert(e.subrange(0, "target/release/"@.len() as int) =~= "target/release/"@);
    assert(f.subrange(0, "node --inspect"@.len() as int) =~= "node --inspect"@);
    text::law_prefix_and_rest(g, "./"@, seq![c] + rest);
    assert((seq![c] + rest)[0] == c);
    assert(a[0] == '.' && b[0] == '.' && d[0] == 't' && e[0] == 't' && f[0] == 'n' && g[0] == '.');
    lemma_not_cargo(a);
    lemma_not_cargo(b);
    lemma_not_cargo(d);
    lemma_not_cargo(e);
    lemma_not_cargo(f);
    lemma_not_cargo(g);
}

/// No other command can be debugged.
pub proof fn law_other_commands_are_not_debuggable(command: Seq<char>)
    requires
        text::first_word_of(command) != "cargo"@,
        !"./"@.is_prefix_of(command),
        !"target/debug/"@.is_prefix_of(command),
        !"target/release/"@.is_prefix_of(command),
        !"node --inspect"@.is_prefix_of(command),
    ensures
        !debuggable(command),
{
    reveal_strlit("./");
    reveal_strlit("./target/debug/");
    reveal_strlit("./target/release/");
    text::law_prefix_and_rest(command, "./"@, command);
    if "./target/debug/"@.is_prefix_of(command) || "./target/release/"@.is_prefix_of(command) {
        assert(command.subrange(0, 2) =~= "./"@) by {
            if "./target/debug/"@.is_prefix_of(command) {
                assert(command.subrange(0, 15)[0] == '.' && command.subrange(0, 15)[1] == '/');
            } else {
                assert(command.subrange(0, 17)[0] == '.' && command.subrange(0, 17)[1] == '/');
            }
        }
    }
}

/// A debugger is suggested exactly for a command that can be debugged and has
/// failed at least twice; the suggestion ends in what to debug.
pub proof fn law_debugger_is_suggested_exactly_if(
    command: &str,
    failures: u32,
    r: Option<String>,
    rest: Seq<char>,
)
    requires
        call_ensures(check_opportunity, (command, failures), r),
    ensures
        r is Some <==> debuggable(command@) && failures >= 2,
        r matches Some(s) ==> {
            &&& command@ == "cargo test"@ + rest ==> s@ == "This command has failed "@
                + numerals::dec(failures as nat) + " times. Consider: precc debug "@
                + "target/debug/<test-binary>"@
            &&& command@ == "cargo run"@ + rest ==> s@ == "This command has failed "@
                + numerals::dec(failures as nat) + " times. Consider: precc debug "@
                + "target/debug/<binary>"@
            &&& !"cargo test"@.is_prefix_of(command@) && !"cargo run"@.is_prefix_of(command@)
                ==> s@ == "This binary has failed "@ + numerals::dec(failures as nat)
                + " times. Consider: precc debug "@ + command@
        },
{
    reveal_strlit("cargo test");
    reveal_strlit("cargo run");
    if command@ == "cargo test"@ + rest {
        assert(command@.subrange(0, 10) =~= "cargo test"@);
    }
    if command@ == "cargo run"@ + rest {
        assert(command@.subrange(0, 9) =~= "cargo run"@);
        if "cargo test"@.is_prefix_of(command@) {
            assert(command@.subrange(0, 10)[6] == 't');
            assert(command@[6] == 'r');
        }
    }
}

/// A binary is looked for in each directory of the search path, in order.
pub proof fn law_places_follow_the_search_path(
    binary: Seq<char>,
    dirs: Seq<char>,
    dir: Seq<char>,
)
    requires
        !dir.contains(':'),
    ensures
        places_on_path(binary, Some(dir)) == seq![paths::join_path(dir, binary)],
        places_on_path(binary, Some(dirs + seq![':'] + dir)) == places_on_path(
            binary,
            Some(dirs),
        ).push(paths::join_path(dir, binary)),
        places_on_path(binary, None) == Seq::<Seq<char>>::empty(),
{
    text::law_split_at_a_separator(dir, ':', Seq::empty());
    text::law_split_at_a_separator(dirs, ':', dir);
    assert(places_on_path(binary, Some(dir)) =~= seq![paths::join_path(dir, binary)]);
    assert(places_on_path(binary, Some(dirs + seq![':'] + dir)) =~= places_on_path(
        binary,
        Some(dirs),
    ).push(paths::join_path(dir, binary)));
}

/// A binary is taken for one that cargo built exactly if its path holds a target
/// directory of cargo's or the working directory is a cargo project.
pub proof fn law_rust_binaries(before: Seq<char>, behind: Seq<char>, binary: Seq<char>)
    ensures
        is_rust_binary(before + "target/debug"@ + behind, false),
        is_rust_binary(before + "target/release"@ + behind, false),
        is_rust_binary(binary, true),
        !text::contains(binary, "target/debug"@) && !text::contains(binary, "target/release"@)
            ==> !is_rust_binary(binary, false),
{
    let n = before.len() as int;
    let a = before + "target/debug"@ + behind;
    let b = before + "target/release"@ + behind;
    text::law_find_yields_the_first(a, "target/debug"@);
    text::law_find_yields_the_first(b, "target/release"@);
    assert(a.subrange(n, n + "target/debug"@.len()) =~= "target/debug"@);
    assert(b.subrange(n, n + "target/release"@.len()) =~= "target/release"@);
}

/// GDB is available exactly if one of the places holds it.
pub proof fn law_gdb_is_available(is_file: &Vec<bool>, r: bool, i: int)
    requires
        call_ensures(gdb_available, (is_file,), r),
    ensures
        0 <= i < is_file@.len() && is_file@[i] ==> r,
        (forall|j: int| 0 <= j < is_file@.len() ==> !#[trigger] is_file@[j]) ==> !r,
{
    if 0 <= i < is_file@.len() && is_file@[i] {
        assert(is_file@.contains(true));
    }
}

/// The debugger gets the script, then the binary and its arguments in their order.
pub proof fn law_arguments_of_gdb(
    script: &str,
    binary: &str,
    args: &Vec<String>,
    r: Vec<String>,
    i: int,
)
    requires
        call_ensures(gdb_args, (script, binary, args), r),
    ensures
        r@.len() == args@.len() + 4,
        r@[0]@ == "-x"@,
        r@[1]@ == script@,
        r@[2]@ == "--args"@,
        r@[3]@ == binary@,
        0 <= i < args@.len() ==> r@[i + 4]@ == args@[i]@,
{
    let all = text::views(r@);
    assert(all.len() == r@.len());
    assert(all[0] == r@[0]@ && all[1] == r@[1]@ && all[2] == r@[2]@ && all[3] == r@[3]@);
    if 0 <= i < args@.len() {
        assert(all[i + 4] == r@[i + 4]@);
        assert(text::views(args@)[i] == args@[i]@);
    }
}

/// The script for a binary that cargo built stops at panics, that for another one
/// where it aborts or exits; either runs the binary at its end.
pub proof fn law_script_stops_at_errors()
    ensures
        exists|before: Seq<char>, behind: Seq<char>|
            gdb_script(true) == #[trigger] (before + "break rust_panic\n"@ + behind),
        exists|before: Seq<char>, behind: Seq<char>|
            gdb_script(false) == #[trigger] (before + "break abort\nbreak exit\n"@ + behind),
        gdb_script(true).skip(gdb_script(true).len() - 4) == "run\n"@,
        gdb_script(false).skip(gdb_script(false).len() - 4) == "run\n"@,
{
    let head =
        "# Generated by precc debug\nset pagination off\nset print pretty on\nset print array on\nset confirm off\n\n"@;
    let rust =
        "# Rust panic/abort breakpoints\nbreak rust_panic\nbreak rust_begin_unwind\nbreak std::panicking::begin_panic\nbreak std::panicking::rust_panic_with_hook\n"@;
    let other = "# Error breakpoints\nbreak abort\nbreak exit\n"@;
    let tail =
        "\n# Show backtrace on stop\ndefine hook-stop\n  bt 10\n  info locals\nend\n\nrun\n"@;
    reveal_strlit(
        "# Rust panic/abort breakpoints\nbreak rust_panic\nbreak rust_begin_unwind\nbreak std::panicking::begin_panic\nbreak std::panicking::rust_panic_with_hook\n",
    );
    reveal_strlit("# Error breakpoints\nbreak abort\nbreak exit\n");
    reveal_strlit(
        "\n# Show backtrace on stop\ndefine hook-stop\n  bt 10\n  info locals\nend\n\nrun\n",
    );
    reveal_strlit("break rust_panic\n");
    reveal_strlit("break abort\nbreak exit\n");
    reveal_strlit("run\n");
    assert(rust.subrange(31, 48) =~= "break rust_panic\n"@);
    assert(other.subrange(20, 43) =~= "break abort\nbreak exit\n"@);
    let a = head + rust.take(31);
    let b = rust.skip(48) + tail;
    assert(rust =~= rust.take(31) + rust.subrange(31, 48) + rust.skip(48));
    assert(gdb_script(true) =~= a + "break rust_panic\n"@ + b);
    let c = head + other.take(20);
    assert(other =~= other.take(20) + other.subrange(20, 43));
    assert(gdb_script(false) =~= c + "break abort\nbreak exit\n"@ + tail);
    assert(tail.skip(tail.len() - 4) =~= "run\n"@);
    assert(gdb_script(true).skip(gdb_script(true).len() - 4) =~= tail.skip(tail.len() - 4));
    assert(gdb_script(false).skip(gdb_script(false).len() - 4) =~= tail.skip(tail.len() - 4));
}

/// A dot and a slash before what is no name is no binary to debug.
pub proof fn law_odd_names_are_not_debuggable(c: char, rest: Seq<char>)
    requires
        !text::is_alphanumeric(c),
        c != '_',
        c != 't',
    ensures
        !debuggable("./"@ + (seq![c] + rest)),
        !debuggable("./"@),
{
    reveal_strlit("./");
    reveal_strlit("./target/debug/");
    reveal_strlit("./target/release/");
    reveal_strlit("target/debug/");
    reveal_strlit("target/release/");
    reveal_strlit("node --inspect");
    let none = Seq::<char>::empty();
    let g = "./"@ + (seq![c] + rest);
    assert(g[0] == '.' && g[2] == c);
    lemma_not_cargo(g);
    lemma_not_cargo("./"@);
    text::law_prefix_and_rest(g, "./"@, seq![c] + rest);
    assert((seq![c] + rest)[0] == c);
    text::law_prefix_and_rest("./"@, "./"@, none);
    assert("./"@ + none =~= "./"@);
    if "./target/debug/"@.is_prefix_of(g) {
        assert(g.subrange(0, 15)[2] == 't');
    }
    if "./target/release/"@.is_prefix_of(g) {
        assert(g.subrange(0, 17)[2] == 't');
    }
    if "target/debug/"@.is_prefix_of(g) {
        assert(g.subrange(0, 13)[0] == 't');
    }
    if "target/release/"@.is_prefix_of(g) {
        assert(g.subrange(0, 15)[0] == 't');
    }
    if "node --inspect"@.is_prefix_of(g) {
        assert(g.subrange(0, 14)[0] == 'n');
    }
}

} // verus!
