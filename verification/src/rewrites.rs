//! Pluggable command rewriting.
//!
//! Commands whose output is verbose enough to be worth compressing are
//! recognised here, and a configured [`Compressor`] is asked to wrap them.
//! Recognition is independent of the wrapper tool; adapters live in
//! [`crate::compressors`].
use vstd::prelude::*;
use vstd::string::*;

use crate::compressors::Compressor;
use crate::compressors::NoneCompressor;
use crate::compressors::RtkCompressor;
use crate::text;

verus! {

/// A wrappable invocation: if a raw command starts with `from`, it is a
/// candidate for compression and the canonical form to wrap is `canonical`.
#[derive(Clone, Copy)]
pub struct RewriteRule {
    /// Prefix that flags the command as wrappable.
    pub from: &'static str,
    /// Canonical invocation the compressor will receive. Often equal to
    /// `from`, but some rules canonicalise (e.g. `eslint` to `lint`).
    pub canonical: &'static str,
    /// Estimated tokens saved per wrap (rough output-compression heuristic).
    pub est_tokens_saved: u32,
}

/// The number of rules.
pub const RULE_COUNT: usize = 64;

/// The rules: prefix, canonical form, estimated tokens saved. Checked in
/// order; the first match wins.
pub const RULES: [(&'static str, &'static str, u32); 64] = [
    // Git
    ("git status", "git status", 160),
    ("git diff", "git diff", 160),
    ("git log", "git log", 160),
    ("git add", "git add", 60),
    ("git commit", "git commit", 60),
    ("git push", "git push", 60),
    ("git pull", "git pull", 60),
    ("git branch", "git branch", 60),
    ("git fetch", "git fetch", 60),
    ("git stash", "git stash", 60),
    ("git show", "git show", 60),
    // GitHub CLI
    ("gh pr", "gh pr", 120),
    ("gh issue", "gh issue", 120),
    ("gh run", "gh run", 120),
    // Cargo
    ("cargo test", "cargo test", 420),
    ("cargo build", "cargo build", 420),
    ("cargo clippy", "cargo clippy", 420),
    ("cargo check", "cargo check", 300),
    ("cargo run", "cargo run", 200),
    ("cargo fmt", "cargo fmt", 60),
    // npm / yarn / pnpm
    ("npm test", "vitest run", 380),
    ("npm run", "npm run", 200),
    ("npm install", "npm install", 200),
    ("yarn test", "vitest run", 380),
    ("yarn add", "yarn add", 200),
    ("pnpm test", "vitest run", 380),
    ("pnpm vitest", "vitest run", 380),
    ("vitest", "vitest run", 380),
    ("pnpm tsc", "tsc", 300),
    ("npx tsc", "tsc", 300),
    ("tsc", "tsc", 300),
    ("pnpm lint", "lint", 300),
    ("npx eslint", "lint", 300),
    ("eslint", "lint", 300),
    ("npx prettier", "prettier", 200),
    ("prettier", "prettier", 200),
    ("pnpm playwright", "playwright", 400),
    ("npx playwright", "playwright", 400),
    ("playwright", "playwright", 400),
    ("npx prisma", "prisma", 200),
    ("prisma", "prisma", 200),
    ("pnpm list", "pnpm list", 100),
    ("pnpm ls", "pnpm ls", 100),
    ("pnpm outdated", "pnpm outdated", 100),
    // Python
    ("python -m pytest", "pytest", 380),
    ("pytest", "pytest", 380),
    ("pip install", "pip install", 200),
    // Go
    ("go test", "go test", 380),
    ("go build", "go build", 300),
    // Files / search
    ("cat", "read", 200),
    ("ls", "ls", 100),
    ("rg", "grep", 200),
    ("grep", "grep", 200),
    // Docker / kubernetes
    ("docker build", "docker build", 500),
    ("docker run", "docker run", 300),
    ("docker ps", "docker ps", 200),
    ("docker images", "docker images", 200),
    ("docker logs", "docker logs", 400),
    ("kubectl describe", "kubectl describe", 300),
    ("kubectl apply", "kubectl apply", 200),
    ("kubectl get", "kubectl get", 300),
    ("kubectl logs", "kubectl logs", 400),
    // HTTP / build
    ("curl", "curl", 200),
    ("make", "make", 400),
];

/// The rule at index `i` of the table.
pub open spec fn rule_at(i: int) -> RewriteRule {
    RewriteRule { from: RULES[i].0, canonical: RULES[i].1, est_tokens_saved: RULES[i].2 }
}

/// The length of the leading `cd … && ` of a command, or 0.
pub open spec fn cd_prefix_len(command: Seq<char>) -> int {
    if "cd "@.is_prefix_of(command) {
        match text::find(command, " && "@) {
            Some(p) => p + 4,
            None => 0,
        }
    } else {
        0
    }
}

/// A leading `cd … && ` ends inside the command.
pub proof fn lemma_cd_prefix_len(command: Seq<char>)
    ensures
        0 <= cd_prefix_len(command) <= command.len(),
{
    reveal_strlit(" && ");
    text::lemma_find_from(command, " && "@, 0);
}

/// A character that ends the words of a prefix.
pub open spec fn is_boundary(c: char) -> bool {
    c == ' ' || c == '\t' || c == '\n'
}

/// A command invokes what `prefix` names: it is the prefix, or the prefix
/// followed by a space, a tab or a line feed.
pub open spec fn invokes(command: Seq<char>, prefix: Seq<char>) -> bool {
    ||| command == prefix
    ||| prefix.is_prefix_of(command) && command.len() > prefix.len()
        && is_boundary(command[prefix.len() as int])
}

/// The first rule at or after index `i` that `cmd` invokes.
pub open spec fn rule_from(cmd: Seq<char>, i: int) -> Option<int>
    decreases RULE_COUNT - i,
{
    if i < 0 || i >= RULE_COUNT {
        None
    } else if invokes(cmd, RULES[i].0@) {
        Some(i)
    } else {
        rule_from(cmd, i + 1)
    }
}

/// The rule that a command matches, its leading `cd … && ` left aside.
pub open spec fn rule_for(command: Seq<char>) -> Option<int> {
    rule_from(command.skip(cd_prefix_len(command)), 0)
}

/// The rule found is the first that the command invokes; none is found if
/// the command invokes none.
pub proof fn lemma_rule_from(cmd: Seq<char>, i: int)
    requires
        0 <= i,
    ensures
        match rule_from(cmd, i) {
            Some(n) => i <= n < RULE_COUNT && invokes(cmd, RULES[n].0@) && forall|j: int|
                i <= j < n ==> !invokes(cmd, #[trigger] RULES[j].0@),
            None => forall|j: int|
                i <= j < RULE_COUNT ==> !invokes(cmd, #[trigger] RULES[j].0@),
        },
    decreases RULE_COUNT - i,
{
    if i < RULE_COUNT && !invokes(cmd, RULES[i].0@) {
        lemma_rule_from(cmd, i + 1);
    }
}

/// Whether a command invokes what `prefix` names.
pub fn matches_prefix(command: &str, prefix: &str) -> (r: bool)
    ensures
        r == invokes(command@, prefix@),
{
    if text::same(command, prefix) {
        return true;
    }
    if text::starts(command, prefix) {
        let c = text::chars_of(command);
        let n: usize = prefix.unicode_len();
        n < c.len() && (c[n] == ' ' || c[n] == '\t' || c[n] == '\n')
    } else {
        false
    }
}

/// Splits `cd … && rest` into (`"cd … && "`, `"rest"`); for other commands
/// yields (`""`, `command`).
pub fn split_cd_prefix(command: &str) -> (r: (&str, &str))
    ensures
        r.0@ == command@.take(cd_prefix_len(command@)),
        r.1@ == command@.skip(cd_prefix_len(command@)),
        r.0@ + r.1@ == command@,
{
    let n: usize = command.unicode_len();
    proof {
        reveal_strlit(" && ");
        lemma_cd_prefix_len(command@);
        assert(command@.take(0) =~= command@.subrange(0, 0));
        assert(command@.skip(0) =~= command@);
        let k = cd_prefix_len(command@);
        assert(command@.take(k) + command@.skip(k) =~= command@);
        assert(command@.take(k) =~= command@.subrange(0, k));
        assert(command@.skip(k) =~= command@.subrange(k, n as int));
    }
    if text::starts(command, "cd ") {
        if let Some(pos) = text::find_text(command, " && ") {
            let k: usize = pos + 4;
            return (command.substring_char(0, k), command.substring_char(k, n));
        }
    }
    (command.substring_char(0, 0), command)
}

/// A command without its leading `cd … && `.
pub fn strip_cd_prefix(command: &str) -> (r: &str)
    ensures
        r@ == command@.skip(cd_prefix_len(command@)),
{
    split_cd_prefix(command).1
}

/// The index of the rule that a command matches.
fn match_index(command: &str) -> (r: Option<usize>)
    ensures
        match r {
            Some(i) => rule_for(command@) == Some(i as int) && i < RULE_COUNT,
            None => rule_for(command@) is None,
        },
{
    let cmd = strip_cd_prefix(command);
    let mut i: usize = 0;
    while i < RULE_COUNT
        invariant
            i <= RULE_COUNT,
            cmd@ == command@.skip(cd_prefix_len(command@)),
            rule_from(cmd@, i as int) == rule_for(command@),
        decreases RULE_COUNT - i,
    {
        if matches_prefix(cmd, RULES[i].0) {
            return Some(i);
        }
        i += 1;
    }
    None
}

/// Finds the rule for `command`, ignoring a leading `cd … && `.
pub fn match_rule(command: &str) -> (r: Option<RewriteRule>)
    ensures
        r == (match rule_for(command@) {
            Some(i) => Some(rule_at(i)),
            None => None,
        }),
{
    match match_index(command) {
        Some(i) => Some(
            RewriteRule {
                from: RULES[i].0,
                canonical: RULES[i].1,
                est_tokens_saved: RULES[i].2,
            },
        ),
        None => None,
    }
}

/// The estimate of the rule that a command matches, 0 if it matches none.
pub open spec fn saved_by(command: Seq<char>) -> u32 {
    match rule_for(command) {
        Some(i) => rule_at(i).est_tokens_saved,
        None => 0,
    }
}

/// Estimates the tokens saved by wrapping `command` with any compressor.
/// Yields 0 if no rule matches.
pub fn tokens_saved(command: &str) -> (r: u32)
    ensures
        r == saved_by(command@),
{
    match match_rule(command) {
        Some(rule) => rule.est_tokens_saved,
        None => 0,
    }
}

/// A tail that begins with a space if it is not empty: one is put before a tab
/// or a line feed.
pub open spec fn spaced(tail: Seq<char>) -> Seq<char> {
    if tail.len() == 0 || tail[0] == ' ' {
        tail
    } else {
        seq![' '] + tail
    }
}

/// What follows the prefix of the rule that a command matches, its leading
/// `cd … && ` left aside, as it is handed to a compressor.
pub open spec fn tail_of(command: Seq<char>, rule: int) -> Seq<char> {
    spaced(command.skip(cd_prefix_len(command)).skip(rule_at(rule).from@.len() as int))
}

/// What is handed on behind a rule's canonical form is empty or begins with a
/// space, and nothing of the command is lost: but for a space that was put
/// before a tab or a line feed it is what followed the prefix.
pub proof fn law_tail_begins_with_a_space(command: Seq<char>)
    ensures
        rule_for(command) matches Some(i) ==> {
            let tail = tail_of(command, i);
            let raw = command.skip(cd_prefix_len(command)).skip(rule_at(i).from@.len() as int);
            &&& tail.len() == 0 || tail[0] == ' '
            &&& tail == raw || (raw.len() > 0 && is_boundary(raw[0]) && tail == seq![' '] + raw)
        },
{
    if let Some(i) = rule_for(command) {
        let cmd = command.skip(cd_prefix_len(command));
        lemma_rule_from(cmd, 0);
        let raw = cmd.skip(rule_at(i).from@.len() as int);
        if cmd != rule_at(i).from@ {
            assert(raw[0] == cmd[rule_at(i).from@.len() as int]);
        }
    }
}

/// The wrapped form of a command: nothing when the compressor performs no
/// work or is unavailable, when the command holds a heredoc or is wrapped
/// already, or when no rule matches. A leading `cd … && ` is kept.
pub open spec fn rewritten<C: Compressor + ?Sized>(command: Seq<char>, compressor: &C) -> Option<
    Seq<char>,
> {
    if compressor.does_nothing() || text::contains(command, "<<"@) || compressor.wraps_already(
        command,
    ) || !compressor.installed() {
        None
    } else {
        match rule_for(command) {
            Some(i) => {
                let k = cd_prefix_len(command);
                Some(
                    command.take(k) + compressor.wrapped(
                        rule_at(i).canonical@,
                        tail_of(command, i),
                    ),
                )
            },
            None => None,
        }
    }
}

/// A tail, with a space at its front unless it is empty.
fn spaced_tail(tail: &str) -> (r: String)
    ensures
        r@ == spaced(tail@),
{
    if tail.is_empty() || text::starts(tail, " ") {
        proof {
            reveal_strlit(" ");
            if " "@.is_prefix_of(tail@) {
                assert(tail@.subrange(0, 1)[0] == tail@[0]);
            }
        }
        return tail.to_owned();
    }
    let mut out = " ".to_owned();
    out.append(tail);
    proof {
        reveal_strlit(" ");
        assert(" "@ =~= seq![' ']);
        if tail@[0] == ' ' {
            assert(tail@.subrange(0, 1) =~= " "@);
        }
    }
    out
}

/// Wraps a command using the configured compressor. Yields `None` when no
/// rule matches, when the compressor does nothing or is unavailable, or when
/// the command is already wrapped or contains a heredoc.
pub fn rewrite<C: Compressor + ?Sized>(command: &str, compressor: &C) -> (r: Option<String>)
    ensures
        text::opt_view(r) == rewritten(command@, compressor),
        r is Some ==> rule_for(command@) is Some,
        r is Some ==> {
            let tail = tail_of(command@, rule_for(command@)->0);
            tail.len() == 0 || tail[0] == ' '
        },
{
    if compressor.is_noop() {
        return None;
    }
    if text::has_text(command, "<<") {
        return None;
    }
    if compressor.is_already_wrapped(command) {
        return None;
    }
    if !compressor.is_available() {
        return None;
    }
    match match_rule(command) {
        None => None,
        Some(rule) => {
            let (prefix, rest) = split_cd_prefix(command);
            proof {
                lemma_rule_from(rest@, 0);
                law_tail_begins_with_a_space(command@);
            }
            let n: usize = rest.unicode_len();
            let k: usize = rule.from.unicode_len();
            let raw = rest.substring_char(k, n);
            assert(raw@ =~= rest@.skip(rule.from@.len() as int));
            let tail = spaced_tail(raw);
            let wrapped = compressor.wrap(rule.canonical, tail.as_str());
            let mut out = prefix.to_owned();
            out.append(wrapped.as_str());
            Some(out)
        },
    }
}

/// No rule's prefix starts the way an `rtk` invocation does.
proof fn lemma_no_rule_for_rtk(rest: Seq<char>)
    ensures
        rule_from("rtk "@ + rest, 0) is None,
{
    reveal_strlit("rtk ");
    reveal_strlit("git status");
    reveal_strlit("git diff");
    reveal_strlit("git log");
    reveal_strlit("git add");
    reveal_strlit("git commit");
    reveal_strlit("git push");
    reveal_strlit("git pull");
    reveal_strlit("git branch");
    reveal_strlit("git fetch");
    reveal_strlit("git stash");
    reveal_strlit("git show");
    reveal_strlit("gh pr");
    reveal_strlit("gh issue");
    reveal_strlit("gh run");
    reveal_strlit("cargo test");
    reveal_strlit("cargo build");
    reveal_strlit("cargo clippy");
    reveal_strlit("cargo check");
    reveal_strlit("cargo run");
    reveal_strlit("cargo fmt");
    reveal_strlit("npm test");
    reveal_strlit("npm run");
    reveal_strlit("npm install");
    reveal_strlit("yarn test");
    reveal_strlit("yarn add");
    reveal_strlit("pnpm test");
    reveal_strlit("pnpm vitest");
    reveal_strlit("vitest");
    reveal_strlit("pnpm tsc");
    reveal_strlit("npx tsc");
    reveal_strlit("tsc");
    reveal_strlit("pnpm lint");
    reveal_strlit("npx eslint");
    reveal_strlit("eslint");
    reveal_strlit("npx prettier");
    reveal_strlit("prettier");
    reveal_strlit("pnpm playwright");
    reveal_strlit("npx playwright");
    reveal_strlit("playwright");
    reveal_strlit("npx prisma");
    reveal_strlit("prisma");
    reveal_strlit("pnpm list");
    reveal_strlit("pnpm ls");
    reveal_strlit("pnpm outdated");
    reveal_strlit("python -m pytest");
    reveal_strlit("pytest");
    reveal_strlit("pip install");
    reveal_strlit("go test");
    reveal_strlit("go build");
    reveal_strlit("cat");
    reveal_strlit("ls");
    reveal_strlit("rg");
    reveal_strlit("grep");
    reveal_strlit("docker build");
    reveal_strlit("docker run");
    reveal_strlit("docker ps");
    reveal_strlit("docker images");
    reveal_strlit("docker logs");
    reveal_strlit("kubectl describe");
    reveal_strlit("kubectl apply");
    reveal_strlit("kubectl get");
    reveal_strlit("kubectl logs");
    reveal_strlit("curl");
    reveal_strlit("make");
    let cmd = "rtk "@ + rest;
    assert(cmd[0] == 'r' && cmd[1] == 't');
    assert forall|i: int| 0 <= i < RULE_COUNT implies !invokes(cmd, #[trigger] RULES[i].0@) by {
        let from = RULES[i].0@;
        assert(from.len() >= 2 && (from[0] != 'r' || from[1] != 't'));
        if from.is_prefix_of(cmd) {
            assert(cmd.subrange(0, from.len() as int)[0] == from[0]);
            assert(cmd.subrange(0, from.len() as int)[1] == from[1]);
        }
    }
    lemma_rule_from(cmd, 0);
}

/// What stands behind a leading `cd … && ` does not change where that ends.
pub proof fn lemma_cd_prefix_kept(command: Seq<char>, rest: Seq<char>)
    requires
        cd_prefix_len(command) > 0,
    ensures
        cd_prefix_len(command.take(cd_prefix_len(command)) + rest) == cd_prefix_len(command),
{
    let k = cd_prefix_len(command);
    let out = command.take(k) + rest;
    let sep = " && "@;
    let p = k - 4;
    reveal_strlit("cd ");
    reveal_strlit(" && ");
    lemma_cd_prefix_len(command);
    text::lemma_find_from(command, sep, 0);
    assert forall|j: int| 0 <= j <= p implies text::occurs_at(out, sep, j) == text::occurs_at(
        command,
        sep,
        j,
    ) by {
        assert(out.subrange(j, j + sep.len()) =~= command.subrange(j, j + sep.len()));
    }
    assert(text::occurs_at(out, sep, p));
    text::lemma_find_is(out, sep, p);
    assert(out.subrange(0, 3) =~= command.subrange(0, 3));
}

/// A command that `rtk` has wrapped is not wrapped again.
pub proof fn law_rewrite_wraps_once(command: Seq<char>, compressor: &RtkCompressor)
    ensures
        rewritten(command, compressor) matches Some(out) ==> rewritten(out, compressor) is None,
{
    if let Some(out) = rewritten(command, compressor) {
        let k = cd_prefix_len(command);
        let i = rule_for(command)->0;
        let rest = rule_at(i).canonical@ + tail_of(command, i);
        lemma_cd_prefix_len(command);
        reveal_strlit("rtk ");
        assert(out =~= command.take(k) + ("rtk "@ + rest));
        if k == 0 {
            assert(out =~= "rtk "@ + rest);
            assert(out.subrange(0, "rtk "@.len() as int) =~= "rtk "@);
        } else {
            lemma_cd_prefix_kept(command, "rtk "@ + rest);
            assert(out.skip(k) =~= "rtk "@ + rest);
            lemma_no_rule_for_rtk(rest);
        }
    }
}

/// The rule that a command matches is the first one whose prefix it is, or whose
/// prefix it begins with before a space, a tab or a line feed.
pub proof fn law_first_rule_counts(command: Seq<char>, i: int)
    requires
        0 <= i <= 64,
        forall|j: int|
            0 <= j < i ==> {
                let from = #[trigger] RULES[j].0@;
                &&& command != from
                &&& forall|rest: Seq<char>|
                    command == #[trigger] (from + rest) && rest.len() > 0 ==> rest[0] != ' '
                        && rest[0] != '\t' && rest[0] != '\n'
            },
    ensures
        i == 64 ==> rule_from(command, 0) is None,
        i < 64 && command == RULES[i].0@ ==> rule_from(command, 0) == Some(i),
        forall|rest: Seq<char>|
            i < 64 && command == #[trigger] (RULES[i].0@ + rest) && rest.len() > 0 && (rest[0]
                == ' ' || rest[0] == '\t' || rest[0] == '\n') ==> rule_from(command, 0) == Some(i),
{
    assert forall|j: int| 0 <= j < i implies !invokes(command, #[trigger] RULES[j].0@) by {
        let from = RULES[j].0@;
        if from.is_prefix_of(command) && command.len() > from.len() {
            let rest = command.skip(from.len() as int);
            assert(command =~= from + rest);
            assert(rest[0] == command[from.len() as int]);
        }
    }
    lemma_rule_from(command, 0);
    assert forall|rest: Seq<char>|
        i < 64 && command == #[trigger] (RULES[i].0@ + rest) && rest.len() > 0 && (rest[0] == ' '
            || rest[0] == '\t' || rest[0] == '\n') implies rule_from(command, 0) == Some(i) by {
        let from = RULES[i].0@;
        assert(command.subrange(0, from.len() as int) =~= from);
        assert(command[from.len() as int] == rest[0]);
        assert(invokes(command, from));
    }
}

/// A command without a leading `cd` that matches a rule is wrapped by `rtk` as
/// `rtk`, the rule's canonical form, and what followed the rule's prefix, with a
/// space before it if it begins with a tab or a line feed.
pub proof fn law_wrapped_in_canonical_form(
    command: Seq<char>,
    i: int,
    rest: Seq<char>,
    compressor: &RtkCompressor,
)
    requires
        !"cd "@.is_prefix_of(command),
        rule_from(command, 0) == Some(i),
        command == RULES[i].0@ + rest,
        compressor.available,
        !text::contains(command, "<<"@),
        !"rtk "@.is_prefix_of(command),
        !text::contains(command, "/rtk "@),
    ensures
        rewritten(command, compressor) == Some(
            "rtk "@ + RULES[i].1@ + (if rest.len() == 0 || rest[0] == ' ' {
                rest
            } else {
                seq![' '] + rest
            }),
        ),
        saved_by(command) == RULES[i].2,
{
    let none = Seq::<char>::empty();
    assert(command.skip(0) =~= command);
    assert(command.take(0) =~= none);
    let from = RULES[i].0@;
    assert(command.skip(from.len() as int) =~= rest);
    let wrapped = "rtk "@ + RULES[i].1@ + spaced(rest);
    assert(none + wrapped =~= wrapped);
}

/// A leading `cd DIR && ` is left as it is, and what follows it is wrapped as it
/// would be alone.
pub proof fn law_wrapped_behind_a_cd(
    dir: Seq<char>,
    i: int,
    rest: Seq<char>,
    compressor: &RtkCompressor,
)
    requires
        text::find("cd "@ + dir + " && "@ + (RULES[i].0@ + rest), " && "@) == Some(
            3 + dir.len() as int,
        ),
        rule_from(RULES[i].0@ + rest, 0) == Some(i),
        compressor.available,
        !text::contains("cd "@ + dir + " && "@ + (RULES[i].0@ + rest), "<<"@),
        !text::contains("cd "@ + dir + " && "@ + (RULES[i].0@ + rest), "/rtk "@),
    ensures
        rewritten("cd "@ + dir + " && "@ + (RULES[i].0@ + rest), compressor) == Some(
            "cd "@ + dir + " && "@ + ("rtk "@ + RULES[i].1@ + (if rest.len() == 0 || rest[0]
                == ' ' {
                rest
            } else {
                seq![' '] + rest
            })),
        ),
        saved_by("cd "@ + dir + " && "@ + (RULES[i].0@ + rest)) == RULES[i].2,
{
    reveal_strlit("cd ");
    reveal_strlit(" && ");
    reveal_strlit("rtk ");
    let inner = RULES[i].0@ + rest;
    let head = "cd "@ + dir + " && "@;
    let command = head + inner;
    assert(command.subrange(0, 3) =~= "cd "@);
    assert(cd_prefix_len(command) == head.len());
    assert(command.skip(head.len() as int) =~= inner);
    assert(command.take(head.len() as int) =~= head);
    assert(inner.skip(RULES[i].0@.len() as int) =~= rest);
    assert(command[0] == 'c');
    assert("rtk "@[0] == 'r');
    assert(!"rtk "@.is_prefix_of(command));
}

/// Nothing is wrapped that holds a heredoc, that `rtk` wraps already or that
/// matches no rule, nothing without an `rtk` on the machine, and nothing by the
/// compressor that does nothing.
pub proof fn law_left_unwrapped(
    command: Seq<char>,
    before: Seq<char>,
    behind: Seq<char>,
    compressor: &RtkCompressor,
    plain: &NoneCompressor,
)
    ensures
        command == before + "<<"@ + behind ==> rewritten(command, compressor) is None,
        command == before + "/rtk "@ + behind ==> rewritten(command, compressor) is None,
        command == "rtk "@ + behind ==> rewritten(command, compressor) is None,
        rule_for(command) is None ==> rewritten(command, compressor) is None && saved_by(command)
            == 0,
        !compressor.available ==> rewritten(command, compressor) is None,
        rewritten(command, plain) is None,
{
    let n = before.len() as int;
    if command == before + "<<"@ + behind {
        text::law_find_yields_the_first(command, "<<"@);
        assert(command.subrange(n, n + "<<"@.len()) =~= "<<"@);
    }
    if command == before + "/rtk "@ + behind {
        text::law_find_yields_the_first(command, "/rtk "@);
        assert(command.subrange(n, n + "/rtk "@.len()) =~= "/rtk "@);
    }
    if command == "rtk "@ + behind {
        assert(command.subrange(0, "rtk "@.len() as int) =~= "rtk "@);
    }
}

/// Two texts differ at a place that both have.
pub open spec fn apart(a: Seq<char>, b: Seq<char>) -> bool {
    exists|k: int| 0 <= k < a.len() && k < b.len() && a[k] != #[trigger] b[k]
}

/// No two rules have prefixes of which one begins with the other, so that each
/// rule is reached; and none begins as `cd` or `rtk` do.
#[verifier::rlimit(60)]
proof fn lemma_prefixes_apart(i: int)
    requires
        0 <= i < 64,
    ensures
        forall|j: int| 0 <= j < i ==> apart(RULES[i].0@, #[trigger] RULES[j].0@),
        RULES[i].0@.len() >= 2,
        RULES[i].0@[0] != 'c' || RULES[i].0@[1] != 'd',
        RULES[i].0@[0] != 'r' || RULES[i].0@[1] != 't',
{
    reveal_strlit("git status");
    reveal_strlit("git diff");
    reveal_strlit("git log");
    reveal_strlit("git add");
    reveal_strlit("git commit");
    reveal_strlit("git push");
    reveal_strlit("git pull");
    reveal_strlit("git branch");
    reveal_strlit("git fetch");
    reveal_strlit("git stash");
    reveal_strlit("git show");
    reveal_strlit("gh pr");
    reveal_strlit("gh issue");
    reveal_strlit("gh run");
    reveal_strlit("cargo test");
    reveal_strlit("cargo build");
    reveal_strlit("cargo clippy");
    reveal_strlit("cargo check");
    reveal_strlit("cargo run");
    reveal_strlit("cargo fmt");
    reveal_strlit("npm test");
    reveal_strlit("npm run");
    reveal_strlit("npm install");
    reveal_strlit("yarn test");
    reveal_strlit("yarn add");
    reveal_strlit("pnpm test");
    reveal_strlit("pnpm vitest");
    reveal_strlit("vitest");
    reveal_strlit("pnpm tsc");
    reveal_strlit("npx tsc");
    reveal_strlit("tsc");
    reveal_strlit("pnpm lint");
    reveal_strlit("npx eslint");
    reveal_strlit("eslint");
    reveal_strlit("npx prettier");
    reveal_strlit("prettier");
    reveal_strlit("pnpm playwright");
    reveal_strlit("npx playwright");
    reveal_strlit("playwright");
    reveal_strlit("npx prisma");
    reveal_strlit("prisma");
    reveal_strlit("pnpm list");
    reveal_strlit("pnpm ls");
    reveal_strlit("pnpm outdated");
    reveal_strlit("python -m pytest");
    reveal_strlit("pytest");
    reveal_strlit("pip install");
    reveal_strlit("go test");
    reveal_strlit("go build");
    reveal_strlit("cat");
    reveal_strlit("ls");
    reveal_strlit("rg");
    reveal_strlit("grep");
    reveal_strlit("docker build");
    reveal_strlit("docker run");
    reveal_strlit("docker ps");
    reveal_strlit("docker images");
    reveal_strlit("docker logs");
    reveal_strlit("kubectl describe");
    reveal_strlit("kubectl apply");
    reveal_strlit("kubectl get");
    reveal_strlit("kubectl logs");
    reveal_strlit("curl");
    reveal_strlit("make");
    if i == 1 {
        assert forall|j: int| 0 <= j < 1 implies apart(RULES[i].0@, #[trigger] RULES[j].0@) by {
            let (a, b) = (RULES[1].0@, RULES[j].0@);
            assert(a[4] != b[4]);
        }
    }
    if i == 2 {
        assert forall|j: int| 0 <= j < 2 implies apart(RULES[i].0@, #[trigger] RULES[j].0@) by {
            let (a, b) = (RULES[2].0@, RULES[j].0@);
            assert(a[4] != b[4]);
        }
    }
    if i == 3 {
        assert forall|j: int| 0 <= j < 3 implies apart(RULES[i].0@, #[trigger] RULES[j].0@) by {
            let (a, b) = (RULES[3].0@, RULES[j].0@);
            assert(a[4] != b[4]);
        }
    }
    if i == 4 {
        assert forall|j: int| 0 <= j < 4 implies apart(RULES[i].0@, #[trigger] RULES[j].0@) by {
            let (a, b) = (RULES[4].0@, RULES[j].0@);
            assert(a[4] != b[4]);
        }
    }
    if i == 5 {
        assert forall|j: int| 0 <= j < 5 implies apart(RULES[i].0@, #[trigger] RULES[j].0@) by {
            let (a, b) = (RULES[5].0@, RULES[j].0@);
            assert(a[4] != b[4]);
        }
    }
    if i == 6 {
        assert forall|j: int| 0 <= j < 6 implies apart(RULES[i].0@, #[trigger] RULES[j].0@) by {
            let (a, b) = (RULES[6].0@, RULES[j].0@);
            assert(a[4] != b[4] || a[6] != b[6]);
        }
    }
    if i == 7 {
        assert forall|j: int| 0 <= j < 7 implies apart(RULES[i].0@, #[trigger] RULES[j].0@) by {
            let (a, b) = (RULES[7].0@, RULES[j].0@);
            assert(a[4] != b[4]);
        }
    }
    if i == 8 {
        assert forall|j: int| 0 <= j < 8 implies apart(RULES[i].0@, #[trigger] RULES[j].0@) by {
            let (a, b) = (RULES[8].0@, RULES[j].0@);
            assert(a[4] != b[4]);
        }
    }
    if i == 9 {
        assert forall|j: int| 0 <= j < 9 implies apart(RULES[i].0@, #[trigger] RULES[j].0@) by {
            let (a, b) = (RULES[9].0@, RULES[j].0@);
            assert(a[4] != b[4] || a[7] != b[7]);
        }
    }
    if i == 10 {
        assert forall|j: int| 0 <= j < 10 implies apart(RULES[i].0@, #[trigger] RULES[j].0@) by {
            let (a, b) = (RULES[10].0@, RULES[j].0@);
            assert(a[4] != b[4] || a[5] != b[5]);
        }
    }
    if i == 11 {
        assert forall|j: int| 0 <= j < 11 implies apart(RULES[i].0@, #[trigger] RULES[j].0@) by {
            let (a, b) = (RULES[11].0@, RULES[j].0@);
            assert(a[1] != b[1]);
        }
    }
    if i == 12 {
        assert forall|j: int| 0 <= j < 12 implies apart(RULES[i].0@, #[trigger] RULES[j].0@) by {
            let (a, b) = (RULES[12].0@, RULES[j].0@);
            assert(a[1] != b[1] || a[3] != b[3]);
        }
    }
    if i == 13 {
        assert forall|j: int| 0 <= j < 13 implies apart(RULES[i].0@, #[trigger] RULES[j].0@) by {
            let (a, b) = (RULES[13].0@, RULES[j].0@);
            assert(a[1] != b[1] || a[3] != b[3]);
        }
    }
    if i == 14 {
        assert forall|j: int| 0 <= j < 14 implies apart(RULES[i].0@, #[trigger] RULES[j].0@) by {
            let (a, b) = (RULES[14].0@, RULES[j].0@);
            assert(a[0] != b[0]);
        }
    }
    if i == 15 {
        assert forall|j: int| 0 <= j < 15 implies apart(RULES[i].0@, #[trigger] RULES[j].0@) by {
            let (a, b) = (RULES[15].0@, RULES[j].0@);
            assert(a[0] != b[0] || a[6] != b[6]);
        }
    }
    if i == 16 {
        assert forall|j: int| 0 <= j < 16 implies apart(RULES[i].0@, #[trigger] RULES[j].0@) by {
            let (a, b) = (RULES[16].0@, RULES[j].0@);
            assert(a[0] != b[0] || a[6] != b[6]);
        }
    }
    if i == 17 {
        assert forall|j: int| 0 <= j < 17 implies apart(RULES[i].0@, #[trigger] RULES[j].0@) by {
            let (a, b) = (RULES[17].0@, RULES[j].0@);
            assert(a[0] != b[0] || a[6] != b[6] || a[7] != b[7]);
        }
    }
    if i == 18 {
        assert forall|j: int| 0 <= j < 18 implies apart(RULES[i].0@, #[trigger] RULES[j].0@) by {
            let (a, b) = (RULES[18].0@, RULES[j].0@);
            assert(a[0] != b[0] || a[6] != b[6]);
        }
    }
    if i == 19 {
        assert forall|j: int| 0 <= j < 19 implies apart(RULES[i].0@, #[trigger] RULES[j].0@) by {
            let (a, b) = (RULES[19].0@, RULES[j].0@);
            assert(a[0] != b[0] || a[6] != b[6]);
        }
    }
    if i == 20 {
        assert forall|j: int| 0 <= j < 20 implies apart(RULES[i].0@, #[trigger] RULES[j].0@) by {
            let (a, b) = (RULES[20].0@, RULES[j].0@);
            assert(a[0] != b[0]);
        }
    }
    if i == 21 {
        assert forall|j: int| 0 <= j < 21 implies apart(RULES[i].0@, #[trigger] RULES[j].0@) by {
            let (a, b) = (RULES[21].0@, RULES[j].0@);
            assert(a[0] != b[0] || a[4] != b[4]);
        }
    }
    if i == 22 {
        assert forall|j: int| 0 <= j < 22 implies apart(RULES[i].0@, #[trigger] RULES[j].0@) by {
            let (a, b) = (RULES[22].0@, RULES[j].0@);
            assert(a[0] != b[0] || a[4] != b[4]);
        }
    }
    if i == 23 {
        assert forall|j: int| 0 <= j < 23 implies apart(RULES[i].0@, #[trigger] RULES[j].0@) by {
            let (a, b) = (RULES[23].0@, RULES[j].0@);
            assert(a[0] != b[0]);
        }
    }
    if i == 24 {
        assert forall|j: int| 0 <= j < 24 implies apart(RULES[i].0@, #[trigger] RULES[j].0@) by {
            let (a, b) = (RULES[24].0@, RULES[j].0@);
            assert(a[0] != b[0] || a[5] != b[5]);
        }
    }
    if i == 25 {
        assert forall|j: int| 0 <= j < 25 implies apart(RULES[i].0@, #[trigger] RULES[j].0@) by {
            let (a, b) = (RULES[25].0@, RULES[j].0@);
            assert(a[0] != b[0]);
        }
    }
    if i == 26 {
        assert forall|j: int| 0 <= j < 26 implies apart(RULES[i].0@, #[trigger] RULES[j].0@) by {
            let (a, b) = (RULES[26].0@, RULES[j].0@);
            assert(a[0] != b[0] || a[5] != b[5]);
        }
    }
    if i == 27 {
        assert forall|j: int| 0 <= j < 27 implies apart(RULES[i].0@, #[trigger] RULES[j].0@) by {
            let (a, b) = (RULES[27].0@, RULES[j].0@);
            assert(a[0] != b[0]);
        }
    }
    if i == 28 {
        assert forall|j: int| 0 <= j < 28 implies apart(RULES[i].0@, #[trigger] RULES[j].0@) by {
            let (a, b) = (RULES[28].0@, RULES[j].0@);
            assert(a[0] != b[0] || a[5] != b[5] || a[6] != b[6]);
        }
    }
    if i == 29 {
        assert forall|j: int| 0 <= j < 29 implies apart(RULES[i].0@, #[trigger] RULES[j].0@) by {
            let (a, b) = (RULES[29].0@, RULES[j].0@);
            assert(a[0] != b[0] || a[2] != b[2]);
        }
    }
    if i == 30 {
        assert forall|j: int| 0 <= j < 30 implies apart(RULES[i].0@, #[trigger] RULES[j].0@) by {
            let (a, b) = (RULES[30].0@, RULES[j].0@);
            assert(a[0] != b[0]);
        }
    }
    if i == 31 {
        assert forall|j: int| 0 <= j < 31 implies apart(RULES[i].0@, #[trigger] RULES[j].0@) by {
            let (a, b) = (RULES[31].0@, RULES[j].0@);
            assert(a[0] != b[0] || a[5] != b[5]);
        }
    }
    if i == 32 {
        assert forall|j: int| 0 <= j < 32 implies apart(RULES[i].0@, #[trigger] RULES[j].0@) by {
            let (a, b) = (RULES[32].0@, RULES[j].0@);
            assert(a[0] != b[0] || a[2] != b[2] || a[4] != b[4]);
        }
    }
    if i == 33 {
        assert forall|j: int| 0 <= j < 33 implies apart(RULES[i].0@, #[trigger] RULES[j].0@) by {
            let (a, b) = (RULES[33].0@, RULES[j].0@);
            assert(a[0] != b[0]);
        }
    }
    if i == 34 {
        assert forall|j: int| 0 <= j < 34 implies apart(RULES[i].0@, #[trigger] RULES[j].0@) by {
            let (a, b) = (RULES[34].0@, RULES[j].0@);
            assert(a[0] != b[0] || a[2] != b[2] || a[4] != b[4]);
        }
    }
    if i == 35 {
        assert forall|j: int| 0 <= j < 35 implies apart(RULES[i].0@, #[trigger] RULES[j].0@) by {
            let (a, b) = (RULES[35].0@, RULES[j].0@);
            assert(a[0] != b[0] || a[1] != b[1]);
        }
    }
    if i == 36 {
        assert forall|j: int| 0 <= j < 36 implies apart(RULES[i].0@, #[trigger] RULES[j].0@) by {
            let (a, b) = (RULES[36].0@, RULES[j].0@);
            assert(a[0] != b[0] || a[1] != b[1] || a[5] != b[5]);
        }
    }
    if i == 37 {
        assert forall|j: int| 0 <= j < 37 implies apart(RULES[i].0@, #[trigger] RULES[j].0@) by {
            let (a, b) = (RULES[37].0@, RULES[j].0@);
            assert(a[0] != b[0] || a[2] != b[2] || a[4] != b[4] || a[5] != b[5]);
        }
    }
    if i == 38 {
        assert forall|j: int| 0 <= j < 38 implies apart(RULES[i].0@, #[trigger] RULES[j].0@) by {
            let (a, b) = (RULES[38].0@, RULES[j].0@);
            assert(a[0] != b[0] || a[1] != b[1]);
        }
    }
    if i == 39 {
        assert forall|j: int| 0 <= j < 39 implies apart(RULES[i].0@, #[trigger] RULES[j].0@) by {
            let (a, b) = (RULES[39].0@, RULES[j].0@);
            assert(a[0] != b[0] || a[2] != b[2] || a[4] != b[4] || a[5] != b[5] || a[6] != b[6]);
        }
    }
    if i == 40 {
        assert forall|j: int| 0 <= j < 40 implies apart(RULES[i].0@, #[trigger] RULES[j].0@) by {
            let (a, b) = (RULES[40].0@, RULES[j].0@);
            assert(a[0] != b[0] || a[1] != b[1] || a[2] != b[2]);
        }
    }
    if i == 41 {
        assert forall|j: int| 0 <= j < 41 implies apart(RULES[i].0@, #[trigger] RULES[j].0@) by {
            let (a, b) = (RULES[41].0@, RULES[j].0@);
            assert(a[0] != b[0] || a[1] != b[1] || a[5] != b[5] || a[7] != b[7]);
        }
    }
    if i == 42 {
        assert forall|j: int| 0 <= j < 42 implies apart(RULES[i].0@, #[trigger] RULES[j].0@) by {
            let (a, b) = (RULES[42].0@, RULES[j].0@);
            assert(a[0] != b[0] || a[1] != b[1] || a[5] != b[5] || a[6] != b[6]);
        }
    }
    if i == 43 {
        assert forall|j: int| 0 <= j < 43 implies apart(RULES[i].0@, #[trigger] RULES[j].0@) by {
            let (a, b) = (RULES[43].0@, RULES[j].0@);
            assert(a[0] != b[0] || a[1] != b[1] || a[5] != b[5]);
        }
    }
    if i == 44 {
        assert forall|j: int| 0 <= j < 44 implies apart(RULES[i].0@, #[trigger] RULES[j].0@) by {
            let (a, b) = (RULES[44].0@, RULES[j].0@);
            assert(a[0] != b[0] || a[1] != b[1]);
        }
    }
    if i == 45 {
        assert forall|j: int| 0 <= j < 45 implies apart(RULES[i].0@, #[trigger] RULES[j].0@) by {
            let (a, b) = (RULES[45].0@, RULES[j].0@);
            assert(a[0] != b[0] || a[1] != b[1] || a[3] != b[3]);
        }
    }
    if i == 46 {
        assert forall|j: int| 0 <= j < 46 implies apart(RULES[i].0@, #[trigger] RULES[j].0@) by {
            let (a, b) = (RULES[46].0@, RULES[j].0@);
            assert(a[0] != b[0] || a[1] != b[1]);
        }
    }
    if i == 47 {
        assert forall|j: int| 0 <= j < 47 implies apart(RULES[i].0@, #[trigger] RULES[j].0@) by {
            let (a, b) = (RULES[47].0@, RULES[j].0@);
            assert(a[0] != b[0] || a[1] != b[1]);
        }
    }
    if i == 48 {
        assert forall|j: int| 0 <= j < 48 implies apart(RULES[i].0@, #[trigger] RULES[j].0@) by {
            let (a, b) = (RULES[48].0@, RULES[j].0@);
            assert(a[0] != b[0] || a[1] != b[1] || a[3] != b[3]);
        }
    }
    if i == 49 {
        assert forall|j: int| 0 <= j < 49 implies apart(RULES[i].0@, #[trigger] RULES[j].0@) by {
            let (a, b) = (RULES[49].0@, RULES[j].0@);
            assert(a[0] != b[0] || a[2] != b[2]);
        }
    }
    if i == 50 {
        assert forall|j: int| 0 <= j < 50 implies apart(RULES[i].0@, #[trigger] RULES[j].0@) by {
            let (a, b) = (RULES[50].0@, RULES[j].0@);
            assert(a[0] != b[0]);
        }
    }
    if i == 51 {
        assert forall|j: int| 0 <= j < 51 implies apart(RULES[i].0@, #[trigger] RULES[j].0@) by {
            let (a, b) = (RULES[51].0@, RULES[j].0@);
            assert(a[0] != b[0]);
        }
    }
    if i == 52 {
        assert forall|j: int| 0 <= j < 52 implies apart(RULES[i].0@, #[trigger] RULES[j].0@) by {
            let (a, b) = (RULES[52].0@, RULES[j].0@);
            assert(a[0] != b[0] || a[1] != b[1]);
        }
    }
    if i == 53 {
        assert forall|j: int| 0 <= j < 53 implies apart(RULES[i].0@, #[trigger] RULES[j].0@) by {
            let (a, b) = (RULES[53].0@, RULES[j].0@);
            assert(a[0] != b[0]);
        }
    }
    if i == 54 {
        assert forall|j: int| 0 <= j < 54 implies apart(RULES[i].0@, #[trigger] RULES[j].0@) by {
            let (a, b) = (RULES[54].0@, RULES[j].0@);
            assert(a[0] != b[0] || a[7] != b[7]);
        }
    }
    if i == 55 {
        assert forall|j: int| 0 <= j < 55 implies apart(RULES[i].0@, #[trigger] RULES[j].0@) by {
            let (a, b) = (RULES[55].0@, RULES[j].0@);
            assert(a[0] != b[0] || a[7] != b[7]);
        }
    }
    if i == 56 {
        assert forall|j: int| 0 <= j < 56 implies apart(RULES[i].0@, #[trigger] RULES[j].0@) by {
            let (a, b) = (RULES[56].0@, RULES[j].0@);
            assert(a[0] != b[0] || a[7] != b[7]);
        }
    }
    if i == 57 {
        assert forall|j: int| 0 <= j < 57 implies apart(RULES[i].0@, #[trigger] RULES[j].0@) by {
            let (a, b) = (RULES[57].0@, RULES[j].0@);
            assert(a[0] != b[0] || a[7] != b[7]);
        }
    }
    if i == 58 {
        assert forall|j: int| 0 <= j < 58 implies apart(RULES[i].0@, #[trigger] RULES[j].0@) by {
            let (a, b) = (RULES[58].0@, RULES[j].0@);
            assert(a[0] != b[0]);
        }
    }
    if i == 59 {
        assert forall|j: int| 0 <= j < 59 implies apart(RULES[i].0@, #[trigger] RULES[j].0@) by {
            let (a, b) = (RULES[59].0@, RULES[j].0@);
            assert(a[0] != b[0] || a[8] != b[8]);
        }
    }
    if i == 60 {
        assert forall|j: int| 0 <= j < 60 implies apart(RULES[i].0@, #[trigger] RULES[j].0@) by {
            let (a, b) = (RULES[60].0@, RULES[j].0@);
            assert(a[0] != b[0] || a[8] != b[8]);
        }
    }
    if i == 61 {
        assert forall|j: int| 0 <= j < 61 implies apart(RULES[i].0@, #[trigger] RULES[j].0@) by {
            let (a, b) = (RULES[61].0@, RULES[j].0@);
            assert(a[0] != b[0] || a[8] != b[8]);
        }
    }
    if i == 62 {
        assert forall|j: int| 0 <= j < 62 implies apart(RULES[i].0@, #[trigger] RULES[j].0@) by {
            let (a, b) = (RULES[62].0@, RULES[j].0@);
            assert(a[0] != b[0] || a[1] != b[1]);
        }
    }
    if i == 63 {
        assert forall|j: int| 0 <= j < 63 implies apart(RULES[i].0@, #[trigger] RULES[j].0@) by {
            let (a, b) = (RULES[63].0@, RULES[j].0@);
            assert(a[0] != b[0]);
        }
    }
}

/// Each rule is reached: a command that begins with its prefix, before a space, a
/// tab, a line feed or the end, matches that rule.
pub proof fn law_each_rule_is_reached(i: int, tail: Seq<char>)
    requires
        0 <= i < 64,
        tail.len() == 0 || tail[0] == ' ' || tail[0] == '\t' || tail[0] == '\n',
    ensures
        rule_from(RULES[i].0@ + tail, 0) == Some(i),
        rule_for(RULES[i].0@ + tail) == Some(i),
        !"cd "@.is_prefix_of(RULES[i].0@ + tail),
{
    let from = RULES[i].0@;
    let cmd = from + tail;
    lemma_prefixes_apart(i);
    assert forall|j: int| 0 <= j < i implies !invokes(cmd, #[trigger] RULES[j].0@) by {
        let g = RULES[j].0@;
        assert(apart(from, g));
        let k = choose|k: int| 0 <= k < from.len() && k < g.len() && from[k] != #[trigger] g[k];
        assert(cmd[k] == from[k]);
        if g.is_prefix_of(cmd) {
            assert(cmd.subrange(0, g.len() as int)[k] == g[k]);
        }
    }
    assert(cmd.subrange(0, from.len() as int) =~= from);
    if tail.len() == 0 {
        assert(cmd =~= from);
    } else {
        assert(cmd[from.len() as int] == tail[0]);
    }
    assert(invokes(cmd, from));
    lemma_rule_from(cmd, 0);
    assert(cmd[0] == from[0] && cmd[1] == from[1]);
    lemma_no_cd_no_rtk(cmd);
    assert(cmd.skip(0) =~= cmd);
}

/// By `rtk`, a command that begins with `from` is wrapped in the form
/// `canonical`, its tail kept, and that saves `saved` tokens; unless it holds a
/// heredoc or is wrapped already.
pub open spec fn wraps_to(
    compressor: &RtkCompressor,
    from: Seq<char>,
    canonical: Seq<char>,
    saved: int,
    tail: Seq<char>,
) -> bool {
    let command = from + tail;
    &&& saved_by(command) == saved
    &&& compressor.available && !text::contains(command, "<<"@) && !text::contains(
        command,
        "/rtk "@,
    ) ==> rewritten(command, compressor) == Some("rtk "@ + canonical + tail)
}

/// What the commands that a rule knows are wrapped as: the rule's canonical form.
pub proof fn law_known_rule_wraps(i: int, tail: Seq<char>, compressor: &RtkCompressor)
    requires
        0 <= i < 64,
        tail.len() == 0 || tail[0] == ' ',
    ensures
        wraps_to(compressor, RULES[i].0@, RULES[i].1@, RULES[i].2 as int, tail),
{
    let command = RULES[i].0@ + tail;
    law_each_rule_is_reached(i, tail);
    lemma_prefixes_apart(i);
    assert(command[0] == RULES[i].0@[0] && command[1] == RULES[i].0@[1]);
    lemma_no_cd_no_rtk(command);
    if compressor.available && !text::contains(command, "<<"@) && !text::contains(
        command,
        "/rtk "@,
    ) {
        law_wrapped_in_canonical_form(command, i, tail, compressor);
    }
}

/// What each known command is wrapped as, whatever follows it: `cat x` as
/// `rtk read x`, for one.
#[verifier::rlimit(40)]
pub proof fn law_known_commands_are_wrapped(tail: Seq<char>, compressor: &RtkCompressor)
    requires
        tail.len() == 0 || tail[0] == ' ',
    ensures
        wraps_to(compressor, "git status"@, "git status"@, 160, tail),
        wraps_to(compressor, "git diff"@, "git diff"@, 160, tail),
        wraps_to(compressor, "git log"@, "git log"@, 160, tail),
        wraps_to(compressor, "git add"@, "git add"@, 60, tail),
        wraps_to(compressor, "git commit"@, "git commit"@, 60, tail),
        wraps_to(compressor, "git push"@, "git push"@, 60, tail),
        wraps_to(compressor, "git pull"@, "git pull"@, 60, tail),
        wraps_to(compressor, "git branch"@, "git branch"@, 60, tail),
        wraps_to(compressor, "git fetch"@, "git fetch"@, 60, tail),
        wraps_to(compressor, "git stash"@, "git stash"@, 60, tail),
        wraps_to(compressor, "git show"@, "git show"@, 60, tail),
        wraps_to(compressor, "gh pr"@, "gh pr"@, 120, tail),
        wraps_to(compressor, "gh issue"@, "gh issue"@, 120, tail),
        wraps_to(compressor, "gh run"@, "gh run"@, 120, tail),
        wraps_to(compressor, "cargo test"@, "cargo test"@, 420, tail),
        wraps_to(compressor, "cargo build"@, "cargo build"@, 420, tail),
        wraps_to(compressor, "cargo clippy"@, "cargo clippy"@, 420, tail),
        wraps_to(compressor, "cargo check"@, "cargo check"@, 300, tail),
        wraps_to(compressor, "cargo run"@, "cargo run"@, 200, tail),
        wraps_to(compressor, "cargo fmt"@, "cargo fmt"@, 60, tail),
        wraps_to(compressor, "npm test"@, "vitest run"@, 380, tail),
        wraps_to(compressor, "npm run"@, "npm run"@, 200, tail),
        wraps_to(compressor, "npm install"@, "npm install"@, 200, tail),
        wraps_to(compressor, "yarn test"@, "vitest run"@, 380, tail),
        wraps_to(compressor, "yarn add"@, "yarn add"@, 200, tail),
        wraps_to(compressor, "pnpm test"@, "vitest run"@, 380, tail),
        wraps_to(compressor, "pnpm vitest"@, "vitest run"@, 380, tail),
        wraps_to(compressor, "vitest"@, "vitest run"@, 380, tail),
        wraps_to(compressor, "pnpm tsc"@, "tsc"@, 300, tail),
        wraps_to(compressor, "npx tsc"@, "tsc"@, 300, tail),
        wraps_to(compressor, "tsc"@, "tsc"@, 300, tail),
        wraps_to(compressor, "pnpm lint"@, "lint"@, 300, tail),
        wraps_to(compressor, "npx eslint"@, "lint"@, 300, tail),
        wraps_to(compressor, "eslint"@, "lint"@, 300, tail),
        wraps_to(compressor, "npx prettier"@, "prettier"@, 200, tail),
        wraps_to(compressor, "prettier"@, "prettier"@, 200, tail),
        wraps_to(compressor, "pnpm playwright"@, "playwright"@, 400, tail),
        wraps_to(compressor, "npx playwright"@, "playwright"@, 400, tail),
        wraps_to(compressor, "playwright"@, "playwright"@, 400, tail),
        wraps_to(compressor, "npx prisma"@, "prisma"@, 200, tail),
        wraps_to(compressor, "prisma"@, "prisma"@, 200, tail),
        wraps_to(compressor, "pnpm list"@, "pnpm list"@, 100, tail),
        wraps_to(compressor, "pnpm ls"@, "pnpm ls"@, 100, tail),
        wraps_to(compressor, "pnpm outdated"@, "pnpm outdated"@, 100, tail),
        wraps_to(compressor, "python -m pytest"@, "pytest"@, 380, tail),
        wraps_to(compressor, "pytest"@, "pytest"@, 380, tail),
        wraps_to(compressor, "pip install"@, "pip install"@, 200, tail),
        wraps_to(compressor, "go test"@, "go test"@, 380, tail),
        wraps_to(compressor, "go build"@, "go build"@, 300, tail),
        wraps_to(compressor, "cat"@, "read"@, 200, tail),
        wraps_to(compressor, "ls"@, "ls"@, 100, tail),
        wraps_to(compressor, "rg"@, "grep"@, 200, tail),
        wraps_to(compressor, "grep"@, "grep"@, 200, tail),
        wraps_to(compressor, "docker build"@, "docker build"@, 500, tail),
        wraps_to(compressor, "docker run"@, "docker run"@, 300, tail),
        wraps_to(compressor, "docker ps"@, "docker ps"@, 200, tail),
        wraps_to(compressor, "docker images"@, "docker images"@, 200, tail),
        wraps_to(compressor, "docker logs"@, "docker logs"@, 400, tail),
        wraps_to(compressor, "kubectl describe"@, "kubectl describe"@, 300, tail),
        wraps_to(compressor, "kubectl apply"@, "kubectl apply"@, 200, tail),
        wraps_to(compressor, "kubectl get"@, "kubectl get"@, 300, tail),
        wraps_to(compressor, "kubectl logs"@, "kubectl logs"@, 400, tail),
        wraps_to(compressor, "curl"@, "curl"@, 200, tail),
        wraps_to(compressor, "make"@, "make"@, 400, tail),
{
    assert forall|i: int| 0 <= i < 64 implies wraps_to(
        compressor,
        #[trigger] RULES[i].0@,
        RULES[i].1@,
        RULES[i].2 as int,
        tail,
    ) by {
        law_known_rule_wraps(i, tail, compressor);
    }
    assert(RULES[0].0@ == "git status"@);
    assert(RULES[1].0@ == "git diff"@);
    assert(RULES[2].0@ == "git log"@);
    assert(RULES[3].0@ == "git add"@);
    assert(RULES[4].0@ == "git commit"@);
    assert(RULES[5].0@ == "git push"@);
    assert(RULES[6].0@ == "git pull"@);
    assert(RULES[7].0@ == "git branch"@);
    assert(RULES[8].0@ == "git fetch"@);
    assert(RULES[9].0@ == "git stash"@);
    assert(RULES[10].0@ == "git show"@);
    assert(RULES[11].0@ == "gh pr"@);
    assert(RULES[12].0@ == "gh issue"@);
    assert(RULES[13].0@ == "gh run"@);
    assert(RULES[14].0@ == "cargo test"@);
    assert(RULES[15].0@ == "cargo build"@);
    assert(RULES[16].0@ == "cargo clippy"@);
    assert(RULES[17].0@ == "cargo check"@);
    assert(RULES[18].0@ == "cargo run"@);
    assert(RULES[19].0@ == "cargo fmt"@);
    assert(RULES[20].0@ == "npm test"@);
    assert(RULES[21].0@ == "npm run"@);
    assert(RULES[22].0@ == "npm install"@);
    assert(RULES[23].0@ == "yarn test"@);
    assert(RULES[24].0@ == "yarn add"@);
    assert(RULES[25].0@ == "pnpm test"@);
    assert(RULES[26].0@ == "pnpm vitest"@);
    assert(RULES[27].0@ == "vitest"@);
    assert(RULES[28].0@ == "pnpm tsc"@);
    assert(RULES[29].0@ == "npx tsc"@);
    assert(RULES[30].0@ == "tsc"@);
    assert(RULES[31].0@ == "pnpm lint"@);
    assert(RULES[32].0@ == "npx eslint"@);
    assert(RULES[33].0@ == "eslint"@);
    assert(RULES[34].0@ == "npx prettier"@);
    assert(RULES[35].0@ == "prettier"@);
    assert(RULES[36].0@ == "pnpm playwright"@);
    assert(RULES[37].0@ == "npx playwright"@);
    assert(RULES[38].0@ == "playwright"@);
    assert(RULES[39].0@ == "npx prisma"@);
    assert(RULES[40].0@ == "prisma"@);
    assert(RULES[41].0@ == "pnpm list"@);
    assert(RULES[42].0@ == "pnpm ls"@);
    assert(RULES[43].0@ == "pnpm outdated"@);
    assert(RULES[44].0@ == "python -m pytest"@);
    assert(RULES[45].0@ == "pytest"@);
    assert(RULES[46].0@ == "pip install"@);
    assert(RULES[47].0@ == "go test"@);
    assert(RULES[48].0@ == "go build"@);
    assert(RULES[49].0@ == "cat"@);
    assert(RULES[50].0@ == "ls"@);
    assert(RULES[51].0@ == "rg"@);
    assert(RULES[52].0@ == "grep"@);
    assert(RULES[53].0@ == "docker build"@);
    assert(RULES[54].0@ == "docker run"@);
    assert(RULES[55].0@ == "docker ps"@);
    assert(RULES[56].0@ == "docker images"@);
    assert(RULES[57].0@ == "docker logs"@);
    assert(RULES[58].0@ == "kubectl describe"@);
    assert(RULES[59].0@ == "kubectl apply"@);
    assert(RULES[60].0@ == "kubectl get"@);
    assert(RULES[61].0@ == "kubectl logs"@);
    assert(RULES[62].0@ == "curl"@);
    assert(RULES[63].0@ == "make"@);
}

/// A command that does not begin as `cd` or `rtk` do is neither.
proof fn lemma_no_cd_no_rtk(command: Seq<char>)
    requires
        command.len() >= 2,
        command[0] != 'c' || command[1] != 'd',
        command[0] != 'r' || command[1] != 't',
    ensures
        !"cd "@.is_prefix_of(command),
        !"rtk "@.is_prefix_of(command),
        cd_prefix_len(command) == 0,
{
    reveal_strlit("cd ");
    reveal_strlit("rtk ");
    if "cd "@.is_prefix_of(command) {
        assert(command.subrange(0, 3)[0] == 'c' && command.subrange(0, 3)[1] == 'd');
    }
    if "rtk "@.is_prefix_of(command) {
        assert(command.subrange(0, 4)[0] == 'r' && command.subrange(0, 4)[1] == 't');
    }
}

/// A command that begins with a rule's prefix, by its parts and the result: `rtk`,
/// the rule's canonical form, and what followed the prefix.
pub proof fn law_rewrite(
    command: &str,
    compressor: &RtkCompressor,
    r: Option<String>,
    i: int,
    tail: Seq<char>,
)
    requires
        call_ensures(rewrite::<RtkCompressor>, (command, compressor), r),
        0 <= i < 64,
        command@ == RULES[i].0@ + tail,
        tail.len() == 0 || tail[0] == ' ',
        !text::contains(command@, "<<"@),
        !text::contains(command@, "/rtk "@),
    ensures
        compressor.available ==> (r matches Some(out) && out@ == "rtk "@ + RULES[i].1@ + tail),
        !compressor.available ==> r is None,
{
    law_known_rule_wraps(i, tail, compressor);
    law_left_unwrapped(command@, tail, tail, compressor, &NoneCompressor);
}

/// Reading a file is rewritten into the compressor's own form of it.
pub proof fn law_rewrite_of_cat(
    command: &str,
    compressor: &RtkCompressor,
    r: Option<String>,
    tail: Seq<char>,
)
    requires
        call_ensures(rewrite::<RtkCompressor>, (command, compressor), r),
        command@ == "cat"@ + tail,
        tail.len() == 0 || tail[0] == ' ',
        !text::contains(command@, "<<"@),
        !text::contains(command@, "/rtk "@),
        compressor.available,
    ensures
        r matches Some(out) && out@ == "rtk read"@ + tail,
{
    assert(RULES[49].0@ == "cat"@);
    assert(RULES[49].1@ == "read"@);
    law_rewrite(command, compressor, r, 49, tail);
    assert("rtk "@ + "read"@ == "rtk read"@) by {
        reveal_strlit("rtk ");
        reveal_strlit("read");
        reveal_strlit("rtk read");
    }
}

/// The tokens that a wrap saves, by the command and the result: those of the rule that
/// the command begins with, and none without one.
pub proof fn law_tokens_saved(command: &str, r: u32, i: int, tail: Seq<char>)
    requires
        call_ensures(tokens_saved, (command,), r),
    ensures
        0 <= i < 64 && command@ == RULES[i].0@ + tail && (tail.len() == 0 || tail[0] == ' ') ==> r
            == RULES[i].2,
        rule_for(command@) is None ==> r == 0,
{
    if 0 <= i < 64 && (tail.len() == 0 || tail[0] == ' ') {
        law_each_rule_is_reached(i, tail);
    }
}

} // verus!
