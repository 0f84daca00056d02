//! The text of the program's reports.
//!
//! Numbers with a fraction come in as text, already rounded.
use vstd::prelude::*;
use vstd::string::*;

use crate::mining::MineResult;
use crate::mining::MiningSummary;
use crate::numerals;
use crate::paths;
use crate::rewrites;
use crate::text;

verus! {

// ---------------------------------------------------------------------------
// Pieces
// ---------------------------------------------------------------------------
/// `s` cut after `max_len` bytes, if it is longer.
pub open spec fn cut_text(s: Seq<char>, max_len: int) -> Seq<char> {
    if text::byte_len(s) <= max_len {
        s
    } else {
        text::byte_prefix(s, max_len)
    }
}

/// The first `max_len` bytes of a string. The cut must not split a character:
/// see [`text::cuttable`].
pub fn truncate_str(s: &str, max_len: usize) -> (r: &str)
    requires
        text::can_cut(s@, max_len as int),
    ensures
        r@ == cut_text(s@, max_len as int),
{
    if text::longer_than(s, max_len) {
        text::cut(s, max_len)
    } else {
        s
    }
}

/// A truth value in words.
pub open spec fn yes_no(b: bool) -> Seq<char> {
    if b {
        "yes"@
    } else {
        "no"@
    }
}

/// A truth value in words.
fn yes_or_no(b: bool) -> (r: &'static str)
    ensures
        r@ == yes_no(b),
{
    if b {
        "yes"
    } else {
        "no"
    }
}

/// Appends an integer.
fn push_int(out: &mut String, n: i64)
    ensures
        final(out)@ == old(out)@ + numerals::dec_int(n as int),
{
    let s = numerals::dec_int_text(n);
    out.append(s.as_str());
}

/// Appends an integer, padded on the left.
fn push_int_aligned(out: &mut String, n: i64, width: usize)
    ensures
        final(out)@ == old(out)@ + numerals::pad_left(numerals::dec_int(n as int), width as nat),
{
    let s = numerals::dec_int_text(n);
    numerals::push_aligned(out, s.as_str(), width);
}

// ---------------------------------------------------------------------------
// Setup
// ---------------------------------------------------------------------------
/// What is said of the shipped skills: where they were loaded from and how
/// many were new.
pub open spec fn loaded_text(dir: Option<Seq<char>>, loaded: nat) -> Seq<char> {
    match dir {
        Some(d) => if loaded > 0 {
            "  Loaded "@ + numerals::dec(loaded) + " builtin skill(s) from "@ + d + "\n"@
        } else {
            "  Builtin skills already loaded\n"@
        },
        None => "  No builtin skills directory found (looked for skills/builtin/)\n"@,
    }
}

/// What is said of the shipped skills.
pub fn skills_loaded(dir: Option<&str>, loaded: usize) -> (r: String)
    ensures
        r@ == loaded_text(text::opt_str(dir), loaded as nat),
{
    match dir {
        Some(d) => if loaded > 0 {
            let mut out = "  Loaded ".to_owned();
            numerals::push_dec(&mut out, loaded as u64);
            out.append(" builtin skill(s) from ");
            out.append(d);
            out.append("\n");
            out
        } else {
            "  Builtin skills already loaded\n".to_owned()
        },
        None => "  No builtin skills directory found (looked for skills/builtin/)\n".to_owned(),
    }
}

/// The hook's binary: next to the program, if the program's path is known.
pub open spec fn hook_place(exe: Option<Seq<char>>) -> Seq<char> {
    match exe {
        Some(e) => match paths::parent_of(e) {
            Some(dir) => paths::join_path(dir, "precc-hook"@),
            None => "precc-hook"@,
        },
        None => "precc-hook"@,
    }
}

/// The hook's binary.
pub fn hook_path(exe: Option<&str>) -> (r: String)
    ensures
        r@ == hook_place(text::opt_str(exe)),
{
    match exe {
        Some(e) => match paths::path_parent(e) {
            Some(dir) => paths::path_join(dir.as_str(), "precc-hook"),
            None => "precc-hook".to_owned(),
        },
        None => "precc-hook".to_owned(),
    }
}

/// How the hook is set up in the host's settings file.
pub open spec fn setup_text(settings: Seq<char>, hook: Seq<char>) -> Seq<char> {
    "\nHook setup:\n  Add to "@ + settings
        + ":\n\n  {\n    \"hooks\": {\n      \"PreToolUse\": [\n        {\n          \"matcher\": \"Bash\",\n          \"hooks\": [\n            {\n              \"type\": \"command\",\n              \"command\": \""@
        + hook + "\"\n            }\n          ]\n        }\n      ]\n    }\n  }\n\nInit complete.\n"@
}

/// How the hook is set up in the host's settings file.
pub fn hook_setup(settings: &str, hook: &str) -> (r: String)
    ensures
        r@ == setup_text(settings@, hook@),
{
    let mut out = "\nHook setup:\n  Add to ".to_owned();
    out.append(settings);
    out.append(
        ":\n\n  {\n    \"hooks\": {\n      \"PreToolUse\": [\n        {\n          \"matcher\": \"Bash\",\n          \"hooks\": [\n            {\n              \"type\": \"command\",\n              \"command\": \"",
    );
    out.append(hook);
    out.append(
        "\"\n            }\n          ]\n        }\n      ]\n    }\n  }\n\nInit complete.\n",
    );
    out
}

// ---------------------------------------------------------------------------
// Mining
// ---------------------------------------------------------------------------
/// What is said of a mined session.
pub open spec fn mined_text(result: MineResult) -> Seq<char> {
    match result {
        MineResult::Skipped => "  Session already mined or has no events\n"@,
        MineResult::Processed { pairs, events } => "  Found "@ + numerals::dec(events as nat)
            + " event(s), "@ + numerals::dec(pairs as nat) + " failure-fix pair(s)\n"@,
    }
}

/// What is said of a mined session.
pub fn session_mined(result: &MineResult) -> (r: String)
    ensures
        r@ == mined_text(*result),
{
    match result {
        MineResult::Skipped => "  Session already mined or has no events\n".to_owned(),
        MineResult::Processed { pairs, events } => {
            let mut out = "  Found ".to_owned();
            numerals::push_dec(&mut out, *events as u64);
            out.append(" event(s), ");
            numerals::push_dec(&mut out, *pairs as u64);
            out.append(" failure-fix pair(s)\n");
            out
        },
    }
}

/// The summary of mining all sessions.
pub open spec fn summary_text(s: MiningSummary) -> Seq<char> {
    "\nMining summary:\n  Sessions processed: "@ + numerals::dec(s.sessions_processed as nat)
        + "\n  Sessions skipped:   "@ + numerals::dec(s.sessions_skipped as nat)
        + "\n  Events found:       "@ + numerals::dec(s.events_found as nat)
        + "\n  Pairs found:        "@ + numerals::dec(s.pairs_found as nat) + "\n"@
}

/// The summary of mining all sessions.
pub fn mining_summary(s: &MiningSummary) -> (r: String)
    ensures
        r@ == summary_text(*s),
{
    let mut out = "\nMining summary:\n  Sessions processed: ".to_owned();
    numerals::push_dec(&mut out, s.sessions_processed as u64);
    out.append("\n  Sessions skipped:   ");
    numerals::push_dec(&mut out, s.sessions_skipped as u64);
    out.append("\n  Events found:       ");
    numerals::push_dec(&mut out, s.events_found as u64);
    out.append("\n  Pairs found:        ");
    numerals::push_dec(&mut out, s.pairs_found as u64);
    out.append("\n");
    out
}

/// How many sessions were mined before.
pub open spec fn mined_before(mined: Seq<bool>) -> nat
    decreases mined.len(),
{
    if mined.len() == 0 {
        0
    } else {
        mined_before(mined.drop_last()) + (if mined.last() {
            1nat
        } else {
            0
        })
    }
}

/// The list of the sessions of a host, given for each whether it was mined
/// before, and where the host keeps their logs.
pub open spec fn sessions_text(mined: Seq<bool>, logs_dir: Seq<char>, host: Seq<char>) -> Seq<char> {
    if mined.len() == 0 {
        "No session files found in "@ + logs_dir + "\nRun "@ + host
            + " to generate session logs first.\n"@
    } else {
        let old_ones = mined_before(mined);
        let new_ones = (mined.len() - old_ones) as nat;
        "Found "@ + numerals::dec(mined.len()) + " session file(s):\n  "@ + numerals::dec(old_ones)
            + " already mined, "@ + numerals::dec(new_ones) + " new\n"@ + (if new_ones > 0 {
            "\nRun `precc ingest --all` to mine new sessions.\n"@
        } else {
            Seq::empty()
        })
    }
}

/// The list of the sessions of a host.
pub fn session_list(mined: &Vec<bool>, logs_dir: &str, host: &str) -> (r: String)
    ensures
        r@ == sessions_text(mined@, logs_dir@, host@),
{
    if mined.len() == 0 {
        let mut none = "No session files found in ".to_owned();
        none.append(logs_dir);
        none.append("\nRun ");
        none.append(host);
        none.append(" to generate session logs first.\n");
        return none;
    }
    let mut before: usize = 0;
    let mut i: usize = 0;
    assert(mined@.take(0) =~= Seq::empty());
    while i < mined.len()
        invariant
            i <= mined@.len(),
            before <= i,
            before == mined_before(mined@.take(i as int)),
        decreases mined@.len() - i,
    {
        proof {
            let t = mined@.take(i + 1);
            assert(t.drop_last() =~= mined@.take(i as int));
            assert(t.last() == mined@[i as int]);
        }
        if mined[i] {
            before += 1;
        }
        i += 1;
    }
    assert(mined@.take(i as int) =~= mined@);
    let fresh: usize = mined.len() - before;
    let mut out = "Found ".to_owned();
    numerals::push_dec(&mut out, mined.len() as u64);
    out.append(" session file(s):\n  ");
    numerals::push_dec(&mut out, before as u64);
    out.append(" already mined, ");
    numerals::push_dec(&mut out, fresh as u64);
    out.append(" new\n");
    if fresh > 0 {
        out.append("\nRun `precc ingest --all` to mine new sessions.\n");
    }
    assert(out@ =~= sessions_text(mined@, logs_dir@, host@));
    out
}

// ---------------------------------------------------------------------------
// Skills
// ---------------------------------------------------------------------------
/// A skill with its stats, as it is listed.
pub struct SkillRow {
    /// The id.
    pub id: i64,
    /// The name.
    pub name: String,
    /// The description.
    pub description: String,
    /// Where it comes from.
    pub source: String,
    /// Whether it is enabled.
    pub enabled: bool,
    /// The priority.
    pub priority: i64,
    /// How often it was activated.
    pub activated: i64,
    /// How often it succeeded.
    pub succeeded: i64,
    /// How often it failed.
    pub failed: i64,
    /// When it was last used.
    pub last_used: Option<String>,
}

/// A line of the table of skills.
pub open spec fn table_line(
    id: Seq<char>,
    name: Seq<char>,
    source: Seq<char>,
    enabled: Seq<char>,
    priority: Seq<char>,
    activated: Seq<char>,
    succeeded: Seq<char>,
) -> Seq<char> {
    numerals::pad_right(id, 4) + " "@ + numerals::pad_right(name, 25) + " "@
        + numerals::pad_right(source, 8) + " "@ + numerals::pad_right(enabled, 8) + " "@
        + numerals::pad_right(priority, 6) + " "@ + numerals::pad_right(activated, 6) + " "@
        + numerals::pad_right(succeeded, 6) + "\n"@
}

/// The line of a skill.
pub open spec fn skill_line(row: SkillRow) -> Seq<char> {
    table_line(
        numerals::dec_int(row.id as int),
        cut_text(row.name@, 24),
        cut_text(row.source@, 7),
        yes_no(row.enabled),
        numerals::dec_int(row.priority as int),
        numerals::dec_int(row.activated as int),
        numerals::dec_int(row.succeeded as int),
    )
}

/// The lines of skills.
pub open spec fn skill_lines(rows: Seq<SkillRow>) -> Seq<char>
    decreases rows.len(),
{
    if rows.len() == 0 {
        Seq::empty()
    } else {
        skill_lines(rows.drop_last()) + skill_line(rows.last())
    }
}

/// The table of skills.
pub open spec fn skills_text(rows: Seq<SkillRow>) -> Seq<char> {
    if rows.len() == 0 {
        "No skills registered.\nRun `precc init` to load builtin skills, or `precc ingest --all` to mine patterns.\n"@
    } else {
        table_line("ID"@, "Name"@, "Source"@, "Enabled"@, "Pri"@, "Acts"@, "Succ"@)
            + numerals::copies('-', 70) + "\n"@ + skill_lines(rows) + "\n"@ + numerals::dec(
            rows.len(),
        ) + " skill(s) total\n"@
    }
}

/// The columns of the skills can be cut to their widths.
pub open spec fn listable(rows: Seq<SkillRow>) -> bool {
    forall|i: int|
        0 <= i < rows.len() ==> text::can_cut((#[trigger] rows[i]).name@, 24) && text::can_cut(
            rows[i].source@,
            7,
        )
}

/// Whether [`skills_table`] can be asked for these skills.
pub fn can_list(rows: &Vec<SkillRow>) -> (r: bool)
    ensures
        r == listable(rows@),
{
    let mut i: usize = 0;
    while i < rows.len()
        invariant
            i <= rows@.len(),
            forall|j: int|
                0 <= j < i ==> text::can_cut((#[trigger] rows@[j]).name@, 24) && text::can_cut(
                    rows@[j].source@,
                    7,
                ),
        decreases rows@.len() - i,
    {
        if !(text::cuttable(rows[i].name.as_str(), 24) && text::cuttable(
            rows[i].source.as_str(),
            7,
        )) {
            assert(!text::can_cut(rows@[i as int].name@, 24) || !text::can_cut(
                rows@[i as int].source@,
                7,
            ));
            return false;
        }
        i += 1;
    }
    true
}

/// Appends a line of the table of skills.
fn push_table_line(
    out: &mut String,
    id: &str,
    name: &str,
    source: &str,
    enabled: &str,
    priority: &str,
    activated: &str,
    succeeded: &str,
)
    ensures
        final(out)@ == old(out)@ + table_line(
            id@,
            name@,
            source@,
            enabled@,
            priority@,
            activated@,
            succeeded@,
        ),
{
    let mut line = String::new();
    numerals::push_padded(&mut line, id, 4);
    assert(line@ =~= numerals::pad_right(id@, 4));
    line.append(" ");
    numerals::push_padded(&mut line, name, 25);
    line.append(" ");
    numerals::push_padded(&mut line, source, 8);
    line.append(" ");
    numerals::push_padded(&mut line, enabled, 8);
    line.append(" ");
    numerals::push_padded(&mut line, priority, 6);
    line.append(" ");
    numerals::push_padded(&mut line, activated, 6);
    line.append(" ");
    numerals::push_padded(&mut line, succeeded, 6);
    line.append("\n");
    out.append(line.as_str());
}

/// The table of skills. See [`can_list`] for the condition on the columns.
pub fn skills_table(rows: &Vec<SkillRow>) -> (r: String)
    requires
        listable(rows@),
    ensures
        r@ == skills_text(rows@),
{
    if rows.len() == 0 {
        return "No skills registered.\nRun `precc init` to load builtin skills, or `precc ingest --all` to mine patterns.\n".to_owned();
    }
    let mut out = String::new();
    push_table_line(&mut out, "ID", "Name", "Source", "Enabled", "Pri", "Acts", "Succ");
    numerals::push_copies(&mut out, '-', 70);
    out.append("\n");
    let ghost head = out@;
    proof {
        assert(head =~= table_line(
            "ID"@,
            "Name"@,
            "Source"@,
            "Enabled"@,
            "Pri"@,
            "Acts"@,
            "Succ"@,
        ) + numerals::copies('-', 70) + "\n"@);
        assert(rows@.take(0) =~= Seq::empty());
        assert(head + skill_lines(rows@.take(0)) =~= head);
    }
    let mut i: usize = 0;
    while i < rows.len()
        invariant
            i <= rows@.len(),
            listable(rows@),
            out@ == head + skill_lines(rows@.take(i as int)),
        decreases rows@.len() - i,
    {
        let row = &rows[i];
        proof {
            let t = rows@.take(i + 1);
            assert(t.drop_last() =~= rows@.take(i as int));
            assert(t.last() == *row);
        }
        let id = numerals::dec_int_text(row.id);
        let priority = numerals::dec_int_text(row.priority);
        let activated = numerals::dec_int_text(row.activated);
        let succeeded = numerals::dec_int_text(row.succeeded);
        push_table_line(
            &mut out,
            id.as_str(),
            truncate_str(row.name.as_str(), 24),
            truncate_str(row.source.as_str(), 7),
            yes_or_no(row.enabled),
            priority.as_str(),
            activated.as_str(),
            succeeded.as_str(),
        );
        assert(out@ =~= head + skill_lines(rows@.take(i + 1)));
        i += 1;
    }
    assert(rows@.take(i as int) =~= rows@);
    out.append("\n");
    numerals::push_dec(&mut out, rows.len() as u64);
    out.append(" skill(s) total\n");
    out
}

/// A trigger or an action of a skill, with its weight or confidence as it is
/// shown.
pub struct SkillPart {
    /// The kind.
    pub kind: String,
    /// The pattern or the template.
    pub content: String,
    /// The weight or the confidence, with one decimal.
    pub label: String,
}

/// The lines of triggers or actions.
pub open spec fn part_lines(parts: Seq<SkillPart>, what: Seq<char>) -> Seq<char>
    decreases parts.len(),
{
    if parts.len() == 0 {
        Seq::empty()
    } else {
        part_lines(parts.drop_last(), what) + ("    ["@ + parts.last().kind@ + "] "@
            + parts.last().content@ + " ("@ + what + "="@ + parts.last().label@ + ")\n"@)
    }
}

/// The section of triggers or actions; empty if there are none.
pub open spec fn parts_text(title: Seq<char>, parts: Seq<SkillPart>, what: Seq<char>) -> Seq<char> {
    if parts.len() == 0 {
        Seq::empty()
    } else {
        title + part_lines(parts, what) + "\n"@
    }
}

/// The details of a skill.
pub open spec fn details_text(row: SkillRow, triggers: Seq<SkillPart>, actions: Seq<SkillPart>) -> Seq<
    char,
> {
    "Skill: "@ + row.name@ + "\n  Description: "@ + row.description@ + "\n  Source:      "@
        + row.source@ + "\n  Priority:    "@ + numerals::dec_int(row.priority as int)
        + "\n  Enabled:     "@ + yes_no(row.enabled) + "\n\n"@ + parts_text(
        "  Triggers:\n"@,
        triggers,
        "weight"@,
    ) + parts_text("  Actions:\n"@, actions, "confidence"@) + "  Stats:\n    Activated: "@
        + numerals::dec_int(row.activated as int) + "\n    Succeeded: "@ + numerals::dec_int(
        row.succeeded as int,
    ) + "\n    Failed:    "@ + numerals::dec_int(row.failed as int) + "\n"@ + (match row.last_used {
        Some(last) => "    Last used: "@ + last@ + "\n"@,
        None => Seq::empty(),
    })
}

/// Appends the section of triggers or actions.
fn push_parts(out: &mut String, title: &str, parts: &Vec<SkillPart>, what: &str)
    ensures
        final(out)@ == old(out)@ + parts_text(title@, parts@, what@),
{
    if parts.len() == 0 {
        assert(out@ + Seq::empty() =~= out@);
        return ;
    }
    out.append(title);
    let ghost head = out@;
    let mut i: usize = 0;
    proof {
        assert(parts@.take(0) =~= Seq::empty());
        assert(head + part_lines(parts@.take(0), what@) =~= head);
    }
    while i < parts.len()
        invariant
            i <= parts@.len(),
            out@ == head + part_lines(parts@.take(i as int), what@),
        decreases parts@.len() - i,
    {
        let part = &parts[i];
        proof {
            let t = parts@.take(i + 1);
            assert(t.drop_last() =~= parts@.take(i as int));
            assert(t.last() == *part);
        }
        let mut line = "    [".to_owned();
        line.append(part.kind.as_str());
        line.append("] ");
        line.append(part.content.as_str());
        line.append(" (");
        line.append(what);
        line.append("=");
        line.append(part.label.as_str());
        line.append(")\n");
        out.append(line.as_str());
        assert(out@ =~= head + part_lines(parts@.take(i + 1), what@));
        i += 1;
    }
    assert(parts@.take(i as int) =~= parts@);
    out.append("\n");
    assert(out@ =~= old(out)@ + parts_text(title@, parts@, what@));
}

/// The details of a skill.
pub fn skill_details(row: &SkillRow, triggers: &Vec<SkillPart>, actions: &Vec<SkillPart>) -> (r:
    String)
    ensures
        r@ == details_text(*row, triggers@, actions@),
{
    let mut out = "Skill: ".to_owned();
    out.append(row.name.as_str());
    out.append("\n  Description: ");
    out.append(row.description.as_str());
    out.append("\n  Source:      ");
    out.append(row.source.as_str());
    out.append("\n  Priority:    ");
    push_int(&mut out, row.priority);
    out.append("\n  Enabled:     ");
    out.append(yes_or_no(row.enabled));
    out.append("\n\n");
    push_parts(&mut out, "  Triggers:\n", triggers, "weight");
    push_parts(&mut out, "  Actions:\n", actions, "confidence");
    out.append("  Stats:\n    Activated: ");
    push_int(&mut out, row.activated);
    out.append("\n    Succeeded: ");
    push_int(&mut out, row.succeeded);
    out.append("\n    Failed:    ");
    push_int(&mut out, row.failed);
    out.append("\n");
    match &row.last_used {
        Some(last) => {
            out.append("    Last used: ");
            out.append(last.as_str());
            out.append("\n");
        },
        None => {},
    }
    assert(out@ =~= details_text(*row, triggers@, actions@));
    out
}

// ---------------------------------------------------------------------------
// Analytics
// ---------------------------------------------------------------------------
/// The figures of a metric, those with a fraction with two decimals.
pub struct MetricFigures {
    /// How often it was recorded.
    pub count: u64,
    /// The mean.
    pub avg: String,
    /// The least value.
    pub min: String,
    /// The greatest value.
    pub max: String,
    /// The sum.
    pub total: String,
}

/// The section of a metric.
pub open spec fn section_text(label: Seq<char>, figures: Option<MetricFigures>) -> Seq<char> {
    match figures {
        Some(f) => label + "\n"@ + numerals::copies('-', text::byte_len(label)) + "\n  Count: "@
            + numerals::dec(f.count as nat) + "\n  Avg:   "@ + f.avg@ + "\n  Min:   "@ + f.min@
            + "\n  Max:   "@ + f.max@ + "\n  Total: "@ + f.total@ + "\n\n"@,
        None => label + ": no data\n\n"@,
    }
}

/// The section of a metric.
pub fn report_section(label: &str, figures: &Option<MetricFigures>) -> (r: String)
    ensures
        r@ == section_text(label@, *figures),
{
    let mut out = label.to_owned();
    match figures {
        Some(f) => {
            out.append("\n");
            let width: usize = label.as_bytes().len();
            numerals::push_copies(&mut out, '-', width);
            out.append("\n  Count: ");
            numerals::push_dec(&mut out, f.count);
            out.append("\n  Avg:   ");
            out.append(f.avg.as_str());
            out.append("\n  Min:   ");
            out.append(f.min.as_str());
            out.append("\n  Max:   ");
            out.append(f.max.as_str());
            out.append("\n  Total: ");
            out.append(f.total.as_str());
            out.append("\n\n");
        },
        None => {
            out.append(": no data\n\n");
        },
    }
    out
}

/// A skill and how often it was activated.
pub struct TopSkill {
    /// The name.
    pub name: String,
    /// The activations.
    pub activated: i64,
}

/// The lines of the skills that were activated most.
pub open spec fn top_skill_lines(top: Seq<TopSkill>) -> Seq<char>
    decreases top.len(),
{
    if top.len() == 0 {
        Seq::empty()
    } else {
        top_skill_lines(top.drop_last()) + ("    "@ + numerals::pad_right(top.last().name@, 25) + " "@
            + numerals::dec_int(top.last().activated as int) + " activations\n"@)
    }
}

/// The section of the skills.
pub open spec fn skills_section_text(
    total: int,
    enabled: int,
    activations: int,
    top: Seq<TopSkill>,
) -> Seq<char> {
    "Skills\n------\n  Total:       "@ + numerals::dec_int(total) + "\n  Enabled:     "@
        + numerals::dec_int(enabled) + "\n  Activations: "@ + numerals::dec_int(activations)
        + "\n\n"@ + (if top.len() == 0 {
        Seq::empty()
    } else {
        "  Top skills:\n"@ + top_skill_lines(top) + "\n"@
    })
}

/// The section of the skills.
pub fn skills_section(total: i64, enabled: i64, activations: i64, top: &Vec<TopSkill>) -> (r: String)
    ensures
        r@ == skills_section_text(total as int, enabled as int, activations as int, top@),
{
    let mut out = "Skills\n------\n  Total:       ".to_owned();
    push_int(&mut out, total);
    out.append("\n  Enabled:     ");
    push_int(&mut out, enabled);
    out.append("\n  Activations: ");
    push_int(&mut out, activations);
    out.append("\n\n");
    let ghost head = out@;
    if top.len() > 0 {
        out.append("  Top skills:\n");
        let mut i: usize = 0;
        proof {
            assert(top@.take(0) =~= Seq::empty());
            assert(out@ =~= head + ("  Top skills:\n"@ + top_skill_lines(top@.take(0))));
        }
        while i < top.len()
            invariant
                i <= top@.len(),
                out@ == head + ("  Top skills:\n"@ + top_skill_lines(top@.take(i as int))),
            decreases top@.len() - i,
        {
            proof {
                let t = top@.take(i + 1);
                assert(t.drop_last() =~= top@.take(i as int));
                assert(t.last() == top@[i as int]);
            }
            let mut line = "    ".to_owned();
            numerals::push_padded(&mut line, top[i].name.as_str(), 25);
            line.append(" ");
            push_int(&mut line, top[i].activated);
            line.append(" activations\n");
            out.append(line.as_str());
            assert(out@ =~= head + ("  Top skills:\n"@ + top_skill_lines(top@.take(i + 1))));
            i += 1;
        }
        assert(top@.take(i as int) =~= top@);
        out.append("\n");
    }
    assert(out@ =~= skills_section_text(total as int, enabled as int, activations as int, top@));
    out
}

/// A failure pattern and how often it occurred.
pub struct PatternRow {
    /// The command that failed.
    pub failure_command: String,
    /// The fix.
    pub fix_command: String,
    /// The occurrences.
    pub occurrences: i64,
    /// The kind of project.
    pub project_type: Option<String>,
}

/// The commands of the patterns can be cut to the width at which they are
/// shown.
pub open spec fn showable(rows: Seq<PatternRow>) -> bool {
    forall|i: int|
        0 <= i < rows.len() ==> text::can_cut((#[trigger] rows[i]).failure_command@, 30)
            && text::can_cut(rows[i].fix_command@, 30)
}

/// Whether [`history_section`] can be asked for these patterns.
pub fn can_show(rows: &Vec<PatternRow>) -> (r: bool)
    ensures
        r == showable(rows@),
{
    let mut i: usize = 0;
    while i < rows.len()
        invariant
            i <= rows@.len(),
            forall|j: int|
                0 <= j < i ==> text::can_cut((#[trigger] rows@[j]).failure_command@, 30)
                    && text::can_cut(rows@[j].fix_command@, 30),
        decreases rows@.len() - i,
    {
        if !(text::cuttable(rows[i].failure_command.as_str(), 30) && text::cuttable(
            rows[i].fix_command.as_str(),
            30,
        )) {
            assert(!text::can_cut(rows@[i as int].failure_command@, 30) || !text::can_cut(
                rows@[i as int].fix_command@,
                30,
            ));
            return false;
        }
        i += 1;
    }
    true
}

/// The line of a pattern.
pub open spec fn pattern_line(row: PatternRow) -> Seq<char> {
    "    ["@ + (match row.project_type {
        Some(p) => p@,
        None => "?"@,
    }) + "] "@ + cut_text(row.failure_command@, 30) + " -> "@ + cut_text(row.fix_command@, 30)
        + " ("@ + numerals::dec_int(row.occurrences as int) + "x)\n"@
}

/// The lines of patterns.
pub open spec fn pattern_lines(rows: Seq<PatternRow>) -> Seq<char>
    decreases rows.len(),
{
    if rows.len() == 0 {
        Seq::empty()
    } else {
        pattern_lines(rows.drop_last()) + pattern_line(rows.last())
    }
}

/// The section of the mined history.
pub open spec fn history_text(sessions: int, pairs: int, most: int, top: Seq<PatternRow>) -> Seq<
    char,
> {
    "History Mining\n--------------\n  Sessions mined:     "@ + numerals::dec_int(sessions)
        + "\n  Failure-fix pairs:  "@ + numerals::dec_int(pairs) + "\n  Max occurrences:    "@
        + numerals::dec_int(most) + "\n\n"@ + (if pairs > 0 && top.len() > 0 {
        "  Top failure patterns:\n"@ + pattern_lines(top) + "\n"@
    } else {
        Seq::empty()
    })
}

/// The section of the mined history. See [`can_show`] for the condition on
/// the patterns.
pub fn history_section(sessions: i64, pairs: i64, most: i64, top: &Vec<PatternRow>) -> (r: String)
    requires
        showable(top@),
    ensures
        r@ == history_text(sessions as int, pairs as int, most as int, top@),
{
    let mut out = "History Mining\n--------------\n  Sessions mined:     ".to_owned();
    push_int(&mut out, sessions);
    out.append("\n  Failure-fix pairs:  ");
    push_int(&mut out, pairs);
    out.append("\n  Max occurrences:    ");
    push_int(&mut out, most);
    out.append("\n\n");
    let ghost head = out@;
    if pairs > 0 && top.len() > 0 {
        out.append("  Top failure patterns:\n");
        let mut i: usize = 0;
        proof {
            assert(top@.take(0) =~= Seq::empty());
            assert(out@ =~= head + ("  Top failure patterns:\n"@ + pattern_lines(top@.take(0))));
        }
        while i < top.len()
            invariant
                i <= top@.len(),
                showable(top@),
                out@ == head + ("  Top failure patterns:\n"@ + pattern_lines(top@.take(i as int))),
            decreases top@.len() - i,
        {
            let row = &top[i];
            proof {
                let t = top@.take(i + 1);
                assert(t.drop_last() =~= top@.take(i as int));
                assert(t.last() == *row);
            }
            let mut line = "    [".to_owned();
            match &row.project_type {
                Some(p) => {
                    line.append(p.as_str());
                },
                None => {
                    line.append("?");
                },
            }
            line.append("] ");
            line.append(truncate_str(row.failure_command.as_str(), 30));
            line.append(" -> ");
            line.append(truncate_str(row.fix_command.as_str(), 30));
            line.append(" (");
            push_int(&mut line, row.occurrences);
            line.append("x)\n");
            out.append(line.as_str());
            assert(out@ =~= head + ("  Top failure patterns:\n"@ + pattern_lines(top@.take(i + 1))));
            i += 1;
        }
        assert(top@.take(i as int) =~= top@);
        out.append("\n");
    }
    assert(out@ =~= history_text(sessions as int, pairs as int, most as int, top@));
    out
}

/// The line of a database: its size in kilobytes, or that it does not exist.
pub open spec fn database_text(name: Seq<char>, size: Option<Seq<char>>) -> Seq<char> {
    "  "@ + numerals::pad_right(name, 16) + (match size {
        Some(s) => " "@ + numerals::pad_left(s, 8) + " KB\n"@,
        None => " (not created)\n"@,
    })
}

/// The line of a database, given its size with one decimal if it exists.
pub fn database_line(name: &str, size: Option<&str>) -> (r: String)
    ensures
        r@ == database_text(name@, text::opt_str(size)),
{
    let mut out = "  ".to_owned();
    numerals::push_padded(&mut out, name, 16);
    match size {
        Some(s) => {
            out.append(" ");
            numerals::push_aligned(&mut out, s, 8);
            out.append(" KB\n");
        },
        None => {
            out.append(" (not created)\n");
        },
    }
    assert(out@ =~= database_text(name@, text::opt_str(size)));
    out
}

// ---------------------------------------------------------------------------
// Savings
// ---------------------------------------------------------------------------
/// Tokens saved per prevented wrong-directory failure.
pub const TOKENS_PER_CD_PREPEND: u32 = 300;

/// Tokens saved per skill auto-activation.
pub const TOKENS_PER_SKILL_ACTIVATION: u32 = 250;

/// Tokens saved per mined pattern occurrence above the first.
pub const TOKENS_PER_MINED_OCCURRENCE: u32 = 200;

/// The sum of the estimates of the first `n` rules.
pub open spec fn estimate_sum(n: int) -> int
    decreases n,
{
    if n <= 0 {
        0
    } else {
        estimate_sum(n - 1) + rewrites::rule_at(n - 1).est_tokens_saved
    }
}

/// The average tokens saved per wrap across all rules, as the sum of their
/// estimates and the number of rules.
pub fn weighted_avg_tokens() -> (r: (u64, u64))
    ensures
        r.0 == estimate_sum(rewrites::RULE_COUNT as int),
        r.1 == rewrites::RULE_COUNT,
{
    let mut total: u64 = 0;
    let mut i: usize = 0;
    while i < rewrites::RULE_COUNT
        invariant
            i <= rewrites::RULE_COUNT,
            total == estimate_sum(i as int),
            total <= i * 0xffff_ffff,
        decreases rewrites::RULE_COUNT - i,
    {
        total = total + rewrites::RULES[i].2 as u64;
        i += 1;
    }
    (total, rewrites::RULE_COUNT as u64)
}

/// The figures of the savings estimate. Token amounts are rounded to whole
/// tokens.
pub struct SavingsFigures {
    /// Recorded wraps.
    pub wraps: i64,
    /// Tokens per wrap.
    pub per_wrap: String,
    /// Tokens saved by wraps.
    pub wrap_tokens: String,
    /// Prepended `cd`s.
    pub cds: i64,
    /// Tokens saved by them.
    pub cd_tokens: String,
    /// Skill activations.
    pub activations: i64,
    /// Tokens saved by them.
    pub skill_tokens: String,
    /// Prevented occurrences of mined patterns.
    pub preventions: i64,
    /// Tokens saved by them.
    pub mined_tokens: String,
    /// Tokens saved by all preventions.
    pub prevention_tokens: String,
    /// Tokens saved in all.
    pub grand_total: String,
    /// The share of the preventions in percent with one decimal, if anything
    /// was saved.
    pub share: Option<String>,
}

/// The line of one kind of prevention.
pub open spec fn prevention_line(title: Seq<char>, count: int, each: nat, tokens: Seq<char>) -> Seq<
    char,
> {
    title + numerals::pad_left(numerals::dec_int(count), 8) + "  × "@ + numerals::pad_left(
        numerals::dec(each),
        4,
    ) + " tok = "@ + numerals::pad_left(tokens, 8) + " tok\n"@
}

/// The savings estimate.
pub open spec fn savings_text(f: SavingsFigures) -> Seq<char> {
    "PRECC Token Savings Estimate\n============================\n\nCompressor wraps\n----------------\n  Wraps recorded        : "@
        + numerals::pad_left(numerals::dec_int(f.wraps as int), 8)
        + "\n  Est. tokens/wrap      : "@ + numerals::pad_left(f.per_wrap@, 8)
        + "  (per-category weighted avg)\n  Wrap gain (tokens)    : "@ + numerals::pad_left(
        f.wrap_tokens@,
        8,
    ) + "\n\nError prevention\n----------------\n"@ + prevention_line(
        "  CD prepends (Pillar 1): "@,
        f.cds as int,
        TOKENS_PER_CD_PREPEND as nat,
        f.cd_tokens@,
    ) + prevention_line(
        "  Skill activations (P4): "@,
        f.activations as int,
        TOKENS_PER_SKILL_ACTIVATION as nat,
        f.skill_tokens@,
    ) + prevention_line(
        "  Mined preventions (P3): "@,
        f.preventions as int,
        TOKENS_PER_MINED_OCCURRENCE as nat,
        f.mined_tokens@,
    ) + "\n  Prevention total      : "@ + numerals::pad_left(f.prevention_tokens@, 8)
        + " tokens\n\nSummary\n-------\n  Compressor wraps      : "@ + numerals::pad_left(
        f.wrap_tokens@,
        8,
    ) + " tokens\n  Error prevention      : "@ + numerals::pad_left(f.prevention_tokens@, 8)
        + " tokens\n  Grand total saved     : "@ + numerals::pad_left(f.grand_total@, 8)
        + " tokens\n"@ + (match f.share {
        Some(s) => "  Prevention share      : "@ + numerals::pad_left(s@, 7) + "%\n"@,
        None => Seq::empty(),
    })
        + "\nNote: figures are estimates based on conservative medians per event.\n      Wrap ~"@
        + f.per_wrap@ + " tok/wrap (weighted avg), CD-miss ~"@ + numerals::dec(
        TOKENS_PER_CD_PREPEND as nat,
    ) + " tok, skill ~"@ + numerals::dec(TOKENS_PER_SKILL_ACTIVATION as nat) + " tok, pattern ~"@
        + numerals::dec(TOKENS_PER_MINED_OCCURRENCE as nat) + " tok.\n"@
}

/// Appends the line of one kind of prevention.
fn push_prevention(out: &mut String, title: &str, count: i64, each: u32, tokens: &str)
    ensures
        final(out)@ == old(out)@ + prevention_line(title@, count as int, each as nat, tokens@),
{
    let mut line = title.to_owned();
    push_int_aligned(&mut line, count, 8);
    line.append("  × ");
    let e = numerals::dec_text(each as u64);
    numerals::push_aligned(&mut line, e.as_str(), 4);
    line.append(" tok = ");
    numerals::push_aligned(&mut line, tokens, 8);
    line.append(" tok\n");
    out.append(line.as_str());
}

/// The savings estimate.
pub fn savings_report(f: &SavingsFigures) -> (r: String)
    ensures
        r@ == savings_text(*f),
{
    let mut out =
        "PRECC Token Savings Estimate\n============================\n\nCompressor wraps\n----------------\n  Wraps recorded        : ".to_owned();
    push_int_aligned(&mut out, f.wraps, 8);
    out.append("\n  Est. tokens/wrap      : ");
    numerals::push_aligned(&mut out, f.per_wrap.as_str(), 8);
    out.append("  (per-category weighted avg)\n  Wrap gain (tokens)    : ");
    numerals::push_aligned(&mut out, f.wrap_tokens.as_str(), 8);
    out.append("\n\nError prevention\n----------------\n");
    push_prevention(
        &mut out,
        "  CD prepends (Pillar 1): ",
        f.cds,
        TOKENS_PER_CD_PREPEND,
        f.cd_tokens.as_str(),
    );
    push_prevention(
        &mut out,
        "  Skill activations (P4): ",
        f.activations,
        TOKENS_PER_SKILL_ACTIVATION,
        f.skill_tokens.as_str(),
    );
    push_prevention(
        &mut out,
        "  Mined preventions (P3): ",
        f.preventions,
        TOKENS_PER_MINED_OCCURRENCE,
        f.mined_tokens.as_str(),
    );
    out.append("\n  Prevention total      : ");
    numerals::push_aligned(&mut out, f.prevention_tokens.as_str(), 8);
    out.append(" tokens\n\nSummary\n-------\n  Compressor wraps      : ");
    numerals::push_aligned(&mut out, f.wrap_tokens.as_str(), 8);
    out.append(" tokens\n  Error prevention      : ");
    numerals::push_aligned(&mut out, f.prevention_tokens.as_str(), 8);
    out.append(" tokens\n  Grand total saved     : ");
    numerals::push_aligned(&mut out, f.grand_total.as_str(), 8);
    out.append(" tokens\n");
    let ghost head = out@;
    match &f.share {
        Some(s) => {
            out.append("  Prevention share      : ");
            numerals::push_aligned(&mut out, s.as_str(), 7);
            out.append("%\n");
            assert(out@ =~= head + ("  Prevention share      : "@ + numerals::pad_left(s@, 7)
                + "%\n"@));
        },
        None => {
            assert(out@ =~= head + Seq::empty());
        },
    }
    out.append(
        "\nNote: figures are estimates based on conservative medians per event.\n      Wrap ~",
    );
    out.append(f.per_wrap.as_str());
    out.append(" tok/wrap (weighted avg), CD-miss ~");
    numerals::push_dec(&mut out, TOKENS_PER_CD_PREPEND as u64);
    out.append(" tok, skill ~");
    numerals::push_dec(&mut out, TOKENS_PER_SKILL_ACTIVATION as u64);
    out.append(" tok, pattern ~");
    numerals::push_dec(&mut out, TOKENS_PER_MINED_OCCURRENCE as u64);
    out.append(" tok.\n");
    out
}

/// A text that is too long is cut behind the given number of bytes.
pub proof fn law_cut_text_keeps_the_start(kept: Seq<char>, rest: Seq<char>)
    ensures
        cut_text(kept + rest, text::byte_len(kept) as int) == kept,
        cut_text(kept, text::byte_len(kept + rest) as int) == kept,
{
    text::law_cut_keeps_the_start(kept, rest);
    if rest.len() == 0 {
        assert(kept + rest =~= kept);
    }
}

/// A skill's line has its columns in this order: id, name, source, whether it is
/// enabled, priority, activations, successes.
pub proof fn law_columns_of_a_skill(row: SkillRow)
    ensures
        ({
            let id = numerals::pad_right(numerals::dec_int(row.id as int), 4);
            let name = numerals::pad_right(cut_text(row.name@, 24), 25);
            let source = numerals::pad_right(cut_text(row.source@, 7), 8);
            let on = numerals::pad_right(if row.enabled {
                "yes"@
            } else {
                "no"@
            }, 8);
            let priority = numerals::pad_right(numerals::dec_int(row.priority as int), 6);
            let used = numerals::pad_right(numerals::dec_int(row.activated as int), 6);
            let good = numerals::pad_right(numerals::dec_int(row.succeeded as int), 6);
            skill_line(row) == text::join(seq![id, name, source, on, priority, used, good], " "@)
                + "\n"@
        }),
{
    let id = numerals::pad_right(numerals::dec_int(row.id as int), 4);
    let name = numerals::pad_right(cut_text(row.name@, 24), 25);
    let source = numerals::pad_right(cut_text(row.source@, 7), 8);
    let on = numerals::pad_right(yes_no(row.enabled), 8);
    let priority = numerals::pad_right(numerals::dec_int(row.priority as int), 6);
    let used = numerals::pad_right(numerals::dec_int(row.activated as int), 6);
    let good = numerals::pad_right(numerals::dec_int(row.succeeded as int), 6);
    let all = seq![id, name, source, on, priority, used, good];
    reveal_with_fuel(text::join, 8);
    assert(all.drop_last() =~= seq![id, name, source, on, priority, used]);
    assert(all.drop_last().drop_last() =~= seq![id, name, source, on, priority]);
    assert(all.drop_last().drop_last().drop_last() =~= seq![id, name, source, on]);
    assert(seq![id, name, source, on].drop_last() =~= seq![id, name, source]);
    assert(seq![id, name, source].drop_last() =~= seq![id, name]);
    assert(seq![id, name].drop_last() =~= seq![id]);
    assert(skill_line(row) =~= text::join(all, " "@) + "\n"@);
}

/// The table has the line of each skill in order, and ends in their number.
pub proof fn law_each_skill_has_its_line(rows: Seq<SkillRow>, row: SkillRow)
    ensures
        skill_lines(rows.push(row)) == skill_lines(rows) + skill_line(row),
        skill_lines(Seq::<SkillRow>::empty()) == Seq::<char>::empty(),
        ({
            let t = skills_text(rows.push(row));
            let end = "\n"@ + numerals::dec(rows.len() + 1) + " skill(s) total\n"@;
            let body = skill_lines(rows.push(row));
            &&& t.len() >= body.len() + end.len()
            &&& t.skip(t.len() - end.len()) == end
            &&& t.subrange(t.len() - end.len() - body.len(), t.len() - end.len()) == body
        }),
{
    let all = rows.push(row);
    assert(all.drop_last() =~= rows);
    assert(all.last() == row);
    let t = skills_text(all);
    let end = "\n"@ + numerals::dec(rows.len() + 1) + " skill(s) total\n"@;
    let body = skill_lines(all);
    let head = table_line("ID"@, "Name"@, "Source"@, "Enabled"@, "Pri"@, "Acts"@, "Succ"@)
        + numerals::copies('-', 70) + "\n"@;
    assert(t =~= head + body + end);
    assert(t.skip(t.len() - end.len()) =~= end);
    assert(t.subrange(t.len() - end.len() - body.len(), t.len() - end.len()) =~= body);
}

/// The sessions that were mined before and the new ones make all; new ones are
/// announced exactly if there are any.
pub proof fn law_sessions_are_counted(mined: Seq<bool>, was_mined: bool)
    ensures
        mined_before(mined.push(was_mined)) == mined_before(mined) + (if was_mined {
            1nat
        } else {
            0
        }),
        mined_before(Seq::<bool>::empty()) == 0,
        mined_before(mined) <= mined.len(),
    decreases mined.len(),
{
    assert(mined.push(was_mined).drop_last() =~= mined);
    assert(mined.push(was_mined).last() == was_mined);
    if mined.len() > 0 {
        law_sessions_are_counted(mined.drop_last(), true);
    }
}

/// What is said of the sessions tells all, the mined and the new ones.
pub proof fn law_session_list_tells_the_counts(
    mined: Seq<bool>,
    old_ones: nat,
    new_ones: nat,
    logs_dir: Seq<char>,
    host: Seq<char>,
)
    requires
        mined.len() > 0,
        mined_before(mined) == old_ones,
        old_ones + new_ones == mined.len(),
    ensures
        ({
            let told = "Found "@ + numerals::dec(old_ones + new_ones) + (" session file(s):\n  "@
                + numerals::dec(old_ones)) + (" already mined, "@ + numerals::dec(new_ones)
                + " new\n"@);
            &&& new_ones == 0 ==> sessions_text(mined, logs_dir, host) == told
            &&& new_ones > 0 ==> sessions_text(mined, logs_dir, host) == told
                + "\nRun `precc ingest --all` to mine new sessions.\n"@
        }),
        sessions_text(Seq::empty(), logs_dir, host) == "No session files found in "@ + logs_dir + (
        "\nRun "@ + host + " to generate session logs first.\n"@),
{
    let told = "Found "@ + numerals::dec(old_ones + new_ones) + (" session file(s):\n  "@
        + numerals::dec(old_ones)) + (" already mined, "@ + numerals::dec(new_ones) + " new\n"@);
    if new_ones == 0 {
        assert(sessions_text(mined, logs_dir, host) =~= told);
    } else {
        assert(sessions_text(mined, logs_dir, host) =~= told
            + "\nRun `precc ingest --all` to mine new sessions.\n"@);
    }
    assert(sessions_text(Seq::empty(), logs_dir, host) =~= "No session files found in "@ + logs_dir
        + ("\nRun "@ + host + " to generate session logs first.\n"@));
}

/// What is said of a mined session tells its events before its pairs, and what is
/// said of the shipped skills how many were new and where they are.
pub proof fn law_counts_are_told(pairs: usize, events: usize, dir: Seq<char>, loaded: nat)
    ensures
        mined_text((MineResult::Processed { pairs: pairs, events: events })) == ("  Found "@
            + numerals::dec(events as nat) + " event(s), "@) + (numerals::dec(pairs as nat)
            + " failure-fix pair(s)\n"@),
        loaded > 0 ==> loaded_text(Some(dir), loaded) == ("  Loaded "@ + numerals::dec(loaded)
            + " builtin skill(s) from "@) + (dir + "\n"@),
        loaded_text(Some(dir), 0) == "  Builtin skills already loaded\n"@,
{
    assert(mined_text((MineResult::Processed { pairs: pairs, events: events })) =~= ("  Found "@
        + numerals::dec(events as nat) + " event(s), "@) + (numerals::dec(pairs as nat)
        + " failure-fix pair(s)\n"@));
    if loaded > 0 {
        assert(loaded_text(Some(dir), loaded) =~= ("  Loaded "@ + numerals::dec(loaded)
            + " builtin skill(s) from "@) + (dir + "\n"@));
    }
}

/// The hook's binary lies next to the program.
pub proof fn law_hook_lies_next_to_the_program(dir: Seq<char>, name: Seq<char>)
    requires
        paths::is_component(name),
        paths::is_plain(dir),
    ensures
        dir.is_prefix_of(hook_place(Some(dir + seq!['/'] + name))),
        paths::components(hook_place(Some(dir + seq!['/'] + name))) == paths::components(dir)
            + paths::components("precc-hook"@),
        hook_place(None) == "precc-hook"@,
{
    reveal_strlit("precc-hook");
    paths::law_parent_holds_the_child(dir, name);
    paths::law_joined_paths(dir, "precc-hook"@);
}

/// A pattern's line tells the kind of project, the failure, the fix and the count.
pub proof fn law_each_pattern_has_its_line(rows: Seq<PatternRow>, row: PatternRow)
    ensures
        pattern_lines(rows.push(row)) == pattern_lines(rows) + pattern_line(row),
        pattern_lines(Seq::<PatternRow>::empty()) == Seq::<char>::empty(),
        text::opt_view(row.project_type) matches Some(kind) ==> pattern_line(row) == ("    ["@ + kind
            + "] "@) + (cut_text(row.failure_command@, 30) + " -> "@ + cut_text(
            row.fix_command@,
            30,
        )) + (" ("@ + numerals::dec_int(row.occurrences as int) + "x)\n"@),
        row.project_type is None ==> pattern_line(row) == ("    ["@ + "?"@ + "] "@) + (cut_text(
            row.failure_command@,
            30,
        ) + " -> "@ + cut_text(row.fix_command@, 30)) + (" ("@ + numerals::dec_int(
            row.occurrences as int,
        ) + "x)\n"@),
{
    assert(rows.push(row).drop_last() =~= rows);
    assert(rows.push(row).last() == row);
    let kind = match row.project_type {
        Some(p) => p@,
        None => "?"@,
    };
    assert(pattern_line(row) =~= ("    ["@ + kind + "] "@) + (cut_text(row.failure_command@, 30)
        + " -> "@ + cut_text(row.fix_command@, 30)) + (" ("@ + numerals::dec_int(
        row.occurrences as int,
    ) + "x)\n"@));
}

/// A part of a skill has a line that tells its kind, its content and its weight,
/// and the parts come in order; so do the most used skills.
pub proof fn law_each_part_has_its_line(
    parts: Seq<SkillPart>,
    part: SkillPart,
    what: Seq<char>,
    top: Seq<TopSkill>,
    skill: TopSkill,
)
    ensures
        part_lines(parts.push(part), what) == part_lines(parts, what) + (("    ["@ + part.kind@
            + "] "@) + (part.content@ + " ("@) + (what + "="@ + part.label@ + ")\n"@)),
        part_lines(Seq::<SkillPart>::empty(), what) == Seq::<char>::empty(),
        top_skill_lines(top.push(skill)) == top_skill_lines(top) + ("    "@ + numerals::pad_right(
            skill.name@,
            25,
        ) + (" "@ + numerals::dec_int(skill.activated as int) + " activations\n"@)),
        top_skill_lines(Seq::<TopSkill>::empty()) == Seq::<char>::empty(),
{
    assert(parts.push(part).drop_last() =~= parts);
    assert(parts.push(part).last() == part);
    assert(("    ["@ + part.kind@ + "] "@) + (part.content@ + " ("@) + (what + "="@ + part.label@
        + ")\n"@) =~= "    ["@ + part.kind@ + "] "@ + part.content@ + " ("@ + what + "="@
        + part.label@ + ")\n"@);
    assert(top.push(skill).drop_last() =~= top);
    assert(top.push(skill).last() == skill);
    assert("    "@ + numerals::pad_right(skill.name@, 25) + (" "@ + numerals::dec_int(
        skill.activated as int,
    ) + " activations\n"@) =~= "    "@ + numerals::pad_right(skill.name@, 25) + " "@
        + numerals::dec_int(skill.activated as int) + " activations\n"@);
}

/// A table can be asked for exactly if its columns can be cut.
pub proof fn law_tables_that_can_be_asked_for(skills: Seq<SkillRow>, patterns: Seq<PatternRow>)
    ensures
        listable(skills) <==> forall|i: int|
            0 <= i < skills.len() ==> text::can_cut((#[trigger] skills[i]).name@, 24)
                && text::can_cut(skills[i].source@, 7),
        showable(patterns) <==> forall|i: int|
            0 <= i < patterns.len() ==> text::can_cut((#[trigger] patterns[i]).failure_command@, 30)
                && text::can_cut(patterns[i].fix_command@, 30),
{
}

/// The patterns that occurred most are shown exactly if there are pairs and
/// patterns to show.
pub proof fn law_top_patterns_are_shown(
    sessions: int,
    pairs: int,
    most: int,
    top: Seq<PatternRow>,
)
    ensures
        ({
            let figures = ("History Mining\n--------------\n  Sessions mined:     "@
                + numerals::dec_int(sessions)) + ("\n  Failure-fix pairs:  "@ + numerals::dec_int(
                pairs,
            )) + ("\n  Max occurrences:    "@ + numerals::dec_int(most)) + "\n\n"@;
            &&& pairs > 0 && top.len() > 0 ==> history_text(sessions, pairs, most, top) == figures
                + ("  Top failure patterns:\n"@ + pattern_lines(top) + "\n"@)
            &&& pairs <= 0 || top.len() == 0 ==> history_text(sessions, pairs, most, top) == figures
        }),
{
    let figures = ("History Mining\n--------------\n  Sessions mined:     "@ + numerals::dec_int(
        sessions,
    )) + ("\n  Failure-fix pairs:  "@ + numerals::dec_int(pairs)) + (
    "\n  Max occurrences:    "@ + numerals::dec_int(most)) + "\n\n"@;
    if pairs > 0 && top.len() > 0 {
        assert(history_text(sessions, pairs, most, top) =~= figures + ("  Top failure patterns:\n"@
            + pattern_lines(top) + "\n"@));
    } else {
        assert(history_text(sessions, pairs, most, top) =~= figures);
    }
}

/// The average of the estimates is taken over all rules: over any number of them
/// the sum grows by the estimate of the next, from nothing on.
pub proof fn law_estimates_are_summed(n: int, r: (u64, u64))
    requires
        call_ensures(weighted_avg_tokens, (), r),
    ensures
        0 <= n < 64 ==> estimate_sum(n + 1) == estimate_sum(n) + rewrites::RULES[n].2,
        estimate_sum(0) == 0,
        r == (15480u64, 64u64),
{
    assert(estimate_sum(0) == 0);
    assert(estimate_sum(1) == 160);
    assert(estimate_sum(2) == 320);
    assert(estimate_sum(3) == 480);
    assert(estimate_sum(4) == 540);
    assert(estimate_sum(5) == 600);
    assert(estimate_sum(6) == 660);
    assert(estimate_sum(7) == 720);
    assert(estimate_sum(8) == 780);
    assert(estimate_sum(9) == 840);
    assert(estimate_sum(10) == 900);
    assert(estimate_sum(11) == 960);
    assert(estimate_sum(12) == 1080);
    assert(estimate_sum(13) == 1200);
    assert(estimate_sum(14) == 1320);
    assert(estimate_sum(15) == 1740);
    assert(estimate_sum(16) == 2160);
    assert(estimate_sum(17) == 2580);
    assert(estimate_sum(18) == 2880);
    assert(estimate_sum(19) == 3080);
    assert(estimate_sum(20) == 3140);
    assert(estimate_sum(21) == 3520);
    assert(estimate_sum(22) == 3720);
    assert(estimate_sum(23) == 3920);
    assert(estimate_sum(24) == 4300);
    assert(estimate_sum(25) == 4500);
    assert(estimate_sum(26) == 4880);
    assert(estimate_sum(27) == 5260);
    assert(estimate_sum(28) == 5640);
    assert(estimate_sum(29) == 5940);
    assert(estimate_sum(30) == 6240);
    assert(estimate_sum(31) == 6540);
    assert(estimate_sum(32) == 6840);
    assert(estimate_sum(33) == 7140);
    assert(estimate_sum(34) == 7440);
    assert(estimate_sum(35) == 7640);
    assert(estimate_sum(36) == 7840);
    assert(estimate_sum(37) == 8240);
    assert(estimate_sum(38) == 8640);
    assert(estimate_sum(39) == 9040);
    assert(estimate_sum(40) == 9240);
    assert(estimate_sum(41) == 9440);
    assert(estimate_sum(42) == 9540);
    assert(estimate_sum(43) == 9640);
    assert(estimate_sum(44) == 9740);
    assert(estimate_sum(45) == 10120);
    assert(estimate_sum(46) == 10500);
    assert(estimate_sum(47) == 10700);
    assert(estimate_sum(48) == 11080);
    assert(estimate_sum(49) == 11380);
    assert(estimate_sum(50) == 11580);
    assert(estimate_sum(51) == 11680);
    assert(estimate_sum(52) == 11880);
    assert(estimate_sum(53) == 12080);
    assert(estimate_sum(54) == 12580);
    assert(estimate_sum(55) == 12880);
    assert(estimate_sum(56) == 13080);
    assert(estimate_sum(57) == 13280);
    assert(estimate_sum(58) == 13680);
    assert(estimate_sum(59) == 13980);
    assert(estimate_sum(60) == 14180);
    assert(estimate_sum(61) == 14480);
    assert(estimate_sum(62) == 14880);
    assert(estimate_sum(63) == 15080);
    assert(estimate_sum(64) == 15480);
}

/// A prevented failure is worth more than an activated skill, and that more than a
/// prevented pattern: 300, 250 and 200 tokens.
pub proof fn law_tokens_per_prevention()
    ensures
        TOKENS_PER_CD_PREPEND == 300,
        TOKENS_PER_SKILL_ACTIVATION == 250,
        TOKENS_PER_MINED_OCCURRENCE == 200,
{
}

/// The line of a prevention tells its count, the tokens for each and their sum.
pub proof fn law_prevention_line(title: Seq<char>, count: int, each: nat, tokens: Seq<char>)
    ensures
        prevention_line(title, count, each, tokens) == title + (numerals::pad_left(
            numerals::dec_int(count),
            8,
        ) + "  × "@ + numerals::pad_left(numerals::dec(each), 4)) + (" tok = "@
            + numerals::pad_left(tokens, 8) + " tok\n"@),
{
    assert(prevention_line(title, count, each, tokens) =~= title + (numerals::pad_left(
        numerals::dec_int(count),
        8,
    ) + "  × "@ + numerals::pad_left(numerals::dec(each), 4)) + (" tok = "@ + numerals::pad_left(
        tokens,
        8,
    ) + " tok\n"@));
}

/// The section of a metric tells its figures under their names, and that there are
/// none where there are none.
pub proof fn law_section_tells_the_figures(label: Seq<char>, f: MetricFigures)
    ensures
        section_text(label, None) == label + ": no data\n\n"@,
        section_text(label, Some(f)) == (label + "\n"@ + numerals::copies(
            '-',
            text::byte_len(label),
        )) + ("\n  Count: "@ + numerals::dec(f.count as nat)) + ("\n  Avg:   "@ + f.avg@) + (
        "\n  Min:   "@ + f.min@) + ("\n  Max:   "@ + f.max@) + ("\n  Total: "@ + f.total@
            + "\n\n"@),
{
    assert(section_text(label, Some(f)) =~= (label + "\n"@ + numerals::copies(
        '-',
        text::byte_len(label),
    )) + ("\n  Count: "@ + numerals::dec(f.count as nat)) + ("\n  Avg:   "@ + f.avg@) + (
    "\n  Min:   "@ + f.min@) + ("\n  Max:   "@ + f.max@) + ("\n  Total: "@ + f.total@
        + "\n\n"@));
}

/// The details of a skill tell its fields and figures under their names; its
/// triggers come before its actions, and the last use is told if there was one.
pub proof fn law_details_tell_the_fields(
    row: SkillRow,
    triggers: Seq<SkillPart>,
    actions: Seq<SkillPart>,
)
    ensures
        details_text(row, triggers, actions) == ("Skill: "@ + row.name@) + ("\n  Description: "@
            + row.description@) + ("\n  Source:      "@ + row.source@) + ("\n  Priority:    "@
            + numerals::dec_int(row.priority as int)) + ("\n  Enabled:     "@ + (if row.enabled {
            "yes"@
        } else {
            "no"@
        }) + "\n\n"@) + (parts_text("  Triggers:\n"@, triggers, "weight"@) + parts_text(
            "  Actions:\n"@,
            actions,
            "confidence"@,
        )) + ("  Stats:\n    Activated: "@ + numerals::dec_int(row.activated as int)) + (
        "\n    Succeeded: "@ + numerals::dec_int(row.succeeded as int)) + ("\n    Failed:    "@
            + numerals::dec_int(row.failed as int) + "\n"@) + (match row.last_used {
            Some(last) => "    Last used: "@ + last@ + "\n"@,
            None => Seq::empty(),
        }),
{
    let last = match row.last_used {
        Some(last) => "    Last used: "@ + last@ + "\n"@,
        None => Seq::empty(),
    };
    let head = "Skill: "@ + row.name@ + "\n  Description: "@ + row.description@
        + "\n  Source:      "@ + row.source@ + "\n  Priority:    "@ + numerals::dec_int(
        row.priority as int,
    ) + "\n  Enabled:     "@ + yes_no(row.enabled) + "\n\n"@;
    assert(head =~= ("Skill: "@ + row.name@) + ("\n  Description: "@ + row.description@) + (
    "\n  Source:      "@ + row.source@) + ("\n  Priority:    "@ + numerals::dec_int(
        row.priority as int,
    )) + ("\n  Enabled:     "@ + yes_no(row.enabled) + "\n\n"@));
    let t = parts_text("  Triggers:\n"@, triggers, "weight"@);
    let a = parts_text("  Actions:\n"@, actions, "confidence"@);
    assert(head + t + a =~= head + (t + a));
    let stats = "  Stats:\n    Activated: "@ + numerals::dec_int(row.activated as int);
    assert(head + (t + a) + "  Stats:\n    Activated: "@ + numerals::dec_int(row.activated as int)
        =~= head + (t + a) + stats);
    let all = head + (t + a) + stats;
    assert(all + "\n    Succeeded: "@ + numerals::dec_int(row.succeeded as int) =~= all + (
    "\n    Succeeded: "@ + numerals::dec_int(row.succeeded as int)));
    let more = all + ("\n    Succeeded: "@ + numerals::dec_int(row.succeeded as int));
    assert(more + "\n    Failed:    "@ + numerals::dec_int(row.failed as int) + "\n"@ =~= more + (
    "\n    Failed:    "@ + numerals::dec_int(row.failed as int) + "\n"@));
}

/// The section of the skills tells how many there are, how many are enabled and how
/// often they were activated, and lists the most used ones if there are any.
pub proof fn law_skills_section_tells_the_counts(
    total: int,
    enabled: int,
    activations: int,
    top: Seq<TopSkill>,
)
    ensures
        ({
            let figures = ("Skills\n------\n  Total:       "@ + numerals::dec_int(total)) + (
            "\n  Enabled:     "@ + numerals::dec_int(enabled)) + ("\n  Activations: "@
                + numerals::dec_int(activations) + "\n\n"@);
            &&& top.len() == 0 ==> skills_section_text(total, enabled, activations, top) == figures
            &&& top.len() > 0 ==> skills_section_text(total, enabled, activations, top) == figures
                + ("  Top skills:\n"@ + top_skill_lines(top) + "\n"@)
        }),
{
    let figures = ("Skills\n------\n  Total:       "@ + numerals::dec_int(total)) + (
    "\n  Enabled:     "@ + numerals::dec_int(enabled)) + ("\n  Activations: "@
        + numerals::dec_int(activations) + "\n\n"@);
    if top.len() == 0 {
        assert(skills_section_text(total, enabled, activations, top) =~= figures);
    } else {
        assert(skills_section_text(total, enabled, activations, top) =~= figures + (
        "  Top skills:\n"@ + top_skill_lines(top) + "\n"@));
    }
}

/// The summary of mining tells each sum under its name.
pub proof fn law_summary_tells_the_sums(s: MiningSummary)
    ensures
        summary_text(s) == ("\nMining summary:\n  Sessions processed: "@ + numerals::dec(
            s.sessions_processed as nat,
        )) + ("\n  Sessions skipped:   "@ + numerals::dec(s.sessions_skipped as nat)) + (
        "\n  Events found:       "@ + numerals::dec(s.events_found as nat)) + (
        "\n  Pairs found:        "@ + numerals::dec(s.pairs_found as nat) + "\n"@),
{
    assert(summary_text(s) =~= ("\nMining summary:\n  Sessions processed: "@ + numerals::dec(
        s.sessions_processed as nat,
    )) + ("\n  Sessions skipped:   "@ + numerals::dec(s.sessions_skipped as nat)) + (
    "\n  Events found:       "@ + numerals::dec(s.events_found as nat)) + (
    "\n  Pairs found:        "@ + numerals::dec(s.pairs_found as nat) + "\n"@));
}

/// The line of a database has its name in a column of sixteen and its size, in
/// kilobytes, in one of eight; a database that is not there has none.
pub proof fn law_database_line(name: Seq<char>, size: Seq<char>)
    ensures
        database_text(name, Some(size)) == ("  "@ + numerals::pad_right(name, 16)) + (" "@
            + numerals::pad_left(size, 8)) + " KB\n"@,
        database_text(name, None) == "  "@ + (numerals::pad_right(name, 16) + " (not created)\n"@),
{
    assert(database_text(name, Some(size)) =~= ("  "@ + numerals::pad_right(name, 16)) + (" "@
        + numerals::pad_left(size, 8)) + " KB\n"@);
    assert(database_text(name, None) =~= "  "@ + (numerals::pad_right(name, 16)
        + " (not created)\n"@));
}

/// How to set the hook up names the settings file first, and then the hook as the
/// command to run.
pub proof fn law_setup_names_the_hook(settings: Seq<char>, hook: Seq<char>)
    ensures
        setup_text(settings, hook).len() >= 22 + settings.len() + hook.len(),
        setup_text(settings, hook).subrange(0, 22 + settings.len() as int)
            == "\nHook setup:\n  Add to "@ + settings,
        exists|before: Seq<char>, behind: Seq<char>|
            setup_text(settings, hook).skip(22 + settings.len() as int) == #[trigger] (before
                + ("\"command\": \""@ + hook + "\"\n"@) + behind),
{
    reveal_strlit("\nHook setup:\n  Add to ");
    let head = "\nHook setup:\n  Add to "@;
    assert(head.len() == 22);
    let middle =
        ":\n\n  {\n    \"hooks\": {\n      \"PreToolUse\": [\n        {\n          \"matcher\": \"Bash\",\n          \"hooks\": [\n            {\n              \"type\": \"command\",\n              \"command\": \""@;
    let end =
        "\"\n            }\n          ]\n        }\n      ]\n    }\n  }\n\nInit complete.\n"@;
    let t = setup_text(settings, hook);
    assert(t =~= head + settings + (middle + hook + end));
    assert(t.subrange(0, 22 + settings.len() as int) =~= head + settings);
    assert(t.skip(22 + settings.len() as int) =~= middle + hook + end);
    let key = "\"command\": \""@;
    let stop = "\"\n"@;
    lemma_setup_key();
    let before = middle.take(middle.len() - key.len());
    let behind = end.skip(2);
    assert(middle =~= before + key);
    assert(end =~= stop + behind);
    assert(middle + hook + end =~= before + (key + hook + stop) + behind);
}

/// The text before the hook ends in its key, and what follows it closes the quotes.
proof fn lemma_setup_key()
    ensures
        ({
            let middle =
                ":\n\n  {\n    \"hooks\": {\n      \"PreToolUse\": [\n        {\n          \"matcher\": \"Bash\",\n          \"hooks\": [\n            {\n              \"type\": \"command\",\n              \"command\": \""@;
            let key = "\"command\": \""@;
            middle.len() >= key.len() && middle.skip(middle.len() - key.len()) == key
        }),
        ({
            let end =
                "\"\n            }\n          ]\n        }\n      ]\n    }\n  }\n\nInit complete.\n"@;
            end.len() >= 2 && end.take(2) == "\"\n"@ && "\"\n"@.len() == 2
        }),
{
    reveal_strlit(
        ":\n\n  {\n    \"hooks\": {\n      \"PreToolUse\": [\n        {\n          \"matcher\": \"Bash\",\n          \"hooks\": [\n            {\n              \"type\": \"command\",\n              \"command\": \"",
    );
    reveal_strlit("\"command\": \"");
    reveal_strlit(
        "\"\n            }\n          ]\n        }\n      ]\n    }\n  }\n\nInit complete.\n",
    );
    reveal_strlit("\"\n");
    assert("\"\n            }\n          ]\n        }\n      ]\n    }\n  }\n\nInit complete.\n"@.take(
        2,
    ) =~= "\"\n"@);
    let middle =
        ":\n\n  {\n    \"hooks\": {\n      \"PreToolUse\": [\n        {\n          \"matcher\": \"Bash\",\n          \"hooks\": [\n            {\n              \"type\": \"command\",\n              \"command\": \""@;
    let key = "\"command\": \""@;
    assert(middle.skip(middle.len() - key.len()) =~= key);
}

/// The section of a skill's parts has its title before the lines and a blank line
/// behind them; without parts there is no section.
pub proof fn law_parts_have_a_section(title: Seq<char>, parts: Seq<SkillPart>, what: Seq<char>)
    ensures
        parts.len() == 0 ==> parts_text(title, parts, what) == Seq::<char>::empty(),
        parts.len() > 0 ==> parts_text(title, parts, what) == title + (part_lines(parts, what)
            + "\n"@),
{
    if parts.len() > 0 {
        assert(parts_text(title, parts, what) =~= title + (part_lines(parts, what) + "\n"@));
    }
}

/// The table has a head and a rule of seventy hyphens before the lines of the skills;
/// without skills it is said how to get some.
pub proof fn law_table_has_a_head(rows: Seq<SkillRow>)
    ensures
        rows.len() > 0 ==> {
            let head = table_line("ID"@, "Name"@, "Source"@, "Enabled"@, "Pri"@, "Acts"@, "Succ"@);
            let t = skills_text(rows);
            &&& t.take(head.len() as int) == head
            &&& t.subrange(head.len() as int, head.len() as int + 70) == numerals::copies('-', 70)
        },
        rows.len() == 0 ==> skills_text(rows)
            == "No skills registered.\nRun `precc init` to load builtin skills, or `precc ingest --all` to mine patterns.\n"@,
{
    if rows.len() > 0 {
        let head = table_line("ID"@, "Name"@, "Source"@, "Enabled"@, "Pri"@, "Acts"@, "Succ"@);
        let t = skills_text(rows);
        let rule = numerals::copies('-', 70);
        assert(rule.len() == 70);
        let rest = "\n"@ + skill_lines(rows) + "\n"@ + numerals::dec(rows.len())
            + " skill(s) total\n"@;
        assert(t =~= head + rule + rest);
        assert(t.take(head.len() as int) =~= head);
        assert(t.subrange(head.len() as int, head.len() as int + 70) =~= rule);
    }
}

} // verus!
