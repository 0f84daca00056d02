//! Failure pattern learning: mining of session logs.
//!
//! A session log holds one JSON value per line. Tool uses and their results
//! are extracted from it, failures are paired with the later event that fixed
//! them, and the decisions that earlier sessions were told of are read back.
use std::collections::hash_map::DefaultHasher;
use std::hash::Hash;
use std::hash::Hasher;
use vstd::prelude::*;
use vstd::std_specs::hash::DefaultHasherAdditionalSpecFns;
use vstd::string::*;

use crate::json;
use crate::json::Json;
use crate::json::JsonView;
use crate::numerals;
use crate::paths;
use crate::patterns;
use crate::text;
use crate::text::Class;

verus! {

// ---------------------------------------------------------------------------
// Events
// ---------------------------------------------------------------------------
/// A tool use event extracted from a session.
#[derive(Debug)]
pub struct ToolEvent {
    /// The tool's name.
    pub tool: String,
    /// The command that was run, or the path of the file that was edited.
    pub command: Option<String>,
    /// What the tool reported.
    pub output: Option<String>,
    /// The exit code, if the report tells it.
    pub exit_code: Option<i32>,
    /// Whether the tool use failed.
    pub is_failure: bool,
}

/// The model of a tool use event.
pub struct EventView {
    /// The tool's name.
    pub tool: Seq<char>,
    /// The command or the path.
    pub command: Option<Seq<char>>,
    /// What the tool reported.
    pub output: Option<Seq<char>>,
    /// The exit code.
    pub exit_code: Option<i32>,
    /// Whether the tool use failed.
    pub is_failure: bool,
}

impl View for ToolEvent {
    type V = EventView;

    open spec fn view(&self) -> EventView {
        EventView {
            tool: self.tool@,
            command: text::opt_view(self.command),
            output: text::opt_view(self.output),
            exit_code: self.exit_code,
            is_failure: self.is_failure,
        }
    }
}

/// The models of a sequence of events.
pub open spec fn event_views(v: Seq<ToolEvent>) -> Seq<EventView> {
    Seq::new(v.len(), |i: int| v[i]@)
}

impl Clone for ToolEvent {
    fn clone(&self) -> (r: Self)
        ensures
            r@ == self@,
    {
        ToolEvent {
            tool: self.tool.clone(),
            command: text::copy_opt(&self.command),
            output: text::copy_opt(&self.output),
            exit_code: self.exit_code,
            is_failure: self.is_failure,
        }
    }
}

// ---------------------------------------------------------------------------
// Exit codes
// ---------------------------------------------------------------------------
/// The exit code that a line reports, as `Exit code: N` or `Exit code N`.
pub open spec fn line_code(line: Seq<char>) -> Option<int> {
    let t = text::trim(line);
    match text::after_prefix(t, "Exit code:"@) {
        Some(rest) => numerals::read_between(text::trim(rest), i32::MIN as int, i32::MAX as int),
        None => match text::after_prefix(t, "Exit code "@) {
            Some(rest) => numerals::read_between(
                text::trim(rest),
                i32::MIN as int,
                i32::MAX as int,
            ),
            None => None,
        },
    }
}

/// The first exit code that the lines report.
pub open spec fn first_code(lines: Seq<Seq<char>>) -> Option<int>
    decreases lines.len(),
{
    if lines.len() == 0 {
        None
    } else {
        match line_code(lines[0]) {
            Some(c) => Some(c),
            None => first_code(lines.skip(1)),
        }
    }
}

/// Reads the exit code that a line reports.
fn code_in_line(line: &str) -> (r: Option<i32>)
    ensures
        match r {
            Some(c) => line_code(line@) == Some(c as int),
            None => line_code(line@) is None,
        },
{
    let t = text::trimmed(line);
    if let Some(rest) = text::strip(t, "Exit code:") {
        numerals::read_i32(text::trimmed(rest))
    } else if let Some(rest) = text::strip(t, "Exit code ") {
        numerals::read_i32(text::trimmed(rest))
    } else {
        None
    }
}

/// Extracts the exit code from text. Handles both `Exit code: N` and
/// `Exit code N`.
pub fn extract_exit_code(text: &str) -> (r: Option<i32>)
    ensures
        match r {
            Some(c) => first_code(text::lines(text@)) == Some(c as int),
            None => first_code(text::lines(text@)) is None,
        },
{
    let lines = text::split_lines(text);
    let ghost all = text::views(lines@);
    let mut i: usize = 0;
    assert(all.skip(0) =~= all);
    while i < lines.len()
        invariant
            i <= lines@.len(),
            all == text::views(lines@),
            all == text::lines(text@),
            first_code(all.skip(i as int)) == first_code(all),
        decreases lines@.len() - i,
    {
        proof {
            assert(all.skip(i as int)[0] == lines@[i as int]@);
            assert(all.skip(i as int).skip(1) =~= all.skip(i + 1));
        }
        let c = code_in_line(lines[i].as_str());
        if c.is_some() {
            return c;
        }
        i += 1;
    }
    None
}

// ---------------------------------------------------------------------------
// Content blocks
// ---------------------------------------------------------------------------
/// The texts of the items of a tool's report that have one.
pub open spec fn texts_in(items: Seq<JsonView>) -> Seq<Seq<char>>
    decreases items.len(),
{
    if items.len() == 0 {
        Seq::empty()
    } else {
        match json::text_in(json::get_of(items.last(), "text"@)) {
            Some(t) => texts_in(items.drop_last()).push(t),
            None => texts_in(items.drop_last()),
        }
    }
}

/// The text of a tool's report: a string, or the texts of a list of items,
/// one per line.
pub open spec fn report_text(content: JsonView) -> Option<Seq<char>> {
    match content {
        JsonView::Text(s) => Some(s),
        JsonView::Array(items) => Some(text::join(texts_in(items), "\n"@)),
        _ => None,
    }
}

/// The exit code of a report: the one that its text tells, else 1 if it is
/// marked as an error.
pub open spec fn report_code(report: Seq<char>, is_error: bool) -> Option<int> {
    match first_code(text::lines(report)) {
        Some(c) => Some(c),
        None => if is_error {
            Some(1)
        } else {
            None
        },
    }
}

/// The event that a tool's report yields.
pub open spec fn report_event(report: Seq<char>, is_error: bool) -> EventView {
    let code = report_code(report, is_error);
    EventView {
        tool: "Bash"@,
        command: None,
        output: Some(report),
        exit_code: match code {
            Some(c) => Some(c as i32),
            None => None,
        },
        is_failure: code is Some && code != Some(0int),
    }
}

/// The event of a `tool_result` block.
pub open spec fn result_event(block: JsonView) -> Option<EventView> {
    match json::get_of(block, "content"@) {
        Some(content) => match report_text(content) {
            Some(report) => Some(
                report_event(
                    report,
                    json::bool_in(json::get_of(block, "is_error"@)) == Some(true),
                ),
            ),
            None => None,
        },
        None => None,
    }
}

/// The event of a tool use whose outcome is not known yet.
pub open spec fn use_event(tool: Seq<char>, command: Seq<char>) -> EventView {
    EventView {
        tool: tool,
        command: Some(command),
        output: None,
        exit_code: None,
        is_failure: false,
    }
}

/// The event of a use of `tool` with the given input: a Bash command, or an
/// edit of a file.
pub open spec fn input_event(tool: Seq<char>, input: JsonView) -> Option<EventView> {
    if tool == "Bash"@ {
        match json::text_in(json::get_of(input, "command"@)) {
            Some(c) => Some(use_event("Bash"@, c)),
            None => None,
        }
    } else if tool == "Edit"@ || tool == "Write"@ {
        Some(use_event(tool, json::text_or(json::get_of(input, "file_path"@), ""@)))
    } else {
        None
    }
}

/// The event of a content block: a tool use or a tool's result.
pub open spec fn block_event(block: JsonView) -> Option<EventView> {
    match json::text_in(json::get_of(block, "type"@)) {
        Some(kind) => if kind == "tool_use"@ {
            match (json::text_in(json::get_of(block, "name"@)), json::get_of(block, "input"@)) {
                (Some(name), Some(input)) => input_event(name, input),
                _ => None,
            }
        } else if kind == "tool_result"@ {
            result_event(block)
        } else {
            None
        },
        None => None,
    }
}

/// The view of an optional event.
pub open spec fn opt_event(e: Option<ToolEvent>) -> Option<EventView> {
    match e {
        Some(v) => Some(v@),
        None => None,
    }
}

/// The text of a tool's report.
fn text_of_report(content: &Json) -> (r: Option<String>)
    ensures
        text::opt_view(r) == report_text(content@),
{
    if let Some(s) = json::as_text(Some(content)) {
        return Some(s.to_owned());
    }
    if let Some(items) = json::as_items(Some(content)) {
        let ghost all = json::items_in(Some(content@))->0;
        let mut out: Vec<String> = Vec::new();
        let mut i: usize = 0;
        assert(all.take(0) =~= Seq::<JsonView>::empty());
        assert(text::views(out@) =~= texts_in(all.take(0)));
        while i < items.len()
            invariant
                i <= items@.len(),
                all == Seq::new(items@.len(), |j: int| items@[j]@),
                text::views(out@) == texts_in(all.take(i as int)),
            decreases items@.len() - i,
        {
            let ghost before = text::views(out@);
            proof {
                let t = all.take(i + 1);
                assert(t.drop_last() =~= all.take(i as int));
                assert(t.last() == items@[i as int]@);
            }
            if let Some(s) = json::as_text(json::get(&items[i], "text")) {
                out.push(s.to_owned());
                assert(text::views(out@) =~= before.push(s@));
            }
            i += 1;
        }
        assert(all.take(i as int) =~= all);
        return Some(text::joined(&out, "\n"));
    }
    None
}

/// The event of a `tool_result` block.
pub fn extract_from_tool_result(block: &Json) -> (r: Option<ToolEvent>)
    ensures
        opt_event(r) == result_event(block@),
{
    let content = match json::get(block, "content") {
        Some(c) => c,
        None => {
            return None;
        },
    };
    let report = match text_of_report(content) {
        Some(t) => t,
        None => {
            return None;
        },
    };
    let is_error: bool = match json::as_bool(json::get(block, "is_error")) {
        Some(b) => b,
        None => false,
    };
    let told = extract_exit_code(report.as_str());
    let exit_code: Option<i32> = match told {
        Some(c) => Some(c),
        None => if is_error {
            Some(1)
        } else {
            None
        },
    };
    let is_failure: bool = match exit_code {
        Some(c) => c != 0,
        None => false,
    };
    Some(
        ToolEvent {
            tool: "Bash".to_owned(),
            command: None,
            output: Some(report),
            exit_code: exit_code,
            is_failure: is_failure,
        },
    )
}

/// The event of a content block of a message, if it is a use of a known tool
/// or a tool's result.
pub fn extract_from_content_block(block: &Json) -> (r: Option<ToolEvent>)
    ensures
        opt_event(r) == block_event(block@),
{
    let kind = match json::as_text(json::get(block, "type")) {
        Some(k) => k,
        None => {
            return None;
        },
    };
    if text::same(kind, "tool_use") {
        let name = match json::as_text(json::get(block, "name")) {
            Some(n) => n,
            None => {
                return None;
            },
        };
        let input = match json::get(block, "input") {
            Some(i) => i,
            None => {
                return None;
            },
        };
        if text::same(name, "Bash") {
            match json::as_text(json::get(input, "command")) {
                Some(c) => Some(
                    ToolEvent {
                        tool: "Bash".to_owned(),
                        command: Some(c.to_owned()),
                        output: None,
                        exit_code: None,
                        is_failure: false,
                    },
                ),
                None => None,
            }
        } else if text::same(name, "Edit") || text::same(name, "Write") {
            Some(
                ToolEvent {
                    tool: name.to_owned(),
                    command: Some(json::as_text_or(json::get(input, "file_path"), "")),
                    output: None,
                    exit_code: None,
                    is_failure: false,
                },
            )
        } else {
            None
        }
    } else if text::same(kind, "tool_result") {
        extract_from_tool_result(block)
    } else {
        None
    }
}

// ---------------------------------------------------------------------------
// Lines
// ---------------------------------------------------------------------------
/// The events of a list of content blocks.
pub open spec fn blocks_events(blocks: Seq<JsonView>) -> Seq<EventView>
    decreases blocks.len(),
{
    if blocks.len() == 0 {
        Seq::empty()
    } else {
        match block_event(blocks.last()) {
            Some(e) => blocks_events(blocks.drop_last()).push(e),
            None => blocks_events(blocks.drop_last()),
        }
    }
}

/// The events of the message that a line of a session log holds.
pub open spec fn message_events(line: JsonView) -> Seq<EventView> {
    match json::items_in(json::get_in(json::get_of(line, "message"@), "content"@)) {
        Some(blocks) => blocks_events(blocks),
        None => Seq::empty(),
    }
}

/// The events of one line, given what it parses to. Blank lines and lines
/// that are not JSON have none.
pub open spec fn line_events(line: Seq<char>, parsed: Option<JsonView>) -> Seq<EventView> {
    match parsed {
        Some(j) => if text::trim(line).len() == 0 {
            Seq::empty()
        } else {
            message_events(j)
        },
        None => Seq::empty(),
    }
}

/// The events of the lines of a session log, in order.
pub open spec fn raw_events(lines: Seq<Seq<char>>) -> Seq<EventView>
    decreases lines.len(),
{
    if lines.len() == 0 {
        Seq::empty()
    } else {
        raw_events(lines.drop_last()) + line_events(lines.last(), json::json_of(lines.last()))
    }
}

/// A tool use whose outcome the next event tells.
pub open spec fn answers(use_: EventView, result: EventView) -> bool {
    &&& use_.command is Some
    &&& use_.output is None
    &&& result.command is None
    &&& result.output is Some
    &&& result.tool == use_.tool
}

/// A tool use together with its outcome.
pub open spec fn answered(use_: EventView, result: EventView) -> EventView {
    EventView {
        tool: use_.tool,
        command: use_.command,
        output: result.output,
        exit_code: result.exit_code,
        is_failure: result.is_failure,
    }
}

/// The events with each tool use merged with the result that directly follows
/// it.
pub open spec fn merged(raw: Seq<EventView>) -> Seq<EventView>
    decreases raw.len(),
{
    if raw.len() == 0 {
        Seq::empty()
    } else if raw.len() >= 2 && answers(raw[0], raw[1]) {
        seq![answered(raw[0], raw[1])] + merged(raw.skip(2))
    } else {
        seq![raw[0]] + merged(raw.skip(1))
    }
}

/// The tool use events of a session log.
pub open spec fn session_events(content: Seq<char>) -> Seq<EventView> {
    merged(raw_events(text::lines(content)))
}

/// The events of the message that a line of a session log holds.
pub fn events_from_message(line: &Json) -> (r: Vec<ToolEvent>)
    ensures
        event_views(r@) == message_events(line@),
{
    let mut out: Vec<ToolEvent> = Vec::new();
    if let Some(blocks) = json::as_items(json::get_opt(json::get(line, "message"), "content")) {
        let ghost all = json::items_in(
            json::get_in(json::get_of(line@, "message"@), "content"@),
        )->0;
        let mut i: usize = 0;
        assert(all.take(0) =~= Seq::<JsonView>::empty());
        assert(event_views(out@) =~= blocks_events(all.take(0)));
        while i < blocks.len()
            invariant
                i <= blocks@.len(),
                all == Seq::new(blocks@.len(), |j: int| blocks@[j]@),
                event_views(out@) == blocks_events(all.take(i as int)),
            decreases blocks@.len() - i,
        {
            let ghost before = event_views(out@);
            proof {
                let t = all.take(i + 1);
                assert(t.drop_last() =~= all.take(i as int));
                assert(t.last() == blocks@[i as int]@);
            }
            if let Some(e) = extract_from_content_block(&blocks[i]) {
                out.push(e);
                assert(event_views(out@) =~= before.push(e@));
            }
            i += 1;
        }
        assert(all.take(i as int) =~= all);
    } else {
        assert(event_views(out@) =~= Seq::empty());
    }
    out
}

/// Merges each tool use (command set, output not) with the result (output
/// set, command not) of the same tool that directly follows it.
pub fn merge_tool_events(raw: Vec<ToolEvent>) -> (r: Vec<ToolEvent>)
    ensures
        event_views(r@) == merged(event_views(raw@)),
{
    let ghost all = event_views(raw@);
    let mut out: Vec<ToolEvent> = Vec::new();
    let mut i: usize = 0;
    proof {
        assert(all.skip(0) =~= all);
        assert(event_views(out@) + merged(all) =~= merged(all));
    }
    let n: usize = raw.len();
    while i < n
        invariant
            n == raw@.len(),
            i <= n,
            all == event_views(raw@),
            event_views(out@) + merged(all.skip(i as int)) == merged(all),
        decreases n - i,
    {
        let ghost rest = all.skip(i as int);
        let ghost before = event_views(out@);
        let event = &raw[i];
        assert(rest[0] == event@);
        if n - i >= 2 {
            let next = &raw[i + 1];
            assert(rest[1] == next@);
            if event.command.is_some() && event.output.is_none() && next.command.is_none()
                && next.output.is_some() && text::same(next.tool.as_str(), event.tool.as_str()) {
                let whole = ToolEvent {
                    tool: event.tool.clone(),
                    command: text::copy_opt(&event.command),
                    output: text::copy_opt(&next.output),
                    exit_code: next.exit_code,
                    is_failure: next.is_failure,
                };
                let ghost w = whole@;
                out.push(whole);
                proof {
                    assert(w == answered(rest[0], rest[1]));
                    assert(event_views(out@) =~= before.push(w));
                    assert(rest.skip(2) =~= all.skip(i + 2));
                    assert(event_views(out@) + merged(all.skip(i + 2)) =~= before + (seq![w]
                        + merged(all.skip(i + 2))));
                }
                i += 2;
                continue;
            }
        }
        out.push(event.clone());
        proof {
            assert(!(rest.len() >= 2 && answers(rest[0], rest[1])));
            assert(event_views(out@) =~= before.push(rest[0]));
            assert(rest.skip(1) =~= all.skip(i + 1));
            assert(event_views(out@) + merged(all.skip(i + 1)) =~= before + (seq![rest[0]]
                + merged(all.skip(i + 1))));
        }
        i += 1;
    }
    proof {
        assert(all.skip(i as int) =~= Seq::<EventView>::empty());
        assert(event_views(out@) =~= merged(all));
    }
    out
}

/// Extracts the tool use events from the content of a session log.
///
/// Tool uses are merged with the results that follow them, so that an event
/// has both the command and its output and exit status.
pub fn extract_tool_events(content: &str) -> (r: Vec<ToolEvent>)
    ensures
        event_views(r@) == session_events(content@),
{
    let lines = text::split_lines(content);
    let ghost all = text::views(lines@);
    let mut raw: Vec<ToolEvent> = Vec::new();
    let mut i: usize = 0;
    proof {
        assert(all.take(0) =~= Seq::<Seq<char>>::empty());
        assert(event_views(raw@) =~= raw_events(all.take(0)));
    }
    while i < lines.len()
        invariant
            i <= lines@.len(),
            all == text::views(lines@),
            all == text::lines(content@),
            event_views(raw@) == raw_events(all.take(i as int)),
        decreases lines@.len() - i,
    {
        let ghost before = event_views(raw@);
        let line = lines[i].as_str();
        proof {
            let t = all.take(i + 1);
            assert(t.drop_last() =~= all.take(i as int));
            assert(t.last() == line@);
            assert(before + Seq::empty() =~= before);
        }
        if !text::trimmed(line).is_empty() {
            if let Some(parsed) = json::parse_json(line) {
                let mut more = events_from_message(&parsed);
                let ghost m = event_views(more@);
                raw.append(&mut more);
                assert(event_views(raw@) =~= before + m);
            }
        }
        i += 1;
    }
    assert(all.take(i as int) =~= all);
    merge_tool_events(raw)
}

/// What stands first after merging is the event that stood first, or a tool
/// use with its outcome.
proof fn lemma_merged_first(raw: Seq<EventView>)
    requires
        raw.len() > 0,
    ensures
        merged(raw).len() > 0,
        merged(raw)[0] == raw[0] || merged(raw)[0].command is Some,
{
}

/// Merging is complete after one pass: no tool use is left with its result
/// directly behind it.
pub proof fn law_merging_is_complete(raw: Seq<EventView>)
    ensures
        merged(merged(raw)) == merged(raw),
    decreases raw.len(),
{
    if raw.len() > 0 {
        let out = merged(raw);
        let n: int = if raw.len() >= 2 && answers(raw[0], raw[1]) {
            2
        } else {
            1
        };
        let rest = raw.skip(n);
        law_merging_is_complete(rest);
        assert(out.skip(1) =~= merged(rest));
        if rest.len() > 0 {
            lemma_merged_first(rest);
            assert(rest[0] == raw[n]);
            assert(out[1] == merged(rest)[0]);
        }
        assert(!(out.len() >= 2 && answers(out[0], out[1])));
        assert(merged(out) =~= out);
    }
}

/// A number's text starts and ends with no space.
proof fn lemma_number_text(n: int)
    ensures
        numerals::dec_int(n).len() > 0,
        !text::is_space(numerals::dec_int(n)[0]),
        !text::is_space(numerals::dec_int(n).last()),
{
    if n < 0 {
        numerals::lemma_dec_reads_back((-n) as nat);
        let d = numerals::dec((-n) as nat);
        assert(text::is_digit(d[d.len() - 1]));
        assert(numerals::dec_int(n).last() == d[d.len() - 1]);
    } else {
        numerals::lemma_dec_reads_back(n as nat);
        let d = numerals::dec(n as nat);
        assert(text::is_digit(d[0]));
        assert(text::is_digit(d[d.len() - 1]));
    }
}

/// A line that says `Exit code: N` or `Exit code N`, whatever space stands
/// around it and before the number, tells the code N. A number that is no exit
/// code is none.
pub proof fn law_line_tells_its_code(
    front: Seq<char>,
    gap: Seq<char>,
    code: int,
    back: Seq<char>,
)
    requires
        forall|i: int| 0 <= i < front.len() ==> text::is_space(#[trigger] front[i]),
        forall|i: int| 0 <= i < gap.len() ==> text::is_space(#[trigger] gap[i]),
        forall|i: int| 0 <= i < back.len() ==> text::is_space(#[trigger] back[i]),
    ensures
        line_code(front + ("Exit code:"@ + gap + numerals::dec_int(code)) + back) == (if i32::MIN
            <= code <= i32::MAX {
            Some(code)
        } else {
            None
        }),
        line_code(front + ("Exit code "@ + gap + numerals::dec_int(code)) + back) == (if i32::MIN
            <= code <= i32::MAX {
            Some(code)
        } else {
            None
        }),
{
    let d = numerals::dec_int(code);
    let none = Seq::<char>::empty();
    reveal_strlit("Exit code:");
    reveal_strlit("Exit code ");
    lemma_number_text(code);
    numerals::law_numbers_read_back(code, i32::MIN as int, i32::MAX as int);
    text::law_trim_takes_spaces_off(gap, d, none);
    assert(gap + d + none =~= gap + d);
    let colon = "Exit code:"@ + gap + d;
    let space = "Exit code "@ + gap + d;
    assert(colon.last() == d.last());
    assert(space.last() == d.last());
    text::law_trim_takes_spaces_off(front, colon, back);
    text::law_trim_takes_spaces_off(front, space, back);
    assert(colon =~= "Exit code:"@ + (gap + d));
    assert(space =~= "Exit code "@ + (gap + d));
    text::law_prefix_and_rest(colon, "Exit code:"@, gap + d);
    text::law_prefix_and_rest(space, "Exit code "@, gap + d);
    text::law_prefix_and_rest(space, "Exit code:"@, gap + d);
    assert(!"Exit code:"@.is_prefix_of(space)) by {
        assert(space[9] == ' ');
        assert("Exit code:"@[9] == ':');
    }
}

/// A line whose text begins otherwise tells no code.
pub proof fn law_other_lines_tell_no_code(front: Seq<char>, core: Seq<char>, back: Seq<char>)
    requires
        forall|i: int| 0 <= i < front.len() ==> text::is_space(#[trigger] front[i]),
        forall|i: int| 0 <= i < back.len() ==> text::is_space(#[trigger] back[i]),
        core.len() > 0 ==> !text::is_space(core[0]) && !text::is_space(core.last()),
        !"Exit code:"@.is_prefix_of(core),
        !"Exit code "@.is_prefix_of(core),
    ensures
        line_code(front + core + back) is None,
{
    text::law_trim_takes_spaces_off(front, core, back);
    text::law_prefix_and_rest(core, "Exit code:"@, core);
    text::law_prefix_and_rest(core, "Exit code "@, core);
}

/// Of several lines that tell a code, the first counts.
pub proof fn law_first_told_code_counts(lines: Seq<Seq<char>>, k: int)
    requires
        0 <= k <= lines.len(),
        forall|j: int| 0 <= j < k ==> line_code(#[trigger] lines[j]) is None,
    ensures
        k == lines.len() ==> first_code(lines) is None,
        k < lines.len() && line_code(lines[k]) is Some ==> first_code(lines) == line_code(lines[k]),
    decreases k,
{
    if k > 0 {
        assert(line_code(lines[0]) is None);
        assert forall|j: int| 0 <= j < k - 1 implies line_code(
            #[trigger] lines.skip(1)[j],
        ) is None by {
            assert(lines.skip(1)[j] == lines[j + 1]);
        }
        law_first_told_code_counts(lines.skip(1), k - 1);
        if k < lines.len() {
            assert(lines.skip(1)[k - 1] == lines[k]);
        }
    }
}

/// A tool's report has failed exactly if its exit code is not zero. The code is
/// the one that the first line to tell one tells; where no line does, it is one
/// if the report is marked as an error, and there is none otherwise.
pub proof fn law_nonzero_codes_are_failures(block: JsonView, report: Seq<char>, k: int)
    requires
        json::get_of(block, "content"@) == Some(JsonView::Text(report)),
        0 <= k <= text::lines(report).len(),
        forall|j: int| 0 <= j < k ==> line_code(#[trigger] text::lines(report)[j]) is None,
    ensures
        match result_event(block) {
            Some(e) => {
                let marked = json::get_of(block, "is_error"@) == Some(JsonView::Bool(true));
                &&& e.tool == "Bash"@
                &&& e.command is None
                &&& e.output == Some(report)
                &&& k == text::lines(report).len() && marked ==> e.exit_code == Some(1i32)
                    && e.is_failure
                &&& k == text::lines(report).len() && !marked ==> e.exit_code is None
                    && !e.is_failure
                &&& k < text::lines(report).len() ==> match line_code(text::lines(report)[k]) {
                    Some(c) => e.exit_code == Some(c as i32) && (e.is_failure <==> c != 0),
                    None => true,
                }
            },
            None => false,
        },
{
    law_first_told_code_counts(text::lines(report), k);
}

/// A report that begins with the line `Exit code N` has the code N, whatever
/// follows and whether or not it is marked as an error, and has failed exactly
/// if N is not zero.
pub proof fn law_failed_command_is_a_failure(block: JsonView, code: i32, rest: Seq<char>)
    requires
        json::get_of(block, "content"@) == Some(
            JsonView::Text("Exit code "@ + numerals::dec_int(code as int) + seq!['\n'] + rest),
        ),
    ensures
        match result_event(block) {
            Some(e) => e.exit_code == Some(code) && (e.is_failure <==> code != 0),
            None => false,
        },
{
    let none = Seq::<char>::empty();
    let d = numerals::dec_int(code as int);
    let line = "Exit code "@ + d;
    let report = line + seq!['\n'] + rest;
    reveal_strlit("Exit code ");
    lemma_number_text(code as int);
    lemma_code_line(code);
    assert(line.last() == d.last());
    text::law_lines_end_at_line_feeds(line, rest);
    assert(text::lines(report)[0] == line);
    law_line_tells_its_code(none, none, code as int, none);
    assert(none + ("Exit code "@ + none + d) + none =~= line);
    law_nonzero_codes_are_failures(block, report, 0);
}

/// A line that tells a code is one line, and ends in a digit.
proof fn lemma_code_line(code: i32)
    ensures
        !("Exit code "@ + numerals::dec_int(code as int)).contains('\n'),
        ("Exit code "@ + numerals::dec_int(code as int)).last() != '\r',
{
    let d = numerals::dec_int(code as int);
    let line = "Exit code "@ + d;
    reveal_strlit("Exit code ");
    lemma_number_text(code as int);
    assert(line.last() == d.last());
    assert(!line.contains('\n')) by {
        numerals::lemma_dec_reads_back(if code < 0 {
            (-code) as nat
        } else {
            code as nat
        });
        let m = if code < 0 {
            numerals::dec((-code) as nat)
        } else {
            numerals::dec(code as nat)
        };
        assert forall|i: int| 0 <= i < line.len() implies line[i] != '\n' by {
            if i >= 10 {
                assert(line[i] == d[i - 10]);
                let at = if code < 0 {
                    i - 11
                } else {
                    i - 10
                };
                if 0 <= at {
                    assert(text::is_digit(m[at]));
                    assert(d[i - 10] == m[at]);
                }
            }
        }
    }
}

/// A report that is a list of items is the texts of those items, one per line;
/// items without a text are passed over, and what is neither a text nor a list
/// is no report.
pub proof fn law_report_items_are_joined(
    block: JsonView,
    items: Seq<JsonView>,
    texts: Seq<Seq<char>>,
)
    ensures
        json::get_of(block, "content"@) == Some(JsonView::Array(items)) && items.len()
            == texts.len() && (forall|i: int|
            0 <= i < items.len() ==> json::get_of(#[trigger] items[i], "text"@) == Some(
                JsonView::Text(texts[i]),
            )) ==> match result_event(block) {
            Some(e) => e.output == Some(text::join(texts, "\n"@)),
            None => false,
        },
        json::get_of(block, "content"@) is None ==> result_event(block) is None,
        match json::get_of(block, "content"@) {
            Some(JsonView::Text(_)) | Some(JsonView::Array(_)) => result_event(block) is Some,
            _ => result_event(block) is None,
        },
{
    if items.len() == texts.len() && forall|i: int|
        0 <= i < items.len() ==> json::get_of(#[trigger] items[i], "text"@) == Some(
            JsonView::Text(texts[i]),
        ) {
        lemma_texts_in(items, texts);
    }
}

/// The texts of items that all have one.
proof fn lemma_texts_in(items: Seq<JsonView>, texts: Seq<Seq<char>>)
    requires
        items.len() == texts.len(),
        forall|i: int|
            0 <= i < items.len() ==> json::get_of(#[trigger] items[i], "text"@) == Some(
                JsonView::Text(texts[i]),
            ),
    ensures
        texts_in(items) == texts,
    decreases items.len(),
{
    if items.len() > 0 {
        assert(items.last() == items[items.len() - 1]);
        assert forall|i: int| 0 <= i < items.len() - 1 implies json::get_of(
            #[trigger] items.drop_last()[i],
            "text"@,
        ) == Some(JsonView::Text(texts.drop_last()[i])) by {
            assert(items.drop_last()[i] == items[i]);
        }
        lemma_texts_in(items.drop_last(), texts.drop_last());
        assert(texts =~= texts.drop_last().push(texts.last()));
    } else {
        assert(texts =~= Seq::empty());
    }
}

/// An item without a text adds nothing to a report.
pub proof fn law_items_without_text_are_passed_over(items: Seq<JsonView>, item: JsonView)
    requires
        match json::get_of(item, "text"@) {
            Some(JsonView::Text(_)) => false,
            _ => true,
        },
    ensures
        texts_in(items.push(item)) == texts_in(items),
{
    assert(items.push(item).drop_last() =~= items);
    assert(items.push(item).last() == item);
}

/// A use of Bash yields its command, an edit of a file the file's path, both
/// with the outcome left open; a use of another tool yields nothing.
pub proof fn law_tool_uses_yield_events(
    block: JsonView,
    name: Seq<char>,
    input: JsonView,
    value: Seq<char>,
)
    requires
        json::get_of(block, "type"@) == Some(JsonView::Text("tool_use"@)),
        json::get_of(block, "name"@) == Some(JsonView::Text(name)),
        json::get_of(block, "input"@) == Some(input),
    ensures
        name == "Bash"@ && json::get_of(input, "command"@) == Some(JsonView::Text(value))
            ==> block_event(block) == Some(
            (EventView {
                tool: "Bash"@,
                command: Some(value),
                output: None,
                exit_code: None,
                is_failure: false,
            }),
        ),
        name == "Bash"@ && !(json::get_of(input, "command"@) matches Some(JsonView::Text(_)))
            ==> block_event(block) is None,
        (name == "Edit"@ || name == "Write"@) && json::get_of(input, "file_path"@) == Some(
            JsonView::Text(value),
        ) ==> block_event(block) == Some(
            (EventView {
                tool: name,
                command: Some(value),
                output: None,
                exit_code: None,
                is_failure: false,
            }),
        ),
        (name == "Edit"@ || name == "Write"@) && !(json::get_of(input, "file_path"@) matches Some(
            JsonView::Text(_),
        )) ==> match block_event(block) {
            Some(e) => e.tool == name && e.command == Some(""@),
            None => false,
        },
        name != "Bash"@ && name != "Edit"@ && name != "Write"@ ==> block_event(block) is None,
{
    reveal_strlit("Bash");
    reveal_strlit("Edit");
    reveal_strlit("Write");
    assert("Bash"@[0] != "Edit"@[0]);
    assert("Bash"@[0] != "Write"@[0]);
}

/// A block that is a tool's result yields its report; a block that is neither a
/// use nor a result yields nothing.
pub proof fn law_blocks_by_type(block: JsonView)
    ensures
        json::get_of(block, "type"@) == Some(JsonView::Text("tool_result"@)) ==> block_event(block)
            == result_event(block),
        block_event(block) is Some ==> json::get_of(block, "type"@) == Some(
            JsonView::Text("tool_use"@),
        ) || json::get_of(block, "type"@) == Some(JsonView::Text("tool_result"@)),
{
    reveal_strlit("tool_use");
    reveal_strlit("tool_result");
    assert("tool_use"@.len() == 8);
    assert("tool_result"@.len() == 11);
}

/// The blocks of a message, and the lines of a log, yield their events one
/// after the other.
pub proof fn law_events_come_in_order(
    blocks: Seq<JsonView>,
    more_blocks: Seq<JsonView>,
    lines: Seq<Seq<char>>,
    more_lines: Seq<Seq<char>>,
)
    ensures
        blocks_events(blocks + more_blocks) == blocks_events(blocks) + blocks_events(more_blocks),
        raw_events(lines + more_lines) == raw_events(lines) + raw_events(more_lines),
{
    lemma_blocks_append(blocks, more_blocks);
    lemma_raw_append(lines, more_lines);
}

/// The events of blocks put together.
proof fn lemma_blocks_append(a: Seq<JsonView>, b: Seq<JsonView>)
    ensures
        blocks_events(a + b) == blocks_events(a) + blocks_events(b),
    decreases b.len(),
{
    if b.len() == 0 {
        assert(a + b =~= a);
        assert(blocks_events(a) + blocks_events(b) =~= blocks_events(a));
    } else {
        lemma_blocks_append(a, b.drop_last());
        assert((a + b).drop_last() =~= a + b.drop_last());
        assert((a + b).last() == b.last());
        assert(blocks_events(a + b) =~= blocks_events(a) + blocks_events(b));
    }
}

/// The events of lines put together.
proof fn lemma_raw_append(a: Seq<Seq<char>>, b: Seq<Seq<char>>)
    ensures
        raw_events(a + b) == raw_events(a) + raw_events(b),
    decreases b.len(),
{
    if b.len() == 0 {
        assert(a + b =~= a);
        assert(raw_events(a) + raw_events(b) =~= raw_events(a));
    } else {
        lemma_raw_append(a, b.drop_last());
        assert((a + b).drop_last() =~= a + b.drop_last());
        assert((a + b).last() == b.last());
        assert(raw_events(a + b) =~= raw_events(a) + raw_events(b));
    }
}

/// One line yields the events of the blocks of its message's content, and one
/// block its own event. A line that is blank, is not JSON or holds no such
/// list yields nothing.
pub proof fn law_line_yields_its_blocks(
    line: Seq<char>,
    value: JsonView,
    message: JsonView,
    blocks: Seq<JsonView>,
    block: JsonView,
)
    ensures
        json::json_of(line) == Some(value) && text::trim(line).len() > 0 && json::get_of(
            value,
            "message"@,
        ) == Some(message) && json::get_of(message, "content"@) == Some(JsonView::Array(blocks))
            ==> raw_events(seq![line]) == blocks_events(blocks),
        json::json_of(line) is None || text::trim(line).len() == 0 ==> raw_events(seq![line])
            == Seq::<EventView>::empty(),
        json::json_of(line) == Some(value) && json::get_of(value, "message"@) is None
            ==> raw_events(seq![line]) == Seq::<EventView>::empty(),
        json::json_of(line) == Some(value) && json::get_of(value, "message"@) == Some(message) && !(
        json::get_of(message, "content"@) matches Some(JsonView::Array(_))) ==> raw_events(
            seq![line],
        ) == Seq::<EventView>::empty(),
        block_event(block) is None ==> blocks_events(seq![block]) == Seq::<EventView>::empty(),
        block_event(block) is Some ==> blocks_events(seq![block]) == seq![block_event(block)->0],
{
    let one = seq![line];
    assert(one.drop_last() =~= Seq::<Seq<char>>::empty());
    assert(one.last() == line);
    assert(raw_events(one.drop_last()) == Seq::<EventView>::empty());
    assert(raw_events(one) =~= line_events(line, json::json_of(line)));
    let single = seq![block];
    assert(single.drop_last() =~= Seq::<JsonView>::empty());
    assert(single.last() == block);
    assert(blocks_events(single.drop_last()) == Seq::<EventView>::empty());
    if block_event(block) is Some {
        assert(blocks_events(single) =~= seq![block_event(block)->0]);
    }
}

/// A tool use and the result of the same tool directly behind it become one
/// event: the command of the one with the output, code and outcome of the
/// other. Every other event stays as it is.
pub proof fn law_result_joins_its_use(first: EventView, second: EventView, rest: Seq<EventView>)
    ensures
        first.command is Some && first.output is None && second.command is None && second.output
            is Some && first.tool == second.tool ==> merged(seq![first, second] + rest) == seq![
            EventView {
                tool: first.tool,
                command: first.command,
                output: second.output,
                exit_code: second.exit_code,
                is_failure: second.is_failure,
            },
        ] + merged(rest),
        first.command is None || first.output is Some || second.command is Some || second.output
            is None || first.tool != second.tool ==> merged(seq![first, second] + rest) == seq![
            first,
        ] + merged(seq![second] + rest),
        merged(seq![first]) == seq![first],
        merged(Seq::<EventView>::empty()) == Seq::<EventView>::empty(),
{
    let raw = seq![first, second] + rest;
    assert(raw.skip(2) =~= rest);
    assert(raw.skip(1) =~= seq![second] + rest);
    let one = seq![first];
    assert(one.skip(1) =~= Seq::<EventView>::empty());
    assert(merged(Seq::<EventView>::empty()) == Seq::<EventView>::empty());
    assert(merged(one) =~= seq![one[0]] + merged(one.skip(1)));
}

/// A log of a use of Bash and its result holds one event, which tells the
/// command and its outcome.
pub proof fn law_log_tells_what_became_of_a_command(
    use_line: Seq<char>,
    result_line: Seq<char>,
    first: EventView,
    second: EventView,
)
    requires
        !use_line.contains('\n'),
        !result_line.contains('\n'),
        use_line.len() == 0 || use_line.last() != '\r',
        result_line.len() == 0 || result_line.last() != '\r',
        raw_events(seq![use_line]) == seq![first],
        raw_events(seq![result_line]) == seq![second],
        first.command is Some,
        first.output is None,
        second.command is None,
        second.output is Some,
        first.tool == second.tool,
    ensures
        session_events(use_line + seq!['\n'] + result_line + seq!['\n']) == seq![
            EventView {
                tool: first.tool,
                command: first.command,
                output: second.output,
                exit_code: second.exit_code,
                is_failure: second.is_failure,
            },
        ],
{
    let none = Seq::<char>::empty();
    let tail = result_line + seq!['\n'];
    assert(result_line + seq!['\n'] + none =~= tail);
    text::law_lines_end_at_line_feeds(result_line, none);
    assert(seq![result_line] + Seq::<Seq<char>>::empty() =~= seq![result_line]);
    text::law_lines_end_at_line_feeds(use_line, tail);
    assert(use_line + seq!['\n'] + result_line + seq!['\n'] =~= use_line + seq!['\n'] + tail);
    lemma_raw_append(seq![use_line], seq![result_line]);
    let raw = seq![first, second];
    assert(seq![first] + seq![second] =~= raw);
    law_result_joins_its_use(first, second, Seq::empty());
    assert(raw + Seq::<EventView>::empty() =~= raw);
    let whole = EventView {
        tool: first.tool,
        command: first.command,
        output: second.output,
        exit_code: second.exit_code,
        is_failure: second.is_failure,
    };
    assert(seq![whole] + Seq::<EventView>::empty() =~= seq![whole]);
}

// ---------------------------------------------------------------------------
// Patterns
// ---------------------------------------------------------------------------
/// `s` after a replacement of which the regex crate says what it yields;
/// unchanged if the pattern does not compile.
pub open spec fn or_same(s: Seq<char>, result: Option<Seq<char>>) -> Seq<char> {
    match result {
        Some(t) => t,
        None => s,
    }
}

/// `s` with absolute paths, version numbers and line:column positions
/// replaced by placeholders, in this order.
pub open spec fn normalized(s: Seq<char>) -> Seq<char> {
    let a = or_same(s, patterns::regex_replaced(r"/[a-zA-Z0-9_./-]+"@, s, "<PATH>"@));
    let b = or_same(a, patterns::regex_replaced(r"\d+\.\d+\.\d+"@, a, "<VER>"@));
    or_same(b, patterns::regex_replaced(r":\d+:\d+"@, b, ":<L>:<C>"@))
}

/// The result of a replacement, or the text that it was tried on.
pub fn replaced_or_same(s: String, result: Option<String>) -> (r: String)
    ensures
        r@ == or_same(s@, text::opt_view(result)),
{
    match result {
        Some(t) => t,
        None => s,
    }
}

/// Strips paths, version numbers and other variable parts from a pattern.
pub fn normalize_pattern(s: &str) -> (r: String)
    ensures
        r@ == normalized(s@),
{
    let a = replaced_or_same(
        s.to_owned(),
        patterns::regex_replace_all(r"/[a-zA-Z0-9_./-]+", s, "<PATH>"),
    );
    let found = patterns::regex_replace_all(r"\d+\.\d+\.\d+", a.as_str(), "<VER>");
    let b = replaced_or_same(a, found);
    let found = patterns::regex_replace_all(r":\d+:\d+", b.as_str(), ":<L>:<C>");
    replaced_or_same(b, found)
}

/// `s` cut after `max_len` bytes, with an ellipsis, if it is longer.
pub open spec fn shortened(s: Seq<char>, max_len: int) -> Seq<char> {
    if text::byte_len(s) <= max_len {
        s
    } else {
        text::byte_prefix(s, max_len) + "..."@
    }
}

/// Cuts a string that is longer than `max_len` bytes and marks the cut. The
/// cut must not split a character: see [`text::cuttable`].
pub fn truncate(s: &str, max_len: usize) -> (r: String)
    requires
        text::can_cut(s@, max_len as int),
    ensures
        r@ == shortened(s@, max_len as int),
{
    if text::longer_than(s, max_len) {
        let mut out = text::cut(s, max_len).to_owned();
        out.append("...");
        out
    } else {
        s.to_owned()
    }
}

/// A string that is cut comes out as long as asked for, plus the ellipsis; a
/// shorter one comes out as it is.
pub proof fn law_truncated_length(s: Seq<char>, max_len: nat)
    requires
        text::can_cut(s, max_len as int),
    ensures
        text::byte_len(s) <= max_len ==> shortened(s, max_len as int) == s,
        text::byte_len(s) > max_len ==> text::byte_len(shortened(s, max_len as int)) == max_len + 3,
{
    if text::byte_len(s) > max_len {
        text::lemma_byte_prefix(s, max_len as int);
        text::lemma_byte_len_add(text::byte_prefix(s, max_len as int), "..."@);
        reveal_strlit("...");
        vstd::utf8::is_ascii_chars_encode_utf8("..."@);
    }
}

/// The byte strings that a string hands to a hasher.
pub uninterp spec fn hash_writes(s: Seq<char>) -> Seq<Seq<u8>>;

/// `<str as Hash>::hash` with std's default hasher: what the string hands to
/// the hasher follows what was handed to it before. Which byte strings these
/// are is std's to say; they depend on the string alone.
#[verifier::external_body]
pub(crate) fn hash_text(s: &str, hasher: &mut DefaultHasher)
    ensures
        final(hasher)@ == old(hasher)@ + hash_writes(s@),
{
    s.hash(hasher)
}

/// The hash of two strings, one after the other.
pub open spec fn hash_of(a: Seq<char>, b: Seq<char>) -> u64 {
    DefaultHasher::spec_finish(hash_writes(a) + hash_writes(b))
}

/// Hashes two strings, one after the other, with std's default hasher.
pub fn hash_pair(a: &str, b: &str) -> (r: u64)
    ensures
        r == hash_of(a@, b@),
{
    let mut hasher = DefaultHasher::new();
    hash_text(a, &mut hasher);
    hash_text(b, &mut hasher);
    proof {
        assert(Seq::<Seq<u8>>::empty() + hash_writes(a@) + hash_writes(b@) =~= hash_writes(a@)
            + hash_writes(b@));
    }
    hasher.finish()
}

/// A hash as it is stored: sixteen hexadecimal digits.
pub fn hash_label(hash: u64) -> (r: String)
    ensures
        r@ == numerals::hex(hash as nat, 16),
{
    let mut out = String::new();
    numerals::push_hex(&mut out, hash, 16);
    assert(out@ =~= numerals::hex(hash as nat, 16));
    out
}

/// The hash by which occurrences of one failure pattern are recognised.
pub open spec fn pattern_hash(command: Seq<char>, output: Seq<char>) -> Seq<char> {
    numerals::hex(hash_of(normalized(command), normalized(shortened(output, 200))) as nat, 16)
}

/// Normalizes and hashes a failure pattern for deduplication. The first 200
/// bytes of the output count.
pub fn compute_pattern_hash(command: &str, output: &str) -> (r: String)
    requires
        text::can_cut(output@, 200),
    ensures
        r@ == pattern_hash(command@, output@),
{
    let a = normalize_pattern(command);
    let t = truncate(output, 200);
    let b = normalize_pattern(t.as_str());
    hash_label(hash_pair(a.as_str(), b.as_str()))
}

/// Two failures that differ in paths, versions and positions only have the
/// same hash.
pub proof fn law_hash_ignores_variable_parts(
    command: Seq<char>,
    output: Seq<char>,
    other_command: Seq<char>,
    other_output: Seq<char>,
)
    requires
        normalized(command) == normalized(other_command),
        normalized(shortened(output, 200)) == normalized(shortened(other_output, 200)),
    ensures
        pattern_hash(command, output) == pattern_hash(other_command, other_output),
{
}

/// The kind of project that a tool belongs to.
pub open spec fn tool_project(tool: Seq<char>) -> Option<Seq<char>> {
    if tool == "cargo"@ || tool == "rustc"@ {
        Some("rust"@)
    } else if tool == "npm"@ || tool == "npx"@ || tool == "pnpm"@ || tool == "yarn"@ || tool
        == "vitest"@ || tool == "tsc"@ || tool == "eslint"@ || tool == "prettier"@ || tool
        == "playwright"@ || tool == "prisma"@ || tool == "next"@ || tool == "node"@ {
        Some("node"@)
    } else if tool == "python"@ || tool == "pip"@ || tool == "poetry"@ || tool == "pytest"@ {
        Some("python"@)
    } else if tool == "go"@ {
        Some("go"@)
    } else if tool == "make"@ || tool == "cmake"@ || tool == "gcc"@ || tool == "g++"@ || tool
        == "clang"@ {
        Some("c"@)
    } else if tool == "mvn"@ || tool == "gradle"@ {
        Some("java"@)
    } else {
        None
    }
}

/// The tools of each kind of project; no other tool tells a kind.
pub proof fn law_projects_by_tool(tool: Seq<char>)
    ensures
        tool_project("cargo"@) == Some("rust"@),
        tool_project("rustc"@) == Some("rust"@),
        tool_project("npm"@) == Some("node"@),
        tool_project("npx"@) == Some("node"@),
        tool_project("pnpm"@) == Some("node"@),
        tool_project("yarn"@) == Some("node"@),
        tool_project("vitest"@) == Some("node"@),
        tool_project("tsc"@) == Some("node"@),
        tool_project("eslint"@) == Some("node"@),
        tool_project("prettier"@) == Some("node"@),
        tool_project("playwright"@) == Some("node"@),
        tool_project("prisma"@) == Some("node"@),
        tool_project("next"@) == Some("node"@),
        tool_project("node"@) == Some("node"@),
        tool_project("python"@) == Some("python"@),
        tool_project("pip"@) == Some("python"@),
        tool_project("poetry"@) == Some("python"@),
        tool_project("pytest"@) == Some("python"@),
        tool_project("go"@) == Some("go"@),
        tool_project("make"@) == Some("c"@),
        tool_project("cmake"@) == Some("c"@),
        tool_project("gcc"@) == Some("c"@),
        tool_project("g++"@) == Some("c"@),
        tool_project("clang"@) == Some("c"@),
        tool_project("mvn"@) == Some("java"@),
        tool_project("gradle"@) == Some("java"@),
        tool_project(tool) is Some ==> seq![
            "cargo"@,
            "rustc"@,
            "npm"@,
            "npx"@,
            "pnpm"@,
            "yarn"@,
            "vitest"@,
            "tsc"@,
            "eslint"@,
            "prettier"@,
            "playwright"@,
            "prisma"@,
            "next"@,
            "node"@,
            "python"@,
            "pip"@,
            "poetry"@,
            "pytest"@,
            "go"@,
            "make"@,
            "cmake"@,
            "gcc"@,
            "g++"@,
            "clang"@,
            "mvn"@,
            "gradle"@,
        ].contains(tool),
{
    reveal_strlit("cargo");
    reveal_strlit("rustc");
    reveal_strlit("npm");
    reveal_strlit("npx");
    reveal_strlit("pnpm");
    reveal_strlit("yarn");
    reveal_strlit("vitest");
    reveal_strlit("tsc");
    reveal_strlit("eslint");
    reveal_strlit("prettier");
    reveal_strlit("playwright");
    reveal_strlit("prisma");
    reveal_strlit("next");
    reveal_strlit("node");
    reveal_strlit("python");
    reveal_strlit("pip");
    reveal_strlit("poetry");
    reveal_strlit("pytest");
    reveal_strlit("go");
    reveal_strlit("make");
    reveal_strlit("cmake");
    reveal_strlit("gcc");
    reveal_strlit("g++");
    reveal_strlit("clang");
    reveal_strlit("mvn");
    reveal_strlit("gradle");
    assert("cargo"@.len() == 5);
    assert("rustc"@.len() == 5);
    assert("npm"@.len() == 3);
    assert("npx"@.len() == 3);
    assert("pnpm"@.len() == 4);
    assert("yarn"@.len() == 4);
    assert("vitest"@.len() == 6);
    assert("tsc"@.len() == 3);
    assert("eslint"@.len() == 6);
    assert("prettier"@.len() == 8);
    assert("playwright"@.len() == 10);
    assert("prisma"@.len() == 6);
    assert("next"@.len() == 4);
    assert("node"@.len() == 4);
    assert("python"@.len() == 6);
    assert("pip"@.len() == 3);
    assert("poetry"@.len() == 6);
    assert("pytest"@.len() == 6);
    assert("go"@.len() == 2);
    assert("make"@.len() == 4);
    assert("cmake"@.len() == 5);
    assert("gcc"@.len() == 3);
    assert("g++"@.len() == 3);
    assert("clang"@.len() == 5);
    assert("mvn"@.len() == 3);
    assert("gradle"@.len() == 6);
    assert("cargo"@[1] != "cmake"@[1]);
    assert("cargo"@[1] != "clang"@[1]);
    assert("rustc"@[0] != "cmake"@[0]);
    assert("rustc"@[0] != "clang"@[0]);
    assert("npm"@[0] != "pip"@[0]);
    assert("npm"@[0] != "gcc"@[0]);
    assert("npm"@[0] != "g++"@[0]);
    assert("npm"@[0] != "mvn"@[0]);
    assert("npx"@[0] != "pip"@[0]);
    assert("npx"@[0] != "gcc"@[0]);
    assert("npx"@[0] != "g++"@[0]);
    assert("npx"@[0] != "mvn"@[0]);
    assert("pnpm"@[0] != "make"@[0]);
    assert("yarn"@[0] != "make"@[0]);
    assert("vitest"@[0] != "python"@[0]);
    assert("vitest"@[0] != "poetry"@[0]);
    assert("vitest"@[0] != "pytest"@[0]);
    assert("vitest"@[0] != "gradle"@[0]);
    assert("tsc"@[0] != "pip"@[0]);
    assert("tsc"@[0] != "gcc"@[0]);
    assert("tsc"@[0] != "g++"@[0]);
    assert("tsc"@[0] != "mvn"@[0]);
    assert("eslint"@[0] != "python"@[0]);
    assert("eslint"@[0] != "poetry"@[0]);
    assert("eslint"@[0] != "pytest"@[0]);
    assert("eslint"@[0] != "gradle"@[0]);
    assert("prisma"@[1] != "python"@[1]);
    assert("prisma"@[1] != "poetry"@[1]);
    assert("prisma"@[1] != "pytest"@[1]);
    assert("prisma"@[0] != "gradle"@[0]);
    assert("next"@[0] != "make"@[0]);
    assert("node"@[0] != "make"@[0]);
    assert("python"@[0] != "gradle"@[0]);
    assert("pip"@[0] != "gcc"@[0]);
    assert("pip"@[0] != "g++"@[0]);
    assert("pip"@[0] != "mvn"@[0]);
    assert("poetry"@[0] != "gradle"@[0]);
    assert("pytest"@[0] != "gradle"@[0]);
    assert("gcc"@[0] != "mvn"@[0]);
    assert("g++"@[0] != "mvn"@[0]);
    let all = seq![
        "cargo"@,
        "rustc"@,
        "npm"@,
        "npx"@,
        "pnpm"@,
        "yarn"@,
        "vitest"@,
        "tsc"@,
        "eslint"@,
        "prettier"@,
        "playwright"@,
        "prisma"@,
        "next"@,
        "node"@,
        "python"@,
        "pip"@,
        "poetry"@,
        "pytest"@,
        "go"@,
        "make"@,
        "cmake"@,
        "gcc"@,
        "g++"@,
        "clang"@,
        "mvn"@,
        "gradle"@,
    ];
    if tool_project(tool) is Some {
        assert(all[0] == "cargo"@);
        assert(all[1] == "rustc"@);
        assert(all[2] == "npm"@);
        assert(all[3] == "npx"@);
        assert(all[4] == "pnpm"@);
        assert(all[5] == "yarn"@);
        assert(all[6] == "vitest"@);
        assert(all[7] == "tsc"@);
        assert(all[8] == "eslint"@);
        assert(all[9] == "prettier"@);
        assert(all[10] == "playwright"@);
        assert(all[11] == "prisma"@);
        assert(all[12] == "next"@);
        assert(all[13] == "node"@);
        assert(all[14] == "python"@);
        assert(all[15] == "pip"@);
        assert(all[16] == "poetry"@);
        assert(all[17] == "pytest"@);
        assert(all[18] == "go"@);
        assert(all[19] == "make"@);
        assert(all[20] == "cmake"@);
        assert(all[21] == "gcc"@);
        assert(all[22] == "g++"@);
        assert(all[23] == "clang"@);
        assert(all[24] == "mvn"@);
        assert(all[25] == "gradle"@);
    }
}

/// Detects the project type from a command string.
pub fn detect_project_type(command: &str) -> (r: Option<String>)
    ensures
        text::opt_view(r) == tool_project(text::first_word_of(command@)),
{
    let word = text::first_word(command);
    let tool = word.as_str();
    if text::same(tool, "cargo") || text::same(tool, "rustc") {
        Some("rust".to_owned())
    } else if text::same(tool, "npm") || text::same(tool, "npx") || text::same(tool, "pnpm")
        || text::same(tool, "yarn") || text::same(tool, "vitest") || text::same(tool, "tsc")
        || text::same(tool, "eslint") || text::same(tool, "prettier") || text::same(
        tool,
        "playwright",
    ) || text::same(tool, "prisma") || text::same(tool, "next") || text::same(tool, "node") {
        Some("node".to_owned())
    } else if text::same(tool, "python") || text::same(tool, "pip") || text::same(tool, "poetry")
        || text::same(tool, "pytest") {
        Some("python".to_owned())
    } else if text::same(tool, "go") {
        Some("go".to_owned())
    } else if text::same(tool, "make") || text::same(tool, "cmake") || text::same(tool, "gcc")
        || text::same(tool, "g++") || text::same(tool, "clang") {
        Some("c".to_owned())
    } else if text::same(tool, "mvn") || text::same(tool, "gradle") {
        Some("java".to_owned())
    } else {
        None
    }
}

/// Whether two commands are similar: they run the same tool.
pub fn commands_similar(a: &str, b: &str) -> (r: bool)
    ensures
        r == (text::first_word_of(a@) == text::first_word_of(b@)),
{
    let x = text::first_word(a);
    let y = text::first_word(b);
    text::same(x.as_str(), y.as_str())
}

/// The name of the file that a path names; the path itself if it names none.
pub open spec fn base_name(path: Seq<char>) -> Seq<char> {
    match paths::file_name_of(path) {
        Some(name) => name,
        None => path,
    }
}

/// The name of the file that a path names.
pub fn basename(path: &str) -> (r: String)
    ensures
        r@ == base_name(path@),
{
    match paths::path_name(path, 0) {
        Some(name) => name,
        None => path.to_owned(),
    }
}

// ---------------------------------------------------------------------------
// Pairs
// ---------------------------------------------------------------------------
/// A failure-fix pair detected during mining.
#[derive(Debug)]
pub struct FailureFixPair {
    /// The command that failed.
    pub failure_command: String,
    /// The start of its output.
    pub failure_output: String,
    /// The command that fixed it, or `edit:` and the path of the edited file.
    pub fix_command: String,
    /// The hash of the failure pattern.
    pub pattern_hash: String,
    /// The kind of project.
    pub project_type: Option<String>,
}

/// The model of a failure-fix pair.
pub struct PairView {
    /// The command that failed.
    pub failure_command: Seq<char>,
    /// The start of its output.
    pub failure_output: Seq<char>,
    /// The fix.
    pub fix_command: Seq<char>,
    /// The hash of the failure pattern.
    pub pattern_hash: Seq<char>,
    /// The kind of project.
    pub project_type: Option<Seq<char>>,
}

impl View for FailureFixPair {
    type V = PairView;

    open spec fn view(&self) -> PairView {
        PairView {
            failure_command: self.failure_command@,
            failure_output: self.failure_output@,
            fix_command: self.fix_command@,
            pattern_hash: self.pattern_hash@,
            project_type: text::opt_view(self.project_type),
        }
    }
}

/// The models of a sequence of pairs.
pub open spec fn pair_views(v: Seq<FailureFixPair>) -> Seq<PairView> {
    Seq::new(v.len(), |i: int| v[i]@)
}

/// The output of an event, empty if it has none.
pub open spec fn output_of(e: EventView) -> Seq<char> {
    match e.output {
        Some(s) => s,
        None => ""@,
    }
}

/// The fix that a later event is for a failed command with the given output:
/// a Bash command of the same tool that did not fail, or an edit of a file
/// that the output mentions.
pub open spec fn fix_by(command: Seq<char>, output: Seq<char>, later: EventView) -> Option<
    Seq<char>,
> {
    match later.command {
        Some(c) => if later.tool == "Bash"@ && !later.is_failure && text::first_word_of(command)
            == text::first_word_of(c) {
            Some(c)
        } else if (later.tool == "Edit"@ || later.tool == "Write"@) && (text::contains(output, c)
            || text::contains(output, base_name(c))) {
            Some("edit:"@ + c)
        } else {
            None
        },
        None => None,
    }
}

/// The first fix among the events from index `from` up to `to`.
pub open spec fn first_fix(
    command: Seq<char>,
    output: Seq<char>,
    events: Seq<EventView>,
    from: int,
    to: int,
) -> Option<Seq<char>>
    decreases to - from,
{
    if from >= to {
        None
    } else {
        match fix_by(command, output, events[from]) {
            Some(f) => Some(f),
            None => first_fix(command, output, events, from + 1, to),
        }
    }
}

/// How far ahead of the failure at index `i` a fix is looked for.
pub open spec fn window_end(i: int, len: int) -> int {
    if i + 10 < len {
        i + 10
    } else {
        len
    }
}

/// The fix of the event at index `i`, if it is a failed Bash command with a
/// fix close behind it.
pub open spec fn fix_at(events: Seq<EventView>, i: int) -> Option<Seq<char>> {
    match events[i].command {
        Some(c) => if events[i].tool == "Bash"@ && events[i].is_failure {
            first_fix(
                c,
                output_of(events[i]),
                events,
                i + 1,
                window_end(i, events.len() as int),
            )
        } else {
            None
        },
        None => None,
    }
}

/// The pair of a failure and its fix.
pub open spec fn pair_of(failure: EventView, fix: Seq<char>) -> PairView {
    let command = failure.command->0;
    let output = output_of(failure);
    PairView {
        failure_command: command,
        failure_output: shortened(output, 500),
        fix_command: fix,
        pattern_hash: pattern_hash(command, output),
        project_type: tool_project(text::first_word_of(command)),
    }
}

/// The pairs of the failures among the first `n` events.
pub open spec fn pairs_in(events: Seq<EventView>, n: int) -> Seq<PairView>
    decreases n,
{
    if n <= 0 {
        Seq::empty()
    } else {
        match fix_at(events, n - 1) {
            Some(f) => pairs_in(events, n - 1).push(pair_of(events[n - 1], f)),
            None => pairs_in(events, n - 1),
        }
    }
}

/// The outputs of the failures that get a pair can be cut to the lengths at
/// which they are hashed and stored.
pub open spec fn outputs_cuttable(events: Seq<EventView>) -> bool {
    forall|i: int|
        0 <= i < events.len() && (#[trigger] fix_at(events, i)) is Some ==> text::can_cut(
            output_of(events[i]),
            200,
        ) && text::can_cut(output_of(events[i]), 500)
}

/// The fix that a later event is for a failed command.
fn fix_from(command: &str, output: &str, later: &ToolEvent) -> (r: Option<String>)
    ensures
        text::opt_view(r) == fix_by(command@, output@, later@),
{
    match &later.command {
        Some(c) => {
            if text::same(later.tool.as_str(), "Bash") && !later.is_failure && commands_similar(
                command,
                c.as_str(),
            ) {
                return Some(c.clone());
            }
            if text::same(later.tool.as_str(), "Edit") || text::same(later.tool.as_str(), "Write") {
                let base = basename(c.as_str());
                if text::has_text(output, c.as_str()) || text::has_text(output, base.as_str()) {
                    let mut out = "edit:".to_owned();
                    out.append(c.as_str());
                    return Some(out);
                }
            }
            None
        },
        None => None,
    }
}

/// The output of an event.
fn output_text(e: &ToolEvent) -> (r: &str)
    ensures
        r@ == output_of(e@),
{
    match &e.output {
        Some(s) => s.as_str(),
        None => "",
    }
}

/// The fix of the event at index `i`.
fn find_fix(events: &Vec<ToolEvent>, i: usize) -> (r: Option<String>)
    requires
        i < events@.len(),
    ensures
        text::opt_view(r) == fix_at(event_views(events@), i as int),
{
    let ghost all = event_views(events@);
    let event = &events[i];
    assert(all[i as int] == event@);
    if !text::same(event.tool.as_str(), "Bash") || !event.is_failure {
        return None;
    }
    match &event.command {
        None => None,
        Some(command) => {
            let output = output_text(event);
            let n: usize = events.len();
            let end: usize = if n - i > 10 {
                i + 10
            } else {
                n
            };
            let mut j: usize = i + 1;
            while j < end
                invariant
                    n == events@.len(),
                    all == event_views(events@),
                    end <= n,
                    first_fix(command@, output@, all, j as int, end as int) == fix_at(
                        all,
                        i as int,
                    ),
                decreases end - j,
            {
                assert(all[j as int] == events@[j as int]@);
                let fix = fix_from(command.as_str(), output, &events[j]);
                if fix.is_some() {
                    return fix;
                }
                j += 1;
            }
            None
        },
    }
}

/// Whether [`find_failure_fix_pairs`] can be asked about these events.
pub fn can_pair(events: &Vec<ToolEvent>) -> (r: bool)
    ensures
        r == outputs_cuttable(event_views(events@)),
{
    let ghost all = event_views(events@);
    let mut i: usize = 0;
    while i < events.len()
        invariant
            i <= events@.len(),
            all == event_views(events@),
            forall|j: int|
                0 <= j < i && (#[trigger] fix_at(all, j)) is Some ==> text::can_cut(
                    output_of(all[j]),
                    200,
                ) && text::can_cut(output_of(all[j]), 500),
        decreases events@.len() - i,
    {
        let fix = find_fix(events, i);
        let output = output_text(&events[i]);
        assert(all[i as int] == events@[i as int]@);
        if fix.is_some() && !(text::cuttable(output, 200) && text::cuttable(output, 500)) {
            assert(fix_at(all, i as int) is Some);
            return false;
        }
        i += 1;
    }
    true
}

/// Finds the failure-fix pairs in a sequence of events.
///
/// A pair is a failed command followed, within the next nine events, by a
/// Bash command of the same tool that succeeds or by an edit of a file that
/// the failure's output mentions. See [`can_pair`] for the condition on the
/// outputs.
pub fn find_failure_fix_pairs(events: &Vec<ToolEvent>) -> (r: Vec<FailureFixPair>)
    requires
        outputs_cuttable(event_views(events@)),
    ensures
        pair_views(r@) == pairs_in(event_views(events@), events@.len() as int),
{
    let ghost all = event_views(events@);
    let mut out: Vec<FailureFixPair> = Vec::new();
    let mut i: usize = 0;
    assert(pair_views(out@) =~= pairs_in(all, 0));
    while i < events.len()
        invariant
            i <= events@.len(),
            all == event_views(events@),
            outputs_cuttable(all),
            pair_views(out@) == pairs_in(all, i as int),
        decreases events@.len() - i,
    {
        let ghost before = pair_views(out@);
        let event = &events[i];
        assert(all[i as int] == event@);
        if let Some(fix) = find_fix(events, i) {
            assert(fix_at(all, i as int) is Some);
            if let Some(command) = &event.command {
                let output = output_text(event);
                let pair = FailureFixPair {
                    failure_command: command.clone(),
                    failure_output: truncate(output, 500),
                    fix_command: fix,
                    pattern_hash: compute_pattern_hash(command.as_str(), output),
                    project_type: detect_project_type(command.as_str()),
                };
                let ghost p = pair@;
                out.push(pair);
                proof {
                    assert(p == pair_of(all[i as int], fix_at(all, i as int)->0));
                    assert(pair_views(out@) =~= before.push(p));
                }
            }
        }
        i += 1;
    }
    out
}

/// A cut text is its start, up to the given number of bytes, and an ellipsis.
pub proof fn law_truncated_text(kept: Seq<char>, rest: Seq<char>)
    ensures
        rest.len() > 0 ==> shortened(kept + rest, text::byte_len(kept) as int) == kept + "..."@,
        rest.len() == 0 ==> shortened(kept + rest, text::byte_len(kept) as int) == kept,
{
    text::law_cut_keeps_the_start(kept, rest);
    if rest.len() == 0 {
        assert(kept + rest =~= kept);
    }
}

/// Of a failure's output, the first 200 bytes count for its hash.
pub proof fn law_hash_looks_at_the_start_of_the_output(
    command: Seq<char>,
    start: Seq<char>,
    one: Seq<char>,
    other: Seq<char>,
)
    requires
        text::byte_len(start) == 200,
        one.len() > 0,
        other.len() > 0,
    ensures
        pattern_hash(command, start + one) == pattern_hash(command, start + other),
        pattern_hash(command, start + one).len() == 16,
{
    law_truncated_text(start, one);
    law_truncated_text(start, other);
    numerals::law_hex_width(
        hash_of(normalized(command), normalized(shortened(start + one, 200))) as nat,
        16,
    );
}

/// A failed command is fixed by a later Bash command that runs the same tool
/// and does not fail, and by an edit of a file whose path or name its output
/// mentions, and by nothing else.
pub proof fn law_what_fixes_a_failure(
    command: Seq<char>,
    output: Seq<char>,
    later: EventView,
    c: Seq<char>,
)
    requires
        later.command == Some(c),
    ensures
        later.tool == "Bash"@ ==> fix_by(command, output, later) == (if !later.is_failure
            && text::first_word_of(command) == text::first_word_of(c) {
            Some(c)
        } else {
            None
        }),
        later.tool == "Edit"@ || later.tool == "Write"@ ==> {
            &&& text::contains(output, c) ==> fix_by(command, output, later) == Some("edit:"@ + c)
            &&& forall|dir: Seq<char>, name: Seq<char>|
                paths::is_component(name) && name != ".."@ && c == #[trigger] (dir + seq!['/']
                    + name) && text::contains(output, name) ==> fix_by(command, output, later)
                    == Some("edit:"@ + c)
            &&& forall|dir: Seq<char>, name: Seq<char>|
                paths::is_component(name) && name != ".."@ && c == #[trigger] (dir + seq!['/']
                    + name) && !text::contains(output, name) && !text::contains(output, c)
                    ==> fix_by(command, output, later) is None
        },
        later.tool != "Bash"@ && paths::is_component(c) && c != ".."@ && !text::contains(output, c)
            ==> fix_by(command, output, later) is None,
        later.tool != "Bash"@ && later.tool != "Edit"@ && later.tool != "Write"@ ==> fix_by(
            command,
            output,
            later,
        ) is None,
        forall|e: EventView| e.command is None ==> #[trigger] fix_by(command, output, e) is None,
{
    reveal_strlit("Bash");
    reveal_strlit("Edit");
    reveal_strlit("Write");
    assert("Bash"@[0] != "Edit"@[0]);
    assert("Bash"@[0] != "Write"@[0]);
    if paths::is_component(c) {
        paths::law_last_component_is_the_name(c, c);
    }
    assert forall|dir: Seq<char>, name: Seq<char>|
        paths::is_component(name) && name != ".."@ && c == #[trigger] (dir + seq!['/'] + name) implies base_name(
        c,
    ) == name by {
        paths::law_last_component_is_the_name(dir, name);
    }
}

/// The first fix from an index on is that of the first event that has one.
proof fn lemma_first_fix(
    command: Seq<char>,
    output: Seq<char>,
    events: Seq<EventView>,
    from: int,
    to: int,
    j: int,
)
    requires
        from <= j <= to,
        forall|k: int|
            from <= k < j ==> fix_by(command, output, #[trigger] events[k]) is None,
    ensures
        j == to ==> first_fix(command, output, events, from, to) is None,
        j < to && fix_by(command, output, events[j]) is Some ==> first_fix(
            command,
            output,
            events,
            from,
            to,
        ) == fix_by(command, output, events[j]),
    decreases j - from,
{
    if from < j {
        assert(fix_by(command, output, events[from]) is None);
        lemma_first_fix(command, output, events, from + 1, to, j);
    }
}

/// A failed Bash command makes a pair with the first fix among the nine events
/// behind it, and pairs come in the order of the failures.
pub proof fn law_failure_is_paired_with_its_first_fix(
    events: Seq<EventView>,
    i: int,
    j: int,
    command: Seq<char>,
    output: Seq<char>,
    fix: Seq<char>,
)
    requires
        0 <= i < j < events.len(),
        j <= i + 9,
        events[i].tool == "Bash"@,
        events[i].is_failure,
        events[i].command == Some(command),
        events[i].output == Some(output) || events[i].output is None && output.len() == 0,
        forall|k: int| i < k < j ==> fix_by(command, output, #[trigger] events[k]) is None,
        fix_by(command, output, events[j]) == Some(fix),
    ensures
        pairs_in(events, i + 1) == pairs_in(events, i).push(
            (PairView {
                failure_command: command,
                failure_output: shortened(output, 500),
                fix_command: fix,
                pattern_hash: pattern_hash(command, output),
                project_type: tool_project(text::first_word_of(command)),
            }),
        ),
{
    reveal_strlit("");
    assert(output_of(events[i]) =~= output);
    lemma_first_fix(
        command,
        output,
        events,
        i + 1,
        window_end(i, events.len() as int),
        j,
    );
}

/// An event that is no failed Bash command, and a failed one with no fix among
/// the nine events behind it, make no pair.
pub proof fn law_no_pair_without_failure_and_fix(
    events: Seq<EventView>,
    i: int,
    command: Seq<char>,
    output: Seq<char>,
)
    requires
        0 <= i < events.len(),
    ensures
        events[i].tool != "Bash"@ || !events[i].is_failure || events[i].command is None
            ==> pairs_in(events, i + 1) == pairs_in(events, i),
        events[i].command == Some(command) && (events[i].output == Some(output) || events[i].output
            is None && output.len() == 0) && (forall|k: int|
            i < k < events.len() && k <= i + 9 ==> fix_by(
                command,
                output,
                #[trigger] events[k],
            ) is None) ==> pairs_in(events, i + 1) == pairs_in(events, i),
        pairs_in(events, 0) == Seq::<PairView>::empty(),
{
    if events[i].command == Some(command) && (events[i].output == Some(output) || events[i].output
        is None && output.len() == 0) && forall|k: int|
        i < k < events.len() && k <= i + 9 ==> fix_by(
            command,
            output,
            #[trigger] events[k],
        ) is None {
        reveal_strlit("");
        assert(output_of(events[i]) =~= output);
        let end = window_end(i, events.len() as int);
        lemma_first_fix(command, output, events, i + 1, end, end);
    }
}

/// How a pair gets into the history.
#[derive(Clone, Copy, PartialEq, Eq, Structural, Debug)]
pub enum PairWrite {
    /// Its pattern is new and is stored, with one occurrence.
    Insert,
    /// Its pattern is known and has one more occurrence.
    Bump,
}

/// The pattern of the pair at index `i` is known: it was stored before, or
/// with an earlier pair.
pub open spec fn is_known(known: Set<Seq<char>>, pairs: Seq<PairView>, i: int) -> bool {
    ||| known.contains(pairs[i].pattern_hash)
    ||| exists|j: int|
        0 <= j < i && (#[trigger] pairs[j]).pattern_hash == pairs[i].pattern_hash
}

/// How the pairs get into a history that holds the patterns with the given
/// hashes.
pub open spec fn writes_for(known: Set<Seq<char>>, pairs: Seq<PairView>) -> Seq<PairWrite> {
    Seq::new(
        pairs.len(),
        |i: int|
            if is_known(known, pairs, i) {
                PairWrite::Bump
            } else {
                PairWrite::Insert
            },
    )
}

/// Decides how the pairs of a session get into the history, given the hashes
/// of the patterns that it holds. A pattern is stored once; its further
/// occurrences are counted.
pub fn plan_pair_writes(pairs: &Vec<FailureFixPair>, known: &Vec<String>) -> (r: Vec<PairWrite>)
    ensures
        r@ == writes_for(text::views(known@).to_set(), pair_views(pairs@)),
{
    let ghost all = pair_views(pairs@);
    let ghost names = text::views(known@);
    let ghost old_ones = names.to_set();
    let mut out: Vec<PairWrite> = Vec::new();
    let mut i: usize = 0;
    while i < pairs.len()
        invariant
            i <= pairs@.len(),
            all == pair_views(pairs@),
            names == text::views(known@),
            old_ones == names.to_set(),
            out@ == writes_for(old_ones, all).take(i as int),
        decreases pairs@.len() - i,
    {
        let hash = pairs[i].pattern_hash.as_str();
        assert(all[i as int] == pairs@[i as int]@);
        let mut found: bool = false;
        let mut k: usize = 0;
        while k < known.len() && !found
            invariant
                k <= known@.len(),
                names == text::views(known@),
                found ==> names.contains(hash@),
                !found ==> forall|m: int| 0 <= m < k ==> names[m] != hash@,
            decreases known@.len() - k,
        {
            assert(names[k as int] == known@[k as int]@);
            if text::same(known[k].as_str(), hash) {
                found = true;
            }
            k += 1;
        }
        assert(found == old_ones.contains(hash@));
        let mut j: usize = 0;
        while j < i && !found
            invariant
                j <= i < pairs@.len(),
                all == pair_views(pairs@),
                hash@ == all[i as int].pattern_hash,
                found ==> is_known(old_ones, all, i as int),
                !found ==> !old_ones.contains(hash@),
                !found ==> forall|m: int| 0 <= m < j ==> (#[trigger] all[m]).pattern_hash != hash@,
            decreases i - j,
        {
            assert(all[j as int] == pairs@[j as int]@);
            if text::same(pairs[j].pattern_hash.as_str(), hash) {
                found = true;
            }
            j += 1;
        }
        if found {
            out.push(PairWrite::Bump);
        } else {
            out.push(PairWrite::Insert);
        }
        proof {
            assert(found == is_known(old_ones, all, i as int));
            let w = writes_for(old_ones, all);
            assert(w.take(i + 1) =~= w.take(i as int).push(w[i as int]));
        }
        i += 1;
    }
    proof {
        let w = writes_for(old_ones, all);
        assert(w.take(i as int) =~= w);
    }
    out
}

/// Each pattern is stored once: a pattern that is stored was not known and is
/// not stored again, and the pattern of every pair is known or stored.
pub proof fn law_patterns_are_stored_once(
    known: Set<Seq<char>>,
    pairs: Seq<PairView>,
    i: int,
    j: int,
)
    requires
        0 <= i < pairs.len(),
        0 <= j < pairs.len(),
        pairs[i].pattern_hash == pairs[j].pattern_hash,
    ensures
        writes_for(known, pairs)[i] == PairWrite::Insert ==> !known.contains(pairs[i].pattern_hash),
        writes_for(known, pairs)[i] == PairWrite::Insert && writes_for(known, pairs)[j]
            == PairWrite::Insert ==> i == j,
        known.contains(pairs[i].pattern_hash) || exists|k: int|
            0 <= k <= i && pairs[k].pattern_hash == pairs[i].pattern_hash && #[trigger] writes_for(
                known,
                pairs,
            )[k] == PairWrite::Insert,
    decreases i,
{
    let w = writes_for(known, pairs);
    if !known.contains(pairs[i].pattern_hash) {
        if w[i] != PairWrite::Insert {
            let m = choose|m: int|
                0 <= m < i && (#[trigger] pairs[m]).pattern_hash == pairs[i].pattern_hash;
            law_patterns_are_stored_once(known, pairs, m, m);
            let k = choose|k: int|
                0 <= k <= m && pairs[k].pattern_hash == pairs[m].pattern_hash && #[trigger] w[k]
                    == PairWrite::Insert;
            assert(w[k] == PairWrite::Insert);
        }
    }
    if w[i] == PairWrite::Insert && w[j] == PairWrite::Insert && i != j {
        if i < j {
            assert(is_known(known, pairs, j));
        } else {
            assert(is_known(known, pairs, i));
        }
    }
}

// ---------------------------------------------------------------------------
// Sessions
// ---------------------------------------------------------------------------
/// The id of a session: the name of its log file without the extension.
pub open spec fn id_of_session(path: Seq<char>) -> Seq<char> {
    match paths::file_stem_of(path) {
        Some(stem) => stem,
        None => "unknown"@,
    }
}

/// The id of the session whose log stands at `path`.
pub fn session_id(path: &str) -> (r: String)
    ensures
        r@ == id_of_session(path@),
{
    match paths::path_stem(path) {
        Some(stem) => stem,
        None => "unknown".to_owned(),
    }
}

/// The project of a session: the name of the directory that holds its log,
/// with the hyphens turned back into the slashes that they stand for.
pub open spec fn project_of(path: Seq<char>) -> Option<Seq<char>> {
    match paths::name_from_end(path, 1) {
        Some(name) => Some(text::replace(name, "-"@, "/"@)),
        None => None,
    }
}

/// The project of the session whose log stands at `path`.
pub fn detect_project_from_path(path: &str) -> (r: Option<String>)
    ensures
        text::opt_view(r) == project_of(path@),
{
    proof {
        reveal_strlit("-");
    }
    match paths::path_name(path, 1) {
        Some(name) => Some(text::replaced(name.as_str(), "-", "/")),
        None => None,
    }
}

/// Result of mining a single session.
#[derive(Debug)]
pub enum MineResult {
    /// The session was already mined or had no events.
    Skipped,
    /// The session was processed.
    Processed {
        /// How many failure-fix pairs were found.
        pairs: usize,
        /// How many events were found.
        events: usize,
    },
}

/// What a session log yields.
pub struct MinedSession {
    /// The session's id.
    pub session_id: String,
    /// The project.
    pub project: Option<String>,
    /// The tool use events.
    pub events: Vec<ToolEvent>,
    /// The failure-fix pairs.
    pub pairs: Vec<FailureFixPair>,
}

/// The id under which a session is to be mined, unless one with that id was
/// mined before.
pub open spec fn unmined(path: Seq<char>, mined: Set<Seq<char>>) -> Option<Seq<char>> {
    if mined.contains(id_of_session(path)) {
        None
    } else {
        Some(id_of_session(path))
    }
}

/// The id under which the session whose log stands at `path` is to be mined,
/// given the ids of sessions that were mined before. A session that was mined
/// is skipped without a look at its log.
pub fn session_to_mine(path: &str, mined: &Vec<String>) -> (r: Option<String>)
    ensures
        text::opt_view(r) == unmined(path@, text::views(mined@).to_set()),
{
    let id = session_id(path);
    let ghost all = text::views(mined@);
    let mut i: usize = 0;
    while i < mined.len()
        invariant
            i <= mined@.len(),
            all == text::views(mined@),
            id@ == id_of_session(path@),
            forall|j: int| 0 <= j < i ==> all[j] != id@,
        decreases mined@.len() - i,
    {
        assert(all[i as int] == mined@[i as int]@);
        if text::same(mined[i].as_str(), id.as_str()) {
            assert(all.contains(id@));
            return None;
        }
        i += 1;
    }
    assert(!all.contains(id@));
    Some(id)
}

/// What is reported of a session: it is skipped if it has no events.
pub open spec fn outcome(events: nat, pairs: nat) -> MineResult {
    if events == 0 {
        MineResult::Skipped
    } else {
        MineResult::Processed { pairs: pairs as usize, events: events as usize }
    }
}

impl MinedSession {
    /// What is reported of the session.
    pub fn result(&self) -> (r: MineResult)
        ensures
            r == outcome(self.events@.len(), self.pairs@.len()),
    {
        if self.events.len() == 0 {
            MineResult::Skipped
        } else {
            MineResult::Processed { pairs: self.pairs.len(), events: self.events.len() }
        }
    }
}

/// Mines the content of the session log that stands at `path`.
///
/// Yields nothing if an output would have to be cut inside a character to be
/// hashed or stored.
pub fn mine_session(path: &str, content: &str) -> (r: Option<MinedSession>)
    ensures
        r is Some <==> outputs_cuttable(session_events(content@)),
        r matches Some(m) ==> {
            &&& m.session_id@ == id_of_session(path@)
            &&& text::opt_view(m.project) == project_of(path@)
            &&& event_views(m.events@) == session_events(content@)
            &&& pair_views(m.pairs@) == pairs_in(
                session_events(content@),
                session_events(content@).len() as int,
            )
        },
{
    let events = extract_tool_events(content);
    assert(event_views(events@).len() == events@.len());
    if !can_pair(&events) {
        return None;
    }
    let pairs = find_failure_fix_pairs(&events);
    Some(
        MinedSession {
            session_id: session_id(path),
            project: detect_project_from_path(path),
            events: events,
            pairs: pairs,
        },
    )
}

/// The mining history: the sessions that were mined, the events that each of
/// them had, and how often each failure pattern occurred.
#[verifier::ext_equal]
pub struct HistoryView {
    /// The ids of the sessions.
    pub sessions: Set<Seq<char>>,
    /// The events, each with the id of its session.
    pub events: Seq<(Seq<char>, EventView)>,
    /// The occurrences of the patterns, by their hashes.
    pub patterns: Map<Seq<char>, nat>,
}

/// How often a pattern occurred, 0 if it is not stored.
pub open spec fn occurrences(patterns: Map<Seq<char>, nat>, hash: Seq<char>) -> nat {
    if patterns.dom().contains(hash) {
        patterns[hash]
    } else {
        0
    }
}

/// The patterns after the pairs were written, each as `writes` has it.
pub open spec fn written_pairs(
    patterns: Map<Seq<char>, nat>,
    pairs: Seq<PairView>,
    writes: Seq<PairWrite>,
) -> Map<Seq<char>, nat>
    decreases pairs.len(),
{
    if pairs.len() == 0 {
        patterns
    } else {
        let before = written_pairs(patterns, pairs.drop_last(), writes);
        let hash = pairs.last().pattern_hash;
        match writes[pairs.len() - 1] {
            PairWrite::Insert => before.insert(hash, 1),
            PairWrite::Bump => before.insert(hash, before[hash] + 1),
        }
    }
}

/// The history after the pairs and events of a session were stored under its
/// id.
pub open spec fn stored(h: HistoryView, id: Seq<char>, events: Seq<EventView>) -> HistoryView {
    let pairs = pairs_in(events, events.len() as int);
    HistoryView {
        sessions: h.sessions.insert(id),
        events: h.events + Seq::new(events.len(), |i: int| (id, events[i])),
        patterns: written_pairs(h.patterns, pairs, writes_for(h.patterns.dom(), pairs)),
    }
}

/// The history after the session at `path` was mined, given the content of
/// its log if it can be read, and what is reported of the session, if no
/// error is.
pub open spec fn mined_into(h: HistoryView, path: Seq<char>, content: Option<Seq<char>>) -> (
    HistoryView,
    Option<MineResult>,
) {
    match unmined(path, h.sessions) {
        None => (h, Some(MineResult::Skipped)),
        Some(id) => match content {
            None => (h, None),
            Some(c) => {
                let events = session_events(c);
                if outputs_cuttable(events) {
                    (
                        stored(h, id, events),
                        Some(
                            outcome(events.len(), pairs_in(events, events.len() as int).len()),
                        ),
                    )
                } else {
                    (h, None)
                }
            },
        },
    }
}

/// A session that was mined is skipped when it is mined again, and the history
/// stays as it is, whatever its log holds by then and from wherever a log of
/// the same name is read.
pub proof fn law_mining_again_changes_nothing(
    h: HistoryView,
    path: Seq<char>,
    content: Option<Seq<char>>,
    again: Seq<char>,
    later: Option<Seq<char>>,
)
    requires
        mined_into(h, path, content).1 is Some,
        id_of_session(again) == id_of_session(path),
    ensures
        ({
            let after = mined_into(h, path, content).0;
            mined_into(after, again, later) == (after, Some(MineResult::Skipped))
        }),
{
}

/// Mining adds at most the one session, and only events of it.
pub proof fn law_mining_adds_one_session(
    h: HistoryView,
    path: Seq<char>,
    content: Option<Seq<char>>,
)
    ensures
        ({
            let after = mined_into(h, path, content).0;
            &&& forall|id: Seq<char>|
                #[trigger] after.sessions.contains(id) ==> h.sessions.contains(id) || id
                    == id_of_session(path)
            &&& h.events.is_prefix_of(after.events)
            &&& forall|i: int|
                h.events.len() <= i < after.events.len() ==> (#[trigger] after.events[i]).0
                    == id_of_session(path)
        }),
{
    let after = mined_into(h, path, content).0;
    assert(after.events.subrange(0, h.events.len() as int) =~= h.events);
}

/// How many of the pairs have a pattern with the given hash.
pub open spec fn pairs_of_hash(pairs: Seq<PairView>, hash: Seq<char>) -> nat
    decreases pairs.len(),
{
    if pairs.len() == 0 {
        0
    } else if pairs.last().pattern_hash == hash {
        pairs_of_hash(pairs.drop_last(), hash) + 1
    } else {
        pairs_of_hash(pairs.drop_last(), hash)
    }
}

/// The patterns after the first `n` pairs were written.
proof fn lemma_written_pairs(patterns: Map<Seq<char>, nat>, pairs: Seq<PairView>, n: int)
    requires
        0 <= n <= pairs.len(),
    ensures
        ({
            let m = written_pairs(
                patterns,
                pairs.take(n),
                writes_for(patterns.dom(), pairs),
            );
            &&& forall|hash: Seq<char>|
                #[trigger] m.dom().contains(hash) <==> patterns.dom().contains(hash) || exists|
                    j: int,
                | 0 <= j < n && (#[trigger] pairs[j]).pattern_hash == hash
            &&& forall|hash: Seq<char>|
                #[trigger] occurrences(m, hash) == occurrences(patterns, hash) + pairs_of_hash(
                    pairs.take(n),
                    hash,
                )
        }),
    decreases n,
{
    let w = writes_for(patterns.dom(), pairs);
    if n > 0 {
        lemma_written_pairs(patterns, pairs, n - 1);
        assert(pairs.take(n).drop_last() =~= pairs.take(n - 1));
        assert(pairs.take(n).last() == pairs[n - 1]);
        let before = written_pairs(patterns, pairs.take(n - 1), w);
        let m = written_pairs(patterns, pairs.take(n), w);
        let last = pairs[n - 1].pattern_hash;
        assert(before.dom().contains(last) <==> is_known(patterns.dom(), pairs, n - 1));
        assert(w[n - 1] == PairWrite::Bump <==> before.dom().contains(last));
        assert forall|hash: Seq<char>| #[trigger]
            m.dom().contains(hash) <==> patterns.dom().contains(hash) || exists|j: int|
            0 <= j < n && (#[trigger] pairs[j]).pattern_hash == hash by {
            if hash == last {
                assert(pairs[n - 1].pattern_hash == hash);
            } else {
                assert(m.dom().contains(hash) == before.dom().contains(hash));
            }
        }
        assert forall|hash: Seq<char>| #[trigger]
            occurrences(m, hash) == occurrences(patterns, hash) + pairs_of_hash(
            pairs.take(n),
            hash,
        ) by {
            assert(occurrences(before, hash) == occurrences(patterns, hash) + pairs_of_hash(
                pairs.take(n - 1),
                hash,
            ));
        }
    } else {
        assert(pairs.take(0).len() == 0);
    }
}

/// Storing a session adds to each pattern's occurrences the number of its
/// pairs with that pattern.
pub proof fn law_occurrences_count_pairs(
    h: HistoryView,
    id: Seq<char>,
    events: Seq<EventView>,
    hash: Seq<char>,
)
    ensures
        occurrences(stored(h, id, events).patterns, hash) == occurrences(h.patterns, hash)
            + pairs_of_hash(pairs_in(events, events.len() as int), hash),
{
    let pairs = pairs_in(events, events.len() as int);
    lemma_written_pairs(h.patterns, pairs, pairs.len() as int);
    assert(pairs.take(pairs.len() as int) =~= pairs);
}

/// What is stored as an event's input: its command, empty if it has none.
pub fn event_input(e: &ToolEvent) -> (r: &str)
    ensures
        r@ == (match e@.command {
            Some(c) => c,
            None => ""@,
        }),
{
    match &e.command {
        Some(c) => c.as_str(),
        None => "",
    }
}

/// Summary of mining results for display.
#[derive(Debug)]
pub struct MiningSummary {
    /// Sessions that were processed.
    pub sessions_processed: usize,
    /// Sessions that were skipped.
    pub sessions_skipped: usize,
    /// Events that were found.
    pub events_found: usize,
    /// Pairs that were found.
    pub pairs_found: usize,
    /// Decisions that were read back.
    pub precc_events_extracted: usize,
}

impl Default for MiningSummary {
    fn default() -> (r: Self)
        ensures
            r.sessions_processed == 0,
            r.sessions_skipped == 0,
            r.events_found == 0,
            r.pairs_found == 0,
            r.precc_events_extracted == 0,
    {
        MiningSummary {
            sessions_processed: 0,
            sessions_skipped: 0,
            events_found: 0,
            pairs_found: 0,
            precc_events_extracted: 0,
        }
    }
}

/// How many sessions an outcome adds to the processed ones.
pub open spec fn processed_in(r: Option<MineResult>) -> int {
    match r {
        Some(MineResult::Processed { .. }) => 1,
        _ => 0,
    }
}

/// How many events an outcome adds.
pub open spec fn events_in(r: Option<MineResult>) -> int {
    match r {
        Some(MineResult::Processed { events, .. }) => events as int,
        _ => 0,
    }
}

/// How many pairs an outcome adds.
pub open spec fn pairs_found_in(r: Option<MineResult>) -> int {
    match r {
        Some(MineResult::Processed { pairs, .. }) => pairs as int,
        _ => 0,
    }
}

/// The sums of a summary stay within the machine's range when an outcome is
/// added.
pub open spec fn sums_fit(s: MiningSummary, r: Option<MineResult>) -> bool {
    &&& s.sessions_processed + processed_in(r) <= usize::MAX
    &&& s.sessions_skipped + 1 - processed_in(r) <= usize::MAX
    &&& s.events_found + events_in(r) <= usize::MAX
    &&& s.pairs_found + pairs_found_in(r) <= usize::MAX
}

impl MiningSummary {
    /// Whether an outcome can be added.
    pub fn fits(&self, outcome: &Option<MineResult>) -> (r: bool)
        ensures
            r == sums_fit(*self, *outcome),
    {
        match outcome {
            Some(MineResult::Processed { pairs, events }) => self.sessions_processed < usize::MAX
                && self.events_found <= usize::MAX - *events && self.pairs_found <= usize::MAX
                - *pairs,
            _ => self.sessions_skipped < usize::MAX,
        }
    }

    /// Adds the outcome of one session; nothing stands for a session that
    /// could not be mined, which counts as skipped.
    pub fn add_outcome(&mut self, outcome: &Option<MineResult>)
        requires
            sums_fit(*old(self), *outcome),
        ensures
            final(self).sessions_processed == old(self).sessions_processed + processed_in(*outcome),
            final(self).sessions_skipped == old(self).sessions_skipped + 1 - processed_in(*outcome),
            final(self).events_found == old(self).events_found + events_in(*outcome),
            final(self).pairs_found == old(self).pairs_found + pairs_found_in(*outcome),
            final(self).precc_events_extracted == old(self).precc_events_extracted,
    {
        match outcome {
            Some(MineResult::Processed { pairs, events }) => {
                self.sessions_processed = self.sessions_processed + 1;
                self.events_found = self.events_found + *events;
                self.pairs_found = self.pairs_found + *pairs;
            },
            _ => {
                self.sessions_skipped = self.sessions_skipped + 1;
            },
        }
    }
}

// ---------------------------------------------------------------------------
// Decisions read back
// ---------------------------------------------------------------------------
/// An event extracted from the reasons that a session was told.
#[derive(Debug)]
pub enum PreccEvent {
    /// A skill was applied.
    SkillActivation {
        /// The skill's name.
        skill_name: String,
    },
    /// A `cd` was prepended.
    CdPrepend {
        /// The marker file that was looked for.
        marker: String,
    },
    /// A command was wrapped by a compressor.
    CompressorWrap,
}

/// The model of such an event.
pub enum PreccView {
    /// A skill was applied.
    SkillActivation(Seq<char>),
    /// A `cd` was prepended.
    CdPrepend(Seq<char>),
    /// A command was wrapped by a compressor.
    CompressorWrap,
}

impl View for PreccEvent {
    type V = PreccView;

    open spec fn view(&self) -> PreccView {
        match self {
            PreccEvent::SkillActivation { skill_name } => PreccView::SkillActivation(skill_name@),
            PreccEvent::CdPrepend { marker } => PreccView::CdPrepend(marker@),
            PreccEvent::CompressorWrap => PreccView::CompressorWrap,
        }
    }
}

/// The models of a sequence of such events.
pub open spec fn precc_views(v: Seq<PreccEvent>) -> Seq<PreccView> {
    Seq::new(v.len(), |i: int| v[i]@)
}

/// The name at the start of a token's value: up to the first space or opening
/// parenthesis.
pub open spec fn name_in(value: Seq<char>) -> Seq<char> {
    text::trim(value.take(text::run_len(value, Class::NotEither(' ', '(')) as int))
}

/// A token says that the command was wrapped by an output compressor.
pub open spec fn is_wrap_token(t: Seq<char>) -> bool {
    t == "rtk-rewrite"@ || "compressor:"@.is_prefix_of(t)
}

/// The event that a token of a reason stands for.
pub open spec fn token_event(token: Seq<char>) -> Option<PreccView> {
    let t = text::trim(token);
    match text::after_prefix(t, "skill:"@) {
        Some(value) => if name_in(value).len() > 0 {
            Some(PreccView::SkillActivation(name_in(value)))
        } else {
            None
        },
        None => match text::after_prefix(t, "cd:"@) {
            Some(value) => Some(PreccView::CdPrepend(name_in(value))),
            None => if is_wrap_token(t) {
                Some(PreccView::CompressorWrap)
            } else {
                None
            },
        },
    }
}

/// The events that a list of tokens stands for.
pub open spec fn tokens_events(tokens: Seq<Seq<char>>) -> Seq<PreccView>
    decreases tokens.len(),
{
    if tokens.len() == 0 {
        Seq::empty()
    } else {
        match token_event(tokens.last()) {
            Some(e) => tokens_events(tokens.drop_last()).push(e),
            None => tokens_events(tokens.drop_last()),
        }
    }
}

/// The events that a reason reports, of the form
/// `PRECC: skill:name (conf=0.9); cd:marker (conf=0.9); compressor:rtk`, or
/// with `rtk-rewrite` for the last token.
pub open spec fn reason_events(reason: Seq<char>) -> Seq<PreccView> {
    match text::after_prefix(reason, "PRECC:"@) {
        Some(body) => tokens_events(text::split(body, ';')),
        None => Seq::empty(),
    }
}

/// The name at the start of a token's value.
fn read_name(value: &str) -> (r: String)
    ensures
        r@ == name_in(value@),
{
    let v = text::chars_of(value);
    let n: usize = text::run_end(&v, 0, Class::NotEither(' ', '('));
    proof {
        assert(v@.skip(0) =~= value@);
    }
    let head = text::string_of(&v, 0, n);
    assert(head@ =~= value@.take(n as int));
    text::trimmed(head.as_str()).to_owned()
}

/// The event that a token of a reason stands for.
fn read_token(token: &str) -> (r: Option<PreccEvent>)
    ensures
        match r {
            Some(e) => token_event(token@) == Some(e@),
            None => token_event(token@) is None,
        },
{
    let t = text::trimmed(token);
    if let Some(value) = text::strip(t, "skill:") {
        let name = read_name(value);
        if name.as_str().is_empty() {
            None
        } else {
            Some(PreccEvent::SkillActivation { skill_name: name })
        }
    } else if let Some(value) = text::strip(t, "cd:") {
        Some(PreccEvent::CdPrepend { marker: read_name(value) })
    } else if text::same(t, "rtk-rewrite") || text::starts(t, "compressor:") {
        Some(PreccEvent::CompressorWrap)
    } else {
        None
    }
}

/// Appends the events that a reason reports.
pub fn parse_precc_reason(reason: &str, events: &mut Vec<PreccEvent>)
    ensures
        precc_views(final(events)@) == precc_views(old(events)@) + reason_events(reason@),
{
    let ghost first = precc_views(events@);
    let body = match text::strip(reason, "PRECC:") {
        Some(b) => b,
        None => {
            assert(first + Seq::empty() =~= first);
            return ;
        },
    };
    let tokens = text::split_at_char(body, ';');
    let ghost all = text::views(tokens@);
    let mut i: usize = 0;
    proof {
        assert(all.take(0) =~= Seq::<Seq<char>>::empty());
        assert(first + tokens_events(all.take(0)) =~= first);
    }
    while i < tokens.len()
        invariant
            i <= tokens@.len(),
            all == text::views(tokens@),
            precc_views(events@) == first + tokens_events(all.take(i as int)),
        decreases tokens@.len() - i,
    {
        let ghost before = precc_views(events@);
        let ghost told = tokens_events(all.take(i as int));
        proof {
            let t = all.take(i + 1);
            assert(t.drop_last() =~= all.take(i as int));
            assert(t.last() == tokens@[i as int]@);
        }
        if let Some(e) = read_token(tokens[i].as_str()) {
            let ghost v = e@;
            events.push(e);
            proof {
                assert(precc_views(events@) =~= before.push(v));
                assert(before.push(v) =~= first + told.push(v));
            }
        }
        i += 1;
    }
    assert(all.take(i as int) =~= all);
}

/// The events of the reason that an object holds itself.
pub open spec fn own_reason(j: JsonView) -> Seq<PreccView> {
    match json::text_in(json::get_of(j, "permissionDecisionReason"@)) {
        Some(reason) => reason_events(reason),
        None => Seq::empty(),
    }
}

/// The events of all reasons anywhere in a value.
pub open spec fn reasons_in(j: JsonView) -> Seq<PreccView>
    decreases j,
{
    match j {
        JsonView::Object(members) => own_reason(j) + member_reasons(members),
        JsonView::Array(items) => item_reasons(items),
        _ => Seq::empty(),
    }
}

/// The events of all reasons in the items of an array.
pub open spec fn item_reasons(items: Seq<JsonView>) -> Seq<PreccView>
    decreases items,
{
    if items.len() == 0 {
        Seq::empty()
    } else {
        item_reasons(items.drop_last()) + reasons_in(items.last())
    }
}

/// The events of all reasons in the members of an object.
pub open spec fn member_reasons(members: Seq<(Seq<char>, JsonView)>) -> Seq<PreccView>
    decreases members,
{
    if members.len() == 0 {
        Seq::empty()
    } else {
        member_reasons(members.drop_last()) + reasons_in(members.last().1)
    }
}

/// Appends the events of all reasons anywhere in a value.
pub fn collect_precc_reasons(value: &Json, events: &mut Vec<PreccEvent>)
    ensures
        precc_views(final(events)@) == precc_views(old(events)@) + reasons_in(value@),
    decreases value,
{
    let ghost first = precc_views(events@);
    match value {
        Json::Object(members) => {
            let ghost own = own_reason(value@);
            if let Some(reason) = json::as_text(json::get(value, "permissionDecisionReason")) {
                parse_precc_reason(reason, events);
            } else {
                assert(first + own =~= first);
            }
            let ghost all = value@->Object_0;
            let mut i: usize = 0;
            proof {
                assert(all.take(0) =~= Seq::empty());
                assert(first + own + member_reasons(all.take(0)) =~= first + own);
            }
            while i < members.len()
                invariant
                    i <= members@.len(),
                    *value == Json::Object(*members),
                    all == value@->Object_0,
                    all.len() == members@.len(),
                    precc_views(events@) == first + own + member_reasons(all.take(i as int)),
                decreases members@.len() - i,
            {
                proof {
                    let t = all.take(i + 1);
                    assert(t.drop_last() =~= all.take(i as int));
                    assert(t.last() == (members@[i as int].key@, members@[i as int].value@));
                }
                collect_precc_reasons(&members[i].value, events);
                proof {
                    assert(precc_views(events@) =~= first + own + member_reasons(all.take(i + 1)));
                }
                i += 1;
            }
            proof {
                assert(all.take(i as int) =~= all);
                assert(first + own + member_reasons(all) =~= first + (own + member_reasons(all)));
            }
        },
        Json::Array(items) => {
            let ghost all = value@->Array_0;
            let mut i: usize = 0;
            proof {
                assert(all.take(0) =~= Seq::empty());
                assert(first + item_reasons(all.take(0)) =~= first);
            }
            while i < items.len()
                invariant
                    i <= items@.len(),
                    *value == Json::Array(*items),
                    all == value@->Array_0,
                    all.len() == items@.len(),
                    precc_views(events@) == first + item_reasons(all.take(i as int)),
                decreases items@.len() - i,
            {
                proof {
                    let t = all.take(i + 1);
                    assert(t.drop_last() =~= all.take(i as int));
                    assert(t.last() == items@[i as int]@);
                }
                collect_precc_reasons(&items[i], events);
                proof {
                    assert(precc_views(events@) =~= first + item_reasons(all.take(i + 1)));
                }
                i += 1;
            }
            assert(all.take(i as int) =~= all);
        },
        _ => {
            assert(first + Seq::empty() =~= first);
        },
    }
}

/// A line may hold a reason: it is not blank and mentions both the field and
/// the mark that the reasons start with.
pub open spec fn may_hold_reason(line: Seq<char>) -> bool {
    &&& text::trim(line).len() > 0
    &&& text::contains(line, "permissionDecisionReason"@)
    &&& text::contains(line, "PRECC:"@)
}

/// The events of the reasons in one line, given what it parses to.
pub open spec fn line_reasons(line: Seq<char>, parsed: Option<JsonView>) -> Seq<PreccView> {
    match parsed {
        Some(j) => if may_hold_reason(line) {
            reasons_in(j)
        } else {
            Seq::empty()
        },
        None => Seq::empty(),
    }
}

/// The events of the reasons in the lines of a session log.
pub open spec fn told_events(lines: Seq<Seq<char>>) -> Seq<PreccView>
    decreases lines.len(),
{
    if lines.len() == 0 {
        Seq::empty()
    } else {
        told_events(lines.drop_last()) + line_reasons(lines.last(), json::json_of(lines.last()))
    }
}

/// Extracts the events of the reasons that a session was told, by scanning
/// the `permissionDecisionReason` fields of its log.
pub fn extract_precc_events(content: &str) -> (r: Vec<PreccEvent>)
    ensures
        precc_views(r@) == told_events(text::lines(content@)),
{
    let lines = text::split_lines(content);
    let ghost all = text::views(lines@);
    let mut out: Vec<PreccEvent> = Vec::new();
    let mut i: usize = 0;
    proof {
        assert(all.take(0) =~= Seq::<Seq<char>>::empty());
        assert(precc_views(out@) =~= told_events(all.take(0)));
    }
    while i < lines.len()
        invariant
            i <= lines@.len(),
            all == text::views(lines@),
            all == text::lines(content@),
            precc_views(out@) == told_events(all.take(i as int)),
        decreases lines@.len() - i,
    {
        let ghost before = precc_views(out@);
        let line = lines[i].as_str();
        proof {
            let t = all.take(i + 1);
            assert(t.drop_last() =~= all.take(i as int));
            assert(t.last() == line@);
            assert(before + Seq::empty() =~= before);
        }
        if !text::trimmed(line).is_empty() && text::has_text(line, "permissionDecisionReason")
            && text::has_text(line, "PRECC:") {
            if let Some(parsed) = json::parse_json(line) {
                collect_precc_reasons(&parsed, &mut out);
            }
        }
        i += 1;
    }
    assert(all.take(i as int) =~= all);
    out
}

/// Two logs put together were told what the one and then the other was told.
proof fn lemma_told_append(a: Seq<Seq<char>>, b: Seq<Seq<char>>)
    ensures
        told_events(a + b) == told_events(a) + told_events(b),
    decreases b.len(),
{
    if b.len() == 0 {
        assert(a + b =~= a);
        assert(told_events(a) + told_events(b) =~= told_events(a));
    } else {
        let last = line_reasons(b.last(), json::json_of(b.last()));
        lemma_told_append(a, b.drop_last());
        assert((a + b).drop_last() =~= a + b.drop_last());
        assert((a + b).last() == b.last());
        assert(told_events(a) + (told_events(b.drop_last()) + last) =~= (told_events(a)
            + told_events(b.drop_last())) + last);
    }
}

/// An empty line tells nothing.
proof fn lemma_empty_line_told()
    ensures
        told_events(seq![Seq::<char>::empty()]) == Seq::<PreccView>::empty(),
{
    let one = seq![Seq::<char>::empty()];
    assert(one.drop_last() =~= Seq::<Seq<char>>::empty());
    assert(told_events(one.drop_last()) == Seq::<PreccView>::empty());
    assert(one.last() == Seq::<char>::empty());
    assert(text::trim(one.last()).len() == 0) by {
        assert(text::trim_start(one.last()).len() == 0);
    }
    assert(!may_hold_reason(one.last()));
    assert(line_reasons(one.last(), json::json_of(one.last())) == Seq::<PreccView>::empty());
    assert(told_events(one) =~= Seq::<PreccView>::empty());
}

/// Whether a line holds a text does not depend on a character at its end that
/// is not in that text.
proof fn lemma_contains_pushed(s: Seq<char>, c: char, pat: Seq<char>)
    requires
        pat.len() > 0,
        !pat.contains(c),
    ensures
        text::contains(s.push(c), pat) == text::contains(s, pat),
{
    let t = s.push(c);
    if text::contains(s, pat) {
        let i = choose|i: int| #[trigger] text::occurs_at(s, pat, i);
        assert(t.subrange(i, i + pat.len()) =~= s.subrange(i, i + pat.len()));
        assert(text::occurs_at(t, pat, i));
    }
    if text::contains(t, pat) {
        let i = choose|i: int| #[trigger] text::occurs_at(t, pat, i);
        let sub = t.subrange(i, i + pat.len());
        if i + pat.len() == t.len() {
            assert(sub[pat.len() - 1] == c);
            assert(pat.contains(pat[pat.len() - 1]));
        } else {
            assert(s.subrange(i, i + pat.len()) =~= sub);
            assert(text::occurs_at(s, pat, i));
        }
    }
}

/// A line tells the same with and without a carriage return at its end.
proof fn lemma_line_chomped(line: Seq<char>)
    ensures
        line_reasons(line.push('\r'), json::json_of(line.push('\r'))) == line_reasons(
            line,
            json::json_of(line),
        ),
{
    let t = line.push('\r');
    assert(t.drop_last() =~= line);
    assert(json::json_of(t) == json::json_of(line));
    text::lemma_trim_pushed(line, '\r');
    reveal_strlit("permissionDecisionReason");
    reveal_strlit("PRECC:");
    lemma_contains_pushed(line, '\r', "permissionDecisionReason"@);
    lemma_contains_pushed(line, '\r', "PRECC:"@);
}

/// A line feed at the end of a log adds nothing to what it was told.
proof fn lemma_told_ended(s: Seq<char>)
    ensures
        told_events(text::lines(s.push('\n'))) == told_events(text::lines(s)),
{
    let ended = s.push('\n');
    if s.len() == 0 || s.last() == '\n' {
        let nl = seq!['\n'];
        assert(ended =~= s + nl);
        text::lemma_lines_append(s, nl);
        assert(nl =~= Seq::<char>::empty().push('\n'));
        text::lemma_one_line(Seq::<char>::empty());
        lemma_told_append(text::lines(s), seq![Seq::<char>::empty()]);
        lemma_empty_line_told();
        assert(told_events(text::lines(s)) + Seq::<PreccView>::empty() =~= told_events(
            text::lines(s),
        ));
    } else {
        text::lemma_lines_ended(s);
        let all = text::lines(s);
        if s.last() == '\r' {
            let cut = all.drop_last().push(text::chomp(all.last()));
            assert(cut.drop_last() =~= all.drop_last());
            assert(all.last().drop_last().push('\r') =~= all.last());
            lemma_line_chomped(all.last().drop_last());
        }
    }
}

/// A log that goes on with a line feed and a second log was told what the
/// first and then the second was told.
pub proof fn law_logs_join(first: Seq<char>, second: Seq<char>)
    ensures
        told_events(text::lines(first + "\n"@ + second)) == told_events(text::lines(first))
            + told_events(text::lines(second)),
{
    reveal_strlit("\n");
    let ended = first.push('\n');
    assert(first + "\n"@ + second =~= ended + second);
    text::lemma_lines_append(ended, second);
    lemma_told_append(text::lines(ended), text::lines(second));
    lemma_told_ended(first);
}

/// No object in a value holds a reason that starts as a reason of ours does.
pub open spec fn tells_nothing(j: JsonView) -> bool
    decreases j,
{
    match j {
        JsonView::Object(members) => {
            &&& (json::text_in(json::get_of(j, "permissionDecisionReason"@)) matches Some(reason)
                ==> !"PRECC:"@.is_prefix_of(reason))
            &&& members_tell_nothing(members)
        },
        JsonView::Array(items) => items_tell_nothing(items),
        _ => true,
    }
}

/// None of the items of an array tells anything.
pub open spec fn items_tell_nothing(items: Seq<JsonView>) -> bool
    decreases items,
{
    items.len() == 0 || (items_tell_nothing(items.drop_last()) && tells_nothing(items.last()))
}

/// None of the members of an object tells anything.
pub open spec fn members_tell_nothing(members: Seq<(Seq<char>, JsonView)>) -> bool
    decreases members,
{
    members.len() == 0 || (members_tell_nothing(members.drop_last()) && tells_nothing(
        members.last().1,
    ))
}

/// A value in which no object holds a reason of ours yields no event.
pub proof fn law_other_reasons_are_passed_over(j: JsonView)
    requires
        tells_nothing(j),
    ensures
        reasons_in(j) == Seq::<PreccView>::empty(),
    decreases j,
{
    match j {
        JsonView::Object(members) => {
            lemma_members_silent(members);
            assert(reasons_in(j) =~= Seq::<PreccView>::empty());
        },
        JsonView::Array(items) => {
            lemma_items_silent(items);
        },
        _ => {},
    }
}

/// Items that tell nothing yield no event.
proof fn lemma_items_silent(items: Seq<JsonView>)
    requires
        items_tell_nothing(items),
    ensures
        item_reasons(items) == Seq::<PreccView>::empty(),
    decreases items,
{
    if items.len() > 0 {
        lemma_items_silent(items.drop_last());
        law_other_reasons_are_passed_over(items.last());
        assert(item_reasons(items) =~= Seq::<PreccView>::empty());
    }
}

/// Members that tell nothing yield no event.
proof fn lemma_members_silent(members: Seq<(Seq<char>, JsonView)>)
    requires
        members_tell_nothing(members),
    ensures
        member_reasons(members) == Seq::<PreccView>::empty(),
    decreases members,
{
    if members.len() > 0 {
        lemma_members_silent(members.drop_last());
        law_other_reasons_are_passed_over(members.last().1);
        assert(member_reasons(members) =~= Seq::<PreccView>::empty());
    }
}

/// A line tells nothing if it is blank or lacks one of the marks, if it is no
/// JSON, or if its value holds no reason of ours.
pub open spec fn is_silent(line: Seq<char>) -> bool {
    ||| !may_hold_reason(line)
    ||| json::json_of(line) is None
    ||| tells_nothing(json::json_of(line)->0)
}

/// A log of silent lines, an empty one too, yields no events.
pub proof fn law_silent_lines_are_passed_over(lines: Seq<Seq<char>>)
    requires
        forall|i: int| 0 <= i < lines.len() ==> is_silent(#[trigger] lines[i]),
    ensures
        told_events(lines) == Seq::<PreccView>::empty(),
    decreases lines.len(),
{
    if lines.len() > 0 {
        let init = lines.drop_last();
        assert forall|i: int| 0 <= i < init.len() implies is_silent(#[trigger] init[i]) by {
            assert(init[i] == lines[i]);
        }
        law_silent_lines_are_passed_over(init);
        let last = lines[lines.len() - 1];
        assert(is_silent(last));
        if may_hold_reason(last) && json::json_of(last) is Some {
            law_other_reasons_are_passed_over(json::json_of(last)->0);
        }
        assert(told_events(lines) =~= Seq::<PreccView>::empty());
    }
}

/// The row id of a session whose reasons are still to be read.
pub open spec fn due(row: Option<(i64, bool)>) -> Option<i64> {
    match row {
        Some((id, false)) => Some(id),
        _ => None,
    }
}

/// The row id of a session whose reasons are still to be read, given its row
/// in the history: the id, and whether its reasons were read before. A
/// session that was not mined yet has no row.
pub fn session_to_extract(row: Option<(i64, bool)>) -> (r: Option<i64>)
    ensures
        r == due(row),
{
    match row {
        Some((id, done)) => if done {
            None
        } else {
            Some(id)
        },
        None => None,
    }
}

/// A session's log: the id that its file name gives, and its content if it can
/// be read.
pub struct LogView {
    /// The session's id.
    pub id: Seq<char>,
    /// The content.
    pub content: Option<Seq<char>>,
}

/// The row of a session in the history, if it has one.
pub open spec fn row_in(rows: Map<Seq<char>, (i64, bool)>, id: Seq<char>) -> Option<(i64, bool)> {
    if rows.dom().contains(id) {
        Some(rows[id])
    } else {
        None
    }
}

/// A log is read: its session is due, and its content can be read.
pub open spec fn is_read(rows: Map<Seq<char>, (i64, bool)>, log: LogView) -> bool {
    due(row_in(rows, log.id)) is Some && log.content is Some
}

/// The rows after a log was taken: a session whose log was read is marked.
pub open spec fn marked(rows: Map<Seq<char>, (i64, bool)>, log: LogView) -> Map<
    Seq<char>,
    (i64, bool),
> {
    if is_read(rows, log) {
        rows.insert(log.id, (due(row_in(rows, log.id))->0, true))
    } else {
        rows
    }
}

/// What a log that was taken yields.
pub open spec fn yielded(rows: Map<Seq<char>, (i64, bool)>, log: LogView) -> Seq<PreccView> {
    if is_read(rows, log) {
        told_events(text::lines(log.content->0))
    } else {
        Seq::empty()
    }
}

/// The rows after a run over the logs.
pub open spec fn rows_after(rows: Map<Seq<char>, (i64, bool)>, logs: Seq<LogView>) -> Map<
    Seq<char>,
    (i64, bool),
>
    decreases logs.len(),
{
    if logs.len() == 0 {
        rows
    } else {
        marked(rows_after(rows, logs.drop_last()), logs.last())
    }
}

/// The events that a run over the logs yields.
pub open spec fn extracted(rows: Map<Seq<char>, (i64, bool)>, logs: Seq<LogView>) -> Seq<PreccView>
    decreases logs.len(),
{
    if logs.len() == 0 {
        Seq::empty()
    } else {
        extracted(rows, logs.drop_last()) + yielded(
            rows_after(rows, logs.drop_last()),
            logs.last(),
        )
    }
}

/// After a run no log is left to be read.
proof fn lemma_run_reads_all(rows: Map<Seq<char>, (i64, bool)>, logs: Seq<LogView>, i: int)
    requires
        0 <= i < logs.len(),
    ensures
        !is_read(rows_after(rows, logs), logs[i]),
    decreases logs.len(),
{
    if i < logs.len() - 1 {
        lemma_run_reads_all(rows, logs.drop_last(), i);
        assert(logs.drop_last()[i] == logs[i]);
    }
}

/// A run over logs none of which is left to be read does nothing.
proof fn lemma_idle_run(rows: Map<Seq<char>, (i64, bool)>, logs: Seq<LogView>)
    requires
        forall|i: int| 0 <= i < logs.len() ==> !is_read(rows, #[trigger] logs[i]),
    ensures
        rows_after(rows, logs) == rows,
        extracted(rows, logs) == Seq::<PreccView>::empty(),
    decreases logs.len(),
{
    if logs.len() > 0 {
        let init = logs.drop_last();
        assert forall|i: int| 0 <= i < init.len() implies !is_read(rows, #[trigger] init[i]) by {
            assert(init[i] == logs[i]);
        }
        lemma_idle_run(rows, init);
        assert(!is_read(rows, logs[logs.len() - 1]));
        assert(extracted(rows, logs) =~= Seq::<PreccView>::empty());
    }
}

/// A second run over the same logs yields nothing and changes nothing: no
/// session is counted twice.
pub proof fn law_extracting_again_yields_nothing(
    rows: Map<Seq<char>, (i64, bool)>,
    logs: Seq<LogView>,
)
    ensures
        ({
            let after = rows_after(rows, logs);
            &&& extracted(after, logs) == Seq::<PreccView>::empty()
            &&& rows_after(after, logs) == after
        }),
{
    let after = rows_after(rows, logs);
    assert forall|i: int| 0 <= i < logs.len() implies !is_read(after, #[trigger] logs[i]) by {
        lemma_run_reads_all(rows, logs, i);
    }
    lemma_idle_run(after, logs);
}

/// A session that the history does not hold yields nothing and gets no row;
/// one whose log cannot be read yields nothing and stays due.
pub proof fn law_only_mined_sessions_are_extracted(
    rows: Map<Seq<char>, (i64, bool)>,
    log: LogView,
)
    ensures
        !rows.dom().contains(log.id) || log.content is None ==> yielded(rows, log) == Seq::<
            PreccView,
        >::empty() && marked(rows, log) == rows,
        marked(rows, log).dom() == rows.dom(),
{
    if is_read(rows, log) {
        assert(rows.dom().insert(log.id) =~= rows.dom());
    }
}

/// What an event that was read back leads to.
pub enum Effect {
    /// The skill, if it exists, is recorded as activated, and the patterns
    /// whose failing command starts with the tool count one more prevention.
    Activate {
        /// The skill's name.
        skill_name: String,
        /// The tool.
        tool: String,
    },
    /// A prepended `cd` is recorded as a metric.
    CountCd {
        /// The metric's metadata.
        metadata: String,
    },
    /// Nothing: it was counted when it happened.
    Nothing,
}

/// The tool that a skill's name starts with.
pub open spec fn tool_in(skill_name: Seq<char>) -> Seq<char> {
    skill_name.take(text::run_len(skill_name, Class::Not('-')) as int)
}

/// The metadata of a prepended `cd`.
pub open spec fn cd_metadata(marker: Seq<char>) -> Seq<char> {
    "{\"marker\":\""@ + marker + "\"}"@
}

/// What an event that was read back leads to.
pub fn effect_of(event: &PreccEvent) -> (r: Effect)
    ensures
        match event@ {
            PreccView::SkillActivation(name) => r matches Effect::Activate { skill_name, tool }
                && skill_name@ == name && tool@ == tool_in(name),
            PreccView::CdPrepend(marker) => r matches Effect::CountCd { metadata } && metadata@
                == cd_metadata(marker),
            PreccView::CompressorWrap => r is Nothing,
        },
{
    match event {
        PreccEvent::SkillActivation { skill_name } => {
            let v = text::chars_of(skill_name.as_str());
            let n: usize = text::run_end(&v, 0, Class::Not('-'));
            proof {
                assert(v@.skip(0) =~= skill_name@);
                assert(v@.subrange(0, n as int) =~= tool_in(skill_name@));
            }
            Effect::Activate { skill_name: skill_name.clone(), tool: text::string_of(&v, 0, n) }
        },
        PreccEvent::CdPrepend { marker } => {
            let mut metadata = "{\"marker\":\"".to_owned();
            metadata.append(marker.as_str());
            metadata.append("\"}");
            Effect::CountCd { metadata: metadata }
        },
        PreccEvent::CompressorWrap => Effect::Nothing,
    }
}

/// A session's id is the name of its log without the extension, and its project
/// the name of the directory that holds the log, with slashes for hyphens.
pub proof fn law_sessions_are_named_by_their_logs(
    dir: Seq<char>,
    project: Seq<char>,
    id: Seq<char>,
    extension: Seq<char>,
)
    requires
        paths::is_component(project),
        project != ".."@,
        id.len() > 0,
        !id.contains('/'),
        !extension.contains('/'),
        !extension.contains('.'),
        id != "."@,
    ensures
        ({
            let log = dir + seq!['/'] + project + seq!['/'] + (id + seq!['.'] + extension);
            &&& id_of_session(log) == id
            &&& match project_of(log) {
                Some(p) => p.len() == project.len() && forall|i: int|
                    0 <= i < p.len() ==> #[trigger] p[i] == (if project[i] == '-' {
                        '/'
                    } else {
                        project[i]
                    }),
                None => false,
            }
        }),
{
    let holder = dir + seq!['/'] + project;
    let name = id + seq!['.'] + extension;
    paths::law_stem_and_extension(holder, id, extension);
    assert(paths::is_component(name)) by {
        assert forall|i: int| 0 <= i < name.len() implies name[i] != '/' by {
            if i < id.len() {
                assert(id.contains(id[i]));
            } else if i > id.len() {
                assert(extension.contains(extension[i - id.len() - 1]));
                assert(name[i] == extension[i - id.len() - 1]);
            }
        }
        reveal_strlit(".");
        assert(name.len() >= 2);
    }
    paths::law_last_component_is_the_name(holder, name);
    paths::law_last_component_is_the_name(dir, project);
    reveal_strlit("-");
    reveal_strlit("/");
    assert("-"@ =~= seq!['-']);
    assert("/"@ =~= seq!['/']);
    text::law_replacing_a_character(project, '-', '/');
}

/// A session is skipped if its id is known, and if its log holds no events.
pub proof fn law_sessions_are_mined_once(path: Seq<char>, mined: Set<Seq<char>>)
    ensures
        mined.contains(id_of_session(path)) ==> unmined(path, mined) is None,
        !mined.contains(id_of_session(path)) ==> unmined(path, mined) == Some(id_of_session(path)),
        forall|pairs: nat| #[trigger] outcome(0, pairs) == MineResult::Skipped,
        forall|events: usize, pairs: usize|
            events > 0 ==> #[trigger] outcome(events as nat, pairs as nat) == (
            MineResult::Processed { pairs: pairs, events: events }),
{
}

/// The name at the start of a token's value.
proof fn lemma_name_in(name: Seq<char>, tail: Seq<char>)
    requires
        forall|i: int|
            0 <= i < name.len() ==> !text::is_space(#[trigger] name[i]) && name[i] != '(',
        tail.len() == 0 || tail[0] == ' ' || tail[0] == '(',
    ensures
        name_in(name + tail) == name,
{
    let none = Seq::<char>::empty();
    let value = name + tail;
    let n = name.len() as int;
    assert forall|i: int| 0 <= i < n implies text::in_class(
        Class::NotEither(' ', '('),
        #[trigger] value[i],
    ) by {
        assert(value[i] == name[i]);
        assert(!text::is_space(name[i]));
    }
    text::lemma_run_unique(value, Class::NotEither(' ', '('), n);
    assert(value.take(n) =~= name);
    text::law_trim_takes_spaces_off(none, name, none);
    assert(none + name + none =~= name);
}

/// What a token with a value starts and ends with.
proof fn lemma_token_core(
    front: Seq<char>,
    key: Seq<char>,
    name: Seq<char>,
    tail: Seq<char>,
    back: Seq<char>,
)
    requires
        forall|i: int| 0 <= i < front.len() ==> text::is_space(#[trigger] front[i]),
        forall|i: int| 0 <= i < back.len() ==> text::is_space(#[trigger] back[i]),
        key.len() > 0,
        !text::is_space(key[0]),
        name.len() > 0,
        !text::is_space(name.last()),
        tail.len() > 0 ==> !text::is_space(tail.last()),
    ensures
        text::trim(front + (key + name + tail) + back) == key + (name + tail),
        text::after_prefix(key + (name + tail), key) == Some(name + tail),
{
    let core = key + name + tail;
    assert(core =~= key + (name + tail));
    assert(core[0] == key[0]);
    if tail.len() > 0 {
        assert(core.last() == tail.last());
    } else {
        assert(core.last() == name.last());
    }
    text::law_trim_takes_spaces_off(front, core, back);
    text::law_prefix_and_rest(core, key, name + tail);
}

/// A token `skill:NAME` or `cd:NAME` stands for the skill or the marker of that
/// name, whatever follows the name.
pub proof fn law_tokens_name_what_was_done(
    front: Seq<char>,
    name: Seq<char>,
    tail: Seq<char>,
    back: Seq<char>,
)
    requires
        forall|i: int| 0 <= i < front.len() ==> text::is_space(#[trigger] front[i]),
        forall|i: int| 0 <= i < back.len() ==> text::is_space(#[trigger] back[i]),
        name.len() > 0,
        forall|i: int|
            0 <= i < name.len() ==> !text::is_space(#[trigger] name[i]) && name[i] != '(',
        tail.len() > 0 ==> (tail[0] == ' ' || tail[0] == '(') && !text::is_space(tail.last()),
    ensures
        token_event(front + ("skill:"@ + name + tail) + back) == Some(
            PreccView::SkillActivation(name),
        ),
        token_event(front + ("cd:"@ + name + tail) + back) == Some(PreccView::CdPrepend(name)),
{
    reveal_strlit("skill:");
    reveal_strlit("cd:");
    assert(!text::is_space(name[name.len() - 1]));
    lemma_name_in(name, tail);
    lemma_token_core(front, "skill:"@, name, tail, back);
    lemma_token_core(front, "cd:"@, name, tail, back);
    let c = "cd:"@ + (name + tail);
    assert(c[0] == 'c');
    text::law_prefix_and_rest(c, "skill:"@, c);
}

/// A token `rtk-rewrite` or `compressor:...` stands for a wrap; a token without
/// such a start, and a skill without a name, stand for nothing.
pub proof fn law_other_tokens(
    front: Seq<char>,
    name: Seq<char>,
    back: Seq<char>,
)
    requires
        forall|i: int| 0 <= i < front.len() ==> text::is_space(#[trigger] front[i]),
        forall|i: int| 0 <= i < back.len() ==> text::is_space(#[trigger] back[i]),
        name.len() > 0,
        !text::is_space(name[0]),
        !text::is_space(name.last()),
    ensures
        token_event(front + "rtk-rewrite"@ + back) == Some(PreccView::CompressorWrap),
        token_event(front + ("compressor:"@ + name) + back) == Some(PreccView::CompressorWrap),
        token_event(front + "skill:"@ + back) is None,
        token_event(front + "cd:"@ + back) == Some(PreccView::CdPrepend(Seq::empty())),
        !"skill:"@.is_prefix_of(name) && !"cd:"@.is_prefix_of(name) && !"compressor:"@.is_prefix_of(
            name,
        ) && name != "rtk-rewrite"@ ==> token_event(front + name + back) is None,
{
    reveal_strlit("skill:");
    reveal_strlit("cd:");
    reveal_strlit("rtk-rewrite");
    reveal_strlit("compressor:");
    let none = Seq::<char>::empty();
    let w = "compressor:"@ + name;
    assert(w.last() == name.last());
    assert(w[0] == 'c' && w[1] == 'o');
    text::law_trim_takes_spaces_off(front, "rtk-rewrite"@, back);
    text::law_trim_takes_spaces_off(front, w, back);
    text::law_trim_takes_spaces_off(front, "skill:"@, back);
    text::law_trim_takes_spaces_off(front, "cd:"@, back);
    text::law_prefix_and_rest("cd:"@, "skill:"@, none);
    text::law_prefix_and_rest("cd:"@, "cd:"@, none);
    assert("cd:"@ + none =~= "cd:"@);
    text::law_trim_takes_spaces_off(front, name, back);
    text::law_prefix_and_rest("rtk-rewrite"@, "skill:"@, none);
    text::law_prefix_and_rest("rtk-rewrite"@, "cd:"@, none);
    text::law_prefix_and_rest(w, "skill:"@, none);
    text::law_prefix_and_rest(w, "cd:"@, none);
    assert(w.subrange(0, 11) =~= "compressor:"@);
    text::law_prefix_and_rest("skill:"@, "skill:"@, none);
    assert("skill:"@ + none =~= "skill:"@);
    lemma_name_in(none, none);
    assert(none + none =~= none);
    text::law_prefix_and_rest(name, "skill:"@, none);
    text::law_prefix_and_rest(name, "cd:"@, none);
}

/// A reason that starts with the mark reports what its tokens stand for, one
/// token after the other; a reason without the mark reports nothing.
pub proof fn law_reasons_are_read_token_by_token(a: Seq<char>, b: Seq<char>, other: Seq<char>)
    ensures
        reason_events("PRECC:"@ + (a + seq![';'] + b)) == reason_events("PRECC:"@ + a)
            + reason_events("PRECC:"@ + b),
        !a.contains(';') && token_event(a) is Some ==> reason_events("PRECC:"@ + a) == seq![
            token_event(a)->0,
        ],
        !a.contains(';') && token_event(a) is None ==> reason_events("PRECC:"@ + a) == Seq::<
            PreccView,
        >::empty(),
        !"PRECC:"@.is_prefix_of(other) ==> reason_events(other) == Seq::<PreccView>::empty(),
{
    let both = a + seq![';'] + b;
    text::law_prefix_and_rest("PRECC:"@ + both, "PRECC:"@, both);
    text::law_prefix_and_rest("PRECC:"@ + a, "PRECC:"@, a);
    text::law_prefix_and_rest("PRECC:"@ + b, "PRECC:"@, b);
    text::law_prefix_and_rest(other, "PRECC:"@, other);
    text::law_split_at_a_separator(a, ';', b);
    lemma_tokens_append(text::split(a, ';'), text::split(b, ';'));
    if !a.contains(';') {
        let one = seq![a];
        assert(one.drop_last() =~= Seq::<Seq<char>>::empty());
        assert(tokens_events(one.drop_last()) == Seq::<PreccView>::empty());
        assert(one.last() == a);
        if token_event(a) is Some {
            assert(tokens_events(one) =~= seq![token_event(a)->0]);
        }
    }
}

/// The events of tokens put together.
proof fn lemma_tokens_append(a: Seq<Seq<char>>, b: Seq<Seq<char>>)
    ensures
        tokens_events(a + b) == tokens_events(a) + tokens_events(b),
    decreases b.len(),
{
    if b.len() == 0 {
        assert(a + b =~= a);
        assert(tokens_events(a) + tokens_events(b) =~= tokens_events(a));
    } else {
        lemma_tokens_append(a, b.drop_last());
        assert((a + b).drop_last() =~= a + b.drop_last());
        assert((a + b).last() == b.last());
        assert(tokens_events(a + b) =~= tokens_events(a) + tokens_events(b));
    }
}

/// Reasons are found at any depth: an array yields what its items yield, one
/// after the other; an object its own reason, if it has one, and then what the
/// values of its members yield; other values yield nothing.
pub proof fn law_reasons_are_found_at_any_depth(
    items: Seq<JsonView>,
    item: JsonView,
    members: Seq<(Seq<char>, JsonView)>,
    reason: Seq<char>,
)
    ensures
        reasons_in(JsonView::Array(Seq::empty())) == Seq::<PreccView>::empty(),
        reasons_in(JsonView::Array(items.push(item))) == reasons_in(JsonView::Array(items))
            + reasons_in(item),
        json::get_of(JsonView::Object(members), "permissionDecisionReason"@) == Some(
            JsonView::Text(reason),
        ) ==> reasons_in(JsonView::Object(members)) == reason_events(reason) + reasons_in(
            JsonView::Array(Seq::new(members.len(), |i: int| members[i].1)),
        ),
        !(json::get_of(JsonView::Object(members), "permissionDecisionReason"@) matches Some(
            JsonView::Text(_),
        )) ==> reasons_in(JsonView::Object(members)) == reasons_in(JsonView::Array(Seq::new(members.len(), |i: int| members[i].1))),
        !(item is Array) && !(item is Object) ==> reasons_in(item) == Seq::<PreccView>::empty(),
{
    let none = Seq::<JsonView>::empty();
    assert(item_reasons(none) == Seq::<PreccView>::empty());
    assert(items.push(item).drop_last() =~= items);
    assert(items.push(item).last() == item);
    lemma_member_values(members);
    let values = Seq::new(members.len(), |i: int| members[i].1);
    assert(Seq::<PreccView>::empty() + item_reasons(values) =~= item_reasons(values));
}

/// The reasons of members are those of their values.
proof fn lemma_member_values(members: Seq<(Seq<char>, JsonView)>)
    ensures
        member_reasons(members) == item_reasons(Seq::new(members.len(), |i: int| members[i].1)),
    decreases members.len(),
{
    let values = Seq::new(members.len(), |i: int| members[i].1);
    if members.len() > 0 {
        lemma_member_values(members.drop_last());
        let front = Seq::new(members.drop_last().len(), |i: int| members.drop_last()[i].1);
        assert(values.drop_last() =~= front);
        assert(values.last() == members.last().1);
    }
}

/// A log yields what its lines yield, one after the other; a line that holds
/// both marks yields the reasons in its value.
pub proof fn law_marked_lines_are_read(
    line: Seq<char>,
    value: JsonView,
    lines: Seq<Seq<char>>,
    more: Seq<Seq<char>>,
)
    ensures
        told_events(lines + more) == told_events(lines) + told_events(more),
        json::json_of(line) == Some(value) && text::trim(line).len() > 0 && text::contains(
            line,
            "permissionDecisionReason"@,
        ) && text::contains(line, "PRECC:"@) ==> told_events(seq![line]) == reasons_in(value),
{
    lemma_told_append(lines, more);
    let one = seq![line];
    assert(one.drop_last() =~= Seq::<Seq<char>>::empty());
    assert(told_events(one.drop_last()) == Seq::<PreccView>::empty());
    assert(one.last() == line);
    assert(told_events(one) =~= line_reasons(line, json::json_of(line)));
}

/// A log whose session is known and not yet read is read once: it yields what
/// it was told, its session is marked under the row that it has, and the other
/// sessions keep their rows. A log that cannot be read, or whose session is
/// unknown or marked, changes nothing.
pub proof fn law_known_logs_are_read(
    rows: Map<Seq<char>, (i64, bool)>,
    id: Seq<char>,
    row: i64,
    content: Seq<char>,
)
    ensures
        rows.dom().contains(id) && rows[id] == (row, false) ==> {
            let logs = seq![LogView { id: id, content: Some(content) }];
            &&& extracted(rows, logs) == told_events(text::lines(content))
            &&& rows_after(rows, logs) == rows.insert(id, (row, true))
        },
        !rows.dom().contains(id) || rows[id].1 ==> {
            let logs = seq![LogView { id: id, content: Some(content) }];
            &&& extracted(rows, logs) == Seq::<PreccView>::empty()
            &&& rows_after(rows, logs) == rows
        },
        ({
            let logs = seq![LogView { id: id, content: None }];
            &&& extracted(rows, logs) == Seq::<PreccView>::empty()
            &&& rows_after(rows, logs) == rows
        }),
{
    let none = Seq::<LogView>::empty();
    assert(extracted(rows, none) == Seq::<PreccView>::empty());
    assert(rows_after(rows, none) == rows);
    let read = seq![LogView { id: id, content: Some(content) }];
    assert(read.drop_last() =~= none);
    assert(read.last() == (LogView { id: id, content: Some(content) }));
    assert(extracted(rows, read) =~= yielded(rows, read.last()));
    let unread = seq![LogView { id: id, content: None }];
    assert(unread.drop_last() =~= none);
    assert(unread.last() == (LogView { id: id, content: None }));
    assert(extracted(rows, unread) =~= yielded(rows, unread.last()));
}

/// A skill is named after its tool: the part before the first hyphen.
pub proof fn law_skill_names_start_with_the_tool(tool: Seq<char>, rest: Seq<char>)
    requires
        !tool.contains('-'),
    ensures
        tool_in(tool + seq!['-'] + rest) == tool,
        tool_in(tool) == tool,
{
    let name = tool + seq!['-'] + rest;
    let n = tool.len() as int;
    assert forall|i: int| 0 <= i < n implies text::in_class(
        Class::Not('-'),
        #[trigger] tool[i],
    ) by {
        assert(tool.contains(tool[i]));
    }
    assert forall|i: int| 0 <= i < n implies text::in_class(
        Class::Not('-'),
        #[trigger] name[i],
    ) by {
        assert(name[i] == tool[i]);
    }
    text::lemma_run_unique(name, Class::Not('-'), n);
    text::lemma_run_unique(tool, Class::Not('-'), n);
    assert(name.take(n) =~= tool);
    assert(tool.take(n) =~= tool);
}

/// A tool's result, by the block and the event it yields: the event failed exactly
/// if it has an exit code other than zero. A report that begins with the line
/// `Exit code N` has that code; one without any such line has the code 1 if the
/// block is marked as an error, and none otherwise.
pub proof fn law_extract_from_tool_result(
    block: &Json,
    r: Option<ToolEvent>,
    report: Seq<char>,
    code: i32,
    rest: Seq<char>,
)
    requires
        call_ensures(extract_from_tool_result, (block,), r),
        json::get_of(block@, "content"@) == Some(JsonView::Text(report)),
    ensures
        match r {
            Some(e) => {
                let marked = json::get_of(block@, "is_error"@) == Some(JsonView::Bool(true));
                let untold = forall|j: int|
                    0 <= j < text::lines(report).len() ==> line_code(
                        #[trigger] text::lines(report)[j],
                    ) is None;
                &&& e@.output == Some(report)
                &&& e.is_failure <==> (e.exit_code is Some && e.exit_code != Some(0i32))
                &&& report == "Exit code "@ + numerals::dec_int(code as int) + seq!['\n'] + rest
                    ==> e.exit_code == Some(code) && (e.is_failure <==> code != 0)
                &&& untold && marked ==> e.exit_code == Some(1i32) && e.is_failure
                &&& untold && !marked ==> e.exit_code is None && !e.is_failure
            },
            None => false,
        },
{
    let all = text::lines(report);
    if report == "Exit code "@ + numerals::dec_int(code as int) + seq!['\n'] + rest {
        law_failed_command_is_a_failure(block@, code, rest);
    }
    if forall|j: int| 0 <= j < all.len() ==> line_code(#[trigger] all[j]) is None {
        law_nonzero_codes_are_failures(block@, report, all.len() as int);
    } else {
        let j = choose|j: int| 0 <= j < all.len() && line_code(#[trigger] all[j]) is Some;
        lemma_a_code_is_told(all, j);
        lemma_told_codes_fit(all);
    }
}

/// A line that tells a code makes the lines tell one.
proof fn lemma_a_code_is_told(lines: Seq<Seq<char>>, j: int)
    requires
        0 <= j < lines.len(),
        line_code(lines[j]) is Some,
    ensures
        first_code(lines) is Some,
    decreases lines.len(),
{
    if line_code(lines[0]) is None {
        assert(lines.skip(1)[j - 1] == lines[j]);
        lemma_a_code_is_told(lines.skip(1), j - 1);
    }
}

/// A code that lines tell is an exit code.
proof fn lemma_told_codes_fit(lines: Seq<Seq<char>>)
    ensures
        first_code(lines) matches Some(c) ==> i32::MIN <= c <= i32::MAX,
    decreases lines.len(),
{
    if lines.len() > 0 && line_code(lines[0]) is None {
        lemma_told_codes_fit(lines.skip(1));
    }
}

/// Two commands are similar exactly if they run the same tool.
pub proof fn law_similar_commands_run_the_same_tool(
    a: &str,
    b: &str,
    r: bool,
    tool: Seq<char>,
    rest: Seq<char>,
    other_tool: Seq<char>,
    other_rest: Seq<char>,
)
    requires
        call_ensures(commands_similar, (a, b), r),
        a@ == tool + rest,
        b@ == other_tool + other_rest,
        tool.len() > 0,
        other_tool.len() > 0,
        forall|i: int| 0 <= i < tool.len() ==> !text::is_space(#[trigger] tool[i]),
        forall|i: int| 0 <= i < other_tool.len() ==> !text::is_space(#[trigger] other_tool[i]),
        rest.len() == 0 || text::is_space(rest[0]),
        other_rest.len() == 0 || text::is_space(other_rest[0]),
    ensures
        r <==> tool == other_tool,
{
    let none = Seq::<char>::empty();
    text::law_words_stand_between_spaces(none, tool, rest);
    text::law_words_stand_between_spaces(none, other_tool, other_rest);
    assert(none + tool + rest =~= tool + rest);
    assert(none + other_tool + other_rest =~= other_tool + other_rest);
}

/// A session's reasons are read under its row, once, and only if it has one.
pub proof fn law_due_sessions(row: Option<(i64, bool)>, id: i64, r: Option<i64>)
    requires
        call_ensures(session_to_extract, (row,), r),
    ensures
        row == Some((id, false)) ==> r == Some(id),
        row == Some((id, true)) ==> r is None,
        row is None ==> r is None,
{
}

/// A told event takes effect: a skill is activated under its name and its tool's, a
/// prepended `cd` is counted with its marker, and a wrap was counted before.
pub proof fn law_effect_of_a_told_event(event: &PreccEvent, r: Effect, tool: Seq<char>, rest: Seq<
    char,
>)
    requires
        call_ensures(effect_of, (event,), r),
        !tool.contains('-'),
    ensures
        event@ == PreccView::SkillActivation(tool + seq!['-'] + rest) ==> match r {
            Effect::Activate { skill_name: n, tool: t } => n@ == tool + seq!['-'] + rest && t@
                == tool,
            _ => false,
        },
        event@ == PreccView::CdPrepend(rest) ==> match r {
            Effect::CountCd { metadata: m } => m@ == "{\"marker\":\""@ + rest + "\"}"@,
            _ => false,
        },
        event@ == PreccView::CompressorWrap ==> r is Nothing,
{
    law_skill_names_start_with_the_tool(tool, rest);
}

/// The events of a log, by the log and the result: a use of Bash and its result
/// make one event that tells the command and its outcome.
pub proof fn law_extract_tool_events(
    content: &str,
    r: Vec<ToolEvent>,
    use_line: Seq<char>,
    result_line: Seq<char>,
    first: EventView,
    second: EventView,
)
    requires
        call_ensures(extract_tool_events, (content,), r),
        content@ == use_line + seq!['\n'] + result_line + seq!['\n'],
        !use_line.contains('\n'),
        !result_line.contains('\n'),
        use_line.len() == 0 || use_line.last() != '\r',
        result_line.len() == 0 || result_line.last() != '\r',
        raw_events(seq![use_line]) == seq![first],
        raw_events(seq![result_line]) == seq![second],
        first.command is Some,
        first.output is None,
        second.command is None,
        second.output is Some,
        first.tool == second.tool,
    ensures
        r@.len() == 1,
        r@[0]@.command == first.command,
        r@[0]@.output == second.output,
        r@[0]@.exit_code == second.exit_code,
        r@[0]@.is_failure == second.is_failure,
{
    law_log_tells_what_became_of_a_command(use_line, result_line, first, second);
    let views = event_views(r@);
    assert(views.len() == r@.len());
    assert(views[0] == r@[0]@);
}

/// Paths give way first, then version numbers in what that left, then positions;
/// a pattern that cannot be used changes nothing.
pub proof fn law_variable_parts_give_way_in_order(
    s: Seq<char>,
    a: Seq<char>,
    b: Seq<char>,
    c: Seq<char>,
)
    requires
        patterns::regex_replaced(r"/[a-zA-Z0-9_./-]+"@, s, "<PATH>"@) == Some(a),
        patterns::regex_replaced(r"\d+\.\d+\.\d+"@, a, "<VER>"@) == Some(b),
    ensures
        patterns::regex_replaced(r":\d+:\d+"@, b, ":<L>:<C>"@) == Some(c) ==> normalized(s) == c,
        patterns::regex_replaced(r":\d+:\d+"@, b, ":<L>:<C>"@) is None ==> normalized(s) == b,
{
}

/// A session that was not mined before is stored whole: its id, each of its events
/// in order, and its pairs; the result tells how many.
pub proof fn law_new_session_is_stored(h: HistoryView, path: Seq<char>, content: Seq<char>)
    requires
        !h.sessions.contains(id_of_session(path)),
        outputs_cuttable(session_events(content)),
    ensures
        ({
            let events = session_events(content);
            let (after, result) = mined_into(h, path, Some(content));
            &&& after.sessions == h.sessions.insert(id_of_session(path))
            &&& after.events.len() == h.events.len() + events.len()
            &&& forall|i: int|
                0 <= i < events.len() ==> #[trigger] after.events[h.events.len() + i] == (
                    id_of_session(path),
                    events[i],
                )
            &&& events.len() == 0 ==> result == Some(MineResult::Skipped)
            &&& 0 < events.len() <= usize::MAX ==> match result {
                Some(MineResult::Processed { pairs: _, events: n }) => n == events.len(),
                _ => false,
            }
        }),
        mined_into(h, path, None) == (h, None::<MineResult>),
{
    let events = session_events(content);
    let after = mined_into(h, path, Some(content)).0;
    assert forall|i: int| 0 <= i < events.len() implies #[trigger] after.events[h.events.len() + i]
        == (id_of_session(path), events[i]) by {}
}

/// A processed session adds itself, its events and its pairs to the sums; a skipped
/// one, and one that could not be mined, adds nothing to them.
pub proof fn law_outcomes_are_summed(pairs: usize, events: usize)
    ensures
        ({
            let r = Some(MineResult::Processed { pairs: pairs, events: events });
            processed_in(r) == 1 && events_in(r) == events && pairs_found_in(r) == pairs
        }),
        processed_in(Some(MineResult::Skipped)) == 0,
        events_in(Some(MineResult::Skipped)) == 0,
        pairs_found_in(Some(MineResult::Skipped)) == 0,
        processed_in(None) == 0,
        events_in(None) == 0,
        pairs_found_in(None) == 0,
{
}

/// Logs put together hold the events of the one and then those of the other, unless
/// the second begins with a result that belongs to the end of the first.
pub proof fn law_logs_hold_their_events_in_order(first: Seq<char>, second: Seq<char>)
    requires
        first.len() == 0 || first.last() == '\n',
        raw_events(text::lines(second)).len() == 0 || raw_events(
            text::lines(second),
        )[0].command is Some,
    ensures
        session_events(first + second) == session_events(first) + session_events(second),
{
    text::lemma_lines_append(first, second);
    lemma_raw_append(text::lines(first), text::lines(second));
    lemma_merged_append(raw_events(text::lines(first)), raw_events(text::lines(second)));
}

/// Merging goes piece by piece where no result stands at the start of the second.
proof fn lemma_merged_append(a: Seq<EventView>, b: Seq<EventView>)
    requires
        b.len() == 0 || b[0].command is Some,
    ensures
        merged(a + b) == merged(a) + merged(b),
    decreases a.len(),
{
    let s = a + b;
    if a.len() == 0 {
        assert(s =~= b);
        assert(merged(a) + merged(b) =~= merged(b));
    } else {
        let n: int = if a.len() >= 2 && answers(a[0], a[1]) {
            2
        } else {
            1
        };
        assert(s[0] == a[0]);
        if a.len() >= 2 {
            assert(s[1] == a[1]);
        } else if b.len() > 0 {
            assert(s[1] == b[0]);
        }
        lemma_merged_append(a.skip(n), b);
        assert(s.skip(n) =~= a.skip(n) + b);
        assert(merged(s) =~= merged(a) + merged(b));
    }
}

/// Each event of a log is told: a use with the outcome that directly follows it, or
/// as it stands, and no event is made up: there are at most as many as were read, and
/// at least half as many.
pub proof fn law_no_event_is_lost(raw: Seq<EventView>)
    ensures
        merged(raw).len() <= raw.len() <= 2 * merged(raw).len(),
        forall|i: int|
            0 <= i < raw.len() && (#[trigger] raw[i]).command is Some ==> exists|k: int|
                0 <= k < merged(raw).len() && (#[trigger] merged(raw)[k]).command == raw[i].command
                    && merged(raw)[k].tool == raw[i].tool,
    decreases raw.len(),
{
    if raw.len() > 0 {
        let n: int = if raw.len() >= 2 && answers(raw[0], raw[1]) {
            2
        } else {
            1
        };
        let rest = raw.skip(n);
        let out = merged(raw);
        law_no_event_is_lost(rest);
        assert(out.skip(1) =~= merged(rest));
        assert(out[0].tool == raw[0].tool && out[0].command == raw[0].command);
        assert forall|i: int| 0 <= i < raw.len() && (#[trigger] raw[i]).command is Some implies exists|
            k: int,
        |
            0 <= k < out.len() && (#[trigger] out[k]).command == raw[i].command && out[k].tool
                == raw[i].tool by {
            if i >= n {
                assert(rest[i - n] == raw[i]);
                let k = choose|k: int|
                    0 <= k < merged(rest).len() && (#[trigger] merged(rest)[k]).command
                        == rest[i - n].command && merged(rest)[k].tool == rest[i - n].tool;
                assert(out[k + 1] == merged(rest)[k]);
            } else {
                assert(i == 0);
                assert(out[0].command == raw[0].command);
            }
        }
    }
}

/// A report that is a list of items counts as the text that the items make: whether
/// it failed, and with which code, is told by that text.
pub proof fn law_listed_reports_count_as_their_text(
    listed: JsonView,
    plain: JsonView,
    items: Seq<JsonView>,
    texts: Seq<Seq<char>>,
)
    requires
        json::get_of(listed, "content"@) == Some(JsonView::Array(items)),
        json::get_of(plain, "content"@) == Some(JsonView::Text(text::join(texts, "\n"@))),
        json::get_of(listed, "is_error"@) == json::get_of(plain, "is_error"@),
        items.len() == texts.len(),
        forall|i: int|
            0 <= i < items.len() ==> json::get_of(#[trigger] items[i], "text"@) == Some(
                JsonView::Text(texts[i]),
            ),
    ensures
        result_event(listed) == result_event(plain),
{
    lemma_texts_in(items, texts);
}

/// A log without an extension names its session by its whole name; a path that names
/// no file names none, and a path without a directory no project.
pub proof fn law_odd_session_paths(dir: Seq<char>, name: Seq<char>)
    requires
        paths::is_component(name),
        name != ".."@,
        !name.contains('.'),
    ensures
        id_of_session(dir + seq!['/'] + name) == name,
        id_of_session(Seq::empty()) == "unknown"@,
        project_of(name) is None,
{
    reveal_strlit(".");
    let stem = seq!['x'];
    assert(!stem.contains('/')) by {
        assert(stem[0] == 'x');
    }
    assert(stem != "."@) by {
        assert(stem[0] != "."@[0]);
    }
    paths::law_stem_and_extension(dir, stem, name);
    paths::law_components_stand_between_slashes(name, Seq::empty());
    assert(paths::components(Seq::<char>::empty()) == Seq::<Seq<char>>::empty());
}

/// The exit code of a text whose first line tells one is that one, whatever follows.
pub proof fn law_extract_exit_code(text: &str, r: Option<i32>, code: i32, rest: Seq<char>)
    requires
        call_ensures(extract_exit_code, (text,), r),
        text@ == "Exit code "@ + numerals::dec_int(code as int) + seq!['\n'] + rest,
    ensures
        r == Some(code),
{
    lemma_first_line_tells(code, rest);
}

/// The first line of a text tells the code.
proof fn lemma_first_line_tells(code: i32, rest: Seq<char>)
    ensures
        first_code(
            text::lines("Exit code "@ + numerals::dec_int(code as int) + seq!['\n'] + rest),
        ) == Some(code as int),
{
    let none = Seq::<char>::empty();
    let d = numerals::dec_int(code as int);
    let line = "Exit code "@ + d;
    lemma_code_line(code);
    text::law_lines_end_at_line_feeds(line, rest);
    law_line_tells_its_code(none, none, code as int, none);
    assert(none + ("Exit code "@ + none + d) + none =~= line);
    law_first_told_code_counts(text::lines(line + seq!['\n'] + rest), 0);
}

/// A block that uses Bash yields the command, by the block and the result.
pub proof fn law_extract_from_content_block(
    block: &Json,
    r: Option<ToolEvent>,
    input: JsonView,
    command: Seq<char>,
)
    requires
        call_ensures(extract_from_content_block, (block,), r),
        json::get_of(block@, "type"@) == Some(JsonView::Text("tool_use"@)),
        json::get_of(block@, "name"@) == Some(JsonView::Text("Bash"@)),
        json::get_of(block@, "input"@) == Some(input),
        json::get_of(input, "command"@) == Some(JsonView::Text(command)),
    ensures
        r matches Some(e) && e.tool@ == "Bash"@ && e@.command == Some(command) && e.output is None
            && e.exit_code is None && !e.is_failure,
{
    law_tool_uses_yield_events(block@, "Bash"@, input, command);
}

/// A failed command and a command of the same tool that does not fail behind it make
/// one pair, by the events and the result.
pub proof fn law_find_failure_fix_pairs(
    events: &Vec<ToolEvent>,
    r: Vec<FailureFixPair>,
    failed: Seq<char>,
    output: Seq<char>,
    fix: Seq<char>,
)
    requires
        call_ensures(find_failure_fix_pairs, (events,), r),
        events@.len() == 2,
        events@[0].tool@ == "Bash"@,
        events@[0].is_failure,
        events@[0]@.command == Some(failed),
        events@[0]@.output == Some(output),
        events@[1].tool@ == "Bash"@,
        !events@[1].is_failure,
        events@[1]@.command == Some(fix),
        text::first_word_of(failed) == text::first_word_of(fix),
    ensures
        r@.len() == 1,
        r@[0].failure_command@ == failed,
        r@[0].fix_command@ == fix,
        r@[0].failure_output@ == shortened(output, 500),
        r@[0].pattern_hash@ == pattern_hash(failed, output),
{
    let all = event_views(events@);
    assert(all[0] == events@[0]@ && all[1] == events@[1]@);
    law_what_fixes_a_failure(failed, output, all[1], fix);
    law_failure_is_paired_with_its_first_fix(all, 0, 1, failed, output, fix);
    law_no_pair_without_failure_and_fix(all, 1, fix, output);
    assert(pair_views(r@).len() == r@.len());
    assert(pair_views(r@)[0] == r@[0]@);
}

/// A session's id, by the path of its log and the result.
pub proof fn law_session_id(path: &str, r: String, dir: Seq<char>, id: Seq<char>, extension: Seq<char>)
    requires
        call_ensures(session_id, (path,), r),
        path@ == dir + seq!['/'] + (id + seq!['.'] + extension),
        id.len() > 0,
        !id.contains('/'),
        !extension.contains('/'),
        !extension.contains('.'),
        id != "."@,
    ensures
        r@ == id,
{
    paths::law_stem_and_extension(dir, id, extension);
}

/// A run over several logs takes one after the other: what a log yields, and which
/// session is marked, is as if it were taken alone after those before it.
pub proof fn law_logs_are_taken_one_by_one(
    rows: Map<Seq<char>, (i64, bool)>,
    logs: Seq<LogView>,
    log: LogView,
)
    ensures
        extracted(rows, logs.push(log)) == extracted(rows, logs) + extracted(
            rows_after(rows, logs),
            seq![log],
        ),
        rows_after(rows, logs.push(log)) == rows_after(rows_after(rows, logs), seq![log]),
        extracted(rows, Seq::empty()) == Seq::<PreccView>::empty(),
        rows_after(rows, Seq::empty()) == rows,
{
    let none = Seq::<LogView>::empty();
    let mid = rows_after(rows, logs);
    let one = seq![log];
    assert(logs.push(log).drop_last() =~= logs);
    assert(logs.push(log).last() == log);
    assert(one.drop_last() =~= none);
    assert(one.last() == log);
    assert(extracted(mid, none) == Seq::<PreccView>::empty());
    assert(rows_after(mid, none) == mid);
    assert(extracted(mid, one) =~= yielded(mid, log));
}

} // verus!
