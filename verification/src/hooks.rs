//! What the front-ends make of a host's input and of the pipeline's result.
use vstd::prelude::*;
use vstd::string::*;

use crate::json;
use crate::json::Json;
use crate::json::JsonView;
use crate::mining;
use crate::pipeline;
use crate::pipeline::Pipeline;
use crate::pipeline::PipelineView;
use crate::text;

verus! {

/// A command that is worth a look: one that is there and not empty.
pub open spec fn present(command: Option<Seq<char>>) -> Option<Seq<char>> {
    match command {
        Some(c) => if c.len() == 0 {
            None
        } else {
            Some(c)
        },
        None => None,
    }
}

/// The command in the event of a hook that runs before a tool is used.
pub open spec fn tool_command(input: JsonView) -> Option<Seq<char>> {
    present(json::text_in(json::get_in(json::get_of(input, "tool_input"@), "command"@)))
}

/// The command in the event of a hook that runs before a shell executes.
pub open spec fn shell_event_command(input: JsonView) -> Option<Seq<char>> {
    present(json::text_in(json::get_of(input, "command"@)))
}

/// A command that is there and not empty.
fn if_present(command: Option<&str>) -> (r: Option<String>)
    ensures
        text::opt_view(r) == present(text::opt_str(command)),
{
    match command {
        Some(c) => if c.is_empty() {
            None
        } else {
            Some(c.to_owned())
        },
        None => None,
    }
}

/// The command in a parsed event that is sent before a tool is used.
pub fn hook_command(input: &Json) -> (r: Option<String>)
    ensures
        text::opt_view(r) == tool_command(input@),
{
    if_present(json::as_text(json::get_opt(json::get(input, "tool_input"), "command")))
}

/// The command in a parsed event that is sent before a shell executes.
pub fn cursor_command(input: &Json) -> (r: Option<String>)
    ensures
        text::opt_view(r) == shell_event_command(input@),
{
    if_present(json::as_text(json::get(input, "command")))
}

/// The command in the text of an event that is sent before a tool is used.
/// An event that is not JSON has none.
pub fn read_hook_command(input: &str) -> (r: Option<String>)
    ensures
        text::opt_view(r) == (match json::json_of(input@) {
            Some(j) => tool_command(j),
            None => None,
        }),
{
    match json::parse_json(input) {
        Some(j) => hook_command(&j),
        None => None,
    }
}

/// The command in the text of an event that is sent before a shell executes.
/// An event that is not JSON has none.
pub fn read_cursor_command(input: &str) -> (r: Option<String>)
    ensures
        text::opt_view(r) == (match json::json_of(input@) {
            Some(j) => shell_event_command(j),
            None => None,
        }),
{
    match json::parse_json(input) {
        Some(j) => cursor_command(&j),
        None => None,
    }
}

/// The answer to a host that can refuse a command but not rewrite it.
pub enum CursorReply {
    /// The command may run.
    Allow,
    /// The command is refused in favour of a corrected one.
    Deny {
        /// What the user is told.
        user_message: String,
        /// What the agent is told.
        agent_message: String,
    },
}

/// What the user is told of a refused command.
pub open spec fn user_message(reason: Seq<char>, corrected: Seq<char>) -> Seq<char> {
    reason + ". Run instead: "@ + corrected
}

/// What the agent is told of a refused command.
pub open spec fn agent_message(corrected: Seq<char>) -> Seq<char> {
    "PRECC suggests the corrected command: `"@ + corrected + "`"@
}

/// Refuses a command that was rewritten and names the corrected one; allows
/// any other.
pub fn cursor_reply(p: &Pipeline) -> (r: CursorReply)
    ensures
        match r {
            CursorReply::Allow => p@.command == p@.original,
            CursorReply::Deny { user_message: u, agent_message: a } => {
                &&& p@.command != p@.original
                &&& u@ == user_message(pipeline::reason_line(p@.reasons), p@.command)
                &&& a@ == agent_message(p@.command)
            },
        },
{
    if !p.modified() {
        return CursorReply::Allow;
    }
    let mut user = p.reason();
    user.append(". Run instead: ");
    user.append(p.command.as_str());
    let mut agent = "PRECC suggests the corrected command: `".to_owned();
    agent.append(p.command.as_str());
    agent.append("`");
    CursorReply::Deny { user_message: user, agent_message: agent }
}

/// An object that holds one string.
pub open spec fn is_single(j: JsonView, key: Seq<char>, value: Seq<char>) -> bool {
    j is Object && json::members_of(j) == map![key => JsonView::Text(value)]
}

/// A value answers a host that can refuse a command as `reply` says.
pub open spec fn is_cursor_answer(j: JsonView, reply: CursorReply) -> bool {
    match reply {
        CursorReply::Allow => is_single(j, "permission"@, "allow"@),
        CursorReply::Deny { user_message: u, agent_message: a } => {
            &&& j is Object
            &&& json::members_of(j) == map![
                "permission"@ => JsonView::Text("deny"@),
                "user_message"@ => JsonView::Text(u@),
                "agent_message"@ => JsonView::Text(a@),
            ]
        },
    }
}

/// An object has no members to start with.
proof fn lemma_no_members()
    ensures
        json::members_of(JsonView::Object(Seq::empty())) == Map::<Seq<char>, JsonView>::empty(),
{
    assert(json::members_of(JsonView::Object(Seq::empty())) =~= Map::empty());
}

/// Writes the answer to a host that can refuse a command.
pub fn cursor_answer(reply: &CursorReply) -> (r: String)
    ensures
        exists|v: serde_json::Value| #[trigger]
            json::written(v) == r@ && is_cursor_answer(json::held(v), *reply),
{
    proof {
        lemma_no_members();
    }
    let answer = match reply {
        CursorReply::Allow => json::with_member(
            json::empty_object(),
            "permission",
            json::text_value("allow"),
        ),
        CursorReply::Deny { user_message: u, agent_message: a } => {
            let base = json::with_member(
                json::empty_object(),
                "permission",
                json::text_value("deny"),
            );
            let base = json::with_member(base, "user_message", json::text_value(u.as_str()));
            json::with_member(base, "agent_message", json::text_value(a.as_str()))
        },
    };
    json::write_value(&answer)
}

/// The input of the tool in an event; an empty object if it has none.
pub open spec fn tool_input(input: JsonView) -> JsonView {
    match json::get_of(input, "tool_input"@) {
        Some(t) => t,
        None => JsonView::Object(Seq::empty()),
    }
}

/// `after` is the tool's input with another command; what is not an object is
/// left as it is.
pub open spec fn is_updated(before: JsonView, command: Seq<char>, after: JsonView) -> bool {
    if before is Object {
        &&& after is Object
        &&& json::members_of(after) == json::members_of(before).insert(
            "command"@,
            JsonView::Text(command),
        )
    } else {
        after == before
    }
}

/// A value tells a host to run another command than the event asked for, and
/// why.
pub open spec fn is_rewrite_answer(
    j: JsonView,
    input: JsonView,
    command: Seq<char>,
    reason: Seq<char>,
) -> bool {
    let out = json::members_of(j)["hookSpecificOutput"@];
    let updated = json::members_of(out)["updatedInput"@];
    &&& j is Object
    &&& json::members_of(j) == map!["hookSpecificOutput"@ => out]
    &&& out is Object
    &&& json::members_of(out) == map![
        "hookEventName"@ => JsonView::Text("PreToolUse"@),
        "permissionDecision"@ => JsonView::Text("allow"@),
        "permissionDecisionReason"@ => JsonView::Text(reason),
        "updatedInput"@ => updated,
    ]
    &&& is_updated(tool_input(input), command, updated)
}

/// Writes the answer to a host that can rewrite a command: the event's input
/// with the rewritten command, and the reason. There is none to an event that
/// is not JSON, or if the command was left alone: the host then runs it as it
/// is.
pub fn rewrite_answer(input: &str, p: &Pipeline) -> (r: Option<String>)
    ensures
        r is Some <==> json::json_of(input@) is Some && p@.command != p@.original,
        r matches Some(t) ==> exists|v: serde_json::Value| #[trigger]
            json::written(v) == t@ && is_rewrite_answer(
                json::held(v),
                json::json_of(input@)->0,
                p@.command,
                pipeline::reason_line(p@.reasons),
            ),
{
    proof {
        lemma_no_members();
    }
    if !p.modified() {
        return None;
    }
    let event = match json::parse_value(input) {
        Some(v) => v,
        None => {
            return None;
        },
    };
    let before = match json::member_value(&event, "tool_input") {
        Some(t) => t,
        None => json::empty_object(),
    };
    let updated = json::with_member(before, "command", json::text_value(p.command.as_str()));
    let reason = p.reason();
    let out = json::with_member(
        json::empty_object(),
        "hookEventName",
        json::text_value("PreToolUse"),
    );
    let out = json::with_member(out, "permissionDecision", json::text_value("allow"));
    let out = json::with_member(
        out,
        "permissionDecisionReason",
        json::text_value(reason.as_str()),
    );
    let out = json::with_member(out, "updatedInput", updated);
    let answer = json::with_member(json::empty_object(), "hookSpecificOutput", out);
    let text = json::write_value(&answer);
    assert(json::written(answer) == text@);
    Some(text)
}

/// The members of an answer that rewrites: the reason stands where it is
/// looked for when sessions are mined, and the command where the host looks
/// for it. The other members of the tool's input are kept.
pub proof fn law_answer_holds_what_was_done(
    j: JsonView,
    input: JsonView,
    command: Seq<char>,
    reason: Seq<char>,
    key: Seq<char>,
)
    requires
        is_rewrite_answer(j, input, command, reason),
        tool_input(input) is Object,
        key != "command"@,
    ensures
        ({
            let out = json::get_of(j, "hookSpecificOutput"@);
            let updated = json::get_in(out, "updatedInput"@);
            &&& out matches Some(o) && mining::own_reason(o) == mining::reason_events(reason)
            &&& json::text_in(json::get_in(updated, "command"@)) == Some(command)
            &&& json::get_in(updated, key) == json::get_of(tool_input(input), key)
        }),
{
    reveal_strlit("hookEventName");
    reveal_strlit("permissionDecision");
    reveal_strlit("permissionDecisionReason");
    reveal_strlit("updatedInput");
    let out = json::members_of(j)["hookSpecificOutput"@];
    let updated = json::members_of(out)["updatedInput"@];
    let before = tool_input(input);
    assert("permissionDecisionReason"@.len() == 24 && "updatedInput"@.len() == 12);
    lemma_member(j, "hookSpecificOutput"@);
    lemma_member(out, "permissionDecisionReason"@);
    lemma_member(out, "updatedInput"@);
    lemma_member(updated, "command"@);
    lemma_member(updated, key);
    lemma_member(before, key);
    assert(json::members_of(out)["permissionDecisionReason"@] == JsonView::Text(reason));
}

/// The members of an object are what is found under their keys.
proof fn lemma_member(j: JsonView, key: Seq<char>)
    ensures
        json::get_of(j, key) == (if json::members_of(j).dom().contains(key) {
            Some(json::members_of(j)[key])
        } else {
            None
        }),
{
}

/// The command that a shell is asked to run: the argument after a leading
/// `-c`. Other invocations are passed through.
pub open spec fn command_argument(args: Seq<Seq<char>>) -> Option<Seq<char>> {
    if args.len() >= 2 && args[0] == "-c"@ {
        Some(args[1])
    } else {
        None
    }
}

/// The command that a shell is asked to run, if there is one to look at.
pub fn shell_command(args: &Vec<String>) -> (r: Option<String>)
    ensures
        text::opt_view(r) == command_argument(text::views(args@)),
{
    let ghost all = text::views(args@);
    if args.len() >= 2 {
        assert(all[0] == args@[0]@ && all[1] == args@[1]@);
        if text::same(args[0].as_str(), "-c") {
            return Some(args[1].clone());
        }
    }
    None
}

/// The notice that a command was rewritten.
pub open spec fn notice(p: PipelineView) -> Seq<char> {
    "["@ + pipeline::reason_line(p.reasons) + "] rewrote: "@ + p.command
}

/// The notice that a command was rewritten.
pub fn shell_notice(p: &Pipeline) -> (r: String)
    ensures
        r@ == notice(p@),
{
    let mut out = "[".to_owned();
    let reason = p.reason();
    out.append(reason.as_str());
    out.append("] rewrote: ");
    out.append(p.command.as_str());
    out
}

/// An event's command stands under `tool_input` for a tool, and directly in the
/// event for a shell. An empty command, one that is no text and a missing one are
/// none.
pub proof fn law_events_hold_their_command(input: JsonView, inner: JsonView, command: Seq<char>)
    ensures
        json::get_of(input, "tool_input"@) == Some(inner) && json::get_of(inner, "command"@)
            == Some(JsonView::Text(command)) ==> tool_command(input) == (if command.len() > 0 {
            Some(command)
        } else {
            None
        }),
        json::get_of(input, "tool_input"@) is None ==> tool_command(input) is None,
        json::get_of(input, "tool_input"@) == Some(inner) && json::get_of(inner, "command"@) is None
            ==> tool_command(input) is None,
        json::get_of(input, "command"@) == Some(JsonView::Text(command)) ==> shell_event_command(
            input,
        ) == (if command.len() > 0 {
            Some(command)
        } else {
            None
        }),
        json::get_of(input, "command"@) is None ==> shell_event_command(input) is None,
{
}

/// A shell that is started with `-c` runs the argument behind it; other
/// invocations are passed through.
pub proof fn law_shell_runs_its_argument(args: Seq<Seq<char>>, command: Seq<char>)
    ensures
        command_argument(seq!["-c"@, command] + args) == Some(command),
        args.len() > 0 && args[0] != "-c"@ ==> command_argument(args) is None,
        args.len() < 2 ==> command_argument(args) is None,
{
    let all = seq!["-c"@, command] + args;
    assert(all[0] == "-c"@ && all[1] == command);
}

/// What is told of a rewritten command ends in that command: the user is told the
/// reason first, the agent sees the command between backquotes, and a shell's
/// notice has the reason in brackets.
pub proof fn law_messages_name_the_command(reason: Seq<char>, p: PipelineView)
    ensures
        user_message(reason, p.command).take(reason.len() as int) == reason,
        user_message(reason, p.command).skip(reason.len() as int) == ". Run instead: "@ + p.command,
        agent_message(p.command) == "PRECC suggests the corrected command: "@ + ("`"@ + p.command
            + "`"@),
        notice(p) == ("["@ + pipeline::reason_line(p.reasons) + "]"@) + (" rewrote: "@ + p.command),
{
    reveal_strlit("PRECC suggests the corrected command: `");
    reveal_strlit("PRECC suggests the corrected command: ");
    reveal_strlit("`");
    reveal_strlit("]");
    reveal_strlit("] rewrote: ");
    reveal_strlit(" rewrote: ");
    assert(user_message(reason, p.command).take(reason.len() as int) =~= reason);
    assert(user_message(reason, p.command).skip(reason.len() as int) =~= ". Run instead: "@
        + p.command);
    assert(agent_message(p.command) =~= "PRECC suggests the corrected command: "@ + ("`"@
        + p.command + "`"@));
    assert("] rewrote: "@ =~= "]"@ + " rewrote: "@);
    assert(notice(p) =~= ("["@ + pipeline::reason_line(p.reasons) + "]"@) + (" rewrote: "@
        + p.command));
}

/// An answer that rewrites tells the host to allow the tool's use, with the
/// reason, and puts the command into the tool's input; other members of that
/// input stay. An event without an input gets one with the command alone.
pub proof fn law_rewrite_answer_members(
    j: JsonView,
    input: JsonView,
    command: Seq<char>,
    reason: Seq<char>,
    key: Seq<char>,
)
    requires
        is_rewrite_answer(j, input, command, reason),
    ensures
        ({
            let out = json::get_of(j, "hookSpecificOutput"@);
            let updated = json::get_in(out, "updatedInput"@);
            &&& json::get_in(out, "hookEventName"@) == Some(JsonView::Text("PreToolUse"@))
            &&& json::get_in(out, "permissionDecision"@) == Some(JsonView::Text("allow"@))
            &&& json::get_in(out, "permissionDecisionReason"@) == Some(JsonView::Text(reason))
            &&& (match json::get_of(input, "tool_input"@) {
                Some(JsonView::Object(_)) | None => true,
                _ => false,
            }) ==> {
                &&& json::get_in(updated, "command"@) == Some(JsonView::Text(command))
                &&& key != "command"@ ==> json::get_in(updated, key) == json::get_in(
                    json::get_of(input, "tool_input"@),
                    key,
                )
            }
            &&& json::get_of(input, "tool_input"@) matches Some(t) ==> !(t is Object) ==> updated
                == Some(t)
        }),
{
    reveal_strlit("hookEventName");
    reveal_strlit("permissionDecision");
    reveal_strlit("permissionDecisionReason");
    reveal_strlit("updatedInput");
    let out = json::members_of(j)["hookSpecificOutput"@];
    let updated = json::members_of(out)["updatedInput"@];
    let before = tool_input(input);
    assert("hookEventName"@.len() == 13 && "permissionDecision"@.len() == 18);
    assert("permissionDecisionReason"@.len() == 24 && "updatedInput"@.len() == 12);
    lemma_member(j, "hookSpecificOutput"@);
    lemma_member(out, "hookEventName"@);
    lemma_member(out, "permissionDecision"@);
    lemma_member(out, "permissionDecisionReason"@);
    lemma_member(out, "updatedInput"@);
    lemma_member(updated, "command"@);
    lemma_member(updated, key);
    lemma_member(before, key);
    lemma_no_members();
    lemma_member(JsonView::Object(Seq::empty()), key);
}

/// The answer to a host that can refuse tells it to allow or to deny, and a
/// refusal holds both messages.
pub proof fn law_cursor_answer_members(j: JsonView, reply: CursorReply)
    requires
        is_cursor_answer(j, reply),
    ensures
        reply is Allow ==> json::get_of(j, "permission"@) == Some(JsonView::Text("allow"@)),
        reply matches CursorReply::Deny { user_message: u, agent_message: a } ==> {
            &&& json::get_of(j, "permission"@) == Some(JsonView::Text("deny"@))
            &&& json::get_of(j, "user_message"@) == Some(JsonView::Text(u@))
            &&& json::get_of(j, "agent_message"@) == Some(JsonView::Text(a@))
        },
{
    reveal_strlit("permission");
    reveal_strlit("user_message");
    reveal_strlit("agent_message");
    assert("permission"@.len() == 10 && "user_message"@.len() == 12 && "agent_message"@.len() == 13);
    lemma_member(j, "permission"@);
    lemma_member(j, "user_message"@);
    lemma_member(j, "agent_message"@);
}

/// A host that can refuse a command is told to allow it exactly if it was left as
/// it was; else it is told the corrected command.
pub proof fn law_rewritten_commands_are_refused(p: &Pipeline, r: CursorReply)
    requires
        call_ensures(cursor_reply, (p,), r),
    ensures
        r is Allow <==> p.command@ == p.original@,
        r matches CursorReply::Deny { user_message: u, agent_message: a } ==> {
            &&& u@ == pipeline::reason_line(text::views(p.reasons@)) + (". Run instead: "@
                + p.command@)
            &&& a@ == "PRECC suggests the corrected command: `"@ + (p.command@ + "`"@)
        },
{
    if let CursorReply::Deny { user_message: u, agent_message: a } = r {
        assert(u@ =~= pipeline::reason_line(text::views(p.reasons@)) + (". Run instead: "@
            + p.command@));
        assert(a@ =~= "PRECC suggests the corrected command: `"@ + (p.command@ + "`"@));
    }
}

/// The command of an event that is sent before a tool is used, by the event's text and
/// the result.
pub proof fn law_read_hook_command(
    input: &str,
    r: Option<String>,
    event: JsonView,
    inner: JsonView,
    command: Seq<char>,
)
    requires
        call_ensures(read_hook_command, (input,), r),
    ensures
        json::json_of(input@) is None ==> r is None,
        json::json_of(input@) == Some(event) && json::get_of(event, "tool_input"@) == Some(inner)
            && json::get_of(inner, "command"@) == Some(JsonView::Text(command)) && command.len() > 0
            ==> (r matches Some(c) && c@ == command),
{
    law_events_hold_their_command(event, inner, command);
}

} // verus!
