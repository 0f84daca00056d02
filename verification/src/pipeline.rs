//! Rewrite pipeline shared by every front-end.
//!
//! Front-ends parse their own input, hand the raw command to
//! [`Pipeline::run`], and then translate the command and the reason back into
//! whatever their host expects.
//!
//! Stages, in order:
//! 1. Skill matching: the first match of high confidence is applied.
//! 2. Context resolution: a `cd` is prepended if the working directory is
//!    wrong.
//! 3. Compressor wrapping: recognised commands are wrapped by the configured
//!    compressor.
use vstd::prelude::*;
use vstd::string::*;

use crate::compressors::Backend;
use crate::compressors::Compressor;
use crate::compressors::RtkCompressor;
use crate::confidence;
use crate::context;
use crate::context::Workspace;
use crate::mining;
use crate::mining::PreccView;
use crate::numerals;
use crate::rewrites;
use crate::skills;
use crate::skills::CandidateRow;
use crate::skills::MatchView;
use crate::skills::SkillMatch;
use crate::text;
use crate::text::Class;

verus! {

/// The rank of the confidence from which on a skill is applied by itself.
pub const AUTO_APPLY_THRESHOLD: i64 = confidence::CONF_ACTIVE;

/// The rank of the confidence from which on a skill is considered at all.
pub const SUGGEST_THRESHOLD: i64 = confidence::CONF_CANDIDATE;

/// A command on its way through the stages.
pub struct Pipeline {
    /// The command as it came in.
    pub original: String,
    /// The command as rewritten so far.
    pub command: String,
    /// What the stages that fired say of it.
    pub reasons: Vec<String>,
}

/// The model of a command on its way.
pub struct PipelineView {
    /// The command as it came in.
    pub original: Seq<char>,
    /// The command as rewritten so far.
    pub command: Seq<char>,
    /// The reasons.
    pub reasons: Seq<Seq<char>>,
}

impl View for Pipeline {
    type V = PipelineView;

    open spec fn view(&self) -> PipelineView {
        PipelineView {
            original: self.original@,
            command: self.command@,
            reasons: text::views(self.reasons@),
        }
    }
}

/// A command before the first stage.
pub open spec fn fresh(command: Seq<char>) -> PipelineView {
    PipelineView { original: command, command: command, reasons: Seq::empty() }
}

/// A command rewritten, for a reason.
pub open spec fn rewritten_as(p: PipelineView, command: Seq<char>, reason: Seq<char>) -> PipelineView {
    PipelineView { original: p.original, command: command, reasons: p.reasons.push(reason) }
}

/// The reasons as one line.
pub open spec fn reason_line(reasons: Seq<Seq<char>>) -> Seq<char> {
    if reasons.len() == 0 {
        "PRECC"@
    } else {
        "PRECC: "@ + text::join(reasons, "; "@)
    }
}

// ---------------------------------------------------------------------------
// Skills
// ---------------------------------------------------------------------------
/// The first match from index `i` on whose confidence lets it be applied.
pub open spec fn applied_from(matches: Seq<MatchView>, i: int) -> Option<int>
    decreases matches.len() - i,
{
    if i < 0 || i >= matches.len() {
        None
    } else if matches[i].confidence >= AUTO_APPLY_THRESHOLD {
        Some(i)
    } else {
        applied_from(matches, i + 1)
    }
}

/// The directory that fills the placeholder of a template: the resolved
/// project root, else the working directory, else a dot.
pub open spec fn root_for(command: Seq<char>, ws: Workspace) -> Seq<char> {
    match context::resolution(command, ws).project_root {
        Some(root) => root,
        None => match text::opt_view(ws.cwd) {
            Some(cwd) => cwd,
            None => "."@,
        },
    }
}

/// What is said of an applied skill.
pub open spec fn skill_reason(name: Seq<char>, conf_label: Seq<char>) -> Seq<char> {
    "skill:"@ + name + " (conf="@ + conf_label + ")"@
}

/// The command after the skill stage.
pub open spec fn after_skills(p: PipelineView, matches: Seq<MatchView>, ws: Workspace) -> PipelineView {
    match applied_from(matches, 0) {
        Some(i) => rewritten_as(
            p,
            skills::filled(matches[i].template, p.command, root_for(p.command, ws)),
            skill_reason(matches[i].skill_name, matches[i].conf_label),
        ),
        None => p,
    }
}

// ---------------------------------------------------------------------------
// Context
// ---------------------------------------------------------------------------
/// What is said of a prepended `cd`.
pub open spec fn cd_reason(marker: Option<Seq<char>>, confidence: u32) -> Seq<char> {
    "cd:"@ + (match marker {
        Some(m) => m,
        None => "?"@,
    }) + " (conf="@ + context::tenths(confidence) + ")"@
}

/// The command after the context stage. A command that starts with a `cd` is
/// left as it is.
pub open spec fn after_context(p: PipelineView, ws: Workspace) -> PipelineView {
    let ctx = context::resolution(p.command, ws);
    match context::applied(p.command, ctx) {
        Some(command) => if "cd "@.is_prefix_of(p.command) {
            p
        } else {
            rewritten_as(p, command, cd_reason(ctx.marker, ctx.confidence))
        },
        None => p,
    }
}

// ---------------------------------------------------------------------------
// Compressor
// ---------------------------------------------------------------------------
/// The command after the compressor stage. What follows a leading
/// `cd … && ` is wrapped.
pub open spec fn after_compressor<C: Compressor + ?Sized>(p: PipelineView, compressor: &C) -> PipelineView {
    let k = rewrites::cd_prefix_len(p.command);
    match rewrites::rewritten(p.command.skip(k), compressor) {
        Some(wrapped) => rewritten_as(
            p,
            p.command.take(k) + wrapped,
            "compressor:"@ + compressor.label(),
        ),
        None => p,
    }
}

/// The command after all stages.
pub open spec fn after_all<C: Compressor + ?Sized>(
    p: PipelineView,
    matches: Seq<MatchView>,
    ws: Workspace,
    compressor: &C,
) -> PipelineView {
    after_compressor(after_context(after_skills(p, matches, ws), ws), compressor)
}

/// The matches of the rows that the skill stage considers for a command.
pub open spec fn considered(rows: Seq<CandidateRow>, command: Seq<char>) -> Seq<MatchView> {
    skills::ranked(skills::applicable(rows, command, SUGGEST_THRESHOLD))
}

/// Splits a `cd /path && <rest>` prefix from a command. Yields
/// `("", command)` if the command does not start with such a prefix.
pub fn split_cd_prefix(command: &str) -> (r: (&str, &str))
    ensures
        r.0@ == command@.take(rewrites::cd_prefix_len(command@)),
        r.1@ == command@.skip(rewrites::cd_prefix_len(command@)),
        r.0@ + r.1@ == command@,
{
    rewrites::split_cd_prefix(command)
}

impl Pipeline {
    /// A command before the first stage.
    pub fn new(command: String) -> (r: Self)
        ensures
            r@ == fresh(command@),
    {
        let original = command.clone();
        let r = Pipeline { original: original, command: command, reasons: Vec::new() };
        assert(text::views(r.reasons@) =~= Seq::empty());
        r
    }

    /// True if any stage changed the command.
    pub fn modified(&self) -> (r: bool)
        ensures
            r == (self@.command != self@.original),
    {
        !text::same(self.command.as_str(), self.original.as_str())
    }

    /// The reasons as one line, used in the hosts' decision messages.
    pub fn reason(&self) -> (r: String)
        ensures
            r@ == reason_line(self@.reasons),
    {
        if self.reasons.len() == 0 {
            "PRECC".to_owned()
        } else {
            let mut out = "PRECC: ".to_owned();
            let all = text::joined(&self.reasons, "; ");
            out.append(all.as_str());
            out
        }
    }

    /// Puts a rewritten command in the place of the current one.
    fn rewrite(&mut self, command: String, reason: String)
        ensures
            final(self)@ == rewritten_as(old(self)@, command@, reason@),
    {
        let ghost before = text::views(self.reasons@);
        self.command = command;
        self.reasons.push(reason);
        assert(text::views(self.reasons@) =~= before.push(reason@));
    }

    /// The directory that fills the placeholder of a template.
    pub fn resolve_project_root(&self, ws: &Workspace) -> (r: String)
        ensures
            r@ == root_for(self@.command, *ws),
    {
        let ctx = context::resolve(self.command.as_str(), ws);
        match ctx.project_root {
            Some(root) => root,
            None => match &ws.cwd {
                Some(cwd) => cwd.clone(),
                None => ".".to_owned(),
            },
        }
    }

    /// Applies the first match of high confidence. Yields its index.
    pub fn stage_skills(&mut self, matches: &Vec<SkillMatch>, ws: &Workspace) -> (r: Option<usize>)
        ensures
            final(self)@ == after_skills(old(self)@, skills::match_views(matches@), *ws),
            match r {
                Some(i) => i < matches@.len() && applied_from(skills::match_views(matches@), 0)
                    == Some(i as int),
                None => applied_from(skills::match_views(matches@), 0) is None,
            },
    {
        let ghost all = skills::match_views(matches@);
        let mut i: usize = 0;
        while i < matches.len()
            invariant
                i <= matches@.len(),
                all == skills::match_views(matches@),
                applied_from(all, i as int) == applied_from(all, 0),
                self@ == old(self)@,
            decreases matches@.len() - i,
        {
            let m = &matches[i];
            assert(all[i as int] == m@);
            if m.confidence >= AUTO_APPLY_THRESHOLD {
                let root = self.resolve_project_root(ws);
                let command = skills::apply_template(
                    m.template.as_str(),
                    self.command.as_str(),
                    root.as_str(),
                );
                let mut reason = "skill:".to_owned();
                reason.append(m.skill_name.as_str());
                reason.append(" (conf=");
                reason.append(m.conf_label.as_str());
                reason.append(")");
                self.rewrite(command, reason);
                return Some(i);
            }
            i += 1;
        }
        None
    }

    /// Prepends a `cd` if the command is meant for another directory.
    pub fn stage_context(&mut self, ws: &Workspace)
        ensures
            final(self)@ == after_context(old(self)@, *ws),
    {
        let ctx = context::resolve(self.command.as_str(), ws);
        if let Some(command) = context::apply(self.command.as_str(), &ctx) {
            if !text::starts(self.command.as_str(), "cd ") {
                let mut reason = "cd:".to_owned();
                match &ctx.marker {
                    Some(m) => {
                        reason.append(m.as_str());
                    },
                    None => {
                        reason.append("?");
                    },
                }
                reason.append(" (conf=");
                let conf = context::tenths_text(ctx.confidence);
                reason.append(conf.as_str());
                reason.append(")");
                self.rewrite(command, reason);
            }
        }
    }

    /// Wraps the command by the configured compressor.
    pub fn stage_compressor<C: Compressor + ?Sized>(&mut self, compressor: &C)
        ensures
            final(self)@ == after_compressor(old(self)@, compressor),
    {
        if compressor.is_noop() {
            return ;
        }
        let (prefix, part) = split_cd_prefix(self.command.as_str());
        if let Some(wrapped) = rewrites::rewrite(part, compressor) {
            let mut command = prefix.to_owned();
            command.append(wrapped.as_str());
            let mut reason = "compressor:".to_owned();
            reason.append(compressor.name());
            self.rewrite(command, reason);
        }
    }

    /// Runs all stages, given the rows of the enabled skills, what is known
    /// of the workspace, and the configured compressor. Yields the skill that
    /// was applied, so that its activation can be logged.
    pub fn run<C: Compressor + ?Sized>(
        &mut self,
        rows: &Vec<CandidateRow>,
        ws: &Workspace,
        compressor: &C,
    ) -> (r: Option<SkillMatch>)
        ensures
            final(self)@ == after_all(
                old(self)@,
                considered(rows@, old(self)@.command),
                *ws,
                compressor,
            ),
            match r {
                Some(m) => applied_from(considered(rows@, old(self)@.command), 0) matches Some(i)
                    && m@ == considered(rows@, old(self)@.command)[i],
                None => applied_from(considered(rows@, old(self)@.command), 0) is None,
            },
    {
        let mut matches = skills::find_matches(rows, self.command.as_str(), SUGGEST_THRESHOLD);
        let applied = self.stage_skills(&matches, ws);
        self.stage_context(ws);
        self.stage_compressor(compressor);
        match applied {
            Some(i) => {
                let ghost all = skills::match_views(matches@);
                assert(all[i as int] == matches@[i as int]@);
                Some(matches.remove(i))
            },
            None => None,
        }
    }
}

// ---------------------------------------------------------------------------
// Laws
// ---------------------------------------------------------------------------
/// The pipeline fails open: without skills to apply, without a known working
/// directory or marker files, and without a compressor, a command comes out as
/// it went in.
pub proof fn law_fails_open<C: Compressor + ?Sized>(
    p: PipelineView,
    matches: Seq<MatchView>,
    ws: Workspace,
    compressor: &C,
)
    requires
        applied_from(matches, 0) is None,
        ws.cwd is None || ws.marks@.len() == 0,
        compressor.does_nothing(),
    ensures
        after_all(p, matches, ws, compressor) == p,
{
    if let (Some(cwd), Some(marker)) = (text::opt_view(ws.cwd), context::marker_of(p.command)) {
        context::lemma_nothing_marked(
            ws,
            context::upward(cwd, text::opt_view(ws.home)),
            marker,
        );
    }
}

/// A `cd` is prepended at most once, and never to a command that starts with
/// one.
pub proof fn law_cd_is_prepended_once(p: PipelineView, ws: Workspace)
    ensures
        after_context(after_context(p, ws), ws) == after_context(p, ws),
        "cd "@.is_prefix_of(p.command) ==> after_context(p, ws) == p,
{
    let q = after_context(p, ws);
    if q != p {
        reveal_strlit("cd ");
        assert(q.command.subrange(0, 3) =~= "cd "@);
    }
}

/// A `cd` that was prepended is split off again, unless the directory's name
/// holds the text that joins the two commands.
pub proof fn law_prepended_cd_splits_off(root: Seq<char>, command: Seq<char>)
    requires
        !text::contains("cd "@ + root + " &&"@, " && "@),
    ensures
        rewrites::cd_prefix_len(context::behind_cd(root, command)) == root.len() + 7,
        context::behind_cd(root, command).take(root.len() as int + 7) == "cd "@ + root + " && "@,
        context::behind_cd(root, command).skip(root.len() as int + 7) == command,
{
    let out = context::behind_cd(root, command);
    let sep = " && "@;
    let head = "cd "@ + root + " &&"@;
    let n = root.len() as int + 3;
    reveal_strlit("cd ");
    reveal_strlit(" && ");
    reveal_strlit(" &&");
    assert(out.subrange(0, 3) =~= "cd "@);
    assert(out.subrange(n, n + 4) =~= sep);
    assert forall|j: int| 0 <= j < n implies !text::occurs_at(out, sep, j) by {
        if text::occurs_at(out, sep, j) {
            assert(out.subrange(j, j + 4) =~= head.subrange(j, j + 4));
            assert(text::occurs_at(head, sep, j));
        }
    }
    text::lemma_find_is(out, sep, n);
    assert(out.take(n + 4) =~= "cd "@ + root + sep);
    assert(out.skip(n + 4) =~= command);
}

/// A wrap goes behind a prepended `cd`: the command is wrapped as it would be
/// without it.
pub proof fn law_wrap_goes_behind_cd<C: Compressor + ?Sized>(
    p: PipelineView,
    root: Seq<char>,
    command: Seq<char>,
    compressor: &C,
)
    requires
        p.command == context::behind_cd(root, command),
        !text::contains("cd "@ + root + " &&"@, " && "@),
    ensures
        after_compressor(p, compressor).command == (match rewrites::rewritten(command, compressor) {
            Some(wrapped) => context::behind_cd(root, wrapped),
            None => p.command,
        }),
{
    law_prepended_cd_splits_off(root, command);
}

/// A command is wrapped at most once: what the compressor stage yields, it
/// leaves alone the next time.
pub proof fn law_wrap_happens_once(p: PipelineView, compressor: &RtkCompressor)
    ensures
        after_compressor(after_compressor(p, compressor), compressor) == after_compressor(
            p,
            compressor,
        ),
{
    let k = rewrites::cd_prefix_len(p.command);
    let part = p.command.skip(k);
    rewrites::lemma_cd_prefix_len(p.command);
    if let Some(wrapped) = rewrites::rewritten(part, compressor) {
        let out = p.command.take(k) + wrapped;
        rewrites::law_rewrite_wraps_once(part, compressor);
        if k > 0 {
            rewrites::lemma_cd_prefix_kept(p.command, wrapped);
            assert(out.skip(k) =~= wrapped);
        } else {
            reveal_strlit("cd ");
            reveal_strlit("rtk ");
            assert(part =~= p.command);
            assert(out =~= wrapped);
            assert(out[0] == 'r');
            if "cd "@.is_prefix_of(out) {
                assert(out.subrange(0, 3)[0] == 'c');
            }
            assert(out.skip(0) =~= wrapped);
        }
    }
}

/// No stage changes the record of the command that came in, and none rewrites
/// the command without giving a reason.
pub proof fn law_reasons_come_with_rewrites<C: Compressor + ?Sized>(
    p: PipelineView,
    matches: Seq<MatchView>,
    ws: Workspace,
    compressor: &C,
)
    ensures
        after_all(p, matches, ws, compressor).original == p.original,
        after_all(p, matches, ws, compressor).reasons.len() >= p.reasons.len(),
        after_all(p, matches, ws, compressor).reasons.len() == p.reasons.len() ==> after_all(
            p,
            matches,
            ws,
            compressor,
        ) == p,
{
}

/// A skill whose confidence lies below the threshold is not applied.
pub proof fn law_only_confident_skills_are_applied(matches: Seq<MatchView>, i: int)
    requires
        0 <= i,
    ensures
        match applied_from(matches, i) {
            Some(n) => i <= n < matches.len() && matches[n].confidence >= AUTO_APPLY_THRESHOLD
                && forall|j: int|
                i <= j < n ==> (#[trigger] matches[j]).confidence < AUTO_APPLY_THRESHOLD,
            None => forall|j: int|
                i <= j < matches.len() ==> (#[trigger] matches[j]).confidence
                    < AUTO_APPLY_THRESHOLD,
        },
    decreases matches.len() - i,
{
    if i < matches.len() && matches[i].confidence < AUTO_APPLY_THRESHOLD {
        law_only_confident_skills_are_applied(matches, i + 1);
    }
}

/// A word that stands for itself in a reason: not empty, no space at its
/// ends, and none of the characters that end a name or a token.
pub open spec fn is_token(s: Seq<char>) -> bool {
    &&& s.len() > 0
    &&& !text::is_space(s[0])
    &&& !text::is_space(s.last())
    &&& !s.contains(' ')
    &&& !s.contains('(')
    &&& !s.contains(';')
}

/// A reason that can be told apart from its neighbours.
pub open spec fn is_separable(reason: Seq<char>) -> bool {
    &&& reason.len() > 0
    &&& !text::is_space(reason[0])
    &&& !text::is_space(reason.last())
    &&& !reason.contains(';')
}

/// A reason with a space before it.
spec fn padded(reason: Seq<char>) -> Seq<char> {
    seq![' '] + reason
}

/// Reasons with a space before each.
spec fn all_padded(reasons: Seq<Seq<char>>) -> Seq<Seq<char>> {
    Seq::new(reasons.len(), |i: int| padded(reasons[i]))
}

/// Splitting undoes joining.
proof fn lemma_split_joined(reasons: Seq<Seq<char>>)
    requires
        reasons.len() > 0,
        forall|i: int| 0 <= i < reasons.len() ==> is_separable(#[trigger] reasons[i]),
    ensures
        text::split(padded(text::join(reasons, "; "@)), ';') == all_padded(reasons),
    decreases reasons.len(),
{
    let sep = "; "@;
    let k = Class::Not(';');
    let first = reasons[0];
    let s = padded(text::join(reasons, sep));
    let n = 1 + first.len() as int;
    reveal_strlit("; ");
    assert(is_separable(first));
    assert(padded(first).len() == n);
    assert forall|i: int| 0 <= i < n implies text::in_class(k, #[trigger] padded(first)[i]) by {
        if i > 0 {
            assert(padded(first)[i] == first[i - 1]);
            assert(first.contains(first[i - 1]));
        }
    }
    if reasons.len() == 1 {
        assert(s =~= padded(first));
        text::lemma_run_unique(s, k, n);
        assert(text::split(s, ';') =~= all_padded(reasons));
    } else {
        let rest = reasons.skip(1);
        text::lemma_join_front(reasons, sep);
        assert forall|i: int| 0 <= i < rest.len() implies is_separable(#[trigger] rest[i]) by {
            assert(rest[i] == reasons[i + 1]);
        }
        lemma_split_joined(rest);
        assert(s =~= padded(first) + (sep + text::join(rest, sep)));
        assert forall|i: int| 0 <= i < n implies text::in_class(k, #[trigger] s[i]) by {
            assert(s[i] == padded(first)[i]);
        }
        assert(s[n] == ';');
        text::lemma_run_unique(s, k, n);
        assert(s.take(n) =~= padded(first));
        assert(s.skip(n + 1) =~= padded(text::join(rest, sep)));
        assert(all_padded(reasons) =~= seq![padded(first)] + all_padded(rest));
    }
}

/// A space before a token means nothing.
proof fn lemma_padded_token(reason: Seq<char>)
    requires
        is_separable(reason),
    ensures
        mining::token_event(padded(reason)) == mining::token_event(reason),
{
    let s = padded(reason);
    assert(s[0] == ' ');
    assert(s[1] == reason[0]);
    text::lemma_run_unique(s, Class::Space, 1);
    assert(s.skip(1) =~= reason);
    text::lemma_trim_same(reason);
}

/// Spaces before tokens mean nothing.
proof fn lemma_padded_tokens(reasons: Seq<Seq<char>>)
    requires
        forall|i: int| 0 <= i < reasons.len() ==> is_separable(#[trigger] reasons[i]),
    ensures
        mining::tokens_events(all_padded(reasons)) == mining::tokens_events(reasons),
    decreases reasons.len(),
{
    if reasons.len() > 0 {
        let init = reasons.drop_last();
        assert forall|i: int| 0 <= i < init.len() implies is_separable(#[trigger] init[i]) by {
            assert(init[i] == reasons[i]);
        }
        lemma_padded_tokens(init);
        assert(all_padded(reasons).drop_last() =~= all_padded(init));
        assert(is_separable(reasons[reasons.len() - 1]));
        lemma_padded_token(reasons.last());
    }
}

/// Reading a reason line back yields what each of the reasons stands for, in
/// order.
pub proof fn law_reason_line_reads_back(reasons: Seq<Seq<char>>)
    requires
        forall|i: int| 0 <= i < reasons.len() ==> is_separable(#[trigger] reasons[i]),
    ensures
        mining::reason_events(reason_line(reasons)) == mining::tokens_events(reasons),
{
    reveal_strlit("PRECC:");
    reveal_strlit("PRECC: ");
    reveal_strlit("PRECC");
    let line = reason_line(reasons);
    if reasons.len() > 0 {
        assert(line.subrange(0, 6) =~= "PRECC:"@);
        assert(line.skip(6) =~= padded(text::join(reasons, "; "@)));
        lemma_split_joined(reasons);
        lemma_padded_tokens(reasons);
    } else {
        assert(line.len() < "PRECC:"@.len());
        assert(mining::tokens_events(reasons) =~= Seq::empty());
    }
}

/// The value behind `skill:` is read as the name of a skill.
proof fn lemma_skill_token(value: Seq<char>)
    requires
        value.len() > 0,
        value.last() == ')',
        mining::name_in(value).len() > 0,
    ensures
        mining::token_event("skill:"@ + value) == Some(
            PreccView::SkillActivation(mining::name_in(value)),
        ),
        ("skill:"@ + value)[0] == 's',
        ("skill:"@ + value).last() == ')',
{
    let t = "skill:"@ + value;
    reveal_strlit("skill:");
    assert(t[0] == 's');
    assert(t.last() == ')');
    text::lemma_trim_same(t);
    assert(t.subrange(0, 6) =~= "skill:"@);
    assert(t.skip(6) =~= value);
}

/// The reason of an applied skill is read back as its activation.
pub proof fn law_skill_reason_reads_back(name: Seq<char>, conf_label: Seq<char>)
    requires
        is_token(name),
    ensures
        mining::token_event(skill_reason(name, conf_label)) == Some(
            PreccView::SkillActivation(name),
        ),
        !conf_label.contains(';') ==> is_separable(skill_reason(name, conf_label)),
{
    let t = skill_reason(name, conf_label);
    let behind = " (conf="@ + conf_label + ")"@;
    let value = name + behind;
    assert(!conf_label.contains(';') ==> !t.contains(';')) by {
        if !conf_label.contains(';') {
            reveal_strlit("skill:");
            lemma_reason_separable("skill:"@, name, conf_label);
        }
    }
    lemma_reason_grouped("skill:"@, name, " (conf="@, conf_label, ")"@);
    assert(behind.len() > 0 && behind[0] == ' ' && behind.last() == ')') by {
        reveal_strlit(" (conf=");
        reveal_strlit(")");
    }
    assert(value.last() == ')');
    lemma_name_in(name, behind);
    lemma_skill_token(value);
}

/// Texts without a semicolon, put together, hold none.
proof fn lemma_apart(a: Seq<char>, b: Seq<char>)
    ensures
        !a.contains(';') && !b.contains(';') ==> !(a + b).contains(';'),
{
    if (a + b).contains(';') {
        let i = (a + b).index_of(';');
        if i < a.len() {
            assert(a[i] == ';');
        } else {
            assert(b[i - a.len()] == ';');
        }
    }
}

/// A name ends before a space.
proof fn lemma_name_in(name: Seq<char>, rest: Seq<char>)
    requires
        is_token(name),
        rest.len() > 0,
        rest[0] == ' ',
    ensures
        mining::name_in(name + rest) == name,
{
    let k = Class::NotEither(' ', '(');
    let value = name + rest;
    assert forall|i: int| 0 <= i < name.len() implies text::in_class(k, #[trigger] value[i]) by {
        assert(name.contains(name[i]));
    }
    assert(value[name.len() as int] == ' ');
    text::lemma_run_unique(value, k, name.len() as int);
    assert(value.take(name.len() as int) =~= name);
    text::lemma_trim_same(name);
}

/// The digits of a number hold no semicolon.
proof fn lemma_dec_separable(n: nat)
    ensures
        !numerals::dec(n).contains(';'),
{
    let d = numerals::dec(n);
    numerals::lemma_dec_reads_back(n);
    if d.contains(';') {
        assert(text::is_digit(d[d.index_of(';')]));
    }
}

/// A confidence in tenths holds no semicolon.
proof fn lemma_tenths_separable(confidence: u32)
    ensures
        !context::tenths(confidence).contains(';'),
{
    let (a, b) = (
        numerals::dec((confidence / 10) as nat),
        numerals::dec((confidence % 10) as nat),
    );
    reveal_strlit(".");
    lemma_dec_separable((confidence / 10) as nat);
    lemma_dec_separable((confidence % 10) as nat);
    lemma_apart(a, "."@);
    lemma_apart(a + "."@, b);
}

/// A token with a confidence behind it, after its kind, holds no semicolon.
proof fn lemma_reason_separable(kind: Seq<char>, name: Seq<char>, conf: Seq<char>)
    requires
        !kind.contains(';'),
        !name.contains(';'),
        !conf.contains(';'),
    ensures
        !(kind + name + " (conf="@ + conf + ")"@).contains(';'),
{
    reveal_strlit(" (conf=");
    reveal_strlit(")");
    lemma_apart(kind, name);
    lemma_apart(kind + name, " (conf="@);
    lemma_apart(kind + name + " (conf="@, conf);
    lemma_apart(kind + name + " (conf="@ + conf, ")"@);
}

/// The parts of a reason, grouped as they are read.
proof fn lemma_reason_grouped(
    kind: Seq<char>,
    name: Seq<char>,
    mid: Seq<char>,
    conf: Seq<char>,
    end: Seq<char>,
)
    ensures
        kind + name + mid + conf + end == kind + (name + (mid + conf + end)),
{
    assert(kind + name + mid + conf + end =~= kind + (name + (mid + conf + end)));
}

/// The value behind `cd:` is read as a marker.
proof fn lemma_cd_token(value: Seq<char>)
    requires
        value.len() > 0,
        value.last() == ')',
    ensures
        mining::token_event("cd:"@ + value) == Some(PreccView::CdPrepend(mining::name_in(value))),
        ("cd:"@ + value)[0] == 'c',
        ("cd:"@ + value).last() == ')',
{
    let t = "cd:"@ + value;
    reveal_strlit("skill:");
    reveal_strlit("cd:");
    assert(t[0] == 'c');
    assert(t.last() == ')');
    text::lemma_trim_same(t);
    if "skill:"@.is_prefix_of(t) {
        assert(t.subrange(0, 6)[0] == 's');
    }
    assert(t.subrange(0, 3) =~= "cd:"@);
    assert(t.skip(3) =~= value);
}

/// The reason of a prepended `cd` is read back as such, with its marker.
pub proof fn law_cd_reason_reads_back(marker: Seq<char>, confidence: u32)
    requires
        is_token(marker),
    ensures
        mining::token_event(cd_reason(Some(marker), confidence)) == Some(
            PreccView::CdPrepend(marker),
        ),
        is_separable(cd_reason(Some(marker), confidence)),
{
    let t = cd_reason(Some(marker), confidence);
    let conf = context::tenths(confidence);
    let behind = " (conf="@ + conf + ")"@;
    let value = marker + behind;
    assert(!t.contains(';')) by {
        reveal_strlit("cd:");
        lemma_tenths_separable(confidence);
        lemma_reason_separable("cd:"@, marker, conf);
    }
    lemma_reason_grouped("cd:"@, marker, " (conf="@, conf, ")"@);
    assert(behind.len() > 0 && behind[0] == ' ' && behind.last() == ')') by {
        reveal_strlit(" (conf=");
        reveal_strlit(")");
    }
    assert(value.last() == ')');
    lemma_cd_token(value);
    lemma_name_in(marker, behind);
}

/// The marker files have names that are tokens.
proof fn lemma_markers_are_tokens(tool: Seq<char>, i: int)
    requires
        0 <= i,
    ensures
        context::marker_from(tool, i) matches Some(m) ==> is_token(m),
    decreases context::TOOL_COUNT - i,
{
    if i < context::TOOL_COUNT {
        reveal_strlit("Cargo.toml");
        reveal_strlit("package.json");
        reveal_strlit("Makefile");
        reveal_strlit("CMakeLists.txt");
        reveal_strlit("go.mod");
        reveal_strlit("setup.py");
        reveal_strlit("pyproject.toml");
        reveal_strlit("build.gradle");
        reveal_strlit("pom.xml");
        assert(is_token(context::TOOL_MARKERS[i].1@));
        lemma_markers_are_tokens(tool, i + 1);
    }
}

/// The reason of a wrap, which names the compressor, is read back as a wrap.
proof fn lemma_wrap_reason(compressor: &Backend)
    ensures
        mining::token_event("compressor:"@ + compressor.label()) == Some(PreccView::CompressorWrap),
        is_separable("compressor:"@ + compressor.label()),
{
    let t = "compressor:"@ + compressor.label();
    reveal_strlit("compressor:");
    reveal_strlit("rtk");
    reveal_strlit("none");
    reveal_strlit("skill:");
    reveal_strlit("cd:");
    assert(t[0] == 'c' && t[1] == 'o');
    text::lemma_trim_same(t);
    if "skill:"@.is_prefix_of(t) {
        assert(t.subrange(0, 6)[0] == 's');
    }
    if "cd:"@.is_prefix_of(t) {
        assert(t.subrange(0, 3)[1] == 'd');
    }
    assert(t.subrange(0, 11) =~= "compressor:"@);
}

/// The command that the skill and context stages of a run leave.
pub open spec fn before_compressor(
    command: Seq<char>,
    matches: Seq<MatchView>,
    ws: Workspace,
) -> PipelineView {
    after_context(after_skills(fresh(command), matches, ws), ws)
}

/// What a run does: the skill that it applies, the marker of the `cd` that it
/// prepends, and the wrap of the command that is left.
pub open spec fn told(
    command: Seq<char>,
    matches: Seq<MatchView>,
    ws: Workspace,
    compressor: &Backend,
) -> Seq<PreccView> {
    let p = after_skills(fresh(command), matches, ws);
    let ctx = context::resolution(p.command, ws);
    let q = before_compressor(command, matches, ws);
    (match applied_from(matches, 0) {
        Some(i) => seq![PreccView::SkillActivation(matches[i].skill_name)],
        None => Seq::empty(),
    }) + (if ctx.project_root is Some && !"cd "@.is_prefix_of(p.command) {
        seq![PreccView::CdPrepend(ctx.marker->0)]
    } else {
        Seq::empty()
    }) + (if rewrites::rewritten(
        q.command.skip(rewrites::cd_prefix_len(q.command)),
        compressor,
    ) is Some {
        seq![PreccView::CompressorWrap]
    } else {
        Seq::empty()
    })
}

/// The reason line of a run is read back as all that the run did. The name of
/// the applied skill must be a token, and its confidence must not break the
/// line.
pub proof fn law_run_reads_back(
    command: Seq<char>,
    matches: Seq<MatchView>,
    ws: Workspace,
    compressor: &Backend,
)
    requires
        applied_from(matches, 0) matches Some(i) ==> is_token(matches[i].skill_name)
            && !matches[i].conf_label.contains(';'),
    ensures
        mining::reason_events(
            reason_line(after_all(fresh(command), matches, ws, compressor).reasons),
        ) == told(command, matches, ws, compressor),
{
    let none = Seq::<Seq<char>>::empty();
    let p = after_skills(fresh(command), matches, ws);
    let q = after_context(p, ws);
    let r = after_compressor(q, compressor);
    let first = match applied_from(matches, 0) {
        Some(i) => seq![PreccView::SkillActivation(matches[i].skill_name)],
        None => Seq::empty(),
    };
    assert(mining::tokens_events(none) =~= Seq::empty());
    if let Some(i) = applied_from(matches, 0) {
        law_skill_reason_reads_back(matches[i].skill_name, matches[i].conf_label);
        assert(p.reasons.drop_last() =~= none);
        assert(mining::tokens_events(p.reasons) =~= first);
    }
    assert(mining::tokens_events(p.reasons) == first);
    let ctx = context::resolution(p.command, ws);
    let second = if ctx.project_root is Some && !"cd "@.is_prefix_of(p.command) {
        seq![PreccView::CdPrepend(ctx.marker->0)]
    } else {
        Seq::empty()
    };
    if q != p {
        lemma_markers_are_tokens(text::first_word_of(p.command), 0);
        law_cd_reason_reads_back(ctx.marker->0, ctx.confidence);
        assert(q.reasons.drop_last() =~= p.reasons);
        assert(mining::tokens_events(q.reasons) =~= first.push(
            PreccView::CdPrepend(ctx.marker->0),
        ));
    }
    assert(mining::tokens_events(q.reasons) =~= first + second);
    if rewrites::rewritten(q.command.skip(rewrites::cd_prefix_len(q.command)), compressor) is Some {
        lemma_wrap_reason(compressor);
        assert(r.reasons.drop_last() =~= q.reasons);
        assert(r.reasons.last() == "compressor:"@ + compressor.label());
        assert(mining::tokens_events(r.reasons) =~= (first + second).push(
            PreccView::CompressorWrap,
        ));
    }
    assert(mining::tokens_events(r.reasons) =~= told(command, matches, ws, compressor));
    law_reason_line_reads_back(r.reasons);
}

/// The first match with a confidence of at least 0.7 is applied: its template is
/// filled with the command and the project's root, and it is named, with its
/// confidence, as the reason.
pub proof fn law_first_confident_skill_is_applied(
    p: PipelineView,
    matches: Seq<MatchView>,
    i: int,
    ws: Workspace,
)
    requires
        0 <= i < matches.len(),
        matches[i].confidence >= confidence::rank(0x3fe6_6666_6666_6666),
        forall|j: int|
            0 <= j < i ==> (#[trigger] matches[j]).confidence < confidence::rank(
                0x3fe6_6666_6666_6666,
            ),
    ensures
        ({
            let out = after_skills(p, matches, ws);
            &&& out.original == p.original
            &&& out.reasons == p.reasons.push(
                "skill:"@ + (matches[i].skill_name + (" (conf="@ + (matches[i].conf_label + ")"@))),
            )
            &&& context::resolution(p.command, ws).project_root matches Some(root) ==> out.command
                == skills::filled(matches[i].template, p.command, root)
            &&& context::resolution(p.command, ws).project_root is None ==> {
                &&& text::opt_view(ws.cwd) matches Some(cwd) ==> out.command == skills::filled(
                    matches[i].template,
                    p.command,
                    cwd,
                )
                &&& ws.cwd is None ==> out.command == skills::filled(
                    matches[i].template,
                    p.command,
                    "."@,
                )
            }
        }),
{
    lemma_applied_from(matches, 0, i);
    let m = matches[i];
    assert(skill_reason(m.skill_name, m.conf_label) =~= "skill:"@ + (m.skill_name + (" (conf="@ + (
    m.conf_label + ")"@))));
}

/// The first match from an index on that is confident enough.
proof fn lemma_applied_from(matches: Seq<MatchView>, from: int, i: int)
    requires
        0 <= from <= i < matches.len(),
        matches[i].confidence >= AUTO_APPLY_THRESHOLD,
        forall|j: int| from <= j < i ==> (#[trigger] matches[j]).confidence < AUTO_APPLY_THRESHOLD,
    ensures
        applied_from(matches, from) == Some(i),
    decreases i - from,
{
    if from < i {
        assert(matches[from].confidence < AUTO_APPLY_THRESHOLD);
        lemma_applied_from(matches, from + 1, i);
    }
}

/// Without a match of at least 0.7 the skill stage leaves everything as it is.
pub proof fn law_weak_skills_change_nothing(
    p: PipelineView,
    matches: Seq<MatchView>,
    ws: Workspace,
)
    requires
        forall|j: int|
            0 <= j < matches.len() ==> (#[trigger] matches[j]).confidence < confidence::rank(
                0x3fe6_6666_6666_6666,
            ),
    ensures
        after_skills(p, matches, ws) == p,
{
    law_only_confident_skills_are_applied(matches, 0);
}

/// The skill stage looks at the matches with a confidence of at least 0.3, from
/// the highest down.
pub proof fn law_matches_from_a_candidate_up(
    rows: Seq<CandidateRow>,
    command: Seq<char>,
    i: int,
    j: int,
)
    ensures
        considered(rows, command) == skills::ranked(
            skills::applicable(rows, command, 0x3fd3_3333_3333_3333i64),
        ),
        0 <= i < j < considered(rows, command).len() ==> considered(rows, command)[i].confidence
            >= considered(rows, command)[j].confidence,
{
    skills::law_ranked_is_stable_sort(skills::applicable(rows, command, SUGGEST_THRESHOLD));
}

/// A command that is meant for another directory gets a `cd` to that directory
/// before it, for a reason that names the marker; a command that starts with a
/// `cd`, and one for which no other directory was found, stays as it is.
pub proof fn law_command_goes_to_its_project(p: PipelineView, ws: Workspace)
    ensures
        context::resolution(p.command, ws).project_root matches Some(root)
            ==> !"cd "@.is_prefix_of(p.command) ==> {
            let out = after_context(p, ws);
            let found = context::resolution(p.command, ws);
            &&& out.command == "cd "@ + (root + (" && "@ + p.command))
            &&& out.original == p.original
            &&& found.marker matches Some(marker) ==> out.reasons == p.reasons.push(
                "cd:"@ + (marker + (" (conf="@ + (context::tenths(found.confidence) + ")"@))),
            )
        },
        context::resolution(p.command, ws).project_root is None || "cd "@.is_prefix_of(p.command)
            ==> after_context(p, ws) == p,
{
    let found = context::resolution(p.command, ws);
    if let Some(root) = found.project_root {
        assert(context::behind_cd(root, p.command) =~= "cd "@ + (root + (" && "@ + p.command)));
        if let Some(marker) = found.marker {
            assert(cd_reason(found.marker, found.confidence) =~= "cd:"@ + (marker + (" (conf="@ + (
            context::tenths(found.confidence) + ")"@))));
        }
    }
}

/// A command that is wrapped is so for the reason that names the compressor; what
/// is not wrapped stays as it is.
pub proof fn law_wrapping_is_told(p: PipelineView, wrapped: Seq<char>, compressor: &RtkCompressor)
    ensures
        !"cd "@.is_prefix_of(p.command) && rewrites::rewritten(p.command, compressor) == Some(
            wrapped,
        ) ==> {
            let out = after_compressor(p, compressor);
            &&& out.command == wrapped
            &&& out.original == p.original
            &&& out.reasons == p.reasons.push("compressor:rtk"@)
        },
        !"cd "@.is_prefix_of(p.command) && rewrites::rewritten(p.command, compressor) is None
            ==> after_compressor(p, compressor) == p,
{
    reveal_strlit("compressor:");
    reveal_strlit("rtk");
    reveal_strlit("compressor:rtk");
    assert(p.command.skip(0) =~= p.command);
    assert(p.command.take(0) + wrapped =~= wrapped);
    assert("compressor:"@ + "rtk"@ =~= "compressor:rtk"@);
}

/// The stages work together: a known command that is meant for another directory
/// runs there, wrapped, and both reasons are told in this order.
pub proof fn law_known_command_runs_in_its_project_wrapped(
    i: int,
    tail: Seq<char>,
    root: Seq<char>,
    marker: Seq<char>,
    matches: Seq<MatchView>,
    ws: Workspace,
    compressor: &RtkCompressor,
)
    requires
        0 <= i < 64,
        tail.len() == 0 || tail[0] == ' ',
        matches.len() == 0,
        context::resolution(rewrites::RULES[i].0@ + tail, ws).project_root == Some(root),
        context::resolution(rewrites::RULES[i].0@ + tail, ws).marker == Some(marker),
        !text::contains("cd "@ + root + " &&"@, " && "@),
        !text::contains(rewrites::RULES[i].0@ + tail, "<<"@),
        !text::contains(rewrites::RULES[i].0@ + tail, "/rtk "@),
        compressor.available,
    ensures
        ({
            let command = rewrites::RULES[i].0@ + tail;
            let out = after_all(fresh(command), matches, ws, compressor);
            &&& out.original == command
            &&& out.command == "cd "@ + root + " && "@ + ("rtk "@ + rewrites::RULES[i].1@ + tail)
            &&& out.reasons.len() == 2
            &&& out.reasons[0].subrange(0, 3 + marker.len() as int) == "cd:"@ + marker
            &&& out.reasons[1] == "compressor:rtk"@
        }),
{
    reveal_strlit("cd ");
    reveal_strlit("cd:");
    reveal_strlit("compressor:");
    reveal_strlit("rtk");
    reveal_strlit("compressor:rtk");
    let command = rewrites::RULES[i].0@ + tail;
    let p = fresh(command);
    rewrites::law_known_rule_wraps(i, tail, compressor);
    rewrites::law_each_rule_is_reached(i, tail);
    law_command_goes_to_its_project(p, ws);
    let q = after_context(p, ws);
    assert(q.command =~= context::behind_cd(root, command));
    law_wrap_goes_behind_cd(q, root, command, compressor);
    law_prepended_cd_splits_off(root, command);
    assert("compressor:"@ + "rtk"@ =~= "compressor:rtk"@);
    let found = context::resolution(command, ws);
    let reason = cd_reason(found.marker, found.confidence);
    assert(reason.subrange(0, 3 + marker.len() as int) =~= "cd:"@ + marker);
}

/// The reasons stand in one line behind the mark, in their order, with a
/// semicolon between them.
pub proof fn law_reasons_stand_in_one_line(reasons: Seq<Seq<char>>, reason: Seq<char>)
    ensures
        reason_line(Seq::<Seq<char>>::empty()) == "PRECC"@,
        reason_line(seq![reason]) == "PRECC: "@ + reason,
        reasons.len() > 0 ==> reason_line(reasons.push(reason)) == reason_line(reasons) + "; "@
            + reason,
{
    let all = reasons.push(reason);
    assert(all.drop_last() =~= reasons);
    assert(all.last() == reason);
    if reasons.len() > 0 {
        assert(reason_line(all) =~= reason_line(reasons) + "; "@ + reason);
    }
}

/// A command counts as rewritten exactly if it is not what it was.
pub proof fn law_modified(p: &Pipeline, r: bool)
    requires
        call_ensures(Pipeline::modified, (p,), r),
    ensures
        r <==> p.command@ != p.original@,
{
}

/// A leading `cd DIR && ` is split off, and only such a one.
pub proof fn law_split_cd_prefix(
    command: &str,
    r: (&str, &str),
    dir: Seq<char>,
    rest: Seq<char>,
)
    requires
        call_ensures(split_cd_prefix, (command,), r),
    ensures
        !"cd "@.is_prefix_of(command@) ==> r.0@.len() == 0 && r.1@ == command@,
        command@ == "cd "@ + dir + " && "@ + rest && !text::contains("cd "@ + dir + " &&"@, " && "@)
            ==> r.0@ == "cd "@ + dir + " && "@ && r.1@ == rest,
        r.0@ + r.1@ == command@,
{
    if command@ == "cd "@ + dir + " && "@ + rest && !text::contains(
        "cd "@ + dir + " &&"@,
        " && "@,
    ) {
        law_prepended_cd_splits_off(dir, rest);
    }
    if !"cd "@.is_prefix_of(command@) {
        assert(command@.skip(0) =~= command@);
    }
}

/// The stages follow each other: what a skill made of a command goes on as a command
/// without skills would, and what the context made of it is then wrapped as it
/// stands.
pub proof fn law_stages_follow_each_other<C: Compressor + ?Sized>(
    p: PipelineView,
    matches: Seq<MatchView>,
    ws: Workspace,
    compressor: &C,
)
    ensures
        after_all(p, matches, ws, compressor) == after_all(
            after_skills(p, matches, ws),
            Seq::empty(),
            ws,
            compressor,
        ),
        matches.len() == 0 && "cd "@.is_prefix_of(p.command) ==> after_all(
            p,
            matches,
            ws,
            compressor,
        ) == after_compressor(p, compressor),
        matches.len() == 0 ==> after_all(p, matches, ws, compressor) == after_compressor(
            after_context(p, ws),
            compressor,
        ),
        compressor.does_nothing() ==> after_all(p, matches, ws, compressor) == after_context(
            after_skills(p, matches, ws),
            ws,
        ),
{
    law_only_confident_skills_are_applied(Seq::<MatchView>::empty(), 0);
}

/// A command that joins no two commands has no leading `cd` to split off.
pub proof fn law_lone_cd_is_no_prefix(command: Seq<char>)
    requires
        !text::contains(command, " && "@),
    ensures
        rewrites::cd_prefix_len(command) == 0,
{
    text::law_find_yields_the_first(command, " && "@);
}

} // verus!
