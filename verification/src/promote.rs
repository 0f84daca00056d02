//! Pattern-to-skill promotion.
//!
//! Failure-fix pairs that occur often become candidate skills; the skills
//! that were made this way rise in confidence, or are retired, by how they
//! fare.
use vstd::prelude::*;
use vstd::string::*;

use crate::confidence;
use crate::mining;
use crate::numerals;
use crate::patterns;
use crate::skills;
use crate::text;
use crate::text::Class;

verus! {

/// Minimum occurrences before a pattern is promoted to a skill.
pub const DEFAULT_MIN_OCCURRENCES: i64 = 3;

/// The priority of a mined skill.
pub const MINED_PRIORITY: i64 = 200;

/// The occurrences that a pattern needs: those asked for, or the default.
pub fn occurrence_threshold(min_occurrences: Option<i64>) -> (r: i64)
    ensures
        r == (match min_occurrences {
            Some(n) => n,
            None => DEFAULT_MIN_OCCURRENCES,
        }),
{
    match min_occurrences {
        Some(n) => n,
        None => DEFAULT_MIN_OCCURRENCES,
    }
}

// ---------------------------------------------------------------------------
// Skills from patterns
// ---------------------------------------------------------------------------
/// The first two words of a command, or as many as it has.
pub open spec fn two_words(command: Seq<char>) -> Seq<Seq<char>> {
    let w = text::words(command);
    if w.len() > 2 {
        w.take(2)
    } else {
        w
    }
}

/// The first two words of a command.
fn leading_words(command: &str) -> (r: Vec<String>)
    ensures
        text::views(r@) == two_words(command@),
        r@.len() <= 2,
{
    let all = text::split_words(command);
    let ghost w = text::views(all@);
    let mut out: Vec<String> = Vec::new();
    if all.len() > 0 {
        out.push(all[0].clone());
        assert(w[0] == all@[0]@);
    }
    if all.len() > 1 {
        out.push(all[1].clone());
        assert(w[1] == all@[1]@);
    }
    assert(text::views(out@) =~= two_words(command@));
    out
}

/// A character that a skill's name may hold, or the hyphen in its place.
pub open spec fn name_char(c: char) -> char {
    if text::is_alphanumeric(c) || c == '-' {
        c
    } else {
        '-'
    }
}

/// `s` with a hyphen for each character that a skill's name may not hold.
pub open spec fn name_chars(s: Seq<char>) -> Seq<char> {
    Seq::new(s.len(), |i: int| name_char(s[i]))
}

/// The name of the skill for a failure and its fix: the first two words of
/// both commands and the last four hexadecimal digits of their hash.
pub open spec fn mined_name(failure: Seq<char>, fix: Seq<char>, hash: u64) -> Seq<char> {
    name_chars(
        "mined-"@ + text::join(two_words(failure), "-"@) + "-to-"@ + text::join(
            two_words(fix),
            "-"@,
        ) + "-"@ + numerals::hex(hash as nat, 4),
    )
}

/// The name of a mined skill, given the hash of both commands.
pub fn skill_name_for(failure_cmd: &str, fix_cmd: &str, hash: u64) -> (r: String)
    ensures
        r@ == mined_name(failure_cmd@, fix_cmd@, hash),
{
    let fail_part = text::joined(&leading_words(failure_cmd), "-");
    let fix_part = text::joined(&leading_words(fix_cmd), "-");
    let mut raw = "mined-".to_owned();
    raw.append(fail_part.as_str());
    raw.append("-to-");
    raw.append(fix_part.as_str());
    raw.append("-");
    numerals::push_hex(&mut raw, hash, 4);
    let v = text::chars_of(raw.as_str());
    let mut out = String::new();
    let mut i: usize = 0;
    while i < v.len()
        invariant
            i <= v@.len(),
            out@ == name_chars(v@.take(i as int)),
        decreases v@.len() - i,
    {
        let c: char = v[i];
        if c.is_alphanumeric() || c == '-' {
            out.push(c);
        } else {
            out.push('-');
        }
        i += 1;
        assert(out@ =~= name_chars(v@.take(i as int)));
    }
    assert(v@.take(i as int) =~= v@);
    out
}

/// Generates a unique skill name from a failure and its fix. The hash keeps
/// patterns with the same leading words apart.
pub fn generate_skill_name(failure_cmd: &str, fix_cmd: &str) -> (r: String)
    ensures
        r@ == skill_name_of(failure_cmd@, fix_cmd@),
{
    skill_name_for(failure_cmd, fix_cmd, mining::hash_pair(failure_cmd, fix_cmd))
}

/// The regular expression for commands that start as a failure did.
pub open spec fn trigger_regex(failure: Seq<char>) -> Seq<char> {
    let w = two_words(failure);
    if w.len() == 0 {
        "^$"@
    } else if w.len() == 1 {
        "^"@ + patterns::escaped(w[0]) + r"\s*"@
    } else {
        "^"@ + patterns::escaped(w[0]) + r"\s+"@ + patterns::escaped(w[1])
    }
}

/// Generates a regex trigger pattern from a failure command.
pub fn generate_trigger_regex(failure_cmd: &str) -> (r: String)
    ensures
        r@ == trigger_regex(failure_cmd@),
{
    let words = leading_words(failure_cmd);
    let ghost w = text::views(words@);
    if words.len() == 0 {
        return "^$".to_owned();
    }
    assert(w[0] == words@[0]@);
    let mut out = "^".to_owned();
    let first = regex::escape(words[0].as_str());
    out.append(first.as_str());
    if words.len() == 1 {
        out.append(r"\s*");
    } else {
        assert(w[1] == words@[1]@);
        let second = regex::escape(words[1].as_str());
        out.append(r"\s+");
        out.append(second.as_str());
    }
    out
}

/// The flag that a fix adds to the command that failed, if it runs the same
/// tool and only adds something that starts with a hyphen.
pub open spec fn added_flag(failure: Seq<char>, fix: Seq<char>) -> Option<Seq<char>> {
    if text::first_word_of(failure) == text::first_word_of(fix) {
        match text::after_prefix(fix, failure) {
            Some(rest) => if text::trim(rest).len() > 0 && text::trim(rest)[0] == '-' {
                Some(text::trim(rest))
            } else {
                None
            },
            None => None,
        }
    } else {
        None
    }
}

/// The kind of action and the template that turn the failure into the fix.
pub open spec fn action_for(failure: Seq<char>, fix: Seq<char>) -> (Seq<char>, Seq<char>) {
    if "cd "@.is_prefix_of(fix) && text::contains(fix, "&&"@) {
        ("prepend_cd"@, "cd {{project_root}} && {{original_command}}"@)
    } else {
        match added_flag(failure, fix) {
            Some(flag) => ("add_flag"@, "{{original_command}} "@ + flag),
            None => ("rewrite_command"@, fix),
        }
    }
}

/// The flag that a fix adds to the command that failed.
fn flag_added(failure_cmd: &str, fix_cmd: &str) -> (r: Option<String>)
    ensures
        text::opt_view(r) == added_flag(failure_cmd@, fix_cmd@),
{
    if mining::commands_similar(failure_cmd, fix_cmd) {
        if let Some(rest) = text::strip(fix_cmd, failure_cmd) {
            let extra = text::trimmed(rest);
            let v = text::chars_of(extra);
            if v.len() > 0 && v[0] == '-' {
                return Some(extra.to_owned());
            }
        }
    }
    None
}

/// Generates the action type and the template from a failure and its fix.
pub fn generate_action(failure_cmd: &str, fix_cmd: &str) -> (r: (String, String))
    ensures
        (r.0@, r.1@) == action_for(failure_cmd@, fix_cmd@),
{
    if text::starts(fix_cmd, "cd ") && text::has_text(fix_cmd, "&&") {
        return (
            "prepend_cd".to_owned(),
            "cd {{project_root}} && {{original_command}}".to_owned(),
        );
    }
    match flag_added(failure_cmd, fix_cmd) {
        Some(flag) => {
            let mut template = "{{original_command}} ".to_owned();
            template.append(flag.as_str());
            ("add_flag".to_owned(), template)
        },
        None => ("rewrite_command".to_owned(), fix_cmd.to_owned()),
    }
}

// ---------------------------------------------------------------------------
// Promotion
// ---------------------------------------------------------------------------
/// A candidate pattern for promotion.
#[derive(Debug)]
pub struct Candidate {
    /// The command that failed.
    pub failure_command: String,
    /// The command that fixed it.
    pub fix_command: String,
    /// How often the pair was seen.
    pub occurrences: i64,
}

/// The model of a candidate.
pub struct CandidateView {
    /// The command that failed.
    pub failure_command: Seq<char>,
    /// The command that fixed it.
    pub fix_command: Seq<char>,
    /// How often the pair was seen.
    pub occurrences: i64,
}

impl View for Candidate {
    type V = CandidateView;

    open spec fn view(&self) -> CandidateView {
        CandidateView {
            failure_command: self.failure_command@,
            fix_command: self.fix_command@,
            occurrences: self.occurrences,
        }
    }
}

/// The models of a sequence of candidates.
pub open spec fn candidate_views(v: Seq<Candidate>) -> Seq<CandidateView> {
    Seq::new(v.len(), |i: int| v[i]@)
}

/// The pairs that were seen often enough, in the order in which they came.
pub open spec fn frequent(pairs: Seq<CandidateView>, min_occurrences: i64) -> Seq<CandidateView>
    decreases pairs.len(),
{
    if pairs.len() == 0 {
        Seq::empty()
    } else if pairs.last().occurrences >= min_occurrences {
        frequent(pairs.drop_last(), min_occurrences).push(pairs.last())
    } else {
        frequent(pairs.drop_last(), min_occurrences)
    }
}

/// How many candidates at the front of `s` were seen at least `n` times.
pub open spec fn front_len(s: Seq<CandidateView>, n: i64) -> nat
    decreases s.len(),
{
    if s.len() > 0 && s[0].occurrences >= n {
        1 + front_len(s.skip(1), n)
    } else {
        0
    }
}

/// The candidates from the most frequent down, equally frequent ones in the
/// order of `s`.
pub open spec fn by_frequency(s: Seq<CandidateView>) -> Seq<CandidateView>
    decreases s.len(),
{
    if s.len() == 0 {
        Seq::empty()
    } else {
        let t = by_frequency(s.drop_last());
        t.insert(front_len(t, s.last().occurrences) as int, s.last())
    }
}

/// The front of a list ends where a rarer candidate follows.
proof fn lemma_front_len(s: Seq<CandidateView>, n: i64)
    ensures
        front_len(s, n) <= s.len(),
        forall|i: int| 0 <= i < front_len(s, n) ==> s[i].occurrences >= n,
        front_len(s, n) < s.len() ==> s[front_len(s, n) as int].occurrences < n,
    decreases s.len(),
{
    if s.len() > 0 && s[0].occurrences >= n {
        let t = s.skip(1);
        lemma_front_len(t, n);
        assert forall|i: int| 0 <= i < front_len(s, n) implies s[i].occurrences >= n by {
            if i > 0 {
                assert(t[i - 1] == s[i]);
            }
        }
        if front_len(s, n) < s.len() {
            assert(t[front_len(t, n) as int] == s[front_len(s, n) as int]);
        }
    }
}

/// Inserts a candidate behind those that are no rarer.
fn insert_by_frequency(out: &mut Vec<Candidate>, c: Candidate)
    ensures
        candidate_views(final(out)@) == candidate_views(old(out)@).insert(
            front_len(candidate_views(old(out)@), c.occurrences) as int,
            c@,
        ),
{
    let ghost before = candidate_views(out@);
    let mut i: usize = 0;
    while i < out.len()
        invariant_except_break
            i <= out@.len(),
            before == candidate_views(out@),
            out@ == old(out)@,
            forall|j: int| 0 <= j < i ==> before[j].occurrences >= c.occurrences,
        ensures
            i <= out@.len(),
            before == candidate_views(out@),
            out@ == old(out)@,
            forall|j: int| 0 <= j < i ==> before[j].occurrences >= c.occurrences,
            i < out@.len() ==> before[i as int].occurrences < c.occurrences,
        decreases out@.len() - i,
    {
        assert(before[i as int] == out@[i as int]@);
        if out[i].occurrences < c.occurrences {
            break;
        }
        i += 1;
    }
    proof {
        lemma_front_len(before, c.occurrences);
        let r = front_len(before, c.occurrences) as int;
        if r < i {
            assert(before[r].occurrences >= c.occurrences);
        }
        if i < r {
            assert(before[i as int].occurrences >= c.occurrences);
        }
    }
    let ghost cv = c@;
    out.insert(i, c);
    assert(candidate_views(out@) =~= before.insert(i as int, cv));
}

/// Finds the failure-fix pairs that meet the occurrence threshold, the most
/// frequent first.
pub fn find_candidates(pairs: &Vec<Candidate>, min_occurrences: i64) -> (r: Vec<Candidate>)
    ensures
        candidate_views(r@) == by_frequency(frequent(candidate_views(pairs@), min_occurrences)),
{
    let ghost all = candidate_views(pairs@);
    let mut out: Vec<Candidate> = Vec::new();
    let mut i: usize = 0;
    proof {
        assert(all.take(0) =~= Seq::empty());
        assert(candidate_views(out@) =~= by_frequency(frequent(all.take(0), min_occurrences)));
    }
    while i < pairs.len()
        invariant
            i <= pairs@.len(),
            all == candidate_views(pairs@),
            candidate_views(out@) == by_frequency(frequent(all.take(i as int), min_occurrences)),
        decreases pairs@.len() - i,
    {
        let pair = &pairs[i];
        let ghost before = frequent(all.take(i as int), min_occurrences);
        proof {
            let t = all.take(i + 1);
            assert(t.drop_last() =~= all.take(i as int));
            assert(t.last() == pair@);
            assert(before.push(pair@).drop_last() =~= before);
        }
        if pair.occurrences >= min_occurrences {
            insert_by_frequency(
                &mut out,
                Candidate {
                    failure_command: pair.failure_command.clone(),
                    fix_command: pair.fix_command.clone(),
                    occurrences: pair.occurrences,
                },
            );
        }
        i += 1;
    }
    assert(all.take(i as int) =~= all);
    out
}

/// Filtering keeps the frequent pairs and no others.
proof fn lemma_frequent(pairs: Seq<CandidateView>, min_occurrences: i64)
    ensures
        forall|c: CandidateView| #[trigger]
            frequent(pairs, min_occurrences).contains(c) <==> pairs.contains(c) && c.occurrences
                >= min_occurrences,
    decreases pairs.len(),
{
    if pairs.len() > 0 {
        let t = pairs.drop_last();
        lemma_frequent(t, min_occurrences);
        let (f, g) = (frequent(pairs, min_occurrences), frequent(t, min_occurrences));
        assert(pairs =~= t.push(pairs.last()));
        assert forall|c: CandidateView| #[trigger] f.contains(c) <==> pairs.contains(c)
            && c.occurrences >= min_occurrences by {
            lemma_push_contains(t, pairs.last(), c);
            lemma_push_contains(g, pairs.last(), c);
            assert(g.contains(c) <==> t.contains(c) && c.occurrences >= min_occurrences);
        }
    }
}

/// What a list holds after something was put at its end.
proof fn lemma_push_contains(s: Seq<CandidateView>, x: CandidateView, c: CandidateView)
    ensures
        s.push(x).contains(c) <==> s.contains(c) || c == x,
{
    lemma_insert_contains(s, s.len() as int, x, c);
    assert(s.insert(s.len() as int, x) =~= s.push(x));
}

/// What a list holds after something was put into it.
proof fn lemma_insert_contains(s: Seq<CandidateView>, k: int, x: CandidateView, c: CandidateView)
    requires
        0 <= k <= s.len(),
    ensures
        s.insert(k, x).contains(c) <==> s.contains(c) || c == x,
{
    let t = s.insert(k, x);
    if s.contains(c) {
        let i = s.index_of(c);
        assert(t[if i < k { i } else { i + 1 }] == c);
    }
    if c == x {
        assert(t[k] == c);
    }
    if t.contains(c) {
        let i = t.index_of(c);
        if i != k {
            assert(s[if i < k { i } else { i - 1 }] == c);
        }
    }
}

/// Sorting keeps the candidates and puts the most frequent first.
proof fn lemma_by_frequency(s: Seq<CandidateView>)
    ensures
        by_frequency(s).len() == s.len(),
        forall|c: CandidateView| #[trigger] by_frequency(s).contains(c) <==> s.contains(c),
        forall|i: int, j: int|
            0 <= i <= j < s.len() ==> by_frequency(s)[i].occurrences
                >= by_frequency(s)[j].occurrences,
    decreases s.len(),
{
    if s.len() > 0 {
        let t = s.drop_last();
        let x = s.last();
        lemma_by_frequency(t);
        let q = by_frequency(t);
        let k = front_len(q, x.occurrences) as int;
        lemma_front_len(q, x.occurrences);
        let out = q.insert(k, x);
        assert(s =~= t.push(x));
        assert forall|c: CandidateView| #[trigger] by_frequency(s).contains(c) <==> s.contains(
            c,
        ) by {
            lemma_insert_contains(q, k, x, c);
            lemma_push_contains(t, x, c);
            assert(q.contains(c) <==> t.contains(c));
        }
        assert forall|i: int, j: int| 0 <= i <= j < out.len() implies out[i].occurrences
            >= out[j].occurrences by {
            if i < k && j == k {
                assert(out[i] == q[i]);
            } else if i == k && j > k {
                assert(out[j] == q[j - 1]);
                assert(q[k].occurrences >= q[j - 1].occurrences);
            } else if i != k && j != k {
                let i0 = if i < k { i } else { i - 1 };
                let j0 = if j < k { j } else { j - 1 };
                assert(out[i] == q[i0] && out[j] == q[j0]);
            }
        }
    }
}

/// A pair is a candidate if and only if it was seen often enough, and more
/// frequent candidates come first.
pub proof fn law_candidates_are_frequent(pairs: Seq<CandidateView>, min_occurrences: i64)
    ensures
        forall|c: CandidateView| #[trigger]
            by_frequency(frequent(pairs, min_occurrences)).contains(c) <==> pairs.contains(c)
                && c.occurrences >= min_occurrences,
        forall|i: int, j: int|
            0 <= i <= j < by_frequency(frequent(pairs, min_occurrences)).len() ==> by_frequency(
                frequent(pairs, min_occurrences),
            )[i].occurrences >= by_frequency(frequent(pairs, min_occurrences))[j].occurrences,
{
    let f = frequent(pairs, min_occurrences);
    lemma_frequent(pairs, min_occurrences);
    lemma_by_frequency(f);
    assert forall|c: CandidateView| #[trigger] by_frequency(f).contains(c) <==> pairs.contains(c)
        && c.occurrences >= min_occurrences by {
        assert(f.contains(c) <==> pairs.contains(c) && c.occurrences >= min_occurrences);
    }
}

/// A skill to be created, disabled by its low confidence until it proves
/// itself.
pub struct NewSkill {
    /// The name.
    pub name: String,
    /// The description.
    pub description: String,
    /// The regular expression that triggers the skill.
    pub trigger: String,
    /// The kind of action.
    pub action_type: String,
    /// The action's template.
    pub template: String,
}

/// The description of a mined skill.
pub open spec fn mined_description(failure: Seq<char>, fix: Seq<char>, occurrences: int) -> Seq<
    char,
> {
    "Auto-mined: "@ + failure + " -> "@ + fix + " ("@ + numerals::dec_int(occurrences) + "x)"@
}

/// A candidate yields a skill: its fix is a command.
pub open spec fn yields_skill(fix: Seq<char>) -> bool {
    !"edit:"@.is_prefix_of(fix)
}

/// The name of the skill that a failure and its fix yield.
pub open spec fn skill_name_of(failure: Seq<char>, fix: Seq<char>) -> Seq<char> {
    mined_name(failure, fix, mining::hash_of(failure, fix))
}

/// The skill that a candidate is promoted to. A fix that edits a file is no
/// rewrite of a command: such a candidate is passed over.
pub fn promote_one(candidate: &Candidate) -> (r: Option<NewSkill>)
    ensures
        r is Some <==> yields_skill(candidate.fix_command@),
        r matches Some(skill) ==> {
            let failure = candidate.failure_command@;
            let fix = candidate.fix_command@;
            &&& skill.name@ == skill_name_of(failure, fix)
            &&& skill.description@ == mined_description(
                failure,
                fix,
                candidate.occurrences as int,
            )
            &&& skill.trigger@ == trigger_regex(failure)
            &&& (skill.action_type@, skill.template@) == action_for(failure, fix)
        },
{
    let failure = candidate.failure_command.as_str();
    let fix = candidate.fix_command.as_str();
    if text::starts(fix, "edit:") {
        return None;
    }
    let mut description = "Auto-mined: ".to_owned();
    description.append(failure);
    description.append(" -> ");
    description.append(fix);
    description.append(" (");
    let times = numerals::dec_int_text(candidate.occurrences);
    description.append(times.as_str());
    description.append("x)");
    let (action_type, template) = generate_action(failure, fix);
    Some(
        NewSkill {
            name: generate_skill_name(failure, fix),
            description: description,
            trigger: generate_trigger_regex(failure),
            action_type: action_type,
            template: template,
        },
    )
}

/// What became of a candidate.
#[derive(Clone, Copy, PartialEq, Eq, Structural, Debug)]
pub enum PromoteResult {
    /// A skill was created.
    Created,
    /// A skill of that name exists.
    AlreadyExists,
    /// It was passed over, or the skill could not be stored.
    Skipped,
}

/// What becomes of a candidate, given whether it yields a skill, whether a
/// skill of that name exists, and whether storing it succeeded.
pub open spec fn promotion(yields: bool, exists: bool, stored: bool) -> PromoteResult {
    if !yields {
        PromoteResult::Skipped
    } else if exists {
        PromoteResult::AlreadyExists
    } else if stored {
        PromoteResult::Created
    } else {
        PromoteResult::Skipped
    }
}

/// What became of a candidate.
pub fn promotion_result(yields: bool, exists: bool, stored: bool) -> (r: PromoteResult)
    ensures
        r == promotion(yields, exists, stored),
{
    if !yields {
        PromoteResult::Skipped
    } else if exists {
        PromoteResult::AlreadyExists
    } else if stored {
        PromoteResult::Created
    } else {
        PromoteResult::Skipped
    }
}

/// Result of a promotion run.
#[derive(Debug)]
pub struct PromotionSummary {
    /// Candidates that were looked at.
    pub candidates_found: usize,
    /// Skills that were created.
    pub skills_created: usize,
    /// Candidates whose skill existed.
    pub already_exists: usize,
    /// Candidates that were passed over.
    pub skipped: usize,
}

/// How often a result occurs.
pub open spec fn count_of(results: Seq<PromoteResult>, what: PromoteResult) -> nat
    decreases results.len(),
{
    if results.len() == 0 {
        0
    } else {
        count_of(results.drop_last(), what) + (if results.last() == what {
            1nat
        } else {
            0
        })
    }
}

/// Summarises a promotion run from what became of each candidate.
pub fn promote_patterns(results: &Vec<PromoteResult>) -> (r: PromotionSummary)
    ensures
        r.candidates_found == results@.len(),
        r.skills_created == count_of(results@, PromoteResult::Created),
        r.already_exists == count_of(results@, PromoteResult::AlreadyExists),
        r.skipped == count_of(results@, PromoteResult::Skipped),
        r.skills_created + r.already_exists + r.skipped == r.candidates_found,
{
    let mut created: usize = 0;
    let mut existing: usize = 0;
    let mut skipped: usize = 0;
    let mut i: usize = 0;
    assert(results@.take(0) =~= Seq::empty());
    while i < results.len()
        invariant
            i <= results@.len(),
            created == count_of(results@.take(i as int), PromoteResult::Created),
            existing == count_of(results@.take(i as int), PromoteResult::AlreadyExists),
            skipped == count_of(results@.take(i as int), PromoteResult::Skipped),
            created + existing + skipped == i,
        decreases results@.len() - i,
    {
        proof {
            let t = results@.take(i + 1);
            assert(t.drop_last() =~= results@.take(i as int));
            assert(t.last() == results@[i as int]);
        }
        match results[i] {
            PromoteResult::Created => {
                created += 1;
            },
            PromoteResult::AlreadyExists => {
                existing += 1;
            },
            PromoteResult::Skipped => {
                skipped += 1;
            },
        }
        i += 1;
    }
    assert(results@.take(i as int) =~= results@);
    PromotionSummary {
        candidates_found: results.len(),
        skills_created: created,
        already_exists: existing,
        skipped: skipped,
    }
}

/// The names of the skills after a promotion run in which every new skill
/// could be stored.
pub open spec fn names_after(names: Set<Seq<char>>, candidates: Seq<CandidateView>) -> Set<
    Seq<char>,
>
    decreases candidates.len(),
{
    if candidates.len() == 0 {
        names
    } else {
        let c = candidates.last();
        let before = names_after(names, candidates.drop_last());
        if yields_skill(c.fix_command) {
            before.insert(skill_name_of(c.failure_command, c.fix_command))
        } else {
            before
        }
    }
}

/// What becomes of the candidate at index `i` of such a run.
pub open spec fn result_in_run(
    names: Set<Seq<char>>,
    candidates: Seq<CandidateView>,
    i: int,
) -> PromoteResult {
    let c = candidates[i];
    promotion(
        yields_skill(c.fix_command),
        names_after(names, candidates.take(i)).contains(
            skill_name_of(c.failure_command, c.fix_command),
        ),
        true,
    )
}

/// A run keeps the names that there were.
proof fn lemma_names_kept(names: Set<Seq<char>>, candidates: Seq<CandidateView>, name: Seq<char>)
    requires
        names.contains(name),
    ensures
        names_after(names, candidates).contains(name),
    decreases candidates.len(),
{
    if candidates.len() > 0 {
        lemma_names_kept(names, candidates.drop_last(), name);
    }
}

/// A run adds the names of the skills that its candidates yield.
proof fn lemma_names_added(names: Set<Seq<char>>, candidates: Seq<CandidateView>, i: int)
    requires
        0 <= i < candidates.len(),
        yields_skill(candidates[i].fix_command),
    ensures
        names_after(names, candidates).contains(
            skill_name_of(candidates[i].failure_command, candidates[i].fix_command),
        ),
    decreases candidates.len(),
{
    let t = candidates.drop_last();
    if i < t.len() {
        assert(t[i] == candidates[i]);
        lemma_names_added(names, t, i);
    }
}

/// Promotion is idempotent: a second run over the same candidates creates no
/// skill. What yielded a skill the first time is found to exist.
pub proof fn law_promotion_is_idempotent(
    names: Set<Seq<char>>,
    candidates: Seq<CandidateView>,
    i: int,
)
    requires
        0 <= i < candidates.len(),
    ensures
        result_in_run(names_after(names, candidates), candidates, i) == (if yields_skill(
            candidates[i].fix_command,
        ) {
            PromoteResult::AlreadyExists
        } else {
            PromoteResult::Skipped
        }),
{
    let c = candidates[i];
    if yields_skill(c.fix_command) {
        lemma_names_added(names, candidates, i);
        lemma_names_kept(
            names_after(names, candidates),
            candidates.take(i),
            skill_name_of(c.failure_command, c.fix_command),
        );
    }
}

/// A skill is created for the first candidate that yields its name, and for
/// no later one.
pub proof fn law_skills_are_created_once(
    names: Set<Seq<char>>,
    candidates: Seq<CandidateView>,
    i: int,
    j: int,
)
    requires
        0 <= i < j < candidates.len(),
        skill_name_of(candidates[i].failure_command, candidates[i].fix_command) == skill_name_of(
            candidates[j].failure_command,
            candidates[j].fix_command,
        ),
        result_in_run(names, candidates, i) == PromoteResult::Created,
    ensures
        result_in_run(names, candidates, j) != PromoteResult::Created,
{
    let t = candidates.take(j);
    assert(t[i] == candidates[i]);
    lemma_names_added(names, t, i);
}

/// Each character of a mined skill's name is a letter, a number or a hyphen,
/// so that the name stands in one line, and in one token of a reason.
pub proof fn law_mined_name_is_one_token(failure: Seq<char>, fix: Seq<char>, hash: u64)
    ensures
        forall|i: int|
            0 <= i < mined_name(failure, fix, hash).len() ==> text::in_class(
                Class::Word,
                #[trigger] mined_name(failure, fix, hash)[i],
            ),
        !mined_name(failure, fix, hash).contains('\n'),
        !mined_name(failure, fix, hash).contains('"'),
        !mined_name(failure, fix, hash).contains(';'),
        mining::name_in(mined_name(failure, fix, hash)) == mined_name(failure, fix, hash),
{
    let name = mined_name(failure, fix, hash);
    let raw = "mined-"@ + text::join(two_words(failure), "-"@) + "-to-"@ + text::join(
        two_words(fix),
        "-"@,
    ) + "-"@ + numerals::hex(hash as nat, 4);
    let h = numerals::hex(hash as nat, 4);
    let d = ((hash as nat) % 16) as int;
    reveal_strlit("mined-");
    assert forall|i: int| 0 <= i < name.len() implies text::in_class(
        Class::Word,
        #[trigger] name[i],
    ) && name[i] != ' ' && name[i] != '(' by {
        assert(name[i] == name_char(raw[i]));
    }
    assert(h.len() > 0 && h.last() == numerals::hex_char(d));
    assert(raw.last() == h.last());
    assert(raw[0] == 'm');
    assert(name[0] == 'm');
    assert(name.last() == numerals::hex_char(d));
    text::lemma_run_unique(name, Class::NotEither(' ', '('), name.len() as int);
    assert(name.take(name.len() as int) =~= name);
    text::lemma_trim_same(name);
}

// ---------------------------------------------------------------------------
// Lifecycle
// ---------------------------------------------------------------------------
/// Minimum activations before a candidate becomes active.
pub const ACTIVATIONS_FOR_ACTIVE: i64 = 5;

/// Minimum activations before an active skill becomes trusted.
pub const ACTIVATIONS_FOR_TRUSTED: i64 = 20;

/// Minimum activations before a skill can be disabled, which avoids
/// disabling on one failure of one.
pub const MIN_ACTIVATIONS_FOR_DISABLE: i64 = 5;

/// A skill as the lifecycle sees it.
pub struct SkillState {
    /// The skill's id.
    pub id: i64,
    /// Where the skill comes from.
    pub source: String,
    /// Whether the skill is enabled.
    pub enabled: bool,
    /// The rank of its action's confidence.
    pub confidence: i64,
    /// How often it was activated.
    pub activated: i64,
    /// How often it failed.
    pub failed: i64,
}

/// What a lifecycle tick does to a skill.
#[derive(Clone, Copy, PartialEq, Eq, Structural, Debug)]
pub enum Transition {
    /// Nothing.
    Keep,
    /// It becomes active.
    ToActive,
    /// It becomes trusted.
    ToTrusted,
    /// It is disabled.
    Disable,
}

/// The lifecycle takes care of a skill: it was mined and is enabled.
pub open spec fn is_tended(s: SkillState) -> bool {
    s.source@ == "mined"@ && s.enabled
}

/// More than 20 % of the activations failed, and there were enough of them.
pub open spec fn fails_often(s: SkillState) -> bool {
    s.activated >= MIN_ACTIVATIONS_FOR_DISABLE && 5 * s.failed > s.activated
}

/// Less than 5 % of the activations failed.
pub open spec fn fails_rarely(s: SkillState) -> bool {
    20 * s.failed < s.activated
}

/// What a tick does to a skill: retire it, raise it, or leave it. Built-in
/// and disabled skills are left.
pub open spec fn transition(s: SkillState) -> Transition {
    if !is_tended(s) {
        Transition::Keep
    } else if fails_often(s) {
        Transition::Disable
    } else if s.activated >= ACTIVATIONS_FOR_TRUSTED && fails_rarely(s)
        && confidence::CONF_ACTIVE <= s.confidence < confidence::CONF_TRUSTED {
        Transition::ToTrusted
    } else if s.activated >= ACTIVATIONS_FOR_ACTIVE && s.confidence < confidence::CONF_ACTIVE {
        Transition::ToActive
    } else {
        Transition::Keep
    }
}

/// What a tick does to a skill.
pub fn lifecycle_step(s: &SkillState) -> (r: Transition)
    ensures
        r == transition(*s),
{
    if !s.enabled || !text::same(s.source.as_str(), "mined") {
        return Transition::Keep;
    }
    let activated: i128 = s.activated as i128;
    let failed: i128 = s.failed as i128;
    if s.activated >= MIN_ACTIVATIONS_FOR_DISABLE && 5 * failed > activated {
        Transition::Disable
    } else if s.activated >= ACTIVATIONS_FOR_TRUSTED && 20 * failed < activated && s.confidence
        >= confidence::CONF_ACTIVE && s.confidence < confidence::CONF_TRUSTED {
        Transition::ToTrusted
    } else if s.activated >= ACTIVATIONS_FOR_ACTIVE && s.confidence < confidence::CONF_ACTIVE {
        Transition::ToActive
    } else {
        Transition::Keep
    }
}

/// The confidence that a transition sets.
pub open spec fn target_confidence(t: Transition) -> Option<i64> {
    match t {
        Transition::ToActive => Some(confidence::CONF_ACTIVE),
        Transition::ToTrusted => Some(confidence::CONF_TRUSTED),
        _ => None,
    }
}

/// The rank of the confidence that a transition sets, if it sets one.
pub fn new_confidence(t: Transition) -> (r: Option<i64>)
    ensures
        r == target_confidence(t),
{
    match t {
        Transition::ToActive => Some(confidence::CONF_ACTIVE),
        Transition::ToTrusted => Some(confidence::CONF_TRUSTED),
        _ => None,
    }
}

/// Result of a lifecycle tick.
#[derive(Debug)]
pub struct LifecycleSummary {
    /// Skills promoted from candidate to active.
    pub promoted_to_active: usize,
    /// Skills promoted from active to trusted.
    pub promoted_to_trusted: usize,
    /// Skills disabled for their failure rate.
    pub auto_disabled: usize,
}

/// The transitions of a list of skills.
pub open spec fn transitions(states: Seq<SkillState>) -> Seq<Transition> {
    Seq::new(states.len(), |i: int| transition(states[i]))
}

/// How often a transition occurs.
pub open spec fn times(ts: Seq<Transition>, what: Transition) -> nat
    decreases ts.len(),
{
    if ts.len() == 0 {
        0
    } else {
        times(ts.drop_last(), what) + (if ts.last() == what {
            1nat
        } else {
            0
        })
    }
}

/// Evaluates skills against their activation stats: for each, what is to be
/// done to it, and a summary of it all. Only enabled mined skills are
/// affected; built-in skills are never demoted.
pub fn tick_skill_lifecycle(states: &Vec<SkillState>) -> (r: (Vec<Transition>, LifecycleSummary))
    ensures
        r.0@ == transitions(states@),
        r.1.promoted_to_active == times(r.0@, Transition::ToActive),
        r.1.promoted_to_trusted == times(r.0@, Transition::ToTrusted),
        r.1.auto_disabled == times(r.0@, Transition::Disable),
{
    let mut out: Vec<Transition> = Vec::new();
    let mut active: usize = 0;
    let mut trusted: usize = 0;
    let mut disabled: usize = 0;
    let mut i: usize = 0;
    while i < states.len()
        invariant
            i <= states@.len(),
            out@ == transitions(states@.take(i as int)),
            active <= i,
            trusted <= i,
            disabled <= i,
            active == times(out@, Transition::ToActive),
            trusted == times(out@, Transition::ToTrusted),
            disabled == times(out@, Transition::Disable),
        decreases states@.len() - i,
    {
        let t = lifecycle_step(&states[i]);
        let ghost before = out@;
        out.push(t);
        proof {
            assert(out@.drop_last() =~= before);
            assert(out@.last() == t);
            assert(out@ =~= transitions(states@.take(i + 1)));
        }
        match t {
            Transition::ToActive => {
                active += 1;
            },
            Transition::ToTrusted => {
                trusted += 1;
            },
            Transition::Disable => {
                disabled += 1;
            },
            Transition::Keep => {},
        }
        i += 1;
    }
    assert(states@.take(i as int) =~= states@);
    (
        out,
        LifecycleSummary {
            promoted_to_active: active,
            promoted_to_trusted: trusted,
            auto_disabled: disabled,
        },
    )
}

/// A skill after a tick that did not disable it.
pub open spec fn after_tick(s: SkillState) -> SkillState {
    match target_confidence(transition(s)) {
        Some(c) => SkillState {
            id: s.id,
            source: s.source,
            enabled: s.enabled,
            confidence: c,
            activated: s.activated,
            failed: s.failed,
        },
        None => s,
    }
}

/// A tick never lowers a confidence, and never passes over a level.
pub proof fn law_confidence_only_rises(s: SkillState)
    ensures
        target_confidence(transition(s)) matches Some(c) ==> s.confidence < c,
        transition(s) == Transition::ToTrusted ==> s.confidence >= confidence::CONF_ACTIVE,
{
}

/// Only enabled mined skills are ever touched.
pub proof fn law_builtin_skills_are_left_alone(s: SkillState)
    requires
        s.source@ != "mined"@ || !s.enabled,
    ensures
        transition(s) == Transition::Keep,
        after_tick(s) == s,
{
}

/// A mined skill that fails too often is disabled, whatever its confidence,
/// and is not raised.
pub proof fn law_failing_skills_are_retired(s: SkillState)
    requires
        is_tended(s),
        s.activated >= MIN_ACTIVATIONS_FOR_DISABLE,
        5 * s.failed > s.activated,
    ensures
        transition(s) == Transition::Disable,
        target_confidence(transition(s)) is None,
{
}

/// A skill with fewer than five activations is left alone.
pub proof fn law_young_skills_are_left_alone(s: SkillState)
    requires
        s.activated < ACTIVATIONS_FOR_ACTIVE,
    ensures
        transition(s) == Transition::Keep,
{
}

/// With unchanged stats a skill settles after two ticks.
pub proof fn law_lifecycle_settles(s: SkillState)
    requires
        transition(s) != Transition::Disable,
    ensures
        transition(after_tick(after_tick(s))) == Transition::Keep,
{
}

/// A skill is disabled exactly if it was mined, is enabled, was activated at
/// least five times, and more than 20 % of its activations failed.
pub proof fn law_disabled_exactly_if_failing(s: SkillState)
    ensures
        transition(s) == Transition::Disable <==> s.source@ == "mined"@ && s.enabled && s.activated
            >= 5 && 100 * s.failed > 20 * s.activated,
{
}

/// A skill becomes trusted exactly if it was mined, is enabled, was activated
/// at least twenty times with less than 5 % failures, and has a confidence from
/// 0.7 to below 0.9.
pub proof fn law_trusted_exactly_if_proven(s: SkillState)
    ensures
        transition(s) == Transition::ToTrusted <==> s.source@ == "mined"@ && s.enabled
            && s.activated >= 20 && 100 * s.failed < 5 * s.activated && confidence::rank(
            0x3fe6_6666_6666_6666,
        ) <= s.confidence < confidence::rank(0x3fec_cccc_cccc_cccd),
{
}

/// A skill becomes active exactly if it was mined, is enabled, was activated at
/// least five times with at most 20 % failures, and has a confidence below 0.7.
pub proof fn law_active_exactly_if_used(s: SkillState)
    ensures
        transition(s) == Transition::ToActive <==> s.source@ == "mined"@ && s.enabled && s.activated
            >= 5 && 100 * s.failed <= 20 * s.activated && s.confidence < confidence::rank(
            0x3fe6_6666_6666_6666,
        ),
{
}

/// What becomes active gets the confidence 0.7, what becomes trusted 0.9; else
/// the confidence stays, and nothing but the confidence ever changes.
pub proof fn law_levels_have_their_confidence(s: SkillState)
    ensures
        target_confidence(Transition::ToActive) == Some(0x3fe6_6666_6666_6666i64),
        target_confidence(Transition::ToTrusted) == Some(0x3fec_cccc_cccc_cccdi64),
        target_confidence(Transition::Keep) is None,
        target_confidence(Transition::Disable) is None,
        after_tick(s).confidence == (match target_confidence(transition(s)) {
            Some(c) => c,
            None => s.confidence,
        }),
        after_tick(s).id == s.id,
        after_tick(s).source == s.source,
        after_tick(s).enabled == s.enabled,
        after_tick(s).activated == s.activated,
        after_tick(s).failed == s.failed,
{
}

/// The counts of a summary: each skill counts once, under what became of it.
pub proof fn law_each_outcome_counts_once(
    states: Seq<SkillState>,
    s: SkillState,
    results: Seq<PromoteResult>,
    r: PromoteResult,
    t: Transition,
    w: PromoteResult,
)
    ensures
        times(transitions(states.push(s)), t) == times(transitions(states), t) + (if transition(s)
            == t {
            1nat
        } else {
            0
        }),
        times(transitions(Seq::<SkillState>::empty()), t) == 0,
        count_of(results.push(r), w) == count_of(results, w) + (if r == w {
            1nat
        } else {
            0
        }),
        count_of(Seq::<PromoteResult>::empty(), w) == 0,
        transitions(states).len() == states.len(),
{
    let all = transitions(states.push(s));
    assert(all.drop_last() =~= transitions(states));
    assert(all.last() == transition(s));
    assert(results.push(r).drop_last() =~= results);
    assert(results.push(r).last() == r);
}

/// The first two words of a command, in its order.
pub proof fn law_first_two_words(
    pad: Seq<char>,
    first: Seq<char>,
    gap: Seq<char>,
    second: Seq<char>,
    rest: Seq<char>,
)
    requires
        forall|i: int| 0 <= i < pad.len() ==> text::is_space(#[trigger] pad[i]),
        forall|i: int| 0 <= i < gap.len() ==> text::is_space(#[trigger] gap[i]),
        forall|i: int| 0 <= i < first.len() ==> !text::is_space(#[trigger] first[i]),
        forall|i: int| 0 <= i < second.len() ==> !text::is_space(#[trigger] second[i]),
        first.len() > 0,
        second.len() > 0,
        gap.len() > 0,
        rest.len() == 0 || text::is_space(rest[0]),
    ensures
        two_words(pad + first + (gap + second + rest)) == seq![first, second],
        two_words(pad + first + gap) == seq![first],
        two_words(pad) == Seq::<Seq<char>>::empty(),
{
    let tail = gap + second + rest;
    assert(tail[0] == gap[0]);
    text::law_words_stand_between_spaces(gap, second, rest);
    text::law_words_stand_between_spaces(pad, first, tail);
    let w = text::words(pad + first + tail);
    assert(w[0] == first);
    assert(w[1] == second);
    if w.len() > 2 {
        assert(w.take(2) =~= seq![first, second]);
    } else {
        assert(w =~= seq![first, second]);
    }
    text::law_words_stand_between_spaces(pad, first, gap);
    text::law_spaces_hold_no_word(gap);
    assert(seq![first] + Seq::<Seq<char>>::empty() =~= seq![first]);
    text::law_spaces_hold_no_word(pad);
}

/// A mined skill is triggered by the first two words of the command that
/// failed, taken literally, at the start of a command.
pub proof fn law_trigger_holds_the_first_words(
    pad: Seq<char>,
    first: Seq<char>,
    gap: Seq<char>,
    second: Seq<char>,
    rest: Seq<char>,
)
    requires
        forall|i: int| 0 <= i < pad.len() ==> text::is_space(#[trigger] pad[i]),
        forall|i: int| 0 <= i < gap.len() ==> text::is_space(#[trigger] gap[i]),
        forall|i: int| 0 <= i < first.len() ==> !text::is_space(#[trigger] first[i]),
        forall|i: int| 0 <= i < second.len() ==> !text::is_space(#[trigger] second[i]),
        first.len() > 0,
        second.len() > 0,
        gap.len() > 0,
        rest.len() == 0 || text::is_space(rest[0]),
    ensures
        trigger_regex(pad + first + (gap + second + rest)) == "^"@ + patterns::escaped(first)
            + r"\s+"@ + patterns::escaped(second),
        trigger_regex(pad + first + gap) == "^"@ + patterns::escaped(first) + r"\s*"@,
        trigger_regex(pad) == "^$"@,
{
    law_first_two_words(pad, first, gap, second, rest);
}

/// A mined skill's name is made of `mined-`, the first words of the command that
/// failed, `-to-`, those of the fix, and four hexadecimal digits of their hash, with
/// hyphens between the words and in place of whatever is no letter and no number.
pub proof fn law_mined_name_tells_both_commands(failure: Seq<char>, fix: Seq<char>, hash: u64)
    ensures
        ({
            let name = mined_name(failure, fix, hash);
            let whole = "mined-"@ + (text::join(two_words(failure), "-"@) + "-to-"@ + text::join(
                two_words(fix),
                "-"@,
            )) + ("-"@ + numerals::hex(hash as nat, 4));
            &&& name.len() == whole.len()
            &&& forall|i: int|
                0 <= i < name.len() ==> #[trigger] name[i] == (if text::is_alphanumeric(whole[i]) {
                    whole[i]
                } else {
                    '-'
                })
        }),
{
    let whole = "mined-"@ + (text::join(two_words(failure), "-"@) + "-to-"@ + text::join(
        two_words(fix),
        "-"@,
    )) + ("-"@ + numerals::hex(hash as nat, 4));
    assert(whole =~= "mined-"@ + text::join(two_words(failure), "-"@) + "-to-"@ + text::join(
        two_words(fix),
        "-"@,
    ) + "-"@ + numerals::hex(hash as nat, 4));
}

/// A fix that adds a flag to the command that failed becomes a skill that adds
/// that flag, without the space around it.
pub proof fn law_flag_skill_adds_the_flag(
    failure: Seq<char>,
    gap: Seq<char>,
    flag: Seq<char>,
    back: Seq<char>,
    command: Seq<char>,
    root: Seq<char>,
)
    requires
        text::words(failure).len() > 0,
        gap.len() > 0,
        forall|i: int| 0 <= i < gap.len() ==> text::is_space(#[trigger] gap[i]),
        forall|i: int| 0 <= i < back.len() ==> text::is_space(#[trigger] back[i]),
        flag.len() > 0,
        flag[0] == '-',
        !text::is_space(flag.last()),
        !("cd "@.is_prefix_of(failure + (gap + flag + back)) && text::contains(
            failure + (gap + flag + back),
            "&&"@,
        )),
    ensures
        action_for(failure, failure + (gap + flag + back)).0 == "add_flag"@,
        !text::contains(seq![' '] + flag, "{{original_command}}"@) && !text::contains(
            seq![' '] + flag,
            "{{project_root}}"@,
        ) ==> skills::filled(action_for(failure, failure + (gap + flag + back)).1, command, root)
            == command + seq![' '] + flag,
{
    let tail = gap + flag + back;
    let fix = failure + tail;
    assert(tail[0] == gap[0]);
    text::law_first_word_is_kept(failure, tail);
    text::law_prefix_and_rest(fix, failure, tail);
    text::law_trim_takes_spaces_off(gap, flag, back);
    if !text::contains(seq![' '] + flag, "{{original_command}}"@) && !text::contains(
        seq![' '] + flag,
        "{{project_root}}"@,
    ) {
        skills::law_flag_is_added(flag, command, root);
    }
}

/// A fix that changes the directory first becomes a skill that runs a command
/// in its project's root.
pub proof fn law_cd_skill_runs_in_the_root(
    failure: Seq<char>,
    fix: Seq<char>,
    command: Seq<char>,
    root: Seq<char>,
)
    requires
        "cd "@.is_prefix_of(fix),
        text::contains(fix, "&&"@),
    ensures
        action_for(failure, fix).0 == "prepend_cd"@,
        skills::filled(action_for(failure, fix).1, command, root) == "cd "@ + root + " && "@
            + command,
{
    skills::law_prepend_cd_template(command, root);
}

/// Every other fix becomes a skill that runs the fix in the command's place: so
/// it is with a fix that runs another tool, that does not begin with the command
/// that failed, or that adds nothing or what is no flag.
pub proof fn law_rewrite_skill_runs_the_fix(
    failure: Seq<char>,
    fix: Seq<char>,
    gap: Seq<char>,
    added: Seq<char>,
    back: Seq<char>,
    command: Seq<char>,
    root: Seq<char>,
)
    requires
        !("cd "@.is_prefix_of(fix) && text::contains(fix, "&&"@)),
        forall|i: int| 0 <= i < gap.len() ==> text::is_space(#[trigger] gap[i]),
        forall|i: int| 0 <= i < back.len() ==> text::is_space(#[trigger] back[i]),
        added.len() > 0 ==> added[0] != '-' && !text::is_space(added[0]) && !text::is_space(
            added.last(),
        ),
        text::first_word_of(failure) != text::first_word_of(fix) || !failure.is_prefix_of(fix)
            || fix == failure + (gap + added + back),
    ensures
        action_for(failure, fix).0 == "rewrite_command"@,
        !text::contains(fix, "{{original_command}}"@) && !text::contains(fix, "{{project_root}}"@)
            ==> skills::filled(action_for(failure, fix).1, command, root) == fix,
{
    text::law_prefix_and_rest(fix, failure, gap + added + back);
    text::law_trim_takes_spaces_off(gap, added, back);
    if !text::contains(fix, "{{original_command}}"@) && !text::contains(
        fix,
        "{{project_root}}"@,
    ) {
        skills::law_plain_template_is_kept(fix, command, root);
    }
}

/// A candidate is promoted exactly if its fix is a command, no skill of its name
/// exists, and the skill could be stored. An edit is no command.
pub proof fn law_promoted_exactly_if_new(
    path: Seq<char>,
    fix: Seq<char>,
    exists: bool,
    stored: bool,
)
    ensures
        !yields_skill("edit:"@ + path),
        fix.len() < 5 || fix.subrange(0, 5) != "edit:"@ ==> yields_skill(fix),
        promotion(true, false, true) == PromoteResult::Created,
        promotion(true, false, false) == PromoteResult::Skipped,
        promotion(true, true, stored) == PromoteResult::AlreadyExists,
        promotion(false, exists, stored) == PromoteResult::Skipped,
{
    reveal_strlit("edit:");
    assert("edit:"@.is_prefix_of("edit:"@ + path)) by {
        assert(("edit:"@ + path).subrange(0, 5) =~= "edit:"@);
    }
}

/// A mined skill's description tells the failure, the fix and how often they
/// were seen.
pub proof fn law_description_tells_the_pair(
    failure: Seq<char>,
    fix: Seq<char>,
    occurrences: int,
)
    ensures
        mined_description(failure, fix, occurrences) == "Auto-mined: "@ + (failure + " -> "@ + fix)
            + (" ("@ + numerals::dec_int(occurrences) + "x)"@),
{
    assert(mined_description(failure, fix, occurrences) =~= "Auto-mined: "@ + (failure + " -> "@
        + fix) + (" ("@ + numerals::dec_int(occurrences) + "x)"@));
}

/// A step of the lifecycle, by its skill and its result: a skill is disabled
/// exactly if it was mined, is enabled, and failed in more than 20 % of at least
/// five activations; it becomes trusted exactly if it was mined, is enabled, has a
/// confidence from 0.7 to below 0.9 and failed in less than 5 % of at least twenty
/// activations.
pub proof fn law_lifecycle_step(s: &SkillState, r: Transition)
    requires
        call_ensures(lifecycle_step, (s,), r),
    ensures
        r == Transition::Disable <==> s.source@ == "mined"@ && s.enabled && s.activated >= 5 && 100
            * s.failed > 20 * s.activated,
        r == Transition::ToTrusted <==> s.source@ == "mined"@ && s.enabled && s.activated >= 20
            && 100 * s.failed < 5 * s.activated && 0x3fe6_6666_6666_6666 <= s.confidence
            < 0x3fec_cccc_cccc_cccd,
        r == Transition::ToActive <==> s.source@ == "mined"@ && s.enabled && s.activated >= 5 && 100
            * s.failed <= 20 * s.activated && s.confidence < 0x3fe6_6666_6666_6666,
{
    law_disabled_exactly_if_failing(*s);
    law_trusted_exactly_if_proven(*s);
    law_active_exactly_if_used(*s);
}

/// A tick takes the step of each skill, in their order, and counts each step
/// once: nothing is counted if nothing was done.
pub proof fn law_tick_takes_each_step(
    states: &Vec<SkillState>,
    r: (Vec<Transition>, LifecycleSummary),
    i: int,
)
    requires
        call_ensures(tick_skill_lifecycle, (states,), r),
        0 <= i < states@.len(),
    ensures
        r.0@.len() == states@.len(),
        r.0@[i] == transition(states@[i]),
        r.0@[i] == Transition::ToActive ==> r.1.promoted_to_active > 0,
        r.0@[i] == Transition::ToTrusted ==> r.1.promoted_to_trusted > 0,
        r.0@[i] == Transition::Disable ==> r.1.auto_disabled > 0,
{
    lemma_times_counts(r.0@, i);
}

/// What occurs is counted.
proof fn lemma_times_counts(ts: Seq<Transition>, i: int)
    requires
        0 <= i < ts.len(),
    ensures
        times(ts, ts[i]) > 0,
    decreases ts.len(),
{
    if i < ts.len() - 1 {
        lemma_times_counts(ts.drop_last(), i);
        assert(ts.drop_last()[i] == ts[i]);
    }
}

/// The threshold that is given is used; without one it is three.
pub proof fn law_threshold_of_occurrences(given: Option<i64>, n: i64, r: i64)
    requires
        call_ensures(occurrence_threshold, (given,), r),
    ensures
        given == Some(n) ==> r == n,
        given is None ==> r == 3,
{
}

/// A candidate yields a skill exactly if its fix is no edit. On the command that
/// failed, a skill that adds a flag yields the fix.
pub proof fn law_candidate_yields_a_skill(
    c: &Candidate,
    r: Option<NewSkill>,
    flag: Seq<char>,
    root: Seq<char>,
)
    requires
        call_ensures(promote_one, (c,), r),
    ensures
        r is Some <==> !"edit:"@.is_prefix_of(c.fix_command@),
        r matches Some(skill) ==> text::words(c.failure_command@).len() > 0 && flag.len() > 0
            && flag[0] == '-' && !text::is_space(flag.last()) && c.fix_command@
            == c.failure_command@ + (seq![' '] + flag) && !("cd "@.is_prefix_of(c.fix_command@)
            && text::contains(c.fix_command@, "&&"@)) && !text::contains(
            seq![' '] + flag,
            "{{original_command}}"@,
        ) && !text::contains(seq![' '] + flag, "{{project_root}}"@) ==> skill.action_type@
            == "add_flag"@ && skills::filled(skill.template@, c.failure_command@, root)
            == c.fix_command@,
{
    if text::words(c.failure_command@).len() > 0 && flag.len() > 0 && flag[0] == '-'
        && !text::is_space(flag.last()) && c.fix_command@ == c.failure_command@ + (seq![' '] + flag)
        && !("cd "@.is_prefix_of(c.fix_command@) && text::contains(c.fix_command@, "&&"@)) {
        let none = Seq::<char>::empty();
        assert(seq![' '] + flag + none =~= seq![' '] + flag);
        law_flag_skill_adds_the_flag(
            c.failure_command@,
            seq![' '],
            flag,
            none,
            c.failure_command@,
            root,
        );
        assert(c.failure_command@ + seq![' '] + flag =~= c.fix_command@);
    }
}

/// The digits in a skill's name are those of the hash of the failure and the fix,
/// in this order.
pub proof fn law_name_holds_the_hash_of_the_pair(
    failure: &str,
    fix: &str,
    name: String,
    hash: u64,
    named: String,
)
    requires
        call_ensures(generate_skill_name, (failure, fix), name),
        call_ensures(mining::hash_pair, (failure, fix), hash),
        call_ensures(skill_name_for, (failure, fix, hash), named),
    ensures
        name@ == named@,
{
}

/// A mined skill ranks behind one that states no priority.
pub proof fn law_mined_skills_rank_behind(stated: i32)
    requires
        call_ensures(skills::default_priority, (), stated),
    ensures
        stated == 100,
        MINED_PRIORITY == 200,
        MINED_PRIORITY > stated,
{
}

/// The action for a fix that adds a flag, by both commands and the result: filled with
/// the command that failed it makes the fix.
pub proof fn law_generate_action(
    failure: &str,
    fix: &str,
    r: (String, String),
    flag: Seq<char>,
    root: Seq<char>,
)
    requires
        call_ensures(generate_action, (failure, fix), r),
        text::words(failure@).len() > 0,
        flag.len() > 0,
        flag[0] == '-',
        !text::is_space(flag.last()),
        fix@ == failure@ + (seq![' '] + flag),
        !("cd "@.is_prefix_of(fix@) && text::contains(fix@, "&&"@)),
        !text::contains(seq![' '] + flag, "{{original_command}}"@),
        !text::contains(seq![' '] + flag, "{{project_root}}"@),
    ensures
        r.0@ == "add_flag"@,
        skills::filled(r.1@, failure@, root) == fix@,
{
    let none = Seq::<char>::empty();
    assert(seq![' '] + flag + none =~= seq![' '] + flag);
    law_flag_skill_adds_the_flag(failure@, seq![' '], flag, none, failure@, root);
    assert(failure@ + seq![' '] + flag =~= fix@);
}

/// The candidates, by the pairs and the result: exactly the pairs that were seen often
/// enough, the most frequent first.
pub proof fn law_find_candidates(
    pairs: &Vec<Candidate>,
    min_occurrences: i64,
    r: Vec<Candidate>,
    c: CandidateView,
    i: int,
    j: int,
)
    requires
        call_ensures(find_candidates, (pairs, min_occurrences), r),
    ensures
        candidate_views(r@).contains(c) <==> candidate_views(pairs@).contains(c) && c.occurrences
            >= min_occurrences,
        0 <= i <= j < r@.len() ==> r@[i].occurrences >= r@[j].occurrences,
{
    law_candidates_are_frequent(candidate_views(pairs@), min_occurrences);
    let out = candidate_views(r@);
    assert(out.len() == r@.len());
    if 0 <= i <= j < r@.len() {
        assert(out[i].occurrences >= out[j].occurrences);
    }
}

} // verus!
