//! Measurements of the effect of rewrites.
use vstd::prelude::*;
use vstd::string::*;

use crate::json;
use crate::json::Json;
use crate::json::JsonView;
use crate::text;

verus! {

/// Metric types recorded by the hook.
#[derive(Debug, Clone, Copy, PartialEq, Eq, Structural)]
pub enum MetricType {
    /// How long the hook took.
    HookLatency,
    /// A skill was applied.
    SkillActivation,
    /// A `cd` was prepended.
    CdPrepend,
    /// A debugger was suggested.
    GdbSuggestion,
    /// A command was wrapped by a compressor.
    CompressorWrap,
    /// The miner ran.
    MinerTick,
}

/// The name under which a metric is stored.
pub open spec fn metric_name(m: MetricType) -> Seq<char> {
    match m {
        MetricType::HookLatency => "hook_latency"@,
        MetricType::SkillActivation => "skill_activation"@,
        MetricType::CdPrepend => "cd_prepend"@,
        MetricType::GdbSuggestion => "gdb_suggestion"@,
        MetricType::CompressorWrap => "compressor_wrap"@,
        MetricType::MinerTick => "miner_tick"@,
    }
}

impl MetricType {
    /// The name under which the metric is stored.
    pub fn as_str(&self) -> (r: &'static str)
        ensures
            r@ == metric_name(*self),
    {
        match self {
            MetricType::HookLatency => "hook_latency",
            MetricType::SkillActivation => "skill_activation",
            MetricType::CdPrepend => "cd_prepend",
            MetricType::GdbSuggestion => "gdb_suggestion",
            MetricType::CompressorWrap => "compressor_wrap",
            MetricType::MinerTick => "miner_tick",
        }
    }
}

/// Metrics of different types are stored under different names.
pub proof fn law_metric_names_differ(a: MetricType, b: MetricType)
    ensures
        metric_name(a) == metric_name(b) ==> a == b,
{
    reveal_strlit("hook_latency");
    reveal_strlit("skill_activation");
    reveal_strlit("cd_prepend");
    reveal_strlit("gdb_suggestion");
    reveal_strlit("compressor_wrap");
    reveal_strlit("miner_tick");
    let (x, y) = (metric_name(a), metric_name(b));
    assert(x == y ==> x.len() == y.len() && x[0] == y[0]);
}

// ---------------------------------------------------------------------------
// Savings measurements
// ---------------------------------------------------------------------------
/// A measurement of how many output tokens a rewrite saved on a command.
pub struct SavingsRow {
    /// The command class.
    pub cmd_class: String,
    /// The kind of rewrite.
    pub rewrite_type: String,
    /// The compression mode.
    pub compression_mode: String,
    /// How it was measured: live or by a probe.
    pub probe_kind: String,
    /// The session.
    pub session_id: String,
    /// Output tokens without the rewrite.
    pub original_output_tokens: i64,
    /// Output tokens with the rewrite.
    pub actual_output_tokens: i64,
    /// Tokens saved.
    pub savings_tokens: i64,
    /// The bits of the share saved, in percent, as a double.
    pub savings_pct_bits: u64,
    /// The method of measurement.
    pub measurement_method: String,
}

/// The model of a measurement.
pub struct SavingsView {
    /// The command class.
    pub cmd_class: Seq<char>,
    /// The kind of rewrite.
    pub rewrite_type: Seq<char>,
    /// The compression mode.
    pub compression_mode: Seq<char>,
    /// How it was measured.
    pub probe_kind: Seq<char>,
    /// The session.
    pub session_id: Seq<char>,
    /// Output tokens without the rewrite.
    pub original_output_tokens: i64,
    /// Output tokens with the rewrite.
    pub actual_output_tokens: i64,
    /// Tokens saved.
    pub savings_tokens: i64,
    /// The bits of the share saved.
    pub savings_pct_bits: u64,
    /// The method of measurement.
    pub measurement_method: Seq<char>,
}

impl View for SavingsRow {
    type V = SavingsView;

    open spec fn view(&self) -> SavingsView {
        SavingsView {
            cmd_class: self.cmd_class@,
            rewrite_type: self.rewrite_type@,
            compression_mode: self.compression_mode@,
            probe_kind: self.probe_kind@,
            session_id: self.session_id@,
            original_output_tokens: self.original_output_tokens,
            actual_output_tokens: self.actual_output_tokens,
            savings_tokens: self.savings_tokens,
            savings_pct_bits: self.savings_pct_bits,
            measurement_method: self.measurement_method@,
        }
    }
}

/// The models of a sequence of measurements.
pub open spec fn savings_views(v: Seq<SavingsRow>) -> Seq<SavingsView> {
    Seq::new(v.len(), |i: int| v[i]@)
}

/// The integer under a key, 0 if there is none.
pub open spec fn int_under(j: JsonView, key: Seq<char>) -> i64 {
    match json::number_in(json::get_of(j, key)) {
        Some(n) => match n.integer {
            Some(x) => x,
            None => 0,
        },
        None => 0,
    }
}

/// The bits of the double under a key, those of 0 if there is none.
pub open spec fn bits_under(j: JsonView, key: Seq<char>) -> u64 {
    match json::number_in(json::get_of(j, key)) {
        Some(n) => match n.bits {
            Some(b) => b,
            None => 0,
        },
        None => 0,
    }
}

/// The measurement that a logged value holds. Missing fields take their
/// defaults.
pub open spec fn row_of(j: JsonView) -> SavingsView {
    SavingsView {
        cmd_class: json::text_or(json::get_of(j, "cmd_class"@), ""@),
        rewrite_type: json::text_or(json::get_of(j, "rewrite_type"@), ""@),
        compression_mode: json::text_or(json::get_of(j, "compression_mode"@), "basic"@),
        probe_kind: json::text_or(json::get_of(j, "probe_kind"@), "live"@),
        session_id: json::text_or(json::get_of(j, "session_id"@), ""@),
        original_output_tokens: int_under(j, "original_output_tokens"@),
        actual_output_tokens: int_under(j, "actual_output_tokens"@),
        savings_tokens: int_under(j, "savings_tokens"@),
        savings_pct_bits: bits_under(j, "savings_pct"@),
        measurement_method: json::text_or(json::get_of(j, "measurement_method"@), ""@),
    }
}

/// The integer under a key.
fn read_int_under(j: &Json, key: &str) -> (r: i64)
    ensures
        r == int_under(j@, key@),
{
    match json::as_number(json::get(j, key)) {
        Some(n) => match n.integer {
            Some(x) => x,
            None => 0,
        },
        None => 0,
    }
}

/// The bits of the double under a key.
fn read_bits_under(j: &Json, key: &str) -> (r: u64)
    ensures
        r == bits_under(j@, key@),
{
    match json::as_number(json::get(j, key)) {
        Some(n) => match n.bits {
            Some(b) => b,
            None => 0,
        },
        None => 0,
    }
}

/// The measurement that a logged value holds.
pub fn savings_row(j: &Json) -> (r: SavingsRow)
    ensures
        r@ == row_of(j@),
{
    SavingsRow {
        cmd_class: json::as_text_or(json::get(j, "cmd_class"), ""),
        rewrite_type: json::as_text_or(json::get(j, "rewrite_type"), ""),
        compression_mode: json::as_text_or(json::get(j, "compression_mode"), "basic"),
        probe_kind: json::as_text_or(json::get(j, "probe_kind"), "live"),
        session_id: json::as_text_or(json::get(j, "session_id"), ""),
        original_output_tokens: read_int_under(j, "original_output_tokens"),
        actual_output_tokens: read_int_under(j, "actual_output_tokens"),
        savings_tokens: read_int_under(j, "savings_tokens"),
        savings_pct_bits: read_bits_under(j, "savings_pct"),
        measurement_method: json::as_text_or(json::get(j, "measurement_method"), ""),
    }
}

/// The measurements in the lines of a log. Blank lines and lines that are not
/// JSON are passed over.
pub open spec fn rows_in(lines: Seq<Seq<char>>) -> Seq<SavingsView>
    decreases lines.len(),
{
    if lines.len() == 0 {
        Seq::empty()
    } else {
        let rest = rows_in(lines.drop_last());
        match json::json_of(lines.last()) {
            Some(j) => if text::trim(lines.last()).len() == 0 {
                rest
            } else {
                rest.push(row_of(j))
            },
            None => rest,
        }
    }
}

/// The measurements to import from the content of the savings log.
pub fn import_savings_log(content: &str) -> (r: Vec<SavingsRow>)
    ensures
        savings_views(r@) == rows_in(text::lines(content@)),
{
    let lines = text::split_lines(content);
    let ghost all = text::views(lines@);
    let mut out: Vec<SavingsRow> = Vec::new();
    let mut i: usize = 0;
    proof {
        assert(all.take(0) =~= Seq::<Seq<char>>::empty());
        assert(savings_views(out@) =~= rows_in(all.take(0)));
    }
    while i < lines.len()
        invariant
            i <= lines@.len(),
            all == text::views(lines@),
            savings_views(out@) == rows_in(all.take(i as int)),
        decreases lines@.len() - i,
    {
        let ghost before = savings_views(out@);
        let line = lines[i].as_str();
        proof {
            let t = all.take(i + 1);
            assert(t.drop_last() =~= all.take(i as int));
            assert(t.last() == line@);
        }
        if !text::trimmed(line).is_empty() {
            if let Some(parsed) = json::parse_json(line) {
                let row = savings_row(&parsed);
                let ghost v = row@;
                out.push(row);
                assert(savings_views(out@) =~= before.push(v));
            }
        }
        i += 1;
    }
    assert(all.take(i as int) =~= all);
    out
}

/// The measurement that saves measuring again: the latest one of a command,
/// as its original tokens and its age in seconds, if it is young enough.
pub fn cached_measurement(latest: Option<(i64, i64)>, ttl_seconds: i64) -> (r: Option<(u64, i64)>)
    ensures
        r == (match latest {
            Some((tokens, age)) => if age <= ttl_seconds {
                Some((tokens as u64, age))
            } else {
                None
            },
            None => None,
        }),
{
    match latest {
        Some((tokens, age)) => if age <= ttl_seconds {
            Some((tokens as u64, age))
        } else {
            None
        },
        None => None,
    }
}

/// A measurement holds what its value holds under the names of its fields.
pub proof fn law_measurement_holds_its_fields(j: JsonView, t: Seq<char>, n: json::JsonNumber)
    ensures
        json::get_of(j, "cmd_class"@) == Some(JsonView::Text(t)) ==> row_of(j).cmd_class == t,
        json::get_of(j, "rewrite_type"@) == Some(JsonView::Text(t)) ==> row_of(j).rewrite_type == t,
        json::get_of(j, "compression_mode"@) == Some(JsonView::Text(t)) ==> row_of(
            j,
        ).compression_mode == t,
        json::get_of(j, "probe_kind"@) == Some(JsonView::Text(t)) ==> row_of(j).probe_kind == t,
        json::get_of(j, "session_id"@) == Some(JsonView::Text(t)) ==> row_of(j).session_id == t,
        json::get_of(j, "measurement_method"@) == Some(JsonView::Text(t)) ==> row_of(
            j,
        ).measurement_method == t,
        json::get_of(j, "original_output_tokens"@) == Some(JsonView::Number(n)) && n.integer is Some
            ==> row_of(j).original_output_tokens == n.integer->0,
        json::get_of(j, "actual_output_tokens"@) == Some(JsonView::Number(n)) && n.integer is Some
            ==> row_of(j).actual_output_tokens == n.integer->0,
        json::get_of(j, "savings_tokens"@) == Some(JsonView::Number(n)) && n.integer is Some
            ==> row_of(j).savings_tokens == n.integer->0,
        json::get_of(j, "savings_pct"@) == Some(JsonView::Number(n)) && n.bits is Some ==> row_of(
            j,
        ).savings_pct_bits == n.bits->0,
{
}

/// What a value does not hold takes its default: an empty text, the mode `basic`,
/// a live measurement, a zero.
pub proof fn law_missing_fields_take_defaults(j: JsonView)
    ensures
        json::get_of(j, "cmd_class"@) is None ==> row_of(j).cmd_class == ""@,
        json::get_of(j, "rewrite_type"@) is None ==> row_of(j).rewrite_type == ""@,
        json::get_of(j, "compression_mode"@) is None ==> row_of(j).compression_mode == "basic"@,
        json::get_of(j, "probe_kind"@) is None ==> row_of(j).probe_kind == "live"@,
        json::get_of(j, "session_id"@) is None ==> row_of(j).session_id == ""@,
        json::get_of(j, "measurement_method"@) is None ==> row_of(j).measurement_method == ""@,
        json::get_of(j, "original_output_tokens"@) is None ==> row_of(j).original_output_tokens
            == 0,
        json::get_of(j, "actual_output_tokens"@) is None ==> row_of(j).actual_output_tokens == 0,
        json::get_of(j, "savings_tokens"@) is None ==> row_of(j).savings_tokens == 0,
        json::get_of(j, "savings_pct"@) is None ==> row_of(j).savings_pct_bits == 0,
{
}

/// Each line of the log that is JSON is a measurement, in the order of the lines;
/// other lines are passed over.
pub proof fn law_each_line_is_a_measurement(lines: Seq<Seq<char>>, line: Seq<char>)
    ensures
        rows_in(Seq::<Seq<char>>::empty()) == Seq::<SavingsView>::empty(),
        json::json_of(line) matches Some(j) ==> text::trim(line).len() > 0 ==> rows_in(
            lines.push(line),
        ) == rows_in(lines).push(row_of(j)),
        json::json_of(line) is None || text::trim(line).len() == 0 ==> rows_in(lines.push(line))
            == rows_in(lines),
{
    assert(lines.push(line).drop_last() =~= lines);
    assert(lines.push(line).last() == line);
}

/// The latest measurement is used again up to the given age, that age counted in.
pub proof fn law_young_measurements_are_used(
    tokens: i64,
    age: i64,
    ttl_seconds: i64,
    r: Option<(u64, i64)>,
)
    requires
        call_ensures(cached_measurement, (Some((tokens, age)), ttl_seconds), r),
    ensures
        age > ttl_seconds ==> r is None,
        age <= ttl_seconds && tokens >= 0 ==> match r {
            Some((t, a)) => t == tokens && a == age,
            None => false,
        },
{
}

/// The names under which metrics are stored.
pub proof fn law_metric_names()
    ensures
        metric_name(MetricType::HookLatency) == "hook_latency"@,
        metric_name(MetricType::SkillActivation) == "skill_activation"@,
        metric_name(MetricType::CdPrepend) == "cd_prepend"@,
        metric_name(MetricType::GdbSuggestion) == "gdb_suggestion"@,
        metric_name(MetricType::CompressorWrap) == "compressor_wrap"@,
        metric_name(MetricType::MinerTick) == "miner_tick"@,
{
}

} // verus!
