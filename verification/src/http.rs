//! The HTTP surface: the metrics page, the guards of the write path and its
//! replies.

use vstd::prelude::*;

use crate::addr::{loopback, IpAddr};
use crate::config::Config;
use crate::metrics::{
    bound_nanos, bucket_bound, DurationHistogram, EvictionCounts, EvictionStage,
    HistogramView, Metrics, StageHistograms, StagesView, BUCKETS,
};
use crate::numerals::{
    decimal, seconds_text, signed_decimal, write_i64, write_seconds, write_u128, write_u64,
};
use crate::presence::{is_local_present, locally_present};
use crate::state::{
    ManualActionError, SnapshotView, State, StatusSnapshot, UnitStatus, UnitStatusView,
};
use crate::text::{
    chars_of, occurs, occurs_at, parted, split_once, starts_with, texts,
};
use crate::units::{find_unit, unit_index, FailureView, HookFailureKey};

verus! {

// ── the text format ────────────────────────────────────────────────────────

/// A label value with its backslashes, quotes and newlines escaped.
pub open spec fn escaped(s: Seq<char>) -> Seq<char>
    decreases s.len(),
{
    if s.len() == 0 {
        Seq::empty()
    } else {
        escaped(s.drop_last()) + if s.last() == '\\' {
            seq!['\\', '\\']
        } else if s.last() == '"' {
            seq!['\\', '"']
        } else if s.last() == '\n' {
            seq!['\\', 'n']
        } else {
            seq![s.last()]
        }
    }
}

/// A label value with its backslashes, quotes and newlines escaped.
pub fn esc(s: &str) -> (r: String)
    ensures
        r@ == escaped(s@),
{
    let cs = chars_of(s);
    let mut o: String = String::new();
    let mut i: usize = 0;
    proof {
        assert(s@.take(0) =~= Seq::empty());
    }
    while i < cs.len()
        invariant
            i <= cs.len(),
            cs@ == s@,
            o@ == escaped(s@.take(i as int)),
        decreases cs.len() - i,
    {
        let c: char = cs[i];
        let ghost before = o@;
        if c == '\\' {
            o.push('\\');
            o.push('\\');
        } else if c == '"' {
            o.push('\\');
            o.push('"');
        } else if c == '\n' {
            o.push('\\');
            o.push('n');
        } else {
            o.push(c);
        }
        proof {
            assert(s@.take(i + 1).drop_last() =~= s@.take(i as int));
            assert(s@.take(i + 1).last() == c);
            assert(o@ =~= escaped(s@.take(i + 1)));
        }
        i = i + 1;
    }
    proof {
        assert(s@.take(cs.len() as int) =~= s@);
    }
    o
}

/// A name and a value.
pub type LabelView = (Seq<char>, Seq<char>);

/// The labels between the braces.
pub open spec fn labels_text(labels: Seq<LabelView>) -> Seq<char>
    decreases labels.len(),
{
    if labels.len() == 0 {
        Seq::empty()
    } else {
        labels_text(labels.drop_last()) + (if labels.len() > 1 {
            ","@
        } else {
            Seq::empty()
        }) + labels.last().0 + "=\""@ + escaped(labels.last().1) + "\""@
    }
}

/// One line of the page: a metric, its labels and its value.
pub open spec fn sample_text(name: Seq<char>, labels: Seq<LabelView>, value: Seq<char>) -> Seq<
    char,
> {
    if labels.len() == 0 {
        name + " "@ + value + "\n"@
    } else {
        name + "{"@ + labels_text(labels) + "} "@ + value + "\n"@
    }
}

/// The two lines that announce a metric.
pub open spec fn header_text(kind: Seq<char>, name: Seq<char>, help: Seq<char>) -> Seq<char> {
    "# HELP "@ + name + " "@ + help + "\n# TYPE "@ + name + " "@ + kind + "\n"@
}

/// A metric of one line.
pub open spec fn single_text(
    kind: Seq<char>,
    name: Seq<char>,
    help: Seq<char>,
    labels: Seq<LabelView>,
    value: Seq<char>,
) -> Seq<char> {
    header_text(kind, name, help) + sample_text(name, labels, value)
}

/// The values of a list of labels.
pub open spec fn label_views(labels: Seq<(&str, &str)>) -> Seq<LabelView> {
    Seq::new(labels.len(), |i: int| (labels[i].0@, labels[i].1@))
}

/// Announce a metric.
fn metric_header(o: &mut String, kind: &str, name: &str, help: &str)
    ensures
        final(o)@ == old(o)@ + header_text(kind@, name@, help@),
{
    let ghost before = o@;
    o.append("# HELP ");
    o.append(name);
    o.append(" ");
    o.append(help);
    o.append("\n# TYPE ");
    o.append(name);
    o.append(" ");
    o.append(kind);
    o.append("\n");
    proof {
        assert(o@ =~= before + header_text(kind@, name@, help@));
    }
}

/// Write one line of a metric.
fn sample(o: &mut String, name: &str, labels: &[(&str, &str)], value: &str)
    ensures
        final(o)@ == old(o)@ + sample_text(name@, label_views(labels@), value@),
{
    let ghost before = o@;
    let ghost lv = label_views(labels@);
    o.append(name);
    if labels.len() == 0 {
        o.append(" ");
        o.append(value);
        o.append("\n");
        proof {
            assert(o@ =~= before + sample_text(name@, lv, value@));
        }
        return;
    }
    o.append("{");
    let ghost base = o@;
    let mut i: usize = 0;
    proof {
        assert(lv.take(0) =~= Seq::empty());
        assert(base + labels_text(lv.take(0)) =~= base);
    }
    while i < labels.len()
        invariant
            i <= labels.len(),
            lv == label_views(labels@),
            o@ == base + labels_text(lv.take(i as int)),
        decreases labels.len() - i,
    {
        let ghost now = o@;
        if i > 0 {
            o.append(",");
        }
        o.append(labels[i].0);
        o.append("=\"");
        o.append(esc(labels[i].1).as_str());
        o.append("\"");
        proof {
            let t = lv.take(i + 1);
            assert(t.drop_last() =~= lv.take(i as int));
            assert(t.last() == (labels@[i as int].0@, labels@[i as int].1@));
            assert(o@ =~= base + labels_text(t));
        }
        i = i + 1;
    }
    o.append("} ");
    o.append(value);
    o.append("\n");
    proof {
        assert(lv.take(labels.len() as int) =~= lv);
        assert(o@ =~= before + sample_text(name@, lv, value@));
    }
}

/// Write a gauge of one line.
fn gauge(o: &mut String, name: &str, help: &str, labels: &[(&str, &str)], value: &str)
    ensures
        final(o)@ == old(o)@ + single_text("gauge"@, name@, help@, label_views(labels@), value@),
{
    let ghost before = o@;
    metric_header(o, "gauge", name, help);
    sample(o, name, labels, value);
    proof {
        assert(o@ =~= before + single_text(
            "gauge"@,
            name@,
            help@,
            label_views(labels@),
            value@,
        ));
    }
}

/// Write a counter of one line.
fn counter(o: &mut String, name: &str, help: &str, labels: &[(&str, &str)], value: &str)
    ensures
        final(o)@ == old(o)@ + single_text("counter"@, name@, help@, label_views(labels@), value@),
{
    let ghost before = o@;
    metric_header(o, "counter", name, help);
    sample(o, name, labels, value);
    proof {
        assert(o@ =~= before + single_text(
            "counter"@,
            name@,
            help@,
            label_views(labels@),
            value@,
        ));
    }
}

/// Write one line with one label.
fn sample1(o: &mut String, name: &str, k: &str, v: &str, value: &str)
    ensures
        final(o)@ == old(o)@ + sample_text(name@, seq![(k@, v@)], value@),
{
    let labels = [(k, v)];
    proof {
        assert(labels@.len() == 1 && labels@[0] == (k, v));
        assert(label_views(labels@) =~= seq![(k@, v@)]);
    }
    sample(o, name, &labels, value);
}

/// Write one line with two labels.
fn sample2(o: &mut String, name: &str, k: &str, v: &str, k2: &str, v2: &str, value: &str)
    ensures
        final(o)@ == old(o)@ + sample_text(name@, seq![(k@, v@), (k2@, v2@)], value@),
{
    let labels = [(k, v), (k2, v2)];
    proof {
        assert(labels@.len() == 2 && labels@[0] == (k, v) && labels@[1] == (k2, v2));
        assert(label_views(labels@) =~= seq![(k@, v@), (k2@, v2@)]);
    }
    sample(o, name, &labels, value);
}

/// Write one line with three labels.
fn sample3(
    o: &mut String,
    name: &str,
    k: &str,
    v: &str,
    k2: &str,
    v2: &str,
    k3: &str,
    v3: &str,
    value: &str,
)
    ensures
        final(o)@ == old(o)@ + sample_text(name@, seq![(k@, v@), (k2@, v2@), (k3@, v3@)], value@),
{
    let labels = [(k, v), (k2, v2), (k3, v3)];
    proof {
        assert(labels@.len() == 3 && labels@[0] == (k, v) && labels@[1] == (k2, v2) && labels@[2]
            == (k3, v3));
        assert(label_views(labels@) =~= seq![(k@, v@), (k2@, v2@), (k3@, v3@)]);
    }
    sample(o, name, &labels, value);
}

/// Write a gauge of one line without labels.
fn plain_gauge(o: &mut String, name: &str, help: &str, value: &str)
    ensures
        final(o)@ == old(o)@ + single_text("gauge"@, name@, help@, Seq::empty(), value@),
{
    let labels: [(&str, &str); 0] = [];
    proof {
        assert(label_views(labels@) =~= Seq::empty());
    }
    gauge(o, name, help, &labels, value);
}

/// A truth value as a number.
pub open spec fn flag_text(b: bool) -> Seq<char> {
    if b {
        "1"@
    } else {
        "0"@
    }
}

fn flag(b: bool) -> (r: &'static str)
    ensures
        r@ == flag_text(b),
{
    if b {
        "1"
    } else {
        "0"
    }
}

// ── the page ───────────────────────────────────────────────────────────────

/// What is said of every counter.
pub const MONOTONIC_NOTE: &'static str = "Monotonic for the process lifetime; a daemon restart resets this to 0 — use rate()/increase(), never compare raw values across a restart.";

/// That the daemon is up, and its version.
pub open spec fn build_part(version: Seq<char>) -> Seq<char> {
    single_text(
        "gauge"@,
        "gpu_arbiter_up"@,
        "1 if the gpu-arbiter daemon is serving."@,
        Seq::empty(),
        "1"@,
    ) + single_text(
        "gauge"@,
        "gpu_arbiter_build_info"@,
        "Build metadata; constant 1, version in the label."@,
        seq![("version"@, version)],
        "1"@,
    )
}

fn write_build_part(o: &mut String, version: &str)
    ensures
        final(o)@ == old(o)@ + build_part(version@),
{
    let ghost before = o@;
    plain_gauge(o, "gpu_arbiter_up", "1 if the gpu-arbiter daemon is serving.", "1");
    let labels = [("version", version)];
    proof {
        assert(labels@.len() == 1 && labels@[0] == ("version", version));
        assert(label_views(labels@) =~= seq![("version"@, version@)]);
    }
    gauge(
        o,
        "gpu_arbiter_build_info",
        "Build metadata; constant 1, version in the label.",
        &labels,
        "1",
    );
    proof {
        assert(o@ =~= before + build_part(version@));
    }
}

/// The line of one state.
pub open spec fn state_line(state: Seq<char>, active: bool) -> Seq<char> {
    sample_text("gpu_arbiter_state"@, seq![("state"@, state)], flag_text(active))
}

/// Which of the states is the one.
pub open spec fn states_part(state: State) -> Seq<char> {
    header_text(
        "gauge"@,
        "gpu_arbiter_state"@,
        "Current arbiter state (1 for the active state)."@,
    ) + state_line("gaming"@, state == State::Gaming) + state_line(
        "available"@,
        state == State::Available,
    ) + state_line("evicting"@, state == State::Evicting)
}

fn write_states_part(o: &mut String, state: State)
    ensures
        final(o)@ == old(o)@ + states_part(state),
{
    let ghost before = o@;
    metric_header(
        o,
        "gauge",
        "gpu_arbiter_state",
        "Current arbiter state (1 for the active state).",
    );
    sample1(o, "gpu_arbiter_state", "state", "gaming", flag(state == State::Gaming));
    sample1(o, "gpu_arbiter_state", "state", "available", flag(state == State::Available));
    sample1(o, "gpu_arbiter_state", "state", "evicting", flag(state == State::Evicting));
    proof {
        assert(o@ =~= before + states_part(state));
    }
}

/// Whether a game has the GPU, whether something failed, and since when.
pub open spec fn gaming_part(state: State, degraded: bool, since_unix: i64) -> Seq<char> {
    single_text(
        "gauge"@,
        "gpu_arbiter_gaming"@,
        "1 while a game holds the GPU."@,
        Seq::empty(),
        flag_text(state == State::Gaming),
    ) + single_text(
        "gauge"@,
        "gpu_arbiter_degraded"@,
        "1 while the most recent eviction pass had at least one managed unit fail to evict (gaming still wins the GPU unconditionally — this is visibility only)."@,
        Seq::empty(),
        flag_text(degraded),
    ) + single_text(
        "gauge"@,
        "gpu_arbiter_state_since_seconds"@,
        "Unix time the current state was entered."@,
        Seq::empty(),
        signed_decimal(since_unix as int),
    )
}

fn write_gaming_part(o: &mut String, state: State, degraded: bool, since_unix: i64)
    ensures
        final(o)@ == old(o)@ + gaming_part(state, degraded, since_unix),
{
    let ghost before = o@;
    plain_gauge(
        o,
        "gpu_arbiter_gaming",
        "1 while a game holds the GPU.",
        flag(state == State::Gaming),
    );
    plain_gauge(
        o,
        "gpu_arbiter_degraded",
        "1 while the most recent eviction pass had at least one managed unit fail to evict (gaming still wins the GPU unconditionally — this is visibility only).",
        flag(degraded),
    );
    plain_gauge(
        o,
        "gpu_arbiter_state_since_seconds",
        "Unix time the current state was entered.",
        write_i64(since_unix).as_str(),
    );
    proof {
        assert(o@ =~= before + gaming_part(state, degraded, since_unix));
    }
}

/// The two halves of a claim's word: before and after its first colon.
pub open spec fn claim_parts(token: Seq<char>) -> (Seq<char>, Seq<char>) {
    match parted(token, ':') {
        Some(p) => p,
        None => (token, ""@),
    }
}

/// The lines of the claims.
pub open spec fn claim_lines(claims: Seq<Seq<char>>) -> Seq<char>
    decreases claims.len(),
{
    if claims.len() == 0 {
        Seq::empty()
    } else {
        let t = claims.last();
        claim_lines(claims.drop_last()) + sample_text(
            "gpu_arbiter_claim"@,
            seq![("token"@, t), ("kind"@, claim_parts(t).0), ("id"@, claim_parts(t).1)],
            "1"@,
        )
    }
}

/// The claims.
pub open spec fn claims_part(claims: Seq<Seq<char>>) -> Seq<char> {
    single_text(
        "gauge"@,
        "gpu_arbiter_claims"@,
        "Number of active gaming claims."@,
        Seq::empty(),
        decimal(claims.len()),
    ) + header_text(
        "gauge"@,
        "gpu_arbiter_claim"@,
        "Active gaming claim; presence over time = launch/close."@,
    ) + claim_lines(claims)
}

fn write_claims_part(o: &mut String, claims: &Vec<String>)
    ensures
        final(o)@ == old(o)@ + claims_part(texts(claims@)),
{
    let ghost before = o@;
    let ghost cv = texts(claims@);
    plain_gauge(
        o,
        "gpu_arbiter_claims",
        "Number of active gaming claims.",
        write_u128(claims.len() as u128).as_str(),
    );
    metric_header(
        o,
        "gauge",
        "gpu_arbiter_claim",
        "Active gaming claim; presence over time = launch/close.",
    );
    let ghost base = o@;
    let mut i: usize = 0;
    proof {
        assert(cv.take(0) =~= Seq::empty());
        assert(base + claim_lines(cv.take(0)) =~= base);
    }
    while i < claims.len()
        invariant
            i <= claims.len(),
            cv == texts(claims@),
            o@ == base + claim_lines(cv.take(i as int)),
        decreases claims.len() - i,
    {
        let token = claims[i].as_str();
        let (kind, id) = match split_once(token, ':') {
            Some(p) => p,
            None => (token.to_owned(), "".to_owned()),
        };
        sample3(
            o,
            "gpu_arbiter_claim",
            "token",
            token,
            "kind",
            kind.as_str(),
            "id",
            id.as_str(),
            "1",
        );
        proof {
            let t = cv.take(i + 1);
            assert(t.drop_last() =~= cv.take(i as int));
            assert(t.last() == token@);
            assert(o@ =~= base + claim_lines(t));
        }
        i = i + 1;
    }
    proof {
        assert(cv.take(claims.len() as int) =~= cv);
        assert(o@ =~= before + claims_part(cv));
    }
}

/// The whole GPU's VRAM.
pub open spec fn memory_part(used: u64, total: u64) -> Seq<char> {
    single_text(
        "gauge"@,
        "gpu_arbiter_vram_used_mib"@,
        "Total GPU VRAM in use (MiB), all tenants."@,
        Seq::empty(),
        decimal(used as nat),
    ) + single_text(
        "gauge"@,
        "gpu_arbiter_vram_total_mib"@,
        "Total GPU VRAM capacity (MiB)."@,
        Seq::empty(),
        decimal(total as nat),
    )
}

fn write_memory_part(o: &mut String, used: u64, total: u64)
    ensures
        final(o)@ == old(o)@ + memory_part(used, total),
{
    let ghost before = o@;
    plain_gauge(
        o,
        "gpu_arbiter_vram_used_mib",
        "Total GPU VRAM in use (MiB), all tenants.",
        write_u64(used).as_str(),
    );
    plain_gauge(
        o,
        "gpu_arbiter_vram_total_mib",
        "Total GPU VRAM capacity (MiB).",
        write_u64(total).as_str(),
    );
    proof {
        assert(o@ =~= before + memory_part(used, total));
    }
}

/// The three things told of each unit.
#[derive(Debug, Clone, Copy, PartialEq, Eq, Structural)]
pub enum UnitGauge {
    /// Whether it runs.
    Running,
    /// Whether an operator holds it.
    Held,
    /// Its VRAM.
    Vram,
}

/// The name of a gauge of units.
pub open spec fn unit_gauge_name(g: UnitGauge) -> Seq<char> {
    match g {
        UnitGauge::Running => "gpu_arbiter_unit_running"@,
        UnitGauge::Held => "gpu_arbiter_unit_held"@,
        UnitGauge::Vram => "gpu_arbiter_unit_vram_mib"@,
    }
}

/// What a gauge of units is said to be.
pub open spec fn unit_gauge_help(g: UnitGauge) -> Seq<char> {
    match g {
        UnitGauge::Running => "1 if a managed unit is active."@,
        UnitGauge::Held => "1 if an operator has manually stopped (held) this unit — the ensure-running post-step will not restart it until a manual start or a daemon restart."@,
        UnitGauge::Vram => "VRAM attributed to a managed unit (MiB)."@,
    }
}

/// The value of a gauge for a unit: none for VRAM that is not known. A unit of
/// which it could not be told whether it runs counts as one that does not.
pub open spec fn unit_gauge_value(g: UnitGauge, u: UnitStatusView) -> Option<Seq<char>> {
    match g {
        UnitGauge::Running => Some(flag_text(u.running == Some(true))),
        UnitGauge::Held => Some(flag_text(u.held)),
        UnitGauge::Vram => match u.vram_mb {
            Some(v) => Some(decimal(v as nat)),
            None => None,
        },
    }
}

/// The line of a gauge for a unit.
pub open spec fn unit_line(g: UnitGauge, u: UnitStatusView) -> Seq<char> {
    match unit_gauge_value(g, u) {
        Some(v) => sample_text(unit_gauge_name(g), seq![("unit"@, u.unit)], v),
        None => Seq::empty(),
    }
}

/// The lines of a gauge for all units.
pub open spec fn unit_lines(g: UnitGauge, units: Seq<UnitStatusView>) -> Seq<char>
    decreases units.len(),
{
    if units.len() == 0 {
        Seq::empty()
    } else {
        unit_lines(g, units.drop_last()) + unit_line(g, units.last())
    }
}

/// One gauge of the units.
pub open spec fn unit_gauge_part(g: UnitGauge, units: Seq<UnitStatusView>) -> Seq<char> {
    header_text("gauge"@, unit_gauge_name(g), unit_gauge_help(g)) + unit_lines(g, units)
}

fn write_unit_line(o: &mut String, g: UnitGauge, u: &UnitStatus)
    ensures
        final(o)@ == old(o)@ + unit_line(g, u@),
{
    let ghost before = o@;
    match g {
        UnitGauge::Running => {
            let up: bool = match u.running {
                Some(b) => b,
                None => false,
            };
            sample1(o, "gpu_arbiter_unit_running", "unit", u.unit.as_str(), flag(up));
        },
        UnitGauge::Held => {
            sample1(o, "gpu_arbiter_unit_held", "unit", u.unit.as_str(), flag(u.held));
        },
        UnitGauge::Vram => {
            if let Some(v) = u.vram_mb {
                sample1(
                    o,
                    "gpu_arbiter_unit_vram_mib",
                    "unit",
                    u.unit.as_str(),
                    write_u64(v).as_str(),
                );
            }
        },
    }
    proof {
        assert(o@ =~= before + unit_line(g, u@));
    }
}

fn write_unit_gauge(o: &mut String, g: UnitGauge, units: &Vec<UnitStatus>)
    ensures
        final(o)@ == old(o)@ + unit_gauge_part(g, crate::state::status_views(units@)),
{
    let ghost before = o@;
    let ghost uv = crate::state::status_views(units@);
    match g {
        UnitGauge::Running => metric_header(
            o,
            "gauge",
            "gpu_arbiter_unit_running",
            "1 if a managed unit is active.",
        ),
        UnitGauge::Held => metric_header(
            o,
            "gauge",
            "gpu_arbiter_unit_held",
            "1 if an operator has manually stopped (held) this unit — the ensure-running post-step will not restart it until a manual start or a daemon restart.",
        ),
        UnitGauge::Vram => metric_header(
            o,
            "gauge",
            "gpu_arbiter_unit_vram_mib",
            "VRAM attributed to a managed unit (MiB).",
        ),
    }
    let ghost base = o@;
    let mut i: usize = 0;
    proof {
        assert(uv.take(0) =~= Seq::empty());
        assert(base + unit_lines(g, uv.take(0)) =~= base);
    }
    while i < units.len()
        invariant
            i <= units.len(),
            uv == crate::state::status_views(units@),
            o@ == base + unit_lines(g, uv.take(i as int)),
        decreases units.len() - i,
    {
        write_unit_line(o, g, &units[i]);
        proof {
            let t = uv.take(i + 1);
            assert(t.drop_last() =~= uv.take(i as int));
            assert(t.last() == units@[i as int]@);
            assert(o@ =~= base + unit_lines(g, t));
        }
        i = i + 1;
    }
    proof {
        assert(uv.take(units.len() as int) =~= uv);
        assert(o@ =~= before + unit_gauge_part(g, uv));
    }
}

/// What is known of the desk.
pub open spec fn presence_part(s: SnapshotView, now_unix: i64, threshold_s: i64) -> Seq<char> {
    single_text(
        "gauge"@,
        "gpu_arbiter_local_input_last_seconds"@,
        "Unix time of the most recent physical human input."@,
        Seq::empty(),
        signed_decimal(s.local_input_last_unix as int),
    ) + single_text(
        "gauge"@,
        "gpu_arbiter_local_present"@,
        "1 if a human is locally present (recent physical input, monitor up)."@,
        Seq::empty(),
        flag_text(
            locally_present(s.local_input_last_unix, now_unix, threshold_s, s.input_monitor_up),
        ),
    ) + single_text(
        "gauge"@,
        "gpu_arbiter_physical_input_devices"@,
        "Count of watched physical human-input devices."@,
        Seq::empty(),
        decimal(s.physical_input_devices as nat),
    ) + single_text(
        "gauge"@,
        "gpu_arbiter_input_monitor_up"@,
        "1 if presence detection is healthy (else presence is unknown)."@,
        Seq::empty(),
        flag_text(s.input_monitor_up),
    )
}

fn write_presence_part(o: &mut String, s: &StatusSnapshot, now_unix: i64, threshold_s: i64)
    ensures
        final(o)@ == old(o)@ + presence_part(s@, now_unix, threshold_s),
{
    let ghost before = o@;
    let present: bool = is_local_present(
        s.local_input_last_unix,
        now_unix,
        threshold_s,
        s.input_monitor_up,
    );
    plain_gauge(
        o,
        "gpu_arbiter_local_input_last_seconds",
        "Unix time of the most recent physical human input.",
        write_i64(s.local_input_last_unix).as_str(),
    );
    plain_gauge(
        o,
        "gpu_arbiter_local_present",
        "1 if a human is locally present (recent physical input, monitor up).",
        flag(present),
    );
    plain_gauge(
        o,
        "gpu_arbiter_physical_input_devices",
        "Count of watched physical human-input devices.",
        write_u64(s.physical_input_devices as u64).as_str(),
    );
    plain_gauge(
        o,
        "gpu_arbiter_input_monitor_up",
        "1 if presence detection is healthy (else presence is unknown).",
        flag(s.input_monitor_up),
    );
    proof {
        assert(o@ =~= before + presence_part(s@, now_unix, threshold_s));
    }
}

/// The lines of one unit's evictions.
pub open spec fn eviction_lines(unit: Seq<char>, c: EvictionCounts) -> Seq<char> {
    let name = "gpu_arbiter_evictions_total"@;
    sample_text(
        name,
        seq![("unit"@, unit), ("outcome"@, "graceful"@)],
        decimal(c.graceful as nat),
    ) + sample_text(
        name,
        seq![("unit"@, unit), ("outcome"@, "sigkill"@)],
        decimal(c.sigkill as nat),
    ) + sample_text(
        name,
        seq![("unit"@, unit), ("outcome"@, "yielded"@)],
        decimal(c.yielded as nat),
    ) + sample_text(
        name,
        seq![("unit"@, unit), ("outcome"@, "error"@)],
        decimal(c.error as nat),
    )
}

/// The lines of all units' evictions, in the order of their names.
pub open spec fn evictions_lines(pairs: Seq<(Seq<char>, EvictionCounts)>) -> Seq<char>
    decreases pairs.len(),
{
    if pairs.len() == 0 {
        Seq::empty()
    } else {
        evictions_lines(pairs.drop_last()) + eviction_lines(pairs.last().0, pairs.last().1)
    }
}

/// The evictions.
pub open spec fn evictions_part(pairs: Seq<(Seq<char>, EvictionCounts)>) -> Seq<char> {
    header_text(
        "counter"@,
        "gpu_arbiter_evictions_total"@,
        "Cumulative eviction attempts by outcome (graceful|sigkill|error). A no-op (nothing to evict) is not counted. "@
            + MONOTONIC_NOTE@,
    ) + evictions_lines(pairs)
}

fn noted(text: &str) -> (r: String)
    ensures
        r@ == text@ + MONOTONIC_NOTE@,
{
    let mut h: String = text.to_owned();
    h.append(MONOTONIC_NOTE);
    h
}

fn write_evictions_part(o: &mut String, m: &Metrics)
    ensures
        final(o)@ == old(o)@ + evictions_part(m.evictions.pairs()),
{
    let ghost before = o@;
    let ghost pairs = m.evictions.pairs();
    let name = "gpu_arbiter_evictions_total";
    let help = noted(
        "Cumulative eviction attempts by outcome (graceful|sigkill|error). A no-op (nothing to evict) is not counted. ",
    );
    metric_header(o, "counter", name, help.as_str());
    let ghost base = o@;
    let mut i: usize = 0;
    proof {
        assert(pairs.take(0) =~= Seq::empty());
        assert(base + evictions_lines(pairs.take(0)) =~= base);
    }
    while i < m.evictions.entries.len()
        invariant
            i <= m.evictions.entries.len(),
            pairs == m.evictions.pairs(),
            name@ == "gpu_arbiter_evictions_total"@,
            o@ == base + evictions_lines(pairs.take(i as int)),
        decreases m.evictions.entries.len() - i,
    {
        let unit = m.evictions.entries[i].0.as_str();
        let c = m.evictions.entries[i].1;
        let ghost now = o@;
        sample2(o, name, "unit", unit, "outcome", "graceful", write_u64(c.graceful).as_str());
        sample2(o, name, "unit", unit, "outcome", "sigkill", write_u64(c.sigkill).as_str());
        sample2(o, name, "unit", unit, "outcome", "yielded", write_u64(c.yielded).as_str());
        sample2(o, name, "unit", unit, "outcome", "error", write_u64(c.error).as_str());
        proof {
            let t = pairs.take(i + 1);
            assert(t.drop_last() =~= pairs.take(i as int));
            assert(t.last() == (unit@, c));
            assert(o@ =~= now + eviction_lines(unit@, c));
            assert(o@ =~= base + evictions_lines(t));
        }
        i = i + 1;
    }
    proof {
        assert(pairs.take(pairs.len() as int) =~= pairs);
        assert(o@ =~= before + evictions_part(pairs));
    }
}

/// The lines of the hooks' failures.
pub open spec fn hook_lines(failures: Seq<FailureView>) -> Seq<char>
    decreases failures.len(),
{
    if failures.len() == 0 {
        Seq::empty()
    } else {
        let f = failures.last();
        hook_lines(failures.drop_last()) + sample_text(
            "gpu_arbiter_hook_failures_total"@,
            seq![("unit"@, f.unit), ("hook"@, f.hook.text()), ("outcome"@, f.outcome.text())],
            decimal(f.count as nat),
        )
    }
}

/// The hooks' failures.
pub open spec fn hooks_part(failures: Seq<FailureView>) -> Seq<char> {
    header_text(
        "counter"@,
        "gpu_arbiter_hook_failures_total"@,
        "Cumulative tenant-hook failures by hook (busy|yield|resume) and outcome (nonzero = ran and exited non-zero; unrunnable = could not be spawned or timed out). "@
            + MONOTONIC_NOTE@,
    ) + hook_lines(failures)
}

fn write_hooks_part(o: &mut String, failures: &Vec<(HookFailureKey, u64)>)
    ensures
        final(o)@ == old(o)@ + hooks_part(crate::units::failure_views(failures@)),
{
    let ghost before = o@;
    let ghost fv = crate::units::failure_views(failures@);
    let help = noted(
        "Cumulative tenant-hook failures by hook (busy|yield|resume) and outcome (nonzero = ran and exited non-zero; unrunnable = could not be spawned or timed out). ",
    );
    metric_header(o, "counter", "gpu_arbiter_hook_failures_total", help.as_str());
    let ghost base = o@;
    let mut i: usize = 0;
    proof {
        assert(fv.take(0) =~= Seq::empty());
        assert(base + hook_lines(fv.take(0)) =~= base);
    }
    while i < failures.len()
        invariant
            i <= failures.len(),
            fv == crate::units::failure_views(failures@),
            o@ == base + hook_lines(fv.take(i as int)),
        decreases failures.len() - i,
    {
        let key = &failures[i].0;
        sample3(
            o,
            "gpu_arbiter_hook_failures_total",
            "unit",
            key.0.as_str(),
            "hook",
            key.1.label(),
            "outcome",
            key.2.label(),
            write_u64(failures[i].1).as_str(),
        );
        proof {
            let t = fv.take(i + 1);
            assert(t.drop_last() =~= fv.take(i as int));
            assert(t.last() == fv[i as int]);
            assert(o@ =~= base + hook_lines(t));
        }
        i = i + 1;
    }
    proof {
        assert(fv.take(failures.len() as int) =~= fv);
        assert(o@ =~= before + hooks_part(fv));
    }
}

/// The line of one bucket.
pub open spec fn bucket_line(
    unit: Seq<char>,
    stage: EvictionStage,
    le: Seq<char>,
    n: u64,
) -> Seq<char> {
    sample_text(
        "gpu_arbiter_eviction_duration_seconds_bucket"@,
        seq![("unit"@, unit), ("stage"@, stage.text()), ("le"@, le)],
        decimal(n as nat),
    )
}

/// The lines of the first `n` buckets.
pub open spec fn bucket_lines(
    unit: Seq<char>,
    stage: EvictionStage,
    h: HistogramView,
    n: int,
) -> Seq<char>
    decreases n,
{
    if n <= 0 {
        Seq::empty()
    } else {
        bucket_lines(unit, stage, h, n - 1) + bucket_line(
            unit,
            stage,
            seconds_text(bucket_bound(n - 1) as nat),
            h.buckets[n - 1],
        )
    }
}

/// The lines of one histogram: its buckets, the one without a bound, how many and
/// how long in all.
pub open spec fn histogram_lines(unit: Seq<char>, stage: EvictionStage, h: HistogramView) -> Seq<
    char,
> {
    bucket_lines(unit, stage, h, 9) + bucket_line(unit, stage, "+Inf"@, h.count) + sample_text(
        "gpu_arbiter_eviction_duration_seconds_count"@,
        seq![("unit"@, unit), ("stage"@, stage.text())],
        decimal(h.count as nat),
    ) + sample_text(
        "gpu_arbiter_eviction_duration_seconds_sum"@,
        seq![("unit"@, unit), ("stage"@, stage.text())],
        seconds_text(h.sum_nanos as nat),
    )
}

/// The lines of a stage, where it was ever timed.
pub open spec fn stage_lines(unit: Seq<char>, stage: EvictionStage, s: StagesView) -> Seq<char> {
    match s.stage(stage) {
        Some(h) => histogram_lines(unit, stage, h),
        None => Seq::empty(),
    }
}

/// The lines of a unit's stages.
pub open spec fn stages_lines(unit: Seq<char>, s: StagesView) -> Seq<char> {
    stage_lines(unit, EvictionStage::Yield, s) + stage_lines(unit, EvictionStage::Stop, s)
        + stage_lines(unit, EvictionStage::Total, s)
}

/// The lines of all units' stages, in the order of their names.
pub open spec fn durations_lines(pairs: Seq<(Seq<char>, StageHistograms)>) -> Seq<char>
    decreases pairs.len(),
{
    if pairs.len() == 0 {
        Seq::empty()
    } else {
        durations_lines(pairs.drop_last()) + stages_lines(pairs.last().0, pairs.last().1@)
    }
}

/// The durations of evictions.
pub open spec fn durations_part(pairs: Seq<(Seq<char>, StageHistograms)>) -> Seq<char> {
    header_text(
        "histogram"@,
        "gpu_arbiter_eviction_duration_seconds"@,
        "Eviction wall-clock by stage (yield|stop|total). No-op evictions (nothing was running) are excluded. "@
            + MONOTONIC_NOTE@,
    ) + durations_lines(pairs)
}

fn write_bucket(o: &mut String, unit: &str, stage: EvictionStage, le: &str, n: u64)
    ensures
        final(o)@ == old(o)@ + bucket_line(unit@, stage, le@, n),
{
    sample3(
        o,
        "gpu_arbiter_eviction_duration_seconds_bucket",
        "unit",
        unit,
        "stage",
        stage.label(),
        "le",
        le,
        write_u64(n).as_str(),
    );
}

fn write_histogram(o: &mut String, unit: &str, stage: EvictionStage, h: &DurationHistogram)
    ensures
        final(o)@ == old(o)@ + histogram_lines(unit@, stage, h@),
{
    let ghost before = o@;
    let mut i: usize = 0;
    proof {
        assert(before + bucket_lines(unit@, stage, h@, 0) =~= before);
    }
    while i < BUCKETS
        invariant
            i <= BUCKETS,
            o@ == before + bucket_lines(unit@, stage, h@, i as int),
        decreases BUCKETS - i,
    {
        let le = write_seconds(bound_nanos(i) as u128);
        write_bucket(o, unit, stage, le.as_str(), h.buckets[i]);
        proof {
            assert(o@ =~= before + bucket_lines(unit@, stage, h@, i + 1));
        }
        i = i + 1;
    }
    write_bucket(o, unit, stage, "+Inf", h.count);
    sample2(
        o,
        "gpu_arbiter_eviction_duration_seconds_count",
        "unit",
        unit,
        "stage",
        stage.label(),
        write_u64(h.count).as_str(),
    );
    sample2(
        o,
        "gpu_arbiter_eviction_duration_seconds_sum",
        "unit",
        unit,
        "stage",
        stage.label(),
        write_seconds(h.sum_nanos).as_str(),
    );
    proof {
        assert(o@ =~= before + histogram_lines(unit@, stage, h@));
    }
}

fn write_stage(o: &mut String, unit: &str, stage: EvictionStage, s: &StageHistograms)
    ensures
        final(o)@ == old(o)@ + stage_lines(unit@, stage, s@),
{
    let ghost before = o@;
    if let Some(h) = s.stage(stage) {
        write_histogram(o, unit, stage, &h);
    }
    proof {
        assert(o@ =~= before + stage_lines(unit@, stage, s@));
    }
}

fn write_stages(o: &mut String, unit: &str, s: &StageHistograms)
    ensures
        final(o)@ == old(o)@ + stages_lines(unit@, s@),
{
    let ghost before = o@;
    let ghost a = stage_lines(unit@, EvictionStage::Yield, s@);
    let ghost b = stage_lines(unit@, EvictionStage::Stop, s@);
    let ghost c = stage_lines(unit@, EvictionStage::Total, s@);
    write_stage(o, unit, EvictionStage::Yield, s);
    write_stage(o, unit, EvictionStage::Stop, s);
    write_stage(o, unit, EvictionStage::Total, s);
    proof {
        assert(before + a + b + c =~= before + (a + b + c));
    }
}

fn write_durations_part(o: &mut String, m: &Metrics)
    ensures
        final(o)@ == old(o)@ + durations_part(m.eviction_durations.pairs()),
{
    let ghost before = o@;
    let ghost pairs = m.eviction_durations.pairs();
    let help = noted(
        "Eviction wall-clock by stage (yield|stop|total). No-op evictions (nothing was running) are excluded. ",
    );
    metric_header(o, "histogram", "gpu_arbiter_eviction_duration_seconds", help.as_str());
    let ghost base = o@;
    let mut i: usize = 0;
    proof {
        assert(pairs.take(0) =~= Seq::empty());
        assert(base + durations_lines(pairs.take(0)) =~= base);
    }
    while i < m.eviction_durations.entries.len()
        invariant
            i <= m.eviction_durations.entries.len(),
            pairs == m.eviction_durations.pairs(),
            o@ == base + durations_lines(pairs.take(i as int)),
        decreases m.eviction_durations.entries.len() - i,
    {
        let unit = m.eviction_durations.entries[i].0.as_str();
        let s = m.eviction_durations.entries[i].1;
        write_stages(o, unit, &s);
        proof {
            let t = pairs.take(i + 1);
            assert(t.drop_last() =~= pairs.take(i as int));
            assert(t.last() == (unit@, s));
            let d = durations_lines(pairs.take(i as int));
            assert(base + d + stages_lines(unit@, s@) =~= base + (d + stages_lines(unit@, s@)));
        }
        i = i + 1;
    }
    proof {
        assert(pairs.take(pairs.len() as int) =~= pairs);
        assert(o@ =~= before + durations_part(pairs));
    }
}

/// The lines of the units' starts, in the order of their names.
pub open spec fn restart_lines(pairs: Seq<(Seq<char>, u64)>) -> Seq<char>
    decreases pairs.len(),
{
    if pairs.len() == 0 {
        Seq::empty()
    } else {
        restart_lines(pairs.drop_last()) + sample_text(
            "gpu_arbiter_unit_restarts_total"@,
            seq![("unit"@, pairs.last().0)],
            decimal(pairs.last().1 as nat),
        )
    }
}

/// The units' starts.
pub open spec fn restarts_part(pairs: Seq<(Seq<char>, u64)>) -> Seq<char> {
    header_text(
        "counter"@,
        "gpu_arbiter_unit_restarts_total"@,
        "Cumulative successful managed-unit starts driven by the daemon (eager restore or manual start). "@
            + MONOTONIC_NOTE@,
    ) + restart_lines(pairs)
}

fn write_restarts_part(o: &mut String, m: &Metrics)
    ensures
        final(o)@ == old(o)@ + restarts_part(m.unit_restarts.pairs()),
{
    let ghost before = o@;
    let ghost pairs = m.unit_restarts.pairs();
    let help = noted(
        "Cumulative successful managed-unit starts driven by the daemon (eager restore or manual start). ",
    );
    metric_header(o, "counter", "gpu_arbiter_unit_restarts_total", help.as_str());
    let ghost base = o@;
    let mut i: usize = 0;
    proof {
        assert(pairs.take(0) =~= Seq::empty());
        assert(base + restart_lines(pairs.take(0)) =~= base);
    }
    while i < m.unit_restarts.entries.len()
        invariant
            i <= m.unit_restarts.entries.len(),
            pairs == m.unit_restarts.pairs(),
            o@ == base + restart_lines(pairs.take(i as int)),
        decreases m.unit_restarts.entries.len() - i,
    {
        let unit = m.unit_restarts.entries[i].0.as_str();
        let n: u64 = m.unit_restarts.entries[i].1;
        sample1(o, "gpu_arbiter_unit_restarts_total", "unit", unit, write_u64(n).as_str());
        proof {
            let t = pairs.take(i + 1);
            assert(t.drop_last() =~= pairs.take(i as int));
            assert(t.last() == (unit@, n));
            assert(o@ =~= base + restart_lines(t));
        }
        i = i + 1;
    }
    proof {
        assert(pairs.take(pairs.len() as int) =~= pairs);
        assert(o@ =~= before + restarts_part(pairs));
    }
}

/// The dropped events and the passes.
pub open spec fn passes_part(
    dropped: u64,
    passes: crate::metrics::ReconcilePassCounts,
) -> Seq<char> {
    let name = "gpu_arbiter_reconcile_passes_total"@;
    single_text(
        "counter"@,
        "gpu_arbiter_proc_events_dropped_total"@,
        "Cumulative cn_proc drop occurrences (kernel ENOBUFS overflow + full-channel try_send drops); the backstop timer covers the resulting gap. "@
            + MONOTONIC_NOTE@,
        Seq::empty(),
        decimal(dropped as nat),
    ) + header_text(
        "counter"@,
        name,
        "Cumulative reconcile passes by trigger. "@ + MONOTONIC_NOTE@,
    ) + sample_text(
        name,
        seq![("trigger"@, "proc_event"@)],
        decimal(passes.proc_event as nat),
    ) + sample_text(name, seq![("trigger"@, "timer"@)], decimal(passes.timer as nat)) + sample_text(
        name,
        seq![("trigger"@, "manual"@)],
        decimal(passes.manual as nat),
    ) + sample_text(name, seq![("trigger"@, "startup"@)], decimal(passes.startup as nat))
}

fn write_passes_part(o: &mut String, dropped: u64, p: crate::metrics::ReconcilePassCounts)
    ensures
        final(o)@ == old(o)@ + passes_part(dropped, p),
{
    let ghost before = o@;
    let help = noted(
        "Cumulative cn_proc drop occurrences (kernel ENOBUFS overflow + full-channel try_send drops); the backstop timer covers the resulting gap. ",
    );
    let labels: [(&str, &str); 0] = [];
    proof {
        assert(label_views(labels@) =~= Seq::empty());
    }
    counter(
        o,
        "gpu_arbiter_proc_events_dropped_total",
        help.as_str(),
        &labels,
        write_u64(dropped).as_str(),
    );
    let name = "gpu_arbiter_reconcile_passes_total";
    let help = noted("Cumulative reconcile passes by trigger. ");
    metric_header(o, "counter", name, help.as_str());
    sample1(o, name, "trigger", "proc_event", write_u64(p.proc_event).as_str());
    sample1(o, name, "trigger", "timer", write_u64(p.timer).as_str());
    sample1(o, name, "trigger", "manual", write_u64(p.manual).as_str());
    sample1(o, name, "trigger", "startup", write_u64(p.startup).as_str());
    proof {
        assert(o@ =~= before + passes_part(dropped, p));
    }
}

/// The metrics page, in the text format of Prometheus.
pub open spec fn page(
    s: SnapshotView,
    m: Metrics,
    failures: Seq<FailureView>,
    since_unix: i64,
    now_unix: i64,
    presence_threshold_s: i64,
    proc_events_dropped: u64,
) -> Seq<char> {
    build_part(s.version) + states_part(s.state) + gaming_part(s.state, s.degraded, since_unix)
        + claims_part(s.claims) + memory_part(
        s.gpu_vram_used_mb,
        s.gpu_vram_total_mb,
    ) + unit_gauge_part(UnitGauge::Running, s.units) + unit_gauge_part(UnitGauge::Held, s.units)
        + unit_gauge_part(UnitGauge::Vram, s.units) + presence_part(
        s,
        now_unix,
        presence_threshold_s,
    ) + evictions_part(m.evictions.pairs()) + hooks_part(failures) + durations_part(
        m.eviction_durations.pairs(),
    ) + restarts_part(m.unit_restarts.pairs()) + passes_part(
        proc_events_dropped,
        m.reconcile_passes,
    )
}

/// The metrics page: the state, the claims, the VRAM, the units, the desk, and what
/// has been counted.
pub fn render_metrics(
    snap: &StatusSnapshot,
    metrics: &Metrics,
    hook_failures: &Vec<(HookFailureKey, u64)>,
    since_unix: i64,
    now_unix: i64,
    presence_threshold_s: i64,
    proc_events_dropped: u64,
) -> (r: String)
    ensures
        r@ == page(
            snap@,
            *metrics,
            crate::units::failure_views(hook_failures@),
            since_unix,
            now_unix,
            presence_threshold_s,
            proc_events_dropped,
        ),
{
    let mut o: String = String::new();
    write_build_part(&mut o, snap.version.as_str());
    proof {
        assert(o@ =~= build_part(snap@.version));
    }
    write_states_part(&mut o, snap.state);
    write_gaming_part(&mut o, snap.state, snap.degraded, since_unix);
    write_claims_part(&mut o, &snap.claims);
    write_memory_part(&mut o, snap.gpu_vram_used_mb, snap.gpu_vram_total_mb);
    write_unit_gauge(&mut o, UnitGauge::Running, &snap.units);
    write_unit_gauge(&mut o, UnitGauge::Held, &snap.units);
    write_unit_gauge(&mut o, UnitGauge::Vram, &snap.units);
    write_presence_part(&mut o, snap, now_unix, presence_threshold_s);
    write_evictions_part(&mut o, metrics);
    write_hooks_part(&mut o, hook_failures);
    write_durations_part(&mut o, metrics);
    write_restarts_part(&mut o, metrics);
    write_passes_part(&mut o, proc_events_dropped, metrics.reconcile_passes);
    o
}

// ── the write path ─────────────────────────────────────────────────────────

/// What a request is answered with.
#[derive(Debug, Clone, PartialEq, Eq)]
pub struct Reply {
    /// The status code.
    pub status: u16,
    /// The body.
    pub body: String,
}

/// The value of a [`Reply`].
pub struct ReplyView {
    pub status: u16,
    pub body: Seq<char>,
}

impl View for Reply {
    type V = ReplyView;

    open spec fn view(&self) -> ReplyView {
        ReplyView { status: self.status, body: self.body@ }
    }
}

/// The body of `/healthz`.
pub const HEALTHZ_BODY: &'static str = "ok";

/// The media type of the metrics page.
pub const METRICS_CONTENT_TYPE: &'static str = "text/plain; version=0.0.4; charset=utf-8";

/// The answer to a request for a unit that is not managed.
pub open spec fn not_managed(unit: Seq<char>) -> ReplyView {
    ReplyView { status: 404, body: "'"@ + unit + "' is not a managed unit"@ }
}

/// Only a managed unit can be driven: its position, or the answer to send.
pub fn guard_unit(cfg: &Config, unit: &str) -> (r: Result<usize, Reply>)
    ensures
        match r {
            Ok(i) => unit_index(cfg@.units, unit@) == Some(i as int) && i < cfg.units@.len(),
            Err(e) => unit_index(cfg@.units, unit@) is None && e@ == not_managed(unit@),
        },
{
    match find_unit(cfg, unit) {
        Some(i) => Ok(i),
        None => {
            let mut b: String = "'".to_owned();
            b.append(unit);
            b.append("' is not a managed unit");
            Err(Reply { status: 404, body: b })
        },
    }
}

/// Whether a unit is managed.
pub fn is_managed(cfg: &Config, unit: &str) -> (r: bool)
    ensures
        r == exists|i: int| 0 <= i < cfg@.units.len() && (#[trigger] cfg@.units[i]).unit == unit@,
{
    proof {
        crate::units::lemma_unit_index(cfg@.units, unit@);
    }
    find_unit(cfg, unit).is_some()
}

/// Whether a peer is on this host.
pub fn is_localhost(peer: IpAddr) -> (r: bool)
    ensures
        r == loopback(peer@),
{
    match peer {
        IpAddr::V4(a) => a[0] == 127,
        IpAddr::V6(a) => {
            let mut i: usize = 0;
            while i < 7
                invariant
                    i <= 7,
                    peer == IpAddr::V6(a),
                    forall|j: int| 0 <= j < i ==> (#[trigger] a@[j]) == 0,
                decreases 7 - i,
            {
                if a[i] != 0 {
                    proof {
                        assert(peer@->V6_0[i as int] != 0);
                    }
                    return false;
                }
                i = i + 1;
            }
            proof {
                if a@[7] == 1 {
                    assert(peer@->V6_0 =~= seq![0int, 0, 0, 0, 0, 0, 0, 1]);
                } else {
                    assert(peer@->V6_0[7] != 1);
                }
            }
            a[7] == 1
        },
    }
}

/// Where there is no control socket, only a peer on this host may drive units.
pub fn guard_loopback(peer: IpAddr) -> (r: Result<(), Reply>)
    ensures
        match r {
            Ok(_) => loopback(peer@),
            Err(e) => !loopback(peer@) && e@ == (ReplyView {
                status: 403,
                body: "unit controls are localhost-only"@,
            }),
        },
{
    if is_localhost(peer) {
        Ok(())
    } else {
        Err(Reply { status: 403, body: "unit controls are localhost-only".to_owned() })
    }
}

/// What an operator wants of a unit.
#[derive(Debug, Clone, Copy, PartialEq, Eq, Structural)]
pub enum ManualVerb {
    /// That it starts.
    Start,
    /// That it stops.
    Stop,
}

impl ManualVerb {
    /// The verb's word.
    pub open spec fn text(self) -> Seq<char> {
        match self {
            ManualVerb::Start => "start"@,
            ManualVerb::Stop => "stop"@,
        }
    }

    /// The verb's word.
    pub fn label(self) -> (r: &'static str)
        ensures
            r@ == self.text(),
    {
        match self {
            ManualVerb::Start => "start",
            ManualVerb::Stop => "stop",
        }
    }
}

/// What came of an operator's request.
#[derive(Debug, Clone, Copy, PartialEq, Eq)]
pub enum ManualOutcome {
    /// The pass answered.
    Answered(Result<(), ManualActionError>),
    /// It could not be asked, or went away.
    Unanswered,
}

/// The answer to an operator's request.
pub open spec fn manual_answer(
    unit: Seq<char>,
    verb: ManualVerb,
    outcome: ManualOutcome,
) -> ReplyView {
    match outcome {
        ManualOutcome::Answered(Ok(_)) => ReplyView {
            status: 200,
            body: unit + " "@ + verb.text() + " requested"@,
        },
        ManualOutcome::Answered(Err(ManualActionError::GpuHeldByGame)) => ReplyView {
            status: 409,
            body: unit + " "@ + verb.text()
                + " rejected: a game currently holds the GPU (state gaming/evicting); retry once the GPU is available"@,
        },
        _ => ReplyView {
            status: 500,
            body: unit + " "@ + verb.text() + " failed (see daemon logs)"@,
        },
    }
}

/// The answer to an operator's request.
pub fn manual_reply(unit: &str, verb: ManualVerb, outcome: ManualOutcome) -> (r: Reply)
    ensures
        r@ == manual_answer(unit@, verb, outcome),
{
    let mut b: String = unit.to_owned();
    b.append(" ");
    b.append(verb.label());
    match outcome {
        ManualOutcome::Answered(Ok(_)) => {
            b.append(" requested");
            Reply { status: 200, body: b }
        },
        ManualOutcome::Answered(Err(ManualActionError::GpuHeldByGame)) => {
            b.append(
                " rejected: a game currently holds the GPU (state gaming/evicting); retry once the GPU is available",
            );
            Reply { status: 409, body: b }
        },
        _ => {
            b.append(" failed (see daemon logs)");
            Reply { status: 500, body: b }
        },
    }
}

// ── the control socket ─────────────────────────────────────────────────────

/// Why the surface is not served.
#[derive(Debug, Clone, PartialEq, Eq)]
pub enum HttpError {
    /// The system refused.
    Io(String),
    /// Somebody listens on the control socket.
    SocketInUse {
        /// The socket.
        path: String,
    },
}

impl HttpError {
    /// What the error says.
    pub open spec fn text(self) -> Seq<char> {
        match self {
            HttpError::Io(m) => "HTTP server: "@ + m@,
            HttpError::SocketInUse { path } => "control socket "@ + path@
                + " is already in use by a live process (refusing to steal it — is another gpu-arbiter instance running?)"@,
        }
    }

    /// What the error says.
    pub fn message(&self) -> (r: String)
        ensures
            r@ == self.text(),
    {
        match self {
            HttpError::Io(m) => {
                let mut o: String = "HTTP server: ".to_owned();
                o.append(m.as_str());
                o
            },
            HttpError::SocketInUse { path } => {
                let mut o: String = "control socket ".to_owned();
                o.append(path.as_str());
                o.append(
                    " is already in use by a live process (refusing to steal it — is another gpu-arbiter instance running?)",
                );
                o
            },
        }
    }
}

/// What came of connecting to the control socket before it is bound.
#[derive(Debug, Clone, Copy, PartialEq, Eq, Structural)]
pub enum SocketProbe {
    /// Somebody accepted.
    Connected,
    /// There is no such file.
    NotFound,
    /// Nobody listens.
    Refused,
    /// Something else went wrong.
    OtherError,
    /// It took too long.
    TimedOut,
}

/// Somebody may be listening: what cannot be shown to be stale is taken to be live.
pub open spec fn may_be_live(probe: SocketProbe) -> bool {
    probe != SocketProbe::NotFound && probe != SocketProbe::Refused
}

/// Whether somebody may be listening: what cannot be shown to be stale is taken to
/// be live.
pub fn socket_is_live(probe: SocketProbe) -> (r: bool)
    ensures
        r == may_be_live(probe),
{
    match probe {
        SocketProbe::NotFound => false,
        SocketProbe::Refused => false,
        _ => true,
    }
}

/// A directory lets others in: a bit for the group or for others is set, or somebody
/// else owns it.
pub open spec fn lets_others_in(mode: u32, owner_uid: u32, our_uid: u32) -> bool {
    mode & 0o077 != 0 || owner_uid != our_uid
}

/// Whether a directory lets others in: a bit for the group or for others is set, or
/// somebody else owns it.
pub fn parent_dir_is_loose(mode: u32, owner_uid: u32, our_uid: u32) -> (r: bool)
    ensures
        r == lets_others_in(mode, owner_uid, our_uid),
{
    mode & 0o077 != 0 || owner_uid != our_uid
}

/// The name of the directory in which a socket is made ready.
pub fn staging_dir_name(pid: u32, n: u64) -> (r: String)
    ensures
        r@ == ".gpu-arbiter-bind-"@ + decimal(pid as nat) + "-"@ + decimal(n as nat),
{
    let mut o: String = ".gpu-arbiter-bind-".to_owned();
    o.append(write_u64(pid as u64).as_str());
    o.append("-");
    o.append(write_u64(n).as_str());
    o
}

// ── laws ───────────────────────────────────────────────────────────────────

/// An escaped value holds no newline: one sample stays on one line.
pub proof fn escaped_stays_on_one_line(s: Seq<char>)
    ensures
        !escaped(s).contains('\n'),
    decreases s.len(),
{
    if s.len() > 0 {
        let p = escaped(s.drop_last());
        escaped_stays_on_one_line(s.drop_last());
        let r = escaped(s);
        assert forall|i: int| 0 <= i < r.len() implies r[i] != '\n' by {
            if i < p.len() {
                assert(r[i] == p[i]);
                assert(p.contains(p[i]));
            }
        }
    }
}

/// A value without anything to escape is written as it is.
pub proof fn clean_value_is_unchanged(s: Seq<char>)
    requires
        !s.contains('\\'),
        !s.contains('"'),
        !s.contains('\n'),
    ensures
        escaped(s) == s,
    decreases s.len(),
{
    if s.len() > 0 {
        let t = s.drop_last();
        assert forall|c: char| t.contains(c) implies s.contains(c) by {
            let k = choose|k: int| 0 <= k < t.len() && t[k] == c;
            assert(s[k] == c);
        }
        assert(s.contains(s[s.len() - 1]));
        clean_value_is_unchanged(t);
        assert(escaped(s) =~= s);
    } else {
        assert(escaped(s) =~= s);
    }
}

/// Only a managed unit is let through, and every managed unit is.
pub proof fn managed_units_are_let_through(cfg: crate::config::ConfigView, unit: Seq<char>)
    ensures
        unit_index(cfg.units, unit) is Some <==> exists|i: int|
            0 <= i < cfg.units.len() && (#[trigger] cfg.units[i]).unit == unit,
{
    crate::units::lemma_unit_index(cfg.units, unit);
}

/// A start that was refused because of a game is answered with a conflict, a
/// failure with a server error, and nothing else with either.
pub proof fn refusals_are_told_apart(unit: Seq<char>, verb: ManualVerb, outcome: ManualOutcome)
    ensures
        manual_answer(unit, verb, outcome).status == 409 <==> outcome == ManualOutcome::Answered(
            Err(ManualActionError::GpuHeldByGame),
        ),
        manual_answer(unit, verb, outcome).status == 200 <==> (outcome
            matches ManualOutcome::Answered(Ok(_))),
{
}

/// Escaping goes character by character: a backslash, a quote and a newline are written
/// with a backslash before them, and every other character as it is.
pub proof fn escaping_goes_by_characters(a: Seq<char>, c: char)
    ensures
        escaped(Seq::empty()) == Seq::<char>::empty(),
        escaped(a.push('\\')) == escaped(a) + seq!['\\', '\\'],
        escaped(a.push('"')) == escaped(a) + seq!['\\', '"'],
        escaped(a.push('\n')) == escaped(a) + seq!['\\', 'n'],
        c != '\\' && c != '"' && c != '\n' ==> escaped(a.push(c)) == escaped(a).push(c),
{
    assert(a.push('\\').drop_last() =~= a);
    assert(a.push('"').drop_last() =~= a);
    assert(a.push('\n').drop_last() =~= a);
    assert(a.push(c).drop_last() =~= a);
    if c != '\\' && c != '"' && c != '\n' {
        assert(escaped(a.push(c)) =~= escaped(a).push(c));
    }
}

/// A line of the page is the metric, its labels in braces, each with its value in quotes
/// and escaped, a space and the value.
pub proof fn sample_is_one_line(
    name: Seq<char>,
    k: Seq<char>,
    v: Seq<char>,
    j: Seq<char>,
    w: Seq<char>,
    value: Seq<char>,
)
    ensures
        sample_text(name, Seq::empty(), value) == name + " "@ + value + "\n"@,
        sample_text(name, seq![(k, v)], value) == name + "{"@ + (k + "=\""@ + escaped(v) + "\""@)
            + "} "@ + value + "\n"@,
        sample_text(name, seq![(k, v), (j, w)], value) == name + "{"@ + ((k + "=\""@ + escaped(v)
            + "\""@) + ","@ + (j + "=\""@ + escaped(w) + "\""@)) + "} "@ + value + "\n"@,
{
    let one = seq![(k, v)];
    let two = seq![(k, v), (j, w)];
    assert(one.drop_last() =~= Seq::empty());
    assert(two.drop_last() =~= one);
    let a = k + "=\""@ + escaped(v) + "\""@;
    let b = j + "=\""@ + escaped(w) + "\""@;
    assert(labels_text(Seq::<LabelView>::empty()) =~= Seq::empty());
    assert(labels_text(one) =~= a);
    assert(labels_text(two) =~= a + ","@ + b);
}

proof fn lemma_either(a: Seq<char>, b: Seq<char>, l: Seq<char>)
    ensures
        occurs(a, l) || occurs(b, l) ==> occurs(a + b, l),
{
    if occurs(a, l) {
        let i = choose|i: int| occurs_at(a, l, i);
        assert((a + b).subrange(i, i + l.len()) =~= a.subrange(i, i + l.len()));
        assert(occurs_at(a + b, l, i));
    }
    if occurs(b, l) {
        let i = choose|i: int| occurs_at(b, l, i);
        let n = a.len() as int;
        assert((a + b).subrange(n + i, n + i + l.len()) =~= b.subrange(i, i + l.len()));
        assert(occurs_at(a + b, l, n + i));
    }
}

proof fn lemma_itself(l: Seq<char>)
    ensures
        occurs(l, l),
{
    assert(l.subrange(0, l.len() as int) =~= l);
    assert(occurs_at(l, l, 0));
}

proof fn lemma_on_page(
    s: SnapshotView,
    m: Metrics,
    failures: Seq<FailureView>,
    since_unix: i64,
    now_unix: i64,
    threshold_s: i64,
    dropped: u64,
    l: Seq<char>,
)
    requires
        occurs(build_part(s.version), l) || occurs(states_part(s.state), l) || occurs(gaming_part(s.state, s.degraded, since_unix), l) || occurs(claims_part(s.claims), l) || occurs(memory_part(s.gpu_vram_used_mb, s.gpu_vram_total_mb), l) || occurs(unit_gauge_part(UnitGauge::Running, s.units), l) || occurs(unit_gauge_part(UnitGauge::Held, s.units), l) || occurs(unit_gauge_part(UnitGauge::Vram, s.units), l) || occurs(presence_part(s, now_unix, threshold_s), l) || occurs(evictions_part(m.evictions.pairs()), l) || occurs(hooks_part(failures), l) || occurs(durations_part(m.eviction_durations.pairs()), l) || occurs(restarts_part(m.unit_restarts.pairs()), l) || occurs(passes_part(dropped, m.reconcile_passes), l),
    ensures
        occurs(page(s, m, failures, since_unix, now_unix, threshold_s, dropped), l),
{
    let b0 = build_part(s.version);
    let b1 = states_part(s.state);
    let b2 = gaming_part(s.state, s.degraded, since_unix);
    let b3 = claims_part(s.claims);
    let b4 = memory_part(s.gpu_vram_used_mb, s.gpu_vram_total_mb);
    let b5 = unit_gauge_part(UnitGauge::Running, s.units);
    let b6 = unit_gauge_part(UnitGauge::Held, s.units);
    let b7 = unit_gauge_part(UnitGauge::Vram, s.units);
    let b8 = presence_part(s, now_unix, threshold_s);
    let b9 = evictions_part(m.evictions.pairs());
    let b10 = hooks_part(failures);
    let b11 = durations_part(m.eviction_durations.pairs());
    let b12 = restarts_part(m.unit_restarts.pairs());
    let b13 = passes_part(dropped, m.reconcile_passes);
    let a0 = b0;
    let a1 = a0 + b1;
    lemma_either(a0, b1, l);
    let a2 = a1 + b2;
    lemma_either(a1, b2, l);
    let a3 = a2 + b3;
    lemma_either(a2, b3, l);
    let a4 = a3 + b4;
    lemma_either(a3, b4, l);
    let a5 = a4 + b5;
    lemma_either(a4, b5, l);
    let a6 = a5 + b6;
    lemma_either(a5, b6, l);
    let a7 = a6 + b7;
    lemma_either(a6, b7, l);
    let a8 = a7 + b8;
    lemma_either(a7, b8, l);
    let a9 = a8 + b9;
    lemma_either(a8, b9, l);
    let a10 = a9 + b10;
    lemma_either(a9, b10, l);
    let a11 = a10 + b11;
    lemma_either(a10, b11, l);
    let a12 = a11 + b12;
    lemma_either(a11, b12, l);
    let a13 = a12 + b13;
    lemma_either(a12, b13, l);
    assert(page(s, m, failures, since_unix, now_unix, threshold_s, dropped) == a13);
}

/// The page tells of every unit whether it runs and whether it is held, and its VRAM
/// where that is known.
pub proof fn page_tells_of_every_unit(
    s: SnapshotView,
    m: Metrics,
    failures: Seq<FailureView>,
    since_unix: i64,
    now_unix: i64,
    threshold_s: i64,
    dropped: u64,
    i: int,
)
    requires
        0 <= i < s.units.len(),
    ensures
        ({
            let p = page(s, m, failures, since_unix, now_unix, threshold_s, dropped);
            let u = s.units[i];
            let label = seq![("unit"@, u.unit)];
            &&& occurs(
                p,
                sample_text(
                    "gpu_arbiter_unit_running"@,
                    label,
                    if u.running == Some(true) {
                        "1"@
                    } else {
                        "0"@
                    },
                ),
            )
            &&& occurs(
                p,
                sample_text(
                    "gpu_arbiter_unit_held"@,
                    label,
                    if u.held {
                        "1"@
                    } else {
                        "0"@
                    },
                ),
            )
            &&& u.vram_mb is Some ==> occurs(
                p,
                sample_text("gpu_arbiter_unit_vram_mib"@, label, decimal(u.vram_mb->0 as nat)),
            )
        }),
{
    let u = s.units[i];
    lemma_unit_lines(UnitGauge::Running, s.units, i);
    lemma_unit_lines(UnitGauge::Held, s.units, i);
    lemma_unit_lines(UnitGauge::Vram, s.units, i);
    let l1 = unit_line(UnitGauge::Running, u);
    let l2 = unit_line(UnitGauge::Held, u);
    let l3 = unit_line(UnitGauge::Vram, u);
    lemma_on_page(s, m, failures, since_unix, now_unix, threshold_s, dropped, l1);
    lemma_on_page(s, m, failures, since_unix, now_unix, threshold_s, dropped, l2);
    lemma_on_page(s, m, failures, since_unix, now_unix, threshold_s, dropped, l3);
}

proof fn lemma_unit_lines(g: UnitGauge, units: Seq<UnitStatusView>, i: int)
    requires
        0 <= i < units.len(),
    ensures
        occurs(unit_gauge_part(g, units), unit_line(g, units[i])),
{
    lemma_among_unit_lines(g, units, i);
    lemma_either(
        header_text("gauge"@, unit_gauge_name(g), unit_gauge_help(g)),
        unit_lines(g, units),
        unit_line(g, units[i]),
    );
}

proof fn lemma_among_unit_lines(g: UnitGauge, units: Seq<UnitStatusView>, i: int)
    requires
        0 <= i < units.len(),
    ensures
        occurs(unit_lines(g, units), unit_line(g, units[i])),
    decreases units.len(),
{
    let l = unit_line(g, units[i]);
    if i == units.len() - 1 {
        lemma_itself(l);
    } else {
        lemma_among_unit_lines(g, units.drop_last(), i);
    }
    lemma_either(unit_lines(g, units.drop_last()), unit_line(g, units.last()), l);
}

/// The page tells which state it is, that no other is, whether a game has the GPU,
/// whether something failed, and since when.
pub proof fn page_tells_the_state(
    s: SnapshotView,
    m: Metrics,
    failures: Seq<FailureView>,
    since_unix: i64,
    now_unix: i64,
    threshold_s: i64,
    dropped: u64,
    of: State,
)
    ensures
        ({
            let p = page(s, m, failures, since_unix, now_unix, threshold_s, dropped);
            let none = Seq::<LabelView>::empty();
            &&& occurs(
                p,
                sample_text(
                    "gpu_arbiter_state"@,
                    seq![("state"@, of.text())],
                    if s.state == of {
                        "1"@
                    } else {
                        "0"@
                    },
                ),
            )
            &&& occurs(
                p,
                sample_text(
                    "gpu_arbiter_gaming"@,
                    none,
                    if s.state == State::Gaming {
                        "1"@
                    } else {
                        "0"@
                    },
                ),
            )
            &&& occurs(
                p,
                sample_text(
                    "gpu_arbiter_degraded"@,
                    none,
                    if s.degraded {
                        "1"@
                    } else {
                        "0"@
                    },
                ),
            )
            &&& occurs(
                p,
                sample_text(
                    "gpu_arbiter_state_since_seconds"@,
                    none,
                    signed_decimal(since_unix as int),
                ),
            )
        }),
{
    let none = Seq::<LabelView>::empty();
    let l = state_line(of.text(), s.state == of);
    let h = header_text(
        "gauge"@,
        "gpu_arbiter_state"@,
        "Current arbiter state (1 for the active state)."@,
    );
    let g = state_line("gaming"@, s.state == State::Gaming);
    let v = state_line("available"@, s.state == State::Available);
    let e = state_line("evicting"@, s.state == State::Evicting);
    lemma_itself(l);
    lemma_either(h, g, l);
    lemma_either(h + g, v, l);
    lemma_either(h + g + v, e, l);
    lemma_on_page(s, m, failures, since_unix, now_unix, threshold_s, dropped, l);
    let h1 = header_text("gauge"@, "gpu_arbiter_gaming"@, "1 while a game holds the GPU."@);
    let x1 = sample_text("gpu_arbiter_gaming"@, none, flag_text(s.state == State::Gaming));
    let h2 = header_text(
        "gauge"@,
        "gpu_arbiter_degraded"@,
        "1 while the most recent eviction pass had at least one managed unit fail to evict (gaming still wins the GPU unconditionally — this is visibility only)."@,
    );
    let x2 = sample_text("gpu_arbiter_degraded"@, none, flag_text(s.degraded));
    let h3 = header_text(
        "gauge"@,
        "gpu_arbiter_state_since_seconds"@,
        "Unix time the current state was entered."@,
    );
    let x3 = sample_text(
        "gpu_arbiter_state_since_seconds"@,
        none,
        signed_decimal(since_unix as int),
    );
    lemma_three(h1, x1, h2, x2, h3, x3);
    lemma_on_page(s, m, failures, since_unix, now_unix, threshold_s, dropped, x1);
    lemma_on_page(s, m, failures, since_unix, now_unix, threshold_s, dropped, x2);
    lemma_on_page(s, m, failures, since_unix, now_unix, threshold_s, dropped, x3);
}

proof fn lemma_three(
    h1: Seq<char>,
    x1: Seq<char>,
    h2: Seq<char>,
    x2: Seq<char>,
    h3: Seq<char>,
    x3: Seq<char>,
)
    ensures
        occurs(h1 + x1 + (h2 + x2) + (h3 + x3), x1),
        occurs(h1 + x1 + (h2 + x2) + (h3 + x3), x2),
        occurs(h1 + x1 + (h2 + x2) + (h3 + x3), x3),
        occurs(h1 + x1 + (h2 + x2), x1),
        occurs(h1 + x1 + (h2 + x2), x2),
{
    lemma_itself(x1);
    lemma_itself(x2);
    lemma_itself(x3);
    lemma_either(h1, x1, x1);
    lemma_either(h2, x2, x2);
    lemma_either(h3, x3, x3);
    lemma_either(h1 + x1, h2 + x2, x1);
    lemma_either(h1 + x1, h2 + x2, x2);
    lemma_either(h1 + x1 + (h2 + x2), h3 + x3, x1);
    lemma_either(h1 + x1 + (h2 + x2), h3 + x3, x2);
    lemma_either(h1 + x1 + (h2 + x2), h3 + x3, x3);
}

/// The page tells the VRAM in use and in all, and how many claims there are.
pub proof fn page_tells_the_vram(
    s: SnapshotView,
    m: Metrics,
    failures: Seq<FailureView>,
    since_unix: i64,
    now_unix: i64,
    threshold_s: i64,
    dropped: u64,
)
    ensures
        ({
            let p = page(s, m, failures, since_unix, now_unix, threshold_s, dropped);
            let none = Seq::<LabelView>::empty();
            &&& occurs(
                p,
                sample_text(
                    "gpu_arbiter_vram_used_mib"@,
                    none,
                    decimal(s.gpu_vram_used_mb as nat),
                ),
            )
            &&& occurs(
                p,
                sample_text(
                    "gpu_arbiter_vram_total_mib"@,
                    none,
                    decimal(s.gpu_vram_total_mb as nat),
                ),
            )
            &&& occurs(
                p,
                sample_text("gpu_arbiter_claims"@, none, decimal(s.claims.len())),
            )
        }),
{
    let none = Seq::<LabelView>::empty();
    let e = Seq::<char>::empty();
    let h1 = header_text(
        "gauge"@,
        "gpu_arbiter_vram_used_mib"@,
        "Total GPU VRAM in use (MiB), all tenants."@,
    );
    let x1 = sample_text("gpu_arbiter_vram_used_mib"@, none, decimal(s.gpu_vram_used_mb as nat));
    let h2 = header_text(
        "gauge"@,
        "gpu_arbiter_vram_total_mib"@,
        "Total GPU VRAM capacity (MiB)."@,
    );
    let x2 = sample_text("gpu_arbiter_vram_total_mib"@, none, decimal(s.gpu_vram_total_mb as nat));
    lemma_three(h1, x1, h2, x2, e, e);
    lemma_on_page(s, m, failures, since_unix, now_unix, threshold_s, dropped, x1);
    lemma_on_page(s, m, failures, since_unix, now_unix, threshold_s, dropped, x2);
    let x3 = sample_text("gpu_arbiter_claims"@, none, decimal(s.claims.len()));
    lemma_claims_part(s.claims);
    lemma_on_page(s, m, failures, since_unix, now_unix, threshold_s, dropped, x3);
}

proof fn lemma_claims_part(claims: Seq<Seq<char>>)
    ensures
        occurs(
            claims_part(claims),
            sample_text("gpu_arbiter_claims"@, Seq::empty(), decimal(claims.len())),
        ),
        occurs(claims_part(claims), claim_lines(claims)),
{
    let x = sample_text("gpu_arbiter_claims"@, Seq::empty(), decimal(claims.len()));
    let h = header_text("gauge"@, "gpu_arbiter_claims"@, "Number of active gaming claims."@);
    lemma_itself(x);
    lemma_either(h, x, x);
    lemma_itself(claim_lines(claims));
    let g = header_text(
        "gauge"@,
        "gpu_arbiter_claim"@,
        "Active gaming claim; presence over time = launch/close."@,
    );
    lemma_either(h + x, g, x);
    lemma_either(h + x + g, claim_lines(claims), x);
    lemma_either(h + x + g, claim_lines(claims), claim_lines(claims));
}

/// The page tells of every claim, by its word and by the two halves of it.
pub proof fn page_tells_of_every_claim(
    s: SnapshotView,
    m: Metrics,
    failures: Seq<FailureView>,
    since_unix: i64,
    now_unix: i64,
    threshold_s: i64,
    dropped: u64,
    i: int,
    kind: Seq<char>,
    id: Seq<char>,
)
    requires
        0 <= i < s.claims.len(),
        s.claims[i] == kind.push(':') + id,
        !kind.contains(':'),
    ensures
        occurs(
            page(s, m, failures, since_unix, now_unix, threshold_s, dropped),
            sample_text(
                "gpu_arbiter_claim"@,
                seq![("token"@, s.claims[i]), ("kind"@, kind), ("id"@, id)],
                "1"@,
            ),
        ),
{
    crate::text::parted_at_the_first(kind, ':', id);
    let l = sample_text(
        "gpu_arbiter_claim"@,
        seq![("token"@, s.claims[i]), ("kind"@, kind), ("id"@, id)],
        "1"@,
    );
    lemma_claim_line(s.claims, i);
    lemma_claims_part(s.claims);
    lemma_within(claims_part(s.claims), claim_lines(s.claims), l);
    lemma_on_page(s, m, failures, since_unix, now_unix, threshold_s, dropped, l);
}

proof fn lemma_within(a: Seq<char>, b: Seq<char>, l: Seq<char>)
    requires
        occurs(a, b),
        occurs(b, l),
    ensures
        occurs(a, l),
{
    let i = choose|i: int| occurs_at(a, b, i);
    let j = choose|j: int| occurs_at(b, l, j);
    assert(a.subrange(i + j, i + j + l.len()) =~= l) by {
        assert forall|k: int| 0 <= k < l.len() implies a[i + j + k] == l[k] by {
            assert(a.subrange(i, i + b.len())[j + k] == a[i + j + k]);
            assert(b.subrange(j, j + l.len())[k] == b[j + k]);
        }
    }
    assert(occurs_at(a, l, i + j));
}

proof fn lemma_claim_line(claims: Seq<Seq<char>>, i: int)
    requires
        0 <= i < claims.len(),
    ensures
        occurs(
            claim_lines(claims),
            sample_text(
                "gpu_arbiter_claim"@,
                seq![
                    ("token"@, claims[i]),
                    ("kind"@, claim_parts(claims[i]).0),
                    ("id"@, claim_parts(claims[i]).1),
                ],
                "1"@,
            ),
        ),
    decreases claims.len(),
{
    let line = |t: Seq<char>|
        sample_text(
            "gpu_arbiter_claim"@,
            seq![("token"@, t), ("kind"@, claim_parts(t).0), ("id"@, claim_parts(t).1)],
            "1"@,
        );
    let l = line(claims[i]);
    if i == claims.len() - 1 {
        lemma_itself(l);
    } else {
        lemma_claim_line(claims.drop_last(), i);
    }
    lemma_either(claim_lines(claims.drop_last()), line(claims.last()), l);
}

/// The counters of evictions, starts and hook failures are written unit by unit: each
/// eviction count under its own outcome.
pub proof fn counters_are_written_unit_by_unit(
    e: Seq<(Seq<char>, EvictionCounts)>,
    r: Seq<(Seq<char>, u64)>,
    f: Seq<FailureView>,
    unit: Seq<char>,
    c: EvictionCounts,
    n: u64,
    x: FailureView,
)
    ensures
        evictions_lines(e.push((unit, c))) == evictions_lines(e) + eviction_lines(unit, c),
        occurs(
            eviction_lines(unit, c),
            sample_text(
                "gpu_arbiter_evictions_total"@,
                seq![("unit"@, unit), ("outcome"@, "graceful"@)],
                decimal(c.graceful as nat),
            ),
        ),
        occurs(
            eviction_lines(unit, c),
            sample_text(
                "gpu_arbiter_evictions_total"@,
                seq![("unit"@, unit), ("outcome"@, "sigkill"@)],
                decimal(c.sigkill as nat),
            ),
        ),
        occurs(
            eviction_lines(unit, c),
            sample_text(
                "gpu_arbiter_evictions_total"@,
                seq![("unit"@, unit), ("outcome"@, "yielded"@)],
                decimal(c.yielded as nat),
            ),
        ),
        occurs(
            eviction_lines(unit, c),
            sample_text(
                "gpu_arbiter_evictions_total"@,
                seq![("unit"@, unit), ("outcome"@, "error"@)],
                decimal(c.error as nat),
            ),
        ),
        restart_lines(r.push((unit, n))) == restart_lines(r) + sample_text(
            "gpu_arbiter_unit_restarts_total"@,
            seq![("unit"@, unit)],
            decimal(n as nat),
        ),
        hook_lines(f.push(x)) == hook_lines(f) + sample_text(
            "gpu_arbiter_hook_failures_total"@,
            seq![("unit"@, x.unit), ("hook"@, x.hook.text()), ("outcome"@, x.outcome.text())],
            decimal(x.count as nat),
        ),
{
    assert(e.push((unit, c)).drop_last() =~= e);
    assert(r.push((unit, n)).drop_last() =~= r);
    assert(f.push(x).drop_last() =~= f);
    let name = "gpu_arbiter_evictions_total"@;
    let l = |o: Seq<char>, n: u64|
        sample_text(name, seq![("unit"@, unit), ("outcome"@, o)], decimal(n as nat));
    let (g, k, y, w) = (
        l("graceful"@, c.graceful),
        l("sigkill"@, c.sigkill),
        l("yielded"@, c.yielded),
        l("error"@, c.error),
    );
    lemma_itself(g);
    lemma_itself(k);
    lemma_itself(y);
    lemma_itself(w);
    lemma_either(g, k, g);
    lemma_either(g, k, k);
    lemma_either(g + k, y, g);
    lemma_either(g + k, y, k);
    lemma_either(g + k, y, y);
    lemma_either(g + k + y, w, g);
    lemma_either(g + k + y, w, k);
    lemma_either(g + k + y, w, y);
    lemma_either(g + k + y, w, w);
}

/// What was counted of evictions, of starts and of hook failures is on the page, and so is
/// every histogram.
pub proof fn page_tells_what_was_counted(
    s: SnapshotView,
    m: Metrics,
    failures: Seq<FailureView>,
    since_unix: i64,
    now_unix: i64,
    threshold_s: i64,
    dropped: u64,
)
    ensures
        ({
            let p = page(s, m, failures, since_unix, now_unix, threshold_s, dropped);
            &&& occurs(p, evictions_lines(m.evictions.pairs()))
            &&& occurs(p, restart_lines(m.unit_restarts.pairs()))
            &&& occurs(p, hook_lines(failures))
            &&& occurs(p, durations_lines(m.eviction_durations.pairs()))
        }),
{
    let a = evictions_lines(m.evictions.pairs());
    let b = restart_lines(m.unit_restarts.pairs());
    let c = hook_lines(failures);
    let d = durations_lines(m.eviction_durations.pairs());
    lemma_itself(a);
    lemma_itself(b);
    lemma_itself(c);
    lemma_itself(d);
    lemma_either(
        header_text(
            "counter"@,
            "gpu_arbiter_evictions_total"@,
            "Cumulative eviction attempts by outcome (graceful|sigkill|error). A no-op (nothing to evict) is not counted. "@
                + MONOTONIC_NOTE@,
        ),
        a,
        a,
    );
    lemma_either(
        header_text(
            "counter"@,
            "gpu_arbiter_unit_restarts_total"@,
            "Cumulative successful managed-unit starts driven by the daemon (eager restore or manual start). "@
                + MONOTONIC_NOTE@,
        ),
        b,
        b,
    );
    lemma_either(
        header_text(
            "counter"@,
            "gpu_arbiter_hook_failures_total"@,
            "Cumulative tenant-hook failures by hook (busy|yield|resume) and outcome (nonzero = ran and exited non-zero; unrunnable = could not be spawned or timed out). "@
                + MONOTONIC_NOTE@,
        ),
        c,
        c,
    );
    lemma_either(
        header_text(
            "histogram"@,
            "gpu_arbiter_eviction_duration_seconds"@,
            "Eviction wall-clock by stage (yield|stop|total). No-op evictions (nothing was running) are excluded. "@
                + MONOTONIC_NOTE@,
        ),
        d,
        d,
    );
    lemma_on_page(s, m, failures, since_unix, now_unix, threshold_s, dropped, a);
    lemma_on_page(s, m, failures, since_unix, now_unix, threshold_s, dropped, b);
    lemma_on_page(s, m, failures, since_unix, now_unix, threshold_s, dropped, c);
    lemma_on_page(s, m, failures, since_unix, now_unix, threshold_s, dropped, d);
}

/// A histogram is written with every bucket under its own bound, the bucket without a
/// bound, the count and the sum.
pub proof fn histogram_is_written_whole(
    unit: Seq<char>,
    stage: EvictionStage,
    h: HistogramView,
    i: int,
)
    requires
        0 <= i < 9,
    ensures
        ({
            let p = histogram_lines(unit, stage, h);
            let own = seq![("unit"@, unit), ("stage"@, stage.text())];
            let bucket = "gpu_arbiter_eviction_duration_seconds_bucket"@;
            &&& occurs(
                p,
                sample_text(
                    bucket,
                    seq![
                        ("unit"@, unit),
                        ("stage"@, stage.text()),
                        ("le"@, seconds_text(bucket_bound(i) as nat)),
                    ],
                    decimal(h.buckets[i] as nat),
                ),
            )
            &&& occurs(
                p,
                sample_text(
                    bucket,
                    seq![("unit"@, unit), ("stage"@, stage.text()), ("le"@, "+Inf"@)],
                    decimal(h.count as nat),
                ),
            )
            &&& occurs(
                p,
                sample_text(
                    "gpu_arbiter_eviction_duration_seconds_count"@,
                    own,
                    decimal(h.count as nat),
                ),
            )
            &&& occurs(
                p,
                sample_text(
                    "gpu_arbiter_eviction_duration_seconds_sum"@,
                    own,
                    seconds_text(h.sum_nanos as nat),
                ),
            )
        }),
{
    let own = seq![("unit"@, unit), ("stage"@, stage.text())];
    let a = bucket_lines(unit, stage, h, 9);
    let b = bucket_line(unit, stage, "+Inf"@, h.count);
    let c = sample_text(
        "gpu_arbiter_eviction_duration_seconds_count"@,
        own,
        decimal(h.count as nat),
    );
    let d = sample_text(
        "gpu_arbiter_eviction_duration_seconds_sum"@,
        own,
        seconds_text(h.sum_nanos as nat),
    );
    let x = bucket_line(unit, stage, seconds_text(bucket_bound(i) as nat), h.buckets[i]);
    lemma_bucket_line(unit, stage, h, 9, i);
    lemma_itself(b);
    lemma_itself(c);
    lemma_itself(d);
    lemma_either(a, b, x);
    lemma_either(a, b, b);
    lemma_either(a + b, c, x);
    lemma_either(a + b, c, b);
    lemma_either(a + b, c, c);
    lemma_either(a + b + c, d, x);
    lemma_either(a + b + c, d, b);
    lemma_either(a + b + c, d, c);
    lemma_either(a + b + c, d, d);
}

proof fn lemma_bucket_line(
    unit: Seq<char>,
    stage: EvictionStage,
    h: HistogramView,
    n: int,
    i: int,
)
    requires
        0 <= i < n,
    ensures
        occurs(
            bucket_lines(unit, stage, h, n),
            bucket_line(unit, stage, seconds_text(bucket_bound(i) as nat), h.buckets[i]),
        ),
    decreases n,
{
    let x = bucket_line(unit, stage, seconds_text(bucket_bound(i) as nat), h.buckets[i]);
    let y = bucket_line(unit, stage, seconds_text(bucket_bound(n - 1) as nat), h.buckets[n - 1]);
    if i == n - 1 {
        lemma_itself(x);
    } else {
        lemma_bucket_line(unit, stage, h, n - 1, i);
    }
    lemma_either(bucket_lines(unit, stage, h, n - 1), y, x);
}

/// The stages of a unit are written where they were timed, each as its own histogram; and
/// units are written one after the other.
pub proof fn stages_are_written_where_timed(
    unit: Seq<char>,
    s: StagesView,
    stage: EvictionStage,
    pairs: Seq<(Seq<char>, StageHistograms)>,
    h: StageHistograms,
)
    ensures
        s.stage(stage) is Some ==> occurs(
            stages_lines(unit, s),
            histogram_lines(unit, stage, s.stage(stage)->0),
        ),
        durations_lines(pairs.push((unit, h))) == durations_lines(pairs) + stages_lines(unit, h@),
{
    assert(pairs.push((unit, h)).drop_last() =~= pairs);
    if s.stage(stage) is Some {
        let x = histogram_lines(unit, stage, s.stage(stage)->0);
        let a = stage_lines(unit, EvictionStage::Yield, s);
        let b = stage_lines(unit, EvictionStage::Stop, s);
        let c = stage_lines(unit, EvictionStage::Total, s);
        lemma_itself(x);
        lemma_either(a, b, x);
        lemma_either(a + b, c, x);
    }
}

/// The page tells how many passes there were, by what set them off, and how many events
/// were dropped.
pub proof fn page_tells_the_passes(
    s: SnapshotView,
    m: Metrics,
    failures: Seq<FailureView>,
    since_unix: i64,
    now_unix: i64,
    threshold_s: i64,
    dropped: u64,
)
    ensures
        ({
            let p = page(s, m, failures, since_unix, now_unix, threshold_s, dropped);
            let name = "gpu_arbiter_reconcile_passes_total"@;
            let c = m.reconcile_passes;
            &&& occurs(
                p,
                sample_text(
                    name,
                    seq![("trigger"@, "proc_event"@)],
                    decimal(c.proc_event as nat),
                ),
            )
            &&& occurs(p, sample_text(name, seq![("trigger"@, "timer"@)], decimal(c.timer as nat)))
            &&& occurs(
                p,
                sample_text(name, seq![("trigger"@, "manual"@)], decimal(c.manual as nat)),
            )
            &&& occurs(
                p,
                sample_text(name, seq![("trigger"@, "startup"@)], decimal(c.startup as nat)),
            )
            &&& occurs(
                p,
                sample_text(
                    "gpu_arbiter_proc_events_dropped_total"@,
                    Seq::empty(),
                    decimal(dropped as nat),
                ),
            )
        }),
{
    let name = "gpu_arbiter_reconcile_passes_total"@;
    let c = m.reconcile_passes;
    let h0 = header_text(
        "counter"@,
        "gpu_arbiter_proc_events_dropped_total"@,
        "Cumulative cn_proc drop occurrences (kernel ENOBUFS overflow + full-channel try_send drops); the backstop timer covers the resulting gap. "@
            + MONOTONIC_NOTE@,
    );
    let d = sample_text(
        "gpu_arbiter_proc_events_dropped_total"@,
        Seq::empty(),
        decimal(dropped as nat),
    );
    let h = header_text(
        "counter"@,
        name,
        "Cumulative reconcile passes by trigger. "@ + MONOTONIC_NOTE@,
    );
    let l1 = sample_text(name, seq![("trigger"@, "proc_event"@)], decimal(c.proc_event as nat));
    let l2 = sample_text(name, seq![("trigger"@, "timer"@)], decimal(c.timer as nat));
    let l3 = sample_text(name, seq![("trigger"@, "manual"@)], decimal(c.manual as nat));
    let l4 = sample_text(name, seq![("trigger"@, "startup"@)], decimal(c.startup as nat));
    lemma_last_lines(h0, d, h, l1, l2, l3, l4);
    lemma_on_page(s, m, failures, since_unix, now_unix, threshold_s, dropped, d);
    lemma_on_page(s, m, failures, since_unix, now_unix, threshold_s, dropped, l1);
    lemma_on_page(s, m, failures, since_unix, now_unix, threshold_s, dropped, l2);
    lemma_on_page(s, m, failures, since_unix, now_unix, threshold_s, dropped, l3);
    lemma_on_page(s, m, failures, since_unix, now_unix, threshold_s, dropped, l4);
}

proof fn lemma_last_lines(
    h0: Seq<char>,
    d: Seq<char>,
    h: Seq<char>,
    l1: Seq<char>,
    l2: Seq<char>,
    l3: Seq<char>,
    l4: Seq<char>,
)
    ensures
        ({
            let p = h0 + d + h + l1 + l2 + l3 + l4;
            occurs(p, d) && occurs(p, l1) && occurs(p, l2) && occurs(p, l3) && occurs(p, l4)
        }),
{
    let a = h0 + d;
    let b = a + h;
    let e = b + l1;
    let f = e + l2;
    let g = f + l3;
    lemma_itself(d);
    lemma_itself(l1);
    lemma_itself(l2);
    lemma_itself(l3);
    lemma_itself(l4);
    lemma_either(h0, d, d);
    lemma_either(a, h, d);
    lemma_either(b, l1, d);
    lemma_either(b, l1, l1);
    lemma_either(e, l2, d);
    lemma_either(e, l2, l1);
    lemma_either(e, l2, l2);
    lemma_either(f, l3, d);
    lemma_either(f, l3, l1);
    lemma_either(f, l3, l2);
    lemma_either(f, l3, l3);
    lemma_either(g, l4, d);
    lemma_either(g, l4, l1);
    lemma_either(g, l4, l2);
    lemma_either(g, l4, l3);
    lemma_either(g, l4, l4);
}

/// A request for a unit that is not managed is not found, and the answer names it. Every
/// answer to an operator names the unit and what was asked for.
pub proof fn answers_name_the_unit(unit: Seq<char>, verb: ManualVerb, outcome: ManualOutcome)
    ensures
        not_managed(unit).status == 404,
        occurs(not_managed(unit).body, unit),
        starts_with(manual_answer(unit, verb, outcome).body, unit + " "@ + verb.text()),
        ({
            let c = manual_answer(unit, verb, outcome).status;
            c == 200 || c == 409 || c == 500
        }),
{
    lemma_itself(unit);
    lemma_either("'"@, unit, unit);
    lemma_either("'"@ + unit, "' is not a managed unit"@, unit);
    let h = unit + " "@ + verb.text();
    let b = manual_answer(unit, verb, outcome).body;
    assert(b.subrange(0, h.len() as int) =~= h);
}

/// The page tells when there was input last, whether somebody is at the desk (input is
/// watched and was seen less than the threshold ago), how many devices are watched and
/// whether any can be.
pub proof fn page_tells_of_the_desk(
    s: SnapshotView,
    m: Metrics,
    failures: Seq<FailureView>,
    since_unix: i64,
    now_unix: i64,
    threshold_s: i64,
    dropped: u64,
)
    requires
        i64::MIN <= now_unix - s.local_input_last_unix <= i64::MAX,
    ensures
        ({
            let p = page(s, m, failures, since_unix, now_unix, threshold_s, dropped);
            let none = Seq::<LabelView>::empty();
            let here = s.input_monitor_up && now_unix - s.local_input_last_unix < threshold_s;
            &&& occurs(
                p,
                sample_text(
                    "gpu_arbiter_local_present"@,
                    none,
                    if here {
                        "1"@
                    } else {
                        "0"@
                    },
                ),
            )
            &&& occurs(
                p,
                sample_text(
                    "gpu_arbiter_local_input_last_seconds"@,
                    none,
                    signed_decimal(s.local_input_last_unix as int),
                ),
            )
            &&& occurs(
                p,
                sample_text(
                    "gpu_arbiter_physical_input_devices"@,
                    none,
                    decimal(s.physical_input_devices as nat),
                ),
            )
            &&& occurs(
                p,
                sample_text(
                    "gpu_arbiter_input_monitor_up"@,
                    none,
                    if s.input_monitor_up {
                        "1"@
                    } else {
                        "0"@
                    },
                ),
            )
        }),
{
    let none = Seq::<LabelView>::empty();
    let h1 = header_text(
        "gauge"@,
        "gpu_arbiter_local_input_last_seconds"@,
        "Unix time of the most recent physical human input."@,
    );
    let x1 = sample_text(
        "gpu_arbiter_local_input_last_seconds"@,
        none,
        signed_decimal(s.local_input_last_unix as int),
    );
    let h2 = header_text(
        "gauge"@,
        "gpu_arbiter_local_present"@,
        "1 if a human is locally present (recent physical input, monitor up)."@,
    );
    let x2 = sample_text(
        "gpu_arbiter_local_present"@,
        none,
        flag_text(
            locally_present(s.local_input_last_unix, now_unix, threshold_s, s.input_monitor_up),
        ),
    );
    let h3 = header_text(
        "gauge"@,
        "gpu_arbiter_physical_input_devices"@,
        "Count of watched physical human-input devices."@,
    );
    let x3 = sample_text(
        "gpu_arbiter_physical_input_devices"@,
        none,
        decimal(s.physical_input_devices as nat),
    );
    let h4 = header_text(
        "gauge"@,
        "gpu_arbiter_input_monitor_up"@,
        "1 if presence detection is healthy (else presence is unknown)."@,
    );
    let x4 = sample_text("gpu_arbiter_input_monitor_up"@, none, flag_text(s.input_monitor_up));
    lemma_three(h1, x1, h2, x2, h3, x3);
    let a = h1 + x1 + (h2 + x2) + (h3 + x3);
    lemma_itself(x4);
    lemma_either(h4, x4, x4);
    lemma_either(a, h4 + x4, x1);
    lemma_either(a, h4 + x4, x2);
    lemma_either(a, h4 + x4, x3);
    lemma_either(a, h4 + x4, x4);
    lemma_on_page(s, m, failures, since_unix, now_unix, threshold_s, dropped, x1);
    lemma_on_page(s, m, failures, since_unix, now_unix, threshold_s, dropped, x2);
    lemma_on_page(s, m, failures, since_unix, now_unix, threshold_s, dropped, x3);
    lemma_on_page(s, m, failures, since_unix, now_unix, threshold_s, dropped, x4);
}

/// A socket is taken over only where there is none or nobody listens: whoever accepts,
/// does not answer in time, or fails in another way is left alone.
pub proof fn only_a_stale_socket_is_taken_over(probe: SocketProbe)
    ensures
        !may_be_live(probe) <==> probe == SocketProbe::NotFound || probe == SocketProbe::Refused,
{
}

/// A directory is tight just where the last six bits of its mode are clear and it is our
/// own.
pub proof fn tight_directory_is_ours_alone(mode: u32, owner: u32, ours: u32)
    ensures
        !lets_others_in(mode, owner, ours) <==> mode % 64 == 0 && owner == ours,
{
    assert(mode & 0o077 == mode % 64) by (bit_vector);
}

/// The surface for units is open to this host alone: to the addresses that begin with 127
/// and to the one of six.
pub proof fn only_this_host_is_let_in(a: Seq<int>)
    ensures
        loopback(crate::addr::AddrView::V4(a)) <==> a[0] == 127,
        loopback(crate::addr::AddrView::V6(a)) ==> a.len() == 8 && a[7] == 1 && forall|i: int|
            0 <= i < 7 ==> (#[trigger] a[i]) == 0,
        a.len() == 8 && a[7] == 1 && (forall|i: int| 0 <= i < 7 ==> (#[trigger] a[i]) == 0)
            ==> loopback(crate::addr::AddrView::V6(a)),
{
    if a.len() == 8 && a[7] == 1 && (forall|i: int| 0 <= i < 7 ==> (#[trigger] a[i]) == 0) {
        assert(a =~= seq![0int, 0, 0, 0, 0, 0, 0, 1]);
    }
}

/// The page tells that the daemon is up, and its version.
pub proof fn page_tells_the_version(
    s: SnapshotView,
    m: Metrics,
    failures: Seq<FailureView>,
    since_unix: i64,
    now_unix: i64,
    threshold_s: i64,
    dropped: u64,
)
    ensures
        ({
            let p = page(s, m, failures, since_unix, now_unix, threshold_s, dropped);
            &&& occurs(p, sample_text("gpu_arbiter_up"@, Seq::empty(), "1"@))
            &&& occurs(
                p,
                sample_text("gpu_arbiter_build_info"@, seq![("version"@, s.version)], "1"@),
            )
        }),
{
    let e = Seq::<char>::empty();
    let h1 = header_text("gauge"@, "gpu_arbiter_up"@, "1 if the gpu-arbiter daemon is serving."@);
    let x1 = sample_text("gpu_arbiter_up"@, Seq::empty(), "1"@);
    let h2 = header_text(
        "gauge"@,
        "gpu_arbiter_build_info"@,
        "Build metadata; constant 1, version in the label."@,
    );
    let x2 = sample_text("gpu_arbiter_build_info"@, seq![("version"@, s.version)], "1"@);
    lemma_three(h1, x1, h2, x2, e, e);
    lemma_on_page(s, m, failures, since_unix, now_unix, threshold_s, dropped, x1);
    lemma_on_page(s, m, failures, since_unix, now_unix, threshold_s, dropped, x2);
}

} // verus!
