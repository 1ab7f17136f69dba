//! What the GPU's own tools report, and whose VRAM it is.

use vstd::prelude::*;

use crate::classify::{proc_views, GpuComputeProc, GpuProcView};
use crate::config::GpuBackendKind;
use crate::numerals::{
    all_digits, decimal, decimal_reads_back, digit_at, is_digit, lemma_decimal_digits, read_i32,
    read_u64, signed_decimal, signed_decimal_reads_back, signed_value, unsigned_value,
};
use crate::scan::{
    blank, is_space, lines, lines_of, lower_text, newlines_end_lines, pieces, split, three_pieces,
    to_lower, trim, trimmed, trimming_undoes_padding, without_cr,
};
use crate::text::{
    bytes_text, chars_of, contains, debug_text, has_prefix, lossy, occurs, opt_str, opt_text,
    quoted, same, starts_with, texts,
};

verus! {

/// The VRAM of the whole GPU.
#[derive(Debug, Clone, Copy, PartialEq, Eq, Default, Structural)]
pub struct GpuMemory {
    /// In use.
    pub used_mb: u64,
    /// In all.
    pub total_mb: u64,
}

/// Why the GPU was not read.
#[derive(Debug, Clone, PartialEq, Eq)]
pub enum GpuError {
    /// The system refused.
    Io {
        /// What was tried.
        context: String,
        /// What the system said.
        detail: String,
    },
    /// The tool failed.
    Exit {
        /// The tool.
        command: String,
        /// How it ended.
        status: String,
        /// What it said.
        stderr: String,
    },
    /// The tool took too long.
    Timeout {
        /// The tool.
        command: String,
        /// How long it was given.
        elapsed_s: u64,
    },
    /// No card of the AMD driver.
    NoAmdCard(String),
    /// The read did not come to an end.
    TaskPanicked(String),
    /// What was read makes no sense.
    Parse(String),
}

impl GpuError {
    /// What the error says.
    pub open spec fn text(self) -> Seq<char> {
        match self {
            GpuError::Io { context, detail } => context@ + ": "@ + detail@,
            GpuError::Exit { command, status, stderr } => command@ + " exited "@ + status@ + ": "@
                + stderr@,
            GpuError::Timeout { command, elapsed_s } => command@ + " timed out after "@
                + crate::numerals::decimal(elapsed_s as nat) + "s"@,
            GpuError::NoAmdCard(base) => "no amdgpu card with mem_info_vram_* under "@ + base@,
            GpuError::TaskPanicked(m) => "amd sysfs read task panicked: "@ + m@,
            GpuError::Parse(m) => "parsing gpu output: "@ + m@,
        }
    }

    /// What the error says.
    pub fn message(&self) -> (r: String)
        ensures
            r@ == self.text(),
    {
        match self {
            GpuError::Io { context, detail } => {
                let mut o: String = context.clone();
                o.append(": ");
                o.append(detail.as_str());
                o
            },
            GpuError::Exit { command, status, stderr } => {
                let mut o: String = command.clone();
                o.append(" exited ");
                o.append(status.as_str());
                o.append(": ");
                o.append(stderr.as_str());
                o
            },
            GpuError::Timeout { command, elapsed_s } => {
                let mut o: String = command.clone();
                o.append(" timed out after ");
                o.append(crate::numerals::write_u64(*elapsed_s).as_str());
                o.append("s");
                o
            },
            GpuError::NoAmdCard(base) => {
                let mut o: String = "no amdgpu card with mem_info_vram_* under ".to_owned();
                o.append(base.as_str());
                o
            },
            GpuError::TaskPanicked(m) => {
                let mut o: String = "amd sysfs read task panicked: ".to_owned();
                o.append(m.as_str());
                o
            },
            GpuError::Parse(m) => {
                let mut o: String = "parsing gpu output: ".to_owned();
                o.append(m.as_str());
                o
            },
        }
    }
}

/// The vendor whose tools are used.
#[derive(Debug, Clone, Copy, PartialEq, Eq, Default, Structural)]
pub enum GpuBackend {
    /// `nvidia-smi`.
    #[default]
    Nvidia,
    /// The AMD driver's files.
    Amd,
}

impl GpuBackend {
    /// The vendor that the configuration names or, where it names none, the one
    /// that is found: NVIDIA first, and also where neither is.
    pub open spec fn resolved(kind: GpuBackendKind, nvidia: bool, amd: bool) -> GpuBackend {
        match kind {
            GpuBackendKind::Nvidia => GpuBackend::Nvidia,
            GpuBackendKind::Amd => GpuBackend::Amd,
            GpuBackendKind::Auto => if !nvidia && amd {
                GpuBackend::Amd
            } else {
                GpuBackend::Nvidia
            },
        }
    }

    /// The vendor in use, given whether `nvidia-smi` and a card of the AMD driver
    /// were found.
    pub fn resolve(kind: GpuBackendKind, nvidia_smi_on_path: bool, amdgpu_card_present: bool) -> (r:
        GpuBackend)
        ensures
            r == GpuBackend::resolved(kind, nvidia_smi_on_path, amdgpu_card_present),
    {
        match kind {
            GpuBackendKind::Nvidia => GpuBackend::Nvidia,
            GpuBackendKind::Amd => GpuBackend::Amd,
            GpuBackendKind::Auto => if nvidia_smi_on_path {
                GpuBackend::Nvidia
            } else if amdgpu_card_present {
                GpuBackend::Amd
            } else {
                GpuBackend::Nvidia
            },
        }
    }

    /// Whether this vendor tells how much VRAM each process holds.
    pub fn attribution_capable(self) -> (r: bool)
        ensures
            r == (self == GpuBackend::Nvidia),
    {
        matches!(self, GpuBackend::Nvidia)
    }
}

/// The name of a card's own node: `card` and nothing but digits.
pub open spec fn card_node(name: Seq<char>) -> bool {
    starts_with(name, "card"@) && all_digits(name.skip("card"@.len() as int))
}

/// Whether a node of the display driver is a card and not one of its outputs.
pub fn is_card_node(name: &str) -> (r: bool)
    ensures
        r == card_node(name@),
{
    if !has_prefix(name, "card") {
        return false;
    }
    let cs = chars_of(name);
    let n: usize = chars_of("card").len();
    let ghost rest = name@.skip("card"@.len() as int);
    let mut i: usize = n;
    while i < cs.len()
        invariant
            n <= i <= cs.len(),
            n == "card"@.len(),
            cs@ == name@,
            rest == name@.skip(n as int),
            forall|j: int| 0 <= j < i - n ==> is_digit(#[trigger] rest[j]),
        decreases cs.len() - i,
    {
        proof {
            assert(rest[i - n] == cs@[i as int]);
        }
        if !digit_at(cs[i]) {
            return false;
        }
        i = i + 1;
    }
    true
}

/// What is known of a node of the display driver.
#[derive(Debug, Clone, PartialEq, Eq)]
pub struct DrmNode {
    /// Its name.
    pub name: String,
    /// The driver of its device.
    pub driver: Option<String>,
    /// The file that tells the VRAM in use, where it could be read.
    pub used: Option<String>,
    /// The file that tells the VRAM in all, where it could be read.
    pub total: Option<String>,
}

/// A node is a card of the AMD driver.
pub open spec fn amd_card(n: DrmNode) -> bool {
    card_node(n.name@) && opt_text(n.driver) == Some("amdgpu"@)
}

/// Whether there is a card of the AMD driver.
pub fn amdgpu_card_present(nodes: &Vec<DrmNode>) -> (r: bool)
    ensures
        r == exists|i: int| 0 <= i < nodes@.len() && amd_card(#[trigger] nodes@[i]),
{
    let mut i: usize = 0;
    while i < nodes.len()
        invariant
            i <= nodes.len(),
            forall|j: int| 0 <= j < i ==> !amd_card(#[trigger] nodes@[j]),
        decreases nodes.len() - i,
    {
        let by_amd: bool = match &nodes[i].driver {
            Some(d) => same(d.as_str(), "amdgpu"),
            None => false,
        };
        if is_card_node(nodes[i].name.as_str()) && by_amd {
            proof {
                assert(amd_card(nodes@[i as int]));
            }
            return true;
        }
        i = i + 1;
    }
    false
}

/// A node is a card that tells its VRAM.
pub open spec fn telling_card(n: DrmNode) -> bool {
    card_node(n.name@) && n.used is Some && n.total is Some
}

/// The memory that the first card that tells it reports: an error where none does.
pub open spec fn cards_report(nodes: Seq<DrmNode>) -> Option<Result<GpuMemory, Seq<char>>>
    decreases nodes.len(),
{
    if nodes.len() == 0 {
        None
    } else if telling_card(nodes[0]) {
        Some(sysfs_report(nodes[0].used->0@, nodes[0].total->0@))
    } else {
        cards_report(nodes.drop_first())
    }
}

/// The memory that the first card under `base` that tells it reports.
pub fn read_cards(base: &str, nodes: &Vec<DrmNode>) -> (r: Result<GpuMemory, GpuError>)
    ensures
        match cards_report(nodes@) {
            None => r is Err && r->Err_0 is NoAmdCard && r->Err_0->NoAmdCard_0@ == base@,
            Some(report) => match r {
                Ok(m) => report == Ok::<GpuMemory, Seq<char>>(m),
                Err(e) => e is Parse && report == Err::<GpuMemory, Seq<char>>(e->Parse_0@),
            },
        },
{
    let mut i: usize = 0;
    proof {
        assert(nodes@.skip(0) =~= nodes@);
    }
    while i < nodes.len()
        invariant
            i <= nodes.len(),
            cards_report(nodes@) == cards_report(nodes@.skip(i as int)),
        decreases nodes.len() - i,
    {
        proof {
            assert(nodes@.skip(i as int)[0] == nodes@[i as int]);
            assert(nodes@.skip(i as int).drop_first() =~= nodes@.skip(i + 1));
        }
        if is_card_node(nodes[i].name.as_str()) {
            if let Some(used) = &nodes[i].used {
                if let Some(total) = &nodes[i].total {
                    return parse_vram_sysfs(used.as_str(), total.as_str());
                }
            }
        }
        i = i + 1;
    }
    Err(GpuError::NoAmdCard(base.to_owned()))
}

/// How long `nvidia-smi` may take, in seconds.
pub const NVIDIA_SMI_TIMEOUT_S: u64 = 2;

/// What came of running `nvidia-smi`.
#[derive(Debug, Clone, PartialEq, Eq)]
pub enum SmiRun {
    /// It succeeded and wrote this text.
    Wrote(String),
    /// It succeeded and wrote no text; what is wrong with what it wrote.
    WroteNoText(String),
    /// It failed.
    Failed {
        /// How it ended.
        status: String,
        /// What it wrote to its error stream.
        stderr: Vec<u8>,
    },
    /// It could not be started; what the system said.
    NotSpawned(String),
    /// It took too long.
    TimedOut,
}

/// Why there is no output of `nvidia-smi`: what the error says.
pub open spec fn smi_error_text(run: SmiRun) -> Option<Seq<char>> {
    match run {
        SmiRun::Wrote(_) => None,
        SmiRun::WroteNoText(m) => Some(
            "parsing gpu output: "@ + ("nvidia-smi stdout not UTF-8: "@ + m@),
        ),
        SmiRun::Failed { status, stderr } => Some(
            "nvidia-smi"@ + " exited "@ + status@ + ": "@ + trimmed(bytes_text(stderr@)),
        ),
        SmiRun::NotSpawned(m) => Some("spawning nvidia-smi"@ + ": "@ + m@),
        SmiRun::TimedOut => Some(
            "nvidia-smi"@ + " timed out after "@ + crate::numerals::decimal(
                NVIDIA_SMI_TIMEOUT_S as nat,
            ) + "s"@,
        ),
    }
}

/// The output of `nvidia-smi`, or why there is none.
pub fn smi_output(run: SmiRun) -> (r: Result<String, GpuError>)
    ensures
        match r {
            Ok(s) => run == SmiRun::Wrote(s),
            Err(e) => !(run is Wrote) && smi_error_text(run) == Some(e.text()),
        },
        run is WroteNoText ==> r is Err && r->Err_0 is Parse,
        run is Failed ==> r is Err && r->Err_0 is Exit,
        run is NotSpawned ==> r is Err && r->Err_0 is Io,
        run is TimedOut ==> r is Err && r->Err_0 is Timeout,
{
    match run {
        SmiRun::Wrote(s) => Ok(s),
        SmiRun::WroteNoText(m) => {
            let mut t: String = "nvidia-smi stdout not UTF-8: ".to_owned();
            t.append(m.as_str());
            Err(GpuError::Parse(t))
        },
        SmiRun::Failed { status, stderr } => {
            let said = lossy(stderr.as_slice());
            Err(
                GpuError::Exit {
                    command: "nvidia-smi".to_owned(),
                    status,
                    stderr: trim(said.as_str()),
                },
            )
        },
        SmiRun::NotSpawned(m) => Err(
            GpuError::Io { context: "spawning nvidia-smi".to_owned(), detail: m },
        ),
        SmiRun::TimedOut => Err(
            GpuError::Timeout {
                command: "nvidia-smi".to_owned(),
                elapsed_s: NVIDIA_SMI_TIMEOUT_S,
            },
        ),
    }
}

// ── reading the tools' output ──────────────────────────────────────────────

/// The first line that is not blank, without the white space round it.
pub open spec fn first_nonblank(ls: Seq<Seq<char>>) -> Option<Seq<char>>
    decreases ls.len(),
{
    if ls.len() == 0 {
        None
    } else if trimmed(ls[0]).len() > 0 {
        Some(trimmed(ls[0]))
    } else {
        first_nonblank(ls.drop_first())
    }
}

/// The first line that is not blank, without the white space round it.
pub fn first_line(s: &str) -> (r: Option<String>)
    ensures
        opt_text(r) == first_nonblank(lines_of(s@)),
{
    let ls = lines(s);
    let ghost lv = texts(ls@);
    let mut i: usize = 0;
    proof {
        assert(lv.skip(0) =~= lv);
    }
    while i < ls.len()
        invariant
            i <= ls.len(),
            lv == texts(ls@),
            lv == lines_of(s@),
            first_nonblank(lv) == first_nonblank(lv.skip(i as int)),
        decreases ls.len() - i,
    {
        proof {
            assert(lv.skip(i as int)[0] == ls@[i as int]@);
            assert(lv.skip(i as int).drop_first() =~= lv.skip(i + 1));
        }
        let t = trim(ls[i].as_str());
        if !t.as_str().is_empty() {
            return Some(t);
        }
        i = i + 1;
    }
    None
}

/// Column `k` of a line of comma-separated values, without the white space round
/// it.
pub open spec fn column(line: Seq<char>, k: int) -> Option<Seq<char>> {
    let p = pieces(line, ',');
    if 0 <= k < p.len() {
        Some(trimmed(p[k]))
    } else {
        None
    }
}

fn column_at(cols: &Vec<String>, k: usize) -> (r: Option<String>)
    ensures
        opt_text(r) == (if k < cols@.len() {
            Some(trimmed(texts(cols@)[k as int]))
        } else {
            None
        }),
{
    if k < cols.len() {
        proof {
            assert(texts(cols@)[k as int] == cols@[k as int]@);
        }
        Some(trim(cols[k].as_str()))
    } else {
        None
    }
}

/// The number in column `k`.
pub open spec fn number_in(line: Seq<char>, k: int) -> Option<nat> {
    match column(line, k) {
        Some(c) => unsigned_value(c, u64::MAX as nat),
        None => None,
    }
}

fn number_at(cols: &Vec<String>, k: usize, Ghost(line): Ghost<Seq<char>>) -> (r: Option<u64>)
    requires
        texts(cols@) == pieces(line, ','),
    ensures
        match r {
            Some(n) => number_in(line, k as int) == Some(n as nat),
            None => number_in(line, k as int) is None,
        },
{
    match column_at(cols, k) {
        Some(c) => read_u64(c.as_str()),
        None => None,
    }
}

/// The memory that `nvidia-smi` reports, or what is wrong with the report.
pub open spec fn memory_report(out: Seq<char>) -> Result<GpuMemory, Seq<char>> {
    match first_nonblank(lines_of(out)) {
        None => Err("empty nvidia-smi output"@),
        Some(line) => match number_in(line, 0) {
            None => Err("memory.used in "@ + debug_text(line)),
            Some(used) => match number_in(line, 1) {
                None => Err("memory.total in "@ + debug_text(line)),
                Some(total) => Ok(GpuMemory { used_mb: used as u64, total_mb: total as u64 }),
            },
        },
    }
}

/// The memory that `nvidia-smi --query-gpu=memory.used,memory.total` reports of
/// its first GPU.
pub fn parse_memory_csv(out: &str) -> (r: Result<GpuMemory, GpuError>)
    ensures
        match r {
            Ok(m) => memory_report(out@) == Ok::<GpuMemory, Seq<char>>(m),
            Err(e) => e is Parse && memory_report(out@) == Err::<GpuMemory, Seq<char>>(e->Parse_0@),
        },
{
    let line = match first_line(out) {
        Some(l) => l,
        None => return Err(GpuError::Parse("empty nvidia-smi output".to_owned())),
    };
    let cols = split(line.as_str(), ',');
    let used: u64 = match number_at(&cols, 0, Ghost(line@)) {
        Some(n) => n,
        None => {
            let mut m: String = "memory.used in ".to_owned();
            m.append(quoted(line.as_str()).as_str());
            return Err(GpuError::Parse(m));
        },
    };
    let total: u64 = match number_at(&cols, 1, Ghost(line@)) {
        Some(n) => n,
        None => {
            let mut m: String = "memory.total in ".to_owned();
            m.append(quoted(line.as_str()).as_str());
            return Err(GpuError::Parse(m));
        },
    };
    Ok(GpuMemory { used_mb: used, total_mb: total })
}

/// The process that a line of the report describes: a pid and a name; VRAM that
/// is no number counts as none.
pub open spec fn proc_in_line(raw: Seq<char>) -> Option<GpuProcView> {
    let line = trimmed(raw);
    match (column(line, 0), column(line, 1)) {
        (Some(pid), Some(name)) => match signed_value(pid, i32::MIN as int, i32::MAX as int) {
            Some(n) => Some(
                GpuProcView {
                    pid: n as i32,
                    name,
                    vram_mb: match number_in(line, 2) {
                        Some(v) => v as u64,
                        None => 0,
                    },
                    owning_unit: None,
                },
            ),
            None => None,
        },
        _ => None,
    }
}

fn read_proc(raw: &str) -> (r: Option<GpuComputeProc>)
    ensures
        match r {
            Some(p) => proc_in_line(raw@) == Some(p@),
            None => proc_in_line(raw@) is None,
        },
{
    let line = trim(raw);
    let cols = split(line.as_str(), ',');
    let pid: i32 = match column_at(&cols, 0) {
        Some(c) => match read_i32(c.as_str()) {
            Some(n) => n,
            None => return None,
        },
        None => return None,
    };
    let name = match column_at(&cols, 1) {
        Some(c) => c,
        None => return None,
    };
    let vram_mb: u64 = match number_at(&cols, 2, Ghost(line@)) {
        Some(v) => v,
        None => 0,
    };
    Some(GpuComputeProc { pid, name, vram_mb, owning_unit: None })
}

/// The processes that the lines of a report describe, in order.
pub open spec fn procs_in(ls: Seq<Seq<char>>) -> Seq<GpuProcView>
    decreases ls.len(),
{
    if ls.len() == 0 {
        Seq::empty()
    } else {
        let p = procs_in(ls.drop_last());
        match proc_in_line(ls.last()) {
            Some(x) => p.push(x),
            None => p,
        }
    }
}

/// The processes that `nvidia-smi` reports with a pid, a name and the VRAM they
/// hold; lines that say something else are passed over.
pub fn parse_compute_procs_csv(out: &str) -> (r: Vec<GpuComputeProc>)
    ensures
        proc_views(r@) == procs_in(lines_of(out@)),
{
    let ls = lines(out);
    let ghost lv = texts(ls@);
    let mut procs: Vec<GpuComputeProc> = Vec::new();
    let mut i: usize = 0;
    proof {
        assert(proc_views(procs@) =~= Seq::empty());
        assert(lv.take(0) =~= Seq::empty());
    }
    while i < ls.len()
        invariant
            i <= ls.len(),
            lv == texts(ls@),
            proc_views(procs@) == procs_in(lv.take(i as int)),
        decreases ls.len() - i,
    {
        let ghost before = procs@;
        proof {
            assert(lv.take(i + 1).drop_last() =~= lv.take(i as int));
            assert(lv.take(i + 1).last() == ls@[i as int]@);
        }
        if let Some(p) = read_proc(ls[i].as_str()) {
            procs.push(p);
            proof {
                assert(proc_views(procs@) =~= proc_views(before).push(p@));
            }
        }
        i = i + 1;
    }
    proof {
        assert(lv.take(ls.len() as int) =~= lv);
    }
    procs
}

/// Bytes in whole MiB.
pub open spec fn mib(bytes: nat) -> nat {
    bytes / 1048576
}

fn bytes_to_mib(bytes: u64) -> (r: u64)
    ensures
        r == mib(bytes as nat),
{
    bytes / 1024 / 1024
}

/// The memory that the AMD driver's two files report, or what is wrong.
pub open spec fn sysfs_report(used: Seq<char>, total: Seq<char>) -> Result<GpuMemory, Seq<char>> {
    match unsigned_value(trimmed(used), u64::MAX as nat) {
        None => Err("mem_info_vram_used in "@ + debug_text(used)),
        Some(u) => match unsigned_value(trimmed(total), u64::MAX as nat) {
            None => Err("mem_info_vram_total in "@ + debug_text(total)),
            Some(t) => Ok(GpuMemory { used_mb: mib(u) as u64, total_mb: mib(t) as u64 }),
        },
    }
}

/// The memory that the AMD driver's two files report, in bytes.
pub fn parse_vram_sysfs(used_bytes: &str, total_bytes: &str) -> (r: Result<GpuMemory, GpuError>)
    ensures
        match r {
            Ok(m) => sysfs_report(used_bytes@, total_bytes@) == Ok::<GpuMemory, Seq<char>>(m),
            Err(e) => e is Parse && sysfs_report(used_bytes@, total_bytes@) == Err::<
                GpuMemory,
                Seq<char>,
            >(e->Parse_0@),
        },
{
    let used: u64 = match read_u64(trim(used_bytes).as_str()) {
        Some(n) => n,
        None => {
            let mut m: String = "mem_info_vram_used in ".to_owned();
            m.append(quoted(used_bytes).as_str());
            return Err(GpuError::Parse(m));
        },
    };
    let total: u64 = match read_u64(trim(total_bytes).as_str()) {
        Some(n) => n,
        None => {
            let mut m: String = "mem_info_vram_total in ".to_owned();
            m.append(quoted(total_bytes).as_str());
            return Err(GpuError::Parse(m));
        },
    };
    Ok(GpuMemory { used_mb: bytes_to_mib(used), total_mb: bytes_to_mib(total) })
}

// ── whose VRAM ─────────────────────────────────────────────────────────────

/// The VRAM of the processes that `f` picks.
pub open spec fn vram_where(procs: Seq<GpuProcView>, f: spec_fn(GpuProcView) -> bool) -> nat
    decreases procs.len(),
{
    if procs.len() == 0 {
        0
    } else {
        vram_where(procs.drop_last(), f) + if f(procs.last()) {
            procs.last().vram_mb as nat
        } else {
            0
        }
    }
}

/// `f` picks some process.
pub open spec fn any_where(procs: Seq<GpuProcView>, f: spec_fn(GpuProcView) -> bool) -> bool {
    exists|i: int| 0 <= i < procs.len() && f(#[trigger] procs[i])
}

/// Picks the processes with `needle` in their name, whatever the ASCII case.
pub open spec fn by_name(needle: Seq<char>) -> spec_fn(GpuProcView) -> bool {
    |p: GpuProcView| occurs(lower_text(p.name), lower_text(needle))
}

/// Picks the processes of a unit.
pub open spec fn by_unit(unit: Seq<char>) -> spec_fn(GpuProcView) -> bool {
    |p: GpuProcView| p.owning_unit == Some(unit)
}

/// The VRAM of the first processes is at most that of all.
pub proof fn lemma_vram_prefix(
    procs: Seq<GpuProcView>,
    f: spec_fn(GpuProcView) -> bool,
    n: int,
)
    requires
        0 <= n <= procs.len(),
    ensures
        vram_where(procs.take(n), f) <= vram_where(procs, f),
    decreases procs.len(),
{
    if n == procs.len() {
        assert(procs.take(n) =~= procs);
    } else {
        assert(procs.drop_last().take(n) =~= procs.take(n));
        lemma_vram_prefix(procs.drop_last(), f, n);
    }
}

fn owned_by(p: &GpuComputeProc, unit: &str) -> (r: bool)
    ensures
        r == by_unit(unit@)(p@),
{
    match &p.owning_unit {
        Some(u) => same(u.as_str(), unit),
        None => false,
    }
}

/// Whether the VRAM of the processes with `needle` in their name is a number that a
/// `u64` can hold.
pub fn name_sum_fits(compute: &[GpuComputeProc], needle: &str) -> (r: bool)
    ensures
        r == (vram_where(proc_views(compute@), by_name(needle@)) <= u64::MAX),
{
    let low = to_lower(needle);
    let ghost pv = proc_views(compute@);
    let ghost f = by_name(needle@);
    let mut sum: u64 = 0;
    let mut i: usize = 0;
    proof {
        assert(pv.take(0) =~= Seq::empty());
    }
    while i < compute.len()
        invariant
            i <= compute.len(),
            low@ == lower_text(needle@),
            pv == proc_views(compute@),
            f == by_name(needle@),
            sum == vram_where(pv.take(i as int), f),
        decreases compute.len() - i,
    {
        proof {
            assert(pv.take(i + 1).drop_last() =~= pv.take(i as int));
            assert(pv.take(i + 1).last() == compute@[i as int]@);
            lemma_vram_prefix(pv, f, i + 1);
        }
        if contains(to_lower(compute[i].name.as_str()).as_str(), low.as_str()) {
            if compute[i].vram_mb > u64::MAX - sum {
                return false;
            }
            sum = sum + compute[i].vram_mb;
        }
        i = i + 1;
    }
    proof {
        assert(pv.take(compute.len() as int) =~= pv);
    }
    true
}

/// Whether the VRAM of a unit's processes is a number that a `u64` can hold.
pub fn unit_sum_fits(compute: &[GpuComputeProc], unit_name: &str) -> (r: bool)
    ensures
        r == (vram_where(proc_views(compute@), by_unit(unit_name@)) <= u64::MAX),
{
    let ghost pv = proc_views(compute@);
    let ghost f = by_unit(unit_name@);
    let mut sum: u64 = 0;
    let mut i: usize = 0;
    proof {
        assert(pv.take(0) =~= Seq::empty());
    }
    while i < compute.len()
        invariant
            i <= compute.len(),
            pv == proc_views(compute@),
            f == by_unit(unit_name@),
            sum == vram_where(pv.take(i as int), f),
        decreases compute.len() - i,
    {
        proof {
            assert(pv.take(i + 1).drop_last() =~= pv.take(i as int));
            assert(pv.take(i + 1).last() == compute@[i as int]@);
            lemma_vram_prefix(pv, f, i + 1);
        }
        if owned_by(&compute[i], unit_name) {
            if compute[i].vram_mb > u64::MAX - sum {
                return false;
            }
            sum = sum + compute[i].vram_mb;
        }
        i = i + 1;
    }
    proof {
        assert(pv.take(compute.len() as int) =~= pv);
    }
    true
}

/// The VRAM of the processes with `needle` in their name, whatever the ASCII
/// case, where there is such a process.
pub fn vram_mb_matching(compute: &[GpuComputeProc], needle: &str) -> (r: Option<u64>)
    requires
        vram_where(proc_views(compute@), by_name(needle@)) <= u64::MAX,
    ensures
        match r {
            Some(n) => any_where(proc_views(compute@), by_name(needle@)) && n == vram_where(
                proc_views(compute@),
                by_name(needle@),
            ),
            None => !any_where(proc_views(compute@), by_name(needle@)),
        },
{
    let low = to_lower(needle);
    let ghost pv = proc_views(compute@);
    let ghost f = by_name(needle@);
    let mut any: bool = false;
    let mut sum: u64 = 0;
    let mut i: usize = 0;
    proof {
        assert(pv.take(0) =~= Seq::empty());
    }
    while i < compute.len()
        invariant
            i <= compute.len(),
            low@ == lower_text(needle@),
            pv == proc_views(compute@),
            f == by_name(needle@),
            vram_where(pv, f) <= u64::MAX,
            sum == vram_where(pv.take(i as int), f),
            any == any_where(pv.take(i as int), f),
        decreases compute.len() - i,
    {
        proof {
            let t = pv.take(i + 1);
            assert(t.drop_last() =~= pv.take(i as int));
            assert(t.last() == compute@[i as int]@);
            lemma_vram_prefix(pv, f, i + 1);
            lemma_any_step(pv, f, i as int);
        }
        if contains(to_lower(compute[i].name.as_str()).as_str(), low.as_str()) {
            any = true;
            sum = sum + compute[i].vram_mb;
        }
        i = i + 1;
    }
    proof {
        assert(pv.take(compute.len() as int) =~= pv);
    }
    if any {
        Some(sum)
    } else {
        None
    }
}

proof fn lemma_any_step(procs: Seq<GpuProcView>, f: spec_fn(GpuProcView) -> bool, n: int)
    requires
        0 <= n < procs.len(),
    ensures
        any_where(procs.take(n + 1), f) == (any_where(procs.take(n), f) || f(procs[n])),
{
    let a = procs.take(n);
    let b = procs.take(n + 1);
    if any_where(a, f) {
        let i = choose|i: int| 0 <= i < a.len() && f(#[trigger] a[i]);
        assert(b[i] == a[i]);
    }
    if f(procs[n]) {
        assert(b[n] == procs[n]);
    }
    if any_where(b, f) {
        let i = choose|i: int| 0 <= i < b.len() && f(#[trigger] b[i]);
        if i < n {
            assert(a[i] == b[i]);
        }
    }
}

/// The VRAM of a unit's processes: nothing where it has none.
fn unit_vram_sum(compute: &[GpuComputeProc], unit_name: &str) -> (r: u64)
    requires
        vram_where(proc_views(compute@), by_unit(unit_name@)) <= u64::MAX,
    ensures
        r == vram_where(proc_views(compute@), by_unit(unit_name@)),
{
    let ghost pv = proc_views(compute@);
    let ghost f = by_unit(unit_name@);
    let mut sum: u64 = 0;
    let mut i: usize = 0;
    proof {
        assert(pv.take(0) =~= Seq::empty());
    }
    while i < compute.len()
        invariant
            i <= compute.len(),
            pv == proc_views(compute@),
            f == by_unit(unit_name@),
            vram_where(pv, f) <= u64::MAX,
            sum == vram_where(pv.take(i as int), f),
        decreases compute.len() - i,
    {
        proof {
            let t = pv.take(i + 1);
            assert(t.drop_last() =~= pv.take(i as int));
            assert(t.last() == compute@[i as int]@);
            lemma_vram_prefix(pv, f, i + 1);
        }
        if owned_by(&compute[i], unit_name) {
            sum = sum + compute[i].vram_mb;
        }
        i = i + 1;
    }
    proof {
        assert(pv.take(compute.len() as int) =~= pv);
    }
    sum
}

/// The VRAM of a unit's processes, where it has any.
pub fn vram_mb_by_cgroup(compute: &[GpuComputeProc], unit_name: &str) -> (r: Option<u64>)
    requires
        vram_where(proc_views(compute@), by_unit(unit_name@)) <= u64::MAX,
    ensures
        match r {
            Some(n) => any_where(proc_views(compute@), by_unit(unit_name@)) && n == vram_where(
                proc_views(compute@),
                by_unit(unit_name@),
            ),
            None => !any_where(proc_views(compute@), by_unit(unit_name@)),
        },
{
    let ghost pv = proc_views(compute@);
    let ghost f = by_unit(unit_name@);
    let mut i: usize = 0;
    while i < compute.len()
        invariant
            i <= compute.len(),
            pv == proc_views(compute@),
            f == by_unit(unit_name@),
            vram_where(pv, f) <= u64::MAX,
            forall|j: int| 0 <= j < i ==> !f(#[trigger] pv[j]),
        decreases compute.len() - i,
    {
        proof {
            assert(pv[i as int] == compute@[i as int]@);
        }
        if owned_by(&compute[i], unit_name) {
            return Some(unit_vram_sum(compute, unit_name));
        }
        i = i + 1;
    }
    None
}

/// What the list of compute processes says of a unit's VRAM. A unit of systemd is
/// known by its control group, and holds nothing where the list shows nothing.
/// Another is known by the text it gives; without one, nothing is known.
pub open spec fn unit_vram(
    compute: Option<Seq<GpuProcView>>,
    is_systemd: bool,
    unit: Seq<char>,
    vram_match: Option<Seq<char>>,
) -> Option<nat> {
    match compute {
        None => None,
        Some(procs) => if is_systemd {
            Some(vram_where(procs, by_unit(unit)))
        } else {
            match vram_match {
                Some(needle) => Some(vram_where(procs, by_name(needle))),
                None => None,
            }
        },
    }
}

/// What is known of a unit's VRAM, where it is known, is a number that a `u64` can
/// hold.
pub open spec fn is_number(vram: Option<nat>) -> bool {
    match vram {
        Some(n) => n <= u64::MAX,
        None => true,
    }
}

/// The value of an optional list of processes.
pub open spec fn opt_procs(compute: Option<&[GpuComputeProc]>) -> Option<Seq<GpuProcView>> {
    match compute {
        Some(p) => Some(proc_views(p@)),
        None => None,
    }
}

/// Processes none of which is picked hold nothing that counts.
pub proof fn lemma_none_where(procs: Seq<GpuProcView>, f: spec_fn(GpuProcView) -> bool)
    requires
        !any_where(procs, f),
    ensures
        vram_where(procs, f) == 0,
    decreases procs.len(),
{
    if procs.len() > 0 {
        let t = procs.drop_last();
        assert(!any_where(t, f)) by {
            if any_where(t, f) {
                let i = choose|i: int| 0 <= i < t.len() && f(#[trigger] t[i]);
                assert(procs[i] == t[i]);
            }
        }
        assert(!f(procs[procs.len() - 1]));
        lemma_none_where(t, f);
    }
}

/// Whether what the list of compute processes says of a unit's VRAM is a number that
/// a `u64` can hold.
pub fn unit_vram_fits(
    compute: Option<&[GpuComputeProc]>,
    is_systemd: bool,
    unit_name: &str,
    vram_match: Option<&str>,
) -> (r: bool)
    ensures
        r == is_number(
            unit_vram(opt_procs(compute), is_systemd, unit_name@, opt_str(vram_match)),
        ),
{
    match compute {
        None => true,
        Some(procs) => if is_systemd {
            unit_sum_fits(procs, unit_name)
        } else {
            match vram_match {
                Some(needle) => name_sum_fits(procs, needle),
                None => true,
            }
        },
    }
}

/// What the list of compute processes says of a unit's VRAM.
pub fn attribute_unit_vram(
    compute: Option<&[GpuComputeProc]>,
    is_systemd: bool,
    unit_name: &str,
    vram_match: Option<&str>,
) -> (r: Option<u64>)
    requires
        is_number(unit_vram(opt_procs(compute), is_systemd, unit_name@, opt_str(vram_match))),
    ensures
        match r {
            Some(n) => unit_vram(opt_procs(compute), is_systemd, unit_name@, opt_str(vram_match))
                == Some(n as nat),
            None => unit_vram(
                opt_procs(compute),
                is_systemd,
                unit_name@,
                opt_str(vram_match),
            ) is None,
        },
{
    match compute {
        None => None,
        Some(procs) => if is_systemd {
            Some(unit_vram_sum(procs, unit_name))
        } else {
            match vram_match {
                Some(needle) => {
                    proof {
                        if !any_where(proc_views(procs@), by_name(needle@)) {
                            lemma_none_where(proc_views(procs@), by_name(needle@));
                        }
                    }
                    match vram_mb_matching(procs, needle) {
                        Some(n) => Some(n),
                        None => Some(0),
                    }
                },
                None => None,
            }
        },
    }
}

// ── laws ───────────────────────────────────────────────────────────────────

/// A unit of systemd is known by its control group alone: what its processes are
/// called changes nothing.
pub proof fn systemd_unit_ignores_names(
    compute: Option<Seq<GpuProcView>>,
    unit: Seq<char>,
    a: Option<Seq<char>>,
    b: Option<Seq<char>>,
)
    ensures
        unit_vram(compute, true, unit, a) == unit_vram(compute, true, unit, b),
{
}

/// Matching by name ignores ASCII case on both sides: two texts that are equal when
/// lowered pick the same processes, two names that are equal when lowered are picked
/// alike, a text that stands in a name picks it, and what is picked holds the text
/// but for its case.
pub proof fn matching_ignores_case(p: GpuProcView, q: GpuProcView, a: Seq<char>, b: Seq<char>)
    ensures
        lower_text(a) == lower_text(b) ==> by_name(a)(p) == by_name(b)(p),
        lower_text(p.name) == lower_text(q.name) ==> by_name(a)(p) == by_name(a)(q),
        occurs(p.name, a) ==> by_name(a)(p),
        by_name(a)(p) ==> exists|i: int|
            0 <= i && i + a.len() <= p.name.len() && lower_text(
                #[trigger] p.name.subrange(i, i + a.len()),
            ) == lower_text(a),
{
    if occurs(p.name, a) {
        crate::scan::lowered_parts_occur(p.name, a);
    }
    if by_name(a)(p) {
        let i = choose|i: int|
            crate::text::occurs_at(lower_text(p.name), lower_text(a), i);
        assert(lower_text(p.name).subrange(i, i + a.len()) =~= lower_text(
            p.name.subrange(i, i + a.len()),
        ));
        assert(lower_text(p.name.subrange(i, i + a.len())) == lower_text(a));
    }
}

/// The VRAM of a unit of systemd is the sum over the processes in its control group:
/// a process more adds what it holds where it is the unit's, and nothing else.
pub proof fn own_processes_add_up(procs: Seq<GpuProcView>, p: GpuProcView, unit: Seq<char>)
    ensures
        unit_vram(Some(Seq::empty()), true, unit, None) == Some(0nat),
        unit_vram(Some(procs.push(p)), true, unit, None)->0 == unit_vram(
            Some(procs),
            true,
            unit,
            None,
        )->0 + (if p.owning_unit == Some(unit) {
            p.vram_mb as nat
        } else {
            0
        }),
        unit_vram(Some(procs), true, unit, None) is Some,
{
    assert(procs.push(p).drop_last() =~= procs);
}

/// The VRAM of a unit that is found by name is the sum over the processes that its
/// text picks: a process more adds what it holds where its name holds the text,
/// whatever the case, and nothing else.
pub proof fn matching_processes_add_up(
    procs: Seq<GpuProcView>,
    p: GpuProcView,
    unit: Seq<char>,
    needle: Seq<char>,
)
    ensures
        unit_vram(Some(Seq::empty()), false, unit, Some(needle)) == Some(0nat),
        unit_vram(Some(procs), false, unit, Some(needle)) is Some,
        occurs(lower_text(p.name), lower_text(needle)) ==> unit_vram(
            Some(procs.push(p)),
            false,
            unit,
            Some(needle),
        )->0 == unit_vram(Some(procs), false, unit, Some(needle))->0 + p.vram_mb,
        !occurs(lower_text(p.name), lower_text(needle)) ==> unit_vram(
            Some(procs.push(p)),
            false,
            unit,
            Some(needle),
        ) == unit_vram(Some(procs), false, unit, Some(needle)),
{
    assert(procs.push(p).drop_last() =~= procs);
}

/// Where the processes could not be listed, or a unit can be found neither by its
/// control group nor by a text, nothing is known of its VRAM.
pub proof fn unknown_vram_is_not_zero(procs: Seq<GpuProcView>, systemd: bool, unit: Seq<char>, m:
    Option<Seq<char>>)
    ensures
        unit_vram(None, systemd, unit, m) is None,
        unit_vram(Some(procs), false, unit, None) is None,
        systemd || m is Some ==> unit_vram(Some(procs), systemd, unit, m) is Some,
{
}

/// Where no process is picked, none of VRAM is; so a zero and nothing are told apart
/// by whether a process was found.
pub proof fn sum_of_none_is_zero(procs: Seq<GpuProcView>, f: spec_fn(GpuProcView) -> bool, i: int)
    ensures
        !any_where(procs, f) ==> vram_where(procs, f) == 0,
        0 <= i < procs.len() && f(procs[i]) ==> any_where(procs, f) && vram_where(procs, f)
            >= procs[i].vram_mb,
    decreases procs.len(),
{
    if !any_where(procs, f) {
        lemma_none_where(procs, f);
    }
    if 0 <= i < procs.len() && f(procs[i]) {
        lemma_vram_prefix(procs, f, i + 1);
        assert(procs.take(i + 1).last() == procs[i]);
    }
}

/// A line that holds a number of a process, its name and its VRAM, with commas
/// between them and white space round them, is read as that process. VRAM that is no
/// number counts as none.
pub proof fn process_line_reads_back(
    pid: int,
    name: Seq<char>,
    vram: nat,
    odd: Seq<char>,
)
    requires
        i32::MIN <= pid <= i32::MAX,
        vram <= u64::MAX,
        !name.contains(','),
        name.len() > 0,
        !is_space(name[0]),
        !is_space(name.last()),
        !odd.contains(','),
        odd.len() > 0,
        !is_space(odd[0]),
        !is_space(odd.last()),
        unsigned_value(odd, u64::MAX as nat) is None,
    ensures
        ({
            let p = GpuProcView {
                pid: pid as i32,
                name,
                vram_mb: vram as u64,
                owning_unit: None,
            };
            let head = signed_decimal(pid).push(',') + (seq![' '] + name).push(',');
            &&& proc_in_line(head + (seq![' '] + decimal(vram))) == Some(p)
            &&& proc_in_line(head + (seq![' '] + odd)) == Some(GpuProcView { vram_mb: 0, ..p })
        }),
{
    decimal_reads_back(vram, u64::MAX as nat);
    lemma_plain_decimal(vram);
    lemma_process_line(pid, name, decimal(vram));
    lemma_process_line(pid, name, odd);
}

/// The digits of a number hold no comma and no white space.
proof fn lemma_plain_decimal(n: nat)
    ensures
        decimal(n).len() > 0,
        !decimal(n).contains(','),
        !is_space(decimal(n)[0]),
        !is_space(decimal(n).last()),
{
    lemma_decimal_digits(n);
    let d = decimal(n);
    assert(is_digit(d[0]));
    assert(is_digit(d[d.len() - 1]));
    if d.contains(',') {
        let i = choose|i: int| 0 <= i < d.len() && d[i] == ',';
        assert(is_digit(d[i]));
    }
}

proof fn lemma_plain_signed(n: int)
    ensures
        signed_decimal(n).len() > 0,
        !signed_decimal(n).contains(','),
        !is_space(signed_decimal(n)[0]),
        !is_space(signed_decimal(n).last()),
{
    if n < 0 {
        lemma_plain_decimal((-n) as nat);
        let d = decimal((-n) as nat);
        let s = signed_decimal(n);
        assert(s.last() == d.last());
        if s.contains(',') {
            let i = choose|i: int| 0 <= i < s.len() && s[i] == ',';
            assert(d[i - 1] == ',');
        }
    } else {
        lemma_plain_decimal(n as nat);
    }
}

proof fn lemma_process_line(pid: int, name: Seq<char>, v: Seq<char>)
    requires
        i32::MIN <= pid <= i32::MAX,
        !name.contains(','),
        name.len() > 0,
        !is_space(name[0]),
        !is_space(name.last()),
        !v.contains(','),
        v.len() > 0,
        !is_space(v[0]),
        !is_space(v.last()),
    ensures
        ({
            let line = signed_decimal(pid).push(',') + (seq![' '] + name).push(',') + (seq![' ']
                + v);
            proc_in_line(line) == Some(
                GpuProcView {
                    pid: pid as i32,
                    name,
                    vram_mb: match unsigned_value(v, u64::MAX as nat) {
                        Some(n) => n as u64,
                        None => 0,
                    },
                    owning_unit: None,
                },
            )
        }),
{
    let a = signed_decimal(pid);
    let b = seq![' '] + name;
    let d = seq![' '] + v;
    let line = a.push(',') + b.push(',') + d;
    let e = Seq::<char>::empty();
    let sp = seq![' '];
    lemma_plain_signed(pid);
    signed_decimal_reads_back(pid, i32::MIN as int, i32::MAX as int);
    assert(!b.contains(',')) by {
        if b.contains(',') {
            let i = choose|i: int| 0 <= i < b.len() && b[i] == ',';
            assert(name[i - 1] == ',');
        }
    }
    assert(!d.contains(',')) by {
        if d.contains(',') {
            let i = choose|i: int| 0 <= i < d.len() && d[i] == ',';
            assert(v[i - 1] == ',');
        }
    }
    assert(line[0] == a[0]);
    assert(line.last() == v.last());
    assert(line =~= e + line + e);
    trimming_undoes_padding(e, line, e);
    assert(line =~= a.push(',') + (b.push(',') + d));
    three_pieces(a, b, d, ',');
    assert(a =~= e + a + e);
    trimming_undoes_padding(e, a, e);
    assert(blank(sp));
    assert(b =~= sp + name + e);
    trimming_undoes_padding(sp, name, e);
    assert(d =~= sp + v + e);
    trimming_undoes_padding(sp, v, e);
}

/// The lines of a listing count one by one: a line more adds the process that it
/// holds, or nothing.
pub proof fn listing_is_read_line_by_line(ls: Seq<Seq<char>>, l: Seq<char>)
    ensures
        procs_in(Seq::empty()) == Seq::<GpuProcView>::empty(),
        procs_in(ls.push(l)) == (match proc_in_line(l) {
            Some(p) => procs_in(ls).push(p),
            None => procs_in(ls),
        }),
{
    assert(ls.push(l).drop_last() =~= ls);
}

/// Two numbers with a comma between them are read as the memory in use and the
/// memory in all.
pub proof fn memory_line_reads_back(used: nat, total: nat)
    requires
        used <= u64::MAX,
        total <= u64::MAX,
    ensures
        ({
            let line = decimal(used).push(',') + (seq![' '] + decimal(total));
            &&& memory_report(line) == Ok::<GpuMemory, Seq<char>>(
                GpuMemory { used_mb: used as u64, total_mb: total as u64 },
            )
            &&& memory_report(line.push('\n')) == memory_report(line)
        }),
{
    let (a, v) = (decimal(used), decimal(total));
    let d = seq![' '] + v;
    let line = a.push(',') + d;
    let e = Seq::<char>::empty();
    let sp = seq![' '];
    lemma_plain_decimal(used);
    lemma_plain_decimal(total);
    decimal_reads_back(used, u64::MAX as nat);
    decimal_reads_back(total, u64::MAX as nat);
    assert(!d.contains(',')) by {
        if d.contains(',') {
            let i = choose|i: int| 0 <= i < d.len() && d[i] == ',';
            assert(v[i - 1] == ',');
        }
    }
    lemma_decimal_digits(used);
    lemma_decimal_digits(total);
    assert(!line.contains('\n')) by {
        if line.contains('\n') {
            let i = choose|i: int| 0 <= i < line.len() && line[i] == '\n';
            if i < a.len() {
                assert(is_digit(a[i]));
            } else if i > a.len() + 1 {
                assert(is_digit(v[i - a.len() - 2]));
            }
        }
    }
    assert(line.last() == v.last());
    assert(line[0] == a[0]);
    assert(line =~= e + line + e);
    trimming_undoes_padding(e, line, e);
    newlines_end_lines(line, e);
    assert(line.push('\n') + e =~= line.push('\n'));
    newlines_end_lines(e, e);
    assert(without_cr(line) == line);
    assert(lines_of(line.push('\n')) =~= seq![line]);
    assert(seq![line].drop_first() =~= Seq::empty());
    three_pieces(a, d, e, ',');
    assert(a =~= e + a + e);
    trimming_undoes_padding(e, a, e);
    assert(blank(sp));
    assert(d =~= sp + v + e);
    trimming_undoes_padding(sp, v, e);
}

/// Blank lines are passed over: the first that is not blank is read.
pub proof fn blank_lines_are_passed_over(l: Seq<char>, ls: Seq<Seq<char>>)
    ensures
        blank(l) ==> first_nonblank(seq![l] + ls) == first_nonblank(ls),
        trimmed(l).len() > 0 ==> first_nonblank(seq![l] + ls) == Some(trimmed(l)),
{
    crate::scan::trimming_takes_the_ends(l);
    assert((seq![l] + ls).drop_first() =~= ls);
}

/// Bytes are counted in whole MiB: what is left over is dropped, and is less than
/// one.
pub proof fn bytes_round_down_to_mib(used: nat, total: nat)
    requires
        used <= u64::MAX,
        total <= u64::MAX,
    ensures
        ({
            let r = sysfs_report(decimal(used), decimal(total));
            &&& r is Ok
            &&& r->Ok_0.used_mb * 1024 * 1024 <= used < (r->Ok_0.used_mb + 1) * 1024 * 1024
            &&& r->Ok_0.total_mb * 1024 * 1024 <= total < (r->Ok_0.total_mb + 1) * 1024 * 1024
        }),
{
    let e = Seq::<char>::empty();
    lemma_plain_decimal(used);
    lemma_plain_decimal(total);
    decimal_reads_back(used, u64::MAX as nat);
    decimal_reads_back(total, u64::MAX as nat);
    assert(decimal(used) =~= e + decimal(used) + e);
    assert(decimal(total) =~= e + decimal(total) + e);
    trimming_undoes_padding(e, decimal(used), e);
    trimming_undoes_padding(e, decimal(total), e);
}

/// A card that does not tell its memory is passed over; the first that does is
/// asked, whatever follows.
pub proof fn first_telling_card_is_read(n: DrmNode, rest: Seq<DrmNode>)
    ensures
        telling_card(n) ==> cards_report(seq![n] + rest) == Some(
            sysfs_report(n.used->0@, n.total->0@),
        ),
        !card_node(n.name@) || n.used is None || n.total is None ==> cards_report(seq![n] + rest)
            == cards_report(rest),
{
    assert((seq![n] + rest).drop_first() =~= rest);
}

/// A named vendor is taken as it is, whatever was found. Where none is named, AMD is
/// taken only where its card was found and `nvidia-smi` was not.
pub proof fn named_vendor_is_taken(nvidia: bool, amd: bool)
    ensures
        GpuBackend::resolved(GpuBackendKind::Nvidia, nvidia, amd) == GpuBackend::Nvidia,
        GpuBackend::resolved(GpuBackendKind::Amd, nvidia, amd) == GpuBackend::Amd,
        GpuBackend::resolved(GpuBackendKind::Auto, nvidia, amd) == GpuBackend::Amd <==> amd
            && !nvidia,
{
}

/// A run of the tool has no error just where it wrote a text; one that failed is told with
/// its status and with what it said, one that was not run with why.
pub proof fn only_output_is_no_error(run: SmiRun)
    ensures
        smi_error_text(run) is None <==> run is Wrote,
        run is Failed ==> smi_error_text(run) == Some(
            "nvidia-smi"@ + " exited "@ + run->status@ + ": "@ + trimmed(bytes_text(run->stderr@)),
        ),
        run is NotSpawned ==> crate::text::ends_with(smi_error_text(run)->0, run->NotSpawned_0@),
{
    if run is NotSpawned {
        crate::text::ends_are_parts(
            run->NotSpawned_0@,
            "spawning nvidia-smi"@ + ": "@,
            Seq::empty(),
        );
    }
}

} // verus!
