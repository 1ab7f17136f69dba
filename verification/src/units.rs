//! Managed units: how they are driven, and how one is made to let go of the GPU.

use vstd::prelude::*;

use crate::config::{
    ArgvCmd, Config, Introspection, IntrospectionView, ManagedUnit, UnitView,
};
use crate::gpu::{first_line, first_nonblank, GpuError};
use crate::names::NameMap;
use crate::scan::{lines, lines_of, trim, trimmed, words, words_of};
use crate::text::{bytes_text, chars_of, copy_texts, lossy, same, string_of, texts};

pub use crate::eviction::{
    attribution_is_trustworthy, eviction_step, vram_is_free, Eviction, EvictionAction,
    EvictionEvent, EvictionPhase, EvictionSight, EvictionStep, EvictionTimings, UnitVramReading,
};

verus! {

// ── errors ─────────────────────────────────────────────────────────────────

/// Why a unit was not driven.
#[derive(Debug, Clone, PartialEq, Eq)]
pub enum UnitError {
    /// The command could not be started.
    Control {
        /// The verb.
        action: &'static str,
        /// The unit.
        unit: String,
        /// What the system said.
        detail: String,
    },
    /// The command failed, or there is none.
    Exit {
        /// The verb.
        action: &'static str,
        /// The unit.
        unit: String,
        /// What the command said, or why there was none.
        detail: String,
    },
    /// The command took too long.
    Timeout {
        /// The verb.
        action: &'static str,
        /// The unit.
        unit: String,
        /// How long it was given.
        elapsed_s: u64,
    },
    /// The GPU could not be read.
    Gpu(GpuError),
}

/// The value of a [`UnitError`].
pub enum UnitErrorView {
    Control { action: Seq<char>, unit: Seq<char>, detail: Seq<char> },
    Exit { action: Seq<char>, unit: Seq<char>, detail: Seq<char> },
    Timeout { action: Seq<char>, unit: Seq<char>, elapsed_s: u64 },
    Gpu(Seq<char>),
}

impl View for UnitError {
    type V = UnitErrorView;

    open spec fn view(&self) -> UnitErrorView {
        match self {
            UnitError::Control { action, unit, detail } => UnitErrorView::Control {
                action: action@,
                unit: unit@,
                detail: detail@,
            },
            UnitError::Exit { action, unit, detail } => UnitErrorView::Exit {
                action: action@,
                unit: unit@,
                detail: detail@,
            },
            UnitError::Timeout { action, unit, elapsed_s } => UnitErrorView::Timeout {
                action: action@,
                unit: unit@,
                elapsed_s: *elapsed_s,
            },
            UnitError::Gpu(e) => UnitErrorView::Gpu(e.text()),
        }
    }
}

impl UnitErrorView {
    /// What the error says.
    pub open spec fn text(self) -> Seq<char> {
        match self {
            UnitErrorView::Control { action, unit, detail } => action + " "@ + unit
                + ": spawning failed: "@ + detail,
            UnitErrorView::Exit { action, unit, detail } => action + " "@ + unit + " failed: "@
                + detail,
            UnitErrorView::Timeout { action, unit, elapsed_s } => action + " "@ + unit
                + " timed out after "@ + crate::numerals::decimal(elapsed_s as nat) + "s"@,
            UnitErrorView::Gpu(m) => "gpu query during eviction: "@ + m,
        }
    }
}

impl UnitError {
    /// What the error says.
    pub fn message(&self) -> (r: String)
        ensures
            r@ == self@.text(),
    {
        match self {
            UnitError::Control { action, unit, detail } => {
                let mut o: String = (*action).to_owned();
                o.append(" ");
                o.append(unit.as_str());
                o.append(": spawning failed: ");
                o.append(detail.as_str());
                o
            },
            UnitError::Exit { action, unit, detail } => {
                let mut o: String = (*action).to_owned();
                o.append(" ");
                o.append(unit.as_str());
                o.append(" failed: ");
                o.append(detail.as_str());
                o
            },
            UnitError::Timeout { action, unit, elapsed_s } => {
                let mut o: String = (*action).to_owned();
                o.append(" ");
                o.append(unit.as_str());
                o.append(" timed out after ");
                o.append(crate::numerals::write_u64(*elapsed_s).as_str());
                o.append("s");
                o
            },
            UnitError::Gpu(e) => {
                let mut o: String = "gpu query during eviction: ".to_owned();
                o.append(e.message().as_str());
                o
            },
        }
    }
}

// ── supervisors and commands ───────────────────────────────────────────────

/// What drives a unit.
#[derive(Debug, Clone, PartialEq, Eq)]
pub enum Supervisor {
    /// `systemctl`.
    Systemd,
    /// Commands of the unit's own.
    Command {
        /// Stops it.
        stop: Vec<String>,
        /// Starts it.
        start: Vec<String>,
        /// Tells by exit code 0 that it runs.
        is_active: Vec<String>,
        /// Kills it; where there is none, `stop` is run again.
        kill: Option<Vec<String>>,
    },
}

/// The value of a [`Supervisor`].
pub enum SupervisorView {
    Systemd,
    Command {
        stop: Seq<Seq<char>>,
        start: Seq<Seq<char>>,
        is_active: Seq<Seq<char>>,
        kill: Option<Seq<Seq<char>>>,
    },
}

/// The texts of an optional list.
pub open spec fn opt_texts(v: Option<Vec<String>>) -> Option<Seq<Seq<char>>> {
    match v {
        Some(x) => Some(texts(x@)),
        None => None,
    }
}

impl View for Supervisor {
    type V = SupervisorView;

    open spec fn view(&self) -> SupervisorView {
        match self {
            Supervisor::Systemd => SupervisorView::Systemd,
            Supervisor::Command { stop, start, is_active, kill } => SupervisorView::Command {
                stop: texts(stop@),
                start: texts(start@),
                is_active: texts(is_active@),
                kill: opt_texts(*kill),
            },
        }
    }
}

/// A unit without commands of its own is driven by systemd.
pub open spec fn is_systemd(u: UnitView) -> bool {
    u.stop_cmd is None && u.start_cmd is None && u.is_active_cmd is None && u.kill_cmd is None
}

/// The words of a command, none where there is no command.
pub open spec fn words_or_none(c: Option<Seq<Seq<char>>>) -> Seq<Seq<char>> {
    match c {
        Some(v) => v,
        None => Seq::empty(),
    }
}

/// What drives a unit: with one command of its own, all are its own.
pub open spec fn supervisor_of(u: UnitView) -> SupervisorView {
    if is_systemd(u) {
        SupervisorView::Systemd
    } else {
        SupervisorView::Command {
            stop: words_or_none(u.stop_cmd),
            start: words_or_none(u.start_cmd),
            is_active: words_or_none(u.is_active_cmd),
            kill: u.kill_cmd,
        }
    }
}

fn copy_words(c: &Option<ArgvCmd>) -> (r: Vec<String>)
    ensures
        texts(r@) == words_or_none(crate::config::opt_argv(*c)),
{
    match c {
        Some(a) => copy_texts(a.0.as_slice()),
        None => {
            let v: Vec<String> = Vec::new();
            proof {
                assert(texts(v@) =~= Seq::empty());
            }
            v
        },
    }
}

impl Supervisor {
    /// What drives a unit.
    pub fn resolve(u: &ManagedUnit) -> (r: Supervisor)
        ensures
            r@ == supervisor_of(u@),
    {
        if u.stop_cmd.is_none() && u.start_cmd.is_none() && u.is_active_cmd.is_none()
            && u.kill_cmd.is_none() {
            return Supervisor::Systemd;
        }
        Supervisor::Command {
            stop: copy_words(&u.stop_cmd),
            start: copy_words(&u.start_cmd),
            is_active: copy_words(&u.is_active_cmd),
            kill: match &u.kill_cmd {
                Some(a) => Some(copy_texts(a.0.as_slice())),
                None => None,
            },
        }
    }
}

/// What can be asked of a unit's supervisor.
#[derive(Debug, Clone, Copy, PartialEq, Eq, Structural)]
pub enum Verb {
    /// Start it.
    Start,
    /// Stop it.
    Stop,
    /// Kill it.
    Kill,
    /// Tell whether it runs.
    IsActive,
}

impl Verb {
    /// The verb's word.
    pub open spec fn text(self) -> Seq<char> {
        match self {
            Verb::Start => "start"@,
            Verb::Stop => "stop"@,
            Verb::Kill => "kill"@,
            Verb::IsActive => "is-active"@,
        }
    }

    /// The verb's word.
    pub fn label(self) -> (r: &'static str)
        ensures
            r@ == self.text(),
    {
        match self {
            Verb::Start => "start",
            Verb::Stop => "stop",
            Verb::Kill => "kill",
            Verb::IsActive => "is-active",
        }
    }
}

/// The command line that carries out a verb on a unit.
pub open spec fn command_line(u: UnitView, verb: Verb) -> Seq<Seq<char>> {
    match supervisor_of(u) {
        SupervisorView::Systemd => {
            let words = if verb == Verb::Kill {
                seq!["systemctl"@, "kill"@, "-s"@, "SIGKILL"@]
            } else {
                seq!["systemctl"@, verb.text()]
            };
            if u.unit.len() > 0 {
                words.push(u.unit)
            } else {
                words
            }
        },
        SupervisorView::Command { stop, start, is_active, kill } => match verb {
            Verb::Start => start,
            Verb::Stop => stop,
            Verb::IsActive => is_active,
            Verb::Kill => match kill {
                Some(k) => k,
                None => stop,
            },
        },
    }
}

/// What is said where a unit has no command for a verb.
pub open spec fn no_command(u: UnitView, verb: Verb) -> UnitErrorView {
    UnitErrorView::Exit {
        action: verb.text(),
        unit: u.unit,
        detail: "empty command (no override configured for this verb)"@,
    }
}

/// The command line that carries out a verb on a unit; an error where it is
/// empty.
pub fn command_for(u: &ManagedUnit, verb: Verb) -> (r: Result<Vec<String>, UnitError>)
    ensures
        match r {
            Ok(v) => texts(v@) == command_line(u@, verb) && v@.len() > 0,
            Err(e) => command_line(u@, verb).len() == 0 && e@ == no_command(u@, verb),
        },
{
    let words: Vec<String> = match Supervisor::resolve(u) {
        Supervisor::Systemd => {
            let mut v: Vec<String> = Vec::new();
            v.push("systemctl".to_owned());
            v.push(verb.label().to_owned());
            if verb == Verb::Kill {
                v.push("-s".to_owned());
                v.push("SIGKILL".to_owned());
            }
            if !u.unit.as_str().is_empty() {
                v.push(u.unit.clone());
            }
            proof {
                assert(texts(v@) =~= command_line(u@, verb));
            }
            v
        },
        Supervisor::Command { stop, start, is_active, kill } => match verb {
            Verb::Start => start,
            Verb::Stop => stop,
            Verb::IsActive => is_active,
            Verb::Kill => match kill {
                Some(k) => k,
                None => stop,
            },
        },
    };
    if words.len() == 0 {
        return Err(
            UnitError::Exit {
                action: verb.label(),
                unit: u.unit.clone(),
                detail: "empty command (no override configured for this verb)".to_owned(),
            },
        );
    }
    Ok(words)
}

/// What came of running a command.
#[derive(Debug, Clone, PartialEq, Eq)]
pub enum RunOutcome {
    /// It ended.
    Exited {
        /// With exit code 0.
        success: bool,
        /// What it wrote to its error stream.
        stderr: Vec<u8>,
    },
    /// It could not be started; what the system said.
    NotSpawned(String),
    /// It took too long.
    TimedOut,
}

/// How long a command that drives a unit may take, in seconds.
pub const SYSTEMCTL_TIMEOUT_S: u64 = 10;

/// How long a command that lists models may take, in seconds.
pub const INTROSPECTION_TIMEOUT_S: u64 = 2;

/// The time between two looks at a unit that is being evicted, in milliseconds.
pub const EVICTION_POLL_INTERVAL_MS: u64 = 250;

/// What a command that was to drive a unit amounts to.
pub open spec fn control_error(u: UnitView, verb: Verb, out: RunOutcome) -> Option<UnitErrorView> {
    match out {
        RunOutcome::Exited { success, stderr } => if success {
            None
        } else {
            Some(
                UnitErrorView::Exit {
                    action: verb.text(),
                    unit: u.unit,
                    detail: trimmed(bytes_text(stderr@)),
                },
            )
        },
        RunOutcome::NotSpawned(m) => Some(
            UnitErrorView::Control { action: verb.text(), unit: u.unit, detail: m@ },
        ),
        RunOutcome::TimedOut => Some(
            UnitErrorView::Timeout {
                action: verb.text(),
                unit: u.unit,
                elapsed_s: SYSTEMCTL_TIMEOUT_S,
            },
        ),
    }
}

/// What a command that was to start, stop or kill a unit amounts to.
pub fn control_result(u: &ManagedUnit, verb: Verb, out: RunOutcome) -> (r: Result<(), UnitError>)
    ensures
        match r {
            Ok(_) => control_error(u@, verb, out) is None,
            Err(e) => control_error(u@, verb, out) == Some(e@),
        },
{
    match out {
        RunOutcome::Exited { success, stderr } => if success {
            Ok(())
        } else {
            let said = lossy(stderr.as_slice());
            Err(
                UnitError::Exit {
                    action: verb.label(),
                    unit: u.unit.clone(),
                    detail: trim(said.as_str()),
                },
            )
        },
        RunOutcome::NotSpawned(m) => Err(
            UnitError::Control { action: verb.label(), unit: u.unit.clone(), detail: m },
        ),
        RunOutcome::TimedOut => Err(
            UnitError::Timeout {
                action: verb.label(),
                unit: u.unit.clone(),
                elapsed_s: SYSTEMCTL_TIMEOUT_S,
            },
        ),
    }
}

/// Whether a unit runs, by a command that was to tell: one that ends tells, by its exit
/// code.
pub open spec fn running_of(out: RunOutcome) -> Option<bool> {
    match out {
        RunOutcome::Exited { success, .. } => Some(success),
        _ => None,
    }
}

/// What a command that was to tell whether a unit runs amounts to: a command
/// that ends tells, by its exit code.
pub fn running_result(u: &ManagedUnit, out: RunOutcome) -> (r: Result<bool, UnitError>)
    ensures
        match r {
            Ok(b) => running_of(out) == Some(b),
            Err(e) => running_of(out) is None && control_error(u@, Verb::IsActive, out) == Some(e@),
        },
{
    match out {
        RunOutcome::Exited { success, stderr: _ } => Ok(success),
        RunOutcome::NotSpawned(m) => Err(
            UnitError::Control { action: "is-active", unit: u.unit.clone(), detail: m },
        ),
        RunOutcome::TimedOut => Err(
            UnitError::Timeout {
                action: "is-active",
                unit: u.unit.clone(),
                elapsed_s: SYSTEMCTL_TIMEOUT_S,
            },
        ),
    }
}

/// The position of the first unit with this name.
pub open spec fn unit_index(units: Seq<UnitView>, name: Seq<char>) -> Option<int>
    decreases units.len(),
{
    if units.len() == 0 {
        None
    } else if units[0].unit == name {
        Some(0)
    } else {
        match unit_index(units.drop_first(), name) {
            Some(i) => Some(i + 1),
            None => None,
        }
    }
}

/// The position of a name is that of a unit with it, and the first such.
pub proof fn lemma_unit_index(units: Seq<UnitView>, name: Seq<char>)
    ensures
        match unit_index(units, name) {
            Some(i) => 0 <= i < units.len() && units[i].unit == name && forall|j: int|
                0 <= j < i ==> (#[trigger] units[j]).unit != name,
            None => forall|j: int| 0 <= j < units.len() ==> (#[trigger] units[j]).unit != name,
        },
    decreases units.len(),
{
    if units.len() > 0 && units[0].unit != name {
        let t = units.drop_first();
        lemma_unit_index(t, name);
        match unit_index(t, name) {
            Some(i) => {
                assert(units[i + 1] == t[i]);
                assert forall|j: int| 0 <= j < i + 1 implies (#[trigger] units[j]).unit != name by {
                    if j > 0 {
                        assert(units[j] == t[j - 1]);
                    }
                }
            },
            None => {
                assert forall|j: int| 0 <= j < units.len() implies (#[trigger] units[j]).unit
                    != name by {
                    if j > 0 {
                        assert(units[j] == t[j - 1]);
                    }
                }
            },
        }
    }
}

/// The position of the first managed unit with this name.
pub fn find_unit(cfg: &Config, name: &str) -> (r: Option<usize>)
    ensures
        match r {
            Some(i) => unit_index(cfg@.units, name@) == Some(i as int) && i < cfg.units@.len(),
            None => unit_index(cfg@.units, name@) is None,
        },
{
    let ghost uv = cfg@.units;
    let mut i: usize = 0;
    proof {
        lemma_unit_index(uv, name@);
    }
    while i < cfg.units.len()
        invariant
            i <= cfg.units.len(),
            uv == cfg@.units,
            match unit_index(uv, name@) {
                Some(k) => 0 <= k < uv.len() && uv[k].unit == name@ && forall|j: int|
                    0 <= j < k ==> (#[trigger] uv[j]).unit != name@,
                None => forall|j: int| 0 <= j < uv.len() ==> (#[trigger] uv[j]).unit != name@,
            },
            forall|j: int| 0 <= j < i ==> (#[trigger] uv[j]).unit != name@,
        decreases cfg.units.len() - i,
    {
        proof {
            assert(uv[i as int] == cfg.units@[i as int]@);
        }
        if same(cfg.units[i].unit.as_str(), name) {
            return Some(i);
        }
        i = i + 1;
    }
    None
}

/// The managed unit with this name, by its position; an error where the name is
/// not managed.
pub fn resolve_unit(cfg: &Config, name: &str) -> (r: Result<usize, UnitError>)
    ensures
        match r {
            Ok(i) => unit_index(cfg@.units, name@) == Some(i as int) && i < cfg.units@.len(),
            Err(e) => unit_index(cfg@.units, name@) is None && e@ == (UnitErrorView::Exit {
                action: "resolve"@,
                unit: name@,
                detail: "unit is not (or no longer) managed"@,
            }),
        },
{
    match find_unit(cfg, name) {
        Some(i) => Ok(i),
        None => Err(
            UnitError::Exit {
                action: "resolve",
                unit: name.to_owned(),
                detail: "unit is not (or no longer) managed".to_owned(),
            },
        ),
    }
}

// ── outcomes ───────────────────────────────────────────────────────────────

/// How an eviction ended.
#[derive(Debug, Clone, Copy, PartialEq, Eq, Structural)]
pub enum EvictionOutcome {
    /// The unit let go and stayed up.
    Yielded,
    /// The unit was stopped and let go in time.
    Freed,
    /// The unit was killed.
    Escalated,
    /// The unit did not run.
    AlreadyClear,
}

/// How an eviction is counted.
#[derive(Debug, Clone, Copy, PartialEq, Eq, Structural)]
pub enum EvictionMetricOutcome {
    /// The unit let go and stayed up.
    Yielded,
    /// The unit was stopped and let go in time.
    Graceful,
    /// The unit was killed.
    Sigkill,
    /// The eviction failed.
    Error,
}

impl EvictionMetricOutcome {
    /// The label of the counter.
    pub open spec fn text(self) -> Seq<char> {
        match self {
            EvictionMetricOutcome::Yielded => "yielded"@,
            EvictionMetricOutcome::Graceful => "graceful"@,
            EvictionMetricOutcome::Sigkill => "sigkill"@,
            EvictionMetricOutcome::Error => "error"@,
        }
    }

    /// The label of the counter.
    pub fn label(self) -> (r: &'static str)
        ensures
            r@ == self.text(),
    {
        match self {
            EvictionMetricOutcome::Yielded => "yielded",
            EvictionMetricOutcome::Graceful => "graceful",
            EvictionMetricOutcome::Sigkill => "sigkill",
            EvictionMetricOutcome::Error => "error",
        }
    }
}

/// How an eviction is counted: one of a unit that did not run is not.
pub open spec fn metric_of<E>(result: Result<EvictionOutcome, E>) -> Option<EvictionMetricOutcome> {
    match result {
        Ok(EvictionOutcome::Yielded) => Some(EvictionMetricOutcome::Yielded),
        Ok(EvictionOutcome::Freed) => Some(EvictionMetricOutcome::Graceful),
        Ok(EvictionOutcome::Escalated) => Some(EvictionMetricOutcome::Sigkill),
        Ok(EvictionOutcome::AlreadyClear) => None,
        Err(_) => Some(EvictionMetricOutcome::Error),
    }
}

/// How an eviction is counted.
pub fn eviction_metric_outcome(result: &Result<EvictionOutcome, UnitError>) -> (r: Option<
    EvictionMetricOutcome,
>)
    ensures
        r == metric_of(*result),
{
    match result {
        Ok(EvictionOutcome::Yielded) => Some(EvictionMetricOutcome::Yielded),
        Ok(EvictionOutcome::Freed) => Some(EvictionMetricOutcome::Graceful),
        Ok(EvictionOutcome::Escalated) => Some(EvictionMetricOutcome::Sigkill),
        Ok(EvictionOutcome::AlreadyClear) => None,
        Err(_) => Some(EvictionMetricOutcome::Error),
    }
}

// ── hooks ──────────────────────────────────────────────────────────────────

/// The commands by which a unit takes part in sharing the GPU.
#[derive(Debug, Clone, Copy, PartialEq, Eq, PartialOrd, Ord, Structural)]
pub enum Hook {
    /// Tells whether the unit has work.
    Busy,
    /// Asks the unit to let go.
    Yield,
    /// Takes that back.
    Resume,
}

impl Hook {
    /// The label of the counter.
    pub open spec fn text(self) -> Seq<char> {
        match self {
            Hook::Busy => "busy"@,
            Hook::Yield => "yield"@,
            Hook::Resume => "resume"@,
        }
    }

    /// The label of the counter.
    pub fn label(self) -> (r: &'static str)
        ensures
            r@ == self.text(),
    {
        match self {
            Hook::Busy => "busy",
            Hook::Yield => "yield",
            Hook::Resume => "resume",
        }
    }
}

/// How a hook failed.
#[derive(Debug, Clone, Copy, PartialEq, Eq, PartialOrd, Ord, Structural)]
pub enum HookFailure {
    /// It ended with an exit code other than 0.
    NonZero,
    /// It could not be started, or took too long.
    Unrunnable,
}

impl HookFailure {
    /// The label of the counter.
    pub open spec fn text(self) -> Seq<char> {
        match self {
            HookFailure::NonZero => "nonzero"@,
            HookFailure::Unrunnable => "unrunnable"@,
        }
    }

    /// The label of the counter.
    pub fn label(self) -> (r: &'static str)
        ensures
            r@ == self.text(),
    {
        match self {
            HookFailure::NonZero => "nonzero",
            HookFailure::Unrunnable => "unrunnable",
        }
    }
}

/// What came of running a hook.
#[derive(Debug, Clone, Copy, PartialEq, Eq, Structural)]
pub enum HookRun {
    /// It ended with exit code 0.
    Success,
    /// It failed.
    Failed(HookFailure),
}

/// What came of a hook, by what came of its command; a hook without a word to run
/// could not be started.
pub open spec fn hook_run_of(out: Option<RunOutcome>) -> HookRun {
    match out {
        Some(RunOutcome::Exited { success, .. }) => if success {
            HookRun::Success
        } else {
            HookRun::Failed(HookFailure::NonZero)
        },
        _ => HookRun::Failed(HookFailure::Unrunnable),
    }
}

/// What came of a hook, by what came of its command.
pub fn hook_run(out: &Option<RunOutcome>) -> (r: HookRun)
    ensures
        r == hook_run_of(*out),
{
    match out {
        Some(RunOutcome::Exited { success, stderr: _ }) => if *success {
            HookRun::Success
        } else {
            HookRun::Failed(HookFailure::NonZero)
        },
        _ => HookRun::Failed(HookFailure::Unrunnable),
    }
}

/// The command line of a hook, where the unit has that hook.
pub open spec fn hook_words(u: UnitView, hook: Hook) -> Option<Seq<Seq<char>>> {
    match hook {
        Hook::Busy => u.busy_cmd,
        Hook::Yield => u.yield_cmd,
        Hook::Resume => u.resume_cmd,
    }
}

/// The command line of a hook, where the unit has that hook.
pub fn hook_command(u: &ManagedUnit, hook: Hook) -> (r: Option<Vec<String>>)
    ensures
        opt_texts(r) == hook_words(u@, hook),
{
    let c = match hook {
        Hook::Busy => &u.busy_cmd,
        Hook::Yield => &u.yield_cmd,
        Hook::Resume => &u.resume_cmd,
    };
    match c {
        Some(a) => Some(copy_texts(a.0.as_slice())),
        None => None,
    }
}

/// The failures of one unit's hooks.
#[derive(Debug, Clone, Copy, PartialEq, Eq, Default, Structural)]
pub struct HookCounts {
    /// The probe ended with an exit code other than 0.
    pub busy_nonzero: u64,
    /// The probe could not be run.
    pub busy_unrunnable: u64,
    /// The yield ended with an exit code other than 0.
    pub yield_nonzero: u64,
    /// The yield could not be run.
    pub yield_unrunnable: u64,
    /// The resume ended with an exit code other than 0.
    pub resume_nonzero: u64,
    /// The resume could not be run.
    pub resume_unrunnable: u64,
}

impl HookCounts {
    /// How often this hook failed in this way.
    pub open spec fn of(self, hook: Hook, outcome: HookFailure) -> u64 {
        match (hook, outcome) {
            (Hook::Busy, HookFailure::NonZero) => self.busy_nonzero,
            (Hook::Busy, HookFailure::Unrunnable) => self.busy_unrunnable,
            (Hook::Yield, HookFailure::NonZero) => self.yield_nonzero,
            (Hook::Yield, HookFailure::Unrunnable) => self.yield_unrunnable,
            (Hook::Resume, HookFailure::NonZero) => self.resume_nonzero,
            (Hook::Resume, HookFailure::Unrunnable) => self.resume_unrunnable,
        }
    }

    /// One more such failure.
    pub open spec fn plus(self, hook: Hook, outcome: HookFailure) -> HookCounts {
        let n = (self.of(hook, outcome) + 1) as u64;
        match (hook, outcome) {
            (Hook::Busy, HookFailure::NonZero) => HookCounts { busy_nonzero: n, ..self },
            (Hook::Busy, HookFailure::Unrunnable) => HookCounts { busy_unrunnable: n, ..self },
            (Hook::Yield, HookFailure::NonZero) => HookCounts { yield_nonzero: n, ..self },
            (Hook::Yield, HookFailure::Unrunnable) => HookCounts { yield_unrunnable: n, ..self },
            (Hook::Resume, HookFailure::NonZero) => HookCounts { resume_nonzero: n, ..self },
            (Hook::Resume, HookFailure::Unrunnable) => HookCounts { resume_unrunnable: n, ..self },
        }
    }

    /// How often this hook failed in this way.
    pub fn count(&self, hook: Hook, outcome: HookFailure) -> (r: u64)
        ensures
            r == self.of(hook, outcome),
    {
        match (hook, outcome) {
            (Hook::Busy, HookFailure::NonZero) => self.busy_nonzero,
            (Hook::Busy, HookFailure::Unrunnable) => self.busy_unrunnable,
            (Hook::Yield, HookFailure::NonZero) => self.yield_nonzero,
            (Hook::Yield, HookFailure::Unrunnable) => self.yield_unrunnable,
            (Hook::Resume, HookFailure::NonZero) => self.resume_nonzero,
            (Hook::Resume, HookFailure::Unrunnable) => self.resume_unrunnable,
        }
    }
}

/// No failures.
pub open spec fn no_failures() -> HookCounts {
    HookCounts {
        busy_nonzero: 0,
        busy_unrunnable: 0,
        yield_nonzero: 0,
        yield_unrunnable: 0,
        resume_nonzero: 0,
        resume_unrunnable: 0,
    }
}

/// The failures of the hooks of all units.
#[derive(Debug)]
pub struct HookFailures {
    /// By unit.
    pub by_unit: NameMap<HookCounts>,
}

/// A unit, its hook, and how the hook failed.
pub type HookFailureKey = (String, Hook, HookFailure);

impl HookFailures {
    /// The map is in order.
    pub open spec fn wf(&self) -> bool {
        self.by_unit.wf()
    }

    /// The failures of a unit's hooks.
    pub open spec fn counts(&self, unit: Seq<char>) -> HookCounts {
        if self.by_unit@.dom().contains(unit) {
            self.by_unit@[unit]
        } else {
            no_failures()
        }
    }

    /// No failures.
    pub fn new() -> (r: HookFailures)
        ensures
            r.wf(),
            r.by_unit@ == Map::<Seq<char>, HookCounts>::empty(),
    {
        HookFailures { by_unit: NameMap::new() }
    }

    /// How often this hook of this unit failed in this way.
    pub fn count(&self, unit: &str, hook: Hook, outcome: HookFailure) -> (r: u64)
        requires
            self.wf(),
        ensures
            r == self.counts(unit@).of(hook, outcome),
    {
        match self.by_unit.get(unit) {
            Some(c) => c.count(hook, outcome),
            None => 0,
        }
    }
}

/// Count a failure of a hook.
pub fn record_hook_failure(f: &mut HookFailures, unit: &str, hook: Hook, outcome: HookFailure)
    requires
        old(f).wf(),
        old(f).counts(unit@).of(hook, outcome) < u64::MAX,
    ensures
        final(f).wf(),
        final(f).by_unit@ == old(f).by_unit@.insert(
            unit@,
            old(f).counts(unit@).plus(hook, outcome),
        ),
{
    let c = match f.by_unit.get(unit) {
        Some(c) => c,
        None => HookCounts {
            busy_nonzero: 0,
            busy_unrunnable: 0,
            yield_nonzero: 0,
            yield_unrunnable: 0,
            resume_nonzero: 0,
            resume_unrunnable: 0,
        },
    };
    let n: u64 = c.count(hook, outcome) + 1;
    let d = match (hook, outcome) {
        (Hook::Busy, HookFailure::NonZero) => HookCounts { busy_nonzero: n, ..c },
        (Hook::Busy, HookFailure::Unrunnable) => HookCounts { busy_unrunnable: n, ..c },
        (Hook::Yield, HookFailure::NonZero) => HookCounts { yield_nonzero: n, ..c },
        (Hook::Yield, HookFailure::Unrunnable) => HookCounts { yield_unrunnable: n, ..c },
        (Hook::Resume, HookFailure::NonZero) => HookCounts { resume_nonzero: n, ..c },
        (Hook::Resume, HookFailure::Unrunnable) => HookCounts { resume_unrunnable: n, ..c },
    };
    f.by_unit.set(unit, d);
}

/// The failure of a unit's hook, as a line of the list of failures.
pub struct FailureView {
    pub unit: Seq<char>,
    pub hook: Hook,
    pub outcome: HookFailure,
    pub count: u64,
}

/// The line of one kind of failure; none where it never happened.
pub open spec fn failure_line(
    unit: Seq<char>,
    c: HookCounts,
    hook: Hook,
    outcome: HookFailure,
) -> Seq<FailureView> {
    if c.of(hook, outcome) == 0 {
        Seq::empty()
    } else {
        seq![FailureView { unit, hook, outcome, count: c.of(hook, outcome) }]
    }
}

/// The lines of one unit: by hook, then by how it failed.
pub open spec fn unit_failures(unit: Seq<char>, c: HookCounts) -> Seq<FailureView> {
    failure_line(unit, c, Hook::Busy, HookFailure::NonZero) + failure_line(
        unit,
        c,
        Hook::Busy,
        HookFailure::Unrunnable,
    ) + failure_line(unit, c, Hook::Yield, HookFailure::NonZero) + failure_line(
        unit,
        c,
        Hook::Yield,
        HookFailure::Unrunnable,
    ) + failure_line(unit, c, Hook::Resume, HookFailure::NonZero) + failure_line(
        unit,
        c,
        Hook::Resume,
        HookFailure::Unrunnable,
    )
}

/// The lines of all units, in the order of their names.
pub open spec fn failure_lines(pairs: Seq<(Seq<char>, HookCounts)>) -> Seq<FailureView>
    decreases pairs.len(),
{
    if pairs.len() == 0 {
        Seq::empty()
    } else {
        failure_lines(pairs.drop_last()) + unit_failures(pairs.last().0, pairs.last().1)
    }
}

/// The values of a list of failures.
pub open spec fn failure_views(v: Seq<(HookFailureKey, u64)>) -> Seq<FailureView> {
    Seq::new(
        v.len(),
        |i: int|
            (FailureView { unit: v[i].0.0@, hook: v[i].0.1, outcome: v[i].0.2, count: v[i].1 }),
    )
}

fn push_failure(
    out: &mut Vec<(HookFailureKey, u64)>,
    unit: &String,
    c: &HookCounts,
    hook: Hook,
    outcome: HookFailure,
)
    ensures
        failure_views(final(out)@) == failure_views(old(out)@) + failure_line(
            unit@,
            *c,
            hook,
            outcome,
        ),
{
    let n: u64 = c.count(hook, outcome);
    let ghost before = out@;
    if n != 0 {
        out.push(((unit.clone(), hook, outcome), n));
    }
    proof {
        assert(failure_views(out@) =~= failure_views(before) + failure_line(unit@, *c, hook, outcome));
    }
}

/// Every failure that happened, by unit, by hook and by how it failed.
pub fn hook_failures(f: &HookFailures) -> (r: Vec<(HookFailureKey, u64)>)
    requires
        f.wf(),
    ensures
        failure_views(r@) == failure_lines(f.by_unit.pairs()),
{
    let mut out: Vec<(HookFailureKey, u64)> = Vec::new();
    let ghost pairs = f.by_unit.pairs();
    let mut i: usize = 0;
    proof {
        assert(pairs.take(0) =~= Seq::empty());
        assert(failure_views(out@) =~= Seq::empty());
    }
    while i < f.by_unit.entries.len()
        invariant
            i <= f.by_unit.entries.len(),
            pairs == f.by_unit.pairs(),
            failure_views(out@) == failure_lines(pairs.take(i as int)),
        decreases f.by_unit.entries.len() - i,
    {
        let unit = &f.by_unit.entries[i].0;
        let c = f.by_unit.entries[i].1;
        let ghost before = failure_views(out@);
        push_failure(&mut out, unit, &c, Hook::Busy, HookFailure::NonZero);
        push_failure(&mut out, unit, &c, Hook::Busy, HookFailure::Unrunnable);
        push_failure(&mut out, unit, &c, Hook::Yield, HookFailure::NonZero);
        push_failure(&mut out, unit, &c, Hook::Yield, HookFailure::Unrunnable);
        push_failure(&mut out, unit, &c, Hook::Resume, HookFailure::NonZero);
        push_failure(&mut out, unit, &c, Hook::Resume, HookFailure::Unrunnable);
        proof {
            assert(pairs.take(i + 1).drop_last() =~= pairs.take(i as int));
            assert(pairs.take(i + 1).last() == (unit@, c));
            assert(failure_views(out@) =~= before + unit_failures(unit@, c));
        }
        i = i + 1;
    }
    proof {
        assert(pairs.take(pairs.len() as int) =~= pairs);
    }
    out
}

/// The most characters of a hook's error output that are logged.
pub const EXCERPT_LEN: usize = 300;

/// What is logged of a hook's error output: its first line that is not blank, cut
/// where it is long.
pub open spec fn excerpt_of(text: Seq<char>) -> Seq<char> {
    match first_nonblank(lines_of(text)) {
        None => "<no stderr>"@,
        Some(line) => if line.len() > EXCERPT_LEN {
            line.take(EXCERPT_LEN as int) + "… (truncated)"@
        } else {
            line
        },
    }
}

/// What is logged of a text.
pub fn excerpt(text: &str) -> (r: String)
    ensures
        r@ == excerpt_of(text@),
{
    match first_line(text) {
        None => "<no stderr>".to_owned(),
        Some(line) => {
            let cs = chars_of(line.as_str());
            if cs.len() > EXCERPT_LEN {
                let mut o: String = string_of(&cs, 0, EXCERPT_LEN);
                proof {
                    assert(o@ =~= line@.take(EXCERPT_LEN as int));
                }
                o.append("… (truncated)");
                o
            } else {
                line
            }
        },
    }
}

/// What is logged of a hook's error output.
pub fn stderr_excerpt(stderr: &[u8]) -> (r: String)
    ensures
        r@ == excerpt_of(bytes_text(stderr@)),
{
    let text = lossy(stderr);
    excerpt(text.as_str())
}

// ── models ─────────────────────────────────────────────────────────────────

/// The lines that are not blank, without the white space round them.
pub open spec fn nonblank(ls: Seq<Seq<char>>) -> Seq<Seq<char>>
    decreases ls.len(),
{
    if ls.len() == 0 {
        Seq::empty()
    } else {
        let p = nonblank(ls.drop_last());
        if trimmed(ls.last()).len() > 0 {
            p.push(trimmed(ls.last()))
        } else {
            p
        }
    }
}

/// The models that a command lists, one per line.
pub fn parse_model_lines(out: &str) -> (r: Vec<String>)
    ensures
        texts(r@) == nonblank(lines_of(out@)),
{
    let ls = lines(out);
    let ghost lv = texts(ls@);
    let mut v: Vec<String> = Vec::new();
    let mut i: usize = 0;
    proof {
        assert(lv.take(0) =~= Seq::empty());
        assert(texts(v@) =~= Seq::empty());
    }
    while i < ls.len()
        invariant
            i <= ls.len(),
            lv == texts(ls@),
            texts(v@) == nonblank(lv.take(i as int)),
        decreases ls.len() - i,
    {
        let t = trim(ls[i].as_str());
        proof {
            assert(lv.take(i + 1).drop_last() =~= lv.take(i as int));
            assert(lv.take(i + 1).last() == ls@[i as int]@);
            crate::text::lemma_texts_push(v@, t);
        }
        if !t.as_str().is_empty() {
            v.push(t);
        }
        i = i + 1;
    }
    proof {
        assert(lv.take(ls.len() as int) =~= lv);
    }
    v
}

/// The first words of the lines.
pub open spec fn first_words(ls: Seq<Seq<char>>) -> Seq<Seq<char>>
    decreases ls.len(),
{
    if ls.len() == 0 {
        Seq::empty()
    } else {
        let p = first_words(ls.drop_last());
        if words_of(ls.last()).len() > 0 {
            p.push(words_of(ls.last())[0])
        } else {
            p
        }
    }
}

/// The models that `ollama ps` lists: the first word of each line but the first,
/// which is the heading.
pub open spec fn models_listed(out: Seq<char>) -> Seq<Seq<char>> {
    let rows = nonblank(lines_of(out));
    if rows.len() == 0 {
        Seq::empty()
    } else {
        first_words(rows.drop_first())
    }
}

/// The models that `ollama ps` lists.
pub fn parse_ollama_ps(out: &str) -> (r: Vec<String>)
    ensures
        texts(r@) == models_listed(out@),
{
    let rows = parse_model_lines(out);
    let ghost rv = texts(rows@).drop_first();
    let mut v: Vec<String> = Vec::new();
    proof {
        assert(texts(v@) =~= Seq::empty());
    }
    if rows.len() == 0 {
        return v;
    }
    let mut i: usize = 1;
    proof {
        assert(rv.take(0) =~= Seq::empty());
    }
    while i < rows.len()
        invariant
            1 <= i <= rows.len(),
            rv == texts(rows@).drop_first(),
            texts(v@) == first_words(rv.take(i - 1)),
        decreases rows.len() - i,
    {
        let w = words(rows[i].as_str());
        proof {
            assert(rv.take(i as int).drop_last() =~= rv.take(i - 1));
            assert(rv.take(i as int).last() == rows@[i as int]@);
        }
        if w.len() > 0 {
            let first = w[0].clone();
            proof {
                assert(texts(w@)[0] == first@);
                crate::text::lemma_texts_push(v@, first);
            }
            v.push(first);
        }
        i = i + 1;
    }
    proof {
        assert(rv.take(rows.len() - 1) =~= rv);
    }
    v
}

/// The command that lists models, where there is one with a word in it.
pub open spec fn listing_words(i: IntrospectionView) -> Option<Seq<Seq<char>>> {
    match i {
        IntrospectionView::Command(c) => if words_of(c).len() > 0 {
            Some(words_of(c))
        } else {
            None
        },
        IntrospectionView::Ollama => Some(seq!["ollama"@, "ps"@]),
        IntrospectionView::Unlisted => None,
    }
}

/// The command that lists models.
pub fn listing_command(i: &Introspection) -> (r: Option<Vec<String>>)
    ensures
        opt_texts(r) == listing_words(i@),
{
    match i {
        Introspection::Command(c) => {
            let w = words(c.as_str());
            proof {
                assert(texts(w@).len() == w@.len());
            }
            if w.len() > 0 {
                Some(w)
            } else {
                None
            }
        },
        Introspection::Ollama => {
            let mut v: Vec<String> = Vec::new();
            v.push("ollama".to_owned());
            v.push("ps".to_owned());
            proof {
                assert(texts(v@) =~= seq!["ollama"@, "ps"@]);
            }
            Some(v)
        },
        Introspection::Unlisted => None,
    }
}

/// The models that the output of the listing command names.
pub open spec fn models_in(i: IntrospectionView, out: Seq<char>) -> Seq<Seq<char>> {
    match i {
        IntrospectionView::Command(_) => nonblank(lines_of(out)),
        IntrospectionView::Ollama => models_listed(out),
        IntrospectionView::Unlisted => Seq::empty(),
    }
}

/// The models that the output of the listing command names.
pub fn read_models(i: &Introspection, out: &str) -> (r: Vec<String>)
    ensures
        texts(r@) == models_in(i@, out@),
{
    match i {
        Introspection::Command(_) => parse_model_lines(out),
        Introspection::Ollama => parse_ollama_ps(out),
        Introspection::Unlisted => {
            let v: Vec<String> = Vec::new();
            proof {
                assert(texts(v@) =~= Seq::empty());
            }
            v
        },
    }
}

/// The models that a unit has loaded, from what its listing command wrote: none
/// where the command did not succeed.
pub fn loaded_models(i: &Introspection, succeeded: bool, stdout: &[u8]) -> (r: Vec<String>)
    ensures
        texts(r@) == (if succeeded {
            models_in(i@, bytes_text(stdout@))
        } else {
            Seq::empty()
        }),
{
    if succeeded {
        let out = lossy(stdout);
        read_models(i, out.as_str())
    } else {
        let v: Vec<String> = Vec::new();
        proof {
            assert(texts(v@) =~= Seq::empty());
        }
        v
    }
}

/// A unit has work, by its probe: only a probe that succeeds says so. A unit without one
/// has none.
pub open spec fn says_busy(run: Option<HookRun>) -> bool {
    run == Some(HookRun::Success)
}

/// Whether a unit has work, by its probe: only a probe that succeeds says so. A
/// unit without one has none.
pub fn busy_verdict(run: Option<HookRun>) -> (r: bool)
    ensures
        r == says_busy(run),
{
    match run {
        Some(HookRun::Success) => true,
        _ => false,
    }
}

// ── laws ───────────────────────────────────────────────────────────────────

proof fn lemma_first_nonblank_line(ls: Seq<Seq<char>>)
    requires
        forall|i: int| 0 <= i < ls.len() ==> !(#[trigger] ls[i]).contains('\n'),
    ensures
        first_nonblank(ls) is Some ==> !first_nonblank(ls)->0.contains('\n'),
    decreases ls.len(),
{
    if ls.len() > 0 {
        crate::scan::lemma_trimmed_part(ls[0], '\n');
        let t = ls.drop_first();
        assert forall|i: int| 0 <= i < t.len() implies !(#[trigger] t[i]).contains('\n') by {
            assert(t[i] == ls[i + 1]);
        }
        lemma_first_nonblank_line(t);
    }
}

/// Whatever a hook writes to its error stream, what is logged of it is one line of
/// bounded length.
pub proof fn excerpt_is_one_short_line(text: Seq<char>)
    ensures
        !excerpt_of(text).contains('\n'),
        excerpt_of(text).len() <= EXCERPT_LEN + "… (truncated)"@.len(),
{
    crate::scan::lemma_lines_have_no_newline(text);
    lemma_first_nonblank_line(lines_of(text));
    reveal_strlit("<no stderr>");
    reveal_strlit("… (truncated)");
    match first_nonblank(lines_of(text)) {
        None => {},
        Some(line) => {
            if line.len() > EXCERPT_LEN {
                let r = excerpt_of(text);
                let n = EXCERPT_LEN as int;
                assert forall|i: int| 0 <= i < r.len() implies r[i] != '\n' by {
                    if i < n {
                        assert(r[i] == line[i]);
                        assert(line.contains(line[i]));
                    } else {
                        assert(r[i] == "… (truncated)"@[i - n]);
                    }
                }
            }
        },
    }
}

/// The unit of a name is the first that has it.
pub proof fn first_of_the_name_is_found(units: Seq<UnitView>, name: Seq<char>, i: int)
    requires
        0 <= i < units.len(),
        units[i].unit == name,
        forall|j: int| 0 <= j < i ==> (#[trigger] units[j]).unit != name,
    ensures
        unit_index(units, name) == Some(i),
    decreases units.len(),
{
    if i > 0 {
        let t = units.drop_first();
        assert forall|j: int| 0 <= j < i - 1 implies (#[trigger] t[j]).unit != name by {
            assert(t[j] == units[j + 1]);
        }
        assert(units[0].unit != name);
        first_of_the_name_is_found(t, name, i - 1);
    }
}

/// A name that no unit has finds none.
pub proof fn unknown_name_is_not_found(units: Seq<UnitView>, name: Seq<char>)
    requires
        forall|j: int| 0 <= j < units.len() ==> (#[trigger] units[j]).unit != name,
    ensures
        unit_index(units, name) is None,
    decreases units.len(),
{
    if units.len() > 0 {
        let t = units.drop_first();
        assert forall|j: int| 0 <= j < t.len() implies (#[trigger] t[j]).unit != name by {
            assert(t[j] == units[j + 1]);
        }
        assert(units[0].unit != name);
        unknown_name_is_not_found(t, name);
    }
}

/// A unit that has no command of its own is driven by systemd in everything, by its
/// name. A unit that has any is never driven by systemd: each verb is its own command,
/// or nothing; a kill without one is another stop.
pub proof fn own_commands_replace_systemd(u: UnitView, verb: Verb)
    ensures
        ({
            let own = u.stop_cmd is Some || u.start_cmd is Some || u.is_active_cmd is Some
                || u.kill_cmd is Some;
            let line = command_line(u, verb);
            &&& !own ==> line.len() >= 2 && line[0] == "systemctl"@ && (u.unit.len() > 0
                ==> line.last() == u.unit)
            &&& !own ==> line[1] == (match verb {
                Verb::Start => "start"@,
                Verb::Stop => "stop"@,
                Verb::Kill => "kill"@,
                Verb::IsActive => "is-active"@,
            })
            &&& !own && verb == Verb::Kill ==> line[2] == "-s"@ && line[3] == "SIGKILL"@
            &&& own ==> line == (match (match verb {
                Verb::Start => u.start_cmd,
                Verb::Stop => u.stop_cmd,
                Verb::IsActive => u.is_active_cmd,
                Verb::Kill => if u.kill_cmd is Some {
                    u.kill_cmd
                } else {
                    u.stop_cmd
                },
            }) {
                Some(c) => c,
                None => Seq::empty(),
            })
        }),
{
}

/// A command did what it was to do just where it ended with success; else the error
/// says which verb, on which unit.
pub proof fn only_success_is_no_error(u: UnitView, verb: Verb, out: RunOutcome)
    ensures
        control_error(u, verb, out) is None <==> out is Exited && out->success,
        match control_error(u, verb, out) {
            None => true,
            Some(UnitErrorView::Exit { action, unit, detail }) => out is Exited && action
                == verb.text() && unit == u.unit && detail == trimmed(bytes_text(out->stderr@)),
            Some(UnitErrorView::Control { action, unit, detail }) => out is NotSpawned && action
                == verb.text() && unit == u.unit && detail == out->NotSpawned_0@,
            Some(UnitErrorView::Timeout { action, unit, .. }) => out is TimedOut && action
                == verb.text() && unit == u.unit,
            Some(_) => false,
        },
{
}

/// A hook has succeeded just where its command ended with success. One that ended
/// otherwise failed; one that never ended, or never began, could not be run.
pub proof fn only_success_is_a_hook_done(out: Option<RunOutcome>)
    ensures
        hook_run_of(out) == HookRun::Success <==> out is Some && out->0 is Exited
            && out->0->success,
        hook_run_of(out) == HookRun::Failed(HookFailure::NonZero) <==> out is Some && out->0
            is Exited && !out->0->success,
{
}

/// A failure of a hook is counted once, for that hook and that way of failing.
pub proof fn hook_failure_is_counted_once(
    c: HookCounts,
    hook: Hook,
    outcome: HookFailure,
    h: Hook,
    o: HookFailure,
)
    requires
        c.of(hook, outcome) < u64::MAX,
    ensures
        c.plus(hook, outcome).of(h, o) == c.of(h, o) + (if h == hook && o == outcome {
            1int
        } else {
            0int
        }),
{
}

/// Every way in which a hook of a unit has failed is listed, with its count; and none
/// in which it has not.
pub proof fn every_failure_is_listed(
    unit: Seq<char>,
    c: HookCounts,
    hook: Hook,
    outcome: HookFailure,
)
    ensures
        ({
            let f = FailureView { unit, hook, outcome, count: c.of(hook, outcome) };
            c.of(hook, outcome) > 0 <==> unit_failures(unit, c).contains(f)
        }),
{
    let f = FailureView { unit, hook, outcome, count: c.of(hook, outcome) };
    let l1 = failure_line(unit, c, Hook::Busy, HookFailure::NonZero);
    let l2 = failure_line(unit, c, Hook::Busy, HookFailure::Unrunnable);
    let l3 = failure_line(unit, c, Hook::Yield, HookFailure::NonZero);
    let l4 = failure_line(unit, c, Hook::Yield, HookFailure::Unrunnable);
    let l5 = failure_line(unit, c, Hook::Resume, HookFailure::NonZero);
    let l6 = failure_line(unit, c, Hook::Resume, HookFailure::Unrunnable);
    let all = unit_failures(unit, c);
    assert(all == l1 + l2 + l3 + l4 + l5 + l6);
    let own = failure_line(unit, c, hook, outcome);
    if c.of(hook, outcome) > 0 {
        assert(own[0] == f);
        let at: int = match (hook, outcome) {
            (Hook::Busy, HookFailure::NonZero) => 0,
            (Hook::Busy, HookFailure::Unrunnable) => l1.len() as int,
            (Hook::Yield, HookFailure::NonZero) => (l1 + l2).len() as int,
            (Hook::Yield, HookFailure::Unrunnable) => (l1 + l2 + l3).len() as int,
            (Hook::Resume, HookFailure::NonZero) => (l1 + l2 + l3 + l4).len() as int,
            (Hook::Resume, HookFailure::Unrunnable) => (l1 + l2 + l3 + l4 + l5).len() as int,
        };
        assert(all[at] == f);
    }
}

/// The failures of all units are listed unit by unit.
pub proof fn failures_are_listed_unit_by_unit(
    pairs: Seq<(Seq<char>, HookCounts)>,
    unit: Seq<char>,
    c: HookCounts,
)
    ensures
        failure_lines(Seq::empty()) == Seq::<FailureView>::empty(),
        failure_lines(pairs.push((unit, c))) == failure_lines(pairs) + unit_failures(unit, c),
{
    assert(pairs.push((unit, c)).drop_last() =~= pairs);
}

/// Every line of a listing that is not blank is a model, without the white space round
/// it, in order.
pub proof fn every_line_is_a_model(ls: Seq<Seq<char>>, l: Seq<char>)
    ensures
        nonblank(Seq::empty()) == Seq::<Seq<char>>::empty(),
        nonblank(ls.push(l)) == (if trimmed(l).len() > 0 {
            nonblank(ls).push(trimmed(l))
        } else {
            nonblank(ls)
        }),
{
    assert(ls.push(l).drop_last() =~= ls);
}

/// Of a table of models the heading is dropped, and of every row after it the first
/// word is the model.
pub proof fn rows_after_the_heading_are_models(
    out: Seq<char>,
    heading: Seq<char>,
    rows: Seq<Seq<char>>,
    row: Seq<char>,
)
    requires
        words_of(row).len() > 0,
    ensures
        first_words(rows.push(row)) == first_words(rows).push(words_of(row)[0]),
        first_words(Seq::empty()) == Seq::<Seq<char>>::empty(),
        nonblank(lines_of(out)) == seq![heading] + rows ==> models_listed(out) == first_words(rows),
        nonblank(lines_of(out)).len() == 0 ==> models_listed(out).len() == 0,
{
    assert(rows.push(row).drop_last() =~= rows);
    assert((seq![heading] + rows).drop_first() =~= rows);
}

/// Models are read by the way that the unit's are listed: a command's line by line, a
/// table's row by row, and none where they are not listed.
pub proof fn models_are_read_as_listed(c: Seq<char>, out: Seq<char>)
    ensures
        models_in(IntrospectionView::Command(c), out) == nonblank(lines_of(out)),
        models_in(IntrospectionView::Ollama, out) == models_listed(out),
        models_in(IntrospectionView::Unlisted, out).len() == 0,
        listing_words(IntrospectionView::Unlisted) is None,
        words_of(c).len() > 0 ==> listing_words(IntrospectionView::Command(c)) == Some(words_of(c)),
{
}

/// A unit runs where the command that asks ends with success, does not where it ends
/// otherwise, and is not known to do either where it does not end. It has work just where
/// its probe ends with success.
pub proof fn exit_code_answers(out: RunOutcome)
    ensures
        running_of(out) == Some(true) <==> out is Exited && out->success,
        running_of(out) == Some(false) <==> out is Exited && !out->success,
        says_busy(Some(hook_run_of(Some(out)))) <==> out is Exited && out->success,
        !says_busy(None),
        !says_busy(Some(hook_run_of(None))),
{
}

/// What is logged of an output is its first line that is not blank, as it is where it has
/// 300 characters or fewer; of a longer one the first 300 and that it goes on.
pub proof fn excerpt_is_the_first_line(text: Seq<char>, line: Seq<char>)
    requires
        first_nonblank(lines_of(text)) == Some(line),
    ensures
        line.len() <= 300 ==> excerpt_of(text) == line,
        line.len() > 300 ==> excerpt_of(text) == line.take(300) + "… (truncated)"@,
{
}

/// What an error says begins with what was to be done, to which unit.
pub proof fn error_names_the_unit(action: Seq<char>, unit: Seq<char>, detail: Seq<char>, s: u64)
    ensures
        crate::text::starts_with(
            (UnitErrorView::Control { action, unit, detail }).text(),
            action + " "@ + unit,
        ),
        crate::text::ends_with((UnitErrorView::Control { action, unit, detail }).text(), detail),
        crate::text::starts_with(
            (UnitErrorView::Exit { action, unit, detail }).text(),
            action + " "@ + unit,
        ),
        crate::text::ends_with((UnitErrorView::Exit { action, unit, detail }).text(), detail),
        crate::text::starts_with(
            (UnitErrorView::Timeout { action, unit, elapsed_s: s }).text(),
            action + " "@ + unit,
        ),
{
    let h = action + " "@ + unit;
    let a = (UnitErrorView::Control { action, unit, detail }).text();
    let b = (UnitErrorView::Exit { action, unit, detail }).text();
    let c = (UnitErrorView::Timeout { action, unit, elapsed_s: s }).text();
    assert(a.subrange(0, h.len() as int) =~= h);
    assert(b.subrange(0, h.len() as int) =~= h);
    assert(c.subrange(0, h.len() as int) =~= h);
    crate::text::ends_are_parts(detail, h + ": spawning failed: "@, Seq::empty());
    crate::text::ends_are_parts(detail, h + " failed: "@, Seq::empty());
}

} // verus!
