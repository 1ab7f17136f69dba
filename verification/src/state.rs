//! The arbiter's state and what it shows of itself.

use vstd::prelude::*;

use crate::civil::rfc3339;
use crate::names::NameMap;
use crate::numerals::{signed_decimal, write_i64};
use crate::text::{contains, copy_texts, lex_less, occurs, order, texts, Order};

pub use crate::civil::{civil_from_unix_secs, format_rfc3339, UnixTime};
pub use crate::metrics::{
    DurationHistogram, EvictionCounts, EvictionStage, Metrics, MetricsView, PassTrigger,
    ReconcilePassCounts,
};

verus! {

/// The version of this library, as `/status` and `--version` give it.
pub const VERSION: &'static str = "0.1.0";

/// One observed reason why the GPU belongs to a game.
#[derive(Debug, Clone, PartialEq, Eq, Hash, PartialOrd, Ord)]
pub enum Claim {
    /// A game that Steam launched, by its application.
    Steam(String),
    /// A game that a configured rule recognised, by the rule's name.
    Pattern(String),
    /// A process that holds much VRAM.
    Gpu(i32),
}

/// The value of a [`Claim`].
pub enum ClaimView {
    Steam(Seq<char>),
    Pattern(Seq<char>),
    Gpu(i32),
}

impl View for Claim {
    type V = ClaimView;

    open spec fn view(&self) -> ClaimView {
        match self {
            Claim::Steam(s) => ClaimView::Steam(s@),
            Claim::Pattern(s) => ClaimView::Pattern(s@),
            Claim::Gpu(n) => ClaimView::Gpu(*n),
        }
    }
}

/// The values of a list of claims.
pub open spec fn claim_views(v: Seq<Claim>) -> Seq<ClaimView> {
    Seq::new(v.len(), |i: int| v[i]@)
}

impl ClaimView {
    /// The claim as one word.
    pub open spec fn text(self) -> Seq<char> {
        match self {
            ClaimView::Steam(s) => "steam:"@ + s,
            ClaimView::Pattern(s) => "pattern:"@ + s,
            ClaimView::Gpu(n) => "gpu:"@ + signed_decimal(n as int),
        }
    }

    /// The order of claims: Steam's, then the rules', then those by VRAM; within
    /// each by what the claim holds.
    pub open spec fn before(self, other: ClaimView) -> bool {
        match (self, other) {
            (ClaimView::Steam(a), ClaimView::Steam(b)) => lex_less(a, b),
            (ClaimView::Steam(_), _) => true,
            (ClaimView::Pattern(_), ClaimView::Steam(_)) => false,
            (ClaimView::Pattern(a), ClaimView::Pattern(b)) => lex_less(a, b),
            (ClaimView::Pattern(_), ClaimView::Gpu(_)) => true,
            (ClaimView::Gpu(a), ClaimView::Gpu(b)) => a < b,
            (ClaimView::Gpu(_), _) => false,
        }
    }
}

impl Claim {
    /// The claim as one word, such as `steam:440`.
    pub fn token(&self) -> (r: String)
        ensures
            r@ == self@.text(),
    {
        match self {
            Claim::Steam(s) => {
                let mut o: String = "steam:".to_owned();
                o.append(s.as_str());
                o
            },
            Claim::Pattern(s) => {
                let mut o: String = "pattern:".to_owned();
                o.append(s.as_str());
                o
            },
            Claim::Gpu(n) => {
                let mut o: String = "gpu:".to_owned();
                o.append(write_i64(*n as i64).as_str());
                o
            },
        }
    }

    /// Where this claim stands relative to another.
    pub fn place(&self, other: &Claim) -> (r: Order)
        ensures
            r == Order::Before <==> self@.before(other@),
            r == Order::Same <==> self@ == other@,
            r == Order::After <==> other@.before(self@),
    {
        match self {
            Claim::Steam(a) => match other {
                Claim::Steam(b) => order(a.as_str(), b.as_str()),
                _ => Order::Before,
            },
            Claim::Pattern(a) => match other {
                Claim::Steam(_) => Order::After,
                Claim::Pattern(b) => order(a.as_str(), b.as_str()),
                Claim::Gpu(_) => Order::Before,
            },
            Claim::Gpu(a) => match other {
                Claim::Gpu(b) => if *a < *b {
                    Order::Before
                } else if *a == *b {
                    Order::Same
                } else {
                    Order::After
                },
                _ => Order::After,
            },
        }
    }
}

/// What the arbiter tells others.
#[derive(Debug, Clone, Copy, PartialEq, Eq, Structural)]
pub enum State {
    /// A game runs and has the GPU.
    Gaming,
    /// No game runs; tenants may use the GPU.
    Available,
    /// A game has started and tenants are being evicted.
    Evicting,
}

impl State {
    /// The state's word in `/status`.
    pub open spec fn text(self) -> Seq<char> {
        match self {
            State::Gaming => "gaming"@,
            State::Available => "available"@,
            State::Evicting => "evicting"@,
        }
    }

    /// The state's word in `/status`.
    pub fn label(self) -> (r: &'static str)
        ensures
            r@ == self.text(),
    {
        match self {
            State::Gaming => "gaming",
            State::Available => "available",
            State::Evicting => "evicting",
        }
    }
}

/// Why an operator's request was not carried out.
#[derive(Debug, Clone, Copy, PartialEq, Eq, Structural)]
pub enum ManualActionError {
    /// It was tried and failed.
    Failed,
    /// It was not tried: a game has the GPU.
    GpuHeldByGame,
}

/// What sets a pass off.
#[derive(Debug, Clone, PartialEq, Eq)]
pub enum ReconcileTrigger {
    /// A process started or ended.
    ProcEvent,
    /// The backstop timer.
    Timer,
    /// The daemon has just started.
    Startup,
    /// An operator wants a unit started.
    ManualStart {
        /// The unit.
        unit: String,
    },
    /// An operator wants a unit stopped.
    ManualStop {
        /// The unit.
        unit: String,
    },
}

impl ReconcileTrigger {
    /// The trigger's word in the log.
    pub open spec fn text(self) -> Seq<char> {
        match self {
            ReconcileTrigger::ProcEvent => "proc_event"@,
            ReconcileTrigger::Timer => "timer"@,
            ReconcileTrigger::Startup => "startup"@,
            ReconcileTrigger::ManualStart { .. } => "manual_start"@,
            ReconcileTrigger::ManualStop { .. } => "manual_stop"@,
        }
    }

    /// The counter that the trigger falls under.
    pub open spec fn bucket(self) -> PassTrigger {
        match self {
            ReconcileTrigger::ProcEvent => PassTrigger::ProcEvent,
            ReconcileTrigger::Timer => PassTrigger::Timer,
            ReconcileTrigger::Startup => PassTrigger::Startup,
            ReconcileTrigger::ManualStart { .. } => PassTrigger::Manual,
            ReconcileTrigger::ManualStop { .. } => PassTrigger::Manual,
        }
    }

    /// The trigger's word in the log.
    pub fn label(&self) -> (r: &'static str)
        ensures
            r@ == self.text(),
    {
        match self {
            ReconcileTrigger::ProcEvent => "proc_event",
            ReconcileTrigger::Timer => "timer",
            ReconcileTrigger::Startup => "startup",
            ReconcileTrigger::ManualStart { .. } => "manual_start",
            ReconcileTrigger::ManualStop { .. } => "manual_stop",
        }
    }

    /// The counter that the trigger falls under.
    pub fn pass_trigger(&self) -> (r: PassTrigger)
        ensures
            r == self.bucket(),
    {
        match self {
            ReconcileTrigger::ProcEvent => PassTrigger::ProcEvent,
            ReconcileTrigger::Timer => PassTrigger::Timer,
            ReconcileTrigger::Startup => PassTrigger::Startup,
            ReconcileTrigger::ManualStart { .. } => PassTrigger::Manual,
            ReconcileTrigger::ManualStop { .. } => PassTrigger::Manual,
        }
    }
}

/// How one managed unit stands.
#[derive(Debug, Clone, PartialEq, Eq)]
pub struct UnitStatus {
    /// The unit.
    pub unit: String,
    /// Whether it runs; nothing where that could not be told.
    pub running: Option<bool>,
    /// The models that it has loaded.
    pub models: Vec<String>,
    /// The VRAM that it holds, where that is known.
    pub vram_mb: Option<u64>,
    /// Whether an operator stopped it.
    pub held: bool,
}

/// The value of a [`UnitStatus`].
pub struct UnitStatusView {
    pub unit: Seq<char>,
    pub running: Option<bool>,
    pub models: Seq<Seq<char>>,
    pub vram_mb: Option<u64>,
    pub held: bool,
}

impl View for UnitStatus {
    type V = UnitStatusView;

    open spec fn view(&self) -> UnitStatusView {
        UnitStatusView {
            unit: self.unit@,
            running: self.running,
            models: texts(self.models@),
            vram_mb: self.vram_mb,
            held: self.held,
        }
    }
}

/// The values of a list of statuses.
pub open spec fn status_views(v: Seq<UnitStatus>) -> Seq<UnitStatusView> {
    Seq::new(v.len(), |i: int| v[i]@)
}

/// The status of no unit.
pub open spec fn no_status() -> UnitStatusView {
    UnitStatusView {
        unit: Seq::empty(),
        running: None,
        models: Seq::empty(),
        vram_mb: None,
        held: false,
    }
}

impl UnitStatus {
    /// A copy of this status.
    pub fn copy(&self) -> (r: UnitStatus)
        ensures
            r@ == self@,
    {
        UnitStatus {
            unit: self.unit.clone(),
            running: self.running,
            models: copy_texts(self.models.as_slice()),
            vram_mb: self.vram_mb,
            held: self.held,
        }
    }
}

impl Default for UnitStatus {
    fn default() -> (r: UnitStatus)
        ensures
            r@ == no_status(),
    {
        let r = UnitStatus {
            unit: String::new(),
            running: None,
            models: Vec::new(),
            vram_mb: None,
            held: false,
        };
        proof {
            assert(texts(r.models@) =~= Seq::empty());
        }
        r
    }
}

/// What `/status` shows.
#[derive(Debug, Clone, PartialEq, Eq)]
pub struct StatusSnapshot {
    /// The daemon's version.
    pub version: String,
    /// The state.
    pub state: State,
    /// The claims, as words.
    pub claims: Vec<String>,
    /// The managed units, in the order of the configuration.
    pub units: Vec<UnitStatus>,
    /// The unit that older readers look for.
    pub ollama: UnitStatus,
    /// VRAM in use.
    pub gpu_vram_used_mb: u64,
    /// VRAM in all.
    pub gpu_vram_total_mb: u64,
    /// When the state was entered.
    pub since: String,
    /// When local input was last seen.
    pub local_input_last_unix: i64,
    /// How many input devices are watched.
    pub physical_input_devices: u32,
    /// Whether local input is watched at all.
    pub input_monitor_up: bool,
    /// Whether a unit could not be evicted.
    pub degraded: bool,
}

/// The value of a [`StatusSnapshot`].
pub struct SnapshotView {
    pub version: Seq<char>,
    pub state: State,
    pub claims: Seq<Seq<char>>,
    pub units: Seq<UnitStatusView>,
    pub ollama: UnitStatusView,
    pub gpu_vram_used_mb: u64,
    pub gpu_vram_total_mb: u64,
    pub since: Seq<char>,
    pub local_input_last_unix: i64,
    pub physical_input_devices: u32,
    pub input_monitor_up: bool,
    pub degraded: bool,
}

impl View for StatusSnapshot {
    type V = SnapshotView;

    open spec fn view(&self) -> SnapshotView {
        SnapshotView {
            version: self.version@,
            state: self.state,
            claims: texts(self.claims@),
            units: status_views(self.units@),
            ollama: self.ollama@,
            gpu_vram_used_mb: self.gpu_vram_used_mb,
            gpu_vram_total_mb: self.gpu_vram_total_mb,
            since: self.since@,
            local_input_last_unix: self.local_input_last_unix,
            physical_input_devices: self.physical_input_devices,
            input_monitor_up: self.input_monitor_up,
            degraded: self.degraded,
        }
    }
}

/// The first status whose unit has `ollama` in its name.
pub open spec fn named_ollama(units: Seq<UnitStatusView>) -> Option<UnitStatusView>
    decreases units.len(),
{
    if units.len() == 0 {
        None
    } else if occurs(units[0].unit, "ollama"@) {
        Some(units[0])
    } else {
        named_ollama(units.drop_first())
    }
}

/// The unit that older readers look for: the first with `ollama` in its name,
/// else the first, else none.
pub open spec fn alias_of(units: Seq<UnitStatusView>) -> UnitStatusView {
    match named_ollama(units) {
        Some(u) => u,
        None => if units.len() > 0 {
            units[0]
        } else {
            no_status()
        },
    }
}

impl StatusSnapshot {
    /// The unit that older readers look for.
    fn ollama_alias(units: &Vec<UnitStatus>) -> (r: UnitStatus)
        ensures
            r@ == alias_of(status_views(units@)),
    {
        let ghost uv = status_views(units@);
        let mut i: usize = 0;
        proof {
            assert(uv.skip(0) =~= uv);
        }
        while i < units.len()
            invariant
                i <= units.len(),
                uv == status_views(units@),
                named_ollama(uv) == named_ollama(uv.skip(i as int)),
            decreases units.len() - i,
        {
            proof {
                assert(uv.skip(i as int)[0] == units@[i as int]@);
                assert(uv.skip(i as int).drop_first() =~= uv.skip(i + 1));
            }
            if contains(units[i].unit.as_str(), "ollama") {
                return units[i].copy();
            }
            i = i + 1;
        }
        if units.len() > 0 {
            proof {
                assert(uv[0] == units@[0]@);
            }
            units[0].copy()
        } else {
            UnitStatus::default()
        }
    }
}

/// What is known of the people at the desk.
#[derive(Debug, Clone, Copy, PartialEq, Eq, Default, Structural)]
pub struct Presence {
    /// When local input was last seen.
    pub last_input_unix: i64,
    /// How many input devices are watched.
    pub devices: u32,
    /// Whether local input is watched at all.
    pub monitor_up: bool,
}

/// The arbiter's state.
#[derive(Debug)]
pub struct ArbiterState {
    /// The state that others are told.
    pub state: State,
    /// The claims of the last pass.
    pub claims: Vec<Claim>,
    /// The managed units as last seen.
    pub units: Vec<UnitStatus>,
    /// VRAM in use.
    pub gpu_vram_used_mb: u64,
    /// VRAM in all.
    pub gpu_vram_total_mb: u64,
    /// When the state was entered.
    pub since: UnixTime,
    /// What is known of the people at the desk.
    pub presence: Presence,
    /// The units that an operator stopped.
    pub held: NameMap<()>,
    /// Whether a unit could not be evicted.
    pub degraded: bool,
    /// What has been counted.
    pub metrics: Metrics,
}

/// The value of an [`ArbiterState`].
pub struct StateView {
    pub state: State,
    pub claims: Seq<ClaimView>,
    pub units: Seq<UnitStatusView>,
    pub gpu_vram_used_mb: u64,
    pub gpu_vram_total_mb: u64,
    pub since: UnixTime,
    pub presence: Presence,
    pub held: Set<Seq<char>>,
    pub degraded: bool,
    pub metrics: MetricsView,
}

impl View for ArbiterState {
    type V = StateView;

    open spec fn view(&self) -> StateView {
        StateView {
            state: self.state,
            claims: claim_views(self.claims@),
            units: status_views(self.units@),
            gpu_vram_used_mb: self.gpu_vram_used_mb,
            gpu_vram_total_mb: self.gpu_vram_total_mb,
            since: self.since,
            presence: self.presence,
            held: self.held@.dom(),
            degraded: self.degraded,
            metrics: self.metrics@,
        }
    }
}

impl StateView {
    /// With another state entered at `now`: where it is no other, the instant of
    /// entry stays.
    pub open spec fn entered(self, new: State, now: UnixTime) -> StateView {
        if self.state == new {
            self
        } else {
            StateView { state: new, since: now, ..self }
        }
    }

    /// What `/status` shows of this state.
    pub open spec fn shown(self) -> SnapshotView {
        SnapshotView {
            version: VERSION@,
            state: self.state,
            claims: Seq::new(self.claims.len(), |i: int| self.claims[i].text()),
            units: self.units,
            ollama: alias_of(self.units),
            gpu_vram_used_mb: self.gpu_vram_used_mb,
            gpu_vram_total_mb: self.gpu_vram_total_mb,
            since: rfc3339(self.since),
            local_input_last_unix: self.presence.last_input_unix,
            physical_input_devices: self.presence.devices,
            input_monitor_up: self.presence.monitor_up,
            degraded: self.degraded,
        }
    }
}

impl ArbiterState {
    /// The maps are in order.
    pub open spec fn wf(&self) -> bool {
        self.held.wf() && self.metrics.wf()
    }

    /// The state of a daemon that starts at `now`.
    pub open spec fn initial(now: UnixTime) -> StateView {
        StateView {
            state: State::Available,
            claims: Seq::empty(),
            units: Seq::empty(),
            gpu_vram_used_mb: 0,
            gpu_vram_total_mb: 0,
            since: now,
            presence: Presence { last_input_unix: 0, devices: 0, monitor_up: false },
            held: Set::empty(),
            degraded: false,
            metrics: MetricsView::zero(),
        }
    }

    /// The state of a daemon that starts at `now`.
    pub fn new(now: UnixTime) -> (s: ArbiterState)
        ensures
            s.wf(),
            s@ == ArbiterState::initial(now),
    {
        let s = ArbiterState {
            state: State::Available,
            claims: Vec::new(),
            units: Vec::new(),
            gpu_vram_used_mb: 0,
            gpu_vram_total_mb: 0,
            since: now,
            presence: Presence { last_input_unix: 0, devices: 0, monitor_up: false },
            held: NameMap::new(),
            degraded: false,
            metrics: Metrics::new(),
        };
        proof {
            assert(s@.claims =~= Seq::empty());
            assert(s@.units =~= Seq::empty());
            assert(s@.held =~= Set::empty());
        }
        s
    }

    /// A game has the GPU exactly while something claims it.
    pub open spec fn resolved(claims: Seq<ClaimView>) -> State {
        if claims.len() == 0 {
            State::Available
        } else {
            State::Gaming
        }
    }

    /// The state that follows from the claims.
    pub fn resolve_state(claims: &[Claim]) -> (r: State)
        ensures
            r == ArbiterState::resolved(claim_views(claims@)),
    {
        if claims.len() == 0 {
            State::Available
        } else {
            State::Gaming
        }
    }

    /// Enter a state at `now`.
    pub fn set_state(&mut self, new: State, now: UnixTime)
        requires
            old(self).wf(),
        ensures
            final(self).wf(),
            final(self)@ == old(self)@.entered(new, now),
    {
        if self.state != new {
            self.state = new;
            self.since = now;
        }
    }

    /// What `/status` shows.
    pub fn snapshot(&self) -> (r: StatusSnapshot)
        ensures
            r@ == self@.shown(),
    {
        let mut claims: Vec<String> = Vec::new();
        let mut i: usize = 0;
        while i < self.claims.len()
            invariant
                i <= self.claims.len(),
                claims@.len() == i,
                forall|j: int| 0 <= j < i ==> (#[trigger] claims@[j])@ == self.claims@[j]@.text(),
            decreases self.claims.len() - i,
        {
            claims.push(self.claims[i].token());
            i = i + 1;
        }
        let mut units: Vec<UnitStatus> = Vec::new();
        let mut i: usize = 0;
        while i < self.units.len()
            invariant
                i <= self.units.len(),
                units@.len() == i,
                forall|j: int| 0 <= j < i ==> (#[trigger] units@[j])@ == self.units@[j]@,
            decreases self.units.len() - i,
        {
            units.push(self.units[i].copy());
            i = i + 1;
        }
        proof {
            assert(texts(claims@) =~= self@.shown().claims);
            assert(status_views(units@) =~= self@.units);
        }
        StatusSnapshot {
            version: VERSION.to_owned(),
            state: self.state,
            claims,
            units,
            ollama: StatusSnapshot::ollama_alias(&self.units),
            gpu_vram_used_mb: self.gpu_vram_used_mb,
            gpu_vram_total_mb: self.gpu_vram_total_mb,
            since: format_rfc3339(self.since),
            local_input_last_unix: self.presence.last_input_unix,
            physical_input_devices: self.presence.devices,
            input_monitor_up: self.presence.monitor_up,
            degraded: self.degraded,
        }
    }
}

// ── laws ───────────────────────────────────────────────────────────────────

/// Entering a state twice is entering it once: the instant of the first entry
/// stays.
pub proof fn entering_again_keeps_the_instant(s: StateView, new: State, a: UnixTime, b: UnixTime)
    ensures
        s.entered(new, a).entered(new, b) == s.entered(new, a),
        s.entered(new, a).state == new,
{
}

/// Claims that differ are ordered one way.
pub proof fn claims_are_ordered(a: ClaimView, b: ClaimView)
    ensures
        a.before(b) || a == b || b.before(a),
        !(a.before(b) && b.before(a)),
        !a.before(a),
{
    match (a, b) {
        (ClaimView::Steam(x), ClaimView::Steam(y)) => {
            crate::text::lemma_lex_total(x, y);
            if lex_less(x, y) {
                crate::text::lemma_lex_asymmetric(x, y);
            }
        },
        (ClaimView::Pattern(x), ClaimView::Pattern(y)) => {
            crate::text::lemma_lex_total(x, y);
            if lex_less(x, y) {
                crate::text::lemma_lex_asymmetric(x, y);
            }
        },
        _ => {},
    }
    match a {
        ClaimView::Steam(x) => crate::text::lemma_lex_irreflexive(x),
        ClaimView::Pattern(x) => crate::text::lemma_lex_irreflexive(x),
        _ => {},
    }
}

/// The order of claims carries over.
pub proof fn claim_order_carries_over(a: ClaimView, b: ClaimView, c: ClaimView)
    requires
        a.before(b),
        b.before(c),
    ensures
        a.before(c),
{
    match (a, b, c) {
        (ClaimView::Steam(x), ClaimView::Steam(y), ClaimView::Steam(z)) => {
            crate::text::lemma_lex_transitive(x, y, z);
        },
        (ClaimView::Pattern(x), ClaimView::Pattern(y), ClaimView::Pattern(z)) => {
            crate::text::lemma_lex_transitive(x, y, z);
        },
        _ => {},
    }
}

/// Entering a state changes the state and, where it was another, the instant; and
/// nothing else.
pub proof fn entering_sets_the_instant(s: StateView, new: State, now: UnixTime)
    ensures
        ({
            let n = s.entered(new, now);
            &&& n.state == new
            &&& n.since == (if s.state != new {
                now
            } else {
                s.since
            })
            &&& n == StateView { state: n.state, since: n.since, ..s }
        }),
{
}

/// There is a game just where something claims the GPU.
pub proof fn any_claim_is_a_game(claims: Seq<ClaimView>)
    ensures
        ArbiterState::resolved(claims) == State::Gaming <==> claims.len() > 0,
        ArbiterState::resolved(claims) == State::Available <==> claims.len() == 0,
{
}

/// A snapshot shows the state as it is: every claim by its word, in order, every
/// unit, and each of the numbers.
pub proof fn snapshot_is_the_state(s: StateView, i: int)
    ensures
        ({
            let n = s.shown();
            &&& n.state == s.state
            &&& n.units == s.units
            &&& n.claims.len() == s.claims.len()
            &&& 0 <= i < s.claims.len() ==> n.claims[i] == s.claims[i].text()
            &&& n.gpu_vram_used_mb == s.gpu_vram_used_mb
            &&& n.gpu_vram_total_mb == s.gpu_vram_total_mb
            &&& n.since == rfc3339(s.since)
            &&& n.local_input_last_unix == s.presence.last_input_unix
            &&& n.physical_input_devices == s.presence.devices
            &&& n.input_monitor_up == s.presence.monitor_up
            &&& n.degraded == s.degraded
            &&& n.version == VERSION@
        }),
{
}

/// Older readers find the first unit with `ollama` in its name, wherever it stands;
/// where there is none, the first unit.
pub proof fn alias_is_the_first_ollama(units: Seq<UnitStatusView>, i: int)
    requires
        0 <= i < units.len(),
    ensures
        occurs(units[i].unit, "ollama"@) && (forall|j: int|
            0 <= j < i ==> !occurs((#[trigger] units[j]).unit, "ollama"@)) ==> alias_of(units)
            == units[i],
        (forall|j: int| 0 <= j < units.len() ==> !occurs((#[trigger] units[j]).unit, "ollama"@))
            ==> alias_of(units) == units[0],
{
    lemma_first_ollama(units, i);
}

proof fn lemma_first_ollama(units: Seq<UnitStatusView>, i: int)
    requires
        0 <= i < units.len(),
    ensures
        occurs(units[i].unit, "ollama"@) && (forall|j: int|
            0 <= j < i ==> !occurs((#[trigger] units[j]).unit, "ollama"@)) ==> named_ollama(units)
            == Some(units[i]),
        (forall|j: int| 0 <= j < units.len() ==> !occurs((#[trigger] units[j]).unit, "ollama"@))
            ==> named_ollama(units) is None,
    decreases units.len(),
{
    let t = units.drop_first();
    if forall|j: int| 0 <= j < i ==> !occurs((#[trigger] units[j]).unit, "ollama"@) {
        assert forall|j: int| 0 <= j < i - 1 implies !occurs((#[trigger] t[j]).unit, "ollama"@) by {
            assert(t[j] == units[j + 1]);
        }
    }
    if forall|j: int| 0 <= j < units.len() ==> !occurs((#[trigger] units[j]).unit, "ollama"@) {
        assert forall|j: int| 0 <= j < t.len() implies !occurs(
            (#[trigger] t[j]).unit,
            "ollama"@,
        ) by {
            assert(t[j] == units[j + 1]);
        }
    }
    if t.len() > 0 {
        lemma_first_ollama(
            t,
            if i > 0 {
                i - 1
            } else {
                0
            },
        );
    }
    if i > 0 {
        assert(!occurs(units[0].unit, "ollama"@) || occurs(units[0].unit, "ollama"@));
        assert(t[i - 1] == units[i]);
    }
}

/// Claims by Steam come before those by a rule, and those before claims by VRAM; each
/// kind is ordered by what the claim holds.
pub proof fn kinds_order_claims(a: Seq<char>, b: Seq<char>, m: i32, n: i32)
    ensures
        ClaimView::Steam(a).before(ClaimView::Pattern(b)),
        ClaimView::Pattern(a).before(ClaimView::Gpu(n)),
        ClaimView::Steam(a).before(ClaimView::Steam(b)) <==> lex_less(a, b),
        ClaimView::Pattern(a).before(ClaimView::Pattern(b)) <==> lex_less(a, b),
        ClaimView::Gpu(m).before(ClaimView::Gpu(n)) <==> m < n,
{
}

/// A claim's word is its kind, a colon and what it holds; so claims of different kinds have
/// different words.
pub proof fn word_holds_the_claim(a: Seq<char>, b: Seq<char>, n: i32)
    ensures
        ClaimView::Steam(a).text() == "steam"@.push(':') + a,
        ClaimView::Pattern(a).text() == "pattern"@.push(':') + a,
        ClaimView::Gpu(n).text() == "gpu"@.push(':') + signed_decimal(n as int),
        ClaimView::Steam(a).text() != ClaimView::Pattern(b).text(),
        ClaimView::Steam(a).text() != ClaimView::Gpu(n).text(),
        ClaimView::Pattern(a).text() != ClaimView::Gpu(n).text(),
        ClaimView::Steam(a).text() == ClaimView::Steam(b).text() ==> a == b,
        ClaimView::Pattern(a).text() == ClaimView::Pattern(b).text() ==> a == b,
{
    reveal_strlit("steam");
    reveal_strlit("steam:");
    reveal_strlit("pattern");
    reveal_strlit("pattern:");
    reveal_strlit("gpu");
    reveal_strlit("gpu:");
    assert("steam"@.push(':') =~= "steam:"@);
    assert("pattern"@.push(':') =~= "pattern:"@);
    assert("gpu"@.push(':') =~= "gpu:"@);
    assert(ClaimView::Steam(a).text()[0] == 's');
    assert(ClaimView::Pattern(a).text()[0] == 'p');
    assert(ClaimView::Pattern(b).text()[0] == 'p');
    assert(ClaimView::Gpu(n).text()[0] == 'g');
    assert(ClaimView::Steam(a).text().skip(6) =~= a);
    assert(ClaimView::Steam(b).text().skip(6) =~= b);
    assert(ClaimView::Pattern(a).text().skip(8) =~= a);
    assert(ClaimView::Pattern(b).text().skip(8) =~= b);
}

} // verus!
