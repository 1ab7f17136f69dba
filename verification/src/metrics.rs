//! Counters that only grow while the daemon runs.

use vstd::prelude::*;

use crate::names::NameMap;
use crate::units::EvictionMetricOutcome;

verus! {

/// Evictions of one unit by how they ended.
#[derive(Debug, Clone, Copy, PartialEq, Eq, Default, Structural)]
pub struct EvictionCounts {
    /// The unit let go and stayed up.
    pub yielded: u64,
    /// The unit was stopped and let go in time.
    pub graceful: u64,
    /// The unit was killed.
    pub sigkill: u64,
    /// The eviction failed.
    pub error: u64,
}

/// Passes by what set them off.
#[derive(Debug, Clone, Copy, PartialEq, Eq, Default, Structural)]
pub struct ReconcilePassCounts {
    /// A process event.
    pub proc_event: u64,
    /// The backstop timer.
    pub timer: u64,
    /// An operator.
    pub manual: u64,
    /// The start of the daemon.
    pub startup: u64,
}

/// What sets a pass off, as the counters tell it apart.
#[derive(Debug, Clone, Copy, PartialEq, Eq, Structural)]
pub enum PassTrigger {
    /// A process event.
    ProcEvent,
    /// The backstop timer.
    Timer,
    /// An operator.
    Manual,
    /// The start of the daemon.
    Startup,
}

impl PassTrigger {
    /// The label of the counter.
    pub open spec fn text(self) -> Seq<char> {
        match self {
            PassTrigger::ProcEvent => "proc_event"@,
            PassTrigger::Timer => "timer"@,
            PassTrigger::Manual => "manual"@,
            PassTrigger::Startup => "startup"@,
        }
    }

    /// The label of the counter.
    pub fn label(self) -> (r: &'static str)
        ensures
            r@ == self.text(),
    {
        match self {
            PassTrigger::ProcEvent => "proc_event",
            PassTrigger::Timer => "timer",
            PassTrigger::Manual => "manual",
            PassTrigger::Startup => "startup",
        }
    }
}

/// The stages of an eviction that are timed.
#[derive(Debug, Clone, Copy, PartialEq, Eq, Hash, PartialOrd, Ord, Structural)]
pub enum EvictionStage {
    /// Asking the unit to let go.
    Yield,
    /// Stopping it.
    Stop,
    /// All of it.
    Total,
}

impl EvictionStage {
    /// The label of the histogram.
    pub open spec fn text(self) -> Seq<char> {
        match self {
            EvictionStage::Yield => "yield"@,
            EvictionStage::Stop => "stop"@,
            EvictionStage::Total => "total"@,
        }
    }

    /// The label of the histogram.
    pub fn label(self) -> (r: &'static str)
        ensures
            r@ == self.text(),
    {
        match self {
            EvictionStage::Yield => "yield",
            EvictionStage::Stop => "stop",
            EvictionStage::Total => "total",
        }
    }
}

/// How many buckets a histogram has.
pub const BUCKETS: usize = 9;

/// The upper bound of a bucket, in nanoseconds: 0.1, 0.25, 0.5, 1, 2, 3, 5, 10
/// and 30 seconds.
pub open spec fn bucket_bound(i: int) -> u64 {
    if i == 0 {
        100_000_000
    } else if i == 1 {
        250_000_000
    } else if i == 2 {
        500_000_000
    } else if i == 3 {
        1_000_000_000
    } else if i == 4 {
        2_000_000_000
    } else if i == 5 {
        3_000_000_000
    } else if i == 6 {
        5_000_000_000
    } else if i == 7 {
        10_000_000_000
    } else {
        30_000_000_000
    }
}

/// The upper bound of a bucket, in nanoseconds.
pub fn bound_nanos(i: usize) -> (r: u64)
    ensures
        r == bucket_bound(i as int),
{
    match i {
        0 => 100_000_000,
        1 => 250_000_000,
        2 => 500_000_000,
        3 => 1_000_000_000,
        4 => 2_000_000_000,
        5 => 3_000_000_000,
        6 => 5_000_000_000,
        7 => 10_000_000_000,
        _ => 30_000_000_000,
    }
}

/// How long something took, over many times: for each bound how often it took at
/// most that long, how often it happened, and how long it took in all.
#[derive(Debug, Clone, Copy, PartialEq, Eq)]
pub struct DurationHistogram {
    /// For each bound, how many durations were at most that.
    pub buckets: [u64; 9],
    /// How many durations there were.
    pub count: u64,
    /// Their sum in nanoseconds.
    pub sum_nanos: u128,
}

/// The value of a [`DurationHistogram`].
pub struct HistogramView {
    pub buckets: Seq<u64>,
    pub count: u64,
    pub sum_nanos: u128,
}

impl View for DurationHistogram {
    type V = HistogramView;

    open spec fn view(&self) -> HistogramView {
        HistogramView { buckets: self.buckets@, count: self.count, sum_nanos: self.sum_nanos }
    }
}

/// The histogram of no durations.
pub open spec fn no_durations() -> HistogramView {
    HistogramView { buckets: Seq::new(9, |i: int| 0u64), count: 0, sum_nanos: 0 }
}

/// The histogram with one more duration.
pub open spec fn observed(h: HistogramView, nanos: u64) -> HistogramView {
    HistogramView {
        buckets: Seq::new(
            9,
            |i: int|
                if nanos <= bucket_bound(i) {
                    (h.buckets[i] + 1) as u64
                } else {
                    h.buckets[i]
                },
        ),
        count: (h.count + 1) as u64,
        sum_nanos: (h.sum_nanos + nanos) as u128,
    }
}

/// A histogram of `count` durations: each bucket holds at least what the bucket
/// before holds and at most all, and the sum is one of `count` durations.
pub open spec fn histogram_wf(h: HistogramView) -> bool {
    &&& h.buckets.len() == 9
    &&& forall|i: int| 0 <= i < 9 ==> (#[trigger] h.buckets[i]) <= h.count
    &&& forall|i: int, j: int|
        0 <= i <= j < 9 ==> (#[trigger] h.buckets[i]) <= (#[trigger] h.buckets[j])
    &&& h.sum_nanos <= h.count * u64::MAX
}

impl DurationHistogram {
    /// The histogram of no durations.
    pub fn new() -> (h: DurationHistogram)
        ensures
            h@ == no_durations(),
            histogram_wf(h@),
    {
        let h = DurationHistogram { buckets: [0, 0, 0, 0, 0, 0, 0, 0, 0], count: 0, sum_nanos: 0 };
        proof {
            assert(h@.buckets =~= no_durations().buckets);
        }
        h
    }

    /// Count one more duration.
    pub fn observe(&mut self, nanos: u64)
        requires
            histogram_wf(old(self)@),
            old(self).count < u64::MAX,
        ensures
            final(self)@ == observed(old(self)@, nanos),
            histogram_wf(final(self)@),
    {
        let ghost before = self@;
        proof {
            lemma_observed(before, nanos);
        }
        let mut i: usize = 0;
        while i < BUCKETS
            invariant
                i <= BUCKETS,
                histogram_wf(before),
                before.count < u64::MAX,
                self.count == before.count,
                self.sum_nanos == before.sum_nanos,
                forall|j: int|
                    0 <= j < i ==> (#[trigger] self.buckets@[j]) == observed(
                        before,
                        nanos,
                    ).buckets[j],
                forall|j: int|
                    i <= j < 9 ==> (#[trigger] self.buckets@[j]) == before.buckets[j],
            decreases BUCKETS - i,
        {
            if nanos <= bound_nanos(i) {
                let n: u64 = self.buckets[i];
                assert(before.buckets[i as int] <= before.count);
                self.buckets[i] = n + 1;
            }
            i = i + 1;
        }
        self.count = self.count + 1;
        self.sum_nanos = self.sum_nanos + nanos as u128;
        proof {
            assert(self@.buckets =~= observed(before, nanos).buckets);
        }
    }
}

/// One more duration keeps a histogram in shape, and its sum fits.
pub proof fn lemma_observed(h: HistogramView, nanos: u64)
    requires
        histogram_wf(h),
        h.count < u64::MAX,
    ensures
        histogram_wf(observed(h, nanos)),
        h.sum_nanos + nanos <= u128::MAX,
{
    let c = h.count as int;
    assert(h.sum_nanos + nanos <= (c + 1) * u64::MAX) by (nonlinear_arith)
        requires
            h.sum_nanos <= c * u64::MAX,
            nanos <= u64::MAX,
    ;
    assert((c + 1) * u64::MAX <= u64::MAX * u64::MAX) by (nonlinear_arith)
        requires
            0 <= c + 1 <= u64::MAX,
    ;
    assert(u64::MAX * u64::MAX <= u128::MAX) by (nonlinear_arith);
    let o = observed(h, nanos);
    assert forall|i: int, j: int| 0 <= i <= j < 9 implies (#[trigger] o.buckets[i]) <= (
    #[trigger] o.buckets[j]) by {
        assert(h.buckets[i] <= h.buckets[j]);
        assert(h.buckets[j] <= h.count);
    }
    assert forall|i: int| 0 <= i < 9 implies (#[trigger] o.buckets[i]) <= o.count by {
        assert(h.buckets[i] <= h.count);
    }
}

/// The durations of one unit, by stage.
#[derive(Debug, Clone, Copy, PartialEq, Eq)]
pub struct StageHistograms {
    /// Of the yields.
    pub yields: Option<DurationHistogram>,
    /// Of the stops.
    pub stops: Option<DurationHistogram>,
    /// Of the evictions as wholes.
    pub totals: Option<DurationHistogram>,
}

/// The value of a [`StageHistograms`].
pub struct StagesView {
    pub yields: Option<HistogramView>,
    pub stops: Option<HistogramView>,
    pub totals: Option<HistogramView>,
}

/// The value of an optional histogram.
pub open spec fn opt_histogram(h: Option<DurationHistogram>) -> Option<HistogramView> {
    match h {
        Some(x) => Some(x@),
        None => None,
    }
}

impl View for StageHistograms {
    type V = StagesView;

    open spec fn view(&self) -> StagesView {
        StagesView {
            yields: opt_histogram(self.yields),
            stops: opt_histogram(self.stops),
            totals: opt_histogram(self.totals),
        }
    }
}

/// No durations in any stage.
pub open spec fn no_stages() -> StagesView {
    StagesView { yields: None, stops: None, totals: None }
}

impl StagesView {
    /// The histogram of a stage.
    pub open spec fn stage(self, stage: EvictionStage) -> Option<HistogramView> {
        match stage {
            EvictionStage::Yield => self.yields,
            EvictionStage::Stop => self.stops,
            EvictionStage::Total => self.totals,
        }
    }

    /// These histograms with one more duration in a stage.
    pub open spec fn plus(self, stage: EvictionStage, nanos: u64) -> StagesView {
        let h = observed(
            match self.stage(stage) {
                Some(h) => h,
                None => no_durations(),
            },
            nanos,
        );
        match stage {
            EvictionStage::Yield => StagesView { yields: Some(h), ..self },
            EvictionStage::Stop => StagesView { stops: Some(h), ..self },
            EvictionStage::Total => StagesView { totals: Some(h), ..self },
        }
    }

    /// Each histogram is in shape.
    pub open spec fn wf(self) -> bool {
        forall|s: EvictionStage|
            (#[trigger] self.stage(s)) is Some ==> histogram_wf(self.stage(s)->0)
    }
}

impl StageHistograms {
    /// The histogram of a stage.
    pub fn stage(&self, stage: EvictionStage) -> (r: Option<DurationHistogram>)
        ensures
            opt_histogram(r) == self@.stage(stage),
    {
        match stage {
            EvictionStage::Yield => self.yields,
            EvictionStage::Stop => self.stops,
            EvictionStage::Total => self.totals,
        }
    }
}

/// What the daemon counts.
#[derive(Debug)]
pub struct Metrics {
    /// Evictions by unit.
    pub evictions: NameMap<EvictionCounts>,
    /// Starts by unit.
    pub unit_restarts: NameMap<u64>,
    /// Passes.
    pub reconcile_passes: ReconcilePassCounts,
    /// Durations of evictions by unit.
    pub eviction_durations: NameMap<StageHistograms>,
}

/// The value of a [`Metrics`].
pub struct MetricsView {
    pub evictions: Map<Seq<char>, EvictionCounts>,
    pub restarts: Map<Seq<char>, u64>,
    pub passes: ReconcilePassCounts,
    pub durations: Map<Seq<char>, StagesView>,
}

/// The durations of every unit.
pub open spec fn durations_view(m: Map<Seq<char>, StageHistograms>) -> Map<Seq<char>, StagesView> {
    Map::new(|n: Seq<char>| m.dom().contains(n), |n: Seq<char>| m[n]@)
}

impl View for Metrics {
    type V = MetricsView;

    open spec fn view(&self) -> MetricsView {
        MetricsView {
            evictions: self.evictions@,
            restarts: self.unit_restarts@,
            passes: self.reconcile_passes,
            durations: durations_view(self.eviction_durations@),
        }
    }
}

/// No evictions.
pub open spec fn no_evictions() -> EvictionCounts {
    EvictionCounts { yielded: 0, graceful: 0, sigkill: 0, error: 0 }
}

/// The counts with one more eviction.
pub open spec fn counted(c: EvictionCounts, outcome: EvictionMetricOutcome) -> EvictionCounts {
    match outcome {
        EvictionMetricOutcome::Yielded => EvictionCounts { yielded: (c.yielded + 1) as u64, ..c },
        EvictionMetricOutcome::Graceful => EvictionCounts { graceful: (c.graceful + 1) as u64, ..c },
        EvictionMetricOutcome::Sigkill => EvictionCounts { sigkill: (c.sigkill + 1) as u64, ..c },
        EvictionMetricOutcome::Error => EvictionCounts { error: (c.error + 1) as u64, ..c },
    }
}

/// None of the counts is at its limit.
pub open spec fn counts_have_room(c: EvictionCounts) -> bool {
    c.yielded < u64::MAX && c.graceful < u64::MAX && c.sigkill < u64::MAX && c.error < u64::MAX
}

impl MetricsView {
    /// Nothing counted yet.
    pub open spec fn zero() -> MetricsView {
        MetricsView {
            evictions: Map::empty(),
            restarts: Map::empty(),
            passes: ReconcilePassCounts { proc_event: 0, timer: 0, manual: 0, startup: 0 },
            durations: Map::empty(),
        }
    }

    /// The evictions of a unit.
    pub open spec fn evictions_of(self, unit: Seq<char>) -> EvictionCounts {
        if self.evictions.dom().contains(unit) {
            self.evictions[unit]
        } else {
            no_evictions()
        }
    }

    /// The starts of a unit.
    pub open spec fn restarts_of(self, unit: Seq<char>) -> u64 {
        if self.restarts.dom().contains(unit) {
            self.restarts[unit]
        } else {
            0
        }
    }

    /// The durations of a unit.
    pub open spec fn durations_of(self, unit: Seq<char>) -> StagesView {
        if self.durations.dom().contains(unit) {
            self.durations[unit]
        } else {
            no_stages()
        }
    }

    /// With one more eviction.
    pub open spec fn with_eviction(
        self,
        unit: Seq<char>,
        outcome: EvictionMetricOutcome,
    ) -> MetricsView {
        MetricsView {
            evictions: self.evictions.insert(unit, counted(self.evictions_of(unit), outcome)),
            ..self
        }
    }

    /// With one more start.
    pub open spec fn with_restart(self, unit: Seq<char>) -> MetricsView {
        MetricsView {
            restarts: self.restarts.insert(unit, (self.restarts_of(unit) + 1) as u64),
            ..self
        }
    }

    /// With one more duration.
    pub open spec fn with_duration(
        self,
        unit: Seq<char>,
        stage: EvictionStage,
        nanos: u64,
    ) -> MetricsView {
        MetricsView {
            durations: self.durations.insert(unit, self.durations_of(unit).plus(stage, nanos)),
            ..self
        }
    }

    /// With one more pass.
    pub open spec fn with_pass(self, trigger: PassTrigger) -> MetricsView {
        let p = self.passes;
        MetricsView {
            passes: match trigger {
                PassTrigger::ProcEvent => ReconcilePassCounts {
                    proc_event: (p.proc_event + 1) as u64,
                    ..p
                },
                PassTrigger::Timer => ReconcilePassCounts { timer: (p.timer + 1) as u64, ..p },
                PassTrigger::Manual => ReconcilePassCounts { manual: (p.manual + 1) as u64, ..p },
                PassTrigger::Startup => ReconcilePassCounts { startup: (p.startup + 1) as u64, ..p },
            },
            ..self
        }
    }

    /// Each unit's histograms are in shape.
    pub open spec fn wf(self) -> bool {
        forall|n: Seq<char>| self.durations.dom().contains(n) ==> (#[trigger] self.durations[n]).wf()
    }

    /// None of the counters is at its limit.
    pub open spec fn has_room(self) -> bool {
        &&& forall|n: Seq<char>|
            self.evictions.dom().contains(n) ==> counts_have_room(#[trigger] self.evictions[n])
        &&& forall|n: Seq<char>|
            self.restarts.dom().contains(n) ==> (#[trigger] self.restarts[n]) < u64::MAX
        &&& self.passes.proc_event < u64::MAX
        &&& self.passes.timer < u64::MAX
        &&& self.passes.manual < u64::MAX
        &&& self.passes.startup < u64::MAX
        &&& forall|n: Seq<char>, s: EvictionStage|
            self.durations.dom().contains(n) && (#[trigger] self.durations[n].stage(s)) is Some
                ==> self.durations[n].stage(s)->0.count < u64::MAX
    }
}

proof fn lemma_same_durations(a: MetricsView, b: MetricsView)
    requires
        a.wf(),
        a.durations == b.durations,
    ensures
        b.wf(),
{
    assert forall|n: Seq<char>| b.durations.dom().contains(n) implies (
    #[trigger] b.durations[n]).wf() by {
        assert(a.durations[n].wf());
    }
}

impl Metrics {
    /// The maps are in order and the histograms in shape.
    pub open spec fn wf(&self) -> bool {
        &&& self.evictions.wf()
        &&& self.unit_restarts.wf()
        &&& self.eviction_durations.wf()
        &&& self@.wf()
    }

    /// Nothing counted yet.
    pub fn new() -> (m: Metrics)
        ensures
            m.wf(),
            m@ == MetricsView::zero(),
    {
        let m = Metrics {
            evictions: NameMap::new(),
            unit_restarts: NameMap::new(),
            reconcile_passes: ReconcilePassCounts { proc_event: 0, timer: 0, manual: 0, startup: 0 },
            eviction_durations: NameMap::new(),
        };
        proof {
            assert(m@.durations =~= Map::empty());
        }
        m
    }

    /// Count an eviction of `unit`.
    pub fn record_eviction(&mut self, unit: &str, outcome: EvictionMetricOutcome)
        requires
            old(self).wf(),
            counts_have_room(old(self)@.evictions_of(unit@)),
        ensures
            final(self).wf(),
            final(self)@ == old(self)@.with_eviction(unit@, outcome),
    {
        let ghost before = self@;
        let c = match self.evictions.get(unit) {
            Some(c) => c,
            None => EvictionCounts { yielded: 0, graceful: 0, sigkill: 0, error: 0 },
        };
        let n = match outcome {
            EvictionMetricOutcome::Yielded => EvictionCounts { yielded: c.yielded + 1, ..c },
            EvictionMetricOutcome::Graceful => EvictionCounts { graceful: c.graceful + 1, ..c },
            EvictionMetricOutcome::Sigkill => EvictionCounts { sigkill: c.sigkill + 1, ..c },
            EvictionMetricOutcome::Error => EvictionCounts { error: c.error + 1, ..c },
        };
        self.evictions.set(unit, n);
        proof {
            lemma_same_durations(before, self@);
        }
    }

    /// Count how long a stage of an eviction of `unit` took.
    pub fn record_eviction_duration(&mut self, unit: &str, stage: EvictionStage, nanos: u64)
        requires
            old(self).wf(),
            old(self)@.durations_of(unit@).stage(stage) is Some ==> old(self)@.durations_of(
                unit@,
            ).stage(stage)->0.count < u64::MAX,
        ensures
            final(self).wf(),
            final(self)@ == old(self)@.with_duration(unit@, stage, nanos),
    {
        let ghost before = self@;
        let found = self.eviction_durations.get(unit);
        let s = match found {
            Some(s) => s,
            None => StageHistograms { yields: None, stops: None, totals: None },
        };
        proof {
            assert(s@ == before.durations_of(unit@));
            assert(found is Some ==> before.durations[unit@].wf());
            assert(s@.stage(stage) is Some ==> histogram_wf(s@.stage(stage)->0));
        }
        let mut h = match s.stage(stage) {
            Some(h) => h,
            None => DurationHistogram::new(),
        };
        h.observe(nanos);
        let n = match stage {
            EvictionStage::Yield => StageHistograms { yields: Some(h), ..s },
            EvictionStage::Stop => StageHistograms { stops: Some(h), ..s },
            EvictionStage::Total => StageHistograms { totals: Some(h), ..s },
        };
        self.eviction_durations.set(unit, n);
        proof {
            let after = self@;
            assert(n@ == before.durations_of(unit@).plus(stage, nanos));
            assert(n@.wf()) by {
                assert forall|t: EvictionStage| (#[trigger] n@.stage(t)) is Some implies
                    histogram_wf(n@.stage(t)->0) by {
                    if t != stage {
                        assert(n@.stage(t) == s@.stage(t));
                        assert(found is Some ==> s@.wf());
                    }
                }
            }
            assert(after.durations =~= before.with_duration(unit@, stage, nanos).durations);
            assert forall|k: Seq<char>| after.durations.dom().contains(k) implies (
            #[trigger] after.durations[k]).wf() by {
                if k != unit@ {
                    assert(after.durations[k] == before.durations[k]);
                }
            }
        }
    }

    /// Count a start of `unit`.
    pub fn record_unit_restart(&mut self, unit: &str)
        requires
            old(self).wf(),
            old(self)@.restarts_of(unit@) < u64::MAX,
        ensures
            final(self).wf(),
            final(self)@ == old(self)@.with_restart(unit@),
    {
        let ghost before = self@;
        let n: u64 = match self.unit_restarts.get(unit) {
            Some(n) => n,
            None => 0,
        };
        self.unit_restarts.set(unit, n + 1);
        proof {
            lemma_same_durations(before, self@);
        }
    }

    /// Count a pass.
    pub fn record_reconcile_pass(&mut self, trigger: PassTrigger)
        requires
            old(self).wf(),
            old(self).reconcile_passes.proc_event < u64::MAX,
            old(self).reconcile_passes.timer < u64::MAX,
            old(self).reconcile_passes.manual < u64::MAX,
            old(self).reconcile_passes.startup < u64::MAX,
        ensures
            final(self).wf(),
            final(self)@ == old(self)@.with_pass(trigger),
    {
        let ghost before = self@;
        let p = self.reconcile_passes;
        self.reconcile_passes = match trigger {
            PassTrigger::ProcEvent => ReconcilePassCounts { proc_event: p.proc_event + 1, ..p },
            PassTrigger::Timer => ReconcilePassCounts { timer: p.timer + 1, ..p },
            PassTrigger::Manual => ReconcilePassCounts { manual: p.manual + 1, ..p },
            PassTrigger::Startup => ReconcilePassCounts { startup: p.startup + 1, ..p },
        };
        proof {
            lemma_same_durations(before, self@);
        }
    }

    /// Whether none of the counters is at its limit.
    pub fn has_room(&self) -> (r: bool)
        requires
            self.wf(),
        ensures
            r == self@.has_room(),
    {
        let p = self.reconcile_passes;
        if p.proc_event == u64::MAX || p.timer == u64::MAX || p.manual == u64::MAX || p.startup
            == u64::MAX {
            return false;
        }
        let mut i: usize = 0;
        while i < self.evictions.entries.len()
            invariant
                self.wf(),
                i <= self.evictions.entries.len(),
                forall|j: int|
                    0 <= j < i ==> counts_have_room((#[trigger] self.evictions.entries@[j]).1),
            decreases self.evictions.entries.len() - i,
        {
            let c = self.evictions.entries[i].1;
            if c.yielded == u64::MAX || c.graceful == u64::MAX || c.sigkill == u64::MAX || c.error
                == u64::MAX {
                proof {
                    let n = self.evictions.entries@[i as int].0@;
                    assert(self.evictions.at(i as int, n));
                    self.evictions.lemma_at(i as int, n);
                    assert(!counts_have_room(self@.evictions[n]));
                }
                return false;
            }
            i = i + 1;
        }
        let mut i: usize = 0;
        while i < self.unit_restarts.entries.len()
            invariant
                self.wf(),
                i <= self.unit_restarts.entries.len(),
                forall|j: int|
                    0 <= j < i ==> (#[trigger] self.unit_restarts.entries@[j]).1 < u64::MAX,
            decreases self.unit_restarts.entries.len() - i,
        {
            if self.unit_restarts.entries[i].1 == u64::MAX {
                proof {
                    let n = self.unit_restarts.entries@[i as int].0@;
                    assert(self.unit_restarts.at(i as int, n));
                    self.unit_restarts.lemma_at(i as int, n);
                    assert(!(self@.restarts[n] < u64::MAX));
                }
                return false;
            }
            i = i + 1;
        }
        let mut i: usize = 0;
        while i < self.eviction_durations.entries.len()
            invariant
                self.wf(),
                i <= self.eviction_durations.entries.len(),
                forall|j: int, s: EvictionStage|
                    0 <= j < i && (#[trigger] self.eviction_durations.entries@[j].1@.stage(s)) is Some
                        ==> self.eviction_durations.entries@[j].1@.stage(s)->0.count < u64::MAX,
            decreases self.eviction_durations.entries.len() - i,
        {
            let d = self.eviction_durations.entries[i].1;
            let y: bool = at_limit(&d.yields);
            let s: bool = at_limit(&d.stops);
            let t: bool = at_limit(&d.totals);
            if y || s || t {
                proof {
                    let n = self.eviction_durations.entries@[i as int].0@;
                    assert(self.eviction_durations.at(i as int, n));
                    self.eviction_durations.lemma_at(i as int, n);
                    let stage = if y {
                        EvictionStage::Yield
                    } else if s {
                        EvictionStage::Stop
                    } else {
                        EvictionStage::Total
                    };
                    assert(self@.durations[n].stage(stage) is Some);
                }
                return false;
            }
            i = i + 1;
        }
        proof {
            let m = self@;
            assert forall|n: Seq<char>| m.evictions.dom().contains(n) implies counts_have_room(
                #[trigger] m.evictions[n],
            ) by {
                let k = choose|k: int| self.evictions.at(k, n);
                assert(self.evictions.at(k, n));
                self.evictions.lemma_at(k, n);
            }
            assert forall|n: Seq<char>| m.restarts.dom().contains(n) implies (
            #[trigger] m.restarts[n]) < u64::MAX by {
                let k = choose|k: int| self.unit_restarts.at(k, n);
                assert(self.unit_restarts.at(k, n));
                self.unit_restarts.lemma_at(k, n);
            }
            assert forall|n: Seq<char>, s: EvictionStage|
                m.durations.dom().contains(n) && (#[trigger] m.durations[n].stage(s)) is Some implies
                m.durations[n].stage(s)->0.count < u64::MAX by {
                let k = choose|k: int| self.eviction_durations.at(k, n);
                assert(self.eviction_durations.at(k, n));
                self.eviction_durations.lemma_at(k, n);
                assert(self.eviction_durations.entries@[k].1@.stage(s) is Some);
            }
        }
        true
    }
}

fn at_limit(h: &Option<DurationHistogram>) -> (r: bool)
    ensures
        r == (opt_histogram(*h) is Some && opt_histogram(*h)->0.count == u64::MAX),
{
    match h {
        Some(x) => x.count == u64::MAX,
        None => false,
    }
}

impl Default for DurationHistogram {
    fn default() -> (h: DurationHistogram)
        ensures
            h@ == no_durations(),
            histogram_wf(h@),
    {
        DurationHistogram::new()
    }
}

impl Default for Metrics {
    fn default() -> (m: Metrics)
        ensures
            m.wf(),
            m@ == MetricsView::zero(),
    {
        Metrics::new()
    }
}

// ── laws ───────────────────────────────────────────────────────────────────

/// No counter of `b` is below the same counter of `a`.
pub open spec fn grown(a: MetricsView, b: MetricsView) -> bool {
    &&& forall|n: Seq<char>|
        {
            let x = a.evictions_of(n);
            let y = #[trigger] b.evictions_of(n);
            x.yielded <= y.yielded && x.graceful <= y.graceful && x.sigkill <= y.sigkill && x.error
                <= y.error
        }
    &&& forall|n: Seq<char>| a.restarts_of(n) <= #[trigger] b.restarts_of(n)
    &&& a.passes.proc_event <= b.passes.proc_event
    &&& a.passes.timer <= b.passes.timer
    &&& a.passes.manual <= b.passes.manual
    &&& a.passes.startup <= b.passes.startup
    &&& forall|n: Seq<char>, s: EvictionStage|
        a.durations_of(n).stage(s) is Some ==> {
            let y = #[trigger] b.durations_of(n).stage(s);
            y is Some && a.durations_of(n).stage(s)->0.count <= y->0.count
        }
}

/// Counting anything, with room left, makes no counter smaller.
pub proof fn counting_only_grows(
    m: MetricsView,
    unit: Seq<char>,
    outcome: EvictionMetricOutcome,
    stage: EvictionStage,
    nanos: u64,
    trigger: PassTrigger,
)
    requires
        m.has_room(),
    ensures
        grown(m, m.with_eviction(unit, outcome)),
        grown(m, m.with_restart(unit)),
        grown(m, m.with_duration(unit, stage, nanos)),
        grown(m, m.with_pass(trigger)),
{
    assert(counts_have_room(m.evictions_of(unit)));
    assert(m.restarts_of(unit) < u64::MAX);
    let d = m.with_duration(unit, stage, nanos);
    assert forall|n: Seq<char>, s: EvictionStage| m.durations_of(n).stage(s) is Some implies {
        let y = #[trigger] d.durations_of(n).stage(s);
        y is Some && m.durations_of(n).stage(s)->0.count <= y->0.count
    } by {
        if n == unit && s == stage {
            assert(m.durations[n].stage(s) is Some);
            assert(m.durations[n].stage(s)->0.count < u64::MAX);
        }
    }
}

/// A bucket holds every duration that the bucket before it holds, and none holds
/// more than there were.
pub proof fn buckets_are_cumulative(h: HistogramView, i: int, j: int)
    requires
        histogram_wf(h),
        0 <= i <= j < 9,
    ensures
        h.buckets[i] <= h.buckets[j] <= h.count,
{
}

/// A duration above every bound is counted, and in no bucket.
pub proof fn long_duration_is_in_no_bucket(h: HistogramView, nanos: u64)
    requires
        histogram_wf(h),
        h.count < u64::MAX,
        nanos > bucket_bound(8),
    ensures
        observed(h, nanos).count == h.count + 1,
        observed(h, nanos).buckets == h.buckets,
{
    assert(observed(h, nanos).buckets =~= h.buckets);
}

/// An eviction is counted once, for its unit and its outcome, and changes no other
/// counter of any unit.
pub proof fn eviction_is_counted_once(
    m: MetricsView,
    unit: Seq<char>,
    outcome: EvictionMetricOutcome,
    other: Seq<char>,
)
    requires
        m.has_room(),
    ensures
        ({
            let n = m.with_eviction(unit, outcome);
            let (a, b) = (m.evictions_of(other), n.evictions_of(other));
            let one = |o: EvictionMetricOutcome|
                if other == unit && outcome == o {
                    1int
                } else {
                    0int
                };
            &&& b.yielded == a.yielded + one(EvictionMetricOutcome::Yielded)
            &&& b.graceful == a.graceful + one(EvictionMetricOutcome::Graceful)
            &&& b.sigkill == a.sigkill + one(EvictionMetricOutcome::Sigkill)
            &&& b.error == a.error + one(EvictionMetricOutcome::Error)
            &&& n.restarts == m.restarts
            &&& n.passes == m.passes
            &&& n.durations == m.durations
        }),
{
    assert(counts_have_room(m.evictions_of(unit)));
}

/// A start is counted once, for its unit, and changes no other counter.
pub proof fn start_is_counted_once(m: MetricsView, unit: Seq<char>, other: Seq<char>)
    requires
        m.has_room(),
    ensures
        ({
            let n = m.with_restart(unit);
            &&& n.restarts_of(other) == m.restarts_of(other) + (if other == unit {
                1int
            } else {
                0int
            })
            &&& n.evictions == m.evictions
            &&& n.passes == m.passes
            &&& n.durations == m.durations
        }),
{
    assert(m.restarts_of(unit) < u64::MAX);
}

/// A pass is counted once, under what set it off, and changes no other counter.
pub proof fn pass_is_counted_once(m: MetricsView, trigger: PassTrigger)
    requires
        m.has_room(),
    ensures
        ({
            let n = m.with_pass(trigger);
            let one = |t: PassTrigger|
                if trigger == t {
                    1int
                } else {
                    0int
                };
            &&& n.passes.proc_event == m.passes.proc_event + one(PassTrigger::ProcEvent)
            &&& n.passes.timer == m.passes.timer + one(PassTrigger::Timer)
            &&& n.passes.manual == m.passes.manual + one(PassTrigger::Manual)
            &&& n.passes.startup == m.passes.startup + one(PassTrigger::Startup)
            &&& n.evictions == m.evictions
            &&& n.restarts == m.restarts
            &&& n.durations == m.durations
        }),
{
}

/// How many durations a histogram has seen, and their sum; none where it is absent.
pub open spec fn seen_in(h: Option<HistogramView>) -> (int, int) {
    match h {
        Some(x) => (x.count as int, x.sum_nanos as int),
        None => (0, 0),
    }
}

/// A duration is counted once, for its unit and its stage: in the count, in the sum,
/// and in each bucket whose bound it does not exceed. The other stages and units
/// stay as they are, and so does every other counter.
pub proof fn duration_is_counted_once(
    m: MetricsView,
    unit: Seq<char>,
    stage: EvictionStage,
    nanos: u64,
    other: Seq<char>,
    at: EvictionStage,
    i: int,
)
    requires
        m.wf(),
        m.has_room(),
        0 <= i < 9,
    ensures
        ({
            let n = m.with_duration(unit, stage, nanos);
            let (a, b) = (m.durations_of(other).stage(at), n.durations_of(other).stage(at));
            let old_bucket: int = if a is Some {
                a->0.buckets[i] as int
            } else {
                0
            };
            &&& other != unit || at != stage ==> a == b
            &&& other == unit && at == stage ==> {
                &&& b is Some
                &&& b->0.count == seen_in(a).0 + 1
                &&& b->0.sum_nanos == seen_in(a).1 + nanos
                &&& nanos <= bucket_bound(i) ==> b->0.buckets[i] == old_bucket + 1
                &&& nanos > bucket_bound(i) ==> b->0.buckets[i] == old_bucket
            }
            &&& n.evictions == m.evictions
            &&& n.restarts == m.restarts
            &&& n.passes == m.passes
        }),
{
    let a = m.durations_of(other).stage(at);
    if other == unit && at == stage && a is Some {
        assert(m.durations[unit].wf());
        assert(histogram_wf(m.durations[unit].stage(at)->0));
        let h = a->0;
        assert(h.count < u64::MAX);
        assert(h.buckets[i] <= h.count);
        assert(h.sum_nanos + nanos <= u128::MAX) by (nonlinear_arith)
            requires
                h.sum_nanos <= h.count * u64::MAX,
                h.count < u64::MAX,
                nanos <= u64::MAX,
        ;
    }
}

/// Each bound is above the one before it.
pub proof fn bounds_rise(i: int, j: int)
    requires
        0 <= i < j < 9,
    ensures
        bucket_bound(i) < bucket_bound(j),
{
}

} // verus!
