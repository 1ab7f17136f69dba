//! Whether somebody is at the desk, by the input devices.

use vstd::prelude::*;

use crate::state::Presence;
use crate::text::{has_prefix, opt_str, same, starts_with, texts};

verus! {

/// What is known of local input. There is one of it, shared by whoever watches and
/// whoever asks: it cannot be copied.
#[derive(Debug, PartialEq, Eq, Structural)]
pub struct PresenceMonitor {
    /// When input was last seen, in seconds since the start of 1970.
    pub last_input: i64,
    /// Whether input is watched at all.
    pub healthy: bool,
    /// How many devices are watched.
    pub device_count: u32,
}

impl PresenceMonitor {
    /// What a daemon that starts at `start_unix` takes to be known: input has been
    /// seen just now, and nothing is watched yet.
    pub fn new(start_unix: i64) -> (m: PresenceMonitor)
        ensures
            m == (PresenceMonitor { last_input: start_unix, healthy: false, device_count: 0 }),
    {
        PresenceMonitor { last_input: start_unix, healthy: false, device_count: 0 }
    }

    /// With input seen at `now_unix`: the later of the two instants stays.
    pub open spec fn with_input(self, now_unix: i64) -> PresenceMonitor {
        PresenceMonitor {
            last_input: if now_unix > self.last_input {
                now_unix
            } else {
                self.last_input
            },
            ..self
        }
    }

    /// With input seen at each of these instants, one after the other.
    pub open spec fn with_inputs(self, at: Seq<i64>) -> PresenceMonitor
        decreases at.len(),
    {
        if at.len() == 0 {
            self
        } else {
            self.with_inputs(at.drop_last()).with_input(at.last())
        }
    }

    /// Input was seen at `now_unix`. What was seen later stays.
    pub fn record_input(&mut self, now_unix: i64)
        ensures
            *final(self) == old(self).with_input(now_unix),
    {
        if now_unix > self.last_input {
            self.last_input = now_unix;
        }
    }

    /// When input was last seen.
    pub fn last_input_unix(&self) -> (r: i64)
        ensures
            r == self.last_input,
    {
        self.last_input
    }

    /// How many devices are watched.
    pub fn device_count(&self) -> (r: u32)
        ensures
            r == self.device_count,
    {
        self.device_count
    }

    /// Whether input is watched at all.
    pub fn healthy(&self) -> (r: bool)
        ensures
            r == self.healthy,
    {
        self.healthy
    }

    /// Say whether input is watched at all.
    pub fn set_healthy(&mut self, up: bool)
        ensures
            *final(self) == (PresenceMonitor { healthy: up, ..*old(self) }),
    {
        self.healthy = up;
    }

    /// Say how many devices are watched.
    pub fn set_device_count(&mut self, n: u32)
        ensures
            *final(self) == (PresenceMonitor { device_count: n, ..*old(self) }),
    {
        self.device_count = n;
    }

    /// What `/status` shows of this.
    pub fn seen(&self) -> (r: Presence)
        ensures
            r == (Presence {
                last_input_unix: self.last_input,
                devices: self.device_count,
                monitor_up: self.healthy,
            }),
    {
        Presence {
            last_input_unix: self.last_input,
            devices: self.device_count,
            monitor_up: self.healthy,
        }
    }
}

/// A device that hardware stands behind: its node in sysfs is not among the
/// virtual ones.
pub open spec fn physical(syspath: Seq<char>) -> bool {
    !starts_with(syspath, "/sys/devices/virtual/"@)
}

/// Whether hardware stands behind a device, by its canonical node in sysfs.
pub fn is_physical_syspath(canonical_syspath: &str) -> (r: bool)
    ensures
        r == physical(canonical_syspath@),
{
    !has_prefix(canonical_syspath, "/sys/devices/virtual/")
}

/// What a device can do.
#[derive(Debug, Clone, Copy, Default, PartialEq, Eq, Structural)]
pub struct InputCaps {
    /// It has keys or buttons.
    pub has_keys: bool,
    /// It moves a pointer.
    pub has_rel: bool,
    /// It has axes.
    pub has_abs: bool,
}

/// A person uses such a device.
pub open spec fn human(caps: InputCaps) -> bool {
    caps.has_keys || caps.has_rel || caps.has_abs
}

/// Whether a person uses such a device.
pub fn is_human_input(caps: InputCaps) -> (r: bool)
    ensures
        r == human(caps),
{
    caps.has_keys || caps.has_rel || caps.has_abs
}

/// The name of a node of an input device.
pub open spec fn event_node(name: Seq<char>) -> bool {
    starts_with(name, "event"@)
}

/// The node of an input device: its name begins with `event`.
pub fn is_event_node(name: &str) -> (r: bool)
    ensures
        r == event_node(name@),
{
    has_prefix(name, "event")
}

/// A device is watched: hardware stands behind it, as far as its node in sysfs is
/// known, and a person uses it.
pub open spec fn watched(syspath: Option<Seq<char>>, caps: InputCaps) -> bool {
    syspath is Some && physical(syspath->0) && human(caps)
}

/// Whether a device is watched: hardware stands behind it, as far as its node in
/// sysfs is known, and a person uses it.
pub fn is_watched(canonical_syspath: Option<&str>, caps: InputCaps) -> (r: bool)
    ensures
        r == watched(opt_str(canonical_syspath), caps),
{
    match canonical_syspath {
        Some(p) => is_physical_syspath(p) && is_human_input(caps),
        None => false,
    }
}

/// The positions of the first `n` of `a` that are not in `b`.
pub open spec fn missing(a: Seq<Seq<char>>, b: Seq<Seq<char>>, n: int) -> Seq<usize>
    decreases n,
{
    if n <= 0 {
        Seq::empty()
    } else if b.contains(a[n - 1]) {
        missing(a, b, n - 1)
    } else {
        missing(a, b, n - 1).push((n - 1) as usize)
    }
}

/// The positions of those names in `a` that are not in `b`: of watched devices,
/// those that are gone; of present devices, those that are new.
pub fn not_among(a: &[String], b: &[String]) -> (r: Vec<usize>)
    ensures
        r@ == missing(texts(a@), texts(b@), a@.len() as int),
{
    let mut out: Vec<usize> = Vec::new();
    let mut i: usize = 0;
    proof {
        assert(out@ =~= Seq::empty());
    }
    while i < a.len()
        invariant
            i <= a.len(),
            out@ == missing(texts(a@), texts(b@), i as int),
        decreases a.len() - i,
    {
        let mut found: bool = false;
        let mut k: usize = 0;
        proof {
            assert(texts(a@)[i as int] == a@[i as int]@);
        }
        while k < b.len()
            invariant
                i < a.len(),
                k <= b.len(),
                found ==> texts(b@).contains(a@[i as int]@),
                !found ==> forall|j: int| 0 <= j < k ==> (#[trigger] texts(b@)[j]) != a@[i as int]@,
            decreases b.len() - k,
        {
            proof {
                assert(texts(b@)[k as int] == b@[k as int]@);
            }
            if same(b[k].as_str(), a[i].as_str()) {
                found = true;
            }
            k = k + 1;
        }
        if !found {
            out.push(i);
        }
        i = i + 1;
    }
    out
}

/// The difference of two numbers, held within the range of the type.
pub open spec fn clamped_diff(a: i64, b: i64) -> int {
    if a - b > i64::MAX {
        i64::MAX as int
    } else if a - b < i64::MIN {
        i64::MIN as int
    } else {
        a - b
    }
}

/// Somebody is at the desk: input is watched and was seen less than so long ago.
pub open spec fn locally_present(last: i64, now: i64, threshold: i64, healthy: bool) -> bool {
    healthy && clamped_diff(now, last) < threshold
}

/// Whether somebody is at the desk.
pub fn is_local_present(
    last_input_unix: i64,
    now_unix: i64,
    threshold_s: i64,
    healthy: bool,
) -> (r: bool)
    ensures
        r == locally_present(last_input_unix, now_unix, threshold_s, healthy),
{
    let d: i128 = now_unix as i128 - last_input_unix as i128;
    let c: i128 = if d > i64::MAX as i128 {
        i64::MAX as i128
    } else if d < i64::MIN as i128 {
        i64::MIN as i128
    } else {
        d
    };
    healthy && c < threshold_s as i128
}

// ── laws ───────────────────────────────────────────────────────────────────

/// In whatever order input was seen, the latest of all instants is kept, that of
/// the start among them, and nothing else changes.
pub proof fn latest_input_is_kept(m: PresenceMonitor, at: Seq<i64>)
    ensures
        m.with_inputs(at).last_input >= m.last_input,
        forall|i: int| 0 <= i < at.len() ==> m.with_inputs(at).last_input >= #[trigger] at[i],
        m.with_inputs(at).last_input == m.last_input || at.contains(m.with_inputs(at).last_input),
        m.with_inputs(at).healthy == m.healthy,
        m.with_inputs(at).device_count == m.device_count,
    decreases at.len(),
{
    if at.len() > 0 {
        let t = at.drop_last();
        latest_input_is_kept(m, t);
        assert forall|i: int| 0 <= i < at.len() implies m.with_inputs(at).last_input
            >= #[trigger] at[i] by {
            if i < t.len() {
                assert(t[i] == at[i]);
            }
        }
        let kept = m.with_inputs(at).last_input;
        if kept == at.last() {
            assert(at[at.len() - 1] == kept);
        } else if t.contains(kept) {
            let j = choose|j: int| 0 <= j < t.len() && t[j] == kept;
            assert(at[j] == kept);
        }
    }
}

/// While input is not watched, nobody is taken to be present.
pub proof fn unwatched_is_not_present(last: i64, now: i64, threshold: i64)
    ensures
        !locally_present(last, now, threshold, false),
{
}

/// A device is watched just where its node is known and not among the virtual ones, and
/// it has keys, moves a pointer or has axes: any one of these is enough.
pub proof fn hardware_that_people_use_is_watched(rest: Seq<char>, path: Seq<char>, caps: InputCaps)
    ensures
        !watched(Some("/sys/devices/virtual/"@ + rest), caps),
        !watched(None, caps),
        !(caps.has_keys || caps.has_rel || caps.has_abs) ==> !watched(Some(path), caps),
        !starts_with(path, "/sys/devices/virtual/"@) && (caps.has_keys || caps.has_rel
            || caps.has_abs) ==> watched(Some(path), caps),
        event_node("event"@ + rest),
        event_node(path) ==> starts_with(path, "event"@),
{
    crate::text::ends_are_parts("/sys/devices/virtual/"@, rest, rest);
    crate::text::ends_are_parts("event"@, rest, rest);
}

/// A position is among the missing just where its name is not in the other list.
pub proof fn missing_are_not_in_the_other(a: Seq<Seq<char>>, b: Seq<Seq<char>>, n: int, i: int)
    requires
        0 <= i < n <= a.len() <= usize::MAX,
    ensures
        missing(a, b, n).contains(i as usize) <==> !b.contains(a[i]),
    decreases n,
{
    let p = missing(a, b, n - 1);
    let q = missing(a, b, n);
    lemma_missing_below(a, b, n - 1);
    if i < n - 1 {
        missing_are_not_in_the_other(a, b, n - 1, i);
        if p.contains(i as usize) {
            let k = choose|k: int| 0 <= k < p.len() && p[k] == i as usize;
            assert(q[k] == i as usize);
        }
        if q.contains(i as usize) {
            let k = choose|k: int| 0 <= k < q.len() && q[k] == i as usize;
            if k < p.len() {
                assert(p[k] == i as usize);
            }
        }
    } else {
        if !b.contains(a[i]) {
            assert(q[q.len() - 1] == i as usize);
        } else if q.contains(i as usize) {
            let k = choose|k: int| 0 <= k < q.len() && q[k] == i as usize;
            assert(p[k] < n - 1);
        }
    }
}

proof fn lemma_missing_below(a: Seq<Seq<char>>, b: Seq<Seq<char>>, n: int)
    requires
        0 <= n <= a.len() <= usize::MAX,
    ensures
        forall|k: int| 0 <= k < missing(a, b, n).len() ==> (#[trigger] missing(a, b, n)[k]) < n,
    decreases n,
{
    if n > 0 {
        lemma_missing_below(a, b, n - 1);
        let p = missing(a, b, n - 1);
        let q = missing(a, b, n);
        assert forall|k: int| 0 <= k < q.len() implies (#[trigger] q[k]) < n by {
            if k < p.len() {
                assert(q[k] == p[k]);
                assert(p[k] < n - 1);
            }
        }
    }
}

/// Somebody is present while input is watched and was seen less than the threshold ago;
/// at the threshold nobody is any more.
pub proof fn recent_input_is_presence(last: i64, now: i64, threshold: i64)
    requires
        i64::MIN <= now - last <= i64::MAX,
    ensures
        locally_present(last, now, threshold, true) <==> now - last < threshold,
{
}

} // verus!
