//! What a pass observes, and the claims that follow from it.

use vstd::prelude::*;

use crate::classify::{
    claim_of, classify, heuristic_claim, proc_views, vram_claim, GpuGraphicsProc,
    GpuProcView,
};
use crate::config::{Config, ConfigView};
use crate::numerals::{read_i32, signed_decimal, signed_decimal_reads_back, signed_value};
use crate::scan::{
    is_space, join, joined, pieces, split, three_pieces, trim, trimmed, trimming_undoes_padding,
};
use crate::state::{
    claim_order_carries_over, claim_views, claims_are_ordered, Claim, ClaimView,
};
use crate::text::{bytes_text, lossy, opt_str, opt_text, texts, Order};

verus! {

/// A process: its pid and its command line.
#[derive(Debug, Clone, PartialEq, Eq)]
pub struct ProcInfo {
    /// The process.
    pub pid: i32,
    /// Its arguments, with spaces between them.
    pub cmdline: String,
}

/// What was observed at one moment.
#[derive(Debug, Clone, PartialEq, Eq, Default)]
pub struct ProcSnapshot {
    /// The processes.
    pub procs: Vec<ProcInfo>,
    /// The graphics processes, where they are wanted.
    pub gpu_graphics: Vec<GpuGraphicsProc>,
}

/// The value of a [`ProcSnapshot`]: the command lines and the graphics
/// processes.
pub struct ObservationView {
    pub cmdlines: Seq<Seq<char>>,
    pub graphics: Seq<GpuProcView>,
}

impl View for ProcSnapshot {
    type V = ObservationView;

    open spec fn view(&self) -> ObservationView {
        ObservationView {
            cmdlines: Seq::new(self.procs@.len(), |i: int| self.procs@[i].cmdline@),
            graphics: proc_views(self.gpu_graphics@),
        }
    }
}

// ── command lines ──────────────────────────────────────────────────────────

/// The texts that are not empty.
pub open spec fn filled(parts: Seq<Seq<char>>) -> Seq<Seq<char>>
    decreases parts.len(),
{
    if parts.len() == 0 {
        Seq::empty()
    } else {
        let p = filled(parts.drop_last());
        if parts.last().len() > 0 {
            p.push(parts.last())
        } else {
            p
        }
    }
}

/// A command line from its arguments, each ended by a NUL: the arguments that are
/// not empty, with spaces between them, without white space at the two ends.
pub open spec fn flat(s: Seq<char>) -> Seq<char> {
    trimmed(joined(filled(pieces(s, '\0')), " "@))
}

/// A command line from its arguments.
pub fn flatten_text(s: &str) -> (r: String)
    ensures
        r@ == flat(s@),
{
    let parts = split(s, '\0');
    let ghost pv = texts(parts@);
    let mut v: Vec<String> = Vec::new();
    let mut i: usize = 0;
    proof {
        assert(pv.take(0) =~= Seq::empty());
        assert(texts(v@) =~= Seq::empty());
    }
    while i < parts.len()
        invariant
            i <= parts.len(),
            pv == texts(parts@),
            texts(v@) == filled(pv.take(i as int)),
        decreases parts.len() - i,
    {
        proof {
            assert(pv.take(i + 1).drop_last() =~= pv.take(i as int));
            assert(pv.take(i + 1).last() == parts@[i as int]@);
        }
        if !parts[i].as_str().is_empty() {
            let p = parts[i].clone();
            proof {
                crate::text::lemma_texts_push(v@, p);
            }
            v.push(p);
        }
        i = i + 1;
    }
    proof {
        assert(pv.take(parts.len() as int) =~= pv);
    }
    trim(join(v.as_slice(), " ").as_str())
}

/// A command line from the bytes of a process's `cmdline` file.
pub fn flatten_cmdline(raw: &[u8]) -> (r: String)
    ensures
        r@ == flat(bytes_text(raw@)),
{
    let s = lossy(raw);
    flatten_text(s.as_str())
}

/// The process that an entry of `/proc` stands for, by the text of its `cmdline`
/// file: an entry that is named by a number and has a command line.
pub open spec fn proc_of_entry(name: Seq<char>, text: Seq<char>) -> Option<(i32, Seq<char>)> {
    match signed_value(name, i32::MIN as int, i32::MAX as int) {
        Some(pid) => if flat(text).len() > 0 {
            Some((pid as i32, flat(text)))
        } else {
            None
        },
        None => None,
    }
}

/// The process that an entry of `/proc` stands for, by the bytes of its `cmdline`
/// file.
pub fn proc_entry(name: &str, raw: &[u8]) -> (r: Option<ProcInfo>)
    ensures
        match r {
            Some(p) => proc_of_entry(name@, bytes_text(raw@)) == Some((p.pid, p.cmdline@)),
            None => proc_of_entry(name@, bytes_text(raw@)) is None,
        },
{
    let pid: i32 = match read_i32(name) {
        Some(n) => n,
        None => return None,
    };
    let cmdline = flatten_cmdline(raw);
    if cmdline.as_str().is_empty() {
        return None;
    }
    Some(ProcInfo { pid, cmdline })
}

/// The command line of a process where its arguments are listed one by one.
pub open spec fn listed_line(joined_args: Seq<char>, exe: Option<Seq<char>>) -> Option<Seq<char>> {
    if trimmed(joined_args).len() > 0 {
        Some(joined_args)
    } else if exe is Some && trimmed(exe->0).len() > 0 {
        exe
    } else {
        None
    }
}

/// The command line of a process where its arguments are listed one by one: the
/// arguments or, where they are blank, the program; nothing where that is blank
/// too.
pub fn listed_cmdline(joined_args: &str, exe: Option<&str>) -> (r: Option<String>)
    ensures
        opt_text(r) == listed_line(joined_args@, opt_str(exe)),
{
    if !trim(joined_args).as_str().is_empty() {
        return Some(joined_args.to_owned());
    }
    match exe {
        Some(e) => if trim(e).as_str().is_empty() {
            None
        } else {
            Some(e.to_owned())
        },
        None => {
            proof {
                assert(crate::scan::trim_start(Seq::<char>::empty()) =~= Seq::empty());
            }
            None
        },
    }
}

// ── claims ─────────────────────────────────────────────────────────────────

/// Claims in order, none twice.
pub open spec fn in_order(s: Seq<ClaimView>) -> bool {
    forall|i: int, j: int| 0 <= i < j < s.len() ==> (#[trigger] s[i]).before(#[trigger] s[j])
}

/// Claims in order with one more in its place.
pub open spec fn inserted(s: Seq<ClaimView>, c: ClaimView) -> Seq<ClaimView>
    decreases s.len(),
{
    if s.len() == 0 {
        seq![c]
    } else if s.last() == c {
        s
    } else if s.last().before(c) {
        s.push(c)
    } else {
        inserted(s.drop_last(), c).push(s.last())
    }
}

/// With a claim where there is one.
pub open spec fn inserted_opt(s: Seq<ClaimView>, c: Option<ClaimView>) -> Seq<ClaimView> {
    match c {
        Some(x) => inserted(s, x),
        None => s,
    }
}

/// The claims of the command lines.
pub open spec fn cmdline_claims(cmdlines: Seq<Seq<char>>, cfg: ConfigView) -> Seq<ClaimView>
    decreases cmdlines.len(),
{
    if cmdlines.len() == 0 {
        Seq::empty()
    } else {
        inserted_opt(
            cmdline_claims(cmdlines.drop_last(), cfg),
            claim_of(cmdlines.last(), cfg),
        )
    }
}

/// These claims and those of the graphics processes.
pub open spec fn graphics_claims(
    base: Seq<ClaimView>,
    graphics: Seq<GpuProcView>,
    cfg: ConfigView,
) -> Seq<ClaimView>
    decreases graphics.len(),
{
    if graphics.len() == 0 {
        base
    } else {
        inserted_opt(
            graphics_claims(base, graphics.drop_last(), cfg),
            vram_claim(graphics.last(), cfg),
        )
    }
}

/// The claims that follow from an observation.
pub open spec fn claims_of(obs: ObservationView, cfg: ConfigView) -> Seq<ClaimView> {
    graphics_claims(cmdline_claims(obs.cmdlines, cfg), obs.graphics, cfg)
}

/// Put a claim in its place among claims in order.
fn insert_claim(v: &mut Vec<Claim>, c: Claim)
    ensures
        claim_views(final(v)@) == inserted(claim_views(old(v)@), c@),
{
    let ghost s = claim_views(v@);
    let mut k: usize = v.len();
    proof {
        assert(s.take(k as int) =~= s);
        assert(inserted(s.take(k as int), c@) + s.skip(k as int) =~= inserted(s, c@));
    }
    while k > 0
        invariant
            k <= v.len(),
            s == claim_views(v@),
            s == claim_views(old(v)@),
            inserted(s, c@) == inserted(s.take(k as int), c@) + s.skip(k as int),
        decreases k,
    {
        let ghost t = s.take(k as int);
        proof {
            assert(t.last() == v@[k - 1]@);
            assert(t.drop_last() =~= s.take(k - 1));
        }
        match v[k - 1].place(&c) {
            Order::Same => {
                proof {
                    assert(t + s.skip(k as int) =~= s);
                }
                return;
            },
            Order::Before => {
                let ghost cv = c@;
                v.insert(k, c);
                proof {
                    assert(claim_views(v@) =~= t.push(cv) + s.skip(k as int));
                }
                return;
            },
            Order::After => {
                proof {
                    assert(inserted(t, c@) + s.skip(k as int) =~= inserted(s.take(k - 1), c@)
                        + s.skip(k - 1));
                }
            },
        }
        k = k - 1;
    }
    let ghost cv = c@;
    v.insert(0, c);
    proof {
        assert(s.take(0) =~= Seq::empty());
        assert(claim_views(v@) =~= seq![cv] + s.skip(0));
    }
}

/// The claims that follow from an observation: in order, none twice.
pub fn claim_set(snap: &ProcSnapshot, cfg: &Config) -> (r: Vec<Claim>)
    ensures
        claim_views(r@) == claims_of(snap@, cfg@),
{
    let mut claims: Vec<Claim> = Vec::new();
    let ghost lines = snap@.cmdlines;
    let ghost graphics = snap@.graphics;
    let mut i: usize = 0;
    proof {
        assert(lines.take(0) =~= Seq::empty());
        assert(claim_views(claims@) =~= Seq::empty());
    }
    while i < snap.procs.len()
        invariant
            i <= snap.procs.len(),
            lines == snap@.cmdlines,
            claim_views(claims@) == cmdline_claims(lines.take(i as int), cfg@),
        decreases snap.procs.len() - i,
    {
        proof {
            assert(lines.take(i + 1).drop_last() =~= lines.take(i as int));
            assert(lines.take(i + 1).last() == snap.procs@[i as int].cmdline@);
        }
        if let Some(c) = classify(snap.procs[i].cmdline.as_str(), cfg) {
            insert_claim(&mut claims, c);
        }
        i = i + 1;
    }
    let ghost base = claim_views(claims@);
    proof {
        assert(lines.take(lines.len() as int) =~= lines);
        assert(graphics.take(0) =~= Seq::empty());
    }
    let mut i: usize = 0;
    while i < snap.gpu_graphics.len()
        invariant
            i <= snap.gpu_graphics.len(),
            graphics == snap@.graphics,
            claim_views(claims@) == graphics_claims(base, graphics.take(i as int), cfg@),
        decreases snap.gpu_graphics.len() - i,
    {
        proof {
            assert(graphics.take(i + 1).drop_last() =~= graphics.take(i as int));
            assert(graphics.take(i + 1).last() == snap.gpu_graphics@[i as int]@);
        }
        if let Some(c) = heuristic_claim(&snap.gpu_graphics[i], cfg) {
            insert_claim(&mut claims, c);
        }
        i = i + 1;
    }
    proof {
        assert(graphics.take(graphics.len() as int) =~= graphics);
    }
    claims
}

// ── laws ───────────────────────────────────────────────────────────────────

/// Something that was observed makes this claim.
pub open spec fn observed_claim(obs: ObservationView, cfg: ConfigView, c: ClaimView) -> bool {
    ||| exists|i: int|
        0 <= i < obs.cmdlines.len() && claim_of(#[trigger] obs.cmdlines[i], cfg) == Some(c)
    ||| exists|i: int|
        0 <= i < obs.graphics.len() && vram_claim(#[trigger] obs.graphics[i], cfg) == Some(c)
}

proof fn lemma_inserted(s: Seq<ClaimView>, c: ClaimView)
    requires
        in_order(s),
    ensures
        in_order(inserted(s, c)),
        forall|x: ClaimView| #[trigger] inserted(s, c).contains(x) <==> s.contains(x) || x == c,
    decreases s.len(),
{
    let r = inserted(s, c);
    if s.len() == 0 {
        assert(r[0] == c);
        assert forall|x: ClaimView| #[trigger] r.contains(x) <==> s.contains(x) || x == c by {
            if x == c {
                assert(r.contains(r[0]));
            }
        }
    } else if s.last() == c {
        assert(s.contains(s[s.len() - 1]));
    } else if s.last().before(c) {
        assert forall|i: int, j: int| 0 <= i < j < r.len() implies (#[trigger] r[i]).before(
            #[trigger] r[j],
        ) by {
            if j == s.len() && i < s.len() - 1 {
                assert(s[i].before(s[s.len() - 1]));
                claim_order_carries_over(s[i], s.last(), c);
            }
        }
        assert forall|x: ClaimView| #[trigger] r.contains(x) <==> s.contains(x) || x == c by {
            if s.contains(x) {
                let i = choose|i: int| 0 <= i < s.len() && s[i] == x;
                assert(r[i] == x);
            }
            if x == c {
                assert(r[s.len() as int] == c);
            }
            if r.contains(x) {
                let i = choose|i: int| 0 <= i < r.len() && r[i] == x;
                if i < s.len() {
                    assert(s[i] == x);
                }
            }
        }
    } else {
        let t = s.drop_last();
        claims_are_ordered(s.last(), c);
        assert(in_order(t)) by {
            assert forall|i: int, j: int| 0 <= i < j < t.len() implies (#[trigger] t[i]).before(
                #[trigger] t[j],
            ) by {
                assert(s[i].before(s[j]));
            }
        }
        lemma_inserted(t, c);
        let q = inserted(t, c);
        assert forall|i: int| 0 <= i < q.len() implies (#[trigger] q[i]).before(s.last()) by {
            assert(q.contains(q[i]));
            if q[i] != c {
                let k = choose|k: int| 0 <= k < t.len() && t[k] == q[i];
                assert(s[k].before(s[s.len() - 1]));
            }
        }
        assert forall|i: int, j: int| 0 <= i < j < r.len() implies (#[trigger] r[i]).before(
            #[trigger] r[j],
        ) by {
            if j < q.len() {
                assert(q[i].before(q[j]));
            } else {
                assert(q[i].before(s.last()));
            }
        }
        assert forall|x: ClaimView| #[trigger] r.contains(x) <==> s.contains(x) || x == c by {
            if q.contains(x) {
                let i = choose|i: int| 0 <= i < q.len() && q[i] == x;
                assert(r[i] == x);
            }
            if s.contains(x) {
                let i = choose|i: int| 0 <= i < s.len() && s[i] == x;
                if i < t.len() {
                    assert(t[i] == x);
                    assert(q.contains(x));
                } else {
                    assert(r[q.len() as int] == x);
                }
            }
            if x == c {
                assert(q.contains(x));
            }
            if r.contains(x) {
                let i = choose|i: int| 0 <= i < r.len() && r[i] == x;
                if i < q.len() {
                    assert(q[i] == x);
                    assert(q.contains(x));
                    if x != c {
                        let k = choose|k: int| 0 <= k < t.len() && t[k] == x;
                        assert(s[k] == x);
                    }
                } else {
                    assert(s[s.len() - 1] == x);
                }
            }
        }
    }
}

proof fn lemma_cmdline_claims(cmdlines: Seq<Seq<char>>, cfg: ConfigView)
    ensures
        in_order(cmdline_claims(cmdlines, cfg)),
        forall|c: ClaimView| #[trigger]
            cmdline_claims(cmdlines, cfg).contains(c) <==> exists|i: int|
                0 <= i < cmdlines.len() && claim_of(#[trigger] cmdlines[i], cfg) == Some(c),
    decreases cmdlines.len(),
{
    if cmdlines.len() > 0 {
        let t = cmdlines.drop_last();
        lemma_cmdline_claims(t, cfg);
        let base = cmdline_claims(t, cfg);
        let last = claim_of(cmdlines.last(), cfg);
        if last is Some {
            lemma_inserted(base, last->0);
        }
        let r = cmdline_claims(cmdlines, cfg);
        assert forall|c: ClaimView| #[trigger] r.contains(c) <==> exists|i: int|
            0 <= i < cmdlines.len() && claim_of(#[trigger] cmdlines[i], cfg) == Some(c) by {
            assert(r.contains(c) <==> base.contains(c) || last == Some(c));
            if base.contains(c) {
                let i = choose|i: int| 0 <= i < t.len() && claim_of(#[trigger] t[i], cfg) == Some(c);
                assert(cmdlines[i] == t[i]);
            }
            if last == Some(c) {
                assert(claim_of(cmdlines[cmdlines.len() - 1], cfg) == Some(c));
            }
            if exists|i: int|
                0 <= i < cmdlines.len() && claim_of(#[trigger] cmdlines[i], cfg) == Some(c) {
                let i = choose|i: int|
                    0 <= i < cmdlines.len() && claim_of(#[trigger] cmdlines[i], cfg) == Some(c);
                if i < t.len() {
                    assert(t[i] == cmdlines[i]);
                }
            }
        }
    }
}

proof fn lemma_graphics_claims(base: Seq<ClaimView>, graphics: Seq<GpuProcView>, cfg: ConfigView)
    requires
        in_order(base),
    ensures
        in_order(graphics_claims(base, graphics, cfg)),
        forall|c: ClaimView| #[trigger]
            graphics_claims(base, graphics, cfg).contains(c) <==> base.contains(c) || exists|i: int|
                0 <= i < graphics.len() && vram_claim(#[trigger] graphics[i], cfg) == Some(c),
    decreases graphics.len(),
{
    if graphics.len() > 0 {
        let t = graphics.drop_last();
        lemma_graphics_claims(base, t, cfg);
        let part = graphics_claims(base, t, cfg);
        let last = vram_claim(graphics.last(), cfg);
        if last is Some {
            lemma_inserted(part, last->0);
        }
        let r = graphics_claims(base, graphics, cfg);
        assert forall|c: ClaimView| #[trigger] r.contains(c) <==> base.contains(c) || exists|i: int|
            0 <= i < graphics.len() && vram_claim(#[trigger] graphics[i], cfg) == Some(c) by {
            assert(r.contains(c) <==> part.contains(c) || last == Some(c));
            if part.contains(c) && !base.contains(c) {
                let i = choose|i: int|
                    0 <= i < t.len() && vram_claim(#[trigger] t[i], cfg) == Some(c);
                assert(graphics[i] == t[i]);
            }
            if last == Some(c) {
                assert(vram_claim(graphics[graphics.len() - 1], cfg) == Some(c));
            }
            if exists|i: int|
                0 <= i < graphics.len() && vram_claim(#[trigger] graphics[i], cfg) == Some(c) {
                let i = choose|i: int|
                    0 <= i < graphics.len() && vram_claim(#[trigger] graphics[i], cfg) == Some(c);
                if i < t.len() {
                    assert(t[i] == graphics[i]);
                }
            }
        }
    }
}

/// The claims of an observation are those that something observed makes, each
/// once, in order.
pub proof fn claims_are_what_is_observed(obs: ObservationView, cfg: ConfigView)
    ensures
        in_order(claims_of(obs, cfg)),
        forall|c: ClaimView| #[trigger]
            claims_of(obs, cfg).contains(c) <==> observed_claim(obs, cfg, c),
{
    lemma_cmdline_claims(obs.cmdlines, cfg);
    lemma_graphics_claims(cmdline_claims(obs.cmdlines, cfg), obs.graphics, cfg);
}

/// Two lists of claims in order that hold the same claims are the same list.
pub proof fn order_decides_the_list(a: Seq<ClaimView>, b: Seq<ClaimView>)
    requires
        in_order(a),
        in_order(b),
        forall|c: ClaimView| a.contains(c) <==> b.contains(c),
    ensures
        a == b,
    decreases a.len(),
{
    if a.len() == 0 {
        if b.len() > 0 {
            assert(b.contains(b[0]));
        }
        assert(a =~= b);
    } else {
        assert(a.contains(a[a.len() - 1]));
        let k = choose|k: int| 0 <= k < b.len() && b[k] == a.last();
        let l = b.len() - 1;
        assert(b.contains(b[l]));
        let m = choose|m: int| 0 <= m < a.len() && a[m] == b[l];
        assert(k == l) by {
            if k < l {
                assert(b[k].before(b[l]));
                claims_are_ordered(b[k], b[l]);
                if m < a.len() - 1 {
                    assert(a[m].before(a[a.len() - 1]));
                }
            }
        }
        let c = a.drop_last();
        let d = b.drop_last();
        assert forall|x: ClaimView| c.contains(x) <==> d.contains(x) by {
            if c.contains(x) {
                let i = choose|i: int| 0 <= i < c.len() && c[i] == x;
                assert(a[i] == x);
                assert(a.contains(x));
                assert(a[i].before(a[a.len() - 1]));
                claims_are_ordered(x, a.last());
                let j = choose|j: int| 0 <= j < b.len() && b[j] == x;
                assert(j != l);
                assert(d[j] == x);
            }
            if d.contains(x) {
                let i = choose|i: int| 0 <= i < d.len() && d[i] == x;
                assert(b[i] == x);
                assert(b.contains(x));
                assert(b[i].before(b[l]));
                claims_are_ordered(x, b[l]);
                let j = choose|j: int| 0 <= j < a.len() && a[j] == x;
                assert(j != a.len() - 1);
                assert(c[j] == x);
            }
        }
        assert(in_order(c)) by {
            assert forall|i: int, j: int| 0 <= i < j < c.len() implies (#[trigger] c[i]).before(
                #[trigger] c[j],
            ) by {
                assert(a[i].before(a[j]));
            }
        }
        assert(in_order(d)) by {
            assert forall|i: int, j: int| 0 <= i < j < d.len() implies (#[trigger] d[i]).before(
                #[trigger] d[j],
            ) by {
                assert(b[i].before(b[j]));
            }
        }
        order_decides_the_list(c, d);
        assert(a =~= c.push(a.last()));
        assert(b =~= d.push(b.last()));
    }
}

/// Two observations of the same processes, in whatever order and however often
/// each is listed, make the same claims.
pub proof fn claims_ignore_the_order_of_processes(
    a: ObservationView,
    b: ObservationView,
    cfg: ConfigView,
)
    requires
        forall|x: Seq<char>| a.cmdlines.contains(x) <==> b.cmdlines.contains(x),
        forall|x: GpuProcView| a.graphics.contains(x) <==> b.graphics.contains(x),
    ensures
        claims_of(a, cfg) == claims_of(b, cfg),
{
    claims_are_what_is_observed(a, cfg);
    claims_are_what_is_observed(b, cfg);
    assert forall|c: ClaimView| observed_claim(a, cfg, c) implies observed_claim(b, cfg, c) by {
        lemma_observed_elsewhere(a, b, cfg, c);
    }
    assert forall|c: ClaimView| observed_claim(b, cfg, c) implies observed_claim(a, cfg, c) by {
        lemma_observed_elsewhere(b, a, cfg, c);
    }
    assert forall|c: ClaimView| claims_of(a, cfg).contains(c) <==> claims_of(b, cfg).contains(c) by {
        assert(claims_of(a, cfg).contains(c) <==> observed_claim(a, cfg, c));
        assert(claims_of(b, cfg).contains(c) <==> observed_claim(b, cfg, c));
    }
    order_decides_the_list(claims_of(a, cfg), claims_of(b, cfg));
}

proof fn lemma_observed_elsewhere(
    a: ObservationView,
    b: ObservationView,
    cfg: ConfigView,
    c: ClaimView,
)
    requires
        forall|x: Seq<char>| a.cmdlines.contains(x) ==> b.cmdlines.contains(x),
        forall|x: GpuProcView| a.graphics.contains(x) ==> b.graphics.contains(x),
        observed_claim(a, cfg, c),
    ensures
        observed_claim(b, cfg, c),
{
    if exists|i: int|
        0 <= i < a.cmdlines.len() && claim_of(#[trigger] a.cmdlines[i], cfg) == Some(c) {
        let i = choose|i: int|
            0 <= i < a.cmdlines.len() && claim_of(#[trigger] a.cmdlines[i], cfg) == Some(c);
        assert(a.cmdlines.contains(a.cmdlines[i]));
        let j = choose|j: int| 0 <= j < b.cmdlines.len() && b.cmdlines[j] == a.cmdlines[i];
        assert(claim_of(b.cmdlines[j], cfg) == Some(c));
    } else {
        let i = choose|i: int|
            0 <= i < a.graphics.len() && vram_claim(#[trigger] a.graphics[i], cfg) == Some(c);
        assert(a.graphics.contains(a.graphics[i]));
        let j = choose|j: int| 0 <= j < b.graphics.len() && b.graphics[j] == a.graphics[i];
        assert(vram_claim(b.graphics[j], cfg) == Some(c));
    }
}

/// Arguments that are empty do not count; the others are kept, each and in order.
pub proof fn only_empty_arguments_are_dropped(parts: Seq<Seq<char>>, x: Seq<char>)
    ensures
        filled(Seq::empty()) == Seq::<Seq<char>>::empty(),
        filled(parts.push(x)) == (if x.len() > 0 {
            filled(parts).push(x)
        } else {
            filled(parts)
        }),
{
    assert(parts.push(x).drop_last() =~= parts);
}

/// A command line of two arguments, each ended by a NUL, is the two with a space
/// between them.
pub proof fn arguments_are_joined_by_spaces(a: Seq<char>, b: Seq<char>)
    requires
        a.len() > 0,
        b.len() > 0,
        !a.contains('\0'),
        !b.contains('\0'),
        !is_space(a[0]),
        !is_space(b.last()),
    ensures
        flat(a.push('\0') + b.push('\0')) == a.push(' ') + b,
        flat(a.push('\0')) == trimmed(a),
{
    let e = Seq::<char>::empty();
    three_pieces(a, b, e, '\0');
    three_pieces(a, e, e, '\0');
    assert(b.push('\0') + e =~= b.push('\0'));
    assert(a.push('\0') + e =~= a.push('\0'));
    let none = Seq::<Seq<char>>::empty();
    only_empty_arguments_are_dropped(none, a);
    only_empty_arguments_are_dropped(none.push(a), b);
    only_empty_arguments_are_dropped(none.push(a), e);
    only_empty_arguments_are_dropped(none.push(a).push(b), e);
    assert(none.push(a).push(b).push(e) =~= seq![a, b, e]);
    assert(none.push(a).push(e) =~= seq![a, e]);
    assert(filled(seq![a, b, e]) =~= seq![a, b]);
    assert(filled(seq![a, e]) =~= seq![a]);
    reveal_strlit(" ");
    let j = a.push(' ') + b;
    assert(seq![a, b].drop_last() =~= seq![a]);
    assert(joined(seq![a], " "@) == a);
    assert(joined(seq![a, b], " "@) =~= j);
    assert(j[0] == a[0]);
    assert(j.last() == b.last());
    assert(e + j + e =~= j);
    trimming_undoes_padding(e, j, e);
}

/// An entry of `/proc` is a process just where its name is a number and it has a
/// command line.
pub proof fn numbered_entry_is_a_process(pid: int, name: Seq<char>, text: Seq<char>)
    requires
        i32::MIN <= pid <= i32::MAX,
    ensures
        flat(text).len() > 0 ==> proc_of_entry(signed_decimal(pid), text) == Some(
            (pid as i32, flat(text)),
        ),
        flat(text).len() == 0 ==> proc_of_entry(name, text) is None,
        signed_value(name, i32::MIN as int, i32::MAX as int) is None ==> proc_of_entry(name, text)
            is None,
{
    signed_decimal_reads_back(pid, i32::MIN as int, i32::MAX as int);
}

/// One more process adds its claim, where it makes one, and takes none away.
pub proof fn one_more_process_adds_its_claim(
    obs: ObservationView,
    cmdline: Seq<char>,
    cfg: ConfigView,
    c: ClaimView,
)
    ensures
        ({
            let more = ObservationView { cmdlines: obs.cmdlines.push(cmdline), ..obs };
            claims_of(more, cfg).contains(c) <==> claims_of(obs, cfg).contains(c) || claim_of(
                cmdline,
                cfg,
            ) == Some(c)
        }),
{
    let more = ObservationView { cmdlines: obs.cmdlines.push(cmdline), ..obs };
    claims_are_what_is_observed(obs, cfg);
    claims_are_what_is_observed(more, cfg);
    assert(claims_of(obs, cfg).contains(c) <==> observed_claim(obs, cfg, c));
    assert(claims_of(more, cfg).contains(c) <==> observed_claim(more, cfg, c));
    let n = obs.cmdlines.len() as int;
    if claim_of(cmdline, cfg) == Some(c) {
        assert(claim_of(more.cmdlines[n], cfg) == Some(c));
    }
    if observed_claim(obs, cfg, c) {
        if exists|i: int|
            0 <= i < obs.cmdlines.len() && claim_of(#[trigger] obs.cmdlines[i], cfg) == Some(c) {
            let i = choose|i: int|
                0 <= i < obs.cmdlines.len() && claim_of(#[trigger] obs.cmdlines[i], cfg) == Some(c);
            assert(claim_of(more.cmdlines[i], cfg) == Some(c));
        }
    }
    if observed_claim(more, cfg, c) {
        if exists|i: int|
            0 <= i < more.cmdlines.len() && claim_of(#[trigger] more.cmdlines[i], cfg) == Some(c) {
            let i = choose|i: int|
                0 <= i < more.cmdlines.len() && claim_of(#[trigger] more.cmdlines[i], cfg) == Some(
                    c,
                );
            if i < n {
                assert(claim_of(obs.cmdlines[i], cfg) == Some(c));
            }
        }
    }
}

/// A process whose arguments can be read is known by them; one whose arguments are blank,
/// by its program; and one of which neither is known is passed over.
pub proof fn program_stands_in_for_arguments(args: Seq<char>, exe: Seq<char>)
    ensures
        !crate::scan::blank(args) && trimmed(args).len() > 0 ==> listed_line(args, Some(exe)) == Some(
            args,
        ),
        crate::scan::blank(args) && trimmed(exe).len() > 0 ==> listed_line(args, Some(exe)) == Some(
            exe,
        ),
        crate::scan::blank(args) ==> listed_line(args, None) is None,
        crate::scan::blank(args) && crate::scan::blank(exe) ==> listed_line(args, Some(exe)) is None,
{
    crate::scan::trimming_takes_the_ends(args);
    crate::scan::trimming_takes_the_ends(exe);
}

} // verus!
