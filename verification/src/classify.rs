//! Which processes are games.

use vstd::prelude::*;

use crate::config::{Config, ConfigView, GamePattern, PatternView};
use crate::numerals::{
    all_digits, digits_from, is_digit, leading_digits, leading_digits_are_all,
};
use crate::scan::{after_last, lower_text, same_folded, tail_after, tail_holds_no_separator};
use crate::state::{Claim, ClaimView};
use crate::text::{
    chars_of, contains, ends_are_parts, ends_with, find, first_at, has_suffix, occurs, occurs_at,
    opt_text, string_of, texts,
};

verus! {

/// What the command line of every game that Steam launches carries.
pub const STEAM_MARKER: &'static str = "SteamLaunch AppId=";

/// What follows the first `p` in `s`.
pub open spec fn rest_after(s: Seq<char>, p: Seq<char>) -> Option<Seq<char>> {
    if exists|i: int| first_at(s, p, i) {
        let i = choose|i: int| first_at(s, p, i);
        Some(s.skip(i + p.len()))
    } else {
        None
    }
}

/// The digits that follow the first marker, where there are any.
pub open spec fn appid_of(cmdline: Seq<char>) -> Option<Seq<char>> {
    match rest_after(cmdline, STEAM_MARKER@) {
        Some(rest) => if leading_digits(rest).len() > 0 {
            Some(leading_digits(rest))
        } else {
            None
        },
        None => None,
    }
}

/// The Steam application that a command line launches.
pub fn steam_appid(cmdline: &str) -> (r: Option<String>)
    ensures
        opt_text(r) == appid_of(cmdline@),
{
    match find(cmdline, STEAM_MARKER) {
        None => {
            proof {
                if exists|i: int| first_at(cmdline@, STEAM_MARKER@, i) {
                    let i = choose|i: int| first_at(cmdline@, STEAM_MARKER@, i);
                    assert(occurs_at(cmdline@, STEAM_MARKER@, i));
                }
            }
            None
        },
        Some(i) => {
            let cs = chars_of(cmdline);
            let n: usize = chars_of(STEAM_MARKER).len();
            proof {
                let j = choose|j: int| first_at(cmdline@, STEAM_MARKER@, j);
                assert(occurs_at(cmdline@, STEAM_MARKER@, i as int));
                assert(i + n <= cs.len());
                assert(first_at(cmdline@, STEAM_MARKER@, i as int));
                assert(j == i) by {
                    assert(first_at(cmdline@, STEAM_MARKER@, j));
                    if j < i {
                        assert(!occurs_at(cmdline@, STEAM_MARKER@, j));
                    } else if i < j {
                        assert(!occurs_at(cmdline@, STEAM_MARKER@, i as int));
                    }
                }
            }
            let id = digits_from(&cs, i + n);
            if id.as_str().is_empty() {
                None
            } else {
                Some(id)
            }
        },
    }
}

/// A rule applies to a command line: it holds the rule's text and none of the
/// texts that the rule excludes.
pub open spec fn pattern_applies(cmdline: Seq<char>, p: PatternView) -> bool {
    &&& occurs(cmdline, p.match_substr)
    &&& forall|k: int| 0 <= k < p.exclude.len() ==> !occurs(cmdline, #[trigger] p.exclude[k])
}

fn applies(cmdline: &str, p: &GamePattern) -> (r: bool)
    ensures
        r == pattern_applies(cmdline@, p@),
{
    if !contains(cmdline, p.match_substr.as_str()) {
        return false;
    }
    let mut k: usize = 0;
    while k < p.exclude.len()
        invariant
            k <= p.exclude.len(),
            forall|j: int| 0 <= j < k ==> !occurs(cmdline@, #[trigger] p@.exclude[j]),
        decreases p.exclude.len() - k,
    {
        proof {
            assert(p@.exclude[k as int] == p.exclude@[k as int]@);
        }
        if contains(cmdline, p.exclude[k].as_str()) {
            return false;
        }
        k = k + 1;
    }
    true
}

/// `i` is the first rule that applies.
pub open spec fn first_pattern(cmdline: Seq<char>, ps: Seq<PatternView>, i: int) -> bool {
    &&& 0 <= i < ps.len()
    &&& pattern_applies(cmdline, ps[i])
    &&& forall|j: int| 0 <= j < i ==> !pattern_applies(cmdline, #[trigger] ps[j])
}

/// No rule applies.
pub open spec fn no_pattern(cmdline: Seq<char>, ps: Seq<PatternView>) -> bool {
    forall|j: int| 0 <= j < ps.len() ==> !pattern_applies(cmdline, #[trigger] ps[j])
}

/// The first rule that applies to a command line.
pub fn match_pattern<'a>(cmdline: &str, patterns: &'a [GamePattern]) -> (r: Option<&'a GamePattern>)
    ensures
        match r {
            Some(p) => exists|i: int|
                first_pattern(cmdline@, crate::config::pattern_views(patterns@), i)
                    && #[trigger] patterns@[i] == *p,
            None => no_pattern(cmdline@, crate::config::pattern_views(patterns@)),
        },
{
    let ghost ps = crate::config::pattern_views(patterns@);
    let mut i: usize = 0;
    while i < patterns.len()
        invariant
            i <= patterns.len(),
            ps == crate::config::pattern_views(patterns@),
            forall|j: int| 0 <= j < i ==> !pattern_applies(cmdline@, #[trigger] ps[j]),
        decreases patterns.len() - i,
    {
        proof {
            assert(ps[i as int] == patterns@[i as int]@);
        }
        if applies(cmdline, &patterns[i]) {
            proof {
                assert(first_pattern(cmdline@, ps, i as int));
            }
            return Some(&patterns[i]);
        }
        i = i + 1;
    }
    None
}

/// The name of the first rule that applies.
pub open spec fn pattern_name(cmdline: Seq<char>, ps: Seq<PatternView>) -> Option<Seq<char>>
    decreases ps.len(),
{
    if ps.len() == 0 {
        None
    } else if pattern_applies(cmdline, ps[0]) {
        Some(ps[0].name)
    } else {
        pattern_name(cmdline, ps.drop_first())
    }
}

pub proof fn lemma_pattern_name(cmdline: Seq<char>, ps: Seq<PatternView>)
    ensures
        forall|i: int| first_pattern(cmdline, ps, i) ==> pattern_name(cmdline, ps) == Some(ps[i].name),
        no_pattern(cmdline, ps) ==> pattern_name(cmdline, ps) is None,
    decreases ps.len(),
{
    if ps.len() > 0 {
        let t = ps.drop_first();
        lemma_pattern_name(cmdline, t);
        assert forall|i: int| first_pattern(cmdline, ps, i) implies pattern_name(cmdline, ps) == Some(
            ps[i].name,
        ) by {
            if i > 0 {
                assert(!pattern_applies(cmdline, ps[0]));
                assert(first_pattern(cmdline, t, i - 1)) by {
                    assert forall|j: int| 0 <= j < i - 1 implies !pattern_applies(
                        cmdline,
                        #[trigger] t[j],
                    ) by {
                        assert(t[j] == ps[j + 1]);
                    }
                }
            }
        }
        if no_pattern(cmdline, ps) {
            assert(!pattern_applies(cmdline, ps[0]));
            assert(no_pattern(cmdline, t)) by {
                assert forall|j: int| 0 <= j < t.len() implies !pattern_applies(
                    cmdline,
                    #[trigger] t[j],
                ) by {
                    assert(t[j] == ps[j + 1]);
                }
            }
        }
    }
}

/// The claim of a process by its command line: Steam's marker first, where it
/// counts, then the rules.
pub open spec fn claim_of(cmdline: Seq<char>, cfg: ConfigView) -> Option<ClaimView> {
    if cfg.detect_steam && appid_of(cmdline) is Some {
        Some(ClaimView::Steam(appid_of(cmdline)->0))
    } else {
        match pattern_name(cmdline, cfg.game_patterns) {
            Some(n) => Some(ClaimView::Pattern(n)),
            None => None,
        }
    }
}

/// The value of an optional claim.
pub open spec fn opt_claim(c: Option<Claim>) -> Option<ClaimView> {
    match c {
        Some(x) => Some(x@),
        None => None,
    }
}

/// The claim of a process by its command line.
pub fn classify(cmdline: &str, cfg: &Config) -> (r: Option<Claim>)
    ensures
        opt_claim(r) == claim_of(cmdline@, cfg@),
{
    if cfg.detect_steam {
        if let Some(id) = steam_appid(cmdline) {
            return Some(Claim::Steam(id));
        }
    }
    proof {
        lemma_pattern_name(cmdline@, cfg@.game_patterns);
    }
    match match_pattern(cmdline, cfg.game_patterns.as_slice()) {
        Some(p) => {
            let name = p.name.clone();
            proof {
                let i = choose|i: int|
                    first_pattern(
                        cmdline@,
                        crate::config::pattern_views(cfg.game_patterns@),
                        i,
                    ) && #[trigger] cfg.game_patterns@[i] == *p;
                assert(cfg@.game_patterns[i] == cfg.game_patterns@[i]@);
            }
            Some(Claim::Pattern(name))
        },
        None => None,
    }
}

/// A process that holds VRAM.
#[derive(Debug, Clone, PartialEq, Eq)]
pub struct GpuGraphicsProc {
    /// The process.
    pub pid: i32,
    /// Its name: the path of its binary, as the vendor's tool gives it.
    pub name: String,
    /// How much VRAM it holds.
    pub vram_mb: u64,
    /// The unit whose control group it runs in.
    pub owning_unit: Option<String>,
}

/// A process of the list of compute processes: the same as one of the graphics
/// list.
pub type GpuComputeProc = GpuGraphicsProc;

/// The value of a [`GpuGraphicsProc`].
pub struct GpuProcView {
    pub pid: i32,
    pub name: Seq<char>,
    pub vram_mb: u64,
    pub owning_unit: Option<Seq<char>>,
}

impl View for GpuGraphicsProc {
    type V = GpuProcView;

    open spec fn view(&self) -> GpuProcView {
        GpuProcView {
            pid: self.pid,
            name: self.name@,
            vram_mb: self.vram_mb,
            owning_unit: opt_text(self.owning_unit),
        }
    }
}

/// The values of a list of processes.
pub open spec fn proc_views(v: Seq<GpuGraphicsProc>) -> Seq<GpuProcView> {
    Seq::new(v.len(), |i: int| v[i]@)
}

/// The last segment of a path, whichever way its separators lean.
fn basename(path: &str) -> (r: String)
    ensures
        r@ == tail_after(path@, '/', '\\'),
{
    after_last(path, '/', '\\')
}

/// A unit's name without `.service` or, failing that, without `.scope`.
pub open spec fn unit_stem(unit: Seq<char>) -> Seq<char> {
    if ends_with(unit, ".service"@) {
        unit.take(unit.len() - ".service"@.len())
    } else if ends_with(unit, ".scope"@) {
        unit.take(unit.len() - ".scope"@.len())
    } else {
        unit
    }
}

/// A unit's name without its type.
fn strip_unit_suffix(unit: &str) -> (r: String)
    ensures
        r@ == unit_stem(unit@),
{
    let cs = chars_of(unit);
    if has_suffix(unit, ".service") {
        let n: usize = chars_of(".service").len();
        let r = string_of(&cs, 0, cs.len() - n);
        proof {
            assert(r@ =~= unit@.take(unit@.len() - ".service"@.len()));
        }
        r
    } else if has_suffix(unit, ".scope") {
        let n: usize = chars_of(".scope").len();
        let r = string_of(&cs, 0, cs.len() - n);
        proof {
            assert(r@ =~= unit@.take(unit@.len() - ".scope"@.len()));
        }
        r
    } else {
        unit.to_owned()
    }
}

/// An entry of the allowlist names a process: by its name, by the last segment of
/// its name, or by the unit that owns it, with or without the unit's type; ASCII
/// case does not count.
pub open spec fn entry_names(p: GpuProcView, entry: Seq<char>) -> bool {
    let e = lower_text(entry);
    ||| lower_text(p.name) == e
    ||| lower_text(tail_after(p.name, '/', '\\')) == e
    ||| (p.owning_unit is Some && (lower_text(p.owning_unit->0) == e || lower_text(
        unit_stem(p.owning_unit->0),
    ) == e))
}

/// Some entry of the allowlist names the process.
pub open spec fn allowlisted(p: GpuProcView, allowlist: Seq<Seq<char>>) -> bool {
    exists|i: int| 0 <= i < allowlist.len() && entry_names(p, #[trigger] allowlist[i])
}

/// Whether some entry of the allowlist names the process.
pub fn matches_allowlist(proc: &GpuGraphicsProc, allowlist: &[String]) -> (r: bool)
    ensures
        r == allowlisted(proc@, texts(allowlist@)),
{
    let base = basename(proc.name.as_str());
    let mut i: usize = 0;
    while i < allowlist.len()
        invariant
            i <= allowlist.len(),
            base@ == tail_after(proc.name@, '/', '\\'),
            forall|j: int|
                0 <= j < i ==> !entry_names(proc@, #[trigger] texts(allowlist@)[j]),
        decreases allowlist.len() - i,
    {
        let entry = allowlist[i].as_str();
        proof {
            assert(texts(allowlist@)[i as int] == entry@);
        }
        let by_unit: bool = match &proc.owning_unit {
            Some(u) => same_folded(u.as_str(), entry) || same_folded(
                strip_unit_suffix(u.as_str()).as_str(),
                entry,
            ),
            None => false,
        };
        if same_folded(proc.name.as_str(), entry) || same_folded(base.as_str(), entry) || by_unit {
            proof {
                assert(entry_names(proc@, texts(allowlist@)[i as int]));
            }
            return true;
        }
        i = i + 1;
    }
    false
}

/// The claim of a graphics process by the VRAM it holds.
pub open spec fn vram_claim(p: GpuProcView, cfg: ConfigView) -> Option<ClaimView> {
    if cfg.vram_heuristic && p.vram_mb >= cfg.vram_game_threshold_mb && !allowlisted(
        p,
        cfg.gpu_allowlist,
    ) {
        Some(ClaimView::Gpu(p.pid))
    } else {
        None
    }
}

/// The claim of a graphics process by the VRAM it holds.
pub fn heuristic_claim(proc: &GpuGraphicsProc, cfg: &Config) -> (r: Option<Claim>)
    ensures
        opt_claim(r) == vram_claim(proc@, cfg@),
{
    if !cfg.vram_heuristic {
        return None;
    }
    if proc.vram_mb < cfg.vram_game_threshold_mb {
        return None;
    }
    if matches_allowlist(proc, cfg.gpu_allowlist.as_slice()) {
        return None;
    }
    Some(Claim::Gpu(proc.pid))
}

// ── laws ───────────────────────────────────────────────────────────────────

/// What one rule excludes does not keep a later rule from applying.
pub proof fn exclusion_is_the_rules_own(
    cmdline: Seq<char>,
    first: PatternView,
    rest: Seq<PatternView>,
)
    requires
        !pattern_applies(cmdline, first),
    ensures
        pattern_name(cmdline, seq![first] + rest) == pattern_name(cmdline, rest),
{
    assert((seq![first] + rest).drop_first() =~= rest);
}

/// With the heuristic off, no amount of VRAM makes a game.
pub proof fn heuristic_off_claims_nothing(p: GpuProcView, cfg: ConfigView)
    requires
        !cfg.vram_heuristic,
    ensures
        vram_claim(p, cfg) is None,
{
}

/// An empty allowlist names nothing.
pub proof fn empty_allowlist_names_nothing(p: GpuProcView)
    ensures
        !allowlisted(p, Seq::empty()),
{
}

/// A rule never makes a game of a command line in which any of the texts that it
/// excludes occurs, nor of one in which its own text does not.
pub proof fn every_excluded_text_counts(cmdline: Seq<char>, p: PatternView, k: int)
    ensures
        0 <= k < p.exclude.len() && occurs(cmdline, p.exclude[k]) ==> !pattern_applies(cmdline, p),
        !occurs(cmdline, p.match_substr) ==> !pattern_applies(cmdline, p),
{
}

/// A game by a rule has such a rule: one of that name whose text occurs in the command
/// line, while none of the texts that it excludes does. And where there is such a
/// rule, there is a game.
pub proof fn game_by_rule_has_a_rule(cmdline: Seq<char>, cfg: ConfigView, n: Seq<char>, j: int)
    ensures
        claim_of(cmdline, cfg) == Some(ClaimView::Pattern(n)) ==> exists|i: int|
            0 <= i < cfg.game_patterns.len() && (#[trigger] cfg.game_patterns[i]).name == n
                && occurs(cmdline, cfg.game_patterns[i].match_substr) && forall|k: int|
                0 <= k < cfg.game_patterns[i].exclude.len() ==> !occurs(
                    cmdline,
                    #[trigger] cfg.game_patterns[i].exclude[k],
                ),
        0 <= j < cfg.game_patterns.len() && occurs(cmdline, cfg.game_patterns[j].match_substr) && (
        forall|k: int|
            0 <= k < cfg.game_patterns[j].exclude.len() ==> !occurs(
                cmdline,
                #[trigger] cfg.game_patterns[j].exclude[k],
            )) ==> claim_of(cmdline, cfg) is Some,
{
    let ps = cfg.game_patterns;
    if claim_of(cmdline, cfg) == Some(ClaimView::Pattern(n)) {
        lemma_named_pattern(cmdline, ps);
        let i = choose|i: int|
            0 <= i < ps.len() && pattern_applies(cmdline, #[trigger] ps[i]) && ps[i].name == n;
        assert(ps[i].name == n);
    }
    if 0 <= j < ps.len() && pattern_applies(cmdline, ps[j]) {
        lemma_some_pattern(cmdline, ps, j);
    }
}

proof fn lemma_named_pattern(cmdline: Seq<char>, ps: Seq<PatternView>)
    requires
        pattern_name(cmdline, ps) is Some,
    ensures
        exists|i: int|
            0 <= i < ps.len() && pattern_applies(cmdline, #[trigger] ps[i]) && Some(ps[i].name)
                == pattern_name(cmdline, ps),
    decreases ps.len(),
{
    if !pattern_applies(cmdline, ps[0]) {
        let t = ps.drop_first();
        lemma_named_pattern(cmdline, t);
        let i = choose|i: int|
            0 <= i < t.len() && pattern_applies(cmdline, #[trigger] t[i]) && Some(t[i].name)
                == pattern_name(cmdline, t);
        assert(ps[i + 1] == t[i]);
    }
}

proof fn lemma_some_pattern(cmdline: Seq<char>, ps: Seq<PatternView>, j: int)
    requires
        0 <= j < ps.len(),
        pattern_applies(cmdline, ps[j]),
    ensures
        pattern_name(cmdline, ps) is Some,
    decreases ps.len(),
{
    if !pattern_applies(cmdline, ps[0]) {
        assert(ps.drop_first()[j - 1] == ps[j]);
        lemma_some_pattern(cmdline, ps.drop_first(), j - 1);
    }
}

/// Of the rules that make a game of a command line, the first gives it its name.
pub proof fn first_rule_gives_the_name(cmdline: Seq<char>, p: PatternView, rest: Seq<PatternView>)
    requires
        occurs(cmdline, p.match_substr),
        forall|k: int| 0 <= k < p.exclude.len() ==> !occurs(cmdline, #[trigger] p.exclude[k]),
    ensures
        pattern_name(cmdline, seq![p] + rest) == Some(p.name),
{
}

/// What Steam launches is a game by its number, all the digits after the first marker,
/// before any rule is asked; where Steam counts for nothing, it is not a game by that.
pub proof fn steam_marker_is_a_game(
    a: Seq<char>,
    id: Seq<char>,
    rest: Seq<char>,
    cfg: ConfigView,
)
    requires
        id.len() > 0,
        all_digits(id),
        rest.len() == 0 || !is_digit(rest[0]),
        forall|j: int|
            0 <= j < a.len() ==> !occurs_at(a + STEAM_MARKER@ + (id + rest), STEAM_MARKER@, j),
    ensures
        ({
            let cmdline = a + STEAM_MARKER@ + (id + rest);
            &&& cfg.detect_steam ==> claim_of(cmdline, cfg) == Some(ClaimView::Steam(id))
            &&& !cfg.detect_steam ==> !(claim_of(cmdline, cfg) is Some && claim_of(cmdline, cfg)->0
                is Steam)
        }),
{
    let m = STEAM_MARKER@;
    let s = a + m + (id + rest);
    let n = a.len() as int;
    assert(s.subrange(n, n + m.len()) =~= m);
    assert(occurs_at(s, m, n));
    assert(first_at(s, m, n));
    let i = choose|i: int| first_at(s, m, i);
    assert(i == n) by {
        if i < n {
            assert(!occurs_at(s, m, i));
        } else if n < i {
            assert(!occurs_at(s, m, n));
        }
    }
    assert(s.skip(n + m.len()) =~= id + rest);
    leading_digits_are_all(id, rest);
}

/// A game by Steam has a number, of digits only, and its command line holds the marker
/// with that number after it.
pub proof fn game_by_steam_has_a_number(cmdline: Seq<char>, cfg: ConfigView, id: Seq<char>)
    requires
        claim_of(cmdline, cfg) == Some(ClaimView::Steam(id)),
    ensures
        cfg.detect_steam,
        id.len() > 0,
        all_digits(id),
        occurs(cmdline, STEAM_MARKER@ + id),
{
    let m = STEAM_MARKER@;
    let i = choose|i: int| first_at(cmdline, m, i);
    let rest = cmdline.skip(i + m.len());
    lemma_leading(rest);
    assert(cmdline.subrange(i, i + (m + id).len()) =~= m + id) by {
        assert forall|k: int| 0 <= k < (m + id).len() implies cmdline[i + k] == (m + id)[k] by {
            if k < m.len() {
                assert(cmdline.subrange(i, i + m.len())[k] == cmdline[i + k]);
            } else {
                assert(rest[k - m.len()] == cmdline[i + k]);
                assert(rest.take(id.len() as int)[k - m.len()] == id[k - m.len()]);
            }
        }
    }
    assert(occurs_at(cmdline, m + id, i));
}

proof fn lemma_leading(s: Seq<char>)
    ensures
        leading_digits(s).len() <= s.len(),
        s.take(leading_digits(s).len() as int) == leading_digits(s),
        all_digits(leading_digits(s)),
    decreases s.len(),
{
    if s.len() > 0 && is_digit(s[0]) {
        let t = s.drop_first();
        lemma_leading(t);
        let d = leading_digits(t);
        let e = seq![s[0]] + d;
        assert(s.take(e.len() as int) =~= e) by {
            assert forall|k: int| 0 < k < e.len() implies s[k] == e[k] by {
                assert(t.take(d.len() as int)[k - 1] == d[k - 1]);
            }
        }
        assert forall|k: int| 0 <= k < e.len() implies is_digit(#[trigger] e[k]) by {
            if k > 0 {
                assert(e[k] == d[k - 1]);
            }
        }
    } else {
        assert(s.take(0) =~= leading_digits(s));
    }
}

/// A graphics process is a game where the heuristic is on, it holds the threshold or
/// more, and no entry of the allowlist names it; else it is none. More VRAM never makes
/// a game none.
pub proof fn heavy_unnamed_process_is_a_game(p: GpuProcView, more: GpuProcView, cfg: ConfigView)
    ensures
        vram_claim(p, cfg) is Some <==> cfg.vram_heuristic && p.vram_mb
            >= cfg.vram_game_threshold_mb && forall|i: int|
            0 <= i < cfg.gpu_allowlist.len() ==> !entry_names(p, #[trigger] cfg.gpu_allowlist[i]),
        vram_claim(p, cfg) is Some ==> vram_claim(p, cfg) == Some(ClaimView::Gpu(p.pid)),
        more.vram_mb >= p.vram_mb && more == (GpuProcView { vram_mb: more.vram_mb, ..p })
            && vram_claim(p, cfg) is Some ==> vram_claim(more, cfg) is Some,
{
    if more.vram_mb >= p.vram_mb && more == (GpuProcView { vram_mb: more.vram_mb, ..p })
        && vram_claim(p, cfg) is Some {
        if allowlisted(more, cfg.gpu_allowlist) {
            let i = choose|i: int|
                0 <= i < cfg.gpu_allowlist.len() && entry_names(
                    more,
                    #[trigger] cfg.gpu_allowlist[i],
                );
            assert(entry_names(p, cfg.gpu_allowlist[i]));
        }
    }
}

/// An entry of the allowlist names a process whatever the case of either: by its name,
/// by the last part of a path, by its unit, and by its unit without the unit's type.
pub proof fn entry_names_in_any_case(
    p: GpuProcView,
    a: Seq<char>,
    b: Seq<char>,
    dir: Seq<char>,
    base: Seq<char>,
    stem: Seq<char>,
)
    ensures
        lower_text(a) == lower_text(b) ==> entry_names(p, a) == entry_names(p, b),
        entry_names(p, p.name),
        (p.name == dir.push('/') + base || p.name == dir.push('\\') + base) && !base.contains('/')
            && !base.contains('\\') ==> entry_names(p, base),
        p.owning_unit is Some ==> entry_names(p, p.owning_unit->0),
        p.owning_unit == Some(stem + ".service"@) ==> entry_names(p, stem),
        p.owning_unit == Some(stem + ".scope"@) ==> entry_names(p, stem),
{
    if !base.contains('/') && !base.contains('\\') {
        tail_holds_no_separator(dir, base, '/', '\\', '/');
        tail_holds_no_separator(dir, base, '/', '\\', '\\');
    }
    reveal_strlit(".service");
    reveal_strlit(".scope");
    ends_are_parts(".service"@, stem, stem);
    ends_are_parts(".scope"@, stem, stem);
    assert((stem + ".service"@).take(stem.len() as int) =~= stem);
    assert((stem + ".scope"@).take(stem.len() as int) =~= stem);
    let sc = stem + ".scope"@;
    if ends_with(sc, ".service"@) {
        assert(sc.subrange(sc.len() - 8, sc.len() as int)[7] == sc[sc.len() - 1]);
        assert(sc.subrange(sc.len() - 8, sc.len() as int)[6] == sc[sc.len() - 2]);
        assert(sc[sc.len() - 2] == 'p');
    }
}

/// An entry names a process by one of these and by nothing less: a part of a name is
/// not enough.
pub proof fn part_of_a_name_is_not_enough(p: GpuProcView, e: Seq<char>)
    requires
        entry_names(p, e),
    ensures
        ({
            let l = lower_text(e);
            ||| lower_text(p.name) == l
            ||| lower_text(tail_after(p.name, '/', '\\')) == l
            ||| p.owning_unit is Some && lower_text(p.owning_unit->0) == l
            ||| p.owning_unit is Some && lower_text(p.owning_unit->0) == l + ".service"@
            ||| p.owning_unit is Some && lower_text(p.owning_unit->0) == l + ".scope"@
        }),
{
    reveal_strlit(".service");
    reveal_strlit(".scope");
    if p.owning_unit is Some {
        let u = p.owning_unit->0;
        ends_are_parts(".service"@, u, u);
        ends_are_parts(".scope"@, u, u);
        let st = unit_stem(u);
        if lower_text(st) == lower_text(e) {
            if ends_with(u, ".service"@) {
                assert(u == st + ".service"@);
                assert(lower_text(u) =~= lower_text(st) + ".service"@);
            } else if ends_with(u, ".scope"@) {
                assert(u == st + ".scope"@);
                assert(lower_text(u) =~= lower_text(st) + ".scope"@);
            }
        }
    }
}

} // verus!
