//! Which unit a process belongs to, by its control group.

use vstd::prelude::*;

use crate::classify::{proc_views, GpuGraphicsProc, GpuProcView};
use crate::scan::{
    after_last, lines, lines_of, pieces, split, tail_after, tail_holds_no_separator, three_pieces,
};
use crate::text::{ends_with, has_suffix, opt_text, same, texts};

verus! {

/// A segment that names a unit: a service or a scope.
pub open spec fn names_unit(seg: Seq<char>) -> bool {
    ends_with(seg, ".service"@) || ends_with(seg, ".scope"@)
}

/// The last of the segments that names a unit.
pub open spec fn last_unit(segs: Seq<Seq<char>>) -> Option<Seq<char>>
    decreases segs.len(),
{
    if segs.len() == 0 {
        None
    } else if names_unit(segs.last()) {
        Some(segs.last())
    } else {
        last_unit(segs.drop_last())
    }
}

/// The last segment that names a unit, where the segments are rooted at
/// `system.slice`: where that is the first that is not empty.
pub open spec fn unit_below_slice(segs: Seq<Seq<char>>) -> Option<Seq<char>>
    decreases segs.len(),
{
    if segs.len() == 0 {
        None
    } else if segs[0].len() == 0 {
        unit_below_slice(segs.drop_first())
    } else if segs[0] == "system.slice"@ {
        last_unit(segs.drop_first())
    } else {
        None
    }
}

/// The unit that one line names: the line's path stands after its last colon.
pub open spec fn line_unit(line: Seq<char>) -> Option<Seq<char>> {
    unit_below_slice(pieces(tail_after(line, ':', ':'), '/'))
}

/// The first unit that some line names.
pub open spec fn first_unit(ls: Seq<Seq<char>>) -> Option<Seq<char>>
    decreases ls.len(),
{
    if ls.len() == 0 {
        None
    } else if line_unit(ls[0]) is Some {
        line_unit(ls[0])
    } else {
        first_unit(ls.drop_first())
    }
}

/// The unit that one line names. Empty segments below the slice name no unit, so
/// they need no special care.
fn unit_from_cgroup_line(line: &str) -> (r: Option<String>)
    ensures
        opt_text(r) == line_unit(line@),
{
    let path = after_last(line, ':', ':');
    let segs = split(path.as_str(), '/');
    let ghost sv = texts(segs@);
    let mut start: usize = 0;
    proof {
        assert(sv.skip(0) =~= sv);
    }
    while start < segs.len() && segs[start].as_str().is_empty()
        invariant
            start <= segs.len(),
            sv == texts(segs@),
            unit_below_slice(sv) == unit_below_slice(sv.skip(start as int)),
        decreases segs.len() - start,
    {
        proof {
            assert(sv.skip(start as int)[0] == segs@[start as int]@);
            assert(sv.skip(start as int).drop_first() =~= sv.skip(start + 1));
        }
        start = start + 1;
    }
    if start == segs.len() {
        return None;
    }
    proof {
        assert(sv.skip(start as int)[0] == segs@[start as int]@);
    }
    if !same(segs[start].as_str(), "system.slice") {
        return None;
    }
    let mut end: usize = segs.len();
    let ghost below = sv.skip(start + 1);
    proof {
        assert(sv.skip(start as int).drop_first() =~= below);
        assert(below.take(end - start - 1) =~= below);
    }
    while end > start + 1
        invariant
            start < end <= segs.len(),
            sv == texts(segs@),
            below == sv.skip(start + 1),
            line_unit(line@) == last_unit(below.take(end - start - 1)),
        decreases end,
    {
        proof {
            let t = below.take(end - start - 1);
            assert(t.last() == segs@[end - 1]@);
            assert(t.drop_last() =~= below.take(end - start - 2));
        }
        let s = segs[end - 1].as_str();
        if has_suffix(s, ".service") || has_suffix(s, ".scope") {
            return Some(segs[end - 1].clone());
        }
        end = end - 1;
    }
    None
}

/// The unit that a process belongs to, from the contents of its `cgroup` file.
pub fn unit_from_cgroup(contents: &str) -> (r: Option<String>)
    ensures
        opt_text(r) == first_unit(lines_of(contents@)),
{
    let ls = lines(contents);
    let ghost lv = texts(ls@);
    let mut i: usize = 0;
    proof {
        assert(lv.skip(0) =~= lv);
    }
    while i < ls.len()
        invariant
            i <= ls.len(),
            lv == texts(ls@),
            lv == lines_of(contents@),
            first_unit(lv) == first_unit(lv.skip(i as int)),
        decreases ls.len() - i,
    {
        proof {
            assert(lv.skip(i as int)[0] == ls@[i as int]@);
            assert(lv.skip(i as int).drop_first() =~= lv.skip(i + 1));
        }
        if let Some(u) = unit_from_cgroup_line(ls[i].as_str()) {
            proof {
                assert(line_unit(lv.skip(i as int)[0]) == Some(u@));
            }
            return Some(u);
        }
        i = i + 1;
    }
    None
}

/// A process whose control group is rooted anywhere but at the slice of the
/// system's units belongs to no unit, whatever stands further down: one of a user's
/// session never does.
pub proof fn outside_the_slice_is_no_unit(segs: Seq<Seq<char>>, root: int)
    requires
        0 <= root < segs.len(),
        forall|i: int| 0 <= i < root ==> (#[trigger] segs[i]).len() == 0,
        segs[root].len() > 0,
        segs[root] != "system.slice"@,
    ensures
        unit_below_slice(segs) is None,
    decreases segs.len(),
{
    if root > 0 {
        let t = segs.drop_first();
        assert forall|i: int| 0 <= i < root - 1 implies (#[trigger] t[i]).len() == 0 by {
            assert(t[i] == segs[i + 1]);
        }
        outside_the_slice_is_no_unit(t, root - 1);
    }
}

/// The contents of the `cgroup` file of a process, where it could be read.
#[derive(Debug, Clone, PartialEq, Eq)]
pub struct CgroupFile {
    /// The process.
    pub pid: i32,
    /// What the file holds.
    pub contents: String,
}

/// The unit of `pid` by the files: by the last file of that process that names
/// one.
pub open spec fn unit_of_pid(files: Seq<CgroupFile>, pid: i32) -> Option<Seq<char>>
    decreases files.len(),
{
    if files.len() == 0 {
        None
    } else if files.last().pid == pid && first_unit(lines_of(files.last().contents@)) is Some {
        first_unit(lines_of(files.last().contents@))
    } else {
        unit_of_pid(files.drop_last(), pid)
    }
}

/// A process with its unit filled in.
pub open spec fn attributed(p: GpuProcView, files: Seq<CgroupFile>) -> GpuProcView {
    GpuProcView { owning_unit: unit_of_pid(files, p.pid), ..p }
}

fn find_unit(files: &Vec<CgroupFile>, pid: i32) -> (r: Option<String>)
    ensures
        opt_text(r) == unit_of_pid(files@, pid),
{
    let mut n: usize = files.len();
    proof {
        assert(files@.take(n as int) =~= files@);
    }
    while n > 0
        invariant
            n <= files.len(),
            unit_of_pid(files@, pid) == unit_of_pid(files@.take(n as int), pid),
        decreases n,
    {
        proof {
            assert(files@.take(n as int).last() == files@[n - 1]);
            assert(files@.take(n as int).drop_last() =~= files@.take(n - 1));
        }
        if files[n - 1].pid == pid {
            let u = unit_from_cgroup(files[n - 1].contents.as_str());
            if u.is_some() {
                return u;
            }
        }
        n = n - 1;
    }
    None
}

/// The processes, each with the unit that its control group names.
pub fn attribute_units(procs: Vec<GpuGraphicsProc>, files: &Vec<CgroupFile>) -> (r: Vec<
    GpuGraphicsProc,
>)
    ensures
        proc_views(r@) == Seq::new(
            procs@.len(),
            |i: int| attributed(proc_views(procs@)[i], files@),
        ),
{
    let mut out: Vec<GpuGraphicsProc> = Vec::new();
    let mut i: usize = 0;
    while i < procs.len()
        invariant
            i <= procs.len(),
            out@.len() == i,
            forall|j: int|
                0 <= j < i ==> (#[trigger] out@[j])@ == attributed(procs@[j]@, files@),
        decreases procs.len() - i,
    {
        out.push(
            GpuGraphicsProc {
                pid: procs[i].pid,
                name: procs[i].name.clone(),
                vram_mb: procs[i].vram_mb,
                owning_unit: find_unit(files, procs[i].pid),
            },
        );
        i = i + 1;
    }
    proof {
        assert(proc_views(out@) =~= Seq::new(
            procs@.len(),
            |i: int| attributed(proc_views(procs@)[i], files@),
        ));
    }
    out
}

/// The deepest segment that names a unit is the unit; a segment below it that names
/// none changes nothing.
pub proof fn deepest_unit_is_the_unit(segs: Seq<Seq<char>>, x: Seq<char>)
    ensures
        ends_with(x, ".service"@) || ends_with(x, ".scope"@) ==> last_unit(segs.push(x)) == Some(x),
        !ends_with(x, ".service"@) && !ends_with(x, ".scope"@) ==> last_unit(segs.push(x))
            == last_unit(segs),
        last_unit(Seq::empty()) is None,
{
    assert(segs.push(x).drop_last() =~= segs);
}

/// What belongs to a unit ends like one, and is a segment of the path below the slice.
pub proof fn unit_is_a_segment(segs: Seq<Seq<char>>)
    requires
        unit_below_slice(segs) is Some,
    ensures
        ({
            let u = unit_below_slice(segs)->0;
            &&& segs.contains(u)
            &&& ends_with(u, ".service"@) || ends_with(u, ".scope"@)
        }),
    decreases segs.len(),
{
    let t = segs.drop_first();
    let u = unit_below_slice(segs)->0;
    if segs[0].len() == 0 {
        unit_is_a_segment(t);
    } else {
        lemma_last_unit(t);
    }
    let k = choose|k: int| 0 <= k < t.len() && t[k] == u;
    assert(segs[k + 1] == u);
}

proof fn lemma_last_unit(segs: Seq<Seq<char>>)
    requires
        last_unit(segs) is Some,
    ensures
        segs.contains(last_unit(segs)->0),
        names_unit(last_unit(segs)->0),
    decreases segs.len(),
{
    if names_unit(segs.last()) {
        assert(segs[segs.len() - 1] == segs.last());
    } else {
        lemma_last_unit(segs.drop_last());
        let k = choose|k: int|
            0 <= k < segs.drop_last().len() && segs.drop_last()[k] == last_unit(segs)->0;
        assert(segs[k] == last_unit(segs)->0);
    }
}

/// A process in the control group of a system's service belongs to that service,
/// whatever stands before the line's last colon.
pub proof fn service_line_names_the_service(head: Seq<char>, unit: Seq<char>)
    requires
        ends_with(unit, ".service"@) || ends_with(unit, ".scope"@),
        !unit.contains('/'),
        !unit.contains(':'),
    ensures
        line_unit(head.push(':') + (seq!['/'] + "system.slice"@ + seq!['/'] + unit)) == Some(unit),
{
    let path = seq!['/'] + "system.slice"@ + seq!['/'] + unit;
    reveal_strlit("system.slice");
    assert(!path.contains(':')) by {
        if path.contains(':') {
            let i = choose|i: int| 0 <= i < path.len() && path[i] == ':';
            if i > 13 {
                assert(unit[i - 14] == ':');
            }
        }
    }
    tail_holds_no_separator(head, path, ':', ':', ':');
    let e = Seq::<char>::empty();
    let m = "system.slice"@;
    assert(!m.contains('/')) by {
        if m.contains('/') {
            let i = choose|i: int| 0 <= i < m.len() && m[i] == '/';
            assert(m[i] == '/');
        }
    }
    assert(path =~= e.push('/') + (m.push('/') + unit));
    three_pieces(e, m, unit, '/');
    let segs = seq![e, m, unit];
    assert(pieces(path, '/') == segs);
    assert(segs.drop_first() =~= seq![m, unit]);
    assert(seq![m, unit].drop_first() =~= seq![unit]);
    deepest_unit_is_the_unit(Seq::empty(), unit);
    assert(Seq::<Seq<char>>::empty().push(unit) =~= seq![unit]);
    assert(segs[0].len() == 0);
    assert(seq![m, unit][0].len() > 0);
    assert(unit_below_slice(seq![m, unit]) == Some(unit));
    assert(unit_below_slice(segs) == Some(unit));
}

/// The first line that names a unit decides; lines that name none are passed over.
pub proof fn first_line_that_names_decides(l: Seq<char>, rest: Seq<Seq<char>>)
    ensures
        line_unit(l) is Some ==> first_unit(seq![l] + rest) == line_unit(l),
        line_unit(l) is None ==> first_unit(seq![l] + rest) == first_unit(rest),
        first_unit(Seq::empty()) is None,
{
    assert((seq![l] + rest).drop_first() =~= rest);
}

/// A process is given a unit by its own file alone: the files of other processes
/// change nothing, and nothing else of the process changes.
pub proof fn own_file_gives_the_unit(p: GpuProcView, files: Seq<CgroupFile>, f: CgroupFile)
    ensures
        ({
            let (a, b) = (attributed(p, files), attributed(p, files.push(f)));
            &&& f.pid != p.pid ==> b == a
            &&& f.pid == p.pid && first_unit(lines_of(f.contents@)) is Some ==> b.owning_unit
                == first_unit(lines_of(f.contents@))
            &&& a.pid == p.pid && a.name == p.name && a.vram_mb == p.vram_mb
            &&& attributed(p, Seq::empty()).owning_unit is None
        }),
{
    assert(files.push(f).drop_last() =~= files);
}

} // verus!
