//! IP addresses and how they are written.

use vstd::prelude::*;

use crate::numerals::{
    all_digits, decimal, digits_value, is_digit, lemma_decimal_digits, read_unsigned,
};
use crate::scan::{lemma_pieces_after, pieces, split, three_pieces};
use crate::text::{chars_of, find, first_at, occurs, string_of, texts};

verus! {

/// An IP address.
#[derive(Debug, Clone, Copy, PartialEq, Eq)]
pub enum IpAddr {
    /// Four bytes.
    V4([u8; 4]),
    /// Eight groups.
    V6([u16; 8]),
}

/// The value of an [`IpAddr`].
pub enum AddrView {
    V4(Seq<int>),
    V6(Seq<int>),
}

impl View for IpAddr {
    type V = AddrView;

    open spec fn view(&self) -> AddrView {
        match self {
            IpAddr::V4(a) => AddrView::V4(Seq::new(4, |i: int| a@[i] as int)),
            IpAddr::V6(a) => AddrView::V6(Seq::new(8, |i: int| a@[i] as int)),
        }
    }
}

// ── four bytes ─────────────────────────────────────────────────────────────

/// The byte that `s` writes: one to three decimal digits, the first of several not
/// zero.
pub open spec fn octet(s: Seq<char>) -> Option<int> {
    if 1 <= s.len() <= 3 && all_digits(s) && digits_value(s) <= 255 && (s.len() > 1 ==> s[0]
        != '0') {
        Some(digits_value(s) as int)
    } else {
        None
    }
}

fn read_octet(s: &str) -> (r: Option<u8>)
    ensures
        match r {
            Some(n) => octet(s@) == Some(n as int),
            None => octet(s@) is None,
        },
{
    let cs = chars_of(s);
    if cs.len() == 0 || cs.len() > 3 || cs[0] == '+' || (cs.len() > 1 && cs[0] == '0') {
        proof {
            if cs.len() > 0 && cs@[0] == '+' {
                assert(!is_digit(s@[0]));
            }
        }
        return None;
    }
    match read_unsigned(s, 255) {
        Some(n) => Some(n as u8),
        None => None,
    }
}

/// The four bytes that `s` writes, with a dot between each two.
pub open spec fn four_bytes(s: Seq<char>) -> Option<Seq<int>> {
    let p = pieces(s, '.');
    if p.len() == 4 && forall|i: int| 0 <= i < 4 ==> octet(#[trigger] p[i]) is Some {
        Some(Seq::new(4, |i: int| octet(p[i])->0))
    } else {
        None
    }
}

fn read_four_bytes(s: &str) -> (r: Option<[u8; 4]>)
    ensures
        match r {
            Some(a) => four_bytes(s@) == Some(Seq::new(4, |i: int| a@[i] as int)),
            None => four_bytes(s@) is None,
        },
{
    let p = split(s, '.');
    let ghost ps = pieces(s@, '.');
    proof {
        assert(ps == texts(p@));
    }
    if p.len() != 4 {
        return None;
    }
    let mut a: [u8; 4] = [0, 0, 0, 0];
    let mut i: usize = 0;
    while i < 4
        invariant
            i <= 4,
            p@.len() == 4,
            ps == pieces(s@, '.'),
            ps == texts(p@),
            forall|j: int| 0 <= j < i ==> octet(#[trigger] ps[j]) == Some(a@[j] as int),
        decreases 4 - i,
    {
        match read_octet(p[i].as_str()) {
            Some(n) => {
                a[i] = n;
            },
            None => {
                proof {
                    assert(octet(ps[i as int]) is None);
                }
                return None;
            },
        }
        i = i + 1;
    }
    proof {
        assert(four_bytes(s@)->0 =~= Seq::new(4, |i: int| a@[i] as int));
    }
    Some(a)
}

// ── eight groups ───────────────────────────────────────────────────────────

/// The value of a hexadecimal digit.
pub open spec fn hex_digit(c: char) -> Option<int> {
    let u = c as u32;
    if 48 <= u <= 57 {
        Some(u - 48)
    } else if 65 <= u <= 70 {
        Some(u - 55)
    } else if 97 <= u <= 102 {
        Some(u - 87)
    } else {
        None
    }
}

/// The number that the hexadecimal digits of `s` write.
pub open spec fn hex_value(s: Seq<char>) -> Option<int>
    decreases s.len(),
{
    if s.len() == 0 {
        Some(0)
    } else {
        match (hex_value(s.drop_last()), hex_digit(s.last())) {
            (Some(v), Some(d)) => Some(v * 16 + d),
            _ => None,
        }
    }
}

/// The group that `s` writes: one to four hexadecimal digits.
pub open spec fn hex_group(s: Seq<char>) -> Option<int> {
    if 1 <= s.len() <= 4 {
        hex_value(s)
    } else {
        None
    }
}

fn read_hex_digit(c: char) -> (r: Option<u16>)
    ensures
        match r {
            Some(d) => hex_digit(c) == Some(d as int) && d < 16,
            None => hex_digit(c) is None,
        },
{
    let u: u32 = c as u32;
    if 48 <= u && u <= 57 {
        Some((u - 48) as u16)
    } else if 65 <= u && u <= 70 {
        Some((u - 55) as u16)
    } else if 97 <= u && u <= 102 {
        Some((u - 87) as u16)
    } else {
        None
    }
}

proof fn lemma_hex_prefix(s: Seq<char>, i: int)
    requires
        0 <= i <= s.len(),
        hex_value(s.take(i)) is None,
    ensures
        hex_value(s) is None,
    decreases s.len(),
{
    if i == s.len() {
        assert(s.take(i) =~= s);
    } else {
        assert(s.drop_last().take(i) =~= s.take(i));
        lemma_hex_prefix(s.drop_last(), i);
    }
}

fn read_hex_group(s: &str) -> (r: Option<u16>)
    ensures
        match r {
            Some(n) => hex_group(s@) == Some(n as int),
            None => hex_group(s@) is None,
        },
{
    let cs = chars_of(s);
    if cs.len() == 0 || cs.len() > 4 {
        return None;
    }
    let mut n: u32 = 0;
    let mut bound: u32 = 1;
    let mut i: usize = 0;
    proof {
        assert(s@.take(0) =~= Seq::empty());
    }
    while i < cs.len()
        invariant
            i <= cs.len() <= 4,
            cs@ == s@,
            hex_value(s@.take(i as int)) == Some(n as int),
            n < bound,
            i == 0 ==> bound == 1,
            i == 1 ==> bound == 16,
            i == 2 ==> bound == 256,
            i == 3 ==> bound == 4096,
            i == 4 ==> bound == 65536,
        decreases cs.len() - i,
    {
        proof {
            assert(s@.take(i + 1).drop_last() =~= s@.take(i as int));
            assert(s@.take(i + 1).last() == cs@[i as int]);
        }
        match read_hex_digit(cs[i]) {
            Some(d) => {
                n = n * 16 + d as u32;
            },
            None => {
                proof {
                    lemma_hex_prefix(s@, i + 1);
                }
                return None;
            },
        }
        bound = bound * 16;
        i = i + 1;
    }
    proof {
        assert(s@.take(s@.len() as int) =~= s@);
    }
    Some(n as u16)
}

/// The groups that texts write one by one.
pub open spec fn hex_groups(p: Seq<Seq<char>>) -> Option<Seq<int>> {
    if forall|i: int| 0 <= i < p.len() ==> hex_group(#[trigger] p[i]) is Some {
        Some(Seq::new(p.len(), |i: int| hex_group(p[i])->0))
    } else {
        None
    }
}

/// The groups that texts write, the last of which may write two as four bytes.
pub open spec fn mixed_groups(p: Seq<Seq<char>>) -> Option<Seq<int>> {
    match four_bytes(p.last()) {
        Some(b) => match hex_groups(p.drop_last()) {
            Some(g) => Some(g.push(b[0] * 256 + b[1]).push(b[2] * 256 + b[3])),
            None => None,
        },
        None => hex_groups(p),
    }
}

/// The values of groups.
pub open spec fn group_values(v: Seq<u16>) -> Seq<int> {
    Seq::new(v.len(), |i: int| v[i] as int)
}

fn read_hex_groups(p: &Vec<String>, n: usize) -> (r: Option<Vec<u16>>)
    requires
        n <= p.len(),
    ensures
        match r {
            Some(g) => hex_groups(texts(p@).take(n as int)) == Some(group_values(g@)),
            None => hex_groups(texts(p@).take(n as int)) is None,
        },
{
    let ghost ps = texts(p@).take(n as int);
    let mut g: Vec<u16> = Vec::new();
    let mut i: usize = 0;
    while i < n
        invariant
            i <= n <= p.len(),
            ps == texts(p@).take(n as int),
            g@.len() == i,
            forall|j: int| 0 <= j < i ==> hex_group(#[trigger] ps[j]) == Some(g@[j] as int),
        decreases n - i,
    {
        match read_hex_group(p[i].as_str()) {
            Some(v) => g.push(v),
            None => {
                proof {
                    assert(hex_group(ps[i as int]) is None);
                }
                return None;
            },
        }
        i = i + 1;
    }
    proof {
        assert(hex_groups(ps)->0 =~= group_values(g@));
    }
    Some(g)
}

fn read_mixed_groups(p: &Vec<String>) -> (r: Option<Vec<u16>>)
    requires
        p.len() >= 1,
    ensures
        match r {
            Some(g) => mixed_groups(texts(p@)) == Some(group_values(g@)),
            None => mixed_groups(texts(p@)) is None,
        },
{
    let n: usize = p.len();
    proof {
        assert(texts(p@).last() == p@[n - 1]@);
        assert(texts(p@).take(n - 1) =~= texts(p@).drop_last());
        assert(texts(p@).take(n as int) =~= texts(p@));
    }
    match read_four_bytes(p[n - 1].as_str()) {
        Some(b) => match read_hex_groups(p, n - 1) {
            Some(mut g) => {
                g.push(b[0] as u16 * 256 + b[1] as u16);
                g.push(b[2] as u16 * 256 + b[3] as u16);
                proof {
                    assert(mixed_groups(texts(p@))->0 =~= group_values(g@));
                }
                Some(g)
            },
            None => None,
        },
        None => read_hex_groups(p, n),
    }
}

/// The groups before a gap: none, or some with a colon between each two.
pub open spec fn groups_before(s: Seq<char>) -> Option<Seq<int>> {
    if s.len() == 0 {
        Some(Seq::empty())
    } else {
        hex_groups(pieces(s, ':'))
    }
}

/// The groups after a gap: none, or some with a colon between each two, the last
/// two of which may be written as four bytes.
pub open spec fn groups_after(s: Seq<char>) -> Option<Seq<int>> {
    if s.len() == 0 {
        Some(Seq::empty())
    } else {
        mixed_groups(pieces(s, ':'))
    }
}

fn read_groups_before(s: &str) -> (r: Option<Vec<u16>>)
    ensures
        match r {
            Some(g) => groups_before(s@) == Some(group_values(g@)),
            None => groups_before(s@) is None,
        },
{
    let cs = chars_of(s);
    if cs.len() == 0 {
        let g: Vec<u16> = Vec::new();
        proof {
            assert(group_values(g@) =~= Seq::empty());
        }
        return Some(g);
    }
    let p = split(s, ':');
    proof {
        assert(texts(p@).take(p@.len() as int) =~= pieces(s@, ':'));
    }
    read_hex_groups(&p, p.len())
}

fn read_groups_after(s: &str) -> (r: Option<Vec<u16>>)
    ensures
        match r {
            Some(g) => groups_after(s@) == Some(group_values(g@)),
            None => groups_after(s@) is None,
        },
{
    let cs = chars_of(s);
    if cs.len() == 0 {
        let g: Vec<u16> = Vec::new();
        proof {
            assert(group_values(g@) =~= Seq::empty());
        }
        return Some(g);
    }
    let p = split(s, ':');
    read_mixed_groups(&p)
}

/// The groups on both sides of a gap, with zeros in the gap: there is room in it
/// for one group at least.
pub open spec fn around_gap(head: Option<Seq<int>>, tail: Option<Seq<int>>) -> Option<Seq<int>> {
    match (head, tail) {
        (Some(h), Some(t)) => if h.len() + t.len() <= 7 {
            Some(h + Seq::new((8 - h.len() - t.len()) as nat, |i: int| 0int) + t)
        } else {
            None
        },
        _ => None,
    }
}

/// The eight groups that `s` writes: all of them, or those around the first `::`.
pub open spec fn eight_groups(s: Seq<char>) -> Option<Seq<int>> {
    if occurs(s, "::"@) {
        let i = choose|i: int| first_at(s, "::"@, i);
        around_gap(groups_before(s.take(i)), groups_after(s.skip(i + 2)))
    } else {
        match mixed_groups(pieces(s, ':')) {
            Some(g) => if g.len() == 8 {
                Some(g)
            } else {
                None
            },
            None => None,
        }
    }
}

fn read_eight_groups(s: &str) -> (r: Option<[u16; 8]>)
    ensures
        match r {
            Some(a) => eight_groups(s@) == Some(Seq::new(8, |i: int| a@[i] as int)),
            None => eight_groups(s@) is None,
        },
{
    proof {
        reveal_strlit("::");
    }
    match find(s, "::") {
        Some(at) => {
            let cs = chars_of(s);
            proof {
                assert(first_at(s@, "::"@, at as int));
            }
            let head = string_of(&cs, 0, at);
            let tail = string_of(&cs, at + 2, cs.len());
            proof {
                let i = choose|i: int| first_at(s@, "::"@, i);
                assert(i == at);
                assert(head@ =~= s@.take(i));
                assert(tail@ =~= s@.skip(i + 2));
            }
            let h = match read_groups_before(head.as_str()) {
                Some(h) => h,
                None => return None,
            };
            let t = match read_groups_after(tail.as_str()) {
                Some(t) => t,
                None => return None,
            };
            let n: usize = h.len();
            let m: usize = t.len();
            if n > 7 || m > 7 - n {
                return None;
            }
            let mut a: [u16; 8] = [0, 0, 0, 0, 0, 0, 0, 0];
            let mut i: usize = 0;
            while i < n
                invariant
                    i <= n <= 7,
                    n == h@.len(),
                    forall|j: int| 0 <= j < 8 ==> (#[trigger] a@[j]) == if j < i {
                        h@[j]
                    } else {
                        0
                    },
                decreases n - i,
            {
                a[i] = h[i];
                i = i + 1;
            }
            let mut k: usize = 0;
            while k < m
                invariant
                    k <= m,
                    n + m <= 7,
                    n == h@.len(),
                    m == t@.len(),
                    forall|j: int| 0 <= j < 8 ==> (#[trigger] a@[j]) == if j < n {
                        h@[j]
                    } else if 8 - m <= j < 8 - m + k {
                        t@[j - (8 - m)]
                    } else {
                        0
                    },
                decreases m - k,
            {
                a[8 - m + k] = t[k];
                k = k + 1;
            }
            proof {
                assert(eight_groups(s@)->0 =~= Seq::new(8, |i: int| a@[i] as int));
            }
            Some(a)
        },
        None => {
            let p = split(s, ':');
            match read_mixed_groups(&p) {
                Some(g) => {
                    if g.len() != 8 {
                        return None;
                    }
                    let a: [u16; 8] = [g[0], g[1], g[2], g[3], g[4], g[5], g[6], g[7]];
                    proof {
                        assert(eight_groups(s@)->0 =~= Seq::new(8, |i: int| a@[i] as int));
                    }
                    Some(a)
                },
                None => None,
            }
        },
    }
}

// ── addresses ──────────────────────────────────────────────────────────────

/// The address that `s` writes.
pub open spec fn address(s: Seq<char>) -> Option<AddrView> {
    match four_bytes(s) {
        Some(b) => Some(AddrView::V4(b)),
        None => match eight_groups(s) {
            Some(g) => Some(AddrView::V6(g)),
            None => None,
        },
    }
}

/// The address that `s` writes.
pub fn read_address(s: &str) -> (r: Option<IpAddr>)
    ensures
        match r {
            Some(a) => address(s@) == Some(a@),
            None => address(s@) is None,
        },
{
    match read_four_bytes(s) {
        Some(a) => Some(IpAddr::V4(a)),
        None => match read_eight_groups(s) {
            Some(g) => Some(IpAddr::V6(g)),
            None => None,
        },
    }
}

/// An address of this host: 127.0.0.0/8 or `::1`.
pub open spec fn loopback(a: AddrView) -> bool {
    match a {
        AddrView::V4(b) => b[0] == 127,
        AddrView::V6(g) => g == seq![0int, 0, 0, 0, 0, 0, 0, 1],
    }
}

// ── laws ───────────────────────────────────────────────────────────────────

/// A byte is read from its decimal digits, up to 255; with a zero put before it, it is not,
/// and neither is a greater number.
pub proof fn bytes_read_back(n: nat)
    ensures
        n <= 255 ==> octet(decimal(n)) == Some(n as int),
        n > 255 ==> octet(decimal(n)) is None,
        octet(seq!['0'] + decimal(n)) is None,
{
    lemma_decimal_digits(n);
    let s = decimal(n);
    if n <= 255 {
        reveal_with_fuel(decimal, 4);
        if s.len() > 1 {
            lemma_no_zero_first(n);
        }
    }
}

proof fn lemma_no_zero_first(n: nat)
    requires
        n > 0,
    ensures
        decimal(n)[0] != '0',
    decreases n,
{
    if n >= 10 {
        lemma_no_zero_first(n / 10);
        lemma_decimal_digits(n / 10);
        assert(decimal(n)[0] == decimal(n / 10)[0]);
    }
}

/// Four bytes with dots between them are an address, and it is those four.
pub proof fn four_bytes_read_back(a: nat, b: nat, c: nat, d: nat)
    requires
        a <= 255,
        b <= 255,
        c <= 255,
        d <= 255,
    ensures
        address(
            decimal(a).push('.') + (decimal(b).push('.') + (decimal(c).push('.') + decimal(d))),
        ) == Some(AddrView::V4(seq![a as int, b as int, c as int, d as int])),
{
    bytes_read_back(a);
    bytes_read_back(b);
    bytes_read_back(c);
    bytes_read_back(d);
    lemma_no_dot(a);
    lemma_no_dot(b);
    lemma_no_dot(c);
    lemma_no_dot(d);
    let rest = decimal(b).push('.') + (decimal(c).push('.') + decimal(d));
    three_pieces(decimal(b), decimal(c), decimal(d), '.');
    lemma_pieces_after(decimal(a), '.', rest);
    let p = seq![decimal(a)] + seq![decimal(b), decimal(c), decimal(d)];
    assert(pieces(decimal(a).push('.') + rest, '.') == p);
    assert(p[0] == decimal(a) && p[1] == decimal(b) && p[2] == decimal(c) && p[3] == decimal(d));
    assert(four_bytes(decimal(a).push('.') + rest)->0 =~= seq![
        a as int,
        b as int,
        c as int,
        d as int,
    ]);
}

proof fn lemma_no_dot(n: nat)
    ensures
        !decimal(n).contains('.'),
{
    lemma_decimal_digits(n);
    let s = decimal(n);
    if s.contains('.') {
        let i = choose|i: int| 0 <= i < s.len() && s[i] == '.';
        assert(is_digit(s[i]));
    }
}

/// A gap stands for as many zeros as are missing, one at least; the groups before it and
/// after it keep their places at the two ends.
pub proof fn gap_fills_up_to_eight(h: Seq<int>, t: Seq<int>)
    ensures
        around_gap(Some(h), Some(t)) is Some <==> h.len() + t.len() <= 7,
        h.len() + t.len() <= 7 ==> ({
            let g = around_gap(Some(h), Some(t))->0;
            &&& g.len() == 8
            &&& g.take(h.len() as int) == h
            &&& g.skip(8 - t.len()) == t
            &&& forall|i: int| h.len() <= i < 8 - t.len() ==> (#[trigger] g[i]) == 0
        }),
        around_gap(None, Some(t)) is None,
        around_gap(Some(h), None) is None,
{
    if h.len() + t.len() <= 7 {
        let g = around_gap(Some(h), Some(t))->0;
        assert(g.take(h.len() as int) =~= h);
        assert(g.skip(8 - t.len()) =~= t);
    }
}

/// A group is one to four hexadecimal digits, in either case, the first worth most.
pub proof fn groups_are_hexadecimal(s: Seq<char>, c: char)
    ensures
        hex_group(s) is Some ==> 1 <= s.len() <= 4,
        hex_digit(c) is Some ==> hex_value(s.push(c)) == (match hex_value(s) {
            Some(v) => Some(v * 16 + hex_digit(c)->0),
            None => None,
        }),
        hex_digit(c) is None ==> hex_value(s.push(c)) is None,
        hex_digit(crate::scan::lower_char(c)) == hex_digit(c),
        hex_digit(c) is Some ==> 0 <= hex_digit(c)->0 < 16,
{
    assert(s.push(c).drop_last() =~= s);
}

} // verus!
