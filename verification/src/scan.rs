//! Cutting text apart: trimming, splitting, lines, words and ASCII case.

use vstd::prelude::*;

use crate::text::{chars_of, lemma_texts_push, string_of, texts};

verus! {

// ── whitespace ─────────────────────────────────────────────────────────────

/// The characters with the Unicode property White_Space.
pub open spec fn is_space(c: char) -> bool {
    let u = c as u32;
    9 <= u <= 13 || u == 32 || u == 0x85 || u == 0xA0 || u == 0x1680 || 0x2000 <= u <= 0x200A || u
        == 0x2028 || u == 0x2029 || u == 0x202F || u == 0x205F || u == 0x3000
}

/// Whether `c` is white space.
pub fn space(c: char) -> (r: bool)
    ensures
        r == is_space(c),
{
    let u: u32 = c as u32;
    (9 <= u && u <= 13) || u == 32 || u == 0x85 || u == 0xA0 || u == 0x1680 || (0x2000 <= u && u
        <= 0x200A) || u == 0x2028 || u == 0x2029 || u == 0x202F || u == 0x205F || u == 0x3000
}

/// `s` without its leading white space.
pub open spec fn trim_start(s: Seq<char>) -> Seq<char>
    decreases s.len(),
{
    if s.len() > 0 && is_space(s[0]) {
        trim_start(s.drop_first())
    } else {
        s
    }
}

/// `s` without its trailing white space.
pub open spec fn trim_end(s: Seq<char>) -> Seq<char>
    decreases s.len(),
{
    if s.len() > 0 && is_space(s.last()) {
        trim_end(s.drop_last())
    } else {
        s
    }
}

/// `s` without the white space at its two ends.
pub open spec fn trimmed(s: Seq<char>) -> Seq<char> {
    trim_end(trim_start(s))
}

/// `s` without the white space at its two ends.
pub fn trim(s: &str) -> (r: String)
    ensures
        r@ == trimmed(s@),
{
    let cs = chars_of(s);
    let mut lo: usize = 0;
    proof {
        assert(s@.skip(0) =~= s@);
    }
    while lo < cs.len() && space(cs[lo])
        invariant
            lo <= cs.len(),
            cs@ == s@,
            trim_start(s@) == trim_start(s@.skip(lo as int)),
        decreases cs.len() - lo,
    {
        proof {
            assert(s@.skip(lo as int).drop_first() =~= s@.skip(lo + 1));
        }
        lo = lo + 1;
    }
    let mut hi: usize = cs.len();
    proof {
        assert(s@.skip(lo as int) =~= s@.subrange(lo as int, hi as int));
        assert(trim_start(s@) == s@.skip(lo as int));
    }
    while lo < hi && space(cs[hi - 1])
        invariant
            lo <= hi <= cs.len(),
            cs@ == s@,
            trimmed(s@) == trim_end(s@.subrange(lo as int, hi as int)),
        decreases hi,
    {
        proof {
            assert(s@.subrange(lo as int, hi as int).drop_last() =~= s@.subrange(
                lo as int,
                hi - 1,
            ));
        }
        hi = hi - 1;
    }
    string_of(&cs, lo, hi)
}

/// `s` without any `c` at its end.
pub open spec fn without_trailing(s: Seq<char>, c: char) -> Seq<char>
    decreases s.len(),
{
    if s.len() > 0 && s.last() == c {
        without_trailing(s.drop_last(), c)
    } else {
        s
    }
}

/// `s` without any `c` at its end.
pub fn trim_end_char(s: &str, c: char) -> (r: String)
    ensures
        r@ == without_trailing(s@, c),
{
    let cs = chars_of(s);
    let mut hi: usize = cs.len();
    proof {
        assert(s@.take(hi as int) =~= s@);
    }
    while hi > 0 && cs[hi - 1] == c
        invariant
            hi <= cs.len(),
            cs@ == s@,
            without_trailing(s@, c) == without_trailing(s@.take(hi as int), c),
        decreases hi,
    {
        proof {
            assert(s@.take(hi as int).drop_last() =~= s@.take(hi - 1));
        }
        hi = hi - 1;
    }
    proof {
        assert(s@.take(hi as int) =~= s@.subrange(0, hi as int));
    }
    string_of(&cs, 0, hi)
}

// ── splitting ──────────────────────────────────────────────────────────────

/// The pieces of `s` between the occurrences of `c`: one more than there are
/// occurrences.
pub open spec fn pieces(s: Seq<char>, c: char) -> Seq<Seq<char>>
    decreases s.len(),
{
    if s.len() == 0 {
        seq![Seq::empty()]
    } else {
        let p = pieces(s.drop_last(), c);
        if s.last() == c {
            p.push(Seq::empty())
        } else {
            p.drop_last().push(p.last().push(s.last()))
        }
    }
}

pub proof fn lemma_pieces_nonempty(s: Seq<char>, c: char)
    ensures
        pieces(s, c).len() >= 1,
    decreases s.len(),
{
    if s.len() > 0 {
        lemma_pieces_nonempty(s.drop_last(), c);
    }
}

/// The pieces of `s` between the occurrences of `c`.
pub fn split(s: &str, c: char) -> (r: Vec<String>)
    ensures
        texts(r@) == pieces(s@, c),
        r@.len() >= 1,
{
    let cs = chars_of(s);
    let mut done: Vec<String> = Vec::new();
    let mut cur: String = String::new();
    let mut i: usize = 0;
    proof {
        assert(s@.take(0) =~= Seq::empty());
        assert(texts(done@).push(cur@) =~= pieces(s@.take(0), c));
    }
    while i < cs.len()
        invariant
            i <= cs.len(),
            cs@ == s@,
            texts(done@).push(cur@) == pieces(s@.take(i as int), c),
        decreases cs.len() - i,
    {
        let ghost d0 = done@;
        let ghost c0 = cur@;
        proof {
            assert(s@.take(i + 1).drop_last() =~= s@.take(i as int));
            assert(texts(d0).push(c0).drop_last() =~= texts(d0));
        }
        if cs[i] == c {
            done.push(cur);
            cur = String::new();
            proof {
                lemma_texts_push(d0, done@.last());
                assert(done@ =~= d0.push(done@.last()));
            }
        } else {
            cur.push(cs[i]);
        }
        i = i + 1;
    }
    proof {
        assert(s@.take(cs.len() as int) =~= s@);
        lemma_texts_push(done@, cur);
    }
    done.push(cur);
    done
}

/// `s` without one trailing carriage return.
pub open spec fn without_cr(s: Seq<char>) -> Seq<char> {
    if s.len() > 0 && s.last() == '\r' {
        s.drop_last()
    } else {
        s
    }
}

/// The lines of `s`: ended by a newline or by a carriage return and a newline,
/// the last one also by the end of the text.
pub open spec fn lines_of(s: Seq<char>) -> Seq<Seq<char>> {
    let p = pieces(s, '\n');
    let full = Seq::new((p.len() - 1) as nat, |i: int| without_cr(p[i]));
    if p.last().len() == 0 {
        full
    } else {
        full.push(p.last())
    }
}

/// The lines of `s`.
pub fn lines(s: &str) -> (r: Vec<String>)
    ensures
        texts(r@) == lines_of(s@),
{
    let p = split(s, '\n');
    let ghost pv = pieces(s@, '\n');
    let mut out: Vec<String> = Vec::new();
    let n: usize = p.len() - 1;
    let mut i: usize = 0;
    while i < n
        invariant
            n + 1 == p.len(),
            i <= n,
            texts(p@) == pv,
            out@.len() == i,
            forall|j: int| 0 <= j < i ==> (#[trigger] out@[j])@ == without_cr(pv[j]),
        decreases n - i,
    {
        let cs = chars_of(p[i].as_str());
        proof {
            assert(pv[i as int] == p@[i as int]@);
        }
        let line: String = if cs.len() > 0 && cs[cs.len() - 1] == '\r' {
            proof {
                assert(cs@.subrange(0, cs.len() - 1) =~= cs@.drop_last());
            }
            string_of(&cs, 0, cs.len() - 1)
        } else {
            p[i].clone()
        };
        out.push(line);
        i = i + 1;
    }
    proof {
        assert(pv.last() == p@[n as int]@);
    }
    if !p[n].as_str().is_empty() {
        out.push(p[n].clone());
    }
    proof {
        assert(texts(out@) =~= lines_of(s@));
    }
    out
}

/// No piece holds what the text was split at.
pub proof fn lemma_pieces_without(s: Seq<char>, c: char)
    ensures
        forall|i: int| 0 <= i < pieces(s, c).len() ==> !(#[trigger] pieces(s, c)[i]).contains(c),
    decreases s.len(),
{
    let r = pieces(s, c);
    if s.len() > 0 {
        let p = pieces(s.drop_last(), c);
        lemma_pieces_without(s.drop_last(), c);
        lemma_pieces_nonempty(s.drop_last(), c);
        assert forall|i: int| 0 <= i < r.len() implies !(#[trigger] r[i]).contains(c) by {
            if i < p.len() - 1 {
                assert(r[i] == p[i]);
            } else if s.last() == c {
                if i == p.len() - 1 {
                    assert(r[i] == p[i]);
                }
            } else {
                let q = p[p.len() - 1];
                assert(r[i] == q.push(s.last()));
                if r[i].contains(c) {
                    let k = choose|k: int| 0 <= k < r[i].len() && r[i][k] == c;
                    if k < q.len() {
                        assert(q[k] == c);
                        assert(q.contains(c));
                    }
                }
            }
        }
    }
}

/// No line holds a newline.
pub proof fn lemma_lines_have_no_newline(s: Seq<char>)
    ensures
        forall|i: int| 0 <= i < lines_of(s).len() ==> !(#[trigger] lines_of(s)[i]).contains('\n'),
{
    lemma_pieces_without(s, '\n');
    lemma_pieces_nonempty(s, '\n');
    let p = pieces(s, '\n');
    let l = lines_of(s);
    assert forall|i: int| 0 <= i < l.len() implies !(#[trigger] l[i]).contains('\n') by {
        assert(!p[i].contains('\n'));
        if i < p.len() - 1 {
            assert(l[i] == without_cr(p[i]));
            if l[i].contains('\n') {
                let k = choose|k: int| 0 <= k < l[i].len() && l[i][k] == '\n';
                assert(p[i][k] == '\n');
            }
        }
    }
}

/// Trimming adds nothing to a text.
pub proof fn lemma_trimmed_part(s: Seq<char>, c: char)
    ensures
        trimmed(s).contains(c) ==> s.contains(c),
{
    lemma_trim_start_part(s, c);
    lemma_trim_end_part(trim_start(s), c);
}

proof fn lemma_trim_start_part(s: Seq<char>, c: char)
    ensures
        trim_start(s).contains(c) ==> s.contains(c),
    decreases s.len(),
{
    if s.len() > 0 && is_space(s[0]) {
        let t = s.drop_first();
        lemma_trim_start_part(t, c);
        if t.contains(c) {
            let k = choose|k: int| 0 <= k < t.len() && t[k] == c;
            assert(s[k + 1] == c);
        }
    }
}

proof fn lemma_trim_end_part(s: Seq<char>, c: char)
    ensures
        trim_end(s).contains(c) ==> s.contains(c),
    decreases s.len(),
{
    if s.len() > 0 && is_space(s.last()) {
        let t = s.drop_last();
        lemma_trim_end_part(t, c);
        if t.contains(c) {
            let k = choose|k: int| 0 <= k < t.len() && t[k] == c;
            assert(s[k] == c);
        }
    }
}

/// The words of `s` that are complete, and the one that is being read.
pub open spec fn words_read(s: Seq<char>) -> (Seq<Seq<char>>, Seq<char>)
    decreases s.len(),
{
    if s.len() == 0 {
        (Seq::empty(), Seq::empty())
    } else {
        let p = words_read(s.drop_last());
        if !is_space(s.last()) {
            (p.0, p.1.push(s.last()))
        } else if p.1.len() == 0 {
            p
        } else {
            (p.0.push(p.1), Seq::empty())
        }
    }
}

/// The longest runs of characters in `s` that are not white space.
pub open spec fn words_of(s: Seq<char>) -> Seq<Seq<char>> {
    let p = words_read(s);
    if p.1.len() == 0 {
        p.0
    } else {
        p.0.push(p.1)
    }
}

/// The longest runs of characters in `s` that are not white space.
pub fn words(s: &str) -> (r: Vec<String>)
    ensures
        texts(r@) == words_of(s@),
{
    let cs = chars_of(s);
    let mut done: Vec<String> = Vec::new();
    let mut cur: String = String::new();
    let mut i: usize = 0;
    proof {
        assert(s@.take(0) =~= Seq::empty());
        assert(texts(done@) =~= Seq::empty());
    }
    while i < cs.len()
        invariant
            i <= cs.len(),
            cs@ == s@,
            (texts(done@), cur@) == words_read(s@.take(i as int)),
        decreases cs.len() - i,
    {
        let ghost d0 = done@;
        proof {
            assert(s@.take(i + 1).drop_last() =~= s@.take(i as int));
        }
        if !space(cs[i]) {
            cur.push(cs[i]);
        } else if !cur.as_str().is_empty() {
            done.push(cur);
            cur = String::new();
            proof {
                lemma_texts_push(d0, done@.last());
                assert(done@ =~= d0.push(done@.last()));
            }
        }
        i = i + 1;
    }
    proof {
        assert(s@.take(cs.len() as int) =~= s@);
        lemma_texts_push(done@, cur);
    }
    if !cur.as_str().is_empty() {
        done.push(cur);
    }
    done
}

/// What stands in `s` after the last `a` or `b`: all of it where neither occurs.
pub open spec fn tail_after(s: Seq<char>, a: char, b: char) -> Seq<char>
    decreases s.len(),
{
    if s.len() == 0 || s.last() == a || s.last() == b {
        Seq::empty()
    } else {
        tail_after(s.drop_last(), a, b).push(s.last())
    }
}

/// What stands in `s` after the last `a` or `b`.
pub fn after_last(s: &str, a: char, b: char) -> (r: String)
    ensures
        r@ == tail_after(s@, a, b),
{
    let cs = chars_of(s);
    let mut i: usize = cs.len();
    proof {
        assert(s@.take(i as int) =~= s@);
        assert(tail_after(s@.take(i as int), a, b) + s@.skip(i as int) =~= tail_after(s@, a, b));
    }
    while i > 0 && cs[i - 1] != a && cs[i - 1] != b
        invariant
            i <= cs.len(),
            cs@ == s@,
            tail_after(s@, a, b) == tail_after(s@.take(i as int), a, b) + s@.skip(i as int),
        decreases i,
    {
        proof {
            let t = s@.take(i as int);
            assert(t.drop_last() =~= s@.take(i - 1));
            assert(tail_after(t, a, b) + s@.skip(i as int) =~= tail_after(s@.take(i - 1), a, b)
                + s@.skip(i - 1));
        }
        i = i - 1;
    }
    proof {
        assert(tail_after(s@.take(i as int), a, b) =~= Seq::empty());
        assert(tail_after(s@, a, b) =~= s@.skip(i as int));
        assert(s@.skip(i as int) =~= s@.subrange(i as int, s@.len() as int));
    }
    string_of(&cs, i, cs.len())
}

/// The texts one after the other, with `sep` between each two.
pub open spec fn joined(parts: Seq<Seq<char>>, sep: Seq<char>) -> Seq<char>
    decreases parts.len(),
{
    if parts.len() == 0 {
        Seq::empty()
    } else if parts.len() == 1 {
        parts[0]
    } else {
        joined(parts.drop_last(), sep) + sep + parts.last()
    }
}

/// The texts one after the other, with `sep` between each two.
pub fn join(parts: &[String], sep: &str) -> (r: String)
    ensures
        r@ == joined(texts(parts@), sep@),
{
    let mut out: String = String::new();
    let mut i: usize = 0;
    while i < parts.len()
        invariant
            i <= parts.len(),
            out@ == joined(texts(parts@).take(i as int), sep@),
        decreases parts.len() - i,
    {
        proof {
            let t = texts(parts@);
            assert(t.take(i + 1).drop_last() =~= t.take(i as int));
            assert(t.take(i + 1).last() == parts@[i as int]@);
            if i == 0 {
                assert(out@ =~= Seq::empty());
                assert(Seq::<char>::empty() + parts@[0]@ =~= parts@[0]@);
            }
        }
        if i > 0 {
            out.append(sep);
        }
        out.append(parts[i].as_str());
        i = i + 1;
    }
    proof {
        assert(texts(parts@).take(parts.len() as int) =~= texts(parts@));
    }
    out
}

// ── ASCII case ─────────────────────────────────────────────────────────────

/// `c` with an ASCII capital letter made small.
pub open spec fn lower_char(c: char) -> char {
    if 65 <= c as u32 <= 90 {
        ((c as u32 + 32) as u8) as char
    } else {
        c
    }
}

/// `s` with its ASCII capital letters made small.
pub open spec fn lower_text(s: Seq<char>) -> Seq<char> {
    Seq::new(s.len(), |i: int| lower_char(s[i]))
}

/// `s` with its ASCII capital letters made small.
pub fn to_lower(s: &str) -> (r: String)
    ensures
        r@ == lower_text(s@),
{
    let cs = chars_of(s);
    let mut out: String = String::new();
    let mut i: usize = 0;
    while i < cs.len()
        invariant
            i <= cs.len(),
            cs@ == s@,
            out@ == lower_text(s@).take(i as int),
        decreases cs.len() - i,
    {
        let c: char = cs[i];
        let u: u32 = c as u32;
        if 65 <= u && u <= 90 {
            out.push(((u + 32) as u8) as char);
        } else {
            out.push(c);
        }
        proof {
            assert(lower_text(s@).take(i + 1) =~= lower_text(s@).take(i as int).push(
                lower_text(s@)[i as int],
            ));
        }
        i = i + 1;
    }
    proof {
        assert(lower_text(s@).take(cs.len() as int) =~= lower_text(s@));
    }
    out
}

/// Whether two texts are equal but for ASCII case.
pub fn same_folded(a: &str, b: &str) -> (r: bool)
    ensures
        r == (lower_text(a@) == lower_text(b@)),
{
    let x = to_lower(a);
    let y = to_lower(b);
    crate::text::same(x.as_str(), y.as_str())
}

// ── laws ───────────────────────────────────────────────────────────────────

/// The pieces of a text, with the separator between them, are the text again, and
/// no piece holds the separator.
pub proof fn pieces_join_again(s: Seq<char>, c: char)
    ensures
        joined(pieces(s, c), seq![c]) == s,
        forall|i: int| 0 <= i < pieces(s, c).len() ==> !(#[trigger] pieces(s, c)[i]).contains(c),
    decreases s.len(),
{
    lemma_pieces_without(s, c);
    lemma_pieces_nonempty(s, c);
    if s.len() > 0 {
        let t = s.drop_last();
        pieces_join_again(t, c);
        lemma_pieces_nonempty(t, c);
        let p = pieces(t, c);
        let q = pieces(s, c);
        if s.last() == c {
            assert(q.drop_last() =~= p);
            assert(joined(q, seq![c]) =~= joined(p, seq![c]) + seq![c] + Seq::<char>::empty());
            assert(joined(q, seq![c]) =~= t.push(c));
            assert(s =~= t.push(c));
        } else {
            assert(q.drop_last() =~= p.drop_last());
            assert(q.last() == p.last().push(s.last()));
            if p.len() == 1 {
                assert(joined(q, seq![c]) == q[0]);
                assert(joined(p, seq![c]) == p[0]);
            } else {
                assert(joined(q, seq![c]) =~= joined(p, seq![c]).push(s.last()));
            }
            assert(s =~= t.push(s.last()));
        }
    }
}

/// Every character is white space.
pub open spec fn blank(s: Seq<char>) -> bool {
    forall|i: int| 0 <= i < s.len() ==> is_space(#[trigger] s[i])
}

/// Trimming takes white space off the two ends and nothing else, and leaves none
/// there.
pub proof fn trimming_takes_the_ends(s: Seq<char>)
    ensures
        exists|a: Seq<char>, b: Seq<char>|
            s == #[trigger] (a + trimmed(s) + b) && blank(a) && blank(b),
        trimmed(s).len() > 0 ==> !is_space(trimmed(s)[0]) && !is_space(trimmed(s).last()),
        blank(s) ==> trimmed(s).len() == 0,
{
    lemma_trim_start(s);
    let t = trim_start(s);
    lemma_trim_end(t);
    let r = trimmed(s);
    let a = choose|a: Seq<char>| s == #[trigger] (a + t) && blank(a);
    let b = choose|b: Seq<char>| t == #[trigger] (r + b) && blank(b);
    assert(s =~= a + r + b);
    if r.len() > 0 {
        assert(r[0] == t[0]);
    }
    if blank(s) && r.len() > 0 {
        assert(s[a.len() as int] == r[0]);
    }
}

proof fn lemma_trim_start(s: Seq<char>)
    ensures
        exists|a: Seq<char>| s == #[trigger] (a + trim_start(s)) && blank(a),
        trim_start(s).len() > 0 ==> !is_space(trim_start(s)[0]),
    decreases s.len(),
{
    if s.len() > 0 && is_space(s[0]) {
        let u = s.drop_first();
        lemma_trim_start(u);
        let a = choose|a: Seq<char>| u == #[trigger] (a + trim_start(u)) && blank(a);
        assert(s =~= seq![s[0]] + u);
        let w = seq![s[0]] + a;
        assert(trim_start(s) == trim_start(u));
        assert(seq![s[0]] + (a + trim_start(u)) =~= w + trim_start(s));
        assert(s == w + trim_start(s));
        assert(blank(w)) by {
            assert forall|i: int| 0 <= i < w.len() implies is_space(#[trigger] w[i]) by {
                if i > 0 {
                    assert(w[i] == a[i - 1]);
                }
            }
        }
    } else {
        assert(s =~= Seq::<char>::empty() + trim_start(s));
        assert(blank(Seq::<char>::empty()));
    }
}

proof fn lemma_trim_end(s: Seq<char>)
    ensures
        exists|b: Seq<char>| s == #[trigger] (trim_end(s) + b) && blank(b),
        trim_end(s).len() > 0 ==> !is_space(trim_end(s).last()),
    decreases s.len(),
{
    if s.len() > 0 && is_space(s.last()) {
        let u = s.drop_last();
        lemma_trim_end(u);
        let b = choose|b: Seq<char>| u == #[trigger] (trim_end(u) + b) && blank(b);
        assert(s =~= u.push(s.last()));
        let w = b.push(s.last());
        assert(trim_end(s) == trim_end(u));
        assert((trim_end(u) + b).push(s.last()) =~= trim_end(s) + w);
        assert(s == trim_end(s) + w);
        assert(blank(w)) by {
            assert forall|i: int| 0 <= i < w.len() implies is_space(#[trigger] w[i]) by {
                if i < b.len() {
                    assert(w[i] == b[i]);
                }
            }
        }
    } else {
        assert(s =~= trim_end(s) + Seq::<char>::empty());
        assert(blank(Seq::<char>::empty()));
    }
}

/// A text without white space is one word; white space parts words and is in none.
pub proof fn white_space_parts_words(a: Seq<char>, c: char, b: Seq<char>)
    requires
        is_space(c),
    ensures
        words_of(a.push(c) + b) == words_of(a) + words_of(b),
        a.len() > 0 && (forall|i: int| 0 <= i < a.len() ==> !is_space(#[trigger] a[i]))
            ==> words_of(a) == seq![a],
        words_of(Seq::empty()) == Seq::<Seq<char>>::empty(),
{
    lemma_words_after(a, c, b);
    if forall|i: int| 0 <= i < a.len() ==> !is_space(#[trigger] a[i]) {
        lemma_one_word(a);
        if a.len() > 0 {
            assert(words_of(a) =~= seq![a]);
        }
    }
    let p = words_read(a.push(c) + b);
    let q = words_read(b);
    assert(words_of(a.push(c) + b) =~= words_of(a) + words_of(b));
}

proof fn lemma_words_after(a: Seq<char>, c: char, b: Seq<char>)
    requires
        is_space(c),
    ensures
        words_read(a.push(c) + b).0 == words_of(a) + words_read(b).0,
        words_read(a.push(c) + b).1 == words_read(b).1,
    decreases b.len(),
{
    let s = a.push(c) + b;
    if b.len() == 0 {
        assert(s =~= a.push(c));
        assert(s.drop_last() =~= a);
        assert(words_read(s).0 =~= words_of(a) + words_read(b).0);
    } else {
        lemma_words_after(a, c, b.drop_last());
        assert(s.drop_last() =~= a.push(c) + b.drop_last());
        assert(s.last() == b.last());
        assert(words_read(s).0 =~= words_of(a) + words_read(b).0);
    }
}

proof fn lemma_one_word(a: Seq<char>)
    requires
        forall|i: int| 0 <= i < a.len() ==> !is_space(#[trigger] a[i]),
    ensures
        words_read(a).0.len() == 0,
        words_read(a).1 == a,
    decreases a.len(),
{
    if a.len() > 0 {
        let t = a.drop_last();
        assert forall|i: int| 0 <= i < t.len() implies !is_space(#[trigger] t[i]) by {
            assert(t[i] == a[i]);
        }
        lemma_one_word(t);
        assert(a =~= t.push(a.last()));
    } else {
        assert(a =~= Seq::empty());
    }
}

/// A newline ends a line, and a carriage return before it does not count; what is
/// after it begins anew. A last line need not be ended.
pub proof fn newlines_end_lines(a: Seq<char>, b: Seq<char>)
    requires
        !a.contains('\n'),
    ensures
        lines_of(a.push('\n') + b) == seq![without_cr(a)] + lines_of(b),
        lines_of(a) == (if a.len() > 0 {
            seq![a]
        } else {
            Seq::empty()
        }),
{
    lemma_one_piece(a, '\n');
    lemma_pieces_after(a, '\n', b);
    lemma_pieces_nonempty(b, '\n');
    let p = pieces(a.push('\n') + b, '\n');
    let q = pieces(b, '\n');
    assert(p == seq![a] + q);
    assert(p.last() == q.last());
    assert(lines_of(a.push('\n') + b) =~= seq![without_cr(a)] + lines_of(b)) by {
        let l = lines_of(a.push('\n') + b);
        let m = seq![without_cr(a)] + lines_of(b);
        assert(l.len() == m.len());
        assert forall|i: int| 0 <= i < l.len() implies l[i] == m[i] by {
            if i > 0 {
                assert(p[i] == q[i - 1]);
            }
        }
    }
    assert(pieces(a, '\n') == seq![a]);
    if a.len() > 0 {
        assert(lines_of(a) =~= seq![a]);
    } else {
        assert(lines_of(a) =~= Seq::empty());
    }
}

proof fn lemma_one_piece(a: Seq<char>, c: char)
    requires
        !a.contains(c),
    ensures
        pieces(a, c) == seq![a],
    decreases a.len(),
{
    if a.len() > 0 {
        let t = a.drop_last();
        assert(!t.contains(c)) by {
            if t.contains(c) {
                let i = choose|i: int| 0 <= i < t.len() && t[i] == c;
                assert(a[i] == c);
            }
        }
        assert(a.last() != c) by {
            if a.last() == c {
                assert(a.contains(c));
            }
        }
        lemma_one_piece(t, c);
        assert(pieces(a, c) =~= seq![a]) by {
            assert(t.push(a.last()) =~= a);
        }
    } else {
        assert(a =~= Seq::empty());
    }
}

pub proof fn lemma_pieces_after(a: Seq<char>, c: char, b: Seq<char>)
    requires
        !a.contains(c),
    ensures
        pieces(a.push(c) + b, c) == seq![a] + pieces(b, c),
    decreases b.len(),
{
    let s = a.push(c) + b;
    lemma_one_piece(a, c);
    lemma_pieces_nonempty(b, c);
    if b.len() == 0 {
        assert(s =~= a.push(c));
        assert(s.drop_last() =~= a);
        assert(pieces(s, c) =~= seq![a] + pieces(b, c));
    } else {
        lemma_pieces_after(a, c, b.drop_last());
        lemma_pieces_nonempty(b.drop_last(), c);
        assert(s.drop_last() =~= a.push(c) + b.drop_last());
        assert(s.last() == b.last());
        let q = pieces(b.drop_last(), c);
        let r = seq![a] + q;
        assert(r.last() == q.last());
        assert(r.drop_last() =~= seq![a] + q.drop_last());
        assert(pieces(s, c) =~= seq![a] + pieces(b, c));
    }
}

/// What stands after the last of two separators is what holds neither; without
/// either it is the whole text.
pub proof fn tail_holds_no_separator(s: Seq<char>, t: Seq<char>, a: char, b: char, c: char)
    requires
        c == a || c == b,
        !t.contains(a),
        !t.contains(b),
    ensures
        tail_after(s.push(c) + t, a, b) == t,
        tail_after(t, a, b) == t,
    decreases t.len(),
{
    if t.len() == 0 {
        assert(s.push(c) + t =~= s.push(c));
        assert(t =~= Seq::empty());
    } else {
        let u = t.drop_last();
        assert(!u.contains(a) && !u.contains(b)) by {
            if u.contains(a) {
                let i = choose|i: int| 0 <= i < u.len() && u[i] == a;
                assert(t[i] == a);
            }
            if u.contains(b) {
                let i = choose|i: int| 0 <= i < u.len() && u[i] == b;
                assert(t[i] == b);
            }
        }
        assert(t.contains(t.last())) by {
            assert(t[t.len() - 1] == t.last());
        }
        tail_holds_no_separator(s, u, a, b, c);
        let w = s.push(c) + t;
        assert(w.drop_last() =~= s.push(c) + u);
        assert(w.last() == t.last());
        assert(u.push(t.last()) =~= t);
    }
}

/// Lowering turns the letters from A to Z into those from a to z, one for one, and
/// leaves every other character; a second time it changes nothing.
pub proof fn lowering_is_one_for_one(s: Seq<char>, i: int)
    requires
        0 <= i < s.len(),
    ensures
        lower_text(s).len() == s.len(),
        65 <= s[i] as u32 <= 90 ==> lower_text(s)[i] as u32 == s[i] as u32 + 32,
        !(65 <= s[i] as u32 <= 90) ==> lower_text(s)[i] == s[i],
        lower_text(lower_text(s)) == lower_text(s),
{
    assert(lower_text(lower_text(s)) =~= lower_text(s)) by {
        assert forall|k: int| 0 <= k < s.len() implies lower_text(lower_text(s))[k] == lower_text(
            s,
        )[k] by {
            let c = s[k];
            if 65 <= c as u32 <= 90 {
                assert(lower_char(c) as u32 == c as u32 + 32);
            }
        }
    }
}

/// Lowering a text lowers its parts: what occurs in a text occurs in it lowered.
pub proof fn lowered_parts_occur(s: Seq<char>, p: Seq<char>)
    requires
        crate::text::occurs(s, p),
    ensures
        crate::text::occurs(lower_text(s), lower_text(p)),
{
    let i = choose|i: int| crate::text::occurs_at(s, p, i);
    assert(lower_text(s).subrange(i, i + p.len()) =~= lower_text(p)) by {
        assert forall|k: int| 0 <= k < p.len() implies lower_text(s)[i + k] == lower_text(p)[k] by {
            assert(s.subrange(i, i + p.len())[k] == s[i + k]);
        }
    }
    assert(crate::text::occurs_at(lower_text(s), lower_text(p), i));
}

/// A text with no white space at its ends, with white space put round it, is trimmed
/// to itself.
pub proof fn trimming_undoes_padding(a: Seq<char>, t: Seq<char>, b: Seq<char>)
    requires
        blank(a),
        blank(b),
        t.len() > 0 ==> !is_space(t[0]) && !is_space(t.last()),
    ensures
        trimmed(a + t + b) == t,
{
    if t.len() == 0 {
        let s = a + t + b;
        assert forall|i: int| 0 <= i < s.len() implies is_space(#[trigger] s[i]) by {
            if i < a.len() {
                assert(s[i] == a[i]);
            } else {
                assert(s[i] == b[i - a.len()]);
            }
        }
        trimming_takes_the_ends(s);
        assert(trimmed(s) =~= t);
    } else {
        assert(a + t + b =~= a + (t + b));
        lemma_padded_start(a, t + b);
        lemma_padded_end(t, b);
    }
}

proof fn lemma_padded_start(a: Seq<char>, t: Seq<char>)
    requires
        blank(a),
        t.len() > 0,
        !is_space(t[0]),
    ensures
        trim_start(a + t) == t,
    decreases a.len(),
{
    let s = a + t;
    if a.len() == 0 {
        assert(s =~= t);
    } else {
        assert(s[0] == a[0]);
        assert(s.drop_first() =~= a.drop_first() + t);
        assert forall|i: int| 0 <= i < a.drop_first().len() implies is_space(
            #[trigger] a.drop_first()[i],
        ) by {
            assert(a.drop_first()[i] == a[i + 1]);
        }
        lemma_padded_start(a.drop_first(), t);
    }
}

proof fn lemma_padded_end(t: Seq<char>, b: Seq<char>)
    requires
        blank(b),
        t.len() > 0,
        !is_space(t.last()),
    ensures
        trim_end(t + b) == t,
    decreases b.len(),
{
    let s = t + b;
    if b.len() == 0 {
        assert(s =~= t);
    } else {
        assert(s.last() == b[b.len() - 1]);
        assert(s.drop_last() =~= t + b.drop_last());
        assert forall|i: int| 0 <= i < b.drop_last().len() implies is_space(
            #[trigger] b.drop_last()[i],
        ) by {
            assert(b.drop_last()[i] == b[i]);
        }
        lemma_padded_end(t, b.drop_last());
    }
}

/// Texts without the separator, with one between each two, are parted into those texts
/// again.
pub proof fn three_pieces(a: Seq<char>, b: Seq<char>, d: Seq<char>, c: char)
    requires
        !a.contains(c),
        !b.contains(c),
        !d.contains(c),
    ensures
        pieces(a.push(c) + (b.push(c) + d), c) == seq![a, b, d],
        pieces(a.push(c) + b, c) == seq![a, b],
{
    lemma_pieces_after(a, c, b.push(c) + d);
    lemma_pieces_after(b, c, d);
    lemma_pieces_after(a, c, b);
    lemma_one_piece(d, c);
    lemma_one_piece(b, c);
    assert(seq![a] + (seq![b] + seq![d]) =~= seq![a, b, d]);
    assert(seq![a] + seq![b] =~= seq![a, b]);
}

/// White space is the blank, the five controls from tab to carriage return, the next line,
/// and the spaces and separators of Unicode.
pub proof fn white_space_is_these(c: char)
    ensures
        is_space(c) <==> seq![
            0x9u32, 0xA, 0xB, 0xC, 0xD, 0x20, 0x85, 0xA0, 0x1680, 0x2000, 0x2001, 0x2002, 0x2003,
            0x2004, 0x2005, 0x2006, 0x2007, 0x2008, 0x2009, 0x200A, 0x2028, 0x2029, 0x202F, 0x205F,
            0x3000,
        ].contains(c as u32),
{
    let all = seq![
        0x9u32, 0xA, 0xB, 0xC, 0xD, 0x20, 0x85, 0xA0, 0x1680, 0x2000, 0x2001, 0x2002, 0x2003,
        0x2004, 0x2005, 0x2006, 0x2007, 0x2008, 0x2009, 0x200A, 0x2028, 0x2029, 0x202F, 0x205F,
        0x3000,
    ];
    let u = c as u32;
    if is_space(c) {
        assert(all[0] == u || all[1] == u || all[2] == u || all[3] == u || all[4] == u || all[5] == u
            || all[6] == u || all[7] == u || all[8] == u || all[9] == u || all[10] == u || all[11]
            == u || all[12] == u || all[13] == u || all[14] == u || all[15] == u || all[16] == u
            || all[17] == u || all[18] == u || all[19] == u || all[20] == u || all[21] == u
            || all[22] == u || all[23] == u || all[24] == u);
    }
}

/// One carriage return at the end of a line does not count, and only one.
pub proof fn one_carriage_return_is_dropped(s: Seq<char>)
    ensures
        without_cr(s.push('\r')) == s,
        s.len() == 0 || s.last() != '\r' ==> without_cr(s) == s,
{
    assert(s.push('\r').drop_last() =~= s);
}

/// Texts are joined in order, with the separator between each two and nowhere else.
pub proof fn separator_stands_between(parts: Seq<Seq<char>>, x: Seq<char>, sep: Seq<char>)
    ensures
        joined(Seq::empty(), sep) == Seq::<char>::empty(),
        joined(seq![x], sep) == x,
        parts.len() > 0 ==> joined(parts.push(x), sep) == joined(parts, sep) + sep + x,
{
    assert(parts.push(x).drop_last() =~= parts);
}

} // verus!
