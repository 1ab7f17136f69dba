//! Numbers written in decimal, and read back.

use vstd::prelude::*;

use crate::text::{chars_of, string_of};

verus! {

// ── writing ────────────────────────────────────────────────────────────────

/// The decimal digit of value `d`.
pub open spec fn digit_char(d: int) -> char {
    if d == 0 {
        '0'
    } else if d == 1 {
        '1'
    } else if d == 2 {
        '2'
    } else if d == 3 {
        '3'
    } else if d == 4 {
        '4'
    } else if d == 5 {
        '5'
    } else if d == 6 {
        '6'
    } else if d == 7 {
        '7'
    } else if d == 8 {
        '8'
    } else {
        '9'
    }
}

/// The decimal digit of value `d`.
fn digit(d: u8) -> (c: char)
    requires
        d < 10,
    ensures
        c == digit_char(d as int),
{
    match d {
        0 => '0',
        1 => '1',
        2 => '2',
        3 => '3',
        4 => '4',
        5 => '5',
        6 => '6',
        7 => '7',
        8 => '8',
        _ => '9',
    }
}

/// `n` in decimal, without leading zeros.
pub open spec fn decimal(n: nat) -> Seq<char>
    decreases n,
{
    if n < 10 {
        seq![digit_char(n as int)]
    } else {
        decimal(n / 10).push(digit_char((n % 10) as int))
    }
}

/// `n` in decimal, with a minus sign where it is negative.
pub open spec fn signed_decimal(n: int) -> Seq<char> {
    if n < 0 {
        seq!['-'] + decimal((-n) as nat)
    } else {
        decimal(n as nat)
    }
}

/// `n` in decimal.
pub fn write_u128(n: u128) -> (s: String)
    ensures
        s@ == decimal(n as nat),
    decreases n,
{
    if n < 10 {
        let mut s: String = String::new();
        s.push(digit(n as u8));
        proof {
            assert(s@ =~= decimal(n as nat));
        }
        s
    } else {
        let mut s: String = write_u128(n / 10);
        s.push(digit((n % 10) as u8));
        s
    }
}

/// `n` in decimal.
pub fn write_u64(n: u64) -> (s: String)
    ensures
        s@ == decimal(n as nat),
{
    write_u128(n as u128)
}

/// `n` in decimal.
pub fn write_i64(n: i64) -> (s: String)
    ensures
        s@ == signed_decimal(n as int),
{
    if n < 0 {
        let mut s: String = String::new();
        s.push('-');
        let m: u128 = (-(n as i128)) as u128;
        s.append(write_u128(m).as_str());
        proof {
            assert(s@ =~= seq!['-'] + decimal(m as nat));
        }
        s
    } else {
        write_u128(n as u128)
    }
}

/// `s` with zeros put before it up to `width` characters.
pub open spec fn zero_padded(s: Seq<char>, width: nat) -> Seq<char>
    decreases width - s.len(),
{
    if s.len() >= width {
        s
    } else {
        zero_padded(seq!['0'] + s, width)
    }
}

/// `n` in decimal, with zeros put before it up to `width` characters.
pub fn write_padded(n: u64, width: usize) -> (s: String)
    ensures
        s@ == zero_padded(decimal(n as nat), width as nat),
{
    let mut s: String = write_u64(n);
    let mut len: usize = chars_of(s.as_str()).len();
    while len < width
        invariant
            len == s@.len(),
            zero_padded(s@, width as nat) == zero_padded(decimal(n as nat), width as nat),
        decreases width - len,
    {
        let mut t: String = String::new();
        t.push('0');
        t.append(s.as_str());
        proof {
            assert(t@ =~= seq!['0'] + s@);
        }
        s = t;
        len = len + 1;
    }
    s
}

/// `s` without the zeros at its end.
pub open spec fn without_trailing_zeros(s: Seq<char>) -> Seq<char> {
    crate::scan::without_trailing(s, '0')
}

/// A number of nanoseconds in seconds: the whole part, then, unless the rest is
/// zero, a point and the rest without trailing zeros.
pub open spec fn seconds_text(nanos: nat) -> Seq<char> {
    let whole = decimal(nanos / 1_000_000_000);
    let rest = nanos % 1_000_000_000;
    if rest == 0 {
        whole
    } else {
        whole + seq!['.'] + without_trailing_zeros(zero_padded(decimal(rest), 9))
    }
}

/// A number of nanoseconds in seconds.
pub fn write_seconds(nanos: u128) -> (s: String)
    ensures
        s@ == seconds_text(nanos as nat),
{
    let mut s: String = write_u128(nanos / 1_000_000_000);
    let rest: u64 = (nanos % 1_000_000_000) as u64;
    if rest != 0 {
        s.push('.');
        let frac = write_padded(rest, 9);
        let short = crate::scan::trim_end_char(frac.as_str(), '0');
        let ghost before = s@;
        s.append(short.as_str());
        proof {
            assert(before =~= decimal((nanos / 1_000_000_000) as nat) + seq!['.']);
        }
    }
    s
}

// ── reading ────────────────────────────────────────────────────────────────

/// `c` is a decimal digit.
pub open spec fn is_digit(c: char) -> bool {
    48 <= c as u32 <= 57
}

/// Every character of `s` is a decimal digit.
pub open spec fn all_digits(s: Seq<char>) -> bool {
    forall|i: int| 0 <= i < s.len() ==> is_digit(#[trigger] s[i])
}

/// The number that the digits of `s` write.
pub open spec fn digits_value(s: Seq<char>) -> nat
    decreases s.len(),
{
    if s.len() == 0 {
        0
    } else {
        digits_value(s.drop_last()) * 10 + (s.last() as u32 - 48) as nat
    }
}

/// The number that `s` writes with digits, and at most a plus sign before them,
/// where it is at most `max`.
pub open spec fn unsigned_value(s: Seq<char>, max: nat) -> Option<nat> {
    let d = if s.len() > 0 && s[0] == '+' {
        s.skip(1)
    } else {
        s
    };
    if d.len() > 0 && all_digits(d) && digits_value(d) <= max {
        Some(digits_value(d))
    } else {
        None
    }
}

/// The number that `s` writes with digits, and at most one sign before them,
/// where it is in the range from `min` to `max`.
pub open spec fn signed_value(s: Seq<char>, min: int, max: int) -> Option<int> {
    if s.len() > 0 && s[0] == '-' {
        let d = s.skip(1);
        if d.len() > 0 && all_digits(d) && -(digits_value(d) as int) >= min {
            Some(-(digits_value(d) as int))
        } else {
            None
        }
    } else {
        match unsigned_value(s, max as nat) {
            Some(n) => Some(n as int),
            None => None,
        }
    }
}

/// More digits never write a smaller number.
pub proof fn lemma_digits_grow(s: Seq<char>, i: int)
    requires
        0 <= i <= s.len(),
        all_digits(s),
    ensures
        digits_value(s.take(i)) <= digits_value(s),
    decreases s.len(),
{
    if i == s.len() {
        assert(s.take(i) =~= s);
    } else {
        assert(s.drop_last().take(i) =~= s.take(i));
        lemma_digits_grow(s.drop_last(), i);
    }
}

/// Whether `c` is a decimal digit.
pub fn digit_at(c: char) -> (r: bool)
    ensures
        r == is_digit(c),
{
    let u: u32 = c as u32;
    48 <= u && u <= 57
}

/// The number that the digits `cs[from..]` write, where there is at least one,
/// there is nothing else, and the number is at most `max`.
fn read_digits(cs: &Vec<char>, from: usize, max: u64) -> (r: Option<u64>)
    requires
        from <= cs.len(),
    ensures
        ({
            let d = cs@.skip(from as int);
            match r {
                Some(n) => d.len() > 0 && all_digits(d) && digits_value(d) == n && n <= max,
                None => !(d.len() > 0 && all_digits(d) && digits_value(d) <= max),
            }
        }),
{
    let ghost d = cs@.skip(from as int);
    if from == cs.len() {
        return None;
    }
    let mut n: u64 = 0;
    let mut i: usize = from;
    proof {
        assert(d.take(0) =~= Seq::empty());
    }
    while i < cs.len()
        invariant
            from <= i <= cs.len(),
            d == cs@.skip(from as int),
            n <= max,
            forall|j: int| 0 <= j < i - from ==> is_digit(#[trigger] d[j]),
            digits_value(d.take(i - from)) == n,
        decreases cs.len() - i,
    {
        let c: char = cs[i];
        proof {
            assert(d[i - from] == c);
            assert(d.take(i - from + 1).drop_last() =~= d.take(i - from));
            assert(d.take(i - from + 1).last() == c);
        }
        if !digit_at(c) {
            return None;
        }
        let v: u128 = (n as u128) * 10 + (c as u32 - 48) as u128;
        if v > max as u128 {
            proof {
                if all_digits(d) {
                    lemma_digits_grow(d, i - from + 1);
                }
            }
            return None;
        }
        n = v as u64;
        i = i + 1;
    }
    proof {
        assert(d.take(d.len() as int) =~= d);
    }
    Some(n)
}

/// The number at most `max` that `s` writes.
pub fn read_unsigned(s: &str, max: u64) -> (r: Option<u64>)
    ensures
        match r {
            Some(n) => unsigned_value(s@, max as nat) == Some(n as nat),
            None => unsigned_value(s@, max as nat) is None,
        },
{
    let cs = chars_of(s);
    if cs.len() > 0 && cs[0] == '+' {
        read_digits(&cs, 1, max)
    } else {
        proof {
            assert(s@.skip(0) =~= s@);
        }
        read_digits(&cs, 0, max)
    }
}

/// The number that `s` writes, as `u64`.
pub fn read_u64(s: &str) -> (r: Option<u64>)
    ensures
        match r {
            Some(n) => unsigned_value(s@, u64::MAX as nat) == Some(n as nat),
            None => unsigned_value(s@, u64::MAX as nat) is None,
        },
{
    read_unsigned(s, u64::MAX)
}

/// The number that `s` writes, as `i32`.
pub fn read_i32(s: &str) -> (r: Option<i32>)
    ensures
        match r {
            Some(n) => signed_value(s@, i32::MIN as int, i32::MAX as int) == Some(n as int),
            None => signed_value(s@, i32::MIN as int, i32::MAX as int) is None,
        },
{
    let cs = chars_of(s);
    if cs.len() > 0 && cs[0] == '-' {
        match read_digits(&cs, 1, 2147483648) {
            Some(n) => Some((-(n as i64)) as i32),
            None => None,
        }
    } else {
        match read_unsigned(s, 2147483647) {
            Some(n) => Some(n as i32),
            None => None,
        }
    }
}

/// The longest run of digits that `s` begins with.
pub open spec fn leading_digits(s: Seq<char>) -> Seq<char>
    decreases s.len(),
{
    if s.len() > 0 && is_digit(s[0]) {
        seq![s[0]] + leading_digits(s.drop_first())
    } else {
        Seq::empty()
    }
}

/// The longest run of digits in `cs` from `from` on.
pub fn digits_from(cs: &Vec<char>, from: usize) -> (r: String)
    requires
        from <= cs.len(),
    ensures
        r@ == leading_digits(cs@.skip(from as int)),
{
    let ghost d = cs@.skip(from as int);
    let mut i: usize = from;
    proof {
        assert(d.take(0) + leading_digits(d.skip(0)) =~= leading_digits(d)) by {
            assert(d.skip(0) =~= d);
        }
    }
    while i < cs.len() && digit_at(cs[i])
        invariant
            from <= i <= cs.len(),
            d == cs@.skip(from as int),
            leading_digits(d) == d.take(i - from) + leading_digits(d.skip(i - from)),
        decreases cs.len() - i,
    {
        proof {
            let k = i - from;
            let t = d.skip(k);
            assert(t[0] == cs@[i as int]);
            assert(t.drop_first() =~= d.skip(k + 1));
            assert(d.take(k) + leading_digits(t) =~= d.take(k + 1) + leading_digits(
                d.skip(k + 1),
            ));
        }
        i = i + 1;
    }
    proof {
        assert(leading_digits(d.skip(i - from)) =~= Seq::empty());
        assert(leading_digits(d) =~= cs@.subrange(from as int, i as int));
    }
    string_of(cs, from, i)
}

/// A number written in decimal reads back as itself.
pub proof fn decimal_reads_back(n: nat, max: nat)
    requires
        n <= max,
    ensures
        unsigned_value(decimal(n), max) == Some(n),
{
    lemma_decimal_digits(n);
    assert(decimal(n)[0] != '+') by {
        assert(is_digit(decimal(n)[0]));
    }
}

pub proof fn lemma_decimal_digits(n: nat)
    ensures
        decimal(n).len() > 0,
        all_digits(decimal(n)),
        digits_value(decimal(n)) == n,
    decreases n,
{
    let s = decimal(n);
    if n < 10 {
        assert(s.drop_last() =~= Seq::empty());
        assert(digits_value(s.drop_last()) == 0);
    } else {
        lemma_decimal_digits(n / 10);
        assert(s.drop_last() =~= decimal(n / 10));
        assert forall|i: int| 0 <= i < s.len() implies is_digit(#[trigger] s[i]) by {
            if i < s.len() - 1 {
                assert(s[i] == decimal(n / 10)[i]);
            }
        }
    }
}

/// The leading digits of a text are all of them: what follows does not begin with
/// one.
pub proof fn leading_digits_are_all(d: Seq<char>, rest: Seq<char>)
    requires
        all_digits(d),
        rest.len() == 0 || !is_digit(rest[0]),
    ensures
        leading_digits(d + rest) == d,
    decreases d.len(),
{
    if d.len() == 0 {
        assert(d + rest =~= rest);
        assert(d =~= Seq::empty());
    } else {
        let s = d + rest;
        assert(s.drop_first() =~= d.drop_first() + rest);
        assert forall|i: int| 0 <= i < d.drop_first().len() implies is_digit(
            #[trigger] d.drop_first()[i],
        ) by {
            assert(d.drop_first()[i] == d[i + 1]);
        }
        leading_digits_are_all(d.drop_first(), rest);
        assert(seq![d[0]] + d.drop_first() =~= d);
    }
}

/// A number written with its sign reads back as itself.
pub proof fn signed_decimal_reads_back(n: int, min: int, max: int)
    requires
        min <= n <= max,
        min <= 0 <= max,
    ensures
        signed_value(signed_decimal(n), min, max) == Some(n),
{
    if n < 0 {
        let d = decimal((-n) as nat);
        lemma_decimal_digits((-n) as nat);
        assert(signed_decimal(n).skip(1) =~= d);
    } else {
        decimal_reads_back(n as nat, max as nat);
        lemma_decimal_digits(n as nat);
        assert(decimal(n as nat)[0] != '-') by {
            assert(is_digit(decimal(n as nat)[0]));
        }
    }
}

/// A number with zeros put before it is as long as it was to be, or as long as it is
/// without, and reads back as itself.
pub proof fn padded_number_reads_back(n: nat, width: nat, max: nat)
    requires
        n <= max,
    ensures
        ({
            let s = zero_padded(decimal(n), width);
            &&& unsigned_value(s, max) == Some(n)
            &&& s.len() == (if decimal(n).len() > width {
                decimal(n).len()
            } else {
                width
            })
        }),
{
    lemma_decimal_digits(n);
    lemma_padded(decimal(n), width);
    let s = zero_padded(decimal(n), width);
    assert(is_digit(s[0]));
}

proof fn lemma_padded(s: Seq<char>, width: nat)
    requires
        all_digits(s),
        s.len() > 0,
    ensures
        all_digits(zero_padded(s, width)),
        digits_value(zero_padded(s, width)) == digits_value(s),
        zero_padded(s, width).len() == (if s.len() > width {
            s.len()
        } else {
            width
        }),
    decreases width - s.len(),
{
    if s.len() < width {
        let t = seq!['0'] + s;
        assert forall|i: int| 0 <= i < t.len() implies is_digit(#[trigger] t[i]) by {
            if i > 0 {
                assert(t[i] == s[i - 1]);
            }
        }
        lemma_zero_before(s);
        lemma_padded(t, width);
    }
}

proof fn lemma_zero_before(s: Seq<char>)
    ensures
        digits_value(seq!['0'] + s) == digits_value(s),
    decreases s.len(),
{
    let t = seq!['0'] + s;
    if s.len() == 0 {
        assert(t.drop_last() =~= Seq::empty());
        assert(digits_value(t.drop_last()) == 0);
    } else {
        lemma_zero_before(s.drop_last());
        assert(t.drop_last() =~= seq!['0'] + s.drop_last());
        assert(t.last() == s.last());
    }
}

/// A number below a power of ten has no more digits than the power has zeros.
pub proof fn short_numbers_have_few_digits(n: nat)
    ensures
        n < 100 ==> decimal(n).len() <= 2,
        n < 10000 ==> decimal(n).len() <= 4,
{
    reveal_with_fuel(decimal, 5);
}

/// Nanoseconds are written as seconds without loss: whole seconds as they are; else a
/// point and what, with zeros put after it up to nine digits, is the rest.
pub proof fn seconds_are_written_without_loss(whole: nat, rest: nat)
    requires
        rest < 1_000_000_000,
    ensures
        seconds_text(whole * 1_000_000_000) == decimal(whole),
        rest > 0 ==> ({
            let f = crate::scan::without_trailing(zero_padded(decimal(rest), 9), '0');
            &&& seconds_text(whole * 1_000_000_000 + rest) == decimal(whole) + seq!['.'] + f
            &&& unsigned_value(zero_padded(decimal(rest), 9), u64::MAX as nat) == Some(rest)
        }),
{
    assert((whole * 1_000_000_000) / 1_000_000_000 == whole && (whole * 1_000_000_000)
        % 1_000_000_000 == 0) by (nonlinear_arith);
    assert((whole * 1_000_000_000 + rest) / 1_000_000_000 == whole && (whole * 1_000_000_000 + rest)
        % 1_000_000_000 == rest) by (nonlinear_arith)
        requires
            rest < 1_000_000_000,
    ;
    padded_number_reads_back(rest, 9, u64::MAX as nat);
}

/// A number is read from digits alone, with at most a plus sign before them, up to the
/// greatest that is wanted; a sign alone, or nothing, is no number.
pub proof fn only_digits_are_a_number(s: Seq<char>, d: Seq<char>, max: nat)
    ensures
        d.len() > 0 && all_digits(d) ==> unsigned_value(seq!['+'] + d, max) == unsigned_value(d, max),
        d.len() > 0 && all_digits(d) ==> (unsigned_value(d, max) is Some <==> digits_value(d)
            <= max),
        s.len() > 1 && !all_digits(s.skip(1)) ==> unsigned_value(s, max) is None,
        s.len() == 0 ==> unsigned_value(s, max) is None,
        unsigned_value(seq!['+'], max) is None,
        s.len() > 0 && s[0] != '+' && !is_digit(s[0]) ==> unsigned_value(s, max) is None,
{
    assert((seq!['+'] + d).skip(1) =~= d);
    if d.len() > 0 && all_digits(d) {
        assert(is_digit(d[0]));
    }
    if s.len() > 1 && !all_digits(s.skip(1)) {
        let k = choose|k: int| 0 <= k < s.skip(1).len() && !is_digit(#[trigger] s.skip(1)[k]);
        assert(s[k + 1] == s.skip(1)[k]);
    }
    assert(seq!['+'].skip(1) =~= Seq::empty());
}

/// Each digit counts ten times what the next does.
pub proof fn digits_count_by_tens(s: Seq<char>, c: char)
    requires
        is_digit(c),
    ensures
        digits_value(s.push(c)) == digits_value(s) * 10 + (c as u32 - 48) as nat,
        digits_value(Seq::empty()) == 0,
        is_digit(c) <==> 48 <= c as u32 <= 57,
{
    assert(s.push(c).drop_last() =~= s);
}

} // verus!
