//! Splitting text on a separator, reading decimal integers the way
//! `str::parse` does, and writing them the way `format!` does.
use vstd::prelude::*;

use crate::text::{digit_val, is_ascii_digit, is_digit, lemma_lex_concat, lemma_lex_single, lex_lt, push_char};

verus! {

// ---------------------------------------------------------------------------
// Splitting
// ---------------------------------------------------------------------------

/// `str::split(c)`: the pieces of `s` between occurrences of `c`; an empty
/// string gives one empty piece.
pub open spec fn split_on(s: Seq<char>, c: char) -> Seq<Seq<char>>
    decreases s.len(),
{
    if s.len() == 0 {
        seq![seq![]]
    } else {
        let r = split_on(s.drop_last(), c);
        if s.last() == c {
            r.push(seq![])
        } else {
            r.update(r.len() - 1, r.last().push(s.last()))
        }
    }
}

pub proof fn lemma_split_nonempty(s: Seq<char>, c: char)
    ensures
        split_on(s, c).len() >= 1,
    decreases s.len(),
{
    if s.len() > 0 {
        lemma_split_nonempty(s.drop_last(), c);
    }
}

/// Text without the separator is one piece.
pub proof fn lemma_split_without_separator(s: Seq<char>, c: char)
    requires
        forall|i: int| 0 <= i < s.len() ==> s[i] != c,
    ensures
        split_on(s, c) == seq![s],
    decreases s.len(),
{
    if s.len() == 0 {
        assert(s =~= Seq::<char>::empty());
    } else {
        assert(s[s.len() - 1] != c);
        assert forall|i: int| 0 <= i < s.drop_last().len() implies s.drop_last()[i] != c by {
            assert(s.drop_last()[i] == s[i]);
        }
        lemma_split_without_separator(s.drop_last(), c);
        assert(s.drop_last().push(s.last()) =~= s);
        assert(seq![s.drop_last()].update(0, s.drop_last().push(s.last())) =~= seq![s]);
    }
}

/// Splitting at a separator splits each side on its own.
pub proof fn lemma_split_concat(x: Seq<char>, c: char, y: Seq<char>)
    ensures
        split_on(x + seq![c] + y, c) == split_on(x, c) + split_on(y, c),
    decreases y.len(),
{
    let z = x + seq![c] + y;
    if y.len() == 0 {
        assert(z.drop_last() =~= x);
        assert(z.last() == c);
        assert(split_on(y, c) == seq![Seq::<char>::empty()]);
        assert(split_on(x, c).push(seq![]) =~= split_on(x, c) + seq![Seq::<char>::empty()]);
    } else {
        let y1 = y.drop_last();
        let e = y.last();
        lemma_split_concat(x, c, y1);
        lemma_split_nonempty(y1, c);
        assert(z.drop_last() =~= x + seq![c] + y1);
        assert(z.last() == e);
        let r = split_on(x, c) + split_on(y1, c);
        let ry = split_on(y1, c);
        if e == c {
            assert(r.push(seq![]) =~= split_on(x, c) + ry.push(seq![]));
        } else {
            assert(r.last() == ry.last());
            assert(r.update(r.len() - 1, r.last().push(e)) =~= split_on(x, c) + ry.update(
                ry.len() - 1,
                ry.last().push(e),
            ));
        }
    }
}

pub open spec fn views(p: Seq<Vec<char>>) -> Seq<Seq<char>> {
    p.map_values(|v: Vec<char>| v@)
}

/// The pieces of `v` between occurrences of `c`.
pub fn split_chars(v: &Vec<char>, c: char) -> (r: Vec<Vec<char>>)
    ensures
        views(r@) == split_on(v@, c),
{
    let mut parts: Vec<Vec<char>> = Vec::new();
    let mut cur: Vec<char> = Vec::new();
    let mut i: usize = 0;
    assert(v@.take(0) =~= seq![]);
    assert(views(parts@).push(cur@) =~= seq![seq![]]);
    while i < v.len()
        invariant
            i <= v.len(),
            split_on(v@.take(i as int), c) == views(parts@).push(cur@),
        decreases v.len() - i,
    {
        let ch = v[i];
        let ghost before = views(parts@).push(cur@);
        assert(v@.take(i + 1).drop_last() =~= v@.take(i as int));
        assert(v@.take(i + 1).last() == ch);
        if ch == c {
            let done = cur;
            parts.push(done);
            cur = Vec::new();
            assert(views(parts@).push(cur@) =~= before.push(seq![]));
        } else {
            cur.push(ch);
            assert(views(parts@).push(cur@) =~= before.update(before.len() - 1, before.last().push(ch)));
        }
        i += 1;
    }
    assert(v@.take(v.len() as int) =~= v@);
    parts.push(cur);
    assert(views(parts@) =~= split_on(v@, c));
    parts
}

// ---------------------------------------------------------------------------
// Reading integers
// ---------------------------------------------------------------------------

pub open spec fn all_digits(s: Seq<char>) -> bool {
    forall|i: int| 0 <= i < s.len() ==> is_digit(#[trigger] s[i])
}

/// The value of a string of decimal digits.
pub open spec fn digits_value(s: Seq<char>) -> int
    decreases s.len(),
{
    if s.len() == 0 {
        0
    } else {
        digits_value(s.drop_last()) * 10 + digit_val(s.last())
    }
}

/// Two digit strings of the same length are in dictionary order exactly
/// when their values are in numeric order, and equal exactly when their
/// values are.
pub proof fn lemma_digits_lex(x: Seq<char>, y: Seq<char>)
    requires
        x.len() == y.len(),
        all_digits(x),
        all_digits(y),
    ensures
        lex_lt(x, y) == (digits_value(x) < digits_value(y)),
        (x == y) == (digits_value(x) == digits_value(y)),
    decreases x.len(),
{
    if x.len() == 0 {
        assert(x =~= y);
    } else {
        let xs = x.drop_last();
        let ys = y.drop_last();
        let c = x.last();
        let d = y.last();
        assert(all_digits(xs)) by {
            assert forall|i: int| 0 <= i < xs.len() implies is_digit(#[trigger] xs[i]) by {
                assert(xs[i] == x[i]);
            }
        }
        assert(all_digits(ys)) by {
            assert forall|i: int| 0 <= i < ys.len() implies is_digit(#[trigger] ys[i]) by {
                assert(ys[i] == y[i]);
            }
        }
        lemma_digits_lex(xs, ys);
        assert(x =~= xs + seq![c]);
        assert(y =~= ys + seq![d]);
        lemma_lex_concat(xs, seq![c], ys, seq![d]);
        lemma_lex_single(c, d);
        assert(is_digit(c) && is_digit(d));
        if x == y {
            assert(xs =~= ys);
        }
        if xs == ys && c == d {
            assert(x =~= y);
        }
    }
}

/// What `str::parse` gives for an unsigned type whose largest value is
/// `max`: an optional `+`, then one or more ASCII digits, within range.
pub open spec fn parse_unsigned(s: Seq<char>, max: int) -> Option<int> {
    let b = if s.len() > 0 && s[0] == '+' {
        s.drop_first()
    } else {
        s
    };
    if b.len() > 0 && all_digits(b) && digits_value(b) <= max {
        Some(digits_value(b))
    } else {
        None
    }
}

/// What `str::parse` gives for a signed type with range `min..=max`: an
/// optional sign, then one or more ASCII digits, within range.
pub open spec fn parse_signed(s: Seq<char>, min: int, max: int) -> Option<int> {
    if s.len() > 0 && s[0] == '-' {
        let b = s.drop_first();
        if b.len() > 0 && all_digits(b) && -digits_value(b) >= min {
            Some(-digits_value(b))
        } else {
            None
        }
    } else {
        parse_unsigned(s, max)
    }
}

pub proof fn lemma_digits_value_nonneg(s: Seq<char>)
    requires
        all_digits(s),
    ensures
        digits_value(s) >= 0,
    decreases s.len(),
{
    if s.len() > 0 {
        assert(all_digits(s.drop_last()));
        lemma_digits_value_nonneg(s.drop_last());
        assert(is_digit(s[s.len() - 1]));
    }
}

/// A longer digit string is worth at least as much as its prefix.
pub proof fn lemma_digits_value_prefix(s: Seq<char>, k: int)
    requires
        all_digits(s),
        0 <= k <= s.len(),
    ensures
        digits_value(s.take(k)) <= digits_value(s),
    decreases s.len() - k,
{
    if k < s.len() {
        lemma_digits_value_prefix(s, k + 1);
        let t = s.take(k + 1);
        assert(t.drop_last() =~= s.take(k));
        assert(all_digits(s.take(k)));
        lemma_digits_value_nonneg(s.take(k));
        assert(is_digit(t.last()));
    } else {
        assert(s.take(k) =~= s);
    }
}

/// Reads the digits `v[from..]` as a number no greater than `max`.
fn digits_upto(v: &Vec<char>, from: usize, max: u64) -> (r: Option<u64>)
    requires
        from <= v.len(),
    ensures
        ({
            let b = v@.subrange(from as int, v.len() as int);
            match r {
                Some(n) => all_digits(b) && digits_value(b) <= max && n == digits_value(b),
                None => !(all_digits(b) && digits_value(b) <= max),
            }
        }),
{
    let ghost b = v@.subrange(from as int, v.len() as int);
    let mut acc: u64 = 0;
    let mut i = from;
    assert(b.take(0) =~= seq![]);
    while i < v.len()
        invariant
            from <= i <= v.len(),
            b == v@.subrange(from as int, v.len() as int),
            all_digits(b.take(i - from)),
            acc == digits_value(b.take(i - from)),
            acc <= max,
        decreases v.len() - i,
    {
        let c = v[i];
        let t = Ghost(b.take(i - from + 1));
        assert(t@.drop_last() =~= b.take(i - from));
        assert(t@.last() == c);
        if !is_ascii_digit(c) {
            assert(b[i - from] == c);
            return None;
        }
        let d = (c as u32 - '0' as u32) as u64;
        assert(d == digit_val(c));
        if d > max || acc > (max - d) / 10 {
            proof {
                assert(acc * 10 + d > max) by (nonlinear_arith)
                    requires
                        d > max || acc > (max - d) / 10,
                        acc >= 0,
                        d <= 9,
                ;
                if all_digits(b) {
                    lemma_digits_value_prefix(b, i - from + 1);
                }
            }
            return None;
        }
        assert(acc * 10 + d <= max) by (nonlinear_arith)
            requires
                acc <= (max - d) / 10,
                d <= max,
        ;
        acc = acc * 10 + d;
        i += 1;
        assert(all_digits(b.take(i - from))) by {
            assert forall|j: int| 0 <= j < i - from implies is_digit(#[trigger] b.take(i - from)[j]) by {
                if j < i - from - 1 {
                    assert(b.take(i - from)[j] == b.take(i - from - 1)[j]);
                }
            }
        }
    }
    assert(b.take(i - from) =~= b);
    Some(acc)
}

/// `str::parse` for an unsigned type whose largest value is `max`.
pub fn parse_unsigned_chars(v: &Vec<char>, max: u64) -> (r: Option<u64>)
    ensures
        match parse_unsigned(v@, max as int) {
            Some(n) => r matches Some(m) && m == n,
            None => r is None,
        },
{
    let from: usize = if v.len() > 0 && v[0] == '+' {
        1
    } else {
        0
    };
    if from >= v.len() {
        return None;
    }
    let r = digits_upto(v, from, max);
    proof {
        if from == 1 {
            assert(v@.drop_first() =~= v@.subrange(1, v.len() as int));
        } else {
            assert(v@ =~= v@.subrange(0, v.len() as int));
        }
    }
    r
}

/// `str::parse::<i64>`.
pub fn parse_i64_chars(v: &Vec<char>) -> (r: Option<i64>)
    ensures
        match parse_signed(v@, i64::MIN as int, i64::MAX as int) {
            Some(n) => r matches Some(m) && m == n,
            None => r is None,
        },
{
    if v.len() > 0 && v[0] == '-' {
        if v.len() == 1 {
            return None;
        }
        let r = digits_upto(v, 1, 9223372036854775808u64);
        assert(v@.drop_first() =~= v@.subrange(1, v.len() as int));
        match r {
            Some(n) => {
                if n == 9223372036854775808u64 {
                    Some(i64::MIN)
                } else {
                    Some(-(n as i64))
                }
            },
            None => None,
        }
    } else {
        match parse_unsigned_chars(v, 9223372036854775807u64) {
            Some(n) => Some(n as i64),
            None => None,
        }
    }
}

// ---------------------------------------------------------------------------
// Writing integers
// ---------------------------------------------------------------------------

pub open spec fn digit_char(d: int) -> char {
    (d + '0' as int) as char
}

/// The decimal digits of `n`, most significant first.
pub open spec fn decimal(n: nat) -> Seq<char>
    decreases n,
{
    if n < 10 {
        seq![digit_char(n as int)]
    } else {
        decimal(n / 10).push(digit_char((n % 10) as int))
    }
}

/// `s` left-padded with zeros to width `w`.
pub open spec fn zero_pad(s: Seq<char>, w: int) -> Seq<char> {
    if s.len() < w {
        Seq::new((w - s.len()) as nat, |i: int| '0') + s
    } else {
        s
    }
}

/// `format!("{:0w$}", n)`: a minus sign for negatives, then the digits,
/// zero-padded so the whole is at least `w` wide.
pub open spec fn fmt_int(n: int, w: int) -> Seq<char> {
    if n < 0 {
        seq!['-'] + zero_pad(decimal((-n) as nat), w - 1)
    } else {
        zero_pad(decimal(n as nat), w)
    }
}

fn digit_to_char(d: u64) -> (c: char)
    requires
        d < 10,
    ensures
        c == digit_char(d as int),
{
    let b: u8 = (d as u8) + 48;
    b as char
}

/// Appends the decimal digits of `n`.
pub fn push_decimal(s: &mut String, n: u64)
    ensures
        final(s)@ == old(s)@ + decimal(n as nat),
    decreases n,
{
    if n >= 10 {
        push_decimal(s, n / 10);
    }
    push_char(s, digit_to_char(n % 10));
    proof {
        if n >= 10 {
            assert(old(s)@ + decimal(n as nat) =~= old(s)@ + decimal((n / 10) as nat) + seq![digit_char((n % 10) as int)]);
        }
    }
}

pub open spec fn pow10(k: nat) -> nat
    decreases k,
{
    if k == 0 {
        1
    } else {
        10 * pow10((k - 1) as nat)
    }
}

pub proof fn lemma_decimal_len_bound(n: nat, k: nat)
    requires
        k >= 1,
        n < pow10(k),
    ensures
        1 <= decimal(n).len() <= k,
    decreases k,
{
    if n >= 10 {
        let p = pow10((k - 1) as nat);
        assert(k >= 2) by {
            if k == 1 {
                assert(pow10(0) == 1);
            }
        }
        assert(n / 10 < p) by (nonlinear_arith)
            requires
                n < 10 * p,
                n >= 10,
        ;
        lemma_decimal_len_bound(n / 10, (k - 1) as nat);
    }
}

pub proof fn lemma_decimal_len(n: nat)
    requires
        n <= u64::MAX,
    ensures
        1 <= decimal(n).len() <= 20,
{
    reveal_with_fuel(pow10, 21);
    assert(pow10(20) == 100000000000000000000nat);
    lemma_decimal_len_bound(n, 20);
}

proof fn lemma_digit_char(k: int)
    requires
        0 <= k <= 9,
    ensures
        is_digit(digit_char(k)),
        digit_val(digit_char(k)) == k,
{
}

/// The digits `decimal` writes are digits, and read back as the number.
pub proof fn lemma_decimal_reads_back(n: nat)
    ensures
        all_digits(decimal(n)),
        digits_value(decimal(n)) == n,
    decreases n,
{
    if n < 10 {
        lemma_digit_char(n as int);
        let d = decimal(n);
        assert(d.drop_last() =~= Seq::<char>::empty());
        assert(d.last() == digit_char(n as int));
        assert(digits_value(d) == digits_value(d.drop_last()) * 10 + digit_val(d.last()));
    } else {
        lemma_decimal_reads_back(n / 10);
        lemma_digit_char((n % 10) as int);
        let d = decimal(n);
        assert(d.drop_last() =~= decimal(n / 10));
        assert(d.last() == digit_char((n % 10) as int));
        assert(digits_value(d) == digits_value(d.drop_last()) * 10 + digit_val(d.last()));
        assert forall|i: int| 0 <= i < d.len() implies is_digit(#[trigger] d[i]) by {
            if i < d.len() - 1 {
                assert(d[i] == decimal(n / 10)[i]);
            }
        }
    }
}

/// Digits read after a prefix: the prefix's value shifted by the length
/// of the rest.
pub proof fn lemma_digits_value_concat(p: Seq<char>, s: Seq<char>)
    ensures
        digits_value(p + s) == digits_value(p) * pow10(s.len()) + digits_value(s),
    decreases s.len(),
{
    if s.len() == 0 {
        assert(p + s =~= p);
        assert(pow10(0) == 1);
        assert(digits_value(p) * 1 == digits_value(p));
    } else {
        let s1 = s.drop_last();
        lemma_digits_value_concat(p, s1);
        assert((p + s).drop_last() =~= p + s1);
        assert((p + s).last() == s.last());
        let a = digits_value(p);
        let b = digits_value(s1);
        let k = pow10(s1.len());
        assert(pow10(s.len()) == 10 * k);
        assert(digits_value(p + s) == digits_value(p + s1) * 10 + digit_val(s.last()));
        assert(digits_value(s) == b * 10 + digit_val(s.last()));
        assert((a * k + b) * 10 == a * (10 * k) + b * 10) by (nonlinear_arith);
        assert(a * pow10(s.len()) == a * (10 * k));
    }
}

proof fn lemma_zeros_value(k: nat)
    ensures
        all_digits(Seq::new(k, |i: int| '0')),
        digits_value(Seq::new(k, |i: int| '0')) == 0,
    decreases k,
{
    if k > 0 {
        lemma_zeros_value((k - 1) as nat);
        assert(Seq::new(k, |i: int| '0').drop_last() =~= Seq::new((k - 1) as nat, |i: int| '0'));
    }
}

/// A number below `10^w` written `{:0w$}` takes exactly `w` digits, which
/// read back as the number.
pub proof fn lemma_fixed_width(n: int, w: nat)
    requires
        w >= 1,
        0 <= n < pow10(w),
    ensures
        fmt_int(n, w as int).len() == w,
        all_digits(fmt_int(n, w as int)),
        digits_value(fmt_int(n, w as int)) == n,
{
    let d = decimal(n as nat);
    lemma_decimal_len_bound(n as nat, w);
    lemma_decimal_reads_back(n as nat);
    if d.len() < w {
        let z = Seq::new((w - d.len()) as nat, |i: int| '0');
        lemma_zeros_value((w - d.len()) as nat);
        lemma_digits_value_concat(z, d);
        assert(digits_value(z) * pow10(d.len()) == 0) by (nonlinear_arith)
            requires
                digits_value(z) == 0,
        ;
        let f = z + d;
        assert forall|i: int| 0 <= i < f.len() implies is_digit(#[trigger] f[i]) by {
            if i < z.len() {
                assert(f[i] == z[i]);
            } else {
                assert(f[i] == d[i - z.len()]);
            }
        }
    }
}

/// Number of decimal digits of `n`.
fn decimal_len(n: u64) -> (k: usize)
    ensures
        k == decimal(n as nat).len(),
    decreases n,
{
    proof {
        lemma_decimal_len(n as nat);
    }
    if n >= 10 {
        let k = decimal_len(n / 10);
        k + 1
    } else {
        1
    }
}

fn push_zeros(s: &mut String, k: usize)
    ensures
        final(s)@ == old(s)@ + Seq::new(k as nat, |i: int| '0'),
{
    let mut j: usize = 0;
    while j < k
        invariant
            j <= k,
            s@ == old(s)@ + Seq::new(j as nat, |i: int| '0'),
        decreases k - j,
    {
        push_char(s, '0');
        j += 1;
        assert(s@ =~= old(s)@ + Seq::new(j as nat, |i: int| '0'));
    }
}

fn push_padded(s: &mut String, n: u64, w: usize)
    ensures
        final(s)@ == old(s)@ + zero_pad(decimal(n as nat), w as int),
{
    let k = decimal_len(n);
    if k < w {
        push_zeros(s, w - k);
    }
    push_decimal(s, n);
    assert(s@ =~= old(s)@ + zero_pad(decimal(n as nat), w as int));
}

/// Appends `n` as `format!("{:0w$}", n)` writes it.
pub fn push_int(s: &mut String, n: i64, w: usize)
    ensures
        final(s)@ == old(s)@ + fmt_int(n as int, w as int),
{
    if n < 0 {
        push_char(s, '-');
        let m: u64 = ((-(n + 1)) as u64) + 1;
        if w >= 1 {
            push_padded(s, m, w - 1);
        } else {
            push_padded(s, m, 0);
        }
        assert(s@ =~= old(s)@ + fmt_int(n as int, w as int));
    } else {
        push_padded(s, n as u64, w);
    }
}

} // verus!
