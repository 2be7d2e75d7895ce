//! Amounts are integer cents, never floats: a fixed expense is compared and
//! summed every month, and binary floating point cannot hold 12.99 exactly.
use vstd::prelude::*;

use crate::error::{AmountFault, Error};
use crate::text::{
    all_digits, chars_of, dec, dec_chars, digit_char, digit_value, digits_value, is_digit, is_ws,
    lemma_dec_digits, no_ws, parse_cap, push_char, read_digits, string_of, trim, trim_chars,
    trim_end, trim_start,
};

verus! {

// ---- reading ---------------------------------------------------------------

/// `s` with every `_` and `,` removed: both are digit grouping.
pub open spec fn strip_grouping(s: Seq<char>) -> Seq<char>
    decreases s.len(),
{
    if s.len() == 0 {
        s
    } else if s.last() == '_' || s.last() == ',' {
        strip_grouping(s.drop_last())
    } else {
        strip_grouping(s.drop_last()).push(s.last())
    }
}

/// Index of the first `.` in `s`, or `s.len()` when there is none.
pub open spec fn first_dot(s: Seq<char>) -> int
    decreases s.len(),
{
    if s.len() == 0 {
        0
    } else if s[0] == '.' {
        0
    } else {
        1 + first_dot(s.drop_first())
    }
}

/// The digits after the decimal separator in cents: one digit is tenths.
pub open spec fn frac_cents(frac: Seq<char>) -> int {
    if frac.len() == 0 {
        0
    } else if frac.len() == 1 {
        (digits_value(frac) * 10) as int
    } else {
        digits_value(frac) as int
    }
}

/// What a typed amount means, in cents.
///
/// Grouping (`_`, `,`) is dropped and surrounding whitespace trimmed; an
/// optional sign, then digits with at most one `.`, at least one digit on
/// either side of it, and at most two after it. A third decimal is an error,
/// not a rounding.
pub open spec fn parse_amount(raw: Seq<char>) -> Result<int, AmountFault> {
    parse_clean(trim(strip_grouping(raw)))
}

/// `parse_amount` once grouping and surrounding whitespace are gone.
pub open spec fn parse_clean(c: Seq<char>) -> Result<int, AmountFault> {
    if c.len() == 0 {
        Err(AmountFault::Empty)
    } else {
        let neg = c[0] == '-';
        let d = if neg || c[0] == '+' {
            c.drop_first()
        } else {
            c
        };
        let p = first_dot(d);
        let whole = d.subrange(0, p);
        let frac = if p < d.len() {
            d.subrange(p + 1, d.len() as int)
        } else {
            Seq::<char>::empty()
        };
        if whole.len() == 0 && frac.len() == 0 {
            Err(AmountFault::NotAnAmount)
        } else if !all_digits(whole) || !all_digits(frac) {
            Err(AmountFault::NotAnAmount)
        } else if frac.len() > 2 {
            Err(AmountFault::TooManyDecimals)
        } else {
            let mag = digits_value(whole) * 100 + frac_cents(frac);
            let v = if neg {
                -mag
            } else {
                mag
            };
            if i64::MIN <= v <= i64::MAX {
                Ok(v)
            } else {
                Err(AmountFault::OutOfRange)
            }
        }
    }
}

proof fn lemma_first_dot(s: Seq<char>)
    ensures
        0 <= first_dot(s) <= s.len(),
        forall|k: int| 0 <= k < first_dot(s) ==> s[k] != '.',
        first_dot(s) < s.len() ==> s[first_dot(s)] == '.',
    decreases s.len(),
{
    if s.len() > 0 && s[0] != '.' {
        lemma_first_dot(s.drop_first());
        assert forall|k: int| 0 <= k < first_dot(s) implies s[k] != '.' by {
            if k > 0 {
                assert(s[k] == s.drop_first()[k - 1]);
            }
        }
    }
}

proof fn lemma_frac_small(frac: Seq<char>)
    requires
        all_digits(frac),
        frac.len() <= 2,
    ensures
        frac.len() == 1 ==> digits_value(frac) < 10,
        frac.len() == 2 ==> digits_value(frac) < 100,
        0 <= frac_cents(frac) < 100,
{
    if frac.len() == 1 {
        assert(frac.drop_last() =~= Seq::<char>::empty());
        assert(digits_value(frac.drop_last()) == 0);
        assert(is_digit(frac[0]));
        assert(frac.last() == frac[0]);
        assert(digit_value(frac[0]) < 10);
    } else if frac.len() == 2 {
        let a = frac.drop_last();
        assert(a.drop_last() =~= Seq::<char>::empty());
        assert(is_digit(frac[0]) && is_digit(frac[1]));
        assert(a[0] == frac[0]);
        assert(a.last() == frac[0]);
        assert(digits_value(a.drop_last()) == 0);
        assert(digit_value(frac[0]) < 10);
        assert(digits_value(a) < 10);
        assert(digit_value(frac[1]) < 10);
        assert(frac.last() == frac[1]);
    }
}

/// `v` without its grouping characters.
fn strip_grouping_chars(v: &Vec<char>) -> (r: Vec<char>)
    ensures
        r@ == strip_grouping(v@),
{
    let n = v.len();
    let mut kept: Vec<char> = Vec::new();
    let mut i: usize = 0;
    while i < n
        invariant
            0 <= i <= n,
            n == v@.len(),
            kept@ == strip_grouping(v@.take(i as int)),
        decreases n - i,
    {
        let ch = v[i];
        assert(v@.take(i + 1).drop_last() =~= v@.take(i as int));
        if ch != '_' && ch != ',' {
            kept.push(ch);
        }
        i = i + 1;
    }
    assert(v@.take(n as int) =~= v@);
    kept
}

/// Parse a plain decimal to cents. `_` and `,` are stripped as digit
/// grouping, `.` is the decimal separator.
///
/// More than two decimal places is an error rather than a rounding: silently
/// turning 12.999 into 13.00 is the kind of helpfulness that loses money.
pub fn parse_cents(raw: &str) -> (r: Result<i64, Error>)
    ensures
        match r {
            Ok(v) => parse_amount(raw@) == Ok::<int, AmountFault>(v as int),
            Err(e) => e matches Error::Amount(k, t) && parse_amount(raw@) == Err::<int, AmountFault>(
                k,
            ) && t@ == raw@,
        },
{
    let all = chars_of(raw);
    let kept = strip_grouping_chars(&all);
    let c = trim_chars(&kept);
    match cents_of_clean(&c) {
        Ok(v) => Ok(v),
        Err(k) => Err(Error::Amount(k, string_of(&all))),
    }
}

/// Index of the first `.` at or after `start`, or `c.len()`.
fn find_dot(c: &Vec<char>, start: usize) -> (p: usize)
    requires
        start <= c@.len(),
    ensures
        start <= p <= c@.len(),
        p - start == first_dot(c@.subrange(start as int, c@.len() as int)),
{
    let m = c.len();
    let mut p: usize = start;
    while p < m && c[p] != '.'
        invariant
            start <= p <= m,
            m == c@.len(),
            forall|k: int| start <= k < p ==> c@[k] != '.',
        decreases m - p,
    {
        p = p + 1;
    }
    proof {
        let d = c@.subrange(start as int, m as int);
        lemma_first_dot(d);
        let q = first_dot(d);
        if q < p - start {
            assert(d[q] == c@[q + start]);
        }
        if p < m && q > p - start {
            assert(d[p - start] == c@[p as int]);
        }
    }
    p
}

/// `parse_clean`, computed.
fn cents_of_clean(c: &Vec<char>) -> (r: Result<i64, AmountFault>)
    ensures
        match r {
            Ok(v) => parse_clean(c@) == Ok::<int, AmountFault>(v as int),
            Err(k) => parse_clean(c@) == Err::<int, AmountFault>(k),
        },
{
    let ghost cs = c@;
    let m = c.len();
    if m == 0 {
        return Err(AmountFault::Empty);
    }
    let neg = c[0] == '-';
    let start: usize = if neg || c[0] == '+' {
        1
    } else {
        0
    };
    let ghost d = if neg || cs[0] == '+' {
        cs.drop_first()
    } else {
        cs
    };
    assert(d =~= cs.subrange(start as int, m as int));
    let p = find_dot(c, start);
    proof {
        assert(d.subrange(0, (p - start) as int) =~= cs.subrange(start as int, p as int));
        if p < m {
            assert(d.subrange(p - start + 1, d.len() as int) =~= cs.subrange(p + 1, m as int));
        }
    }
    let frac_start: usize = if p < m {
        p + 1
    } else {
        m
    };
    let ghost whole = cs.subrange(start as int, p as int);
    let ghost frac = cs.subrange(frac_start as int, m as int);
    assert(p == m ==> frac =~= Seq::<char>::empty());
    if p == start && frac_start == m {
        return Err(AmountFault::NotAnAmount);
    }
    let (w, whole_ok) = read_digits(c, start, p);
    let (f, frac_ok) = read_digits(c, frac_start, m);
    if !whole_ok || !frac_ok {
        return Err(AmountFault::NotAnAmount);
    }
    let frac_len = m - frac_start;
    if frac_len > 2 {
        return Err(AmountFault::TooManyDecimals);
    }
    proof {
        lemma_frac_small(frac);
    }
    let fc: i128 = if frac_len == 0 {
        0
    } else if frac_len == 1 {
        (f * 10) as i128
    } else {
        f as i128
    };
    let mag: i128 = (w as i128) * 100 + fc;
    let v: i128 = if neg {
        -mag
    } else {
        mag
    };
    proof {
        if w == parse_cap() {
            assert(digits_value(whole) * 100 + frac_cents(frac) >= parse_cap() * 100) by (
            nonlinear_arith)
                requires
                    digits_value(whole) >= parse_cap(),
                    frac_cents(frac) >= 0,
            ;
        }
    }
    if v < -0x8000_0000_0000_0000i128 || v > 0x7fff_ffff_ffff_ffffi128 {
        return Err(AmountFault::OutOfRange);
    }
    Ok(v as i64)
}

// ---- writing ---------------------------------------------------------------

/// The first `i` digits of `d`, with a `,` before every digit that has a
/// multiple of three digits after it.
pub open spec fn group_prefix(d: Seq<char>, i: int) -> Seq<char>
    decreases i,
{
    if i <= 0 {
        seq![]
    } else {
        let sep = if i - 1 > 0 && (d.len() - (i - 1)) % 3 == 0 {
            seq![',']
        } else {
            Seq::<char>::empty()
        };
        group_prefix(d, i - 1) + sep + seq![d[i - 1]]
    }
}

/// `d` in groups of three from the right: "1234567" -> "1,234,567".
pub open spec fn grouped(d: Seq<char>) -> Seq<char> {
    group_prefix(d, d.len() as int)
}

/// `n` as two digits, zero-padded: what `{:02}` writes for `n < 100`.
pub open spec fn two_digits(n: nat) -> Seq<char> {
    seq![digit_char(n / 10), digit_char(n % 10)]
}

pub open spec fn abs(x: int) -> nat {
    if x < 0 {
        (-x) as nat
    } else {
        x as nat
    }
}

/// Cents as a grouped decimal with two places: 4590000 -> "45,900.00".
pub open spec fn format_amount(cents: int) -> Seq<char> {
    let a = abs(cents);
    let sign = if cents < 0 {
        seq!['-']
    } else {
        Seq::<char>::empty()
    };
    sign + grouped(dec(a / 100)) + seq!['.'] + two_digits(a % 100)
}

/// Cents to a grouped decimal: 4590000 -> "45,900.00".
pub fn format_cents(cents: i64) -> (s: String)
    ensures
        s@ == format_amount(cents as int),
{
    let neg = cents < 0;
    let a: u64 = if neg {
        (-(cents as i128)) as u64
    } else {
        cents as u64
    };
    let whole = a / 100;
    let frac = a % 100;
    let digits = dec_chars(whole);
    let len = digits.len();
    let mut s = String::new();
    if neg {
        push_char(&mut s, '-');
    }
    let ghost sign = s@;
    let mut i: usize = 0;
    while i < len
        invariant
            0 <= i <= len,
            len == digits@.len(),
            s@ == sign + group_prefix(digits@, i as int),
        decreases len - i,
    {
        if i > 0 && (len - i) % 3 == 0 {
            push_char(&mut s, ',');
        }
        push_char(&mut s, digits[i]);
        proof {
            let d = digits@;
            let sep = if i > 0 && (d.len() - i) % 3 == 0 {
                seq![',']
            } else {
                Seq::<char>::empty()
            };
            assert(group_prefix(d, i + 1) == group_prefix(d, i as int) + sep + seq![d[i as int]]);
            assert(s@ =~= sign + group_prefix(d, i + 1));
        }
        i = i + 1;
    }
    push_char(&mut s, '.');
    let t = ((frac / 10) as u8 + 48u8) as char;
    let o = ((frac % 10) as u8 + 48u8) as char;
    push_char(&mut s, t);
    push_char(&mut s, o);
    proof {
        assert(abs(cents as int) == a as nat);
        assert(t == digit_char((frac / 10) as nat));
        assert(o == digit_char((frac % 10) as nat));
        assert(s@ =~= format_amount(cents as int));
    }
    s
}

// ---- the two directions agree ------------------------------------------------

proof fn lemma_strip_concat(a: Seq<char>, b: Seq<char>)
    ensures
        strip_grouping(a + b) == strip_grouping(a) + strip_grouping(b),
    decreases b.len(),
{
    if b.len() == 0 {
        assert(a + b =~= a);
        assert(strip_grouping(a) + strip_grouping(b) =~= strip_grouping(a));
    } else {
        lemma_strip_concat(a, b.drop_last());
        assert((a + b).drop_last() =~= a + b.drop_last());
        assert((a + b).last() == b.last());
        if b.last() == '_' || b.last() == ',' {
        } else {
            assert(strip_grouping(a) + strip_grouping(b.drop_last()).push(b.last()) =~= (
            strip_grouping(a) + strip_grouping(b.drop_last())).push(b.last()));
        }
    }
}

proof fn lemma_strip_plain(s: Seq<char>)
    requires
        forall|i: int| 0 <= i < s.len() ==> #[trigger] s[i] != '_' && s[i] != ',',
    ensures
        strip_grouping(s) == s,
    decreases s.len(),
{
    if s.len() > 0 {
        let t = s.drop_last();
        assert forall|i: int| 0 <= i < t.len() implies #[trigger] t[i] != '_' && t[i] != ',' by {
            assert(t[i] == s[i]);
        }
        lemma_strip_plain(t);
        assert(s.last() == s[s.len() - 1]);
        assert(t.push(s.last()) =~= s);
    }
}

proof fn lemma_strip_grouped(d: Seq<char>, i: int)
    requires
        all_digits(d),
        0 <= i <= d.len(),
    ensures
        strip_grouping(group_prefix(d, i)) == d.take(i),
    decreases i,
{
    if i > 0 {
        lemma_strip_grouped(d, i - 1);
        let sep = if i - 1 > 0 && (d.len() - (i - 1)) % 3 == 0 {
            seq![',']
        } else {
            Seq::<char>::empty()
        };
        let g = group_prefix(d, i - 1);
        assert(group_prefix(d, i) == g + sep + seq![d[i - 1]]);
        lemma_strip_concat(g + sep, seq![d[i - 1]]);
        lemma_strip_concat(g, sep);
        assert(0 <= i - 1 < d.len());
        assert(is_digit(d[i - 1]));
        let x = d[i - 1];
        assert(x != '_' && x != ',') by {
            assert(x as u32 != '_' as u32 && x as u32 != ',' as u32);
        }
        assert(seq![x].drop_last() =~= Seq::<char>::empty());
        assert(strip_grouping(seq![x].drop_last()) =~= Seq::<char>::empty());
        assert(strip_grouping(seq![x]) =~= seq![x]);
        if sep.len() > 0 {
            assert(sep.drop_last() =~= Seq::<char>::empty());
        }
        assert(strip_grouping(sep) =~= Seq::<char>::empty());
        assert(d.take(i - 1) + seq![d[i - 1]] =~= d.take(i));
    } else {
        assert(d.take(0) =~= Seq::<char>::empty());
    }
}

proof fn lemma_trim_keeps(s: Seq<char>)
    requires
        s.len() > 0,
        !is_ws(s[0]),
        !is_ws(s.last()),
    ensures
        trim(s) == s,
{
    assert(trim_start(s) == s);
    assert(trim_end(s) == s);
}

proof fn lemma_first_dot_after(w: Seq<char>, rest: Seq<char>)
    requires
        all_digits(w),
    ensures
        first_dot(w + seq!['.'] + rest) == w.len(),
    decreases w.len(),
{
    let s = w + seq!['.'] + rest;
    if w.len() == 0 {
        assert(s[0] == '.');
    } else {
        assert(is_digit(w[0]));
        assert(s[0] == w[0]);
        let t = w.drop_first();
        assert forall|i: int| 0 <= i < t.len() implies is_digit(#[trigger] t[i]) by {
            assert(t[i] == w[i + 1]);
        }
        lemma_first_dot_after(t, rest);
        assert(s.drop_first() =~= t + seq!['.'] + rest);
    }
}

proof fn lemma_two_digits(f: nat)
    requires
        f < 100,
    ensures
        all_digits(two_digits(f)),
        digits_value(two_digits(f)) == f,
        two_digits(f).len() == 2,
{
    let t = two_digits(f);
    assert(digit_char(f / 10) as u32 == (f / 10) % 10 + 48);
    assert(digit_char(f % 10) as u32 == (f % 10) % 10 + 48);
    assert(t.drop_last() =~= seq![digit_char(f / 10)]);
    assert(t.drop_last().drop_last() =~= Seq::<char>::empty());
    assert(digit_value(t[0]) == f / 10);
    assert(digit_value(t[1]) == f % 10);
    assert(t.drop_last().last() == t[0]);
    assert(digits_value(t.drop_last().drop_last()) == 0);
    assert(digits_value(t.drop_last()) == f / 10);
    assert(t.last() == t[1]);
    assert(digits_value(t) == (f / 10) * 10 + f % 10);
}

/// Reading back what `format_cents` writes gives the same number of cents,
/// for every `i64`: grouping commas are what the reader skips, and two
/// decimals are what it reads exactly.
pub proof fn format_then_parse_is_identity(cents: i64)
    ensures
        parse_amount(format_amount(cents as int)) == Ok::<int, AmountFault>(cents as int),
{
    let a = abs(cents as int);
    let w = a / 100;
    let f = a % 100;
    let d = dec(w);
    lemma_dec_digits(w);
    lemma_two_digits(f);
    let t = two_digits(f);
    let sign = if cents < 0 {
        seq!['-']
    } else {
        Seq::<char>::empty()
    };
    let g = grouped(d);
    let fm = format_amount(cents as int);
    assert(fm == sign + g + seq!['.'] + t);
    lemma_strip_concat(sign + g + seq!['.'], t);
    lemma_strip_concat(sign + g, seq!['.']);
    lemma_strip_concat(sign, g);
    lemma_strip_grouped(d, d.len() as int);
    assert(d.take(d.len() as int) =~= d);
    assert forall|i: int| 0 <= i < sign.len() implies #[trigger] sign[i] != '_' && sign[i] != ',' by {}
    lemma_strip_plain(sign);
    lemma_strip_plain(seq!['.']);
    assert forall|i: int| 0 <= i < t.len() implies #[trigger] t[i] != '_' && t[i] != ',' by {
        assert(is_digit(t[i]));
    }
    lemma_strip_plain(t);
    let s = sign + d + seq!['.'] + t;
    assert(strip_grouping(fm) =~= s);
    assert(s.last() == t[1]);
    assert(is_digit(t[1]));
    if cents < 0 {
        assert(s[0] == '-');
    } else {
        assert(s[0] == d[0]);
        assert(is_digit(d[0]));
    }
    lemma_trim_keeps(s);
    let neg = s[0] == '-';
    assert(neg == (cents < 0));
    let body = if neg || s[0] == '+' {
        s.drop_first()
    } else {
        s
    };
    assert(body =~= d + seq!['.'] + t);
    lemma_first_dot_after(d, t);
    assert(body.subrange(0, d.len() as int) =~= d);
    assert(body.subrange(d.len() as int + 1, body.len() as int) =~= t);
    assert(frac_cents(t) == f);
    assert(w * 100 + f == a);
}


// ---- amounts as one word ---------------------------------------------------------

/// `s` without its commas.
pub open spec fn without_commas(s: Seq<char>) -> Seq<char> {
    s.filter(|c: char| c != ',')
}

proof fn lemma_group_prefix_plain(d: Seq<char>, i: int)
    requires
        all_digits(d),
        0 <= i <= d.len(),
    ensures
        no_ws(group_prefix(d, i)),
    decreases i,
{
    if i > 0 {
        lemma_group_prefix_plain(d, i - 1);
        let prev = group_prefix(d, i - 1);
        let sep = if i - 1 > 0 && (d.len() - (i - 1)) % 3 == 0 {
            seq![',']
        } else {
            Seq::<char>::empty()
        };
        let g = group_prefix(d, i);
        assert(g == prev + sep + seq![d[i - 1]]);
        assert(is_digit(d[i - 1]));
        assert forall|k: int| 0 <= k < g.len() implies !is_ws(#[trigger] g[k]) by {
            if k < prev.len() {
                assert(g[k] == prev[k]);
            } else if k < prev.len() + sep.len() {
                assert(g[k] == ',');
            } else {
                assert(g[k] == d[i - 1]);
            }
        }
    }
}

proof fn lemma_format_amount_plain(cents: int)
    ensures
        no_ws(format_amount(cents)),
        format_amount(cents).len() > 0,
        is_digit(format_amount(cents).last()),
{
    let a = abs(cents);
    let d = dec(a / 100);
    lemma_dec_digits(a / 100);
    lemma_group_prefix_plain(d, d.len() as int);
    let sign = if cents < 0 {
        seq!['-']
    } else {
        Seq::<char>::empty()
    };
    let g = grouped(d);
    let t = two_digits(a % 100);
    let s = format_amount(cents);
    assert(s == sign + g + seq!['.'] + t);
    assert(t[0] as u32 == (a % 100) / 10 % 10 + 48);
    assert(t[1] as u32 == (a % 100) % 10 + 48);
    assert forall|k: int| 0 <= k < s.len() implies !is_ws(#[trigger] s[k]) by {
        if k < sign.len() {
            assert(s[k] == '-');
        } else if k < sign.len() + g.len() {
            assert(s[k] == g[k - sign.len()]);
        } else if k == sign.len() + g.len() {
            assert(s[k] == '.');
        } else {
            assert(s[k] == t[k - sign.len() - g.len() - 1]);
        }
    }
    assert(s.last() == t[1]);
}

proof fn lemma_without_commas_plain(x: Seq<char>)
    requires
        no_ws(x),
    ensures
        no_ws(without_commas(x)),
    decreases x.len(),
{
    if x.len() > 0 {
        let y = x.drop_last();
        let c = x.last();
        assert(x =~= y.push(c));
        y.lemma_filter_push(c, |c: char| c != ',');
        assert(no_ws(y)) by {
            assert forall|k: int| 0 <= k < y.len() implies !is_ws(#[trigger] y[k]) by {
                assert(y[k] == x[k]);
            }
        }
        lemma_without_commas_plain(y);
        let w = without_commas(x);
        let v = without_commas(y);
        assert forall|k: int| 0 <= k < w.len() implies !is_ws(#[trigger] w[k]) by {
            if k < v.len() {
                assert(w[k] == v[k]);
            } else {
                assert(w[k] == c);
                assert(x[x.len() - 1] == c);
            }
        }
    }
}

proof fn lemma_strip_without_commas(x: Seq<char>)
    ensures
        strip_grouping(without_commas(x)) == strip_grouping(x),
    decreases x.len(),
{
    if x.len() > 0 {
        let y = x.drop_last();
        let c = x.last();
        assert(x =~= y.push(c));
        y.lemma_filter_push(c, |c: char| c != ',');
        lemma_strip_without_commas(y);
        if c != ',' {
            let v = without_commas(y);
            assert(without_commas(x) == v.push(c));
            assert(v.push(c).drop_last() =~= v);
        }
    }
}

/// An amount written without its grouping commas is a single word, and
/// reads back as the same amount.
pub proof fn ungrouped_amounts_read_back(cents: i64)
    ensures
        no_ws(without_commas(format_amount(cents as int))),
        without_commas(format_amount(cents as int)).len() > 0,
        parse_amount(without_commas(format_amount(cents as int))) == Ok::<int, AmountFault>(cents as int),
{
    let s = format_amount(cents as int);
    lemma_format_amount_plain(cents as int);
    lemma_without_commas_plain(s);
    lemma_strip_without_commas(s);
    format_then_parse_is_identity(cents);
    let y = s.drop_last();
    let c = s.last();
    assert(s =~= y.push(c));
    y.lemma_filter_push(c, |c: char| c != ',');
    assert(c != ',');
}

} // verus!
