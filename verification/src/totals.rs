//! Totals grouped by currency, and the primary currency. Nothing here converts
//! between currencies: two currencies are two totals, never one blended sum.
use vstd::prelude::*;

use crate::ledger::Entry;
use crate::text::chars_of;

verus! {

/// One currency's share of a period.
#[derive(Debug, PartialEq)]
pub struct Total {
    pub currency: String,
    pub due_cents: i64,
    pub paid_cents: i64,
}

/// Strict lexicographic order of character sequences by code point: the
/// order of `str`'s `Ord`.
pub open spec fn str_lt(a: Seq<char>, b: Seq<char>) -> bool
    decreases a.len(),
{
    if a.len() == 0 {
        b.len() > 0
    } else if b.len() == 0 {
        false
    } else if a[0] != b[0] {
        (a[0] as u32) < (b[0] as u32)
    } else {
        str_lt(a.drop_first(), b.drop_first())
    }
}

pub proof fn lemma_str_lt_irrefl(a: Seq<char>)
    ensures
        !str_lt(a, a),
    decreases a.len(),
{
    if a.len() > 0 {
        lemma_str_lt_irrefl(a.drop_first());
    }
}

pub proof fn lemma_str_lt_trans(a: Seq<char>, b: Seq<char>, c: Seq<char>)
    requires
        str_lt(a, b),
        str_lt(b, c),
    ensures
        str_lt(a, c),
    decreases a.len(),
{
    if a.len() > 0 && b.len() > 0 && c.len() > 0 && a[0] == b[0] && b[0] == c[0] {
        lemma_str_lt_trans(a.drop_first(), b.drop_first(), c.drop_first());
    }
}

pub proof fn lemma_str_lt_total(a: Seq<char>, b: Seq<char>)
    ensures
        a =~= b || str_lt(a, b) || str_lt(b, a),
    decreases a.len(),
{
    if a.len() > 0 && b.len() > 0 && a[0] == b[0] {
        lemma_str_lt_total(a.drop_first(), b.drop_first());
        if a.drop_first() =~= b.drop_first() {
            assert forall|i: int| 0 <= i < a.len() implies a[i] == b[i] by {
                if i > 0 {
                    assert(a[i] == a.drop_first()[i - 1]);
                    assert(b[i] == b.drop_first()[i - 1]);
                }
            }
        }
    }
    if a.len() > 0 && b.len() > 0 && a[0] != b[0] {
        vstd::utf8::char_u32_cast(a[0], a[0] as u32);
        vstd::utf8::char_u32_cast(b[0], b[0] as u32);
    }
}

pub proof fn lemma_str_lt_asym(a: Seq<char>, b: Seq<char>)
    requires
        str_lt(a, b),
    ensures
        !str_lt(b, a),
        a != b,
    decreases a.len(),
{
    if a.len() > 0 && b.len() > 0 && a[0] == b[0] {
        lemma_str_lt_asym(a.drop_first(), b.drop_first());
    }
    if a == b {
        lemma_str_lt_irrefl(a);
    }
}

/// Whether `a` sorts strictly before `b`.
pub fn str_less(a: &str, b: &str) -> (r: bool)
    ensures
        r == str_lt(a@, b@),
{
    let x = chars_of(a);
    let y = chars_of(b);
    let mut i: usize = 0;
    assert(x@.skip(0) =~= x@);
    assert(y@.skip(0) =~= y@);
    while i < x.len() && i < y.len() && x[i] == y[i]
        invariant
            0 <= i <= x@.len(),
            i <= y@.len(),
            str_lt(x@, y@) == str_lt(x@.skip(i as int), y@.skip(i as int)),
        decreases x@.len() - i,
    {
        proof {
            let xs = x@.skip(i as int);
            let ys = y@.skip(i as int);
            assert(xs.drop_first() =~= x@.skip(i + 1));
            assert(ys.drop_first() =~= y@.skip(i + 1));
            assert(xs[0] == ys[0]);
        }
        i = i + 1;
    }
    assert(x@.skip(0) =~= x@);
    assert(y@.skip(0) =~= y@);
    proof {
        let xs = x@.skip(i as int);
        let ys = y@.skip(i as int);
        if i < x.len() && i < y.len() {
            assert(xs[0] == x@[i as int] && ys[0] == y@[i as int]);
        }
    }
    if i == x.len() {
        i < y.len()
    } else if i == y.len() {
        false
    } else {
        (x[i] as u32) < (y[i] as u32)
    }
}

/// `x` wrapped into `i64`, as two's-complement addition leaves it.
pub open spec fn wrap64(x: int) -> int {
    ((x + 0x8000_0000_0000_0000) % 0x1_0000_0000_0000_0000) - 0x8000_0000_0000_0000
}

proof fn lemma_wrap_add(s: int, a: i64)
    ensures
        wrap64(wrap64(s) + a) == wrap64(s + a),
        i64::MIN <= wrap64(s) <= i64::MAX,
        i64::MIN <= wrap64(s) + a - a <= i64::MAX,
{
    let m: int = 0x1_0000_0000_0000_0000;
    let h: int = 0x8000_0000_0000_0000;
    vstd::arithmetic::div_mod::lemma_mod_bound(s + h, m);
    vstd::arithmetic::div_mod::lemma_add_mod_noop(s + h, a as int, m);
    vstd::arithmetic::div_mod::lemma_add_mod_noop((s + h) % m, a as int, m);
    vstd::arithmetic::div_mod::lemma_mod_bound(a as int, m);
    vstd::arithmetic::div_mod::lemma_mod_twice(s + h, m);
    assert(wrap64(s) + a + h == (s + h) % m + a);
}

proof fn lemma_wrap_small(x: int)
    requires
        i64::MIN <= x <= i64::MAX,
    ensures
        wrap64(x) == x,
{
    vstd::arithmetic::div_mod::lemma_small_mod((x + 0x8000_0000_0000_0000) as nat, 0x1_0000_0000_0000_0000);
}

/// The expected amounts of the entries in currency `c`.
pub open spec fn due_sum(es: Seq<Entry>, c: Seq<char>) -> int
    decreases es.len(),
{
    if es.len() == 0 {
        0
    } else {
        due_sum(es.drop_last(), c) + if es.last().expense.currency@ == c {
            es.last().expense.amount_cents as int
        } else {
            0
        }
    }
}

/// What was actually paid on the entries in currency `c`.
pub open spec fn paid_sum(es: Seq<Entry>, c: Seq<char>) -> int
    decreases es.len(),
{
    if es.len() == 0 {
        0
    } else {
        paid_sum(es.drop_last(), c) + if es.last().expense.currency@ == c {
            match es.last().paid_cents {
                Some(p) => p as int,
                None => 0,
            }
        } else {
            0
        }
    }
}

/// How many entries are in currency `c`.
pub open spec fn count_in(es: Seq<Entry>, c: Seq<char>) -> nat
    decreases es.len(),
{
    if es.len() == 0 {
        0
    } else {
        count_in(es.drop_last(), c) + if es.last().expense.currency@ == c {
            1nat
        } else {
            0nat
        }
    }
}

/// Some entry is in currency `c`.
pub open spec fn has_currency(es: Seq<Entry>, c: Seq<char>) -> bool {
    exists|i: int| 0 <= i < es.len() && #[trigger] es[i].expense.currency@ == c
}

/// Some total in `ts` is for currency `c`.
pub open spec fn covers(ts: Seq<Total>, c: Seq<char>) -> bool {
    exists|a: int| 0 <= a < ts.len() && #[trigger] ts[a].currency@ == c
}

/// `ts` is the grouping of `es` by currency: one total per currency that
/// occurs, none for any other, in ascending currency order, each holding its
/// currency's due and paid sums (wrapped into `i64` as the addition does).
pub open spec fn grouped_totals(ts: Seq<Total>, es: Seq<Entry>) -> bool {
    &&& forall|a: int, b: int| 0 <= a < b < ts.len() ==> str_lt(#[trigger] ts[a].currency@, #[trigger] ts[b].currency@)
    &&& forall|a: int| 0 <= a < ts.len() ==> {
        let t = #[trigger] ts[a];
        &&& has_currency(es, t.currency@)
        &&& t.due_cents == wrap64(due_sum(es, t.currency@))
        &&& t.paid_cents == wrap64(paid_sum(es, t.currency@))
    }
    &&& forall|i: int| 0 <= i < es.len() ==> covers(ts, #[trigger] es[i].expense.currency@)
}

proof fn lemma_sums_step(es: Seq<Entry>, i: int, c: Seq<char>)
    requires
        0 <= i < es.len(),
    ensures
        due_sum(es.take(i + 1), c) == due_sum(es.take(i), c) + if es[i].expense.currency@ == c {
            es[i].expense.amount_cents as int
        } else {
            0
        },
        paid_sum(es.take(i + 1), c) == paid_sum(es.take(i), c) + if es[i].expense.currency@ == c {
            match es[i].paid_cents {
                Some(p) => p as int,
                None => 0,
            }
        } else {
            0
        },
        count_in(es.take(i + 1), c) == count_in(es.take(i), c) + if es[i].expense.currency@ == c {
            1nat
        } else {
            0nat
        },
{
    assert(es.take(i + 1).drop_last() =~= es.take(i));
    assert(es.take(i + 1).last() == es[i]);
}

/// Where the total for `c` sits in `ts`.
fn position_of_currency(ts: &Vec<Total>, c: &String) -> (r: Option<usize>)
    ensures
        match r {
            Some(j) => j < ts@.len() && ts@[j as int].currency@ == c@,
            None => forall|a: int| 0 <= a < ts@.len() ==> #[trigger] ts@[a].currency@ != c@,
        },
{
    let mut j: usize = 0;
    while j < ts.len()
        invariant
            0 <= j <= ts@.len(),
            forall|a: int| 0 <= a < j ==> #[trigger] ts@[a].currency@ != c@,
        decreases ts@.len() - j,
    {
        if ts[j].currency == *c {
            return Some(j);
        }
        j = j + 1;
    }
    None
}

/// One total per currency, in the order the currencies first occur.
fn totals_by_first_occurrence(entries: &[Entry]) -> (out: Vec<Total>)
    ensures
        forall|a: int, b: int| 0 <= a < out@.len() && 0 <= b < out@.len() && a != b ==> #[trigger] out@[a].currency@ != #[trigger] out@[b].currency@,
        forall|a: int| 0 <= a < out@.len() ==> {
            let t = #[trigger] out@[a];
            &&& has_currency(entries@, t.currency@)
            &&& t.due_cents == wrap64(due_sum(entries@, t.currency@))
            &&& t.paid_cents == wrap64(paid_sum(entries@, t.currency@))
        },
        forall|i: int| 0 <= i < entries@.len() ==> covers(out@, #[trigger] entries@[i].expense.currency@),
{
    let n = entries.len();
    let mut out: Vec<Total> = Vec::new();
    let mut i: usize = 0;
    while i < n
        invariant
            0 <= i <= n,
            n == entries@.len(),
            forall|a: int, b: int| 0 <= a < out@.len() && 0 <= b < out@.len() && a != b ==> #[trigger] out@[a].currency@ != #[trigger] out@[b].currency@,
            forall|a: int| 0 <= a < out@.len() ==> {
                let t = #[trigger] out@[a];
                &&& has_currency(entries@.take(i as int), t.currency@)
                &&& t.due_cents == wrap64(due_sum(entries@.take(i as int), t.currency@))
                &&& t.paid_cents == wrap64(paid_sum(entries@.take(i as int), t.currency@))
            },
            forall|k: int| 0 <= k < i ==> covers(out@, #[trigger] entries@[k].expense.currency@),
        decreases n - i,
    {
        let e = &entries[i];
        let paid: i64 = match e.paid_cents {
            Some(p) => p,
            None => 0,
        };
        let ghost pre = entries@.take(i as int);
        let ghost post = entries@.take(i + 1);
        let ghost before = out@;
        proof {
            assert forall|c: Seq<char>| #![auto] true implies (due_sum(post, c) == due_sum(pre, c) + if e.expense.currency@ == c {
                e.expense.amount_cents as int
            } else {
                0
            }) && paid_sum(post, c) == paid_sum(pre, c) + if e.expense.currency@ == c {
                paid as int
            } else {
                0
            } by {
                lemma_sums_step(entries@, i as int, c);
            }
            assert forall|c: Seq<char>| has_currency(pre, c) implies has_currency(post, c) by {
                let k = choose|k: int| 0 <= k < pre.len() && #[trigger] pre[k].expense.currency@ == c;
                assert(post[k] == pre[k]);
            }
            assert(post[i as int] == *e);
            assert(has_currency(post, e.expense.currency@));
        }
        match position_of_currency(&out, &e.expense.currency) {
            Some(j) => {
                let t = &out[j];
                proof {
                    lemma_wrap_add(due_sum(pre, t.currency@), e.expense.amount_cents);
                    lemma_wrap_add(paid_sum(pre, t.currency@), paid);
                }
                let nt = Total {
                    currency: t.currency.clone(),
                    due_cents: t.due_cents.wrapping_add(e.expense.amount_cents),
                    paid_cents: t.paid_cents.wrapping_add(paid),
                };
                out.set(j, nt);
                proof {
                    assert forall|a: int| 0 <= a < out@.len() implies {
                        let t = #[trigger] out@[a];
                        &&& has_currency(post, t.currency@)
                        &&& t.due_cents == wrap64(due_sum(post, t.currency@))
                        &&& t.paid_cents == wrap64(paid_sum(post, t.currency@))
                    } by {
                        if a != j {
                            assert(out@[a] == before[a]);
                            assert(before[a].currency@ != e.expense.currency@);
                        }
                    }
                    assert forall|k: int| 0 <= k < i + 1 implies covers(out@, #[trigger] entries@[k].expense.currency@) by {
                        if k < i {
                            assert(covers(before, entries@[k].expense.currency@));
                            let a = choose|a: int| 0 <= a < before.len() && #[trigger] before[a].currency@ == entries@[k].expense.currency@;
                            assert(out@[a].currency@ == before[a].currency@);
                        } else {
                            assert(out@[j as int].currency@ == entries@[k].expense.currency@);
                        }
                    }
                }
            },
            None => {
                proof {
                    assert(!has_currency(pre, e.expense.currency@)) by {
                        if has_currency(pre, e.expense.currency@) {
                            let k = choose|k: int| 0 <= k < pre.len() && #[trigger] pre[k].expense.currency@ == e.expense.currency@;
                            assert(pre[k] == entries@[k]);
                            assert(covers(before, entries@[k].expense.currency@));
                            let a = choose|a: int| 0 <= a < before.len() && #[trigger] before[a].currency@ == entries@[k].expense.currency@;
                        }
                    }
                    lemma_zero_sums(pre, e.expense.currency@);
                    lemma_wrap_small(e.expense.amount_cents as int);
                    lemma_wrap_small(paid as int);
                }
                out.push(Total { currency: e.expense.currency.clone(), due_cents: e.expense.amount_cents, paid_cents: paid });
                proof {
                    assert forall|a: int| 0 <= a < out@.len() implies {
                        let t = #[trigger] out@[a];
                        &&& has_currency(post, t.currency@)
                        &&& t.due_cents == wrap64(due_sum(post, t.currency@))
                        &&& t.paid_cents == wrap64(paid_sum(post, t.currency@))
                    } by {
                        if a < before.len() {
                            assert(out@[a] == before[a]);
                            assert(before[a].currency@ != e.expense.currency@);
                            lemma_wrap_add(due_sum(pre, before[a].currency@), 0);
                            lemma_wrap_add(paid_sum(pre, before[a].currency@), 0);
                        }
                    }
                    assert forall|x: int, y: int| 0 <= x < out@.len() && 0 <= y < out@.len() && x != y implies #[trigger] out@[x].currency@ != #[trigger] out@[y].currency@ by {
                        if x < before.len() && y < before.len() {
                            assert(out@[x] == before[x] && out@[y] == before[y]);
                        } else if x < before.len() {
                            assert(out@[x] == before[x]);
                        } else {
                            assert(out@[y] == before[y]);
                        }
                    }
                    assert forall|k: int| 0 <= k < i + 1 implies covers(out@, #[trigger] entries@[k].expense.currency@) by {
                        if k < i {
                            assert(covers(before, entries@[k].expense.currency@));
                            let a = choose|a: int| 0 <= a < before.len() && #[trigger] before[a].currency@ == entries@[k].expense.currency@;
                            assert(out@[a] == before[a]);
                        } else {
                            assert(out@[before.len() as int].currency@ == entries@[k].expense.currency@);
                        }
                    }
                }
            },
        }
        i = i + 1;
    }
    assert(entries@.take(n as int) =~= entries@);
    out
}

proof fn lemma_zero_sums(es: Seq<Entry>, c: Seq<char>)
    requires
        !has_currency(es, c),
    ensures
        due_sum(es, c) == 0,
        paid_sum(es, c) == 0,
        count_in(es, c) == 0,
    decreases es.len(),
{
    if es.len() > 0 {
        let t = es.drop_last();
        assert(!has_currency(t, c)) by {
            if has_currency(t, c) {
                let k = choose|k: int| 0 <= k < t.len() && #[trigger] t[k].expense.currency@ == c;
                assert(es[k] == t[k]);
            }
        }
        lemma_zero_sums(t, c);
        assert(es[es.len() - 1] == es.last());
    }
}

pub open spec fn sorted_by_currency(ts: Seq<Total>) -> bool {
    forall|x: int, y: int| 0 <= x < y < ts.len() ==> str_lt(#[trigger] ts[x].currency@, #[trigger] ts[y].currency@)
}

pub open spec fn occurs_in(ts: Seq<Total>, t: Total) -> bool {
    exists|x: int| 0 <= x < ts.len() && #[trigger] ts[x] == t
}

pub open spec fn occurs_before(ts: Seq<Total>, a: int, t: Total) -> bool {
    exists|j: int| 0 <= j < a && #[trigger] ts[j] == t
}

proof fn lemma_insert_sorted(before: Seq<Total>, p: int, t: Total, out: Seq<Total>, a: int)
    requires
        0 <= a < out.len(),
        t == out[a],
        0 <= p <= before.len(),
        sorted_by_currency(before),
        forall|x: int, y: int| 0 <= x < out.len() && 0 <= y < out.len() && x != y ==> #[trigger] out[x].currency@ != #[trigger] out[y].currency@,
        forall|x: int| 0 <= x < before.len() ==> occurs_before(out, a, #[trigger] before[x]),
        forall|j: int| 0 <= j < a ==> occurs_in(before, #[trigger] out[j]),
        forall|x: int| 0 <= x < p ==> str_lt(#[trigger] before[x].currency@, t.currency@),
        p < before.len() ==> !str_lt(before[p].currency@, t.currency@),
    ensures
        sorted_by_currency(before.insert(p, t)),
        forall|x: int| 0 <= x < before.len() + 1 ==> occurs_before(out, a + 1, #[trigger] before.insert(p, t)[x]),
        forall|j: int| 0 <= j < a + 1 ==> occurs_in(before.insert(p, t), #[trigger] out[j]),
{
    let s = before.insert(p, t);
    if p < before.len() {
        let j = choose|j: int| 0 <= j < a && #[trigger] out[j] == before[p];
        assert(before[p].currency@ != t.currency@);
        lemma_str_lt_total(before[p].currency@, t.currency@);
    }
    assert forall|x: int, y: int| 0 <= x < y < s.len() implies str_lt(#[trigger] s[x].currency@, #[trigger] s[y].currency@) by {
        if y < p {
            assert(s[x] == before[x] && s[y] == before[y]);
        } else if y == p {
            assert(s[x] == before[x]);
        } else if x == p {
            assert(s[y] == before[y - 1]);
            if y - 1 > p {
                lemma_str_lt_trans(t.currency@, before[p].currency@, before[y - 1].currency@);
            }
        } else if x < p {
            assert(s[x] == before[x] && s[y] == before[y - 1]);
        } else {
            assert(s[x] == before[x - 1] && s[y] == before[y - 1]);
        }
    }
    assert forall|x: int| 0 <= x < s.len() implies occurs_before(out, a + 1, #[trigger] s[x]) by {
        if x < p {
            assert(s[x] == before[x]);
            assert(occurs_before(out, a, before[x]));
            let j = choose|j: int| 0 <= j < a && #[trigger] out[j] == before[x];
            assert(out[j] == s[x]);
        } else if x == p {
            assert(out[a] == s[x]);
        } else {
            assert(s[x] == before[x - 1]);
            assert(occurs_before(out, a, before[x - 1]));
            let j = choose|j: int| 0 <= j < a && #[trigger] out[j] == before[x - 1];
            assert(out[j] == s[x]);
        }
    }
    assert forall|j: int| 0 <= j < a + 1 implies occurs_in(s, #[trigger] out[j]) by {
        if j < a {
            assert(occurs_in(before, out[j]));
            let x = choose|x: int| 0 <= x < before.len() && #[trigger] before[x] == out[j];
            let x2 = if x < p { x } else { x + 1 };
            assert(s[x2] == before[x]);
        } else {
            assert(s[p] == out[j]);
        }
    }
}

/// Totals grouped by currency, in ascending currency order. Two currencies
/// produce two totals, never one blended number.
pub fn totals(entries: &[Entry]) -> (ts: Vec<Total>)
    ensures
        grouped_totals(ts@, entries@),
{
    let out = totals_by_first_occurrence(entries);
    let m = out.len();
    let mut sorted: Vec<Total> = Vec::new();
    let mut a: usize = 0;
    while a < m
        invariant
            0 <= a <= m,
            m == out@.len(),
            forall|x: int, y: int| 0 <= x < out@.len() && 0 <= y < out@.len() && x != y ==> #[trigger] out@[x].currency@ != #[trigger] out@[y].currency@,
            sorted_by_currency(sorted@),
            forall|x: int| 0 <= x < sorted@.len() ==> occurs_before(out@, a as int, #[trigger] sorted@[x]),
            forall|j: int| 0 <= j < a ==> occurs_in(sorted@, #[trigger] out@[j]),
        decreases m - a,
    {
        let t = &out[a];
        let mut p: usize = 0;
        while p < sorted.len() && str_less(sorted[p].currency.as_str(), t.currency.as_str())
            invariant
                0 <= p <= sorted@.len(),
                forall|x: int| 0 <= x < p ==> str_lt(#[trigger] sorted@[x].currency@, t.currency@),
            decreases sorted@.len() - p,
        {
            p = p + 1;
        }
        proof {
            lemma_insert_sorted(sorted@, p as int, *t, out@, a as int);
        }
        sorted.insert(p, Total { currency: t.currency.clone(), due_cents: t.due_cents, paid_cents: t.paid_cents });
        a = a + 1;
    }
    proof {
        let s = sorted@;
        assert forall|x: int| 0 <= x < s.len() implies {
            let t = #[trigger] s[x];
            &&& has_currency(entries@, t.currency@)
            &&& t.due_cents == wrap64(due_sum(entries@, t.currency@))
            &&& t.paid_cents == wrap64(paid_sum(entries@, t.currency@))
        } by {
            assert(occurs_before(out@, m as int, s[x]));
            let j = choose|j: int| 0 <= j < m && #[trigger] out@[j] == s[x];
        }
        assert forall|i: int| 0 <= i < entries@.len() implies covers(s, #[trigger] entries@[i].expense.currency@) by {
            assert(covers(out@, entries@[i].expense.currency@));
            let j = choose|j: int| 0 <= j < out@.len() && #[trigger] out@[j].currency@ == entries@[i].expense.currency@;
            assert(occurs_in(s, out@[j]));
            let x = choose|x: int| 0 <= x < s.len() && #[trigger] s[x] == out@[j];
            assert(s[x].currency@ == entries@[i].expense.currency@);
        }
    }
    sorted
}

/// How many entries are in this currency.
fn count_currency(entries: &[Entry], c: &String) -> (n: usize)
    ensures
        n == count_in(entries@, c@),
{
    let mut n: usize = 0;
    let mut i: usize = 0;
    while i < entries.len()
        invariant
            0 <= i <= entries@.len(),
            n == count_in(entries@.take(i as int), c@),
            n <= i,
        decreases entries@.len() - i,
    {
        proof {
            lemma_sums_step(entries@, i as int, c@);
        }
        if entries[i].expense.currency == *c {
            n = n + 1;
        }
        i = i + 1;
    }
    assert(entries@.take(entries@.len() as int) =~= entries@);
    n
}

/// `c` covers the most entries of `es`, and sorts first among currencies
/// that cover as many.
pub open spec fn is_primary(es: Seq<Entry>, c: Seq<char>) -> bool {
    &&& has_currency(es, c)
    &&& forall|i: int| 0 <= i < es.len() ==> {
        let d = #[trigger] es[i].expense.currency@;
        count_in(es, d) < count_in(es, c) || (count_in(es, d) == count_in(es, c) && !str_lt(d, c))
    }
}

/// The currency the bar shows when it has room for only one: whichever
/// covers the most expenses, ties broken alphabetically so the answer is
/// stable. `None` for an empty listing.
pub fn primary_currency(entries: &[Entry]) -> (r: Option<String>)
    ensures
        r is None <==> entries@.len() == 0,
        r matches Some(c) ==> is_primary(entries@, c@),
{
    let n = entries.len();
    if n == 0 {
        return None;
    }
    let mut best: String = entries[0].expense.currency.clone();
    let mut best_count = count_currency(entries, &best);
    let mut i: usize = 1;
    proof {
        lemma_str_lt_irrefl(best@);
    }
    while i < n
        invariant
            1 <= i <= n,
            n == entries@.len(),
            best_count == count_in(entries@, best@),
            exists|k: int| 0 <= k < i && #[trigger] entries@[k].expense.currency@ == best@,
            forall|k: int| 0 <= k < i ==> {
                let d = #[trigger] entries@[k].expense.currency@;
                count_in(entries@, d) < best_count || (count_in(entries@, d) == best_count && !str_lt(d, best@))
            },
        decreases n - i,
    {
        let d = &entries[i].expense.currency;
        let c = count_currency(entries, d);
        if c > best_count || (c == best_count && str_less(d.as_str(), best.as_str())) {
            let ghost old_best = best@;
            proof {
                assert forall|k: int| 0 <= k < i implies {
                    let e = #[trigger] entries@[k].expense.currency@;
                    count_in(entries@, e) < c || (count_in(entries@, e) == c && !str_lt(e, d@))
                } by {
                    let e = entries@[k].expense.currency@;
                    if count_in(entries@, e) == c {
                        if str_lt(e, d@) {
                            lemma_str_lt_trans(e, d@, old_best);
                        }
                    }
                }
                lemma_str_lt_irrefl(d@);
            }
            best = d.clone();
            best_count = c;
        } else {
            proof {
                if c == best_count {
                    assert(!str_lt(d@, best@));
                }
            }
        }
        i = i + 1;
    }
    proof {
        let k = choose|k: int| 0 <= k < n && #[trigger] entries@[k].expense.currency@ == best@;
        assert(has_currency(entries@, best@));
    }
    Some(best)
}

} // verus!
