//! What the command line prints: the listing table, the per-currency status
//! lines, and the JSON the bar widget reads. Hand-rolled, so every byte of it
//! is stated here.
use vstd::prelude::*;

use crate::fx::{convert_cents, converted, label_text, rate_current, Rate, Stamp};
use crate::ledger::{Entry, Status};
use crate::money::{format_amount, format_cents};
use crate::period::{date_text, period_text, signed_text, Date, Period};
use crate::text::{chars_of, dec, dec_chars, push_char, push_chars, push_str};
use crate::totals::{grouped_totals, is_primary, primary_currency, totals, Total};

verus! {

// ---- numbers -------------------------------------------------------------------

/// Appends `n` as `{}` writes it.
pub fn push_signed(s: &mut String, n: i64)
    ensures
        final(s)@ == old(s)@ + signed_text(n as int),
{
    if n < 0 {
        push_char(s, '-');
        push_chars(s, &dec_chars((-(n as i128)) as u64));
    } else {
        push_chars(s, &dec_chars(n as u64));
    }
    proof {
        assert(final(s)@ =~= old(s)@ + signed_text(n as int));
    }
}

// ---- the table -----------------------------------------------------------------

/// One listing row: id, mark, due date, name, category, amount, tab-separated.
pub open spec fn entry_row(e: Entry) -> Seq<char> {
    signed_text(e.expense.id as int) + "\t"@ + e.status.mark_text() + "\t"@ + date_text(e.due_date)
        + "\t"@ + e.expense.name@ + "\t"@ + match e.expense.category {
        Some(c) => c@,
        None => Seq::<char>::empty(),
    } + "\t"@ + e.expense.currency@ + " "@ + format_amount(e.expense.amount_cents as int)
}

/// The human table's row for one entry.
pub fn entry_line(e: &Entry) -> (s: String)
    ensures
        s@ == entry_row(*e),
{
    let mut s = String::new();
    push_signed(&mut s, e.expense.id);
    push_str(&mut s, "\t");
    push_str(&mut s, e.status.mark());
    push_str(&mut s, "\t");
    push_str(&mut s, e.due_date.to_string().as_str());
    push_str(&mut s, "\t");
    push_str(&mut s, e.expense.name.as_str());
    push_str(&mut s, "\t");
    match &e.expense.category {
        Some(c) => push_str(&mut s, c.as_str()),
        None => {},
    }
    push_str(&mut s, "\t");
    push_str(&mut s, e.expense.currency.as_str());
    push_str(&mut s, " ");
    push_str(&mut s, format_cents(e.expense.amount_cents).as_str());
    proof {
        assert(s@ =~= entry_row(*e));
    }
    s
}

/// The human table: one row per entry.
pub fn entry_lines(entries: &[Entry]) -> (r: Vec<String>)
    ensures
        r@.len() == entries@.len(),
        forall|i: int| 0 <= i < entries@.len() ==> #[trigger] r@[i]@ == entry_row(entries@[i]),
{
    let mut r: Vec<String> = Vec::new();
    let mut i: usize = 0;
    while i < entries.len()
        invariant
            0 <= i <= entries@.len(),
            r@.len() == i,
            forall|k: int| 0 <= k < i ==> #[trigger] r@[k]@ == entry_row(entries@[k]),
        decreases entries@.len() - i,
    {
        r.push(entry_line(&entries[i]));
        i = i + 1;
    }
    r
}

// ---- status lines --------------------------------------------------------------

/// How many entries in currency `c` have a status `pick` accepts.
pub open spec fn count_where(es: Seq<Entry>, c: Option<Seq<char>>, pick: spec_fn(Status) -> bool) -> nat
    decreases es.len(),
{
    if es.len() == 0 {
        0
    } else {
        count_where(es.drop_last(), c, pick) + if (c is None || c == Some(es.last().expense.currency@))
            && pick(es.last().status) {
            1nat
        } else {
            0nat
        }
    }
}

pub open spec fn is_pending(s: Status) -> bool {
    s != Status::Paid
}

pub open spec fn is_overdue(s: Status) -> bool {
    s == Status::Overdue
}

/// How many entries (of currency `c`, or of any when `None`) are pending, and
/// how many overdue.
pub fn count_open(entries: &[Entry], c: Option<&String>) -> (r: (usize, usize))
    ensures
        r.0 == count_where(
            entries@,
            match c {
                Some(x) => Some(x@),
                None => None,
            },
            |s: Status| is_pending(s),
        ),
        r.1 == count_where(
            entries@,
            match c {
                Some(x) => Some(x@),
                None => None,
            },
            |s: Status| is_overdue(s),
        ),
{
    let ghost cv = match c {
        Some(x) => Some(x@),
        None => None,
    };
    let mut pending: usize = 0;
    let mut overdue: usize = 0;
    let mut i: usize = 0;
    while i < entries.len()
        invariant
            0 <= i <= entries@.len(),
            cv == (match c {
                Some(x) => Some(x@),
                None => None::<Seq<char>>,
            }),
            pending == count_where(entries@.take(i as int), cv, |s: Status| is_pending(s)),
            overdue == count_where(entries@.take(i as int), cv, |s: Status| is_overdue(s)),
            pending <= i,
            overdue <= i,
        decreases entries@.len() - i,
    {
        let e = &entries[i];
        proof {
            assert(entries@.take(i + 1).drop_last() =~= entries@.take(i as int));
            assert(entries@.take(i + 1).last() == *e);
        }
        let counts = match c {
            Some(x) => e.expense.currency == *x,
            None => true,
        };
        if counts && e.status != Status::Paid {
            pending = pending + 1;
        }
        if counts && e.status == Status::Overdue {
            overdue = overdue + 1;
        }
        i = i + 1;
    }
    assert(entries@.take(entries@.len() as int) =~= entries@);
    (pending, overdue)
}

/// "USD 0.00 / 20.00 · 1 pending, 0 overdue".
pub open spec fn total_line(es: Seq<Entry>, t: Total) -> Seq<char> {
    t.currency@ + " "@ + format_amount(t.paid_cents as int) + " / "@ + format_amount(
        t.due_cents as int,
    ) + " \u{b7} "@ + dec(count_where(es, Some(t.currency@), |s: Status| is_pending(s))) + " pending, "@
        + dec(count_where(es, Some(t.currency@), |s: Status| is_overdue(s))) + " overdue"@
}

/// The line under a total: what it is worth in the primary currency, at which
/// rate, and how old that rate is once it stopped being current.
pub open spec fn annotation_line(approx_cents: int, primary: Seq<char>, r: Rate, now: Stamp) -> Seq<char> {
    "    \u{2248} "@ + primary + " "@ + format_amount(approx_cents) + " "@ + label_text(r, now)
}

/// The annotation a total gets, if any.
pub open spec fn total_annotation(t: Total, primary: Option<Seq<char>>, rate: Option<Rate>, now: Stamp) -> Seq<Seq<char>> {
    match (primary, rate) {
        (Some(p), Some(r)) => match converted(t.due_cents as int, t.currency@, p, r.rate_centavos as int) {
            Some(a) => seq![annotation_line(a, p, r, now)],
            None => seq![],
        },
        _ => seq![],
    }
}

/// The status block for totals `ts`: one line per currency, each followed by
/// its annotation when there is one.
pub open spec fn total_lines(es: Seq<Entry>, ts: Seq<Total>, primary: Option<Seq<char>>, rate: Option<Rate>, now: Stamp) -> Seq<Seq<char>>
    decreases ts.len(),
{
    if ts.len() == 0 {
        seq![]
    } else {
        total_lines(es, ts.drop_last(), primary, rate, now).push(total_line(es, ts.last())) + total_annotation(
            ts.last(),
            primary,
            rate,
            now,
        )
    }
}

/// `p` is what `primary_currency` answers for `es`.
pub open spec fn primary_of(es: Seq<Entry>, p: Option<Seq<char>>) -> bool {
    match p {
        None => es.len() == 0,
        Some(c) => is_primary(es, c),
    }
}

/// What `status` prints: "nothing due" for a period with no totals (an
/// answer, not a blank screen), else one line per currency with its pending
/// and overdue counts, each followed by its annotation when there is a rate.
pub open spec fn status_text(es: Seq<Entry>, period: Period, ts: Seq<Total>, primary: Option<Seq<char>>, rate: Option<Rate>, now: Stamp) -> Seq<Seq<char>> {
    if ts.len() == 0 {
        seq![period_text(period) + "\tnothing due"@]
    } else {
        total_lines(es, ts, primary, rate, now)
    }
}

/// The annotation line for a total.
pub fn annotation(approx_cents: i64, primary: &str, rate: &Rate, now: Stamp) -> (s: String)
    requires
        now.valid(),
    ensures
        s@ == annotation_line(approx_cents as int, primary@, *rate, now),
{
    let mut s = String::new();
    push_str(&mut s, "    \u{2248} ");
    push_str(&mut s, primary);
    push_str(&mut s, " ");
    push_str(&mut s, format_cents(approx_cents).as_str());
    push_str(&mut s, " ");
    push_str(&mut s, rate.label(now).as_str());
    proof {
        assert(s@ =~= annotation_line(approx_cents as int, primary@, *rate, now));
    }
    s
}

/// What a total is worth in the primary currency, or `None` when there is
/// nothing to say: no rate, the primary currency itself, or a pair the rate
/// does not describe.
pub fn approx_cents(t: &Total, primary: Option<&str>, rate: Option<&Rate>) -> (r: Option<i64>)
    ensures
        match (primary, rate) {
            (Some(p), Some(q)) => match r {
                Some(v) => converted(t.due_cents as int, t.currency@, p@, q.rate_centavos as int)
                    == Some(v as int),
                None => converted(t.due_cents as int, t.currency@, p@, q.rate_centavos as int) is None,
            },
            _ => r is None,
        },
{
    match (primary, rate) {
        (Some(p), Some(q)) => convert_cents(t.due_cents, t.currency.as_str(), p, q.rate_centavos),
        _ => None,
    }
}

/// The lines `status` prints for a period. Counts are per currency: a global
/// count printed next to a currency's total would read as that currency's.
pub fn status_lines(entries: &[Entry], period: Period, rate: Option<&Rate>, now: Stamp) -> (r: Vec<String>)
    requires
        now.valid(),
    ensures
        exists|ts: Seq<Total>, p: Option<Seq<char>>|
            grouped_totals(ts, entries@) && primary_of(entries@, p) && r@.map_values(|l: String| l@)
                == status_text(
                entries@,
                period,
                ts,
                p,
                match rate {
                    Some(q) => Some(*q),
                    None => None,
                },
                now,
            ),
{
    let ts = totals(entries);
    let primary = primary_currency(entries);
    let ghost pv = match &primary {
        Some(c) => Some(c@),
        None => None::<Seq<char>>,
    };
    let ghost rv = match rate {
        Some(q) => Some(*q),
        None => None::<Rate>,
    };
    assert(primary_of(entries@, pv));
    let mut out: Vec<String> = Vec::new();
    if ts.len() == 0 {
        let mut s = period.to_string();
        push_str(&mut s, "\tnothing due");
        out.push(s);
        proof {
            assert(out@.map_values(|l: String| l@) =~= status_text(entries@, period, ts@, pv, rv, now));
            assert(primary_of(entries@, pv));
        }
        return out;
    }
    let mut i: usize = 0;
    while i < ts.len()
        invariant
            0 <= i <= ts@.len(),
            now.valid(),
            pv == (match &primary {
                Some(c) => Some(c@),
                None => None::<Seq<char>>,
            }),
            rv == (match rate {
                Some(q) => Some(*q),
                None => None::<Rate>,
            }),
            out@.map_values(|l: String| l@) == total_lines(entries@, ts@.take(i as int), pv, rv, now),
            grouped_totals(ts@, entries@),
            primary_of(entries@, pv),
            ts@.len() > 0,
        decreases ts@.len() - i,
    {
        let t = &ts[i];
        let ghost before = out@.map_values(|l: String| l@);
        let (pending, overdue) = count_open(entries, Some(&t.currency));
        let mut line = String::new();
        push_str(&mut line, t.currency.as_str());
        push_str(&mut line, " ");
        push_str(&mut line, format_cents(t.paid_cents).as_str());
        push_str(&mut line, " / ");
        push_str(&mut line, format_cents(t.due_cents).as_str());
        push_str(&mut line, " \u{b7} ");
        push_chars(&mut line, &dec_chars(pending as u64));
        push_str(&mut line, " pending, ");
        push_chars(&mut line, &dec_chars(overdue as u64));
        push_str(&mut line, " overdue");
        assert(line@ =~= total_line(entries@, *t));
        out.push(line);
        let ghost mid = out@.map_values(|l: String| l@);
        assert(mid =~= before.push(total_line(entries@, *t)));
        match (&primary, rate) {
            (Some(p), Some(q)) => {
                match approx_cents(t, Some(p.as_str()), Some(q)) {
                    Some(a) => {
                        out.push(annotation(a, p.as_str(), q, now));
                    },
                    None => {},
                }
            },
            _ => {},
        }
        proof {
            assert(ts@.take(i + 1).drop_last() =~= ts@.take(i as int));
            assert(ts@.take(i + 1).last() == *t);
            assert(out@.map_values(|l: String| l@) =~= total_lines(entries@, ts@.take(i + 1), pv, rv, now));
        }
        i = i + 1;
    }
    proof {
        assert(ts@.take(ts@.len() as int) =~= ts@);
        assert(out@.map_values(|l: String| l@) == status_text(entries@, period, ts@, pv, rv, now));
    }
    out
}


// ---- JSON ----------------------------------------------------------------------
//
// Two fixed shapes, written by hand. Every key is present even when its value
// is zero or absent, so a reader never has to tell "missing" from "none".

/// A hexadecimal digit, lower case.
pub open spec fn hex_char(d: nat) -> char {
    if d < 10 {
        (d + 48) as char
    } else {
        (d + 87) as char
    }
}

/// How one character is written inside a JSON string: quote, backslash and
/// the common controls by their short escapes, other controls as `\u00xx`.
pub open spec fn esc_char(c: char) -> Seq<char> {
    if c == '"' {
        "\\\""@
    } else if c == '\\' {
        "\\\\"@
    } else if c == '\n' {
        "\\n"@
    } else if c == '\r' {
        "\\r"@
    } else if c == '\t' {
        "\\t"@
    } else if (c as u32) < 0x20 {
        "\\u00"@ + seq![hex_char((c as u32 / 16) as nat), hex_char((c as u32 % 16) as nat)]
    } else {
        seq![c]
    }
}

/// `s` escaped for the inside of a JSON string.
pub open spec fn esc(s: Seq<char>) -> Seq<char>
    decreases s.len(),
{
    if s.len() == 0 {
        Seq::<char>::empty()
    } else {
        esc(s.drop_last()) + esc_char(s.last())
    }
}

pub open spec fn json_string(s: Seq<char>) -> Seq<char> {
    "\""@ + esc(s) + "\""@
}

pub open spec fn json_opt_string(s: Option<Seq<char>>) -> Seq<char> {
    match s {
        Some(v) => json_string(v),
        None => "null"@,
    }
}

pub open spec fn json_opt_int(n: Option<int>) -> Seq<char> {
    match n {
        Some(v) => signed_text(v),
        None => "null"@,
    }
}

pub open spec fn json_bool(b: bool) -> Seq<char> {
    if b {
        "true"@
    } else {
        "false"@
    }
}

/// `parts` separated by commas.
pub open spec fn join_commas(parts: Seq<Seq<char>>) -> Seq<char>
    decreases parts.len(),
{
    if parts.len() == 0 {
        Seq::<char>::empty()
    } else if parts.len() == 1 {
        parts[0]
    } else {
        join_commas(parts.drop_last()) + ","@ + parts.last()
    }
}

fn hex_digit(d: u32) -> (c: char)
    requires
        d < 16,
    ensures
        c == hex_char(d as nat),
{
    if d < 10 {
        ((d as u8) + 48u8) as char
    } else {
        ((d as u8) + 87u8) as char
    }
}

/// Appends `t` escaped for the inside of a JSON string.
fn push_escaped(s: &mut String, t: &str)
    ensures
        final(s)@ == old(s)@ + esc(t@),
{
    let cs = chars_of(t);
    let ghost start = s@;
    let mut i: usize = 0;
    while i < cs.len()
        invariant
            0 <= i <= cs@.len(),
            cs@ == t@,
            s@ == start + esc(cs@.take(i as int)),
        decreases cs@.len() - i,
    {
        let c = cs[i];
        let ghost before = s@;
        if c == '"' {
            push_str(s, "\\\"");
        } else if c == '\\' {
            push_str(s, "\\\\");
        } else if c == '\n' {
            push_str(s, "\\n");
        } else if c == '\r' {
            push_str(s, "\\r");
        } else if c == '\t' {
            push_str(s, "\\t");
        } else if (c as u32) < 0x20 {
            push_str(s, "\\u00");
            let u = c as u32;
            push_char(s, hex_digit(u / 16));
            push_char(s, hex_digit(u % 16));
        } else {
            push_char(s, c);
        }
        proof {
            assert(s@ =~= before + esc_char(c));
            assert(cs@.take(i + 1).drop_last() =~= cs@.take(i as int));
            assert(cs@.take(i + 1).last() == c);
        }
        i = i + 1;
    }
    proof {
        assert(cs@.take(cs@.len() as int) =~= cs@);
    }
}

fn push_json_string(s: &mut String, t: &str)
    ensures
        final(s)@ == old(s)@ + json_string(t@),
{
    let ghost start = s@;
    push_str(s, "\"");
    push_escaped(s, t);
    push_str(s, "\"");
    proof {
        assert(s@ =~= start + json_string(t@));
    }
}

fn push_json_opt_string(s: &mut String, t: &Option<String>)
    ensures
        final(s)@ == old(s)@ + json_opt_string(
            match t {
                Some(v) => Some(v@),
                None => None,
            },
        ),
{
    match t {
        Some(v) => push_json_string(s, v.as_str()),
        None => push_str(s, "null"),
    }
}

fn push_json_opt_int(s: &mut String, n: Option<i64>)
    ensures
        final(s)@ == old(s)@ + json_opt_int(
            match n {
                Some(v) => Some(v as int),
                None => None,
            },
        ),
{
    match n {
        Some(v) => push_signed(s, v),
        None => push_str(s, "null"),
    }
}

/// `{"currency":…,"dueCents":…,"paidCents":…,"approxCents":…}`.
pub open spec fn total_json_text(t: Total, approx: Option<int>) -> Seq<char> {
    "{\"currency\":"@ + json_string(t.currency@) + ",\"dueCents\":"@ + signed_text(t.due_cents as int)
        + ",\"paidCents\":"@ + signed_text(t.paid_cents as int) + ",\"approxCents\":"@ + json_opt_int(
        approx,
    ) + "}"@
}

/// The rate itself, so a surface can show what produced a conversion without
/// recomputing anything. `stale` holds when the rate is not current at
/// `now`: past its TTL, or served after a failed refresh.
pub open spec fn fx_json_text(r: Rate, now: Stamp) -> Seq<char> {
    "{\"casa\":"@ + json_string(r.casa@) + ",\"base\":"@ + json_string(r.base@) + ",\"quote\":"@
        + json_string(r.quote@) + ",\"rateCentavos\":"@ + signed_text(r.rate_centavos as int)
        + ",\"fetchedAt\":"@ + json_string(r.fetched_at@) + ",\"sourceUpdatedAt\":"@ + json_opt_string(
        match r.source_updated_at {
            Some(v) => Some(v@),
            None => None,
        },
    ) + ",\"stale\":"@ + json_bool(!rate_current(r, now)) + "}"@
}

/// One item: `{"id":…,"name":…,"category":…,"currency":…,"amountCents":…,
/// "paidCents":…,"dueDate":"YYYY-MM-DD","status":…}`.
pub open spec fn entry_json_text(e: Entry) -> Seq<char> {
    "{\"id\":"@ + signed_text(e.expense.id as int) + ",\"name\":"@ + json_string(e.expense.name@)
        + ",\"category\":"@ + json_opt_string(
        match e.expense.category {
            Some(v) => Some(v@),
            None => None,
        },
    ) + ",\"currency\":"@ + json_string(e.expense.currency@) + ",\"amountCents\":"@ + signed_text(
        e.expense.amount_cents as int,
    ) + ",\"paidCents\":"@ + json_opt_int(
        match e.paid_cents {
            Some(v) => Some(v as int),
            None => None,
        },
    ) + ",\"dueDate\":\""@ + date_text(e.due_date) + "\",\"status\":"@ + json_string(e.status.name())
        + "}"@
}

/// What a total is worth in the primary currency, when there is both a
/// primary currency and a rate describing the pair.
pub open spec fn approx_of(t: Total, primary: Option<Seq<char>>, rate: Option<Rate>) -> Option<int> {
    match (primary, rate) {
        (Some(p), Some(r)) => converted(t.due_cents as int, t.currency@, p, r.rate_centavos as int),
        _ => None,
    }
}

/// The document's opening keys: period, today, the global pending and
/// overdue counts, the primary currency and the rate (`null` when there is
/// none).
pub open spec fn json_head(es: Seq<Entry>, period: Period, today: Date, primary: Option<Seq<char>>, rate: Option<Rate>, now: Stamp) -> Seq<char> {
    "{\"period\":\""@ + period_text(period) + "\",\"today\":\""@ + date_text(today) + "\",\"pending\":"@
        + dec(count_where(es, None, |s: Status| is_pending(s))) + ",\"overdue\":"@ + dec(
        count_where(es, None, |s: Status| is_overdue(s)),
    ) + ",\"primaryCurrency\":"@ + json_opt_string(primary) + ",\"fx\":"@ + match rate {
        Some(r) => fx_json_text(r, now),
        None => "null"@,
    }
}

/// One JSON total per element of `ts`, each with its approximation.
pub open spec fn totals_json_parts(ts: Seq<Total>, primary: Option<Seq<char>>, rate: Option<Rate>) -> Seq<Seq<char>> {
    Seq::new(ts.len(), |i: int| total_json_text(ts[i], approx_of(ts[i], primary, rate)))
}

/// The whole document: the opening keys, one total per currency, and the
/// items when asked for.
pub open spec fn json_text(
    es: Seq<Entry>,
    period: Period,
    today: Date,
    with_items: bool,
    ts: Seq<Total>,
    primary: Option<Seq<char>>,
    rate: Option<Rate>,
    now: Stamp,
) -> Seq<char> {
    json_head(es, period, today, primary, rate, now) + ",\"totals\":["@ + join_commas(
        totals_json_parts(ts, primary, rate),
    ) + "]"@ + if with_items {
        ",\"items\":["@ + join_commas(es.map_values(|e: Entry| entry_json_text(e))) + "]"@
    } else {
        Seq::<char>::empty()
    } + "}"@
}

fn total_json(t: &Total, approx: Option<i64>) -> (s: String)
    ensures
        s@ == total_json_text(
            *t,
            match approx {
                Some(v) => Some(v as int),
                None => None,
            },
        ),
{
    let mut s = String::new();
    push_str(&mut s, "{\"currency\":");
    push_json_string(&mut s, t.currency.as_str());
    push_str(&mut s, ",\"dueCents\":");
    push_signed(&mut s, t.due_cents);
    push_str(&mut s, ",\"paidCents\":");
    push_signed(&mut s, t.paid_cents);
    push_str(&mut s, ",\"approxCents\":");
    push_json_opt_int(&mut s, approx);
    push_str(&mut s, "}");
    proof {
        assert(s@ =~= total_json_text(
            *t,
            match approx {
                Some(v) => Some(v as int),
                None => None,
            },
        ));
    }
    s
}

/// The rate as JSON, `stale` judged at `now` and by the rate's mark.
pub fn fx_json(rate: &Rate, now: Stamp) -> (s: String)
    requires
        now.valid(),
    ensures
        s@ == fx_json_text(*rate, now),
{
    let mut s = String::new();
    push_str(&mut s, "{\"casa\":");
    push_json_string(&mut s, rate.casa.as_str());
    push_str(&mut s, ",\"base\":");
    push_json_string(&mut s, rate.base.as_str());
    push_str(&mut s, ",\"quote\":");
    push_json_string(&mut s, rate.quote.as_str());
    push_str(&mut s, ",\"rateCentavos\":");
    push_signed(&mut s, rate.rate_centavos);
    push_str(&mut s, ",\"fetchedAt\":");
    push_json_string(&mut s, rate.fetched_at.as_str());
    push_str(&mut s, ",\"sourceUpdatedAt\":");
    push_json_opt_string(&mut s, &rate.source_updated_at);
    push_str(&mut s, ",\"stale\":");
    if rate.is_current(now) {
        push_str(&mut s, "false");
    } else {
        push_str(&mut s, "true");
    }
    push_str(&mut s, "}");
    proof {
        assert(s@ =~= fx_json_text(*rate, now));
    }
    s
}

/// One item as JSON.
pub fn entry_json(e: &Entry) -> (s: String)
    ensures
        s@ == entry_json_text(*e),
{
    let mut s = String::new();
    push_str(&mut s, "{\"id\":");
    push_signed(&mut s, e.expense.id);
    push_str(&mut s, ",\"name\":");
    push_json_string(&mut s, e.expense.name.as_str());
    push_str(&mut s, ",\"category\":");
    push_json_opt_string(&mut s, &e.expense.category);
    push_str(&mut s, ",\"currency\":");
    push_json_string(&mut s, e.expense.currency.as_str());
    push_str(&mut s, ",\"amountCents\":");
    push_signed(&mut s, e.expense.amount_cents);
    push_str(&mut s, ",\"paidCents\":");
    push_json_opt_int(&mut s, e.paid_cents);
    push_str(&mut s, ",\"dueDate\":\"");
    push_str(&mut s, e.due_date.to_string().as_str());
    push_str(&mut s, "\",\"status\":");
    push_json_string(&mut s, e.status.as_str());
    push_str(&mut s, "}");
    proof {
        assert(s@ =~= entry_json_text(*e));
    }
    s
}


/// Appends `parts` separated by commas.
fn push_joined(s: &mut String, parts: &Vec<String>)
    ensures
        final(s)@ == old(s)@ + join_commas(parts@.map_values(|p: String| p@)),
{
    let ghost start = s@;
    let ghost views = parts@.map_values(|p: String| p@);
    let mut i: usize = 0;
    while i < parts.len()
        invariant
            0 <= i <= parts@.len(),
            views == parts@.map_values(|p: String| p@),
            s@ == start + join_commas(views.take(i as int)),
        decreases parts@.len() - i,
    {
        if i > 0 {
            push_str(s, ",");
        }
        push_str(s, parts[i].as_str());
        proof {
            assert(views.take(i + 1).drop_last() =~= views.take(i as int));
            assert(views.take(i + 1).last() == parts@[i as int]@);
            if i == 0 {
                assert(s@ =~= start + join_commas(views.take(1)));
            } else {
                assert(s@ =~= start + join_commas(views.take(i + 1)));
            }
        }
        i = i + 1;
    }
    proof {
        assert(views.take(views.len() as int) =~= views);
    }
}

fn total_json_parts(ts: &Vec<Total>, primary: &Option<String>, rate: Option<&Rate>) -> (r: Vec<String>)
    ensures
        r@.map_values(|p: String| p@) == totals_json_parts(
            ts@,
            match primary {
                Some(c) => Some(c@),
                None => None,
            },
            match rate {
                Some(q) => Some(*q),
                None => None,
            },
        ),
{
    let ghost pv = match primary {
        Some(c) => Some(c@),
        None => None::<Seq<char>>,
    };
    let ghost rv = match rate {
        Some(q) => Some(*q),
        None => None::<Rate>,
    };
    let mut tj: Vec<String> = Vec::new();
    let mut i: usize = 0;
    while i < ts.len()
        invariant
            0 <= i <= ts@.len(),
            pv == (match primary {
                Some(c) => Some(c@),
                None => None::<Seq<char>>,
            }),
            rv == (match rate {
                Some(q) => Some(*q),
                None => None::<Rate>,
            }),
            tj@.len() == i,
            forall|k: int| 0 <= k < i ==> #[trigger] tj@[k]@ == total_json_text(ts@[k], approx_of(ts@[k], pv, rv)),
        decreases ts@.len() - i,
    {
        let t = &ts[i];
        let a = match (primary, rate) {
            (Some(p), Some(q)) => approx_cents(t, Some(p.as_str()), Some(q)),
            _ => None,
        };
        let line = total_json(t, a);
        tj.push(line);
        i = i + 1;
    }
    proof {
        assert(tj@.map_values(|p: String| p@) =~= totals_json_parts(ts@, pv, rv));
    }
    tj
}

fn items_json_parts(entries: &[Entry]) -> (r: Vec<String>)
    ensures
        r@.map_values(|p: String| p@) == entries@.map_values(|e: Entry| entry_json_text(e)),
{
    let mut items: Vec<String> = Vec::new();
    let mut j: usize = 0;
    while j < entries.len()
        invariant
            0 <= j <= entries@.len(),
            items@.len() == j,
            forall|k: int| 0 <= k < j ==> #[trigger] items@[k]@ == entry_json_text(entries@[k]),
        decreases entries@.len() - j,
    {
        items.push(entry_json(&entries[j]));
        j = j + 1;
    }
    proof {
        assert(items@.map_values(|p: String| p@) =~= entries@.map_values(|e: Entry| entry_json_text(e)));
    }
    items
}

fn json_head_string(entries: &[Entry], period: Period, today: Date, primary: &Option<String>, rate: Option<&Rate>, now: Stamp) -> (s: String)
    requires
        now.valid(),
    ensures
        s@ == json_head(
            entries@,
            period,
            today,
            match primary {
                Some(c) => Some(c@),
                None => None,
            },
            match rate {
                Some(q) => Some(*q),
                None => None,
            },
            now,
        ),
{
    let (pending, overdue) = count_open(entries, None);
    let mut s = String::new();
    push_str(&mut s, "{\"period\":\"");
    push_str(&mut s, period.to_string().as_str());
    push_str(&mut s, "\",\"today\":\"");
    push_str(&mut s, today.to_string().as_str());
    push_str(&mut s, "\",\"pending\":");
    push_chars(&mut s, &dec_chars(pending as u64));
    push_str(&mut s, ",\"overdue\":");
    push_chars(&mut s, &dec_chars(overdue as u64));
    push_str(&mut s, ",\"primaryCurrency\":");
    push_json_opt_string(&mut s, primary);
    push_str(&mut s, ",\"fx\":");
    match rate {
        Some(q) => push_str(&mut s, fx_json(q, now).as_str()),
        None => push_str(&mut s, "null"),
    }
    proof {
        let pv = match primary {
            Some(c) => Some(c@),
            None => None::<Seq<char>>,
        };
        let rv = match rate {
            Some(q) => Some(*q),
            None => None::<Rate>,
        };
        assert(s@ =~= json_head(entries@, period, today, pv, rv, now));
    }
    s
}

/// What the bar widget reads for a period. Field-stable: every key is there
/// even at zero, `fx` is `null` rather than missing when there is no rate,
/// and `items` appears exactly when asked for.
#[verifier::spinoff_prover]
#[verifier::rlimit(30)]
pub fn json(entries: &[Entry], period: Period, today: Date, with_items: bool, rate: Option<&Rate>, now: Stamp) -> (s: String)
    requires
        now.valid(),
    ensures
        exists|ts: Seq<Total>, p: Option<Seq<char>>|
            grouped_totals(ts, entries@) && primary_of(entries@, p) && s@ == json_text(
                entries@,
                period,
                today,
                with_items,
                ts,
                p,
                match rate {
                    Some(q) => Some(*q),
                    None => None,
                },
                now,
            ),
{
    let ts = totals(entries);
    let primary = primary_currency(entries);
    let ghost pv = match &primary {
        Some(c) => Some(c@),
        None => None::<Seq<char>>,
    };
    let ghost rv = match rate {
        Some(q) => Some(*q),
        None => None::<Rate>,
    };
    let mut s = json_head_string(entries, period, today, &primary, rate, now);
    let ghost head = s@;
    push_str(&mut s, ",\"totals\":[");
    push_joined(&mut s, &total_json_parts(&ts, &primary, rate));
    push_str(&mut s, "]");
    let ghost mid = s@;
    assert(mid =~= head + ",\"totals\":["@ + join_commas(totals_json_parts(ts@, pv, rv)) + "]"@);
    if with_items {
        push_str(&mut s, ",\"items\":[");
        push_joined(&mut s, &items_json_parts(entries));
        push_str(&mut s, "]");
    }
    push_str(&mut s, "}");
    proof {
        assert(s@ =~= json_text(entries@, period, today, with_items, ts@, pv, rv, now));
        assert(primary_of(entries@, pv));
    }
    s
}


/// A rate annotates a total, it never restates one: the primary currency's
/// own total is never approximated, and without a rate nothing is.
pub proof fn the_primary_total_is_never_annotated(t: Total, primary: Option<Seq<char>>, rate: Option<Rate>)
    ensures
        primary == Some(t.currency@) ==> approx_of(t, primary, rate) is None,
        rate is None ==> approx_of(t, primary, rate) is None,
        primary is None ==> approx_of(t, primary, rate) is None,
{
}


/// `count_where` counts the entries a filter keeps.
proof fn lemma_count_where_filter(es: Seq<Entry>, c: Option<Seq<char>>, pick: spec_fn(Status) -> bool, f: spec_fn(Entry) -> bool)
    requires
        forall|e: Entry| #[trigger] f(e) == ((c is None || c == Some(e.expense.currency@)) && pick(e.status)),
    ensures
        count_where(es, c, pick) == es.filter(f).len(),
    decreases es.len(),
{
    if es.len() > 0 {
        lemma_count_where_filter(es.drop_last(), c, pick, f);
        assert(es =~= es.drop_last().push(es.last()));
        es.drop_last().lemma_filter_push(es.last(), f);
    } else {
        assert(es.filter(f) =~= es) by {
            reveal(Seq::filter);
        }
    }
}

/// Each currency's status line counts that currency's entries: as pending,
/// those not paid; as overdue, exactly those whose status is overdue. The
/// overdue figure never exceeds the pending one.
pub proof fn status_lines_count_each_currency(es: Seq<Entry>, t: Total)
    ensures
        total_line(es, t) == t.currency@ + " "@ + format_amount(t.paid_cents as int) + " / "@
            + format_amount(t.due_cents as int) + " \u{b7} "@ + dec(
            es.filter(|e: Entry| e.expense.currency@ == t.currency@ && e.status != Status::Paid).len(),
        ) + " pending, "@ + dec(
            es.filter(|e: Entry| e.expense.currency@ == t.currency@ && e.status == Status::Overdue).len(),
        ) + " overdue"@,
        es.filter(|e: Entry| e.expense.currency@ == t.currency@ && e.status == Status::Overdue).len()
            <= es.filter(|e: Entry| e.expense.currency@ == t.currency@ && e.status != Status::Paid).len(),
{
    lemma_count_where_filter(
        es,
        Some(t.currency@),
        |s: Status| is_pending(s),
        |e: Entry| e.expense.currency@ == t.currency@ && e.status != Status::Paid,
    );
    lemma_count_where_filter(
        es,
        Some(t.currency@),
        |s: Status| is_overdue(s),
        |e: Entry| e.expense.currency@ == t.currency@ && e.status == Status::Overdue,
    );
    lemma_overdue_within_pending(es, Some(t.currency@));
}

proof fn lemma_overdue_within_pending(es: Seq<Entry>, c: Option<Seq<char>>)
    ensures
        count_where(es, c, |s: Status| is_overdue(s)) <= count_where(es, c, |s: Status| is_pending(s)),
    decreases es.len(),
{
    if es.len() > 0 {
        lemma_overdue_within_pending(es.drop_last(), c);
    }
}

/// The document's counts run over every entry given, in every currency:
/// `pending` is the number not paid, `overdue` the number whose status is
/// overdue, whatever the primary currency or the rate.
pub proof fn json_counts_every_entry(
    es: Seq<Entry>,
    period: Period,
    today: Date,
    primary: Option<Seq<char>>,
    rate: Option<Rate>,
    now: Stamp,
)
    ensures
        json_head(es, period, today, primary, rate, now) == "{\"period\":\""@ + period_text(period)
            + "\",\"today\":\""@ + date_text(today) + "\",\"pending\":"@ + dec(
            es.filter(|e: Entry| e.status != Status::Paid).len(),
        ) + ",\"overdue\":"@ + dec(es.filter(|e: Entry| e.status == Status::Overdue).len())
            + ",\"primaryCurrency\":"@ + json_opt_string(primary) + ",\"fx\":"@ + match rate {
            Some(r) => fx_json_text(r, now),
            None => "null"@,
        },
{
    let fp = |e: Entry| e.status != Status::Paid;
    let fo = |e: Entry| e.status == Status::Overdue;
    lemma_count_where_filter(es, None, |s: Status| is_pending(s), fp);
    lemma_count_where_filter(es, None, |s: Status| is_overdue(s), fo);
}

} // verus!
