//! What the terminal interface writes where: the header, one row per entry,
//! and the status line, each as pieces of text with the tone to draw them
//! in. Only the terminal's own indexed colours are meant to be used, so a
//! tone names a role, never a colour.
use vstd::prelude::*;
use vstd::view::View as _;

use crate::fx::{annotation_text, approx_for, converted, Rate, Stamp};
use crate::ledger::{Entry, Status};
use crate::money::{format_amount, format_cents};
use crate::output::{count_open, count_where, is_overdue, is_pending, primary_of};
use crate::period::{month_name, padded, signed_text, Period};
use crate::text::{dec, dec_chars, push_char, push_chars, push_padded, push_str};
use crate::totals::{grouped_totals, primary_currency, totals, Total};
use crate::tui::{App, Mode};

verus! {

/// The role a piece of text plays on screen.
#[derive(Debug, Clone, Copy, PartialEq, Eq, Structural)]
pub enum Tone {
    Plain,
    /// Secondary text.
    Dim,
    Paid,
    Overdue,
    /// One step below `Dim`: derived, approximate and dated figures.
    Faint,
}

/// A run of text and its tone.
pub struct Piece {
    pub text: String,
    pub tone: Tone,
}

pub open spec fn piece_views(ps: Seq<Piece>) -> Seq<(Seq<char>, Tone)> {
    ps.map_values(|p: Piece| (p.text@, p.tone))
}

fn piece(text: String, tone: Tone) -> (p: Piece)
    ensures
        p.text@ == text@,
        p.tone == tone,
{
    Piece { text, tone }
}

// ---- padding -------------------------------------------------------------------

/// `n` spaces (none when `n` is not positive).
pub open spec fn spaces(n: int) -> Seq<char> {
    Seq::new(
        if n > 0 {
            n as nat
        } else {
            0
        },
        |i: int| ' ',
    )
}

/// `s` left-aligned in a field of `w` characters, as `{:w}` writes a string.
pub open spec fn pad_right(s: Seq<char>, w: int) -> Seq<char> {
    s + spaces(w - s.len())
}

/// `s` right-aligned in a field of `w` characters, as `{:>w}` writes it.
pub open spec fn pad_left(s: Seq<char>, w: int) -> Seq<char> {
    spaces(w - s.len()) + s
}

fn push_spaces(s: &mut String, n: usize)
    ensures
        final(s)@ == old(s)@ + spaces(n as int),
{
    let ghost start = s@;
    let mut i: usize = 0;
    while i < n
        invariant
            0 <= i <= n,
            s@ == start + spaces(i as int),
        decreases n - i,
    {
        push_char(s, ' ');
        assert(s@ =~= start + spaces(i + 1));
        i = i + 1;
    }
}

/// Appends `t` left-aligned in a field of `w` characters.
fn push_pad_right(s: &mut String, t: &str, w: usize)
    ensures
        final(s)@ == old(s)@ + pad_right(t@, w as int),
{
    let n = crate::text::chars_of(t).len();
    push_str(s, t);
    if n < w {
        push_spaces(s, w - n);
    } else {
        push_spaces(s, 0);
    }
    assert(final(s)@ =~= old(s)@ + pad_right(t@, w as int));
}

/// Appends `t` right-aligned in a field of `w` characters.
fn push_pad_left(s: &mut String, t: &str, w: usize)
    ensures
        final(s)@ == old(s)@ + pad_left(t@, w as int),
{
    let n = crate::text::chars_of(t).len();
    if n < w {
        push_spaces(s, w - n);
    } else {
        push_spaces(s, 0);
    }
    push_str(s, t);
    assert(final(s)@ =~= old(s)@ + pad_left(t@, w as int));
}

// ---- rows ------------------------------------------------------------------------

pub open spec fn status_tone(s: Status) -> Tone {
    match s {
        Status::Paid => Tone::Paid,
        Status::Overdue => Tone::Overdue,
        Status::Due => Tone::Plain,
    }
}

/// One list row: the status mark, the due day, the name padded to the
/// column, the category padded to ten, the currency and the amount
/// right-aligned in twelve, and a note when the expense is archived.
pub open spec fn row_pieces(e: Entry, name_width: int) -> Seq<(Seq<char>, Tone)> {
    seq![
        (" "@ + e.status.mark_text() + " "@, status_tone(e.status)),
        (padded(e.due_date.day as int, 2) + "  "@, Tone::Dim),
        (pad_right(e.expense.name@, name_width) + "  "@, Tone::Plain),
        (
            pad_right(
                match e.expense.category {
                    Some(c) => c@,
                    None => Seq::<char>::empty(),
                },
                10,
            ),
            Tone::Dim,
        ),
        (e.expense.currency@ + " "@ + pad_left(format_amount(e.expense.amount_cents as int), 12), Tone::Plain),
    ] + if e.expense.active {
        Seq::<(Seq<char>, Tone)>::empty()
    } else {
        seq![("  archived"@, Tone::Dim)]
    }
}

/// The row for one entry.
pub fn row(e: &Entry, name_width: usize) -> (r: Vec<Piece>)
    ensures
        piece_views(r@) == row_pieces(*e, name_width as int),
{
    let mut r: Vec<Piece> = Vec::new();
    let mut mark = String::new();
    push_str(&mut mark, " ");
    push_str(&mut mark, e.status.mark());
    push_str(&mut mark, " ");
    let tone = match e.status {
        Status::Paid => Tone::Paid,
        Status::Overdue => Tone::Overdue,
        Status::Due => Tone::Plain,
    };
    assert(mark@ =~= " "@ + e.status.mark_text() + " "@);
    r.push(piece(mark, tone));
    let mut day = String::new();
    push_padded(&mut day, e.due_date.day as u64, 2);
    push_str(&mut day, "  ");
    assert(day@ =~= padded(e.due_date.day as int, 2) + "  "@);
    r.push(piece(day, Tone::Dim));
    let mut name = String::new();
    push_pad_right(&mut name, e.expense.name.as_str(), name_width);
    push_str(&mut name, "  ");
    assert(name@ =~= pad_right(e.expense.name@, name_width as int) + "  "@);
    r.push(piece(name, Tone::Plain));
    let mut cat = String::new();
    match &e.expense.category {
        Some(c) => push_pad_right(&mut cat, c.as_str(), 10),
        None => push_spaces(&mut cat, 10),
    }
    assert(cat@ =~= pad_right(
        match e.expense.category {
            Some(c) => c@,
            None => Seq::<char>::empty(),
        },
        10,
    ));
    r.push(piece(cat, Tone::Dim));
    let mut amount = String::new();
    push_str(&mut amount, e.expense.currency.as_str());
    push_str(&mut amount, " ");
    push_pad_left(&mut amount, format_cents(e.expense.amount_cents).as_str(), 12);
    assert(amount@ =~= e.expense.currency@ + " "@ + pad_left(format_amount(e.expense.amount_cents as int), 12));
    r.push(piece(amount, Tone::Plain));
    if !e.expense.active {
        r.push(piece(String::from_str("  archived"), Tone::Dim));
    }
    proof {
        assert(piece_views(r@) =~= row_pieces(*e, name_width as int));
    }
    r
}

/// The longest name among the entries, and never less than eight.
pub open spec fn widest_name(es: Seq<Entry>) -> int
    decreases es.len(),
{
    if es.len() == 0 {
        8
    } else {
        let w = widest_name(es.drop_last());
        let n = es.last().expense.name@.len() as int;
        if n > w {
            n
        } else {
            w
        }
    }
}

/// How wide the name column is.
pub fn name_width(entries: &[Entry]) -> (w: usize)
    ensures
        w == widest_name(entries@),
{
    let mut w: usize = 8;
    let mut i: usize = 0;
    while i < entries.len()
        invariant
            0 <= i <= entries@.len(),
            w == widest_name(entries@.take(i as int)),
        decreases entries@.len() - i,
    {
        proof {
            assert(entries@.take(i + 1).drop_last() =~= entries@.take(i as int));
            assert(entries@.take(i + 1).last() == entries@[i as int]);
        }
        let n = crate::text::chars_of(entries[i].expense.name.as_str()).len();
        if n > w {
            w = n;
        }
        i = i + 1;
    }
    proof {
        assert(entries@.take(entries@.len() as int) =~= entries@);
    }
    w
}

// ---- the header ------------------------------------------------------------------

/// One piece per total, "    USD 0.00 / 20.00", each followed by what it is
/// worth in the primary currency when there is a rate for the pair.
pub open spec fn totals_pieces(ts: Seq<Total>, primary: Option<Seq<char>>, rate: Option<Rate>, now: Stamp) -> Seq<(Seq<char>, Tone)>
    decreases ts.len(),
{
    if ts.len() == 0 {
        seq![]
    } else {
        let t = ts.last();
        totals_pieces(ts.drop_last(), primary, rate, now).push(
            (
                "    "@ + t.currency@ + " "@ + format_amount(t.paid_cents as int) + " / "@ + format_amount(
                    t.due_cents as int,
                ),
                Tone::Dim,
            ),
        ) + match (rate, primary) {
            (Some(r), Some(p)) => match converted(t.due_cents as int, t.currency@, p, r.rate_centavos as int) {
                Some(a) => seq![("  "@ + annotation_text(r, a, p, now), Tone::Faint)],
                None => seq![],
            },
            _ => seq![],
        }
    }
}

/// The header: the month, the totals, and how many entries are pending,
/// drawn as overdue when any is.
pub open spec fn header_pieces(es: Seq<Entry>, period: Period, ts: Seq<Total>, primary: Option<Seq<char>>, rate: Option<Rate>, now: Stamp) -> Seq<(Seq<char>, Tone)> {
    seq![(" "@ + month_name(period.month as int) + seq![' '] + signed_text(period.year as int), Tone::Plain)]
        + totals_pieces(ts, primary, rate, now) + seq![
        (
            "    "@ + dec(count_where(es, None, |s: Status| is_pending(s))) + " pending"@,
            if count_where(es, None, |s: Status| is_overdue(s)) > 0 {
                Tone::Overdue
            } else {
                Tone::Dim
            },
        ),
    ]
}

/// The header of the screen.
pub fn header(app: &App, now: Stamp) -> (r: Vec<Piece>)
    requires
        1 <= app.period.month <= 12,
        now.valid(),
    ensures
        exists|ts: Seq<Total>, p: Option<Seq<char>>|
            grouped_totals(ts, app.entries@) && primary_of(app.entries@, p) && piece_views(r@)
                == header_pieces(app.entries@, app.period, ts, p, app.rate, now),
{
    let ts = totals(app.entries.as_slice());
    let primary = primary_currency(app.entries.as_slice());
    let ghost pv = match &primary {
        Some(c) => Some(c@),
        None => None::<Seq<char>>,
    };
    assert(primary_of(app.entries@, pv));
    let mut r: Vec<Piece> = Vec::new();
    let mut label = String::new();
    push_str(&mut label, " ");
    push_str(&mut label, app.period.label().as_str());
    assert(label@ =~= " "@ + month_name(app.period.month as int) + seq![' '] + signed_text(app.period.year as int));
    r.push(piece(label, Tone::Plain));
    let ghost head = piece_views(r@);
    let mut i: usize = 0;
    while i < ts.len()
        invariant
            0 <= i <= ts@.len(),
            now.valid(),
            pv == (match &primary {
                Some(c) => Some(c@),
                None => None::<Seq<char>>,
            }),
            r@.len() >= 1,
            piece_views(r@) == head + totals_pieces(ts@.take(i as int), pv, app.rate, now),
        decreases ts@.len() - i,
    {
        let t = &ts[i];
        let ghost before = piece_views(r@);
        let mut s = String::new();
        push_str(&mut s, "    ");
        push_str(&mut s, t.currency.as_str());
        push_str(&mut s, " ");
        push_str(&mut s, format_cents(t.paid_cents).as_str());
        push_str(&mut s, " / ");
        push_str(&mut s, format_cents(t.due_cents).as_str());
        assert(s@ =~= "    "@ + t.currency@ + " "@ + format_amount(t.paid_cents as int) + " / "@
            + format_amount(t.due_cents as int));
        r.push(piece(s, Tone::Dim));
        let ghost mid = piece_views(r@);
        assert(mid =~= before.push(
            (
                "    "@ + t.currency@ + " "@ + format_amount(t.paid_cents as int) + " / "@ + format_amount(
                    t.due_cents as int,
                ),
                Tone::Dim,
            ),
        ));
        let p = match &primary {
            Some(c) => Some(c.as_str()),
            None => None,
        };
        match (&app.rate, p) {
            (Some(q), Some(pc)) => {
                match approx_for(Some(q), t, Some(pc)) {
                    Some(a) => {
                        let mut s2 = String::new();
                        push_str(&mut s2, "  ");
                        push_str(&mut s2, q.annotation(a, pc, now).as_str());
                        assert(s2@ =~= "  "@ + annotation_text(*q, a as int, pc@, now));
                        r.push(piece(s2, Tone::Faint));
                        assert(piece_views(r@) =~= mid + seq![("  "@ + annotation_text(*q, a as int, pc@, now), Tone::Faint)]);
                    },
                    None => {},
                }
            },
            _ => {},
        }
        proof {
            assert(ts@.take(i + 1).drop_last() =~= ts@.take(i as int));
            assert(ts@.take(i + 1).last() == *t);
            assert(piece_views(r@) =~= head + totals_pieces(ts@.take(i + 1), pv, app.rate, now));
        }
        i = i + 1;
    }
    let (pending, overdue) = count_open(app.entries.as_slice(), None);
    let mut s = String::new();
    push_str(&mut s, "    ");
    push_chars(&mut s, &dec_chars(pending as u64));
    push_str(&mut s, " pending");
    assert(s@ =~= "    "@ + dec(count_where(app.entries@, None, |s: Status| is_pending(s))) + " pending"@);
    let ghost before_last = piece_views(r@);
    r.push(piece(s, if overdue > 0 {
        Tone::Overdue
    } else {
        Tone::Dim
    }));
    proof {
        assert(ts@.take(ts@.len() as int) =~= ts@);
        assert(label@ == " "@ + month_name(app.period.month as int) + seq![' '] + signed_text(app.period.year as int));
        assert(piece_views(r@) =~= before_last.push(
            (
                "    "@ + dec(count_where(app.entries@, None, |s: Status| is_pending(s))) + " pending"@,
                if count_where(app.entries@, None, |s: Status| is_overdue(s)) > 0 {
                    Tone::Overdue
                } else {
                    Tone::Dim
                },
            ),
        ));
        assert(piece_views(r@) =~= header_pieces(app.entries@, app.period, ts@, pv, app.rate, now));
    }
    r
}

// ---- the status line -------------------------------------------------------------

/// How many of `width` cells a progress bar fills for `paid` of `due`: the
/// paid share of the width rounded half up, none when nothing is due or
/// nothing was paid, and never more than the whole bar.
pub open spec fn filled_cells(paid: int, due: int, width: int) -> int {
    if due <= 0 || paid <= 0 {
        0
    } else {
        let f = (2 * paid * width + due) / (2 * due);
        if f > width {
            width
        } else {
            f
        }
    }
}

/// A bar of `width` cells, the first `filled` of them full.
pub open spec fn bar_text(filled: int, width: int) -> Seq<char> {
    Seq::new(width as nat, |i: int| if i < filled { '\u{2588}' } else { '\u{2591}' })
}

/// A progress bar of `width` cells for `paid` out of `due`.
pub fn progress_bar(paid: i64, due: i64, width: usize) -> (s: String)
    ensures
        s@ == bar_text(filled_cells(paid as int, due as int, width as int), width as int),
{
    let filled: usize = if due <= 0 || paid <= 0 {
        0
    } else if paid >= due {
        width
    } else {
        let p = paid as u128;
        let d = due as u128;
        let w = width as u128;
        assert(2 * p * w + d < 0x1_0000_0000_0000_0000_0000_0000_0000_0000) by (nonlinear_arith)
            requires
                p <= 0x7fff_ffff_ffff_fffe,
                w <= 0xffff_ffff_ffff_ffff,
                d <= 0x7fff_ffff_ffff_ffff,
        ;
        let f = (2 * p * w + d) / (2 * d);
        assert(f <= w) by (nonlinear_arith)
            requires
                f == (2 * p * w + d) / (2 * d),
                p < d,
                d > 0,
        ;
        f as usize
    };
    assert(filled == filled_cells(paid as int, due as int, width as int)) by {
        if due > 0 && paid >= due {
            let pp = paid as int;
            let dd = due as int;
            let ww = width as int;
            assert((2 * pp * ww + dd) / (2 * dd) >= ww) by (nonlinear_arith)
                requires
                    pp >= dd,
                    dd > 0,
                    ww >= 0,
            ;
        }
    }
    let mut s = String::new();
    let mut i: usize = 0;
    while i < width
        invariant
            0 <= i <= width,
            filled <= width,
            s@ == bar_text(filled as int, width as int).take(i as int),
        decreases width - i,
    {
        if i < filled {
            push_char(&mut s, '\u{2588}');
        } else {
            push_char(&mut s, '\u{2591}');
        }
        assert(s@ =~= bar_text(filled as int, width as int).take(i + 1));
        i = i + 1;
    }
    assert(s@ =~= bar_text(filled as int, width as int));
    s
}

/// The share of `due` that `paid` covers, in whole percent from 0 to 100.
pub open spec fn percent_paid(paid: int, due: int) -> int {
    if due <= 0 || paid <= 0 {
        0
    } else if paid * 100 / due > 100 {
        100
    } else {
        paid * 100 / due
    }
}

/// The keys the status line lists in normal mode.
pub open spec fn key_help() -> Seq<char> {
    "space pay \u{00b7} a add \u{00b7} e edit \u{00b7} t archive \u{00b7} x delete \u{00b7} h/l month \u{00b7} tab archived \u{00b7} r rate \u{00b7} q quit"@
}

/// The normal status line: a progress bar and percentage for the primary
/// currency's total, when there is one, then the keys.
pub open spec fn normal_status_pieces(primary_total: Option<Total>) -> Seq<(Seq<char>, Tone)> {
    seq![
        (
            match primary_total {
                Some(t) => " ["@ + bar_text(filled_cells(t.paid_cents as int, t.due_cents as int, 20), 20)
                    + "] "@ + dec(percent_paid(t.paid_cents as int, t.due_cents as int) as nat) + "%  "@,
                None => " "@,
            },
            Tone::Dim,
        ),
        (key_help(), Tone::Dim),
    ]
}

/// The prompt's status line: what it is for, what has been typed, a block
/// cursor, and the expected shape of the line.
pub open spec fn input_status_pieces(buf: Seq<char>, editing: bool) -> Seq<(Seq<char>, Tone)> {
    seq![
        (if editing { " edit: "@ } else { " add: "@ }, Tone::Dim),
        (buf, Tone::Plain),
        ("\u{2588}"@, Tone::Dim),
        ("   <name> <amount> <day> [category]"@, Tone::Dim),
    ]
}

/// The confirmation's status line: the selected expense's name in quotes.
pub open spec fn confirm_status_pieces(selected: Option<Entry>) -> Seq<(Seq<char>, Tone)> {
    seq![
        (" delete "@, Tone::Plain),
        (
            match selected {
                Some(e) => "\""@ + e.expense.name@ + "\""@,
                None => Seq::<char>::empty(),
            },
            Tone::Plain,
        ),
        ("? y/n"@, Tone::Dim),
    ]
}

/// An error's status line.
pub open spec fn error_status_pieces(message: Seq<char>) -> Seq<(Seq<char>, Tone)> {
    seq![(" ! "@, Tone::Overdue), (message, Tone::Overdue)]
}

fn key_help_str() -> (s: &'static str)
    ensures
        s@ == key_help(),
{
    "space pay \u{00b7} a add \u{00b7} e edit \u{00b7} t archive \u{00b7} x delete \u{00b7} h/l month \u{00b7} tab archived \u{00b7} r rate \u{00b7} q quit"
}

/// The total in currency `c`, when `ts` holds one.
pub open spec fn total_in(ts: Seq<Total>, c: Option<Seq<char>>) -> Option<Total>
    decreases ts.len(),
{
    if ts.len() == 0 {
        None
    } else {
        match total_in(ts.drop_last(), c) {
            Some(t) => Some(t),
            None => if c == Some(ts.last().currency@) {
                Some(ts.last())
            } else {
                None
            },
        }
    }
}

/// What the status line shows, given the totals `ts` of the listed entries
/// and their primary currency: the error when there is one (`message` is
/// its text), else what the mode shows; in normal mode, the progress of the
/// primary currency's total.
pub open spec fn status_pieces(app: App, message: Seq<char>, ts: Seq<Total>, primary: Option<Seq<char>>) -> Seq<(Seq<char>, Tone)> {
    if app.error is Some {
        error_status_pieces(message)
    } else {
        match app.mode {
            Mode::Input { buf, editing } => input_status_pieces(buf@, editing is Some),
            Mode::Confirm(_) => confirm_status_pieces(
                if app.sel < app.entries@.len() {
                    Some(app.entries@[app.sel as int])
                } else {
                    None
                },
            ),
            Mode::Normal => normal_status_pieces(total_in(ts, primary)),
        }
    }
}

/// The total of `ts` in currency `c`, when there is one.
fn find_total<'a>(ts: &'a Vec<Total>, c: &Option<String>) -> (r: Option<&'a Total>)
    ensures
        match r {
            Some(t) => total_in(ts@, crate::ledger::opt_string_view(*c)) == Some(*t),
            None => total_in(ts@, crate::ledger::opt_string_view(*c)) is None,
        },
{
    let ghost cv = crate::ledger::opt_string_view(*c);
    let mut i: usize = 0;
    while i < ts.len()
        invariant
            0 <= i <= ts@.len(),
            cv == crate::ledger::opt_string_view(*c),
            total_in(ts@.take(i as int), cv) is None,
        decreases ts@.len() - i,
    {
        proof {
            assert(ts@.take(i + 1).drop_last() =~= ts@.take(i as int));
            assert(ts@.take(i + 1).last() == ts@[i as int]);
        }
        let hit = match c {
            Some(x) => crate::text::str_equal(ts[i].currency.as_str(), x.as_str()),
            None => false,
        };
        if hit {
            proof {
                lemma_total_in_prefix(ts@, cv, (i + 1) as int);
            }
            return Some(&ts[i]);
        }
        i = i + 1;
    }
    proof {
        assert(ts@.take(ts@.len() as int) =~= ts@);
    }
    None
}

/// Once a prefix of `ts` holds the total in `c`, so does `ts`.
proof fn lemma_total_in_prefix(ts: Seq<Total>, c: Option<Seq<char>>, k: int)
    requires
        0 <= k <= ts.len(),
        total_in(ts.take(k), c) is Some,
    ensures
        total_in(ts, c) == total_in(ts.take(k), c),
    decreases ts.len() - k,
{
    if k < ts.len() {
        assert(ts.take(k + 1).drop_last() =~= ts.take(k));
        assert(total_in(ts.take(k + 1), c) == total_in(ts.take(k), c));
        lemma_total_in_prefix(ts, c, k + 1);
    } else {
        assert(ts.take(k) =~= ts);
    }
}

/// The status line.
pub fn status_line(app: &App, message: &str) -> (r: Vec<Piece>)
    ensures
        exists|ts: Seq<Total>, p: Option<Seq<char>>|
            grouped_totals(ts, app.entries@) && primary_of(app.entries@, p) && piece_views(r@)
                == status_pieces(*app, message@, ts, p),
{
    let ts = totals(app.entries.as_slice());
    let primary = primary_currency(app.entries.as_slice());
    let ghost pv = crate::ledger::opt_string_view(primary);
    assert(primary_of(app.entries@, pv));
    let mut r: Vec<Piece> = Vec::new();
    if app.error.is_some() {
        r.push(piece(String::from_str(" ! "), Tone::Overdue));
        r.push(piece(String::from_str(message), Tone::Overdue));
        proof {
            assert(piece_views(r@) =~= status_pieces(*app, message@, ts@, pv));
        }
        return r;
    }
    match &app.mode {
        Mode::Input { buf, editing } => {
            if editing.is_some() {
                r.push(piece(String::from_str(" edit: "), Tone::Dim));
            } else {
                r.push(piece(String::from_str(" add: "), Tone::Dim));
            }
            r.push(piece(buf.clone(), Tone::Plain));
            r.push(piece(String::from_str("\u{2588}"), Tone::Dim));
            r.push(piece(String::from_str("   <name> <amount> <day> [category]"), Tone::Dim));
            proof {
                assert(piece_views(r@) =~= status_pieces(*app, message@, ts@, pv));
            }
        },
        Mode::Confirm(_) => {
            r.push(piece(String::from_str(" delete "), Tone::Plain));
            let mut name = String::new();
            if app.sel < app.entries.len() {
                push_str(&mut name, "\"");
                push_str(&mut name, app.entries[app.sel].expense.name.as_str());
                push_str(&mut name, "\"");
            }
            r.push(piece(name, Tone::Plain));
            r.push(piece(String::from_str("? y/n"), Tone::Dim));
            proof {
                assert(piece_views(r@) =~= status_pieces(*app, message@, ts@, pv));
            }
        },
        Mode::Normal => {
            let mut bar = String::new();
            match find_total(&ts, &primary) {
                Some(t) => {
                    push_str(&mut bar, " [");
                    push_str(&mut bar, progress_bar(t.paid_cents, t.due_cents, 20).as_str());
                    push_str(&mut bar, "] ");
                    let pct: u64 = if t.due_cents <= 0 || t.paid_cents <= 0 {
                        0
                    } else {
                        let q = (t.paid_cents as u128) * 100 / (t.due_cents as u128);
                        if q > 100 {
                            100
                        } else {
                            q as u64
                        }
                    };
                    push_chars(&mut bar, &dec_chars(pct));
                    push_str(&mut bar, "%  ");
                },
                None => {
                    push_str(&mut bar, " ");
                },
            }
            r.push(piece(bar, Tone::Dim));
            r.push(piece(String::from_str(key_help_str()), Tone::Dim));
            proof {
                assert(piece_views(r@) =~= status_pieces(*app, message@, ts@, pv));
            }
        },
    }
    r
}

} // verus!
