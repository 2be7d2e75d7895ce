//! The terminal interface's logic: the one-line expense prompt, the key
//! handling state machine, the actions it asks the ledger to perform, and
//! what each part of the screen says. Drawing it is left to the caller.
use vstd::prelude::*;
use vstd::view::View as _;

use crate::error::Error;
use crate::ledger::{
    add_outcome, delete_outcome, opt_string_view, edit_outcome, find_expense, find_payment, pay_outcome,
    unpay_outcome, ActiveChange, CategoryChange, Edit, Entry, Ledger, View,
};
use crate::money::{
    format_amount, format_cents, parse_amount, parse_cents, ungrouped_amounts_read_back, without_commas,
};
use crate::period::{in_calendar, Date, Period};
use crate::text::{
    chars_of, dec, dec_chars, is_digit, is_ws, join_spaced, join_words, lemma_dec_digits,
    lemma_join_spaced_first, lemma_one_word, lemma_trim_keeps, lemma_words_plain, lemma_words_split,
    no_ws, parse_int_range, push_char, push_chars, push_str, split_words, std_parse_int, string_of,
    trim, trim_chars, words,
};

verus! {

// ---- the expense prompt --------------------------------------------------------

/// The four fields an expense needs, parsed from one line.
#[derive(Debug, PartialEq)]
pub struct Spec {
    pub name: String,
    pub amount_cents: i64,
    pub due_day: u32,
    pub category: Option<String>,
}

/// A word that is neither a day (a `u32`) nor an amount names a category.
pub open spec fn names_category(t: Seq<char>) -> bool {
    std_parse_int(t, false, 0, u32::MAX as int) is None && parse_amount(t) is Err
}

/// The words of a prompt line that carry name, amount and day: all of them,
/// less a trailing category.
pub open spec fn prompt_fields(line: Seq<char>) -> Seq<Seq<char>> {
    let ws = words(line);
    if ws.len() >= 3 && names_category(ws.last()) {
        ws.drop_last()
    } else {
        ws
    }
}

/// The trailing category of a prompt line, when it has one.
pub open spec fn prompt_category(line: Seq<char>) -> Option<Seq<char>> {
    let ws = words(line);
    if ws.len() >= 3 && names_category(ws.last()) {
        Some(ws.last())
    } else {
        None
    }
}

/// `line` reads as an expense with these fields: at least three words once a
/// trailing category is set aside, the last of them a day in 1..=31, the one
/// before it an amount, and everything in front a name.
pub open spec fn prompt_reads_as(line: Seq<char>, name: Seq<char>, amount: int, day: int, category: Option<Seq<char>>) -> bool {
    let f = prompt_fields(line);
    let n = f.len();
    &&& words(line).len() >= 3
    &&& n >= 3
    &&& std_parse_int(f[n - 1], false, 0, u32::MAX as int) == Some(day)
    &&& 1 <= day <= 31
    &&& parse_amount(f[n - 2]) == Ok::<int, crate::error::AmountFault>(amount)
    &&& name == join_spaced(f.take(n - 2))
    &&& trim(name).len() > 0
    &&& category == prompt_category(line)
}

/// `line` reads as some expense.
pub open spec fn prompt_valid(line: Seq<char>) -> bool {
    let f = prompt_fields(line);
    let n = f.len();
    &&& words(line).len() >= 3
    &&& n >= 3
    &&& std_parse_int(f[n - 1], false, 0, u32::MAX as int) matches Some(d) && 1 <= d <= 31
    &&& parse_amount(f[n - 2]) is Ok
    &&& trim(join_spaced(f.take(n - 2))).len() > 0
}

/// The error `parse_spec` gives for `line`, checked in this order: too few
/// words, a day that is not a number, a day out of range, an amount that
/// does not read, an empty name.
pub open spec fn prompt_refused_with(line: Seq<char>, e: Error) -> bool {
    let f = prompt_fields(line);
    let n = f.len();
    if words(line).len() < 3 || n < 3 {
        e == Error::MissingFields
    } else {
        match std_parse_int(f[n - 1], false, 0, u32::MAX as int) {
            None => e == Error::DayNotANumber,
            Some(d) => if !(1 <= d <= 31) {
                e == Error::PromptDayOutOfRange(d as u32)
            } else {
                match parse_amount(f[n - 2]) {
                    Err(k) => e matches Error::Amount(k2, t) && k2 == k && t@ == f[n - 2],
                    Ok(_) => trim(join_spaced(f.take(n - 2))).len() == 0 && e == Error::NameMissing,
                }
            },
        }
    }
}

/// Whether the word reads as a `u32`.
fn is_day_number(t: &Vec<char>) -> (b: bool)
    ensures
        b == std_parse_int(t@, false, 0, u32::MAX as int) is Some,
{
    assert(t@.subrange(0, t@.len() as int) =~= t@);
    parse_int_range(t, 0, t.len(), false, 0, 0xffff_ffff).is_some()
}

/// Parses `<name> <amount> <day> [category]` from the end, so a name may
/// contain spaces without any quoting: "Internet fibre 8500 10" works. A
/// trailing word that is neither a day nor an amount is the category; the
/// two words before it are the day and the amount; the rest is the name.
pub fn parse_spec(line: &str) -> (r: Result<Spec, Error>)
    ensures
        match r {
            Ok(s) => prompt_reads_as(
                line@,
                s.name@,
                s.amount_cents as int,
                s.due_day as int,
                match s.category {
                    Some(c) => Some(c@),
                    None => None,
                },
            ),
            Err(e) => prompt_refused_with(line@, e),
        },
        r is Ok <==> prompt_valid(line@),
{
    let cs = chars_of(line);
    let mut toks = split_words(&cs);
    let ghost ws = toks.deep_view();
    if toks.len() < 3 {
        return Err(Error::MissingFields);
    }
    let last = toks.len() - 1;
    assert(ws.last() == toks@[last as int]@);
    let category = if !is_day_number(&toks[last]) && parse_cents(string_of(&toks[last]).as_str()).is_err() {
        let c = toks.pop().unwrap();
        proof {
            assert(ws.last() == c@);
            assert(toks.deep_view() =~= ws.drop_last());
        }
        Some(string_of(&c))
    } else {
        None
    };
    assert(toks.deep_view() =~= prompt_fields(line@));
    let n = toks.len();
    if n < 3 {
        return Err(Error::MissingFields);
    }
    let ghost f = toks.deep_view();
    assert(f[n - 1] == toks@[n - 1]@);
    assert(f[n - 2] == toks@[n - 2]@);
    let day = match parse_int_range(&toks[n - 1], 0, toks[n - 1].len(), false, 0, 0xffff_ffff) {
        Some(d) => d as u32,
        None => {
            assert(toks@[n - 1]@.subrange(0, toks@[n - 1]@.len() as int) =~= toks@[n - 1]@);
            return Err(Error::DayNotANumber);
        },
    };
    assert(toks@[n - 1]@.subrange(0, toks@[n - 1]@.len() as int) =~= toks@[n - 1]@);
    if day < 1 || day > 31 {
        return Err(Error::PromptDayOutOfRange(day));
    }
    let amount_cents = match parse_cents(string_of(&toks[n - 2]).as_str()) {
        Ok(a) => a,
        Err(e) => {
            return Err(e);
        },
    };
    let name_chars = join_words(&toks, n - 2);
    if trim_chars(&name_chars).len() == 0 {
        return Err(Error::NameMissing);
    }
    Ok(Spec { name: string_of(&name_chars), amount_cents, due_day: day, category })
}

/// The prompt line that describes an entry's expense: name, amount without
/// grouping, due day, and the category when there is one.
pub open spec fn spec_text(e: Entry) -> Seq<char> {
    e.expense.name@ + " "@ + without_commas(format_amount(e.expense.amount_cents as int)) + " "@
        + dec(e.expense.due_day as nat) + match e.expense.category {
        Some(c) => " "@ + c@,
        None => Seq::<char>::empty(),
    }
}

/// Appends `t` less its commas.
fn push_without_commas(s: &mut String, t: &str)
    ensures
        final(s)@ == old(s)@ + without_commas(t@),
{
    let cs = chars_of(t);
    let ghost start = s@;
    let mut i: usize = 0;
    while i < cs.len()
        invariant
            0 <= i <= cs@.len(),
            cs@ == t@,
            s@ == start + without_commas(cs@.take(i as int)),
        decreases cs@.len() - i,
    {
        let c = cs[i];
        proof {
            assert(cs@.take(i + 1) =~= cs@.take(i as int).push(c));
            cs@.take(i as int).lemma_filter_push(c, |c: char| c != ',');
        }
        if c != ',' {
            push_char(s, c);
        }
        i = i + 1;
    }
    proof {
        assert(cs@.take(cs@.len() as int) =~= cs@);
    }
}

/// The inverse of `parse_spec`, to prefill the edit prompt.
pub fn spec_line(entry: &Entry) -> (s: String)
    ensures
        s@ == spec_text(*entry),
{
    let mut s = String::new();
    push_str(&mut s, entry.expense.name.as_str());
    push_str(&mut s, " ");
    push_without_commas(&mut s, format_cents(entry.expense.amount_cents).as_str());
    push_str(&mut s, " ");
    push_chars(&mut s, &dec_chars(entry.expense.due_day as u64));
    match &entry.expense.category {
        Some(c) => {
            push_str(&mut s, " ");
            push_str(&mut s, c.as_str());
        },
        None => {},
    }
    proof {
        assert(s@ =~= spec_text(*entry));
    }
    s
}


// ---- keys and modes ------------------------------------------------------------

/// A key press, as far as the interface tells keys apart.
#[derive(Debug, Clone, Copy, PartialEq, Eq, Structural)]
pub enum Key {
    Char(char),
    Enter,
    Esc,
    Backspace,
    Tab,
    Up,
    Down,
    Left,
    Right,
    /// Any key the interface does not use.
    Other,
}

pub enum Mode {
    Normal,
    /// The inline one-line prompt. `editing` is the id of the expense being
    /// rewritten, `None` when adding one.
    Input { buf: String, editing: Option<i64> },
    /// Waiting for `y` or `n` before deleting this expense.
    Confirm(i64),
}

/// What a key asks the ledger to do.
#[derive(Debug, PartialEq)]
pub enum Action {
    Add(String),
    Rewrite(i64, String),
    TogglePaid(i64),
    ToggleArchive(i64),
    Delete(i64),
}

pub struct App {
    pub entries: Vec<Entry>,
    pub period: Period,
    pub today: Date,
    pub show_archived: bool,
    pub sel: usize,
    pub mode: Mode,
    pub quit: bool,
    /// Set when a prompt could not be read or an action failed, cleared on
    /// the next key.
    pub error: Option<Error>,
    /// Resolved at launch, on `r`, and once when a month first turns out to
    /// need one; never on the idle tick.
    pub rate: Option<crate::fx::Rate>,
    /// The user pressed `r`.
    pub refresh_requested: bool,
    /// An attempt already failed; only `r` retries.
    pub rate_unavailable: bool,
}

/// The id of the selected entry, when the cursor is on one.
pub open spec fn selected_id(a: App) -> Option<i64> {
    if a.sel < a.entries@.len() {
        Some(a.entries@[a.sel as int].expense.id)
    } else {
        None
    }
}

/// The cursor kept on the list: at most the last row (0 on an empty list).
pub open spec fn clamped(sel: int, len: int) -> int {
    let last = if len > 0 {
        len - 1
    } else {
        0
    };
    if sel < last {
        sel
    } else {
        last
    }
}

/// `n` is `o` with the given period, archive toggle, cursor, quit flag and
/// refresh request, and everything else but the mode and the error as it was.
pub open spec fn app_with(o: App, n: App, period: Period, show_archived: bool, sel: int, quit: bool, refresh_requested: bool) -> bool {
    &&& n.entries@ == o.entries@
    &&& n.today == o.today
    &&& n.rate == o.rate
    &&& n.rate_unavailable == o.rate_unavailable
    &&& n.period == period
    &&& n.show_archived == show_archived
    &&& n.sel == sel
    &&& n.quit == quit
    &&& n.refresh_requested == refresh_requested
}

/// `n` is `o` with only the mode (and the error) changed.
pub open spec fn app_kept(o: App, n: App) -> bool {
    app_with(o, n, o.period, o.show_archived, o.sel as int, o.quit, o.refresh_requested)
}

/// A key in normal mode: `q` quits; `j`/`k` (or the arrows) move the cursor;
/// `h`/`l` step the month and put the cursor on top; tab shows or hides
/// archived expenses; `a` opens an empty prompt; `e` opens one prefilled
/// from the selected expense; space or `p` toggles its payment; `r` asks for
/// a fresh rate; `t` archives or restores it; `x` asks before deleting it.
/// A key that needs a selection does nothing on an empty list.
pub open spec fn normal_step(o: App, n: App, key: Key, r: Option<Action>) -> bool {
    let len = o.entries@.len() as int;
    if key == Key::Char('q') {
        app_with(o, n, o.period, o.show_archived, o.sel as int, true, o.refresh_requested)
            && n.mode is Normal && r is None
    } else if key == Key::Char('j') || key == Key::Down {
        app_with(o, n, o.period, o.show_archived, clamped(o.sel + 1, len), o.quit, o.refresh_requested)
            && n.mode is Normal && r is None
    } else if key == Key::Char('k') || key == Key::Up {
        app_with(
            o,
            n,
            o.period,
            o.show_archived,
            if o.sel > 0 {
                o.sel - 1
            } else {
                0
            },
            o.quit,
            o.refresh_requested,
        ) && n.mode is Normal && r is None
    } else if key == Key::Char('h') || key == Key::Left {
        app_with(o, n, o.period.preceding(), o.show_archived, 0, o.quit, o.refresh_requested)
            && n.mode is Normal && r is None
    } else if key == Key::Char('l') || key == Key::Right {
        app_with(o, n, o.period.following(), o.show_archived, 0, o.quit, o.refresh_requested)
            && n.mode is Normal && r is None
    } else if key == Key::Tab {
        app_with(o, n, o.period, !o.show_archived, clamped(o.sel as int, len), o.quit, o.refresh_requested)
            && n.mode is Normal && r is None
    } else if key == Key::Char('a') {
        app_kept(o, n) && (n.mode matches Mode::Input { buf, editing } && buf@.len() == 0
            && editing is None) && r is None
    } else if key == Key::Char('e') {
        app_kept(o, n) && r is None && match selected_id(o) {
            Some(id) => n.mode matches Mode::Input { buf, editing } && buf@ == spec_text(
                o.entries@[o.sel as int],
            ) && editing == Some(id),
            None => n.mode is Normal,
        }
    } else if key == Key::Char(' ') || key == Key::Char('p') {
        app_kept(o, n) && n.mode is Normal && r == match selected_id(o) {
            Some(id) => Some(Action::TogglePaid(id)),
            None => None,
        }
    } else if key == Key::Char('r') {
        app_with(o, n, o.period, o.show_archived, o.sel as int, o.quit, true) && n.mode is Normal
            && r is None
    } else if key == Key::Char('t') {
        app_kept(o, n) && n.mode is Normal && r == match selected_id(o) {
            Some(id) => Some(Action::ToggleArchive(id)),
            None => None,
        }
    } else if key == Key::Char('x') {
        app_kept(o, n) && r is None && match selected_id(o) {
            Some(id) => n.mode == Mode::Confirm(id),
            None => n.mode is Normal,
        }
    } else {
        app_kept(o, n) && n.mode is Normal && r is None
    }
}

/// A key at the prompt: esc leaves it; enter leaves it with the trimmed line
/// as an action, or, when the line does not read as an expense, stays with
/// the error set so nothing typed is lost (an empty line just leaves);
/// backspace drops the last character; any other character is typed.
pub open spec fn input_step(o: App, n: App, buf: Seq<char>, editing: Option<i64>, key: Key, r: Option<Action>) -> bool {
    let text = trim(buf);
    &&& app_kept(o, n)
    &&& if key == Key::Esc {
        n.mode is Normal && r is None && n.error is None
    } else if key == Key::Enter {
        if text.len() == 0 {
            n.mode is Normal && r is None && n.error is None
        } else if !prompt_valid(text) {
            (n.mode matches Mode::Input { buf: b, editing: ed } && b@ == buf && ed == editing) && r is None
                && (n.error matches Some(e) && prompt_refused_with(text, e))
        } else {
            n.mode is Normal && n.error is None && match editing {
                Some(id) => r matches Some(Action::Rewrite(i, t)) && i == id && t@ == text,
                None => r matches Some(Action::Add(t)) && t@ == text,
            }
        }
    } else {
        n.error is None && r is None && (n.mode matches Mode::Input { buf: b, editing: ed } && ed
            == editing && b@ == match key {
            Key::Backspace => if buf.len() > 0 {
                buf.drop_last()
            } else {
                buf
            },
            Key::Char(c) => buf.push(c),
            _ => buf,
        })
    }
}

/// A key while a deletion waits for confirmation: `y` deletes, `n` or esc
/// cancels, anything else keeps waiting.
pub open spec fn confirm_step(o: App, n: App, id: i64, key: Key, r: Option<Action>) -> bool {
    &&& app_kept(o, n)
    &&& n.error is None
    &&& if key == Key::Char('y') {
        n.mode is Normal && r == Some(Action::Delete(id))
    } else if key == Key::Char('n') || key == Key::Esc {
        n.mode is Normal && r is None
    } else {
        n.mode == Mode::Confirm(id) && r is None
    }
}

/// The month steps a key would take can be taken: moving the cursor down
/// needs room to count, stepping a month needs a year on either side.
pub open spec fn key_fits(a: App, key: Key) -> bool {
    a.mode is Normal ==> {
        &&& (key == Key::Char('j') || key == Key::Down) ==> a.sel < usize::MAX
        &&& (key == Key::Char('h') || key == Key::Left) ==> 1 <= a.period.month <= 12 && (a.period.month
            == 1 ==> a.period.year > i32::MIN)
        &&& (key == Key::Char('l') || key == Key::Right) ==> 1 <= a.period.month <= 12 && (a.period.month
            == 12 ==> a.period.year < i32::MAX)
    }
}

/// What a key does to the interface's state `o`, giving `n` and asking
/// for the action `r`, in whichever mode `o` is in.
pub open spec fn key_step(o: App, n: App, key: Key, r: Option<Action>) -> bool {
    match o.mode {
        Mode::Normal => normal_step(o, n, key, r) && n.error is None,
        Mode::Input { buf, editing } => input_step(o, n, buf@, editing, key, r),
        Mode::Confirm(id) => confirm_step(o, n, id, key, r),
    }
}

impl App {
    pub fn new(today: Date) -> (a: App)
        ensures
            a.entries@.len() == 0,
            a.period == (Period { year: today.year, month: today.month }),
            a.today == today,
            !a.show_archived,
            a.sel == 0,
            a.mode is Normal,
            !a.quit,
            a.error is None,
            a.rate is None,
            !a.refresh_requested,
            !a.rate_unavailable,
    {
        App {
            entries: Vec::new(),
            period: Period::of(today),
            today,
            show_archived: false,
            sel: 0,
            mode: Mode::Normal,
            quit: false,
            error: None,
            rate: None,
            refresh_requested: false,
            rate_unavailable: false,
        }
    }

    /// Whether the steps `key` would take fit their integers: false only at
    /// the very ends of the cursor's or the year's range.
    pub fn key_fits(&self, key: Key) -> (b: bool)
        ensures
            b == key_fits(*self, key),
    {
        match self.mode {
            Mode::Normal => {},
            _ => {
                return true;
            },
        }
        if key == Key::Char('j') || key == Key::Down {
            self.sel < usize::MAX
        } else if key == Key::Char('h') || key == Key::Left {
            1 <= self.period.month && self.period.month <= 12 && (self.period.month != 1
                || self.period.year > i32::MIN)
        } else if key == Key::Char('l') || key == Key::Right {
            1 <= self.period.month && self.period.month <= 12 && (self.period.month != 12
                || self.period.year < i32::MAX)
        } else {
            true
        }
    }

    pub fn selected(&self) -> (r: Option<&Entry>)
        ensures
            r is Some <==> self.sel < self.entries@.len(),
            r matches Some(e) ==> *e == self.entries@[self.sel as int],
    {
        if self.sel < self.entries.len() {
            Some(&self.entries[self.sel])
        } else {
            None
        }
    }

    /// Keeps the cursor on the list.
    pub fn clamp_sel(&mut self)
        ensures
            final(self).sel == clamped(old(self).sel as int, old(self).entries@.len() as int),
            final(self).entries == old(self).entries,
            final(self).period == old(self).period,
            final(self).today == old(self).today,
            final(self).show_archived == old(self).show_archived,
            final(self).mode == old(self).mode,
            final(self).quit == old(self).quit,
            final(self).error == old(self).error,
            final(self).rate == old(self).rate,
            final(self).refresh_requested == old(self).refresh_requested,
            final(self).rate_unavailable == old(self).rate_unavailable,
    {
        let last = if self.entries.len() > 0 {
            self.entries.len() - 1
        } else {
            0
        };
        if self.sel > last {
            self.sel = last;
        }
    }

    /// What the list shows: every status, archived expenses when toggled on.
    pub fn view(&self) -> (v: View)
        ensures
            v == (View { include_archived: self.show_archived, only_pending: false, only_paid: false }),
    {
        View { include_archived: self.show_archived, only_pending: false, only_paid: false }
    }

    /// Reloads the shown period from the ledger and keeps the cursor on it.
    pub fn refresh(&mut self, ledger: &Ledger)
        requires
            ledger.wf(),
            in_calendar(old(self).period.year as int, old(self).period.month as int),
        ensures
            final(self).entries@ == crate::ledger::listing(
                ledger.expenses@,
                ledger.payments@,
                old(self).period,
                old(self).today,
                View { include_archived: old(self).show_archived, only_pending: false, only_paid: false },
            ),
            final(self).sel == clamped(old(self).sel as int, final(self).entries@.len() as int),
            final(self).period == old(self).period,
            final(self).today == old(self).today,
            final(self).show_archived == old(self).show_archived,
            final(self).mode == old(self).mode,
            final(self).quit == old(self).quit,
            final(self).error == old(self).error,
            final(self).rate == old(self).rate,
            final(self).refresh_requested == old(self).refresh_requested,
            final(self).rate_unavailable == old(self).rate_unavailable,
    {
        let v = self.view();
        self.entries = ledger.period_view(self.period, self.today, &v);
        self.clamp_sel();
    }

    /// The state machine of the interface: what a key does to the screen's
    /// state, and which ledger action it asks for. Nothing is written here.
    pub fn on_key(&mut self, key: Key) -> (r: Option<Action>)
        requires
            key_fits(*old(self), key),
        ensures
            key_step(*old(self), *final(self), key, r),
            r matches Some(Action::Delete(x)) ==> old(self).mode == Mode::Confirm(x) && key == Key::Char(
                'y',
            ),
    {
        self.error = None;
        let mut mode = Mode::Normal;
        std::mem::swap(&mut mode, &mut self.mode);
        match mode {
            Mode::Normal => self.on_key_normal(key),
            Mode::Input { buf, editing } => {
                match key {
                    Key::Esc => None,
                    Key::Enter => {
                        let kept = trim_chars(&chars_of(buf.as_str()));
                        if kept.len() == 0 {
                            return None;
                        }
                        let text = string_of(&kept);
                        match parse_spec(text.as_str()) {
                            Err(e) => {
                                self.error = Some(e);
                                self.mode = Mode::Input { buf, editing };
                                None
                            },
                            Ok(_) => {
                                match editing {
                                    Some(id) => Some(Action::Rewrite(id, text)),
                                    None => Some(Action::Add(text)),
                                }
                            },
                        }
                    },
                    Key::Backspace => {
                        let mut cs = chars_of(buf.as_str());
                        if cs.len() > 0 {
                            cs.pop();
                        }
                        self.mode = Mode::Input { buf: string_of(&cs), editing };
                        None
                    },
                    Key::Char(c) => {
                        let mut b = buf;
                        push_char(&mut b, c);
                        self.mode = Mode::Input { buf: b, editing };
                        None
                    },
                    _ => {
                        self.mode = Mode::Input { buf, editing };
                        None
                    },
                }
            },
            Mode::Confirm(id) => {
                match key {
                    Key::Char('y') => Some(Action::Delete(id)),
                    Key::Char('n') | Key::Esc => None,
                    _ => {
                        self.mode = Mode::Confirm(id);
                        None
                    },
                }
            },
        }
    }

    fn on_key_normal(&mut self, key: Key) -> (r: Option<Action>)
        requires
            old(self).mode is Normal,
            old(self).error is None,
            key_fits(*old(self), key),
        ensures
            normal_step(*old(self), *final(self), key, r),
            final(self).error is None,
    {
        match key {
            Key::Char('q') => {
                self.quit = true;
                None
            },
            Key::Char('j') | Key::Down => {
                self.sel = self.sel + 1;
                self.clamp_sel();
                None
            },
            Key::Char('k') | Key::Up => {
                if self.sel > 0 {
                    self.sel = self.sel - 1;
                }
                None
            },
            Key::Char('h') | Key::Left => {
                self.period = self.period.prev();
                self.sel = 0;
                None
            },
            Key::Char('l') | Key::Right => {
                self.period = self.period.next();
                self.sel = 0;
                None
            },
            Key::Tab => {
                self.show_archived = !self.show_archived;
                self.clamp_sel();
                None
            },
            Key::Char('a') => {
                self.mode = Mode::Input { buf: String::new(), editing: None };
                None
            },
            Key::Char('e') => {
                if self.sel < self.entries.len() {
                    let line = spec_line(&self.entries[self.sel]);
                    let id = self.entries[self.sel].expense.id;
                    self.mode = Mode::Input { buf: line, editing: Some(id) };
                }
                None
            },
            Key::Char(' ') | Key::Char('p') => {
                if self.sel < self.entries.len() {
                    Some(Action::TogglePaid(self.entries[self.sel].expense.id))
                } else {
                    None
                }
            },
            Key::Char('r') => {
                self.refresh_requested = true;
                None
            },
            Key::Char('t') => {
                if self.sel < self.entries.len() {
                    Some(Action::ToggleArchive(self.entries[self.sel].expense.id))
                } else {
                    None
                }
            },
            Key::Char('x') => {
                if self.sel < self.entries.len() {
                    self.mode = Mode::Confirm(self.entries[self.sel].expense.id);
                }
                None
            },
            _ => None,
        }
    }
}


// ---- actions -------------------------------------------------------------------

/// The name a valid prompt line gives.
pub open spec fn prompt_name(line: Seq<char>) -> Seq<char> {
    let f = prompt_fields(line);
    join_spaced(f.take(f.len() - 2))
}

/// The amount a valid prompt line gives.
pub open spec fn prompt_amount(line: Seq<char>) -> int {
    let f = prompt_fields(line);
    match parse_amount(f[f.len() - 2]) {
        Ok(a) => a,
        Err(_) => 0,
    }
}

/// The due day a valid prompt line gives.
pub open spec fn prompt_day(line: Seq<char>) -> int {
    let f = prompt_fields(line);
    match std_parse_int(f[f.len() - 1], false, 0, u32::MAX as int) {
        Some(d) => d,
        None => 0,
    }
}

/// A result with its value dropped.
pub open spec fn done<T>(r: Result<T, Error>) -> Result<(), Error> {
    match r {
        Ok(_) => Ok(()),
        Err(e) => Err(e),
    }
}

proof fn lemma_prompt_reads_as(line: Seq<char>, name: Seq<char>, amount: int, day: int, category: Option<Seq<char>>)
    requires
        prompt_reads_as(line, name, amount, day, category),
    ensures
        prompt_valid(line),
        name == prompt_name(line),
        amount == prompt_amount(line),
        day == prompt_day(line),
        category == prompt_category(line),
{
}

/// What performing `action` on the ledger `o` for `period` does: it
/// becomes `n` and the result is `r`. New expenses get `currency`, and
/// `now` stamps what is written.
pub open spec fn apply_outcome(
    o: Ledger,
    n: Ledger,
    period: Period,
    action: Action,
    currency: Seq<char>,
    now: Seq<char>,
    r: Result<(), Error>,
) -> bool {
    match action {
        Action::Add(line) => if prompt_valid(line@) {
            exists|ri: Result<i64, Error>|
                add_outcome(
                    o,
                    n,
                    ri,
                    prompt_name(line@),
                    prompt_amount(line@) as i64,
                    currency,
                    prompt_day(line@) as u32,
                    prompt_category(line@),
                    now,
                ) && r == done(ri)
        } else {
            (r matches Err(e) && prompt_refused_with(line@, e)) && n == o
        },
        Action::Rewrite(id, line) => if prompt_valid(line@) {
            edit_outcome(
                o,
                n,
                r,
                id,
                Some(prompt_name(line@)),
                Some(prompt_amount(line@) as i64),
                None,
                Some(prompt_day(line@) as u32),
                Some(prompt_category(line@)),
                ActiveChange::Keep,
            )
        } else {
            (r matches Err(e) && prompt_refused_with(line@, e)) && n == o
        },
        Action::TogglePaid(id) => if find_payment(o.payments@, id, period) is Some {
            unpay_outcome(o, n, r, id, period)
        } else {
            exists|ri: Result<i64, Error>|
                pay_outcome(o, n, ri, id, period, None, now) && r == done(ri)
        },
        Action::ToggleArchive(id) => match find_expense(o.expenses@, id) {
            None => r == Err::<(), Error>(Error::NoExpense(id)) && n == o,
            Some(e) => edit_outcome(
                o,
                n,
                r,
                id,
                None,
                None,
                None,
                None,
                None,
                if e.active {
                    ActiveChange::Archive
                } else {
                    ActiveChange::Restore
                },
            ),
        },
        Action::Delete(id) => delete_outcome(o, n, r, id),
    }
}

/// Performs an action on the ledger. A line is parsed again here, so an
/// action is only as good as the text it carries; a new expense gets
/// `currency`, and `now` stamps what is written. Toggling a payment is
/// scoped to `period`: it pays when there is no payment for it, else it
/// unpays.
pub fn apply(ledger: &mut Ledger, period: Period, action: Action, currency: &str, now: &str) -> (r: Result<(), Error>)
    requires
        old(ledger).wf(),
    ensures
        final(ledger).wf(),
        apply_outcome(*old(ledger), *final(ledger), period, action, currency@, now@, r),
{
    match action {
        Action::Add(line) => {
            let spec = match parse_spec(line.as_str()) {
                Ok(s) => s,
                Err(e) => {
                    return Err(e);
                },
            };
            proof {
                lemma_prompt_reads_as(
                    line@,
                    spec.name@,
                    spec.amount_cents as int,
                    spec.due_day as int,
                    opt_string_view(spec.category),
                );
            }
            let cat = match &spec.category {
                Some(c) => Some(c.as_str()),
                None => None,
            };
            assert(crate::ledger::opt_str_view(cat) == opt_string_view(spec.category));
            let ghost before = *ledger;
            let ri = ledger.add_expense(spec.name.as_str(), spec.amount_cents, currency, spec.due_day, cat, now);
            let r = match ri {
                Ok(_) => Ok(()),
                Err(e) => Err(e),
            };
            assert(add_outcome(
                before,
                *ledger,
                ri,
                prompt_name(line@),
                prompt_amount(line@) as i64,
                currency@,
                prompt_day(line@) as u32,
                prompt_category(line@),
                now@,
            ) && r == done(ri));
            r
        },
        Action::Rewrite(id, line) => {
            let spec = match parse_spec(line.as_str()) {
                Ok(s) => s,
                Err(e) => {
                    return Err(e);
                },
            };
            proof {
                lemma_prompt_reads_as(
                    line@,
                    spec.name@,
                    spec.amount_cents as int,
                    spec.due_day as int,
                    opt_string_view(spec.category),
                );
            }
            let category = match spec.category {
                Some(c) => CategoryChange::SetTo(c),
                None => CategoryChange::Clear,
            };
            ledger.edit_expense(
                id,
                Edit {
                    name: Some(spec.name.as_str()),
                    amount_cents: Some(spec.amount_cents),
                    currency: None,
                    due_day: Some(spec.due_day),
                    category,
                    active: ActiveChange::Keep,
                },
            )
        },
        Action::TogglePaid(id) => {
            if ledger.is_paid(id, period) {
                ledger.unpay(id, period)
            } else {
                let ghost before = *ledger;
                let ri = ledger.pay(id, period, None, now);
                let r = match ri {
                    Ok(_) => Ok(()),
                    Err(e) => Err(e),
                };
                assert(pay_outcome(before, *ledger, ri, id, period, None, now@) && r == done(ri));
                r
            }
        },
        Action::ToggleArchive(id) => {
            let expense = match ledger.get_expense(id) {
                Ok(e) => e,
                Err(e) => {
                    return Err(e);
                },
            };
            ledger.edit_expense(
                id,
                Edit {
                    name: None,
                    amount_cents: None,
                    currency: None,
                    due_day: None,
                    category: CategoryChange::Keep,
                    active: if expense.active {
                        ActiveChange::Archive
                    } else {
                        ActiveChange::Restore
                    },
                },
            )
        },
        Action::Delete(id) => ledger.delete_expense(id),
    }
}


// ---- the loop's decisions --------------------------------------------------------

/// `n` is `o` with only its error replaced by `error`.
pub open spec fn with_error(o: App, n: App, error: Option<Error>) -> bool {
    &&& app_kept(o, n)
    &&& n.mode == o.mode
    &&& n.error == error
}

/// One key press: the state machine's step, then the action it asks for
/// performed on the ledger for the month that was on screen, a refusal kept
/// as the error to show.
pub fn press(app: &mut App, ledger: &mut Ledger, key: Key, currency: &str, now: &str)
    requires
        key_fits(*old(app), key),
        old(ledger).wf(),
    ensures
        final(ledger).wf(),
        exists|mid: App, a: Option<Action>|
            #![trigger key_step(*old(app), mid, key, a)]
            key_step(*old(app), mid, key, a) && match a {
                None => *final(ledger) == *old(ledger) && *final(app) == mid,
                Some(act) => exists|r: Result<(), Error>|
                    #![trigger apply_outcome(*old(ledger), *final(ledger), old(app).period, act, currency@, now@, r)]
                    apply_outcome(*old(ledger), *final(ledger), old(app).period, act, currency@, now@, r)
                        && with_error(
                        mid,
                        *final(app),
                        match r {
                            Ok(_) => mid.error,
                            Err(e) => Some(e),
                        },
                    ),
            },
{
    let period = app.period;
    let act = app.on_key(key);
    let ghost mid = *app;
    let ghost a = act;
    assert(key_step(*old(app), mid, key, a));
    match act {
        None => {},
        Some(action) => {
            let ghost ac = action;
            let ghost before = *ledger;
            let r = apply(ledger, period, action, currency, now);
            let ghost rg = r;
            match r {
                Ok(_) => {},
                Err(e) => {
                    app.error = Some(e);
                },
            }
            assert(apply_outcome(before, *ledger, period, ac, currency@, now@, rg) && with_error(
                mid,
                *app,
                match rg {
                    Ok(_) => mid.error,
                    Err(e) => Some(e),
                },
            ));
        },
    }
}

/// Whether an idle screen is due to read the store again: every two seconds
/// without a key, so writes made elsewhere (the bar widget's) show up.
pub fn reload_due(idle_millis: u128) -> (b: bool)
    ensures
        b == (idle_millis >= 2000),
{
    idle_millis >= 2000
}

impl App {
    /// Whether to resolve a rate now: `r` asked for one, or a key moved the
    /// screen off `before` into a month while no rate is held and no attempt
    /// has failed yet. Only `r` retries a failure, so stepping through
    /// months offline never stalls on every key.
    pub fn wants_rate(&self, before: Period) -> (b: bool)
        ensures
            b == (self.refresh_requested || (before != self.period && self.rate is None
                && !self.rate_unavailable)),
    {
        self.refresh_requested || ((before.year != self.period.year || before.month
            != self.period.month) && self.rate.is_none() && !self.rate_unavailable)
    }

    /// Takes the outcome of resolving a rate: a rate replaces the one held
    /// and clears the failure mark; a rate that was needed and could not be
    /// had marks the rate unavailable, as does a refusal, which is also shown
    /// as the error; a month that needs no rate changes neither. The request,
    /// if any, is answered either way.
    pub fn take_rate(&mut self, outcome: Result<crate::fx::Resolved, Error>)
        ensures
            match outcome {
                Ok(crate::fx::Resolved::Rate(q)) => !final(self).rate_unavailable && final(self).rate
                    == Some(q) && final(self).error == old(self).error,
                Ok(crate::fx::Resolved::Unavailable) => final(self).rate_unavailable && final(self).rate
                    == old(self).rate && final(self).error == old(self).error,
                Ok(crate::fx::Resolved::NotNeeded) => final(self).rate_unavailable
                    == old(self).rate_unavailable && final(self).rate == old(self).rate
                    && final(self).error == old(self).error,
                Err(e) => final(self).rate_unavailable && final(self).rate == old(self).rate
                    && final(self).error == Some(e),
            },
            !final(self).refresh_requested,
            final(self).entries == old(self).entries,
            final(self).period == old(self).period,
            final(self).today == old(self).today,
            final(self).show_archived == old(self).show_archived,
            final(self).sel == old(self).sel,
            final(self).mode == old(self).mode,
            final(self).quit == old(self).quit,
    {
        match outcome {
            Ok(crate::fx::Resolved::Rate(q)) => {
                self.rate_unavailable = false;
                self.rate = Some(q);
            },
            Ok(crate::fx::Resolved::Unavailable) => {
                self.rate_unavailable = true;
            },
            Ok(crate::fx::Resolved::NotNeeded) => {},
            Err(e) => {
                self.rate_unavailable = true;
                self.error = Some(e);
            },
        }
        self.refresh_requested = false;
    }
}


// ---- laws ------------------------------------------------------------------------

/// Nothing is deleted without confirmation: the only key that asks for a
/// deletion is `y`, answering the question `x` put for that same expense.
pub proof fn deleting_needs_confirmation(o: App, n: App, key: Key, r: Option<Action>, id: i64)
    requires
        key_step(o, n, key, r),
        r == Some(Action::Delete(id)),
    ensures
        o.mode == Mode::Confirm(id),
        key == Key::Char('y'),
{
}

/// While a deletion waits for an answer, `y` deletes that expense, `n` or
/// esc cancels, both back to normal mode, and any other key keeps waiting
/// without asking for anything.
pub proof fn a_waiting_deletion_answers_only_to_y_or_n(o: App, n: App, key: Key, r: Option<Action>, id: i64)
    requires
        o.mode == Mode::Confirm(id),
        key_step(o, n, key, r),
    ensures
        key == Key::Char('y') ==> r == Some(Action::Delete(id)) && n.mode is Normal,
        key == Key::Char('n') || key == Key::Esc ==> r is None && n.mode is Normal,
        key != Key::Char('y') && key != Key::Char('n') && key != Key::Esc ==> r is None && n.mode
            == Mode::Confirm(id),
        n.entries@ == o.entries@,
{
}

/// The key handler takes every key while a deletion waits, and `x`, `y`,
/// `n` and esc in every state: the guard on its integer steps never stands
/// between the user and a deletion or its refusal.
pub proof fn confirming_is_always_possible(a: App, key: Key)
    ensures
        a.mode is Confirm ==> key_fits(a, key),
        key == Key::Char('x') || key == Key::Char('y') || key == Key::Char('n') || key == Key::Esc
            ==> key_fits(a, key),
{
}

/// A line that does not read as an expense never leaves the prompt: the
/// text typed so far is kept, the error says why, and no action is asked for.
pub proof fn a_typo_keeps_the_prompt_open(o: App, n: App, r: Option<Action>, buf: Seq<char>, editing: Option<i64>)
    requires
        o.mode matches Mode::Input { buf: b, editing: ed } && b@ == buf && ed == editing,
        key_step(o, n, Key::Enter, r),
        trim(buf).len() > 0,
        !prompt_valid(trim(buf)),
    ensures
        r is None,
        n.mode matches Mode::Input { buf: b, editing: ed } && b@ == buf && ed == editing,
        n.error matches Some(e) && prompt_refused_with(trim(buf), e),
{
}


/// The edit prompt is prefilled with a line that reads back as the same
/// expense: its name, amount, due day and category. This holds for a name
/// that is its words joined by single spaces, a due day in 1..=31, and a
/// category that is one word and neither a day nor an amount; any other
/// category could not be told apart from the fields in front of it.
pub proof fn spec_line_reads_back(e: Entry)
    requires
        words(e.expense.name@).len() > 0,
        e.expense.name@ == join_spaced(words(e.expense.name@)),
        1 <= e.expense.due_day <= 31,
        e.expense.category matches Some(c) ==> c@.len() > 0 && no_ws(c@) && names_category(c@),
    ensures
        prompt_reads_as(
            spec_text(e),
            e.expense.name@,
            e.expense.amount_cents as int,
            e.expense.due_day as int,
            opt_string_view(e.expense.category),
        ),
{
    reveal_strlit(" ");
    assert(" "@ =~= seq![' ']);
    let name = e.expense.name@;
    let amt = without_commas(format_amount(e.expense.amount_cents as int));
    let d = e.expense.due_day as nat;
    let day = dec(d);
    ungrouped_amounts_read_back(e.expense.amount_cents);
    lemma_dec_digits(d);
    assert(no_ws(day)) by {
        assert forall|k: int| 0 <= k < day.len() implies !is_ws(#[trigger] day[k]) by {
            assert(is_digit(day[k]));
        }
    }
    assert(is_digit(day[0]));
    assert(std_parse_int(day, false, 0, u32::MAX as int) == Some(d as int));
    assert(!names_category(day));
    lemma_one_word(amt);
    lemma_one_word(day);
    let s1 = name + seq![' '] + amt;
    let s2 = s1 + seq![' '] + day;
    lemma_words_split(name, amt);
    lemma_words_split(s1, day);
    let wn = words(name);
    assert(words(s2) == wn + seq![amt] + seq![day]);
    lemma_words_plain(name);
    lemma_join_spaced_first(wn);
    lemma_trim_keeps(name);
    let core = wn + seq![amt, day];
    assert(words(s2) =~= core);
    assert(core.take(core.len() - 2) =~= wn);
    assert(core[core.len() - 1] == day);
    assert(core[core.len() - 2] == amt);
    match e.expense.category {
        Some(c) => {
            lemma_one_word(c@);
            lemma_words_split(s2, c@);
            assert(spec_text(e) =~= s2 + seq![' '] + c@);
            assert(words(spec_text(e)) =~= core.push(c@));
            assert(core.push(c@).drop_last() =~= core);
        },
        None => {
            assert(spec_text(e) =~= s2);
        },
    }
}

} // verus!
