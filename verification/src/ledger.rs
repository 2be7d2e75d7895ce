//! The expenses and the payments that settle them, and every question a
//! period can be asked about them. Status is derived here and stored nowhere.
use vstd::prelude::*;
use vstd::view::View as _;

use crate::error::Error;
use crate::period::{in_calendar, Date, Period};
use crate::text::{chars_of, string_of, to_uppercase, trim, trim_chars, unicode_uppercase};

verus! {

/// A recurring fixed charge, owed every month.
#[derive(Debug, PartialEq)]
pub struct Expense {
    pub id: i64,
    pub name: String,
    pub amount_cents: i64,
    pub currency: String,
    pub due_day: u32,
    pub category: Option<String>,
    pub active: bool,
    pub sort_order: i64,
    pub created_at: String,
}

pub fn clone_opt_string(s: &Option<String>) -> (r: Option<String>)
    ensures
        r == *s,
{
    match s {
        Some(c) => Some(c.clone()),
        None => None,
    }
}

impl Clone for Expense {
    fn clone(&self) -> (r: Self)
        ensures
            r == *self,
    {
        Expense {
            id: self.id,
            name: self.name.clone(),
            amount_cents: self.amount_cents,
            currency: self.currency.clone(),
            due_day: self.due_day,
            category: clone_opt_string(&self.category),
            active: self.active,
            sort_order: self.sort_order,
            created_at: self.created_at.clone(),
        }
    }
}

/// An expense's state within one period.
#[derive(Debug, Clone, Copy, PartialEq, Eq, Structural)]
pub enum Status {
    /// A payment exists for the period.
    Paid,
    /// No payment, and the due date is in the past.
    Overdue,
    /// No payment, and the due date has not arrived.
    Due,
}

impl Status {
    pub open spec fn name(self) -> Seq<char> {
        match self {
            Status::Paid => "paid"@,
            Status::Overdue => "overdue"@,
            Status::Due => "due"@,
        }
    }

    pub open spec fn mark_text(self) -> Seq<char> {
        match self {
            Status::Paid => "x"@,
            Status::Overdue => "!"@,
            Status::Due => " "@,
        }
    }

    pub fn as_str(&self) -> (s: &'static str)
        ensures
            s@ == self.name(),
    {
        match self {
            Status::Paid => "paid",
            Status::Overdue => "overdue",
            Status::Due => "due",
        }
    }

    /// The listing's mark column: `x` paid, `!` overdue, blank due.
    pub fn mark(&self) -> (s: &'static str)
        ensures
            s@ == self.mark_text(),
    {
        match self {
            Status::Paid => "x",
            Status::Overdue => "!",
            Status::Due => " ",
        }
    }
}

/// An expense seen through one period: the same row, plus what happened to it
/// that month.
#[derive(Debug, PartialEq)]
pub struct Entry {
    pub expense: Expense,
    pub paid_cents: Option<i64>,
    pub due_date: Date,
    pub status: Status,
}

impl Clone for Entry {
    fn clone(&self) -> (r: Self)
        ensures
            r == *self,
    {
        Entry {
            expense: self.expense.clone(),
            paid_cents: self.paid_cents,
            due_date: self.due_date,
            status: self.status,
        }
    }
}

impl Entry {
    /// What is still owed on this entry. A paid entry owes nothing even when
    /// the amount actually paid differed from the expected one.
    pub fn outstanding_cents(&self) -> (c: i64)
        ensures
            c == (match self.paid_cents {
                Some(_) => 0,
                None => self.expense.amount_cents,
            }),
    {
        match self.paid_cents {
            Some(_) => 0,
            None => self.expense.amount_cents,
        }
    }
}

/// The record that one expense was settled for one period.
#[derive(Debug, PartialEq)]
pub struct Payment {
    pub expense_id: i64,
    pub period: Period,
    pub paid_at: String,
    pub amount_cents: i64,
}

/// Which entries of a period a listing shows.
#[derive(Debug, Clone, Copy, PartialEq, Eq, Structural)]
pub struct View {
    /// Also list archived expenses.
    pub include_archived: bool,
    /// Only what is not paid.
    pub only_pending: bool,
    /// Only what is paid (ignored when `only_pending` is set).
    pub only_paid: bool,
}

impl View {
    /// Every status, active expenses only.
    pub fn all() -> (v: View)
        ensures
            v == (View { include_archived: false, only_pending: false, only_paid: false }),
    {
        View { include_archived: false, only_pending: false, only_paid: false }
    }

    /// Whether an entry with this status is listed.
    pub open spec fn shows(self, s: Status) -> bool {
        if self.only_pending {
            s != Status::Paid
        } else if self.only_paid {
            s == Status::Paid
        } else {
            true
        }
    }
}

/// The category half of an edit.
pub enum CategoryChange {
    Keep,
    SetTo(String),
    Clear,
}

/// The archived flag half of an edit.
#[derive(Debug, Clone, Copy, PartialEq, Eq, Structural)]
pub enum ActiveChange {
    Keep,
    Archive,
    Restore,
}

/// What to change on an expense; `None` and `Keep` leave a field alone.
pub struct Edit<'a> {
    pub name: Option<&'a str>,
    pub amount_cents: Option<i64>,
    pub currency: Option<&'a str>,
    pub due_day: Option<u32>,
    pub category: CategoryChange,
    pub active: ActiveChange,
}

/// One write the store needs to make to follow the ledger.
#[derive(Debug, PartialEq)]
pub enum Change {
    InsertExpense(Expense),
    UpdateExpense(Expense),
    /// The expense and, with it, every payment recorded against it.
    DeleteExpense(i64),
    /// Insert, or replace the payment of the same expense and period.
    UpsertPayment(Payment),
    DeletePayment(i64, Period),
}

// ---- the model ---------------------------------------------------------------

/// The listing order: `sort_order`, then `due_day`, then `id`.
pub open spec fn listed_before(a: Expense, b: Expense) -> bool {
    ||| a.sort_order < b.sort_order
    ||| a.sort_order == b.sort_order && a.due_day < b.due_day
    ||| a.sort_order == b.sort_order && a.due_day == b.due_day && a.id < b.id
}

pub open spec fn same_key(a: Payment, id: i64, p: Period) -> bool {
    a.expense_id == id && a.period == p
}

/// Some expense in `es` has this id.
pub open spec fn has_id(es: Seq<Expense>, id: i64) -> bool {
    exists|k: int| 0 <= k < es.len() && #[trigger] es[k].id == id
}

/// The store's invariants: expenses in listing order with distinct ids; at
/// most one payment per (expense, period); no payment without its expense.
pub open spec fn ledger_wf(es: Seq<Expense>, ps: Seq<Payment>) -> bool {
    &&& forall|i: int, j: int| 0 <= i < j < es.len() ==> listed_before(#[trigger] es[i], #[trigger] es[j])
    &&& forall|i: int, j: int| 0 <= i < es.len() && 0 <= j < es.len() && i != j ==> #[trigger] es[i].id != #[trigger] es[j].id
    &&& forall|i: int, j: int|
        0 <= i < ps.len() && 0 <= j < ps.len() && i != j ==> !same_key(
            #[trigger] ps[i],
            #[trigger] ps[j].expense_id,
            ps[j].period,
        )
    &&& forall|i: int| 0 <= i < ps.len() ==> has_id(es, #[trigger] ps[i].expense_id)
}

/// Expenses in listing order with distinct ids.
pub open spec fn expenses_ok(es: Seq<Expense>) -> bool {
    &&& forall|i: int, j: int| 0 <= i < j < es.len() ==> listed_before(#[trigger] es[i], #[trigger] es[j])
    &&& forall|i: int, j: int| 0 <= i < es.len() && 0 <= j < es.len() && i != j ==> #[trigger] es[i].id != #[trigger] es[j].id
}

/// Rows a store can hold: expenses in listing order with distinct ids, and
/// at most one payment per expense and period.
pub open spec fn store_ok(es: Seq<Expense>, ps: Seq<Payment>) -> bool {
    &&& expenses_ok(es)
    &&& forall|i: int, j: int|
        0 <= i < ps.len() && 0 <= j < ps.len() && i != j ==> !same_key(
            #[trigger] ps[i],
            #[trigger] ps[j].expense_id,
            ps[j].period,
        )
}

/// The payments whose expense exists.
pub open spec fn known_payments(es: Seq<Expense>, ps: Seq<Payment>) -> Seq<Payment> {
    ps.filter(|p: Payment| has_id(es, p.expense_id))
}

/// The expense with this id, if any.
pub open spec fn find_expense(es: Seq<Expense>, id: i64) -> Option<Expense>
    decreases es.len(),
{
    if es.len() == 0 {
        None
    } else if es.last().id == id {
        Some(es.last())
    } else {
        find_expense(es.drop_last(), id)
    }
}

/// The payment of this expense for this period, if any.
pub open spec fn find_payment(ps: Seq<Payment>, id: i64, p: Period) -> Option<Payment>
    decreases ps.len(),
{
    if ps.len() == 0 {
        None
    } else if same_key(ps.last(), id, p) {
        Some(ps.last())
    } else {
        find_payment(ps.drop_last(), id, p)
    }
}

/// Where the payment of this expense for this period sits, or -1.
pub open spec fn payment_index(ps: Seq<Payment>, id: i64, p: Period) -> int
    decreases ps.len(),
{
    if ps.len() == 0 {
        -1
    } else if same_key(ps.last(), id, p) {
        ps.len() - 1
    } else {
        payment_index(ps.drop_last(), id, p)
    }
}

/// The status a period gives an expense: paid when a payment exists, else
/// overdue when its due date is strictly before today, else due.
pub open spec fn status_of(paid: Option<i64>, due: Date, today: Date) -> Status {
    if paid is Some {
        Status::Paid
    } else if due.precedes(today) {
        Status::Overdue
    } else {
        Status::Due
    }
}

/// An expense as one period sees it.
pub open spec fn entry_of(e: Expense, ps: Seq<Payment>, p: Period, today: Date) -> Entry {
    let paid = match find_payment(ps, e.id, p) {
        Some(q) => Some(q.amount_cents),
        None => None,
    };
    let due = p.due_date(e.due_day);
    Entry { expense: e, paid_cents: paid, due_date: due, status: status_of(paid, due, today) }
}

/// The listing of a period: the expenses the view admits (active ones, or all
/// of them with `include_archived`), in listing order, whose status the view
/// shows.
pub open spec fn listing(es: Seq<Expense>, ps: Seq<Payment>, p: Period, today: Date, v: View) -> Seq<
    Entry,
>
    decreases es.len(),
{
    if es.len() == 0 {
        seq![]
    } else {
        let rest = listing(es.drop_last(), ps, p, today, v);
        let e = es.last();
        let en = entry_of(e, ps, p, today);
        if (e.active || v.include_archived) && v.shows(en.status) {
            rest.push(en)
        } else {
            rest
        }
    }
}

/// The largest id in `es` (which must not be empty).
pub open spec fn max_id(es: Seq<Expense>) -> int
    decreases es.len(),
{
    if es.len() <= 1 {
        if es.len() == 1 {
            es[0].id as int
        } else {
            0
        }
    } else {
        let m = max_id(es.drop_last());
        if es.last().id > m {
            es.last().id as int
        } else {
            m
        }
    }
}

/// The largest sort position in `es` (which must not be empty).
pub open spec fn max_sort(es: Seq<Expense>) -> int
    decreases es.len(),
{
    if es.len() <= 1 {
        if es.len() == 1 {
            es[0].sort_order as int
        } else {
            0
        }
    } else {
        let m = max_sort(es.drop_last());
        if es.last().sort_order > m {
            es.last().sort_order as int
        } else {
            m
        }
    }
}

/// The id the store gives a new expense: one past the largest, 1 when empty.
pub open spec fn next_id(es: Seq<Expense>) -> int {
    if es.len() == 0 {
        1
    } else {
        max_id(es) + 1
    }
}

/// The sort position of a new expense: one past the largest, 0 when empty.
pub open spec fn next_sort(es: Seq<Expense>) -> int {
    if es.len() == 0 {
        0
    } else {
        max_sort(es) + 1
    }
}

/// An optional string by its characters.
pub open spec fn opt_string_view(s: Option<String>) -> Option<Seq<char>> {
    match s {
        Some(v) => Some(v@),
        None => None,
    }
}

/// An optional `&str` by its characters.
pub open spec fn opt_str_view(s: Option<&str>) -> Option<Seq<char>> {
    match s {
        Some(v) => Some(v@),
        None => None,
    }
}

/// `e` is the expense `add_expense` makes from these arguments.
pub open spec fn is_new_expense(
    e: Expense,
    id: int,
    name: Seq<char>,
    amount_cents: i64,
    currency: Seq<char>,
    due_day: u32,
    category: Option<Seq<char>>,
    created_at: Seq<char>,
    sort_order: int,
) -> bool {
    &&& e.id == id
    &&& e.name@ == trim(name)
    &&& e.amount_cents == amount_cents
    &&& e.currency@ == unicode_uppercase(currency)
    &&& e.due_day == due_day
    &&& opt_string_view(e.category) == category
    &&& e.active
    &&& e.sort_order == sort_order
    &&& e.created_at@ == created_at
}

/// What a category change sets the category to: `None` keeps it,
/// `Some(None)` clears it, `Some(Some(c))` sets it to `c`.
pub open spec fn category_change_view(c: CategoryChange) -> Option<Option<Seq<char>>> {
    match c {
        CategoryChange::Keep => None,
        CategoryChange::SetTo(v) => Some(Some(v@)),
        CategoryChange::Clear => Some(None),
    }
}

/// `new` is `cur` with these fields changed (`None` leaves one alone):
/// names are trimmed and currencies upper-cased whether or not the edit
/// touches them; id, sort position and creation time never change.
pub open spec fn is_edit_with(
    new: Expense,
    cur: Expense,
    name: Option<Seq<char>>,
    amount_cents: Option<i64>,
    currency: Option<Seq<char>>,
    due_day: Option<u32>,
    category: Option<Option<Seq<char>>>,
    active: ActiveChange,
) -> bool {
    &&& new.id == cur.id
    &&& new.name@ == trim(
        match name {
            Some(n) => n,
            None => cur.name@,
        },
    )
    &&& new.amount_cents == (match amount_cents {
        Some(a) => a,
        None => cur.amount_cents,
    })
    &&& new.currency@ == unicode_uppercase(
        match currency {
            Some(c) => c,
            None => cur.currency@,
        },
    )
    &&& new.due_day == (match due_day {
        Some(d) => d,
        None => cur.due_day,
    })
    &&& opt_string_view(new.category) == (match category {
        None => opt_string_view(cur.category),
        Some(c) => c,
    })
    &&& new.active == (match active {
        ActiveChange::Keep => cur.active,
        ActiveChange::Archive => false,
        ActiveChange::Restore => true,
    })
    &&& new.sort_order == cur.sort_order
    &&& new.created_at == cur.created_at
}

/// `new` is `cur` with `edit` applied.
pub open spec fn is_edit_of(new: Expense, cur: Expense, edit: Edit) -> bool {
    is_edit_with(
        new,
        cur,
        opt_str_view(edit.name),
        edit.amount_cents,
        opt_str_view(edit.currency),
        edit.due_day,
        category_change_view(edit.category),
        edit.active,
    )
}

/// `ps` with `x` recorded: it replaces the payment of the same expense and
/// period, or is added when there is none.
pub open spec fn upsert_payment(ps: Seq<Payment>, x: Payment) -> Seq<Payment> {
    let i = payment_index(ps, x.expense_id, x.period);
    if i >= 0 {
        ps.update(i, x)
    } else {
        ps.push(x)
    }
}

/// `ps` without the payment of this expense for this period.
pub open spec fn remove_payment(ps: Seq<Payment>, id: i64, p: Period) -> Seq<Payment> {
    let i = payment_index(ps, id, p);
    if i >= 0 {
        ps.remove(i)
    } else {
        ps
    }
}

/// `ps` without any payment of this expense.
pub open spec fn drop_payments_of(ps: Seq<Payment>, id: i64) -> Seq<Payment>
    decreases ps.len(),
{
    if ps.len() == 0 {
        ps
    } else if ps.last().expense_id == id {
        drop_payments_of(ps.drop_last(), id)
    } else {
        drop_payments_of(ps.drop_last(), id).push(ps.last())
    }
}

// ---- lemmas on lookups ---------------------------------------------------------

pub proof fn lemma_find_expense(es: Seq<Expense>, id: i64)
    requires
        forall|i: int, j: int| 0 <= i < es.len() && 0 <= j < es.len() && i != j ==> #[trigger] es[i].id != #[trigger] es[j].id,
    ensures
        find_expense(es, id) is None <==> !has_id(es, id),
        forall|k: int| 0 <= k < es.len() && #[trigger] es[k].id == id ==> find_expense(es, id) == Some(es[k]),
    decreases es.len(),
{
    if es.len() > 0 {
        let t = es.drop_last();
        lemma_find_expense(t, id);
        if es.last().id != id {
            if has_id(t, id) {
                let k = choose|k: int| 0 <= k < t.len() && #[trigger] t[k].id == id;
                assert(es[k].id == id);
            }
            if has_id(es, id) {
                let k = choose|k: int| 0 <= k < es.len() && #[trigger] es[k].id == id;
                assert(t[k].id == id);
            }
            assert forall|k: int| 0 <= k < es.len() && #[trigger] es[k].id == id implies find_expense(es, id) == Some(es[k]) by {
                assert(t[k] == es[k]);
            }
        } else {
            assert(es[es.len() - 1].id == id);
        }
    }
}

pub proof fn lemma_payment_index(ps: Seq<Payment>, id: i64, p: Period)
    requires
        forall|i: int, j: int|
            0 <= i < ps.len() && 0 <= j < ps.len() && i != j ==> !same_key(
                #[trigger] ps[i],
                #[trigger] ps[j].expense_id,
                ps[j].period,
            ),
    ensures
        -1 <= payment_index(ps, id, p) < ps.len(),
        payment_index(ps, id, p) >= 0 ==> same_key(ps[payment_index(ps, id, p)], id, p)
            && find_payment(ps, id, p) == Some(ps[payment_index(ps, id, p)]),
        payment_index(ps, id, p) < 0 ==> find_payment(ps, id, p) is None && forall|k: int|
            0 <= k < ps.len() ==> !same_key(#[trigger] ps[k], id, p),
        forall|k: int| 0 <= k < ps.len() && same_key(#[trigger] ps[k], id, p) ==> k == payment_index(ps, id, p),
    decreases ps.len(),
{
    if ps.len() > 0 {
        let t = ps.drop_last();
        lemma_payment_index(t, id, p);
        if !same_key(ps.last(), id, p) {
            assert forall|k: int| 0 <= k < ps.len() && same_key(#[trigger] ps[k], id, p) implies k == payment_index(ps, id, p) by {
                assert(t[k] == ps[k]);
            }
            if payment_index(t, id, p) < 0 {
                assert forall|k: int| 0 <= k < ps.len() implies !same_key(#[trigger] ps[k], id, p) by {
                    if k < t.len() {
                        assert(t[k] == ps[k]);
                    }
                }
            }
        } else {
            assert forall|k: int| 0 <= k < ps.len() && same_key(#[trigger] ps[k], id, p) implies k == payment_index(ps, id, p) by {
                if k != ps.len() - 1 {
                    assert(!same_key(ps[k], ps[ps.len() - 1].expense_id, ps[ps.len() - 1].period));
                }
            }
        }
    }
}

pub proof fn lemma_max_bounds(es: Seq<Expense>)
    ensures
        forall|k: int| 0 <= k < es.len() ==> #[trigger] es[k].id <= max_id(es) && es[k].sort_order <= max_sort(es),
    decreases es.len(),
{
    if es.len() > 1 {
        lemma_max_bounds(es.drop_last());
        assert forall|k: int| 0 <= k < es.len() implies #[trigger] es[k].id <= max_id(es) && es[k].sort_order <= max_sort(es) by {
            if k < es.len() - 1 {
                assert(es[k] == es.drop_last()[k]);
            }
        }
    }
}

pub proof fn lemma_listed_trans(a: Expense, b: Expense, c: Expense)
    requires
        listed_before(a, b),
        listed_before(b, c),
    ensures
        listed_before(a, c),
{
}

pub proof fn lemma_listed_total(a: Expense, b: Expense)
    requires
        a.id != b.id,
    ensures
        listed_before(a, b) || listed_before(b, a),
{
}

/// Whether `a` comes before `b` in the listing order.
pub fn listed_first(a: &Expense, b: &Expense) -> (r: bool)
    ensures
        r == listed_before(*a, *b),
{
    a.sort_order < b.sort_order || (a.sort_order == b.sort_order && a.due_day < b.due_day) || (
    a.sort_order == b.sort_order && a.due_day == b.due_day && a.id < b.id)
}

// ---- the ledger ----------------------------------------------------------------

/// Every expense and payment, held in listing order, with the writes made
/// since it was loaded.
pub struct Ledger {
    pub expenses: Vec<Expense>,
    pub payments: Vec<Payment>,
    /// Writes since the ledger was built, oldest first.
    pub journal: Vec<Change>,
}

/// What adding an expense does: a blank name, a due day outside 1..=31, or
/// no id left is refused with the ledger untouched; otherwise the expense is
/// appended with the next id and sort position, and the write journaled.
pub open spec fn add_outcome(
    o: Ledger,
    n: Ledger,
    r: Result<i64, Error>,
    name: Seq<char>,
    amount_cents: i64,
    currency: Seq<char>,
    due_day: u32,
    category: Option<Seq<char>>,
    created_at: Seq<char>,
) -> bool {
    if trim(name).len() == 0 {
        r == Err::<i64, Error>(Error::NameMissing) && n == o
    } else if !(1 <= due_day <= 31) {
        r == Err::<i64, Error>(Error::DueDayOutOfRange(due_day)) && n == o
    } else if o.expenses@.len() > 0 && (max_id(o.expenses@) == i64::MAX || max_sort(o.expenses@)
        == i64::MAX) {
        r == Err::<i64, Error>(Error::StoreFull) && n == o
    } else {
        let e = n.expenses@.last();
        &&& r == Ok::<i64, Error>(next_id(o.expenses@) as i64)
        &&& n.expenses@ == o.expenses@.push(e)
        &&& is_new_expense(
            e,
            next_id(o.expenses@),
            name,
            amount_cents,
            currency,
            due_day,
            category,
            created_at,
            next_sort(o.expenses@),
        )
        &&& n.payments@ == o.payments@
        &&& n.journal@ == o.journal@.push(Change::InsertExpense(e))
    }
}

/// What deleting an expense does: an unknown id is refused with the ledger
/// untouched; otherwise the expense goes, and every payment recorded
/// against it with it.
pub open spec fn delete_outcome(o: Ledger, n: Ledger, r: Result<(), Error>, id: i64) -> bool {
    if !has_id(o.expenses@, id) {
        r == Err::<(), Error>(Error::NoExpense(id)) && n == o
    } else {
        &&& r is Ok
        &&& exists|k: int|
            0 <= k < o.expenses@.len() && o.expenses@[k].id == id && n.expenses@ == o.expenses@.remove(
                k,
            )
        &&& n.payments@ == drop_payments_of(o.payments@, id)
        &&& n.journal@ == o.journal@.push(Change::DeleteExpense(id))
    }
}

/// What paying does: an unknown id is refused with the ledger untouched;
/// otherwise the payment of that expense for that period, for `amount_cents`
/// or else the expense's own amount, is recorded (replacing any earlier
/// one) and its amount returned.
pub open spec fn pay_outcome(
    o: Ledger,
    n: Ledger,
    r: Result<i64, Error>,
    id: i64,
    period: Period,
    amount_cents: Option<i64>,
    paid_at: Seq<char>,
) -> bool {
    match find_expense(o.expenses@, id) {
        None => r == Err::<i64, Error>(Error::NoExpense(id)) && n == o,
        Some(e) => {
            let amount = match amount_cents {
                Some(a) => a,
                None => e.amount_cents,
            };
            let i = payment_index(o.payments@, id, period);
            let x = n.payments@[if i >= 0 {
                i
            } else {
                o.payments@.len() as int
            }];
            &&& r == Ok::<i64, Error>(amount)
            &&& x.expense_id == id && x.period == period && x.paid_at@ == paid_at && x.amount_cents
                == amount
            &&& n.payments@ == upsert_payment(o.payments@, x)
            &&& n.expenses@ == o.expenses@
            &&& n.journal@ == o.journal@.push(Change::UpsertPayment(x))
        },
    }
}

/// What unpaying does: an unknown id is refused with the ledger untouched;
/// otherwise the payment for that period, if any, is removed.
pub open spec fn unpay_outcome(o: Ledger, n: Ledger, r: Result<(), Error>, id: i64, period: Period) -> bool {
    match find_expense(o.expenses@, id) {
        None => r == Err::<(), Error>(Error::NoExpense(id)) && n == o,
        Some(e) => {
            &&& r is Ok
            &&& n.payments@ == remove_payment(o.payments@, id, period)
            &&& n.expenses@ == o.expenses@
            &&& n.journal@ == o.journal@.push(Change::DeletePayment(id, period))
        },
    }
}

/// What editing does: an unknown id, or a due day outside 1..=31, is refused
/// with the ledger untouched; otherwise the expense is replaced by its
/// edited form at its place in the listing order. Payments never change.
pub open spec fn edit_outcome(
    o: Ledger,
    n: Ledger,
    r: Result<(), Error>,
    id: i64,
    name: Option<Seq<char>>,
    amount_cents: Option<i64>,
    currency: Option<Seq<char>>,
    due_day: Option<u32>,
    category: Option<Option<Seq<char>>>,
    active: ActiveChange,
) -> bool {
    &&& n.payments@ == o.payments@
    &&& match find_expense(o.expenses@, id) {
        None => r == Err::<(), Error>(Error::NoExpense(id)) && n == o,
        Some(cur) => match due_day {
            Some(d) if !(1 <= d <= 31) => r == Err::<(), Error>(Error::DueDayOutOfRange(d)) && n == o,
            _ => r is Ok && exists|k: int, pos: int|
                #![trigger o.expenses@[k], n.expenses@[pos]]
                0 <= k < o.expenses@.len() && o.expenses@[k].id == id && 0 <= pos < n.expenses@.len()
                    && is_edit_with(n.expenses@[pos], cur, name, amount_cents, currency, due_day, category, active)
                    && n.expenses@ == o.expenses@.remove(k).insert(pos, n.expenses@[pos])
                    && n.journal@ == o.journal@.push(Change::UpdateExpense(n.expenses@[pos])),
        },
    }
}

impl Ledger {
    pub open spec fn wf(&self) -> bool {
        ledger_wf(self.expenses@, self.payments@)
    }

    /// A ledger over rows read back from the store, refused unless they hold
    /// the store's invariants (see `store_ok`). A payment whose expense is
    /// gone is left out, as a listing never reaches it.
    pub fn new(expenses: Vec<Expense>, payments: Vec<Payment>) -> (r: Result<Ledger, Error>)
        ensures
            match r {
                Ok(l) => l.expenses@ == expenses@ && l.payments@ == known_payments(expenses@, payments@)
                    && l.journal@.len() == 0 && l.wf(),
                Err(e) => e == Error::CorruptStore && !store_ok(expenses@, payments@),
            },
    {
        let n = expenses.len();
        let mut i: usize = 0;
        while i < n
            invariant
                0 <= i <= n,
                n == expenses@.len(),
                forall|a: int, b: int| 0 <= a < b < i ==> listed_before(#[trigger] expenses@[a], #[trigger] expenses@[b]),
                forall|a: int, b: int| 0 <= a < i && 0 <= b < i && a != b ==> #[trigger] expenses@[a].id != #[trigger] expenses@[b].id,
            decreases n - i,
        {
            let e = &expenses[i];
            let mut j: usize = 0;
            while j < i
                invariant
                    0 <= j <= i < n,
                    n == expenses@.len(),
                    *e == expenses@[i as int],
                    forall|b: int| 0 <= b < j ==> listed_before(#[trigger] expenses@[b], expenses@[i as int]) && expenses@[b].id != expenses@[i as int].id,
                decreases i - j,
            {
                let f = &expenses[j];
                let before = f.sort_order < e.sort_order || (f.sort_order == e.sort_order
                    && f.due_day < e.due_day) || (f.sort_order == e.sort_order && f.due_day
                    == e.due_day && f.id < e.id);
                if !before || f.id == e.id {
                    proof {
                        assert(!(listed_before(expenses@[j as int], expenses@[i as int]) && expenses@[j as int].id != expenses@[i as int].id));
                    }
                    return Err(Error::CorruptStore);
                }
                j = j + 1;
            }
            proof {
                assert forall|a: int, b: int| 0 <= a < b < i + 1 implies listed_before(#[trigger] expenses@[a], #[trigger] expenses@[b]) by {
                    if b == i {
                    }
                }
            }
            i = i + 1;
        }
        assert(expenses_ok(expenses@));
        let m = payments.len();
        let mut k: usize = 0;
        while k < m
            invariant
                0 <= k <= m,
                m == payments@.len(),
                forall|a: int, b: int|
                    0 <= a < k && 0 <= b < k && a != b ==> !same_key(
                        #[trigger] payments@[a],
                        #[trigger] payments@[b].expense_id,
                        payments@[b].period,
                    ),
            decreases m - k,
        {
            let q = &payments[k];
            let mut j: usize = 0;
            while j < k
                invariant
                    0 <= j <= k < m,
                    m == payments@.len(),
                    *q == payments@[k as int],
                    forall|b: int| 0 <= b < j ==> !same_key(#[trigger] payments@[b], q.expense_id, q.period),
                decreases k - j,
            {
                if payments[j].expense_id == q.expense_id && payments[j].period == q.period {
                    assert(same_key(payments@[j as int], payments@[k as int].expense_id, payments@[k as int].period));
                    return Err(Error::CorruptStore);
                }
                j = j + 1;
            }
            k = k + 1;
        }
        let ghost all = payments@;
        assert(unique_keys(all));
        let mut rest = payments;
        let mut kept: Vec<Payment> = Vec::new();
        let mut i: usize = 0;
        while i < m
            invariant
                0 <= i <= m,
                m == all.len(),
                n == expenses@.len(),
                expenses_ok(expenses@),
                unique_keys(all),
                rest@.len() == m - i,
                forall|a: int| 0 <= a < rest@.len() ==> #[trigger] rest@[a] == all[a + i],
                kept@ == known_payments(expenses@, all.take(i as int)),
                forall|a: int| 0 <= a < kept@.len() ==> (exists|j: int| 0 <= j < i && #[trigger] kept@[a] == all[j]),
                forall|a: int| 0 <= a < kept@.len() ==> has_id(expenses@, #[trigger] kept@[a].expense_id),
                unique_keys(kept@),
            decreases m - i,
        {
            let q = rest.remove(0);
            assert(q == all[i as int]);
            proof {
                assert(all.take(i + 1) =~= all.take(i as int).push(q));
                all.take(i as int).lemma_filter_push(q, |x: Payment| has_id(expenses@, x.expense_id));
            }
            let mut found = false;
            let mut x: usize = 0;
            while x < n
                invariant
                    0 <= x <= n,
                    n == expenses@.len(),
                    found ==> has_id(expenses@, q.expense_id),
                    !found ==> forall|b: int| 0 <= b < x ==> #[trigger] expenses@[b].id != q.expense_id,
                decreases n - x,
            {
                if expenses[x].id == q.expense_id {
                    found = true;
                }
                x = x + 1;
            }
            if found {
                let ghost before = kept@;
                proof {
                    assert forall|a: int| 0 <= a < before.len() implies !same_key(#[trigger] before[a], q.expense_id, q.period) by {
                        let j = choose|j: int| 0 <= j < i && #[trigger] before[a] == all[j];
                        assert(!same_key(all[j], all[i as int].expense_id, all[i as int].period));
                    }
                }
                kept.push(q);
                proof {
                    assert forall|a: int| 0 <= a < kept@.len() implies (exists|j: int| 0 <= j < i + 1 && #[trigger] kept@[a] == all[j]) by {
                        if a < before.len() {
                            assert(kept@[a] == before[a]);
                            let j = choose|j: int| 0 <= j < i && #[trigger] before[a] == all[j];
                            assert(kept@[a] == all[j]);
                        } else {
                            assert(kept@[a] == all[i as int]);
                        }
                    }
                    assert forall|a: int| 0 <= a < kept@.len() implies has_id(expenses@, #[trigger] kept@[a].expense_id) by {
                        if a < before.len() {
                            assert(kept@[a] == before[a]);
                        }
                    }
                    assert forall|a: int, b: int|
                        0 <= a < kept@.len() && 0 <= b < kept@.len() && a != b implies !same_key(
                            #[trigger] kept@[a],
                            #[trigger] kept@[b].expense_id,
                            kept@[b].period,
                        ) by {
                        if a < before.len() && b < before.len() {
                            assert(kept@[a] == before[a] && kept@[b] == before[b]);
                        } else if a < before.len() {
                            assert(kept@[a] == before[a]);
                        } else {
                            assert(kept@[b] == before[b]);
                            assert(!same_key(before[b], q.expense_id, q.period));
                        }
                    }
                }
            } else {
                proof {
                    if has_id(expenses@, q.expense_id) {
                        let b = choose|b: int| 0 <= b < expenses@.len() && #[trigger] expenses@[b].id == q.expense_id;
                        assert(expenses@[b].id != q.expense_id);
                    }
                    assert forall|a: int| 0 <= a < kept@.len() implies (exists|j: int| 0 <= j < i + 1 && #[trigger] kept@[a] == all[j]) by {
                        let j = choose|j: int| 0 <= j < i && #[trigger] kept@[a] == all[j];
                    }
                }
            }
            i = i + 1;
        }
        proof {
            assert(all.take(m as int) =~= all);
        }
        Ok(Ledger { expenses, payments: kept, journal: Vec::new() })
    }

    /// The expense with this id.
    pub fn get_expense(&self, id: i64) -> (r: Result<Expense, Error>)
        requires
            self.wf(),
        ensures
            match find_expense(self.expenses@, id) {
                Some(e) => r == Ok::<Expense, Error>(e),
                None => r == Err::<Expense, Error>(Error::NoExpense(id)),
            },
    {
        match self.position_of(id) {
            Some(k) => Ok(self.expenses[k].clone()),
            None => Err(Error::NoExpense(id)),
        }
    }

    /// Where the expense with this id sits.
    pub fn position_of(&self, id: i64) -> (r: Option<usize>)
        requires
            self.wf(),
        ensures
            match r {
                Some(k) => k < self.expenses@.len() && self.expenses@[k as int].id == id && find_expense(
                    self.expenses@,
                    id,
                ) == Some(self.expenses@[k as int]),
                None => find_expense(self.expenses@, id) is None && !has_id(self.expenses@, id),
            },
    {
        proof {
            lemma_find_expense(self.expenses@, id);
        }
        let n = self.expenses.len();
        let mut k: usize = 0;
        while k < n
            invariant
                0 <= k <= n,
                n == self.expenses@.len(),
                self.wf(),
                forall|b: int| 0 <= b < k ==> #[trigger] self.expenses@[b].id != id,
            decreases n - k,
        {
            if self.expenses[k].id == id {
                proof {
                    lemma_find_expense(self.expenses@, id);
                    assert(self.expenses@[k as int].id == id);
                }
                return Some(k);
            }
            k = k + 1;
        }
        None
    }

    /// Where the payment of this expense for this period sits.
    pub fn payment_position(&self, id: i64, period: Period) -> (r: Option<usize>)
        requires
            self.wf(),
        ensures
            match r {
                Some(k) => k as int == payment_index(self.payments@, id, period),
                None => payment_index(self.payments@, id, period) == -1,
            },
    {
        proof {
            lemma_payment_index(self.payments@, id, period);
        }
        let n = self.payments.len();
        let mut k: usize = 0;
        while k < n
            invariant
                0 <= k <= n,
                n == self.payments@.len(),
                self.wf(),
                forall|b: int| 0 <= b < k ==> !same_key(#[trigger] self.payments@[b], id, period),
            decreases n - k,
        {
            if self.payments[k].expense_id == id && self.payments[k].period == period {
                proof {
                    lemma_payment_index(self.payments@, id, period);
                    assert(same_key(self.payments@[k as int], id, period));
                }
                return Some(k);
            }
            k = k + 1;
        }
        None
    }

    /// Whether this expense is paid for this period.
    pub fn is_paid(&self, id: i64, period: Period) -> (b: bool)
        requires
            self.wf(),
        ensures
            b == find_payment(self.payments@, id, period) is Some,
    {
        proof {
            lemma_payment_index(self.payments@, id, period);
        }
        self.payment_position(id, period).is_some()
    }

    /// Every expense in one period, with its payment and derived status.
    ///
    /// `today` is passed in rather than read from the clock so status is a
    /// pure function of its inputs.
    pub fn period_view(&self, period: Period, today: Date, view: &View) -> (r: Vec<Entry>)
        requires
            self.wf(),
            in_calendar(period.year as int, period.month as int),
        ensures
            r@ == listing(self.expenses@, self.payments@, period, today, *view),
    {
        let n = self.expenses.len();
        let mut out: Vec<Entry> = Vec::new();
        let mut i: usize = 0;
        while i < n
            invariant
                0 <= i <= n,
                n == self.expenses@.len(),
                self.wf(),
                in_calendar(period.year as int, period.month as int),
                out@ == listing(self.expenses@.take(i as int), self.payments@, period, today, *view),
            decreases n - i,
        {
            let e = &self.expenses[i];
            proof {
                assert(self.expenses@.take(i + 1).drop_last() =~= self.expenses@.take(i as int));
                assert(self.expenses@.take(i + 1).last() == *e);
                lemma_payment_index(self.payments@, e.id, period);
            }
            if e.active || view.include_archived {
                let paid = match self.payment_position(e.id, period) {
                    Some(k) => Some(self.payments[k].amount_cents),
                    None => None,
                };
                let due_date = period.day(e.due_day);
                let status = if paid.is_some() {
                    Status::Paid
                } else if due_date.is_before(&today) {
                    Status::Overdue
                } else {
                    Status::Due
                };
                let shown = if view.only_pending {
                    status != Status::Paid
                } else if view.only_paid {
                    status == Status::Paid
                } else {
                    true
                };
                if shown {
                    out.push(Entry { expense: e.clone(), paid_cents: paid, due_date, status });
                }
            }
            i = i + 1;
        }
        assert(self.expenses@.take(n as int) =~= self.expenses@);
        out
    }

    /// The largest id and sort position held, when any expense is.
    fn maxima(&self) -> (r: Option<(i64, i64)>)
        ensures
            self.expenses@.len() == 0 ==> r is None,
            self.expenses@.len() > 0 ==> r == Some(
                (max_id(self.expenses@) as i64, max_sort(self.expenses@) as i64),
            ),
            self.expenses@.len() > 0 ==> i64::MIN <= max_id(self.expenses@) <= i64::MAX
                && i64::MIN <= max_sort(self.expenses@) <= i64::MAX,
    {
        let n = self.expenses.len();
        if n == 0 {
            return None;
        }
        let mut mi = self.expenses[0].id;
        let mut ms = self.expenses[0].sort_order;
        let mut i: usize = 1;
        assert(self.expenses@.take(1).len() == 1);
        while i < n
            invariant
                1 <= i <= n,
                n == self.expenses@.len(),
                mi == max_id(self.expenses@.take(i as int)),
                ms == max_sort(self.expenses@.take(i as int)),
            decreases n - i,
        {
            assert(self.expenses@.take(i + 1).drop_last() =~= self.expenses@.take(i as int));
            let e = &self.expenses[i];
            if e.id > mi {
                mi = e.id;
            }
            if e.sort_order > ms {
                ms = e.sort_order;
            }
            i = i + 1;
        }
        assert(self.expenses@.take(n as int) =~= self.expenses@);
        Some((mi, ms))
    }

    /// Adds a fixed monthly expense and returns its id. The name is trimmed
    /// and must not be empty; the due day must be 1..=31; the currency is
    /// stored upper-cased; it is listed after every existing expense.
    pub fn add_expense(
        &mut self,
        name: &str,
        amount_cents: i64,
        currency: &str,
        due_day: u32,
        category: Option<&str>,
        created_at: &str,
    ) -> (r: Result<i64, Error>)
        requires
            old(self).wf(),
        ensures
            final(self).wf(),
            add_outcome(
                *old(self),
                *final(self),
                r,
                name@,
                amount_cents,
                currency@,
                due_day,
                opt_str_view(category),
                created_at@,
            ),
    {
        let trimmed = trim_chars(&chars_of(name));
        if trimmed.len() == 0 {
            return Err(Error::NameMissing);
        }
        if due_day < 1 || due_day > 31 {
            return Err(Error::DueDayOutOfRange(due_day));
        }
        let (id, sort_order) = match self.maxima() {
            None => (1i64, 0i64),
            Some((mi, ms)) => {
                if mi == i64::MAX || ms == i64::MAX {
                    return Err(Error::StoreFull);
                }
                (mi + 1, ms + 1)
            },
        };
        let cat = match category {
            Some(c) => Some(String::from_str(c)),
            None => None,
        };
        let e = Expense {
            id,
            name: string_of(&trimmed),
            amount_cents,
            currency: to_uppercase(currency),
            due_day,
            category: cat,
            active: true,
            sort_order,
            created_at: String::from_str(created_at),
        };
        proof {
            lemma_max_bounds(self.expenses@);
        }
        self.journal.push(Change::InsertExpense(e.clone()));
        self.expenses.push(e);
        proof {
            let es = self.expenses@;
            assert forall|i: int, j: int| 0 <= i < j < es.len() implies listed_before(
                #[trigger] es[i],
                #[trigger] es[j],
            ) by {
                if j == es.len() - 1 {
                    assert(es[i] == old(self).expenses@[i]);
                }
            }
            assert forall|i: int, j: int| 0 <= i < es.len() && 0 <= j < es.len() && i != j implies #[trigger] es[i].id != #[trigger] es[j].id by {
                if j == es.len() - 1 {
                    assert(es[i] == old(self).expenses@[i]);
                }
                if i == es.len() - 1 {
                    assert(es[j] == old(self).expenses@[j]);
                }
            }
            assert forall|i: int| 0 <= i < self.payments@.len() implies has_id(es, #[trigger] self.payments@[i].expense_id) by {
                let k = choose|k: int| 0 <= k < old(self).expenses@.len() && #[trigger] old(self).expenses@[k].id == self.payments@[i].expense_id;
                assert(es[k] == old(self).expenses@[k]);
            }
        }
        Ok(id)
    }


    /// Deletes an expense and, with it, every payment recorded against it.
    pub fn delete_expense(&mut self, id: i64) -> (r: Result<(), Error>)
        requires
            old(self).wf(),
        ensures
            final(self).wf(),
            delete_outcome(*old(self), *final(self), r, id),
            forall|i: int| 0 <= i < final(self).payments@.len() ==> #[trigger] final(self).payments@[i].expense_id != id,
    {
        let k = match self.position_of(id) {
            Some(k) => k,
            None => {
                return Err(Error::NoExpense(id));
            },
        };
        let ghost old_es = self.expenses@;
        let ghost old_ps = self.payments@;
        self.expenses.remove(k);
        let n = self.payments.len();
        let mut kept: Vec<Payment> = Vec::new();
        let mut taken: Vec<Payment> = Vec::new();
        std::mem::swap(&mut taken, &mut self.payments);
        assert(taken@ == old_ps);
        let mut i: usize = 0;
        while i < n
            invariant
                0 <= i <= n,
                n == old_ps.len(),
                taken@.len() == old_ps.len() - i,
                forall|a: int| 0 <= a < taken@.len() ==> #[trigger] taken@[a] == old_ps[a + i],
                ledger_wf(old_es, old_ps),
                kept@ == drop_payments_of(old_ps.take(i as int), id),
                forall|a: int| 0 <= a < kept@.len() ==> (exists|j: int| 0 <= j < i && #[trigger] kept@[a] == old_ps[j]),
                forall|a: int| 0 <= a < kept@.len() ==> #[trigger] kept@[a].expense_id != id,
                forall|a: int, b: int|
                    0 <= a < kept@.len() && 0 <= b < kept@.len() && a != b ==> !same_key(
                        #[trigger] kept@[a],
                        #[trigger] kept@[b].expense_id,
                        kept@[b].period,
                    ),
            decreases n - i,
        {
            let q = taken.remove(0);
            assert(q == old_ps[i as int]);
            proof {
                assert(old_ps.take(i + 1).drop_last() =~= old_ps.take(i as int));
                assert(old_ps.take(i + 1).last() == q);
            }
            if q.expense_id != id {
                let ghost before = kept@;
                proof {
                    assert forall|a: int| 0 <= a < before.len() implies !same_key(#[trigger] before[a], q.expense_id, q.period) by {
                        let j = choose|j: int| 0 <= j < i && #[trigger] before[a] == old_ps[j];
                        assert(!same_key(old_ps[j], old_ps[i as int].expense_id, old_ps[i as int].period));
                    }
                }
                kept.push(q);
                proof {
                    assert forall|a: int| 0 <= a < kept@.len() implies (exists|j: int| 0 <= j < i + 1 && #[trigger] kept@[a] == old_ps[j]) by {
                        if a < before.len() {
                            assert(kept@[a] == before[a]);
                            let j = choose|j: int| 0 <= j < i && #[trigger] before[a] == old_ps[j];
                            assert(kept@[a] == old_ps[j]);
                        } else {
                            assert(kept@[a] == old_ps[i as int]);
                        }
                    }
                    assert forall|a: int, b: int|
                        0 <= a < kept@.len() && 0 <= b < kept@.len() && a != b implies !same_key(
                            #[trigger] kept@[a],
                            #[trigger] kept@[b].expense_id,
                            kept@[b].period,
                        ) by {
                        if a < before.len() && b < before.len() {
                            assert(kept@[a] == before[a] && kept@[b] == before[b]);
                        } else if a < before.len() {
                            assert(kept@[a] == before[a]);
                        } else {
                            assert(kept@[b] == before[b]);
                            assert(!same_key(before[b], q.expense_id, q.period));
                        }
                    }
                }
            } else {
                proof {
                    assert forall|a: int| 0 <= a < kept@.len() implies (exists|j: int| 0 <= j < i + 1 && #[trigger] kept@[a] == old_ps[j]) by {
                        let j = choose|j: int| 0 <= j < i && #[trigger] kept@[a] == old_ps[j];
                    }
                }
            }
            i = i + 1;
        }
        assert(old_ps.take(n as int) =~= old_ps);
        self.payments = kept;
        self.journal.push(Change::DeleteExpense(id));
        proof {
            let es = self.expenses@;
            assert(old_es[k as int].id == id);
            assert forall|a: int, b: int| 0 <= a < b < es.len() implies listed_before(
                #[trigger] es[a],
                #[trigger] es[b],
            ) by {
                let a2 = if a < k { a } else { a + 1 };
                let b2 = if b < k { b } else { b + 1 };
                assert(es[a] == old_es[a2] && es[b] == old_es[b2]);
            }
            assert forall|a: int, b: int| 0 <= a < es.len() && 0 <= b < es.len() && a != b implies #[trigger] es[a].id != #[trigger] es[b].id by {
                let a2 = if a < k { a } else { a + 1 };
                let b2 = if b < k { b } else { b + 1 };
                assert(es[a] == old_es[a2] && es[b] == old_es[b2]);
            }
            assert forall|a: int| 0 <= a < self.payments@.len() implies has_id(es, #[trigger] self.payments@[a].expense_id) by {
                let j = choose|j: int| 0 <= j < n && #[trigger] self.payments@[a] == old_ps[j];
                let x = choose|x: int| 0 <= x < old_es.len() && #[trigger] old_es[x].id == old_ps[j].expense_id;
                assert(x != k);
                let x2 = if x < k { x } else { x - 1 };
                assert(es[x2] == old_es[x]);
            }
        }
        Ok(())
    }

    /// Records that an expense was settled for a period, for `amount_cents`
    /// or, when that is `None`, for the expense's own amount. Paying an
    /// already-paid (expense, period) replaces that payment rather than
    /// adding a second one. Returns the amount recorded.
    pub fn pay(&mut self, id: i64, period: Period, amount_cents: Option<i64>, paid_at: &str) -> (r:
        Result<i64, Error>)
        requires
            old(self).wf(),
        ensures
            final(self).wf(),
            pay_outcome(*old(self), *final(self), r, id, period, amount_cents, paid_at@),
    {
        let k = match self.position_of(id) {
            Some(k) => k,
            None => {
                return Err(Error::NoExpense(id));
            },
        };
        let amount = match amount_cents {
            Some(a) => a,
            None => self.expenses[k].amount_cents,
        };
        let x = Payment { expense_id: id, period, paid_at: String::from_str(paid_at), amount_cents: amount };
        let ghost old_ps = self.payments@;
        proof {
            lemma_payment_index(old_ps, id, period);
        }
        match self.payment_position(id, period) {
            Some(j) => {
                self.journal.push(Change::UpsertPayment(Payment { expense_id: id, period, paid_at: x.paid_at.clone(), amount_cents: amount }));
                self.payments.set(j, x);
            },
            None => {
                self.journal.push(Change::UpsertPayment(Payment { expense_id: id, period, paid_at: x.paid_at.clone(), amount_cents: amount }));
                self.payments.push(x);
            },
        }
        proof {
            let ps = self.payments@;
            let i = payment_index(old_ps, id, period);
            assert forall|a: int, b: int|
                0 <= a < ps.len() && 0 <= b < ps.len() && a != b implies !same_key(
                    #[trigger] ps[a],
                    #[trigger] ps[b].expense_id,
                    ps[b].period,
                ) by {
                let xi = if i >= 0 { i } else { old_ps.len() as int };
                if a != xi && b != xi {
                    assert(ps[a] == old_ps[a] && ps[b] == old_ps[b]);
                } else if a == xi {
                    assert(ps[b] == old_ps[b]);
                    if same_key(ps[a], ps[b].expense_id, ps[b].period) {
                        assert(same_key(old_ps[b], id, period));
                    }
                } else {
                    assert(ps[a] == old_ps[a]);
                    if same_key(ps[a], ps[b].expense_id, ps[b].period) {
                        assert(same_key(old_ps[a], id, period));
                    }
                }
            }
            assert forall|a: int| 0 <= a < ps.len() implies has_id(self.expenses@, #[trigger] ps[a].expense_id) by {
                if ps[a].expense_id == id {
                    assert(self.expenses@[k as int].id == id);
                } else {
                    assert(ps[a] == old_ps[a]);
                }
            }
        }
        Ok(amount)
    }

    /// Removes the payment of an expense for a period; nothing happens when
    /// there is none, but the expense must exist.
    pub fn unpay(&mut self, id: i64, period: Period) -> (r: Result<(), Error>)
        requires
            old(self).wf(),
        ensures
            final(self).wf(),
            unpay_outcome(*old(self), *final(self), r, id, period),
    {
        if self.position_of(id).is_none() {
            return Err(Error::NoExpense(id));
        }
        let ghost old_ps = self.payments@;
        proof {
            lemma_payment_index(old_ps, id, period);
        }
        match self.payment_position(id, period) {
            Some(j) => {
                self.payments.remove(j);
            },
            None => {},
        }
        self.journal.push(Change::DeletePayment(id, period));
        proof {
            let ps = self.payments@;
            let i = payment_index(old_ps, id, period);
            if i >= 0 {
                assert forall|a: int, b: int|
                    0 <= a < ps.len() && 0 <= b < ps.len() && a != b implies !same_key(
                        #[trigger] ps[a],
                        #[trigger] ps[b].expense_id,
                        ps[b].period,
                    ) by {
                    let a2 = if a < i { a } else { a + 1 };
                    let b2 = if b < i { b } else { b + 1 };
                    assert(ps[a] == old_ps[a2] && ps[b] == old_ps[b2]);
                }
                assert forall|a: int| 0 <= a < ps.len() implies has_id(self.expenses@, #[trigger] ps[a].expense_id) by {
                    let a2 = if a < i { a } else { a + 1 };
                    assert(ps[a] == old_ps[a2]);
                }
            }
        }
        Ok(())
    }


    /// Changes an expense. The due day, when given, must be 1..=31; the name
    /// is trimmed and the currency upper-cased; the expense moves to its
    /// place in the listing order. Payments are untouched, so archiving keeps
    /// an expense's history.
    #[verifier::rlimit(40)]
    pub fn edit_expense(&mut self, id: i64, edit: Edit) -> (r: Result<(), Error>)
        requires
            old(self).wf(),
        ensures
            final(self).wf(),
            edit_outcome(
                *old(self),
                *final(self),
                r,
                id,
                opt_str_view(edit.name),
                edit.amount_cents,
                opt_str_view(edit.currency),
                edit.due_day,
                category_change_view(edit.category),
                edit.active,
            ),
    {
        let k = match self.position_of(id) {
            Some(k) => k,
            None => {
                return Err(Error::NoExpense(id));
            },
        };
        if let Some(day) = edit.due_day {
            if day < 1 || day > 31 {
                return Err(Error::DueDayOutOfRange(day));
            }
        }
        let ghost old_es = self.expenses@;
        let cur = self.expenses.remove(k);
        let ghost rest = self.expenses@;
        let name = match edit.name {
            Some(n) => string_of(&trim_chars(&chars_of(n))),
            None => string_of(&trim_chars(&chars_of(cur.name.as_str()))),
        };
        let currency = match edit.currency {
            Some(c) => to_uppercase(c),
            None => to_uppercase(cur.currency.as_str()),
        };
        let category = match edit.category {
            CategoryChange::Keep => cur.category,
            CategoryChange::SetTo(c) => Some(c),
            CategoryChange::Clear => None,
        };
        let active = match edit.active {
            ActiveChange::Keep => cur.active,
            ActiveChange::Archive => false,
            ActiveChange::Restore => true,
        };
        let new = Expense {
            id: cur.id,
            name,
            amount_cents: match edit.amount_cents {
                Some(a) => a,
                None => cur.amount_cents,
            },
            currency,
            due_day: match edit.due_day {
                Some(d) => d,
                None => cur.due_day,
            },
            category,
            active,
            sort_order: cur.sort_order,
            created_at: cur.created_at,
        };
        // Its place: before the first expense it is listed before.
        let n = self.expenses.len();
        let mut pos: usize = 0;
        while pos < n && listed_first(&self.expenses[pos], &new)
            invariant
                0 <= pos <= n,
                n == self.expenses@.len(),
                forall|a: int| 0 <= a < pos ==> listed_before(#[trigger] self.expenses@[a], new),
            decreases n - pos,
        {
            pos = pos + 1;
        }
        self.journal.push(Change::UpdateExpense(new.clone()));
        self.expenses.insert(pos, new);
        proof {
            let es = self.expenses@;
            let e = es[pos as int];
            assert(old_es[k as int].id == id);
            assert(find_expense(old_es, id) == Some(old_es[k as int]));
            assert(rest =~= old_es.remove(k as int));
            assert(es =~= rest.insert(pos as int, e));
            // distinct ids: e carries the id that was removed
            assert forall|a: int| 0 <= a < rest.len() implies #[trigger] rest[a].id != id by {
                let a2 = if a < k { a } else { a + 1 };
                assert(rest[a] == old_es[a2]);
            }
            assert forall|a: int, b: int| 0 <= a < rest.len() && 0 <= b < rest.len() && a != b implies #[trigger] rest[a].id != #[trigger] rest[b].id by {
                let a2 = if a < k { a } else { a + 1 };
                let b2 = if b < k { b } else { b + 1 };
                assert(rest[a] == old_es[a2] && rest[b] == old_es[b2]);
            }
            assert forall|a: int, b: int| 0 <= a < b < rest.len() implies listed_before(#[trigger] rest[a], #[trigger] rest[b]) by {
                let a2 = if a < k { a } else { a + 1 };
                let b2 = if b < k { b } else { b + 1 };
                assert(rest[a] == old_es[a2] && rest[b] == old_es[b2]);
            }
            if pos < n {
                lemma_listed_total(rest[pos as int], e);
            }
            assert forall|a: int, b: int| 0 <= a < b < es.len() implies listed_before(#[trigger] es[a], #[trigger] es[b]) by {
                if b < pos {
                    assert(es[a] == rest[a] && es[b] == rest[b]);
                } else if b == pos {
                    assert(es[a] == rest[a]);
                } else if a == pos {
                    assert(es[b] == rest[b - 1]);
                    if b - 1 > pos {
                        lemma_listed_trans(e, rest[pos as int], rest[b - 1]);
                    }
                } else if a < pos {
                    assert(es[a] == rest[a] && es[b] == rest[b - 1]);
                } else {
                    assert(es[a] == rest[a - 1] && es[b] == rest[b - 1]);
                }
            }
            assert forall|a: int, b: int| 0 <= a < es.len() && 0 <= b < es.len() && a != b implies #[trigger] es[a].id != #[trigger] es[b].id by {
                let a2 = if a < pos { a } else { a - 1 };
                let b2 = if b < pos { b } else { b - 1 };
                if a != pos && b != pos {
                    assert(es[a] == rest[a2] && es[b] == rest[b2]);
                } else if a == pos {
                    assert(es[b] == rest[b2]);
                } else {
                    assert(es[a] == rest[a2]);
                }
            }
            assert forall|a: int| 0 <= a < self.payments@.len() implies has_id(es, #[trigger] self.payments@[a].expense_id) by {
                let x = choose|x: int| 0 <= x < old_es.len() && #[trigger] old_es[x].id == self.payments@[a].expense_id;
                if x == k {
                    assert(es[pos as int].id == id);
                } else {
                    let x2 = if x < k { x } else { x - 1 };
                    assert(rest[x2] == old_es[x]);
                    let x3 = if x2 < pos { x2 } else { x2 + 1 };
                    assert(es[x3] == rest[x2]);
                }
            }
            assert(is_edit_of(e, old_es[k as int], edit));
        }
        Ok(())
    }

}

// ---- laws ------------------------------------------------------------------

pub open spec fn unique_keys(ps: Seq<Payment>) -> bool {
    forall|i: int, j: int|
        0 <= i < ps.len() && 0 <= j < ps.len() && i != j ==> !same_key(
            #[trigger] ps[i],
            #[trigger] ps[j].expense_id,
            ps[j].period,
        )
}

proof fn lemma_find_by_index(ps: Seq<Payment>, id: i64, p: Period)
    requires
        unique_keys(ps),
    ensures
        (forall|k: int| 0 <= k < ps.len() ==> !same_key(#[trigger] ps[k], id, p)) ==> find_payment(
            ps,
            id,
            p,
        ) is None,
        forall|k: int| 0 <= k < ps.len() && same_key(#[trigger] ps[k], id, p) ==> find_payment(
            ps,
            id,
            p,
        ) == Some(ps[k]),
{
    lemma_payment_index(ps, id, p);
}

proof fn lemma_upsert_unique(ps: Seq<Payment>, x: Payment)
    requires
        unique_keys(ps),
    ensures
        unique_keys(upsert_payment(ps, x)),
        upsert_payment(ps, x).len() == ps.len() || upsert_payment(ps, x).len() == ps.len() + 1,
{
    lemma_payment_index(ps, x.expense_id, x.period);
    let i = payment_index(ps, x.expense_id, x.period);
    let qs = upsert_payment(ps, x);
    let xi = if i >= 0 { i } else { ps.len() as int };
    assert forall|a: int, b: int|
        0 <= a < qs.len() && 0 <= b < qs.len() && a != b implies !same_key(
            #[trigger] qs[a],
            #[trigger] qs[b].expense_id,
            qs[b].period,
        ) by {
        if a != xi && b != xi {
            assert(qs[a] == ps[a] && qs[b] == ps[b]);
        } else if a == xi {
            assert(qs[b] == ps[b]);
            if same_key(qs[a], qs[b].expense_id, qs[b].period) {
                assert(same_key(ps[b], x.expense_id, x.period));
            }
        } else {
            assert(qs[a] == ps[a]);
            if same_key(qs[a], qs[b].expense_id, qs[b].period) {
                assert(same_key(ps[a], x.expense_id, x.period));
            }
        }
    }
}

/// What a payment records is what reading that expense and period back
/// gives: the one payment, with the amount just recorded.
pub proof fn paying_is_read_back(ps: Seq<Payment>, x: Payment)
    requires
        unique_keys(ps),
    ensures
        find_payment(upsert_payment(ps, x), x.expense_id, x.period) == Some(x),
{
    lemma_upsert_unique(ps, x);
    lemma_payment_index(ps, x.expense_id, x.period);
    let i = payment_index(ps, x.expense_id, x.period);
    let qs = upsert_payment(ps, x);
    let xi = if i >= 0 { i } else { ps.len() as int };
    assert(qs[xi] == x);
    lemma_find_by_index(qs, x.expense_id, x.period);
}

/// Recording a payment changes nothing for any other expense or period.
pub proof fn paying_touches_only_its_key(ps: Seq<Payment>, x: Payment, id: i64, p: Period)
    requires
        unique_keys(ps),
        !(id == x.expense_id && p == x.period),
    ensures
        find_payment(upsert_payment(ps, x), id, p) == find_payment(ps, id, p),
{
    lemma_upsert_unique(ps, x);
    lemma_payment_index(ps, x.expense_id, x.period);
    let i = payment_index(ps, x.expense_id, x.period);
    let qs = upsert_payment(ps, x);
    let xi = if i >= 0 { i } else { ps.len() as int };
    lemma_find_by_index(qs, id, p);
    lemma_find_by_index(ps, id, p);
    if exists|k: int| 0 <= k < ps.len() && same_key(#[trigger] ps[k], id, p) {
        let k = choose|k: int| 0 <= k < ps.len() && same_key(#[trigger] ps[k], id, p);
        assert(k != xi);
        assert(qs[k] == ps[k]);
    } else {
        assert forall|k: int| 0 <= k < qs.len() implies !same_key(#[trigger] qs[k], id, p) by {
            if k != xi {
                assert(qs[k] == ps[k]);
            }
        }
    }
}

/// Paying is scoped to one period: the listing of any other period is
/// exactly what it was.
pub proof fn paying_leaves_other_periods_alone(
    es: Seq<Expense>,
    ps: Seq<Payment>,
    x: Payment,
    q: Period,
    today: Date,
    v: View,
)
    requires
        unique_keys(ps),
        x.period != q,
    ensures
        listing(es, upsert_payment(ps, x), q, today, v) == listing(es, ps, q, today, v),
    decreases es.len(),
{
    if es.len() > 0 {
        paying_leaves_other_periods_alone(es.drop_last(), ps, x, q, today, v);
        paying_touches_only_its_key(ps, x, es.last().id, q);
    }
}

/// Paying twice for one expense and period keeps one record, the last.
pub proof fn paying_twice_keeps_one_record(ps: Seq<Payment>, x: Payment, y: Payment)
    requires
        unique_keys(ps),
        x.expense_id == y.expense_id,
        x.period == y.period,
    ensures
        upsert_payment(upsert_payment(ps, x), y) == upsert_payment(ps, y),
        upsert_payment(upsert_payment(ps, x), y).len() == upsert_payment(ps, x).len(),
{
    lemma_upsert_unique(ps, x);
    lemma_payment_index(ps, x.expense_id, x.period);
    let qs = upsert_payment(ps, x);
    lemma_payment_index(qs, y.expense_id, y.period);
    let i = payment_index(ps, x.expense_id, x.period);
    let xi = if i >= 0 { i } else { ps.len() as int };
    assert(same_key(qs[xi], y.expense_id, y.period));
    assert(payment_index(qs, y.expense_id, y.period) == xi);
    if i >= 0 {
        assert(qs.update(xi, y) =~= ps.update(i, y));
    } else {
        assert(qs.update(xi, y) =~= ps.push(y));
    }
}

/// Undoing a payment that was not there before restores the payments
/// exactly.
pub proof fn unpaying_undoes_paying(ps: Seq<Payment>, x: Payment)
    requires
        unique_keys(ps),
        find_payment(ps, x.expense_id, x.period) is None,
    ensures
        remove_payment(upsert_payment(ps, x), x.expense_id, x.period) == ps,
{
    lemma_payment_index(ps, x.expense_id, x.period);
    lemma_upsert_unique(ps, x);
    let qs = ps.push(x);
    assert(upsert_payment(ps, x) == qs);
    lemma_payment_index(qs, x.expense_id, x.period);
    assert(same_key(qs[ps.len() as int], x.expense_id, x.period));
    assert(qs.remove(ps.len() as int) =~= ps);
}

/// After unpaying, the expense reads back as unpaid for that period, and
/// still no two payments share an expense and a period.
pub proof fn unpaying_is_read_back(ps: Seq<Payment>, id: i64, p: Period)
    requires
        unique_keys(ps),
    ensures
        find_payment(remove_payment(ps, id, p), id, p) is None,
        unique_keys(remove_payment(ps, id, p)),
{
    lemma_payment_index(ps, id, p);
    let i = payment_index(ps, id, p);
    let qs = remove_payment(ps, id, p);
    assert forall|k: int| 0 <= k < qs.len() implies !same_key(#[trigger] qs[k], id, p) by {
        if i >= 0 {
            let k2 = if k < i { k } else { k + 1 };
            assert(qs[k] == ps[k2]);
        }
    }
    assert(unique_keys(qs)) by {
        if i >= 0 {
            assert forall|a: int, b: int|
                0 <= a < qs.len() && 0 <= b < qs.len() && a != b implies !same_key(
                    #[trigger] qs[a],
                    #[trigger] qs[b].expense_id,
                    qs[b].period,
                ) by {
                let a2 = if a < i { a } else { a + 1 };
                let b2 = if b < i { b } else { b + 1 };
                assert(qs[a] == ps[a2] && qs[b] == ps[b2]);
            }
        }
    }
    lemma_find_by_index(qs, id, p);
}

/// An archived expense is listed only when the view asks for archived ones,
/// and every listed entry has a status the view shows.
pub proof fn listing_respects_the_view(es: Seq<Expense>, ps: Seq<Payment>, p: Period, today: Date, v: View)
    ensures
        forall|i: int| 0 <= i < listing(es, ps, p, today, v).len() ==> {
            let e = #[trigger] listing(es, ps, p, today, v)[i];
            &&& e.expense.active || v.include_archived
            &&& v.shows(e.status)
        },
    decreases es.len(),
{
    if es.len() > 0 {
        listing_respects_the_view(es.drop_last(), ps, p, today, v);
        let rest = listing(es.drop_last(), ps, p, today, v);
        assert forall|i: int| 0 <= i < listing(es, ps, p, today, v).len() implies {
            let e = #[trigger] listing(es, ps, p, today, v)[i];
            &&& e.expense.active || v.include_archived
            &&& v.shows(e.status)
        } by {
            if i < rest.len() {
                assert(listing(es, ps, p, today, v)[i] == rest[i]);
            }
        }
    }
}

/// The pending view and the paid view split a period's listing between
/// them: the pending view is exactly the listing's unpaid entries, the paid
/// view exactly its paid ones, in the listing's order, and together they
/// hold as many entries as the whole listing.
pub proof fn pending_and_paid_partition_the_period(
    es: Seq<Expense>,
    ps: Seq<Payment>,
    p: Period,
    today: Date,
    include_archived: bool,
)
    ensures
        listing(es, ps, p, today, View { include_archived, only_pending: true, only_paid: false })
            == listing(es, ps, p, today, View { include_archived, only_pending: false, only_paid: false }).filter(
            |e: Entry| e.status != Status::Paid,
        ),
        listing(es, ps, p, today, View { include_archived, only_pending: false, only_paid: true })
            == listing(es, ps, p, today, View { include_archived, only_pending: false, only_paid: false }).filter(
            |e: Entry| e.status == Status::Paid,
        ),
        listing(es, ps, p, today, View { include_archived, only_pending: true, only_paid: false }).len()
            + listing(es, ps, p, today, View { include_archived, only_pending: false, only_paid: true }).len()
            == listing(es, ps, p, today, View { include_archived, only_pending: false, only_paid: false }).len(),
    decreases es.len(),
{
    let all = View { include_archived, only_pending: false, only_paid: false };
    if es.len() > 0 {
        pending_and_paid_partition_the_period(es.drop_last(), ps, p, today, include_archived);
        let rest = listing(es.drop_last(), ps, p, today, all);
        let e = es.last();
        let en = entry_of(e, ps, p, today);
        rest.lemma_filter_push(en, |e: Entry| e.status != Status::Paid);
        rest.lemma_filter_push(en, |e: Entry| e.status == Status::Paid);
    } else {
        let l = listing(es, ps, p, today, all);
        assert(l.filter(|e: Entry| e.status != Status::Paid) =~= Seq::<Entry>::empty()) by {
            reveal(Seq::filter);
        }
        assert(l.filter(|e: Entry| e.status == Status::Paid) =~= Seq::<Entry>::empty()) by {
            reveal(Seq::filter);
        }
    }
}

/// `overdue` only exists for the current and past months: in a month after
/// today's, every listed expense is due or paid.
pub proof fn nothing_is_overdue_in_a_future_month(
    es: Seq<Expense>,
    ps: Seq<Payment>,
    p: Period,
    today: Date,
    v: View,
)
    requires
        crate::period::period_lt(Period { year: today.year, month: today.month }, p),
    ensures
        forall|i: int| 0 <= i < listing(es, ps, p, today, v).len() ==> #[trigger] listing(es, ps, p, today, v)[i].status != Status::Overdue,
    decreases es.len(),
{
    if es.len() > 0 {
        nothing_is_overdue_in_a_future_month(es.drop_last(), ps, p, today, v);
        let rest = listing(es.drop_last(), ps, p, today, v);
        let d = p.due_date(es.last().due_day);
        assert(!d.precedes(today));
        assert forall|i: int| 0 <= i < listing(es, ps, p, today, v).len() implies #[trigger] listing(es, ps, p, today, v)[i].status != Status::Overdue by {
            if i < rest.len() {
                assert(listing(es, ps, p, today, v)[i] == rest[i]);
            }
        }
    }
}


/// Unpaying twice is unpaying once: the second finds nothing to remove.
pub proof fn unpaying_is_idempotent(ps: Seq<Payment>, id: i64, p: Period)
    requires
        unique_keys(ps),
    ensures
        remove_payment(remove_payment(ps, id, p), id, p) == remove_payment(ps, id, p),
{
    unpaying_is_read_back(ps, id, p);
    lemma_payment_index(remove_payment(ps, id, p), id, p);
}


/// A period's status reads the calendar: an entry is paid exactly when a
/// payment is recorded for it, and an unpaid entry is overdue exactly when
/// its due date comes strictly before today, year first, then month, then
/// day. Every unpaid entry of a month before today's month is overdue,
/// whatever its day.
pub proof fn status_follows_the_calendar(es: Seq<Expense>, ps: Seq<Payment>, p: Period, today: Date, v: View)
    requires
        1 <= p.month <= 12,
    ensures
        forall|i: int| 0 <= i < listing(es, ps, p, today, v).len() ==> {
            let e = #[trigger] listing(es, ps, p, today, v)[i];
            let d = e.due_date;
            &&& d.year == p.year && d.month == p.month
            &&& (e.status == Status::Paid <==> e.paid_cents is Some)
            &&& e.paid_cents is None ==> (e.status == Status::Overdue <==> (d.year < today.year || (d.year
                == today.year && d.month < today.month) || (d.year == today.year && d.month
                == today.month && d.day < today.day)))
            &&& e.paid_cents is None && (p.year < today.year || (p.year == today.year && p.month
                < today.month)) ==> e.status == Status::Overdue
        },
    decreases es.len(),
{
    if es.len() > 0 {
        status_follows_the_calendar(es.drop_last(), ps, p, today, v);
        let rest = listing(es.drop_last(), ps, p, today, v);
        let l = listing(es, ps, p, today, v);
        assert forall|i: int| 0 <= i < l.len() implies {
            let e = #[trigger] l[i];
            let d = e.due_date;
            &&& d.year == p.year && d.month == p.month
            &&& (e.status == Status::Paid <==> e.paid_cents is Some)
            &&& e.paid_cents is None ==> (e.status == Status::Overdue <==> (d.year < today.year || (d.year
                == today.year && d.month < today.month) || (d.year == today.year && d.month
                == today.month && d.day < today.day)))
            &&& e.paid_cents is None && (p.year < today.year || (p.year == today.year && p.month
                < today.month)) ==> e.status == Status::Overdue
        } by {
            if i < rest.len() {
                assert(l[i] == rest[i]);
            }
        }
    }
}

/// Deleting an expense takes its own payments with it and no others: the
/// payments left are exactly the earlier ones of every other expense, in
/// their order.
pub proof fn deleting_keeps_every_other_payment(o: Ledger, n: Ledger, r: Result<(), Error>, id: i64)
    requires
        delete_outcome(o, n, r, id),
    ensures
        r is Ok ==> n.payments@ == o.payments@.filter(|q: Payment| q.expense_id != id),
        r is Err ==> n.payments@ == o.payments@,
{
    lemma_drop_payments_filter(o.payments@, id);
}

proof fn lemma_drop_payments_filter(ps: Seq<Payment>, id: i64)
    ensures
        drop_payments_of(ps, id) == ps.filter(|q: Payment| q.expense_id != id),
    decreases ps.len(),
{
    if ps.len() > 0 {
        lemma_drop_payments_filter(ps.drop_last(), id);
        assert(ps =~= ps.drop_last().push(ps.last()));
        ps.drop_last().lemma_filter_push(ps.last(), |q: Payment| q.expense_id != id);
    } else {
        assert(ps.filter(|q: Payment| q.expense_id != id) =~= ps) by {
            reveal(Seq::filter);
        }
    }
}

/// Restoring makes an expense active, archiving makes it inactive, and
/// keeping leaves the flag as it was; the edited expense keeps its id.
pub proof fn restoring_and_archiving_set_the_flag(
    o: Ledger,
    n: Ledger,
    r: Result<(), Error>,
    id: i64,
    name: Option<Seq<char>>,
    amount_cents: Option<i64>,
    currency: Option<Seq<char>>,
    due_day: Option<u32>,
    category: Option<Option<Seq<char>>>,
    active: ActiveChange,
)
    requires
        o.wf(),
        edit_outcome(o, n, r, id, name, amount_cents, currency, due_day, category, active),
        r is Ok,
    ensures
        exists|k: int, pos: int|
            #![trigger o.expenses@[k], n.expenses@[pos]]
            0 <= k < o.expenses@.len() && 0 <= pos < n.expenses@.len() && o.expenses@[k].id == id
                && n.expenses@[pos].id == id && (active == ActiveChange::Restore ==> n.expenses@[pos].active)
                && (active == ActiveChange::Archive ==> !n.expenses@[pos].active) && (active
                == ActiveChange::Keep ==> n.expenses@[pos].active == o.expenses@[k].active),
{
    let cur = find_expense(o.expenses@, id)->0;
    let (k, pos) = choose|k: int, pos: int|
        #![trigger o.expenses@[k], n.expenses@[pos]]
        0 <= k < o.expenses@.len() && o.expenses@[k].id == id && 0 <= pos < n.expenses@.len()
            && is_edit_with(n.expenses@[pos], cur, name, amount_cents, currency, due_day, category, active)
            && n.expenses@ == o.expenses@.remove(k).insert(pos, n.expenses@[pos])
            && n.journal@ == o.journal@.push(Change::UpdateExpense(n.expenses@[pos]));
    assert(find_expense(o.expenses@, id) is Some);
    lemma_find_expense(o.expenses@, id);
}

} // verus!
