use paybar::error::Error;
use paybar::ledger::{ActiveChange, CategoryChange, Change, Edit, Expense, Ledger, Payment, Status, View};
use paybar::period::{Date, Period};
use paybar::totals::{primary_currency, totals, Total};

const NOW: &str = "2026-08-22T10:00:00";

fn p(s: &str) -> Period {
    Period::parse(s).unwrap()
}

fn d(y: i32, m: u32, day: u32) -> Date {
    Date { year: y, month: m, day }
}

fn empty() -> Ledger {
    Ledger::new(Vec::new(), Vec::new()).unwrap()
}

fn seed(l: &mut Ledger) -> (i64, i64) {
    let rent = l.add_expense("Rent", 9_000_000, "ARS", 5, Some("home"), NOW).unwrap();
    let figma = l.add_expense("Figma", 2000, "usd", 28, Some("work"), NOW).unwrap();
    (rent, figma)
}

fn archive() -> Edit<'static> {
    Edit {
        name: None,
        amount_cents: None,
        currency: None,
        due_day: None,
        category: CategoryChange::Keep,
        active: ActiveChange::Archive,
    }
}

#[test]
fn currency_is_stored_uppercase() {
    let mut l = empty();
    let (_, figma) = seed(&mut l);
    assert_eq!(l.get_expense(figma).unwrap().currency, "USD");
}

#[test]
fn add_rejects_a_nameless_expense_or_an_impossible_day() {
    let mut l = empty();
    assert!(l.add_expense("  ", 100, "ARS", 5, None, NOW).is_err());
    assert!(l.add_expense("x", 100, "ARS", 0, None, NOW).is_err());
    assert!(l.add_expense("x", 100, "ARS", 32, None, NOW).is_err());
}

#[test]
fn status_is_derived_from_the_period_and_today() {
    let mut l = empty();
    seed(&mut l);
    let today = d(2026, 8, 22);

    let v = l.period_view(p("2026-08"), today, &View::all());
    assert_eq!(v[0].status, Status::Overdue);
    assert_eq!(v[1].status, Status::Due);

    let future = l.period_view(p("2026-09"), today, &View::all());
    assert!(future.iter().all(|e| e.status == Status::Due));
}

#[test]
fn paying_is_scoped_to_one_period() {
    let mut l = empty();
    let (rent, _) = seed(&mut l);
    l.pay(rent, p("2026-08"), None, NOW).unwrap();

    let aug = l.period_view(p("2026-08"), d(2026, 8, 22), &View::all());
    assert_eq!(aug[0].status, Status::Paid);
    assert_eq!(aug[0].paid_cents, Some(9_000_000));

    let jul = l.period_view(p("2026-07"), d(2026, 8, 22), &View::all());
    assert_eq!(jul[0].status, Status::Overdue);
    assert_eq!(jul[0].paid_cents, None);
}

#[test]
fn paying_twice_updates_instead_of_duplicating() {
    let mut l = empty();
    let (rent, _) = seed(&mut l);
    l.pay(rent, p("2026-08"), None, NOW).unwrap();
    l.pay(rent, p("2026-08"), Some(9_500_000), NOW).unwrap();
    assert_eq!(l.payments.len(), 1);
    let v = l.period_view(p("2026-08"), d(2026, 8, 22), &View::all());
    assert_eq!(v[0].paid_cents, Some(9_500_000));
    assert_eq!(v[0].expense.amount_cents, 9_000_000);
}

#[test]
fn unpay_is_idempotent_and_still_checks_the_id() {
    let mut l = empty();
    let (rent, _) = seed(&mut l);
    l.unpay(rent, p("2026-08")).unwrap();
    l.pay(rent, p("2026-08"), None, NOW).unwrap();
    l.unpay(rent, p("2026-08")).unwrap();
    assert!(l.unpay(999, p("2026-08")).is_err());
}

#[test]
fn a_due_day_past_the_month_end_is_clamped() {
    let mut l = empty();
    let id = l.add_expense("Loan", 100_000, "ARS", 31, None, NOW).unwrap();
    let v = l.period_view(p("2026-02"), d(2026, 2, 1), &View::all());
    assert_eq!(v.iter().find(|e| e.expense.id == id).unwrap().due_date, d(2026, 2, 28));
}

#[test]
fn archived_expenses_leave_the_listing_but_keep_their_history() {
    let mut l = empty();
    let (rent, _) = seed(&mut l);
    l.pay(rent, p("2026-07"), None, NOW).unwrap();
    l.edit_expense(rent, archive()).unwrap();

    let v = l.period_view(p("2026-08"), d(2026, 8, 22), &View::all());
    assert!(v.iter().all(|e| e.expense.id != rent));
    assert_eq!(l.payments.len(), 1);

    let with_archived =
        l.period_view(p("2026-08"), d(2026, 8, 22), &View { include_archived: true, ..View::all() });
    assert!(with_archived.iter().any(|e| e.expense.id == rent));
}

#[test]
fn deleting_an_expense_takes_its_payments_with_it() {
    let mut l = empty();
    let (rent, _) = seed(&mut l);
    l.pay(rent, p("2026-08"), None, NOW).unwrap();
    l.delete_expense(rent).unwrap();
    assert_eq!(l.payments.len(), 0);
    assert!(l.delete_expense(rent).is_err());
}

#[test]
fn pending_and_paid_views_partition_the_period() {
    let mut l = empty();
    let (rent, _) = seed(&mut l);
    l.pay(rent, p("2026-08"), None, NOW).unwrap();
    let today = d(2026, 8, 22);
    let pending = l.period_view(p("2026-08"), today, &View { only_pending: true, ..View::all() });
    let paid = l.period_view(p("2026-08"), today, &View { only_paid: true, ..View::all() });
    assert_eq!(pending.len(), 1);
    assert_eq!(paid.len(), 1);
    assert_eq!(paid[0].expense.id, rent);
}

#[test]
fn totals_are_grouped_by_currency_never_blended() {
    let mut l = empty();
    let (rent, _) = seed(&mut l);
    l.pay(rent, p("2026-08"), None, NOW).unwrap();
    let v = l.period_view(p("2026-08"), d(2026, 8, 22), &View::all());
    assert_eq!(
        totals(&v),
        vec![
            Total { currency: "ARS".into(), due_cents: 9_000_000, paid_cents: 9_000_000 },
            Total { currency: "USD".into(), due_cents: 2000, paid_cents: 0 },
        ]
    );
}

#[test]
fn primary_currency_is_the_most_common_one() {
    let mut l = empty();
    seed(&mut l);
    l.add_expense("Internet", 850_000, "ARS", 10, None, NOW).unwrap();
    let v = l.period_view(p("2026-08"), d(2026, 8, 22), &View::all());
    assert_eq!(primary_currency(&v).as_deref(), Some("ARS"));
    assert_eq!(primary_currency(&[]), None);
}

#[test]
fn outstanding_ignores_a_payment_that_differed_from_the_amount() {
    let mut l = empty();
    let (rent, _) = seed(&mut l);
    l.pay(rent, p("2026-08"), Some(1), NOW).unwrap();
    let v = l.period_view(p("2026-08"), d(2026, 8, 22), &View::all());
    assert_eq!(v[0].outstanding_cents(), 0);
    assert_eq!(v[1].outstanding_cents(), 2000);
}

// ---- further cases ---------------------------------------------------------------

#[test]
fn ids_and_positions_follow_the_largest_held() {
    let mut l = empty();
    let (rent, figma) = seed(&mut l);
    assert_eq!((rent, figma), (1, 2));
    assert_eq!(l.expenses[0].sort_order, 0);
    assert_eq!(l.expenses[1].sort_order, 1);
    l.delete_expense(figma).unwrap();
    let gym = l.add_expense(" Gym ", 1_760_000, "ars", 20, None, NOW).unwrap();
    assert_eq!(gym, 2);
    let e = l.get_expense(gym).unwrap();
    assert_eq!(e.name, "Gym");
    assert_eq!(e.created_at, NOW);
    assert!(e.active);
}

#[test]
fn every_write_is_journaled_in_order() {
    let mut l = empty();
    let (rent, _) = seed(&mut l);
    l.pay(rent, p("2026-08"), None, NOW).unwrap();
    l.unpay(rent, p("2026-08")).unwrap();
    l.delete_expense(rent).unwrap();
    assert_eq!(l.journal.len(), 5);
    assert!(matches!(&l.journal[0], Change::InsertExpense(e) if e.name == "Rent"));
    assert!(matches!(&l.journal[2], Change::UpsertPayment(x) if x.amount_cents == 9_000_000 && x.paid_at == NOW));
    assert_eq!(l.journal[3], Change::DeletePayment(rent, p("2026-08")));
    assert_eq!(l.journal[4], Change::DeleteExpense(rent));
}

#[test]
fn a_refused_write_changes_nothing() {
    let mut l = empty();
    seed(&mut l);
    assert_eq!(l.pay(7, p("2026-08"), None, NOW), Err(Error::NoExpense(7)));
    assert_eq!(l.add_expense("", 1, "ARS", 1, None, NOW), Err(Error::NameMissing));
    assert_eq!(l.add_expense("x", 1, "ARS", 40, None, NOW), Err(Error::DueDayOutOfRange(40)));
    let bad_day = Edit { due_day: Some(0), ..archive() };
    assert_eq!(l.edit_expense(1, bad_day), Err(Error::DueDayOutOfRange(0)));
    assert_eq!(l.edit_expense(9, archive()), Err(Error::NoExpense(9)));
    assert_eq!(l.journal.len(), 2);
    assert!(l.expenses.iter().all(|e| e.active));
}

#[test]
fn an_edit_moves_the_expense_to_its_place_in_the_order() {
    let mut l = empty();
    let (rent, figma) = seed(&mut l);
    l.edit_expense(
        rent,
        Edit {
            name: Some("  Rent flat "),
            amount_cents: Some(9_500_000),
            currency: Some("eur"),
            due_day: Some(8),
            category: CategoryChange::Clear,
            active: ActiveChange::Keep,
        },
    )
    .unwrap();
    let e = l.get_expense(rent).unwrap();
    assert_eq!(e.name, "Rent flat");
    assert_eq!(e.currency, "EUR");
    assert_eq!(e.due_day, 8);
    assert_eq!(e.category, None);
    assert_eq!(e.sort_order, 0);
    assert_eq!(l.expenses[0].id, rent);
    assert_eq!(l.expenses[1].id, figma);
    l.edit_expense(figma, Edit { category: CategoryChange::SetTo("ai".into()), ..archive() }).unwrap();
    let c = l.get_expense(figma).unwrap();
    assert_eq!(c.category.as_deref(), Some("ai"));
    assert!(!c.active);
}

#[test]
fn rows_that_break_the_invariants_are_refused() {
    let e = |id: i64, sort_order: i64| Expense {
        id,
        name: "x".into(),
        amount_cents: 1,
        currency: "ARS".into(),
        due_day: 1,
        category: None,
        active: true,
        sort_order,
        created_at: NOW.into(),
    };
    let pay = |id: i64| Payment { expense_id: id, period: p("2026-08"), paid_at: NOW.into(), amount_cents: 1 };
    assert!(Ledger::new(vec![e(1, 0), e(2, 1)], vec![pay(1)]).is_ok());
    assert_eq!(Ledger::new(vec![e(2, 1), e(1, 0)], vec![]).err(), Some(Error::CorruptStore));
    assert_eq!(Ledger::new(vec![e(1, 0), e(1, 0)], vec![]).err(), Some(Error::CorruptStore));
    assert_eq!(Ledger::new(vec![e(1, 0)], vec![pay(1), pay(1)]).err(), Some(Error::CorruptStore));
    let l = Ledger::new(vec![e(1, 0)], vec![pay(3), pay(1)]).unwrap();
    assert_eq!(l.payments, vec![pay(1)]);
}

#[test]
fn labels_and_marks_of_a_status() {
    assert_eq!(Status::Paid.as_str(), "paid");
    assert_eq!(Status::Overdue.as_str(), "overdue");
    assert_eq!(Status::Due.as_str(), "due");
    assert_eq!(Status::Paid.mark(), "x");
    assert_eq!(Status::Overdue.mark(), "!");
    assert_eq!(Status::Due.mark(), " ");
}

#[test]
fn is_paid_reads_the_period_asked_about() {
    let mut l = empty();
    let (rent, _) = seed(&mut l);
    l.pay(rent, p("2026-08"), None, NOW).unwrap();
    assert!(l.is_paid(rent, p("2026-08")));
    assert!(!l.is_paid(rent, p("2026-09")));
    assert_eq!(l.pay(rent, p("2026-09"), None, NOW), Ok(9_000_000));
}
