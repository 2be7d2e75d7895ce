use paybar::cli::{added_line, default_currency, edit_from_flags, listing_view, paid_line, resolve_period};
use paybar::error::{AmountFault, Error};
use paybar::ledger::{ActiveChange, CategoryChange, View};
use paybar::period::{Date, Period};

fn today() -> Date {
    Date { year: 2026, month: 8, day: 22 }
}

#[test]
fn the_period_defaults_to_this_month() {
    assert_eq!(resolve_period(None, today()), Ok(Period { year: 2026, month: 8 }));
    assert_eq!(resolve_period(Some("2026-07"), today()), Ok(Period { year: 2026, month: 7 }));
    assert_eq!(resolve_period(Some("july"), today()), Err(Error::NotAPeriod("july".into())));
}

#[test]
fn pending_is_the_default_listing_and_archived_is_its_own_axis() {
    let pending = View { include_archived: false, only_pending: true, only_paid: false };
    assert_eq!(listing_view(false, false, false, false), pending);
    assert_eq!(listing_view(true, false, false, false), pending);
    assert_eq!(
        listing_view(false, true, false, false),
        View { include_archived: false, only_pending: false, only_paid: true }
    );
    assert_eq!(listing_view(false, false, true, true), View { include_archived: true, ..View::all() });
}

#[test]
fn the_default_currency_is_the_setting_or_ars() {
    assert_eq!(default_currency(None), "ARS");
    assert_eq!(default_currency(Some("   ")), "ARS");
    assert_eq!(default_currency(Some(" usd ")), "USD");
}

#[test]
fn an_edit_is_built_from_its_flags() {
    assert_eq!(
        edit_from_flags(None, None, None, None, false, None, false, false).err(),
        Some(Error::NothingToEdit)
    );
    assert_eq!(
        edit_from_flags(None, Some("1.234"), None, None, false, None, false, false).err(),
        Some(Error::Amount(AmountFault::TooManyDecimals, "1.234".into()))
    );
    let e = edit_from_flags(Some("Rent"), Some("95,000"), Some(8), Some("home"), false, Some("usd"), true, true)
        .unwrap();
    assert_eq!(e.name, Some("Rent"));
    assert_eq!(e.amount_cents, Some(9_500_000));
    assert_eq!(e.due_day, Some(8));
    assert_eq!(e.currency, Some("usd"));
    assert!(matches!(e.category, CategoryChange::SetTo(ref c) if c == "home"));
    assert_eq!(e.active, ActiveChange::Archive);
    let e = edit_from_flags(None, None, None, None, true, None, false, true).unwrap();
    assert!(matches!(e.category, CategoryChange::Clear));
    assert_eq!(e.active, ActiveChange::Restore);
}

#[test]
fn confirmations_say_what_was_written() {
    assert_eq!(added_line(1, Date { year: 2026, month: 8, day: 5 }, "ars", 9_000_000), "1\t2026-08-05\tARS 90,000.00");
    assert_eq!(paid_line(1, Period { year: 2026, month: 8 }, "ARS", 9_000_000), "1\t2026-08\tARS 90,000.00");
}

#[test]
fn only_months_the_calendar_holds_resolve() {
    assert!(Period { year: 2026, month: 8 }.resolvable());
    assert!(!Period { year: 2026, month: 13 }.resolvable());
    assert!(!Period { year: 262142, month: 12 }.resolvable());
    assert!(Period { year: 262142, month: 11 }.resolvable());
    assert!(!Period { year: -262144, month: 1 }.resolvable());
}
