use paybar::error::Error;
use paybar::ledger::{Ledger, Status};
use paybar::period::{Date, Period};
use paybar::screen::{header, name_width, progress_bar, row, status_line, Piece, Tone};
use paybar::tui::{apply, parse_spec, press, reload_due, spec_line, Action, App, Key, Mode, Spec};

const NOW: &str = "2026-08-22T10:00:00";

fn today() -> Date {
    Date { year: 2026, month: 8, day: 22 }
}

fn empty() -> Ledger {
    Ledger::new(Vec::new(), Vec::new()).unwrap()
}

fn app_with(l: &Ledger) -> App {
    let mut a = App::new(today());
    a.refresh(l);
    a
}

fn texts(ps: &[Piece]) -> Vec<(&str, Tone)> {
    ps.iter().map(|p| (p.text.as_str(), p.tone)).collect()
}

// ---- parsing ------------------------------------------------------------------

#[test]
fn parses_the_four_fields() {
    assert_eq!(
        parse_spec("Rent 90000 5 home").unwrap(),
        Spec { name: "Rent".into(), amount_cents: 9_000_000, due_day: 5, category: Some("home".into()) }
    );
}

#[test]
fn a_name_may_contain_spaces() {
    let s = parse_spec("Internet fibre 8500 10").unwrap();
    assert_eq!(s.name, "Internet fibre");
    assert_eq!(s.amount_cents, 850_000);
    assert_eq!(s.due_day, 10);
    assert_eq!(s.category, None);
}

#[test]
fn rejects_lines_that_are_missing_a_field_or_out_of_range() {
    assert!(parse_spec("Rent 90000").is_err());
    assert!(parse_spec("Rent 90000 0").is_err());
    assert!(parse_spec("Rent 90000 32").is_err());
    assert!(parse_spec("90000 5 home").is_err());
    assert!(parse_spec("").is_err());
}

#[test]
fn spec_line_round_trips_through_the_parser() {
    let mut l = empty();
    l.add_expense("Internet fibre", 850_000, "ARS", 10, Some("home"), NOW).unwrap();
    let entries = l.period_view(Period::of(today()), today(), &paybar::ledger::View::all());
    let line = spec_line(&entries[0]);
    let spec = parse_spec(&line).unwrap();
    assert_eq!(spec.name, "Internet fibre");
    assert_eq!(spec.amount_cents, 850_000);
    assert_eq!(spec.due_day, 10);
    assert_eq!(spec.category.as_deref(), Some("home"));
}

// ---- keys ---------------------------------------------------------------------

#[test]
fn add_flow_produces_an_action() {
    let l = empty();
    let mut a = app_with(&l);
    a.on_key(Key::Char('a'));
    for c in "Rent 90000 5 home".chars() {
        assert!(a.on_key(Key::Char(c)).is_none());
    }
    match a.on_key(Key::Enter) {
        Some(Action::Add(text)) => assert_eq!(text, "Rent 90000 5 home"),
        _ => panic!("expected an Add action"),
    }
}

#[test]
fn an_unparseable_line_keeps_the_prompt_open() {
    let l = empty();
    let mut a = app_with(&l);
    a.on_key(Key::Char('a'));
    for c in "Rent 90000".chars() {
        a.on_key(Key::Char(c));
    }
    assert!(a.on_key(Key::Enter).is_none());
    assert!(a.error.is_some());
    assert!(matches!(a.mode, Mode::Input { .. }));
    for c in " 5".chars() {
        a.on_key(Key::Char(c));
    }
    assert!(matches!(a.on_key(Key::Enter), Some(Action::Add(_))));
}

#[test]
fn empty_input_is_a_noop_and_esc_cancels() {
    let l = empty();
    let mut a = app_with(&l);
    a.on_key(Key::Char('a'));
    assert!(a.on_key(Key::Enter).is_none());
    assert!(matches!(a.mode, Mode::Normal));
    a.on_key(Key::Char('a'));
    a.on_key(Key::Char('z'));
    assert!(a.on_key(Key::Esc).is_none());
    assert!(matches!(a.mode, Mode::Normal));
}

#[test]
fn edit_prefills_the_current_values() {
    let mut l = empty();
    l.add_expense("Rent", 9_000_000, "ARS", 5, Some("home"), NOW).unwrap();
    let mut a = app_with(&l);
    a.on_key(Key::Char('e'));
    match &a.mode {
        Mode::Input { buf, editing } => {
            assert_eq!(buf, "Rent 90000.00 5 home");
            assert_eq!(*editing, Some(1));
        }
        _ => panic!("expected the input prompt"),
    }
}

#[test]
fn month_stepping_moves_the_period_and_resets_the_cursor() {
    let l = empty();
    let mut a = app_with(&l);
    assert_eq!(a.period, Period::parse("2026-08").unwrap());
    a.on_key(Key::Char('h'));
    assert_eq!(a.period, Period::parse("2026-07").unwrap());
    a.on_key(Key::Char('l'));
    a.on_key(Key::Char('l'));
    assert_eq!(a.period, Period::parse("2026-09").unwrap());
}

#[test]
fn delete_needs_confirmation() {
    let mut l = empty();
    l.add_expense("Rent", 9_000_000, "ARS", 5, None, NOW).unwrap();
    let mut a = app_with(&l);
    assert!(a.on_key(Key::Char('x')).is_none());
    assert!(a.on_key(Key::Char('n')).is_none());
    a.on_key(Key::Char('x'));
    assert!(matches!(a.on_key(Key::Char('y')), Some(Action::Delete(1))));
}

#[test]
fn keys_are_safe_on_an_empty_list() {
    let l = empty();
    let mut a = app_with(&l);
    for c in [' ', 'e', 'x', 't', 'j', 'k'] {
        assert!(a.on_key(Key::Char(c)).is_none());
    }
    assert!(!a.quit);
    a.on_key(Key::Char('q'));
    assert!(a.quit);
}

// ---- actions against the ledger -----------------------------------------------

#[test]
fn toggling_paid_is_scoped_to_the_shown_period() {
    let mut l = empty();
    l.add_expense("Rent", 9_000_000, "ARS", 5, None, NOW).unwrap();
    let mut a = app_with(&l);

    let action = a.on_key(Key::Char(' ')).unwrap();
    apply(&mut l, a.period, action, "ARS", NOW).unwrap();
    a.refresh(&l);
    assert_eq!(a.entries[0].status, Status::Paid);

    a.on_key(Key::Char('h'));
    a.refresh(&l);
    assert_eq!(a.entries[0].status, Status::Overdue);

    a.on_key(Key::Char('l'));
    a.refresh(&l);
    let action = a.on_key(Key::Char(' ')).unwrap();
    apply(&mut l, a.period, action, "ARS", NOW).unwrap();
    a.refresh(&l);
    assert_eq!(a.entries[0].status, Status::Overdue);
}

#[test]
fn archiving_removes_it_from_the_listing_until_tab() {
    let mut l = empty();
    l.add_expense("Gym", 1_760_000, "ARS", 20, None, NOW).unwrap();
    let mut a = app_with(&l);
    let action = a.on_key(Key::Char('t')).unwrap();
    apply(&mut l, a.period, action, "ARS", NOW).unwrap();
    a.refresh(&l);
    assert!(a.entries.is_empty());

    a.on_key(Key::Tab);
    a.refresh(&l);
    assert_eq!(a.entries.len(), 1);
    assert!(!a.entries[0].expense.active);
}

#[test]
fn add_and_rewrite_reach_the_database() {
    let mut l = empty();
    let mut a = app_with(&l);
    apply(&mut l, a.period, Action::Add("Rent 90000 5 home".into()), "ARS", NOW).unwrap();
    a.refresh(&l);
    assert_eq!(a.entries[0].expense.name, "Rent");
    assert_eq!(a.entries[0].expense.amount_cents, 9_000_000);

    apply(&mut l, a.period, Action::Rewrite(1, "Rent 95000 8".into()), "ARS", NOW).unwrap();
    a.refresh(&l);
    assert_eq!(a.entries[0].expense.amount_cents, 9_500_000);
    assert_eq!(a.entries[0].expense.due_day, 8);
    assert_eq!(a.entries[0].expense.category, None);
}

// ---- presentation -------------------------------------------------------------

#[test]
fn progress_bar_fills_proportionally() {
    assert_eq!(progress_bar(0, 100, 4), "░░░░");
    assert_eq!(progress_bar(100, 100, 4), "████");
    assert_eq!(progress_bar(50, 100, 4), "██░░");
    assert_eq!(progress_bar(0, 0, 4), "░░░░");
    assert_eq!(progress_bar(500, 100, 4), "████");
}

// ---- further cases ---------------------------------------------------------------

#[test]
fn each_prompt_refusal_says_why() {
    assert_eq!(parse_spec("Rent 90000").err(), Some(Error::MissingFields));
    assert_eq!(parse_spec("Rent 90000 home").err(), Some(Error::MissingFields));
    assert_eq!(parse_spec("Rent 90000 5.5").err(), Some(Error::DayNotANumber));
    assert_eq!(parse_spec("Rent 90000 32").err(), Some(Error::PromptDayOutOfRange(32)));
    assert!(matches!(parse_spec("Rent 9.999 5"), Err(Error::Amount(_, t)) if t == "9.999"));
    assert_eq!(
        parse_spec("  a   b  12.50  7  x ").unwrap(),
        Spec { name: "a b".into(), amount_cents: 1250, due_day: 7, category: Some("x".into()) }
    );
}

#[test]
fn backspace_and_typing_edit_the_prompt() {
    let l = empty();
    let mut a = app_with(&l);
    a.on_key(Key::Char('a'));
    a.on_key(Key::Backspace);
    a.on_key(Key::Char('a'));
    a.on_key(Key::Char('b'));
    a.on_key(Key::Backspace);
    a.on_key(Key::Other);
    match &a.mode {
        Mode::Input { buf, editing } => {
            assert_eq!(buf, "a");
            assert_eq!(*editing, None);
        }
        _ => panic!("expected the input prompt"),
    }
}

#[test]
fn the_cursor_stays_on_the_list() {
    let mut l = empty();
    l.add_expense("A", 1, "ARS", 1, None, NOW).unwrap();
    l.add_expense("B", 1, "ARS", 2, None, NOW).unwrap();
    let mut a = app_with(&l);
    a.on_key(Key::Down);
    a.on_key(Key::Down);
    a.on_key(Key::Char('j'));
    assert_eq!(a.sel, 1);
    a.on_key(Key::Up);
    a.on_key(Key::Char('k'));
    assert_eq!(a.sel, 0);
    a.sel = 7;
    a.clamp_sel();
    assert_eq!(a.sel, 1);
    assert_eq!(a.selected().unwrap().expense.name, "B");
}

#[test]
fn a_press_keeps_what_the_ledger_refused() {
    let mut l = empty();
    l.add_expense("Rent", 9_000_000, "ARS", 5, None, NOW).unwrap();
    let mut a = app_with(&l);
    l.delete_expense(1).unwrap();
    press(&mut a, &mut l, Key::Char(' '), "ARS", NOW);
    assert_eq!(a.error, Some(Error::NoExpense(1)));
    press(&mut a, &mut l, Key::Char('r'), "ARS", NOW);
    assert!(a.error.is_none());
    assert!(a.refresh_requested);
    assert!(a.wants_rate(a.period));
}

#[test]
fn a_rate_is_looked_for_once_per_month_until_asked() {
    let l = empty();
    let mut a = app_with(&l);
    let before = a.period;
    assert!(!a.wants_rate(before));
    a.on_key(Key::Char('l'));
    assert!(a.wants_rate(before));
    a.take_rate(Ok(paybar::fx::Resolved::NotNeeded));
    assert!(!a.rate_unavailable);
    assert!(a.wants_rate(before));
    a.take_rate(Ok(paybar::fx::Resolved::Unavailable));
    assert!(a.rate_unavailable);
    assert!(!a.wants_rate(before));
    a.take_rate(Err(Error::UnknownCasa("x".into())));
    assert_eq!(a.error, Some(Error::UnknownCasa("x".into())));
}

#[test]
fn rows_pad_their_columns() {
    let mut l = empty();
    l.add_expense("Rent", 9_000_000, "ARS", 5, Some("home"), NOW).unwrap();
    l.add_expense("Gym", 1_760_000, "ARS", 20, None, NOW).unwrap();
    l.edit_expense(
        2,
        paybar::ledger::Edit {
            name: None,
            amount_cents: None,
            currency: None,
            due_day: None,
            category: paybar::ledger::CategoryChange::Keep,
            active: paybar::ledger::ActiveChange::Archive,
        },
    )
    .unwrap();
    let mut a = app_with(&l);
    a.on_key(Key::Tab);
    a.refresh(&l);
    let w = name_width(&a.entries);
    assert_eq!(w, 8);
    assert_eq!(
        texts(&row(&a.entries[0], w)),
        vec![
            (" ! ", Tone::Overdue),
            ("05  ", Tone::Dim),
            ("Rent      ", Tone::Plain),
            ("home      ", Tone::Dim),
            ("ARS    90,000.00", Tone::Plain),
        ]
    );
    assert_eq!(texts(&row(&a.entries[1], w))[5], ("  archived", Tone::Dim));
}

#[test]
fn the_header_and_status_line_describe_the_month() {
    let mut l = empty();
    l.add_expense("Rent", 9_000_000, "ARS", 5, None, NOW).unwrap();
    l.pay(1, Period::parse("2026-08").unwrap(), Some(4_500_000), NOW).unwrap();
    let a = app_with(&l);
    let now = paybar::fx::Stamp { year: 2026, month: 8, day: 22, hour: 10, minute: 0, second: 0 };
    assert_eq!(
        texts(&header(&a, now)),
        vec![
            (" August 2026", Tone::Plain),
            ("    ARS 45,000.00 / 90,000.00", Tone::Dim),
            ("    0 pending", Tone::Dim),
        ]
    );
    let status = status_line(&a, "");
    assert_eq!(status[0].text, " [██████████░░░░░░░░░░] 50%  ");
    assert!(status[1].text.starts_with("space pay \u{b7} a add"));
}

#[test]
fn only_the_ends_of_the_calendar_refuse_a_step() {
    let l = empty();
    let mut a = app_with(&l);
    assert!(a.key_fits(Key::Char('h')));
    a.period = Period { year: i32::MIN, month: 1 };
    assert!(!a.key_fits(Key::Left));
    assert!(a.key_fits(Key::Right));
    a.period = Period { year: i32::MAX, month: 12 };
    assert!(!a.key_fits(Key::Char('l')));
    a.on_key(Key::Char('a'));
    assert!(a.key_fits(Key::Char('l')));
}

#[test]
fn the_progress_bar_follows_the_primary_currency() {
    let mut l = empty();
    l.add_expense("Rent", 10_000, "ARS", 25, None, NOW).unwrap();
    l.add_expense("A", 1000, "USD", 25, None, NOW).unwrap();
    l.add_expense("B", 2000, "USD", 25, None, NOW).unwrap();
    let p = Period::parse("2026-08").unwrap();
    l.pay(2, p, None, NOW).unwrap();
    l.pay(3, p, None, NOW).unwrap();
    let a = app_with(&l);
    let status = status_line(&a, "");
    assert_eq!(status[0].text, " [████████████████████] 100%  ");
}

#[test]
fn an_idle_screen_reloads_every_two_seconds() {
    assert!(!reload_due(1999));
    assert!(reload_due(2000));
}

#[test]
fn a_prompt_day_out_of_range_reads_as_the_prompt_says_it() {
    assert_eq!(parse_spec("Rent 90000 0").unwrap_err().message(), "day must be between 1 and 31, got 0");
}
