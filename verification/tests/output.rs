use paybar::fx::{Rate, Stamp};
use paybar::ledger::{Entry, Expense, Status};
use paybar::output::{annotation, approx_cents, entry_json, entry_line, entry_lines, fx_json, json, status_lines};
use paybar::period::{Date, Period};
use paybar::totals::Total;

fn entry() -> Entry {
    Entry {
        expense: Expense {
            id: 1,
            name: "Rent".into(),
            amount_cents: 9_000_000,
            currency: "ARS".into(),
            due_day: 5,
            category: Some("home".into()),
            active: true,
            sort_order: 0,
            created_at: "2026-08-01T10:00:00".into(),
        },
        paid_cents: Some(9_000_000),
        due_date: Date { year: 2026, month: 8, day: 5 },
        status: Status::Paid,
    }
}

fn usd_entry() -> Entry {
    let mut e = entry();
    e.expense.id = 2;
    e.expense.name = "Figma".into();
    e.expense.currency = "USD".into();
    e.expense.amount_cents = 114_000;
    e.paid_cents = None;
    e.status = Status::Due;
    e
}

fn rate() -> Rate {
    Rate {
        casa: "blue".into(),
        base: "USD".into(),
        quote: "ARS".into(),
        rate_centavos: 155_000,
        fetched_at: "2026-08-23T18:00:00".into(),
        source_updated_at: Some("2026-08-23T21:00:00.000Z".into()),
        ttl_secs: 3600,
        stale: false,
    }
}

fn today() -> Date {
    Date { year: 2026, month: 8, day: 22 }
}

fn now() -> Stamp {
    Stamp { year: 2026, month: 8, day: 23, hour: 18, minute: 4, second: 0 }
}

#[test]
fn item_json_matches_the_contract_example() {
    assert_eq!(
        entry_json(&entry()),
        "{\"id\":1,\"name\":\"Rent\",\"category\":\"home\",\"currency\":\"ARS\",\
         \"amountCents\":9000000,\"paidCents\":9000000,\"dueDate\":\"2026-08-05\",\
         \"status\":\"paid\"}"
    );
}

#[test]
fn status_json_omits_items_and_keeps_every_other_key() {
    let out = json(&[entry()], Period::parse("2026-08").unwrap(), today(), false, None, now());
    assert_eq!(
        out,
        "{\"period\":\"2026-08\",\"today\":\"2026-08-22\",\"pending\":0,\"overdue\":0,\
         \"primaryCurrency\":\"ARS\",\"fx\":null,\"totals\":[{\"currency\":\"ARS\",\
         \"dueCents\":9000000,\"paidCents\":9000000,\"approxCents\":null}]}"
    );
}

#[test]
fn an_empty_period_still_produces_every_key() {
    let out = json(&[], Period::parse("2026-08").unwrap(), today(), true, None, now());
    assert_eq!(
        out,
        "{\"period\":\"2026-08\",\"today\":\"2026-08-22\",\"pending\":0,\"overdue\":0,\
         \"primaryCurrency\":null,\"fx\":null,\"totals\":[],\"items\":[]}"
    );
}

#[test]
fn a_missing_category_is_null_not_an_empty_string() {
    let mut e = entry();
    e.expense.category = None;
    e.paid_cents = None;
    e.status = Status::Due;
    assert!(entry_json(&e).contains("\"category\":null"));
    assert!(entry_json(&e).contains("\"paidCents\":null"));
}

#[test]
fn quotes_in_a_name_are_escaped() {
    let mut e = entry();
    e.expense.name = "say \"hi\"".into();
    assert!(entry_json(&e).contains("\"name\":\"say \\\"hi\\\"\""));
}

#[test]
fn fx_json_carries_the_rate_that_produced_the_conversion() {
    assert_eq!(
        fx_json(&rate(), now()),
        "{\"casa\":\"blue\",\"base\":\"USD\",\"quote\":\"ARS\",\"rateCentavos\":155000,\
         \"fetchedAt\":\"2026-08-23T18:00:00\",\
         \"sourceUpdatedAt\":\"2026-08-23T21:00:00.000Z\",\"stale\":false}"
    );
}

#[test]
fn only_the_non_primary_total_gets_an_approximation() {
    let entries = [entry(), usd_entry()];
    let out = json(&entries, Period::parse("2026-08").unwrap(), today(), false, Some(&rate()), now());
    assert!(out.contains(
        "{\"currency\":\"ARS\",\"dueCents\":9000000,\"paidCents\":9000000,\"approxCents\":null}"
    ));
    assert!(out.contains(
        "{\"currency\":\"USD\",\"dueCents\":114000,\"paidCents\":0,\"approxCents\":176700000}"
    ));
}

#[test]
fn without_a_rate_every_approximation_is_null() {
    let entries = [entry(), usd_entry()];
    let out = json(&entries, Period::parse("2026-08").unwrap(), today(), false, None, now());
    assert!(out.contains("\"fx\":null"));
    assert_eq!(out.matches("\"approxCents\":null").count(), 2);
}

#[test]
fn an_annotation_names_its_casa_and_rate() {
    assert_eq!(
        annotation(176_700_000, "ARS", &rate(), now()),
        "    \u{2248} ARS 1,767,000.00 @ blue 1,550.00"
    );
}

#[test]
fn a_stale_annotation_admits_how_old_it_is() {
    let mut r = rate();
    r.stale = true;
    assert_eq!(
        annotation(176_700_000, "ARS", &r, now()),
        "    \u{2248} ARS 1,767,000.00 @ blue 1,550.00 (4m old)"
    );
}

#[test]
fn a_pair_the_rate_does_not_describe_is_left_alone() {
    let t = Total { currency: "EUR".into(), due_cents: 1000, paid_cents: 0 };
    assert_eq!(approx_cents(&t, Some("ARS"), Some(&rate())), None);
}

// ---- further cases ---------------------------------------------------------------

#[test]
fn a_stale_rate_says_so_in_json() {
    let mut r = rate();
    r.ttl_secs = 60;
    assert!(fx_json(&r, now()).ends_with("\"stale\":true}"));
    r.source_updated_at = None;
    assert!(fx_json(&r, now()).contains("\"sourceUpdatedAt\":null"));
}

#[test]
fn controls_and_backslashes_are_escaped() {
    let mut e = entry();
    e.expense.name = "a\\b\n\t\r\u{1}\u{1f}é".into();
    assert!(entry_json(&e).contains("\"name\":\"a\\\\b\\n\\t\\r\\u0001\\u001fé\""));
}

#[test]
fn the_document_with_items_and_a_rate() {
    let entries = [entry(), usd_entry()];
    let out = json(&entries, Period::parse("2026-08").unwrap(), today(), true, Some(&rate()), now());
    assert_eq!(
        out,
        "{\"period\":\"2026-08\",\"today\":\"2026-08-22\",\"pending\":1,\"overdue\":0,\
         \"primaryCurrency\":\"ARS\",\"fx\":{\"casa\":\"blue\",\"base\":\"USD\",\"quote\":\"ARS\",\
         \"rateCentavos\":155000,\"fetchedAt\":\"2026-08-23T18:00:00\",\
         \"sourceUpdatedAt\":\"2026-08-23T21:00:00.000Z\",\"stale\":false},\
         \"totals\":[{\"currency\":\"ARS\",\"dueCents\":9000000,\"paidCents\":9000000,\"approxCents\":null},\
         {\"currency\":\"USD\",\"dueCents\":114000,\"paidCents\":0,\"approxCents\":176700000}],\
         \"items\":[{\"id\":1,\"name\":\"Rent\",\"category\":\"home\",\"currency\":\"ARS\",\
         \"amountCents\":9000000,\"paidCents\":9000000,\"dueDate\":\"2026-08-05\",\"status\":\"paid\"},\
         {\"id\":2,\"name\":\"Figma\",\"category\":\"home\",\"currency\":\"USD\",\
         \"amountCents\":114000,\"paidCents\":null,\"dueDate\":\"2026-08-05\",\"status\":\"due\"}]}"
    );
}

#[test]
fn the_table_has_one_tab_separated_row_per_entry() {
    let mut e = usd_entry();
    e.expense.category = None;
    e.status = Status::Overdue;
    assert_eq!(entry_line(&entry()), "1\tx\t2026-08-05\tRent\thome\tARS 90,000.00");
    assert_eq!(entry_line(&e), "2\t!\t2026-08-05\tFigma\t\tUSD 1,140.00");
    assert_eq!(entry_lines(&[entry(), e]).len(), 2);
}

#[test]
fn status_prints_one_line_per_currency() {
    let mut due = usd_entry();
    due.status = Status::Overdue;
    let lines = status_lines(&[entry(), due], Period::parse("2026-08").unwrap(), Some(&rate()), now());
    assert_eq!(
        lines,
        vec![
            "ARS 90,000.00 / 90,000.00 \u{b7} 0 pending, 0 overdue".to_string(),
            "USD 0.00 / 1,140.00 \u{b7} 1 pending, 1 overdue".to_string(),
            "    \u{2248} ARS 1,767,000.00 @ blue 1,550.00".to_string(),
        ]
    );
}

#[test]
fn an_empty_month_is_still_an_answer() {
    let lines = status_lines(&[], Period::parse("2026-08").unwrap(), None, now());
    assert_eq!(lines, vec!["2026-08\tnothing due".to_string()]);
}

#[test]
fn a_rate_marked_stale_says_so_however_young() {
    let mut r = rate();
    r.stale = true;
    assert!(fx_json(&r, now()).ends_with("\"stale\":true}"));
}
