use paybar::error::Error;
use paybar::fx::{
    after_fetch, age_of, approx_for, cache_suffices, convert_cents, div_round_half_up, needed_for,
    parse_body, parse_centavos, quote_of, rate_needed, Config, JsonField, Rate, Resolved, Stamp,
};
use paybar::ledger::{Entry, Expense, Status};
use paybar::period::Date;
use paybar::totals::Total;

fn rate() -> Rate {
    Rate {
        casa: "blue".into(),
        base: "USD".into(),
        quote: "ARS".into(),
        rate_centavos: 155_000,
        fetched_at: "2026-08-23T18:00:00".into(),
        source_updated_at: Some("2026-08-23T21:00:00.000Z".into()),
        ttl_secs: 3600,
        stale: false,
    }
}

fn at(day: u32, hour: u32, minute: u32) -> Stamp {
    Stamp { year: 2026, month: 8, day, hour, minute, second: 0 }
}

fn total(currency: &str) -> Total {
    Total { currency: currency.into(), due_cents: 0, paid_cents: 0 }
}

fn entry(currency: &str) -> Entry {
    Entry {
        expense: Expense {
            id: 1,
            name: "x".into(),
            amount_cents: 100,
            currency: currency.into(),
            due_day: 5,
            category: None,
            active: true,
            sort_order: 0,
            created_at: "2026-08-01T10:00:00".into(),
        },
        paid_cents: None,
        due_date: Date { year: 2026, month: 8, day: 5 },
        status: Status::Due,
    }
}

#[test]
fn usd_converts_to_ars_at_the_quoted_rate() {
    assert_eq!(convert_cents(114_000, "USD", "ARS", 155_000), Some(176_700_000));
}

#[test]
fn ars_converts_back_to_usd() {
    assert_eq!(convert_cents(176_700_000, "ARS", "USD", 155_000), Some(114_000));
}

#[test]
fn a_rate_with_centavos_survives_the_round_trip() {
    assert_eq!(convert_cents(100, "USD", "ARS", 154_530), Some(154_530));
    assert_eq!(convert_cents(154_530, "ARS", "USD", 154_530), Some(100));
}

#[test]
fn conversion_declines_pairs_it_does_not_describe() {
    assert_eq!(convert_cents(100, "EUR", "ARS", 155_000), None);
    assert_eq!(convert_cents(100, "USD", "USD", 155_000), None);
    assert_eq!(convert_cents(100, "USD", "ARS", 0), None);
}

#[test]
fn rounding_is_half_up_not_truncation() {
    assert_eq!(div_round_half_up(15, 10), 2);
    assert_eq!(div_round_half_up(14, 10), 1);
    assert_eq!(div_round_half_up(-15, 10), -2);
}

#[test]
fn a_rate_is_needed_only_when_two_related_currencies_meet() {
    assert!(!needed_for(&[total("ARS")], Some("ARS")));
    assert!(!needed_for(&[], None));
    assert!(!needed_for(&[total("ARS"), total("EUR")], Some("ARS")));
    assert!(needed_for(&[total("ARS"), total("USD")], Some("ARS")));
    assert!(needed_for(&[total("ARS"), total("USD")], Some("USD")));
}

#[test]
fn the_response_is_read_from_venta() {
    let body = r#"{"moneda":"USD","casa":"blue","nombre":"Blue","compra":1530,
                   "venta":1550,"fechaActualizacion":"2026-08-23T21:00:00.000Z"}"#;
    let (centavos, source) = parse_body(body).unwrap();
    assert_eq!(centavos, 155_000);
    assert_eq!(source.as_deref(), Some("2026-08-23T21:00:00.000Z"));
}

#[test]
fn a_fractional_quote_keeps_its_centavos() {
    let body = r#"{"venta":1545.3}"#;
    assert_eq!(parse_body(body).unwrap().0, 154_530);
}

#[test]
fn extra_precision_in_a_quote_is_rounded_not_rejected() {
    assert_eq!(parse_centavos("1586.084").unwrap(), 158_608);
    assert_eq!(parse_centavos("1586.085").unwrap(), 158_609);
    assert_eq!(parse_centavos("1550").unwrap(), 155_000);
    assert_eq!(parse_centavos("1550.5").unwrap(), 155_050);
}

#[test]
fn a_garbage_body_is_an_error_not_a_zero_rate() {
    assert!(parse_body("not json").is_err());
    assert!(parse_body(r#"{"compra":1530}"#).is_err());
    assert!(parse_body(r#"{"venta":"abc"}"#).is_err());
    assert!(parse_body(r#"{"venta":0}"#).is_err());
}

#[test]
fn a_label_admits_an_age_only_once_the_ttl_has_passed() {
    assert_eq!(rate().label(at(23, 18, 30)), "@ blue 1,550.00");
    assert_eq!(rate().label(at(23, 21, 0)), "@ blue 1,550.00 (3h old)");
    assert!(rate().is_current(at(23, 18, 59)));
    assert!(!rate().is_current(at(23, 19, 1)));
}

#[test]
fn an_annotation_carries_the_figure_and_its_attribution() {
    assert_eq!(
        rate().annotation(176_700_000, "ARS", at(23, 18, 30)),
        "\u{2248} ARS 1,767,000.00 due @ blue 1,550.00"
    );
}

#[test]
fn approx_for_converts_the_due_total_and_leaves_the_primary_alone() {
    let usd = Total { currency: "USD".into(), due_cents: 114_000, paid_cents: 114_000 };
    let ars = Total { currency: "ARS".into(), due_cents: 9_000_000, paid_cents: 0 };
    assert_eq!(approx_for(Some(&rate()), &usd, Some("ARS")), Some(176_700_000));
    assert_eq!(approx_for(Some(&rate()), &ars, Some("ARS")), None);
    assert_eq!(approx_for(None, &usd, Some("ARS")), None);
    assert_eq!(approx_for(Some(&rate()), &usd, None), None);
}

#[test]
fn disabling_conversion_stops_the_casa_being_validated() {
    let cfg = Config::from_settings(Some("off"), Some("garbage"), None).unwrap();
    assert!(!cfg.enabled);
    assert!(Config::from_settings(Some("on"), Some("garbage"), None).is_err());
}

#[test]
fn age_is_reported_in_the_coarsest_useful_unit() {
    assert_eq!(rate().age_label(at(23, 18, 4)), "4m");
    assert_eq!(rate().age_label(at(23, 21, 0)), "3h");
    assert_eq!(rate().age_label(at(25, 18, 0)), "2d");
}

#[test]
fn an_unparseable_timestamp_reads_as_infinitely_old() {
    let mut r = rate();
    r.fetched_at = "whenever".into();
    assert_eq!(r.age_secs(at(23, 18, 0)), i64::MAX);
}

// ---- further cases ---------------------------------------------------------------

#[test]
fn settings_are_trimmed_and_defaulted() {
    let cfg = Config::from_settings(None, None, None).unwrap();
    assert_eq!((cfg.enabled, cfg.casa.as_str(), cfg.ttl_secs), (true, "blue", 3600));
    let cfg = Config::from_settings(Some(" On "), Some(" BOLSA "), Some(" 60 ")).unwrap();
    assert_eq!((cfg.enabled, cfg.casa.as_str(), cfg.ttl_secs), (true, "bolsa", 60));
    assert!(!Config::from_settings(Some(" FALSE"), None, Some("x")).unwrap().enabled);
    assert!(!Config::from_settings(Some("0"), None, None).unwrap().enabled);
    assert!(!Config::from_settings(Some("no"), None, None).unwrap().enabled);
}

#[test]
fn each_bad_setting_has_its_own_error() {
    assert_eq!(Config::from_settings(None, Some("Euro"), None).err(), Some(Error::UnknownCasa("euro".into())));
    assert_eq!(Config::from_settings(None, None, Some("1h")).err(), Some(Error::BadTtl("1h".into())));
    assert_eq!(Config::from_settings(None, None, Some("-5")).err(), Some(Error::NegativeTtl));
}

#[test]
fn each_bad_body_has_its_own_error() {
    assert_eq!(parse_body("not json"), Err(Error::NotJson));
    assert_eq!(parse_body(r#"{"compra":1530}"#), Err(Error::NoVenta));
    assert_eq!(parse_body(r#"{"venta":null}"#), Err(Error::VentaNotScalar));
    assert_eq!(parse_body(r#"{"venta":"abc"}"#), Err(Error::NotARate("abc".into())));
    assert_eq!(parse_body(r#"{"venta":0}"#), Err(Error::RateNotPositive("0".into())));
    assert_eq!(parse_body(r#"{"venta":"1550.25","fechaActualizacion":7}"#), Ok((155_025, None)));
}

#[test]
fn a_quote_is_a_plain_decimal() {
    assert_eq!(parse_centavos(" 12 "), Ok(1200));
    assert_eq!(parse_centavos("0.004"), Ok(0));
    assert_eq!(parse_centavos("0.005"), Ok(1));
    assert!(parse_centavos("-1").is_err());
    assert!(parse_centavos("1e3").is_err());
    assert!(parse_centavos(".5").is_err());
    assert!(parse_centavos("99999999999999999999").is_err());
}

#[test]
fn conversion_rounds_half_away_from_zero() {
    assert_eq!(convert_cents(1, "USD", "ARS", 155_050), Some(1551));
    assert_eq!(convert_cents(-1, "USD", "ARS", 155_050), Some(-1551));
    assert_eq!(convert_cents(1, "ARS", "USD", 200), Some(1));
    assert_eq!(convert_cents(1, "ARS", "USD", 201), Some(0));
    assert_eq!(div_round_half_up(-14, 10), -1);
    assert_eq!(div_round_half_up(0, 7), 0);
}

#[test]
fn a_cached_rate_serves_until_it_ages_or_a_refresh_is_asked_for() {
    let cached = Some(rate());
    assert!(cache_suffices(&cached, at(23, 18, 30), false));
    assert!(!cache_suffices(&cached, at(23, 18, 30), true));
    assert!(!cache_suffices(&cached, at(23, 19, 30), false));
    assert!(!cache_suffices(&None, at(23, 18, 30), false));
}

#[test]
fn a_failed_fetch_falls_back_to_the_cache() {
    let cfg = Config::from_settings(None, Some("bolsa"), Some("60")).unwrap();
    let fresh = after_fetch(&cfg, Some(rate()), Some((154_530, None)), "2026-08-24T09:00:00").unwrap();
    assert_eq!(fresh.casa, "bolsa");
    assert_eq!((fresh.base.as_str(), fresh.quote.as_str()), ("USD", "ARS"));
    assert_eq!(fresh.rate_centavos, 154_530);
    assert_eq!(fresh.fetched_at, "2026-08-24T09:00:00");
    assert_eq!(fresh.ttl_secs, 60);
    assert!(!fresh.stale);
    let mut stale = rate();
    stale.stale = true;
    assert_eq!(after_fetch(&cfg, Some(rate()), None, "2026-08-24T09:00:00"), Some(stale));
    assert_eq!(after_fetch(&cfg, None, None, "2026-08-24T09:00:00"), None);
}

#[test]
fn a_listing_needs_a_rate_only_when_it_mixes_the_pair() {
    let on = Config::from_settings(None, None, None).unwrap();
    let off = Config::from_settings(Some("off"), None, None).unwrap();
    let mixed = [entry("ARS"), entry("ARS"), entry("USD")];
    assert!(rate_needed(&on, &mixed));
    assert!(!rate_needed(&off, &mixed));
    assert!(!rate_needed(&on, &[entry("ARS"), entry("EUR")]));
    assert!(!rate_needed(&on, &[]));
}

#[test]
fn a_forced_refresh_that_fails_serves_the_cache_marked_stale() {
    let cfg = Config::from_settings(None, None, None).unwrap();
    let now = at(23, 18, 10);
    let cached = Some(rate());
    assert!(!cache_suffices(&cached, now, true));
    let served = after_fetch(&cfg, cached, None, "2026-08-23T18:10:00").unwrap();
    assert!(!served.is_current(now));
    assert_eq!(served.label(now), "@ blue 1,550.00 (10m old)");
}

#[test]
fn a_quote_is_read_from_its_fields() {
    assert_eq!(
        quote_of(JsonField::Number("1550".into()), JsonField::Text("t".into())),
        Ok((155_000, Some("t".into())))
    );
    assert_eq!(quote_of(JsonField::Text("1545.3".into()), JsonField::Absent), Ok((154_530, None)));
    assert_eq!(quote_of(JsonField::Absent, JsonField::Absent), Err(Error::NoVenta));
    assert_eq!(quote_of(JsonField::NotJson, JsonField::NotJson), Err(Error::NotJson));
    assert_eq!(quote_of(JsonField::Other, JsonField::Absent), Err(Error::VentaNotScalar));
    assert_eq!(quote_of(JsonField::Number("-1".into()), JsonField::Absent), Err(Error::NotARate("-1".into())));
}

#[test]
fn an_age_is_measured_from_the_moment_it_was_read() {
    assert_eq!(age_of(Some(at(23, 18, 0)), at(25, 18, 0)), 172_800);
    assert_eq!(age_of(Some(at(23, 18, 0)), at(23, 17, 0)), 0);
    assert_eq!(age_of(None, at(23, 18, 0)), i64::MAX);
    assert_eq!(age_of(Some(Stamp { year: 2024, month: 2, day: 28, hour: 0, minute: 0, second: 0 }),
        Stamp { year: 2024, month: 3, day: 1, hour: 0, minute: 0, second: 1 }), 2 * 86_400 + 1);
}

#[test]
fn a_resolved_rate_is_there_only_when_one_was_had() {
    assert_eq!(Resolved::Rate(rate()).rate(), Some(rate()));
    assert_eq!(Resolved::NotNeeded.rate(), None);
    assert_eq!(Resolved::Unavailable.rate(), None);
}
