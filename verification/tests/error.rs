use paybar::error::{AmountFault, Error};

#[test]
fn refusals_read_as_sentences() {
    assert_eq!(Error::Amount(AmountFault::Empty, "".into()).message(), "amount is empty");
    assert_eq!(Error::Amount(AmountFault::NotAnAmount, "a\"b".into()).message(), "not an amount: \"a\\\"b\"");
    assert_eq!(
        Error::Amount(AmountFault::TooManyDecimals, "1.234".into()).message(),
        "amount has more than two decimals: \"1.234\""
    );
    assert_eq!(Error::MonthOutOfRange(13).message(), "month out of range: 13");
    assert_eq!(Error::NotAPeriod("august".into()).message(), "period must look like YYYY-MM, got \"august\"");
    assert_eq!(Error::NameMissing.message(), "an expense needs a name");
    assert_eq!(Error::DueDayOutOfRange(32).message(), "due day must be between 1 and 31, got 32");
    assert_eq!(Error::PromptDayOutOfRange(32).message(), "day must be between 1 and 31, got 32");
    assert_eq!(Error::DayNotANumber.message(), "day must be a number between 1 and 31");
    assert_eq!(Error::MissingFields.message(), "need at least: <name> <amount> <day>");
    assert_eq!(Error::NoExpense(-3).message(), "no expense with id -3");
    assert_eq!(
        Error::UnknownCasa("euro".into()).message(),
        "unknown casa \"euro\"; expected one of oficial, blue, bolsa, contadoconliqui, cripto, mayorista, tarjeta"
    );
    assert_eq!(Error::BadTtl("1h\n".into()).message(), "PAYBAR_FX_TTL: \"1h\\n\"");
    assert_eq!(Error::NegativeTtl.message(), "PAYBAR_FX_TTL cannot be negative");
    assert_eq!(Error::NotJson.message(), "dolarapi returned non-JSON");
    assert_eq!(Error::NoVenta.message(), "dolarapi response has no `venta`");
    assert_eq!(Error::VentaNotScalar.message(), "`venta` is neither a number nor a string");
    assert_eq!(Error::NotARate("abc".into()).message(), "not a rate: \"abc\"");
    assert_eq!(Error::RateNotPositive("0".into()).message(), "`venta` is not a positive rate: 0");
    assert_eq!(Error::Other("disk full".into()).message(), "disk full");
}
