//! Every way an operation of this crate can refuse its input.
use vstd::prelude::*;

use crate::period::signed_text;
use crate::text::{dec, dec_chars, push_chars, push_str};

verus! {

/// Why an amount could not be read.
#[derive(Debug, Clone, Copy, PartialEq, Eq, Structural)]
pub enum AmountFault {
    /// Nothing left once grouping and surrounding whitespace are removed.
    Empty,
    /// Not a plain decimal.
    NotAnAmount,
    /// More than two decimal places: refused rather than rounded.
    TooManyDecimals,
    /// A decimal whose value in cents does not fit in an `i64`. Reported as
    /// std reports an integer too large for its type.
    OutOfRange,
}

/// An operation refused. Variants that concern a piece of text carry it, so
/// a caller can say what was wrong with what.
#[derive(Debug, Clone, PartialEq, Eq)]
pub enum Error {
    /// An amount could not be read; the text as given.
    Amount(AmountFault, String),
    /// A period's month is not 1..=12.
    MonthOutOfRange(u32),
    /// Text that is not `YYYY-MM`.
    NotAPeriod(String),
    /// An expense needs a name.
    NameMissing,
    /// A due day must be 1..=31.
    DueDayOutOfRange(u32),
    /// The day typed at the inline prompt is not 1..=31.
    PromptDayOutOfRange(u32),
    /// A due day that is not a number (in the inline prompt).
    DayNotANumber,
    /// The inline prompt needs at least `<name> <amount> <day>`.
    MissingFields,
    /// No expense has this id.
    NoExpense(i64),
    /// No id (or no sort position) is left for a new expense.
    StoreFull,
    /// Rows that break the store's invariants: a repeated id, a payment
    /// repeated for one period, or rows out of order.
    CorruptStore,
    /// An edit that changes nothing.
    NothingToEdit,
    /// A casa that is not one of the seven dolarapi publishes.
    UnknownCasa(String),
    /// A TTL that is not an integer; the text as given.
    BadTtl(String),
    /// A TTL below zero.
    NegativeTtl,
    /// A quote body that is not JSON.
    NotJson,
    /// A quote without a `venta`.
    NoVenta,
    /// A `venta` that is neither a number nor a string.
    VentaNotScalar,
    /// A `venta` that does not read as a decimal; the text as given.
    NotARate(String),
    /// A `venta` of zero or less; the text as given.
    RateNotPositive(String),
    /// A failure outside this crate (storage, terminal), as reported there.
    Other(String),
}


/// What `{:?}` writes for a string: the string in double quotes, with the
/// characters Rust's `char::escape_debug` escapes written as escapes.
pub uninterp spec fn rust_debug_str(s: Seq<char>) -> Seq<char>;

/// std: `format!("{:?}", s)` for a `&str`. The result is taken to be
/// `rust_debug_str` of `s`; which characters Unicode's tables make std
/// escape is not restated here.
#[verifier::external_body]
fn debug_quoted(s: &str) -> (r: String)
    ensures
        r@ == rust_debug_str(s@),
{
    format!("{:?}", s)
}

/// The sentence a refusal is reported with.
pub open spec fn error_text(e: Error) -> Seq<char> {
    match e {
        Error::Amount(k, t) => match k {
            AmountFault::Empty => "amount is empty"@,
            AmountFault::NotAnAmount => "not an amount: "@ + rust_debug_str(t@),
            AmountFault::TooManyDecimals => "amount has more than two decimals: "@ + rust_debug_str(t@),
            AmountFault::OutOfRange => "number too large to fit in target type"@,
        },
        Error::MonthOutOfRange(m) => "month out of range: "@ + dec(m as nat),
        Error::NotAPeriod(s) => "period must look like YYYY-MM, got "@ + rust_debug_str(s@),
        Error::NameMissing => "an expense needs a name"@,
        Error::DueDayOutOfRange(d) => "due day must be between 1 and 31, got "@ + dec(d as nat),
        Error::PromptDayOutOfRange(d) => "day must be between 1 and 31, got "@ + dec(d as nat),
        Error::DayNotANumber => "day must be a number between 1 and 31"@,
        Error::MissingFields => "need at least: <name> <amount> <day>"@,
        Error::NoExpense(id) => "no expense with id "@ + signed_text(id as int),
        Error::StoreFull => "no id is left for a new expense"@,
        Error::CorruptStore => "the database breaks its own invariants"@,
        Error::NothingToEdit => "nothing to edit: pass --name, --amount, --day, --category, --no-category, --currency, --archive, or --restore"@,
        Error::UnknownCasa(c) => "unknown casa "@ + rust_debug_str(c@)
            + "; expected one of oficial, blue, bolsa, contadoconliqui, cripto, mayorista, tarjeta"@,
        Error::BadTtl(v) => "PAYBAR_FX_TTL: "@ + rust_debug_str(v@),
        Error::NegativeTtl => "PAYBAR_FX_TTL cannot be negative"@,
        Error::NotJson => "dolarapi returned non-JSON"@,
        Error::NoVenta => "dolarapi response has no `venta`"@,
        Error::VentaNotScalar => "`venta` is neither a number nor a string"@,
        Error::NotARate(r) => "not a rate: "@ + rust_debug_str(r@),
        Error::RateNotPositive(r) => "`venta` is not a positive rate: "@ + r@,
        Error::Other(s) => s@,
    }
}

impl Error {
    /// The sentence this refusal is reported with.
    pub fn message(&self) -> (s: String)
        ensures
            s@ == error_text(*self),
    {
        let mut s = String::new();
        match self {
            Error::Amount(k, t) => match k {
                AmountFault::Empty => push_str(&mut s, "amount is empty"),
                AmountFault::NotAnAmount => {
                    push_str(&mut s, "not an amount: ");
                    push_str(&mut s, debug_quoted(t.as_str()).as_str());
                },
                AmountFault::TooManyDecimals => {
                    push_str(&mut s, "amount has more than two decimals: ");
                    push_str(&mut s, debug_quoted(t.as_str()).as_str());
                },
                AmountFault::OutOfRange => push_str(&mut s, "number too large to fit in target type"),
            },
            Error::MonthOutOfRange(m) => {
                push_str(&mut s, "month out of range: ");
                push_chars(&mut s, &dec_chars(*m as u64));
            },
            Error::NotAPeriod(t) => {
                push_str(&mut s, "period must look like YYYY-MM, got ");
                push_str(&mut s, debug_quoted(t.as_str()).as_str());
            },
            Error::NameMissing => push_str(&mut s, "an expense needs a name"),
            Error::DueDayOutOfRange(d) => {
                push_str(&mut s, "due day must be between 1 and 31, got ");
                push_chars(&mut s, &dec_chars(*d as u64));
            },
            Error::PromptDayOutOfRange(d) => {
                push_str(&mut s, "day must be between 1 and 31, got ");
                push_chars(&mut s, &dec_chars(*d as u64));
            },
            Error::DayNotANumber => push_str(&mut s, "day must be a number between 1 and 31"),
            Error::MissingFields => push_str(&mut s, "need at least: <name> <amount> <day>"),
            Error::NoExpense(id) => {
                push_str(&mut s, "no expense with id ");
                crate::output::push_signed(&mut s, *id);
            },
            Error::StoreFull => push_str(&mut s, "no id is left for a new expense"),
            Error::CorruptStore => push_str(&mut s, "the database breaks its own invariants"),
            Error::NothingToEdit => push_str(
                &mut s,
                "nothing to edit: pass --name, --amount, --day, --category, --no-category, --currency, --archive, or --restore",
            ),
            Error::UnknownCasa(c) => {
                push_str(&mut s, "unknown casa ");
                push_str(&mut s, debug_quoted(c.as_str()).as_str());
                push_str(
                    &mut s,
                    "; expected one of oficial, blue, bolsa, contadoconliqui, cripto, mayorista, tarjeta",
                );
            },
            Error::BadTtl(v) => {
                push_str(&mut s, "PAYBAR_FX_TTL: ");
                push_str(&mut s, debug_quoted(v.as_str()).as_str());
            },
            Error::NegativeTtl => push_str(&mut s, "PAYBAR_FX_TTL cannot be negative"),
            Error::NotJson => push_str(&mut s, "dolarapi returned non-JSON"),
            Error::NoVenta => push_str(&mut s, "dolarapi response has no `venta`"),
            Error::VentaNotScalar => push_str(&mut s, "`venta` is neither a number nor a string"),
            Error::NotARate(r) => {
                push_str(&mut s, "not a rate: ");
                push_str(&mut s, debug_quoted(r.as_str()).as_str());
            },
            Error::RateNotPositive(r) => {
                push_str(&mut s, "`venta` is not a positive rate: ");
                push_str(&mut s, r.as_str());
            },
            Error::Other(t) => push_str(&mut s, t.as_str()),
        }
        proof {
            assert(s@ =~= error_text(*self));
        }
        s
    }
}

} // verus!
