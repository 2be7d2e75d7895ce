//! The command line's decisions: which month a command is about, which
//! entries a listing shows, what an edit changes, which currency a new
//! expense is in, and the lines that confirm a write.
use vstd::prelude::*;
use vstd::view::View as _;

use crate::error::Error;
use crate::ledger::{category_change_view, ActiveChange, CategoryChange, Edit, View};
use crate::money::{format_amount, format_cents, parse_amount, parse_cents};
use crate::period::{date_text, period_read, period_text, signed_text, Date, Period};
use crate::text::{chars_of, push_str, string_of, to_uppercase, trim, trim_chars, unicode_uppercase};

verus! {

/// The month a command is about: the one given, read as `YYYY-MM`, or the
/// month of `today`.
pub fn resolve_period(raw: Option<&str>, today: Date) -> (r: Result<Period, Error>)
    ensures
        match raw {
            Some(s) => period_read(s@, r),
            None => r == Ok::<Period, Error>(Period { year: today.year, month: today.month }),
        },
{
    match raw {
        Some(s) => Period::parse(s),
        None => Ok(Period::of(today)),
    }
}

/// Which entries `ls` shows. Two independent choices: which statuses (only
/// pending by default, only paid with `--paid`, both with `--all`), and
/// whether archived expenses count (`--archived`).
pub fn listing_view(pending: bool, paid: bool, all: bool, archived: bool) -> (v: View)
    ensures
        v == (View { include_archived: archived, only_pending: pending || !(paid || all), only_paid: paid }),
{
    View { include_archived: archived, only_pending: pending || !(paid || all), only_paid: paid }
}

/// The currency of a new expense when none is given: the setting, trimmed
/// and upper-cased, unless it is missing or blank; then ARS.
pub fn default_currency(setting: Option<&str>) -> (c: String)
    ensures
        match setting {
            Some(v) => if trim(v@).len() > 0 {
                c@ == unicode_uppercase(trim(v@))
            } else {
                c@ == "ARS"@
            },
            None => c@ == "ARS"@,
        },
{
    match setting {
        Some(v) => {
            let t = trim_chars(&chars_of(v));
            if t.len() > 0 {
                let s = string_of(&t);
                to_uppercase(s.as_str())
            } else {
                String::from_str("ARS")
            }
        },
        None => String::from_str("ARS"),
    }
}

/// What an edit's category flags ask for: a category sets it, else
/// `--no-category` clears it, else it is kept.
pub open spec fn category_flags(category: Option<&str>, no_category: bool) -> Option<Option<Seq<char>>> {
    match category {
        Some(c) => Some(Some(c@)),
        None => if no_category {
            Some(None)
        } else {
            None
        },
    }
}

/// What an edit's archive flags ask for: `--archive` wins over `--restore`.
pub open spec fn active_flags(archive: bool, restore: bool) -> ActiveChange {
    if archive {
        ActiveChange::Archive
    } else if restore {
        ActiveChange::Restore
    } else {
        ActiveChange::Keep
    }
}

/// The edit that the flags of `edit` ask for. An amount that does not read
/// is refused first; flags that change nothing are refused too.
pub fn edit_from_flags<'a>(
    name: Option<&'a str>,
    amount: Option<&str>,
    day: Option<u32>,
    category: Option<&str>,
    no_category: bool,
    currency: Option<&'a str>,
    archive: bool,
    restore: bool,
) -> (r: Result<Edit<'a>, Error>)
    ensures
        match amount {
            Some(a) => parse_amount(a@) matches Err(k) ==> (r matches Err(Error::Amount(k2, t)) && k2 == k
                && t@ == a@),
            None => true,
        },
        (amount matches Some(a) ==> parse_amount(a@) is Ok) ==> {
            let nothing = name is None && amount is None && day is None && currency is None
                && category is None && !no_category && !archive && !restore;
            if nothing {
                r == Err::<Edit<'a>, Error>(Error::NothingToEdit)
            } else {
                r matches Ok(ed) && ed.name == name && ed.currency == currency && ed.due_day == day
                    && ed.amount_cents == (match amount {
                    Some(a) => match parse_amount(a@) {
                        Ok(v) => Some(v as i64),
                        Err(_) => None,
                    },
                    None => None,
                }) && category_change_view(ed.category) == category_flags(category, no_category)
                    && ed.active == active_flags(archive, restore)
            }
        },
{
    let amount_cents = match amount {
        Some(a) => match parse_cents(a) {
            Ok(v) => Some(v),
            Err(e) => {
                return Err(e);
            },
        },
        None => None,
    };
    let category_change = match category {
        Some(c) => CategoryChange::SetTo(String::from_str(c)),
        None => if no_category {
            CategoryChange::Clear
        } else {
            CategoryChange::Keep
        },
    };
    let active_change = if archive {
        ActiveChange::Archive
    } else if restore {
        ActiveChange::Restore
    } else {
        ActiveChange::Keep
    };
    let keeps_category = match category_change {
        CategoryChange::Keep => true,
        _ => false,
    };
    let keeps_active = match active_change {
        ActiveChange::Keep => true,
        _ => false,
    };
    if name.is_none() && amount_cents.is_none() && day.is_none() && currency.is_none() && keeps_category
        && keeps_active {
        return Err(Error::NothingToEdit);
    }
    Ok(
        Edit {
            name,
            amount_cents,
            currency,
            due_day: day,
            category: category_change,
            active: active_change,
        },
    )
}

/// What `add` prints: the new id, the date it falls due this month, the
/// currency as stored, and the amount.
pub open spec fn added_text(id: i64, due: Date, currency: Seq<char>, cents: i64) -> Seq<char> {
    signed_text(id as int) + "\t"@ + date_text(due) + "\t"@ + unicode_uppercase(currency) + " "@
        + format_amount(cents as int)
}

pub fn added_line(id: i64, due: Date, currency: &str, cents: i64) -> (s: String)
    ensures
        s@ == added_text(id, due, currency@, cents),
{
    let mut s = String::new();
    crate::output::push_signed(&mut s, id);
    push_str(&mut s, "\t");
    push_str(&mut s, due.to_string().as_str());
    push_str(&mut s, "\t");
    push_str(&mut s, to_uppercase(currency).as_str());
    push_str(&mut s, " ");
    push_str(&mut s, format_cents(cents).as_str());
    proof {
        assert(s@ =~= added_text(id, due, currency@, cents));
    }
    s
}

/// What `pay` prints: the id, the period, the expense's currency, and the
/// amount recorded.
pub open spec fn paid_text(id: i64, period: Period, currency: Seq<char>, cents: i64) -> Seq<char> {
    signed_text(id as int) + "\t"@ + period_text(period) + "\t"@ + currency + " "@ + format_amount(
        cents as int,
    )
}

pub fn paid_line(id: i64, period: Period, currency: &str, cents: i64) -> (s: String)
    ensures
        s@ == paid_text(id, period, currency@, cents),
{
    let mut s = String::new();
    crate::output::push_signed(&mut s, id);
    push_str(&mut s, "\t");
    push_str(&mut s, period.to_string().as_str());
    push_str(&mut s, "\t");
    push_str(&mut s, currency);
    push_str(&mut s, " ");
    push_str(&mut s, format_cents(cents).as_str());
    proof {
        assert(s@ =~= paid_text(id, period, currency@, cents));
    }
    s
}

} // verus!
