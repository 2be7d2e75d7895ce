//! One exchange rate, USD to ARS, read from dolarapi and cached, that
//! annotates a total in the other currency. It never blends two totals: a
//! rate decorates a total, it never replaces one.
use chrono::{Datelike, Timelike};
use vstd::prelude::*;

use crate::error::Error;
use crate::ledger::Entry;
use crate::money::{format_amount, format_cents};
use crate::period::Date;
use crate::text::{
    all_digits, chars_of, dec, dec_chars, digits_value, push_chars, push_str,
    read_digits, str_equal, string_of, to_lowercase, trim, trim_chars, unicode_lowercase,
};
use crate::totals::{covers, grouped_totals, is_primary, primary_currency, totals, Total};

verus! {

// ---- configuration -------------------------------------------------------------

/// One of the seven places dolarapi prices the dollar.
pub open spec fn is_casa(s: Seq<char>) -> bool {
    ||| s == "oficial"@
    ||| s == "blue"@
    ||| s == "bolsa"@
    ||| s == "contadoconliqui"@
    ||| s == "cripto"@
    ||| s == "mayorista"@
    ||| s == "tarjeta"@
}

fn casa_known(s: &str) -> (b: bool)
    ensures
        b == is_casa(s@),
{
    str_equal(s, "oficial") || str_equal(s, "blue") || str_equal(s, "bolsa") || str_equal(
        s,
        "contadoconliqui",
    ) || str_equal(s, "cripto") || str_equal(s, "mayorista") || str_equal(s, "tarjeta")
}

/// Whether a conversion setting turns conversion off: `off`, `0`, `false` or
/// `no`, once trimmed and lower-cased.
pub open spec fn is_off(v: Seq<char>) -> bool {
    let l = unicode_lowercase(trim(v));
    l == "off"@ || l == "0"@ || l == "false"@ || l == "no"@
}

/// Why a conversion configuration was refused.
#[derive(Debug, Clone, Copy, PartialEq, Eq, Structural)]
pub enum ConfigFault {
    UnknownCasa,
    BadTtl,
    NegativeTtl,
}

/// The characters of an optional string.
pub open spec fn opt_view(o: Option<&str>) -> Option<Seq<char>> {
    match o {
        Some(v) => Some(v@),
        None => None,
    }
}

/// How conversion is configured.
#[derive(Debug, PartialEq)]
pub struct Config {
    pub enabled: bool,
    pub casa: String,
    pub ttl_secs: i64,
}

/// What `Config::from_settings` makes of the three settings: `PAYBAR_FX`,
/// `PAYBAR_FX_CASA` and `PAYBAR_FX_TTL` (`None` when unset).
pub open spec fn config_of(fx: Option<Seq<char>>, casa: Option<Seq<char>>, ttl: Option<Seq<char>>) -> Result<(bool, Seq<char>, int), ConfigFault> {
    let enabled = match fx {
        Some(v) => !is_off(v),
        None => true,
    };
    if !enabled {
        Ok((false, "blue"@, 3600))
    } else {
        let c = match casa {
            Some(v) if trim(v).len() > 0 => unicode_lowercase(trim(v)),
            _ => "blue"@,
        };
        if !is_casa(c) {
            Err(ConfigFault::UnknownCasa)
        } else {
            match ttl {
                Some(v) if trim(v).len() > 0 => match crate::text::std_parse_int(
                    trim(v),
                    true,
                    i64::MIN as int,
                    i64::MAX as int,
                ) {
                    None => Err(ConfigFault::BadTtl),
                    Some(t) => if t < 0 {
                        Err(ConfigFault::NegativeTtl)
                    } else {
                        Ok((true, c, t))
                    },
                },
                _ => Ok((true, c, 3600)),
            }
        }
    }
}

/// The casa a failed `config_of` names, when it failed over the casa.
pub open spec fn config_casa(casa: Option<Seq<char>>) -> Seq<char> {
    match casa {
        Some(v) if trim(v).len() > 0 => unicode_lowercase(trim(v)),
        _ => "blue"@,
    }
}

impl Config {
    /// Conversion configured from its three settings, as read from
    /// `PAYBAR_FX`, `PAYBAR_FX_CASA` and `PAYBAR_FX_TTL`. When conversion is
    /// off, neither casa nor TTL is validated: nothing downstream reads them.
    /// Otherwise an unknown casa or a TTL that is not a non-negative integer
    /// is an error rather than a silent fallback.
    pub fn from_settings(fx: Option<&str>, casa: Option<&str>, ttl: Option<&str>) -> (r: Result<Config, Error>)
        ensures
            match config_of(opt_view(fx), opt_view(casa), opt_view(ttl)) {
                Ok((enabled, c, t)) => r matches Ok(cfg) && cfg.enabled == enabled && cfg.casa@ == c
                    && cfg.ttl_secs == t,
                Err(ConfigFault::UnknownCasa) => r matches Err(Error::UnknownCasa(c)) && c@
                    == config_casa(opt_view(casa)),
                Err(ConfigFault::BadTtl) => r matches Err(Error::BadTtl(t)) && (ttl matches Some(v)
                    && t@ == v@),
                Err(ConfigFault::NegativeTtl) => r == Err::<Config, Error>(Error::NegativeTtl),
            },
    {
        let enabled = match fx {
            Some(v) => {
                let l = to_lowercase(string_of(&trim_chars(&chars_of(v))).as_str());
                !(str_equal(l.as_str(), "off") || str_equal(l.as_str(), "0") || str_equal(
                    l.as_str(),
                    "false",
                ) || str_equal(l.as_str(), "no"))
            },
            None => true,
        };
        if !enabled {
            return Ok(Config { enabled: false, casa: String::from_str("blue"), ttl_secs: 3600 });
        }
        let c: String = match casa {
            Some(v) => {
                let t = trim_chars(&chars_of(v));
                if t.len() > 0 {
                    to_lowercase(string_of(&t).as_str())
                } else {
                    String::from_str("blue")
                }
            },
            None => String::from_str("blue"),
        };
        if !casa_known(c.as_str()) {
            return Err(Error::UnknownCasa(c));
        }
        let ttl_secs: i64 = match ttl {
            Some(v) => {
                let t = trim_chars(&chars_of(v));
                if t.len() > 0 {
                    match crate::text::parse_int_range(
                        &t,
                        0,
                        t.len(),
                        true,
                        -0x8000_0000_0000_0000,
                        0x7fff_ffff_ffff_ffff,
                    ) {
                        Some(x) => {
                            assert(t@.subrange(0, t@.len() as int) =~= t@);
                            x as i64
                        },
                        None => {
                            assert(t@.subrange(0, t@.len() as int) =~= t@);
                            return Err(Error::BadTtl(String::from_str(v)));
                        },
                    }
                } else {
                    3600
                }
            },
            None => 3600,
        };
        if ttl_secs < 0 {
            return Err(Error::NegativeTtl);
        }
        Ok(Config { enabled: true, casa: c, ttl_secs })
    }
}

// ---- timestamps ----------------------------------------------------------------

/// A local date and time to the second, as plain numbers.
#[derive(Debug, Clone, Copy, PartialEq, Eq, Structural)]
pub struct Stamp {
    pub year: i32,
    pub month: u32,
    pub day: u32,
    pub hour: u32,
    pub minute: u32,
    pub second: u32,
}

impl Stamp {
    /// A real moment of the calendar chrono can hold.
    pub open spec fn valid(self) -> bool {
        &&& (Date { year: self.year, month: self.month, day: self.day }).valid()
        &&& self.hour < 24
        &&& self.minute < 60
        &&& self.second < 60
    }
}

/// What chrono's `NaiveDateTime::parse_from_str(s, "%Y-%m-%dT%H:%M:%S")`
/// reads from `s`, if anything.
pub uninterp spec fn chrono_stamp(s: Seq<char>) -> Option<Stamp>;

/// The number of a day in the proleptic Gregorian calendar, counted so that
/// consecutive days have consecutive numbers (0000-03-01 is day 0).
pub open spec fn day_number(y: int, m: int, d: int) -> int {
    let y2 = if m <= 2 {
        y - 1
    } else {
        y
    };
    let era = y2 / 400;
    let yoe = y2 - era * 400;
    let mp = (m + 9) % 12;
    let doy = (153 * mp + 2) / 5 + d - 1;
    era * 146097 + yoe * 365 + yoe / 4 - yoe / 100 + doy
}

/// The seconds from `earlier` to `later`, negative when `later` is earlier.
pub open spec fn seconds_apart(later: Stamp, earlier: Stamp) -> int {
    (day_number(later.year as int, later.month as int, later.day as int) - day_number(
        earlier.year as int,
        earlier.month as int,
        earlier.day as int,
    )) * 86400 + (later.hour * 3600 + later.minute * 60 + later.second) - (earlier.hour * 3600
        + earlier.minute * 60 + earlier.second)
}

/// chrono: reads `YYYY-MM-DDTHH:MM:SS`. The result is taken to be
/// `chrono_stamp` of the text; what chrono accepts is not restated here,
/// only that what it returns is a real moment.
#[verifier::external_body]
pub(crate) fn parse_stamp(s: &str) -> (r: Option<Stamp>)
    ensures
        r == chrono_stamp(s@),
        r matches Some(t) ==> t.valid(),
{
    match chrono::NaiveDateTime::parse_from_str(s, "%Y-%m-%dT%H:%M:%S") {
        Ok(t) => Some(Stamp {
            year: t.year(),
            month: t.month(),
            day: t.day(),
            hour: t.hour(),
            minute: t.minute(),
            second: t.second(),
        }),
        Err(_) => None,
    }
}

/// chrono: the whole seconds from `earlier` to `later`. The result is taken
/// to be their distance in the proleptic Gregorian calendar, which is how
/// chrono's `NaiveDateTime` subtracts.
#[verifier::external_body]
fn seconds_between(later: &Stamp, earlier: &Stamp) -> (r: i64)
    requires
        later.valid(),
        earlier.valid(),
    ensures
        r == seconds_apart(*later, *earlier),
{
    let a = chrono::NaiveDate::from_ymd_opt(later.year, later.month, later.day).unwrap();
    let b = chrono::NaiveDate::from_ymd_opt(earlier.year, earlier.month, earlier.day).unwrap();
    let a = a.and_hms_opt(later.hour, later.minute, later.second).unwrap();
    let b = b.and_hms_opt(earlier.hour, earlier.minute, earlier.second).unwrap();
    (a - b).num_seconds()
}

// ---- rates ---------------------------------------------------------------------

/// How old something read at `fetched` is at `now`, in seconds: never
/// negative, and the largest `i64` when the time it was read is unknown.
pub fn age_of(fetched: Option<Stamp>, now: Stamp) -> (a: i64)
    requires
        now.valid(),
        fetched matches Some(t) ==> t.valid(),
    ensures
        a == age_at(fetched, now),
{
    match fetched {
        Some(t) => {
            let s = seconds_between(&now, &t);
            if s > 0 {
                s
            } else {
                0
            }
        },
        None => i64::MAX,
    }
}

/// A quoted rate: how many centavos of `quote` one unit of `base` costs.
#[derive(Debug, PartialEq)]
pub struct Rate {
    pub casa: String,
    pub base: String,
    pub quote: String,
    /// Centavos of `quote` for one unit of `base`. Blue at 1550.00 is 155_000.
    pub rate_centavos: i64,
    /// When it was read, local time, `YYYY-MM-DDTHH:MM:SS`.
    pub fetched_at: String,
    /// When the source says it last moved. Passed through, never parsed.
    pub source_updated_at: Option<String>,
    /// How long it was meant to stay fresh, in seconds.
    pub ttl_secs: i64,
    /// Set when a refresh failed and this is the last rate held: it is served,
    /// but never as current, however young it is.
    pub stale: bool,
}

impl Clone for Rate {
    fn clone(&self) -> (r: Self)
        ensures
            r == *self,
    {
        Rate {
            casa: self.casa.clone(),
            base: self.base.clone(),
            quote: self.quote.clone(),
            rate_centavos: self.rate_centavos,
            fetched_at: self.fetched_at.clone(),
            source_updated_at: crate::ledger::clone_opt_string(&self.source_updated_at),
            ttl_secs: self.ttl_secs,
            stale: self.stale,
        }
    }
}

/// How old something read at `fetched` is at `now`, in seconds: never
/// negative, and the largest `i64` when the time it was read is unknown.
pub open spec fn age_at(fetched: Option<Stamp>, now: Stamp) -> int {
    match fetched {
        Some(t) => if seconds_apart(now, t) > 0 {
            seconds_apart(now, t)
        } else {
            0
        },
        None => i64::MAX as int,
    }
}

/// How old a rate is at `now`, in seconds, by its fetch time as chrono
/// reads it.
pub open spec fn rate_age(r: Rate, now: Stamp) -> int {
    age_at(chrono_stamp(r.fetched_at@), now)
}

/// Still within the TTL it was fetched under, and not marked stale by a
/// failed refresh.
pub open spec fn rate_current(r: Rate, now: Stamp) -> bool {
    !r.stale && rate_age(r, now) < r.ttl_secs
}

/// An age in its coarsest useful unit: days, else hours, else minutes.
pub open spec fn age_text(secs: int) -> Seq<char> {
    if secs >= 86400 {
        dec((secs / 86400) as nat) + "d"@
    } else if secs >= 3600 {
        dec((secs / 3600) as nat) + "h"@
    } else {
        dec((secs / 60) as nat) + "m"@
    }
}

/// "@ blue 1,550.00", plus " (3h old)" once the rate is no longer current.
pub open spec fn label_text(r: Rate, now: Stamp) -> Seq<char> {
    "@ "@ + r.casa@ + " "@ + format_amount(r.rate_centavos as int) + if rate_current(r, now) {
        Seq::<char>::empty()
    } else {
        " ("@ + age_text(rate_age(r, now)) + " old)"@
    }
}

/// "≈ ARS 1,767,000.00 due @ blue 1,550.00".
pub open spec fn annotation_text(r: Rate, approx_cents: int, primary: Seq<char>, now: Stamp) -> Seq<char> {
    "\u{2248} "@ + primary + " "@ + format_amount(approx_cents) + " due "@ + label_text(r, now)
}

impl Rate {
    /// Still within the TTL it was fetched under, and not marked stale by a
    /// failed refresh. The age is derived at `now`, never stored, so a rate
    /// held on screen goes stale where it sits.
    pub fn is_current(&self, now: Stamp) -> (b: bool)
        requires
            now.valid(),
        ensures
            b == rate_current(*self, now),
    {
        !self.stale && self.age_secs(now) < self.ttl_secs
    }

    pub fn age_secs(&self, now: Stamp) -> (a: i64)
        requires
            now.valid(),
        ensures
            a == rate_age(*self, now),
    {
        age_of(parse_stamp(self.fetched_at.as_str()), now)
    }

    /// "4m", "3h", "2d": enough to judge whether to trust it, no more.
    pub fn age_label(&self, now: Stamp) -> (s: String)
        requires
            now.valid(),
        ensures
            s@ == age_text(rate_age(*self, now)),
    {
        let secs = self.age_secs(now);
        let mut s = String::new();
        if secs >= 86_400 {
            push_chars(&mut s, &dec_chars((secs / 86_400) as u64));
            push_str(&mut s, "d");
        } else if secs >= 3600 {
            push_chars(&mut s, &dec_chars((secs / 3600) as u64));
            push_str(&mut s, "h");
        } else {
            push_chars(&mut s, &dec_chars((secs / 60) as u64));
            push_str(&mut s, "m");
        }
        proof {
            assert(s@ =~= age_text(rate_age(*self, now)));
        }
        s
    }

    /// "@ blue 1,550.00", plus its age once it has stopped being current.
    /// A converted number nobody can attribute is worse than none at all, so
    /// every surface that renders a conversion renders this next to it.
    pub fn label(&self, now: Stamp) -> (s: String)
        requires
            now.valid(),
        ensures
            s@ == label_text(*self, now),
    {
        let mut s = String::new();
        push_str(&mut s, "@ ");
        push_str(&mut s, self.casa.as_str());
        push_str(&mut s, " ");
        push_str(&mut s, format_cents(self.rate_centavos).as_str());
        if !self.is_current(now) {
            push_str(&mut s, " (");
            push_str(&mut s, self.age_label(now).as_str());
            push_str(&mut s, " old)");
        }
        proof {
            assert(s@ =~= label_text(*self, now));
        }
        s
    }

    /// The whole annotation, bar the indentation each surface picks for itself.
    pub fn annotation(&self, approx_cents: i64, primary: &str, now: Stamp) -> (s: String)
        requires
            now.valid(),
        ensures
            s@ == annotation_text(*self, approx_cents as int, primary@, now),
    {
        let mut s = String::new();
        push_str(&mut s, "\u{2248} ");
        push_str(&mut s, primary);
        push_str(&mut s, " ");
        push_str(&mut s, format_cents(approx_cents).as_str());
        push_str(&mut s, " due ");
        push_str(&mut s, self.label(now).as_str());
        proof {
            assert(s@ =~= annotation_text(*self, approx_cents as int, primary@, now));
        }
        s
    }
}

// ---- conversion ----------------------------------------------------------------

/// `n / d` rounded half away from zero: the quotient of the magnitudes,
/// rounded half-up, with the sign of the quotient.
pub open spec fn half_up(n: int, d: int) -> int {
    let sign = if (n < 0) != (d < 0) {
        -1
    } else {
        1
    };
    let a = if n < 0 {
        -n
    } else {
        n
    };
    let b = if d < 0 {
        -d
    } else {
        d
    };
    sign * ((a + b / 2) / b)
}

pub open spec fn abs_int(x: int) -> int {
    if x < 0 {
        -x
    } else {
        x
    }
}

/// `n / d`, rounded half away from zero.
pub fn div_round_half_up(n: i128, d: i128) -> (q: i128)
    requires
        d != 0,
        n != i128::MIN,
        d != i128::MIN,
        abs_int(n as int) + abs_int(d as int) / 2 <= i128::MAX,
    ensures
        q == half_up(n as int, d as int),
{
    let sign: i128 = if (n < 0) != (d < 0) {
        -1
    } else {
        1
    };
    let a = if n < 0 {
        -n
    } else {
        n
    };
    let b = if d < 0 {
        -d
    } else {
        d
    };
    let num = a + b / 2;
    let q = num / b;
    assert(0 <= q <= num) by (nonlinear_arith)
        requires
            q == num / b,
            num >= 0,
            b > 0,
    ;
    sign * q
}

/// What `convert_cents` gives: `None` for a rate that is not positive, for a
/// currency into itself, and for any pair but USD to ARS and back; otherwise
/// the converted cents, rounded half-up once, truncated into `i64`.
pub open spec fn converted(amount: int, from: Seq<char>, to: Seq<char>, rate: int) -> Option<int> {
    if rate <= 0 || from == to {
        None
    } else if from == "USD"@ && to == "ARS"@ {
        Some(half_up(amount * rate, 100) as i64 as int)
    } else if from == "ARS"@ && to == "USD"@ {
        Some(half_up(amount * 10000, rate * 100) as i64 as int)
    } else {
        None
    }
}

/// Cents of `from` to cents of `to`, or `None` when the pair is not the one
/// the rate describes. Integer throughout and half-up at the end.
pub fn convert_cents(amount_cents: i64, from: &str, to: &str, rate_centavos: i64) -> (r: Option<i64>)
    ensures
        match r {
            Some(v) => converted(amount_cents as int, from@, to@, rate_centavos as int) == Some(
                v as int,
            ),
            None => converted(amount_cents as int, from@, to@, rate_centavos as int) is None,
        },
{
    if rate_centavos <= 0 || str_equal(from, to) {
        return None;
    }
    let n = amount_cents as i128;
    let rate = rate_centavos as i128;
    if str_equal(from, "USD") && str_equal(to, "ARS") {
        assert(-0x4000_0000_0000_0000_0000_0000_0000_0000 < n * rate < 0x4000_0000_0000_0000_0000_0000_0000_0000) by (nonlinear_arith)
            requires
                -0x8000_0000_0000_0000 <= n < 0x8000_0000_0000_0000,
                0 < rate < 0x8000_0000_0000_0000,
        ;
        let q = div_round_half_up(n * rate, 100);
        Some(q as i64)
    } else if str_equal(from, "ARS") && str_equal(to, "USD") {
        let q = div_round_half_up(n * 10_000, rate * 100);
        Some(q as i64)
    } else {
        None
    }
}

/// The other currency of the pair, for a primary currency in it.
pub open spec fn counterpart(c: Seq<char>) -> Option<Seq<char>> {
    if c == "ARS"@ {
        Some("USD"@)
    } else if c == "USD"@ {
        Some("ARS"@)
    } else {
        None
    }
}

/// Whether a period's totals hold two currencies the rate relates: the
/// primary currency is one of USD and ARS, and some total is in the other.
pub open spec fn rate_needed_for(ts: Seq<Total>, primary: Option<Seq<char>>) -> bool {
    match primary {
        Some(p) => match counterpart(p) {
            Some(o) => covers(ts, o),
            None => false,
        },
        None => false,
    }
}

/// A month in one currency, or one holding a currency outside the pair,
/// never touches the network to discover it has nothing to convert.
pub fn needed_for(totals: &[Total], primary: Option<&str>) -> (b: bool)
    ensures
        b == rate_needed_for(totals@, opt_view(primary)),
{
    let p = match primary {
        Some(p) => p,
        None => {
            return false;
        },
    };
    let other = if str_equal(p, "ARS") {
        "USD"
    } else if str_equal(p, "USD") {
        "ARS"
    } else {
        return false;
    };
    let mut i: usize = 0;
    while i < totals.len()
        invariant
            0 <= i <= totals@.len(),
            opt_view(primary) == Some(p@),
            counterpart(p@) == Some(other@),
            forall|a: int| 0 <= a < i ==> #[trigger] totals@[a].currency@ != other@,
        decreases totals@.len() - i,
    {
        if str_equal(totals[i].currency.as_str(), other) {
            assert(totals@[i as int].currency@ == other@);
            return true;
        }
        i = i + 1;
    }
    false
}

/// What a total is worth in the primary currency, or `None` when there is
/// nothing to say: no rate, no primary currency, the primary currency
/// itself, or a pair the rate does not describe. Only the due total converts:
/// what was paid was paid at whatever rate applied that day.
pub fn approx_for(rate: Option<&Rate>, total: &Total, primary: Option<&str>) -> (r: Option<i64>)
    ensures
        match (rate, primary) {
            (Some(q), Some(p)) => match r {
                Some(v) => converted(total.due_cents as int, total.currency@, p@, q.rate_centavos as int)
                    == Some(v as int),
                None => converted(total.due_cents as int, total.currency@, p@, q.rate_centavos as int) is None,
            },
            _ => r is None,
        },
{
    match (rate, primary) {
        (Some(q), Some(p)) => convert_cents(total.due_cents, total.currency.as_str(), p, q.rate_centavos),
        _ => None,
    }
}

// ---- the source ------------------------------------------------------------------

/// The value a quoted rate's decimals contribute, in thousandths: its first
/// three decimals, the missing ones read as `0`.
pub open spec fn thousandths(frac: Seq<char>) -> int {
    if frac.len() >= 3 {
        digits_value(frac.take(3)) as int
    } else if frac.len() == 2 {
        (digits_value(frac) * 10) as int
    } else if frac.len() == 1 {
        (digits_value(frac) * 100) as int
    } else {
        0
    }
}

/// A quoted decimal in centavos, rounded half-up past two places, or `None`
/// when it is not digits with at most one `.` and at least one digit before
/// it, or does not fit in an `i64`.
pub open spec fn centavos_of(raw: Seq<char>) -> Option<int> {
    let s = trim(raw);
    let p = crate::text::index_of(s, '.');
    let whole = s.subrange(0, p);
    let frac = if p < s.len() {
        s.subrange(p + 1, s.len() as int)
    } else {
        Seq::<char>::empty()
    };
    if whole.len() == 0 || !all_digits(whole) || !all_digits(frac) {
        None
    } else {
        let v = digits_value(whole) * 100 + (thousandths(frac) + 5) / 10;
        if v <= i64::MAX {
            Some(v)
        } else {
            None
        }
    }
}

proof fn lemma_digits_short(s: Seq<char>)
    requires
        all_digits(s),
        s.len() <= 3,
    ensures
        s.len() == 0 ==> digits_value(s) == 0,
        s.len() == 1 ==> digits_value(s) < 10,
        s.len() == 2 ==> digits_value(s) < 100,
        s.len() == 3 ==> digits_value(s) < 1000,
    decreases s.len(),
{
    if s.len() > 0 {
        let t = s.drop_last();
        assert forall|i: int| 0 <= i < t.len() implies crate::text::is_digit(#[trigger] t[i]) by {
            assert(t[i] == s[i]);
        }
        lemma_digits_short(t);
        assert(crate::text::is_digit(s[s.len() - 1]));
        assert(s.last() == s[s.len() - 1]);
    }
}

/// A decimal to centavos, half-up past two places.
///
/// Deliberately not `money::parse_cents`: that one rejects extra precision
/// because it guards what a person typed. This guards a quoted rate, where
/// refusing 1545.333 would lose the whole annotation over a digit nobody
/// asked about.
pub fn parse_centavos(raw: &str) -> (r: Result<i64, Error>)
    ensures
        match centavos_of(raw@) {
            Some(v) => r == Ok::<i64, Error>(v as i64),
            None => r matches Err(Error::NotARate(t)) && t@ == raw@,
        },
{
    let all = chars_of(raw);
    let s = trim_chars(&all);
    let m = s.len();
    let p = crate::text::find_char(&s, '.');
    proof {
        crate::text::lemma_index_of(s@, '.');
    }
    let frac_start: usize = if p < m {
        p + 1
    } else {
        m
    };
    let ghost whole = s@.subrange(0, p as int);
    let ghost frac = s@.subrange(frac_start as int, m as int);
    assert(p == m ==> frac =~= Seq::<char>::empty());
    if p == 0 {
        return Err(Error::NotARate(string_of(&all)));
    }
    let (w, whole_ok) = read_digits(&s, 0, p);
    let (_, frac_ok) = read_digits(&s, frac_start, m);
    if !whole_ok || !frac_ok {
        return Err(Error::NotARate(string_of(&all)));
    }
    let k: usize = if m - frac_start >= 3 {
        3
    } else {
        m - frac_start
    };
    let (f, _) = read_digits(&s, frac_start, frac_start + k);
    let ghost head = s@.subrange(frac_start as int, frac_start + k);
    proof {
        assert forall|i: int| 0 <= i < head.len() implies crate::text::is_digit(#[trigger] head[i]) by {
            assert(head[i] == frac[i]);
        }
        lemma_digits_short(head);
        if k == 3 {
            assert(head =~= frac.take(3));
        } else {
            assert(head =~= frac);
        }
    }
    let t: u128 = if k == 3 {
        f
    } else if k == 2 {
        f * 10
    } else if k == 1 {
        f * 100
    } else {
        0
    };
    assert(t == thousandths(frac));
    if w >= 0x4_0000_0000_0000_0000u128 {
        proof {
            assert(digits_value(whole) * 100 + (thousandths(frac) + 5) / 10 > i64::MAX);
        }
        return Err(Error::NotARate(string_of(&all)));
    }
    let v: u128 = w * 100 + (t + 5) / 10;
    if v > 0x7fff_ffff_ffff_ffffu128 {
        return Err(Error::NotARate(string_of(&all)));
    }
    Ok(v as i64)
}

/// What a JSON document holds under one key of its top-level object.
#[derive(Debug, PartialEq)]
pub enum JsonField {
    /// The text is not JSON.
    NotJson,
    /// Not an object, or no such key.
    Absent,
    /// A number, as serde_json renders it.
    Number(String),
    /// A string.
    Text(String),
    /// Anything else: null, a boolean, an array or an object.
    Other,
}

/// What serde_json finds in `body` under `key`: whether `body` parses as
/// JSON, and what `Value::get(key)` gives there, a number rendered by
/// `Number`'s `Display`.
pub uninterp spec fn serde_json_field(body: Seq<char>, key: Seq<char>) -> JsonField;

/// serde_json: parses `body` into a `Value` and reads `key` from it. The
/// result is taken to be `serde_json_field` of the two; JSON's grammar and
/// serde_json's rendering of numbers are not restated here.
#[verifier::external_body]
fn json_field(body: &str, key: &str) -> (r: JsonField)
    ensures
        r == serde_json_field(body@, key@),
{
    match serde_json::from_str::<serde_json::Value>(body) {
        Err(_) => JsonField::NotJson,
        Ok(v) => match v.get(key) {
            None => JsonField::Absent,
            Some(serde_json::Value::Number(n)) => JsonField::Number(n.to_string()),
            Some(serde_json::Value::String(s)) => JsonField::Text(s.clone()),
            Some(_) => JsonField::Other,
        },
    }
}

/// What a quote says, given what its body holds under `venta` and under
/// `fechaActualizacion`: the `venta` (the sell side: what it costs to obtain
/// the dollars an obligation is owed in) in centavos, which must be a
/// positive decimal, and the source's own update time when it is a string.
pub open spec fn quote_outcome(venta: JsonField, updated: JsonField, r: Result<(i64, Option<String>), Error>) -> bool {
    match venta {
        JsonField::NotJson => r == Err::<(i64, Option<String>), Error>(Error::NotJson),
        JsonField::Absent => r == Err::<(i64, Option<String>), Error>(Error::NoVenta),
        JsonField::Other => r == Err::<(i64, Option<String>), Error>(Error::VentaNotScalar),
        JsonField::Number(v) | JsonField::Text(v) => match centavos_of(v@) {
            None => r matches Err(Error::NotARate(t)) && t@ == v@,
            Some(c) => if c <= 0 {
                r matches Err(Error::RateNotPositive(t)) && t@ == v@
            } else {
                r matches Ok((got, source)) && got == c && match updated {
                    JsonField::Text(s) => source == Some(s),
                    _ => source is None,
                }
            },
        },
    }
}

/// The quote a body's `venta` and `fechaActualizacion` readings give.
pub fn quote_of(venta: JsonField, updated: JsonField) -> (r: Result<(i64, Option<String>), Error>)
    ensures
        quote_outcome(venta, updated, r),
{
    let raw = match venta {
        JsonField::NotJson => {
            return Err(Error::NotJson);
        },
        JsonField::Absent => {
            return Err(Error::NoVenta);
        },
        JsonField::Other => {
            return Err(Error::VentaNotScalar);
        },
        JsonField::Number(v) => v,
        JsonField::Text(v) => v,
    };
    let centavos = parse_centavos(raw.as_str())?;
    if centavos <= 0 {
        return Err(Error::RateNotPositive(raw));
    }
    let source = match updated {
        JsonField::Text(s) => Some(s),
        _ => None,
    };
    Ok((centavos, source))
}

/// The rate a dolarapi body quotes, read with serde_json.
pub fn parse_body(body: &str) -> (r: Result<(i64, Option<String>), Error>)
    ensures
        quote_outcome(
            serde_json_field(body@, "venta"@),
            serde_json_field(body@, "fechaActualizacion"@),
            r,
        ),
{
    let venta = json_field(body, "venta");
    let updated = json_field(body, "fechaActualizacion");
    quote_of(venta, updated)
}

// ---- resolving a rate -----------------------------------------------------------

/// Whether the cached rate answers without asking the source: it exists, is
/// still current, and no refresh was asked for.
pub fn cache_suffices(cached: &Option<Rate>, now: Stamp, force: bool) -> (b: bool)
    requires
        now.valid(),
    ensures
        b == (!force && (*cached matches Some(r) && rate_current(r, now))),
{
    if force {
        return false;
    }
    match cached {
        Some(r) => r.is_current(now),
        None => false,
    }
}

/// A rate as a failed refresh serves it: the same rate, marked stale.
pub open spec fn marked_stale(r: Rate) -> Rate {
    Rate { stale: true, ..r }
}

/// The rate to render once the source was asked: what it answered, stamped
/// with the time of asking and the configured casa and TTL; or, when asking
/// failed, the cached rate marked stale, or nothing. A failed fetch is never
/// an error.
pub fn after_fetch(cfg: &Config, cached: Option<Rate>, fetched: Option<(i64, Option<String>)>, fetched_at: &str) -> (r: Option<Rate>)
    ensures
        match fetched {
            Some((c, source)) => r matches Some(q) && q.casa == cfg.casa && q.base@ == "USD"@
                && q.quote@ == "ARS"@ && q.rate_centavos == c && q.fetched_at@ == fetched_at@
                && q.source_updated_at == source && q.ttl_secs == cfg.ttl_secs && !q.stale,
            None => r == match cached {
                Some(q) => Some(marked_stale(q)),
                None => None,
            },
        },
{
    match fetched {
        Some((c, source)) => Some(Rate {
            casa: cfg.casa.clone(),
            base: String::from_str("USD"),
            quote: String::from_str("ARS"),
            rate_centavos: c,
            fetched_at: String::from_str(fetched_at),
            source_updated_at: source,
            ttl_secs: cfg.ttl_secs,
            stale: false,
        }),
        None => match cached {
            Some(mut q) => {
                q.stale = true;
                Some(q)
            },
            None => None,
        },
    }
}

/// What resolving a rate for a listing came to.
pub enum Resolved {
    /// The listing needs no rate: conversion is off, or it does not hold both
    /// currencies of the pair.
    NotNeeded,
    /// A rate was needed and none could be had: the source failed and
    /// nothing was cached.
    Unavailable,
    /// The rate to render.
    Rate(Rate),
}

impl Resolved {
    /// The rate, when there is one.
    pub fn rate(self) -> (r: Option<Rate>)
        ensures
            r == match self {
                Resolved::Rate(q) => Some(q),
                _ => None,
            },
    {
        match self {
            Resolved::Rate(q) => Some(q),
            _ => None,
        }
    }
}

/// A listing needs a rate when conversion is on and it holds two
/// currencies the rate relates: the primary one is USD or ARS and the other
/// occurs too.
pub open spec fn listing_needs_rate(es: Seq<Entry>) -> bool {
    exists|c: Seq<char>| is_primary(es, c) && (counterpart(c) matches Some(o) && crate::totals::has_currency(es, o))
}

pub proof fn lemma_primary_unique(es: Seq<Entry>, a: Seq<char>, b: Seq<char>)
    requires
        is_primary(es, a),
        is_primary(es, b),
    ensures
        a == b,
{
    let i = choose|i: int| 0 <= i < es.len() && #[trigger] es[i].expense.currency@ == a;
    let j = choose|j: int| 0 <= j < es.len() && #[trigger] es[j].expense.currency@ == b;
    crate::totals::lemma_str_lt_total(a, b);
}

proof fn lemma_covers_has(ts: Seq<Total>, es: Seq<Entry>, c: Seq<char>)
    requires
        grouped_totals(ts, es),
    ensures
        covers(ts, c) == crate::totals::has_currency(es, c),
{
    if covers(ts, c) {
        let a = choose|a: int| 0 <= a < ts.len() && #[trigger] ts[a].currency@ == c;
        assert(crate::totals::has_currency(es, ts[a].currency@));
    }
    if crate::totals::has_currency(es, c) {
        let i = choose|i: int| 0 <= i < es.len() && #[trigger] es[i].expense.currency@ == c;
        assert(covers(ts, es[i].expense.currency@));
    }
}

/// Whether a listing needs a rate at all. A month in one currency never
/// reaches for the network.
pub fn rate_needed(cfg: &Config, entries: &[Entry]) -> (b: bool)
    ensures
        b == (cfg.enabled && listing_needs_rate(entries@)),
{
    if !cfg.enabled {
        return false;
    }
    let ts = totals(entries);
    let primary = primary_currency(entries);
    let b = match &primary {
        Some(p) => needed_for(&ts, Some(p.as_str())),
        None => needed_for(&ts, None),
    };
    proof {
        match primary {
            Some(p) => {
                match counterpart(p@) {
                    Some(o) => lemma_covers_has(ts@, entries@, o),
                    None => {},
                }
                if listing_needs_rate(entries@) {
                    let c = choose|c: Seq<char>| is_primary(entries@, c) && (counterpart(c) matches Some(o) && crate::totals::has_currency(entries@, o));
                    lemma_primary_unique(entries@, c, p@);
                }
            },
            None => {
                if listing_needs_rate(entries@) {
                    let c = choose|c: Seq<char>| is_primary(entries@, c) && (counterpart(c) matches Some(o) && crate::totals::has_currency(entries@, o));
                    let i = choose|i: int| 0 <= i < entries@.len() && #[trigger] entries@[i].expense.currency@ == c;
                }
            },
        }
    }
    b
}


/// Switching conversion off validates neither the casa nor the TTL: nothing
/// downstream reads them, so nothing downstream may refuse them.
pub proof fn switching_conversion_off_validates_nothing(fx: Seq<char>, casa: Option<Seq<char>>, ttl: Option<Seq<char>>)
    requires
        is_off(fx),
    ensures
        config_of(Some(fx), casa, ttl) == Ok::<(bool, Seq<char>, int), ConfigFault>((false, "blue"@, 3600)),
{
}

} // verus!
