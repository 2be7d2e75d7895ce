//! Characters and strings: the small vocabulary every parser and renderer in
//! this crate is written in. Text is handled as a sequence of `char`s, so every
//! rule below is stated over `Seq<char>`.
use vstd::prelude::*;

verus! {

// ---- whitespace -----------------------------------------------------------

/// Unicode `White_Space`, the set `char::is_whitespace`, `str::trim` and
/// `str::split_whitespace` use.
pub open spec fn is_ws(c: char) -> bool {
    let u = c as u32;
    ||| 0x09 <= u <= 0x0d
    ||| u == 0x20
    ||| u == 0x85
    ||| u == 0xa0
    ||| u == 0x1680
    ||| 0x2000 <= u <= 0x200a
    ||| u == 0x2028
    ||| u == 0x2029
    ||| u == 0x202f
    ||| u == 0x205f
    ||| u == 0x3000
}

pub fn is_whitespace(c: char) -> (b: bool)
    ensures
        b == is_ws(c),
{
    let u = c as u32;
    (0x09 <= u && u <= 0x0d) || u == 0x20 || u == 0x85 || u == 0xa0 || u == 0x1680 || (0x2000 <= u
        && u <= 0x200a) || u == 0x2028 || u == 0x2029 || u == 0x202f || u == 0x205f || u == 0x3000
}

/// `s` without its leading whitespace.
pub open spec fn trim_start(s: Seq<char>) -> Seq<char>
    decreases s.len(),
{
    if s.len() > 0 && is_ws(s[0]) {
        trim_start(s.drop_first())
    } else {
        s
    }
}

/// `s` without its trailing whitespace.
pub open spec fn trim_end(s: Seq<char>) -> Seq<char>
    decreases s.len(),
{
    if s.len() > 0 && is_ws(s.last()) {
        trim_end(s.drop_last())
    } else {
        s
    }
}

/// What `str::trim` leaves.
pub open spec fn trim(s: Seq<char>) -> Seq<char> {
    trim_end(trim_start(s))
}

proof fn lemma_trim_start_at(s: Seq<char>, i: int)
    requires
        0 <= i <= s.len(),
        forall|k: int| 0 <= k < i ==> is_ws(#[trigger] s[k]),
    ensures
        trim_start(s) == trim_start(s.subrange(i, s.len() as int)),
    decreases i,
{
    if i > 0 {
        assert(s.drop_first() =~= s.subrange(1, s.len() as int));
        let t = s.drop_first();
        assert forall|k: int| 0 <= k < i - 1 implies is_ws(#[trigger] t[k]) by {
            assert(t[k] == s[k + 1]);
        }
        lemma_trim_start_at(t, i - 1);
        assert(t.subrange(i - 1, t.len() as int) =~= s.subrange(i, s.len() as int));
    } else {
        assert(s.subrange(0, s.len() as int) =~= s);
    }
}

proof fn lemma_trim_end_at(s: Seq<char>, j: int)
    requires
        0 <= j <= s.len(),
        forall|k: int| j <= k < s.len() ==> is_ws(#[trigger] s[k]),
    ensures
        trim_end(s) == trim_end(s.subrange(0, j)),
    decreases s.len() - j,
{
    if j < s.len() {
        let t = s.drop_last();
        assert forall|k: int| j <= k < t.len() implies is_ws(#[trigger] t[k]) by {
            assert(t[k] == s[k]);
        }
        lemma_trim_end_at(t, j);
        assert(t.subrange(0, j) =~= s.subrange(0, j));
    } else {
        assert(s.subrange(0, j) =~= s);
    }
}

/// The characters of `s` between its first and last non-whitespace
/// character, as `str::trim` computes them.
pub fn trim_chars(s: &[char]) -> (r: Vec<char>)
    ensures
        r@ == trim(s@),
{
    let n = s.len();
    let mut i: usize = 0;
    while i < n && is_whitespace(s[i])
        invariant
            0 <= i <= n,
            n == s@.len(),
            forall|k: int| 0 <= k < i ==> is_ws(#[trigger] s@[k]),
        decreases n - i,
    {
        i = i + 1;
    }
    proof {
        lemma_trim_start_at(s@, i as int);
    }
    let ghost rest = s@.subrange(i as int, n as int);
    assert(i < n ==> !is_ws(rest[0]));
    assert(trim_start(rest) == rest);
    let mut j: usize = n;
    while j > i && is_whitespace(s[j - 1])
        invariant
            i <= j <= n,
            n == s@.len(),
            rest == s@.subrange(i as int, n as int),
            forall|k: int| j - i <= k < rest.len() ==> is_ws(#[trigger] rest[k]),
        decreases j - i,
    {
        assert(rest[j - 1 - i] == s@[j - 1]);
        j = j - 1;
    }
    proof {
        lemma_trim_end_at(rest, (j - i) as int);
        let kept = rest.subrange(0, (j - i) as int);
        assert(j > i ==> kept.last() == s@[j - 1]);
        assert(trim_end(kept) == kept);
    }
    let mut r: Vec<char> = Vec::new();
    let mut k: usize = i;
    while k < j
        invariant
            i <= k <= j <= n,
            n == s@.len(),
            r@ == s@.subrange(i as int, k as int),
        decreases j - k,
    {
        r.push(s[k]);
        assert(r@ =~= s@.subrange(i as int, k + 1));
        k = k + 1;
    }
    assert(r@ =~= rest.subrange(0, (j - i) as int));
    r
}

// ---- conversion between str, String and chars -----------------------------

/// The characters of `s`, in order.
pub fn chars_of(s: &str) -> (v: Vec<char>)
    ensures
        v@ == s@,
{
    let mut v: Vec<char> = Vec::new();
    for c in it: s.chars()
        invariant
            v@ == it.seq().take(it.index()),
    {
        v.push(c);
    }
    v
}

/// `String::push`: appends one character.
#[verifier::external_body]
pub(crate) fn push_char(s: &mut String, c: char)
    ensures
        final(s)@ == old(s)@.push(c),
{
    s.push(c);
}

/// Appends every character of `v` to `s`.
pub fn push_chars(s: &mut String, v: &[char])
    ensures
        final(s)@ == old(s)@ + v@,
{
    let ghost start = s@;
    let n = v.len();
    let mut i: usize = 0;
    while i < n
        invariant
            0 <= i <= n,
            n == v@.len(),
            s@ == start + v@.subrange(0, i as int),
        decreases n - i,
    {
        push_char(s, v[i]);
        assert(s@ =~= start + v@.subrange(0, i + 1));
        i = i + 1;
    }
    assert(v@.subrange(0, n as int) =~= v@);
}

/// A new `String` holding exactly the characters of `v`.
pub fn string_of(v: &[char]) -> (s: String)
    ensures
        s@ == v@,
{
    let mut s = String::new();
    push_chars(&mut s, v);
    assert(s@ =~= v@);
    s
}

/// Appends `t` to `s`.
pub fn push_str(s: &mut String, t: &str)
    ensures
        final(s)@ == old(s)@ + t@,
{
    s.append(t);
}

// ---- case mapping (Unicode tables, computed by std) ------------------------

/// What `str::to_uppercase` returns for a string: Unicode's full uppercase
/// mapping, character by character.
pub uninterp spec fn unicode_uppercase(s: Seq<char>) -> Seq<char>;

/// What `str::to_lowercase` returns for a string: Unicode's full lowercase
/// mapping, with the final-sigma rule.
pub uninterp spec fn unicode_lowercase(s: Seq<char>) -> Seq<char>;

/// `str::to_uppercase`. Its result is taken to be `unicode_uppercase` of its
/// argument; the Unicode tables it consults are not restated here.
#[verifier::external_body]
pub(crate) fn to_uppercase(s: &str) -> (r: String)
    ensures
        r@ == unicode_uppercase(s@),
{
    s.to_uppercase()
}

/// `str::to_lowercase`. Its result is taken to be `unicode_lowercase` of its
/// argument; the Unicode tables it consults are not restated here.
#[verifier::external_body]
pub(crate) fn to_lowercase(s: &str) -> (r: String)
    ensures
        r@ == unicode_lowercase(s@),
{
    s.to_lowercase()
}

// ---- decimal digits --------------------------------------------------------

pub open spec fn is_digit(c: char) -> bool {
    48 <= (c as u32) <= 57
}

pub open spec fn digit_value(c: char) -> int {
    (c as u32) - 48
}

pub open spec fn all_digits(s: Seq<char>) -> bool {
    forall|i: int| 0 <= i < s.len() ==> is_digit(#[trigger] s[i])
}

/// The number a string of decimal digits spells.
pub open spec fn digits_value(s: Seq<char>) -> nat
    decreases s.len(),
{
    if s.len() == 0 {
        0
    } else {
        (digits_value(s.drop_last()) * 10 + digit_value(s.last())) as nat
    }
}

pub open spec fn digit_char(d: nat) -> char {
    ((d % 10) + 48) as char
}

/// The shortest decimal spelling of `n`: what `to_string` renders for an
/// unsigned number.
pub open spec fn dec(n: nat) -> Seq<char>
    decreases n,
{
    if n < 10 {
        seq![digit_char(n)]
    } else {
        dec(n / 10).push(digit_char(n % 10))
    }
}

pub fn is_ascii_digit(c: char) -> (b: bool)
    ensures
        b == is_digit(c),
{
    let u = c as u32;
    48 <= u && u <= 57
}

/// The decimal digits of `n`, most significant first.
pub fn dec_chars(n: u64) -> (v: Vec<char>)
    ensures
        v@ == dec(n as nat),
{
    let mut m: u64 = n;
    let mut out: Vec<char> = Vec::new();
    loop
        invariant_except_break
            dec(n as nat) == dec(m as nat) + out@,
        ensures
            out@ == dec(n as nat),
        decreases m,
    {
        let c = ((m % 10) as u8 + 48u8) as char;
        assert(c == digit_char(m as nat));
        let ghost before = out@;
        out.insert(0, c);
        assert(out@ =~= seq![c] + before);
        if m < 10 {
            assert(dec(m as nat) =~= seq![c]);
            break ;
        }
        assert(dec(m as nat) == dec((m / 10) as nat).push(digit_char((m % 10) as nat)));
        assert(digit_char((m % 10) as nat) == c);
        assert(dec((m / 10) as nat).push(c) + before =~= dec((m / 10) as nat) + out@);
        m = m / 10;
    }
    out
}

// ---- integers as std's `FromStr` reads them --------------------------------

/// What `str::parse` gives for a primitive integer type whose values are
/// `lo..=hi`: an optional `+` (or `-`, for a signed type) followed by at least
/// one ASCII digit, and nothing else; a value outside the type is an error.
pub open spec fn std_parse_int(s: Seq<char>, signed: bool, lo: int, hi: int) -> Option<int> {
    if s.len() == 0 {
        None
    } else {
        let neg = signed && s[0] == '-';
        let body = if s[0] == '+' || neg {
            s.drop_first()
        } else {
            s
        };
        if body.len() == 0 || !all_digits(body) {
            None
        } else {
            let v = if neg {
                -(digits_value(body) as int)
            } else {
                digits_value(body) as int
            };
            if lo <= v <= hi {
                Some(v)
            } else {
                None
            }
        }
    }
}

pub open spec fn parse_cap() -> int {
    0x4_0000_0000_0000_0000
}

/// The value of `s[start..end]` read as decimal digits, saturated at
/// `parse_cap()`, and whether every character there is a digit.
pub fn read_digits(s: &[char], start: usize, end: usize) -> (r: (u128, bool))
    requires
        start <= end <= s@.len(),
    ensures
        r.1 == all_digits(s@.subrange(start as int, end as int)),
        r.1 ==> r.0 == (if digits_value(s@.subrange(start as int, end as int)) >= parse_cap() {
            parse_cap()
        } else {
            digits_value(s@.subrange(start as int, end as int)) as int
        }),
{
    let mut acc: u128 = 0;
    let mut i: usize = start;
    while i < end
        invariant
            start <= i <= end <= s@.len(),
            all_digits(s@.subrange(start as int, i as int)),
            acc == (if digits_value(s@.subrange(start as int, i as int)) >= parse_cap() {
                parse_cap()
            } else {
                digits_value(s@.subrange(start as int, i as int)) as int
            }),
        decreases end - i,
    {
        let c = s[i];
        if !is_ascii_digit(c) {
            assert(!all_digits(s@.subrange(start as int, end as int))) by {
                assert(s@.subrange(start as int, end as int)[i - start] == c);
            }
            return (0, false);
        }
        let ghost pre = s@.subrange(start as int, i as int);
        assert(s@.subrange(start as int, i + 1) =~= pre.push(c));
        assert(s@.subrange(start as int, i + 1).drop_last() =~= pre);
        let d = (c as u32 - 48) as u128;
        assert(d == digit_value(c));
        let ghost dv = digits_value(pre);
        if acc >= 0x4_0000_0000_0000_0000u128 {
            assert(dv * 10 + d >= parse_cap()) by (nonlinear_arith)
                requires
                    dv >= parse_cap(),
                    d >= 0,
            ;
        } else {
            let next = acc * 10 + d;
            if next >= 0x4_0000_0000_0000_0000u128 {
                acc = 0x4_0000_0000_0000_0000u128;
            } else {
                acc = next;
            }
        }
        assert(all_digits(s@.subrange(start as int, i + 1))) by {
            assert forall|k: int| 0 <= k < i + 1 - start implies is_digit(
                #[trigger] s@.subrange(start as int, i + 1)[k],
            ) by {
                if k < i - start {
                    assert(s@.subrange(start as int, i + 1)[k] == pre[k]);
                }
            }
        }
        i = i + 1;
    }
    (acc, true)
}

/// `str::parse` for an integer type whose values are `lo..=hi`, on the
/// characters `s[start..end]`.
pub fn parse_int_range(s: &[char], start: usize, end: usize, signed: bool, lo: i128, hi: i128) -> (r:
    Option<i128>)
    requires
        start <= end <= s@.len(),
        -0x1_0000_0000_0000_0000 <= lo <= hi <= 0x1_0000_0000_0000_0000,
    ensures
        match r {
            Some(v) => std_parse_int(s@.subrange(start as int, end as int), signed, lo as int, hi as int)
                == Some(v as int),
            None => std_parse_int(s@.subrange(start as int, end as int), signed, lo as int, hi as int)
                is None,
        },
{
    let ghost t = s@.subrange(start as int, end as int);
    if start == end {
        return None;
    }
    let first = s[start];
    assert(t[0] == first);
    let neg = signed && first == '-';
    let body_start = if first == '+' || neg {
        start + 1
    } else {
        start
    };
    let ghost body = if first == '+' || neg {
        t.drop_first()
    } else {
        t
    };
    assert(body =~= s@.subrange(body_start as int, end as int));
    if body_start == end {
        return None;
    }
    let (mag, ok) = read_digits(s, body_start, end);
    if !ok {
        return None;
    }
    if mag >= 0x4_0000_0000_0000_0000u128 {
        return None;
    }
    let m = mag as i128;
    let v = if neg {
        -m
    } else {
        m
    };
    if lo <= v && v <= hi {
        Some(v)
    } else {
        None
    }
}

// ---- words -----------------------------------------------------------------

/// Where the run of non-whitespace starting at `i` ends.
pub open spec fn token_end(s: Seq<char>, i: int) -> int
    decreases s.len() - i,
{
    if 0 <= i < s.len() && !is_ws(s[i]) {
        token_end(s, i + 1)
    } else {
        i
    }
}

pub proof fn lemma_token_end(s: Seq<char>, i: int)
    requires
        0 <= i <= s.len(),
    ensures
        i <= token_end(s, i) <= s.len(),
        i < s.len() && !is_ws(s[i]) ==> i < token_end(s, i),
        forall|k: int| i <= k < token_end(s, i) ==> !is_ws(#[trigger] s[k]),
        token_end(s, i) < s.len() ==> is_ws(s[token_end(s, i)]),
    decreases s.len() - i,
{
    if i < s.len() && !is_ws(s[i]) {
        lemma_token_end(s, i + 1);
    }
}

/// The words of `s[i..]`: its maximal runs of non-whitespace, in order.
pub open spec fn words_from(s: Seq<char>, i: int) -> Seq<Seq<char>>
    decreases s.len() - i,
{
    if i < 0 || i >= s.len() {
        seq![]
    } else if is_ws(s[i]) {
        words_from(s, i + 1)
    } else {
        let j = token_end(s, i);
        proof {
            lemma_token_end(s, i);
        }
        seq![s.subrange(i, j)] + words_from(s, j)
    }
}

/// What `str::split_whitespace` yields.
pub open spec fn words(s: Seq<char>) -> Seq<Seq<char>> {
    words_from(s, 0)
}

/// No character of `s` is whitespace.
pub open spec fn no_ws(s: Seq<char>) -> bool {
    forall|k: int| 0 <= k < s.len() ==> !is_ws(#[trigger] s[k])
}

proof fn lemma_token_end_shift(p: Seq<char>, q: Seq<char>, j: int)
    requires
        0 <= j <= q.len(),
    ensures
        token_end(p + q, p.len() + j) == p.len() + token_end(q, j),
    decreases q.len() - j,
{
    if j < q.len() {
        assert((p + q)[p.len() + j] == q[j]);
        if !is_ws(q[j]) {
            lemma_token_end_shift(p, q, j + 1);
        }
    }
}

/// The words after a prefix do not depend on the prefix.
proof fn lemma_words_shift(p: Seq<char>, q: Seq<char>, j: int)
    requires
        0 <= j <= q.len(),
    ensures
        words_from(p + q, p.len() + j) == words_from(q, j),
    decreases q.len() - j,
{
    if j < q.len() {
        assert((p + q)[p.len() + j] == q[j]);
        if is_ws(q[j]) {
            lemma_words_shift(p, q, j + 1);
        } else {
            lemma_token_end_shift(p, q, j);
            lemma_token_end(q, j);
            let t = token_end(q, j);
            lemma_words_shift(p, q, t);
            assert((p + q).subrange(p.len() + j, p.len() + t) =~= q.subrange(j, t));
        }
    }
}

proof fn lemma_token_end_before_space(a: Seq<char>, b: Seq<char>, i: int)
    requires
        0 <= i <= a.len(),
    ensures
        token_end(a + seq![' '] + b, i) == token_end(a, i),
    decreases a.len() - i,
{
    let s = a + seq![' '] + b;
    if i < a.len() {
        assert(s[i] == a[i]);
        if !is_ws(a[i]) {
            lemma_token_end_before_space(a, b, i + 1);
        }
    } else {
        assert(s[i] == ' ');
    }
}

proof fn lemma_words_from_split(a: Seq<char>, b: Seq<char>, i: int)
    requires
        0 <= i <= a.len(),
    ensures
        words_from(a + seq![' '] + b, i) == words_from(a, i) + words(b),
    decreases a.len() - i,
{
    let s = a + seq![' '] + b;
    if i == a.len() {
        assert(s[i] == ' ');
        assert(s =~= (a + seq![' ']) + b);
        lemma_words_shift(a + seq![' '], b, 0);
        assert(words_from(a, i) + words(b) =~= words(b));
    } else {
        assert(s[i] == a[i]);
        if is_ws(a[i]) {
            lemma_words_from_split(a, b, i + 1);
        } else {
            lemma_token_end_before_space(a, b, i);
            lemma_token_end(a, i);
            let j = token_end(a, i);
            lemma_words_from_split(a, b, j);
            assert(s.subrange(i, j) =~= a.subrange(i, j));
            assert(seq![a.subrange(i, j)] + (words_from(a, j) + words(b)) =~= (seq![a.subrange(i, j)]
                + words_from(a, j)) + words(b));
        }
    }
}

/// A single space splits the words of a text in two.
pub proof fn lemma_words_split(a: Seq<char>, b: Seq<char>)
    ensures
        words(a + seq![' '] + b) == words(a) + words(b),
{
    lemma_words_from_split(a, b, 0);
}

proof fn lemma_token_end_plain(t: Seq<char>, i: int)
    requires
        0 <= i <= t.len(),
        no_ws(t),
    ensures
        token_end(t, i) == t.len(),
    decreases t.len() - i,
{
    if i < t.len() {
        lemma_token_end_plain(t, i + 1);
    }
}

/// A text without whitespace is one word.
pub proof fn lemma_one_word(t: Seq<char>)
    requires
        t.len() > 0,
        no_ws(t),
    ensures
        words(t) == seq![t],
{
    lemma_token_end_plain(t, 0);
    assert(!is_ws(t[0]));
    assert(t.subrange(0, t.len() as int) =~= t);
    assert(words_from(t, t.len() as int) =~= Seq::<Seq<char>>::empty());
    assert(words(t) =~= seq![t]);
}

proof fn lemma_words_from_plain(s: Seq<char>, i: int)
    requires
        0 <= i <= s.len(),
    ensures
        forall|k: int| 0 <= k < words_from(s, i).len() ==> #[trigger] words_from(s, i)[k].len() > 0
            && no_ws(words_from(s, i)[k]),
    decreases s.len() - i,
{
    if i < s.len() {
        if is_ws(s[i]) {
            lemma_words_from_plain(s, i + 1);
            assert(words_from(s, i) == words_from(s, i + 1));
        } else {
            lemma_token_end(s, i);
            let j = token_end(s, i);
            lemma_words_from_plain(s, j);
            let w = s.subrange(i, j);
            assert forall|k: int| 0 <= k < w.len() implies !is_ws(#[trigger] w[k]) by {
                assert(w[k] == s[i + k]);
            }
            let ws = words_from(s, i);
            let rest = words_from(s, j);
            assert(ws == seq![w] + rest);
            assert forall|k: int| 0 <= k < ws.len() implies #[trigger] ws[k].len() > 0 && no_ws(ws[k]) by {
                if k > 0 {
                    assert(ws[k] == rest[k - 1]);
                    assert(rest[k - 1].len() > 0 && no_ws(rest[k - 1]));
                } else {
                    assert(ws[0] == w);
                }
            }
        }
    } else {
        assert(words_from(s, i).len() == 0);
    }
}

/// Every word is non-empty and holds no whitespace.
pub proof fn lemma_words_plain(s: Seq<char>)
    ensures
        forall|k: int| 0 <= k < words(s).len() ==> #[trigger] words(s)[k].len() > 0 && no_ws(words(s)[k]),
{
    lemma_words_from_plain(s, 0);
}

/// Words joined by spaces start with the first word.
pub proof fn lemma_join_spaced_first(ws: Seq<Seq<char>>)
    requires
        ws.len() > 0,
        ws[0].len() > 0,
    ensures
        join_spaced(ws).len() > 0,
        join_spaced(ws)[0] == ws[0][0],
    decreases ws.len(),
{
    if ws.len() > 1 {
        lemma_join_spaced_first(ws.drop_last());
    }
}

/// A text that starts with a non-whitespace character keeps something
/// once trimmed.
pub proof fn lemma_trim_keeps(s: Seq<char>)
    requires
        s.len() > 0,
        !is_ws(s[0]),
    ensures
        trim(s).len() > 0,
{
    assert(trim_start(s) == s);
    lemma_trim_end_keeps(s);
}

proof fn lemma_trim_end_keeps(s: Seq<char>)
    requires
        s.len() > 0,
        !is_ws(s[0]),
    ensures
        trim_end(s).len() > 0,
    decreases s.len(),
{
    if s.len() > 1 && is_ws(s.last()) {
        assert(s.drop_last()[0] == s[0]);
        lemma_trim_end_keeps(s.drop_last());
    }
}

/// The words of `s`, as `str::split_whitespace` yields them.
pub fn split_words(s: &[char]) -> (r: Vec<Vec<char>>)
    ensures
        r.deep_view() == words(s@),
{
    let n = s.len();
    let mut toks: Vec<Vec<char>> = Vec::new();
    let mut i: usize = 0;
    while i < n
        invariant
            0 <= i <= n,
            n == s@.len(),
            words(s@) == toks.deep_view() + words_from(s@, i as int),
        decreases n - i,
    {
        if is_whitespace(s[i]) {
            i = i + 1;
        } else {
            proof {
                lemma_token_end(s@, i as int);
            }
            let ghost j0 = token_end(s@, i as int);
            let mut j: usize = i;
            let mut w: Vec<char> = Vec::new();
            while j < n && !is_whitespace(s[j])
                invariant
                    i <= j <= n,
                    n == s@.len(),
                    token_end(s@, j as int) == j0,
                    w@ == s@.subrange(i as int, j as int),
                decreases n - j,
            {
                w.push(s[j]);
                assert(w@ =~= s@.subrange(i as int, j + 1));
                j = j + 1;
            }
            assert(j as int == j0);
            let ghost before = toks.deep_view();
            assert(w.deep_view() =~= w@);
            let ghost wv = w.deep_view();
            toks.push(w);
            assert(toks.deep_view() =~= before.push(wv));
            assert(words_from(s@, i as int) == seq![s@.subrange(i as int, j as int)] + words_from(
                s@,
                j as int,
            ));
            assert(before + words_from(s@, i as int) =~= toks.deep_view() + words_from(
                s@,
                j as int,
            ));
            i = j;
        }
    }
    assert(toks.deep_view() + words_from(s@, n as int) =~= toks.deep_view());
    toks
}

/// `ws` joined with single spaces, as `[&str]::join(" ")` renders them.
pub open spec fn join_spaced(ws: Seq<Seq<char>>) -> Seq<char>
    decreases ws.len(),
{
    if ws.len() == 0 {
        seq![]
    } else if ws.len() == 1 {
        ws[0]
    } else {
        join_spaced(ws.drop_last()) + seq![' '] + ws.last()
    }
}

/// `ws[..n]` joined with single spaces.
pub fn join_words(ws: &Vec<Vec<char>>, n: usize) -> (r: Vec<char>)
    requires
        n <= ws@.len(),
    ensures
        r@ == join_spaced(ws.deep_view().take(n as int)),
{
    let mut r: Vec<char> = Vec::new();
    let mut i: usize = 0;
    while i < n
        invariant
            0 <= i <= n <= ws@.len(),
            r@ == join_spaced(ws.deep_view().take(i as int)),
        decreases n - i,
    {
        let ghost before = r@;
        if i > 0 {
            r.push(' ');
        }
        let w = &ws[i];
        let m = w.len();
        let mut k: usize = 0;
        let ghost mid = r@;
        while k < m
            invariant
                0 <= k <= m,
                m == w@.len(),
                r@ == mid + w@.subrange(0, k as int),
            decreases m - k,
        {
            r.push(w[k]);
            assert(r@ =~= mid + w@.subrange(0, k + 1));
            k = k + 1;
        }
        proof {
            let dv = ws.deep_view();
            assert(w.deep_view() =~= w@);
            assert(dv[i as int] == w@);
            assert(w@.subrange(0, m as int) =~= w@);
            assert(dv.take(i + 1).drop_last() =~= dv.take(i as int));
            if i > 0 {
                assert(r@ =~= before + seq![' '] + w@);
            } else {
                assert(dv.take(1) =~= seq![w@]);
                assert(r@ =~= w@);
            }
        }
        i = i + 1;
    }
    r
}

// ---- padded numbers ------------------------------------------------------------

/// `d` left-padded with `0` to at least `width` characters.
pub open spec fn zero_pad(d: Seq<char>, width: nat) -> Seq<char> {
    if d.len() < width {
        Seq::new((width - d.len()) as nat, |i: int| '0') + d
    } else {
        d
    }
}

/// Appends the decimal digits of `n`, left-padded with `0` to `width`.
pub fn push_padded(s: &mut String, n: u64, width: usize)
    ensures
        final(s)@ == old(s)@ + zero_pad(dec(n as nat), width as nat),
{
    let d = dec_chars(n);
    let ghost start = s@;
    if d.len() < width {
        let z = width - d.len();
        let mut i: usize = 0;
        while i < z
            invariant
                0 <= i <= z,
                s@ == start + Seq::new(i as nat, |k: int| '0'),
            decreases z - i,
        {
            push_char(s, '0');
            assert(s@ =~= start + Seq::new((i + 1) as nat, |k: int| '0'));
            i = i + 1;
        }
    }
    let ghost mid = s@;
    push_chars(s, &d);
    assert(s@ =~= start + zero_pad(dec(n as nat), width as nat));
}

/// First index of `c` in `s`, or `s.len()` when it does not occur.
pub open spec fn index_of(s: Seq<char>, c: char) -> int
    decreases s.len(),
{
    if s.len() == 0 {
        0
    } else if s[0] == c {
        0
    } else {
        1 + index_of(s.drop_first(), c)
    }
}

pub proof fn lemma_index_of(s: Seq<char>, c: char)
    ensures
        0 <= index_of(s, c) <= s.len(),
        forall|k: int| 0 <= k < index_of(s, c) ==> s[k] != c,
        index_of(s, c) < s.len() ==> s[index_of(s, c)] == c,
    decreases s.len(),
{
    if s.len() > 0 && s[0] != c {
        lemma_index_of(s.drop_first(), c);
        assert forall|k: int| 0 <= k < index_of(s, c) implies s[k] != c by {
            if k > 0 {
                assert(s[k] == s.drop_first()[k - 1]);
            }
        }
    }
}

/// Index of the first `c` in `s`, or its length.
pub fn find_char(s: &[char], c: char) -> (i: usize)
    ensures
        i == index_of(s@, c),
{
    let n = s.len();
    let mut i: usize = 0;
    while i < n && s[i] != c
        invariant
            0 <= i <= n,
            n == s@.len(),
            forall|k: int| 0 <= k < i ==> s@[k] != c,
        decreases n - i,
    {
        i = i + 1;
    }
    proof {
        lemma_index_of(s@, c);
        let q = index_of(s@, c);
        if i < n && q > i {
            assert(s@[i as int] == c);
        }
        if q < i {
            assert(s@[q] == c);
        }
    }
    i
}

pub proof fn lemma_dec_digits(n: nat)
    ensures
        all_digits(dec(n)),
        digits_value(dec(n)) == n,
        dec(n).len() >= 1,
    decreases n,
{
    let c = digit_char(n);
    assert(c as u32 == (n % 10) + 48);
    assert(digit_value(c) == n % 10);
    if n >= 10 {
        lemma_dec_digits(n / 10);
        let t = dec(n / 10);
        assert(dec(n).drop_last() =~= t);
        assert(dec(n).last() == digit_char(n % 10));
        assert(digit_char(n % 10) as u32 == (n % 10) % 10 + 48);
        assert(digit_value(dec(n).last()) == n % 10);
        assert(digits_value(dec(n)) == digits_value(t) * 10 + n % 10);
        assert((n / 10) * 10 + n % 10 == n);
        assert forall|i: int| 0 <= i < dec(n).len() implies is_digit(#[trigger] dec(n)[i]) by {
            if i < t.len() {
                assert(dec(n)[i] == t[i]);
            }
        }
    } else {
        assert(dec(n).drop_last() =~= Seq::<char>::empty());
        assert(dec(n).last() == c);
        assert(digits_value(dec(n).drop_last()) == 0);
    }
}


/// Leading zeros do not change the value of a digit string.
pub proof fn lemma_zero_pad_value(n: nat, w: nat)
    ensures
        all_digits(zero_pad(dec(n), w)),
        digits_value(zero_pad(dec(n), w)) == n,
        zero_pad(dec(n), w).len() >= 1,
{
    lemma_dec_digits(n);
    let d = dec(n);
    if d.len() < w {
        let z = Seq::new((w - d.len()) as nat, |i: int| '0');
        lemma_zeros_then(z, d);
        assert forall|i: int| 0 <= i < (z + d).len() implies is_digit(#[trigger] (z + d)[i]) by {
            if i < z.len() {
                assert((z + d)[i] == '0');
            } else {
                assert((z + d)[i] == d[i - z.len()]);
            }
        }
    }
}

proof fn lemma_zeros_then(z: Seq<char>, d: Seq<char>)
    requires
        forall|i: int| 0 <= i < z.len() ==> z[i] == '0',
    ensures
        digits_value(z + d) == digits_value(d),
    decreases d.len(),
{
    if d.len() == 0 {
        assert(z + d =~= z);
        lemma_zeros_value(z);
    } else {
        lemma_zeros_then(z, d.drop_last());
        assert((z + d).drop_last() =~= z + d.drop_last());
        assert((z + d).last() == d.last());
    }
}

proof fn lemma_zeros_value(z: Seq<char>)
    requires
        forall|i: int| 0 <= i < z.len() ==> z[i] == '0',
    ensures
        digits_value(z) == 0,
    decreases z.len(),
{
    if z.len() > 0 {
        let t = z.drop_last();
        assert forall|i: int| 0 <= i < t.len() implies t[i] == '0' by {
            assert(t[i] == z[i]);
        }
        lemma_zeros_value(t);
        assert(z.last() == z[z.len() - 1]);
    }
}

/// Whether two strings hold the same characters.
pub fn str_equal(a: &str, b: &str) -> (r: bool)
    ensures
        r == (a@ == b@),
{
    let x = chars_of(a);
    let y = chars_of(b);
    if x.len() != y.len() {
        return false;
    }
    let mut i: usize = 0;
    while i < x.len()
        invariant
            0 <= i <= x@.len(),
            x@.len() == y@.len(),
            x@ == a@,
            y@ == b@,
            forall|k: int| 0 <= k < i ==> x@[k] == y@[k],
        decreases x@.len() - i,
    {
        if x[i] != y[i] {
            assert(x@[i as int] != y@[i as int]);
            return false;
        }
        i = i + 1;
    }
    assert(x@ =~= y@);
    true
}

} // verus!
