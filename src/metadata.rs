//! Cleaning of the text attributes that go into a file's audit record:
//! trimming, ISO-8601 study dates and a readable pixel-spacing separator.
use vstd::prelude::*;
use crate::text::{chars_of, decimal_value, digit_value, string_of};

verus! {

/// Unicode White_Space, the characters that `char::is_whitespace` accepts.
pub open spec fn is_white(c: char) -> bool {
    ||| ('\t' <= c && c <= '\r')
    ||| c == ' '
    ||| c == '\u{85}'
    ||| c == '\u{A0}'
    ||| c == '\u{1680}'
    ||| ('\u{2000}' <= c && c <= '\u{200A}')
    ||| c == '\u{2028}'
    ||| c == '\u{2029}'
    ||| c == '\u{202F}'
    ||| c == '\u{205F}'
    ||| c == '\u{3000}'
}

fn white(c: char) -> (r: bool)
    ensures
        r == is_white(c),
{
    ('\t' <= c && c <= '\r') || c == ' ' || c == '\u{85}' || c == '\u{A0}' || c == '\u{1680}'
        || ('\u{2000}' <= c && c <= '\u{200A}') || c == '\u{2028}' || c == '\u{2029}' || c == '\u{202F}'
        || c == '\u{205F}' || c == '\u{3000}'
}

/// `s` without leading white space.
pub open spec fn trim_front(s: Seq<char>) -> Seq<char>
    decreases s.len(),
{
    if s.len() > 0 && is_white(s[0]) { trim_front(s.subrange(1, s.len() as int)) } else { s }
}

/// `s` without trailing white space.
pub open spec fn trim_back(s: Seq<char>) -> Seq<char>
    decreases s.len(),
{
    if s.len() > 0 && is_white(s.last()) { trim_back(s.drop_last()) } else { s }
}

/// `s` without white space at either end.
pub open spec fn trimmed(s: Seq<char>) -> Seq<char> {
    trim_back(trim_front(s))
}

/// The characters of `c` without white space at either end.
pub fn trim_text(c: &Vec<char>) -> (r: Vec<char>)
    ensures
        r@ == trimmed(c@),
{
    let mut i: usize = 0;
    assert(c@.subrange(0, c@.len() as int) =~= c@);
    while i < c.len() && white(c[i])
        invariant
            i <= c@.len(),
            trim_front(c@) == trim_front(c@.subrange(i as int, c@.len() as int)),
        decreases c@.len() - i,
    {
        assert(c@.subrange(i as int, c@.len() as int).subrange(1, c@.len() - i) =~= c@.subrange(i + 1, c@.len() as int));
        i = i + 1;
    }
    assert(trim_front(c@) == c@.subrange(i as int, c@.len() as int));
    let mut j: usize = c.len();
    while j > i && white(c[j - 1])
        invariant
            i <= j <= c@.len(),
            trimmed(c@) == trim_back(c@.subrange(i as int, j as int)),
        decreases j,
    {
        assert(c@.subrange(i as int, j as int).drop_last() =~= c@.subrange(i as int, j - 1));
        j = j - 1;
    }
    let mut r: Vec<char> = Vec::new();
    let mut k: usize = i;
    while k < j
        invariant
            i <= k <= j,
            j <= c@.len(),
            r@ == c@.subrange(i as int, k as int),
        decreases j - k,
    {
        r.push(c[k]);
        k = k + 1;
        assert(r@ =~= c@.subrange(i as int, k as int));
    }
    r
}

/// The text of an attribute as the audit record holds it: trimmed, and
/// absent where nothing but white space is left.
pub open spec fn cleaned(raw: Seq<char>) -> Option<Seq<char>> {
    if trimmed(raw).len() == 0 { None } else { Some(trimmed(raw)) }
}

/// Cleans the text of an attribute for the audit record.
pub fn dicom_text(raw: &str) -> (r: Option<String>)
    ensures
        match r { Some(s) => cleaned(raw@) == Some(s@), None => cleaned(raw@) is None },
{
    let t = trim_text(&chars_of(raw));
    if t.len() == 0 { None } else { Some(string_of(&t)) }
}

pub open spec fn is_digit(c: char) -> bool {
    '0' <= c && c <= '9'
}

/// The ASCII digits of `s`, in order.
pub open spec fn digits_of(s: Seq<char>) -> Seq<char>
    decreases s.len(),
{
    if s.len() == 0 {
        s
    } else if is_digit(s.last()) {
        digits_of(s.drop_last()).push(s.last())
    } else {
        digits_of(s.drop_last())
    }
}

pub open spec fn is_leap_year(y: int) -> bool {
    y % 4 == 0 && (y % 100 != 0 || y % 400 == 0)
}

pub open spec fn days_in_month(y: int, m: int) -> int {
    if m == 2 {
        if is_leap_year(y) { 29 } else { 28 }
    } else if m == 4 || m == 6 || m == 9 || m == 11 {
        30
    } else {
        31
    }
}

/// A day of the proleptic Gregorian calendar.
pub open spec fn is_calendar_date(y: int, m: int, d: int) -> bool {
    1 <= m <= 12 && 1 <= d <= days_in_month(y, m)
}

/// Relies on `chrono::NaiveDate::from_ymd_opt`: `Some` exactly for a day of
/// the proleptic Gregorian calendar, for years well inside its range.
#[verifier::external_body]
fn calendar_date_exists(y: i32, m: u32, d: u32) -> (r: bool)
    requires
        0 <= y <= 9999,
    ensures
        r == is_calendar_date(y as int, m as int, d as int),
{
    chrono::NaiveDate::from_ymd_opt(y, m, d).is_some()
}

/// The ISO-8601 form `YYYY-MM-DD` of a date written with its first eight
/// digits as `YYYYMMDD`; absent when there are fewer digits or no such day.
pub open spec fn iso_date(raw: Seq<char>) -> Option<Seq<char>> {
    let d = digits_of(raw);
    if d.len() < 8 {
        None
    } else if !is_calendar_date(
        decimal_value(d.subrange(0, 4)) as int,
        decimal_value(d.subrange(4, 6)) as int,
        decimal_value(d.subrange(6, 8)) as int,
    ) {
        None
    } else {
        Some(d.subrange(0, 4) + "-"@ + d.subrange(4, 6) + "-"@ + d.subrange(6, 8))
    }
}

fn digits(c: &Vec<char>) -> (r: Vec<char>)
    ensures
        r@ == digits_of(c@),
        forall|i: int| 0 <= i < r@.len() ==> is_digit(#[trigger] r@[i]),
{
    let mut r: Vec<char> = Vec::new();
    let mut i: usize = 0;
    while i < c.len()
        invariant
            i <= c@.len(),
            r@ == digits_of(c@.subrange(0, i as int)),
            forall|k: int| 0 <= k < r@.len() ==> is_digit(#[trigger] r@[k]),
        decreases c@.len() - i,
    {
        assert(c@.subrange(0, i + 1).drop_last() =~= c@.subrange(0, i as int));
        if '0' <= c[i] && c[i] <= '9' {
            r.push(c[i]);
        }
        i = i + 1;
    }
    assert(c@.subrange(0, c@.len() as int) =~= c@);
    r
}

proof fn lemma_value_bound(s: Seq<char>, k: nat)
    requires
        s.len() == k,
        forall|i: int| 0 <= i < s.len() ==> is_digit(#[trigger] s[i]),
    ensures
        decimal_value(s) < pow10(k),
    decreases k,
{
    if k > 0 {
        assert forall|i: int| 0 <= i < s.drop_last().len() implies is_digit(#[trigger] s.drop_last()[i]) by {
            assert(s.drop_last()[i] == s[i]);
        }
        lemma_value_bound(s.drop_last(), (k - 1) as nat);
        assert(is_digit(s[s.len() - 1]));
        assert(digit_value(s.last()) < 10);
        assert(decimal_value(s) == decimal_value(s.drop_last()) * 10 + digit_value(s.last()));
        assert(decimal_value(s.drop_last()) * 10 + digit_value(s.last()) < pow10(k)) by (nonlinear_arith)
            requires decimal_value(s.drop_last()) < pow10((k - 1) as nat), digit_value(s.last()) < 10,
                pow10(k) == pow10((k - 1) as nat) * 10;
    }
}

pub open spec fn pow10(k: nat) -> nat
    decreases k,
{
    if k == 0 { 1 } else { pow10((k - 1) as nat) * 10 }
}

fn value_of(c: &Vec<char>, from: usize, to: usize) -> (r: u32)
    requires
        from <= to <= c@.len(),
        to - from <= 4,
        forall|i: int| 0 <= i < c@.len() ==> is_digit(#[trigger] c@[i]),
    ensures
        r == decimal_value(c@.subrange(from as int, to as int)),
        r <= 9999,
{
    let mut v: u32 = 0;
    let mut i: usize = from;
    while i < to
        invariant
            from <= i <= to,
            to <= c@.len(),
            to - from <= 4,
            forall|k: int| 0 <= k < c@.len() ==> is_digit(#[trigger] c@[k]),
            v == decimal_value(c@.subrange(from as int, i as int)),
        decreases to - i,
    {
        let ghost sub = c@.subrange(from as int, i + 1);
        assert(sub.drop_last() =~= c@.subrange(from as int, i as int));
        assert forall|k: int| 0 <= k < sub.len() implies is_digit(#[trigger] sub[k]) by {
            assert(sub[k] == c@[from + k]);
        }
        proof {
            lemma_value_bound(sub, (i + 1 - from) as nat);
            assert(pow10((i + 1 - from) as nat) <= 10000) by {
                reveal_with_fuel(pow10, 5);
            }
        }
        let dv: u32 = (c[i] as u32) - ('0' as u32);
        v = v * 10 + dv;
        i = i + 1;
    }
    proof {
        let sub = c@.subrange(from as int, to as int);
        assert forall|k: int| 0 <= k < sub.len() implies is_digit(#[trigger] sub[k]) by {
            assert(sub[k] == c@[from + k]);
        }
        lemma_value_bound(sub, (to - from) as nat);
        assert(pow10((to - from) as nat) <= 10000) by {
            reveal_with_fuel(pow10, 5);
        }
    }
    v
}

/// Normalizes a study date to ISO-8601, as the audit record holds it.
pub fn dicom_date(raw: &str) -> (r: Option<String>)
    ensures
        match r { Some(s) => iso_date(raw@) == Some(s@), None => iso_date(raw@) is None },
{
    let d = digits(&chars_of(raw));
    if d.len() < 8 {
        return None;
    }
    let y = value_of(&d, 0, 4);
    let m = value_of(&d, 4, 6);
    let day = value_of(&d, 6, 8);
    if !calendar_date_exists(y as i32, m, day) {
        return None;
    }
    let mut out: Vec<char> = Vec::new();
    let mut i: usize = 0;
    while i < 8
        invariant
            d@.len() >= 8,
            i <= 8,
            out@ == (if i <= 4 { d@.subrange(0, i as int) } else if i <= 6 {
                d@.subrange(0, 4) + "-"@ + d@.subrange(4, i as int)
            } else {
                d@.subrange(0, 4) + "-"@ + d@.subrange(4, 6) + "-"@ + d@.subrange(6, i as int)
            }),
        decreases 8 - i,
    {
        if i == 4 || i == 6 {
            out.push('-');
        }
        out.push(d[i]);
        i = i + 1;
        proof { reveal_strlit("-"); }
        assert(out@ =~= (if i <= 4 { d@.subrange(0, i as int) } else if i <= 6 {
                d@.subrange(0, 4) + "-"@ + d@.subrange(4, i as int)
            } else {
                d@.subrange(0, 4) + "-"@ + d@.subrange(4, 6) + "-"@ + d@.subrange(6, i as int)
            }));
    }
    Some(string_of(&out))
}

/// `s` with every backslash replaced by `", "`.
pub open spec fn spaced(s: Seq<char>) -> Seq<char>
    decreases s.len(),
{
    if s.len() == 0 {
        s
    } else if s.last() == '\\' {
        spaced(s.drop_last()) + ", "@
    } else {
        spaced(s.drop_last()).push(s.last())
    }
}

/// The pixel spacing as the audit record shows it: the cleaned text with its
/// backslash delimiters written as `", "`.
pub fn pixel_spacing(raw: &str) -> (r: Option<String>)
    ensures
        match cleaned(raw@) {
            Some(t) => r matches Some(s) && s@ == spaced(t),
            None => r is None,
        },
{
    let t = trim_text(&chars_of(raw));
    if t.len() == 0 {
        return None;
    }
    let mut out: Vec<char> = Vec::new();
    let mut i: usize = 0;
    while i < t.len()
        invariant
            i <= t@.len(),
            out@ == spaced(t@.subrange(0, i as int)),
        decreases t@.len() - i,
    {
        assert(t@.subrange(0, i + 1).drop_last() =~= t@.subrange(0, i as int));
        if t[i] == '\\' {
            out.push(',');
            out.push(' ');
            proof { reveal_strlit(", "); }
            assert(out@ =~= spaced(t@.subrange(0, i as int)) + ", "@);
        } else {
            out.push(t[i]);
        }
        i = i + 1;
    }
    assert(t@.subrange(0, t@.len() as int) =~= t@);
    Some(string_of(&out))
}

} // verus!
