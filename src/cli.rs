//! The command surface of the batch tool: its commands, and the parsing of a
//! `Group,Element` tag argument.
use vstd::prelude::*;
use crate::text::{chars_of, push_all, string_of};

verus! {

/// The parsed command line.
#[derive(Debug, Clone)]
pub struct Cli {
    pub command: Commands,
}

#[derive(Debug, Clone)]
pub enum Commands {
    /// Convert DICOM files to PNG.
    Convert { input: String, output: String, skip_excel: bool, flatten_output: bool },
    /// Anonymize DICOM files.
    Anonymize { input: String, output: String, tags: Vec<(u16, u16)>, replacement: String },
}

/// Why a hexadecimal number did not parse.
#[derive(Debug, Clone, Copy, PartialEq, Eq, Structural)]
pub enum HexError {
    Empty,
    InvalidDigit,
    Overflow,
}

pub open spec fn hex_digit(c: char) -> Option<nat> {
    if '0' <= c && c <= '9' {
        Some((c as u32 - '0' as u32) as nat)
    } else if 'a' <= c && c <= 'f' {
        Some((c as u32 - 'a' as u32 + 10) as nat)
    } else if 'A' <= c && c <= 'F' {
        Some((c as u32 - 'A' as u32 + 10) as nat)
    } else {
        None
    }
}

/// Reads hexadecimal digits left to right onto `acc`, stopping at the first
/// character that is no digit or the first digit that takes the value past `u16`.
pub open spec fn scan_hex(d: Seq<char>, acc: nat) -> Result<nat, HexError>
    decreases d.len(),
{
    if d.len() == 0 {
        Ok(acc)
    } else {
        match hex_digit(d[0]) {
            None => Err(HexError::InvalidDigit),
            Some(v) => if acc * 16 + v > 0xffff {
                Err(HexError::Overflow)
            } else {
                scan_hex(d.subrange(1, d.len() as int), acc * 16 + v)
            },
        }
    }
}

/// A `u16` in hexadecimal, as `u16::from_str_radix(s, 16)` reads it: an
/// optional `+`, then one or more digits.
pub open spec fn hex_u16(s: Seq<char>) -> Result<nat, HexError> {
    if s.len() == 0 {
        Err(HexError::Empty)
    } else if s.len() == 1 && (s[0] == '+' || s[0] == '-') {
        Err(HexError::InvalidDigit)
    } else if s[0] == '+' {
        scan_hex(s.subrange(1, s.len() as int), 0)
    } else {
        scan_hex(s, 0)
    }
}

fn digit_of(c: char) -> (r: Option<u32>)
    ensures
        match hex_digit(c) { Some(v) => r == Some(v as u32), None => r is None },
{
    if '0' <= c && c <= '9' {
        Some((c as u32) - ('0' as u32))
    } else if 'a' <= c && c <= 'f' {
        Some((c as u32) - ('a' as u32) + 10)
    } else if 'A' <= c && c <= 'F' {
        Some((c as u32) - ('A' as u32) + 10)
    } else {
        None
    }
}

fn parse_hex_chars(s: &Vec<char>) -> (r: Result<u16, HexError>)
    ensures
        match hex_u16(s@) { Ok(v) => r == Ok::<u16, HexError>(v as u16), Err(e) => r == Err::<u16, HexError>(e) },
{
    if s.len() == 0 {
        return Err(HexError::Empty);
    }
    if s.len() == 1 && (s[0] == '+' || s[0] == '-') {
        return Err(HexError::InvalidDigit);
    }
    let start: usize = if s[0] == '+' { 1 } else { 0 };
    let ghost digits = s@.subrange(start as int, s@.len() as int);
    assert(start == 0 ==> digits =~= s@);
    assert(hex_u16(s@) == scan_hex(digits, 0));
    let mut acc: u32 = 0;
    let mut i: usize = start;
    assert(s@.subrange(i as int, s@.len() as int) == digits);
    while i < s.len()
        invariant
            start <= i <= s@.len(),
            acc <= 0xffff,
            hex_u16(s@) == scan_hex(digits, 0),
            scan_hex(digits, 0) == scan_hex(s@.subrange(i as int, s@.len() as int), acc as nat),
        decreases s@.len() - i,
    {
        let ghost rest = s@.subrange(i as int, s@.len() as int);
        assert(rest[0] == s@[i as int]);
        assert(rest.subrange(1, rest.len() as int) =~= s@.subrange(i + 1, s@.len() as int));
        assert(scan_hex(rest, acc as nat) == match hex_digit(rest[0]) {
            None => Err(HexError::InvalidDigit),
            Some(v) => if (acc as nat) * 16 + v > 0xffff {
                Err(HexError::Overflow)
            } else {
                scan_hex(rest.subrange(1, rest.len() as int), (acc as nat) * 16 + v)
            },
        });
        match digit_of(s[i]) {
            None => return Err(HexError::InvalidDigit),
            Some(v) => {
                let n = acc * 16 + v;
                if n > 0xffff {
                    return Err(HexError::Overflow);
                }
                acc = n;
            },
        }
        i = i + 1;
    }
    assert(s@.subrange(i as int, s@.len() as int) =~= Seq::<char>::empty());
    assert(scan_hex(Seq::<char>::empty(), acc as nat) == Ok::<nat, HexError>(acc as nat));
    Ok(acc as u16)
}

pub open spec fn hex_error_text(e: HexError) -> Seq<char> {
    match e {
        HexError::Empty => "cannot parse integer from empty string"@,
        HexError::InvalidDigit => "invalid digit found in string"@,
        HexError::Overflow => "number too large to fit in target type"@,
    }
}

fn hex_error_message(e: HexError) -> (r: Vec<char>)
    ensures
        r@ == hex_error_text(e),
{
    match e {
        HexError::Empty => chars_of("cannot parse integer from empty string"),
        HexError::InvalidDigit => chars_of("invalid digit found in string"),
        HexError::Overflow => chars_of("number too large to fit in target type"),
    }
}

pub open spec fn comma_count(s: Seq<char>) -> nat
    decreases s.len(),
{
    if s.len() == 0 { 0 } else { comma_count(s.drop_last()) + if s.last() == ',' { 1nat } else { 0 } }
}

/// The part of `s` before its first comma.
pub open spec fn before_comma(s: Seq<char>) -> Seq<char>
    decreases s.len(),
{
    if s.len() == 0 {
        s
    } else if s[0] == ',' {
        Seq::empty()
    } else {
        seq![s[0]] + before_comma(s.subrange(1, s.len() as int))
    }
}

/// The outcome of parsing a tag argument `Group,Element` (both hexadecimal).
pub open spec fn tag_argument(s: Seq<char>) -> Result<(nat, nat), Seq<char>> {
    if comma_count(s) != 1 {
        Err("Invalid tag format: "@ + s + ". Expected 'Group,Element' (hex)"@)
    } else {
        let g = before_comma(s);
        let e = s.subrange(g.len() + 1int, s.len() as int);
        match hex_u16(g) {
            Err(x) => Err("Invalid group: "@ + hex_error_text(x)),
            Ok(gv) => match hex_u16(e) {
                Err(x) => Err("Invalid element: "@ + hex_error_text(x)),
                Ok(ev) => Ok((gv, ev)),
            },
        }
    }
}

proof fn lemma_before_comma(s: Seq<char>, k: int)
    requires
        0 <= k <= s.len(),
        forall|j: int| 0 <= j < k ==> s[j] != ',',
        k == s.len() || s[k] == ',',
    ensures
        before_comma(s) == s.subrange(0, k),
    decreases s.len(),
{
    if s.len() > 0 && k > 0 {
        let t = s.subrange(1, s.len() as int);
        assert forall|j: int| 0 <= j < k - 1 implies t[j] != ',' by {
            assert(t[j] == s[j + 1]);
        }
        lemma_before_comma(t, k - 1);
        assert(seq![s[0]] + t.subrange(0, k - 1) =~= s.subrange(0, k));
    } else if s.len() > 0 {
        assert(s.subrange(0, 0) =~= Seq::<char>::empty());
    } else {
        assert(s.subrange(0, 0) =~= s);
    }
}

fn tag_format_error(c: &Vec<char>) -> (r: String)
    ensures
        r@ == "Invalid tag format: "@ + c@ + ". Expected 'Group,Element' (hex)"@,
{
    let mut m = chars_of("Invalid tag format: ");
    push_all(&mut m, c);
    push_all(&mut m, &chars_of(". Expected 'Group,Element' (hex)"));
    string_of(&m)
}

/// Parses a tag argument such as `0010,0010`.
pub fn parse_tag(s: &str) -> (r: Result<(u16, u16), String>)
    ensures
        match tag_argument(s@) {
            Ok((g, e)) => r == Ok::<(u16, u16), String>((g as u16, e as u16)),
            Err(m) => r matches Err(x) && x@ == m,
        },
{
    let c = chars_of(s);
    let mut commas: usize = 0;
    let mut first: usize = c.len();
    let mut i: usize = 0;
    while i < c.len()
        invariant
            i <= c@.len(),
            commas == comma_count(c@.subrange(0, i as int)),
            commas <= i,
            commas == 0 ==> first == c@.len() && forall|j: int| 0 <= j < i ==> c@[j] != ',',
            commas > 0 ==> first < i && c@[first as int] == ',' && forall|j: int| 0 <= j < first ==> c@[j] != ',',
        decreases c@.len() - i,
    {
        assert(c@.subrange(0, i + 1).drop_last() =~= c@.subrange(0, i as int));
        if c[i] == ',' {
            if commas == 0 {
                first = i;
            }
            commas = commas + 1;
        }
        i = i + 1;
    }
    assert(c@.subrange(0, c@.len() as int) =~= c@);
    if commas != 1 {
        return Err(tag_format_error(&c));
    }
    proof { lemma_before_comma(c@, first as int); }
    let mut g: Vec<char> = Vec::new();
    let mut j: usize = 0;
    while j < first
        invariant
            first < c@.len(),
            j <= first,
            g@ == c@.subrange(0, j as int),
        decreases first - j,
    {
        g.push(c[j]);
        j = j + 1;
        assert(g@ =~= c@.subrange(0, j as int));
    }
    let mut e: Vec<char> = Vec::new();
    let mut k: usize = first + 1;
    while k < c.len()
        invariant
            first < k <= c@.len(),
            e@ == c@.subrange(first + 1, k as int),
        decreases c@.len() - k,
    {
        e.push(c[k]);
        k = k + 1;
        assert(e@ =~= c@.subrange(first + 1, k as int));
    }
    match parse_hex_chars(&g) {
        Err(x) => {
            let mut m = chars_of("Invalid group: ");
            push_all(&mut m, &hex_error_message(x));
            Err(string_of(&m))
        },
        Ok(gv) => match parse_hex_chars(&e) {
            Err(x) => {
                let mut m = chars_of("Invalid element: ");
                push_all(&mut m, &hex_error_message(x));
                Err(string_of(&m))
            },
            Ok(ev) => Ok((gv, ev)),
        },
    }
}

} // verus!
