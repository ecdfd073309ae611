//! Which files of a folder are taken as DICOM: by extension, or by the `DICM`
//! marker that follows the 128-byte preamble.
use vstd::prelude::*;
use crate::batch::last_dot;
use crate::text::chars_of;

verus! {

/// The extension of a file name: what follows its last dot, where that dot
/// is not the name's first character.
pub open spec fn extension_of(name: Seq<char>) -> Option<Seq<char>> {
    let k = last_dot(name, name.len() as int);
    if k == 0 { None } else { Some(name.subrange(k + 1, name.len() as int)) }
}

pub open spec fn ascii_lower(c: char) -> char {
    if 'A' <= c && c <= 'Z' { ((c as u32) + 32) as char } else { c }
}

pub open spec fn same_ignoring_case(a: Seq<char>, b: Seq<char>) -> bool {
    a.len() == b.len() && forall|i: int| 0 <= i < a.len() ==> ascii_lower(#[trigger] a[i]) == ascii_lower(b[i])
}

/// A name with the extension `dcm`, `dicom` or `ima`, in any ASCII case.
pub open spec fn is_dicom_name(name: Seq<char>) -> bool {
    match extension_of(name) {
        Some(e) => same_ignoring_case(e, "dcm"@) || same_ignoring_case(e, "dicom"@) || same_ignoring_case(e, "ima"@),
        None => false,
    }
}

/// A name with the extension `dcm`, in any ASCII case.
pub open spec fn is_dcm_name(name: Seq<char>) -> bool {
    match extension_of(name) {
        Some(e) => same_ignoring_case(e, "dcm"@),
        None => false,
    }
}

/// A file start that holds `DICM` right after the 128-byte preamble.
pub open spec fn has_marker(h: Seq<u8>) -> bool {
    h.len() >= 132 && h[128] == 68 && h[129] == 73 && h[130] == 67 && h[131] == 77
}

fn lower(c: char) -> (r: char)
    ensures
        r == ascii_lower(c),
{
    if 'A' <= c && c <= 'Z' {
        let u = (c as u32) + 32;
        proof { assert(0x61 <= u <= 0x7a); }
        char_from_ascii(u)
    } else {
        c
    }
}

/// Relies on `char::from_u32`: an ASCII code point is a character with that code.
#[verifier::external_body]
fn char_from_ascii(u: u32) -> (r: char)
    requires
        u < 128,
    ensures
        r == u as char,
{
    char::from_u32(u).unwrap_or('\0')
}

fn same_ignoring_case_exec(a: &Vec<char>, from: usize, b: &str) -> (r: bool)
    requires
        from <= a@.len(),
    ensures
        r == same_ignoring_case(a@.subrange(from as int, a@.len() as int), b@),
{
    let bc = chars_of(b);
    let ghost e = a@.subrange(from as int, a@.len() as int);
    let alen = a.len();
    if alen - from != bc.len() {
        return false;
    }
    let mut i: usize = 0;
    while i < bc.len()
        invariant
            alen == a@.len(),
            bc@ == b@,
            from + bc@.len() == a@.len(),
            e == a@.subrange(from as int, a@.len() as int),
            i <= bc@.len(),
            forall|k: int| 0 <= k < i ==> ascii_lower(#[trigger] e[k]) == ascii_lower(bc@[k]),
        decreases bc@.len() - i,
    {
        if lower(a[from + i]) != lower(bc[i]) {
            assert(e[i as int] == a@[from + i]);
            return false;
        }
        assert(e[i as int] == a@[from + i]);
        i = i + 1;
    }
    true
}

/// The index of the dot that starts the extension, or 0 where there is none.
fn extension_dot(c: &Vec<char>) -> (k: usize)
    ensures
        k == last_dot(c@, c@.len() as int),
        k == 0 || k < c@.len(),
{
    let mut end: usize = c.len();
    while end > 1 && c[end - 1] != '.'
        invariant
            end <= c@.len(),
            last_dot(c@, c@.len() as int) == last_dot(c@, end as int),
        decreases end,
    {
        end = end - 1;
    }
    if end <= 1 { 0 } else { end - 1 }
}

/// Whether a file name carries one of the DICOM extensions.
pub fn has_dicom_extension(name: &str) -> (r: bool)
    ensures
        r == is_dicom_name(name@),
{
    let c = chars_of(name);
    let n = c.len();
    let k = extension_dot(&c);
    if k == 0 || k >= n {
        return false;
    }
    same_ignoring_case_exec(&c, k + 1, "dcm") || same_ignoring_case_exec(&c, k + 1, "dicom")
        || same_ignoring_case_exec(&c, k + 1, "ima")
}

/// Whether a file name carries the `dcm` extension.
pub fn has_dcm_extension(name: &str) -> (r: bool)
    ensures
        r == is_dcm_name(name@),
{
    let c = chars_of(name);
    let n = c.len();
    let k = extension_dot(&c);
    if k == 0 || k >= n {
        return false;
    }
    same_ignoring_case_exec(&c, k + 1, "dcm")
}

/// Whether the first bytes of a file carry the `DICM` marker.
pub fn has_dicm_marker(header: &Vec<u8>) -> (r: bool)
    ensures
        r == has_marker(header@),
{
    header.len() >= 132 && header[128] == 68 && header[129] == 73 && header[130] == 67 && header[131] == 77
}

/// Whether a file is taken as DICOM: by its name, or else by its first 132
/// bytes (`None` where they could not be read).
pub fn looks_like_dicom(name: &str, header: &Option<Vec<u8>>) -> (r: bool)
    ensures
        r == (is_dicom_name(name@) || (header matches Some(h) && has_marker(h@))),
{
    if has_dicom_extension(name) {
        return true;
    }
    match header {
        Some(h) => has_dicm_marker(h),
        None => false,
    }
}

} // verus!
