//! De-identification of one dataset, decided as a list of element edits: every
//! requested tag present in the dataset takes the replacement text under its
//! own value representation, and the two identity fields are overwritten.
use vstd::prelude::*;
use crate::text::{chars_of, decimal_of, lemma_decimal_injective, push_decimal, string_of};

verus! {

/// A requested tag, and the value representation under which the dataset
/// holds it (`None` where the dataset does not hold it).
#[derive(Debug, Clone)]
pub struct TagLookup {
    pub group: u16,
    pub element: u16,
    pub vr: Option<String>,
}

/// Puts `value` under tag `(group, element)` with value representation `vr`,
/// replacing what was there.
#[derive(Debug, Clone)]
pub struct ElementEdit {
    pub group: u16,
    pub element: u16,
    pub vr: String,
    pub value: String,
}

pub open spec fn edit_view(e: ElementEdit) -> (u16, u16, Seq<char>, Seq<char>) {
    (e.group, e.element, e.vr@, e.value@)
}

pub open spec fn edits_view(s: Seq<ElementEdit>) -> Seq<(u16, u16, Seq<char>, Seq<char>)> {
    s.map_values(|e: ElementEdit| edit_view(e))
}

/// The replacements for the requested tags that the dataset holds, in request order.
pub open spec fn replacement_edits(l: Seq<TagLookup>, replacement: Seq<char>) -> Seq<(u16, u16, Seq<char>, Seq<char>)>
    decreases l.len(),
{
    if l.len() == 0 {
        seq![]
    } else {
        let rest = replacement_edits(l.drop_last(), replacement);
        match l.last().vr {
            Some(vr) => rest.push((l.last().group, l.last().element, vr@, replacement)),
            None => rest,
        }
    }
}

/// The SOP class that every anonymized file declares (CT Image Storage).
pub open spec fn class_uid() -> Seq<char> {
    "1.2.840.10008.5.1.4.1.1.2"@
}

/// An instance UID built from a 128-bit number under the `2.25.` root.
pub open spec fn uid_text(n: nat) -> Seq<char> {
    "2.25."@ + decimal_of(n)
}

/// The instance UID written for the random number `n`: `2.25.<n>`, or
/// `2.25.<n + 1>` (wrapping to zero) in the one case where that would repeat the old UID.
pub open spec fn chosen_uid(n: u128, old_uid: Option<Seq<char>>) -> Seq<char> {
    if old_uid == Some(uid_text(n as nat)) {
        uid_text(next_number(n) as nat)
    } else {
        uid_text(n as nat)
    }
}

pub open spec fn opt_view(o: Option<String>) -> Option<Seq<char>> {
    match o {
        Some(s) => Some(s@),
        None => None,
    }
}

/// The successor of `n`, wrapping to zero after the largest value.
pub open spec fn next_number(n: u128) -> u128 {
    if n == u128::MAX { 0 } else { (n + 1) as u128 }
}

/// The full edit list of an anonymization.
pub open spec fn anonymization_spec(
    l: Seq<TagLookup>,
    replacement: Seq<char>,
    n: u128,
    old_uid: Option<Seq<char>>,
) -> Seq<(u16, u16, Seq<char>, Seq<char>)> {
    replacement_edits(l, replacement)
        .push((0x0008u16, 0x0016u16, "UI"@, class_uid()))
        .push((0x0008u16, 0x0018u16, "UI"@, chosen_uid(n, old_uid)))
}

/// Distinct random numbers give distinct instance UIDs.
pub proof fn lemma_uid_distinct(a: u128, b: u128)
    requires
        a != b,
    ensures
        uid_text(a as nat) != uid_text(b as nat),
{
    lemma_decimal_injective(a as nat, b as nat);
    reveal_strlit("2.25.");
    assert("2.25."@.len() == 5);
    if uid_text(a as nat) == uid_text(b as nat) {
        assert(uid_text(a as nat).subrange(5, uid_text(a as nat).len() as int) =~= decimal_of(a as nat));
        assert(uid_text(b as nat).subrange(5, uid_text(b as nat).len() as int) =~= decimal_of(b as nat));
    }
}

/// The regenerated instance UID never equals the one the dataset held before.
pub proof fn lemma_uid_changes(n: u128, old_uid: Option<Seq<char>>)
    ensures
        old_uid != Some(chosen_uid(n, old_uid)),
{
    if old_uid == Some(uid_text(n as nat)) {
        lemma_uid_distinct(n, next_number(n));
    }
}

proof fn lemma_edits_push(s: Seq<ElementEdit>, e: ElementEdit)
    ensures
        edits_view(s.push(e)) == edits_view(s).push(edit_view(e)),
{
    assert(edits_view(s.push(e)) =~= edits_view(s).push(edit_view(e)));
}

fn uid_string(n: u128) -> (r: String)
    ensures
        r@ == uid_text(n as nat),
{
    let mut c = chars_of("2.25.");
    push_decimal(n, &mut c);
    string_of(&c)
}

fn same_string(a: &String, b: &String) -> (r: bool)
    ensures
        r == (a@ == b@),
{
    *a == *b
}

/// Decides the edits that anonymize a dataset, given the lookups of the
/// requested tags, the replacement text, a random 128-bit number `n` and the
/// dataset's current instance UID.
pub fn anonymization_edits(
    lookups: &Vec<TagLookup>,
    replacement: &String,
    n: u128,
    old_uid: &Option<String>,
) -> (r: Vec<ElementEdit>)
    ensures
        edits_view(r@) == anonymization_spec(lookups@, replacement@, n, opt_view(*old_uid)),
        old_uid matches Some(u) ==> r@.last().value@ != u@,
{
    let ghost old_view = opt_view(*old_uid);
    let mut r: Vec<ElementEdit> = Vec::new();
    let mut i: usize = 0;
    while i < lookups.len()
        invariant
            i <= lookups@.len(),
            edits_view(r@) == replacement_edits(lookups@.subrange(0, i as int), replacement@),
        decreases lookups@.len() - i,
    {
        let l = &lookups[i];
        assert(lookups@.subrange(0, i + 1).drop_last() =~= lookups@.subrange(0, i as int));
        match &l.vr {
            Some(vr) => {
                let e = ElementEdit { group: l.group, element: l.element, vr: vr.clone(), value: replacement.clone() };
                proof { lemma_edits_push(r@, e); }
                r.push(e);
            },
            None => {},
        }
        i = i + 1;
    }
    assert(lookups@.subrange(0, lookups@.len() as int) =~= lookups@);
    let class = ElementEdit {
        group: 0x0008,
        element: 0x0016,
        vr: string_of(&chars_of("UI")),
        value: string_of(&chars_of("1.2.840.10008.5.1.4.1.1.2")),
    };
    proof { lemma_edits_push(r@, class); }
    r.push(class);
    let first = uid_string(n);
    let uid = match old_uid {
        Some(u) => if same_string(u, &first) { uid_string(if n == u128::MAX { 0 } else { n + 1 }) } else { first },
        None => first,
    };
    assert(uid@ == chosen_uid(n, old_view));
    let instance = ElementEdit { group: 0x0008, element: 0x0018, vr: string_of(&chars_of("UI")), value: uid };
    proof {
        lemma_edits_push(r@, instance);
        lemma_uid_changes(n, old_view);
    }
    r.push(instance);
    r
}

/// Relies on `uuid::Uuid::new_v4` and `Uuid::as_u128`: a random 128-bit
/// number. Nothing is promised of its value.
#[verifier::external_body]
fn random_u128() -> u128 {
    uuid::Uuid::new_v4().as_u128()
}

/// Decides the edits of one anonymization with a freshly drawn random number:
/// the result is the edit list for some number, and the new instance UID
/// differs from the old one whatever number was drawn.
pub fn plan_anonymization(lookups: &Vec<TagLookup>, replacement: &String, old_uid: &Option<String>) -> (r: Vec<ElementEdit>)
    ensures
        exists|n: u128| edits_view(r@) == #[trigger] anonymization_spec(lookups@, replacement@, n, opt_view(*old_uid)),
        old_uid matches Some(u) ==> r@.last().value@ != u@,
{
    let n = random_u128();
    anonymization_edits(lookups, replacement, n, old_uid)
}

} // verus!
