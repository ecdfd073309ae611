//! Tag statistics over a folder: what each requested tag holds in each file,
//! value-frequency histograms that workers fill on their own and merge
//! count-wise, and per-value details with example files.
use vstd::prelude::*;
use crate::models::DicomTag;
use crate::text::{chars_of, string_of};

verus! {

/// What decoding the pixel data of a file gave.
#[derive(Debug, Clone, Copy, PartialEq, Eq, Structural)]
pub enum PixelDataStatus {
    /// The file has no pixel data element.
    Missing,
    /// The pixel data decodes to an image.
    Binary,
    /// The pixel data is there but does not decode.
    Error,
}

pub open spec fn status_text(s: PixelDataStatus) -> Seq<char> {
    match s {
        PixelDataStatus::Missing => "Missing"@,
        PixelDataStatus::Binary => "Binary"@,
        PixelDataStatus::Error => "Error"@,
    }
}

impl PixelDataStatus {
    /// The status as the audit record and the statistics show it.
    pub fn text(&self) -> (r: String)
        ensures
            r@ == status_text(*self),
    {
        match self {
            PixelDataStatus::Missing => string_of(&chars_of("Missing")),
            PixelDataStatus::Binary => string_of(&chars_of("Binary")),
            PixelDataStatus::Error => string_of(&chars_of("Error")),
        }
    }
}

/// What a file holds under one tag.
#[derive(Debug, Clone)]
pub enum ElementRead {
    Absent,
    Text(String),
    /// Present, but its value is not text.
    NonText,
}

pub open spec fn is_pixel_data_tag(group: u16, element: u16) -> bool {
    group == 0x7fe0 && element == 0x0010
}

/// Whether a tag is the pixel data, which is classified by decoding rather
/// than by its text.
pub fn pixel_data_tag(group: u16, element: u16) -> (r: bool)
    ensures
        r == is_pixel_data_tag(group, element),
{
    group == 0x7fe0 && element == 0x0010
}

/// The value counted for a tag: the pixel-data status for the pixel data,
/// otherwise the element's text, `Binary` for a value that is not text and
/// `Missing` for an absent element.
pub open spec fn tag_value_of(group: u16, element: u16, read: ElementRead, pixel: PixelDataStatus) -> Seq<char> {
    if is_pixel_data_tag(group, element) {
        status_text(pixel)
    } else {
        match read {
            ElementRead::Absent => "Missing"@,
            ElementRead::Text(s) => s@,
            ElementRead::NonText => "Binary"@,
        }
    }
}

/// The value that a file counts under a tag.
pub fn tag_value(group: u16, element: u16, read: &ElementRead, pixel: PixelDataStatus) -> (r: String)
    ensures
        r@ == tag_value_of(group, element, *read, pixel),
{
    if pixel_data_tag(group, element) {
        pixel.text()
    } else {
        match read {
            ElementRead::Absent => string_of(&chars_of("Missing")),
            ElementRead::Text(s) => s.clone(),
            ElementRead::NonText => string_of(&chars_of("Binary")),
        }
    }
}

// ----------------------------------------------------------------------------
// Value histograms
// ----------------------------------------------------------------------------

pub open spec fn count_in(s: Seq<(String, u64)>, k: Seq<char>) -> nat
    decreases s.len(),
{
    if s.len() == 0 {
        0
    } else {
        count_in(s.drop_last(), k) + if s.last().0@ == k { s.last().1 as nat } else { 0 }
    }
}

pub open spec fn total_in(s: Seq<(String, u64)>) -> nat
    decreases s.len(),
{
    if s.len() == 0 { 0 } else { total_in(s.drop_last()) + s.last().1 as nat }
}

pub open spec fn keys_unique(s: Seq<(String, u64)>) -> bool {
    forall|i: int, j: int| 0 <= i < j < s.len() ==> s[i].0@ != s[j].0@
}

proof fn lemma_count_update(s: Seq<(String, u64)>, i: int, v: (String, u64), k: Seq<char>)
    requires
        0 <= i < s.len(),
        v.0@ == s[i].0@,
        v.1 >= s[i].1,
    ensures
        count_in(s.update(i, v), k) == count_in(s, k) + if k == v.0@ { (v.1 - s[i].1) as nat } else { 0 },
        total_in(s.update(i, v)) == total_in(s) + (v.1 - s[i].1) as nat,
    decreases s.len(),
{
    if i < s.len() - 1 {
        assert(s.update(i, v).drop_last() =~= s.drop_last().update(i, v));
        lemma_count_update(s.drop_last(), i, v, k);
    } else {
        assert(s.update(i, v).drop_last() =~= s.drop_last());
    }
}

proof fn lemma_count_le_total(s: Seq<(String, u64)>, k: Seq<char>)
    ensures
        count_in(s, k) <= total_in(s),
    decreases s.len(),
{
    if s.len() > 0 {
        lemma_count_le_total(s.drop_last(), k);
    }
}

/// A value-frequency histogram: how many times each value was counted.
#[derive(Debug, Clone)]
pub struct ValueCounts {
    entries: Vec<(String, u64)>,
    total: u64,
}

impl ValueCounts {
    /// How many times `k` was counted.
    pub closed spec fn count_of(&self, k: Seq<char>) -> nat {
        count_in(self.entries@, k)
    }

    /// How many values were counted in all.
    pub closed spec fn total_count(&self) -> nat {
        self.total as nat
    }

    pub closed spec fn wf(&self) -> bool {
        &&& keys_unique(self.entries@)
        &&& self.total == total_in(self.entries@)
    }

    pub fn new() -> (r: Self)
        ensures
            r.wf(),
            r.total_count() == 0,
            forall|k: Seq<char>| #[trigger] r.count_of(k) == 0,
    {
        ValueCounts { entries: Vec::new(), total: 0 }
    }

    fn find(&self, k: &String) -> (r: Option<usize>)
        ensures
            r matches Some(i) ==> i < self.entries@.len() && self.entries@[i as int].0@ == k@,
            r is None ==> forall|i: int| 0 <= i < self.entries@.len() ==> self.entries@[i].0@ != k@,
    {
        let mut i: usize = 0;
        while i < self.entries.len()
            invariant
                i <= self.entries@.len(),
                forall|j: int| 0 <= j < i ==> self.entries@[j].0@ != k@,
            decreases self.entries@.len() - i,
        {
            if self.entries[i].0 == *k {
                return Some(i);
            }
            i = i + 1;
        }
        None
    }

    /// Counts `value` `n` more times.
    pub fn add_count(&mut self, value: String, n: u64)
        requires
            old(self).wf(),
            old(self).total_count() + n <= u64::MAX,
        ensures
            final(self).wf(),
            final(self).total_count() == old(self).total_count() + n,
            forall|k: Seq<char>| #[trigger] final(self).count_of(k) == old(self).count_of(k) + if k == value@ { n as nat } else { 0 },
    {
        match self.find(&value) {
            Some(i) => {
                proof { lemma_count_le_total(self.entries@, value@); }
                let ghost s = self.entries@;
                assert(count_in(s, value@) >= s[i as int].1) by {
                    lemma_entry_le_count(s, i as int);
                }
                let c = self.entries[i].1;
                let key = self.entries[i].0.clone();
                self.entries[i] = (key, c + n);
                proof {
                    assert forall|k: Seq<char>| #[trigger] count_in(self.entries@, k) == count_in(s, k) + if k == value@ { n as nat } else { 0 } by {
                        lemma_count_update(s, i as int, (key, (c + n) as u64), k);
                    }
                    lemma_count_update(s, i as int, (key, (c + n) as u64), value@);
                    assert forall|a: int, b: int| 0 <= a < b < self.entries@.len() implies self.entries@[a].0@ != self.entries@[b].0@ by {
                        assert(s[a].0@ != s[b].0@);
                    }
                }
                self.total = self.total + n;
            },
            None => {
                let ghost s = self.entries@;
                self.entries.push((value, n));
                proof {
                    assert(self.entries@.drop_last() =~= s);
                    assert forall|k: Seq<char>| #[trigger] count_in(self.entries@, k) == count_in(s, k) + if k == value@ { n as nat } else { 0 } by {}
                }
                self.total = self.total + n;
            },
        }
    }

    /// Counts `value` once more.
    pub fn add(&mut self, value: String)
        requires
            old(self).wf(),
            old(self).total_count() < u64::MAX,
        ensures
            final(self).wf(),
            final(self).total_count() == old(self).total_count() + 1,
            forall|k: Seq<char>| #[trigger] final(self).count_of(k) == old(self).count_of(k) + if k == value@ { 1nat } else { 0 },
    {
        self.add_count(value, 1);
    }

    /// Folds `other` into this histogram: every count becomes the sum of the two.
    pub fn merge(&mut self, other: &ValueCounts)
        requires
            old(self).wf(),
            other.wf(),
            old(self).total_count() + other.total_count() <= u64::MAX,
        ensures
            final(self).wf(),
            final(self).total_count() == old(self).total_count() + other.total_count(),
            forall|k: Seq<char>| #[trigger] final(self).count_of(k) == old(self).count_of(k) + other.count_of(k),
    {
        let mut i: usize = 0;
        while i < other.entries.len()
            invariant
                self.wf(),
                other.wf(),
                i <= other.entries@.len(),
                self.total_count() == old(self).total_count() + total_in(other.entries@.subrange(0, i as int)),
                old(self).total_count() + other.total_count() <= u64::MAX,
                forall|k: Seq<char>| #[trigger] self.count_of(k) == old(self).count_of(k) + count_in(other.entries@.subrange(0, i as int), k),
            decreases other.entries@.len() - i,
        {
            let ghost pre = other.entries@.subrange(0, i as int);
            assert(other.entries@.subrange(0, i + 1).drop_last() =~= pre);
            proof { lemma_total_prefix(other.entries@, i + 1); }
            let v = other.entries[i].0.clone();
            let n = other.entries[i].1;
            self.add_count(v, n);
            i = i + 1;
        }
        assert(other.entries@.subrange(0, other.entries@.len() as int) =~= other.entries@);
    }

    /// The distinct values counted, each with its count, in first-counted order.
    pub fn entries(&self) -> (r: Vec<(String, u64)>)
        requires
            self.wf(),
        ensures
            keys_unique(r@),
            forall|i: int| 0 <= i < r@.len() ==> self.count_of(#[trigger] r@[i].0@) == r@[i].1,
            forall|k: Seq<char>| #[trigger] self.count_of(k) > 0 ==> exists|i: int| 0 <= i < r@.len() && r@[i].0@ == k,
    {
        proof {
            assert forall|i: int| 0 <= i < self.entries@.len() implies self.count_of(#[trigger] self.entries@[i].0@) == self.entries@[i].1 by {
                lemma_unique_count(self.entries@, i);
            }
            assert forall|k: Seq<char>| #[trigger] self.count_of(k) > 0 implies exists|i: int| 0 <= i < self.entries@.len() && self.entries@[i].0@ == k by {
                if forall|i: int| 0 <= i < self.entries@.len() ==> self.entries@[i].0@ != k {
                    lemma_absent_count(self.entries@, k);
                }
            }
        }
        let mut r: Vec<(String, u64)> = Vec::new();
        let mut i: usize = 0;
        while i < self.entries.len()
            invariant
                i <= self.entries@.len(),
                r@ == self.entries@.subrange(0, i as int),
            decreases self.entries@.len() - i,
        {
            r.push((self.entries[i].0.clone(), self.entries[i].1));
            i = i + 1;
            assert(r@ =~= self.entries@.subrange(0, i as int));
        }
        assert(self.entries@.subrange(0, self.entries@.len() as int) =~= self.entries@);
        r
    }

    /// How many times `value` was counted.
    pub fn count(&self, value: &String) -> (r: u64)
        requires
            self.wf(),
        ensures
            r == self.count_of(value@),
    {
        proof { lemma_count_le_total(self.entries@, value@); }
        match self.find(value) {
            Some(i) => {
                proof { lemma_unique_count(self.entries@, i as int); }
                self.entries[i].1
            },
            None => {
                proof { lemma_absent_count(self.entries@, value@); }
                0
            },
        }
    }

    pub fn total(&self) -> (r: u64)
        ensures
            r == self.total_count(),
    {
        self.total
    }
}

proof fn lemma_entry_le_count(s: Seq<(String, u64)>, i: int)
    requires
        0 <= i < s.len(),
    ensures
        count_in(s, s[i].0@) >= s[i].1,
    decreases s.len(),
{
    if i < s.len() - 1 {
        lemma_entry_le_count(s.drop_last(), i);
    }
}

proof fn lemma_absent_count(s: Seq<(String, u64)>, k: Seq<char>)
    requires
        forall|i: int| 0 <= i < s.len() ==> s[i].0@ != k,
    ensures
        count_in(s, k) == 0,
    decreases s.len(),
{
    if s.len() > 0 {
        lemma_absent_count(s.drop_last(), k);
    }
}

proof fn lemma_unique_count(s: Seq<(String, u64)>, i: int)
    requires
        0 <= i < s.len(),
        keys_unique(s),
    ensures
        count_in(s, s[i].0@) == s[i].1,
    decreases s.len(),
{
    if i < s.len() - 1 {
        lemma_unique_count(s.drop_last(), i);
        assert(s.last().0@ != s[i].0@);
    } else {
        lemma_absent_count(s.drop_last(), s[i].0@);
    }
}

proof fn lemma_total_prefix(s: Seq<(String, u64)>, n: int)
    requires
        0 <= n <= s.len(),
    ensures
        total_in(s.subrange(0, n)) <= total_in(s),
    decreases s.len() - n,
{
    if n < s.len() {
        lemma_total_prefix(s, n + 1);
        assert(s.subrange(0, n + 1).drop_last() =~= s.subrange(0, n));
    } else {
        assert(s.subrange(0, n) =~= s);
    }
}

// ----------------------------------------------------------------------------
// Tag names
// ----------------------------------------------------------------------------

/// The alias of a tag in the standard DICOM data dictionary, if it has one.
pub uninterp spec fn dictionary_alias(group: u16, element: u16) -> Option<Seq<char>>;

pub open spec fn opt_text(o: Option<String>) -> Option<Seq<char>> {
    match o {
        Some(s) => Some(s@),
        None => None,
    }
}

/// Relies on `DataDictionary::by_tag` of `dicom::dictionary_std::StandardDataDictionary`:
/// a lookup in a fixed table, so the result depends on the tag alone.
#[verifier::external_body]
fn lookup_alias(group: u16, element: u16) -> (r: Option<String>)
    ensures
        opt_text(r) == dictionary_alias(group, element),
{
    dicom::core::dictionary::DataDictionary::by_tag(
        &dicom::dictionary_std::StandardDataDictionary,
        dicom::core::Tag(group, element),
    ).map(|e| e.alias.to_string())
}

/// The display name of a tag: its dictionary alias, or `Unknown`.
pub open spec fn tag_name_of(group: u16, element: u16) -> Seq<char> {
    match dictionary_alias(group, element) {
        Some(a) => a,
        None => "Unknown"@,
    }
}

/// The display name of a tag.
pub fn tag_name(group: u16, element: u16) -> (r: String)
    ensures
        r@ == tag_name_of(group, element),
{
    match lookup_alias(group, element) {
        Some(a) => a,
        None => string_of(&chars_of("Unknown")),
    }
}

/// The shown value of an element in a tag listing: its text, except for the
/// pixel data and for values that are not text.
pub open spec fn listed_value(group: u16, element: u16, text: Option<String>) -> Seq<char> {
    match text {
        Some(t) => if is_pixel_data_tag(group, element) { "<binary data>"@ } else { t@ },
        None => "<binary data>"@,
    }
}

/// One row of a file's tag listing.
pub fn describe_tag(group: u16, element: u16, vr: String, text: Option<String>) -> (r: DicomTag)
    ensures
        r.group == group,
        r.element == element,
        r.name@ == tag_name_of(group, element),
        r.vr == vr,
        r.value@ == listed_value(group, element, text),
{
    let value = match text {
        Some(t) => if pixel_data_tag(group, element) { string_of(&chars_of("<binary data>")) } else { t },
        None => string_of(&chars_of("<binary data>")),
    };
    DicomTag { group, element, name: tag_name(group, element), vr, value }
}

// ----------------------------------------------------------------------------
// Folder statistics
// ----------------------------------------------------------------------------

/// The histogram of one requested tag over a folder.
#[derive(Debug, Clone)]
pub struct TagStat {
    pub group: u16,
    pub element: u16,
    pub name: String,
    pub value_counts: Vec<(String, u64)>,
}

/// Histograms of a fixed list of tags over the files counted so far. Each
/// worker fills one over its share of the files; the shares are then merged.
pub struct FolderStats {
    tags: Vec<(u16, u16)>,
    counts: Vec<ValueCounts>,
    files: u64,
}

impl FolderStats {
    pub closed spec fn tags(&self) -> Seq<(u16, u16)> {
        self.tags@
    }

    pub closed spec fn files(&self) -> nat {
        self.files as nat
    }

    /// How many counted files held `k` under the `i`-th tag.
    pub closed spec fn count_of(&self, i: int, k: Seq<char>) -> nat {
        self.counts@[i].count_of(k)
    }

    /// `st` is the histogram of the `i`-th tag: its tag and name, and each
    /// value counted with its count, once.
    pub open spec fn stat_matches(&self, i: int, st: TagStat) -> bool {
        &&& st.group == self.tags()[i].0
        &&& st.element == self.tags()[i].1
        &&& st.name@ == tag_name_of(st.group, st.element)
        &&& keys_unique(st.value_counts@)
        &&& forall|j: int| 0 <= j < st.value_counts@.len()
            ==> self.count_of(i, #[trigger] st.value_counts@[j].0@) == st.value_counts@[j].1
        &&& forall|k: Seq<char>| #[trigger] self.count_of(i, k) > 0
            ==> exists|j: int| 0 <= j < st.value_counts@.len() && st.value_counts@[j].0@ == k
    }

    pub closed spec fn wf(&self) -> bool {
        &&& self.counts@.len() == self.tags@.len()
        &&& forall|i: int| 0 <= i < self.counts@.len() ==> (#[trigger] self.counts@[i]).wf()
            && self.counts@[i].total_count() == self.files
    }

    pub fn new(tags: &Vec<(u16, u16)>) -> (r: Self)
        ensures
            r.wf(),
            r.tags() == tags@,
            r.files() == 0,
            forall|i: int, k: Seq<char>| 0 <= i < tags@.len() ==> #[trigger] r.count_of(i, k) == 0,
    {
        let mut counts: Vec<ValueCounts> = Vec::new();
        let mut t: Vec<(u16, u16)> = Vec::new();
        let mut i: usize = 0;
        while i < tags.len()
            invariant
                i <= tags@.len(),
                counts@.len() == i,
                t@ == tags@.subrange(0, i as int),
                forall|j: int| 0 <= j < i ==> (#[trigger] counts@[j]).wf() && counts@[j].total_count() == 0
                    && forall|k: Seq<char>| #[trigger] counts@[j].count_of(k) == 0,
            decreases tags@.len() - i,
        {
            counts.push(ValueCounts::new());
            t.push(tags[i]);
            i = i + 1;
            assert(t@ =~= tags@.subrange(0, i as int));
        }
        assert(t@ =~= tags@);
        FolderStats { tags: t, counts, files: 0 }
    }

    /// Counts one file: `values[i]` is what it holds under the `i`-th tag.
    pub fn add_file(&mut self, values: &Vec<String>)
        requires
            old(self).wf(),
            old(self).files() < u64::MAX,
            values@.len() == old(self).tags().len(),
        ensures
            final(self).wf(),
            final(self).tags() == old(self).tags(),
            final(self).files() == old(self).files() + 1,
            forall|i: int, k: Seq<char>| 0 <= i < old(self).tags().len() ==> #[trigger] final(self).count_of(i, k)
                == old(self).count_of(i, k) + if k == values@[i]@ { 1nat } else { 0 },
    {
        let mut old_counts: Vec<ValueCounts> = Vec::new();
        core::mem::swap(&mut old_counts, &mut self.counts);
        let ghost before = old_counts@;
        let mut rest = old_counts;
        let mut rebuilt: Vec<ValueCounts> = Vec::new();
        let mut i: usize = 0;
        while i < values.len()
            invariant
                values@.len() == before.len(),
                i <= values@.len(),
                rest@ == before.subrange(i as int, before.len() as int),
                rebuilt@.len() == i,
                forall|j: int| 0 <= j < before.len() ==> (#[trigger] before[j]).wf() && before[j].total_count() == self.files,
                self.files < u64::MAX,
                forall|j: int| 0 <= j < i ==> (#[trigger] rebuilt@[j]).wf() && rebuilt@[j].total_count() == self.files + 1
                    && forall|k: Seq<char>| #[trigger] rebuilt@[j].count_of(k) == before[j].count_of(k) + if k == values@[j]@ { 1nat } else { 0 },
            decreases values@.len() - i,
        {
            let mut c = rest.remove(0);
            assert(c == before[i as int]);
            c.add(values[i].clone());
            rebuilt.push(c);
            i = i + 1;
            assert(rest@ =~= before.subrange(i as int, before.len() as int));
        }
        self.counts = rebuilt;
        self.files = self.files + 1;
    }

    /// Folds another worker's counts over the same tags into these.
    pub fn merge(&mut self, other: &FolderStats)
        requires
            old(self).wf(),
            other.wf(),
            other.tags() == old(self).tags(),
            old(self).files() + other.files() <= u64::MAX,
        ensures
            final(self).wf(),
            final(self).tags() == old(self).tags(),
            final(self).files() == old(self).files() + other.files(),
            forall|i: int, k: Seq<char>| 0 <= i < old(self).tags().len() ==> #[trigger] final(self).count_of(i, k)
                == old(self).count_of(i, k) + other.count_of(i, k),
    {
        let mut old_counts: Vec<ValueCounts> = Vec::new();
        core::mem::swap(&mut old_counts, &mut self.counts);
        let ghost before = old_counts@;
        let mut rest = old_counts;
        let mut rebuilt: Vec<ValueCounts> = Vec::new();
        let n = other.counts.len();
        let mut i: usize = 0;
        while i < n
            invariant
                n == before.len(),
                other.wf(),
                other.counts@.len() == before.len(),
                i <= n,
                rest@ == before.subrange(i as int, before.len() as int),
                rebuilt@.len() == i,
                forall|j: int| 0 <= j < before.len() ==> (#[trigger] before[j]).wf() && before[j].total_count() == self.files,
                self.files + other.files <= u64::MAX,
                forall|j: int| 0 <= j < i ==> (#[trigger] rebuilt@[j]).wf() && rebuilt@[j].total_count() == self.files + other.files
                    && forall|k: Seq<char>| #[trigger] rebuilt@[j].count_of(k) == before[j].count_of(k) + other.counts@[j].count_of(k),
            decreases n - i,
        {
            let mut c = rest.remove(0);
            assert(c == before[i as int]);
            assert(other.counts@[i as int].wf());
            c.merge(&other.counts[i]);
            rebuilt.push(c);
            i = i + 1;
            assert(rest@ =~= before.subrange(i as int, before.len() as int));
        }
        self.counts = rebuilt;
        self.files = self.files + other.files;
    }

    /// The statistics of the folder: one histogram per requested tag, in
    /// request order, or none at all when no file was counted.
    pub fn finish(&self) -> (r: Vec<TagStat>)
        requires
            self.wf(),
        ensures
            self.files() == 0 ==> r@.len() == 0,
            self.files() > 0 ==> r@.len() == self.tags().len(),
            self.files() > 0 ==> forall|i: int| 0 <= i < r@.len() ==> self.stat_matches(i, #[trigger] r@[i]),
    {
        let mut r: Vec<TagStat> = Vec::new();
        if self.files == 0 {
            return r;
        }
        let mut i: usize = 0;
        while i < self.tags.len()
            invariant
                self.wf(),
                self.files > 0,
                i <= self.tags@.len(),
                r@.len() == i,
                forall|m: int| 0 <= m < i ==> self.stat_matches(m, #[trigger] r@[m]),
            decreases self.tags@.len() - i,
        {
            let (g, e) = self.tags[i];
            assert(self.counts@[i as int].wf());
            let entries = self.counts[i].entries();
            let st = TagStat { group: g, element: e, name: tag_name(g, e), value_counts: entries };
            assert(self.stat_matches(i as int, st));
            let ghost old_r = r@;
            r.push(st);
            assert forall|m: int| 0 <= m < i + 1 implies self.stat_matches(m, #[trigger] r@[m]) by {
                if m < i {
                    assert(r@[m] == old_r[m]);
                }
            }
            i = i + 1;
        }
        r
    }
}

// ----------------------------------------------------------------------------
// Value details
// ----------------------------------------------------------------------------

/// One distinct value of a tag: how many files hold it and up to a hundred of them.
#[derive(Debug, Clone)]
pub struct TagValueDetail {
    pub value: String,
    pub count: usize,
    pub files: Vec<String>,
}

/// The values of one tag over a folder, most frequent first.
#[derive(Debug, Clone)]
pub struct TagDetails {
    pub group: u16,
    pub element: u16,
    pub name: String,
    pub values: Vec<TagValueDetail>,
}

/// How many of the `(value, file)` pairs hold `k`.
pub open spec fn pairs_count(p: Seq<(String, String)>, k: Seq<char>) -> nat
    decreases p.len(),
{
    if p.len() == 0 {
        0
    } else {
        pairs_count(p.drop_last(), k) + if p.last().0@ == k { 1nat } else { 0 }
    }
}

/// The files of the pairs that hold `k`, in order.
pub open spec fn paths_with(p: Seq<(String, String)>, k: Seq<char>) -> Seq<Seq<char>>
    decreases p.len(),
{
    if p.len() == 0 {
        Seq::empty()
    } else if p.last().0@ == k {
        paths_with(p.drop_last(), k).push(p.last().1@)
    } else {
        paths_with(p.drop_last(), k)
    }
}

pub open spec fn first_hundred(s: Seq<Seq<char>>) -> Seq<Seq<char>> {
    if s.len() <= 100 { s } else { s.subrange(0, 100) }
}

pub open spec fn paths_view(s: Seq<String>) -> Seq<Seq<char>> {
    s.map_values(|x: String| x@)
}

/// `d` describes the value `d.value` of the pairs exactly.
pub open spec fn detail_matches(d: TagValueDetail, p: Seq<(String, String)>) -> bool {
    &&& d.count == pairs_count(p, d.value@)
    &&& paths_view(d.files@) == first_hundred(paths_with(p, d.value@))
}

/// `g` has one detail for each distinct value of the pairs, and no other.
pub open spec fn details_of(g: Seq<TagValueDetail>, p: Seq<(String, String)>) -> bool {
    &&& forall|a: int, b: int| 0 <= a < b < g.len() ==> g[a].value@ != g[b].value@
    &&& forall|j: int| 0 <= j < g.len() ==> detail_matches(#[trigger] g[j], p)
    &&& forall|i: int| 0 <= i < p.len() ==> has_value(g, (#[trigger] p[i]).0@)
}

pub open spec fn has_value(g: Seq<TagValueDetail>, k: Seq<char>) -> bool {
    exists|j: int| 0 <= j < g.len() && (#[trigger] g[j]).value@ == k
}

proof fn lemma_pairs_absent(p: Seq<(String, String)>, k: Seq<char>)
    requires
        forall|i: int| 0 <= i < p.len() ==> p[i].0@ != k,
    ensures
        pairs_count(p, k) == 0,
        paths_with(p, k) == Seq::<Seq<char>>::empty(),
    decreases p.len(),
{
    if p.len() > 0 {
        lemma_pairs_absent(p.drop_last(), k);
    }
}

proof fn lemma_paths_len(p: Seq<(String, String)>, k: Seq<char>)
    ensures
        paths_with(p, k).len() == pairs_count(p, k),
    decreases p.len(),
{
    if p.len() > 0 {
        lemma_paths_len(p.drop_last(), k);
    }
}

/// Groups `(value, file)` pairs by value, keeping the first hundred files of each.
pub fn group_by_value(pairs: &Vec<(String, String)>) -> (r: Vec<TagValueDetail>)
    ensures
        details_of(r@, pairs@),
{
    let mut g: Vec<TagValueDetail> = Vec::new();
    let mut i: usize = 0;
    while i < pairs.len()
        invariant
            i <= pairs@.len(),
            details_of(g@, pairs@.subrange(0, i as int)),
            forall|j: int| 0 <= j < g@.len() ==> (#[trigger] g@[j]).count <= i,
        decreases pairs@.len() - i,
    {
        let ghost p = pairs@.subrange(0, i as int);
        let ghost q = pairs@.subrange(0, i + 1);
        assert(q.drop_last() =~= p);
        let v = &pairs[i].0;
        let mut j: usize = 0;
        let mut found = false;
        while j < g.len() && !found
            invariant
                j <= g@.len(),
                !found ==> forall|m: int| 0 <= m < j ==> g@[m].value@ != v@,
                found ==> j < g@.len() && g@[j as int].value@ == v@,
            decreases g@.len() - j + (if found { 0int } else { 1int }),
        {
            if g[j].value == *v {
                found = true;
            } else {
                j = j + 1;
            }
        }
        let ghost old_g = g@;
        if found {
            let d = g.remove(j);
            proof { lemma_paths_len(p, v@); }
            let mut files = d.files;
            if files.len() < 100 {
                files.push(pairs[i].1.clone());
            }
            let nd = TagValueDetail { value: d.value, count: d.count + 1, files };
            g.insert(j, nd);
            proof {
                assert(g@ =~= old_g.update(j as int, nd));
                assert forall|m: int| 0 <= m < g@.len() implies detail_matches(#[trigger] g@[m], q) by {
                    if m != j as int {
                        assert(old_g[m].value@ != v@);
                    } else {
                        assert(old_g[j as int] == d);
                        assert(detail_matches(d, p));
                        assert(q.last() == pairs@[i as int]);
                        assert(paths_with(q, v@) == paths_with(p, v@).push(pairs@[i as int].1@));
                        if d.files@.len() < 100 {
                            assert(paths_view(nd.files@) =~= paths_view(d.files@).push(pairs@[i as int].1@));
                        } else {
                            assert(nd.files@ == d.files@);
                        }
                        assert(paths_view(nd.files@) =~= first_hundred(paths_with(q, v@)));
                    }
                }
                assert forall|a: int| 0 <= a < q.len() implies has_value(g@, (#[trigger] q[a]).0@) by {
                    if a < i {
                        assert(q[a] == p[a]);
                        assert(has_value(old_g, p[a].0@));
                        let b = choose|b: int| 0 <= b < old_g.len() && (#[trigger] old_g[b]).value@ == p[a].0@;
                        assert(g@[b].value@ == q[a].0@);
                    } else {
                        assert(g@[j as int].value@ == q[a].0@);
                    }
                }
            }
        } else {
            let mut files: Vec<String> = Vec::new();
            files.push(pairs[i].1.clone());
            let nd = TagValueDetail { value: v.clone(), count: 1, files };
            g.push(nd);
            proof {
                lemma_pairs_absent(p, v@);
                assert forall|m: int| 0 <= m < g@.len() implies detail_matches(#[trigger] g@[m], q) by {
                    if m < old_g.len() {
                        assert(g@[m] == old_g[m]);
                        assert(old_g[m].value@ != v@);
                    } else {
                        assert(paths_view(nd.files@) =~= first_hundred(paths_with(q, v@)));
                    }
                }
                assert forall|a: int| 0 <= a < q.len() implies has_value(g@, (#[trigger] q[a]).0@) by {
                    if a < i {
                        assert(q[a] == p[a]);
                        assert(has_value(old_g, p[a].0@));
                        let b = choose|b: int| 0 <= b < old_g.len() && (#[trigger] old_g[b]).value@ == p[a].0@;
                        assert(g@[b] == old_g[b]);
                        assert(g@[b].value@ == q[a].0@);
                    } else {
                        assert(g@[old_g.len() as int].value@ == q[a].0@);
                    }
                }
            }
        }
        i = i + 1;
    }
    assert(pairs@.subrange(0, pairs@.len() as int) =~= pairs@);
    g
}

pub open spec fn by_count_desc(s: Seq<TagValueDetail>) -> bool {
    forall|a: int, b: int| 0 <= a < b < s.len() ==> s[a].count >= s[b].count
}

/// Orders value details by descending count.
pub fn sort_by_count(v: Vec<TagValueDetail>) -> (r: Vec<TagValueDetail>)
    ensures
        r@.to_multiset() == v@.to_multiset(),
        by_count_desc(r@),
{
    broadcast use vstd::seq_lib::group_to_multiset_ensures;
    let ghost all = v@;
    let mut src = v;
    let mut r: Vec<TagValueDetail> = Vec::new();
    while src.len() > 0
        invariant
            r@.to_multiset().add(src@.to_multiset()) == all.to_multiset(),
            by_count_desc(r@),
        decreases src@.len(),
    {
        let ghost before = src@;
        let x = src.pop().unwrap();
        proof {
            assert(before =~= src@.push(x));
        }
        let mut pos: usize = 0;
        while pos < r.len() && r[pos].count >= x.count
            invariant
                pos <= r@.len(),
                forall|m: int| 0 <= m < pos ==> r@[m].count >= x.count,
            decreases r@.len() - pos,
        {
            pos = pos + 1;
        }
        let ghost old_r = r@;
        r.insert(pos, x);
        proof {
            vstd::seq_lib::to_multiset_insert(old_r, pos as int, x);
            assert(r@.to_multiset() =~= old_r.to_multiset().insert(x));
            vstd::seq_lib::to_multiset_build(src@, x);
            assert(before.to_multiset() =~= src@.to_multiset().insert(x));
            assert(r@.to_multiset().add(src@.to_multiset()) =~= old_r.to_multiset().add(before.to_multiset()));
            assert(r@.to_multiset().add(src@.to_multiset()) =~= all.to_multiset());
            assert forall|a: int, b: int| 0 <= a < b < r@.len() implies r@[a].count >= r@[b].count by {
                if b < pos {
                } else if b == pos {
                } else if a < pos {
                    assert(old_r[a].count >= x.count);
                    if pos < old_r.len() {
                        assert(old_r[pos as int].count < x.count);
                    }
                } else if a == pos {
                    assert(old_r[pos as int].count < x.count);
                    assert(old_r[pos as int].count >= old_r[b - 1].count);
                } else {
                    assert(old_r[a - 1].count >= old_r[b - 1].count);
                }
            }
        }
    }
    assert(src@ =~= Seq::<TagValueDetail>::empty());
    assert(r@.to_multiset() =~= all.to_multiset());
    r
}

/// The details of one tag over a folder, from the `(value, file)` pair of
/// every file read: one entry per distinct value with its count and up to a
/// hundred example files, most frequent first.
pub fn tag_details(group: u16, element: u16, pairs: &Vec<(String, String)>) -> (r: TagDetails)
    ensures
        r.group == group,
        r.element == element,
        r.name@ == tag_name_of(group, element),
        by_count_desc(r.values@),
        exists|g: Seq<TagValueDetail>| details_of(g, pairs@) && #[trigger] g.to_multiset() == r.values@.to_multiset(),
{
    let g = group_by_value(pairs);
    let values = sort_by_count(g);
    TagDetails { group, element, name: tag_name(group, element), values }
}

} // verus!
