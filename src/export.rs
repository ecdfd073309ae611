//! The text of the audit side files: the processing log (`logs.csv`) and the
//! per-file metadata export (`metadata_all.csv`). The caller appends the text
//! to the files; this module decides what the text is.
use vstd::prelude::*;
use crate::models::{FileMetadata, LogEntry};
use crate::text::{chars_of, decimal_of, push_all, push_decimal, string_of};

verus! {

pub open spec fn needs_quotes(f: Seq<char>) -> bool {
    f.contains(',') || f.contains('"') || f.contains('\n')
}

/// `f` with every double quote doubled.
pub open spec fn doubled_quotes(f: Seq<char>) -> Seq<char>
    decreases f.len(),
{
    if f.len() == 0 {
        f
    } else if f.last() == '"' {
        doubled_quotes(f.drop_last()) + "\"\""@
    } else {
        doubled_quotes(f.drop_last()).push(f.last())
    }
}

/// A log field as written: quoted, with quotes doubled, when it holds a
/// comma, a quote or a line break; unchanged otherwise.
pub open spec fn escaped(f: Seq<char>) -> Seq<char> {
    if needs_quotes(f) { "\""@ + doubled_quotes(f) + "\""@ } else { f }
}

fn escape_into(out: &mut Vec<char>, f: &String)
    ensures
        final(out)@ == old(out)@ + escaped(f@),
{
    let c = chars_of(f.as_str());
    let mut special = false;
    let mut i: usize = 0;
    while i < c.len()
        invariant
            i <= c@.len(),
            special == exists|k: int| 0 <= k < i && (c@[k] == ',' || c@[k] == '"' || c@[k] == '\n'),
        decreases c@.len() - i,
    {
        if c[i] == ',' || c[i] == '"' || c[i] == '\n' {
            special = true;
        }
        i = i + 1;
    }
    proof {
        if special {
            let k = choose|k: int| 0 <= k < c@.len() && (c@[k] == ',' || c@[k] == '"' || c@[k] == '\n');
            assert(c@[k] == ',' ==> c@.contains(','));
            assert(c@[k] == '"' ==> c@.contains('"'));
            assert(c@[k] == '\n' ==> c@.contains('\n'));
        }
        if needs_quotes(c@) {
            if c@.contains(',') {
                let k = choose|k: int| 0 <= k < c@.len() && c@[k] == ',';
            } else if c@.contains('"') {
                let k = choose|k: int| 0 <= k < c@.len() && c@[k] == '"';
            } else {
                let k = choose|k: int| 0 <= k < c@.len() && c@[k] == '\n';
            }
        }
    }
    if !special {
        push_all(out, &c);
        return;
    }
    proof { reveal_strlit("\""); reveal_strlit("\"\""); }
    out.push('"');
    let ghost start = out@;
    let mut j: usize = 0;
    while j < c.len()
        invariant
            j <= c@.len(),
            out@ == start + doubled_quotes(c@.subrange(0, j as int)),
        decreases c@.len() - j,
    {
        assert(c@.subrange(0, j + 1).drop_last() =~= c@.subrange(0, j as int));
        if c[j] == '"' {
            out.push('"');
            out.push('"');
            proof {
                reveal_strlit("\"\"");
                assert("\"\""@.len() == 2 && "\"\""@[0] == '"' && "\"\""@[1] == '"');
            }
            assert(out@ =~= start + (doubled_quotes(c@.subrange(0, j as int)) + "\"\""@));
        } else {
            out.push(c[j]);
            assert(out@ =~= start + doubled_quotes(c@.subrange(0, j as int)).push(c@[j as int]));
        }
        j = j + 1;
    }
    assert(c@.subrange(0, c@.len() as int) =~= c@);
    out.push('"');
    assert(final(out)@ =~= old(out)@ + escaped(f@)) by {
        assert(out@ =~= old(out)@ + ("\""@ + doubled_quotes(c@) + "\""@));
    }
}

/// Escapes one log field.
pub fn escape_csv(field: &String) -> (r: String)
    ensures
        r@ == escaped(field@),
{
    let mut out: Vec<char> = Vec::new();
    escape_into(&mut out, field);
    assert(out@ =~= escaped(field@));
    string_of(&out)
}

/// The header that a fresh log file starts with.
pub open spec fn log_header() -> Seq<char> {
    "file_name,file_path,status,conversion_type\n"@
}

/// The header line of a fresh log file.
pub fn log_header_line() -> (r: String)
    ensures
        r@ == log_header(),
{
    string_of(&chars_of("file_name,file_path,status,conversion_type\n"))
}

/// One log line: file name, path, status and conversion type.
pub open spec fn log_line(e: LogEntry) -> Seq<char> {
    escaped(e.file_name@) + ","@ + escaped(e.file_path@) + ","@ + escaped(e.status@) + ","@
        + escaped(e.conversion_type@) + "\n"@
}

pub open spec fn log_lines(s: Seq<LogEntry>) -> Seq<char>
    decreases s.len(),
{
    if s.len() == 0 { Seq::empty() } else { log_lines(s.drop_last()) + log_line(s.last()) }
}

/// The text to append for one log entry.
pub fn log_entry_line(e: &LogEntry) -> (r: String)
    ensures
        r@ == log_line(*e),
{
    let mut out: Vec<char> = Vec::new();
    push_line(&mut out, e);
    assert(out@ =~= log_line(*e));
    string_of(&out)
}

fn push_line(out: &mut Vec<char>, e: &LogEntry)
    ensures
        final(out)@ == old(out)@ + log_line(*e),
{
    let comma = chars_of(",");
    escape_into(out, &e.file_name);
    push_all(out, &comma);
    escape_into(out, &e.file_path);
    push_all(out, &comma);
    escape_into(out, &e.status);
    push_all(out, &comma);
    escape_into(out, &e.conversion_type);
    push_all(out, &chars_of("\n"));
    assert(final(out)@ =~= old(out)@ + log_line(*e));
}

/// The text that logging `logs` appends to the log file: nothing for no
/// entries; otherwise the header first where the file does not exist yet,
/// then one line per entry, in order.
pub fn write_logs(log_exists: bool, logs: &Vec<LogEntry>) -> (r: String)
    ensures
        logs@.len() == 0 ==> r@.len() == 0,
        logs@.len() > 0 ==> r@ == (if log_exists { Seq::empty() } else { log_header() }) + log_lines(logs@),
{
    let mut out: Vec<char> = Vec::new();
    if logs.len() == 0 {
        return string_of(&out);
    }
    if !log_exists {
        push_all(&mut out, &chars_of("file_name,file_path,status,conversion_type\n"));
    }
    let ghost start = out@;
    let mut i: usize = 0;
    while i < logs.len()
        invariant
            i <= logs@.len(),
            out@ == start + log_lines(logs@.subrange(0, i as int)),
        decreases logs@.len() - i,
    {
        assert(logs@.subrange(0, i + 1).drop_last() =~= logs@.subrange(0, i as int));
        push_line(&mut out, &logs[i]);
        i = i + 1;
        assert(out@ =~= start + log_lines(logs@.subrange(0, i as int)));
    }
    assert(logs@.subrange(0, logs@.len() as int) =~= logs@);
    string_of(&out)
}

// ----------------------------------------------------------------------------
// Metadata export
// ----------------------------------------------------------------------------

/// One record as the `csv` crate writes it (default settings): fields joined
/// by commas, quoted where needed, ended by a line break.
pub uninterp spec fn csv_record_text(fields: Seq<Seq<char>>) -> Seq<char>;

pub open spec fn strings_view(s: Seq<String>) -> Seq<Seq<char>> {
    s.map_values(|x: String| x@)
}

/// Relies on `csv::Writer::write_record` and `Writer::into_inner` over an
/// in-memory buffer: the encoded record, which depends on the fields alone.
/// Writing to memory does not fail, and the bytes are UTF-8 because the fields are.
#[verifier::external_body]
fn csv_record(fields: &Vec<String>) -> (r: String)
    ensures
        r@ == csv_record_text(strings_view(fields@)),
{
    let mut w = csv::Writer::from_writer(Vec::new());
    let _ = w.write_record(fields);
    let bytes = w.into_inner().unwrap_or_default();
    String::from_utf8(bytes).unwrap_or_default()
}

/// The column titles of the metadata export.
pub open spec fn metadata_header() -> Seq<Seq<char>> {
    seq![
        "F_name"@, "Study_date"@, "Modality"@, "Manufacturer"@, "Study_description"@,
        "Series_description"@, "Institution_name"@, "Pixel_data"@, "Im_width"@, "Im_height"@,
        "Pixel_spacing"@,
    ]
}

pub open spec fn text_or_empty(o: Option<String>) -> Seq<char> {
    match o { Some(s) => s@, None => Seq::empty() }
}

pub open spec fn number_or_empty(o: Option<u32>) -> Seq<char> {
    match o { Some(n) => decimal_of(n as nat), None => Seq::empty() }
}

/// The fields of one metadata row, in column order; absent values are empty.
pub open spec fn metadata_fields(m: FileMetadata) -> Seq<Seq<char>> {
    seq![
        m.file_name@,
        text_or_empty(m.study_date),
        text_or_empty(m.modality),
        text_or_empty(m.manufacturer),
        text_or_empty(m.study_description),
        text_or_empty(m.series_description),
        text_or_empty(m.institution_name),
        text_or_empty(m.pixel_data),
        number_or_empty(m.im_width),
        number_or_empty(m.im_height),
        text_or_empty(m.pixel_spacing),
    ]
}

fn text_field(o: &Option<String>) -> (r: String)
    ensures
        r@ == text_or_empty(*o),
{
    match o {
        Some(s) => s.clone(),
        None => String::new(),
    }
}

fn number_field(o: Option<u32>) -> (r: String)
    ensures
        r@ == number_or_empty(o),
{
    match o {
        Some(n) => {
            let mut c: Vec<char> = Vec::new();
            push_decimal(n as u128, &mut c);
            assert(c@ =~= decimal_of(n as nat));
            string_of(&c)
        },
        None => String::new(),
    }
}

/// The fields of a metadata row.
pub fn metadata_row(m: &FileMetadata) -> (r: Vec<String>)
    ensures
        strings_view(r@) == metadata_fields(*m),
{
    let mut r: Vec<String> = Vec::new();
    r.push(m.file_name.clone());
    r.push(text_field(&m.study_date));
    r.push(text_field(&m.modality));
    r.push(text_field(&m.manufacturer));
    r.push(text_field(&m.study_description));
    r.push(text_field(&m.series_description));
    r.push(text_field(&m.institution_name));
    r.push(text_field(&m.pixel_data));
    r.push(number_field(m.im_width));
    r.push(number_field(m.im_height));
    r.push(text_field(&m.pixel_spacing));
    assert(strings_view(r@) =~= metadata_fields(*m));
    r
}

fn header_row() -> (r: Vec<String>)
    ensures
        strings_view(r@) == metadata_header(),
{
    let mut r: Vec<String> = Vec::new();
    r.push(string_of(&chars_of("F_name")));
    r.push(string_of(&chars_of("Study_date")));
    r.push(string_of(&chars_of("Modality")));
    r.push(string_of(&chars_of("Manufacturer")));
    r.push(string_of(&chars_of("Study_description")));
    r.push(string_of(&chars_of("Series_description")));
    r.push(string_of(&chars_of("Institution_name")));
    r.push(string_of(&chars_of("Pixel_data")));
    r.push(string_of(&chars_of("Im_width")));
    r.push(string_of(&chars_of("Im_height")));
    r.push(string_of(&chars_of("Pixel_spacing")));
    assert(strings_view(r@) =~= metadata_header());
    r
}

/// The header line of the metadata export.
pub fn metadata_header_line() -> (r: String)
    ensures
        r@ == csv_record_text(metadata_header()),
{
    csv_record(&header_row())
}

/// The line of one file's metadata row.
pub fn metadata_line(m: &FileMetadata) -> (r: String)
    ensures
        r@ == csv_record_text(metadata_fields(*m)),
{
    csv_record(&metadata_row(m))
}

pub open spec fn metadata_lines(s: Seq<FileMetadata>) -> Seq<char>
    decreases s.len(),
{
    if s.len() == 0 { Seq::empty() } else { metadata_lines(s.drop_last()) + csv_record_text(metadata_fields(s.last())) }
}

/// The whole metadata export of a batch: nothing for no rows, otherwise the
/// header line and one line per row, in order.
pub fn write_metadata_report(all_metadata: &Vec<FileMetadata>) -> (r: String)
    ensures
        all_metadata@.len() == 0 ==> r@.len() == 0,
        all_metadata@.len() > 0 ==> r@ == csv_record_text(metadata_header()) + metadata_lines(all_metadata@),
{
    let mut out: Vec<char> = Vec::new();
    if all_metadata.len() == 0 {
        return string_of(&out);
    }
    push_all(&mut out, &chars_of(metadata_header_line().as_str()));
    let ghost start = out@;
    let mut i: usize = 0;
    while i < all_metadata.len()
        invariant
            i <= all_metadata@.len(),
            out@ == start + metadata_lines(all_metadata@.subrange(0, i as int)),
        decreases all_metadata@.len() - i,
    {
        assert(all_metadata@.subrange(0, i + 1).drop_last() =~= all_metadata@.subrange(0, i as int));
        let line = metadata_line(&all_metadata[i]);
        push_all(&mut out, &chars_of(line.as_str()));
        i = i + 1;
        assert(out@ =~= start + metadata_lines(all_metadata@.subrange(0, i as int)));
    }
    assert(all_metadata@.subrange(0, all_metadata@.len() as int) =~= all_metadata@);
    string_of(&out)
}

} // verus!
