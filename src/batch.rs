//! The batch engine's decisions: where each task writes, which tasks are
//! skipped, the progress numbering shared by the workers, and the single
//! aggregator that turns per-file outcomes into log lines and the final report.
//!
//! Paths are held as sequences of components; the caller converts them to and
//! from its platform's path type.
use vstd::prelude::*;
use crate::models::{FileMetadata, LogEntry};
use crate::text::{chars_of, push_all, string_of};

verus! {

/// The transform that a batch runs over each file.
#[derive(Debug, Clone, Copy, PartialEq, Eq, Structural)]
pub enum Operation {
    Convert,
    Anonymize,
}

/// The components of a path, as character sequences.
pub open spec fn names(p: Seq<String>) -> Seq<Seq<char>> {
    p.map_values(|c: String| c@)
}

proof fn lemma_names_push(p: Seq<String>, x: String)
    ensures
        names(p.push(x)) == names(p).push(x@),
{
    assert(names(p.push(x)) =~= names(p).push(x@));
}

/// A copy of a list of strings.
pub fn copy_strings(p: &Vec<String>) -> (r: Vec<String>)
    ensures
        r@ == p@,
{
    let mut r: Vec<String> = Vec::new();
    let mut i: usize = 0;
    while i < p.len()
        invariant
            i <= p@.len(),
            r@ == p@.subrange(0, i as int),
        decreases p@.len() - i,
    {
        r.push(p[i].clone());
        i = i + 1;
        assert(r@ =~= p@.subrange(0, i as int));
    }
    assert(p@.subrange(0, p@.len() as int) =~= p@);
    r
}

// ----------------------------------------------------------------------------
// Output layout and task list
// ----------------------------------------------------------------------------

/// The name under which the input folder appears in the output layout.
pub open spec fn input_name(input: Seq<Seq<char>>) -> Seq<char> {
    if input.len() > 0 { input.last() } else { "dicom"@ }
}

/// The folder, below the batch root, that receives the transformed files.
pub open spec fn data_folder_name(op: Operation) -> Seq<char> {
    match op {
        Operation::Convert => "png_file"@,
        Operation::Anonymize => "dicom_file"@,
    }
}

/// The batch root: the output folder itself when flattened, otherwise a
/// folder `<input name>_output` inside it.
pub open spec fn batch_root(output: Seq<Seq<char>>, input: Seq<Seq<char>>, flatten: bool) -> Seq<Seq<char>> {
    if flatten { output } else { output.push(input_name(input) + "_output"@) }
}

/// Returns the batch root and the folder that receives the transformed files.
pub fn output_layout(op: Operation, output: &Vec<String>, input: &Vec<String>, flatten: bool) -> (r: (Vec<String>, Vec<String>))
    ensures
        names(r.0@) == batch_root(names(output@), names(input@), flatten),
        names(r.1@) == batch_root(names(output@), names(input@), flatten).push(data_folder_name(op)),
{
    let mut root = copy_strings(output);
    if !flatten {
        let mut folder: Vec<char> = if input.len() > 0 {
            chars_of(input[input.len() - 1].as_str())
        } else {
            chars_of("dicom")
        };
        push_all(&mut folder, &chars_of("_output"));
        root.push(string_of(&folder));
        assert(names(root@) =~= names(output@).push(input_name(names(input@)) + "_output"@));
    } else {
        assert(names(root@) =~= names(output@));
    }
    let mut data = copy_strings(&root);
    let sub = match op {
        Operation::Convert => string_of(&chars_of("png_file")),
        Operation::Anonymize => string_of(&chars_of("dicom_file")),
    };
    data.push(sub);
    assert(names(data@) =~= names(root@).push(data_folder_name(op)));
    (root, data)
}

/// The index of the last '.' of `name` before position `end` that is not its
/// first character, or 0 where there is none.
pub open spec fn last_dot(name: Seq<char>, end: int) -> int
    decreases end,
{
    if end <= 1 {
        0
    } else if name[end - 1] == '.' {
        end - 1
    } else {
        last_dot(name, end - 1)
    }
}

/// `name` with its extension (the part after its last dot, where that dot is
/// not the first character) replaced by `ext`, or `ext` added where it has none.
pub open spec fn with_extension(name: Seq<char>, ext: Seq<char>) -> Seq<char> {
    let k = last_dot(name, name.len() as int);
    let stem = if k == 0 { name } else { name.subrange(0, k) };
    stem + "."@ + ext
}

proof fn lemma_last_dot_range(name: Seq<char>, end: int)
    requires
        end <= name.len(),
    ensures
        last_dot(name, end) == 0 || (1 <= last_dot(name, end) < end),
    decreases end,
{
    if end > 1 && name[end - 1] != '.' {
        lemma_last_dot_range(name, end - 1);
    }
}

fn replace_extension(name: &String, ext: &str) -> (r: String)
    ensures
        r@ == with_extension(name@, ext@),
{
    let c = chars_of(name.as_str());
    let mut end: usize = c.len();
    while end > 1 && c[end - 1] != '.'
        invariant
            end <= c@.len(),
            last_dot(c@, c@.len() as int) == last_dot(c@, end as int),
        decreases end,
    {
        end = end - 1;
    }
    proof {
        lemma_last_dot_range(c@, c@.len() as int);
    }
    let k: usize = if end <= 1 { 0 } else { end - 1 };
    let mut out: Vec<char> = Vec::new();
    if k == 0 {
        push_all(&mut out, &c);
    } else {
        let mut i: usize = 0;
        while i < k
            invariant
                k <= c@.len(),
                i <= k,
                out@ == c@.subrange(0, i as int),
            decreases k - i,
        {
            out.push(c[i]);
            i = i + 1;
            assert(out@ =~= c@.subrange(0, i as int));
        }
    }
    push_all(&mut out, &chars_of("."));
    push_all(&mut out, &chars_of(ext));
    string_of(&out)
}

/// The path of a source file relative to the input root; a file outside the
/// root keeps only its own name.
pub open spec fn mirrored(root: Seq<Seq<char>>, path: Seq<Seq<char>>) -> Seq<Seq<char>> {
    if root.len() < path.len() && path.subrange(0, root.len() as int) == root {
        path.subrange(root.len() as int, path.len() as int)
    } else if path.len() > 0 {
        seq![path.last()]
    } else {
        seq!["unknown"@]
    }
}

/// The name of the file that the transform writes for a source named `name`.
pub open spec fn target_name(op: Operation, name: Seq<char>) -> Seq<char> {
    match op {
        Operation::Convert => with_extension(name, "png"@),
        Operation::Anonymize => name,
    }
}

/// The destination of a source: its relative path mirrored below the data folder.
pub open spec fn destination_of(
    op: Operation,
    root: Seq<Seq<char>>,
    data: Seq<Seq<char>>,
    path: Seq<Seq<char>>,
) -> Seq<Seq<char>> {
    let rel = mirrored(root, path);
    data + rel.drop_last().push(target_name(op, rel.last()))
}

/// One file of a batch: where it is read, where its result is written, and the
/// folder below the input root that holds it.
#[derive(Debug, Clone)]
pub struct Task {
    pub source: Vec<String>,
    pub destination: Vec<String>,
    pub relative_folder: Vec<String>,
}

impl Task {
    pub open spec fn planned(&self, op: Operation, root: Seq<Seq<char>>, data: Seq<Seq<char>>, path: Seq<Seq<char>>) -> bool {
        &&& names(self.source@) == path
        &&& names(self.destination@) == destination_of(op, root, data, path)
        &&& names(self.relative_folder@) == mirrored(root, path).drop_last()
    }
}

fn mirrored_path(root: &Vec<String>, path: &Vec<String>) -> (r: Vec<String>)
    ensures
        names(r@) == mirrored(names(root@), names(path@)),
        r@.len() > 0,
{
    let mut under = root.len() < path.len();
    let mut i: usize = 0;
    while under && i < root.len()
        invariant
            under ==> root@.len() < path@.len(),
            i <= root@.len(),
            under ==> forall|j: int| 0 <= j < i ==> root@[j]@ == path@[j]@,
            !under ==> !(root@.len() < path@.len() && names(path@).subrange(0, root@.len() as int) == names(root@)),
        decreases root@.len() - i + (if under { 1int } else { 0int }),
    {
        if root[i] != path[i] {
            under = false;
            assert(names(path@).subrange(0, root@.len() as int)[i as int] != names(root@)[i as int]);
        } else {
            i = i + 1;
        }
    }
    let mut r: Vec<String> = Vec::new();
    if under {
        assert(names(path@).subrange(0, root@.len() as int) =~= names(root@));
        let mut k: usize = root.len();
        while k < path.len()
            invariant
                root@.len() <= k <= path@.len(),
                names(r@) == names(path@).subrange(root@.len() as int, k as int),
            decreases path@.len() - k,
        {
            let ghost before = r@;
            r.push(path[k].clone());
            proof { lemma_names_push(before, path@[k as int]); }
            k = k + 1;
            assert(names(r@) =~= names(path@).subrange(root@.len() as int, k as int));
        }
        assert(names(r@).len() == r@.len());
    } else if path.len() > 0 {
        r.push(path[path.len() - 1].clone());
        assert(names(r@) =~= seq![names(path@).last()]);
    } else {
        r.push(string_of(&chars_of("unknown")));
        assert(names(r@) =~= seq!["unknown"@]);
    }
    r
}

/// Plans the task for one discovered source file.
pub fn build_task(op: Operation, input_root: &Vec<String>, data_folder: &Vec<String>, source: &Vec<String>) -> (t: Task)
    ensures
        t.planned(op, names(input_root@), names(data_folder@), names(source@)),
{
    let rel = mirrored_path(input_root, source);
    let last = rel.len() - 1;
    let mut folder: Vec<String> = Vec::new();
    let mut i: usize = 0;
    while i < last
        invariant
            last == rel@.len() - 1,
            i <= last,
            names(folder@) == names(rel@).subrange(0, i as int),
        decreases last - i,
    {
        let ghost before = folder@;
        folder.push(rel[i].clone());
        proof { lemma_names_push(before, rel@[i as int]); }
        i = i + 1;
        assert(names(folder@) =~= names(rel@).subrange(0, i as int));
    }
    assert(names(folder@) =~= names(rel@).drop_last());
    let name = match op {
        Operation::Convert => replace_extension(&rel[last], "png"),
        Operation::Anonymize => rel[last].clone(),
    };
    let mut destination = copy_strings(data_folder);
    let mut j: usize = 0;
    while j < last
        invariant
            last == rel@.len() - 1,
            j <= last,
            names(destination@) == names(data_folder@) + names(rel@).subrange(0, j as int),
        decreases last - j,
    {
        let ghost before = destination@;
        destination.push(rel[j].clone());
        proof { lemma_names_push(before, rel@[j as int]); }
        j = j + 1;
        assert(names(destination@) =~= names(data_folder@) + names(rel@).subrange(0, j as int));
    }
    let ghost before = destination@;
    destination.push(name);
    proof {
        lemma_names_push(before, name);
        assert(names(rel@).drop_last() =~= names(rel@).subrange(0, last as int));
    }
    assert(names(destination@) =~= names(data_folder@) + names(rel@).drop_last().push(target_name(op, names(rel@).last())));
    Task { source: copy_strings(source), destination, relative_folder: folder }
}

/// Plans one task per discovered file, in the order given.
pub fn build_tasks(op: Operation, input_root: &Vec<String>, data_folder: &Vec<String>, files: &Vec<Vec<String>>) -> (r: Vec<Task>)
    ensures
        r@.len() == files@.len(),
        forall|i: int| 0 <= i < files@.len() ==> #[trigger] r@[i].planned(op, names(input_root@), names(data_folder@), names(files@[i]@)),
{
    let mut r: Vec<Task> = Vec::new();
    let mut i: usize = 0;
    while i < files.len()
        invariant
            i <= files@.len(),
            r@.len() == i,
            forall|k: int| 0 <= k < i ==> #[trigger] r@[k].planned(op, names(input_root@), names(data_folder@), names(files@[k]@)),
        decreases files@.len() - i,
    {
        r.push(build_task(op, input_root, data_folder, &files[i]));
        i = i + 1;
    }
    r
}

// ----------------------------------------------------------------------------
// Progress numbering
// ----------------------------------------------------------------------------

/// Hands out the progress numbers of one batch: `1, 2, ..., total`, each once.
/// Workers share one counter (behind a lock) and take a number just before
/// they start on a task.
pub struct ProgressCounter {
    issued: u64,
    total: u64,
    handed_out: Ghost<Set<int>>,
}

impl ProgressCounter {
    pub closed spec fn issued(&self) -> nat {
        self.issued as nat
    }

    pub closed spec fn total(&self) -> nat {
        self.total as nat
    }

    /// The numbers handed out so far.
    pub closed spec fn handed_out(&self) -> Set<int> {
        self.handed_out@
    }

    pub closed spec fn wf(&self) -> bool {
        &&& self.issued <= self.total
        &&& self.handed_out@ == Set::new(|i: int| 1 <= i <= self.issued)
    }

    pub fn new(total: u64) -> (r: Self)
        ensures
            r.wf(),
            r.total() == total,
            r.issued() == 0,
            r.handed_out() == Set::<int>::empty(),
    {
        let r = ProgressCounter { issued: 0, total, handed_out: Ghost(Set::empty()) };
        assert(r.handed_out@ =~= Set::new(|i: int| 1 <= i <= 0));
        r
    }

    /// Takes the next number: one more than the last, never one handed out
    /// before; `None` once all `total` numbers are out.
    pub fn next_number(&mut self) -> (r: Option<u64>)
        requires
            old(self).wf(),
        ensures
            final(self).wf(),
            final(self).total() == old(self).total(),
            old(self).issued() < old(self).total() ==> {
                &&& r == Some((old(self).issued() + 1) as u64)
                &&& !old(self).handed_out().contains(old(self).issued() + 1int)
                &&& final(self).issued() == old(self).issued() + 1
                &&& final(self).handed_out() == old(self).handed_out().insert(old(self).issued() + 1int)
            },
            old(self).issued() == old(self).total() ==> r is None && final(self).issued() == old(self).issued()
                && final(self).handed_out() == old(self).handed_out(),
    {
        if self.issued < self.total {
            self.issued = self.issued + 1;
            let n = self.issued;
            self.handed_out = Ghost(self.handed_out@.insert(n as int));
            assert(self.handed_out@ =~= Set::new(|i: int| 1 <= i <= n));
            Some(n)
        } else {
            None
        }
    }
}

/// Once every task of a batch has taken its number, the numbers handed out are
/// exactly `1..=total`: `total` distinct numbers, none missing.
pub proof fn lemma_progress_numbers_complete(c: ProgressCounter)
    requires
        c.wf(),
        c.issued() == c.total(),
    ensures
        c.handed_out() == Set::new(|i: int| 1 <= i <= c.total()),
        c.handed_out().finite(),
        c.handed_out().len() == c.total(),
{
    vstd::set_lib::lemma_int_range(1, c.total() + 1int);
    assert(c.handed_out() =~= vstd::set_lib::set_int_range(1, c.total() + 1int));
}

// ----------------------------------------------------------------------------
// Per-task decisions
// ----------------------------------------------------------------------------

/// What a worker reports as it takes up a task.
#[derive(Debug, Clone, Copy, PartialEq, Eq, Structural)]
pub enum ProgressStatus {
    Converting,
    Anonymizing,
    Skipped,
}

/// One progress notification: the task's number, the batch size, the file.
#[derive(Debug, Clone)]
pub struct ProgressEvent {
    pub current: u64,
    pub total: u64,
    pub filename: String,
    pub status: ProgressStatus,
}

/// Whether a worker runs the transform or leaves an existing result alone.
#[derive(Debug, Clone, Copy, PartialEq, Eq, Structural)]
pub enum TaskStep {
    Skip,
    Run,
}

pub open spec fn working_status(op: Operation) -> ProgressStatus {
    match op {
        Operation::Convert => ProgressStatus::Converting,
        Operation::Anonymize => ProgressStatus::Anonymizing,
    }
}

/// Decides a task's step from whether its destination exists, and the one
/// progress event that the worker emits before the step. A task whose
/// destination exists is skipped: the transform, and so any write, is not run.
pub fn begin_task(op: Operation, destination_exists: bool, current: u64, total: u64, filename: String) -> (r: (TaskStep, ProgressEvent))
    ensures
        destination_exists ==> r.0 == TaskStep::Skip && r.1.status == ProgressStatus::Skipped,
        !destination_exists ==> r.0 == TaskStep::Run && r.1.status == working_status(op),
        r.1.current == current,
        r.1.total == total,
        r.1.filename == filename,
{
    if destination_exists {
        (TaskStep::Skip, ProgressEvent { current, total, filename, status: ProgressStatus::Skipped })
    } else {
        let status = match op {
            Operation::Convert => ProgressStatus::Converting,
            Operation::Anonymize => ProgressStatus::Anonymizing,
        };
        (TaskStep::Run, ProgressEvent { current, total, filename, status })
    }
}

/// How one task ended. Every variant carries the file's metadata, read as far
/// as it could be, so that the audit export has a row for every file.
#[derive(Debug, Clone)]
pub enum FileOutcome {
    Converted(FileMetadata),
    Skipped { metadata: FileMetadata, reason: String },
    Failed { metadata: FileMetadata, error: String },
}

/// Why a task was skipped.
pub open spec fn skip_reason(op: Operation) -> Seq<char> {
    match op {
        Operation::Convert => "already exists"@,
        Operation::Anonymize => "Output file already exists"@,
    }
}

/// The outcome of a skipped task: the metadata that could be read, or a blank
/// record where the source could not be read.
pub fn skipped_outcome(op: Operation, metadata: Option<FileMetadata>) -> (r: FileOutcome)
    ensures
        r matches FileOutcome::Skipped { metadata: m, reason } && reason@ == skip_reason(op)
            && (metadata matches Some(x) ==> m == x)
            && (metadata is None ==> m.is_blank()),
{
    let m = match metadata {
        Some(x) => x,
        None => FileMetadata::blank(),
    };
    let reason = match op {
        Operation::Convert => string_of(&chars_of("already exists")),
        Operation::Anonymize => string_of(&chars_of("Output file already exists")),
    };
    FileOutcome::Skipped { metadata: m, reason }
}

// ----------------------------------------------------------------------------
// Aggregation and report
// ----------------------------------------------------------------------------

/// The result of a whole batch.
#[derive(Debug, Clone)]
pub struct BatchReport {
    pub total: u64,
    pub successful: u64,
    pub failed: u64,
    pub skipped: u64,
    pub failed_files: Vec<String>,
    pub skipped_files: Vec<String>,
    pub output_folder: Vec<String>,
}

/// The running counters of the single aggregator of a batch.
pub struct BatchTally {
    pub total: u64,
    pub successful: u64,
    pub skipped: u64,
    pub failed_files: Vec<String>,
    pub skipped_files: Vec<String>,
}

pub open spec fn conversion_type(op: Operation) -> Seq<char> {
    match op {
        Operation::Convert => "PNG"@,
        Operation::Anonymize => "ANONYMIZE"@,
    }
}

pub open spec fn success_message(op: Operation) -> Seq<char> {
    match op {
        Operation::Convert => "Converted successfully"@,
        Operation::Anonymize => "Anonymized successfully"@,
    }
}

impl BatchTally {
    /// The number of outcomes recorded so far.
    pub open spec fn recorded(&self) -> nat {
        (self.successful + self.skipped + self.failed_files@.len()) as nat
    }

    pub open spec fn wf(&self) -> bool {
        &&& self.skipped == self.skipped_files@.len()
        &&& self.recorded() <= self.total
    }

    pub fn new(total: u64) -> (r: Self)
        ensures
            r.wf(),
            r.total == total,
            r.successful == 0,
            r.skipped == 0,
            r.failed_files@.len() == 0,
            r.skipped_files@.len() == 0,
    {
        BatchTally { total, successful: 0, skipped: 0, failed_files: Vec::new(), skipped_files: Vec::new() }
    }

    /// Folds one outcome into exactly one counter bucket and returns its log line.
    pub fn record(&mut self, op: Operation, file_name: String, file_path: String, outcome: &FileOutcome) -> (r: LogEntry)
        requires
            old(self).wf(),
            old(self).recorded() < old(self).total,
        ensures
            final(self).wf(),
            final(self).total == old(self).total,
            final(self).recorded() == old(self).recorded() + 1,
            r.file_name == file_name,
            r.file_path == file_path,
            r.conversion_type@ == conversion_type(op),
            outcome is Converted ==> {
                &&& final(self).successful == old(self).successful + 1
                &&& final(self).skipped == old(self).skipped
                &&& final(self).failed_files@ == old(self).failed_files@
                &&& final(self).skipped_files@ == old(self).skipped_files@
                &&& r.success && r.status@ == "Success"@ && r.message@ == success_message(op)
            },
            outcome matches FileOutcome::Skipped { reason, .. } ==> {
                &&& final(self).successful == old(self).successful
                &&& final(self).skipped == old(self).skipped + 1
                &&& final(self).failed_files@ == old(self).failed_files@
                &&& final(self).skipped_files@ == old(self).skipped_files@.push(file_name)
                &&& r.success && r.status@ == "Skipped"@ && r.message == reason
            },
            outcome matches FileOutcome::Failed { error, .. } ==> {
                &&& final(self).successful == old(self).successful
                &&& final(self).skipped == old(self).skipped
                &&& final(self).failed_files@ == old(self).failed_files@.push(file_name)
                &&& final(self).skipped_files@ == old(self).skipped_files@
                &&& !r.success && r.status@ == "Failed"@ && r.message == error
            },
    {
        let conversion = match op {
            Operation::Convert => string_of(&chars_of("PNG")),
            Operation::Anonymize => string_of(&chars_of("ANONYMIZE")),
        };
        match outcome {
            FileOutcome::Converted(_) => {
                self.successful = self.successful + 1;
                let message = match op {
                    Operation::Convert => string_of(&chars_of("Converted successfully")),
                    Operation::Anonymize => string_of(&chars_of("Anonymized successfully")),
                };
                LogEntry {
                    file_name,
                    file_path,
                    success: true,
                    status: string_of(&chars_of("Success")),
                    message,
                    conversion_type: conversion,
                }
            },
            FileOutcome::Skipped { reason, .. } => {
                self.skipped = self.skipped + 1;
                self.skipped_files.push(file_name.clone());
                LogEntry {
                    file_name,
                    file_path,
                    success: true,
                    status: string_of(&chars_of("Skipped")),
                    message: reason.clone(),
                    conversion_type: conversion,
                }
            },
            FileOutcome::Failed { error, .. } => {
                self.failed_files.push(file_name.clone());
                LogEntry {
                    file_name,
                    file_path,
                    success: false,
                    status: string_of(&chars_of("Failed")),
                    message: error.clone(),
                    conversion_type: conversion,
                }
            },
        }
    }

    /// The batch report. Its failure count is derived from the other two
    /// counters, never summed on its own; once every outcome is recorded it is
    /// the number of failed files.
    pub fn report(&self, output_folder: Vec<String>) -> (r: BatchReport)
        requires
            self.wf(),
        ensures
            r.total == self.total,
            r.successful == self.successful,
            r.skipped == self.skipped,
            r.failed == r.total - r.successful - r.skipped,
            r.failed_files@ == self.failed_files@,
            r.skipped_files@ == self.skipped_files@,
            r.output_folder == output_folder,
            self.recorded() == self.total ==> r.failed == self.failed_files@.len(),
    {
        BatchReport {
            total: self.total,
            successful: self.successful,
            failed: self.total - (self.successful + self.skipped),
            skipped: self.skipped,
            failed_files: copy_strings(&self.failed_files),
            skipped_files: copy_strings(&self.skipped_files),
            output_folder,
        }
    }
}

} // verus!
