use dicom_app::batch::{
    begin_task, build_task, build_tasks, output_layout, skipped_outcome, BatchTally, FileOutcome, Operation,
    ProgressCounter, ProgressStatus, TaskStep,
};
use dicom_app::models::FileMetadata;

fn path(parts: &[&str]) -> Vec<String> {
    parts.iter().map(|s| s.to_string()).collect()
}

fn named(name: &str) -> FileMetadata {
    let mut m = FileMetadata::blank();
    m.file_name = name.to_string();
    m
}

#[test]
fn layout_nests_output_under_input_name() {
    let (root, data) = output_layout(Operation::Convert, &path(&["out"]), &path(&["data", "study"]), false);
    assert_eq!(root, path(&["out", "study_output"]));
    assert_eq!(data, path(&["out", "study_output", "png_file"]));
}

#[test]
fn layout_flattened_and_anonymized() {
    let (root, data) = output_layout(Operation::Convert, &path(&["out"]), &path(&["data", "study"]), true);
    assert_eq!(root, path(&["out"]));
    assert_eq!(data, path(&["out", "png_file"]));
    let (root, data) = output_layout(Operation::Anonymize, &path(&["out"]), &path(&[]), false);
    assert_eq!(root, path(&["out", "dicom_output"]));
    assert_eq!(data, path(&["out", "dicom_output", "dicom_file"]));
}

#[test]
fn task_mirrors_relative_folder_and_swaps_extension() {
    let t = build_task(
        Operation::Convert,
        &path(&["data", "in"]),
        &path(&["out", "png_file"]),
        &path(&["data", "in", "sub", "a.dcm"]),
    );
    assert_eq!(t.source, path(&["data", "in", "sub", "a.dcm"]));
    assert_eq!(t.destination, path(&["out", "png_file", "sub", "a.png"]));
    assert_eq!(t.relative_folder, path(&["sub"]));
}

#[test]
fn task_names_without_extension_and_outside_root() {
    let root = path(&["data", "in"]);
    let out = path(&["o"]);
    let t = build_task(Operation::Convert, &root, &out, &path(&["elsewhere", "b.tar.dcm"]));
    assert_eq!(t.destination, path(&["o", "b.tar.png"]));
    assert!(t.relative_folder.is_empty());
    let t = build_task(Operation::Convert, &root, &out, &path(&["data", "in", "IM0001"]));
    assert_eq!(t.destination, path(&["o", "IM0001.png"]));
    let t = build_task(Operation::Convert, &root, &out, &path(&["data", "in", ".hidden"]));
    assert_eq!(t.destination, path(&["o", ".hidden.png"]));
    let t = build_task(Operation::Anonymize, &root, &out, &path(&["data", "in", "x", "y", "c.dcm"]));
    assert_eq!(t.destination, path(&["o", "x", "y", "c.dcm"]));
    assert_eq!(t.relative_folder, path(&["x", "y"]));
}

#[test]
fn tasks_keep_discovery_order() {
    let files = vec![path(&["r", "b.dcm"]), path(&["r", "a.dcm"])];
    let ts = build_tasks(Operation::Convert, &path(&["r"]), &path(&["o"]), &files);
    assert_eq!(ts.len(), 2);
    assert_eq!(ts[0].destination, path(&["o", "b.png"]));
    assert_eq!(ts[1].destination, path(&["o", "a.png"]));
}

#[test]
fn progress_numbers_cover_one_to_total_once() {
    let mut c = ProgressCounter::new(3);
    let mut seen = Vec::new();
    while let Some(n) = c.next_number() {
        seen.push(n);
    }
    assert_eq!(seen, vec![1, 2, 3]);
    assert_eq!(c.next_number(), None);
}

#[test]
fn existing_destination_is_skipped() {
    let (step, ev) = begin_task(Operation::Convert, true, 2, 5, "a.dcm".to_string());
    assert_eq!(step, TaskStep::Skip);
    assert_eq!(ev.status, ProgressStatus::Skipped);
    assert_eq!((ev.current, ev.total), (2, 5));
    assert_eq!(ev.filename, "a.dcm");
    let (step, ev) = begin_task(Operation::Convert, false, 1, 5, "b.dcm".to_string());
    assert_eq!(step, TaskStep::Run);
    assert_eq!(ev.status, ProgressStatus::Converting);
    let (step, ev) = begin_task(Operation::Anonymize, false, 1, 5, "b.dcm".to_string());
    assert_eq!(step, TaskStep::Run);
    assert_eq!(ev.status, ProgressStatus::Anonymizing);
}

#[test]
fn skipped_outcome_keeps_or_blanks_metadata() {
    match skipped_outcome(Operation::Convert, Some(named("a.dcm"))) {
        FileOutcome::Skipped { metadata, reason } => {
            assert_eq!(metadata.file_name, "a.dcm");
            assert_eq!(reason, "already exists");
        }
        _ => panic!("expected a skip"),
    }
    match skipped_outcome(Operation::Anonymize, None) {
        FileOutcome::Skipped { metadata, reason } => {
            assert_eq!(metadata.file_name, "");
            assert!(metadata.modality.is_none());
            assert_eq!(reason, "Output file already exists");
        }
        _ => panic!("expected a skip"),
    }
}

#[test]
fn report_derives_failed_from_other_counters() {
    let mut t = BatchTally::new(3);
    let l1 = t.record(Operation::Convert, "a.dcm".into(), "/in/a.dcm".into(), &FileOutcome::Converted(named("a.dcm")));
    assert!(l1.success);
    assert_eq!(l1.status, "Success");
    assert_eq!(l1.message, "Converted successfully");
    assert_eq!(l1.conversion_type, "PNG");
    let l2 = t.record(Operation::Convert, "b.dcm".into(), "/in/b.dcm".into(), &skipped_outcome(Operation::Convert, None));
    assert_eq!(l2.status, "Skipped");
    assert_eq!(l2.message, "already exists");
    let failed = FileOutcome::Failed { metadata: named("c.dcm"), error: "boom".into() };
    let l3 = t.record(Operation::Convert, "c.dcm".into(), "/in/c.dcm".into(), &failed);
    assert!(!l3.success);
    assert_eq!(l3.status, "Failed");
    assert_eq!(l3.message, "boom");
    let r = t.report(path(&["out"]));
    assert_eq!((r.total, r.successful, r.skipped, r.failed), (3, 1, 1, 1));
    assert_eq!(r.failed, r.total - r.successful - r.skipped);
    assert_eq!(r.failed_files, vec!["c.dcm".to_string()]);
    assert_eq!(r.skipped_files, vec!["b.dcm".to_string()]);
    assert_eq!(r.output_folder, path(&["out"]));
}

#[test]
fn report_counts_unrecorded_tasks_as_failed() {
    let mut t = BatchTally::new(4);
    t.record(Operation::Anonymize, "a.dcm".into(), "a".into(), &FileOutcome::Converted(named("a.dcm")));
    let r = t.report(Vec::new());
    assert_eq!((r.total, r.successful, r.skipped, r.failed), (4, 1, 0, 3));
}

#[test]
fn anonymize_log_texts() {
    let mut t = BatchTally::new(2);
    let l = t.record(Operation::Anonymize, "a.dcm".into(), "a".into(), &FileOutcome::Converted(named("a.dcm")));
    assert_eq!(l.message, "Anonymized successfully");
    assert_eq!(l.conversion_type, "ANONYMIZE");
    let l = t.record(Operation::Anonymize, "b.dcm".into(), "b".into(), &skipped_outcome(Operation::Anonymize, None));
    assert_eq!(l.message, "Output file already exists");
}

#[test]
fn rerun_into_same_output_skips_everything() {
    let files = vec![path(&["in", "A.dcm"]), path(&["in", "B.dcm"]), path(&["in", "C.dcm"])];
    let tasks = build_tasks(Operation::Convert, &path(&["in"]), &path(&["out"]), &files);
    let mut counter = ProgressCounter::new(3);
    let mut tally = BatchTally::new(3);
    for task in &tasks {
        let n = counter.next_number().unwrap();
        let name = task.source.last().unwrap().clone();
        let (step, ev) = begin_task(Operation::Convert, true, n, 3, name.clone());
        assert_eq!(step, TaskStep::Skip);
        assert_eq!(ev.status, ProgressStatus::Skipped);
        let outcome = skipped_outcome(Operation::Convert, None);
        tally.record(Operation::Convert, name.clone(), name, &outcome);
    }
    let r = tally.report(path(&["out"]));
    assert_eq!((r.total, r.skipped, r.successful, r.failed), (3, 3, 0, 0));
}
