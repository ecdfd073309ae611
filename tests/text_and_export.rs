use dicom_app::cli::parse_tag;
use dicom_app::discovery::{has_dcm_extension, has_dicm_marker, has_dicom_extension, looks_like_dicom};
use dicom_app::export::{escape_csv, log_entry_line, metadata_header_line, metadata_line, metadata_row, write_logs, write_metadata_report};
use dicom_app::metadata::{dicom_text, dicom_date, pixel_spacing};
use dicom_app::models::{DicomSummary, FileDetail, FileMetadata, LogEntry};

fn entry(name: &str, status: &str) -> LogEntry {
    LogEntry {
        file_name: name.to_string(),
        file_path: format!("/in/{}", name),
        success: true,
        status: status.to_string(),
        message: "m".to_string(),
        conversion_type: "PNG".to_string(),
    }
}

#[test]
fn summary_records() {
    let s = DicomSummary::success("a.dcm".into(), 512, 256, 16, "Explicit VR Little Endian".into());
    assert_eq!(s.status, "ok");
    assert_eq!(s.rows, Some(512));
    assert_eq!(s.columns, Some(256));
    assert_eq!(s.bits_allocated, Some(16));
    assert_eq!(s.message.as_deref(), Some("Rows: 512, Cols: 256, Bits: 16"));
    let e = DicomSummary::error("b.dcm".into(), "cannot open".into());
    assert_eq!(e.status, "error");
    assert_eq!(e.rows, None);
    assert_eq!(e.message.as_deref(), Some("cannot open"));
}

#[test]
fn file_detail_records() {
    let d = FileDetail::success("a".into(), "/a".into(), "PNG".into());
    assert!(d.success && d.error_type.is_none() && d.error_message.is_none());
    let d = FileDetail::error("a".into(), "/a".into(), "decode".into(), "bad".into(), "PNG".into());
    assert!(!d.success);
    assert_eq!(d.error_type.as_deref(), Some("decode"));
    assert_eq!(d.error_message.as_deref(), Some("bad"));
}

#[test]
fn text_is_trimmed_and_blank_is_absent() {
    assert_eq!(dicom_text("  CT \n").as_deref(), Some("CT"));
    assert_eq!(dicom_text("\u{A0}MR\u{3000}").as_deref(), Some("MR"));
    assert_eq!(dicom_text("   "), None);
    assert_eq!(dicom_text(""), None);
}

#[test]
fn study_dates_become_iso() {
    assert_eq!(dicom_date("20230115").as_deref(), Some("2023-01-15"));
    assert_eq!(dicom_date(" 2023.01.15 ").as_deref(), Some("2023-01-15"));
    assert_eq!(dicom_date("20240229123000").as_deref(), Some("2024-02-29"));
    assert_eq!(dicom_date("20000229").as_deref(), Some("2000-02-29"));
    assert_eq!(dicom_date("20230229"), None);
    assert_eq!(dicom_date("19000229"), None);
    assert_eq!(dicom_date("20231301"), None);
    assert_eq!(dicom_date("2023011"), None);
    assert_eq!(dicom_date("unknown"), None);
}

#[test]
fn pixel_spacing_separator() {
    assert_eq!(pixel_spacing("0.5\\0.25 ").as_deref(), Some("0.5, 0.25"));
    assert_eq!(pixel_spacing(" "), None);
}

#[test]
fn csv_escaping() {
    assert_eq!(escape_csv(&"plain".to_string()), "plain");
    assert_eq!(escape_csv(&"a,b".to_string()), "\"a,b\"");
    assert_eq!(escape_csv(&"say \"hi\"".to_string()), "\"say \"\"hi\"\"\"");
    assert_eq!(escape_csv(&"two\nlines".to_string()), "\"two\nlines\"");
}

#[test]
fn log_text() {
    assert_eq!(write_logs(false, &vec![]), "");
    let logs = vec![entry("a.dcm", "Success"), entry("b,c.dcm", "Failed")];
    assert_eq!(
        write_logs(false, &logs),
        "file_name,file_path,status,conversion_type\na.dcm,/in/a.dcm,Success,PNG\n\"b,c.dcm\",\"/in/b,c.dcm\",Failed,PNG\n"
    );
    assert_eq!(write_logs(true, &logs[..1].to_vec()), "a.dcm,/in/a.dcm,Success,PNG\n");
    assert_eq!(log_entry_line(&logs[0]), "a.dcm,/in/a.dcm,Success,PNG\n");
}

#[test]
fn metadata_rows_through_csv() {
    let mut m = FileMetadata::blank();
    m.file_name = "a,b.dcm".to_string();
    m.modality = Some("CT".to_string());
    m.im_width = Some(512);
    m.pixel_data = Some("Binary".to_string());
    assert_eq!(metadata_row(&m).len(), 11);
    assert_eq!(metadata_line(&m), "\"a,b.dcm\",,CT,,,,,Binary,512,,\n");
    assert_eq!(
        metadata_header_line(),
        "F_name,Study_date,Modality,Manufacturer,Study_description,Series_description,Institution_name,Pixel_data,Im_width,Im_height,Pixel_spacing\n"
    );
    assert_eq!(write_metadata_report(&vec![]), "");
    let all = write_metadata_report(&vec![m.clone(), m]);
    assert_eq!(all.lines().count(), 3);
    assert!(all.ends_with("512,,\n"));
}

#[test]
fn tag_arguments() {
    assert_eq!(parse_tag("0010,0020"), Ok((0x0010, 0x0020)));
    assert_eq!(parse_tag("7FE0,+10"), Ok((0x7fe0, 0x0010)));
    assert_eq!(parse_tag("0010"), Err("Invalid tag format: 0010. Expected 'Group,Element' (hex)".to_string()));
    assert_eq!(parse_tag("1,2,3"), Err("Invalid tag format: 1,2,3. Expected 'Group,Element' (hex)".to_string()));
    assert_eq!(parse_tag("zz,0010"), Err("Invalid group: invalid digit found in string".to_string()));
    assert_eq!(parse_tag(",0010"), Err("Invalid group: cannot parse integer from empty string".to_string()));
    assert_eq!(parse_tag("0010,10000"), Err("Invalid element: number too large to fit in target type".to_string()));
    assert_eq!(parse_tag("0010,+"), Err("Invalid element: invalid digit found in string".to_string()));
}

#[test]
fn discovery_predicates() {
    assert!(has_dicom_extension("x.DCM"));
    assert!(has_dicom_extension("x.ima"));
    assert!(has_dicom_extension("scan.Dicom"));
    assert!(!has_dicom_extension("x.png"));
    assert!(!has_dicom_extension("dcm"));
    assert!(!has_dicom_extension(".dcm"));
    assert!(has_dcm_extension("a.b.dCm"));
    assert!(!has_dcm_extension("a.ima"));
    let mut header = vec![0u8; 128];
    header.extend_from_slice(b"DICM");
    assert!(has_dicm_marker(&header));
    assert!(!has_dicm_marker(&header[..131].to_vec()));
    assert!(looks_like_dicom("IM0001", &Some(header)));
    assert!(!looks_like_dicom("IM0001", &None));
    assert!(looks_like_dicom("a.dcm", &None));
}
