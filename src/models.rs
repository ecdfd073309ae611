//! Plain records that the batch operations hand to their callers.
use vstd::prelude::*;
use crate::text::{chars_of, decimal_of, push_all, push_decimal, string_of};

verus! {

/// Summary of one decoded DICOM file.
#[derive(Debug, Clone)]
pub struct DicomSummary {
    pub file_name: String,
    pub rows: Option<u32>,
    pub columns: Option<u32>,
    pub bits_allocated: Option<u16>,
    pub transfer_syntax: Option<String>,
    pub status: String,
    pub message: Option<String>,
}

/// The message of a successful summary: `Rows: r, Cols: c, Bits: b`.
pub open spec fn summary_message(rows: nat, columns: nat, bits: nat) -> Seq<char> {
    "Rows: "@ + decimal_of(rows) + ", Cols: "@ + decimal_of(columns) + ", Bits: "@ + decimal_of(bits)
}

impl DicomSummary {
    /// The summary of a file whose pixel data decoded.
    pub fn success(
        file_name: String,
        rows: u32,
        columns: u32,
        bits_allocated: u16,
        transfer_syntax: String,
    ) -> (r: Self)
        ensures
            r.file_name == file_name,
            r.rows == Some(rows),
            r.columns == Some(columns),
            r.bits_allocated == Some(bits_allocated),
            r.transfer_syntax == Some(transfer_syntax),
            r.status@ == "ok"@,
            r.message matches Some(m) && m@ == summary_message(rows as nat, columns as nat, bits_allocated as nat),
    {
        let mut m: Vec<char> = chars_of("Rows: ");
        push_decimal(rows as u128, &mut m);
        push_all(&mut m, &chars_of(", Cols: "));
        push_decimal(columns as u128, &mut m);
        push_all(&mut m, &chars_of(", Bits: "));
        push_decimal(bits_allocated as u128, &mut m);
        DicomSummary {
            file_name,
            rows: Some(rows),
            columns: Some(columns),
            bits_allocated: Some(bits_allocated),
            transfer_syntax: Some(transfer_syntax),
            status: string_of(&chars_of("ok")),
            message: Some(string_of(&m)),
        }
    }

    /// The summary of a file that could not be read or decoded.
    pub fn error(file_name: String, err: String) -> (r: Self)
        ensures
            r.file_name == file_name,
            r.rows is None,
            r.columns is None,
            r.bits_allocated is None,
            r.transfer_syntax is None,
            r.status@ == "error"@,
            r.message == Some(err),
    {
        DicomSummary {
            file_name,
            rows: None,
            columns: None,
            bits_allocated: None,
            transfer_syntax: None,
            status: string_of(&chars_of("error")),
            message: Some(err),
        }
    }
}


/// Name and location of one DICOM file.
#[derive(Debug, Clone)]
pub struct DicomFileDescriptor {
    pub file_name: String,
    pub file_path: String,
}

/// Per-file result line of a conversion, successful or not.
#[derive(Debug, Clone)]
pub struct FileDetail {
    pub file_name: String,
    pub file_path: String,
    pub success: bool,
    pub error_type: Option<String>,
    pub error_message: Option<String>,
    pub conversion_type: String,
}

impl FileDetail {
    /// The detail of a file that was converted.
    pub fn success(file_name: String, file_path: String, conversion_type: String) -> (r: Self)
        ensures
            r.file_name == file_name,
            r.file_path == file_path,
            r.success,
            r.error_type is None,
            r.error_message is None,
            r.conversion_type == conversion_type,
    {
        FileDetail { file_name, file_path, success: true, error_type: None, error_message: None, conversion_type }
    }

    /// The detail of a file that failed, with the kind and text of the failure.
    pub fn error(
        file_name: String,
        file_path: String,
        error_type: String,
        error_message: String,
        conversion_type: String,
    ) -> (r: Self)
        ensures
            r.file_name == file_name,
            r.file_path == file_path,
            !r.success,
            r.error_type == Some(error_type),
            r.error_message == Some(error_message),
            r.conversion_type == conversion_type,
    {
        FileDetail {
            file_name,
            file_path,
            success: false,
            error_type: Some(error_type),
            error_message: Some(error_message),
            conversion_type,
        }
    }
}

/// Audit attributes of one processed file; one row of the metadata export.
/// `folder_relative` holds the path components of the file's folder below the
/// input root (empty for the root itself).
#[derive(Debug, Clone)]
pub struct FileMetadata {
    pub folder_relative: Vec<String>,
    pub file_name: String,
    pub study_date: Option<String>,
    pub modality: Option<String>,
    pub manufacturer: Option<String>,
    pub study_description: Option<String>,
    pub series_description: Option<String>,
    pub institution_name: Option<String>,
    pub pixel_data: Option<String>,
    pub im_width: Option<u32>,
    pub im_height: Option<u32>,
    pub pixel_spacing: Option<String>,
}

impl FileMetadata {
    /// True of a record that holds nothing: no folder, an empty name, no attribute.
    pub open spec fn is_blank(&self) -> bool {
        &&& self.folder_relative@.len() == 0
        &&& self.file_name@.len() == 0
        &&& self.study_date is None
        &&& self.modality is None
        &&& self.manufacturer is None
        &&& self.study_description is None
        &&& self.series_description is None
        &&& self.institution_name is None
        &&& self.pixel_data is None
        &&& self.im_width is None
        &&& self.im_height is None
        &&& self.pixel_spacing is None
    }

    /// The record of a file of which nothing could be read.
    pub fn blank() -> (r: Self)
        ensures
            r.is_blank(),
    {
        FileMetadata {
            folder_relative: Vec::new(),
            file_name: String::new(),
            study_date: None,
            modality: None,
            manufacturer: None,
            study_description: None,
            series_description: None,
            institution_name: None,
            pixel_data: None,
            im_width: None,
            im_height: None,
            pixel_spacing: None,
        }
    }
}

impl Default for FileMetadata {
    fn default() -> (r: Self)
        ensures
            r.is_blank(),
    {
        FileMetadata::blank()
    }
}

/// One line of the processing log.
#[derive(Debug, Clone)]
pub struct LogEntry {
    pub file_name: String,
    pub file_path: String,
    pub success: bool,
    pub status: String,
    pub message: String,
    pub conversion_type: String,
}

/// One element of a file, as a tag listing shows it.
#[derive(Debug, Clone)]
pub struct DicomTag {
    pub group: u16,
    pub element: u16,
    pub name: String,
    pub vr: String,
    pub value: String,
}

} // verus!
