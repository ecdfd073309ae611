//! The requests that a front end hands to the batch operations, and the
//! combined report of a request that runs both.
use vstd::prelude::*;
use crate::batch::BatchReport;

verus! {

/// A conversion request.
#[derive(Debug, Clone)]
pub struct DicomToPngInput {
    pub input: String,
    pub output: String,
    pub skip_excel: bool,
    pub flatten_output: bool,
}

/// An anonymization request.
#[derive(Debug, Clone)]
pub struct AnonymizeDicomInput {
    pub input: String,
    pub output: String,
    pub tags: Vec<(u16, u16)>,
    pub replacement: String,
}

/// A request for a conversion, an anonymization, or both.
#[derive(Debug, Clone)]
pub struct DicomProcessInput {
    pub convert: Option<DicomToPngInput>,
    pub anonymize: Option<AnonymizeDicomInput>,
}

impl Default for DicomProcessInput {
    fn default() -> (r: Self)
        ensures
            r.convert is None,
            r.anonymize is None,
    {
        DicomProcessInput { convert: None, anonymize: None }
    }
}

/// The reports of the operations that a request ran.
#[derive(Debug, Clone)]
pub struct ProcessReport {
    pub conversion: Option<BatchReport>,
    pub anonymization: Option<BatchReport>,
}

impl Default for ProcessReport {
    fn default() -> (r: Self)
        ensures
            r.conversion is None,
            r.anonymization is None,
    {
        ProcessReport { conversion: None, anonymization: None }
    }
}

} // verus!
