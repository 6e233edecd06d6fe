//! Why a conversion failed.
use vstd::prelude::*;

verus! {

broadcast use vstd::string::group_string_axioms;

/// What kept a file from being converted.
#[derive(Debug, PartialEq)]
pub enum ConvertError {
    /// The extension is none of those that can be read.
    Unsupported,
    OpenDbf,
    ReadDbf,
    OpenExcel,
    NoSheets,
    ReadWorksheet,
    OpenCsv,
    CsvHeaders,
    CsvRecord,
    /// A clean file could not be made; the text says why.
    Output(String),
}

impl ConvertError {
    /// What the error is reported as.
    pub open spec fn text(&self) -> Seq<char> {
        match self {
            ConvertError::Unsupported => "Unsupported file type. Accepted: .dbf, .xls, .xlsx, .csv, .tsv"@,
            ConvertError::OpenDbf => "Failed to open .dbf file"@,
            ConvertError::ReadDbf => "Failed to read .dbf records"@,
            ConvertError::OpenExcel => "Failed to open Excel file"@,
            ConvertError::NoSheets => "No sheets found in workbook"@,
            ConvertError::ReadWorksheet => "Failed to read worksheet"@,
            ConvertError::OpenCsv => "Failed to open CSV file"@,
            ConvertError::CsvHeaders => "Failed to read CSV headers"@,
            ConvertError::CsvRecord => "Failed to read CSV record"@,
            ConvertError::Output(why) => why@,
        }
    }

    /// What the error is reported as.
    pub fn message(&self) -> (r: String)
        ensures
            r@ == self.text(),
    {
        match self {
            ConvertError::Unsupported => "Unsupported file type. Accepted: .dbf, .xls, .xlsx, .csv, .tsv".to_string(),
            ConvertError::OpenDbf => "Failed to open .dbf file".to_string(),
            ConvertError::ReadDbf => "Failed to read .dbf records".to_string(),
            ConvertError::OpenExcel => "Failed to open Excel file".to_string(),
            ConvertError::NoSheets => "No sheets found in workbook".to_string(),
            ConvertError::ReadWorksheet => "Failed to read worksheet".to_string(),
            ConvertError::OpenCsv => "Failed to open CSV file".to_string(),
            ConvertError::CsvHeaders => "Failed to read CSV headers".to_string(),
            ConvertError::CsvRecord => "Failed to read CSV record".to_string(),
            ConvertError::Output(why) => why.clone(),
        }
    }
}

/// What kept a clean file from being made is passed on word by word, and no other error is without
/// words of its own.
pub proof fn reasons_are_passed_on(why: String, e: ConvertError)
    ensures
        ConvertError::Output(why).text() == why@,
        e !is Output ==> e.text().len() > 0,
{
    reveal_strlit("Unsupported file type. Accepted: .dbf, .xls, .xlsx, .csv, .tsv");
    reveal_strlit("Failed to open .dbf file");
    reveal_strlit("Failed to read .dbf records");
    reveal_strlit("Failed to open Excel file");
    reveal_strlit("No sheets found in workbook");
    reveal_strlit("Failed to read worksheet");
    reveal_strlit("Failed to open CSV file");
    reveal_strlit("Failed to read CSV headers");
    reveal_strlit("Failed to read CSV record");
}

} // verus!
