//! Revives legacy data: dBase tables, Excel worksheets and delimited text become clean JSON and a
//! clean worksheet.
//!
//! The readers (`dbf`, `excel`, `delimited`) make rows (`value`) of what a file holds, with
//! each text cast to what it reads as (`cast`), `curate` drops what is blank or stands twice, and `json` and `sheet` lay out what is left. `convert` is
//! the way from a file to its record, and `api` says what each request is answered.
pub mod api;
pub mod cast;
pub mod convert;
pub mod curate;
pub mod dbf;
pub mod delimited;
pub mod error;
pub mod excel;
pub mod format;
pub mod json;
pub mod names;
pub mod sheet;
pub mod text;
pub mod value;
