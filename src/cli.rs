//! The command-line settings of the query tool and where it writes reports.
use vstd::prelude::*;
use crate::ast::{eq_ignore_ascii_case, str_eq_ignore_ascii_case};

verus! {

/// Command-line settings: the query file, an optional output file, and which
/// intermediate results to print.
#[derive(Debug, Clone, PartialEq)]
pub struct CliArgs {
    pub query: String,
    pub output: Option<String>,
    pub tokens: bool,
    pub ast: bool,
    pub show: bool,
}

/// The format of an exported result, chosen by the output file's extension.
#[derive(Debug, Clone, Copy, PartialEq, Eq, Structural)]
pub enum ExportFormat {
    Csv,
    Json,
    Unsupported,
}

/// The format that an extension names, up to ASCII case.
pub open spec fn format_of(ext: Seq<char>) -> ExportFormat {
    if eq_ignore_ascii_case(ext, "csv"@) {
        ExportFormat::Csv
    } else if eq_ignore_ascii_case(ext, "json"@) {
        ExportFormat::Json
    } else {
        ExportFormat::Unsupported
    }
}

/// The directory that reports of a format go to.
pub open spec fn report_dir_of(f: ExportFormat) -> Seq<char> {
    match f {
        ExportFormat::Csv => "reports/csv"@,
        ExportFormat::Json => "reports/json"@,
        ExportFormat::Unsupported => "reports"@,
    }
}

impl ExportFormat {
    /// The format named by an output file's extension.
    pub fn from_extension(ext: &str) -> (r: Self)
        ensures
            r == format_of(ext@),
    {
        if str_eq_ignore_ascii_case(ext, "csv") {
            ExportFormat::Csv
        } else if str_eq_ignore_ascii_case(ext, "json") {
            ExportFormat::Json
        } else {
            ExportFormat::Unsupported
        }
    }

    /// The directory that reports of this format go to.
    pub fn report_dir(&self) -> (r: String)
        ensures
            r@ == report_dir_of(*self),
    {
        match self {
            ExportFormat::Csv => "reports/csv".to_owned(),
            ExportFormat::Json => "reports/json".to_owned(),
            ExportFormat::Unsupported => "reports".to_owned(),
        }
    }

    /// The path that a report named `file_name` is written to.
    pub fn report_path(&self, file_name: &str) -> (r: String)
        ensures
            r@ == report_dir_of(*self) + "/"@ + file_name@,
    {
        let mut p = self.report_dir();
        p.append("/");
        p.append(file_name);
        p
    }
}

} // verus!
