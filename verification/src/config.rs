//! How a report is put out.

use std::path::PathBuf;
use vstd::prelude::*;

verus! {

/// `std::path::PathBuf`, carried through as it is: a path is only handed on
/// to whoever writes the file.
#[verifier::external_type_specification]
#[verifier::external_body]
pub struct ExPathBuf(std::path::PathBuf);

/// A report that is printed.
#[derive(Debug, Clone, Copy, PartialEq, Eq, Structural)]
pub enum SimpleOutputFormat {
    /// The tables as the table library prints them.
    PolarsPrint,
    /// The tables as comma-separated values.
    CsvPrint,
}

/// Where a report goes, and in which form.
#[derive(Debug)]
pub enum OutputFormat {
    /// The report is printed.
    Simple(SimpleOutputFormat),
    /// The tables are written to files of comma-separated values.
    CsvFile { csv_output: PathBuf },
    /// The visual report is written to a file.
    VisualFile { visual_output: PathBuf },
}

impl Default for OutputFormat {
    /// A report is printed as tables unless something else is asked for.
    fn default() -> (format: OutputFormat)
        ensures
            format == OutputFormat::Simple(SimpleOutputFormat::PolarsPrint),
    {
        OutputFormat::Simple(SimpleOutputFormat::PolarsPrint)
    }
}

} // verus!
