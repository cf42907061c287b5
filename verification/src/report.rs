//! Report generation: formatting mutation-testing results.
//!
//! Supports several output formats and returns formatted strings that the
//! caller can write wherever needed.
pub mod html;
pub mod json;
pub mod text;
pub mod types;

pub use types::MutationReport;

use crate::config::types::OutputFormat;
use crate::error::Error;
use vstd::prelude::*;

verus! {

/// Format a mutation report in the given output format.
///
/// When `colored` is true and the format is [`OutputFormat::Text`], terminal
/// colors are used to highlight the output.
///
/// Returns the formatted report. The caller decides where to write the
/// output (stdout, file, etc.).
pub fn format_report(
    report: &MutationReport,
    format: &OutputFormat,
    colored: bool,
) -> (r: Result<String, Error>)
    requires
        report.is_countable(),
    ensures
        match *format {
            OutputFormat::Text => r matches Ok(text) && text@ == text::report_text(*report, colored),
            OutputFormat::Json => r matches Ok(text) && text@ == crate::tree::pretty(
                json::report_view(*report),
            ),
            OutputFormat::Html => r matches Ok(page) && html::is_page(*report, page@),
        },
{
    match *format {
        OutputFormat::Text => text::format_text(report, colored),
        OutputFormat::Json => json::format_json(report),
        OutputFormat::Html => html::format_html(report),
    }
}

} // verus!
