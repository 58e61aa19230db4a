//! The lines that a run shows. A mark in front of each line is left to the console.

use crate::text;
use crate::text::{decimal_of, join};
use vstd::prelude::*;
use vstd::string::*;

verus! {

/// Whether a progress bar is shown for so many items.
pub fn shows_progress(items: u64, quiet: bool) -> (result: bool)
    ensures
        result == (!quiet && items > 0),
{
    !quiet && items > 0
}

/// The line for a file that was written.
pub fn ok_line(label: &str, rel: &str, dest: &str) -> (line: String)
    ensures
        line@ == label@ + "  "@ + rel@ + "  ->  "@ + dest@,
{
    let mut line = String::from_str(label);
    line.append("  ");
    line.append(rel);
    line.append("  ->  ");
    line.append(dest);
    line
}

/// The line for metadata that was restored.
pub fn metadata_line(rel: &str, dest: &str, remapped: usize) -> (line: String)
    ensures
        line@ == "metadata  "@ + rel@ + "  ->  "@ + dest@ + "  ("@ + text::decimal(remapped as nat)
            + " method fields remapped)"@,
{
    let mut line = String::from_str("metadata  ");
    line.append(rel);
    line.append("  ->  ");
    line.append(dest);
    line.append("  (");
    line.append(decimal_of(remapped as u128).as_str());
    line.append(" method fields remapped)");
    line
}

/// The line for a file that could not be handled.
pub fn err_line(rel: &str, message: &str) -> (line: String)
    ensures
        line@ == rel@ + "  "@ + message@,
{
    let mut line = String::from_str(rel);
    line.append("  ");
    line.append(message);
    line
}

/// The line for a file that was unpacked but failed the integrity check.
pub fn suspect_line(rel: &str, issues: &Vec<String>) -> (line: String)
    ensures
        line@ == rel@ + "  integrity check failed: "@ + text::joined(
            text::contents(issues@),
            "; "@,
        ),
{
    let mut line = String::from_str(rel);
    line.append("  integrity check failed: ");
    line.append(join(issues, "; ").as_str());
    line
}

} // verus!
