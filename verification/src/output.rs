//! How a command prints its result.

use vstd::prelude::*;

verus! {

/// Text for people, or JSON for programs.
#[derive(Debug, Clone, Copy, PartialEq, Eq, Structural)]
pub enum OutputFormat {
    Plain,
    Json,
}

/// The format that the `--json` flag selects.
pub fn output_format(json: bool) -> (r: OutputFormat)
    ensures
        r == (if json {
            OutputFormat::Json
        } else {
            OutputFormat::Plain
        }),
{
    if json {
        OutputFormat::Json
    } else {
        OutputFormat::Plain
    }
}

} // verus!
