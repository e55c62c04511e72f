//! Reading what the system tools report about the Cursor process.
use vstd::prelude::*;

use crate::text::{cat, contains, contains_seq};

verus! {

/// `killall -s Cursor` prints one `kill -<signal> <pid>` line per process it
/// would signal; Cursor runs when some line contains `kill `. As `kill `
/// holds no line break, that is when the output contains it.
pub fn killall_output_lists_process(stdout: &str) -> (r: bool)
    ensures
        r == contains_seq(stdout@, "kill "@),
{
    contains(stdout, "kill ")
}

/// The error when Cursor is not installed at `app_path`.
pub fn cursor_app_missing_error(app_path: &str) -> (r: String)
    ensures
        r@ == "Cursor app not found at "@ + app_path@,
{
    cat("Cursor app not found at ", app_path)
}

} // verus!
