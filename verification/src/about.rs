//! Text shown in the About panel.
use vstd::prelude::*;

use crate::text::cat;

verus! {

pub const APP_NAME: &'static str = "Multi Cursor";

pub const REPO_URL: &'static str = "https://github.com/claudio-silva/multi-cursor";

pub const CREDITS_INTRO: &'static str =
    "\nSwitch between Cursor accounts and isolated environments.\n\n© 2026 Cláudio Silva\n";

/// Credits text including the repository URL (used where attributed links are unavailable).
pub fn credits_text() -> (r: String)
    ensures
        r@ == CREDITS_INTRO@ + REPO_URL@,
{
    cat(CREDITS_INTRO, REPO_URL)
}

} // verus!
