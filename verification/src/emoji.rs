//! Status markers used in user-facing messages.

use vstd::prelude::*;
use vstd::string::*;

verus! {

/// A catalog of the markers the interpreter's messages use.
pub struct EmojiCatalog;

impl EmojiCatalog {
    /// The message shown when debug printing is turned on.
    pub fn debug_enabled() -> (r: String)
        ensures
            r@ == "{EMOJI_THINKING} Debug printing enabled"@,
    {
        String::from_str("{EMOJI_THINKING} Debug printing enabled")
    }

    /// The message shown when debug printing is turned off.
    pub fn debug_disabled() -> (r: String)
        ensures
            r@ == "{EMOJI_THINKING} Debug printing disabled"@,
    {
        String::from_str("{EMOJI_THINKING} Debug printing disabled")
    }

    /// The marker for an enabled or disabled state.
    pub fn status(enabled: bool) -> (r: &'static str)
        ensures
            enabled ==> r@ == "\u{1f7e2}"@,
            !enabled ==> r@ == "\u{1f534}"@,
    {
        if enabled {
            "\u{1f7e2}"
        } else {
            "\u{1f534}"
        }
    }
}

} // verus!
