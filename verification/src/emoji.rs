//! The two status icons the command line prints, with a plain form for
//! terminals that cannot show them.

use vstd::prelude::*;

verus! {

/// The icons shown beside findings and the all-clear message.
pub struct Emojis {
    pub alarm: String,
    pub confetti: String,
}

impl Default for Emojis {
    /// The default icons.
    fn default() -> (r: Emojis)
        ensures
            r.alarm@ == "\u{1f6a8}"@,
            r.confetti@ == "\u{1f389}"@,
    {
        Emojis {
            alarm: String::from_str("\u{1f6a8}"),
            confetti: String::from_str("\u{1f389}"),
        }
    }
}

impl Emojis {
    /// No icons at all, for terminals that cannot show them.
    pub fn plain() -> (r: Emojis)
        ensures
            r.alarm@.len() == 0,
            r.confetti@.len() == 0,
    {
        Emojis { alarm: String::new(), confetti: String::new() }
    }
}

} // verus!
