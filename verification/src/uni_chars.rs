//! Unicode characters and modifiers that the filters write.

use vstd::prelude::*;

verus! {

// Starts of the Unicode ranges of emphasised letters and digits.
pub const BOLD_UPPER_A: char = '\u{1D400}';
pub const BOLD_LOWER_A: char = '\u{1D41A}';
pub const BOLD_ZERO: char = '\u{1D7CE}';
pub const ITALIC_UPPER_A: char = '\u{1D434}';
pub const ITALIC_LOWER_A: char = '\u{1D44E}';
pub const ITALIC_LOWER_H: char = '\u{210E}';
pub const BOLD_ITALIC_UPPER_A: char = '\u{1D468}';
pub const BOLD_ITALIC_LOWER_A: char = '\u{1D482}';

// Substitutes for the special sequences, each a text of one character.
pub const DEGREE: &'static str = "\u{00B0}";
pub const ONE_QUARTER: &'static str = "\u{00BC}";
pub const HALF: &'static str = "\u{00BD}";
pub const THREE_QUARTERS: &'static str = "\u{00BE}";
pub const REPLACEMENT: &'static str = "\u{FFFD}";

// Modifiers, each written after the character that it marks.
pub const COMB_OVERLINE: char = '\u{0305}';
pub const COMB_UNDERLINE: char = '\u{0332}';
pub const COMB_STRIKETHROUGH: char = '\u{0336}';

// Substitutes for standalone control characters, each a text of one
// character.
pub const NB_SPACE: &'static str = "\u{00A0}";
pub const HYPHEN: &'static str = "\u{2010}";
pub const BLOCK: &'static str = "\u{2588}";

/// The character that a page break is drawn with.
pub const HORIZONTAL_BAR: char = '\u{2015}';

} // verus!
