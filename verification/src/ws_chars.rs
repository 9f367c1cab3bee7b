//! The WordStar control characters that the filters act on.

use vstd::prelude::*;

verus! {

// Paired markers: one opens a span, the next one of its kind closes it.
pub const OVERLINE: char = '\x01';
pub const BOLD: char = '\x02';
pub const DOUBLE: char = '\x04';
pub const UNDERLINE: char = '\x13';
pub const SUPERSCRIPT: char = '\x14';
pub const SUBSCRIPT: char = '\x16';
pub const STRIKETHROUGH: char = '\x18';
pub const ITALIC: char = '\x19';

// Parts of the overline and fraction idioms.
pub const OVERPRINT: char = '\x08';
pub const UNDERSCORE: char = '_';

// Standalone control characters, each with a fixed substitute.
pub const PHANTOM_SPACE: char = '\x06';
pub const PHANTOM_RUBOUT: char = '\x07';
pub const FORM_FEED: char = '\x0C';
pub const NON_BREAKING_SPACE: char = '\x0F';
pub const INACTIVE_SOFT_HYPHEN: char = '\x1E';
pub const ACTIVE_SOFT_HYPHEN: char = '\x1F';
pub const DELETE: char = '\x7F';

/// Number of kinds of paired markers.
pub const WRAPPER_KINDS: usize = 8;

/// The paired markers, in the order in which a line is treated for them.
pub open spec fn wrapper_kind(k: int) -> char {
    if k == 0 {
        OVERLINE
    } else if k == 1 {
        BOLD
    } else if k == 2 {
        DOUBLE
    } else if k == 3 {
        UNDERLINE
    } else if k == 4 {
        SUPERSCRIPT
    } else if k == 5 {
        SUBSCRIPT
    } else if k == 6 {
        STRIKETHROUGH
    } else {
        ITALIC
    }
}

/// The paired marker of the given rank.
pub fn wrapper_at(k: usize) -> (r: char)
    requires
        k < WRAPPER_KINDS,
    ensures
        r == wrapper_kind(k as int),
{
    if k == 0 {
        OVERLINE
    } else if k == 1 {
        BOLD
    } else if k == 2 {
        DOUBLE
    } else if k == 3 {
        UNDERLINE
    } else if k == 4 {
        SUPERSCRIPT
    } else if k == 5 {
        SUBSCRIPT
    } else if k == 6 {
        STRIKETHROUGH
    } else {
        ITALIC
    }
}

} // verus!
