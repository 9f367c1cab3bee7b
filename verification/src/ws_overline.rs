//! The overline idiom: text followed by as many overprint characters and
//! as many underscores between a pair of superscript wrappers, which a
//! printer shows as the text with a bar above it.

use vstd::prelude::*;
use vstd::string::*;
use crate::ws_chars::{OVERLINE, OVERPRINT, SUPERSCRIPT, UNDERSCORE};
use crate::ws_string::{
    contains_only_char, contains_only_print, each_pair, if_changed, lemma_each_pair,
    lemma_split_three, len_in_chars, only_char, only_print, split_first_three, split_last_three,
    split_three, split_two_suffixes,
};

verus! {

/// Whether a pair of superscript wrappers, with `left` in front of it and
/// `bars` within it, ends an overline idiom: `bars` holds nothing but
/// underscores, and `left` ends with as many printing characters followed
/// by as many overprint characters. Then the result is what stands in
/// front of these characters, and the printing characters themselves.
pub open spec fn overline_idiom(left: Seq<char>, bars: Seq<char>) -> Option<
    (Seq<char>, Seq<char>),
> {
    if only_char(bars, UNDERSCORE) {
        match split_two_suffixes(left, bars.len()) {
            Some((prefix, text, over)) => if only_char(over, OVERPRINT) && only_print(text) {
                Some((prefix, text))
            } else {
                None
            },
            None => None,
        }
    } else {
        None
    }
}

/// A pair of superscript wrappers as it was met, with the text in front of
/// it.
pub open spec fn pair_kept(left: Seq<char>, bars: Seq<char>) -> Seq<char> {
    left + seq![SUPERSCRIPT] + bars + seq![SUPERSCRIPT]
}

/// What is written for a pair of superscript wrappers: where it ends an
/// overline idiom, the text of the idiom between two overline wrappers;
/// otherwise the pair as it was met.
pub open spec fn overline_wrap() -> spec_fn(Seq<char>, Seq<char>) -> (Seq<char>, bool) {
    |left: Seq<char>, bars: Seq<char>|
        match overline_idiom(left, bars) {
            Some((prefix, text)) => (prefix + seq![OVERLINE] + text + seq![OVERLINE], true),
            None => (pair_kept(left, bars), false),
        }
}

/// The line with each overline idiom replaced by its text between two
/// overline wrappers, and whether there was any.
pub open spec fn overlined(s: Seq<char>) -> (Seq<char>, bool) {
    each_pair(s, SUPERSCRIPT, overline_wrap())
}

/// A line without an overline idiom is left as it is.
pub proof fn lemma_overlined_kept(s: Seq<char>)
    ensures
        !overlined(s).1 ==> overlined(s).0 == s,
    decreases s.len(),
{
    lemma_each_pair(s, SUPERSCRIPT, overline_wrap());
    lemma_split_three(s, SUPERSCRIPT);
    match split_three(s, SUPERSCRIPT) {
        Some((left, bars, rest)) => {
            lemma_overlined_kept(rest);
        },
        None => {},
    }
}

/// Tests whether a pair of superscript wrappers ends an overline idiom and
/// returns the text in front of the idiom, and the text that the bar goes
/// above.
pub fn match_overline<'a>(left: &'a str, bars: &str) -> (r: Option<(&'a str, &'a str)>)
    ensures
        r.deep_view() == overline_idiom(left@, bars@),
{
    if contains_only_char(bars, UNDERSCORE) {
        let len = len_in_chars(bars);
        match split_last_three(left, len) {
            Some((prefix, text, over)) => {
                if contains_only_char(over, OVERPRINT) && contains_only_print(text) {
                    Some((prefix, text))
                } else {
                    None
                }
            },
            None => None,
        }
    } else {
        None
    }
}

/// Replaces each overline idiom of the line by its text between two
/// overline wrappers. The line is read pair by pair of superscript
/// wrappers; a pair that ends no idiom stays as it is, with the text in
/// front of it, and reading goes on behind it. Returns the new line, or
/// `None` where the line holds no idiom.
pub fn process(s: &str) -> (r: Option<String>)
    ensures
        r.deep_view() == if_changed(overlined(s@)),
{
    let mut changed = false;
    let mut result = String::new();
    let mut rest = s;
    loop
        invariant
            overlined(s@).0 == result@ + overlined(rest@).0,
            overlined(s@).1 == (changed || overlined(rest@).1),
        ensures
            overlined(s@) == (result@ + rest@, changed),
        decreases rest@.len(),
    {
        proof {
            lemma_each_pair(rest@, SUPERSCRIPT, overline_wrap());
        }
        match split_first_three(rest, SUPERSCRIPT) {
            Some((left, bars, right)) => {
                let ghost before = result@;
                match match_overline(left, bars) {
                    Some((prefix, text)) => {
                        result.append(prefix);
                        result.push(OVERLINE);
                        result.append(text);
                        result.push(OVERLINE);
                        changed = true;
                    },
                    None => {
                        result.append(left);
                        result.push(SUPERSCRIPT);
                        result.append(bars);
                        result.push(SUPERSCRIPT);
                    },
                }
                assert(result@ =~= before + overline_wrap()(left@, bars@).0);
                assert(result@ + overlined(right@).0 =~= before + (overline_wrap()(left@, bars@).0
                    + overlined(right@).0));
                rest = right;
            },
            None => {
                break ;
            },
        }
    }
    if changed {
        result.append(rest);
        Some(result)
    } else {
        None
    }
}

} // verus!
