//! Underlines and overlines shown by combining characters, with the
//! control characters and the whitespace at the ends of an underlined text
//! left without an underline.

use vstd::prelude::*;
use vstd::string::*;
use crate::text::{char_is_control, char_is_space, is_control, is_space};
use crate::uni_chars::COMB_UNDERLINE;
use crate::ws_chars::UNDERLINE;
use crate::ws_emphasis::{overlined_combining, with_combiner};
use crate::ws_string::{
    decides, each_pair, if_changed, lemma_each_pair, only_char, only_print, split_ends,
    split_suffix, split_three, split_two_suffixes,
};

verus! {

/// What is written for a pair of underline wrappers: the text within it
/// with an underline under each character but the control characters at
/// its ends and the whitespace next to those.
pub open spec fn underline_inner_pair() -> spec_fn(Seq<char>, Seq<char>) -> (Seq<char>, bool) {
    |left: Seq<char>, within: Seq<char>|
        {
            let (ctrl_left, unwrapped, ctrl_right) = split_ends(within, |c: char| is_control(c));
            let (spc_left, text, spc_right) = split_ends(unwrapped, |c: char| is_space(c));
            (
                left + ctrl_left + spc_left + with_combiner(text, COMB_UNDERLINE) + spc_right
                    + ctrl_right,
                true,
            )
        }
}

/// The line with each pair of underline wrappers taken out and the text
/// within it underlined, and whether it holds a pair.
pub open spec fn underlined_inner(s: Seq<char>) -> (Seq<char>, bool) {
    each_pair(s, UNDERLINE, underline_inner_pair())
}

/// Length of the text in characters, not bytes.
pub fn len_in_chars(s: &str) -> (r: usize)
    ensures
        r == s@.len(),
{
    crate::ws_string::len_in_chars(s)
}

/// Whether the text holds no character but `only`.
pub fn contains_only_char(s: &str, only: char) -> (r: bool)
    ensures
        r == only_char(s@, only),
{
    crate::ws_string::contains_only_char(s, only)
}

/// Whether the text holds no ASCII control character.
pub fn contains_only_print(s: &str) -> (r: bool)
    ensures
        r == only_print(s@),
{
    crate::ws_string::contains_only_print(s)
}

/// Splits the text at the first two occurrences of `ch`; `None` where `ch`
/// occurs less than twice.
pub fn split_first_three(s: &str, ch: char) -> (r: Option<(&str, &str, &str)>)
    ensures
        r.deep_view() == split_three(s@, ch),
{
    crate::ws_string::split_first_three(s, ch)
}

/// Splits the text in front of its last `len` characters; `None` where it
/// is shorter.
pub fn split_last_two(s: &str, len: usize) -> (r: Option<(&str, &str)>)
    ensures
        r.deep_view() == split_suffix(s@, len as nat),
{
    crate::ws_string::split_last_two(s, len)
}

/// Splits off the last `len` characters of the text and the `len`
/// characters in front of those; `None` where it is shorter than both.
pub fn split_last_three(s: &str, len: usize) -> (r: Option<(&str, &str, &str)>)
    ensures
        r.deep_view() == split_two_suffixes(s@, len as nat),
{
    crate::ws_string::split_last_three(s, len)
}

/// Splits off the characters at both ends of the text that `func` accepts.
/// A text of accepted characters alone is returned as the third part, with
/// the other two empty.
pub fn split_wrapped_text<F: Fn(&char) -> bool>(s: &str, func: F) -> (r: (&str, &str, &str))
    requires
        forall|c: char| #[trigger] call_requires(func, (&c,)),
    ensures
        forall|pred: spec_fn(char) -> bool| #[trigger]
            decides(func, pred) ==> r.deep_view() == split_ends(s@, pred),
{
    crate::ws_string::split_wrapped_text(s, func)
}

/// Writes the combiner after each character of the text that is no ASCII
/// control character.
pub fn add_combiner(s: &str, combiner: char) -> (r: String)
    ensures
        r@ == with_combiner(s@, combiner),
{
    crate::ws_emphasis::add_combiner(s, combiner)
}

/// Takes each pair of underline wrappers out of the line and underlines the
/// text within it. The control characters at both ends of that text, and
/// the whitespace next to them, stay without an underline. Returns the new
/// line, or `None` where the line holds no pair.
pub fn process_underlines(s: &str) -> (r: Option<String>)
    ensures
        r.deep_view() == if_changed(underlined_inner(s@)),
{
    let mut changed = false;
    let mut result = String::new();
    let mut rest = s;
    loop
        invariant
            underlined_inner(s@).0 == result@ + underlined_inner(rest@).0,
            underlined_inner(s@).1 == (changed || underlined_inner(rest@).1),
        ensures
            underlined_inner(s@) == (result@ + rest@, changed),
        decreases rest@.len(),
    {
        proof {
            lemma_each_pair(rest@, UNDERLINE, underline_inner_pair());
        }
        match split_first_three(rest, UNDERLINE) {
            Some((left, within, right)) => {
                let ghost sofar = result@;
                let is_control_char = |c: &char| -> (r: bool)
                    ensures
                        r == is_control(*c),
                    { char_is_control(*c) };
                let is_space_char = |c: &char| -> (r: bool)
                    ensures
                        r == is_space(*c),
                    { char_is_space(*c) };
                assert(decides(is_control_char, |c: char| is_control(c)));
                assert(decides(is_space_char, |c: char| is_space(c)));
                result.append(left);
                let (ctrl_left, unwrapped, ctrl_right) = split_wrapped_text(
                    within,
                    is_control_char,
                );
                result.append(ctrl_left);
                let (spc_left, text, spc_right) = split_wrapped_text(unwrapped, is_space_char);
                result.append(spc_left);
                let combined = add_combiner(text, COMB_UNDERLINE);
                result.append(combined.as_str());
                result.append(spc_right);
                result.append(ctrl_right);
                changed = true;
                assert(result@ =~= sofar + underline_inner_pair()(left@, within@).0);
                assert(result@ + underlined_inner(right@).0 =~= sofar + (underline_inner_pair()(
                    left@,
                    within@,
                ).0 + underlined_inner(right@).0));
                rest = right;
            },
            None => {
                break ;
            },
        }
    }
    if changed {
        result.append(rest);
        Some(result)
    } else {
        None
    }
}

/// Replaces each overline idiom of the line by its text with the combining
/// overline after each character. Returns the new line, or `None` where
/// the line holds no idiom.
pub fn process_overlines(s: &str) -> (r: Option<String>)
    ensures
        r.deep_view() == if_changed(overlined_combining(s@)),
{
    crate::ws_emphasis::process_overlines(s)
}

} // verus!
