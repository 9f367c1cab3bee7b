//! Emphasis written out as text: whitespace aligned with the wrappers,
//! underline and overline shown by combining characters, and the other
//! wrappers replaced by Markdown markers.

use vstd::prelude::*;
use vstd::string::*;
use crate::text::{
    char_is_control, char_is_space, free_of, is_control, is_space, lemma_space_count_all,
    lemma_occurrences_concat, lemma_space_count_concat, lemma_take_step, lemma_without_concat,
    lemma_without_free, occurrences,
    lemma_without_one, lemma_without_spaces, space_count, without,
};
use crate::uni_chars::{COMB_OVERLINE, COMB_UNDERLINE};
use crate::ws_chars::{
    wrapper_at, wrapper_kind, BOLD, DOUBLE, ITALIC, STRIKETHROUGH, SUPERSCRIPT, UNDERLINE,
    WRAPPER_KINDS,
};
use crate::ws_overline::{match_overline, overline_idiom, pair_kept};
use crate::ws_string::{
    decides, each_pair, first_from, if_changed, lemma_each_pair, lemma_first_from, lemma_split_ends,
    lemma_split_three, lemma_split_three_is, lemma_split_three_none, lemma_split_three_prefix,
    lemma_split_spaces, split_ends, split_first_three, split_space_at_ends, split_spaces,
    split_three, split_wrapped_text,
};

verus! {

/// The line that a chain of filters has arrived at: the last replacement,
/// or the line itself where no filter has made one yet.
pub open spec fn line_of(s: Seq<char>, sofar: Option<Seq<char>>) -> Seq<char> {
    match sofar {
        Some(t) => t,
        None => s,
    }
}

/// The outcome of a chain of filters after one more: the replacement that
/// the filter made, or what the chain had before.
pub open spec fn or_before(next: Option<Seq<char>>, sofar: Option<Seq<char>>) -> Option<
    Seq<char>,
> {
    match next {
        Some(t) => Some(t),
        None => sofar,
    }
}

/// The text within a pair in three parts: the ASCII whitespace at its
/// start, the text between, and the ASCII whitespace at its end. Whitespace
/// alone counts as whitespace at the start where `front` is set, and as
/// whitespace at the end where it is not.
pub open spec fn split_within(s: Seq<char>, front: bool) -> (Seq<char>, Seq<char>, Seq<char>) {
    if front {
        split_spaces(s)
    } else {
        split_ends(s, |c: char| is_space(c))
    }
}

/// The three parts of `split_within` make up the text, and the outer two
/// hold whitespace only.
pub proof fn lemma_split_within(s: Seq<char>, front: bool)
    ensures
        ({
            let (before, middle, after) = split_within(s, front);
            &&& s == before + middle + after
            &&& forall|i: int| 0 <= i < before.len() ==> is_space(before[i])
            &&& forall|i: int| 0 <= i < after.len() ==> is_space(after[i])
        }),
{
    lemma_split_spaces(s);
    lemma_split_ends(s, |c: char| is_space(c));
}

/// What is written for a pair of the wrapper `w`: the whitespace at the
/// start of the text within the pair stands in front of the pair, the
/// whitespace at its end behind the pair. A change if there is any such
/// whitespace. `front` says on which side whitespace alone goes.
pub open spec fn fix_pair(w: char, front: bool) -> spec_fn(Seq<char>, Seq<char>) -> (
    Seq<char>,
    bool,
) {
    |left: Seq<char>, within: Seq<char>|
        {
            let (before, middle, after) = split_within(within, front);
            (
                left + before + seq![w] + middle + seq![w] + after,
                before.len() > 0 || after.len() > 0,
            )
        }
}

/// The line with the whitespace inside each pair of `w` moved outside, and
/// whether there was any. `front` says on which side of a pair whitespace
/// alone goes.
pub open spec fn fixed(s: Seq<char>, w: char, front: bool) -> (Seq<char>, bool) {
    each_pair(s, w, fix_pair(w, front))
}

/// The line after the first `k` wrapper kinds have been fixed, one after
/// the other, each on the outcome of those before it. `None` where none of
/// them moved any whitespace.
pub open spec fn fixed_upto(s: Seq<char>, k: int) -> Option<Seq<char>>
    decreases k,
{
    if k <= 0 {
        None
    } else {
        let sofar = fixed_upto(s, k - 1);
        or_before(if_changed(fixed(line_of(s, sofar), wrapper_kind(k - 1), false)), sofar)
    }
}

/// The line after all wrapper kinds have been fixed once.
pub open spec fn fixed_all(s: Seq<char>) -> Option<Seq<char>> {
    fixed_upto(s, WRAPPER_KINDS as int)
}

/// What is written for a pair of wrappers that is replaced by the marker
/// `by`.
pub open spec fn replace_pair(by: Seq<char>) -> spec_fn(Seq<char>, Seq<char>) -> (
    Seq<char>,
    bool,
) {
    |left: Seq<char>, within: Seq<char>| (left + by + within + by, true)
}

/// The line with each wrapper of each pair of `w` replaced by the marker
/// `by`, and whether it holds a pair.
pub open spec fn replaced(s: Seq<char>, w: char, by: Seq<char>) -> (Seq<char>, bool) {
    each_pair(s, w, replace_pair(by))
}

/// `s` with `combiner` after each character that is no ASCII control
/// character.
pub open spec fn with_combiner(s: Seq<char>, combiner: char) -> Seq<char>
    decreases s.len(),
{
    if s.len() == 0 {
        Seq::empty()
    } else {
        let front = with_combiner(s.drop_last(), combiner).push(s.last());
        if is_control(s.last()) {
            front
        } else {
            front.push(combiner)
        }
    }
}

/// What is written for a pair of underline wrappers: the text within it,
/// underlined character by character.
pub open spec fn underline_pair() -> spec_fn(Seq<char>, Seq<char>) -> (Seq<char>, bool) {
    |left: Seq<char>, within: Seq<char>| (left + with_combiner(within, COMB_UNDERLINE), true)
}

/// The line with each pair of underline wrappers taken out and the text
/// within it underlined, and whether it holds a pair.
pub open spec fn underlined(s: Seq<char>) -> (Seq<char>, bool) {
    each_pair(s, UNDERLINE, underline_pair())
}

/// What is written for a pair of superscript wrappers: where it ends an
/// overline idiom, the text of the idiom overlined character by character;
/// otherwise the pair as it was met.
pub open spec fn overline_combine() -> spec_fn(Seq<char>, Seq<char>) -> (Seq<char>, bool) {
    |left: Seq<char>, bars: Seq<char>|
        match overline_idiom(left, bars) {
            Some((prefix, text)) => (prefix + with_combiner(text, COMB_OVERLINE), true),
            None => (pair_kept(left, bars), false),
        }
}

/// The line with each overline idiom replaced by its text, overlined
/// character by character, and whether there was any.
pub open spec fn overlined_combining(s: Seq<char>) -> (Seq<char>, bool) {
    each_pair(s, SUPERSCRIPT, overline_combine())
}

/// Number of wrapper kinds that have a Markdown marker.
pub const CONVERSIONS: usize = 4;

/// The wrapper kinds that have a Markdown marker, in the order in which
/// they are replaced.
pub open spec fn conversion_wrapper(k: int) -> char {
    if k == 0 {
        BOLD
    } else if k == 1 {
        ITALIC
    } else if k == 2 {
        STRIKETHROUGH
    } else {
        DOUBLE
    }
}

/// The Markdown marker of each of these kinds.
pub open spec fn conversion_marker(k: int) -> Seq<char> {
    if k == 1 {
        seq!['*']
    } else if k == 2 {
        seq!['~', '~']
    } else {
        seq!['*', '*']
    }
}

/// The line after the first `k` kinds have been replaced by their markers,
/// one after the other. `None` where the line holds no pair of any of
/// them.
pub open spec fn converted_upto(s: Seq<char>, k: int) -> Option<Seq<char>>
    decreases k,
{
    if k <= 0 {
        None
    } else {
        let sofar = converted_upto(s, k - 1);
        or_before(
            if_changed(
                replaced(line_of(s, sofar), conversion_wrapper(k - 1), conversion_marker(k - 1)),
            ),
            sofar,
        )
    }
}

/// The line with bold, italic, strikethrough and double strike replaced by
/// their Markdown markers.
pub open spec fn converted(s: Seq<char>) -> Option<Seq<char>> {
    converted_upto(s, CONVERSIONS as int)
}

/// Number of whitespace characters that stand inside a pair of `w`, the
/// pairs made from left to right.
pub open spec fn inside(s: Seq<char>, w: char) -> nat
    decreases s.len(),
{
    match split_three(s, w) {
        Some((left, within, rest)) => {
            proof {
                lemma_split_three(s, w);
            }
            space_count(within) + inside(rest, w)
        },
        None => 0,
    }
}

/// Number of whitespace characters inside pairs, summed over the wrapper
/// kinds. Whitespace inside pairs of several kinds counts for each.
pub open spec fn enclosed(s: Seq<char>) -> nat {
    inside(s, wrapper_kind(0)) + inside(s, wrapper_kind(1)) + inside(s, wrapper_kind(2)) + inside(
        s,
        wrapper_kind(3),
    ) + inside(s, wrapper_kind(4)) + inside(s, wrapper_kind(5)) + inside(s, wrapper_kind(6))
        + inside(s, wrapper_kind(7))
}

/// Where fixing a wrapper finds no whitespace to move, the line is left
/// as it is.
pub proof fn lemma_fixed_kept(s: Seq<char>, w: char, front: bool)
    ensures
        !fixed(s, w, front).1 ==> fixed(s, w, front).0 == s,
    decreases s.len(),
{
    lemma_each_pair(s, w, fix_pair(w, front));
    lemma_split_three(s, w);
    match split_three(s, w) {
        Some((left, within, rest)) => {
            lemma_fixed_kept(rest, w, front);
            let (before, middle, after) = split_within(within, front);
            lemma_split_within(within, front);
            if !fixed(s, w, front).1 {
                assert(before + middle + after =~= middle);
                assert(fixed(s, w, front).0 =~= left + seq![w] + within + seq![w] + rest);
            }
        },
        None => {},
    }
}

/// Fixing a wrapper loses and invents nothing: each character, the wrapper
/// too, occurs in the line as often as before. A wrapper without a partner
/// is still there.
pub proof fn lemma_fixed_keeps(s: Seq<char>, w: char, c: char, front: bool)
    ensures
        occurrences(fixed(s, w, front).0, c) == occurrences(s, c),
    decreases s.len(),
{
    lemma_each_pair(s, w, fix_pair(w, front));
    lemma_split_three(s, w);
    match split_three(s, w) {
        Some((left, within, rest)) => {
            lemma_fixed_keeps(rest, w, c, front);
            let (before, middle, after) = split_within(within, front);
            lemma_split_within(within, front);
            let f = fixed(rest, w, front).0;
            let one = seq![w];
            // the line as it was
            lemma_occurrences_concat(left, one, c);
            lemma_occurrences_concat(left + one, within, c);
            lemma_occurrences_concat(left + one + within, one, c);
            lemma_occurrences_concat(left + one + within + one, rest, c);
            // the line as it is
            lemma_occurrences_concat(left, before, c);
            lemma_occurrences_concat(left + before, one, c);
            lemma_occurrences_concat(left + before + one, middle, c);
            lemma_occurrences_concat(left + before + one + middle, one, c);
            lemma_occurrences_concat(left + before + one + middle + one, after, c);
            lemma_occurrences_concat(left + before + one + middle + one + after, f, c);
            // the text within the pair
            lemma_occurrences_concat(before, middle, c);
            lemma_occurrences_concat(before + middle, after, c);
        },
        None => {},
    }
}

/// Text in front that is free of the wrapper holds nothing inside a pair
/// and changes no pair.
pub proof fn lemma_inside_prefix(p: Seq<char>, x: Seq<char>, w: char)
    requires
        free_of(p, w),
    ensures
        inside(p + x, w) == inside(x, w),
{
    lemma_split_three_prefix(p, x, w);
    lemma_split_three(x, w);
    lemma_split_three(p + x, w);
}

/// Fixing a wrapper leaves no more whitespace inside its pairs than there
/// was, and less where it changes the line.
pub proof fn lemma_fixed_inside(s: Seq<char>, w: char, front: bool)
    requires
        !is_space(w),
    ensures
        inside(fixed(s, w, front).0, w) <= inside(s, w),
        fixed(s, w, front).1 ==> inside(fixed(s, w, front).0, w) < inside(s, w),
    decreases s.len(),
{
    lemma_each_pair(s, w, fix_pair(w, front));
    lemma_split_three(s, w);
    match split_three(s, w) {
        Some((left, within, rest)) => {
            lemma_fixed_inside(rest, w, front);
            let (before, middle, after) = split_within(within, front);
            lemma_split_within(within, front);
            let f = fixed(rest, w, front).0;
            let out = fix_pair(w, front)(left, within).0;
            let whole = fixed(s, w, front).0;
            assert(whole == out + f);
            assert(whole =~= (left + before) + seq![w] + middle + seq![w] + (after + f));
            assert forall|i: int| 0 <= i < middle.len() implies middle[i] != w by {
                assert(within[before.len() + i] == middle[i]);
            }
            assert forall|i: int| 0 <= i < (left + before).len() implies (left + before)[i]
                != w by {
                if i >= left.len() {
                    assert((left + before)[i] == before[i - left.len()]);
                }
            }
            lemma_split_three_is(left + before, middle, after + f, w);
            lemma_split_three(whole, w);
            lemma_inside_prefix(after, f, w);
            lemma_space_count_concat(before, middle);
            lemma_space_count_concat(before + middle, after);
            lemma_space_count_all(before);
            lemma_space_count_all(after);
        },
        None => {},
    }
}

/// Fixing a wrapper moves this wrapper only: without it the line is as it
/// was.
pub proof fn lemma_fixed_without(s: Seq<char>, w: char, front: bool)
    ensures
        without(fixed(s, w, front).0, w) == without(s, w),
    decreases s.len(),
{
    lemma_each_pair(s, w, fix_pair(w, front));
    lemma_split_three(s, w);
    match split_three(s, w) {
        Some((left, within, rest)) => {
            lemma_fixed_without(rest, w, front);
            let (before, middle, after) = split_within(within, front);
            lemma_split_within(within, front);
            let f = fixed(rest, w, front).0;
            let one = seq![w];
            lemma_without_one(w, w);
            let e = Seq::<char>::empty();
            // the line as it was
            lemma_without_concat(left, one, w);
            lemma_without_concat(left + one, within, w);
            lemma_without_concat(left + one + within, one, w);
            lemma_without_concat(left + one + within + one, rest, w);
            // the line as it is
            lemma_without_concat(left, before, w);
            lemma_without_concat(left + before, one, w);
            lemma_without_concat(left + before + one, middle, w);
            lemma_without_concat(left + before + one + middle, one, w);
            lemma_without_concat(left + before + one + middle + one, after, w);
            lemma_without_concat(left + before + one + middle + one + after, f, w);
            // the text within the pair
            lemma_without_concat(before, middle, w);
            lemma_without_concat(before + middle, after, w);
            assert(without(left, w) + e + without(within, w) + e + without(rest, w) =~= without(
                left,
                w,
            ) + without(before, w) + e + without(middle, w) + e + without(after, w) + without(
                f,
                w,
            ));
        },
        None => {},
    }
}

/// The whitespace inside the pairs of one wrapper does not depend on where
/// another wrapper stands.
pub proof fn lemma_inside_without(x: Seq<char>, w: char, other: char)
    requires
        w != other,
        !is_space(w),
    ensures
        inside(without(x, w), other) == inside(x, other),
    decreases x.len(),
{
    lemma_split_three(x, other);
    let one = seq![other];
    lemma_without_one(other, w);
    match split_three(x, other) {
        Some((left, within, rest)) => {
            lemma_inside_without(rest, w, other);
            lemma_without_concat(left, one, w);
            lemma_without_concat(left + one, within, w);
            lemma_without_concat(left + one + within, one, w);
            lemma_without_concat(left + one + within + one, rest, w);
            assert(free_of(left, other));
            assert(free_of(within, other));
            lemma_without_free(left, w, other);
            lemma_without_free(within, w, other);
            lemma_split_three_is(without(left, w), without(within, w), without(rest, w), other);
            lemma_split_three(without(x, w), other);
            lemma_without_spaces(within, w);
        },
        None => {
            let a = first_from(x, other, 0);
            lemma_first_from(x, other, 0);
            if a < x.len() {
                lemma_first_from(x, other, a + 1);
                let left = x.subrange(0, a);
                let within = x.subrange(a + 1, x.len() as int);
                assert(x =~= left + one + within);
                lemma_without_concat(left, one, w);
                lemma_without_concat(left + one, within, w);
                lemma_without_free(left, w, other);
                lemma_without_free(within, w, other);
                lemma_split_three_none(without(left, w), without(within, w), other);
            } else {
                assert(free_of(x, other));
                lemma_without_free(x, w, other);
                lemma_split_three_none(without(x, w), Seq::empty(), other);
            }
        },
    }
}

/// Fixing one wrapper kind leaves the whitespace inside the pairs of any
/// other kind as it was.
pub proof fn lemma_fixed_other(s: Seq<char>, w: char, other: char, front: bool)
    requires
        w != other,
        !is_space(w),
    ensures
        inside(fixed(s, w, front).0, other) == inside(s, other),
{
    lemma_fixed_without(s, w, front);
    lemma_inside_without(s, w, other);
    lemma_inside_without(fixed(s, w, front).0, w, other);
}

/// Fixing one wrapper kind leaves no more whitespace inside pairs than
/// there was, and less where it changes the line.
pub proof fn lemma_fixed_enclosed(s: Seq<char>, k: int, front: bool)
    requires
        0 <= k < WRAPPER_KINDS,
    ensures
        enclosed(fixed(s, wrapper_kind(k), front).0) <= enclosed(s),
        fixed(s, wrapper_kind(k), front).1 ==> enclosed(fixed(s, wrapper_kind(k), front).0)
            < enclosed(s),
{
    let w = wrapper_kind(k);
    lemma_fixed_inside(s, w, front);
    if k != 0 {
        lemma_fixed_other(s, w, wrapper_kind(0), front);
    }
    if k != 1 {
        lemma_fixed_other(s, w, wrapper_kind(1), front);
    }
    if k != 2 {
        lemma_fixed_other(s, w, wrapper_kind(2), front);
    }
    if k != 3 {
        lemma_fixed_other(s, w, wrapper_kind(3), front);
    }
    if k != 4 {
        lemma_fixed_other(s, w, wrapper_kind(4), front);
    }
    if k != 5 {
        lemma_fixed_other(s, w, wrapper_kind(5), front);
    }
    if k != 6 {
        lemma_fixed_other(s, w, wrapper_kind(6), front);
    }
    if k != 7 {
        lemma_fixed_other(s, w, wrapper_kind(7), front);
    }
}

/// Fixing the first `k` wrapper kinds in turn leaves less whitespace inside
/// pairs where it changes the line.
pub proof fn lemma_fixed_upto_enclosed(s: Seq<char>, k: int)
    requires
        0 <= k <= WRAPPER_KINDS,
    ensures
        fixed_upto(s, k) matches Some(t) ==> enclosed(t) < enclosed(s),
    decreases k,
{
    if k > 0 {
        lemma_fixed_upto_enclosed(s, k - 1);
        lemma_fixed_enclosed(line_of(s, fixed_upto(s, k - 1)), k - 1, false);
    }
}

/// The line after the wrapper kinds have been fixed over and over, until
/// no whitespace is left to move. Each round that changes the line leaves
/// less whitespace inside pairs, so there is a last one.
pub open spec fn settled(s: Seq<char>) -> Seq<char>
    decreases enclosed(s),
{
    match fixed_all(s) {
        Some(t) => {
            proof {
                lemma_fixed_upto_enclosed(s, WRAPPER_KINDS as int);
            }
            settled(t)
        },
        None => s,
    }
}

/// `settled`, one round at a time.
pub proof fn lemma_settled(s: Seq<char>)
    ensures
        settled(s) == match fixed_all(s) {
            Some(t) => settled(t),
            None => s,
        },
        fixed_all(s) matches Some(t) ==> enclosed(t) < enclosed(s),
{
    lemma_fixed_upto_enclosed(s, WRAPPER_KINDS as int);
}

/// The line with all whitespace moved outside the pairs of wrappers, or
/// `None` where there is nothing to move.
pub open spec fn aligned_wrappers(s: Seq<char>) -> Option<Seq<char>> {
    if fixed_all(s) is Some {
        Some(settled(s))
    } else {
        None
    }
}

/// In a settled line no wrapper kind has whitespace to move.
pub proof fn lemma_settled_is_fixed(s: Seq<char>)
    ensures
        fixed_all(settled(s)) is None,
    decreases enclosed(s),
{
    lemma_settled(s);
    match fixed_all(s) {
        Some(t) => {
            lemma_settled_is_fixed(t);
        },
        None => {},
    }
}

/// Alignment is idempotent: a line that has been aligned is left as it is
/// when it is aligned again.
pub proof fn lemma_align_wrappers_idempotent(s: Seq<char>)
    ensures
        aligned_wrappers(settled(s)) is None,
        settled(settled(s)) == settled(s),
        aligned_wrappers(s) matches Some(t) ==> aligned_wrappers(t) is None,
{
    lemma_settled_is_fixed(s);
    lemma_settled(settled(s));
}

/// The line after alignment, underlining, overlining and the replacement
/// of the other wrappers by their markers, each on the outcome of the one
/// before it; `None` where none of them changes the line.
pub open spec fn emphasised(s: Seq<char>) -> Option<Seq<char>> {
    let first = aligned_wrappers(s);
    let second = or_before(if_changed(underlined(line_of(s, first))), first);
    let third = or_before(if_changed(overlined_combining(line_of(s, second))), second);
    or_before(converted(line_of(s, third)), third)
}

/// The wrapper and the marker of the given rank.
pub fn conversion_at(k: usize) -> (r: (char, &'static str))
    requires
        k < CONVERSIONS,
    ensures
        r.0 == conversion_wrapper(k as int),
        r.1@ == conversion_marker(k as int),
{
    proof {
        reveal_strlit("*");
        reveal_strlit("~~");
        reveal_strlit("**");
    }
    let r = if k == 0 {
        (BOLD, "**")
    } else if k == 1 {
        (ITALIC, "*")
    } else if k == 2 {
        (STRIKETHROUGH, "~~")
    } else {
        (DOUBLE, "**")
    };
    assert(r.1@ =~= conversion_marker(k as int));
    r
}

/// Moves the whitespace at both ends of the text inside each pair of the
/// wrapper to outside the pair. Pairs are made from left to right; a last
/// wrapper without a partner stays where it is. Whitespace alone within a
/// pair goes in front of the pair where `front` is set, and behind it where
/// it is not. Returns the new line, or `None` where no pair has whitespace
/// at either end.
pub fn fix_wrapper_by(s: &str, wrapper: char, front: bool) -> (r: Option<String>)
    ensures
        r.deep_view() == if_changed(fixed(s@, wrapper, front)),
{
    let mut changed = false;
    let mut result = String::new();
    let mut rest = s;
    loop
        invariant
            fixed(s@, wrapper, front).0 == result@ + fixed(rest@, wrapper, front).0,
            fixed(s@, wrapper, front).1 == (changed || fixed(rest@, wrapper, front).1),
        ensures
            fixed(s@, wrapper, front) == (result@ + rest@, changed),
        decreases rest@.len(),
    {
        proof {
            lemma_each_pair(rest@, wrapper, fix_pair(wrapper, front));
        }
        match split_first_three(rest, wrapper) {
            Some((left, within, right)) => {
                let ghost sofar = result@;
                let is_space_char = |c: &char| -> (r: bool)
                    ensures
                        r == is_space(*c),
                    { char_is_space(*c) };
                assert(decides(is_space_char, |c: char| is_space(c)));
                let (before, middle, after) = if front {
                    split_space_at_ends(within)
                } else {
                    split_wrapped_text(within, is_space_char)
                };
                result.append(left);
                result.append(before);
                result.push(wrapper);
                result.append(middle);
                result.push(wrapper);
                result.append(after);
                if !before.is_empty() || !after.is_empty() {
                    changed = true;
                }
                assert(result@ =~= sofar + fix_pair(wrapper, front)(left@, within@).0);
                assert(result@ + fixed(right@, wrapper, front).0 =~= sofar + (fix_pair(
                    wrapper,
                    front,
                )(left@, within@).0 + fixed(right@, wrapper, front).0));
                rest = right;
            },
            None => {
                break ;
            },
        }
    }
    if changed {
        result.append(rest);
        Some(result)
    } else {
        None
    }
}

/// Moves the whitespace at both ends of the text inside each pair of the
/// wrapper to outside the pair. Pairs are made from left to right; a last
/// wrapper without a partner stays where it is. Whitespace alone within a
/// pair goes behind the pair. Returns the new line, or `None` where no
/// pair has whitespace at either end.
pub fn fix_wrapper(s: &str, wrapper: char) -> (r: Option<String>)
    ensures
        r.deep_view() == if_changed(fixed(s@, wrapper, false)),
{
    fix_wrapper_by(s, wrapper, false)
}

/// Fixes each wrapper kind in turn, each on the outcome of the kinds
/// before it. Returns the new line, or `None` where no whitespace was
/// moved.
pub fn fix_all_wrappers(s: &str) -> (r: Option<String>)
    ensures
        r.deep_view() == fixed_all(s@),
{
    let mut result: Option<String> = None;
    let mut k: usize = 0;
    while k < WRAPPER_KINDS
        invariant
            0 <= k <= WRAPPER_KINDS,
            result.deep_view() == fixed_upto(s@, k as int),
        decreases WRAPPER_KINDS - k,
    {
        let wrapper = wrapper_at(k);
        let next = match &result {
            Some(line) => fix_wrapper(line.as_str(), wrapper),
            None => fix_wrapper(s, wrapper),
        };
        if next.is_some() {
            result = next;
        }
        k += 1;
    }
    result
}

/// Replaces both wrappers of each pair of the wrapper by the replacement.
/// Pairs are made from left to right; a last wrapper without a partner
/// stays. Returns the new line, or `None` where the line holds no pair.
pub fn replace_wrapper(s: &str, wrapper: char, replacement: &str) -> (r: Option<String>)
    ensures
        r.deep_view() == if_changed(replaced(s@, wrapper, replacement@)),
{
    let mut changed = false;
    let mut result = String::new();
    let mut rest = s;
    loop
        invariant
            replaced(s@, wrapper, replacement@).0 == result@ + replaced(
                rest@,
                wrapper,
                replacement@,
            ).0,
            replaced(s@, wrapper, replacement@).1 == (changed || replaced(
                rest@,
                wrapper,
                replacement@,
            ).1),
        ensures
            replaced(s@, wrapper, replacement@) == (result@ + rest@, changed),
        decreases rest@.len(),
    {
        proof {
            lemma_each_pair(rest@, wrapper, replace_pair(replacement@));
        }
        match split_first_three(rest, wrapper) {
            Some((left, within, right)) => {
                let ghost sofar = result@;
                result.append(left);
                result.append(replacement);
                result.append(within);
                result.append(replacement);
                changed = true;
                assert(result@ =~= sofar + replace_pair(replacement@)(left@, within@).0);
                assert(result@ + replaced(right@, wrapper, replacement@).0 =~= sofar + (
                replace_pair(replacement@)(left@, within@).0 + replaced(
                    right@,
                    wrapper,
                    replacement@,
                ).0));
                rest = right;
            },
            None => {
                break ;
            },
        }
    }
    if changed {
        result.append(rest);
        Some(result)
    } else {
        None
    }
}

/// Writes the combiner after each character of the text that is no ASCII
/// control character.
pub fn add_combiner(s: &str, combiner: char) -> (r: String)
    ensures
        r@ == with_combiner(s@, combiner),
{
    let mut result = String::new();
    for ch in it: s.chars()
        invariant
            it.seq() == s@,
            result@ == with_combiner(s@.take(it.index() as int), combiner),
    {
        proof {
            lemma_take_step(s@, it.index() as int);
        }
        result.push(ch);
        if !char_is_control(ch) {
            result.push(combiner);
        }
    }
    assert(s@.take(s@.len() as int) =~= s@);
    result
}

/// Takes each pair of underline wrappers out of the line and underlines the
/// text within it: the combining underline follows each of its characters
/// that is no control character. Returns the new line, or `None` where the
/// line holds no pair.
pub fn process_underlines(s: &str) -> (r: Option<String>)
    ensures
        r.deep_view() == if_changed(underlined(s@)),
{
    let mut changed = false;
    let mut result = String::new();
    let mut rest = s;
    loop
        invariant
            underlined(s@).0 == result@ + underlined(rest@).0,
            underlined(s@).1 == (changed || underlined(rest@).1),
        ensures
            underlined(s@) == (result@ + rest@, changed),
        decreases rest@.len(),
    {
        proof {
            lemma_each_pair(rest@, UNDERLINE, underline_pair());
        }
        match split_first_three(rest, UNDERLINE) {
            Some((left, within, right)) => {
                let ghost sofar = result@;
                result.append(left);
                let combined = add_combiner(within, COMB_UNDERLINE);
                result.append(combined.as_str());
                changed = true;
                assert(result@ =~= sofar + underline_pair()(left@, within@).0);
                assert(result@ + underlined(right@).0 =~= sofar + (underline_pair()(
                    left@,
                    within@,
                ).0 + underlined(right@).0));
                rest = right;
            },
            None => {
                break ;
            },
        }
    }
    if changed {
        result.append(rest);
        Some(result)
    } else {
        None
    }
}

/// Replaces each overline idiom of the line by its text with the combining
/// overline after each character. A pair of superscript wrappers that ends
/// no idiom stays as it is. Returns the new line, or `None` where the line
/// holds no idiom.
pub fn process_overlines(s: &str) -> (r: Option<String>)
    ensures
        r.deep_view() == if_changed(overlined_combining(s@)),
{
    let mut changed = false;
    let mut result = String::new();
    let mut rest = s;
    loop
        invariant
            overlined_combining(s@).0 == result@ + overlined_combining(rest@).0,
            overlined_combining(s@).1 == (changed || overlined_combining(rest@).1),
        ensures
            overlined_combining(s@) == (result@ + rest@, changed),
        decreases rest@.len(),
    {
        proof {
            lemma_each_pair(rest@, SUPERSCRIPT, overline_combine());
        }
        match split_first_three(rest, SUPERSCRIPT) {
            Some((left, bars, right)) => {
                let ghost sofar = result@;
                match match_overline(left, bars) {
                    Some((prefix, text)) => {
                        result.append(prefix);
                        let combined = add_combiner(text, COMB_OVERLINE);
                        result.append(combined.as_str());
                        changed = true;
                    },
                    None => {
                        result.append(left);
                        result.push(SUPERSCRIPT);
                        result.append(bars);
                        result.push(SUPERSCRIPT);
                    },
                }
                assert(result@ =~= sofar + overline_combine()(left@, bars@).0);
                assert(result@ + overlined_combining(right@).0 =~= sofar + (overline_combine()(
                    left@,
                    bars@,
                ).0 + overlined_combining(right@).0));
                rest = right;
            },
            None => {
                break ;
            },
        }
    }
    if changed {
        result.append(rest);
        Some(result)
    } else {
        None
    }
}

/// Replaces the pairs of bold, italic, strikethrough and double strike
/// wrappers by their Markdown markers, one kind after the other. Returns
/// the new line, or `None` where the line holds no pair of any of them.
pub fn process_others(s: &str) -> (r: Option<String>)
    ensures
        r.deep_view() == converted(s@),
{
    let mut result: Option<String> = None;
    let mut k: usize = 0;
    while k < CONVERSIONS
        invariant
            0 <= k <= CONVERSIONS,
            result.deep_view() == converted_upto(s@, k as int),
        decreases CONVERSIONS - k,
    {
        let (wrapper, marker) = conversion_at(k);
        let next = match &result {
            Some(line) => replace_wrapper(line.as_str(), wrapper, marker),
            None => replace_wrapper(s, wrapper, marker),
        };
        if next.is_some() {
            result = next;
        }
        k += 1;
    }
    result
}

/// Moves all whitespace that stands just inside a pair of wrappers to just
/// outside it: fixes all wrapper kinds over and over until a round finds
/// nothing to move, since whitespace that is moved out of one pair may
/// then stand just inside another. Returns the new line, or `None` where
/// there was nothing to move. The line returned has nothing left to move.
pub fn align_wrappers(s: &str) -> (r: Option<String>)
    ensures
        r.deep_view() == aligned_wrappers(s@),
        r matches Some(t) ==> aligned_wrappers(t@) is None,
{
    let mut result: Option<String> = None;
    loop
        invariant
            settled(s@) == settled(line_of(s@, result.deep_view())),
            result is Some ==> fixed_all(s@) is Some,
        ensures
            result.deep_view() == aligned_wrappers(s@),
        decreases enclosed(line_of(s@, result.deep_view())),
    {
        proof {
            lemma_settled(line_of(s@, result.deep_view()));
        }
        let next = match &result {
            Some(line) => fix_all_wrappers(line.as_str()),
            None => fix_all_wrappers(s),
        };
        match next {
            Some(fixed) => {
                result = Some(fixed);
            },
            None => {
                break ;
            },
        }
    }
    proof {
        lemma_align_wrappers_idempotent(s@);
    }
    result
}

/// The line after one more filter of a chain.
fn or_earlier(next: Option<String>, sofar: Option<String>) -> (r: Option<String>)
    ensures
        r.deep_view() == or_before(next.deep_view(), sofar.deep_view()),
{
    match next {
        Some(t) => Some(t),
        None => sofar,
    }
}

/// Writes the emphasis of a line out as text: aligns the whitespace with
/// the wrappers, underlines and overlines with combining characters, and
/// replaces the other wrappers by their Markdown markers, each step on the
/// outcome of the one before it. Returns the new line, or `None` where no
/// step changes the line.
pub fn process_emphasis(s: &str) -> (r: Option<String>)
    ensures
        r.deep_view() == emphasised(s@),
{
    let first = align_wrappers(s);
    let next = match &first {
        Some(line) => process_underlines(line.as_str()),
        None => process_underlines(s),
    };
    let second = or_earlier(next, first);
    let next = match &second {
        Some(line) => process_overlines(line.as_str()),
        None => process_overlines(s),
    };
    let third = or_earlier(next, second);
    let next = match &third {
        Some(line) => process_others(line.as_str()),
        None => process_others(s),
    };
    or_earlier(next, third)
}

} // verus!
