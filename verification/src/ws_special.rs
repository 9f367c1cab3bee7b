//! Special sequences: a degree sign and the simple fractions, which were
//! typed as short runs of wrapped characters, and runs of subscript and
//! superscript characters.

use vstd::prelude::*;
use vstd::string::*;
use crate::text::{free_of, to_chars};
use crate::uni_chars::{DEGREE, HALF, ONE_QUARTER, REPLACEMENT, THREE_QUARTERS};
use crate::ws_chars::{OVERPRINT, SUBSCRIPT, SUPERSCRIPT, UNDERLINE};
use crate::ws_emphasis::{line_of, or_before};
use crate::ws_mappings::{get_subscript, get_superscript, subscript_of, superscript_of};
use crate::ws_overline::{match_overline, overline_idiom, overline_wrap, overlined, pair_kept};
use crate::ws_string::{
    each_pair, if_changed, lemma_each_pair, lemma_split_three, lemma_split_three_is,
    lemma_split_three_prefix, split_first_three, split_three,
};

verus! {

/// Number of characters of the sequence that stands for a degree sign.
pub const DEGREE_LENGTH: usize = 3;

/// Number of characters of the sequence that stands for a fraction.
pub const FRACTION_LENGTH: usize = 9;

/// The sequence for a degree sign begins at position `i`: a small `o`
/// between two superscript wrappers.
pub open spec fn degree_at(s: Seq<char>, i: int) -> bool {
    &&& 0 <= i
    &&& i + DEGREE_LENGTH <= s.len()
    &&& s[i] == SUPERSCRIPT
    &&& s[i + 1] == 'o'
    &&& s[i + 2] == SUPERSCRIPT
}

/// The sequence for a fraction begins at position `i`: an underlined,
/// superscript 1 or 3, an overprint character, and a subscript 2 or 4.
pub open spec fn fraction_at(s: Seq<char>, i: int) -> bool {
    &&& 0 <= i
    &&& i + FRACTION_LENGTH <= s.len()
    &&& s[i] == UNDERLINE
    &&& s[i + 1] == SUPERSCRIPT
    &&& (s[i + 2] == '1' || s[i + 2] == '3')
    &&& s[i + 3] == SUPERSCRIPT
    &&& s[i + 4] == UNDERLINE
    &&& s[i + 5] == OVERPRINT
    &&& s[i + 6] == SUBSCRIPT
    &&& (s[i + 7] == '2' || s[i + 7] == '4')
    &&& s[i + 8] == SUBSCRIPT
}

/// The sign for a fraction: a half, a quarter or three quarters. Any other
/// fraction has no sign, and the replacement character marks the place.
pub open spec fn fraction_of(numerator: char, denominator: char) -> Seq<char> {
    if numerator == '1' && denominator == '2' {
        seq!['\u{00BD}']
    } else if numerator == '1' && denominator == '4' {
        seq!['\u{00BC}']
    } else if numerator == '3' && denominator == '4' {
        seq!['\u{00BE}']
    } else {
        seq!['\u{FFFD}']
    }
}

/// The degree idiom: where the sequence begins at `i`, its length and the
/// degree sign.
pub open spec fn degree_idiom() -> spec_fn(Seq<char>, int) -> Option<(int, Seq<char>)> {
    |s: Seq<char>, i: int|
        if degree_at(s, i) {
            Some((DEGREE_LENGTH as int, seq!['\u{00B0}']))
        } else {
            None
        }
}

/// The fraction idiom: where the sequence begins at `i`, its length and the
/// sign of the fraction.
pub open spec fn fraction_idiom() -> spec_fn(Seq<char>, int) -> Option<(int, Seq<char>)> {
    |s: Seq<char>, i: int|
        if fraction_at(s, i) {
            Some((FRACTION_LENGTH as int, fraction_of(s[i + 2], s[i + 7])))
        } else {
            None
        }
}

/// The text from position `i` on with each sequence of the idiom replaced,
/// and whether there was any. The text is read from left to right: where a
/// sequence begins, its replacement is written and reading goes on behind
/// the sequence; elsewhere the character is written. A sequence has at
/// least one character and ends within the text.
pub open spec fn each_idiom(
    s: Seq<char>,
    i: int,
    idiom: spec_fn(Seq<char>, int) -> Option<(int, Seq<char>)>,
) -> (Seq<char>, bool)
    decreases s.len() - i,
{
    if i < 0 || i >= s.len() {
        (Seq::empty(), false)
    } else {
        let found = idiom(s, i);
        if found is Some && 0 < found.unwrap().0 <= s.len() - i {
            (found.unwrap().1 + each_idiom(s, i + found.unwrap().0, idiom).0, true)
        } else {
            (seq![s[i]] + each_idiom(s, i + 1, idiom).0, each_idiom(s, i + 1, idiom).1)
        }
    }
}

/// A text without a sequence of the idiom is left as it is.
pub proof fn lemma_each_idiom_kept(
    s: Seq<char>,
    i: int,
    idiom: spec_fn(Seq<char>, int) -> Option<(int, Seq<char>)>,
)
    requires
        0 <= i <= s.len(),
    ensures
        !each_idiom(s, i, idiom).1 ==> each_idiom(s, i, idiom).0 == s.skip(i),
    decreases s.len() - i,
{
    if i < s.len() {
        lemma_each_idiom_kept(s, i + 1, idiom);
        if !each_idiom(s, i, idiom).1 {
            assert(seq![s[i]] + s.skip(i + 1) =~= s.skip(i));
        }
    } else {
        assert(s.skip(i) =~= Seq::<char>::empty());
    }
}

/// The line with a degree sign for each of its sequences.
pub open spec fn degrees(s: Seq<char>) -> Option<Seq<char>> {
    if_changed(each_idiom(s, 0, degree_idiom()))
}

/// The line with the sign of the fraction for each of its sequences.
pub open spec fn fractions(s: Seq<char>) -> Option<Seq<char>> {
    if_changed(each_idiom(s, 0, fraction_idiom()))
}

/// The line after the four special sequences have been written, each on
/// the outcome of those before it: degree signs, fraction signs, subscript
/// runs, superscript runs. `None` where the line holds none of them.
pub open spec fn specials(s: Seq<char>) -> Option<Seq<char>> {
    let first = degrees(s);
    let second = or_before(fractions(line_of(s, first)), first);
    let third = or_before(subscripts(line_of(s, second)), second);
    or_before(superscripts(line_of(s, third)), third)
}

/// `s` with each character replaced by what `table` has for it, and left
/// as it is where `table` has nothing.
pub open spec fn mapped_each(s: Seq<char>, table: spec_fn(char) -> Option<char>) -> Seq<char> {
    Seq::new(
        s.len(),
        |i: int|
            match table(s[i]) {
                Some(m) => m,
                None => s[i],
            },
    )
}

/// What is written for a pair of subscript wrappers: the text within it in
/// subscript characters, as far as there are any.
pub open spec fn subscript_pair() -> spec_fn(Seq<char>, Seq<char>) -> (Seq<char>, bool) {
    |left: Seq<char>, within: Seq<char>|
        (left + mapped_each(within, |c: char| subscript_of(c)), true)
}

/// What is written for a pair of superscript wrappers: the text within it
/// in superscript characters, as far as there are any. A pair that ends an
/// overline idiom is no superscript run: it is written as it was met, with
/// its wrappers, and is no change.
pub open spec fn superscript_pair() -> spec_fn(Seq<char>, Seq<char>) -> (Seq<char>, bool) {
    |left: Seq<char>, within: Seq<char>|
        if overline_idiom(left, within) is Some {
            (pair_kept(left, within), false)
        } else {
            (left + mapped_each(within, |c: char| superscript_of(c)), true)
        }
}

/// The line with each pair of subscript wrappers taken out and the text
/// within it in subscript characters.
pub open spec fn subscripts(s: Seq<char>) -> Option<Seq<char>> {
    if_changed(each_pair(s, SUBSCRIPT, subscript_pair()))
}

/// The line with each pair of superscript wrappers taken out and the text
/// within it in superscript characters, but for the pairs that end an
/// overline idiom, which stay.
pub open spec fn superscripts(s: Seq<char>) -> Option<Seq<char>> {
    if_changed(each_pair(s, SUPERSCRIPT, superscript_pair()))
}

/// An overline idiom stays one when text is put in front of it.
pub proof fn lemma_idiom_prefix(p: Seq<char>, left: Seq<char>, bars: Seq<char>)
    ensures
        overline_idiom(left, bars) matches Some((prefix, text)) ==> overline_idiom(p + left, bars)
            == Some((p + prefix, text)),
{
    let n = bars.len() as int;
    if overline_idiom(left, bars) is Some {
        let len = left.len() as int;
        let front = left.take(len - n);
        let whole = p + left;
        assert(whole.take(whole.len() - n) =~= p + front);
        assert(whole.skip(whole.len() - n) =~= left.skip(len - n));
        let longer = p + front;
        assert(longer.take(longer.len() - n) =~= p + front.take(front.len() - n));
        assert(longer.skip(longer.len() - n) =~= front.skip(front.len() - n));
    }
}

/// The superscript form of a run holds no superscript wrapper unless the
/// run does.
pub proof fn lemma_superscript_run_free(within: Seq<char>)
    requires
        free_of(within, SUPERSCRIPT),
    ensures
        free_of(mapped_each(within, |c: char| superscript_of(c)), SUPERSCRIPT),
{
    let run = mapped_each(within, |c: char| superscript_of(c));
    assert forall|i: int| 0 <= i < run.len() implies run[i] != SUPERSCRIPT by {
        assert(within[i] != SUPERSCRIPT);
        assert(superscript_of(within[i]) != Some(SUPERSCRIPT));
    }
}

/// The text that `superscripts` makes of a line, changed or not.
pub open spec fn superscripts_text(s: Seq<char>) -> Seq<char> {
    each_pair(s, SUPERSCRIPT, superscript_pair()).0
}

/// Behind any text that is free of superscript wrappers, the overline
/// filter finds an idiom in a line whose superscript runs have been
/// written exactly where it finds one in the line itself.
pub proof fn lemma_superscripts_keep(s: Seq<char>, p: Seq<char>)
    requires
        free_of(p, SUPERSCRIPT),
    ensures
        overlined(p + superscripts_text(s)).1 == overlined(s).1,
    decreases s.len(),
{
    let w = SUPERSCRIPT;
    let one = seq![w];
    lemma_each_pair(s, w, superscript_pair());
    lemma_each_pair(s, w, overline_wrap());
    lemma_split_three(s, w);
    match split_three(s, w) {
        Some((left, within, rest)) => {
            let tail = superscripts_text(rest);
            if overline_idiom(left, within) is Some {
                let whole = p + superscripts_text(s);
                assert(whole =~= (p + left) + one + within + one + tail);
                assert forall|i: int| 0 <= i < (p + left).len() implies (p + left)[i] != w by {
                    if i >= p.len() {
                        assert((p + left)[i] == left[i - p.len()]);
                    }
                }
                lemma_split_three_is(p + left, within, tail, w);
                lemma_each_pair(whole, w, overline_wrap());
                lemma_idiom_prefix(p, left, within);
            } else {
                let run = mapped_each(within, |c: char| superscript_of(c));
                lemma_superscript_run_free(within);
                let longer = p + left + run;
                assert forall|i: int| 0 <= i < longer.len() implies longer[i] != w by {
                    if i >= p.len() + left.len() {
                        assert(longer[i] == run[i - p.len() - left.len()]);
                    } else if i >= p.len() {
                        assert(longer[i] == left[i - p.len()]);
                    }
                }
                lemma_superscripts_keep(rest, longer);
                assert(p + superscripts_text(s) =~= longer + tail);
            }
        },
        None => {
            lemma_split_three_prefix(p, s, w);
            lemma_each_pair(p + s, w, overline_wrap());
        },
    }
}

/// Writing the superscript runs hides no overline idiom and makes none:
/// the overline filter finds an idiom in the outcome exactly where it
/// finds one in the line.
pub proof fn lemma_superscripts_keep_idioms(s: Seq<char>)
    ensures
        overlined(superscripts_text(s)).1 == overlined(s).1,
{
    lemma_superscripts_keep(s, Seq::empty());
    assert(Seq::<char>::empty() + superscripts_text(s) =~= superscripts_text(s));
}

/// Returns the sign for the fraction with the given numerator and
/// denominator, or the replacement character for a fraction that has no
/// sign.
pub fn get_fraction(numerator: char, denominator: char) -> (r: &'static str)
    ensures
        r@ == fraction_of(numerator, denominator),
{
    proof {
        reveal_strlit("\u{00BD}");
        reveal_strlit("\u{00BC}");
        reveal_strlit("\u{00BE}");
        reveal_strlit("\u{FFFD}");
    }
    let r = if numerator == '1' && denominator == '2' {
        HALF
    } else if numerator == '1' && denominator == '4' {
        ONE_QUARTER
    } else if numerator == '3' && denominator == '4' {
        THREE_QUARTERS
    } else {
        REPLACEMENT
    };
    assert(r@ =~= fraction_of(numerator, denominator));
    r
}

/// Replaces each small `o` between two superscript wrappers by a degree
/// sign. Returns the new line, or `None` where the line holds no such
/// sequence.
pub fn transform_degrees(before: &str) -> (r: Option<String>)
    ensures
        r.deep_view() == degrees(before@),
{
    let v = to_chars(before);
    let n = v.len();
    let mut changed = false;
    let mut result = String::new();
    let mut i: usize = 0;
    while i < n
        invariant
            n == v.len(),
            v@ == before@,
            0 <= i <= n,
            each_idiom(v@, 0, degree_idiom()).0 == result@ + each_idiom(v@, i as int, degree_idiom()).0,
            each_idiom(v@, 0, degree_idiom()).1 == (changed || each_idiom(
                v@,
                i as int,
                degree_idiom(),
            ).1),
        decreases n - i,
    {
        let ghost sofar = result@;
        if n - i >= DEGREE_LENGTH && v[i] == SUPERSCRIPT && v[i + 1] == 'o' && v[i + 2]
            == SUPERSCRIPT {
            assert(degree_at(v@, i as int));
            result.append(DEGREE);
            proof {
                reveal_strlit("\u{00B0}");
            }
            assert(DEGREE@ =~= seq!['\u{00B0}']);
            assert(result@ + each_idiom(v@, i + DEGREE_LENGTH, degree_idiom()).0 =~= sofar + (
            seq!['\u{00B0}'] + each_idiom(v@, i + DEGREE_LENGTH, degree_idiom()).0));
            changed = true;
            i += DEGREE_LENGTH;
        } else {
            assert(!degree_at(v@, i as int));
            result.push(v[i]);
            assert(result@ + each_idiom(v@, i + 1, degree_idiom()).0 =~= sofar + (seq![v@[i as int]]
                + each_idiom(v@, i + 1, degree_idiom()).0));
            i += 1;
        }
    }
    assert(result@ + Seq::<char>::empty() =~= result@);
    if changed {
        Some(result)
    } else {
        None
    }
}

/// Replaces each fraction sequence by the sign of its fraction: an
/// underlined, superscript 1 or 3, overprinted with a subscript 2 or 4. A
/// fraction without a sign of its own is replaced by the replacement
/// character. Returns the new line, or `None` where the line holds no such
/// sequence.
pub fn transform_fraction(before: &str) -> (r: Option<String>)
    ensures
        r.deep_view() == fractions(before@),
{
    let v = to_chars(before);
    let n = v.len();
    let mut changed = false;
    let mut result = String::new();
    let mut i: usize = 0;
    while i < n
        invariant
            n == v.len(),
            v@ == before@,
            0 <= i <= n,
            each_idiom(v@, 0, fraction_idiom()).0 == result@ + each_idiom(
                v@,
                i as int,
                fraction_idiom(),
            ).0,
            each_idiom(v@, 0, fraction_idiom()).1 == (changed || each_idiom(
                v@,
                i as int,
                fraction_idiom(),
            ).1),
        decreases n - i,
    {
        let ghost sofar = result@;
        if n - i >= FRACTION_LENGTH && v[i] == UNDERLINE && v[i + 1] == SUPERSCRIPT && (v[i + 2]
            == '1' || v[i + 2] == '3') && v[i + 3] == SUPERSCRIPT && v[i + 4] == UNDERLINE && v[i
            + 5] == OVERPRINT && v[i + 6] == SUBSCRIPT && (v[i + 7] == '2' || v[i + 7] == '4')
            && v[i + 8] == SUBSCRIPT {
            assert(fraction_at(v@, i as int));
            let sign = get_fraction(v[i + 2], v[i + 7]);
            result.append(sign);
            assert(result@ + each_idiom(v@, i + FRACTION_LENGTH, fraction_idiom()).0 =~= sofar + (
            sign@ + each_idiom(v@, i + FRACTION_LENGTH, fraction_idiom()).0));
            changed = true;
            i += FRACTION_LENGTH;
        } else {
            assert(!fraction_at(v@, i as int));
            result.push(v[i]);
            assert(result@ + each_idiom(v@, i + 1, fraction_idiom()).0 =~= sofar + (seq![
                v@[i as int],
            ] + each_idiom(v@, i + 1, fraction_idiom()).0));
            i += 1;
        }
    }
    assert(result@ + Seq::<char>::empty() =~= result@);
    if changed {
        Some(result)
    } else {
        None
    }
}

/// Writes the subscript form of each character of the text that has one,
/// and the character itself where it has none.
fn push_subscripts(result: &mut String, within: &str)
    ensures
        final(result)@ == old(result)@ + mapped_each(within@, |c: char| subscript_of(c)),
{
    let ghost table = |c: char| subscript_of(c);
    for c in it: within.chars()
        invariant
            it.seq() == within@,
            table == |c: char| subscript_of(c),
            result@ == old(result)@ + mapped_each(within@.take(it.index() as int), table),
    {
        let ghost sofar = result@;
        let ghost i = it.index() as int;
        match get_subscript(c) {
            Some(m) => result.push(m),
            None => result.push(c),
        }
        assert(result@ =~= old(result)@ + mapped_each(within@.take(i + 1), table));
    }
    assert(within@.take(within@.len() as int) =~= within@);
}

/// Writes the superscript form of each character of the text that has one,
/// and the character itself where it has none.
fn push_superscripts(result: &mut String, within: &str)
    ensures
        final(result)@ == old(result)@ + mapped_each(within@, |c: char| superscript_of(c)),
{
    let ghost table = |c: char| superscript_of(c);
    for c in it: within.chars()
        invariant
            it.seq() == within@,
            table == |c: char| superscript_of(c),
            result@ == old(result)@ + mapped_each(within@.take(it.index() as int), table),
    {
        let ghost sofar = result@;
        let ghost i = it.index() as int;
        match get_superscript(c) {
            Some(m) => result.push(m),
            None => result.push(c),
        }
        assert(result@ =~= old(result)@ + mapped_each(within@.take(i + 1), table));
    }
    assert(within@.take(within@.len() as int) =~= within@);
}

/// Takes each pair of subscript wrappers out of the line and writes the
/// text within it in subscript characters; a character that has no
/// subscript form stays as it is. Returns the new line, or `None` where
/// the line holds no pair.
pub fn transform_subscripts(s: &str) -> (r: Option<String>)
    ensures
        r.deep_view() == subscripts(s@),
{
    let mut changed = false;
    let mut result = String::new();
    let mut rest = s;
    loop
        invariant
            each_pair(s@, SUBSCRIPT, subscript_pair()).0 == result@ + each_pair(
                rest@,
                SUBSCRIPT,
                subscript_pair(),
            ).0,
            each_pair(s@, SUBSCRIPT, subscript_pair()).1 == (changed || each_pair(
                rest@,
                SUBSCRIPT,
                subscript_pair(),
            ).1),
        ensures
            each_pair(s@, SUBSCRIPT, subscript_pair()) == (result@ + rest@, changed),
        decreases rest@.len(),
    {
        proof {
            lemma_each_pair(rest@, SUBSCRIPT, subscript_pair());
        }
        match split_first_three(rest, SUBSCRIPT) {
            Some((left, within, right)) => {
                let ghost sofar = result@;
                result.append(left);
                push_subscripts(&mut result, within);
                changed = true;
                assert(result@ =~= sofar + subscript_pair()(left@, within@).0);
                assert(result@ + each_pair(right@, SUBSCRIPT, subscript_pair()).0 =~= sofar + (
                subscript_pair()(left@, within@).0 + each_pair(
                    right@,
                    SUBSCRIPT,
                    subscript_pair(),
                ).0));
                rest = right;
            },
            None => {
                break ;
            },
        }
    }
    if changed {
        result.append(rest);
        Some(result)
    } else {
        None
    }
}

/// Takes each pair of superscript wrappers out of the line and writes the
/// text within it in superscript characters; a character that has no
/// superscript form stays as it is. A pair that ends an overline idiom is
/// left in the line as it is, wrappers and all, for the overline filter to
/// find. Returns the new line, or `None` where the line holds no pair but
/// such.
pub fn transform_superscripts(s: &str) -> (r: Option<String>)
    ensures
        r.deep_view() == superscripts(s@),
{
    let mut changed = false;
    let mut result = String::new();
    let mut rest = s;
    loop
        invariant
            each_pair(s@, SUPERSCRIPT, superscript_pair()).0 == result@ + each_pair(
                rest@,
                SUPERSCRIPT,
                superscript_pair(),
            ).0,
            each_pair(s@, SUPERSCRIPT, superscript_pair()).1 == (changed || each_pair(
                rest@,
                SUPERSCRIPT,
                superscript_pair(),
            ).1),
        ensures
            each_pair(s@, SUPERSCRIPT, superscript_pair()) == (result@ + rest@, changed),
        decreases rest@.len(),
    {
        proof {
            lemma_each_pair(rest@, SUPERSCRIPT, superscript_pair());
        }
        match split_first_three(rest, SUPERSCRIPT) {
            Some((left, within, right)) => {
                let ghost sofar = result@;
                result.append(left);
                if match_overline(left, within).is_some() {
                    result.push(SUPERSCRIPT);
                    result.append(within);
                    result.push(SUPERSCRIPT);
                } else {
                    push_superscripts(&mut result, within);
                    changed = true;
                }
                assert(result@ =~= sofar + superscript_pair()(left@, within@).0);
                assert(result@ + each_pair(right@, SUPERSCRIPT, superscript_pair()).0 =~= sofar
                    + (superscript_pair()(left@, within@).0 + each_pair(
                    right@,
                    SUPERSCRIPT,
                    superscript_pair(),
                ).0));
                rest = right;
            },
            None => {
                break ;
            },
        }
    }
    if changed {
        result.append(rest);
        Some(result)
    } else {
        None
    }
}

/// The line after one more filter of a chain.
fn or_earlier(next: Option<String>, sofar: Option<String>) -> (r: Option<String>)
    ensures
        r.deep_view() == or_before(next.deep_view(), sofar.deep_view()),
{
    match next {
        Some(t) => Some(t),
        None => sofar,
    }
}

/// Writes the special sequences of the line: degree signs, then fraction
/// signs, then subscript runs, then superscript runs, each on the outcome
/// of the one before it. The pairs of superscript wrappers that end an
/// overline idiom stay in the line. Returns the new line, or `None` where
/// the line holds no special sequence.
pub fn process(s: &str) -> (r: Option<String>)
    ensures
        r.deep_view() == specials(s@),
{
    let first = transform_degrees(s);
    let next = match &first {
        Some(line) => transform_fraction(line.as_str()),
        None => transform_fraction(s),
    };
    let second = or_earlier(next, first);
    let next = match &second {
        Some(line) => transform_subscripts(line.as_str()),
        None => transform_subscripts(s),
    };
    let third = or_earlier(next, second);
    let next = match &third {
        Some(line) => transform_superscripts(line.as_str()),
        None => transform_superscripts(s),
    };
    or_earlier(next, third)
}

} // verus!
