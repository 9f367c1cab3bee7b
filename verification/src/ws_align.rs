//! Alignment of whitespace with pairs of wrapper characters: whitespace that
//! stands just inside a pair is moved to just outside it.
//!
//! `process` aligns a line with all wrapper kinds, pass upon pass until
//! nothing is left to move.
//!
//! `align_reverse` and `align_bothways` align a line with one wrapper by
//! scanning it from right to left. After the wrapper that closes a pair
//! (the first one met), whitespace is passed on at once while the wrapper
//! and any control characters that follow it are held back, and put down in
//! front of the first character that is neither. The text comes out
//! reversed, so a second scan of the outcome brings it back in order and
//! treats the other end of each pair alike.

use vstd::prelude::*;
use vstd::string::*;
use crate::text::{
    char_is_control, char_is_space, is_control, is_space, lemma_take_step, occurrences, to_chars,
};
use crate::ws_chars::{wrapper_at, wrapper_kind, WRAPPER_KINDS};
use crate::ws_emphasis::{
    enclosed, fix_wrapper_by, fixed, lemma_fixed_enclosed, lemma_fixed_keeps, line_of, or_before,
};
use crate::ws_string::if_changed;

verus! {

/// Where a scan stands with respect to the pairs of the wrapper.
#[derive(Clone, Copy, Debug, PartialEq, Eq, Structural)]
pub enum AlignState {
    /// Not inside a pair.
    Outside,
    /// Inside a pair, with nothing met yet but whitespace and control
    /// characters.
    Preamble,
    /// Inside a pair, after its first printing character.
    Text,
}

/// What a scan has done so far.
pub struct AlignScan {
    pub state: AlignState,
    /// The text put down.
    pub result: Seq<char>,
    /// The wrapper and control characters held back.
    pub held: Seq<char>,
    /// Whether any whitespace has overtaken a character held back.
    pub changed: bool,
}

/// A scan that has met nothing.
pub open spec fn align_start() -> AlignScan {
    AlignScan { state: AlignState::Outside, result: Seq::empty(), held: Seq::empty(), changed: false }
}

/// The scan after it has met `c`.
pub open spec fn align_step(st: AlignScan, c: char, wrapper: char) -> AlignScan {
    match st.state {
        AlignState::Outside => if c == wrapper {
            AlignScan { state: AlignState::Preamble, held: st.held.push(c), ..st }
        } else {
            AlignScan { result: st.result.push(c), ..st }
        },
        AlignState::Preamble => if c == wrapper {
            AlignScan {
                state: AlignState::Outside,
                result: (st.result + st.held).push(c),
                held: Seq::empty(),
                ..st
            }
        } else if is_control(c) {
            AlignScan { held: st.held.push(c), ..st }
        } else if is_space(c) {
            AlignScan { result: st.result.push(c), changed: true, ..st }
        } else {
            AlignScan {
                state: AlignState::Text,
                result: (st.result + st.held).push(c),
                held: Seq::empty(),
                ..st
            }
        },
        AlignState::Text => AlignScan {
            state: if c == wrapper {
                AlignState::Outside
            } else {
                AlignState::Text
            },
            result: st.result.push(c),
            ..st
        },
    }
}

/// The scan after it has met all of `s`, last character first.
pub open spec fn align_scan(s: Seq<char>, wrapper: char) -> AlignScan
    decreases s.len(),
{
    if s.len() == 0 {
        align_start()
    } else {
        align_step(align_scan(s.drop_first(), wrapper), s.first(), wrapper)
    }
}

/// The outcome of one scan of `s`: the text put down, which is in reverse
/// order, and whether any whitespace was moved. `None` where the scan ends
/// inside a pair.
pub open spec fn align_reversed(s: Seq<char>, wrapper: char) -> Option<(Seq<char>, bool)> {
    let st = align_scan(s, wrapper);
    if st.state == AlignState::Outside {
        Some((st.result, st.changed))
    } else {
        None
    }
}

/// The outcome of two scans in a row, the second on what the first put
/// down: the text in order, with the whitespace at both ends of each pair
/// moved outside it. `None` where a scan ends inside a pair, or no
/// whitespace was moved.
pub open spec fn aligned_bothways(s: Seq<char>, wrapper: char) -> Option<Seq<char>> {
    match align_reversed(s, wrapper) {
        Some((back, changed_back)) => match align_reversed(back, wrapper) {
            Some((forth, changed_forth)) => if changed_back || changed_forth {
                Some(forth)
            } else {
                None
            },
            None => None,
        },
        None => None,
    }
}

/// The line after the first `k` wrapper kinds have been treated once, one
/// after the other, each on the outcome of those before it: a kind that
/// occurs an even number of times has the whitespace at both ends of the
/// text within each of its pairs moved outside the pair, and whitespace
/// alone within a pair moved in front of it; a kind that occurs an odd
/// number of times cannot be paired and leaves the line as it is. `None`
/// where none of them moved any whitespace.
pub open spec fn paired_upto(s: Seq<char>, k: int) -> Option<Seq<char>>
    decreases k,
{
    if k <= 0 {
        None
    } else {
        let sofar = paired_upto(s, k - 1);
        let line = line_of(s, sofar);
        let w = wrapper_kind(k - 1);
        if occurrences(line, w) % 2 == 1 {
            sofar
        } else {
            or_before(if_changed(fixed(line, w, true)), sofar)
        }
    }
}

/// The line after one pass over all wrapper kinds.
pub open spec fn paired_all(s: Seq<char>) -> Option<Seq<char>> {
    paired_upto(s, WRAPPER_KINDS as int)
}

/// One pass keeps each character as often as it was, and leaves less
/// whitespace inside pairs where it changes the line.
pub proof fn lemma_paired_upto(s: Seq<char>, k: int)
    requires
        0 <= k <= WRAPPER_KINDS,
    ensures
        paired_upto(s, k) matches Some(t) ==> enclosed(t) < enclosed(s),
        forall|c: char| #[trigger] occurrences(line_of(s, paired_upto(s, k)), c) == occurrences(s, c),
    decreases k,
{
    if k > 0 {
        lemma_paired_upto(s, k - 1);
        let line = line_of(s, paired_upto(s, k - 1));
        let w = wrapper_kind(k - 1);
        lemma_fixed_enclosed(line, k - 1, true);
        assert forall|c: char| #[trigger]
            occurrences(line_of(s, paired_upto(s, k)), c) == occurrences(s, c) by {
            lemma_fixed_keeps(line, w, c, true);
        }
    }
}

/// The line after pass upon pass over all wrapper kinds, until a pass
/// finds no whitespace to move: whitespace that has left one pair may then
/// stand just inside another. Each pass that changes the line leaves less
/// whitespace inside pairs, so there is a last one.
pub open spec fn aligned_line(s: Seq<char>) -> Seq<char>
    decreases enclosed(s),
{
    match paired_all(s) {
        Some(t) => {
            proof {
                lemma_paired_upto(s, WRAPPER_KINDS as int);
            }
            aligned_line(t)
        },
        None => s,
    }
}

/// The aligned line, or `None` where the line has no whitespace to move.
pub open spec fn aligned(s: Seq<char>) -> Option<Seq<char>> {
    if paired_all(s) is Some {
        Some(aligned_line(s))
    } else {
        None
    }
}

/// `aligned_line`, one pass at a time.
pub proof fn lemma_aligned_line(s: Seq<char>)
    ensures
        aligned_line(s) == match paired_all(s) {
            Some(t) => aligned_line(t),
            None => s,
        },
        paired_all(s) matches Some(t) ==> enclosed(t) < enclosed(s),
{
    lemma_paired_upto(s, WRAPPER_KINDS as int);
}

/// In an aligned line a pass finds nothing to move.
pub proof fn lemma_aligned_line_settled(s: Seq<char>)
    ensures
        paired_all(aligned_line(s)) is None,
    decreases enclosed(s),
{
    lemma_aligned_line(s);
    match paired_all(s) {
        Some(t) => {
            lemma_aligned_line_settled(t);
        },
        None => {},
    }
}

/// Alignment is idempotent: a line that has been aligned is left as it is
/// when it is aligned again.
pub proof fn lemma_aligned_idempotent(s: Seq<char>)
    ensures
        aligned(aligned_line(s)) is None,
        aligned_line(aligned_line(s)) == aligned_line(s),
        aligned(s) matches Some(t) ==> aligned(t) is None,
{
    lemma_aligned_line_settled(s);
    lemma_aligned_line(aligned_line(s));
}

/// Alignment loses and invents nothing: each character, each wrapper too,
/// occurs in the aligned line as often as in the line.
pub proof fn lemma_aligned_keeps(s: Seq<char>, c: char)
    ensures
        occurrences(aligned_line(s), c) == occurrences(s, c),
    decreases enclosed(s),
{
    lemma_aligned_line(s);
    lemma_paired_upto(s, WRAPPER_KINDS as int);
    match paired_all(s) {
        Some(t) => {
            lemma_aligned_keeps(t, c);
            assert(occurrences(line_of(s, paired_all(s)), c) == occurrences(s, c));
        },
        None => {},
    }
}

/// A scan is outside a pair exactly when it has met an even number of
/// wrappers, and holds nothing back but in the preamble of a pair.
pub proof fn lemma_align_scan_parity(s: Seq<char>, wrapper: char)
    ensures
        (align_scan(s, wrapper).state == AlignState::Outside) <==> occurrences(s, wrapper) % 2
            == 0,
        align_scan(s, wrapper).state != AlignState::Preamble ==> align_scan(s, wrapper).held.len()
            == 0,
    decreases s.len(),
{
    if s.len() > 0 {
        lemma_align_scan_parity(s.drop_first(), wrapper);
        crate::text::lemma_occurrences_first(s, wrapper);
    }
}

/// A scan loses and invents nothing: each character occurs as often in what
/// it put down and holds back as in the text it has met.
pub proof fn lemma_align_scan_keeps(s: Seq<char>, wrapper: char, c: char)
    ensures
        occurrences(align_scan(s, wrapper).result, c) + occurrences(
            align_scan(s, wrapper).held,
            c,
        ) == occurrences(s, c),
    decreases s.len(),
{
    if s.len() > 0 {
        let prev = align_scan(s.drop_first(), wrapper);
        let next = align_scan(s, wrapper);
        lemma_align_scan_keeps(s.drop_first(), wrapper, c);
        crate::text::lemma_occurrences_first(s, c);
        crate::text::lemma_occurrences_concat(prev.result, prev.held, c);
        assert(prev.result.push(s.first()).drop_last() =~= prev.result);
        assert(prev.held.push(s.first()).drop_last() =~= prev.held);
        assert((prev.result + prev.held).push(s.first()).drop_last() =~= prev.result + prev.held);
        assert(Seq::<char>::empty().len() == 0);
    }
}

/// A scan in which no whitespace was moved puts the text down as it is,
/// in reverse order.
pub proof fn lemma_align_scan_kept(s: Seq<char>, wrapper: char)
    ensures
        !align_scan(s, wrapper).changed ==> align_scan(s, wrapper).result + align_scan(
            s,
            wrapper,
        ).held == s.reverse(),
    decreases s.len(),
{
    if s.len() == 0 {
        assert(align_start().result + align_start().held =~= s.reverse());
    } else {
        let prev = align_scan(s.drop_first(), wrapper);
        let next = align_scan(s, wrapper);
        lemma_align_scan_kept(s.drop_first(), wrapper);
        let c = s.first();
        assert(next == align_step(prev, c, wrapper));
        if !next.changed {
            assert(!prev.changed);
            assert(s.reverse() =~= s.drop_first().reverse().push(c));
            match prev.state {
                AlignState::Outside => {
                    if c == wrapper {
                        assert(prev.result + prev.held.push(c) =~= (prev.result + prev.held).push(
                            c,
                        ));
                    } else {
                        lemma_align_scan_parity(s.drop_first(), wrapper);
                        assert(prev.result.push(c) + prev.held =~= (prev.result + prev.held).push(
                            c,
                        ));
                    }
                },
                AlignState::Preamble => {
                    if c == wrapper || !is_control(c) {
                        assert((prev.result + prev.held).push(c) + Seq::<char>::empty() =~= (
                        prev.result + prev.held).push(c));
                    } else {
                        assert(prev.result + prev.held.push(c) =~= (prev.result + prev.held).push(
                            c,
                        ));
                    }
                },
                AlignState::Text => {
                    lemma_align_scan_parity(s.drop_first(), wrapper);
                    assert(prev.result.push(c) + prev.held =~= (prev.result + prev.held).push(c));
                },
            }
        }
    }
}

/// Where no whitespace is moved, the line is left as it is: two scans
/// that move nothing put the line down as it was.
pub proof fn lemma_align_kept(s: Seq<char>, wrapper: char)
    ensures
        align_reversed(s, wrapper) matches Some((back, changed_back)) ==> (align_reversed(
            back,
            wrapper,
        ) matches Some((forth, changed_forth)) ==> !changed_back && !changed_forth ==> forth
            == s),
{
    lemma_align_scan_parity(s, wrapper);
    lemma_align_scan_kept(s, wrapper);
    let first = align_scan(s, wrapper);
    if first.state == AlignState::Outside && !first.changed {
        assert(first.result + first.held =~= first.result);
        let back = first.result;
        lemma_align_scan_parity(back, wrapper);
        lemma_align_scan_kept(back, wrapper);
        let second = align_scan(back, wrapper);
        if second.state == AlignState::Outside && !second.changed {
            assert(second.result + second.held =~= second.result);
            assert(s.reverse().reverse() =~= s);
        }
    }
}

/// Pairing: a line with an odd number of the wrapper is not aligned with
/// it, and a line with an even number is scanned to its end both ways. The
/// aligned line holds each character as often as the line did.
pub proof fn lemma_aligned_bothways(s: Seq<char>, wrapper: char)
    ensures
        occurrences(s, wrapper) % 2 == 1 ==> aligned_bothways(s, wrapper) is None,
        occurrences(s, wrapper) % 2 == 0 ==> align_reversed(s, wrapper) is Some
            && align_reversed(align_scan(s, wrapper).result, wrapper) is Some,
        forall|t: Seq<char>, c: char|
            aligned_bothways(s, wrapper) == Some(t) ==> #[trigger] occurrences(t, c)
                == occurrences(s, c),
{
    lemma_align_scan_parity(s, wrapper);
    if align_reversed(s, wrapper) is Some {
        let back = align_scan(s, wrapper).result;
        lemma_align_scan_parity(back, wrapper);
        lemma_align_scan_keeps(s, wrapper, wrapper);
        assert(occurrences(Seq::<char>::empty(), wrapper) == 0);
        assert forall|t: Seq<char>, c: char|
            aligned_bothways(s, wrapper) == Some(t) implies #[trigger] occurrences(t, c)
            == occurrences(s, c) by {
            lemma_align_scan_keeps(s, wrapper, c);
            lemma_align_scan_keeps(back, wrapper, c);
            assert(occurrences(Seq::<char>::empty(), c) == 0);
        }
    }
}

/// Pairing: a wrapper kind that occurs an odd number of times in the line
/// is passed over in every pass, whatever the kinds before it have moved;
/// the other kinds are treated all the same.
pub proof fn lemma_odd_kind_skipped(s: Seq<char>, k: int)
    requires
        0 <= k < WRAPPER_KINDS,
        occurrences(s, wrapper_kind(k)) % 2 == 1,
    ensures
        paired_upto(s, k + 1) == paired_upto(s, k),
        occurrences(aligned_line(s), wrapper_kind(k)) % 2 == 1,
{
    lemma_paired_upto(s, k);
    assert(occurrences(line_of(s, paired_upto(s, k)), wrapper_kind(k)) == occurrences(
        s,
        wrapper_kind(k),
    ));
    lemma_aligned_keeps(s, wrapper_kind(k));
}

/// Scans the text from right to left and moves the whitespace that follows
/// the closing wrapper of a pair, and any control characters next to it, in
/// front of them. Returns the text in reverse order and whether any
/// whitespace was moved, or `None` where the text holds an odd number of
/// the wrapper and so cannot be paired.
pub fn align_reverse(s: &str, wrapper: char) -> (r: Option<(String, bool)>)
    ensures
        r.deep_view() == align_reversed(s@, wrapper),
        r is None <==> occurrences(s@, wrapper) % 2 == 1,
{
    let v = to_chars(s);
    let n = v.len();
    let mut changed = false;
    let mut state = AlignState::Outside;
    let mut result = String::new();
    let mut held = String::new();
    let mut i: usize = n;
    assert(v@.skip(n as int) =~= Seq::<char>::empty());
    while i > 0
        invariant
            n == v.len(),
            0 <= i <= n,
            align_scan(v@.skip(i as int), wrapper) == (AlignScan {
                state,
                result: result@,
                held: held@,
                changed,
            }),
        decreases i,
    {
        i -= 1;
        let c = v[i];
        assert(v@.skip(i as int).drop_first() =~= v@.skip(i + 1));
        match state {
            AlignState::Outside => {
                if c == wrapper {
                    held.push(c);
                    state = AlignState::Preamble;
                } else {
                    result.push(c);
                }
            },
            AlignState::Preamble => {
                if c == wrapper {
                    result.append(held.as_str());
                    held = String::new();
                    result.push(c);
                    state = AlignState::Outside;
                } else if char_is_control(c) {
                    held.push(c);
                } else if char_is_space(c) {
                    changed = true;
                    result.push(c);
                } else {
                    result.append(held.as_str());
                    held = String::new();
                    result.push(c);
                    state = AlignState::Text;
                }
            },
            AlignState::Text => {
                result.push(c);
                if c == wrapper {
                    state = AlignState::Outside;
                }
            },
        }
    }
    assert(v@.skip(0) =~= s@);
    proof {
        lemma_align_scan_parity(s@, wrapper);
    }
    match state {
        AlignState::Outside => Some((result, changed)),
        _ => None,
    }
}

/// Moves the whitespace at both ends of the text inside each pair of the
/// wrapper to outside the pair. `None` where the text holds an odd number
/// of the wrapper, or no pair has whitespace at either end.
pub fn align_bothways(s: &str, wrapper: char) -> (r: Option<String>)
    ensures
        r.deep_view() == aligned_bothways(s@, wrapper),
        occurrences(s@, wrapper) % 2 == 1 ==> r is None,
{
    match align_reverse(s, wrapper) {
        Some((back, changed_back)) => match align_reverse(back.as_str(), wrapper) {
            Some((forth, changed_forth)) => {
                if changed_back || changed_forth {
                    Some(forth)
                } else {
                    None
                }
            },
            None => None,
        },
        None => None,
    }
}

/// Whether the wrapper occurs an odd number of times in the text.
pub fn has_odd_count(s: &str, wrapper: char) -> (r: bool)
    ensures
        r == (occurrences(s@, wrapper) % 2 == 1),
{
    let mut odd = false;
    for c in it: s.chars()
        invariant
            it.seq() == s@,
            odd == (occurrences(s@.take(it.index() as int), wrapper) % 2 == 1),
    {
        proof {
            lemma_take_step(s@, it.index() as int);
        }
        if c == wrapper {
            odd = !odd;
        }
    }
    assert(s@.take(s@.len() as int) =~= s@);
    odd
}

/// Makes one pass over the wrapper kinds, each on the outcome of the kinds
/// before it: moves the whitespace at both ends of the text within each
/// pair of a kind to outside the pair, and passes over a kind that occurs
/// an odd number of times. Returns the new line, or `None` where no
/// whitespace was moved.
pub fn align_pairs(s: &str) -> (r: Option<String>)
    ensures
        r.deep_view() == paired_all(s@),
{
    let mut result: Option<String> = None;
    let mut k: usize = 0;
    while k < WRAPPER_KINDS
        invariant
            0 <= k <= WRAPPER_KINDS,
            result.deep_view() == paired_upto(s@, k as int),
        decreases WRAPPER_KINDS - k,
    {
        let wrapper = wrapper_at(k);
        let next = match &result {
            Some(line) => if has_odd_count(line.as_str(), wrapper) {
                None
            } else {
                fix_wrapper_by(line.as_str(), wrapper, true)
            },
            None => if has_odd_count(s, wrapper) {
                None
            } else {
                fix_wrapper_by(s, wrapper, true)
            },
        };
        if next.is_some() {
            result = next;
        }
        k += 1;
    }
    result
}

/// Aligns the whitespace of the line with its pairs of wrappers: whitespace
/// that stands just inside a pair is moved to just outside it, for each
/// wrapper kind in turn and pass upon pass until a pass finds nothing to
/// move. A kind that occurs an odd number of times is left alone; the
/// other kinds are treated all the same. Returns the aligned line, or
/// `None` where there was nothing to move. The line returned has nothing
/// left to move: aligning it again returns `None`.
pub fn process(s: &str) -> (r: Option<String>)
    ensures
        r.deep_view() == aligned(s@),
        r matches Some(t) ==> aligned(t@) is None,
{
    let mut result: Option<String> = None;
    loop
        invariant
            aligned_line(s@) == aligned_line(line_of(s@, result.deep_view())),
            result is Some ==> paired_all(s@) is Some,
        ensures
            result.deep_view() == aligned(s@),
        decreases enclosed(line_of(s@, result.deep_view())),
    {
        proof {
            lemma_aligned_line(line_of(s@, result.deep_view()));
        }
        let next = match &result {
            Some(line) => align_pairs(line.as_str()),
            None => align_pairs(s),
        };
        match next {
            Some(moved) => {
                result = Some(moved);
            },
            None => {
                break ;
            },
        }
    }
    proof {
        lemma_aligned_idempotent(s@);
    }
    result
}

} // verus!
