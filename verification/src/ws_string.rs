//! Primitive operations on spans of text: splitting at a pair of marker
//! characters, splitting off a suffix of a given number of characters,
//! splitting off the whitespace at both ends, and tests on what a span
//! holds.

use vstd::prelude::*;
use crate::text::{
    char_is_control, char_is_space, free_of, is_control, is_space, lemma_take_step, to_chars,
};

verus! {

/// Every character of `s` is `only`. True of the empty text.
pub open spec fn only_char(s: Seq<char>, only: char) -> bool {
    forall|i: int| 0 <= i < s.len() ==> s[i] == only
}

/// No character of `s` is an ASCII control character. True of the empty
/// text.
pub open spec fn only_print(s: Seq<char>) -> bool {
    forall|i: int| 0 <= i < s.len() ==> !is_control(s[i])
}

/// Position of the first `ch` in `s` at or after `from`, or the length of
/// `s` where there is none.
pub open spec fn first_from(s: Seq<char>, ch: char, from: int) -> int
    decreases s.len() - from,
{
    if from >= s.len() {
        s.len() as int
    } else if s[from] == ch {
        from
    } else {
        first_from(s, ch, from + 1)
    }
}

/// What `first_from` finds: nothing in front of the position is `ch`, and
/// the position holds `ch` unless it is the end of the text.
pub proof fn lemma_first_from(s: Seq<char>, ch: char, from: int)
    requires
        0 <= from,
    ensures
        from <= first_from(s, ch, from) || first_from(s, ch, from) == s.len(),
        0 <= first_from(s, ch, from) <= s.len(),
        forall|i: int| from <= i < first_from(s, ch, from) ==> s[i] != ch,
        first_from(s, ch, from) < s.len() ==> s[first_from(s, ch, from)] == ch,
    decreases s.len() - from,
{
    if from < s.len() && s[from] != ch {
        lemma_first_from(s, ch, from + 1);
    }
}

/// The text in front of the first `ch`, the text between the first and the
/// second `ch`, and the text after the second; `None` where `s` holds fewer
/// than two `ch`. The third part may hold further `ch`.
pub open spec fn split_three(s: Seq<char>, ch: char) -> Option<(Seq<char>, Seq<char>, Seq<char>)> {
    let a = first_from(s, ch, 0);
    let b = first_from(s, ch, a + 1);
    if a < s.len() && b < s.len() {
        Some((s.subrange(0, a), s.subrange(a + 1, b), s.subrange(b + 1, s.len() as int)))
    } else {
        None
    }
}

/// The parts of a split are put together again by the two markers, and
/// neither of the first two parts holds a marker.
pub proof fn lemma_split_three(s: Seq<char>, ch: char)
    ensures
        match split_three(s, ch) {
            Some((left, within, rest)) => {
                &&& s == left + seq![ch] + within + seq![ch] + rest
                &&& left.len() + within.len() + rest.len() + 2 == s.len()
                &&& forall|i: int| 0 <= i < left.len() ==> left[i] != ch
                &&& forall|i: int| 0 <= i < within.len() ==> within[i] != ch
            },
            None => true,
        },
{
    let a = first_from(s, ch, 0);
    lemma_first_from(s, ch, 0);
    lemma_first_from(s, ch, a + 1);
    match split_three(s, ch) {
        Some((left, within, rest)) => {
            assert(s =~= left + seq![ch] + within + seq![ch] + rest);
        },
        None => {},
    }
}

/// A search that starts behind a text in front goes through the text
/// behind it as a search of that text alone.
pub proof fn lemma_first_from_shift(p: Seq<char>, x: Seq<char>, ch: char, k: int)
    requires
        0 <= k,
    ensures
        first_from(p + x, ch, p.len() + k) == p.len() + first_from(x, ch, k),
    decreases x.len() - k,
{
    if k < x.len() {
        assert((p + x)[p.len() + k] == x[k]);
        if x[k] != ch {
            lemma_first_from_shift(p, x, ch, k + 1);
        }
    }
}

/// A search passes over what is free of the character.
pub proof fn lemma_first_from_skip(s: Seq<char>, ch: char, from: int, to: int)
    requires
        0 <= from <= to <= s.len(),
        forall|i: int| from <= i < to ==> s[i] != ch,
    ensures
        first_from(s, ch, from) == first_from(s, ch, to),
    decreases to - from,
{
    if from < to {
        lemma_first_from_skip(s, ch, from + 1, to);
    }
}

/// A text in front that is free of the marker goes to the first part of a
/// split and changes nothing else.
pub proof fn lemma_split_three_prefix(p: Seq<char>, x: Seq<char>, ch: char)
    requires
        free_of(p, ch),
    ensures
        split_three(p + x, ch) == match split_three(x, ch) {
            Some((left, within, rest)) => Some((p + left, within, rest)),
            None => None,
        },
{
    let s = p + x;
    let n = p.len() as int;
    assert forall|i: int| 0 <= i < n implies s[i] != ch by {
        assert(s[i] == p[i]);
    }
    lemma_first_from_skip(s, ch, 0, n);
    lemma_first_from_shift(p, x, ch, 0);
    let a = first_from(x, ch, 0);
    lemma_first_from(x, ch, 0);
    lemma_first_from_shift(p, x, ch, a + 1);
    lemma_first_from(x, ch, a + 1);
    let b = first_from(x, ch, a + 1);
    if a < x.len() && b < x.len() {
        assert(s.subrange(0, n + a) =~= p + x.subrange(0, a));
        assert(s.subrange(n + a + 1, n + b) =~= x.subrange(a + 1, b));
        assert(s.subrange(n + b + 1, s.len() as int) =~= x.subrange(b + 1, x.len() as int));
    }
}

/// A text that is made of two markers and three parts, the first two of
/// them free of the marker, is split into these parts.
pub proof fn lemma_split_three_is(
    left: Seq<char>,
    within: Seq<char>,
    rest: Seq<char>,
    ch: char,
)
    requires
        free_of(left, ch),
        free_of(within, ch),
    ensures
        split_three(left + seq![ch] + within + seq![ch] + rest, ch) == Some((left, within, rest)),
{
    let s = left + seq![ch] + within + seq![ch] + rest;
    let a = left.len() as int;
    let b = a + 1 + within.len();
    assert(s[a] == ch);
    assert(s[b] == ch);
    assert forall|i: int| 0 <= i < a implies s[i] != ch by {
        assert(s[i] == left[i]);
    }
    assert forall|i: int| a + 1 <= i < b implies s[i] != ch by {
        assert(s[i] == within[i - a - 1]);
    }
    lemma_first_from_skip(s, ch, 0, a);
    lemma_first_from_skip(s, ch, a + 1, b);
    assert(s.subrange(0, a) =~= left);
    assert(s.subrange(a + 1, b) =~= within);
    assert(s.subrange(b + 1, s.len() as int) =~= rest);
}

/// A text with less than two markers is not split: one that is free of the
/// marker, or made of one marker between two parts that are free of it.
pub proof fn lemma_split_three_none(left: Seq<char>, within: Seq<char>, ch: char)
    requires
        free_of(left, ch),
        free_of(within, ch),
    ensures
        split_three(left, ch) is None,
        split_three(left + seq![ch] + within, ch) is None,
{
    lemma_first_from_skip(left, ch, 0, left.len() as int);
    let s = left + seq![ch] + within;
    let a = left.len() as int;
    assert(s[a] == ch);
    assert forall|i: int| 0 <= i < a implies s[i] != ch by {
        assert(s[i] == left[i]);
    }
    assert forall|i: int| a + 1 <= i < s.len() implies s[i] != ch by {
        assert(s[i] == within[i - a - 1]);
    }
    lemma_first_from_skip(s, ch, 0, a);
    lemma_first_from_skip(s, ch, a + 1, s.len() as int);
}

/// `s` split in front of its last `n` characters; `None` where `s` is
/// shorter than that.
pub open spec fn split_suffix(s: Seq<char>, n: nat) -> Option<(Seq<char>, Seq<char>)> {
    if n <= s.len() {
        Some((s.take(s.len() - n), s.skip(s.len() - n)))
    } else {
        None
    }
}

/// `s` split in front of its last `2 * n` and its last `n` characters;
/// `None` where `s` is shorter than `2 * n`.
pub open spec fn split_two_suffixes(s: Seq<char>, n: nat) -> Option<
    (Seq<char>, Seq<char>, Seq<char>),
> {
    match split_suffix(s, n) {
        Some((front, right)) => match split_suffix(front, n) {
            Some((left, middle)) => Some((left, middle, right)),
            None => None,
        },
        None => None,
    }
}

/// Position of the first character of `s` at or after `from` that `pred`
/// rejects, or the length of `s` where there is none.
pub open spec fn first_rejected(s: Seq<char>, pred: spec_fn(char) -> bool, from: int) -> int
    decreases s.len() - from,
{
    if from >= s.len() {
        s.len() as int
    } else if !pred(s[from]) {
        from
    } else {
        first_rejected(s, pred, from + 1)
    }
}

/// End of the last character of `s` in front of `to` that `pred` rejects,
/// or 0 where there is none.
pub open spec fn last_rejected_end(s: Seq<char>, pred: spec_fn(char) -> bool, to: int) -> int
    decreases to,
{
    if to <= 0 {
        0
    } else if to <= s.len() && !pred(s[to - 1]) {
        to
    } else {
        last_rejected_end(s, pred, to - 1)
    }
}

/// What `first_rejected` finds: every character in front of the position is
/// accepted, and the one at the position is not, unless it is the end of
/// the text.
pub proof fn lemma_first_rejected(s: Seq<char>, pred: spec_fn(char) -> bool, from: int)
    requires
        0 <= from <= s.len(),
    ensures
        from <= first_rejected(s, pred, from) <= s.len(),
        forall|i: int| from <= i < first_rejected(s, pred, from) ==> pred(s[i]),
        first_rejected(s, pred, from) < s.len() ==> !pred(s[first_rejected(s, pred, from)]),
    decreases s.len() - from,
{
    if from < s.len() && pred(s[from]) {
        lemma_first_rejected(s, pred, from + 1);
    }
}

/// What `last_rejected_end` finds: every character from the position on is
/// accepted, and the one in front of the position is not, unless it is the
/// start of the text.
pub proof fn lemma_last_rejected_end(s: Seq<char>, pred: spec_fn(char) -> bool, to: int)
    requires
        0 <= to <= s.len(),
    ensures
        0 <= last_rejected_end(s, pred, to) <= to,
        forall|i: int| last_rejected_end(s, pred, to) <= i < to ==> pred(s[i]),
        last_rejected_end(s, pred, to) > 0 ==> !pred(s[last_rejected_end(s, pred, to) - 1]),
    decreases to,
{
    if to > 0 && pred(s[to - 1]) {
        lemma_last_rejected_end(s, pred, to - 1);
    }
}

/// `s` in three parts: the longest run of characters at its start that
/// `pred` accepts, the text up to the last character that `pred` rejects,
/// and the run of accepted characters after that. Where `pred` accepts
/// every character of `s`, the first two parts are empty and the third is
/// all of `s`.
pub open spec fn split_ends(s: Seq<char>, pred: spec_fn(char) -> bool) -> (
    Seq<char>,
    Seq<char>,
    Seq<char>,
) {
    let left = first_rejected(s, pred, 0);
    if left == s.len() {
        (Seq::empty(), Seq::empty(), s)
    } else {
        let right = last_rejected_end(s, pred, s.len() as int);
        (s.take(left), s.subrange(left, right), s.skip(right))
    }
}

/// The three parts of `split_ends` make up the text; the outer two hold only
/// accepted characters and the middle one neither begins nor ends with one.
pub proof fn lemma_split_ends(s: Seq<char>, pred: spec_fn(char) -> bool)
    ensures
        ({
            let (before, middle, after) = split_ends(s, pred);
            &&& s == before + middle + after
            &&& forall|i: int| 0 <= i < before.len() ==> pred(before[i])
            &&& forall|i: int| 0 <= i < after.len() ==> pred(after[i])
            &&& middle.len() > 0 ==> !pred(middle.first()) && !pred(middle.last())
            &&& middle.len() == 0 ==> before.len() == 0
        }),
{
    let left = first_rejected(s, pred, 0);
    lemma_first_rejected(s, pred, 0);
    lemma_last_rejected_end(s, pred, s.len() as int);
    let (before, middle, after) = split_ends(s, pred);
    if left < s.len() {
        let right = last_rejected_end(s, pred, s.len() as int);
        if right <= left {
            assert(pred(s[left]));
        }
        assert(s =~= before + middle + after);
    } else {
        assert(s =~= before + middle + after);
    }
}

/// `s` in three parts: the ASCII whitespace at its start, the text between,
/// and the ASCII whitespace at its end. A text of whitespace alone is all
/// in the first part, and the other two are empty.
pub open spec fn split_spaces(s: Seq<char>) -> (Seq<char>, Seq<char>, Seq<char>) {
    if first_rejected(s, |c: char| is_space(c), 0) == s.len() {
        (s, Seq::empty(), Seq::empty())
    } else {
        split_ends(s, |c: char| is_space(c))
    }
}

/// The three parts of `split_spaces` make up the text; the outer two hold
/// whitespace only, the middle one neither begins nor ends with whitespace,
/// and it is empty only where the third is empty too.
pub proof fn lemma_split_spaces(s: Seq<char>)
    ensures
        ({
            let (before, middle, after) = split_spaces(s);
            &&& s == before + middle + after
            &&& forall|i: int| 0 <= i < before.len() ==> is_space(before[i])
            &&& forall|i: int| 0 <= i < after.len() ==> is_space(after[i])
            &&& middle.len() > 0 ==> !is_space(middle.first()) && !is_space(middle.last())
            &&& middle.len() == 0 ==> after.len() == 0
        }),
{
    let pred = |c: char| is_space(c);
    lemma_split_ends(s, pred);
    lemma_first_rejected(s, pred, 0);
    let (before, middle, after) = split_spaces(s);
    assert(s =~= before + middle + after);
    if first_rejected(s, pred, 0) < s.len() {
        lemma_last_rejected_end(s, pred, s.len() as int);
        let left = first_rejected(s, pred, 0);
        let right = last_rejected_end(s, pred, s.len() as int);
        if right <= left {
            assert(pred(s[left]));
        }
    }
}

/// The text made from `s` pair by pair. `s` is split at its first two `w`;
/// `emit` makes of the text in front of the pair and the text within it
/// what is written for both, and says whether that is a change; what
/// follows the pair is treated in the same way. The text after the last
/// pair is written as it is. The result is the text written and whether any
/// pair was a change.
pub open spec fn each_pair(
    s: Seq<char>,
    w: char,
    emit: spec_fn(Seq<char>, Seq<char>) -> (Seq<char>, bool),
) -> (Seq<char>, bool)
    decreases s.len(),
{
    match split_three(s, w) {
        Some((left, within, rest)) => {
            proof {
                lemma_split_three(s, w);
            }
            let (out, hit) = emit(left, within);
            let (tail, more) = each_pair(rest, w, emit);
            (out + tail, hit || more)
        },
        None => (s, false),
    }
}

/// `each_pair`, one pair at a time.
pub proof fn lemma_each_pair(
    s: Seq<char>,
    w: char,
    emit: spec_fn(Seq<char>, Seq<char>) -> (Seq<char>, bool),
)
    ensures
        match split_three(s, w) {
            Some((left, within, rest)) => {
                &&& rest.len() < s.len()
                &&& each_pair(s, w, emit).0 == emit(left, within).0 + each_pair(rest, w, emit).0
                &&& each_pair(s, w, emit).1 == (emit(left, within).1 || each_pair(
                    rest,
                    w,
                    emit,
                ).1)
            },
            None => each_pair(s, w, emit) == (s, false),
        },
{
    lemma_split_three(s, w);
}

/// What a filter returns that has made `made.0` of a line and changed it
/// if `made.1`.
pub open spec fn if_changed(made: (Seq<char>, bool)) -> Option<Seq<char>> {
    if made.1 {
        Some(made.0)
    } else {
        None
    }
}

/// Position of the first `ch` in `v` at or after `from`, or the length of
/// `v`.
pub fn find_from(v: &Vec<char>, ch: char, from: usize) -> (r: usize)
    ensures
        r == first_from(v@, ch, from as int),
{
    let mut i: usize = from;
    while i < v.len() && v[i] != ch
        invariant
            from <= i,
            first_from(v@, ch, from as int) == first_from(v@, ch, i as int),
        decreases v.len() - i,
    {
        i += 1;
    }
    if i >= v.len() {
        v.len()
    } else {
        i
    }
}

/// Whether the function `func` says of every character what `pred` says.
pub open spec fn decides<F: Fn(&char) -> bool>(func: F, pred: spec_fn(char) -> bool) -> bool {
    forall|c: char, r: bool| #[trigger] call_ensures(func, (&c,), r) ==> r == pred(c)
}

/// Splits off the characters at both ends of the text that `func` accepts:
/// the accepted characters at its start, the text between, the accepted
/// characters at its end. A text of accepted characters alone is returned
/// as the third part, with the other two empty.
pub fn split_wrapped_text<F: Fn(&char) -> bool>(s: &str, func: F) -> (r: (&str, &str, &str))
    requires
        forall|c: char| #[trigger] call_requires(func, (&c,)),
    ensures
        forall|pred: spec_fn(char) -> bool| #[trigger]
            decides(func, pred) ==> r.deep_view() == split_ends(s@, pred),
{
    let v = to_chars(s);
    let n = v.len();
    let mut left: usize = 0;
    while left < n
        invariant
            n == v.len(),
            0 <= left <= n,
            forall|c: char| #[trigger] call_requires(func, (&c,)),
            forall|i: int| 0 <= i < left ==> call_ensures(func, (&#[trigger] v@[i],), true),
        ensures
            0 <= left <= n,
            forall|i: int| 0 <= i < left ==> call_ensures(func, (&#[trigger] v@[i],), true),
            left < n ==> call_ensures(func, (&v@[left as int],), false),
        decreases n - left,
    {
        if !func(&v[left]) {
            break ;
        }
        left += 1;
    }
    if left >= n {
        let before = s.substring_char(0, 0);
        let middle = s.substring_char(0, 0);
        let after = s.substring_char(0, n);
        proof {
            assert(before@ =~= Seq::<char>::empty());
            assert(after@ =~= s@);
            assert forall|pred: spec_fn(char) -> bool| #[trigger] decides(func, pred) implies (
                before,
                middle,
                after,
            ).deep_view() == split_ends(s@, pred) by {
                lemma_first_rejected(s@, pred, 0);
                let f = first_rejected(s@, pred, 0);
                if f < n {
                    assert(call_ensures(func, (&v@[f],), true));
                }
            }
        }
        return (before, middle, after);
    }
    let mut right: usize = n;
    while right > left
        invariant
            n == v.len(),
            left <= right <= n,
            forall|c: char| #[trigger] call_requires(func, (&c,)),
            forall|i: int| right <= i < n ==> call_ensures(func, (&#[trigger] v@[i],), true),
        ensures
            left <= right <= n,
            forall|i: int| right <= i < n ==> call_ensures(func, (&#[trigger] v@[i],), true),
            right > left ==> call_ensures(func, (&v@[right - 1],), false),
        decreases right,
    {
        if !func(&v[right - 1]) {
            break ;
        }
        right -= 1;
    }
    let before = s.substring_char(0, left);
    let middle = s.substring_char(left, right);
    let after = s.substring_char(right, n);
    proof {
        assert(before@ =~= s@.take(left as int));
        assert(after@ =~= s@.skip(right as int));
        assert forall|pred: spec_fn(char) -> bool| #[trigger] decides(func, pred) implies (
            before,
            middle,
            after,
        ).deep_view() == split_ends(s@, pred) by {
            lemma_first_rejected(s@, pred, 0);
            lemma_last_rejected_end(s@, pred, n as int);
            let f = first_rejected(s@, pred, 0);
            let l = last_rejected_end(s@, pred, n as int);
            if f < left {
                assert(call_ensures(func, (&v@[f],), true));
            }
            if right == left {
                assert(call_ensures(func, (&v@[left as int],), true));
            }
            if l > right {
                assert(call_ensures(func, (&v@[l - 1],), true));
            }
            if l < right {
                assert(pred(v@[right - 1]));
            }
        }
    }
    (before, middle, after)
}

/// Length of the text in characters, not bytes.
pub fn len_in_chars(s: &str) -> (r: usize)
    ensures
        r == s@.len(),
{
    s.unicode_len()
}

/// Whether the text holds no character but `only`.
pub fn contains_only_char(s: &str, only: char) -> (r: bool)
    ensures
        r == only_char(s@, only),
{
    let mut all: bool = true;
    for c in it: s.chars()
        invariant
            it.seq() == s@,
            all == only_char(s@.take(it.index() as int), only),
    {
        proof {
            let i = it.index() as int;
            let before = s@.take(i);
            let after = s@.take(i + 1);
            lemma_take_step(s@, i);
            if all && c == only {
                assert forall|j: int| 0 <= j < after.len() implies after[j] == only by {
                    if j < i {
                        assert(before[j] == only);
                    }
                }
            } else if all {
                assert(after[i] != only);
            } else {
                let j = choose|j: int| 0 <= j < before.len() && before[j] != only;
                assert(after[j] != only);
            }
        }
        all = all && c == only;
    }
    assert(s@.take(s@.len() as int) =~= s@);
    all
}

/// Whether the text holds no ASCII control character.
pub fn contains_only_print(s: &str) -> (r: bool)
    ensures
        r == only_print(s@),
{
    let mut all: bool = true;
    for c in it: s.chars()
        invariant
            it.seq() == s@,
            all == only_print(s@.take(it.index() as int)),
    {
        proof {
            let i = it.index() as int;
            let before = s@.take(i);
            let after = s@.take(i + 1);
            lemma_take_step(s@, i);
            if all && !is_control(c) {
                assert forall|j: int| 0 <= j < after.len() implies !is_control(after[j]) by {
                    if j < i {
                        assert(!is_control(before[j]));
                    }
                }
            } else if all {
                assert(is_control(after[i]));
            } else {
                let j = choose|j: int| 0 <= j < before.len() && is_control(before[j]);
                assert(is_control(after[j]));
            }
        }
        all = all && !char_is_control(c);
    }
    assert(s@.take(s@.len() as int) =~= s@);
    all
}

/// Splits the text at the first two occurrences of `ch`, neither of which
/// is part of the result: the text in front of the first, the text between
/// them, and the text after the second, which may hold more of them.
/// `None` where `ch` occurs less than twice.
pub fn split_first_three(s: &str, ch: char) -> (r: Option<(&str, &str, &str)>)
    ensures
        r.deep_view() == split_three(s@, ch),
{
    let v = to_chars(s);
    let n = v.len();
    let a = find_from(&v, ch, 0);
    if a >= n {
        return None;
    }
    let b = find_from(&v, ch, a + 1);
    if b >= n {
        return None;
    }
    proof {
        lemma_first_from(s@, ch, 0);
        lemma_first_from(s@, ch, a + 1);
    }
    Some((s.substring_char(0, a), s.substring_char(a + 1, b), s.substring_char(b + 1, n)))
}

/// Splits the text in front of its last `len` characters. `None` where the
/// text is shorter than `len` characters; with `len` 0 the second part is
/// empty.
pub fn split_last_two(s: &str, len: usize) -> (r: Option<(&str, &str)>)
    ensures
        r.deep_view() == split_suffix(s@, len as nat),
{
    let n = s.unicode_len();
    if len > n {
        return None;
    }
    let left = s.substring_char(0, n - len);
    let right = s.substring_char(n - len, n);
    assert(left@ =~= s@.take(n - len));
    assert(right@ =~= s@.skip(n - len));
    Some((left, right))
}

/// Splits off the last `len` characters of the text and the `len`
/// characters in front of those. `None` where the text is shorter than
/// twice `len` characters.
pub fn split_last_three(s: &str, len: usize) -> (r: Option<(&str, &str, &str)>)
    ensures
        r.deep_view() == split_two_suffixes(s@, len as nat),
{
    match split_last_two(s, len) {
        Some((front, right)) => match split_last_two(front, len) {
            Some((left, middle)) => Some((left, middle, right)),
            None => None,
        },
        None => None,
    }
}

/// Splits off the ASCII whitespace at both ends of the text: the whitespace
/// at its start, the text between, the whitespace at its end. Whitespace
/// inside the middle part stays there. A text of whitespace alone is
/// returned as the first part, with the other two empty.
pub fn split_space_at_ends(s: &str) -> (r: (&str, &str, &str))
    ensures
        r.deep_view() == split_spaces(s@),
{
    let is_space_char = |c: &char| -> (r: bool)
        ensures
            r == is_space(*c),
        { char_is_space(*c) };
    assert(decides(is_space_char, |c: char| is_space(c)));
    let (before, middle, after) = split_wrapped_text(s, is_space_char);
    proof {
        lemma_split_ends(s@, |c: char| is_space(c));
        lemma_first_rejected(s@, |c: char| is_space(c), 0);
    }
    if middle.is_empty() {
        (after, middle, before)
    } else {
        (before, middle, after)
    }
}

} // verus!
