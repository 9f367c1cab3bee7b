//! Characters and character sequences: the classes of characters that the
//! filters tell apart, and the passage between strings and vectors of
//! characters.
//!
//! A line is specified as a `Seq<char>`, the view of a `&str` or a `String`.

use vstd::prelude::*;

verus! {

/// `String::push` of the standard library: the character is appended at the
/// end of the string and nothing else changes.
pub assume_specification[ String::push ](s: &mut String, c: char)
    ensures
        final(s)@ == old(s)@.push(c),
;

/// `char::from_u32` of the standard library: the character with the given
/// code where that is a Unicode scalar value (anything up to U+10FFFF but
/// the surrogates U+D800 to U+DFFF), `None` otherwise.
pub assume_specification[ char::from_u32 ](i: u32) -> (r: Option<char>)
    ensures
        r == (if i <= 0xD7FF || (0xE000 <= i <= 0x10FFFF) {
            Some(i as char)
        } else {
            None::<char>
        }),
;

/// ASCII control character: U+0000 to U+001F, or U+007F.
pub open spec fn is_control(c: char) -> bool {
    c as u32 <= 0x1F || c as u32 == 0x7F
}

/// ASCII whitespace: space, tab, line feed, form feed or carriage return.
pub open spec fn is_space(c: char) -> bool {
    c == ' ' || c == '\t' || c == '\n' || c == '\x0C' || c == '\r'
}

/// ASCII letter.
pub open spec fn is_letter(c: char) -> bool {
    ('a' <= c && c <= 'z') || ('A' <= c && c <= 'Z')
}

/// ASCII letter or digit.
pub open spec fn is_letter_or_digit(c: char) -> bool {
    is_letter(c) || ('0' <= c && c <= '9')
}

/// Character with the Unicode property White_Space.
pub open spec fn is_blank(c: char) -> bool {
    let u = c as u32;
    ||| (0x09 <= u && u <= 0x0D)
    ||| u == 0x20
    ||| u == 0x85
    ||| u == 0xA0
    ||| u == 0x1680
    ||| (0x2000 <= u && u <= 0x200A)
    ||| u == 0x2028
    ||| u == 0x2029
    ||| u == 0x202F
    ||| u == 0x205F
    ||| u == 0x3000
}

/// The lower case form of an ASCII capital letter; any other character
/// stands for itself.
pub open spec fn lower(c: char) -> char {
    if 'A' <= c && c <= 'Z' {
        ((c as u32) + 0x20) as char
    } else {
        c
    }
}

/// `s` with every ASCII capital letter in lower case.
pub open spec fn lower_seq(s: Seq<char>) -> Seq<char> {
    Seq::new(s.len(), |i: int| lower(s[i]))
}

/// Whether the character is an ASCII control character.
pub fn char_is_control(c: char) -> (r: bool)
    ensures
        r == is_control(c),
{
    c <= '\x1F' || c == '\x7F'
}

/// Whether the character is ASCII whitespace.
pub fn char_is_space(c: char) -> (r: bool)
    ensures
        r == is_space(c),
{
    c == ' ' || c == '\t' || c == '\n' || c == '\x0C' || c == '\r'
}

/// Whether the character is an ASCII letter.
pub fn char_is_letter(c: char) -> (r: bool)
    ensures
        r == is_letter(c),
{
    ('a' <= c && c <= 'z') || ('A' <= c && c <= 'Z')
}

/// Whether the character is an ASCII letter or digit.
pub fn char_is_letter_or_digit(c: char) -> (r: bool)
    ensures
        r == is_letter_or_digit(c),
{
    char_is_letter(c) || ('0' <= c && c <= '9')
}

/// Whether the character has the Unicode property White_Space.
pub fn char_is_blank(c: char) -> (r: bool)
    ensures
        r == is_blank(c),
{
    let u: u32 = c as u32;
    (0x09 <= u && u <= 0x0D) || u == 0x20 || u == 0x85 || u == 0xA0 || u == 0x1680 || (0x2000 <= u
        && u <= 0x200A) || u == 0x2028 || u == 0x2029 || u == 0x202F || u == 0x205F || u == 0x3000
}

/// The character in lower case, if it is an ASCII capital letter.
pub fn char_lower(c: char) -> (r: char)
    ensures
        r == lower(c),
{
    if 'A' <= c && c <= 'Z' {
        match char::from_u32(c as u32 + 0x20) {
            Some(l) => l,
            None => c,
        }
    } else {
        c
    }
}

/// Number of characters of `s` that are equal to `c`.
pub open spec fn occurrences(s: Seq<char>, c: char) -> nat
    decreases s.len(),
{
    if s.len() == 0 {
        0
    } else {
        occurrences(s.drop_last(), c) + if s.last() == c {
            1nat
        } else {
            0nat
        }
    }
}

/// Number of ASCII control characters in `s`.
pub open spec fn control_count(s: Seq<char>) -> nat
    decreases s.len(),
{
    if s.len() == 0 {
        0
    } else {
        control_count(s.drop_last()) + if is_control(s.last()) {
            1nat
        } else {
            0nat
        }
    }
}

/// Taking one character more of a sequence appends that character.
pub proof fn lemma_take_step<T>(s: Seq<T>, i: int)
    requires
        0 <= i < s.len(),
    ensures
        s.take(i + 1) == s.take(i).push(s[i]),
        s.take(i + 1).drop_last() == s.take(i),
        s.take(i + 1).last() == s[i],
{
    assert(s.take(i + 1) =~= s.take(i).push(s[i]));
    assert(s.take(i + 1).drop_last() =~= s.take(i));
}

/// Counting over a text put together from two.
pub proof fn lemma_occurrences_concat(a: Seq<char>, b: Seq<char>, c: char)
    ensures
        occurrences(a + b, c) == occurrences(a, c) + occurrences(b, c),
    decreases b.len(),
{
    if b.len() == 0 {
        assert(a + b =~= a);
    } else {
        lemma_occurrences_concat(a, b.drop_last(), c);
        assert((a + b).drop_last() =~= a + b.drop_last());
    }
}

/// Counting from the first character on.
pub proof fn lemma_occurrences_first(s: Seq<char>, c: char)
    requires
        s.len() > 0,
    ensures
        occurrences(s, c) == occurrences(s.drop_first(), c) + if s.first() == c {
            1nat
        } else {
            0nat
        },
{
    let head = seq![s.first()];
    assert(s =~= head + s.drop_first());
    lemma_occurrences_concat(head, s.drop_first(), c);
    assert(head.drop_last() =~= Seq::<char>::empty());
    assert(occurrences(head.drop_last(), c) == 0);
}

/// Counting control characters over a text put together from two.
pub proof fn lemma_control_count_concat(a: Seq<char>, b: Seq<char>)
    ensures
        control_count(a + b) == control_count(a) + control_count(b),
    decreases b.len(),
{
    if b.len() == 0 {
        assert(a + b =~= a);
    } else {
        lemma_control_count_concat(a, b.drop_last());
        assert((a + b).drop_last() =~= a + b.drop_last());
    }
}

/// No character of `s` is `c`.
pub open spec fn free_of(s: Seq<char>, c: char) -> bool {
    forall|i: int| 0 <= i < s.len() ==> s[i] != c
}

/// Number of ASCII whitespace characters in `s`.
pub open spec fn space_count(s: Seq<char>) -> nat
    decreases s.len(),
{
    if s.len() == 0 {
        0
    } else {
        space_count(s.drop_last()) + if is_space(s.last()) {
            1nat
        } else {
            0nat
        }
    }
}

/// `s` without the characters that are equal to `c`.
pub open spec fn without(s: Seq<char>, c: char) -> Seq<char>
    decreases s.len(),
{
    if s.len() == 0 {
        Seq::empty()
    } else if s.last() == c {
        without(s.drop_last(), c)
    } else {
        without(s.drop_last(), c).push(s.last())
    }
}

/// Counting whitespace over a text put together from two.
pub proof fn lemma_space_count_concat(a: Seq<char>, b: Seq<char>)
    ensures
        space_count(a + b) == space_count(a) + space_count(b),
    decreases b.len(),
{
    if b.len() == 0 {
        assert(a + b =~= a);
    } else {
        lemma_space_count_concat(a, b.drop_last());
        assert((a + b).drop_last() =~= a + b.drop_last());
    }
}

/// A text of whitespace alone holds as much whitespace as it is long.
pub proof fn lemma_space_count_all(s: Seq<char>)
    requires
        forall|i: int| 0 <= i < s.len() ==> is_space(s[i]),
    ensures
        space_count(s) == s.len(),
    decreases s.len(),
{
    if s.len() > 0 {
        let front = s.drop_last();
        assert forall|i: int| 0 <= i < front.len() implies is_space(front[i]) by {
            assert(front[i] == s[i]);
        }
        lemma_space_count_all(front);
    }
}

/// Taking a character out of a text put together from two.
pub proof fn lemma_without_concat(a: Seq<char>, b: Seq<char>, c: char)
    ensures
        without(a + b, c) == without(a, c) + without(b, c),
    decreases b.len(),
{
    if b.len() == 0 {
        assert(a + b =~= a);
        assert(without(a, c) + without(b, c) =~= without(a, c));
    } else {
        lemma_without_concat(a, b.drop_last(), c);
        assert((a + b).drop_last() =~= a + b.drop_last());
        if b.last() != c {
            assert((without(a, c) + without(b.drop_last(), c)).push(b.last()) =~= without(a, c)
                + without(b.drop_last(), c).push(b.last()));
        }
    }
}

/// Taking a character out of the text that holds nothing else, or another
/// character.
pub proof fn lemma_without_one(x: char, c: char)
    ensures
        without(seq![x], c) == if x == c {
            Seq::<char>::empty()
        } else {
            seq![x]
        },
{
    let s = seq![x];
    assert(s.drop_last() =~= Seq::<char>::empty());
    assert(without(s.drop_last(), c) =~= Seq::<char>::empty());
    if x != c {
        assert(Seq::<char>::empty().push(x) =~= seq![x]);
    }
}

/// A text that is free of a character stays so when another is taken out.
pub proof fn lemma_without_free(s: Seq<char>, c: char, other: char)
    requires
        free_of(s, other),
    ensures
        free_of(without(s, c), other),
    decreases s.len(),
{
    if s.len() > 0 {
        let front = s.drop_last();
        assert forall|i: int| 0 <= i < front.len() implies front[i] != other by {
            assert(front[i] == s[i]);
        }
        lemma_without_free(front, c, other);
        assert(s.last() == s[s.len() - 1]);
    }
}

/// Taking out a character that is no whitespace leaves the whitespace.
pub proof fn lemma_without_spaces(s: Seq<char>, c: char)
    requires
        !is_space(c),
    ensures
        space_count(without(s, c)) == space_count(s),
    decreases s.len(),
{
    if s.len() > 0 {
        lemma_without_spaces(s.drop_last(), c);
        if s.last() != c {
            assert(without(s.drop_last(), c).push(s.last()).drop_last() =~= without(
                s.drop_last(),
                c,
            ));
        }
    }
}

/// The characters of `s`, in order.
pub fn to_chars(s: &str) -> (v: Vec<char>)
    ensures
        v@ == s@,
{
    let mut v: Vec<char> = Vec::new();
    for c in it: s.chars()
        invariant
            it.seq() == s@,
            v@ == s@.take(it.index() as int),
    {
        proof {
            lemma_take_step(s@, it.index() as int);
        }
        v.push(c);
    }
    assert(s@.take(s@.len() as int) =~= s@);
    v
}

} // verus!
