//! Standalone control characters: those with a fixed substitute are
//! replaced by it, the others are escaped or kept.

use vstd::prelude::*;
use vstd::string::*;
use crate::text::{char_is_control, is_control, lemma_take_step};
use crate::uni_chars::{BLOCK, HYPHEN, NB_SPACE};
use crate::ws_chars::{
    ACTIVE_SOFT_HYPHEN, DELETE, FORM_FEED, INACTIVE_SOFT_HYPHEN, NON_BREAKING_SPACE,
    PHANTOM_RUBOUT, PHANTOM_SPACE,
};

verus! {

/// The substitute of a standalone control character: a block for the two
/// phantom characters of a daisy wheel, a rule on a line of its own for a
/// form feed, a non-breaking space, a hyphen for both soft hyphens, and
/// nothing for a delete.
pub open spec fn mapping_of(c: char) -> Option<Seq<char>> {
    if c == PHANTOM_SPACE || c == PHANTOM_RUBOUT {
        Some(seq!['\u{2588}'])
    } else if c == FORM_FEED {
        Some(seq!['\n', '-', '-', '-', '\n'])
    } else if c == NON_BREAKING_SPACE {
        Some(seq!['\u{00A0}'])
    } else if c == INACTIVE_SOFT_HYPHEN || c == ACTIVE_SOFT_HYPHEN {
        Some(seq!['\u{2010}'])
    } else if c == DELETE {
        Some(Seq::empty())
    } else {
        None
    }
}

/// The escaped form of an ASCII control character: a caret and the
/// character 0x40 further on, `^@` to `^_`, and `^#` for a delete.
pub open spec fn escape_of(c: char) -> Option<Seq<char>> {
    if c as u32 <= 0x1F {
        Some(seq!['^', ((c as u32) + 0x40) as char])
    } else if c as u32 == 0x7F {
        Some(seq!['^', '#'])
    } else {
        None
    }
}

/// What is written for the character `c`, and whether that is a change: the
/// substitute of a control character that has one; with `escape`, the
/// escaped form of any other control character; else the character.
pub open spec fn control_text(c: char, escape: bool) -> (Seq<char>, bool) {
    if !is_control(c) {
        (seq![c], false)
    } else if mapping_of(c) is Some {
        (mapping_of(c).unwrap(), true)
    } else if escape && escape_of(c) is Some {
        (escape_of(c).unwrap(), true)
    } else {
        (seq![c], false)
    }
}

/// The line with what is written for each of its characters, and whether
/// any of them was changed.
pub open spec fn controls_replaced(s: Seq<char>, escape: bool) -> (Seq<char>, bool)
    decreases s.len(),
{
    if s.len() == 0 {
        (Seq::empty(), false)
    } else {
        let (front, changed) = controls_replaced(s.drop_last(), escape);
        let (text, hit) = control_text(s.last(), escape);
        (front + text, changed || hit)
    }
}

/// With escaping, what is written for a character holds no control
/// character but the line feeds of a form feed.
pub proof fn lemma_escaped_text(c: char)
    ensures
        forall|i: int|
            0 <= i < control_text(c, true).0.len() && is_control(
                #[trigger] control_text(c, true).0[i],
            ) ==> control_text(c, true).0[i] == '\n',
{
    if is_control(c) && mapping_of(c) is None {
        assert(escape_of(c) is Some);
        if c as u32 <= 0x1F {
            let p = ((c as u32) + 0x40) as char;
            assert(p as u32 == (c as u32) + 0x40);
            assert(!is_control(p));
        }
    }
}

/// Escaping leaves no control character in a line but the line feeds that
/// are written for a form feed.
pub proof fn lemma_escaped_line(s: Seq<char>)
    ensures
        forall|i: int|
            0 <= i < controls_replaced(s, true).0.len() && is_control(
                #[trigger] controls_replaced(s, true).0[i],
            ) ==> controls_replaced(s, true).0[i] == '\n',
    decreases s.len(),
{
    if s.len() > 0 {
        lemma_escaped_line(s.drop_last());
        lemma_escaped_text(s.last());
        let front = controls_replaced(s.drop_last(), true).0;
        let text = control_text(s.last(), true).0;
        let all = controls_replaced(s, true).0;
        assert(all == front + text);
        assert forall|i: int| 0 <= i < all.len() && is_control(#[trigger] all[i]) implies all[i]
            == '\n' by {
            if i < front.len() {
                assert(all[i] == front[i]);
            } else {
                assert(all[i] == text[i - front.len()]);
            }
        }
    }
}

/// Where nothing was replaced, what is written is the line itself.
pub proof fn lemma_controls_kept(s: Seq<char>, escape: bool)
    ensures
        !controls_replaced(s, escape).1 ==> controls_replaced(s, escape).0 == s,
    decreases s.len(),
{
    if s.len() > 0 {
        lemma_controls_kept(s.drop_last(), escape);
        if !controls_replaced(s, escape).1 {
            assert(s.drop_last() + seq![s.last()] =~= s);
        }
    }
}

/// Returns the substitute of a standalone control character, or `None` for
/// a character that has none.
pub fn get_mapping(c: char) -> (r: Option<&'static str>)
    ensures
        r.deep_view() == mapping_of(c),
{
    proof {
        reveal_strlit("\u{2588}");
        reveal_strlit("\n---\n");
        reveal_strlit("\u{00A0}");
        reveal_strlit("\u{2010}");
        reveal_strlit("");
    }
    if c == PHANTOM_SPACE || c == PHANTOM_RUBOUT {
        assert(BLOCK@ =~= seq!['\u{2588}']);
        Some(BLOCK)
    } else if c == FORM_FEED {
        let rule = "\n---\n";
        assert(rule@ =~= seq!['\n', '-', '-', '-', '\n']);
        Some(rule)
    } else if c == NON_BREAKING_SPACE {
        assert(NB_SPACE@ =~= seq!['\u{00A0}']);
        Some(NB_SPACE)
    } else if c == INACTIVE_SOFT_HYPHEN || c == ACTIVE_SOFT_HYPHEN {
        assert(HYPHEN@ =~= seq!['\u{2010}']);
        Some(HYPHEN)
    } else if c == DELETE {
        let nothing = "";
        assert(nothing@ =~= Seq::<char>::empty());
        Some(nothing)
    } else {
        None
    }
}

/// Returns the escaped form of an ASCII control character, or `None` for
/// any other character.
pub fn get_escaped(c: char) -> (r: Option<String>)
    ensures
        r.deep_view() == escape_of(c),
{
    let code: u32 = c as u32;
    let printable = if code <= 0x1F {
        match char::from_u32(code + 0x40) {
            Some(p) => p,
            None => {
                return None;
            },
        }
    } else if code == 0x7F {
        '#'
    } else {
        return None;
    };
    let mut escaped = String::new();
    escaped.push('^');
    escaped.push(printable);
    assert(escaped@ =~= seq!['^', printable]);
    Some(escaped)
}

/// Replaces each control character of the line that has a substitute by
/// it and, where `escape` is set, each other control character by its
/// escaped form. Returns the new line, or `None` where nothing was
/// replaced.
pub fn process_control(s: &str, escape: bool) -> (r: Option<String>)
    ensures
        r.deep_view() == crate::ws_string::if_changed(controls_replaced(s@, escape)),
{
    let mut changed = false;
    let mut result = String::new();
    for c in it: s.chars()
        invariant
            it.seq() == s@,
            controls_replaced(s@.take(it.index() as int), escape) == (result@, changed),
    {
        proof {
            lemma_take_step(s@, it.index() as int);
        }
        let ghost before = result@;
        if char_is_control(c) {
            match get_mapping(c) {
                Some(substitute) => {
                    result.append(substitute);
                    changed = true;
                },
                None => {
                    if escape {
                        match get_escaped(c) {
                            Some(substitute) => {
                                result.append(substitute.as_str());
                                changed = true;
                            },
                            None => {
                                result.push(c);
                            },
                        }
                    } else {
                        result.push(c);
                    }
                },
            }
        } else {
            result.push(c);
        }
        assert(result@ =~= before + control_text(c, escape).0);
    }
    assert(s@.take(s@.len() as int) =~= s@);
    if changed {
        Some(result)
    } else {
        None
    }
}

} // verus!
