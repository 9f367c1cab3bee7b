//! Dot commands: a line that begins with a period and a command of two
//! characters is a directive for the whole paragraph, not text.

use vstd::prelude::*;
use vstd::string::*;
use crate::text::{
    char_is_blank, char_is_control, char_is_letter, char_is_letter_or_digit, char_lower,
    is_blank, is_control, is_letter, is_letter_or_digit, lemma_take_step, lower, to_chars,
};
use crate::uni_chars::HORIZONTAL_BAR;
use crate::ws_chars::{BOLD, UNDERLINE};
use crate::ws_string::{decides, split_ends, split_wrapped_text};

verus! {

/// Number of characters in the rule that stands for a page break.
pub const RULE_LENGTH: usize = 39;

/// The marker on both sides of a heading: the underline wrapper, so that a
/// heading comes out underlined.
pub const HEADING_MARKER: char = UNDERLINE;

/// The marker on both sides of a numbered heading: the bold wrapper, so
/// that a numbered heading comes out bold.
pub const SUB_HEADING_MARKER: char = BOLD;

/// The command of a dot command line and the text that follows it, if any:
/// the line begins with a period, an ASCII letter and an ASCII letter or
/// digit, and the command is these two characters. `None` for any other
/// line.
pub open spec fn dot_cmd(s: Seq<char>) -> Option<(Seq<char>, Option<Seq<char>>)> {
    if s.len() >= 3 && s[0] == '.' && is_letter(s[1]) && is_letter_or_digit(s[2]) {
        Some(
            (
                s.subrange(1, 3),
                if s.len() > 3 {
                    Some(s.skip(3))
                } else {
                    None
                },
            ),
        )
    } else {
        None
    }
}

/// `s` without its ASCII control characters.
pub open spec fn printable(s: Seq<char>) -> Seq<char> {
    s.filter(|c: char| !is_control(c))
}

/// `s` without the whitespace at its ends, in the sense of the Unicode
/// property White_Space.
pub open spec fn trimmed(s: Seq<char>) -> Seq<char> {
    split_ends(s, |c: char| is_blank(c)).1
}

/// The heading made of the text after a command: the text without its
/// control characters and without the whitespace at its ends, between two
/// markers. `None` where no text follows the command.
pub open spec fn header(marker: Seq<char>, text: Option<Seq<char>>) -> Option<Seq<char>> {
    match text {
        Some(t) => Some(marker + trimmed(printable(t)) + marker),
        None => None,
    }
}

/// A header or footer command: `he` or `fo`.
pub open spec fn is_heading(a: char, b: char) -> bool {
    (a == 'h' && b == 'e') || (a == 'f' && b == 'o')
}

/// A numbered header or footer command: `h1` to `h5`, `f1` to `f5`.
pub open spec fn is_sub_heading(a: char, b: char) -> bool {
    (a == 'h' || a == 'f') && '1' <= b && b <= '5'
}

/// A page break command: `pa` or `xl`.
pub open spec fn is_page_break(a: char, b: char) -> bool {
    (a == 'p' && b == 'a') || (a == 'x' && b == 'l')
}

/// The rule that stands for a page break.
pub open spec fn rule() -> Seq<char> {
    Seq::new(RULE_LENGTH as nat, |i: int| HORIZONTAL_BAR)
}

/// The text that follows a command, or the empty text where nothing does.
pub open spec fn text_after(text: Option<Seq<char>>) -> Seq<char> {
    match text {
        Some(t) => t,
        None => Seq::empty(),
    }
}

/// What a dot command line is replaced by; `None` where the line is no dot
/// command. The case of the command does not matter and the command alone
/// decides. A heading becomes the text that follows the command between two
/// heading markers, a numbered heading the same between two markers of
/// its own; a page break becomes a rule, whatever follows the command; any
/// other command becomes the empty line, which tells the caller to drop
/// the line.
pub open spec fn dot_replaced(s: Seq<char>) -> Option<Seq<char>> {
    match dot_cmd(s) {
        Some((cmd, text)) => {
            let a = lower(cmd[0]);
            let b = lower(cmd[1]);
            if is_heading(a, b) {
                header(seq![HEADING_MARKER], Some(text_after(text)))
            } else if is_sub_heading(a, b) {
                header(seq![SUB_HEADING_MARKER], Some(text_after(text)))
            } else if is_page_break(a, b) {
                Some(rule())
            } else {
                Some(Seq::empty())
            }
        },
        None => None,
    }
}

/// A line is left alone exactly where it is no dot command; the
/// replacement of a heading or a page break is never empty, so a heading
/// is never taken for a line to drop, and a heading and a numbered heading
/// never look alike.
pub proof fn lemma_dot_replaced(s: Seq<char>)
    ensures
        dot_replaced(s) is None <==> dot_cmd(s) is None,
        dot_cmd(s) matches Some((cmd, text)) ==> {
            let a = lower(cmd[0]);
            let b = lower(cmd[1]);
            &&& is_heading(a, b) ==> dot_replaced(s).unwrap().first() == HEADING_MARKER
            &&& is_sub_heading(a, b) && !is_heading(a, b) ==> dot_replaced(s).unwrap().first()
                == SUB_HEADING_MARKER
            &&& is_page_break(a, b) ==> dot_replaced(s).unwrap().len() == RULE_LENGTH
            &&& dot_replaced(s).unwrap().len() == 0 <==> !is_heading(a, b) && !is_sub_heading(a, b)
                && !is_page_break(a, b)
        },
{
}

/// Returns the command of a dot command line and the text that follows it,
/// if any; `None` for a line that is no dot command.
pub fn check_dot_cmd(s: &str) -> (r: Option<(&str, Option<&str>)>)
    ensures
        r.deep_view() == dot_cmd(s@),
{
    let v = to_chars(s);
    let n = v.len();
    if n < 3 {
        return None;
    }
    if v[0] != '.' || !char_is_letter(v[1]) || !char_is_letter_or_digit(v[2]) {
        return None;
    }
    let cmd = s.substring_char(1, 3);
    if n > 3 {
        let text = s.substring_char(3, n);
        assert(text@ =~= s@.skip(3));
        Some((cmd, Some(text)))
    } else {
        Some((cmd, None))
    }
}

/// Returns the text without its ASCII control characters.
pub fn strip_control_chars(s: &str) -> (r: String)
    ensures
        r@ == printable(s@),
{
    let ghost keep = |c: char| !is_control(c);
    let mut result = String::new();
    for c in it: s.chars()
        invariant
            it.seq() == s@,
            keep == |c: char| !is_control(c),
            result@ == s@.take(it.index() as int).filter(keep),
    {
        proof {
            lemma_take_step(s@, it.index() as int);
            reveal(Seq::filter);
        }
        if !char_is_control(c) {
            result.push(c);
        }
    }
    assert(s@.take(s@.len() as int) =~= s@);
    result
}

/// Returns the text there is, without its control characters and without
/// the whitespace at its ends, between two copies of the wrapper; `None`
/// where there is no text.
pub fn make_header(wrapper: &str, opt_text: Option<&str>) -> (r: Option<String>)
    ensures
        r.deep_view() == header(wrapper@, opt_text.deep_view()),
{
    match opt_text {
        Some(text) => {
            let mut result = String::new();
            result.append(wrapper);
            let conv_text = strip_control_chars(text);
            let is_blank_char = |c: &char| -> (r: bool)
                ensures
                    r == is_blank(*c),
                { char_is_blank(*c) };
            assert(decides(is_blank_char, |c: char| is_blank(c)));
            let (_, middle, _) = split_wrapped_text(conv_text.as_str(), is_blank_char);
            result.append(middle);
            result.append(wrapper);
            assert(result@ =~= wrapper@ + trimmed(printable(text@)) + wrapper@);
            Some(result)
        },
        None => None,
    }
}

/// Returns what a dot command line is replaced by, or `None` for a line
/// that is no dot command. A heading command with nothing after it gives
/// the two markers with nothing between them. The empty line tells the
/// caller to drop the line altogether.
pub fn process(s: &str) -> (r: Option<String>)
    ensures
        r.deep_view() == dot_replaced(s@),
        r is None <==> dot_cmd(s@) is None,
{
    proof {
        lemma_dot_replaced(s@);
    }
    match check_dot_cmd(s) {
        Some((cmd, opt_text)) => {
            let a = char_lower(cmd.get_char(0));
            let b = char_lower(cmd.get_char(1));
            let heading = (a == 'h' && b == 'e') || (a == 'f' && b == 'o');
            let sub_heading = (a == 'h' || a == 'f') && '1' <= b && b <= '5';
            let page_break = (a == 'p' && b == 'a') || (a == 'x' && b == 'l');
            if heading || sub_heading {
                let mut marker = String::new();
                if heading {
                    marker.push(HEADING_MARKER);
                } else {
                    marker.push(SUB_HEADING_MARKER);
                }
                assert(heading ==> marker@ =~= seq![HEADING_MARKER]);
                assert(!heading ==> marker@ =~= seq![SUB_HEADING_MARKER]);
                let text = match opt_text {
                    Some(text) => text,
                    None => {
                        proof {
                            reveal_strlit("");
                        }
                        assert(""@ =~= Seq::<char>::empty());
                        ""
                    },
                };
                make_header(marker.as_str(), Some(text))
            } else if page_break {
                let mut bar = String::new();
                let mut i: usize = 0;
                while i < RULE_LENGTH
                    invariant
                        0 <= i <= RULE_LENGTH,
                        bar@ == Seq::new(i as nat, |j: int| HORIZONTAL_BAR),
                    decreases RULE_LENGTH - i,
                {
                    bar.push(HORIZONTAL_BAR);
                    i += 1;
                    assert(bar@ =~= Seq::new(i as nat, |j: int| HORIZONTAL_BAR));
                }
                Some(bar)
            } else {
                Some(String::new())
            }
        },
        None => None,
    }
}

} // verus!
