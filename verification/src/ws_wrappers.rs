//! The wrapper state machine: one scan of a line that takes the wrapper
//! characters out of it and shows what they stood for in the characters
//! between them.
//!
//! Each wrapper character switches one kind of emphasis on or off. Bold,
//! italic, subscript and superscript are shown by characters of other
//! Unicode alphabets; underline, overline and strikethrough by modifiers
//! written after each character.

use vstd::prelude::*;
use crate::text::{
    char_is_control, is_control, lemma_occurrences_concat, lemma_take_step, occurrences,
};
use crate::uni_chars::{COMB_OVERLINE, COMB_STRIKETHROUGH, COMB_UNDERLINE};
use crate::ws_chars::{
    BOLD, DOUBLE, ITALIC, OVERLINE, STRIKETHROUGH, SUBSCRIPT, SUPERSCRIPT, UNDERLINE,
};
use crate::ws_mappings::{
    bold_italic_of, bold_of, get_bold, get_bold_italic, get_italic, get_subscript,
    get_superscript, italic_of, subscript_of, superscript_of,
};

verus! {

/// Which kinds of emphasis are switched on.
pub struct Toggles {
    pub overline: bool,
    pub bold: bool,
    pub double: bool,
    pub underline: bool,
    pub subscript: bool,
    pub superscript: bool,
    pub strikethrough: bool,
    pub italic: bool,
}

/// Nothing switched on.
pub open spec fn all_off() -> Toggles {
    Toggles {
        overline: false,
        bold: false,
        double: false,
        underline: false,
        subscript: false,
        superscript: false,
        strikethrough: false,
        italic: false,
    }
}

/// Whether `c` is one of the eight wrapper characters.
pub open spec fn is_wrapper(c: char) -> bool {
    c == OVERLINE || c == BOLD || c == DOUBLE || c == UNDERLINE || c == SUBSCRIPT || c
        == SUPERSCRIPT || c == STRIKETHROUGH || c == ITALIC
}

/// The toggle that the wrapper character `c` switches.
pub open spec fn toggle_of(t: Toggles, c: char) -> bool
    recommends
        is_wrapper(c),
{
    if c == OVERLINE {
        t.overline
    } else if c == BOLD {
        t.bold
    } else if c == DOUBLE {
        t.double
    } else if c == UNDERLINE {
        t.underline
    } else if c == SUBSCRIPT {
        t.subscript
    } else if c == SUPERSCRIPT {
        t.superscript
    } else if c == STRIKETHROUGH {
        t.strikethrough
    } else {
        t.italic
    }
}

/// The toggles after the character `c`: a wrapper character switches its
/// own toggle over, any other character leaves them alone.
pub open spec fn toggled(t: Toggles, c: char) -> Toggles {
    if c == OVERLINE {
        Toggles { overline: !t.overline, ..t }
    } else if c == BOLD {
        Toggles { bold: !t.bold, ..t }
    } else if c == DOUBLE {
        Toggles { double: !t.double, ..t }
    } else if c == UNDERLINE {
        Toggles { underline: !t.underline, ..t }
    } else if c == SUBSCRIPT {
        Toggles { subscript: !t.subscript, ..t }
    } else if c == SUPERSCRIPT {
        Toggles { superscript: !t.superscript, ..t }
    } else if c == STRIKETHROUGH {
        Toggles { strikethrough: !t.strikethrough, ..t }
    } else if c == ITALIC {
        Toggles { italic: !t.italic, ..t }
    } else {
        t
    }
}

/// Whether a line is to be drawn under, over or through the characters.
pub open spec fn lined(t: Toggles) -> bool {
    t.underline || t.overline || t.strikethrough
}

/// The character that shows `c` with the emphasis switched on, where there
/// is one. Superscript goes before subscript, and both before bold and
/// italic. Bold and double strike cancel each other.
pub open spec fn mapped(t: Toggles, c: char) -> Option<char> {
    if t.superscript {
        superscript_of(c)
    } else if t.subscript {
        subscript_of(c)
    } else if t.bold != t.double {
        if t.italic {
            bold_italic_of(c)
        } else {
            bold_of(c)
        }
    } else if t.italic {
        italic_of(c)
    } else {
        None
    }
}

/// The modifiers that follow each character: underline, overline,
/// strikethrough, in this order, each where it is switched on.
pub open spec fn modifiers(t: Toggles) -> Seq<char> {
    (if t.underline {
        seq![COMB_UNDERLINE]
    } else {
        Seq::<char>::empty()
    }) + (if t.overline {
        seq![COMB_OVERLINE]
    } else {
        Seq::<char>::empty()
    }) + (if t.strikethrough {
        seq![COMB_STRIKETHROUGH]
    } else {
        Seq::<char>::empty()
    })
}

/// What a scan has made of the text it has met.
pub struct Rendering {
    pub toggles: Toggles,
    /// The text written.
    pub text: Seq<char>,
    /// Whether a wrapper was taken out or a character written otherwise
    /// than it was met.
    pub changed: bool,
}

/// The scan after the character `c`.
pub open spec fn render_step(r: Rendering, c: char) -> Rendering {
    if is_control(c) {
        if is_wrapper(c) {
            Rendering { toggles: toggled(r.toggles, c), changed: true, ..r }
        } else {
            Rendering { text: r.text.push(c), ..r }
        }
    } else if !lined(r.toggles) {
        match mapped(r.toggles, c) {
            Some(m) => Rendering { text: r.text.push(m), changed: true, ..r },
            None => Rendering { text: r.text.push(c), ..r },
        }
    } else {
        Rendering { text: r.text.push(c) + modifiers(r.toggles), changed: true, ..r }
    }
}

/// The scan of all of `s`, begun with the toggles `t`.
pub open spec fn render(t: Toggles, s: Seq<char>) -> Rendering
    decreases s.len(),
{
    if s.len() == 0 {
        Rendering { toggles: t, text: Seq::empty(), changed: false }
    } else {
        render_step(render(t, s.drop_last()), s.last())
    }
}

/// What `process` returns for a scan.
pub open spec fn rendered(r: Rendering) -> Option<Seq<char>> {
    if r.changed {
        Some(r.text)
    } else {
        None
    }
}

/// Pairing: at the end of a line each toggle stands as it stood at the
/// start where its wrapper occurs an even number of times, and the other
/// way round where it occurs an odd number of times. An unpaired wrapper
/// thus leaves its span open for the caller to see.
pub proof fn lemma_render_toggles(t: Toggles, s: Seq<char>, w: char)
    requires
        is_wrapper(w),
    ensures
        toggle_of(render(t, s).toggles, w) == (toggle_of(t, w) != (occurrences(s, w) % 2 == 1)),
    decreases s.len(),
{
    if s.len() > 0 {
        lemma_render_toggles(t, s.drop_last(), w);
    }
}

/// Where a scan reports no change, it has written the line as it is.
pub proof fn lemma_render_kept(t: Toggles, s: Seq<char>)
    ensures
        !render(t, s).changed ==> render(t, s).text == s && render(t, s).toggles == t,
    decreases s.len(),
{
    if s.len() > 0 {
        lemma_render_kept(t, s.drop_last());
        if !render(t, s).changed {
            assert(s.drop_last().push(s.last()) =~= s);
        }
    }
}

/// No wrapper character is left in the text written, paired or not.
pub proof fn lemma_render_consumes(t: Toggles, s: Seq<char>, w: char)
    requires
        is_wrapper(w),
    ensures
        occurrences(render(t, s).text, w) == 0,
    decreases s.len(),
{
    if s.len() > 0 {
        let before = render(t, s.drop_last());
        let c = s.last();
        lemma_render_consumes(t, s.drop_last(), w);
        let one = before.text.push(c);
        assert(one.drop_last() =~= before.text);
        if !is_control(c) && !lined(before.toggles) {
            match mapped(before.toggles, c) {
                Some(m) => {
                    assert(before.text.push(m).drop_last() =~= before.text);
                    assert(!is_wrapper(m));
                },
                None => {},
            }
        } else if !is_control(c) {
            let mods = modifiers(before.toggles);
            lemma_occurrences_concat(one, mods, w);
            lemma_no_modifier_is_wrapper(before.toggles, w);
        }
    }
}

/// The modifiers are no wrapper characters.
pub proof fn lemma_no_modifier_is_wrapper(t: Toggles, w: char)
    requires
        is_wrapper(w),
    ensures
        occurrences(modifiers(t), w) == 0,
{
    let e = Seq::<char>::empty();
    let u = if t.underline {
        seq![COMB_UNDERLINE]
    } else {
        e
    };
    let o = if t.overline {
        seq![COMB_OVERLINE]
    } else {
        e
    };
    let x = if t.strikethrough {
        seq![COMB_STRIKETHROUGH]
    } else {
        e
    };
    assert(seq![COMB_UNDERLINE].drop_last() =~= e);
    assert(seq![COMB_OVERLINE].drop_last() =~= e);
    assert(seq![COMB_STRIKETHROUGH].drop_last() =~= e);
    assert(occurrences(e, w) == 0);
    lemma_occurrences_concat(u, o, w);
    lemma_occurrences_concat(u + o, x, w);
}

/// The states of the wrapper characters that switch emphasis on and off.
/// The caller owns the state and decides when a span may run on from one
/// line into the next: `process` leaves it as the line left it, `reset`
/// switches everything off.
#[derive(Debug)]
pub struct Wrappers {
    overline: bool,
    bold: bool,
    double: bool,
    underline: bool,
    subscript: bool,
    superscript: bool,
    strikethrough: bool,
    italic: bool,
}

impl View for Wrappers {
    type V = Toggles;

    closed spec fn view(&self) -> Toggles {
        Toggles {
            overline: self.overline,
            bold: self.bold,
            double: self.double,
            underline: self.underline,
            subscript: self.subscript,
            superscript: self.superscript,
            strikethrough: self.strikethrough,
            italic: self.italic,
        }
    }
}

impl Default for Wrappers {
    fn default() -> (r: Self)
        ensures
            r@ == all_off(),
    {
        Wrappers::new()
    }
}

impl Wrappers {
    /// A state with everything switched off.
    pub fn new() -> (r: Self)
        ensures
            r@ == all_off(),
    {
        Wrappers {
            overline: false,
            bold: false,
            double: false,
            underline: false,
            subscript: false,
            superscript: false,
            strikethrough: false,
            italic: false,
        }
    }

    /// Switches everything off.
    pub fn reset(&mut self)
        ensures
            final(self)@ == all_off(),
    {
        self.overline = false;
        self.bold = false;
        self.double = false;
        self.underline = false;
        self.subscript = false;
        self.superscript = false;
        self.strikethrough = false;
        self.italic = false;
    }

    /// Switches the toggle of the wrapper character `c` over and returns
    /// `true`; returns `false` and changes nothing for any other character.
    pub fn check_toggle(&mut self, c: char) -> (r: bool)
        ensures
            r == is_wrapper(c),
            final(self)@ == toggled(old(self)@, c),
    {
        if c == OVERLINE {
            self.overline = !self.overline;
        } else if c == BOLD {
            self.bold = !self.bold;
        } else if c == DOUBLE {
            self.double = !self.double;
        } else if c == UNDERLINE {
            self.underline = !self.underline;
        } else if c == SUBSCRIPT {
            self.subscript = !self.subscript;
        } else if c == SUPERSCRIPT {
            self.superscript = !self.superscript;
        } else if c == STRIKETHROUGH {
            self.strikethrough = !self.strikethrough;
        } else if c == ITALIC {
            self.italic = !self.italic;
        } else {
            return false;
        }
        true
    }

    /// Returns the character that shows `c` with the emphasis that is
    /// switched on, or `None` where there is no such character.
    pub fn get_mapped(&self, c: char) -> (r: Option<char>)
        ensures
            r == mapped(self@, c),
    {
        if self.superscript {
            get_superscript(c)
        } else if self.subscript {
            get_subscript(c)
        } else if self.bold != self.double {
            if self.italic {
                get_bold_italic(c)
            } else {
                get_bold(c)
            }
        } else if self.italic {
            get_italic(c)
        } else {
            None
        }
    }

    /// Scans the line from left to right. A wrapper character switches its
    /// toggle and is left out; any other control character is kept. A
    /// printing character is followed by the modifiers of the lines that
    /// are switched on, or, where none is, replaced by the character that
    /// shows it with the emphasis switched on, if there is one. Returns the
    /// new line, or `None` where no wrapper was met and no character
    /// changed. The toggles stay as the line left them.
    pub fn process(&mut self, s: &str) -> (r: Option<String>)
        ensures
            final(self)@ == render(old(self)@, s@).toggles,
            r.deep_view() == rendered(render(old(self)@, s@)),
    {
        let mut changed = false;
        let mut result = String::new();
        for c in it: s.chars()
            invariant
                it.seq() == s@,
                render(old(self)@, s@.take(it.index() as int)) == (Rendering {
                    toggles: self@,
                    text: result@,
                    changed,
                }),
        {
            proof {
                lemma_take_step(s@, it.index() as int);
            }
            if char_is_control(c) {
                if self.check_toggle(c) {
                    changed = true;
                } else {
                    result.push(c);
                }
            } else if !self.underline && !self.overline && !self.strikethrough {
                match self.get_mapped(c) {
                    Some(m) => {
                        result.push(m);
                        changed = true;
                    },
                    None => {
                        result.push(c);
                    },
                }
            } else {
                let ghost before = result@;
                result.push(c);
                if self.underline {
                    result.push(COMB_UNDERLINE);
                }
                if self.overline {
                    result.push(COMB_OVERLINE);
                }
                if self.strikethrough {
                    result.push(COMB_STRIKETHROUGH);
                }
                changed = true;
                assert(result@ =~= before.push(c) + modifiers(self@));
            }
        }
        assert(s@.take(s@.len() as int) =~= s@);
        if changed {
            Some(result)
        } else {
            None
        }
    }
}

} // verus!
