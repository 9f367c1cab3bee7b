//! The pipeline: the filters in their fixed order, each on the outcome of
//! the one before it, for one line at a time.

use vstd::prelude::*;
use vstd::string::*;
use crate::ws_align::aligned;
use crate::text::is_control;
use crate::ws_control::{controls_replaced, lemma_controls_kept, lemma_escaped_line};
use crate::ws_dot_cmd::dot_replaced;
use crate::ws_emphasis::line_of;
use crate::ws_overline::overlined;
use crate::ws_special::specials;
use crate::ws_string::if_changed;
use crate::ws_wrappers::{render, rendered, Toggles, Wrappers};

verus! {

/// The filters to leave out: each flag that is set excludes one stage of
/// the pipeline.
#[derive(Clone, Copy, Debug, PartialEq, Eq, Structural)]
pub struct Excludes {
    pub dot_cmds: bool,
    pub re_align: bool,
    pub specials: bool,
    pub overline: bool,
    pub wrappers: bool,
    pub controls: bool,
}

/// No filter excluded.
pub open spec fn no_excludes() -> Excludes {
    Excludes {
        dot_cmds: false,
        re_align: false,
        specials: false,
        overline: false,
        wrappers: false,
        controls: false,
    }
}

impl Default for Excludes {
    fn default() -> (r: Self)
        ensures
            r == no_excludes(),
    {
        Excludes {
            dot_cmds: false,
            re_align: false,
            specials: false,
            overline: false,
            wrappers: false,
            controls: false,
        }
    }
}

/// What the dot command stage made of a line.
#[derive(Clone, Copy, Debug, PartialEq, Eq, Structural)]
pub enum DotOutcome {
    /// The stage is excluded.
    Excluded,
    /// The line is no dot command that the stage replaces.
    Kept,
    /// The line was replaced.
    Replaced,
    /// The line is to be dropped.
    Removed,
}

/// What the dot command stage makes of a line.
pub open spec fn dot_outcome(s: Seq<char>, e: Excludes) -> DotOutcome {
    if e.dot_cmds {
        DotOutcome::Excluded
    } else {
        match dot_replaced(s) {
            Some(t) => if t.len() == 0 {
                DotOutcome::Removed
            } else {
                DotOutcome::Replaced
            },
            None => DotOutcome::Kept,
        }
    }
}

/// The line after the dot command stage, for a line that is not dropped.
pub open spec fn after_dot_cmds(s: Seq<char>, e: Excludes) -> Seq<char> {
    if e.dot_cmds {
        s
    } else {
        line_of(s, dot_replaced(s))
    }
}

/// The line after the alignment stage.
pub open spec fn after_re_align(s: Seq<char>, e: Excludes) -> Seq<char> {
    let line = after_dot_cmds(s, e);
    if e.re_align {
        line
    } else {
        line_of(line, aligned(line))
    }
}

/// The line after the stage of the special sequences.
pub open spec fn after_specials(s: Seq<char>, e: Excludes) -> Seq<char> {
    let line = after_re_align(s, e);
    if e.specials {
        line
    } else {
        line_of(line, specials(line))
    }
}

/// The line after the overline stage.
pub open spec fn after_overline(s: Seq<char>, e: Excludes) -> Seq<char> {
    let line = after_specials(s, e);
    if e.overline {
        line
    } else {
        line_of(line, if_changed(overlined(line)))
    }
}

/// The line after the stage of the wrapper state machine, which starts
/// with the toggles `t`.
pub open spec fn after_wrappers(t: Toggles, s: Seq<char>, e: Excludes) -> Seq<char> {
    let line = after_overline(s, e);
    if e.wrappers {
        line
    } else {
        line_of(line, rendered(render(t, line)))
    }
}

/// The line after the stage of the standalone control characters, where
/// those without a substitute are escaped: the line that is written.
pub open spec fn after_controls(t: Toggles, s: Seq<char>, e: Excludes) -> Seq<char> {
    let line = after_wrappers(t, s, e);
    if e.controls {
        line
    } else {
        line_of(line, if_changed(controls_replaced(line, true)))
    }
}

/// The toggles after the line: as the wrapper state machine left them, or
/// as they were where the line was dropped or the stage is excluded.
pub open spec fn toggles_after(t: Toggles, s: Seq<char>, e: Excludes) -> Toggles {
    if dot_outcome(s, e) == DotOutcome::Removed || e.wrappers {
        t
    } else {
        render(t, after_overline(s, e)).toggles
    }
}

/// The line that is written for a line, or `None` for a line that is
/// dropped.
pub open spec fn transformed(t: Toggles, s: Seq<char>, e: Excludes) -> Option<Seq<char>> {
    if dot_outcome(s, e) == DotOutcome::Removed {
        None
    } else {
        Some(after_controls(t, s, e))
    }
}

/// What a stage hands on for counting: the line after the stage, or
/// nothing where the stage is excluded or the line was dropped.
pub open spec fn stage_line(s: Seq<char>, e: Excludes, off: bool, line: Seq<char>) -> Option<
    Seq<char>,
> {
    if off || dot_outcome(s, e) == DotOutcome::Removed {
        None
    } else {
        Some(line)
    }
}

/// Unless the last stage is excluded, the line that is written holds no
/// control character but the line feeds around the rule that stands for a
/// form feed: these are all that the counters of the last stage can count.
pub proof fn lemma_written_line(t: Toggles, s: Seq<char>, e: Excludes)
    requires
        !e.controls,
    ensures
        forall|i: int|
            0 <= i < after_controls(t, s, e).len() && is_control(
                #[trigger] after_controls(t, s, e)[i],
            ) ==> after_controls(t, s, e)[i] == '\n',
{
    let line = after_wrappers(t, s, e);
    lemma_escaped_line(line);
    lemma_controls_kept(line, true);
}

/// A line on its way through the pipeline: the line after each stage that
/// has run, for the counters of that stage, and the line to write.
#[derive(Debug)]
pub struct Stages {
    /// What the dot command stage did.
    pub dot_outcome: DotOutcome,
    pub dot_cmds: Option<String>,
    pub re_align: Option<String>,
    pub specials: Option<String>,
    pub overline: Option<String>,
    pub wrappers: Option<String>,
    pub controls: Option<String>,
    /// The line to write, or `None` for a line to drop.
    pub output: Option<String>,
}

/// The stages of a line that is dropped.
fn removed() -> (r: Stages)
    ensures
        r.dot_outcome == DotOutcome::Removed,
        r.dot_cmds is None,
        r.re_align is None,
        r.specials is None,
        r.overline is None,
        r.wrappers is None,
        r.controls is None,
        r.output is None,
{
    Stages {
        dot_outcome: DotOutcome::Removed,
        dot_cmds: None,
        re_align: None,
        specials: None,
        overline: None,
        wrappers: None,
        controls: None,
        output: None,
    }
}

/// The line after a stage: the replacement that the filter made, or the
/// line as it was.
fn replace_line(line: String, replacement: Option<String>) -> (r: String)
    ensures
        r@ == line_of(line@, replacement.deep_view()),
{
    match replacement {
        Some(t) => t,
        None => line,
    }
}

/// A copy of the line for the counters of a stage that has run.
fn counted_line(line: &String, off: bool) -> (r: Option<String>)
    ensures
        r.deep_view() == (if off {
            None
        } else {
            Some(line@)
        }),
{
    if off {
        None
    } else {
        Some(line.clone())
    }
}

/// Takes one line through the pipeline: dot commands, alignment, special
/// sequences, overlines, the wrapper state machine, standalone control
/// characters, each stage on the outcome of the one before it and none of
/// those that are excluded. A line that the dot command stage replaces by
/// the empty line is dropped, and no further stage sees it. The wrapper
/// state is the caller's: it is left as the line left it, so a span may run
/// on into the next line unless the caller resets the state.
pub fn transform_line(wrappers: &mut Wrappers, line: &str, excludes: &Excludes) -> (r: Stages)
    ensures
        final(wrappers)@ == toggles_after(old(wrappers)@, line@, *excludes),
        r.output.deep_view() == transformed(old(wrappers)@, line@, *excludes),
        r.dot_outcome == dot_outcome(line@, *excludes),
        r.dot_cmds.deep_view() == stage_line(
            line@,
            *excludes,
            excludes.dot_cmds,
            after_dot_cmds(line@, *excludes),
        ),
        r.re_align.deep_view() == stage_line(
            line@,
            *excludes,
            excludes.re_align,
            after_re_align(line@, *excludes),
        ),
        r.specials.deep_view() == stage_line(
            line@,
            *excludes,
            excludes.specials,
            after_specials(line@, *excludes),
        ),
        r.overline.deep_view() == stage_line(
            line@,
            *excludes,
            excludes.overline,
            after_overline(line@, *excludes),
        ),
        r.wrappers.deep_view() == stage_line(
            line@,
            *excludes,
            excludes.wrappers,
            after_wrappers(old(wrappers)@, line@, *excludes),
        ),
        r.controls.deep_view() == stage_line(
            line@,
            *excludes,
            excludes.controls,
            after_controls(old(wrappers)@, line@, *excludes),
        ),
{
    let mut current = String::from_str(line);
    let mut outcome = DotOutcome::Excluded;
    if !excludes.dot_cmds {
        match crate::ws_dot_cmd::process(line) {
            Some(replacement) => {
                if replacement.as_str().is_empty() {
                    return removed();
                }
                outcome = DotOutcome::Replaced;
                current = replacement;
            },
            None => {
                outcome = DotOutcome::Kept;
            },
        }
    }
    let dot_cmds = counted_line(&current, excludes.dot_cmds);
    if !excludes.re_align {
        let replacement = crate::ws_align::process(current.as_str());
        current = replace_line(current, replacement);
    }
    let re_align = counted_line(&current, excludes.re_align);
    if !excludes.specials {
        let replacement = crate::ws_special::process(current.as_str());
        current = replace_line(current, replacement);
    }
    let specials = counted_line(&current, excludes.specials);
    if !excludes.overline {
        let replacement = crate::ws_overline::process(current.as_str());
        current = replace_line(current, replacement);
    }
    let overline = counted_line(&current, excludes.overline);
    if !excludes.wrappers {
        let replacement = wrappers.process(current.as_str());
        current = replace_line(current, replacement);
    }
    let wrapped = counted_line(&current, excludes.wrappers);
    if !excludes.controls {
        let replacement = crate::ws_control::process_control(current.as_str(), true);
        current = replace_line(current, replacement);
    }
    let controls = counted_line(&current, excludes.controls);
    Stages {
        dot_outcome: outcome,
        dot_cmds,
        re_align,
        specials,
        overline,
        wrappers: wrapped,
        controls,
        output: Some(current),
    }
}

} // verus!
