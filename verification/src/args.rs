//! The settings of a run, and the meaning of the words that name them on
//! the command line.

use vstd::prelude::*;
use crate::text::{char_lower, lower_seq, to_chars};
use crate::ws_filters::Excludes;

verus! {

/// How much of the log is shown.
#[derive(Clone, Copy, Debug, PartialEq, Eq, Structural)]
pub enum LogLevel {
    Off,
    Error,
    Warn,
    Info,
    Debug,
    Trace,
}

/// The settings of a run: the paths of the file to read and of the file to
/// write, each empty for the standard stream, the log level, and the
/// filters to leave out.
#[derive(Debug)]
pub struct Args {
    pub infile: String,
    pub outfile: String,
    pub log_level: LogLevel,
    pub excludes: Excludes,
}

/// The log level that a word names, whatever its case. A word that names
/// none stands for `Error`.
pub open spec fn log_level_of(word: Seq<char>) -> LogLevel {
    let w = lower_seq(word);
    if w == "off"@ {
        LogLevel::Off
    } else if w == "error"@ {
        LogLevel::Error
    } else if w == "warn"@ {
        LogLevel::Warn
    } else if w == "info"@ {
        LogLevel::Info
    } else if w == "debug"@ {
        LogLevel::Debug
    } else if w == "trace"@ {
        LogLevel::Trace
    } else {
        LogLevel::Error
    }
}

/// The exclusions with the filter that a word names, whatever its case,
/// added to them. A word that names none changes nothing.
pub open spec fn with_exclusion(e: Excludes, word: Seq<char>) -> Excludes {
    let w = lower_seq(word);
    if w == "dot-cmds"@ {
        Excludes { dot_cmds: true, ..e }
    } else if w == "re-align"@ {
        Excludes { re_align: true, ..e }
    } else if w == "specials"@ {
        Excludes { specials: true, ..e }
    } else if w == "overline"@ {
        Excludes { overline: true, ..e }
    } else if w == "wrappers"@ {
        Excludes { wrappers: true, ..e }
    } else if w == "controls"@ {
        Excludes { controls: true, ..e }
    } else {
        e
    }
}

/// The exclusions that a list of words names.
pub open spec fn exclusions(words: Seq<Seq<char>>) -> Excludes
    decreases words.len(),
{
    if words.len() == 0 {
        crate::ws_filters::no_excludes()
    } else {
        with_exclusion(exclusions(words.drop_last()), words.last())
    }
}

/// The characters of the text, each ASCII capital letter in lower case.
pub fn lower_chars(s: &str) -> (r: Vec<char>)
    ensures
        r@ == lower_seq(s@),
{
    let v = to_chars(s);
    let mut r: Vec<char> = Vec::new();
    let mut i: usize = 0;
    while i < v.len()
        invariant
            0 <= i <= v.len(),
            v@ == s@,
            r@ == lower_seq(s@.take(i as int)),
        decreases v.len() - i,
    {
        r.push(char_lower(v[i]));
        i += 1;
        assert(r@ =~= lower_seq(s@.take(i as int)));
    }
    assert(s@.take(v.len() as int) =~= s@);
    r
}

/// Whether the characters are those of the word.
pub fn is_word(v: &Vec<char>, word: &str) -> (r: bool)
    ensures
        r == (v@ == word@),
{
    let w = to_chars(word);
    if v.len() != w.len() {
        return false;
    }
    let mut i: usize = 0;
    while i < v.len()
        invariant
            0 <= i <= v.len(),
            v.len() == w.len(),
            w@ == word@,
            v@.take(i as int) == w@.take(i as int),
        decreases v.len() - i,
    {
        if v[i] != w[i] {
            return false;
        }
        i += 1;
        assert(v@.take(i as int) =~= v@.take(i - 1).push(v@[i - 1]));
        assert(w@.take(i as int) =~= w@.take(i - 1).push(w@[i - 1]));
    }
    assert(v@.take(v.len() as int) =~= v@);
    assert(w@.take(w.len() as int) =~= w@);
    true
}

/// Returns the log level that the word names, whatever its case, and
/// `Error` for the empty word or a word that names none.
pub fn get_log_level(log_str: &str) -> (r: LogLevel)
    ensures
        r == log_level_of(log_str@),
{
    let w = lower_chars(log_str);
    if is_word(&w, "off") {
        LogLevel::Off
    } else if is_word(&w, "error") {
        LogLevel::Error
    } else if is_word(&w, "warn") {
        LogLevel::Warn
    } else if is_word(&w, "info") {
        LogLevel::Info
    } else if is_word(&w, "debug") {
        LogLevel::Debug
    } else if is_word(&w, "trace") {
        LogLevel::Trace
    } else {
        LogLevel::Error
    }
}

/// Returns the exclusions with the filter that the word names added.
pub fn add_exclusion(e: Excludes, word: &str) -> (r: Excludes)
    ensures
        r == with_exclusion(e, word@),
{
    let w = lower_chars(word);
    let mut r = e;
    if is_word(&w, "dot-cmds") {
        r.dot_cmds = true;
    } else if is_word(&w, "re-align") {
        r.re_align = true;
    } else if is_word(&w, "specials") {
        r.specials = true;
    } else if is_word(&w, "overline") {
        r.overline = true;
    } else if is_word(&w, "wrappers") {
        r.wrappers = true;
    } else if is_word(&w, "controls") {
        r.controls = true;
    }
    r
}

/// Returns the exclusions that the words name, whatever their case. A
/// word that names no filter is passed over; without words nothing is
/// excluded.
pub fn get_excludes(exclude_strs: &[&str]) -> (r: Excludes)
    ensures
        r == exclusions(exclude_strs.deep_view()),
{
    let mut excludes = Excludes::default();
    let mut i: usize = 0;
    while i < exclude_strs.len()
        invariant
            0 <= i <= exclude_strs.len(),
            excludes == exclusions(exclude_strs.deep_view().take(i as int)),
        decreases exclude_strs.len() - i,
    {
        excludes = add_exclusion(excludes, exclude_strs[i]);
        i += 1;
        proof {
            let words = exclude_strs.deep_view();
            assert(words.take(i as int).drop_last() =~= words.take(i - 1));
            assert(words.take(i as int).last() == exclude_strs[i - 1]@);
        }
    }
    assert(exclude_strs.deep_view().take(exclude_strs.len() as int) =~= exclude_strs.deep_view());
    excludes
}

} // verus!
