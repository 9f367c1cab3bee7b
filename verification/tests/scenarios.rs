use wsconvert::asciify::{convert_chunk, convert_step, CHUNK_SIZE};
use wsconvert::control_count::ControlCount;
use wsconvert::ws_align::align_bothways;
use wsconvert::ws_control::{get_escaped, process_control};
use wsconvert::ws_emphasis::{align_wrappers, fix_all_wrappers, fix_wrapper, process_overlines};
use wsconvert::ws_filters::{transform_line, DotOutcome, Excludes};
use wsconvert::ws_wrappers::Wrappers;

#[test]
fn normalizer_stops_at_marker_and_clears_high_bits() {
    let mut buf = [0x41, 0xC2, 0x43, 0x1A, 0x45];
    assert_eq!(convert_chunk(&mut buf), [0x41, 0x42, 0x43]);
    // the marker and what follows it stay as they were
    assert_eq!(buf, [0x41, 0x42, 0x43, 0x1A, 0x45]);
}

#[test]
fn normalizer_takes_marker_with_high_bit_for_data() {
    let mut buf = [0x9A, 0x1A, 0x9A];
    assert_eq!(convert_chunk(&mut buf), [0x1A]);
}

#[test]
fn convert_step_tells_when_to_stop() {
    let mut full = [0xC1, 0x42];
    let (bytes, more) = convert_step(&mut full);
    assert_eq!(bytes, [0x41, 0x42]);
    assert!(more);

    let mut marked = [0xC1, 0x1A, 0x42];
    let (bytes, more) = convert_step(&mut marked);
    assert_eq!(bytes, [0x41]);
    assert!(!more);

    let mut nothing: [u8; 0] = [];
    let (bytes, more) = convert_step(&mut nothing);
    assert_eq!(bytes, []);
    assert!(!more);
    assert_eq!(CHUNK_SIZE, 16 * 1024);
}

#[test]
fn alignment_moves_whitespace_outside_the_pair() {
    assert_eq!(
        align_bothways("a*  bc  *d", '*'),
        Some("a  *bc*  d".to_string())
    );
    assert_eq!(fix_wrapper("a*  bc  *d", '*'), Some("a  *bc*  d".to_string()));
}

#[test]
fn alignment_is_idempotent() {
    let lines = [
        " \x02  \x13 abc \x19 def \x13 \x19\x02",
        "\x02\x13  abc  \x13\x02",
        "\x13 \x02 \x13 \x02 x \x13 \x13",
        "\x01 \x02 \x04 \x13 \x14 \x16 \x18 \x19 a \x19 \x18 \x16 \x14 \x13 \x04 \x02 \x01",
        "\x02 \x02 \x02 ",
        "plain",
        "",
    ];
    for line in lines {
        match align_wrappers(line) {
            Some(once) => {
                assert_eq!(align_wrappers(&once), None);
                assert_eq!(fix_all_wrappers(&once), None);
            }
            None => assert_eq!(fix_all_wrappers(line), None),
        }
    }
}

#[test]
fn alignment_needs_more_than_one_round() {
    // the bold pair holds no whitespace at its ends until the underline
    // pair has given its own away
    assert_eq!(
        fix_all_wrappers("\x02\x13 a \x13\x02"),
        Some("\x02 \x13a\x13 \x02".to_string())
    );
    assert_eq!(
        align_wrappers("\x02\x13 a \x13\x02"),
        Some(" \x02\x13a\x13\x02 ".to_string())
    );
}

#[test]
fn odd_wrapper_is_left_alone_by_alignment() {
    assert_eq!(align_bothways("a* b", '*'), None);
    assert_eq!(align_bothways("* a * b *", '*'), None);
    // the other kinds are aligned all the same
    assert_eq!(
        wsconvert::ws_align::process("\x02 a \x13 b \x13"),
        Some("\x02 a  \x13b\x13 ".to_string())
    );
    assert_eq!(wsconvert::ws_align::process("\x02 a \x02 b \x02"), None);
    // pairs are made from the left, the last wrapper stays where it is
    assert_eq!(fix_wrapper("* a * b *", '*'), Some(" *a*  b *".to_string()));
}

#[test]
fn odd_wrapper_leaves_its_span_open() {
    let mut w = Wrappers::new();
    assert_eq!(w.process("a\x02b"), Some("a\u{1D41B}".to_string()));
    // the span runs on into the next line
    assert_eq!(w.process("c"), Some("\u{1D41C}".to_string()));
    assert_eq!(w.process("\x02d"), Some("d".to_string()));
    assert_eq!(w.process("e"), None);
}

#[test]
fn reset_closes_every_span() {
    let mut w = Wrappers::new();
    assert_eq!(w.process("\x13\x19a"), Some("a\u{0332}".to_string()));
    w.reset();
    assert_eq!(w.process("a"), None);
    let mut d = Wrappers::default();
    assert_eq!(d.process("a"), None);
}

#[test]
fn state_machine_keeps_other_control_characters() {
    let mut w = Wrappers::new();
    assert_eq!(w.process("a\x08b"), None);
    assert_eq!(w.process("\x02a\x08b\x02"), Some("\u{1D41A}\x08\u{1D41B}".to_string()));
    assert!(w.check_toggle('\x18'));
    assert!(!w.check_toggle('\x08'));
    assert!(!w.check_toggle('a'));
    assert_eq!(w.get_mapped('a'), None);
    assert!(w.check_toggle('\x18'));
    assert!(w.check_toggle('\x16'));
    assert_eq!(w.get_mapped('a'), Some('\u{2090}'));
    assert!(w.check_toggle('\x14'));
    assert_eq!(w.get_mapped('a'), Some('\u{1D43}'));
}

#[test]
fn bold_and_double_cancel() {
    let mut w = Wrappers::new();
    assert_eq!(w.process("\x02\x04C\x04\x02"), Some("C".to_string()));
    assert_eq!(
        w.process("\x02\x04\x19C\x19\x04\x02"),
        Some("\u{1D436}".to_string())
    );
    assert_eq!(w.process("\x04\x19C\x19\x04"), Some("\u{1D46A}".to_string()));
}

#[test]
fn bold_wrapped_letter_becomes_bold_letter() {
    let mut w = Wrappers::new();
    assert_eq!(w.process("\x02C\x02"), Some("\u{1D402}".to_string()));
}

#[test]
fn overline_idiom_needs_equal_counts() {
    // one overprint and one underscore for one character
    assert_eq!(
        wsconvert::ws_overline::process("Q\x08\x14_\x14"),
        Some("\x01Q\x01".to_string())
    );
    assert_eq!(process_overlines("Q\x08\x14_\x14"), Some("Q\u{305}".to_string()));
    // three underscores for one overprint are no idiom
    assert_eq!(wsconvert::ws_overline::process("Q\x08\x14___\x14"), None);
    assert_eq!(process_overlines("Q\x08\x14___\x14"), None);
    // and a control character is no text to overline
    assert_eq!(wsconvert::ws_overline::process("\x02\x08\x14_\x14"), None);
}

#[test]
fn overline_idiom_of_no_characters() {
    assert_eq!(
        wsconvert::ws_overline::process("ab\x14\x14cd"),
        Some("ab\x01\x01cd".to_string())
    );
}

#[test]
fn overline_then_state_machine() {
    let line = wsconvert::ws_overline::process("DAC\x08\x08\x08\x14___\x14").unwrap();
    let mut w = Wrappers::new();
    assert_eq!(
        w.process(&line),
        Some("D\u{305}A\u{305}C\u{305}".to_string())
    );
}

#[test]
fn raw_control_character_is_escaped() {
    assert_eq!(process_control("\x03", true), Some("^C".to_string()));
    assert_eq!(process_control("a\x03b", true), Some("a^Cb".to_string()));
    assert_eq!(process_control("a\x03b", false), None);
    assert_eq!(process_control("\x7F", false), Some("".to_string()));
}

#[test]
fn every_control_character_has_an_escape() {
    for code in 0u8..=0x1F {
        let expected = format!("^{}", (code + 0x40) as char);
        assert_eq!(get_escaped(code as char), Some(expected));
    }
    assert_eq!(get_escaped('\x7F'), Some("^#".to_string()));
    assert_eq!(get_escaped(' '), None);
    assert_eq!(get_escaped('\u{80}'), None);
    assert_eq!(get_escaped('\u{1F}'), Some("^_".to_string()));
}

#[test]
fn escaped_line_holds_no_control_character_but_line_feeds() {
    let mut line = String::new();
    for code in 0u8..=0x7F {
        line.push(code as char);
    }
    let out = process_control(&line, true).unwrap();
    assert!(out.chars().all(|c| !c.is_ascii_control() || c == '\n'));
    assert_eq!(out.chars().filter(|c| *c == '\n').count(), 2);
}

#[test]
fn counters_total_is_number_of_control_characters() {
    let mut all_control = ControlCount::new("Controls".to_string());
    all_control.scan("\x01\x02\x02\x7F");
    assert_eq!(all_control.total(), 4);
    assert_eq!(all_control.bins(), 3);

    let mut mixed = ControlCount::new("Controls".to_string());
    mixed.scan("abc\x0Adef");
    assert_eq!(mixed.total(), 1);

    let mut none = ControlCount::new("Controls".to_string());
    none.scan("abc");
    assert_eq!(none.total(), 0);
    assert_eq!(none.bins(), 0);
    assert_eq!(none.get('a'), None);
    assert_eq!(none.get('\u{107}'), None);
}

#[test]
fn counters_summary() {
    let mut counts = ControlCount::new("Stage".to_string());
    assert_eq!(counts.to_string(), "Stage: Skipped");
    counts.up('a');
    assert_eq!(counts.to_string(), "Stage: None");
    counts.scan("");
    assert_eq!(counts.to_string(), "Stage: None");
    for _ in 0..12 {
        counts.up('\x1F');
    }
    counts.up('\x00');
    assert_eq!(
        counts.to_string(),
        "Stage: [00]=1, [1F]=12 => 13 chars, 2 types"
    );
    assert!(counts.has_room("\x01\x02"));
}

#[test]
fn counters_scan_empty_marks_used() {
    let mut counts = ControlCount::new("".to_string());
    counts.scan("");
    assert_eq!(counts.to_string(), ": None");
}

#[test]
fn pipeline_runs_the_stages_in_order() {
    let mut w = Wrappers::new();
    let e = Excludes::default();

    let stages = transform_line(&mut w, "\x02 C \x02 is -40\x14o\x14\x03", &e);
    assert_eq!(stages.dot_outcome, DotOutcome::Kept);
    assert_eq!(
        stages.dot_cmds,
        Some("\x02 C \x02 is -40\x14o\x14\x03".to_string())
    );
    assert_eq!(
        stages.re_align,
        Some(" \x02C\x02  is -40\x14o\x14\x03".to_string())
    );
    assert_eq!(
        stages.specials,
        Some(" \x02C\x02  is -40\u{B0}\x03".to_string())
    );
    assert_eq!(
        stages.overline,
        Some(" \x02C\x02  is -40\u{B0}\x03".to_string())
    );
    assert_eq!(
        stages.wrappers,
        Some(" \u{1D402}  is -40\u{B0}\x03".to_string())
    );
    assert_eq!(
        stages.controls,
        Some(" \u{1D402}  is -40\u{B0}^C".to_string())
    );
    assert_eq!(stages.output, stages.controls);
}

#[test]
fn pipeline_drops_a_deleted_line() {
    let mut w = Wrappers::new();
    let e = Excludes::default();
    let stages = transform_line(&mut w, ".op \x02", &e);
    assert_eq!(stages.dot_outcome, DotOutcome::Removed);
    assert_eq!(stages.output, None);
    assert_eq!(stages.dot_cmds, None);
    assert_eq!(stages.controls, None);
    // no later stage has seen the line
    assert_eq!(w.process("a"), None);
}

#[test]
fn pipeline_replaces_a_heading() {
    let mut w = Wrappers::new();
    let e = Excludes::default();
    let stages = transform_line(&mut w, ".he abc", &e);
    assert_eq!(stages.dot_outcome, DotOutcome::Replaced);
    assert_eq!(stages.dot_cmds, Some("\x13abc\x13".to_string()));
    assert_eq!(
        stages.output,
        Some("a\u{332}b\u{332}c\u{332}".to_string())
    );
}

#[test]
fn pipeline_overlines() {
    let mut w = Wrappers::new();
    let e = Excludes::default();
    let stages = transform_line(&mut w, "See DAC\x08\x08\x08\x14___\x14", &e);
    assert_eq!(
        stages.output,
        Some("See D\u{305}A\u{305}C\u{305}".to_string())
    );
}

#[test]
fn pipeline_leaves_excluded_stages_out() {
    let mut w = Wrappers::new();
    let all = Excludes {
        dot_cmds: true,
        re_align: true,
        specials: true,
        overline: true,
        wrappers: true,
        controls: true,
    };
    let stages = transform_line(&mut w, ".op\x02 a \x02\x03", &all);
    assert_eq!(stages.dot_outcome, DotOutcome::Excluded);
    assert_eq!(stages.output, Some(".op\x02 a \x02\x03".to_string()));
    assert_eq!(stages.dot_cmds, None);
    assert_eq!(stages.re_align, None);
    assert_eq!(stages.specials, None);
    assert_eq!(stages.overline, None);
    assert_eq!(stages.wrappers, None);
    assert_eq!(stages.controls, None);

    let only_controls = Excludes {
        controls: false,
        ..all
    };
    let stages = transform_line(&mut w, "\x02 a \x02\x03", &only_controls);
    assert_eq!(stages.output, Some("^B a ^B^C".to_string()));
    assert_eq!(stages.controls, stages.output);
}

#[test]
fn pipeline_keeps_the_wrapper_state_between_lines() {
    let mut w = Wrappers::new();
    let e = Excludes::default();
    let first = transform_line(&mut w, "\x19a", &e);
    assert_eq!(first.output, Some("\u{1D44E}".to_string()));
    let second = transform_line(&mut w, "b\x19c", &e);
    assert_eq!(second.output, Some("\u{1D44F}c".to_string()));
}

#[test]
fn alignment_of_crossing_pairs_settles() {
    // no whitespace stands next to the inside of a wrapper
    assert_eq!(wsconvert::ws_align::process("\x13a \x02\x13 b\x02"), None);
    assert_eq!(wsconvert::ws_align::process("\x02a \x01\x02\x01b"), None);
    assert_eq!(align_wrappers("\x13a \x02\x13 b\x02"), None);
    // whitespace leaves the bold pair on both sides and stands inside
    // the underline pair, but not at its end
    assert_eq!(
        wsconvert::ws_align::process("\x13a\x02 \x13b \x02"),
        Some("\x13a \x02\x13b\x02 ".to_string())
    );
}

#[test]
fn alignment_filter_is_idempotent() {
    let lines = [
        " \x18  \x13 abc \x01 def \x13 \x01\x18",
        "\x18\x13  abc  \x13\x18",
        "\x13 \x02 \x13 \x02 x \x13 \x13",
        "\x01 \x02 \x04 \x13 \x14 \x16 \x18 \x19 a \x19 \x18 \x16 \x14 \x13 \x04 \x02 \x01",
        "\x02a \x01\x02\x01b",
        "\x13a \x02\x13 b\x02",
        "\x02 \x02 \x02 ",
        "\x02 \x02",
        "plain",
        "",
    ];
    for line in lines {
        match wsconvert::ws_align::process(line) {
            Some(once) => {
                assert_eq!(wsconvert::ws_align::process(&once), None, "{:?}", line);
                assert_eq!(wsconvert::ws_align::align_pairs(&once), None);
                assert_eq!(once.chars().count(), line.chars().count());
            }
            None => assert_eq!(wsconvert::ws_align::align_pairs(line), None),
        }
    }
}

#[test]
fn alignment_filter_goes_round_more_than_once() {
    assert_eq!(
        wsconvert::ws_align::align_pairs("\x02\x13 a \x13\x02"),
        Some("\x02 \x13a\x13 \x02".to_string())
    );
    assert_eq!(
        wsconvert::ws_align::process("\x02\x13 a \x13\x02"),
        Some(" \x02\x13a\x13\x02 ".to_string())
    );
    assert!(wsconvert::ws_align::has_odd_count("\x02 \x02 \x02", '\x02'));
    assert!(!wsconvert::ws_align::has_odd_count("\x02 \x02", '\x02'));
    assert!(!wsconvert::ws_align::has_odd_count("", '\x02'));
}

#[test]
fn whitespace_alone_within_a_pair() {
    // the alignment filter takes it for leading whitespace
    assert_eq!(
        wsconvert::ws_align::process("a\x02 \x02b"),
        Some("a \x02\x02b".to_string())
    );
    assert_eq!(
        wsconvert::ws_align::process("\x13\x02  \x02\x13"),
        Some("  \x13\x02\x02\x13".to_string())
    );
    assert_eq!(
        wsconvert::ws_emphasis::fix_wrapper_by("a* *b", '*', true),
        Some("a **b".to_string())
    );
    // the scan for one wrapper and the fix of one wrapper put it behind
    // the pair
    assert_eq!(align_bothways("a* *b", '*'), Some("a** b".to_string()));
    assert_eq!(fix_wrapper("a* *b", '*'), Some("a** b".to_string()));
    assert_eq!(
        wsconvert::ws_emphasis::fix_wrapper_by("a* *b", '*', false),
        Some("a** b".to_string())
    );
}
