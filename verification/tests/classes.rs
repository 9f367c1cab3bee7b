use wsconvert::text::{
    char_is_blank, char_is_control, char_is_letter, char_is_letter_or_digit, char_is_space,
    char_lower, to_chars,
};
use wsconvert::ws_dot_cmd::{check_dot_cmd, make_header, process, strip_control_chars};
use wsconvert::ws_mappings::{get_bold, get_bold_italic, get_italic};
use wsconvert::ws_special::{
    get_fraction, transform_degrees, transform_fraction, transform_subscripts,
    transform_superscripts,
};
use wsconvert::ws_string::{
    find_from, split_first_three, split_last_three, split_last_two, split_space_at_ends,
    split_wrapped_text,
};

#[test]
fn character_classes_are_those_of_the_standard_library() {
    for code in 0u32..=0x10FFFF {
        if let Some(c) = char::from_u32(code) {
            assert_eq!(char_is_control(c), c.is_ascii_control(), "{:X}", code);
            assert_eq!(char_is_space(c), c.is_ascii_whitespace(), "{:X}", code);
            assert_eq!(char_is_letter(c), c.is_ascii_alphabetic(), "{:X}", code);
            assert_eq!(
                char_is_letter_or_digit(c),
                c.is_ascii_alphanumeric(),
                "{:X}",
                code
            );
            assert_eq!(char_is_blank(c), c.is_whitespace(), "{:X}", code);
            assert_eq!(char_lower(c), c.to_ascii_lowercase(), "{:X}", code);
        }
    }
}

#[test]
fn characters_of_a_text() {
    assert_eq!(to_chars("a£¬"), vec!['a', '£', '¬']);
    assert_eq!(to_chars(""), Vec::<char>::new());
    let v = to_chars("ab/cd/e");
    assert_eq!(find_from(&v, '/', 0), 2);
    assert_eq!(find_from(&v, '/', 3), 5);
    assert_eq!(find_from(&v, '/', 6), 7);
    assert_eq!(find_from(&v, '/', 9), 7);
}

#[test]
fn emphasised_alphabets_run_in_order() {
    assert_eq!(get_bold('A'), Some('\u{1D400}'));
    assert_eq!(get_bold('Z'), Some('\u{1D419}'));
    assert_eq!(get_bold('a'), Some('\u{1D41A}'));
    assert_eq!(get_bold('z'), Some('\u{1D433}'));
    assert_eq!(get_bold('0'), Some('\u{1D7CE}'));
    assert_eq!(get_bold('9'), Some('\u{1D7D7}'));
    assert_eq!(get_italic('A'), Some('\u{1D434}'));
    assert_eq!(get_italic('g'), Some('\u{1D454}'));
    assert_eq!(get_italic('h'), Some('\u{210E}'));
    assert_eq!(get_italic('i'), Some('\u{1D456}'));
    assert_eq!(get_italic('7'), None);
    assert_eq!(get_bold_italic('A'), Some('\u{1D468}'));
    assert_eq!(get_bold_italic('z'), Some('\u{1D49B}'));
    assert_eq!(get_bold_italic('7'), Some('\u{1D7D5}'));
    assert_eq!(get_bold('@'), None);
    assert_eq!(get_bold('['), None);
    assert_eq!(get_bold('`'), None);
    assert_eq!(get_bold('{'), None);
    assert_eq!(get_bold('/'), None);
    assert_eq!(get_bold(':'), None);
}

#[test]
fn suffix_of_no_characters_is_empty() {
    assert_eq!(split_last_two("abc", 0), Some(("abc", "")));
    assert_eq!(split_last_two("", 0), Some(("", "")));
    assert_eq!(split_last_two("abc", 3), Some(("", "abc")));
    assert_eq!(split_last_two("abc", 4), None);
    assert_eq!(split_last_three("abc", 0), Some(("abc", "", "")));
    assert_eq!(split_last_three("abcd", 2), Some(("", "ab", "cd")));
    assert_eq!(split_last_three("abc", 2), None);
}

#[test]
fn split_at_markers_next_to_each_other() {
    assert_eq!(split_first_three("//", '/'), Some(("", "", "")));
    assert_eq!(split_first_three("/", '/'), None);
    assert_eq!(split_first_three("a/b/c/d/e", '/'), Some(("a", "b", "c/d/e")));
}

#[test]
fn whitespace_at_ends() {
    assert_eq!(split_space_at_ends(" \t\n\x0C\r"), (" \t\n\x0C\r", "", ""));
    assert_eq!(split_space_at_ends(" "), (" ", "", ""));
    // the general split leaves a text of accepted characters alone at the end
    assert_eq!(
        split_wrapped_text("   ", |c: &char| *c == ' '),
        ("", "", "   ")
    );
    assert_eq!(split_space_at_ends("\ta b\r\n"), ("\t", "a b", "\r\n"));
    assert_eq!(split_space_at_ends(" a"), (" ", "a", ""));
    assert_eq!(split_space_at_ends("a "), ("", "a", " "));
    // a no-break space is no ASCII whitespace
    assert_eq!(split_space_at_ends("\u{A0}a "), ("", "\u{A0}a", " "));
    assert_eq!(
        split_wrapped_text("xxaxbxx", |c: &char| *c == 'x'),
        ("xx", "axb", "xx")
    );
}

#[test]
fn dot_command_shapes() {
    assert_eq!(check_dot_cmd(".he"), Some(("he", None)));
    assert_eq!(check_dot_cmd(".he "), Some(("he", Some(" "))));
    assert_eq!(check_dot_cmd(".H1x"), Some(("H1", Some("x"))));
    assert_eq!(check_dot_cmd(".h"), None);
    assert_eq!(check_dot_cmd("."), None);
    assert_eq!(check_dot_cmd(" .he"), None);
    assert_eq!(check_dot_cmd(".é1"), None);
}

#[test]
fn dot_command_kinds() {
    let rule = "\u{2015}".repeat(39);
    assert_eq!(process(".pa"), Some(rule.clone()));
    assert_eq!(process(".PA and more"), Some(rule.clone()));
    assert_eq!(process(".xl"), Some(rule.clone()));
    assert_eq!(process(".Xl"), Some(rule));
    assert_eq!(process(".he abc"), Some("\x13abc\x13".to_string()));
    assert_eq!(process(".FO  abc  "), Some("\x13abc\x13".to_string()));
    // a numbered heading has a marker of its own
    assert_eq!(process(".h1 Title"), Some("\x02Title\x02".to_string()));
    assert_eq!(process(".f5 Title"), Some("\x02Title\x02".to_string()));
    assert_eq!(process(".H3  abc "), Some("\x02abc\x02".to_string()));
    assert_ne!(process(".he abc"), process(".h1 abc"));
    // a heading with nothing after the command is a heading of no text
    assert_eq!(process(".he"), Some("\x13\x13".to_string()));
    assert_eq!(process(".he "), Some("\x13\x13".to_string()));
    assert_eq!(process(".fo"), Some("\x13\x13".to_string()));
    assert_eq!(process(".f2"), Some("\x02\x02".to_string()));
    // numbered headings go up to five
    assert_eq!(process(".h6 Title"), Some("".to_string()));
    assert_eq!(process(".h0 Title"), Some("".to_string()));
    assert_eq!(process(".cw 8"), Some("".to_string()));
    assert_eq!(process(".x"), None);
    assert_eq!(process("..he"), None);
}

#[test]
fn header_is_trimmed_as_the_standard_library_trims() {
    let texts = [
        "\u{3000}x\u{A0}",
        "\u{85}\u{1680}a b\u{2000}\u{200A}\u{2028}\u{2029}\u{202F}\u{205F}",
        "\u{200B}a\u{200B}",
        " \u{FEFF}a ",
        "   ",
        "",
    ];
    for text in texts {
        assert_eq!(
            make_header("#", Some(text)),
            Some(format!("#{}#", text.trim()))
        );
    }
    assert_eq!(
        make_header("<>", Some("\x02 a\tb \x03")),
        Some("<>ab<>".to_string())
    );
    assert_eq!(strip_control_chars("\x7Fa\x00b\x1F\u{80}"), "ab\u{80}");
}

#[test]
fn fraction_signs() {
    assert_eq!(get_fraction('1', '2'), "\u{BD}");
    assert_eq!(get_fraction('1', '4'), "\u{BC}");
    assert_eq!(get_fraction('3', '4'), "\u{BE}");
    assert_eq!(get_fraction('3', '2'), "\u{FFFD}");
}

#[test]
fn special_sequences_are_found_from_left_to_right() {
    // the sequence is found wherever it begins, whatever pairs stand
    // before it
    assert_eq!(
        transform_degrees("\x14a\x14o\x14"),
        Some("\x14a\u{B0}".to_string())
    );
    assert_eq!(
        transform_degrees("\x14o\x14o\x14"),
        Some("\u{B0}o\x14".to_string())
    );
    assert_eq!(transform_degrees("\x14O\x14"), None);
    assert_eq!(transform_degrees("\x14o"), None);
    assert_eq!(
        transform_fraction("\x13\x13\x141\x14\x13\x08\x164\x16\x16"),
        Some("\x13\u{BC}\x16".to_string())
    );
    assert_eq!(transform_fraction("\x13\x142\x14\x13\x08\x164\x16"), None);
    assert_eq!(transform_fraction("\x13\x141\x14\x13\x08\x164"), None);
}

#[test]
fn subscript_and_superscript_runs() {
    assert_eq!(
        transform_subscripts("H\x162\x16O and x\x16n+1\x16"),
        Some("H\u{2082}O and x\u{2099}\u{208A}\u{2081}".to_string())
    );
    assert_eq!(
        transform_superscripts("e\x14-x\x14 = \x14Qq\x14"),
        Some("e\u{207B}\u{02E3} = Q\u{71}".to_string())
    );
    assert_eq!(transform_subscripts("a\x16b"), None);
    assert_eq!(transform_superscripts("abc"), None);
    assert_eq!(transform_superscripts("a\x14\x14b"), None);
    assert_eq!(transform_subscripts("a\x16\x16b"), Some("ab".to_string()));
}

#[test]
fn superscript_runs_leave_the_overline_idiom_alone() {
    let idiom = "DAC\x08\x08\x08\x14___\x14";
    assert_eq!(transform_superscripts(idiom), None);
    assert_eq!(wsconvert::ws_special::process(idiom), None);
    let line = "x\x142\x14 DAC\x08\x08\x08\x14___\x14 y\x14n\x14";
    let made = wsconvert::ws_special::process(line);
    assert_eq!(
        made,
        Some("x\u{B2} DAC\x08\x08\x08\x14___\x14 y\u{207F}".to_string())
    );
    assert_eq!(
        wsconvert::ws_overline::process(made.as_deref().unwrap()),
        Some("x\u{B2} \x01DAC\x01 y\u{207F}".to_string())
    );
    // underscores that are no idiom are a run like any other
    assert_eq!(
        transform_superscripts("Q\x08\x14___\x14"),
        Some("Q\x08___".to_string())
    );
}

#[test]
fn special_stage_writes_all_four_sequences() {
    assert_eq!(
        wsconvert::ws_special::process("r\x16s\x16t"),
        Some("r\u{209B}t".to_string())
    );
    assert_eq!(
        wsconvert::ws_special::process("r\x14s\x14t"),
        Some("r\u{02E2}t".to_string())
    );
    assert_eq!(
        wsconvert::ws_special::process("H\x162\x16O at 4\x14o\x14, \x13\x141\x14\x13\x08\x162\x16 e\x14x\x14"),
        Some("H\u{2082}O at 4\u{B0}, \u{BD} e\u{02E3}".to_string())
    );
    // the degree sign goes first
    assert_eq!(
        wsconvert::ws_special::process("\x14o\x14"),
        Some("\u{B0}".to_string())
    );
    assert_eq!(
        transform_superscripts("\x14o\x14"),
        Some("\u{1D52}".to_string())
    );
}
