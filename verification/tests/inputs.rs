use term_prep_plus::input::{
    accept_line, choice_label, confirm_entry, is_hint_request, parse_choice, parse_count,
    parse_selection, parse_yes_no, wants_replay, InputError, LABELS,
};

#[test]
fn a_count_is_a_decimal_number() {
    assert_eq!(parse_count("1"), Ok(1));
    assert_eq!(parse_count("12"), Ok(12));
    assert_eq!(parse_count("305"), Ok(305));
    assert_eq!(parse_count("1000000"), Ok(1_000_000));
}

#[test]
fn a_count_may_have_a_plus_sign_and_leading_zeros() {
    assert_eq!(parse_count("+7"), Ok(7));
    assert_eq!(parse_count("007"), Ok(7));
    assert_eq!(parse_count("+007"), Ok(7));
}

#[test]
fn a_count_of_zero_is_refused() {
    assert_eq!(parse_count("0"), Err(InputError::UnparsableCount));
    assert_eq!(parse_count("000"), Err(InputError::UnparsableCount));
    assert_eq!(parse_count("+0"), Err(InputError::UnparsableCount));
}

#[test]
fn what_is_no_number_is_refused_as_a_count() {
    for line in ["", "+", "-1", "-0", "abc", "1a", "a1", "1 ", " 1", "1.5", "++1", "1+", "٣"] {
        assert_eq!(parse_count(line), Err(InputError::UnparsableCount));
    }
}

#[test]
fn a_count_must_fit_the_machine_word() {
    let largest = usize::MAX.to_string();
    assert_eq!(parse_count(&largest), Ok(usize::MAX));
    let mut beyond = largest.clone();
    beyond.push('0');
    assert_eq!(parse_count(&beyond), Err(InputError::UnparsableCount));
    assert_eq!(
        parse_count("340282366920938463463374607431768211456"),
        Err(InputError::UnparsableCount)
    );
    let next = format!("{}", usize::MAX as u128 + 1);
    assert_eq!(parse_count(&next), Err(InputError::UnparsableCount));
}

#[test]
fn choices_are_lettered_from_a() {
    assert_eq!(choice_label(0), Some('a'));
    assert_eq!(choice_label(1), Some('b'));
    assert_eq!(choice_label(25), Some('z'));
    assert_eq!(choice_label(26), Some('{'));
    assert_eq!(choice_label(158), Some('ÿ'));
}

#[test]
fn choices_beyond_the_letters_have_no_label() {
    assert_eq!(LABELS, 159);
    assert_eq!(choice_label(159), None);
    assert_eq!(choice_label(usize::MAX), None);
}

#[test]
fn a_label_picks_the_choice_it_is_shown_for() {
    for index in 0..LABELS {
        let label = choice_label(index).unwrap();
        assert_eq!(parse_choice(&label.to_string(), LABELS), Ok(index));
        assert_eq!(parse_choice(&label.to_string(), index + 1), Ok(index));
        assert_eq!(parse_choice(&label.to_string(), index), Err(InputError::UnrecognizedChoice));
    }
}

#[test]
fn a_choice_is_named_by_the_first_character_of_the_line() {
    assert_eq!(parse_choice("a", 3), Ok(0));
    assert_eq!(parse_choice("c", 3), Ok(2));
    assert_eq!(parse_choice("b and more", 3), Ok(1));
    assert_eq!(parse_choice("cab", 3), Ok(2));
}

#[test]
fn a_letter_that_no_choice_has_is_refused() {
    for line in ["d", "z", "A", "B", "1", "", " a", "`", "Ā", "š"] {
        assert_eq!(parse_choice(line, 3), Err(InputError::UnrecognizedChoice));
    }
    assert_eq!(parse_choice("a", 0), Err(InputError::UnrecognizedChoice));
}

#[test]
fn a_selection_is_a_list_with_comma_and_blank() {
    assert_eq!(parse_selection("a, c", 3), Ok(vec![0, 2]));
    assert_eq!(parse_selection("c, b, a", 3), Ok(vec![2, 1, 0]));
    assert_eq!(parse_selection("b", 3), Ok(vec![1]));
    assert_eq!(parse_selection("a, a", 3), Ok(vec![0, 0]));
}

#[test]
fn a_piece_of_a_selection_counts_by_its_first_character() {
    assert_eq!(parse_selection("a,c", 3), Ok(vec![0]));
    assert_eq!(parse_selection("a ,c", 3), Ok(vec![0]));
    assert_eq!(parse_selection("ab, cz", 3), Ok(vec![0, 2]));
    assert_eq!(parse_selection("a,, c", 3), Ok(vec![0, 2]));
    assert_eq!(parse_selection("a,  c", 3), Err(InputError::UnrecognizedChoice));
}

#[test]
fn a_selection_with_one_bad_piece_is_refused_whole() {
    for line in ["a, d", "d, a", "a, , b", "a, ", ", a", "", ", ", "a, B", "x"] {
        assert_eq!(parse_selection(line, 3), Err(InputError::UnrecognizedChoice));
    }
    assert_eq!(parse_selection("a", 0), Err(InputError::UnrecognizedChoice));
}

#[test]
fn the_word_hint_asks_for_hints_whatever_its_case() {
    for line in ["hint", "HINT", "Hint", "hInT", "hinT"] {
        assert!(is_hint_request(line));
    }
}

#[test]
fn other_lines_ask_for_no_hints() {
    for line in ["", "hin", "hints", " hint", "hint ", "h1nt", "tnih", "híNt", "help"] {
        assert!(!is_hint_request(line));
    }
}

#[test]
fn yes_and_no_go_by_the_first_letter() {
    for line in ["y", "Y", "yes", "Yup", "y?"] {
        assert_eq!(parse_yes_no(line), Ok(true));
    }
    for line in ["n", "N", "no", "Nope", "never"] {
        assert_eq!(parse_yes_no(line), Ok(false));
    }
    for line in ["", "maybe", " y", "1", "ok"] {
        assert_eq!(parse_yes_no(line), Err(InputError::UnrecognizedOption));
    }
}

#[test]
fn only_a_yes_asks_for_a_replay() {
    assert!(wants_replay("y"));
    assert!(wants_replay("Yes"));
    assert!(!wants_replay("n"));
    assert!(!wants_replay("No"));
    assert!(!wants_replay(""));
    assert!(!wants_replay("again"));
}

#[test]
fn a_line_is_taken_without_the_white_space_around_it() {
    assert_eq!(accept_line("a\n"), Some("a"));
    assert_eq!(accept_line("  a, b \r\n"), Some("a, b"));
    assert_eq!(accept_line("\t12"), Some("12"));
    assert_eq!(accept_line("x"), Some("x"));
    assert_eq!(accept_line("é ü\n"), Some("é ü"));
    assert_eq!(accept_line("\u{a0}\u{2003}quiz\u{3000}\u{85}"), Some("quiz"));
}

#[test]
fn a_line_of_white_space_is_no_input() {
    for raw in ["", "\n", "   ", " \t\r\n", "\u{2028}\u{2029}", "\u{1680}\u{202f}\u{205f}"] {
        assert_eq!(accept_line(raw), None);
    }
}

#[test]
fn what_is_no_white_space_is_kept() {
    assert_eq!(accept_line("\u{200b}"), Some("\u{200b}"));
    assert_eq!(accept_line("_"), Some("_"));
    assert_eq!(accept_line("\u{1c}"), Some("\u{1c}"));
}

#[test]
fn accepting_a_line_agrees_with_trimming() {
    for raw in ["", " a ", "\u{b}\u{c}z\u{d}", "a\u{2000}b\u{200a} ", "\u{feff}x", "\u{180e} "] {
        let trimmed = raw.trim();
        let expected = if trimmed.is_empty() { None } else { Some(trimmed) };
        assert_eq!(accept_line(raw), expected);
    }
}

#[test]
fn an_entry_typed_twice_is_confirmed_when_both_match() {
    assert_eq!(confirm_entry("/tmp/exams", "/tmp/exams"), Some("/tmp/exams"));
    assert_eq!(confirm_entry("/tmp/exams", "/tmp/exam"), None);
    assert_eq!(confirm_entry("a", "A"), None);
    assert_eq!(confirm_entry("", ""), Some(""));
}
