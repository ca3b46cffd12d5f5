use ion_shell::for_expression::{
    decimal_string, is_digit, is_space, split_words, ForExpression, ForValues,
};

fn all_values(mut values: ForValues) -> Vec<String> {
    let mut list = Vec::new();
    while let Some(value) = values.next() {
        list.push(value);
        assert!(list.len() < 1000);
    }
    list
}

#[test]
fn words_are_split_at_white_space() {
    assert_eq!(split_words("a b c"), vec!["a", "b", "c"]);
    assert_eq!(split_words("  leading and trailing  "), vec!["leading", "and", "trailing"]);
    assert_eq!(split_words("tab\tnew\nline"), vec!["tab", "new", "line"]);
    assert_eq!(split_words("one"), vec!["one"]);
}

#[test]
fn text_of_white_space_has_no_words() {
    assert_eq!(split_words(""), Vec::<String>::new());
    assert_eq!(split_words("   \t\n"), Vec::<String>::new());
}

#[test]
fn words_may_hold_characters_beyond_ascii() {
    assert_eq!(split_words("é\u{3000}ü\u{a0}ß"), vec!["é", "ü", "ß"]);
}

#[test]
fn white_space_is_what_the_standard_library_calls_white_space() {
    let mut code: u32 = 0;
    while code < 0x3100 {
        if let Some(c) = char::from_u32(code) {
            assert_eq!(is_space(c), c.is_whitespace());
        }
        code += 1;
    }
}

#[test]
fn digits_are_zero_to_nine() {
    assert!(is_digit('0'));
    assert!(is_digit('9'));
    assert!(!is_digit('a'));
    assert!(!is_digit('/'));
    assert!(!is_digit(':'));
    assert!(!is_digit('.'));
}

#[test]
fn digits_two_dots_digits_is_a_range() {
    assert_eq!(ForExpression::new("1..4"), ForExpression::Range(1, 4));
    assert_eq!(ForExpression::new("0..0"), ForExpression::Range(0, 0));
    assert_eq!(ForExpression::new("10..3"), ForExpression::Range(10, 3));
    assert_eq!(ForExpression::new("007..12"), ForExpression::Range(7, 12));
}

#[test]
fn anything_else_is_a_list_of_words() {
    for text in ["a b c", "1..", "..4", "1.4", "1...4", "1..4 5", " 1..4", "1..a", "a..4", "", "1 2"] {
        assert_eq!(ForExpression::new(text), ForExpression::Normal(text.to_string()));
    }
}

#[test]
fn a_number_too_large_for_the_machine_makes_no_range() {
    let text = "1..99999999999999999999999999999999999999";
    assert_eq!(ForExpression::new(text), ForExpression::Normal(text.to_string()));
    let text = "99999999999999999999999999999999999999..2";
    assert_eq!(ForExpression::new(text), ForExpression::Normal(text.to_string()));
    let largest = format!("0..{}", usize::MAX);
    assert_eq!(ForExpression::new(&largest), ForExpression::Range(0, usize::MAX));
}

#[test]
fn numbers_are_written_in_decimal() {
    assert_eq!(decimal_string(0), "0");
    assert_eq!(decimal_string(7), "7");
    assert_eq!(decimal_string(10), "10");
    assert_eq!(decimal_string(1234567890), "1234567890");
    assert_eq!(decimal_string(usize::MAX), usize::MAX.to_string());
}

#[test]
fn range_stops_before_its_end() {
    assert_eq!(all_values(ForValues::new(ForExpression::Range(1, 4))), vec!["1", "2", "3"]);
    assert_eq!(all_values(ForValues::new(ForExpression::Range(9, 12))), vec!["9", "10", "11"]);
}

#[test]
fn empty_and_backward_ranges_have_no_values() {
    assert_eq!(all_values(ForValues::new(ForExpression::Range(4, 4))), Vec::<String>::new());
    assert_eq!(all_values(ForValues::new(ForExpression::Range(5, 1))), Vec::<String>::new());
    assert_eq!(all_values(ForValues::empty()), Vec::<String>::new());
}

#[test]
fn words_are_the_values_of_a_list() {
    let values = ForValues::new(ForExpression::Normal(" x  _ y ".to_string()));
    assert_eq!(all_values(values), vec!["x", "_", "y"]);
}

#[test]
fn next_value_is_gone_once_taken() {
    let mut values = ForValues::new(ForExpression::new("3..5"));
    assert_eq!(values.next(), Some("3".to_string()));
    assert_eq!(values.next(), Some("4".to_string()));
    assert_eq!(values.next(), None);
    assert_eq!(values.next(), None);
}
