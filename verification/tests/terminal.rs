use kea::terminal::{handle_yes_no, selection_number, style_for_source, SourceColor};

#[test]
fn repository_colours() {
    assert_eq!(style_for_source(&"aur".to_string()), SourceColor::DarkGreen);
    assert_eq!(style_for_source(&"core".to_string()), SourceColor::Magenta);
    assert_eq!(style_for_source(&"extra".to_string()), SourceColor::DarkBlue);
    assert_eq!(style_for_source(&"community".to_string()), SourceColor::DarkYellow);
    assert_eq!(style_for_source(&"local".to_string()), SourceColor::Grey);
    assert_eq!(style_for_source(&"multilib".to_string()), SourceColor::Green);
    assert_eq!(style_for_source(&"".to_string()), SourceColor::Green);
}

#[test]
fn packages_are_numbered_down() {
    assert_eq!(selection_number(3, 0), 3);
    assert_eq!(selection_number(3, 2), 1);
}

#[test]
fn yes_no_answers() {
    assert!(handle_yes_no("y", false));
    assert!(handle_yes_no("Yes", false));
    assert!(!handle_yes_no("n", true));
    assert!(!handle_yes_no("No", true));
    assert!(handle_yes_no("", true));
    assert!(!handle_yes_no("", false));
    assert!(handle_yes_no("maybe", true));
}

use kea::terminal::handle_input;

#[test]
fn numbers_in_a_line() {
    assert_eq!(handle_input("1 2  3"), vec![1, 2, 3]);
    assert_eq!(handle_input("  12\t-4\n"), vec![12, -4]);
    assert_eq!(handle_input(""), Vec::<i32>::new());
}

#[test]
fn words_that_are_not_numbers_are_passed_over() {
    assert_eq!(handle_input("a 5 x7 7x - -- 3"), vec![5, 3]);
}

#[test]
fn numbers_must_fit_in_i32() {
    assert_eq!(handle_input("2147483647 2147483648 -2147483648 -2147483649 99999999999"), vec![2147483647, -2147483648]);
}
