use syslab::hangman::find_all;

fn dashes(n: usize) -> Vec<String> {
    vec![String::from("-"); n]
}

#[test]
fn a_letter_is_uncovered_wherever_it_stands() {
    let word: Vec<char> = "banana".chars().collect();
    let mut shown = dashes(6);
    let copy = find_all(&word, &mut shown, &'a');
    assert_eq!(shown, vec!["-", "a", "-", "a", "-", "a"]);
    assert_eq!(copy, shown);
    let copy = find_all(&word, &mut shown, &'b');
    assert_eq!(copy, vec!["b", "a", "-", "a", "-", "a"]);
    assert_eq!(copy.join(""), "ba-a-a");
}

#[test]
fn a_letter_that_is_not_in_the_word_uncovers_nothing() {
    let word: Vec<char> = "rust".chars().collect();
    let mut shown = dashes(4);
    let copy = find_all(&word, &mut shown, &'x');
    assert_eq!(copy, dashes(4));
    assert_eq!(shown, dashes(4));
}

#[test]
fn what_lies_behind_the_word_is_left_alone() {
    let word: Vec<char> = "ab".chars().collect();
    let mut shown = vec![String::from("-"), String::from("-"), String::from("tail")];
    let copy = find_all(&word, &mut shown, &'b');
    assert_eq!(copy, vec!["-", "b", "tail"]);
    let none: Vec<char> = vec![];
    let mut empty: Vec<String> = vec![];
    assert!(find_all(&none, &mut empty, &'a').is_empty());
}

#[test]
fn a_letter_outside_ascii_is_uncovered_whole() {
    let word: Vec<char> = "über".chars().collect();
    let mut shown = dashes(4);
    find_all(&word, &mut shown, &'ü');
    assert_eq!(shown, vec!["ü", "-", "-", "-"]);
}
