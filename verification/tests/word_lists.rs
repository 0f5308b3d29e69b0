use hangman::words::{is_affirmative, parse_menu_choice, select_random_word, MenuChoice, WordLists};

fn sample_lists() -> WordLists {
    WordLists {
        four_letter_words: vec!["frog".to_string(), "bird".to_string()],
        five_letter_words: vec!["crane".to_string()],
        six_letter_words: vec!["python".to_string(), "turtle".to_string(), "rabbit".to_string()],
    }
}

#[test]
fn menu_choice_selects_categories() {
    assert_eq!(parse_menu_choice("1"), MenuChoice::FourLetter);
    assert_eq!(parse_menu_choice("2"), MenuChoice::FiveLetter);
    assert_eq!(parse_menu_choice("3"), MenuChoice::SixLetter);
}

#[test]
fn menu_choice_quits_either_case() {
    assert_eq!(parse_menu_choice("q"), MenuChoice::Quit);
    assert_eq!(parse_menu_choice("Q"), MenuChoice::Quit);
    assert_eq!(parse_menu_choice(" q \n"), MenuChoice::Quit);
}

#[test]
fn menu_choice_rejects_everything_else() {
    assert_eq!(parse_menu_choice(""), MenuChoice::Invalid);
    assert_eq!(parse_menu_choice("4"), MenuChoice::Invalid);
    assert_eq!(parse_menu_choice("12"), MenuChoice::Invalid);
    assert_eq!(parse_menu_choice("x"), MenuChoice::Invalid);
    assert_eq!(parse_menu_choice("quit"), MenuChoice::Invalid);
}

#[test]
fn list_for_maps_choices_to_lists() {
    let lists = sample_lists();
    assert_eq!(lists.list_for(MenuChoice::FourLetter).unwrap(), &lists.four_letter_words);
    assert_eq!(lists.list_for(MenuChoice::FiveLetter).unwrap(), &lists.five_letter_words);
    assert_eq!(lists.list_for(MenuChoice::SixLetter).unwrap(), &lists.six_letter_words);
    assert!(lists.list_for(MenuChoice::Quit).is_none());
    assert!(lists.list_for(MenuChoice::Invalid).is_none());
}

#[test]
fn select_random_word_empty_list() {
    let words: Vec<String> = Vec::new();
    assert!(select_random_word(&words).is_none());
}

#[test]
fn select_random_word_singleton() {
    let words = vec!["cat".to_string()];
    assert_eq!(select_random_word(&words).unwrap(), "cat");
}

#[test]
fn select_random_word_is_a_member() {
    let words = vec!["dog".to_string(), "cat".to_string(), "owl".to_string()];
    for _ in 0..20 {
        let w = select_random_word(&words).unwrap();
        assert!(words.contains(w));
    }
}

#[test]
fn affirmative_answers() {
    assert!(is_affirmative("yes"));
    assert!(is_affirmative("YES"));
    assert!(is_affirmative(" Yes \n"));
    assert!(!is_affirmative("no"));
    assert!(!is_affirmative("y"));
    assert!(!is_affirmative(""));
    assert!(!is_affirmative("yess"));
}
