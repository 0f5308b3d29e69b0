use hangman::engine::{GuessError, Outcome, RoundEngine, MAX_WRONG_GUESSES};

#[test]
fn new_rejects_empty_word() {
    assert!(RoundEngine::new("", MAX_WRONG_GUESSES).is_err());
}

#[test]
fn new_rejects_non_alphabetic_word() {
    assert!(RoundEngine::new("ab1", MAX_WRONG_GUESSES).is_err());
    assert!(RoundEngine::new("a b", MAX_WRONG_GUESSES).is_err());
    assert!(RoundEngine::new("dog!", MAX_WRONG_GUESSES).is_err());
}

#[test]
fn new_normalizes_and_starts_fresh() {
    let e = RoundEngine::new("dog", MAX_WRONG_GUESSES).unwrap();
    assert_eq!(e.secret_word(), vec!['D', 'O', 'G']);
    assert_eq!(e.reveal_mask(), vec!['_', '_', '_']);
    assert_eq!(e.guessed_letters(), Vec::<char>::new());
    assert_eq!(e.wrong_count(), 0);
    assert_eq!(e.remaining_guesses(), MAX_WRONG_GUESSES);
    assert_eq!(e.outcome(), Outcome::InProgress);
}

#[test]
fn invalid_length_guess_changes_nothing() {
    let mut e = RoundEngine::new("dog", MAX_WRONG_GUESSES).unwrap();
    let r = e.submit_guess("");
    assert!(matches!(r, Err(GuessError::InvalidGuessLength)));
    let r = e.submit_guess("ab");
    assert!(matches!(r, Err(GuessError::InvalidGuessLength)));
    assert_eq!(e.wrong_count(), 0);
    assert_eq!(e.guessed_letters(), Vec::<char>::new());
    assert_eq!(e.reveal_mask(), vec!['_', '_', '_']);
}

#[test]
fn non_alphabetic_guess_changes_nothing() {
    let mut e = RoundEngine::new("dog", MAX_WRONG_GUESSES).unwrap();
    let r = e.submit_guess("5");
    assert!(matches!(r, Err(GuessError::NonAlphabeticGuess)));
    assert_eq!(e.wrong_count(), 0);
    assert_eq!(e.guessed_letters(), Vec::<char>::new());
    assert_eq!(e.reveal_mask(), vec!['_', '_', '_']);
}

#[test]
fn guess_input_is_trimmed() {
    let mut e = RoundEngine::new("cat", MAX_WRONG_GUESSES).unwrap();
    let rep = e.submit_guess(" a \n").unwrap();
    assert!(rep.correct);
    assert_eq!(e.reveal_mask(), vec!['_', 'A', '_']);
}

#[test]
fn case_insensitive_same_mask() {
    let mut lower = RoundEngine::new("cat", MAX_WRONG_GUESSES).unwrap();
    let mut upper = RoundEngine::new("cat", MAX_WRONG_GUESSES).unwrap();
    let rl = lower.submit_guess("a").unwrap();
    let ru = upper.submit_guess("A").unwrap();
    assert_eq!(rl.correct, ru.correct);
    assert_eq!(lower.reveal_mask(), upper.reveal_mask());
    assert_eq!(lower.guessed_letters(), upper.guessed_letters());
}

#[test]
fn case_insensitive_duplicate() {
    let mut e = RoundEngine::new("cat", MAX_WRONG_GUESSES).unwrap();
    let rep = e.submit_guess("a").unwrap();
    assert!(rep.correct);
    let r = e.submit_guess("A");
    assert!(matches!(r, Err(GuessError::DuplicateGuess)));
    assert_eq!(e.wrong_count(), 0);
    assert_eq!(e.guessed_letters(), vec!['A']);
}

#[test]
fn repeated_letters_reveal_in_one_call() {
    let mut e = RoundEngine::new("LEVEL", 6).unwrap();
    let rep = e.submit_guess("L").unwrap();
    assert!(rep.correct);
    assert_eq!(rep.mask, vec!['L', '_', '_', '_', 'L']);
    assert_eq!(e.reveal_mask(), vec!['L', '_', '_', '_', 'L']);
    let r = e.submit_guess("L");
    assert!(matches!(r, Err(GuessError::DuplicateGuess)));
}

#[test]
fn win_scenario() {
    let mut e = RoundEngine::new("CAT", MAX_WRONG_GUESSES).unwrap();
    let r1 = e.submit_guess("C").unwrap();
    assert!(r1.correct);
    assert_eq!(r1.outcome, Outcome::InProgress);
    let r2 = e.submit_guess("A").unwrap();
    assert!(r2.correct);
    assert_eq!(r2.outcome, Outcome::InProgress);
    let r3 = e.submit_guess("T").unwrap();
    assert!(r3.correct);
    assert_eq!(r3.outcome, Outcome::Won);
    assert_eq!(e.outcome(), Outcome::Won);
    assert_eq!(e.reveal_mask(), vec!['C', 'A', 'T']);
}

#[test]
fn loss_scenario() {
    let mut e = RoundEngine::new("DOG", 2).unwrap();
    let r1 = e.submit_guess("X").unwrap();
    assert!(!r1.correct);
    assert_eq!(e.wrong_count(), 1);
    assert_eq!(r1.outcome, Outcome::InProgress);
    let r2 = e.submit_guess("Q").unwrap();
    assert!(!r2.correct);
    assert_eq!(e.wrong_count(), 2);
    assert_eq!(r2.outcome, Outcome::Lost);
    assert_eq!(e.outcome(), Outcome::Lost);
    let r3 = e.submit_guess("D");
    assert!(matches!(r3, Err(GuessError::RoundAlreadyOver)));
    assert_eq!(e.secret_word(), vec!['D', 'O', 'G']);
}

#[test]
fn outcome_sticky_after_win() {
    let mut e = RoundEngine::new("hi", MAX_WRONG_GUESSES).unwrap();
    e.submit_guess("h").unwrap();
    e.submit_guess("i").unwrap();
    assert_eq!(e.outcome(), Outcome::Won);
    let before_mask = e.reveal_mask();
    let before_guessed = e.guessed_letters();
    let before_wrong = e.wrong_count();
    let r = e.submit_guess("z");
    assert!(matches!(r, Err(GuessError::RoundAlreadyOver)));
    assert_eq!(e.reveal_mask(), before_mask);
    assert_eq!(e.guessed_letters(), before_guessed);
    assert_eq!(e.wrong_count(), before_wrong);
}

#[test]
fn mask_length_never_changes() {
    let mut e = RoundEngine::new("apple", MAX_WRONG_GUESSES).unwrap();
    assert_eq!(e.reveal_mask().len(), 5);
    for guess in ["a", "z", "p", "q", "x"] {
        let _ = e.submit_guess(guess);
        assert_eq!(e.reveal_mask().len(), 5);
    }
}

#[test]
fn wrong_count_monotonic_and_bounded() {
    let mut e = RoundEngine::new("apple", 3).unwrap();
    let mut last = e.wrong_count();
    for guess in ["z", "a", "y", "p", "x", "w", "l"] {
        let _ = e.submit_guess(guess);
        let now = e.wrong_count();
        assert!(now >= last);
        assert!(now <= 3);
        last = now;
    }
    assert_eq!(e.outcome(), Outcome::Lost);
}

#[test]
fn revealed_positions_stay_revealed() {
    let mut e = RoundEngine::new("banana", MAX_WRONG_GUESSES).unwrap();
    e.submit_guess("a").unwrap();
    assert_eq!(e.reveal_mask(), vec!['_', 'A', '_', 'A', '_', 'A']);
    let _ = e.submit_guess("z");
    let _ = e.submit_guess("n");
    let mask = e.reveal_mask();
    assert_eq!(mask[1], 'A');
    assert_eq!(mask[3], 'A');
    assert_eq!(mask[5], 'A');
}

#[test]
fn won_iff_mask_has_no_placeholder() {
    let mut e = RoundEngine::new("go", MAX_WRONG_GUESSES).unwrap();
    assert!(e.reveal_mask().contains(&'_'));
    assert_ne!(e.outcome(), Outcome::Won);
    e.submit_guess("g").unwrap();
    assert!(e.reveal_mask().contains(&'_'));
    assert_ne!(e.outcome(), Outcome::Won);
    e.submit_guess("o").unwrap();
    assert!(!e.reveal_mask().contains(&'_'));
    assert_eq!(e.outcome(), Outcome::Won);
}

#[test]
fn report_reflects_round_state() {
    let mut e = RoundEngine::new("dog", 4).unwrap();
    let rep = e.submit_guess("b").unwrap();
    assert!(!rep.correct);
    assert_eq!(rep.remaining, 3);
    assert_eq!(rep.guessed, vec!['B']);
    assert_eq!(rep.mask, vec!['_', '_', '_']);
    assert_eq!(rep.outcome, Outcome::InProgress);
    let rep = e.submit_guess("o").unwrap();
    assert!(rep.correct);
    assert_eq!(rep.remaining, 3);
    assert_eq!(rep.guessed, vec!['B', 'O']);
    assert_eq!(rep.mask, vec!['_', 'O', '_']);
}

#[test]
fn guessed_letters_are_sorted() {
    let mut e = RoundEngine::new("crane", MAX_WRONG_GUESSES).unwrap();
    e.submit_guess("r").unwrap();
    e.submit_guess("c").unwrap();
    e.submit_guess("z").unwrap();
    e.submit_guess("a").unwrap();
    assert_eq!(e.guessed_letters(), vec!['A', 'C', 'R', 'Z']);
}
