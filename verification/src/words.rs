//! The word-list surface: categories of candidate words, the menu choice
//! that selects a category, and drawing one word at random.
//!
//! Word storage and parsing are a collaborator's concern; this module only
//! holds the plain lists, the choice logic, and the random draw. The draw
//! itself goes through `rand`, behind a trusted wrapper whose contract says
//! only what holds of every outcome: the result is one of the list's words.

use vstd::prelude::*;

use rand::seq::SliceRandom;

use crate::text::{chars_of, to_upper, trim_chars, trimmed};

verus! {

/// The candidate words, grouped by length category.
pub struct WordLists {
    pub four_letter_words: Vec<String>,
    pub five_letter_words: Vec<String>,
    pub six_letter_words: Vec<String>,
}

/// What a menu input selects: one of the three categories, quitting, or
/// nothing (the player must be asked again).
#[derive(Clone, Copy, Debug, PartialEq, Eq, Structural)]
pub enum MenuChoice {
    FourLetter,
    FiveLetter,
    SixLetter,
    Quit,
    Invalid,
}

/// The choice selected by a trimmed menu input: `"1"`, `"2"` and `"3"` pick
/// a category, `"q"` (either case) quits, and everything else is invalid.
pub open spec fn menu_choice_of(t: Seq<char>) -> MenuChoice {
    if t.len() == 1 && (t[0] == 'q' || t[0] == 'Q') {
        MenuChoice::Quit
    } else if t.len() == 1 && t[0] == '1' {
        MenuChoice::FourLetter
    } else if t.len() == 1 && t[0] == '2' {
        MenuChoice::FiveLetter
    } else if t.len() == 1 && t[0] == '3' {
        MenuChoice::SixLetter
    } else {
        MenuChoice::Invalid
    }
}

/// Parses one line of menu input, whitespace ignored.
pub fn parse_menu_choice(input: &str) -> (r: MenuChoice)
    ensures
        r == menu_choice_of(trimmed(input@)),
{
    let chars = chars_of(input);
    let t = trim_chars(&chars);
    if t.len() != 1 {
        return MenuChoice::Invalid;
    }
    let c = t[0];
    if c == 'q' || c == 'Q' {
        MenuChoice::Quit
    } else if c == '1' {
        MenuChoice::FourLetter
    } else if c == '2' {
        MenuChoice::FiveLetter
    } else if c == '3' {
        MenuChoice::SixLetter
    } else {
        MenuChoice::Invalid
    }
}

impl WordLists {
    /// The category list a choice selects, or `None` when the choice picks
    /// no category.
    pub fn list_for(&self, choice: MenuChoice) -> (r: Option<&Vec<String>>)
        ensures
            match choice {
                MenuChoice::FourLetter => r matches Some(l) && l@ == self.four_letter_words@,
                MenuChoice::FiveLetter => r matches Some(l) && l@ == self.five_letter_words@,
                MenuChoice::SixLetter => r matches Some(l) && l@ == self.six_letter_words@,
                MenuChoice::Quit => r is None,
                MenuChoice::Invalid => r is None,
            },
    {
        match choice {
            MenuChoice::FourLetter => Some(&self.four_letter_words),
            MenuChoice::FiveLetter => Some(&self.five_letter_words),
            MenuChoice::SixLetter => Some(&self.six_letter_words),
            MenuChoice::Quit => None,
            MenuChoice::Invalid => None,
        }
    }
}

/// Relies on `rand::seq::SliceRandom::choose`: on a non-empty slice it
/// returns `Some` of a uniformly drawn element, so the result is one of the
/// list's words. Nothing more is assumed of the draw.
#[verifier::external_body]
fn choose_word<'a>(words: &'a Vec<String>) -> (r: &'a String)
    requires
        words@.len() > 0,
    ensures
        words@.contains(*r),
{
    let mut rng = rand::thread_rng();
    words.choose(&mut rng).expect("the word list is not empty")
}

/// Draws one word at random from the list, or `None` when the list is
/// empty. Every returned word is an element of the list.
pub fn select_random_word<'a>(words: &'a Vec<String>) -> (r: Option<&'a String>)
    ensures
        r is Some <==> words@.len() > 0,
        r matches Some(w) ==> words@.contains(*w),
{
    if words.len() == 0 {
        None
    } else {
        Some(choose_word(words))
    }
}

/// Whether a trimmed input spells the word "yes", any case.
pub open spec fn is_yes(t: Seq<char>) -> bool {
    t.len() == 3 && to_upper(t[0]) == 'Y' && to_upper(t[1]) == 'E' && to_upper(t[2]) == 'S'
}

/// Whether one line of input answers "yes", whitespace and case ignored.
pub fn is_affirmative(input: &str) -> (r: bool)
    ensures
        r == is_yes(trimmed(input@)),
{
    let chars = chars_of(input);
    let t = trim_chars(&chars);
    if t.len() != 3 {
        return false;
    }
    let c0 = crate::text::upper_char(t[0]);
    let c1 = crate::text::upper_char(t[1]);
    let c2 = crate::text::upper_char(t[2]);
    c0 == 'Y' && c1 == 'E' && c2 == 'S'
}

} // verus!
