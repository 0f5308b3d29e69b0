//! A verified core for a single-player word-guessing game.
//!
//! A secret word is hidden behind placeholders; the player proposes letters
//! one at a time, and the round tracks wrong guesses until the word is fully
//! revealed (won) or the allowance of wrong guesses is exhausted (lost).
//! The round state machine lives in [`engine`], character normalization and
//! trimming in [`text`], and the word-list surface (category selection and
//! random word picking) in [`words`].

pub mod engine;
pub mod text;
pub mod words;
