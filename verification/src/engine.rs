//! The round state machine: one secret word, guess validation, reveal
//! tracking, a wrong-guess counter, and the derived round outcome.
//!
//! A [`RoundEngine`] is constructed from one secret word and a positive
//! allowance of wrong guesses. It is mutated only through
//! [`RoundEngine::submit_guess`]; every query is pure. Its mathematical
//! model is a [`RoundModel`]: the normalized secret as a sequence of
//! characters, the set of guessed characters, and the two counters.

use vstd::prelude::*;

use crate::text::{
    chars_of, copy_chars, is_alpha, is_alpha_char, is_upper_alpha, to_upper, trim_chars, trimmed,
    upper_char,
};

verus! {

/// The character standing for a not-yet-revealed position of the word.
pub const PLACEHOLDER: char = '_';

/// The default allowance of wrong guesses per round.
pub const MAX_WRONG_GUESSES: u8 = 6;

/// The phase of a round: still accepting guesses, won, or lost.
#[derive(Clone, Copy, Debug, PartialEq, Eq, Structural)]
pub enum Outcome {
    InProgress,
    Won,
    Lost,
}

/// Why a call to [`RoundEngine::submit_guess`] was refused. Every refusal
/// leaves the round state unchanged.
#[derive(Clone, Copy, Debug, PartialEq, Eq, Structural)]
pub enum GuessError {
    /// The round already ended; no further guesses are accepted.
    RoundAlreadyOver,
    /// The trimmed input was not exactly one character.
    InvalidGuessLength,
    /// The single character was not an ASCII letter.
    NonAlphabeticGuess,
    /// The character was already guessed this round; no penalty.
    DuplicateGuess,
}

/// The secret word handed to [`RoundEngine::new`] was empty or held a
/// non-alphabetic character.
#[derive(Clone, Copy, Debug, PartialEq, Eq, Structural)]
pub struct InvalidWordError;

/// The mathematical model of one round.
#[verifier::ext_equal]
pub struct RoundModel {
    /// The normalized (upper-case) secret word.
    pub secret: Seq<char>,
    /// The set of normalized characters guessed so far.
    pub guessed: Set<char>,
    /// How many guesses missed the word.
    pub wrong: int,
    /// The allowance of wrong guesses.
    pub max_wrong: int,
}

impl RoundModel {
    /// Validity of a round model: a non-empty upper-case alphabetic secret,
    /// a positive allowance, a wrong count within it, and only upper-case
    /// letters among the guesses.
    pub open spec fn inv(self) -> bool {
        &&& 1 <= self.secret.len()
        &&& forall|i: int| 0 <= i < self.secret.len() ==> is_upper_alpha(#[trigger] self.secret[i])
        &&& 1 <= self.max_wrong
        &&& 0 <= self.wrong <= self.max_wrong
        &&& forall|c: char| #[trigger] self.guessed.contains(c) ==> is_upper_alpha(c)
    }
}

/// Whether position `i` of the secret has been revealed: its character has
/// been guessed.
pub open spec fn revealed_at(m: RoundModel, i: int) -> bool {
    m.guessed.contains(m.secret[i])
}

/// The player-visible rendering of the secret: each revealed position shows
/// its character, every other position shows the placeholder.
pub open spec fn mask_of(m: RoundModel) -> Seq<char> {
    Seq::new(m.secret.len(), |i: int| if revealed_at(m, i) { m.secret[i] } else { PLACEHOLDER })
}

/// Whether every position of the secret has been revealed.
pub open spec fn all_found(m: RoundModel) -> bool {
    forall|i: int| 0 <= i < m.secret.len() ==> #[trigger] revealed_at(m, i)
}

/// The round outcome, derived from the state: won as soon as the word is
/// fully revealed, lost as soon as the wrong-guess allowance is used up,
/// in progress otherwise.
pub open spec fn outcome_of(m: RoundModel) -> Outcome {
    if all_found(m) {
        Outcome::Won
    } else if m.wrong >= m.max_wrong {
        Outcome::Lost
    } else {
        Outcome::InProgress
    }
}

/// The normalized character of a raw guess whose trimmed content is a single
/// character.
pub open spec fn normalized_guess(raw: Seq<char>) -> char {
    to_upper(trimmed(raw)[0])
}

/// Why a raw guess is refused against model `m`, or `None` if it is a new,
/// valid guess. The checks run in this order: round over, length, character
/// class, duplicate.
pub open spec fn guess_rejection(m: RoundModel, raw: Seq<char>) -> Option<GuessError> {
    if outcome_of(m) != Outcome::InProgress {
        Some(GuessError::RoundAlreadyOver)
    } else if trimmed(raw).len() != 1 {
        Some(GuessError::InvalidGuessLength)
    } else if !is_alpha(trimmed(raw)[0]) {
        Some(GuessError::NonAlphabeticGuess)
    } else if m.guessed.contains(normalized_guess(raw)) {
        Some(GuessError::DuplicateGuess)
    } else {
        None
    }
}

/// The model after a new, valid guess `g` is applied: `g` joins the guessed
/// set, and the wrong count grows by one exactly when `g` does not occur in
/// the secret.
pub open spec fn apply_guess(m: RoundModel, g: char) -> RoundModel {
    RoundModel {
        secret: m.secret,
        guessed: m.guessed.insert(g),
        wrong: if m.secret.contains(g) {
            m.wrong
        } else {
            m.wrong + 1
        },
        max_wrong: m.max_wrong,
    }
}

/// Strictly increasing by code point, hence free of duplicates.
pub open spec fn sorted_unique(s: Seq<char>) -> bool {
    forall|i: int, j: int| 0 <= i < j < s.len() ==> (s[i] as u32) < (s[j] as u32)
}

/// What the player reports back from a successful guess: whether it hit,
/// and the refreshed view of the round.
#[derive(Debug)]
pub struct GuessReport {
    /// Whether the guessed character occurs in the secret word.
    pub correct: bool,
    /// The updated mask, placeholder characters included.
    pub mask: Vec<char>,
    /// The updated guessed characters, in ascending order.
    pub guessed: Vec<char>,
    /// How many wrong guesses are still allowed.
    pub remaining: u8,
    /// The (possibly newly terminal) outcome.
    pub outcome: Outcome,
}

/// One round of the guessing game.
pub struct RoundEngine {
    /// The normalized secret word.
    pub secret: Vec<char>,
    /// Position `i` is `true` once `secret[i]` has been guessed.
    pub revealed: Vec<bool>,
    /// The guessed characters, kept in ascending order.
    pub guessed: Vec<char>,
    /// How many guesses missed the word.
    pub wrong: u8,
    /// The allowance of wrong guesses.
    pub max_wrong: u8,
}

impl View for RoundEngine {
    type V = RoundModel;

    open spec fn view(&self) -> RoundModel {
        RoundModel {
            secret: self.secret@,
            guessed: self.guessed@.to_set(),
            wrong: self.wrong as int,
            max_wrong: self.max_wrong as int,
        }
    }
}

impl RoundEngine {
    /// Well-formedness: the model is valid, the reveal mask has one slot per
    /// secret position and agrees with the guessed set, and the guessed
    /// characters are stored in ascending order.
    pub open spec fn wf(self) -> bool {
        &&& self@.inv()
        &&& self.revealed@.len() == self.secret@.len()
        &&& forall|i: int|
            0 <= i < self.secret@.len() ==> (#[trigger] self.revealed@[i] <==> revealed_at(
                self@,
                i,
            ))
        &&& sorted_unique(self.guessed@)
    }

    /// Starts a round for `word` with `max_wrong` allowed wrong guesses.
    ///
    /// Fails exactly when `word` is empty or holds a character that is not
    /// an ASCII letter. On success the round holds the word folded to upper
    /// case, nothing revealed, nothing guessed, and no wrong guesses.
    pub fn new(word: &str, max_wrong: u8) -> (r: Result<RoundEngine, InvalidWordError>)
        requires
            1 <= max_wrong,
        ensures
            r is Ok <==> (1 <= word@.len() && forall|i: int|
                0 <= i < word@.len() ==> is_alpha(#[trigger] word@[i])),
            match r {
                Ok(e) => {
                    &&& e.wf()
                    &&& e@.secret == Seq::new(word@.len(), |i: int| to_upper(word@[i]))
                    &&& e@.guessed == Set::<char>::empty()
                    &&& e@.wrong == 0
                    &&& e@.max_wrong == max_wrong as int
                    &&& outcome_of(e@) == Outcome::InProgress
                },
                Err(err) => err == InvalidWordError,
            },
    {
        let chars = chars_of(word);
        let n = chars.len();
        if n == 0 {
            return Err(InvalidWordError);
        }
        let mut secret: Vec<char> = Vec::new();
        let mut i: usize = 0;
        while i < n
            invariant
                i <= n,
                n == word@.len(),
                chars@ == word@,
                secret@.len() == i,
                forall|j: int| 0 <= j < i ==> #[trigger] secret@[j] == to_upper(word@[j]),
                forall|j: int| 0 <= j < i ==> is_alpha(#[trigger] word@[j]),
            decreases n - i,
        {
            let c = chars[i];
            if !is_alpha_char(c) {
                return Err(InvalidWordError);
            }
            secret.push(upper_char(c));
            i += 1;
        }
        let mut revealed: Vec<bool> = Vec::new();
        let mut j: usize = 0;
        while j < n
            invariant
                j <= n,
                revealed@.len() == j,
                forall|k: int| 0 <= k < j ==> !(#[trigger] revealed@[k]),
            decreases n - j,
        {
            revealed.push(false);
            j += 1;
        }
        let engine = RoundEngine { secret, revealed, guessed: Vec::new(), wrong: 0, max_wrong };
        proof {
            assert(engine@.guessed =~= Set::<char>::empty());
            assert(engine@.secret =~= Seq::new(word@.len(), |i: int| to_upper(word@[i])));
            assert forall|i: int| 0 <= i < engine@.secret.len() implies is_upper_alpha(
                #[trigger] engine@.secret[i],
            ) by {
                crate::text::lemma_to_upper_properties(word@[i]);
            }
            assert(!all_found(engine@)) by {
                assert(!revealed_at(engine@, 0));
            }
        }
        Ok(engine)
    }

    /// Whether `g` was already guessed this round.
    fn contains_guessed(&self, g: char) -> (r: bool)
        ensures
            r == self@.guessed.contains(g),
    {
        let mut i: usize = 0;
        while i < self.guessed.len()
            invariant
                i <= self.guessed@.len(),
                forall|j: int| 0 <= j < i ==> #[trigger] self.guessed@[j] != g,
            decreases self.guessed@.len() - i,
        {
            if self.guessed[i] == g {
                return true;
            }
            i += 1;
        }
        false
    }

    /// Inserts a not-yet-guessed character at its place in the ascending
    /// guess list, leaving every other field alone.
    fn insert_guessed(&mut self, g: char)
        requires
            sorted_unique(old(self).guessed@),
            !old(self).guessed@.contains(g),
        ensures
            sorted_unique(final(self).guessed@),
            final(self).guessed@.to_set() == old(self).guessed@.to_set().insert(g),
            final(self).guessed@.len() == old(self).guessed@.len() + 1,
            forall|c: char|
                #[trigger] final(self).guessed@.contains(c) <==> (old(self).guessed@.contains(c)
                    || c == g),
            final(self).secret@ == old(self).secret@,
            final(self).revealed@ == old(self).revealed@,
            final(self).wrong == old(self).wrong,
            final(self).max_wrong == old(self).max_wrong,
    {
        let ghost before = self.guessed@;
        let mut k: usize = 0;
        while k < self.guessed.len() && (self.guessed[k] as u32) < (g as u32)
            invariant
                k <= self.guessed@.len(),
                self.guessed@ == before,
                forall|j: int| 0 <= j < k ==> (#[trigger] before[j] as u32) < (g as u32),
            decreases self.guessed@.len() - k,
        {
            k += 1;
        }
        proof {
            if k < before.len() {
                assert(before[k as int] != g);
                assert((before[k as int] as u32) >= (g as u32));
            }
        }
        self.guessed.insert(k, g);
        proof {
            before.insert_ensures(k as int, g);
            let after = self.guessed@;
            assert forall|c: char| #[trigger] after.contains(c) implies (before.contains(c) || c
                == g) by {
                let i = choose|i: int| 0 <= i < after.len() && after[i] == c;
                if i < k {
                    assert(before[i] == c);
                } else if i == k {
                } else {
                    assert(before[i - 1] == c);
                }
            }
            assert forall|c: char| before.contains(c) || c == g implies #[trigger] after.contains(
                c,
            ) by {
                if c == g {
                    assert(after[k as int] == c);
                } else {
                    let i = choose|i: int| 0 <= i < before.len() && before[i] == c;
                    if i < k {
                        assert(after[i] == c);
                    } else {
                        assert(after[i + 1] == c);
                    }
                }
            }
            assert(after.to_set() =~= before.to_set().insert(g));
            assert forall|j: int| k <= j < before.len() implies (g as u32) < (
            #[trigger] before[j] as u32) by {
                assert((g as u32) <= (before[k as int] as u32));
                assert(before[k as int] != g);
                if (g as u32) == (before[k as int] as u32) {
                    crate::text::lemma_char_code_injective(g, before[k as int]);
                }
                if j > k {
                    assert((before[k as int] as u32) < (before[j] as u32));
                }
            }
            assert forall|i: int, j: int| 0 <= i < j < after.len() implies (after[i] as u32) < (
            after[j] as u32) by {
                if j < k {
                    assert(after[i] == before[i] && after[j] == before[j]);
                } else if i > k {
                    assert(after[i] == before[i - 1] && after[j] == before[j - 1]);
                } else if i == k {
                    assert(after[i] == g && after[j] == before[j - 1]);
                    assert((g as u32) < (before[j - 1] as u32));
                } else if j == k {
                    assert(after[i] == before[i] && after[j] == g);
                    assert((before[i] as u32) < (g as u32));
                } else {
                    assert(after[i] == before[i] && after[j] == before[j - 1]);
                    assert((before[i] as u32) < (g as u32));
                    assert((g as u32) < (before[j - 1] as u32));
                }
            }
        }
    }

    /// Validates and applies one guess against the round.
    ///
    /// The checks short-circuit in a fixed order — round already over,
    /// trimmed length, character class, duplicate — and any refusal leaves
    /// the round unchanged (see [`guess_rejection`]). A new, valid guess
    /// joins the guessed set, reveals every position holding it, and costs
    /// one wrong guess exactly when it occurs nowhere in the word (see
    /// [`apply_guess`]). The mask never changes length, a revealed position
    /// stays revealed, and the wrong count never decreases.
    pub fn submit_guess(&mut self, raw: &str) -> (r: Result<GuessReport, GuessError>)
        requires
            old(self).wf(),
        ensures
            final(self).wf(),
            final(self)@.secret == old(self)@.secret,
            final(self)@.max_wrong == old(self)@.max_wrong,
            final(self)@.wrong >= old(self)@.wrong,
            final(self).revealed@.len() == old(self).revealed@.len(),
            forall|i: int|
                0 <= i < old(self).revealed@.len() ==> (#[trigger] old(self).revealed@[i]
                    ==> final(self).revealed@[i]),
            match guess_rejection(old(self)@, raw@) {
                Some(e) => r == Err::<GuessReport, GuessError>(e) && *final(self) == *old(self),
                None => {
                    &&& final(self)@ == apply_guess(old(self)@, normalized_guess(raw@))
                    &&& match r {
                        Ok(rep) => {
                            &&& rep.correct == old(self)@.secret.contains(normalized_guess(raw@))
                            &&& rep.mask@ == mask_of(final(self)@)
                            &&& rep.guessed@.to_set() == final(self)@.guessed
                            &&& sorted_unique(rep.guessed@)
                            &&& rep.remaining as int == final(self)@.max_wrong
                                - final(self)@.wrong
                            &&& rep.outcome == outcome_of(final(self)@)
                        },
                        Err(_) => false,
                    }
                },
            },
    {
        let oc = self.outcome();
        if oc != Outcome::InProgress {
            return Err(GuessError::RoundAlreadyOver);
        }
        let chars = chars_of(raw);
        let t = trim_chars(&chars);
        if t.len() != 1 {
            return Err(GuessError::InvalidGuessLength);
        }
        let c = t[0];
        if !is_alpha_char(c) {
            return Err(GuessError::NonAlphabeticGuess);
        }
        let g = upper_char(c);
        if self.contains_guessed(g) {
            return Err(GuessError::DuplicateGuess);
        }
        proof {
            crate::text::lemma_to_upper_properties(c);
        }
        self.insert_guessed(g);
        let n = self.secret.len();
        let mut found = false;
        let mut i: usize = 0;
        while i < n
            invariant
                i <= n,
                old(self).wf(),
                n == self.secret@.len(),
                self.secret@ == old(self).secret@,
                self.guessed@.to_set() == old(self)@.guessed.insert(g),
                sorted_unique(self.guessed@),
                forall|ch: char| #[trigger]
                    self.guessed@.contains(ch) <==> (old(self).guessed@.contains(ch) || ch == g),
                self.wrong == old(self).wrong,
                self.max_wrong == old(self).max_wrong,
                self.revealed@.len() == old(self).revealed@.len(),
                forall|j: int|
                    0 <= j < n ==> #[trigger] self.revealed@[j] == (old(self).revealed@[j] || (j
                        < i && old(self).secret@[j] == g)),
                found <==> exists|j: int| 0 <= j < i && old(self).secret@[j] == g,
            decreases n - i,
        {
            if self.secret[i] == g {
                self.revealed[i] = true;
                found = true;
            }
            i += 1;
        }
        if !found {
            self.wrong = self.wrong + 1;
        }
        proof {
            let om = old(self)@;
            let gm = apply_guess(om, g);
            assert(found == om.secret.contains(g));
            assert(self@.guessed =~= om.guessed.insert(g));
            assert(is_upper_alpha(g));
            assert(self@ =~= gm);
            assert forall|j: int| 0 <= j < self.secret@.len() implies (
            #[trigger] self.revealed@[j] <==> revealed_at(self@, j)) by {
                assert(old(self).revealed@[j] <==> revealed_at(om, j));
            }
            assert(self.wf());
        }
        let rep = GuessReport {
            correct: found,
            mask: self.reveal_mask(),
            guessed: self.guessed_letters(),
            remaining: self.max_wrong - self.wrong,
            outcome: self.outcome(),
        };
        Ok(rep)
    }

    /// Whether every position of the word has been revealed.
    fn all_revealed(&self) -> (r: bool)
        requires
            self.wf(),
        ensures
            r == all_found(self@),
    {
        let mut i: usize = 0;
        while i < self.revealed.len()
            invariant
                self.wf(),
                i <= self.revealed@.len(),
                forall|j: int| 0 <= j < i ==> #[trigger] self.revealed@[j],
            decreases self.revealed@.len() - i,
        {
            if !self.revealed[i] {
                proof {
                    assert(!revealed_at(self@, i as int));
                }
                return false;
            }
            i += 1;
        }
        proof {
            assert forall|j: int| 0 <= j < self@.secret.len() implies #[trigger] revealed_at(
                self@,
                j,
            ) by {
                assert(self.revealed@[j]);
            }
        }
        true
    }

    /// The current outcome of the round.
    pub fn outcome(&self) -> (r: Outcome)
        requires
            self.wf(),
        ensures
            r == outcome_of(self@),
    {
        if self.all_revealed() {
            Outcome::Won
        } else if self.wrong >= self.max_wrong {
            Outcome::Lost
        } else {
            Outcome::InProgress
        }
    }

    /// The player-visible mask: revealed characters in place, the
    /// placeholder everywhere else.
    pub fn reveal_mask(&self) -> (r: Vec<char>)
        requires
            self.wf(),
        ensures
            r@ == mask_of(self@),
    {
        let mut r: Vec<char> = Vec::new();
        let mut i: usize = 0;
        while i < self.secret.len()
            invariant
                self.wf(),
                i <= self.secret@.len(),
                r@.len() == i,
                forall|j: int| 0 <= j < i ==> #[trigger] r@[j] == mask_of(self@)[j],
            decreases self.secret@.len() - i,
        {
            if self.revealed[i] {
                let c = self.secret[i];
                r.push(c);
            } else {
                r.push(PLACEHOLDER);
            }
            i += 1;
        }
        proof {
            assert(r@ =~= mask_of(self@));
        }
        r
    }

    /// The characters guessed so far, in ascending order.
    pub fn guessed_letters(&self) -> (r: Vec<char>)
        ensures
            r@ == self.guessed@,
            r@.to_set() == self@.guessed,
    {
        copy_chars(&self.guessed)
    }

    /// How many wrong guesses are still allowed.
    pub fn remaining_guesses(&self) -> (r: u8)
        requires
            self.wf(),
        ensures
            r as int == self@.max_wrong - self@.wrong,
    {
        self.max_wrong - self.wrong
    }

    /// How many guesses have missed the word so far.
    pub fn wrong_count(&self) -> (r: u8)
        ensures
            r as int == self@.wrong,
    {
        self.wrong
    }

    /// The normalized secret word, for disclosure once the round is over.
    pub fn secret_word(&self) -> (r: Vec<char>)
        ensures
            r@ == self@.secret,
    {
        copy_chars(&self.secret)
    }
}

/// The mask always has one slot per character of the secret word, and a
/// guess never changes its length.
pub proof fn lemma_mask_length(m: RoundModel, g: char)
    ensures
        mask_of(m).len() == m.secret.len(),
        mask_of(apply_guess(m, g)).len() == m.secret.len(),
{
}

/// Revealing is monotonic: a position revealed before a guess shows the
/// same character after it.
pub proof fn lemma_reveal_monotonic(m: RoundModel, g: char)
    ensures
        forall|i: int|
            0 <= i < m.secret.len() && revealed_at(m, i) ==> (#[trigger] revealed_at(
                apply_guess(m, g),
                i,
            ) && mask_of(apply_guess(m, g))[i] == mask_of(m)[i]),
{
}

/// On a valid model still in progress, a guess never lowers the wrong
/// count, raises it by at most one, keeps it within the allowance, and
/// keeps the model valid.
pub proof fn lemma_wrong_monotonic_bounded(m: RoundModel, g: char)
    requires
        m.inv(),
        is_upper_alpha(g),
        outcome_of(m) == Outcome::InProgress,
    ensures
        m.wrong <= apply_guess(m, g).wrong <= m.wrong + 1,
        0 <= apply_guess(m, g).wrong <= apply_guess(m, g).max_wrong,
        apply_guess(m, g).inv(),
{
}

/// The outcome is fully determined by the state: won exactly when the mask
/// holds no placeholder, lost exactly when the allowance is used up and the
/// word is not fully revealed, and in progress otherwise.
pub proof fn lemma_outcome_characterization(m: RoundModel)
    requires
        m.inv(),
    ensures
        (outcome_of(m) == Outcome::Won) <==> !mask_of(m).contains(PLACEHOLDER),
        (outcome_of(m) == Outcome::Lost) <==> (m.wrong == m.max_wrong && outcome_of(m)
            != Outcome::Won),
        (outcome_of(m) == Outcome::InProgress) <==> (outcome_of(m) != Outcome::Won && outcome_of(
            m,
        ) != Outcome::Lost),
{
    if all_found(m) {
        assert forall|i: int| 0 <= i < mask_of(m).len() implies mask_of(m)[i] != PLACEHOLDER by {
            assert(revealed_at(m, i));
            assert(is_upper_alpha(m.secret[i]));
        }
        assert(!mask_of(m).contains(PLACEHOLDER));
    } else {
        let i = choose|i: int| 0 <= i < m.secret.len() && !revealed_at(m, i);
        assert(mask_of(m)[i] == PLACEHOLDER);
        assert(mask_of(m).contains(PLACEHOLDER));
    }
}

/// Terminal outcomes are sticky: once a round is won or lost, every further
/// guess — whatever its content — is refused as `RoundAlreadyOver`, and
/// [`RoundEngine::submit_guess`] then leaves the round unchanged.
pub proof fn lemma_terminal_outcome_sticky(m: RoundModel, raw: Seq<char>)
    requires
        outcome_of(m) != Outcome::InProgress,
    ensures
        guess_rejection(m, raw) == Some(GuessError::RoundAlreadyOver),
{
}

/// Guessing is case-insensitive: two raw inputs whose single trimmed
/// characters fold to the same canonical letter are rejected the same way
/// and, when accepted, produce the same round state.
pub proof fn lemma_case_insensitive(m: RoundModel, a: Seq<char>, b: Seq<char>)
    requires
        trimmed(a).len() == 1,
        trimmed(b).len() == 1,
        normalized_guess(a) == normalized_guess(b),
    ensures
        guess_rejection(m, a) == guess_rejection(m, b),
        guess_rejection(m, a) is None ==> apply_guess(m, normalized_guess(a)) == apply_guess(
            m,
            normalized_guess(b),
        ),
{
    crate::text::lemma_to_upper_properties(trimmed(a)[0]);
    crate::text::lemma_to_upper_properties(trimmed(b)[0]);
}

/// Guessing the same letter a second time — in either case — is refused as
/// a duplicate, as long as the first guess left the round in progress.
pub proof fn lemma_repeated_guess_duplicate(m: RoundModel, a: Seq<char>, b: Seq<char>)
    requires
        guess_rejection(m, a) is None,
        trimmed(b).len() == 1,
        normalized_guess(a) == normalized_guess(b),
        outcome_of(apply_guess(m, normalized_guess(a))) == Outcome::InProgress,
    ensures
        guess_rejection(apply_guess(m, normalized_guess(a)), b) == Some(
            GuessError::DuplicateGuess,
        ),
{
    crate::text::lemma_to_upper_properties(trimmed(a)[0]);
    crate::text::lemma_to_upper_properties(trimmed(b)[0]);
}

} // verus!
