//! The word lists of a game and the check of a guess against them.

use crate::text::{views, word_list, lines_of};
use rand::seq::SliceRandom;
use vstd::prelude::*;

verus! {

/// The number of letters in a word of the game.
pub const WORD_LEN: usize = 5;

/// Why a guess is turned away.
#[derive(Clone, Copy, Debug, PartialEq, Eq, Structural)]
pub enum ValidationError {
    /// Fewer letters than a word has.
    TooShort,
    /// More letters than a word has.
    TooLong,
    /// The right length, but not a word that the game accepts.
    NotInWordlist,
}

/// The text that reports an error to the player.
pub open spec fn message_of(e: ValidationError) -> Seq<char> {
    match e {
        ValidationError::TooShort => "less than 5 characters"@,
        ValidationError::TooLong => "greater than 5 characters"@,
        ValidationError::NotInWordlist => "not in wordlist"@,
    }
}

impl ValidationError {
    /// The text that reports this error to the player.
    pub fn message(&self) -> (r: String)
        ensures
            r@ == message_of(*self),
    {
        match self {
            ValidationError::TooShort => String::from_str("less than 5 characters"),
            ValidationError::TooLong => String::from_str("greater than 5 characters"),
            ValidationError::NotInWordlist => String::from_str("not in wordlist"),
        }
    }
}

/// What a guess earns from a list of accepted words: too short, too long, not in
/// the list, or accepted, checked in that order.
pub open spec fn verdict(accepted: Seq<Seq<char>>, guess: Seq<char>) -> Result<(), ValidationError> {
    if guess.len() < WORD_LEN {
        Err(ValidationError::TooShort)
    } else if guess.len() > WORD_LEN {
        Err(ValidationError::TooLong)
    } else if !accepted.contains(guess) {
        Err(ValidationError::NotInWordlist)
    } else {
        Ok(())
    }
}

/// Whether `word` stands in `words`.
pub fn contains_word(words: &Vec<String>, word: &str) -> (r: bool)
    ensures
        r == views(words@).contains(word@),
{
    let target = word.to_owned();
    let mut i: usize = 0;
    while i < words.len()
        invariant
            i <= words@.len(),
            target@ == word@,
            forall|j: int| 0 <= j < i ==> words@[j]@ != word@,
        decreases words@.len() - i,
    {
        if words[i] == target {
            proof {
                assert(views(words@)[i as int] == word@);
            }
            return true;
        }
        i = i + 1;
    }
    proof {
        if views(words@).contains(word@) {
            let j = choose|j: int| 0 <= j < views(words@).len() && views(words@)[j] == word@;
            assert(words@[j]@ == word@);
        }
    }
    false
}

/// The check of a guess against a list of accepted words.
pub fn check_guess(accepted: &Vec<String>, guess: &str) -> (r: Result<(), ValidationError>)
    ensures
        r == verdict(views(accepted@), guess@),
{
    let n = guess.unicode_len();
    if n < WORD_LEN {
        Err(ValidationError::TooShort)
    } else if n > WORD_LEN {
        Err(ValidationError::TooLong)
    } else if !contains_word(accepted, guess) {
        Err(ValidationError::NotInWordlist)
    } else {
        Ok(())
    }
}

/// The message for a guess that a list of accepted words turns away, or `None`
/// for one that it accepts.
pub fn maybe_error(guesses: &Vec<String>, guess: &str) -> (r: Option<String>)
    ensures
        r is None <==> verdict(views(guesses@), guess@) is Ok,
        r matches Some(m) ==> verdict(views(guesses@), guess@) matches Err(e) && m@ == message_of(e),
{
    match check_guess(guesses, guess) {
        Ok(()) => None,
        Err(e) => Some(e.message()),
    }
}

/// The answers of a word list's text, one per line.
pub fn get_answers(answers_text: &str) -> (r: Vec<String>)
    ensures
        views(r@) == lines_of(answers_text@),
{
    word_list(answers_text)
}

/// The accepted guesses: the lines of the guess list, then the answers.
pub fn get_guesses(answers_text: &str, guesses_text: &str) -> (r: Vec<String>)
    ensures
        views(r@) == lines_of(guesses_text@) + lines_of(answers_text@),
{
    let mut answers = get_answers(answers_text);
    let mut guesses = word_list(guesses_text);
    let ghost g = guesses@;
    let ghost a = answers@;
    guesses.append(&mut answers);
    assert(views(guesses@) =~= views(g) + views(a));
    guesses
}

/// Relies on rand's `SliceRandom::choose` over the thread's generator: `None`
/// exactly for an empty list, else one of its words.
#[verifier::external_body]
fn choose_word(words: &Vec<String>) -> (r: Option<&String>)
    ensures
        r is None <==> words@.len() == 0,
        r matches Some(w) ==> exists|i: int| 0 <= i < words@.len() && words@[i] == *w,
{
    words.choose(&mut rand::thread_rng())
}

/// The words of a game: the answers a secret is drawn from, and the accepted
/// guesses, which hold every answer.
pub struct Lexicon {
    answers: Vec<String>,
    guesses: Vec<String>,
}

impl Lexicon {
    /// Every answer stands among the accepted guesses.
    pub closed spec fn wf(&self) -> bool {
        forall|i: int|
            0 <= i < self.answers@.len() ==> views(self.guesses@).contains(
                #[trigger] self.answers@[i]@,
            )
    }

    /// The answers, in list order.
    pub closed spec fn answer_words(&self) -> Seq<Seq<char>> {
        views(self.answers@)
    }

    /// The accepted guesses, in list order.
    pub closed spec fn guess_words(&self) -> Seq<Seq<char>> {
        views(self.guesses@)
    }

    /// The lexicon of a list of answers and a list of further accepted guesses;
    /// the accepted guesses are the further ones, then the answers.
    pub fn from_lists(answers: Vec<String>, allowed: Vec<String>) -> (r: Lexicon)
        ensures
            r.wf(),
            r.answer_words() == views(answers@),
            r.guess_words() == views(allowed@) + views(answers@),
    {
        let mut guesses = allowed;
        let mut taken = answers.clone();
        let ghost g = guesses@;
        guesses.append(&mut taken);
        assert(views(guesses@) =~= views(g) + views(answers@)) by {
            assert(taken@ == Seq::<String>::empty());
        }
        proof {
            assert forall|i: int| 0 <= i < answers@.len() implies views(guesses@).contains(
                #[trigger] answers@[i]@,
            ) by {
                assert(views(guesses@)[g.len() + i] == answers@[i]@);
            }
        }
        Lexicon { answers, guesses }
    }

    /// The lexicon of the texts of the answer list and the guess list.
    pub fn load(answers_text: &str, guesses_text: &str) -> (r: Lexicon)
        ensures
            r.wf(),
            r.answer_words() == lines_of(answers_text@),
            r.guess_words() == lines_of(guesses_text@) + lines_of(answers_text@),
    {
        Lexicon::from_lists(get_answers(answers_text), word_list(guesses_text))
    }

    /// The answers.
    pub fn answers(&self) -> (r: &Vec<String>)
        ensures
            views(r@) == self.answer_words(),
    {
        &self.answers
    }

    /// The accepted guesses.
    pub fn guesses(&self) -> (r: &Vec<String>)
        ensures
            views(r@) == self.guess_words(),
    {
        &self.guesses
    }

    /// Every answer is an accepted guess.
    pub proof fn law_answers_are_guesses(&self)
        requires
            self.wf(),
        ensures
            forall|w: Seq<char>| #[trigger]
                self.answer_words().contains(w) ==> self.guess_words().contains(w),
    {
        assert forall|w: Seq<char>| #[trigger]
            self.answer_words().contains(w) implies self.guess_words().contains(w) by {
            let i = choose|i: int|
                0 <= i < self.answer_words().len() && self.answer_words()[i] == w;
            assert(self.answers@[i]@ == w);
        }
    }

    /// Whether `word` is an accepted guess.
    pub fn is_valid_guess(&self, word: &str) -> (r: bool)
        ensures
            r == self.guess_words().contains(word@),
    {
        contains_word(&self.guesses, word)
    }

    /// The check of a guess: too short, too long, not accepted, or fine.
    pub fn validate(&self, guess: &str) -> (r: Result<(), ValidationError>)
        ensures
            r == verdict(self.guess_words(), guess@),
    {
        check_guess(&self.guesses, guess)
    }

    /// A secret drawn at random from the answers; `None` when there are none.
    pub fn pick_secret(&self) -> (r: Option<String>)
        requires
            self.wf(),
        ensures
            r is None <==> self.answer_words().len() == 0,
            r matches Some(w) ==> self.answer_words().contains(w@) && self.guess_words().contains(
                w@,
            ),
    {
        proof {
            self.law_answers_are_guesses();
        }
        match choose_word(&self.answers) {
            None => None,
            Some(w) => {
                let secret = w.clone();
                proof {
                    let i = choose|i: int| 0 <= i < self.answers@.len() && self.answers@[i] == *w;
                    assert(self.answer_words()[i] == secret@);
                }
                Some(secret)
            },
        }
    }
}

} // verus!
