//! A five-letter word-guessing game: per-letter clues for a guess against a
//! secret word, guess validation against a word list, and the text feed that
//! answers a line of guesses.

pub mod clue;
pub mod feed;
pub mod lexicon;
pub mod text;
