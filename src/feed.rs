//! The answer to a line of guesses: one line of text for each guess.

use crate::clue::{Mark, clue_of, evaluate};
use crate::lexicon::{Lexicon, verdict, message_of, WORD_LEN};
use crate::text::{push_char, split_on, pieces, one_of, views};
use vstd::prelude::*;

verus! {

/// The square that shows a mark: green, yellow or white.
pub open spec fn symbol(m: Mark) -> char {
    match m {
        Mark::Exact => '\u{1F7E9}',
        Mark::Present => '\u{1F7E8}',
        Mark::Absent => '\u{2B1C}',
    }
}

/// A clue as squares, in guess order, with nothing between them.
pub open spec fn rendered(marks: Seq<Mark>) -> Seq<char> {
    Seq::new(marks.len(), |i: int| symbol(marks[i]))
}

/// Whether a clue is exact at every position of a word.
pub open spec fn solved(marks: Seq<Mark>) -> bool {
    marks == Seq::new(WORD_LEN as nat, |i: int| Mark::Exact)
}

/// The guesses of a query: the pieces between spaces and full stops.
pub open spec fn guesses_of(query: Seq<char>) -> Seq<Seq<char>> {
    pieces(query, one_of(seq!['.', ' ']))
}

/// The line that answers one guess: the error that turned it away, the win, or
/// its clue.
pub open spec fn feed_line(accepted: Seq<Seq<char>>, secret: Seq<char>, guess: Seq<char>) -> Seq<
    char,
> {
    match verdict(accepted, guess) {
        Err(e) => guess + " | ERROR: "@ + message_of(e),
        Ok(()) => if solved(clue_of(secret, guess)) {
            guess + " | CORRECT! \u{2705}"@
        } else {
            guess + " | "@ + rendered(clue_of(secret, guess))
        },
    }
}

/// The lines that answer a query, one for each of its guesses.
pub open spec fn feed(accepted: Seq<Seq<char>>, secret: Seq<char>, query: Seq<char>) -> Seq<
    Seq<char>,
> {
    guesses_of(query).map_values(|g: Seq<char>| feed_line(accepted, secret, g))
}

fn symbol_char(m: Mark) -> (r: char)
    ensures
        r == symbol(m),
{
    match m {
        Mark::Exact => '\u{1F7E9}',
        Mark::Present => '\u{1F7E8}',
        Mark::Absent => '\u{2B1C}',
    }
}

/// A clue as squares.
pub fn render(marks: &Vec<Mark>) -> (r: String)
    ensures
        r@ == rendered(marks@),
{
    let mut r = String::new();
    for i in 0..marks.len()
        invariant
            r@ == rendered(marks@.take(i as int)),
    {
        push_char(&mut r, symbol_char(marks[i]));
        assert(rendered(marks@.take(i + 1)) =~= rendered(marks@.take(i as int)).push(
            symbol(marks@[i as int]),
        ));
    }
    assert(marks@.take(marks@.len() as int) =~= marks@);
    r
}

/// The clue of `guess` against the secret `word`, as squares.
pub fn to_result(guess: &str, word: &str) -> (r: String)
    requires
        guess@.len() == word@.len(),
    ensures
        r@ == rendered(clue_of(word@, guess@)),
{
    render(&evaluate(word, guess))
}

fn is_solved(marks: &Vec<Mark>) -> (r: bool)
    ensures
        r == solved(marks@),
{
    if marks.len() != WORD_LEN {
        return false;
    }
    let mut i: usize = 0;
    while i < marks.len()
        invariant
            marks@.len() == WORD_LEN,
            i <= marks@.len(),
            forall|j: int| 0 <= j < i ==> marks@[j] == Mark::Exact,
        decreases marks@.len() - i,
    {
        if marks[i] != Mark::Exact {
            assert(marks@[i as int] != Seq::new(WORD_LEN as nat, |i: int| Mark::Exact)[i as int]);
            return false;
        }
        i = i + 1;
    }
    assert(marks@ =~= Seq::new(WORD_LEN as nat, |i: int| Mark::Exact));
    true
}

/// The line that answers one guess against a secret of a word's length.
pub fn answer_guess(lexicon: &Lexicon, secret: &str, guess: &str) -> (r: String)
    requires
        secret@.len() == WORD_LEN,
    ensures
        r@ == feed_line(lexicon.guess_words(), secret@, guess@),
{
    let mut line = guess.to_owned();
    match lexicon.validate(guess) {
        Err(e) => {
            line.append(" | ERROR: ");
            let m = e.message();
            line.append(m.as_str());
        },
        Ok(()) => {
            let marks = evaluate(secret, guess);
            if is_solved(&marks) {
                line.append(" | CORRECT! \u{2705}");
            } else {
                line.append(" | ");
                let squares = render(&marks);
                line.append(squares.as_str());
            }
        },
    }
    line
}

/// The lines that answer a query of guesses separated by spaces or full stops,
/// one for each guess, in order.
pub fn game_feed(lexicon: &Lexicon, secret: &str, query: &str) -> (r: Vec<String>)
    requires
        secret@.len() == WORD_LEN,
    ensures
        views(r@) == feed(lexicon.guess_words(), secret@, query@),
{
    let separators = vec!['.', ' '];
    proof {
        assert(separators@ == seq!['.', ' ']);
    }
    let guesses = split_on(query, &separators);
    let ghost gs = guesses_of(query@);
    let mut lines: Vec<String> = Vec::new();
    for i in 0..guesses.len()
        invariant
            secret@.len() == WORD_LEN,
            views(guesses@) == gs,
            views(lines@) == gs.take(i as int).map_values(
                |g: Seq<char>| feed_line(lexicon.guess_words(), secret@, g),
            ),
    {
        let line = answer_guess(lexicon, secret, guesses[i].as_str());
        let ghost before = views(lines@);
        lines.push(line);
        proof {
            assert(views(lines@) =~= before.push(line@));
            assert(gs.take(i + 1).map_values(
                |g: Seq<char>| feed_line(lexicon.guess_words(), secret@, g),
            ) =~= gs.take(i as int).map_values(
                |g: Seq<char>| feed_line(lexicon.guess_words(), secret@, g),
            ).push(feed_line(lexicon.guess_words(), secret@, gs[i as int])));
        }
    }
    assert(gs.take(guesses@.len() as int) =~= gs);
    lines
}

} // verus!
