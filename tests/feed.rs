use search_game::feed::{answer_guess, game_feed};
use search_game::lexicon::Lexicon;
use search_game::text::split_on;

fn sample() -> Lexicon {
    Lexicon::from_lists(
        vec!["ABBEY".to_string(), "SPEED".to_string()],
        vec!["BABES".to_string(), "ERASE".to_string(), "CRANE".to_string()],
    )
}

#[test]
fn one_line_per_guess() {
    let lines = game_feed(&sample(), "ABBEY", "BABES CRANE.ABBEY");
    assert_eq!(
        lines,
        vec![
            "BABES | 🟨🟨🟩🟩⬜".to_string(),
            "CRANE | ⬜⬜🟨⬜🟨".to_string(),
            "ABBEY | CORRECT! ✅".to_string(),
        ]
    );
}

#[test]
fn errors_are_reported_per_guess() {
    let lines = game_feed(&sample(), "SPEED", "ERASE ABC ABBEYS ZZZZZ");
    assert_eq!(
        lines,
        vec![
            "ERASE | 🟨⬜⬜🟨🟨".to_string(),
            "ABC | ERROR: less than 5 characters".to_string(),
            "ABBEYS | ERROR: greater than 5 characters".to_string(),
            "ZZZZZ | ERROR: not in wordlist".to_string(),
        ]
    );
}

#[test]
fn empty_query_is_one_empty_guess() {
    assert_eq!(
        game_feed(&sample(), "SPEED", ""),
        vec![" | ERROR: less than 5 characters".to_string()]
    );
}

#[test]
fn doubled_separator_gives_empty_guess() {
    let lines = game_feed(&sample(), "SPEED", "SPEED  ");
    assert_eq!(lines.len(), 3);
    assert_eq!(lines[0], "SPEED | CORRECT! ✅");
    assert_eq!(lines[1], " | ERROR: less than 5 characters");
}

#[test]
fn single_guess_line() {
    assert_eq!(answer_guess(&sample(), "ABBEY", "BABES"), "BABES | 🟨🟨🟩🟩⬜");
}

#[test]
fn split_keeps_empty_pieces() {
    let seps = vec!['.', ' '];
    assert_eq!(split_on("a.b c", &seps), vec!["a", "b", "c"]);
    assert_eq!(split_on("", &seps), vec![""]);
    assert_eq!(split_on(".", &seps), vec!["", ""]);
    assert_eq!(split_on("ab", &vec![]), vec!["ab"]);
}
