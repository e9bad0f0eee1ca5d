use search_game::clue::{evaluate, Mark};
use search_game::feed::{render, to_result};

use Mark::{Absent, Exact, Present};

fn count_credited(secret: &str, guess: &str, c: char) -> usize {
    let marks = evaluate(secret, guess);
    guess
        .chars()
        .zip(marks.iter())
        .filter(|(g, m)| *g == c && **m != Absent)
        .count()
}

#[test]
fn abbey_babes() {
    assert_eq!(
        evaluate("ABBEY", "BABES"),
        vec![Present, Present, Exact, Exact, Absent]
    );
}

#[test]
fn speed_erase() {
    assert_eq!(
        evaluate("SPEED", "ERASE"),
        vec![Present, Absent, Absent, Present, Present]
    );
}

#[test]
fn guess_equal_to_secret_is_all_exact() {
    for w in ["ABBEY", "SPEED", "CRANE", "AAAAA"] {
        assert_eq!(evaluate(w, w), vec![Exact; 5]);
    }
}

#[test]
fn no_common_letters_is_all_absent() {
    assert_eq!(evaluate("CRANE", "BOUGH"), vec![Absent; 5]);
    assert_eq!(evaluate("ABBEY", "SPOIL"), vec![Absent; 5]);
}

#[test]
fn order_matters() {
    let forward = evaluate("SPEED", "ERASE");
    let backward = evaluate("ERASE", "SPEED");
    assert_eq!(backward, vec![Present, Absent, Present, Present, Absent]);
    assert_ne!(forward, backward);
}

#[test]
fn credit_per_letter_is_smaller_count() {
    let cases = [
        ("SPEED", "ERASE"),
        ("ABBEY", "BABES"),
        ("ABBEY", "BBBBB"),
        ("EEEEE", "EERIE"),
        ("LLAMA", "ALLAY"),
    ];
    for (secret, guess) in cases {
        for c in "ABCDEILMPRSY".chars() {
            let in_secret = secret.chars().filter(|x| *x == c).count();
            let in_guess = guess.chars().filter(|x| *x == c).count();
            assert_eq!(
                count_credited(secret, guess, c),
                in_secret.min(in_guess),
                "{secret} {guess} {c}"
            );
        }
    }
}

#[test]
fn extra_copies_are_absent() {
    assert_eq!(
        evaluate("ABBEY", "BBBBB"),
        vec![Absent, Exact, Exact, Absent, Absent]
    );
}

#[test]
fn exact_match_never_downgraded() {
    assert_eq!(
        evaluate("CRANE", "EERIE"),
        vec![Absent, Absent, Present, Absent, Exact]
    );
}

#[test]
fn render_squares() {
    assert_eq!(render(&vec![Exact, Present, Absent]), "🟩🟨⬜");
    assert_eq!(render(&vec![]), "");
}

#[test]
fn to_result_abbey_babes() {
    assert_eq!(to_result("BABES", "ABBEY"), "🟨🟨🟩🟩⬜");
}

#[test]
fn to_result_win() {
    assert_eq!(to_result("CRANE", "CRANE"), "🟩🟩🟩🟩🟩");
}
