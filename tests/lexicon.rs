use search_game::lexicon::{
    check_guess, contains_word, get_answers, get_guesses, maybe_error, Lexicon, ValidationError,
};

fn words(list: &[&str]) -> Vec<String> {
    list.iter().map(|w| w.to_string()).collect()
}

fn sample() -> Lexicon {
    Lexicon::from_lists(words(&["ABBEY", "SPEED"]), words(&["BABES", "ERASE", "CRANE"]))
}

#[test]
fn guess_of_four_letters_is_too_short() {
    assert_eq!(sample().validate("ABBE"), Err(ValidationError::TooShort));
}

#[test]
fn guess_of_six_letters_is_too_long() {
    assert_eq!(sample().validate("ABBEYS"), Err(ValidationError::TooLong));
}

#[test]
fn unknown_word_is_not_in_wordlist() {
    assert_eq!(sample().validate("ZZZZZ"), Err(ValidationError::NotInWordlist));
}

#[test]
fn known_words_are_accepted() {
    let lexicon = sample();
    assert_eq!(lexicon.validate("CRANE"), Ok(()));
    assert_eq!(lexicon.validate("ABBEY"), Ok(()));
    assert!(lexicon.is_valid_guess("SPEED"));
    assert!(!lexicon.is_valid_guess("SPEE"));
}

#[test]
fn empty_guess_is_too_short() {
    assert_eq!(sample().validate(""), Err(ValidationError::TooShort));
}

#[test]
fn messages() {
    let list = words(&["CRANE"]);
    assert_eq!(maybe_error(&list, "CRAN"), Some("less than 5 characters".to_string()));
    assert_eq!(maybe_error(&list, "CRANES"), Some("greater than 5 characters".to_string()));
    assert_eq!(maybe_error(&list, "BRINE"), Some("not in wordlist".to_string()));
    assert_eq!(maybe_error(&list, "CRANE"), None);
    assert_eq!(check_guess(&list, "CRANE"), Ok(()));
    assert_eq!(ValidationError::TooLong.message(), "greater than 5 characters");
}

#[test]
fn contains_word_looks_at_every_word() {
    let list = words(&["ONE", "TWO", "THREE"]);
    assert!(contains_word(&list, "THREE"));
    assert!(contains_word(&list, "ONE"));
    assert!(!contains_word(&list, "FOUR"));
    assert!(!contains_word(&[].to_vec(), "ONE"));
}

#[test]
fn guesses_are_the_guess_list_then_the_answers() {
    let lexicon = sample();
    assert_eq!(lexicon.answers(), &words(&["ABBEY", "SPEED"]));
    assert_eq!(
        lexicon.guesses(),
        &words(&["BABES", "ERASE", "CRANE", "ABBEY", "SPEED"])
    );
    assert_eq!(
        get_guesses("ABBEY\nSPEED\n", "BABES\nERASE\n"),
        words(&["BABES", "ERASE", "ABBEY", "SPEED"])
    );
}

#[test]
fn answers_are_read_one_per_line() {
    assert_eq!(get_answers("ABBEY\r\nSPEED\r\n"), words(&["ABBEY", "SPEED"]));
    assert_eq!(get_answers("ABBEY\nSPEED"), words(&["ABBEY", "SPEED"]));
    assert_eq!(get_answers(""), Vec::<String>::new());
    assert_eq!(get_answers("\n\nA\n"), words(&["", "", "A"]));
    assert_eq!(get_answers("AB\r"), words(&["AB\r"]));
}

#[test]
fn load_reads_both_lists() {
    let lexicon = Lexicon::load("ABBEY\nSPEED\n", "CRANE\n");
    assert_eq!(lexicon.answers(), &words(&["ABBEY", "SPEED"]));
    assert_eq!(lexicon.guesses(), &words(&["CRANE", "ABBEY", "SPEED"]));
}

#[test]
fn picked_secret_is_an_answer_and_a_guess() {
    let lexicon = sample();
    for _ in 0..50 {
        let secret = lexicon.pick_secret().unwrap();
        assert!(lexicon.answers().contains(&secret));
        assert!(lexicon.guesses().contains(&secret));
    }
}

#[test]
fn picked_secrets_vary() {
    let lexicon = Lexicon::from_lists(words(&["ABBEY", "SPEED", "CRANE"]), vec![]);
    let first = lexicon.pick_secret().unwrap();
    let mut other = false;
    for _ in 0..200 {
        if lexicon.pick_secret().unwrap() != first {
            other = true;
        }
    }
    assert!(other);
}

#[test]
fn no_answers_no_secret() {
    let lexicon = Lexicon::from_lists(vec![], words(&["CRANE"]));
    assert_eq!(lexicon.pick_secret(), None);
}
