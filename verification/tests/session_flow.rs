use ulang::deck::parse;
use ulang::session::{LoadError, Session, SessionState};

fn one_entry_deck() -> &'static str {
    r#"{ "languages": ["English", "French"],
        "entries": [ { "term0": "yes", "term1": "oui", "class": "Adverb" } ] }"#
}

fn six_entry_deck() -> &'static str {
    r#"{ "languages": ["English", "French"],
        "entries": [
          { "term0": "one", "term1": "un", "class": "Adverb" },
          { "term0": "two", "term1": "deux", "class": "Adverb" },
          { "term0": "three", "term1": "trois", "class": "Adverb" },
          { "term0": "four", "term1": "quatre", "class": "Adverb" },
          { "term0": "five", "term1": "cinq", "class": "Adverb" },
          { "term0": "six", "term1": "six", "class": "Adverb" }
        ] }"#
}

fn terms_in_order(s: &Session) -> Vec<String> {
    s.entries.iter().map(|e| e.term0.clone()).collect()
}

fn terms_sorted(s: &Session) -> Vec<String> {
    let mut v = terms_in_order(s);
    v.sort();
    v
}

#[test]
fn new_session_awaits_an_answer_over_the_default_deck() {
    let s = Session::new();
    assert!(matches!(s.state, SessionState::AwaitingAnswer));
    assert_eq!(s.current, Some(0));
    assert_eq!(s.entries.len(), 6);
    assert_eq!(s.lang0, "English");
    assert_eq!(s.lang1, "French");
    assert_eq!(s.total_sum, 0);
    assert_eq!(s.count, 6);
    assert_eq!(s.last_score, 0);
    assert!(s.error.is_none());
    let sorted = terms_sorted(&s);
    assert_eq!(
        sorted,
        vec!["no", "the rust", "the solution", "the work", "to rise", "yes"]
    );
    let mut others: Vec<String> = s.entries.iter().map(|e| e.term1.clone()).collect();
    others.sort();
    assert_eq!(
        others,
        vec!["la rouille", "la solution", "le travail", "non", "oui", "s'élever"]
    );
}

#[test]
fn single_entry_scenario_runs_to_finished() {
    // Deck of one adverb pair ("yes", "oui"): the prompt is the slot-1
    // term; grading compares the answer against slot 0.
    let mut s = Session::new();
    let deck = parse(one_entry_deck()).expect("deck should parse");
    s.load_deck(deck);
    assert!(matches!(s.state, SessionState::AwaitingAnswer));
    assert_eq!(s.current, Some(0));
    assert_eq!(s.count, 1);

    s.set_answer("yes".to_string());
    s.submit_answer();
    assert_eq!(s.last_score, 100);
    assert!(matches!(s.state, SessionState::Correcting));
    assert_eq!(s.current, Some(0));

    s.advance();
    assert!(matches!(s.state, SessionState::Finished));
    assert_eq!(s.current, None);
    assert_eq!(s.total_sum, 100);
    assert_eq!(s.count, 1);
}

#[test]
fn grading_compares_against_the_other_slot() {
    // Submitting the prompt itself — the slot-1 term — earns nothing.
    let mut s = Session::new();
    let deck = parse(one_entry_deck()).expect("deck should parse");
    s.load_deck(deck);
    s.set_answer("oui".to_string());
    s.submit_answer();
    assert_eq!(s.last_score, 0);
    assert!(matches!(s.state, SessionState::Correcting));
}

#[test]
fn running_total_is_the_sum_of_last_scores() {
    let mut s = Session::new();
    let deck = parse(six_entry_deck()).expect("deck should parse");
    s.load_deck(deck);
    let mut expected_sum: u128 = 0;
    for k in 0..6 {
        assert!(matches!(s.state, SessionState::AwaitingAnswer));
        // Answer the first three correctly, botch the rest.
        let answer = if k < 3 {
            s.entries[k].term0.clone()
        } else {
            "wrong".to_string()
        };
        s.set_answer(answer);
        s.submit_answer();
        expected_sum += s.last_score as u128;
        assert_eq!(s.total_sum, expected_sum);
        // The total's count is the deck size whatever has been submitted.
        assert_eq!(s.count, 6);
        s.advance();
    }
    assert!(matches!(s.state, SessionState::Finished));
    assert_eq!(s.total_sum, 300);
}

#[test]
fn transitions_outside_their_state_are_no_ops() {
    let mut s = Session::new();
    // advance() while awaiting an answer: nothing moves.
    let before = (s.current, terms_in_order(&s), s.total_sum, s.last_score);
    s.advance();
    assert!(matches!(s.state, SessionState::AwaitingAnswer));
    assert_eq!(
        (s.current, terms_in_order(&s), s.total_sum, s.last_score),
        before
    );

    // submit_answer() while correcting: nothing moves either.
    s.set_answer("whatever".to_string());
    s.submit_answer();
    assert!(matches!(s.state, SessionState::Correcting));
    let mid = (s.current, s.total_sum, s.last_score);
    s.submit_answer();
    assert!(matches!(s.state, SessionState::Correcting));
    assert_eq!((s.current, s.total_sum, s.last_score), mid);
}

#[test]
fn submit_after_finish_is_a_no_op() {
    let mut s = Session::new();
    let deck = parse(one_entry_deck()).expect("deck should parse");
    s.load_deck(deck);
    s.set_answer("yes".to_string());
    s.submit_answer();
    s.advance();
    assert!(matches!(s.state, SessionState::Finished));
    s.set_answer("again".to_string());
    s.submit_answer();
    assert!(matches!(s.state, SessionState::Finished));
    assert_eq!(s.total_sum, 100);
}

#[test]
fn restart_reshuffles_but_preserves_the_entries() {
    let mut s = Session::new();
    let deck = parse(six_entry_deck()).expect("deck should parse");
    s.load_deck(deck);
    let sorted = terms_sorted(&s);
    let initial_order = terms_in_order(&s);
    let mut saw_other_order = false;
    for _ in 0..50 {
        s.restart();
        assert_eq!(terms_sorted(&s), sorted);
        assert!(matches!(s.state, SessionState::AwaitingAnswer));
        assert_eq!(s.current, Some(0));
        assert_eq!(s.total_sum, 0);
        if terms_in_order(&s) != initial_order {
            saw_other_order = true;
        }
    }
    // 50 uniform shuffles of six entries repeat the same order with
    // probability (1/720)^50: some trial must differ.
    assert!(saw_other_order);
}

#[test]
fn restart_resets_progress_mid_round() {
    let mut s = Session::new();
    s.set_answer("whatever".to_string());
    s.submit_answer();
    s.advance();
    s.restart();
    assert!(matches!(s.state, SessionState::AwaitingAnswer));
    assert_eq!(s.current, Some(0));
    assert_eq!(s.total_sum, 0);
    assert_eq!(s.last_score, 0);
    assert_eq!(s.answer, "");
    assert_eq!(s.count, 6);
}

#[test]
fn failed_parse_keeps_the_active_deck() {
    let mut s = Session::new();
    let deck = parse(one_entry_deck()).expect("deck should parse");
    s.load_deck(deck);
    let order = terms_in_order(&s);

    // An entry missing its class tag: the load records ParseError and
    // the quiz goes on unchanged.
    let malformed =
        r#"{ "languages": ["a", "b"], "entries": [ { "term0": "x", "term1": "y" } ] }"#;
    s.handle_load(Ok(malformed.to_string()));
    assert_eq!(s.error, Some(LoadError::ParseError));
    assert_eq!(terms_in_order(&s), order);
    assert_eq!(s.lang0, "English");
    assert_eq!(s.count, 1);

    // The retained deck is still playable.
    s.set_answer("yes".to_string());
    s.submit_answer();
    assert_eq!(s.last_score, 100);
}

#[test]
fn successful_load_clears_the_error() {
    let mut s = Session::new();
    s.handle_load(Err(LoadError::IoError));
    assert_eq!(s.error, Some(LoadError::IoError));
    s.handle_load(Ok(one_entry_deck().to_string()));
    assert!(s.error.is_none());
    assert_eq!(s.count, 1);
    assert_eq!(s.entries[0].term0, "yes");
}

#[test]
fn cancelled_dialog_changes_nothing() {
    let mut s = Session::new();
    s.handle_load(Err(LoadError::IoError));
    assert_eq!(s.error, Some(LoadError::IoError));
    let order = terms_in_order(&s);
    // Cancellation must not overwrite the stored error nor the deck.
    s.handle_load(Err(LoadError::DialogClosed));
    assert_eq!(s.error, Some(LoadError::IoError));
    assert_eq!(terms_in_order(&s), order);
}

#[test]
fn current_entry_follows_the_cursor() {
    let mut s = Session::new();
    let deck = parse(one_entry_deck()).expect("deck should parse");
    s.load_deck(deck);
    assert_eq!(s.current_entry().map(|e| e.term1.clone()), Some("oui".to_string()));
    s.set_answer("yes".to_string());
    s.submit_answer();
    s.advance();
    assert!(s.current_entry().is_none());
}

#[test]
fn answer_buffer_is_cleared_on_advance() {
    let mut s = Session::new();
    s.set_answer("something".to_string());
    assert_eq!(s.answer, "something");
    s.submit_answer();
    assert_eq!(s.answer, "something");
    s.advance();
    assert_eq!(s.answer, "");
}
