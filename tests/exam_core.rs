use exam::{
    check_answers, derive_correctness, evaluate, evaluate_multi, evaluate_single, load_bank,
    option_label, option_text, parse_row, record_wrong, score, Bank, Cell, MalformedRowError,
    Question, RowFault, SessionError, SessionState, Status, WrongRecord,
};

fn text(s: &str) -> Cell {
    Cell::Text(s.to_string())
}

fn question(id: &str, options: &[&str], spec: &str) -> Question {
    Question {
        id: id.to_string(),
        options: options.iter().map(|o| o.to_string()).collect(),
        correct_spec: spec.to_string(),
    }
}

fn bank_of(questions: Vec<Question>) -> Bank {
    let mut bank = Bank::new();
    for q in questions {
        bank.insert(q);
    }
    bank
}

fn three_single() -> Bank {
    bank_of(vec![
        question("q1", &["a", "b", "c"], "A"),
        question("q2", &["a", "b", "c"], "B"),
        question("q3", &["a", "b", "c"], "C"),
    ])
}

#[test]
fn one_char_answer_is_single_select() {
    let row = vec![text("Q"), text("x"), Cell::Empty, text("y"), text("C")];
    let q = parse_row(&row).unwrap();
    assert!(q.single_select());
    assert_eq!(q.correct_spec, "C");
    let multi = parse_row(&vec![text("Q"), text("x"), text("y"), text("AB")]).unwrap();
    assert!(!multi.single_select());
}

#[test]
fn correctness_of_ac_over_four_options() {
    let q = question("Pick", &["X", "Y", "Z", "W"], "AC");
    assert_eq!(derive_correctness(&q), vec![true, false, true, false]);
    assert!(evaluate_multi(&q, &vec![true, false, true, false]));
    assert!(!evaluate_multi(&q, &vec![true, true, true, false]));
    assert!(!evaluate_multi(&q, &vec![true, false]));
}

#[test]
fn unknown_letters_set_no_flag() {
    let q = question("Pick", &["X", "Y", "Z"], "AZ?");
    assert_eq!(derive_correctness(&q), vec![true, false, false]);
}

#[test]
fn score_counts_right_choices_and_records_wrong_ones() {
    let bank = three_single();
    let mut session = SessionState::new(&bank);
    let mut wrong = WrongRecord::new();
    assert_eq!(session.select_single(&bank, "q1", 'A'), Ok(()));
    assert_eq!(session.select_single(&bank, "q2", 'C'), Ok(()));
    assert_eq!(score(&bank, &session), 1);
    assert_eq!(check_answers(&bank, &session, &mut wrong), 1);
    assert_eq!(wrong.len(), 1);
    assert!(wrong.contains("q2"));
    assert!(!wrong.contains("q1"));
    assert!(!wrong.contains("q3"));
    assert_eq!(wrong.ids(), vec!["q2".to_string()]);
}

#[test]
fn wrong_record_keeps_corrected_question() {
    let bank = three_single();
    let mut session = SessionState::new(&bank);
    let mut wrong = WrongRecord::new();
    session.select_single(&bank, "q1", 'A').unwrap();
    session.select_single(&bank, "q2", 'C').unwrap();
    check_answers(&bank, &session, &mut wrong);
    assert!(wrong.contains("q2"));
    session.select_single(&bank, "q2", 'B').unwrap();
    assert!(wrong.contains("q2"));
    assert_eq!(check_answers(&bank, &session, &mut wrong), 2);
    assert!(wrong.contains("q2"));
    assert_eq!(wrong.len(), 1);
}

#[test]
fn loader_round_trip() {
    let row = vec![text("Q1"), text("opt1"), text("opt2"), text("opt3"), text("B")];
    let q = parse_row(&row).unwrap();
    assert_eq!(q.id, "Q1");
    assert_eq!(q.options, vec!["opt1".to_string(), "opt2".to_string(), "opt3".to_string()]);
    assert_eq!(q.correct_spec, "B");
}

#[test]
fn windowed_second_page() {
    let mut qs = Vec::new();
    for k in 1..=120 {
        qs.push(question(&format!("q{}", k), &["a", "b"], "A"));
    }
    let bank = bank_of(qs);
    assert_eq!(bank.size(), 120);
    let page = bank.windowed(50, 50);
    assert_eq!(page.len(), 50);
    for (j, q) in page.iter().enumerate() {
        assert_eq!(q.id, format!("q{}", 51 + j));
    }
    let last = bank.windowed(100, 50);
    assert_eq!(last.len(), 20);
    assert_eq!(last[0].id, "q101");
    assert_eq!(bank.windowed(500, 50).len(), 0);
}

#[test]
fn toggle_past_last_option_is_refused() {
    let bank = bank_of(vec![question("m", &["a", "b", "c", "d"], "AB")]);
    let mut session = SessionState::new(&bank);
    assert_eq!(session.toggle_multi_option(&bank, "m", 9), Err(SessionError::IndexOutOfRange));
    assert!(matches!(session.status(&bank, "m"), Ok(Status::Unanswered)));
    assert_eq!(session.toggle_multi_option(&bank, "m", 1), Ok(()));
    assert_eq!(session.toggle_multi_option(&bank, "m", 9), Err(SessionError::IndexOutOfRange));
    assert_eq!(session.toggle_multi_option(&bank, "m", 4), Err(SessionError::IndexOutOfRange));
    match session.status(&bank, "m") {
        Ok(Status::Multi(v)) => assert_eq!(*v, vec![false, true, false, false]),
        _ => panic!("expected a multi-select status"),
    }
}

#[test]
fn toggle_twice_clears_flag() {
    let bank = bank_of(vec![question("m", &["a", "b", "c"], "AC")]);
    let mut session = SessionState::new(&bank);
    session.toggle_multi_option(&bank, "m", 0).unwrap();
    session.toggle_multi_option(&bank, "m", 2).unwrap();
    assert!(evaluate(bank.at(0), session.status_at(0)));
    session.toggle_multi_option(&bank, "m", 2).unwrap();
    match session.status_at(0) {
        Status::Multi(v) => assert_eq!(*v, vec![true, false, false]),
        _ => panic!("expected a multi-select status"),
    }
    assert!(!evaluate(bank.at(0), session.status_at(0)));
}

#[test]
fn unknown_id_is_not_found() {
    let bank = three_single();
    let mut session = SessionState::new(&bank);
    assert_eq!(session.select_single(&bank, "nope", 'A'), Err(SessionError::NotFound));
    assert_eq!(session.toggle_multi_option(&bank, "nope", 0), Err(SessionError::NotFound));
    assert!(matches!(session.status(&bank, "nope"), Err(SessionError::NotFound)));
    assert!(bank.get("nope").is_none());
    assert_eq!(bank.find("q3"), Some(2));
}

#[test]
fn unanswered_and_multi_do_not_score() {
    let bank = bank_of(vec![
        question("s", &["a", "b"], "A"),
        question("m", &["a", "b"], "AB"),
    ]);
    let mut session = SessionState::new(&bank);
    let mut wrong = WrongRecord::new();
    assert!(!evaluate(bank.at(0), session.status_at(0)));
    session.toggle_multi_option(&bank, "m", 0).unwrap();
    session.toggle_multi_option(&bank, "m", 1).unwrap();
    assert!(evaluate(bank.at(1), session.status_at(1)));
    assert_eq!(check_answers(&bank, &session, &mut wrong), 0);
    assert_eq!(wrong.len(), 0);
}

#[test]
fn evaluate_single_needs_exact_label() {
    let q = question("s", &["a", "b"], "B");
    assert!(evaluate_single(&q, 'B'));
    assert!(!evaluate_single(&q, 'A'));
    let multi = question("m", &["a", "b"], "AB");
    assert!(!evaluate_single(&multi, 'A'));
}

#[test]
fn option_text_joins_options_and_answer() {
    let q = question("Q1", &["opt1", "opt2", "opt3"], "B");
    assert_eq!(option_text(&q), "opt1\nopt2\nopt3\nB");
    let bare = question("Q0", &[], "A");
    assert_eq!(option_text(&bare), "\nA");
}

#[test]
fn record_wrong_keeps_first_text() {
    let mut wrong = WrongRecord::new();
    let q = question("Q1", &["opt1", "opt2"], "B");
    record_wrong(&mut wrong, &q, 'B');
    assert_eq!(wrong.len(), 0);
    record_wrong(&mut wrong, &q, 'A');
    assert_eq!(wrong.get("Q1"), Some(&"opt1\nopt2\nB".to_string()));
    let changed = question("Q1", &["other"], "A");
    record_wrong(&mut wrong, &changed, 'B');
    assert_eq!(wrong.len(), 1);
    assert_eq!(wrong.get("Q1"), Some(&"opt1\nopt2\nB".to_string()));
    assert_eq!(wrong.get("Q2"), None);
}

#[test]
fn short_rows_are_malformed() {
    assert_eq!(parse_row(&vec![text("Q"), Cell::Empty]).err(), Some(RowFault::TooFewCells));
    assert_eq!(parse_row(&vec![]).err(), Some(RowFault::TooFewCells));
    assert_eq!(parse_row(&vec![Cell::Empty, text("Q"), Cell::Empty, text("A")]).unwrap().options.len(), 0);
}

#[test]
fn non_text_cell_is_malformed() {
    let row = vec![text("Q"), Cell::Other, text("b"), text("A")];
    assert_eq!(parse_row(&row).err(), Some(RowFault::NotText));
    let row = vec![text("Q"), text("a"), Cell::Other];
    assert_eq!(parse_row(&row).err(), Some(RowFault::NotText));
}

#[test]
fn more_than_eight_options_is_malformed() {
    let mut row = vec![text("Q")];
    for k in 0..9 {
        row.push(text(&format!("o{}", k)));
    }
    row.push(text("A"));
    assert_eq!(parse_row(&row).err(), Some(RowFault::TooManyOptions));
    row.remove(1);
    assert_eq!(parse_row(&row).unwrap().options.len(), 8);
}

#[test]
fn load_skips_header_and_keeps_order() {
    let rows = vec![
        vec![text("question"), text("a"), text("b"), text("answer")],
        vec![text("Q1"), text("x"), text("y"), text("A")],
        vec![text("Q2"), text("x"), text("y"), text("AB")],
        vec![text("Q1"), text("u"), text("v"), text("B")],
    ];
    let bank = load_bank(&rows).unwrap();
    assert_eq!(bank.size(), 2);
    assert_eq!(bank.at(0).id, "Q1");
    assert_eq!(bank.at(0).correct_spec, "B");
    assert_eq!(bank.at(0).options, vec!["u".to_string(), "v".to_string()]);
    assert_eq!(bank.at(1).id, "Q2");
    assert_eq!(bank.get("Q2").unwrap().correct_spec, "AB");
}

#[test]
fn load_stops_at_first_bad_row() {
    let rows = vec![
        vec![text("header")],
        vec![text("Q1"), text("x"), text("A")],
        vec![text("Q2")],
        vec![text("Q3"), Cell::Other, text("A")],
    ];
    assert_eq!(load_bank(&rows).err(), Some(MalformedRowError { row: 2, fault: RowFault::TooFewCells }));
    assert_eq!(load_bank(&vec![]).unwrap().size(), 0);
    assert_eq!(load_bank(&vec![vec![text("only header")]]).unwrap().size(), 0);
}

#[test]
fn labels_run_a_to_h() {
    assert_eq!(option_label(0), 'A');
    assert_eq!(option_label(3), 'D');
    assert_eq!(option_label(7), 'H');
}
