use finance_tracker_api::categorize::CategorizeError;
use finance_tracker_api::db::{CategorySummary, TransactionRow};
use finance_tracker_api::ledger::{Ledger, LedgerRow};
use finance_tracker_api::tui::{
    derive_pattern, finish_submission, handle_category, handle_filter, handle_key, perform, App,
    CategoryModal, InputMode, Key, ModalFocus, Screen, Submission,
};

fn txn(id: i64, description: &str) -> TransactionRow {
    TransactionRow {
        id,
        txn_date: "2024-01-05".to_string(),
        source: "amex".to_string(),
        description: description.to_string(),
        amount_cents: -100,
        category: None,
    }
}

fn summary(category: &str) -> CategorySummary {
    CategorySummary { category: category.to_string(), count: 1, total_cents: 0 }
}

fn rows() -> Vec<TransactionRow> {
    vec![txn(10, "AMAZON PRIME"), txn(20, "Weis"), txn(30, "amazon mktp"), txn(40, "GYM")]
}

fn app() -> App {
    App::new(rows(), vec![summary("A"), summary("B"), summary("C")], vec!["A".to_string()])
}

fn press(app: &mut App, keys: &str) {
    for c in keys.chars() {
        assert!(handle_key(app, Key::Char(c)).is_none());
    }
}

fn modal(app: &App) -> &CategoryModal {
    match app.input_mode() {
        InputMode::Category(m) => m,
        _ => panic!("no modal"),
    }
}

#[test]
fn the_application_starts_on_the_first_rows() {
    let a = app();
    assert_eq!(a.screen(), Screen::Transactions);
    assert_eq!(a.visible(), &vec![0, 1, 2, 3]);
    assert_eq!(a.txn_selected(), Some(0));
    assert_eq!(a.cat_selected(), Some(0));
    assert_eq!(a.selected_txn_id(), Some(10));
    assert_eq!(a.filter(), "");
    assert!(!a.should_quit());
    let empty = App::new(vec![], vec![], vec![]);
    assert_eq!((empty.txn_selected(), empty.cat_selected()), (None, None));
    assert!(empty.selected_txn().is_none());
}

#[test]
fn moves_stop_at_the_ends() {
    let mut a = app();
    press(&mut a, "jj");
    assert_eq!(a.txn_selected(), Some(2));
    press(&mut a, "k");
    assert_eq!(a.txn_selected(), Some(1));
    handle_key(&mut a, Key::PageDown);
    assert_eq!(a.txn_selected(), Some(3));
    handle_key(&mut a, Key::Down);
    assert_eq!(a.txn_selected(), Some(3));
    handle_key(&mut a, Key::PageUp);
    assert_eq!(a.txn_selected(), Some(0));
    handle_key(&mut a, Key::Up);
    assert_eq!(a.txn_selected(), Some(0));
    press(&mut a, "G");
    assert_eq!(a.txn_selected(), Some(3));
    press(&mut a, "g");
    assert_eq!(a.txn_selected(), Some(0));
    handle_key(&mut a, Key::End);
    handle_key(&mut a, Key::Home);
    assert_eq!(a.txn_selected(), Some(0));
    a.move_by(i64::MAX);
    assert_eq!(a.txn_selected(), Some(3));
    a.move_by(i64::MIN);
    assert_eq!(a.txn_selected(), Some(0));
    a.move_by(2);
    a.move_by(-2);
    assert_eq!(a.txn_selected(), Some(0));
}

#[test]
fn each_table_has_its_own_selection() {
    let mut a = app();
    press(&mut a, "j");
    handle_key(&mut a, Key::Tab);
    assert_eq!(a.screen(), Screen::Categories);
    press(&mut a, "G");
    assert_eq!((a.txn_selected(), a.cat_selected()), (Some(1), Some(2)));
    handle_key(&mut a, Key::BackTab);
    assert_eq!(a.screen(), Screen::Transactions);
    assert_eq!((a.txn_selected(), a.cat_selected()), (Some(1), Some(2)));
}

#[test]
fn a_stale_category_selection_is_settled_when_drawn() {
    let mut a = app();
    handle_key(&mut a, Key::Tab);
    press(&mut a, "G");
    a.reload(rows(), vec![summary("A")], vec![]);
    assert_eq!(a.cat_selected(), Some(2));
    a.categories_drawn(Some(0));
    assert_eq!(a.cat_selected(), Some(0));
}

#[test]
fn q_and_esc_quit_in_normal_mode_only() {
    let mut a = app();
    press(&mut a, "/q");
    assert!(!a.should_quit());
    assert_eq!(a.filter(), "q");
    handle_key(&mut a, Key::Esc);
    assert!(!a.should_quit());
    handle_key(&mut a, Key::Esc);
    assert!(a.should_quit());
    let mut b = app();
    press(&mut b, "q");
    assert!(b.should_quit());
}

#[test]
fn typing_narrows_the_visible_rows() {
    let mut a = app();
    press(&mut a, "G/AmAz");
    assert_eq!(a.visible(), &vec![0, 2]);
    assert_eq!(a.txn_selected(), Some(1));
    handle_key(&mut a, Key::Backspace);
    assert_eq!(a.filter(), "AmA");
    press(&mut a, "zz");
    assert_eq!(a.visible(), &Vec::<usize>::new());
    assert_eq!(a.txn_selected(), None);
    for _ in 0..9 {
        handle_key(&mut a, Key::Backspace);
    }
    assert_eq!(a.filter(), "");
    assert_eq!(a.visible().len(), 4);
    assert_eq!(a.txn_selected(), Some(0));
}

#[test]
fn esc_goes_back_to_the_filter_before_and_enter_commits() {
    let mut a = app();
    press(&mut a, "/amazon");
    handle_key(&mut a, Key::Enter);
    assert!(matches!(a.input_mode(), InputMode::Normal));
    assert_eq!(a.filter(), "amazon");
    press(&mut a, "/xyz");
    handle_key(&mut a, Key::Tab);
    handle_key(&mut a, Key::Esc);
    assert!(matches!(a.input_mode(), InputMode::Normal));
    assert_eq!(a.filter(), "amazon");
    assert_eq!(a.visible(), &vec![0, 2]);
    assert_eq!(a.screen(), Screen::Transactions);
}

#[test]
fn filter_and_modal_open_on_the_transaction_table_only() {
    let mut a = app();
    handle_key(&mut a, Key::Tab);
    press(&mut a, "/c");
    assert!(matches!(a.input_mode(), InputMode::Normal));
    let mut empty = App::new(vec![], vec![], vec![]);
    press(&mut empty, "c");
    assert!(matches!(empty.input_mode(), InputMode::Normal));
}

#[test]
fn the_modal_opens_on_the_selected_transaction() {
    let mut a = app();
    press(&mut a, "jjc");
    let m = modal(&a);
    assert_eq!(m.target_txn_id, 30);
    assert_eq!(m.pattern_input, "amazon mktp");
    assert_eq!(m.category_input, "");
    assert!(!m.apply_to_all);
    assert_eq!(m.focus, ModalFocus::Category);
    assert_eq!(m.error, None);
}

#[test]
fn the_focus_goes_round_the_fields_that_are_shown() {
    let mut m = CategoryModal::new(1, "p".to_string());
    m.cycle_focus(true);
    assert_eq!(m.focus, ModalFocus::Toggle);
    m.cycle_focus(true);
    assert_eq!(m.focus, ModalFocus::Category);
    m.cycle_focus(false);
    assert_eq!(m.focus, ModalFocus::Toggle);
    m.apply_to_all = true;
    for expected in [ModalFocus::Pattern, ModalFocus::Category, ModalFocus::Toggle] {
        m.cycle_focus(true);
        assert_eq!(m.focus, expected);
    }
    for expected in [ModalFocus::Category, ModalFocus::Pattern, ModalFocus::Toggle] {
        m.cycle_focus(false);
        assert_eq!(m.focus, expected);
    }
}

#[test]
fn keys_go_to_the_field_with_the_focus() {
    let mut a = app();
    press(&mut a, "cx y");
    handle_key(&mut a, Key::Backspace);
    assert_eq!(modal(&a).category_input, "x ");
    handle_key(&mut a, Key::Tab);
    press(&mut a, "z ");
    assert!(modal(&a).apply_to_all);
    handle_key(&mut a, Key::Tab);
    press(&mut a, "!");
    let m = modal(&a);
    assert_eq!(m.category_input, "x ");
    assert_eq!(m.pattern_input, "amazon prime!");
    assert_eq!(m.focus, ModalFocus::Pattern);
    assert_eq!(a.txn_selected(), Some(0));
    handle_key(&mut a, Key::Esc);
    assert!(matches!(a.input_mode(), InputMode::Normal));
    assert!(!a.should_quit());
}

#[test]
fn enter_asks_for_one_transaction() {
    let mut a = app();
    press(&mut a, "jc Food ");
    match handle_key(&mut a, Key::Enter) {
        Some(Submission::CategorizeOne { id, category }) => {
            assert_eq!((id, category.as_str()), (20, "Food"));
        }
        _ => panic!("wrong submission"),
    }
    assert!(matches!(a.input_mode(), InputMode::Category(_)));
    finish_submission(&mut a, None);
    assert!(matches!(a.input_mode(), InputMode::Normal));
}

#[test]
fn enter_asks_for_a_rule_when_all_are_meant() {
    let mut a = app();
    press(&mut a, "cFood");
    handle_key(&mut a, Key::Tab);
    press(&mut a, " ");
    match handle_key(&mut a, Key::Enter) {
        Some(Submission::AddRule { pattern, category }) => {
            assert_eq!((pattern.as_str(), category.as_str()), ("amazon prime", "Food"));
        }
        _ => panic!("wrong submission"),
    }
}

#[test]
fn incomplete_input_is_refused_with_a_message() {
    let mut a = app();
    press(&mut a, "c ");
    assert!(handle_key(&mut a, Key::Enter).is_none());
    assert_eq!(modal(&a).error.as_deref(), Some("Category cannot be empty"));
    press(&mut a, "x");
    assert_eq!(modal(&a).error, None);
    handle_key(&mut a, Key::Tab);
    press(&mut a, " ");
    handle_key(&mut a, Key::Tab);
    for _ in 0..20 {
        handle_key(&mut a, Key::Backspace);
    }
    assert!(handle_key(&mut a, Key::Enter).is_none());
    assert_eq!(
        modal(&a).error.as_deref(),
        Some("Pattern required when 'Apply to all' is on")
    );
    // Moving the focus and flipping the checkbox leave the message.
    handle_key(&mut a, Key::BackTab);
    press(&mut a, " ");
    assert!(modal(&a).error.is_some());
    assert!(!modal(&a).apply_to_all);
}

#[test]
fn a_failed_submission_keeps_what_was_typed() {
    let mut a = app();
    press(&mut a, "cFood");
    assert!(handle_key(&mut a, Key::Enter).is_some());
    finish_submission(&mut a, Some("disk full".to_string()));
    assert_eq!(modal(&a).error.as_deref(), Some("disk full"));
    assert_eq!(modal(&a).category_input, "Food");
    let mut normal = app();
    finish_submission(&mut normal, Some("late".to_string()));
    assert!(matches!(normal.input_mode(), InputMode::Normal));
    assert!(handle_category(&mut normal, Key::Enter).is_none());
}

#[test]
fn a_reload_stays_on_the_same_transaction() {
    let mut a = app();
    press(&mut a, "jj");
    a.reload(vec![txn(5, "NEW"), txn(30, "amazon mktp"), txn(10, "x")], vec![], vec![]);
    assert_eq!(a.selected_txn_id(), Some(30));
    assert_eq!(a.txn_selected(), Some(1));
}

#[test]
fn a_reload_falls_back_to_the_top() {
    let mut a = app();
    press(&mut a, "jj");
    a.reload(vec![txn(10, "x"), txn(20, "y"), txn(40, "z")], vec![], vec![]);
    assert_eq!(a.txn_selected(), Some(0));
    a.reload(vec![], vec![], vec![]);
    assert_eq!(a.txn_selected(), None);
    a.reload(rows(), vec![], vec!["Z".to_string()]);
    assert_eq!(a.txn_selected(), Some(0));
    assert_eq!(a.category_list(), &vec!["Z".to_string()]);
    assert_eq!(a.transactions().len(), 4);
    assert_eq!(a.categories().len(), 0);
}

#[test]
fn patterns_leave_out_noise() {
    assert_eq!(derive_pattern("TST* WEIS MARKETS 200 PA"), "weis markets pa");
    assert_eq!(derive_pattern("Amazon Prime Video Extra"), "amazon prime video");
    assert_eq!(derive_pattern("12-34 #99 SHELL"), "shell");
    assert_eq!(derive_pattern("1234 #5678-90"), "1234 #5678-90");
    assert_eq!(derive_pattern("SQ*ABCDEFGHIJKLMNOPQRSTUVWXYZ"), "sq*abcdefghijklmnopq");
    assert_eq!(derive_pattern(""), "");
}

fn book() -> Ledger {
    let rows = rows()
        .into_iter()
        .map(|r| LedgerRow { id: r.id, description: r.description, category: None })
        .collect();
    Ledger::load(rows, vec![]).unwrap()
}

fn categories(book: &Ledger) -> Vec<Option<&str>> {
    book.transactions().iter().map(|r| r.category.as_deref()).collect()
}

#[test]
fn complete_input_is_written_to_every_match() {
    let mut a = app();
    press(&mut a, "jjc Food");
    handle_key(&mut a, Key::Tab);
    press(&mut a, " ");
    handle_key(&mut a, Key::Tab);
    for _ in 0..5 {
        handle_key(&mut a, Key::Backspace);
    }
    let submission = handle_key(&mut a, Key::Enter).unwrap();
    let mut book = book();
    assert_eq!(perform(&mut book, &submission), Ok(()));
    assert_eq!(categories(&book), vec![Some("Food"), None, Some("Food"), None]);
    assert_eq!(book.rules()[0].pattern, "amazon");
    finish_submission(&mut a, None);
    assert!(matches!(a.input_mode(), InputMode::Normal));
}

#[test]
fn complete_input_is_written_to_one_transaction() {
    let mut a = app();
    press(&mut a, "cFood");
    let submission = handle_key(&mut a, Key::Enter).unwrap();
    let mut book = book();
    assert_eq!(perform(&mut book, &submission), Ok(()));
    assert_eq!(categories(&book), vec![Some("Food"), None, None, None]);
}

#[test]
fn blank_submissions_are_refused() {
    let mut book = book();
    let blank = Submission::AddRule { pattern: " ".to_string(), category: "X".to_string() };
    assert_eq!(perform(&mut book, &blank), Err(CategorizeError::EmptyRule));
    let blank = Submission::CategorizeOne { id: 10, category: " ".to_string() };
    assert_eq!(perform(&mut book, &blank), Err(CategorizeError::EmptyCategory));
    assert_eq!(book.journal().len(), 0);
}

#[test]
fn cancelling_outside_the_filter_empties_it() {
    let mut a = app();
    press(&mut a, "/gym");
    handle_key(&mut a, Key::Enter);
    handle_filter(&mut a, Key::Esc);
    assert_eq!(a.filter(), "");
    assert_eq!(a.visible().len(), 4);
}
