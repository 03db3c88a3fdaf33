use finance_tracker_api::db::{CategorySummary, TransactionRow};
use finance_tracker_api::screen::{
    amount_tone, categories_title, category_cells, category_line, category_tones, centered_shares,
    field_tone, hint_tone, status_tone, transaction_tones, Tone, format_amount, hint_line, pattern_line,
    selected_tab, status_line, suggestions, toggle_line, transaction_cells, transactions_title,
    truncate,
};
use finance_tracker_api::tui::{handle_key, App, CategoryModal, Key, ModalFocus, Screen};

fn txn(description: &str, category: Option<&str>) -> TransactionRow {
    TransactionRow {
        id: 1,
        txn_date: "2024-01-05".to_string(),
        source: "amex".to_string(),
        description: description.to_string(),
        amount_cents: -3321,
        category: category.map(|c| c.to_string()),
    }
}

#[test]
fn amounts_are_in_dollars() {
    assert_eq!(format_amount(-3321), "-$33.21");
    assert_eq!(format_amount(1135), " $11.35");
    assert_eq!(format_amount(5), " $0.05");
    assert_eq!(format_amount(-100), "-$1.00");
    assert_eq!(format_amount(0), " $0.00");
    assert_eq!(format_amount(i64::MIN), "-$92233720368547758.08");
}

#[test]
fn long_texts_end_in_an_ellipsis() {
    assert_eq!(truncate("abcd", 4), "abcd");
    assert_eq!(truncate("abcde", 4), "abc…");
    assert_eq!(truncate("ééééé", 2), "é…");
    assert_eq!(truncate("ab", 1), "…");
    assert_eq!(truncate("ab", 0), "…");
    assert_eq!(truncate("", 0), "");
}

#[test]
fn transaction_rows_have_five_cells() {
    let long = "x".repeat(50);
    assert_eq!(
        transaction_cells(&txn(&long, None)),
        vec![
            "2024-01-05".to_string(),
            "amex".to_string(),
            format!("{}…", "x".repeat(44)),
            "-$33.21".to_string(),
            "—".to_string(),
        ]
    );
    assert_eq!(transaction_cells(&txn("A", Some("Food")))[4], "Food");
}

#[test]
fn counts_are_right_aligned() {
    let row = CategorySummary { category: "Food".to_string(), count: 12, total_cents: 250 };
    assert_eq!(category_cells(&row), vec!["Food", "   12", " $2.50"]);
    let row = CategorySummary { category: "".to_string(), count: 1234567, total_cents: 0 };
    assert_eq!(category_cells(&row)[1], "1234567");
    let row = CategorySummary { category: "".to_string(), count: -1, total_cents: 0 };
    assert_eq!(category_cells(&row)[1], "   -1");
}

#[test]
fn titles_count_the_rows() {
    let mut a = App::new(vec![txn("A", None), txn("B", None)], vec![], vec![]);
    assert_eq!(transactions_title(&a), " Transactions (2) ");
    assert_eq!(categories_title(&a), " Categories (0) ");
    handle_key(&mut a, Key::Char('/'));
    handle_key(&mut a, Key::Char('b'));
    assert_eq!(transactions_title(&a), " Transactions (1 of 2, filter: \"b\") ");
}

#[test]
fn the_status_line_follows_the_mode() {
    let mut a = App::new(vec![], vec![], vec![]);
    let keys = "j/k or ↑↓ scroll · / filter · c categorize · Tab switch view · q quit";
    assert_eq!(status_line(&a), keys);
    handle_key(&mut a, Key::Char('/'));
    handle_key(&mut a, Key::Char('x'));
    assert_eq!(status_line(&a), "Filter: x█  (Enter commits · Esc cancels)");
    handle_key(&mut a, Key::Enter);
    assert_eq!(status_line(&a), keys);
}

#[test]
fn tabs_are_in_order() {
    assert_eq!(selected_tab(Screen::Transactions), 0);
    assert_eq!(selected_tab(Screen::Categories), 1);
}

#[test]
fn the_modal_shows_its_fields() {
    let mut m = CategoryModal::new(1, "gym".to_string());
    m.category_input = "Fit".to_string();
    assert_eq!(category_line(&m), "Category: Fit█");
    assert_eq!(toggle_line(&m), "[ ] Apply to all matching (creates rule)");
    assert_eq!(pattern_line(&m), None);
    assert_eq!(hint_line(&m), "Tab: next field · Space: toggle · Enter: apply · Esc: cancel");
    m.apply_to_all = true;
    m.focus = ModalFocus::Pattern;
    m.error = Some("no".to_string());
    assert_eq!(category_line(&m), "Category: Fit");
    assert_eq!(toggle_line(&m), "[x] Apply to all matching (creates rule)");
    assert_eq!(pattern_line(&m).as_deref(), Some("Pattern:  gym█"));
    assert_eq!(hint_line(&m), "Error: no");
    m.focus = ModalFocus::Toggle;
    assert_eq!(pattern_line(&m).as_deref(), Some("Pattern:  gym"));
}

#[test]
fn five_categories_are_suggested_at_most() {
    let list: Vec<String> = ["Gas", "Gifts", "Groceries", "Gym", "Pets", "Garbage", "Gas & Electric"]
        .iter()
        .map(|s| s.to_string())
        .collect();
    assert_eq!(suggestions(&list, ""), vec!["Gas", "Gifts", "Groceries", "Gym", "Pets"]);
    assert_eq!(suggestions(&list, "GA"), vec!["Gas", "Garbage", "Gas & Electric"]);
    assert_eq!(suggestions(&list, "g"), vec!["Gas", "Gifts", "Groceries", "Gym", "Garbage"]);
    assert!(suggestions(&list, "xyz").is_empty());
}

#[test]
fn different_amounts_have_different_labels() {
    let cents = [0i64, 1, -1, 10, 100, -100, 1000, 12345, -12345, i64::MAX, i64::MIN];
    for a in cents {
        for b in cents {
            assert_eq!(a == b, format_amount(a) == format_amount(b), "{a} {b}");
        }
    }
}

#[test]
fn the_window_is_in_the_middle() {
    assert_eq!(centered_shares(60), (20, 60, 20));
    assert_eq!(centered_shares(55), (22, 55, 22));
    assert_eq!(centered_shares(100), (0, 100, 0));
    assert_eq!(centered_shares(0), (50, 0, 50));
}

#[test]
fn tones_follow_amounts_and_categories() {
    assert_eq!(amount_tone(-1), Tone::Out);
    assert_eq!(amount_tone(0), Tone::In);
    assert_eq!(
        transaction_tones(&txn("A", None)),
        vec![Tone::Plain, Tone::Dim, Tone::Plain, Tone::Out, Tone::Dim]
    );
    assert_eq!(transaction_tones(&txn("A", Some("Food")))[4], Tone::Plain);
    let row = CategorySummary { category: "Food".to_string(), count: 1, total_cents: 250 };
    assert_eq!(category_tones(&row), vec![Tone::Plain, Tone::Plain, Tone::In]);
}

#[test]
fn tones_follow_the_mode_and_the_focus() {
    let mut a = App::new(vec![], vec![], vec![]);
    assert_eq!(status_tone(&a), Tone::Dim);
    handle_key(&mut a, Key::Char('/'));
    assert_eq!(status_tone(&a), Tone::Active);
    let mut m = CategoryModal::new(1, "gym".to_string());
    assert_eq!(field_tone(&m, ModalFocus::Category), Tone::Active);
    assert_eq!(field_tone(&m, ModalFocus::Toggle), Tone::Plain);
    assert_eq!(hint_tone(&m), Tone::Dim);
    m.error = Some("no".to_string());
    assert_eq!(hint_tone(&m), Tone::Alert);
}
