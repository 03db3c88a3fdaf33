use finance_tracker_api::categorize::{
    add_rule, apply_rules, best_rule, categorize_one, seed_from_monarch, CategorizeError,
    MonarchRow,
};
use finance_tracker_api::ledger::{Ledger, LedgerRow, MerchantRule, Write};

fn txn(id: i64, description: &str, category: Option<&str>) -> LedgerRow {
    LedgerRow {
        id,
        description: description.to_string(),
        category: category.map(|c| c.to_string()),
    }
}

fn rule(pattern: &str, category: &str) -> MerchantRule {
    MerchantRule {
        pattern: pattern.to_string(),
        category: category.to_string(),
        origin: "manual".to_string(),
    }
}

fn monarch(merchant: &str, category: &str, statement: &str) -> MonarchRow {
    MonarchRow {
        merchant: merchant.to_string(),
        category: category.to_string(),
        original_statement: statement.to_string(),
    }
}

fn categories(book: &Ledger) -> Vec<Option<String>> {
    book.transactions().iter().map(|r| r.category.clone()).collect()
}

fn some(c: &str) -> Option<String> {
    Some(c.to_string())
}

#[test]
fn tables_with_repeated_keys_are_refused() {
    assert!(Ledger::load(vec![txn(1, "a", None), txn(1, "b", None)], vec![]).is_none());
    assert!(Ledger::load(vec![], vec![rule("a", "X"), rule("a", "X")]).is_none());
    assert!(Ledger::load(vec![txn(1, "a", None)], vec![rule("a", "X"), rule("a", "Y")]).is_some());
}

#[test]
fn a_seed_matches_statements_and_learns_merchants() {
    let rows = vec![
        txn(1, "WEIS MARKETS  200", None),
        txn(2, "weis markets 200", Some("Manual")),
        txn(3, "OTHER", None),
    ];
    let mut book = Ledger::load(rows, vec![]).unwrap();
    let export = vec![
        monarch("Weis  Markets", " Groceries ", "Weis Markets 200"),
        monarch("Weis Markets", "Food", "WEIS MARKETS 200"),
        monarch("Nobody", "  ", "OTHER"),
        monarch(" ", "Shopping", "nothing"),
        monarch("weis markets", "Groceries", "nothing"),
    ];
    let report = seed_from_monarch(&mut book, &export);
    assert_eq!(report.monarch_rows, 5);
    assert_eq!(report.direct_matches, 1);
    assert_eq!(report.rules_learned, 2);
    assert_eq!(categories(&book), vec![some("Groceries"), some("Manual"), None]);
    assert_eq!(book.rules().len(), 2);
    assert_eq!(book.rules()[0].pattern, "weis markets");
    assert_eq!(book.rules()[0].category, "Groceries");
    assert_eq!(book.rules()[0].origin, "monarch_seed");
    assert_eq!(book.rules()[1].category, "Food");
    assert_eq!(book.rules()[1].origin, "monarch_seed");
    assert_eq!(book.journal().len(), 3);
    let again = seed_from_monarch(&mut book, &export);
    assert_eq!(again.direct_matches, 0);
    assert_eq!(again.rules_learned, 0);
    assert_eq!(book.journal().len(), 3);
}

#[test]
fn the_longest_pattern_wins() {
    let rules = vec![rule("amazon prime video", "TV"), rule("amazon", "Shopping")];
    let rows = vec![
        txn(1, "AMAZON PRIME VIDEO 1", None),
        txn(2, "Amazon mktp", None),
        txn(3, "amazon", Some("Gifts")),
        txn(4, "else", None),
    ];
    let mut book = Ledger::load(rows, rules).unwrap();
    let report = apply_rules(&mut book);
    assert_eq!((report.categorized, report.still_uncategorized), (2, 1));
    assert_eq!(categories(&book), vec![some("TV"), some("Shopping"), some("Gifts"), None]);
    let again = apply_rules(&mut book);
    assert_eq!((again.categorized, again.still_uncategorized), (0, 1));
    assert_eq!(book.journal().len(), 2);
}

#[test]
fn among_equally_long_patterns_the_last_wins() {
    let rules = vec![rule("abc", "First"), rule("bcd", "Second"), rule("é", "Short")];
    assert_eq!(best_rule(&rules, "abcd é"), Some(1));
    assert_eq!(best_rule(&rules, "é"), Some(2));
    assert_eq!(best_rule(&rules, "zzz"), None);
    // Length is counted in bytes: two letters of two bytes beat three of one.
    let rules = vec![rule("éé", "Bytes"), rule("abc", "Letters")];
    assert_eq!(best_rule(&rules, "abc éé"), Some(0));
}

#[test]
fn rules_match_lowercased_descriptions_beyond_ascii() {
    let rows = vec![txn(1, "CAFÉ ROYAL", None)];
    let mut book = Ledger::load(rows, vec![rule("café", "Coffee")]).unwrap();
    assert_eq!(apply_rules(&mut book).categorized, 1);
}

#[test]
fn adding_a_rule_reaches_every_match() {
    let rows = vec![
        txn(1, "PUBLIC STORAGE 12", None),
        txn(2, "public storage", Some("Cloud Data")),
        txn(3, "Public Storage", Some("Storage")),
        txn(4, "ELSE", Some("Cloud Data")),
    ];
    let rules = vec![rule("public storage", "Cloud Data"), rule("else", "Cloud Data")];
    let mut book = Ledger::load(rows, rules).unwrap();
    let report = add_rule(&mut book, " Public Storage ", " Storage ").unwrap();
    assert!(report.rule_was_new);
    assert_eq!(report.newly_categorized, 1);
    assert_eq!(report.reclassified, 1);
    assert_eq!(report.already_correct, 1);
    assert_eq!(
        categories(&book),
        vec![some("Storage"), some("Storage"), some("Storage"), some("Cloud Data")]
    );
    let pairs: Vec<(&str, &str)> =
        book.rules().iter().map(|r| (r.pattern.as_str(), r.category.as_str())).collect();
    assert_eq!(pairs, vec![("else", "Cloud Data"), ("public storage", "Storage")]);
    assert_eq!(book.rules()[1].origin, "manual");
    let again = add_rule(&mut book, "public storage", "Storage").unwrap();
    assert!(!again.rule_was_new);
    assert_eq!((again.newly_categorized, again.reclassified, again.already_correct), (0, 0, 3));
}

#[test]
fn the_journal_of_an_added_rule_brings_the_database_along() {
    let rows = vec![txn(7, "gym", None)];
    let mut book = Ledger::load(rows, vec![rule("gym", "Fun")]).unwrap();
    add_rule(&mut book, "gym", "Fitness").unwrap();
    let mut deleted = 0;
    let mut inserted = 0;
    let mut set = 0;
    for w in book.journal() {
        match w {
            Write::DeleteOtherRules { pattern, category } => {
                assert_eq!((pattern.as_str(), category.as_str()), ("gym", "Fitness"));
                deleted += 1;
            }
            Write::InsertRule { rule } => {
                assert_eq!(rule.category, "Fitness");
                assert_eq!(deleted, 1);
                inserted += 1;
            }
            Write::SetCategory { id, category } => {
                assert_eq!((*id, category.as_str()), (7, "Fitness"));
                set += 1;
            }
        }
    }
    assert_eq!((deleted, inserted, set), (1, 1, 1));
}

#[test]
fn an_empty_rule_is_refused() {
    let mut book = Ledger::load(vec![txn(1, "a", None)], vec![]).unwrap();
    let e = add_rule(&mut book, "  ", "X").unwrap_err();
    assert_eq!(e, CategorizeError::EmptyRule);
    assert_eq!(e.message(), "pattern and category must both be non-empty");
    assert_eq!(add_rule(&mut book, "a", " ").unwrap_err(), CategorizeError::EmptyRule);
    assert_eq!(book.journal().len(), 0);
    assert_eq!(categories(&book), vec![None]);
}

#[test]
fn an_added_rule_lowers_descriptions_beyond_ascii() {
    let rows = vec![txn(1, "CAFÉ ROMA", None), txn(2, "CAFé", Some("X")), txn(3, "CAFE", None)];
    let mut book = Ledger::load(rows, vec![]).unwrap();
    let report = add_rule(&mut book, "café", "Coffee Shops").unwrap();
    assert_eq!(book.rules()[0].pattern, "café");
    assert_eq!((report.newly_categorized, report.reclassified), (1, 1));
    assert_eq!(categories(&book), vec![some("Coffee Shops"), some("Coffee Shops"), None]);
}

#[test]
fn one_transaction_is_categorized_whatever_it_was_on() {
    let rows = vec![txn(1, "a", Some("Old")), txn(2, "a", None)];
    let mut book = Ledger::load(rows, vec![]).unwrap();
    assert_eq!(categorize_one(&mut book, 1, " New "), Ok(true));
    assert_eq!(categories(&book), vec![some("New"), None]);
    assert_eq!(categorize_one(&mut book, 9, "New"), Ok(false));
    assert_eq!(categories(&book), vec![some("New"), None]);
    let e = categorize_one(&mut book, 2, " \t").unwrap_err();
    assert_eq!(e, CategorizeError::EmptyCategory);
    assert_eq!(e.message(), "category must be non-empty");
    assert_eq!(book.journal().len(), 1);
}

#[test]
fn categorization_keeps_ids_and_descriptions() {
    let rows = vec![txn(3, "B", None), txn(1, "a", Some("X")), txn(2, "A ", None)];
    let mut book = Ledger::load(rows, vec![rule("b", "Y")]).unwrap();
    seed_from_monarch(&mut book, &vec![monarch("A", "Z", "a")]);
    apply_rules(&mut book);
    add_rule(&mut book, "a", "W").unwrap();
    categorize_one(&mut book, 3, "V").unwrap();
    let kept: Vec<(i64, &str)> =
        book.transactions().iter().map(|r| (r.id, r.description.as_str())).collect();
    assert_eq!(kept, vec![(3, "B"), (1, "a"), (2, "A ")]);
    assert_eq!(categories(&book), vec![some("V"), some("W"), some("W")]);
}

#[test]
fn added_and_applied_rules_match_the_same_descriptions() {
    let descriptions = ["GYM 24", "The Gym", "gy m", "Bakery", "gYmNASIUM", "ÉTÉ GYM"];
    let rows = || -> Vec<LedgerRow> {
        descriptions.iter().enumerate().map(|(i, d)| txn(i as i64, d, None)).collect()
    };
    let mut added = Ledger::load(rows(), vec![]).unwrap();
    add_rule(&mut added, "Gym", "Fitness").unwrap();
    let mut applied = Ledger::load(rows(), vec![rule("gym", "Fitness")]).unwrap();
    apply_rules(&mut applied);
    assert_eq!(categories(&added), categories(&applied));
    assert_eq!(added.journal().len(), 6);
}
