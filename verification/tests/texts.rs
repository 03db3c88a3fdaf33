use finance_tracker_api::categorize;
use finance_tracker_api::text;

#[test]
fn white_space_is_that_of_unicode() {
    for code in 0u32..0x110000 {
        if let Some(c) = char::from_u32(code) {
            assert_eq!(text::is_white_space(c), c.is_whitespace(), "{code:x}");
        }
    }
}

#[test]
fn trim_removes_white_space_at_both_ends() {
    assert_eq!(text::trim("  a b\t\u{a0}"), "a b");
    assert_eq!(text::trim(" \n "), "");
    assert_eq!(text::trim(""), "");
    assert_eq!(text::trim("é"), "é");
}

#[test]
fn words_are_split_at_runs_of_white_space() {
    assert_eq!(text::split_words(" a  bc\td "), vec!["a", "bc", "d"]);
    assert_eq!(text::split_words("   ").len(), 0);
}

#[test]
fn lowercase_goes_beyond_ascii() {
    assert_eq!(text::to_lowercase("CAFÉ Straße"), "café straße");
    assert_eq!(text::to_lowercase("ΟΔΟΣ"), "οδος");
    assert_eq!(text::to_lowercase("AZaz09[@`{"), "azaz09[@`{");
    assert_eq!(text::to_ascii_lowercase("CAFÉ"), "cafÉ");
}

#[test]
fn substrings_are_found_wherever_they_stand() {
    assert!(text::contains("amazon prime", "prime"));
    assert!(text::contains("amazon", "amazon"));
    assert!(text::contains("aab", "ab"));
    assert!(text::contains("", ""));
    assert!(!text::contains("ab", "abc"));
    assert!(!text::contains("amazon", "amazone"));
}

#[test]
fn normalize_collapses_and_lowercases() {
    assert_eq!(categorize::normalize("WEIS MARKETS  200"), "weis markets 200");
    assert_eq!(categorize::normalize("WEIS MARKETS 200"), "weis markets 200");
    assert_eq!(categorize::normalize(" \tÉclair\n Shop "), "éclair shop");
    assert_eq!(categorize::normalize("  "), "");
    assert_eq!(categorize::collapse(" A  B "), "A B");
}

#[test]
fn normalizing_twice_is_normalizing_once() {
    for s in ["  WEIS \t MARKETS  200 ", "É  \u{3000}ΟΔΟΣ ΟΔΟΣ", "İstanbul  X", "", " \n "] {
        let once = categorize::normalize(s);
        assert_eq!(categorize::normalize(&once), once);
        assert_eq!(once.trim(), once);
        assert!(!once.contains("  "));
        assert!(once.chars().all(|c| !c.is_whitespace() || c == ' '));
        assert_eq!(once.is_empty(), s.trim().is_empty());
        let collapsed = categorize::collapse(s);
        assert_eq!(text::split_words(&collapsed), text::split_words(s));
        assert_eq!(categorize::collapse(&collapsed), collapsed);
        let lowered: Vec<String> = text::split_words(s).iter().map(|w| text::to_lowercase(w)).collect();
        assert_eq!(text::split_words(&once), lowered);
    }
}
