use financas::text::{str_contains_ci, str_lex_le, str_lex_lt};

#[test]
fn lexicographic_order_on_dates_is_chronological() {
    assert!(str_lex_lt("2024-01-15", "2024-02-01"));
    assert!(!str_lex_lt("2024-02-01", "2024-01-15"));
    assert!(!str_lex_lt("2024-01-15", "2024-01-15"));
    assert!(str_lex_le("2024-01-15", "2024-01-15"));
    // A proper prefix sorts first.
    assert!(str_lex_lt("2024-01", "2024-01-15"));
    assert!(!str_lex_lt("2024-01-15", "2024-01"));
    assert!(str_lex_lt("", "a"));
    assert!(!str_lex_lt("", ""));
}

#[test]
fn containment_folds_ascii_case_only() {
    assert!(str_contains_ci("Groceries", "roc"));
    assert!(str_contains_ci("Groceries", "GROC"));
    assert!(str_contains_ci("GROCERIES", "groceries"));
    assert!(!str_contains_ci("Groceries", "rent"));
    // The empty needle is everywhere.
    assert!(str_contains_ci("anything", ""));
    assert!(str_contains_ci("", ""));
    assert!(!str_contains_ci("", "a"));
    // Only the 26 ASCII letters fold; other characters match exactly.
    assert!(str_contains_ci("pão de açúcar", "açú"));
    assert!(!str_contains_ci("pão", "PÃO"));
    assert!(str_contains_ci("pãoZ", "pãoz"));
}
