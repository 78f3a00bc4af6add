use dir_lister::entry::is_hidden_name;
use dir_lister::name_order::str_le;

#[test]
fn str_le_orders_by_code_point() {
    assert!(str_le("a", "b"));
    assert!(!str_le("b", "a"));
    assert!(str_le("abc", "abd"));
    assert!(!str_le("abd", "abc"));
}

#[test]
fn str_le_prefix_comes_first() {
    assert!(str_le("ab", "abc"));
    assert!(!str_le("abc", "ab"));
    assert!(str_le("", "a"));
}

#[test]
fn str_le_is_reflexive() {
    assert!(str_le("", ""));
    assert!(str_le("same", "same"));
}

#[test]
fn str_le_upper_case_before_lower_case() {
    assert!(str_le("Zebra", "ant"));
}

#[test]
fn str_le_handles_multibyte_names() {
    assert!(str_le("zebra", "étude"));
    assert!(!str_le("étude", "zebra"));
}

#[test]
fn hidden_names_start_with_a_dot() {
    assert!(is_hidden_name(".git"));
    assert!(is_hidden_name("."));
    assert!(!is_hidden_name("src"));
    assert!(!is_hidden_name(""));
    assert!(!is_hidden_name("a.b"));
}
