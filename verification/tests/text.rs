use composite::text::str_eq;

#[test]
fn str_eq_on_equal_strings() {
    assert!(str_eq("", ""));
    assert!(str_eq("INPUT_A", "INPUT_A"));
    assert!(str_eq("é↯x", "é↯x"));
    let owned = String::from("OUTPUT_MIX");
    assert!(str_eq(owned.as_str(), "OUTPUT_MIX"));
}

#[test]
fn str_eq_on_different_strings() {
    assert!(!str_eq("INPUT_A", "INPUT_B"));
    assert!(!str_eq("INPUT_A", "INPUT_"));
    assert!(!str_eq("INPUT_", "INPUT_A"));
    assert!(!str_eq("", "a"));
    assert!(!str_eq("a", ""));
    assert!(!str_eq("input_a", "INPUT_A"));
    assert!(!str_eq("é", "e"));
}

#[test]
fn str_eq_agrees_with_the_operator() {
    let words = ["", "a", "ab", "ba", "abc", "ab\u{0}", "日本", "日本語"];
    for x in words.iter() {
        for y in words.iter() {
            assert_eq!(str_eq(x, y), x == y);
        }
    }
}
