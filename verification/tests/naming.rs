use composite::naming::format_name;

#[test]
fn composite_format_name_correct() {
    assert_eq!(String::from("a"), format_name("a", 0));
    assert_eq!(String::from("a1"), format_name("a", 1));
    assert_eq!(String::from("a2"), format_name("a", 2));
}

#[test]
fn mod_format_name_correct() {
    assert_eq!(String::from("a"), format_name("a", 0));
    assert_eq!(String::from("a1"), format_name("a", 1));
    assert_eq!(String::from("a2"), format_name("a", 2));
}

#[test]
fn format_name_writes_every_digit() {
    assert_eq!(format_name("Mix", 9), "Mix9");
    assert_eq!(format_name("Mix", 10), "Mix10");
    assert_eq!(format_name("Mix", 11), "Mix11");
    assert_eq!(format_name("Mix", 99), "Mix99");
    assert_eq!(format_name("Mix", 100), "Mix100");
    assert_eq!(format_name("Mix", 1234567890), "Mix1234567890");
}

#[test]
fn format_name_keeps_inner_zeros() {
    assert_eq!(format_name("n", 101), "n101");
    assert_eq!(format_name("n", 1000), "n1000");
    assert_eq!(format_name("n", 20030), "n20030");
}

#[test]
fn format_name_of_the_largest_number() {
    assert_eq!(format_name("a", usize::MAX), format!("a{}", usize::MAX));
}

#[test]
fn format_name_agrees_with_display() {
    for i in 1..3000usize {
        assert_eq!(format_name("kind", i), format!("kind{}", i));
    }
}

#[test]
fn format_name_with_empty_kind() {
    assert_eq!(format_name("", 0), "");
    assert_eq!(format_name("", 7), "7");
}

#[test]
fn format_name_with_digits_in_the_kind() {
    assert_eq!(format_name("a1", 0), "a1");
    assert_eq!(format_name("a1", 1), "a11");
    assert_eq!(format_name("é", 3), "é3");
}

#[test]
fn format_name_is_injective_in_the_number() {
    let mut seen: Vec<String> = Vec::new();
    for i in 0..500usize {
        let name = format_name("x", i);
        assert!(!seen.contains(&name));
        seen.push(name);
    }
}
