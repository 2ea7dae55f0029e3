use lib::args::{has_arg, parse_arg, parse_string_arg, str_equal};

fn words(ws: &[&str]) -> Vec<String> {
    ws.iter().map(|w| w.to_string()).collect()
}

#[test]
fn str_equal_compares_contents() {
    assert!(str_equal("--all", "--all"));
    assert!(!str_equal("--all", "--al"));
    assert!(!str_equal("--all", "--alL"));
    assert!(str_equal("", ""));
    assert!(str_equal("é", "é"));
    assert!(!str_equal("é", "e"));
}

#[test]
fn has_arg_finds_any_position() {
    let a = words(&["prog", "--scene", "2", "--all"]);
    assert!(has_arg(&a, "--all"));
    assert!(has_arg(&a, "prog"));
    assert!(!has_arg(&a, "--help"));
    assert!(!has_arg(&[], "--all"));
}

#[test]
fn string_arg_is_the_word_after_the_first_occurrence() {
    let a = words(&["prog", "--output", "a.ppm", "--output", "b.ppm"]);
    assert_eq!(parse_string_arg(&a, "--output"), Some("a.ppm".to_string()));
    let b = words(&["prog", "--output", "--output", "x"]);
    assert_eq!(parse_string_arg(&b, "--output"), Some("--output".to_string()));
}

#[test]
fn string_arg_needs_a_following_word() {
    let a = words(&["prog", "--output"]);
    assert_eq!(parse_string_arg(&a, "--output"), None);
    assert_eq!(parse_string_arg(&words(&["prog"]), "--output"), None);
    assert_eq!(parse_string_arg(&[], "--output"), None);
}

#[test]
fn typed_arg_reads_the_value() {
    let a = words(&["prog", "--width", "320", "--scene", "3"]);
    assert_eq!(parse_arg::<usize>(&a, "--width"), Some(320));
    assert_eq!(parse_arg::<u32>(&a, "--scene"), Some(3));
    assert_eq!(parse_arg::<usize>(&a, "--height"), None);
}

#[test]
fn typed_arg_is_none_when_the_first_value_does_not_read() {
    let a = words(&["prog", "--width", "wide", "--width", "320"]);
    assert_eq!(parse_arg::<usize>(&a, "--width"), None);
}

#[test]
fn typed_arg_respects_the_type_range() {
    let a = words(&["prog", "--scene", "4294967296"]);
    assert_eq!(parse_arg::<u32>(&a, "--scene"), None);
    assert_eq!(parse_arg::<usize>(&a, "--scene"), Some(4294967296));
}
