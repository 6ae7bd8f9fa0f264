use nc2mongo::{split_string, trim_null_bytes};

#[test]
fn trim_strips_nulls_then_whitespace() {
    assert_eq!(trim_null_bytes("  ABC  \0\0\0".to_string()), "ABC");
    assert_eq!(trim_null_bytes("ABC".to_string()), "ABC");
    assert_eq!(trim_null_bytes("".to_string()), "");
    assert_eq!(trim_null_bytes("\0\0".to_string()), "");
    assert_eq!(trim_null_bytes("  \t\n ".to_string()), "");
}

#[test]
fn trim_strips_whitespace_that_nulls_exposed() {
    // The trailing null padding goes first, so the blank that sat under it
    // is trimmed too.
    assert_eq!(trim_null_bytes("AB \0\0".to_string()), "AB");
}

#[test]
fn trim_keeps_interior_content() {
    assert_eq!(trim_null_bytes(" A B C ".to_string()), "A B C");
    assert_eq!(trim_null_bytes(" h\u{e9}llo \0".to_string()), "h\u{e9}llo");
}

#[test]
fn split_trims_each_piece() {
    let pieces = split_string("John Doe,  Jane Roe ,Bob".to_string(), ',');
    assert_eq!(pieces, vec!["John Doe", "Jane Roe", "Bob"]);
}

#[test]
fn split_without_separator_is_one_piece() {
    let pieces = split_string("  single investigator ".to_string(), ',');
    assert_eq!(pieces, vec!["single investigator"]);
}

#[test]
fn split_empty_input_is_one_empty_piece() {
    let pieces = split_string(String::new(), ',');
    assert_eq!(pieces, vec![""]);
}

#[test]
fn split_adjacent_separators_yield_empty_pieces() {
    let pieces = split_string("a,,b,".to_string(), ',');
    assert_eq!(pieces, vec!["a", "", "b", ""]);
}
