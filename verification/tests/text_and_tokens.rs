use rslogo::constant::{is_arithmetic_operator, is_comment, operator_of, Operator};
use rslogo::text::{is_whitespace, join_from, split_spaces_of, str_eq, tokenize, trim_start};

#[test]
fn trims_leading_whitespace_only() {
    assert_eq!(trim_start("  \t FORWARD 10  "), "FORWARD 10  ");
    assert_eq!(trim_start("\u{3000}PENUP"), "PENUP");
    assert_eq!(trim_start("   "), "");
    assert_eq!(trim_start(""), "");
}

#[test]
fn whitespace_matches_std() {
    for c in ['\t', '\n', '\r', ' ', '\u{85}', '\u{a0}', '\u{2003}', '\u{3000}', 'a', '_', '\u{200b}'] {
        assert_eq!(is_whitespace(c), c.is_whitespace(), "{:?}", c);
    }
}

#[test]
fn splits_on_single_spaces() {
    assert_eq!(split_spaces_of("MAKE \"x \"5"), vec!["MAKE", "\"x", "\"5"]);
    assert_eq!(split_spaces_of("a  b"), vec!["a", "", "b"]);
    assert_eq!(split_spaces_of(""), vec![""]);
    assert_eq!(split_spaces_of("x "), vec!["x", ""]);
}

#[test]
fn tokenize_trims_then_splits() {
    assert_eq!(tokenize("   SETX + 1 2"), vec!["SETX", "+", "1", "2"]);
    assert_eq!(tokenize("  "), vec![""]);
}

#[test]
fn join_then_split_round_trip() {
    let parts = vec!["TO", "BOX", ":a", ":b"];
    let joined = join_from(&parts, 2);
    assert_eq!(joined, ":a :b");
    assert_eq!(split_spaces_of(&joined), vec![":a", ":b"]);
    assert_eq!(join_from(&parts, 4), "");
}

#[test]
fn split_then_join_round_trip() {
    let text = " a  b c ";
    let pieces = split_spaces_of(text);
    assert_eq!(join_from(&pieces, 0), text);
}

#[test]
fn string_equality() {
    assert!(str_eq("WHILE", "WHILE"));
    assert!(!str_eq("WHILE", "WHILe"));
    assert!(!str_eq("IF", "IFF"));
    assert!(str_eq("", ""));
}

#[test]
fn comments_start_with_two_slashes() {
    assert!(is_comment("// a comment"));
    assert!(is_comment("//"));
    assert!(!is_comment("/ not"));
    assert!(!is_comment("/"));
    assert!(!is_comment("FORWARD // late"));
}

#[test]
fn operator_tokens() {
    assert!(is_arithmetic_operator("+"));
    assert!(is_arithmetic_operator("-"));
    assert!(is_arithmetic_operator("*"));
    assert!(is_arithmetic_operator("/"));
    assert!(!is_arithmetic_operator("++"));
    assert!(!is_arithmetic_operator("%"));
    assert!(!is_arithmetic_operator(""));
    assert_eq!(operator_of("+"), Some(Operator::Add));
    assert_eq!(operator_of("-"), Some(Operator::Sub));
    assert_eq!(operator_of("*"), Some(Operator::Mul));
    assert_eq!(operator_of("/"), Some(Operator::Div));
    assert_eq!(operator_of("x"), None);
}
