use codetags::pattern::{
    captures, group, BLOCK_PATTERN, CONSTRUCTOR_PATTERN, END_PATTERN, FUNCTION_PATTERN,
    REFERENCE_PATTERN, START_PATTERN, TYPE_PATTERN, VARIABLE_PATTERN,
};

fn texts(found: Option<Vec<Option<String>>>) -> Option<Vec<Option<String>>> {
    found
}

fn some(groups: &[Option<&str>]) -> Option<Vec<Option<String>>> {
    Some(groups.iter().map(|g| g.map(|s| s.to_string())).collect())
}

#[test]
fn a_search_hands_back_the_groups_of_the_match() {
    assert_eq!(
        texts(captures(START_PATTERN, "//> Scanning init-scanner")),
        some(&[Some("//> Scanning init-scanner"), Some("Scanning "), Some("init-scanner")])
    );
    assert_eq!(
        texts(captures(START_PATTERN, "//> init-scanner")),
        some(&[Some("//> init-scanner"), None, Some("init-scanner")])
    );
    assert_eq!(
        texts(captures(END_PATTERN, "//< Control Flow and-or")),
        some(&[Some("//< Control Flow and-or"), Some("Control Flow "), Some("and-or")])
    );
    assert_eq!(
        texts(captures(BLOCK_PATTERN, "/* Scanning scan-token < Scanning slash")),
        some(&[
            Some("/* Scanning scan-token < Scanning slash"),
            Some("Scanning"),
            Some("scan-token"),
            Some("Scanning"),
            Some("slash")
        ])
    );
}

#[test]
fn a_search_that_finds_nothing_hands_back_nothing() {
    assert_eq!(texts(captures(START_PATTERN, "class Scanner {")), None);
    assert_eq!(texts(captures(START_PATTERN, "//< init-scanner")), None);
    assert_eq!(texts(captures(END_PATTERN, "")), None);
    assert_eq!(texts(captures(VARIABLE_PATTERN, "  int x;")), None);
}

#[test]
fn a_pattern_that_cannot_be_compiled_finds_nothing() {
    assert_eq!(texts(captures("(", "(")), None);
    assert_eq!(texts(captures("[a-", "a")), None);
}

#[test]
fn declarations_are_searched_for_anywhere_in_the_line() {
    assert_eq!(
        texts(captures(FUNCTION_PATTERN, "  List<Token> scanTokens() {")),
        some(&[Some("Token> scanTokens("), Some("Token"), Some("scanTokens"), Some("")])
    );
    assert_eq!(
        texts(captures(FUNCTION_PATTERN, "  void run(String source) {")),
        some(&[Some("void run(String source"), Some("void"), Some("run"), Some("String source")])
    );
    assert_eq!(
        texts(captures(CONSTRUCTOR_PATTERN, "  Scanner(String source) {")),
        some(&[Some("  Scanner("), Some("Scanner")])
    );
    assert_eq!(
        texts(captures(TYPE_PATTERN, "public abstract class Expr {")),
        some(&[
            Some("public abstract class Expr {"),
            Some("public "),
            Some("abstract "),
            Some("class"),
            Some("Expr")
        ])
    );
    assert_eq!(
        texts(captures(VARIABLE_PATTERN, "int counter = 0;")),
        some(&[Some("int counter = "), Some("counter"), Some(" = ")])
    );
}

#[test]
fn references_are_searched_for_at_the_start_of_a_line() {
    assert_eq!(
        texts(captures(REFERENCE_PATTERN, "^code init-scanner (2 before, 1 after)")),
        some(&[
            Some("^code init-scanner (2 before, 1 after)"),
            Some("init-scanner"),
            Some("2 before, 1 after")
        ])
    );
    assert_eq!(
        texts(captures(REFERENCE_PATTERN, "^code omit")),
        some(&[Some("^code omit"), Some("omit"), None])
    );
    assert_eq!(
        texts(captures(REFERENCE_PATTERN, "text\n^code omit")),
        some(&[Some("^code omit"), Some("omit"), None])
    );
    assert_eq!(texts(captures(REFERENCE_PATTERN, "see ^code omit")), None);
}

#[test]
fn a_group_is_read_by_its_number() {
    let groups = vec![Some("whole".to_string()), None, Some("two".to_string())];
    assert_eq!(group(&groups, 0), Some(&"whole".to_string()));
    assert_eq!(group(&groups, 1), None);
    assert_eq!(group(&groups, 2), Some(&"two".to_string()));
    assert_eq!(group(&groups, 3), None);
    assert_eq!(group(&Vec::new(), 0), None);
}
