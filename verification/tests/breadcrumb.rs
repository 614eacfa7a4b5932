use codetags::breadcrumb::{emphasize, join4, kind_name};
use codetags::location::{Location, LocationKind, LocationNode};

fn node(kind: LocationKind, name: &str) -> LocationNode {
    LocationNode { kind, name: name.to_string(), is_function_declaration: false }
}

fn chain(nodes: Vec<LocationNode>) -> Location {
    Location { nodes }
}

fn file() -> LocationNode {
    node(LocationKind::File, "Scanner.java")
}

fn class() -> LocationNode {
    node(LocationKind::Class, "Scanner")
}

fn method(name: &str) -> LocationNode {
    node(LocationKind::Method, name)
}

fn method_in_class() -> Location {
    chain(vec![file(), class(), method("scanTokens")])
}

#[test]
fn kinds_have_their_words() {
    assert_eq!(kind_name(LocationKind::File), "file");
    assert_eq!(kind_name(LocationKind::New), "new");
    assert_eq!(kind_name(LocationKind::Top), "top");
    assert_eq!(kind_name(LocationKind::Class), "class");
    assert_eq!(kind_name(LocationKind::Enum), "enum");
    assert_eq!(kind_name(LocationKind::Interface), "interface");
    assert_eq!(kind_name(LocationKind::Constructor), "constructor");
    assert_eq!(kind_name(LocationKind::Function), "function");
    assert_eq!(kind_name(LocationKind::Method), "method");
    assert_eq!(kind_name(LocationKind::Variable), "variable");
}

#[test]
fn texts_are_put_together() {
    assert_eq!(join4("a", "b", "c", "d"), "abcd");
    assert_eq!(join4("", "x", "", ""), "x");
    assert_eq!(emphasize("Lox"), "<em>Lox</em>");
    assert_eq!(emphasize(""), "<em></em>");
}

#[test]
fn a_file_gives_its_name() {
    let location = chain(vec![file()]);
    assert_eq!(location.to_html(None, false), vec!["<em>Scanner.java</em>"]);
    assert_eq!(location.to_html(Some(&location), true), vec!["<em>Scanner.java</em>"]);
}

#[test]
fn a_new_file_and_the_top_of_a_file_have_fixed_phrases() {
    let new = chain(vec![file(), node(LocationKind::New, "")]);
    assert_eq!(new.to_html(None, false), vec!["<em>Scanner.java</em>", "create new file"]);
    let top = chain(vec![file(), class(), node(LocationKind::Top, "")]);
    assert_eq!(
        top.to_html(None, false),
        vec!["<em>Scanner.java</em>", "in class <em>Scanner</em>", "add to top of file"]
    );
    assert_eq!(chain(vec![node(LocationKind::Top, "")]).to_html(None, true), vec!["add to top of file"]);
}

#[test]
fn a_type_is_gone_into() {
    let preceding = method_in_class();
    for (kind, word) in [
        (LocationKind::Class, "class"),
        (LocationKind::Enum, "enum"),
        (LocationKind::Interface, "interface"),
    ] {
        let location = chain(vec![file(), node(kind, "Expr")]);
        let want = vec!["<em>Scanner.java</em>".to_string(), format!("in {} <em>Expr</em>", word)];
        assert_eq!(location.to_html(None, false), want);
        assert_eq!(location.to_html(Some(&preceding), true), want);
        assert_eq!(location.to_html(Some(&location), false), want);
    }
}

#[test]
fn a_function_that_precedes_itself_is_gone_into() {
    let location = method_in_class();
    let want = vec!["<em>Scanner.java</em>", "in class <em>Scanner</em>", "in <em>scanTokens</em>()"];
    assert_eq!(location.to_html(Some(&location), false), want);
    assert_eq!(location.to_html(Some(&location), true), want);
    let constructor = chain(vec![file(), node(LocationKind::Constructor, "Scanner")]);
    assert_eq!(
        constructor.to_html(Some(&constructor), false),
        vec!["<em>Scanner.java</em>", "in <em>Scanner</em>()"]
    );
}

#[test]
fn a_function_that_loses_lines_is_named_with_its_kind() {
    let location = method_in_class();
    let elsewhere = chain(vec![file(), class(), method("other")]);
    assert_eq!(
        location.to_html(Some(&elsewhere), true),
        vec!["<em>Scanner.java</em>", "in class <em>Scanner</em>", "method <em>scanTokens</em>()"]
    );
    assert_eq!(
        location.to_html(None, true),
        vec!["<em>Scanner.java</em>", "in class <em>Scanner</em>", "method <em>scanTokens</em>()"]
    );
    let constructor = chain(vec![file(), node(LocationKind::Constructor, "Scanner")]);
    assert_eq!(
        constructor.to_html(None, true),
        vec!["<em>Scanner.java</em>", "constructor <em>Scanner</em>()"]
    );
    let function = chain(vec![file(), node(LocationKind::Function, "main")]);
    assert_eq!(function.to_html(None, true), vec!["<em>Scanner.java</em>", "function <em>main</em>()"]);
}

#[test]
fn a_node_whose_parent_precedes_goes_into_the_parent() {
    let location = method_in_class();
    let parent = chain(vec![file(), class()]);
    assert_eq!(
        location.to_html(Some(&parent), false),
        vec!["<em>Scanner.java</em>", "in class <em>Scanner</em>", "in class <em>Scanner</em>"]
    );
    let variable = chain(vec![file(), method("run"), node(LocationKind::Variable, "count")]);
    let run = chain(vec![file(), method("run")]);
    assert_eq!(
        variable.to_html(Some(&run), false),
        vec!["<em>Scanner.java</em>", "in <em>run</em>()", "in method <em>run</em>"]
    );
}

#[test]
fn a_parent_that_is_the_file_is_not_gone_into() {
    let location = chain(vec![file(), method("main")]);
    let parent = chain(vec![file()]);
    assert_eq!(location.to_html(Some(&parent), false), vec!["<em>Scanner.java</em>"]);
    let variable = chain(vec![file(), node(LocationKind::Variable, "count")]);
    assert_eq!(variable.to_html(Some(&parent), false), vec!["<em>Scanner.java</em>"]);
}

#[test]
fn a_variable_that_precedes_itself_is_gone_into_without_its_name() {
    let location = chain(vec![file(), node(LocationKind::Variable, "count")]);
    assert_eq!(
        location.to_html(Some(&location), false),
        vec!["<em>Scanner.java</em>", "in variable <em>$name</em>"]
    );
}

#[test]
fn what_follows_a_function_is_added_after_it() {
    let location = method_in_class();
    let preceding = chain(vec![file(), class(), method("advance")]);
    assert_eq!(
        location.to_html(Some(&preceding), false),
        vec![
            "<em>Scanner.java</em>",
            "in class <em>Scanner</em>",
            "add after <em>advance</em>()"
        ]
    );
    let constructor = chain(vec![file(), class(), node(LocationKind::Constructor, "Scanner")]);
    assert_eq!(
        location.to_html(Some(&constructor), false),
        vec![
            "<em>Scanner.java</em>",
            "in class <em>Scanner</em>",
            "add after <em>Scanner</em>()"
        ]
    );
}

#[test]
fn what_follows_anything_else_is_added_after_that() {
    let location = method_in_class();
    let preceding = chain(vec![file(), node(LocationKind::Enum, "TokenType")]);
    assert_eq!(
        location.to_html(Some(&preceding), false),
        vec![
            "<em>Scanner.java</em>",
            "in class <em>Scanner</em>",
            "add after enum <em>TokenType</em>"
        ]
    );
    let deeper = chain(vec![file(), class(), method("x"), node(LocationKind::Variable, "v")]);
    assert_eq!(
        location.to_html(Some(&deeper), false),
        vec![
            "<em>Scanner.java</em>",
            "in class <em>Scanner</em>",
            "add after variable <em>v</em>"
        ]
    );
}

#[test]
fn without_anything_before_a_function_gets_no_phrase() {
    let location = method_in_class();
    let want = vec!["<em>Scanner.java</em>", "in class <em>Scanner</em>"];
    assert_eq!(location.to_html(None, false), want);
    assert_eq!(location.to_html(Some(&chain(vec![file()])), false), want);
    assert_eq!(location.to_html(Some(&chain(vec![])), false), want);
    assert_eq!(
        location.to_html(Some(&chain(vec![node(LocationKind::File, "Other.java")])), false),
        want
    );
}

#[test]
fn an_empty_location_has_no_phrases() {
    assert!(chain(vec![]).to_html(None, true).is_empty());
    assert!(chain(vec![]).to_html(Some(&method_in_class()), false).is_empty());
}

#[test]
fn phrases_are_added_behind_those_that_are_there() {
    let mut phrases = vec!["first".to_string()];
    method_in_class().recurse(&mut phrases, None, true);
    assert_eq!(
        phrases,
        vec![
            "first",
            "<em>Scanner.java</em>",
            "in class <em>Scanner</em>",
            "method <em>scanTokens</em>()"
        ]
    );
}

#[test]
fn one_phrase_is_made_for_one_level() {
    let location = method_in_class();
    assert_eq!(location.phrase_at(0, None, false), Some("<em>Scanner.java</em>".to_string()));
    assert_eq!(location.phrase_at(1, None, false), Some("in class <em>Scanner</em>".to_string()));
    assert_eq!(location.phrase_at(2, None, false), None);
    assert_eq!(
        location.phrase_at(2, Some(&location), false),
        Some("in <em>scanTokens</em>()".to_string())
    );
}
