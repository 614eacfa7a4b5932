use codetags::catalog::{CodeTag, TagError};
use codetags::gather::SourceText;
use codetags::location::{Location, LocationKind, LocationNode};
use codetags::references::ChapterText;
use codetags::render::{
    join_phrases, push_prefixed, render_book, render_chapter, render_line, render_line_from,
    render_reference, render_snippet,
};
use codetags::snippet::Snippet;

fn texts(lines: &[&str]) -> Vec<String> {
    lines.iter().map(|l| l.to_string()).collect()
}

fn snippet(name: &str) -> Snippet {
    Snippet {
        code_tag: CodeTag {
            chapter: 0,
            name: name.to_string(),
            index: 0,
            no_location: false,
            before_count: 0,
            after_count: 0,
        },
        location: None,
        preceding_location: None,
        first_line: 0,
        last_line: 0,
        context_before: vec![],
        context_after: vec![],
        added: vec![],
        removed: vec![],
    }
}

fn full_snippet() -> Snippet {
    Snippet {
        location: Some(Location::file("F.java".to_string())),
        context_before: texts(&["a"]),
        removed: texts(&["r"]),
        added: texts(&["x", "  y"]),
        context_after: texts(&["z"]),
        ..snippet("full")
    }
}

fn chapter(name: &str, content: &str) -> ChapterText {
    ChapterText { name: name.to_string(), content: content.to_string() }
}

fn source(path: &str, lines: &[&str]) -> SourceText {
    SourceText { path: path.to_string(), lines: texts(lines) }
}

const FULL: &str = "<pre><code class=\"language-java\">  a\n- r\n+ x\n+   y\n  z\n</code>\n\
<div class=\"location\"><em>F.java</em></div>\n</pre>\n";

fn scanner() -> SourceText {
    source(
        "Scanner.java",
        &[
            "//> Scanning scanner-class",
            "class Scanner {",
            "  private int start = 0;",
            "//> init-scanner",
            "  Scanner(String source) {",
            "    this.source = source;",
            "  }",
            "//< init-scanner",
            "  private int current = 0;",
            "}",
            "//< scanner-class",
        ],
    )
}

const INIT_SCANNER: &str = "<pre><code class=\"language-java\">  class Scanner {\n    private int start = 0;\n\
+   Scanner(String source) {\n+     this.source = source;\n+   }\n    private int current = 0;\n</code>\n\
<div class=\"location\"><em>Scanner.java</em>, in class <em>Scanner</em>, in class <em>Scanner</em></div>\n\
</pre>\n";

const SCANNER_CLASS: &str = "<pre><code class=\"language-java\">+ class Scanner {\n+   private int start = 0;\n\
+   private int current = 0;\n+ }\n</code>\n\
<div class=\"location\"><em>Scanner.java</em>, in class <em>Scanner</em>, create new file</div>\n</pre>\n";

#[test]
fn lines_are_written_with_their_prefix() {
    let mut out = String::from("start:");
    push_prefixed(&mut out, "+ ", &texts(&["a", "", "  b"]));
    assert_eq!(out, "start:+ a\n+ \n+   b\n");
    push_prefixed(&mut out, "- ", &vec![]);
    assert_eq!(out, "start:+ a\n+ \n+   b\n");
}

#[test]
fn phrases_are_joined_with_commas() {
    assert_eq!(join_phrases(&vec![]), "");
    assert_eq!(join_phrases(&texts(&["a"])), "a");
    assert_eq!(join_phrases(&texts(&["a", "b", "c"])), "a, b, c");
    assert_eq!(join_phrases(&texts(&["", ""])), ", ");
}

#[test]
fn a_snippet_shows_context_removed_and_added_lines() {
    assert_eq!(render_snippet(&full_snippet()), FULL);
}

#[test]
fn a_snippet_without_a_location_has_no_breadcrumb() {
    assert_eq!(
        render_snippet(&Snippet { added: texts(&["x"]), ..snippet("bare") }),
        "<pre><code class=\"language-java\">+ x\n</code>\n</pre>\n"
    );
    assert_eq!(render_snippet(&snippet("empty")), "<pre><code class=\"language-java\"></code>\n</pre>\n");
}

#[test]
fn the_breadcrumb_follows_the_location_and_what_precedes() {
    let class = LocationNode {
        kind: LocationKind::Class,
        name: "Scanner".to_string(),
        is_function_declaration: false,
    };
    let method = LocationNode {
        kind: LocationKind::Method,
        name: "scan".to_string(),
        is_function_declaration: false,
    };
    let location = Location::file("F.java".to_string()).child(class).child(method);
    let inside = Snippet {
        location: Some(location.clone()),
        preceding_location: Some(location.clone()),
        added: texts(&["x"]),
        ..snippet("inside")
    };
    assert_eq!(
        render_snippet(&inside),
        "<pre><code class=\"language-java\">+ x\n</code>\n\
<div class=\"location\"><em>F.java</em>, in class <em>Scanner</em>, in <em>scan</em>()</div>\n</pre>\n"
    );
    let replaced = Snippet {
        location: Some(location.clone()),
        preceding_location: None,
        added: texts(&["x"]),
        removed: texts(&["w"]),
        ..snippet("replaced")
    };
    assert_eq!(
        render_snippet(&replaced),
        "<pre><code class=\"language-java\">- w\n+ x\n</code>\n\
<div class=\"location\"><em>F.java</em>, in class <em>Scanner</em>, method <em>scan</em>()</div>\n</pre>\n"
    );
}

#[test]
fn a_reference_without_a_snippet_gives_the_notice() {
    assert_eq!(render_reference("nothing", &vec![]), "<p>Code tag nothing not found</p>\n");
    assert_eq!(
        render_reference("nothing", &vec![full_snippet()]),
        "<p>Code tag nothing not found</p>\n"
    );
    assert_eq!(render_reference("", &vec![full_snippet()]), "<p>Code tag  not found</p>\n");
}

#[test]
fn a_reference_with_a_snippet_gives_the_snippet() {
    assert_eq!(render_reference("full", &vec![snippet("other"), full_snippet()]), FULL);
    let first = Snippet { added: texts(&["first"]), ..snippet("twice") };
    let second = Snippet { added: texts(&["second"]), ..snippet("twice") };
    assert_eq!(
        render_reference("twice", &vec![first, second]),
        "<pre><code class=\"language-java\">+ first\n</code>\n</pre>\n"
    );
}

#[test]
fn a_line_with_a_reference_gives_way() {
    let snippets = vec![full_snippet()];
    assert_eq!(render_line("^code full", &snippets), FULL);
    assert_eq!(render_line("^code full (2 before)", &snippets), FULL);
    assert_eq!(render_line("^code   full and more", &snippets), FULL);
    assert_eq!(render_line("^code other", &snippets), "<p>Code tag other not found</p>\n");
    assert_eq!(render_line("^code full2", &snippets), FULL);
}

#[test]
fn a_line_without_a_reference_stays() {
    let snippets = vec![full_snippet()];
    for line in ["", "Some text.", " ^code full", "see ^code full", "^codefull", "^code Full", "^code"] {
        assert_eq!(render_line(line, &snippets), format!("{}\n", line));
    }
}

#[test]
fn a_line_is_rendered_from_what_the_pattern_captures() {
    let snippets = vec![full_snippet()];
    let named = Some(vec![Some("^code full".to_string()), Some("full".to_string()), None]);
    assert_eq!(render_line_from(&named, "whatever", &snippets), FULL);
    let other = Some(vec![Some("x".to_string()), Some("other".to_string())]);
    assert_eq!(render_line_from(&other, "line", &snippets), "<p>Code tag other not found</p>\n");
    let nameless = Some(vec![Some("x".to_string()), None]);
    assert_eq!(render_line_from(&nameless, "line", &snippets), "line\n");
    assert_eq!(render_line_from(&Some(vec![]), "line", &snippets), "line\n");
    assert_eq!(render_line_from(&None, "line", &snippets), "line\n");
}

#[test]
fn a_chapter_keeps_its_other_lines() {
    let snippets = vec![full_snippet()];
    assert_eq!(render_chapter("", &snippets), "");
    assert_eq!(render_chapter("one\ntwo", &snippets), "one\ntwo\n");
    assert_eq!(render_chapter("one\r\n\r\ntwo\n", &snippets), "one\n\ntwo\n");
    assert_eq!(
        render_chapter("Intro\n^code nothing\nrest", &snippets),
        "Intro\n<p>Code tag nothing not found</p>\nrest\n"
    );
    assert_eq!(
        render_chapter("Intro\n^code full\n\n^code full(1 after)\n", &snippets),
        format!("Intro\n{}\n{}", FULL, FULL)
    );
}

#[test]
fn a_reference_over_two_lines_is_none_in_the_chapter() {
    let snippets = vec![full_snippet()];
    assert_eq!(render_chapter("^code\nfull\n", &snippets), "^code\nfull\n");
}

#[test]
fn a_book_is_rendered_chapter_by_chapter() {
    let chapters = vec![
        chapter("Intro", "Nothing to see.\n"),
        chapter(
            "Scanning",
            "Text\n^code init-scanner(2 before, 1 after)\n^code scanner-class\n^code missing\n",
        ),
    ];
    let rendered = render_book(&chapters, &vec![scanner()]).unwrap();
    assert_eq!(rendered.len(), 2);
    assert_eq!(rendered[0], "Nothing to see.\n");
    assert_eq!(
        rendered[1],
        format!("Text\n{}{}<p>Code tag missing not found</p>\n", INIT_SCANNER, SCANNER_CLASS)
    );
}

#[test]
fn regions_without_markers_are_not_found() {
    let chapters = vec![chapter("Scanning", "^code one\n^code two (1 before)\n^code omit\n")];
    let rendered = render_book(&chapters, &vec![]).unwrap();
    assert_eq!(
        rendered,
        vec![
            "<p>Code tag one not found</p>\n<p>Code tag two not found</p>\n\
<p>Code tag omit not found</p>\n"
        ]
    );
    let elsewhere = render_book(&chapters, &vec![source("A.java", &["//> Scanning one", "//< one"])]);
    assert_eq!(elsewhere.unwrap()[0].matches("not found").count(), 3);
}

#[test]
fn a_book_without_chapters_renders_to_nothing() {
    assert_eq!(render_book(&vec![], &vec![]).unwrap().len(), 0);
}

#[test]
fn a_bad_option_fails_the_book() {
    let chapters = vec![chapter("Scanning", "^code init-scanner(some before)\n")];
    assert_eq!(render_book(&chapters, &vec![scanner()]).err(), Some(TagError::MalformedOption));
}

#[test]
fn a_bad_marker_fails_the_book() {
    let chapters = vec![chapter("Scanning", "^code init-scanner\n^code scanner-class\n")];
    let unmatched = source(
        "Bad.java",
        &["//> Scanning scanner-class", "//> init-scanner", "x", "//< scanner-class", "//< init-scanner"],
    );
    assert_eq!(
        render_book(&chapters, &vec![scanner(), unmatched]).err(),
        Some(TagError::MismatchedEnd)
    );
    let unknown = source("Bad.java", &["//> Scanning scan-tokens", "x", "//< scan-tokens"]);
    assert_eq!(render_book(&chapters, &vec![unknown]).err(), Some(TagError::UnknownTag));
    let outside = source("Bad.java", &["x"]);
    assert_eq!(render_book(&chapters, &vec![outside]).err(), Some(TagError::EmptyStack));
    let wrong_chapter =
        source("Bad.java", &["//> Scanning init-scanner", "x", "//< Parsing init-scanner"]);
    assert_eq!(
        render_book(&chapters, &vec![wrong_chapter]).err(),
        Some(TagError::ChapterMismatch)
    );
}

#[test]
fn a_region_in_a_method_body_goes_into_the_method() {
    let chapters = vec![chapter("Scanning", "^code add-eof\n^code scanner-class\n")];
    let file = source(
        "Scanner.java",
        &[
            "//> Scanning scanner-class",
            "class Scanner {",
            "  List<Token> scanTokens() {",
            "//> add-eof",
            "    tokens.add(new Token(EOF));",
            "//< add-eof",
            "    return tokens;",
            "  }",
            "}",
            "//< scanner-class",
        ],
    );
    let rendered = render_book(&chapters, &vec![file]).unwrap();
    let first = rendered[0].split("</pre>\n").next().unwrap();
    assert_eq!(
        first,
        "<pre><code class=\"language-java\">+     tokens.add(new Token(EOF));\n</code>\n\
<div class=\"location\"><em>Scanner.java</em>, in class <em>Scanner</em>, in <em>scanTokens</em>()</div>\n"
    );
    assert!(!first.contains("create new file"));
    assert!(!first.contains("add to top of file"));
}

#[test]
fn a_region_inside_an_earlier_one_is_shown_without_context() {
    let chapters = vec![chapter("Ch", "^code a(2 before, 2 after)\n^code b(2 before, 2 after)\n")];
    let file = source("F.java", &["//> Ch a", "a1", "a2", "//> b", "b1", "//< b", "a3", "//< a"]);
    let rendered = render_book(&chapters, &vec![file]).unwrap();
    let blocks: Vec<&str> = rendered[0].split("</pre>\n").collect();
    assert_eq!(
        blocks[0],
        "<pre><code class=\"language-java\">+ a1\n+ a2\n+ a3\n</code>\n\
<div class=\"location\"><em>F.java</em>, create new file</div>\n"
    );
    assert_eq!(
        blocks[1],
        "<pre><code class=\"language-java\">+ b1\n</code>\n\
<div class=\"location\"><em>F.java</em>, create new file</div>\n"
    );
}

#[test]
fn a_block_shows_what_a_region_removes() {
    let chapters = vec![chapter(
        "Scanning",
        "^code scanner-class\n^code scan-token\n^code slash (1 before, 2 after)\n",
    )];
    let file = source(
        "Scanner.java",
        &[
            "//> Scanning scanner-class",
            "class Scanner {",
            "//> scan-token",
            "  private void scanToken() {",
            "    char c = advance();",
            "    switch (c) {",
            "/* Scanning scan-token < Scanning slash",
            "      default: break;",
            "*/",
            "//> slash",
            "      case '/': break;",
            "//< slash",
            "    }",
            "  }",
            "//< scan-token",
            "}",
            "//< scanner-class",
        ],
    );
    let rendered = render_book(&chapters, &vec![file]).unwrap();
    let blocks: Vec<&str> = rendered[0].split("</pre>\n").collect();
    assert_eq!(blocks.len(), 4);
    assert_eq!(
        blocks[0],
        "<pre><code class=\"language-java\">+ class Scanner {\n+ }\n</code>\n\
<div class=\"location\"><em>Scanner.java</em>, in class <em>Scanner</em>, create new file</div>\n"
    );
    assert_eq!(
        blocks[1],
        "<pre><code class=\"language-java\">+   private void scanToken() {\n\
+     char c = advance();\n+     switch (c) {\n+       default: break;\n+     }\n+   }\n</code>\n\
<div class=\"location\"><em>Scanner.java</em>, in class <em>Scanner</em>, create new file</div>\n"
    );
    assert_eq!(
        blocks[2],
        "<pre><code class=\"language-java\">-       default: break;\n+       case '/': break;\n\
</code>\n<div class=\"location\"><em>Scanner.java</em>, in class <em>Scanner</em>, \
method <em>scanToken</em>(), create new file</div>\n"
    );
    assert_eq!(blocks[3], "");
}

#[test]
fn a_region_adds_the_lines_between_its_markers() {
    let chapters = vec![chapter("Scanning", "^code token-type\n")];
    let body = ["enum TokenType {", "  LEFT_PAREN, RIGHT_PAREN,", "", "  EOF", "}"];
    let mut lines = vec!["//> Scanning token-type"];
    lines.extend(body);
    lines.push("//< token-type");
    let rendered = render_book(&chapters, &vec![source("TokenType.java", &lines)]).unwrap();
    let added: Vec<&str> = rendered[0]
        .lines()
        .filter(|l| l.starts_with("+ ") || l.contains(">+ "))
        .map(|l| l.split_once("+ ").unwrap().1)
        .collect();
    assert_eq!(added, body);
    assert!(!rendered[0].contains("\n- "));
    assert!(!rendered[0].contains("\n  "));
}
