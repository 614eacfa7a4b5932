use codetags::catalog::{Chapter, CodeBook, CodeTag, TagError};
use codetags::references::{
    add_reference, add_references, collect_code_tags, parse_options, ChapterText, ReferenceOptions,
};

fn chapter(name: &str, content: &str) -> ChapterText {
    ChapterText { name: name.to_string(), content: content.to_string() }
}

fn tag(chapter: usize, index: usize, name: &str) -> CodeTag {
    CodeTag {
        chapter,
        name: name.to_string(),
        index,
        no_location: false,
        before_count: 0,
        after_count: 0,
    }
}

fn names(chapter: &Chapter) -> Vec<String> {
    chapter.code_tags.iter().map(|t| t.name.clone()).collect()
}

fn book() -> CodeBook {
    collect_code_tags(&vec![
        chapter(
            "Scanning",
            "Some words.\n^code init-scanner(2 before, 1 after)\nMore words.\n^code scan-tokens\n",
        ),
        chapter("Parsing", "^code parser (no location)\n"),
    ])
    .unwrap()
}

fn options(no_location: bool, before_count: u32, after_count: u32) -> ReferenceOptions {
    ReferenceOptions { no_location, before_count, after_count }
}

#[test]
fn regions_are_ordered_by_chapter_then_by_position() {
    assert!(tag(0, 1, "a").is_before(&tag(0, 2, "b")));
    assert!(!tag(0, 2, "a").is_before(&tag(0, 1, "b")));
    assert!(!tag(0, 1, "a").is_before(&tag(0, 1, "b")));
    assert!(tag(0, 9, "a").is_before(&tag(1, 0, "b")));
    assert!(!tag(1, 0, "a").is_before(&tag(0, 9, "b")));
}

#[test]
fn the_catalog_lists_the_references_of_each_chapter() {
    let book = book();
    assert_eq!(book.chapters.len(), 3);
    assert_eq!(book.chapters[0].name, "Scanning");
    assert_eq!(names(&book.chapters[0]), vec!["init-scanner", "scan-tokens"]);
    assert_eq!(book.chapters[1].name, "Parsing");
    assert_eq!(names(&book.chapters[1]), vec!["parser"]);
    let first = &book.chapters[0].code_tags[0];
    assert_eq!((first.chapter, first.index), (0, 0));
    assert_eq!((first.before_count, first.after_count, first.no_location), (2, 1, false));
    let second = &book.chapters[0].code_tags[1];
    assert_eq!((second.chapter, second.index), (0, 1));
    assert_eq!((second.before_count, second.after_count, second.no_location), (0, 0, false));
    let third = &book.chapters[1].code_tags[0];
    assert_eq!((third.chapter, third.index), (1, 0));
    assert_eq!((third.before_count, third.after_count, third.no_location), (0, 0, true));
}

#[test]
fn the_last_chapter_holds_the_two_regions_for_all() {
    let book = book();
    let last = &book.chapters[2];
    assert_eq!(last.name, "$static$");
    assert_eq!(names(last), vec!["omit", "not-yet"]);
    assert_eq!((last.code_tags[0].chapter, last.code_tags[0].index), (2, 0));
    assert_eq!((last.code_tags[1].chapter, last.code_tags[1].index), (2, 1));
    assert!(last.code_tags[0].is_before(&last.code_tags[1]));
    assert!(book.chapters[1].code_tags[0].is_before(&last.code_tags[0]));
}

#[test]
fn documentation_without_references_has_the_last_chapter_only() {
    let book = collect_code_tags(&vec![chapter("Intro", "nothing here\n")]).unwrap();
    assert_eq!(book.chapters.len(), 1);
    assert_eq!(book.chapters[0].name, "$static$");
    let empty = collect_code_tags(&vec![]).unwrap();
    assert_eq!(empty.chapters.len(), 1);
    assert_eq!(empty.chapters[0].code_tags[0].chapter, 0);
}

#[test]
fn a_chapter_without_references_is_not_listed() {
    let book =
        collect_code_tags(&vec![chapter("Intro", "no refs"), chapter("Scanning", "^code a\n")])
            .unwrap();
    assert_eq!(book.chapters.len(), 2);
    assert_eq!(book.chapters[0].name, "Scanning");
    assert_eq!(book.chapters[0].code_tags[0].chapter, 0);
}

#[test]
fn a_second_reference_to_a_name_makes_no_second_region() {
    let book =
        collect_code_tags(&vec![chapter("C", "^code a\n^code b\n^code a(3 before)\n^code c\n")])
            .unwrap();
    assert_eq!(names(&book.chapters[0]), vec!["a", "b", "c"]);
    assert_eq!(book.chapters[0].code_tags[0].before_count, 0);
    assert_eq!(book.chapters[0].code_tags[2].index, 2);
}

#[test]
fn chapters_of_one_name_share_their_regions() {
    let book = collect_code_tags(&vec![
        chapter("C", "^code a\n"),
        chapter("D", "^code x\n"),
        chapter("C", "^code b\n^code a\n"),
    ])
    .unwrap();
    assert_eq!(book.chapters.len(), 3);
    assert_eq!(names(&book.chapters[0]), vec!["a", "b"]);
    assert_eq!(book.chapters[0].code_tags[1].index, 1);
    assert_eq!(book.chapters[0].code_tags[1].chapter, 0);
    assert_eq!(names(&book.chapters[1]), vec!["x"]);
}

#[test]
fn a_reference_starts_its_line() {
    let book = collect_code_tags(&vec![chapter("C", "see ^code a\n ^code b\n^code c\n")]).unwrap();
    assert_eq!(names(&book.chapters[0]), vec!["c"]);
}

#[test]
fn a_reference_may_run_over_the_end_of_its_line() {
    let book = collect_code_tags(&vec![chapter("C", "^code\n  a (1\n before)\n")]).unwrap();
    assert_eq!(names(&book.chapters[0]), vec!["a"]);
    assert_eq!(book.chapters[0].code_tags[0].before_count, 1);
}

#[test]
fn options_are_read_from_left_to_right() {
    assert_eq!(parse_options(""), Ok(options(false, 0, 0)));
    assert_eq!(parse_options("no location"), Ok(options(true, 0, 0)));
    assert_eq!(parse_options("2 before"), Ok(options(false, 2, 0)));
    assert_eq!(parse_options("3 after"), Ok(options(false, 0, 3)));
    assert_eq!(parse_options(" 2 before , 1 after "), Ok(options(false, 2, 1)));
    assert_eq!(
        parse_options("no location, 1 before, 2 after, whatever"),
        Ok(options(true, 1, 2))
    );
    assert_eq!(parse_options("1 before, 5 before"), Ok(options(false, 5, 0)));
    assert_eq!(parse_options("2   before"), Ok(options(false, 2, 0)));
    assert_eq!(parse_options("+3 after"), Ok(options(false, 0, 3)));
    assert_eq!(parse_options("4294967295 after"), Ok(options(false, 0, 4294967295)));
}

#[test]
fn options_that_are_not_known_are_passed_over() {
    assert_eq!(parse_options("before"), Ok(options(false, 0, 0)));
    assert_eq!(parse_options("2before"), Ok(options(false, 0, 0)));
    assert_eq!(parse_options("no  location"), Ok(options(false, 0, 0)));
    assert_eq!(parse_options(",,"), Ok(options(false, 0, 0)));
    assert_eq!(parse_options("2 before 3"), Ok(options(false, 0, 0)));
}

#[test]
fn a_count_that_is_no_number_fails() {
    assert_eq!(parse_options("x before"), Err(TagError::MalformedOption));
    assert_eq!(parse_options("two after"), Err(TagError::MalformedOption));
    assert_eq!(parse_options("-1 after"), Err(TagError::MalformedOption));
    assert_eq!(parse_options("4294967296 before"), Err(TagError::MalformedOption));
    assert_eq!(parse_options("1 2 before"), Err(TagError::MalformedOption));
    assert_eq!(parse_options("1 before, x after, 2 before"), Err(TagError::MalformedOption));
    assert_eq!(parse_options("x after, no location"), Err(TagError::MalformedOption));
}

#[test]
fn a_reference_with_a_bad_count_fails_the_catalog() {
    let failed = collect_code_tags(&vec![
        chapter("C", "^code a\n"),
        chapter("D", "^code b(many before)\n"),
        chapter("E", "^code c\n"),
    ]);
    assert_eq!(failed.err(), Some(TagError::MalformedOption));
}

#[test]
fn a_chapter_is_found_by_its_name() {
    let book = book();
    assert_eq!(book.find_chapter("Parsing").map(|c| c.code_tags.len()), Some(1));
    assert_eq!(book.find_chapter("$static$").map(|c| c.code_tags.len()), Some(2));
    assert!(book.find_chapter("Parsin").is_none());
    assert!(book.find_chapter("").is_none());
}

#[test]
fn a_region_is_found_in_its_chapter_by_its_name() {
    let book = book();
    let found = book.chapters[0].find_code_tag("scan-tokens").unwrap();
    assert_eq!((found.chapter, found.index), (0, 1));
    assert!(book.chapters[0].find_code_tag("parser").is_none());
    assert!(book.chapters[0].find_code_tag("omit").is_none());
}

#[test]
fn a_region_is_looked_up_from_a_chapter() {
    let book = book();
    let found = book.find_code_tag("Scanning", "init-scanner").unwrap();
    assert_eq!((found.chapter, found.index), (0, 0));
    assert!(book.find_code_tag("Parsing", "init-scanner").is_none());
    assert!(book.find_code_tag("Nowhere", "init-scanner").is_none());
    assert!(book.find_code_tag("Scanning", "nothing").is_none());
}

#[test]
fn the_regions_for_all_are_found_from_everywhere() {
    let book = book();
    for from in ["Scanning", "Parsing", "$static$", "Nowhere", ""] {
        let omit = book.find_code_tag(from, "omit").unwrap();
        assert_eq!((omit.chapter, omit.index), (2, 0));
        let not_yet = book.find_code_tag(from, "not-yet").unwrap();
        assert_eq!((not_yet.chapter, not_yet.index), (2, 1));
    }
}

#[test]
fn the_regions_for_all_come_before_a_chapters_own() {
    let book = collect_code_tags(&vec![chapter("C", "^code omit(4 before)\n")]).unwrap();
    assert_eq!(names(&book.chapters[0]), vec!["omit"]);
    let found = book.find_code_tag("C", "omit").unwrap();
    assert_eq!((found.chapter, found.before_count), (1, 0));
}

#[test]
fn references_are_taken_in_one_by_one() {
    let mut chapters: Vec<Chapter> = Vec::new();
    add_reference(&mut chapters, "C", "a", options(false, 1, 2));
    add_reference(&mut chapters, "D", "b", options(true, 0, 0));
    add_reference(&mut chapters, "C", "c", options(false, 0, 0));
    add_reference(&mut chapters, "C", "a", options(false, 9, 9));
    assert_eq!(chapters.len(), 2);
    assert_eq!(names(&chapters[0]), vec!["a", "c"]);
    assert_eq!(names(&chapters[1]), vec!["b"]);
    assert_eq!(chapters[0].code_tags[0].before_count, 1);
    assert_eq!(chapters[0].code_tags[0].after_count, 2);
    assert_eq!((chapters[0].code_tags[1].chapter, chapters[0].code_tags[1].index), (0, 1));
    assert!(chapters[1].code_tags[0].no_location);
}

#[test]
fn matches_without_a_name_are_passed_over() {
    let groups = vec![
        vec![Some("^code a(1 after)".to_string()), Some("a".to_string()), Some("1 after".to_string())],
        vec![Some("^code".to_string()), None, None],
        vec![Some("^code b".to_string()), Some("b".to_string()), None],
        vec![Some("x".to_string())],
    ];
    let chapters = add_references(Vec::new(), "C", &groups).unwrap();
    assert_eq!(chapters.len(), 1);
    assert_eq!(names(&chapters[0]), vec!["a", "b"]);
    assert_eq!(chapters[0].code_tags[0].after_count, 1);
    let bad = vec![vec![None, Some("a".to_string()), Some("x after".to_string())]];
    assert_eq!(add_references(Vec::new(), "C", &bad).err(), Some(TagError::MalformedOption));
}
