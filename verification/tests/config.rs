use codetags::config::{
    is_source_extension, supports_renderer, Configuration, SrcRoot, DEFAULT_SRC_ROOT,
    PREPROCESSOR_NAME, SOURCE_EXTENSION,
};

#[test]
fn the_preprocessor_has_its_name() {
    assert_eq!(PREPROCESSOR_NAME, "codetags");
}

#[test]
fn html_is_the_renderer_that_is_supported() {
    assert!(supports_renderer("html"));
    assert!(!supports_renderer("markdown"));
    assert!(!supports_renderer("HTML"));
    assert!(!supports_renderer("html "));
    assert!(!supports_renderer(""));
}

#[test]
fn without_a_table_the_sources_are_at_the_root() {
    assert_eq!(Configuration::default().src_root, "");
}

#[test]
fn a_text_under_src_root_is_the_path() {
    let configuration = Configuration::from_setting(SrcRoot::Text("code/java".to_string()));
    assert_eq!(configuration.src_root, "code/java");
    assert_eq!(Configuration::from_setting(SrcRoot::Text(String::new())).src_root, "");
}

#[test]
fn anything_else_under_src_root_gives_the_usual_path() {
    assert_eq!(DEFAULT_SRC_ROOT, "../src");
    assert_eq!(Configuration::from_setting(SrcRoot::Missing).src_root, "../src");
    assert_eq!(Configuration::from_setting(SrcRoot::Other).src_root, "../src");
}

#[test]
fn java_files_are_the_sources() {
    assert_eq!(SOURCE_EXTENSION, "java");
    assert!(is_source_extension("java"));
    assert!(!is_source_extension("Java"));
    assert!(!is_source_extension("jav"));
    assert!(!is_source_extension("rs"));
    assert!(!is_source_extension(""));
}
