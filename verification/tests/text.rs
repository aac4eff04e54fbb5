use tree_sitter_mcp::text::quote_list;
use tree_sitter_mcp::order::sort_strings;
use tree_sitter_mcp::paths::{path_extension, path_file_name, path_file_stem, path_join};
use tree_sitter_mcp::prompt::query_guide_text;
use tree_sitter_mcp::text::{join_strings, truncated_text, usize_to_string};

#[test]
fn truncation_keeps_the_first_fifty_characters() {
    let long: String = "é".repeat(70);
    let t = truncated_text(&long);
    assert_eq!(t.chars().count(), 50);
    assert!(long.starts_with(&t));
    assert_eq!(truncated_text("short"), "short");
}

#[test]
fn extension_of_paths() {
    assert_eq!(path_extension("main.rs").as_deref(), Some("rs"));
    assert_eq!(path_extension("src/lib.tar.gz").as_deref(), Some("gz"));
    assert_eq!(path_extension("Makefile"), None);
    assert_eq!(path_extension(".env"), None);
    assert_eq!(path_extension("dir.d/file"), None);
}

#[test]
fn file_name_of_paths() {
    assert_eq!(path_file_name("a/b/c.rs").as_deref(), Some("c.rs"));
    assert_eq!(path_file_name("c.rs").as_deref(), Some("c.rs"));
}

#[test]
fn joining_paths() {
    assert_eq!(path_join("/a", "b"), "/a/b");
    assert_eq!(path_join("/a/", "b"), "/a/b");
    assert_eq!(path_join("", "b"), "b");
    assert_eq!(path_join("/a", "/b"), "/b");
}

#[test]
fn decimal_rendering() {
    assert_eq!(usize_to_string(0), "0");
    assert_eq!(usize_to_string(4096), "4096");
}

#[test]
fn joining_with_separator() {
    let parts = vec!["a".to_string(), "b".to_string(), "c".to_string()];
    assert_eq!(join_strings(&parts, ", "), "a, b, c");
    assert_eq!(join_strings(&Vec::new(), ", "), "");
}

#[test]
fn strings_sort_lexicographically() {
    let v = vec!["rust".to_string(), "python".to_string(), "c".to_string(), "c_sharp".to_string()];
    assert_eq!(sort_strings(v), vec!["c", "c_sharp", "python", "rust"]);
}

#[test]
fn query_guide_lists_the_languages() {
    let text = query_guide_text(&vec!["python".to_string(), "rust".to_string()]);
    assert!(text.starts_with("Tree-sitter S-expression query syntax:"));
    assert!(text.contains("Supported languages on this server: python, rust."));
    assert!(text.contains("(#eq? @capture \"literal\")"));
}

#[test]
fn stem_of_paths() {
    assert_eq!(path_file_stem("/g/rust.so").as_deref(), Some("rust"));
    assert_eq!(path_file_stem("a/b.tar.gz").as_deref(), Some("b.tar"));
    assert_eq!(path_file_stem(".env").as_deref(), Some(".env"));
    assert_eq!(path_file_stem("Makefile").as_deref(), Some("Makefile"));
    assert_eq!(path_file_stem("a/.."), None);
}

#[test]
fn quoting_escapes_quotes_backslashes_and_control_characters() {
    let odd = "a\"b\\c\nd\te\r\u{7}\u{301}'z";
    assert_eq!(quote_list(&vec![odd.to_string()]), format!("[{:?}]", odd));
    assert_eq!(quote_list(&vec![odd.to_string(), "q".to_string()]), format!("{:?}", vec![odd, "q"]));
    assert_eq!(quote_list(&vec!["x".to_string(), "y z".to_string()]), "[\"x\", \"y z\"]");
    assert_eq!(quote_list(&Vec::new()), "[]");
}
