use apk::name::is_valid_component;
use apk::name::is_valid_entry_name;
use apk::name::is_valid_prefix;
use apk::name::join_names;

#[test]
fn entry_names_are_relative_paths_with_forward_slashes() {
    assert!(is_valid_entry_name("a"));
    assert!(is_valid_entry_name("AndroidManifest.xml"));
    assert!(is_valid_entry_name("lib/arm64-v8a/libmain.so"));
    assert!(is_valid_entry_name("assets/ünïcödé/ß.txt"));
    assert!(is_valid_entry_name("a/"));
    assert!(!is_valid_entry_name(""));
    assert!(!is_valid_entry_name("/"));
    assert!(!is_valid_entry_name("/etc/passwd"));
    assert!(!is_valid_entry_name("lib\\x.so"));
    assert!(!is_valid_entry_name("\\"));
    assert!(!is_valid_entry_name("a/b\\"));
}

#[test]
fn components_hold_no_separator() {
    assert!(is_valid_component("a.txt"));
    assert!(is_valid_component("..."));
    assert!(is_valid_component(".a"));
    assert!(is_valid_component("a."));
    assert!(is_valid_component("..a"));
    assert!(!is_valid_component("."));
    assert!(!is_valid_component(".."));
    assert!(is_valid_component("ß"));
    assert!(!is_valid_component(""));
    assert!(!is_valid_component("a/b"));
    assert!(!is_valid_component("/"));
    assert!(!is_valid_component("a\\b"));
}

#[test]
fn prefixes_are_empty_or_entry_names() {
    assert!(is_valid_prefix(""));
    assert!(is_valid_prefix("assets"));
    assert!(is_valid_prefix("assets/"));
    assert!(is_valid_prefix("a/b/c"));
    assert!(!is_valid_prefix("/assets"));
    assert!(!is_valid_prefix("a\\b"));
}

#[test]
fn joining_puts_one_slash_between() {
    assert_eq!(join_names("", "a.txt"), "a.txt");
    assert_eq!(join_names("assets", "a.txt"), "assets/a.txt");
    assert_eq!(join_names("assets/", "a.txt"), "assets/a.txt");
    assert_eq!(join_names("assets/sub", "b.txt"), "assets/sub/b.txt");
    assert_eq!(join_names("é", "ü"), "é/ü");
    assert_eq!(join_names("a", ""), "a/");
}
