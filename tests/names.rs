use deb2nix::config::LibrariesConfig;
use deb2nix::names::{guess_filenames, resolve_by_name};

fn strings(v: &[&str]) -> Vec<String> {
    v.iter().map(|s| s.to_string()).collect()
}

#[test]
fn file_names_are_guessed_from_a_versioned_name() {
    assert_eq!(guess_filenames("libssl3"), strings(&["libssl.so.3", "libssl.so"]));
    assert_eq!(guess_filenames("libfoo-1.2"), strings(&["libfoo.so.1.2", "libfoo.so"]));
    assert_eq!(guess_filenames("libfoo.2"), strings(&["libfoo.so.2", "libfoo.so"]));
    assert_eq!(guess_filenames("libgtk-3-0"), strings(&["libgtk-3.so.0", "libgtk-3.so"]));
}

#[test]
fn file_names_are_guessed_from_a_plain_name() {
    assert_eq!(guess_filenames("libbar"), strings(&["libbar.so"]));
    assert_eq!(guess_filenames("lib3"), strings(&["lib3.so"]));
    assert_eq!(guess_filenames("libfoo1..2"), strings(&["libfoo1..2.so"]));
    assert!(guess_filenames("zlib").is_empty());
    assert!(guess_filenames("").is_empty());
}

#[test]
fn names_resolve_through_the_knowledge_base_first() {
    let mut c = LibrariesConfig::new();
    c.add_mapping("libnss3".to_string(), "nss".to_string());
    c.add_mapping("libssl".to_string(), "openssl".to_string());
    c.add_mapping("curl".to_string(), "curl".to_string());
    let none: Vec<(String, String)> = Vec::new();
    assert_eq!(resolve_by_name("libnss3", &c, &none), Some("nss".to_string()));
    assert_eq!(resolve_by_name("libssl3", &c, &none), Some("openssl".to_string()));
    assert_eq!(resolve_by_name("libcurl4", &c, &none), Some("curl".to_string()));
    assert_eq!(resolve_by_name("libpng16-16", &c, &none), None);
}

#[test]
fn names_resolve_through_guessed_files_in_order() {
    let c = LibrariesConfig::new();
    let located = vec![
        ("libfoo.so".to_string(), "foo-any".to_string()),
        ("libbar.so.2".to_string(), "bar".to_string()),
        ("libbar.so".to_string(), "bar-any".to_string()),
    ];
    assert_eq!(resolve_by_name("libfoo1", &c, &located), Some("foo-any".to_string()));
    assert_eq!(resolve_by_name("libbar2", &c, &located), Some("bar".to_string()));
    assert_eq!(resolve_by_name("zlib", &c, &located), None);
}
