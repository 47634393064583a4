//! Tests for the extension classifier: detection, classification and
//! stripping of the supported suffixes.

use shell_extensions::get_shell_extension;
use shell_extensions::has_shell_extension;
use shell_extensions::strip_shell_extension;
use shell_extensions::ShellExtension;

#[test]
fn test_extension_detection() {
    let fish_path = String::from("test.fish");
    let nos_path = String::from("test.nos");
    let other_path = String::from("test.txt");

    assert_eq!(get_shell_extension(&fish_path), Some(ShellExtension::Fish));
    assert_eq!(get_shell_extension(&nos_path), Some(ShellExtension::Nos));
    assert_eq!(get_shell_extension(&other_path), None);
}

#[test]
fn test_strip_extension() {
    let fish_path = String::from("test.fish");
    let nos_path = String::from("test.nos");
    let other_path = String::from("test.txt");

    assert_eq!(
        strip_shell_extension(&fish_path).map(|s| s.to_string()),
        Some("test".to_string())
    );
    assert_eq!(
        strip_shell_extension(&nos_path).map(|s| s.to_string()),
        Some("test".to_string())
    );
    assert_eq!(strip_shell_extension(&other_path), None);
}

#[test]
fn test_extension_recognition() {
    let fish_path = "/path/to/script.fish";
    let nos_path = "/path/to/script.nos";
    let other_path = "/path/to/script.txt";

    assert_eq!(has_shell_extension(fish_path), true);
    assert_eq!(has_shell_extension(nos_path), true);
    assert_eq!(has_shell_extension(other_path), false);

    assert_eq!(get_shell_extension(fish_path), Some(ShellExtension::Fish));
    assert_eq!(get_shell_extension(nos_path), Some(ShellExtension::Nos));
    assert_eq!(get_shell_extension(other_path), None);

    assert_eq!(
        strip_shell_extension(fish_path).map(|s| s.to_string()),
        Some("/path/to/script".into())
    );
    assert_eq!(
        strip_shell_extension(nos_path).map(|s| s.to_string()),
        Some("/path/to/script".into())
    );
    assert_eq!(strip_shell_extension(other_path), None);
}

#[test]
fn test_unsupported_suffix_is_fully_rejected() {
    // The classifier, the suffix test and the stripper agree on a path
    // that ends with no registered suffix.
    assert_eq!(get_shell_extension("script.txt"), None);
    assert_eq!(has_shell_extension("script.txt"), false);
    assert_eq!(strip_shell_extension("script.txt"), None);
}

#[test]
fn test_strip_both_conventions() {
    assert_eq!(strip_shell_extension("config.nos"), Some("config"));
    assert_eq!(strip_shell_extension("config.fish"), Some("config"));
}

#[test]
fn test_suffix_match_is_exact_and_case_sensitive() {
    // A near miss on case or on the dot does not count as a match.
    assert_eq!(has_shell_extension("test.FISH"), false);
    assert_eq!(has_shell_extension("test.Nos"), false);
    assert_eq!(has_shell_extension("testnos"), false);
    assert_eq!(get_shell_extension("test.FISH"), None);
    assert_eq!(strip_shell_extension("testnos"), None);
    // The bare suffix itself is a match, with an empty base name.
    assert_eq!(has_shell_extension(".nos"), true);
    assert_eq!(strip_shell_extension(".nos"), Some(""));
    assert_eq!(strip_shell_extension(".fish"), Some(""));
    // Too short to carry the suffix at all.
    assert_eq!(has_shell_extension("os"), false);
    assert_eq!(has_shell_extension(""), false);
}

#[test]
fn test_multibyte_paths() {
    // Comparisons run over code points, so multi-byte characters in the
    // base name do not disturb suffix handling.
    assert_eq!(get_shell_extension("f\u{00fc}r.nos"), Some(ShellExtension::Nos));
    assert_eq!(strip_shell_extension("f\u{00fc}r.nos"), Some("f\u{00fc}r"));
    assert_eq!(has_shell_extension("\u{65e5}\u{672c}.fish"), true);
    assert_eq!(strip_shell_extension("\u{65e5}\u{672c}.fish"), Some("\u{65e5}\u{672c}"));
}

#[test]
fn test_registry_order_and_suffix_forms() {
    let all = ShellExtension::all_extensions();
    assert_eq!(all, vec![ShellExtension::Nos, ShellExtension::Fish]);

    assert_eq!(ShellExtension::Nos.as_str(), ".nos");
    assert_eq!(ShellExtension::Fish.as_str(), ".fish");

    // The wide form spells out the same suffix, code point by code point.
    assert_eq!(ShellExtension::Nos.as_wstr(), vec!['.', 'n', 'o', 's']);
    assert_eq!(ShellExtension::Fish.as_wstr(), vec!['.', 'f', 'i', 's', 'h']);
    for ext in &all {
        let narrow: Vec<char> = ext.as_str().chars().collect();
        assert_eq!(narrow, ext.as_wstr());
    }
}
