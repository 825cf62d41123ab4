use lox::config::{join_path, Config};
use lox::text::{chars_of, contains_ignore_case, white_space};

#[test]
fn default_config_is_empty() {
    let c = Config::default();
    assert!(c.host.is_empty() && c.user.is_empty() && c.pass.is_empty());
    assert!(c.serial.is_empty() && c.data_dir.is_empty() && c.aliases.is_empty());
}

#[test]
fn config_file_path() {
    assert_eq!(Config::path("/home/me/.lox"), "/home/me/.lox/config.yaml");
    assert_eq!(Config::path(""), "config.yaml");
}

#[test]
fn joining_paths() {
    assert_eq!(join_path("a", "b"), "a/b");
    assert_eq!(join_path("a/", "b"), "a/b");
    assert_eq!(join_path("", "b"), "b");
    assert_eq!(join_path("/", "b"), "/b");
}

#[test]
fn aliases_first_entry_wins() {
    let mut c = Config::default();
    c.aliases = vec![
        ("kitchen".to_string(), "uuid-1".to_string()),
        ("kitchen".to_string(), "uuid-2".to_string()),
        ("bed".to_string(), "uuid-3".to_string()),
    ];
    assert_eq!(c.alias("kitchen"), Some("uuid-1".to_string()));
    assert_eq!(c.alias("bed"), Some("uuid-3".to_string()));
    assert_eq!(c.alias("Kitchen"), None);
}

#[test]
fn case_insensitive_containment() {
    assert!(contains_ignore_case("LightControllerV2", "controller"));
    assert!(contains_ignore_case("Schlafzimmer", "SCHLAF"));
    assert!(contains_ignore_case("ÄRGER", "ärg"));
    assert!(contains_ignore_case("anything", ""));
    assert!(!contains_ignore_case("", "x"));
    assert!(!contains_ignore_case("Küche", "kueche"));
}

#[test]
fn white_space_as_std() {
    for c in [' ', '\t', '\n', '\r', '\u{85}', '\u{a0}', '\u{2003}', '\u{3000}', 'a', '_', '\u{200b}'] {
        assert_eq!(white_space(c), c.is_whitespace(), "char {:?}", c);
    }
}

#[test]
fn characters_of_text() {
    assert_eq!(chars_of("Kü"), vec!['K', 'ü']);
}
