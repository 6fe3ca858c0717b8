use tailcall::init::{config_location, initial_content, summary, FileFormat};
use tailcall::is_default;
use tailcall::kv_cache::{kv_entry, kv_key};
use tailcall::string_map::{is_before, StringMap};
use tailcall::text;
use tailcall::value::Value;

#[test]
fn configuration_files_have_their_place() {
    for (name, format, directory, file) in [
        ("GraphQL", FileFormat::GraphQl, "config", ".tailcallrc.graphql"),
        ("JSON", FileFormat::Json, "config", ".tailcallrc.schema.json"),
        ("YML", FileFormat::Yml, ".", ".graphqlrc.yml"),
    ] {
        assert_eq!(FileFormat::from_name(name), Some(format));
        assert_eq!(format.name(), name);
        assert_eq!(config_location(format), (directory, file));
    }
    assert_eq!(FileFormat::from_name("yml"), None);
    assert_eq!(initial_content(FileFormat::GraphQl), "generated/.tailcallrc.graphql");
    assert_eq!(initial_content(FileFormat::Json), "generated/.tailcallrc.schema.json");
    assert_eq!(initial_content(FileFormat::Yml), ".graphqlrc.yml");
}

#[test]
fn new_projects_are_announced() {
    let (title, source, config) = summary("my-app", FileFormat::Yml);
    assert_eq!(title, "Creating the following project structure:");
    assert_eq!(source, "- my-app/src/main.rs");
    assert_eq!(config, "- my-app/./.graphqlrc.yml");
}

#[test]
fn cache_entries_are_texts() {
    assert_eq!(kv_key(0), "0");
    assert_eq!(kv_key(u64::MAX), u64::MAX.to_string());
    let value = Value::List(vec![Value::String("a".to_string()), Value::Null]);
    let entry = kv_entry(120, &value, 60);
    assert_eq!(entry.key, "120");
    assert_eq!(entry.value, "[\"a\", null]");
    assert_eq!(entry.expiration_ttl, 60);
}

#[test]
fn defaults_are_recognised() {
    assert!(is_default(&0u64));
    assert!(!is_default(&1u64));
    assert!(is_default(&String::new()));
}

#[test]
fn maps_keep_their_keys_in_order() {
    let mut map = StringMap::new();
    for (key, value) in [("b", 1), ("a", 2), ("ab", 3), ("b", 4), ("", 5)] {
        map.insert(key.to_string(), value);
    }
    let pairs: Vec<(String, i32)> =
        (0..map.len()).map(|i| (map.key_at(i).clone(), *map.value_at(i))).collect();
    let expected: Vec<(String, i32)> =
        [("", 5), ("a", 2), ("ab", 3), ("b", 4)].map(|(k, v)| (k.to_string(), v)).to_vec();
    assert_eq!(pairs, expected);
    assert_eq!(map.get("b"), Some(&4));
    assert_eq!(map.get("c"), None);
    assert_eq!(map.clone(), map);
    assert!(StringMap::<u8>::new().is_empty());
    assert!(!map.is_empty());
    assert!(is_before("a", "ab") && !is_before("b", "ab") && !is_before("a", "a"));
}

#[test]
fn texts_are_taken_apart_and_put_together() {
    let parts = vec!["a".to_string(), "".to_string(), "c".to_string()];
    assert_eq!(text::join(&parts, ", "), "a, , c");
    assert_eq!(text::join(&vec![], ", "), "");
    assert_eq!(text::i32_text(i32::MIN), i32::MIN.to_string());
    assert_eq!(text::i32_text(0), "0");
    assert_eq!(text::parse_index("42"), Some(42));
    assert_eq!(text::parse_index("4 2"), None);
    assert!(text::contains("label_repeated", "repeated"));
    assert!(!text::contains("label", "labels"));
    assert!(text::contains("label", ""));
    assert!(text::starts_with("/api/x", "/api"));
    assert_eq!(text::remove_all("aXbXX", "X"), "ab");
    assert_eq!(text::strip_prefix("type_x", "type_"), Some("x".to_string()));
    assert_eq!(text::strip_prefix("typex", "type_"), None);
    assert_eq!(text::final_segment("a.b.c"), "c");
    assert_eq!(text::final_segment("abc"), "abc");
    assert_eq!(text::final_segment("a."), "");
    assert_eq!(text::chars_of("h\u{e9}"), vec!['h', '\u{e9}']);
    assert_eq!(text::lower("TYPE_Int32"), "type_int32");
    assert_eq!(text::lower("\u{c4}B"), "\u{e4}b");
    assert!(text::same("a", "a") && !text::same("a", "b"));
}
