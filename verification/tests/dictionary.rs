use translation_api::dictionary::{Dictionary, TranslationsMap};

fn text(s: &str) -> String {
    s.to_string()
}

#[test]
fn new_dictionary_is_empty() {
    let dictionary = Dictionary::new();
    assert_eq!(dictionary.len(), 0);
    assert!(!dictionary.contains_key("a"));
    assert_eq!(dictionary.get("a"), None);
    assert_eq!(dictionary.entry(0), None);
}

#[test]
fn insert_adds_a_key_and_says_it_was_new() {
    let mut dictionary = Dictionary::new();
    assert!(!dictionary.insert(text("a"), text("1")));
    assert_eq!(dictionary.len(), 1);
    assert_eq!(dictionary.get("a"), Some(&text("1")));
    assert!(dictionary.contains_key("a"));
}

#[test]
fn insert_replaces_a_value_and_keeps_the_place_of_the_key() {
    let mut dictionary = Dictionary::new();
    dictionary.insert(text("a"), text("1"));
    dictionary.insert(text("b"), text("2"));
    assert!(dictionary.insert(text("a"), text("3")));
    assert_eq!(dictionary.len(), 2);
    assert_eq!(dictionary.entry(0), Some((&text("a"), &text("3"))));
    assert_eq!(dictionary.entry(1), Some((&text("b"), &text("2"))));
    assert_eq!(dictionary.entry(2), None);
}

#[test]
fn from_pairs_lets_the_later_pair_win() {
    let dictionary = Dictionary::from_pairs(vec![
        (text("k"), text("first")),
        (text("other"), text("x")),
        (text("k"), text("second")),
    ]);
    assert_eq!(dictionary.len(), 2);
    assert_eq!(dictionary.get("k"), Some(&text("second")));
    assert_eq!(dictionary.get("other"), Some(&text("x")));
}

#[test]
fn keys_are_told_apart_by_every_character() {
    let mut dictionary = Dictionary::new();
    dictionary.insert(text("key"), text("1"));
    dictionary.insert(text("Key"), text("2"));
    dictionary.insert(text("key "), text("3"));
    dictionary.insert(text(""), text("4"));
    assert_eq!(dictionary.len(), 4);
    assert_eq!(dictionary.get("key"), Some(&text("1")));
    assert_eq!(dictionary.get(""), Some(&text("4")));
}

#[test]
fn new_translations_map_has_no_locale() {
    let map = TranslationsMap::new();
    assert_eq!(map.len(), 0);
    assert!(map.locales().is_empty());
    assert!(map.get("en_us").is_none());
    assert!(map.all_keys().is_empty());
    assert_eq!(map.locale(0), None);
}

#[test]
fn add_locale_makes_a_locale_known_once() {
    let mut map = TranslationsMap::new();
    map.add_locale("en_us");
    map.add_locale("en_us");
    assert_eq!(map.len(), 1);
    assert!(map.contains_key("en_us"));
    assert_eq!(map.get("en_us").unwrap().len(), 0);
    assert_eq!(map.locale(0), Some(&text("en_us")));
}

#[test]
fn add_locale_keeps_the_keys_of_a_known_locale() {
    let mut map = TranslationsMap::new();
    map.insert("en_us", text("a"), text("1"));
    map.add_locale("en_us");
    assert_eq!(map.get("en_us").unwrap().get("a"), Some(&text("1")));
}

#[test]
fn insert_into_map_keeps_locales_apart() {
    let mut map = TranslationsMap::new();
    assert!(!map.insert("en_us", text("greeting"), text("Hello")));
    assert!(!map.insert("fr_fr", text("greeting"), text("Bonjour")));
    assert!(map.insert("en_us", text("greeting"), text("Hi")));
    assert_eq!(map.locales(), vec![text("en_us"), text("fr_fr")]);
    assert_eq!(map.get("en_us").unwrap().get("greeting"), Some(&text("Hi")));
    assert_eq!(map.get("fr_fr").unwrap().get("greeting"), Some(&text("Bonjour")));
}

#[test]
fn all_keys_names_each_key_once() {
    let mut map = TranslationsMap::new();
    map.insert("en_us", text("a"), text("1"));
    map.insert("en_us", text("b"), text("2"));
    map.insert("fr_fr", text("b"), text("3"));
    map.insert("fr_fr", text("c"), text("4"));
    assert_eq!(map.all_keys(), vec![text("a"), text("b"), text("c")]);
}

#[test]
fn contains_entry_asks_for_locale_and_key() {
    let mut map = TranslationsMap::new();
    map.insert("en_us", text("a"), text("1"));
    map.add_locale("fr_fr");
    assert!(map.contains_entry("en_us", "a"));
    assert!(!map.contains_entry("en_us", "b"));
    assert!(!map.contains_entry("fr_fr", "a"));
    assert!(!map.contains_entry("de_de", "a"));
}
