use regex::Regex;
use translation_api::pattern::translation_locale;

fn locale(path: &str) -> Option<String> {
    translation_locale(path)
}

#[test]
fn lower_case_locale_under_lang_matches() {
    assert_eq!(locale("data/foo/lang/en_us.json"), Some("en_us".to_string()));
}

#[test]
fn upper_case_locale_does_not_match() {
    assert_eq!(locale("data/foo/lang/EN_US.json"), None);
}

#[test]
fn other_directory_does_not_match() {
    assert_eq!(locale("data/foo/other/en_us.json"), None);
}

#[test]
fn namespace_may_hold_digits_dots_dashes_and_underscores() {
    assert_eq!(locale("data/my-mod_2.0/lang/de_de.json"), Some("de_de".to_string()));
    assert_eq!(locale("data/a/lang/fr_fr.json"), Some("fr_fr".to_string()));
}

#[test]
fn shortest_path_that_matches_has_one_namespace_character() {
    assert_eq!(locale("data/x/lang/ab_cd.json"), Some("ab_cd".to_string()));
    assert_eq!("data/x/lang/ab_cd.json".len(), 22);
}

#[test]
fn empty_namespace_does_not_match() {
    assert_eq!(locale("data//lang/en_us.json"), None);
}

#[test]
fn namespace_with_other_characters_does_not_match() {
    assert_eq!(locale("data/Foo/lang/en_us.json"), None);
    assert_eq!(locale("data/fo o/lang/en_us.json"), None);
    assert_eq!(locale("data/foo/bar/lang/en_us.json"), None);
    assert_eq!(locale("data/f\u{f6}\u{f6}/lang/en_us.json"), None);
}

#[test]
fn locale_of_another_shape_does_not_match() {
    assert_eq!(locale("data/foo/lang/en.json"), None);
    assert_eq!(locale("data/foo/lang/en-us.json"), None);
    assert_eq!(locale("data/foo/lang/eng_us.json"), None);
    assert_eq!(locale("data/foo/lang/en_usa.json"), None);
    assert_eq!(locale("data/foo/lang/e1_us.json"), None);
    assert_eq!(locale("data/foo/lang/en_Us.json"), None);
}

#[test]
fn the_dot_before_json_is_a_dot() {
    assert_eq!(locale("data/foo/lang/en_usxjson"), None);
    assert_eq!(locale("data/foo/lang/en_us/json"), None);
}

#[test]
fn nothing_may_stand_before_or_behind() {
    assert_eq!(locale("/data/foo/lang/en_us.json"), None);
    assert_eq!(locale("pack/data/foo/lang/en_us.json"), None);
    assert_eq!(locale("data/foo/lang/en_us.json\n"), None);
    assert_eq!(locale("data/foo/lang/en_us.json.bak"), None);
    assert_eq!(locale("assets/foo/lang/en_us.json"), None);
}

#[test]
fn short_and_empty_paths_do_not_match() {
    assert_eq!(locale(""), None);
    assert_eq!(locale("data/"), None);
    assert_eq!(locale("data/lang/en_us.json"), None);
}

#[test]
fn a_path_of_other_scripts_does_not_match() {
    assert_eq!(locale("\u{434}\u{430}\u{442}\u{430}/foo/lang/en_us.json"), None);
    assert_eq!(locale("data/foo/lang/\u{e9}n_us.json"), None);
}

#[test]
fn agrees_with_the_pattern_as_a_regular_expression() {
    let pattern = Regex::new("^data/([a-z0-9_.-]+)/lang/([a-z]{2}_[a-z]{2})\\.json$").unwrap();
    let heads = ["data/", "Data/", "data", "", "/data/", "data/data/"];
    let namespaces = ["foo", "", "a.b-c_d9", "F", "a/b", ".hidden", "x y"];
    let middles = ["/lang/", "/lang", "lang/", "/Lang/", "/other/", "/lang/lang/"];
    let locales = ["en_us", "EN_US", "en_u", "en-us", "e__us", "zz_zz", "en_us1", ""];
    let tails = [".json", "json", ".jso", ".JSON", ".json ", "_json", ".json/"];
    let mut tried = 0;
    let mut matched = 0;
    for head in heads {
        for namespace in namespaces {
            for middle in middles {
                for code in locales {
                    for tail in tails {
                        let path = format!("{head}{namespace}{middle}{code}{tail}");
                        let expected = pattern
                            .captures(&path)
                            .map(|found| found.get(2).unwrap().as_str().to_string());
                        assert_eq!(locale(&path), expected, "{path}");
                        tried += 1;
                        if expected.is_some() {
                            matched += 1;
                        }
                    }
                }
            }
        }
    }
    assert_eq!(tried, 6 * 7 * 6 * 8 * 7);
    assert!(matched >= 6);
}
