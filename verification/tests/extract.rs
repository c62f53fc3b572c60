use std::collections::BTreeMap;
use std::io::{Cursor, Write};

use translation_api::dictionary::Dictionary;
use translation_api::extract::{
    datapacks_in, extract_lang_files_from_dir, extract_lang_files_from_zip, is_hidden,
    mod_archives_in, Contents, FolderEntry, PackFile, TranslationSource, PACK_META_FILE,
};
use translation_api::util::ApiError;
use zip::write::FileOptions;
use zip::ZipWriter;

fn owned(s: &str) -> String {
    s.to_string()
}

fn file_entry(name: &str) -> FolderEntry {
    FolderEntry { name: owned(name), path: format!("root/{name}"), is_dir: false, has_pack_meta: false }
}

fn dir_entry(name: &str, has_pack_meta: bool) -> FolderEntry {
    FolderEntry { name: owned(name), path: format!("root/{name}"), is_dir: true, has_pack_meta }
}

fn pack_file(path: &str, content: &str) -> PackFile {
    PackFile { path: owned(path), content: owned(content) }
}

fn lang(locale: &str, content: &str) -> TranslationSource {
    TranslationSource::LangJson { locale: owned(locale), content: owned(content) }
}

fn archive_of(files: &[(&str, &[u8])]) -> Vec<u8> {
    let mut writer = ZipWriter::new(Cursor::new(Vec::new()));
    for (name, content) in files {
        writer.start_file(*name, FileOptions::default()).unwrap();
        writer.write_all(content).unwrap();
    }
    writer.finish().unwrap().into_inner()
}

#[test]
fn pack_meta_file_is_pack_mcmeta() {
    assert_eq!(PACK_META_FILE, "pack.mcmeta");
}

#[test]
fn names_that_start_with_a_dot_are_hidden() {
    assert!(is_hidden(".git"));
    assert!(is_hidden("."));
    assert!(is_hidden(".."));
    assert!(!is_hidden("data"));
    assert!(!is_hidden("a.b"));
    assert!(!is_hidden(""));
    assert!(!is_hidden("\u{e9}.x"));
}

#[test]
fn mods_directory_keeps_jars_only() {
    let entries = vec![
        file_entry("a.jar"),
        file_entry("readme.txt"),
        file_entry("b.zip"),
        file_entry("c.jar"),
        file_entry("jar"),
        file_entry(".jar"),
        file_entry("d.JAR"),
        file_entry("e.jar.disabled"),
        file_entry("f.tar.jar"),
        file_entry("\u{fc}ber.jar"),
    ];
    assert_eq!(
        mod_archives_in(&entries),
        vec![
            TranslationSource::ZipPack(owned("root/a.jar")),
            TranslationSource::ZipPack(owned("root/c.jar")),
            TranslationSource::ZipPack(owned("root/f.tar.jar")),
            TranslationSource::ZipPack(owned("root/\u{fc}ber.jar")),
        ]
    );
}

#[test]
fn mods_directory_takes_a_directory_named_like_a_jar() {
    let entries = vec![dir_entry("folder.jar", false)];
    assert_eq!(mod_archives_in(&entries), vec![TranslationSource::ZipPack(owned("root/folder.jar"))]);
}

#[test]
fn empty_mods_directory_has_no_children() {
    assert_eq!(mod_archives_in(&Vec::new()), Vec::new());
}

#[test]
fn datapacks_directory_keeps_marked_directories_and_zips() {
    let entries = vec![
        dir_entry("pack_one", true),
        dir_entry("not_a_pack", false),
        file_entry("pack_two.zip"),
        file_entry("mod.jar"),
        file_entry("notes.txt"),
        dir_entry("folder.zip", false),
        dir_entry("marked.zip", true),
    ];
    assert_eq!(
        datapacks_in(&entries),
        vec![
            TranslationSource::DirectoryPack(owned("root/pack_one")),
            TranslationSource::ZipPack(owned("root/pack_two.zip")),
            TranslationSource::DirectoryPack(owned("root/marked.zip")),
        ]
    );
}

#[test]
fn directory_package_gives_its_lang_files() {
    let files = vec![
        pack_file("pack.mcmeta", "{}"),
        pack_file("data/foo/lang/en_us.json", "{\"key1\":\"hello\"}"),
        pack_file("data/foo/recipes/cake.json", "{}"),
        pack_file("data/bar/lang/fr_fr.json", "{\"key1\":\"bonjour\"}"),
        pack_file("data/foo/lang/EN_US.json", "{}"),
    ];
    assert_eq!(
        extract_lang_files_from_dir(&files),
        vec![lang("en_us", "{\"key1\":\"hello\"}"), lang("fr_fr", "{\"key1\":\"bonjour\"}")]
    );
}

#[test]
fn directory_package_skips_hidden_parts() {
    let files = vec![
        pack_file("data/.secret/lang/en_us.json", "{\"a\":\"1\"}"),
        pack_file("data/a.b/lang/en_us.json", "{\"a\":\"2\"}"),
    ];
    assert_eq!(extract_lang_files_from_dir(&files), vec![lang("en_us", "{\"a\":\"2\"}")]);
}

#[test]
fn archive_gives_its_lang_files_in_order() {
    let bytes = archive_of(&[
        ("META-INF/MANIFEST.MF", b"Manifest-Version: 1.0\n"),
        ("data/foo/lang/en_us.json", b"{\"greeting\":\"Hello\"}"),
        ("com/example/Main.class", &[0xca, 0xfe, 0xba, 0xbe, 0xff, 0xfe]),
        ("data/foo/lang/de_de.json", b"{\"greeting\":\"Hallo\"}"),
        ("data/foo/lang/", b""),
    ]);
    assert_eq!(
        extract_lang_files_from_zip(&bytes).unwrap(),
        vec![lang("en_us", "{\"greeting\":\"Hello\"}"), lang("de_de", "{\"greeting\":\"Hallo\"}")]
    );
}

#[test]
fn archive_does_not_skip_hidden_parts() {
    let bytes = archive_of(&[("data/.x/lang/en_us.json", b"{}")]);
    assert_eq!(extract_lang_files_from_zip(&bytes).unwrap(), vec![lang("en_us", "{}")]);
}

#[test]
fn archive_without_lang_files_has_no_children() {
    let bytes = archive_of(&[("fabric.mod.json", b"{}"), ("assets/foo/lang/en_us.json", b"{}")]);
    assert_eq!(extract_lang_files_from_zip(&bytes).unwrap(), Vec::new());
}

#[test]
fn empty_archive_has_no_children() {
    let bytes = archive_of(&[]);
    assert_eq!(extract_lang_files_from_zip(&bytes).unwrap(), Vec::new());
}

#[test]
fn bytes_that_are_no_archive_give_a_zip_error() {
    assert!(matches!(extract_lang_files_from_zip(b"not a zip archive"), Err(ApiError::ZipError(_))));
    assert!(matches!(extract_lang_files_from_zip(b""), Err(ApiError::ZipError(_))));
}

#[test]
fn lang_file_that_is_no_text_gives_an_io_error() {
    let bytes = archive_of(&[("data/foo/lang/en_us.json", &[0xff, 0xfe, 0x00, 0x80])]);
    assert!(matches!(extract_lang_files_from_zip(&bytes), Err(ApiError::IOError(_))));
}

#[test]
fn other_entries_that_are_no_text_are_not_read() {
    let bytes = archive_of(&[
        ("binary.dat", &[0xff, 0xfe, 0x00, 0x80]),
        ("data/foo/lang/en_us.json", b"{}"),
    ]);
    assert_eq!(extract_lang_files_from_zip(&bytes).unwrap(), vec![lang("en_us", "{}")]);
}

#[test]
fn lang_file_has_no_children() {
    let leaf = lang("en_us", "{}");
    assert_eq!(leaf.find_children(&Contents::Folder(Vec::new())).unwrap(), Vec::new());
    assert_eq!(leaf.find_children(&Contents::Archive(vec![1, 2, 3])).unwrap(), Vec::new());
    assert_eq!(leaf.find_children(&Contents::Tree(Vec::new())).unwrap(), Vec::new());
}

#[test]
fn find_children_of_a_mods_directory() {
    let source = TranslationSource::ModsDirectory(owned("mods"));
    let contents = Contents::Folder(vec![file_entry("a.jar"), file_entry("b.zip")]);
    assert_eq!(
        source.find_children(&contents).unwrap(),
        vec![TranslationSource::ZipPack(owned("root/a.jar"))]
    );
}

#[test]
fn find_children_of_a_datapacks_directory() {
    let source = TranslationSource::DatapacksDirectory(owned("datapacks"));
    let contents = Contents::Folder(vec![file_entry("a.jar"), file_entry("b.zip"), dir_entry("c", true)]);
    assert_eq!(
        source.find_children(&contents).unwrap(),
        vec![
            TranslationSource::ZipPack(owned("root/b.zip")),
            TranslationSource::DirectoryPack(owned("root/c")),
        ]
    );
}

#[test]
fn find_children_of_an_archive() {
    let source = TranslationSource::ZipPack(owned("mods/a.jar"));
    let contents = Contents::Archive(archive_of(&[("data/a/lang/en_us.json", b"{\"k\":\"v\"}")]));
    assert_eq!(source.find_children(&contents).unwrap(), vec![lang("en_us", "{\"k\":\"v\"}")]);
}

#[test]
fn find_children_of_a_directory_package() {
    let source = TranslationSource::DirectoryPack(owned("datapacks/c"));
    let contents = Contents::Tree(vec![pack_file("data/a/lang/en_us.json", "{\"k\":\"v\"}")]);
    assert_eq!(source.find_children(&contents).unwrap(), vec![lang("en_us", "{\"k\":\"v\"}")]);
}

#[test]
fn contents_of_the_wrong_kind_give_an_io_error() {
    let folder = Contents::Folder(Vec::new());
    let tree = Contents::Tree(Vec::new());
    let archive = Contents::Archive(archive_of(&[]));
    let zip_pack = TranslationSource::ZipPack(owned("a.jar"));
    let directory_pack = TranslationSource::DirectoryPack(owned("c"));
    let mods = TranslationSource::ModsDirectory(owned("mods"));
    let datapacks = TranslationSource::DatapacksDirectory(owned("datapacks"));
    assert!(matches!(zip_pack.find_children(&folder), Err(ApiError::IOError(_))));
    assert!(matches!(zip_pack.find_children(&tree), Err(ApiError::IOError(_))));
    assert!(matches!(directory_pack.find_children(&folder), Err(ApiError::IOError(_))));
    assert!(matches!(directory_pack.find_children(&archive), Err(ApiError::IOError(_))));
    assert!(matches!(mods.find_children(&tree), Err(ApiError::IOError(_))));
    assert!(matches!(mods.find_children(&archive), Err(ApiError::IOError(_))));
    assert!(matches!(datapacks.find_children(&tree), Err(ApiError::IOError(_))));
    assert!(matches!(datapacks.find_children(&archive), Err(ApiError::IOError(_))));
}

#[test]
fn find_children_hands_on_the_zip_error() {
    let source = TranslationSource::ZipPack(owned("broken.jar"));
    assert!(matches!(
        source.find_children(&Contents::Archive(vec![0x50, 0x4b, 0x03, 0x04])),
        Err(ApiError::ZipError(_))
    ));
}

fn pairs_of(dictionary: &Dictionary) -> Vec<(String, String)> {
    let mut pairs = Vec::new();
    let mut position = 0;
    while let Some((key, value)) = dictionary.entry(position) {
        pairs.push((key.clone(), value.clone()));
        position += 1;
    }
    pairs
}

#[test]
fn parse_lang_gives_locale_and_mapping() {
    let (locale, dictionary) = lang("en_us", "{\"key1\":\"hello\",\"key2\":\"world\"}").parse_lang().unwrap();
    assert_eq!(locale, "en_us");
    assert_eq!(pairs_of(&dictionary), vec![(owned("key1"), owned("hello")), (owned("key2"), owned("world"))]);
}

#[test]
fn parse_lang_round_trips_a_json_object() {
    let mut mapping = BTreeMap::new();
    mapping.insert(owned("block.stone"), owned("Stone"));
    mapping.insert(owned("quote"), owned("say \"hi\"\n\ttwice \\ once"));
    mapping.insert(owned(""), owned("empty key"));
    mapping.insert(owned("snow\u{2603}man"), owned("\u{1f600} \u{e9}"));
    mapping.insert(owned("empty value"), owned(""));
    let content = serde_json::to_string(&mapping).unwrap();
    let (locale, dictionary) = lang("de_de", &content).parse_lang().unwrap();
    assert_eq!(locale, "de_de");
    assert_eq!(dictionary.len(), mapping.len());
    for (key, value) in &mapping {
        assert_eq!(dictionary.get(key), Some(value));
    }
    let back: BTreeMap<String, String> = pairs_of(&dictionary).into_iter().collect();
    assert_eq!(back, mapping);
}

#[test]
fn parse_lang_takes_the_last_value_of_a_key_that_comes_twice() {
    let (_, dictionary) = lang("en_us", "{\"a\":\"1\",\"a\":\"2\"}").parse_lang().unwrap();
    assert_eq!(pairs_of(&dictionary), vec![(owned("a"), owned("2"))]);
}

#[test]
fn parse_lang_of_an_empty_object_is_empty() {
    let (locale, dictionary) = lang("en_us", " { } ").parse_lang().unwrap();
    assert_eq!(locale, "en_us");
    assert_eq!(dictionary.len(), 0);
}

#[test]
fn parse_lang_refuses_what_is_no_object_of_strings() {
    for content in ["", "not json", "[]", "\"text\"", "{\"a\":1}", "{\"a\":{\"b\":\"c\"}}", "{\"a\":\"b\"} x", "{\"a\":null}"] {
        assert!(
            matches!(lang("en_us", content).parse_lang(), Err(ApiError::SerdeJsonError(_))),
            "{content}"
        );
    }
}
