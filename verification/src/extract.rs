//! Where translations come from, and what one step of looking into a source finds.

use vstd::prelude::*;
use vstd::string::*;
use vstd::utf8::*;
use crate::archive::{
    archive_entries, archive_len, file_name, file_text, open_archive, open_entry, zip_entries,
    ArchiveEntry,
};
use crate::dictionary::{entries_map, Dictionary};
use crate::json::{json_entries, parse_entries};
use crate::pattern::{path_locale, translation_locale, lemma_recognised_path_is_ascii};
use crate::text::{ends_with_extension, has_extension};
use crate::util::ApiError;

verus! {

/// The file whose presence makes a directory a datapack.
pub const PACK_META_FILE: &'static str = "pack.mcmeta";

/// A place that translations come from.
#[derive(Clone, Debug, PartialEq, Eq)]
pub enum TranslationSource {
    /// The content of a lang file in JSON format
    LangJson { locale: String, content: String },
    /// A single mod JAR, or a datapack shipped as a zip archive
    ZipPack(String),
    /// A single datapack directory
    DirectoryPack(String),
    /// A directory of mod JARs
    ModsDirectory(String),
    /// A directory of datapacks
    DatapacksDirectory(String),
}

/// A source, with the characters of each of its strings.
pub enum SourceView {
    LangJson { locale: Seq<char>, content: Seq<char> },
    ZipPack(Seq<char>),
    DirectoryPack(Seq<char>),
    ModsDirectory(Seq<char>),
    DatapacksDirectory(Seq<char>),
}

impl View for TranslationSource {
    type V = SourceView;

    open spec fn view(&self) -> SourceView {
        match *self {
            TranslationSource::LangJson { locale, content } => SourceView::LangJson {
                locale: locale@,
                content: content@,
            },
            TranslationSource::ZipPack(path) => SourceView::ZipPack(path@),
            TranslationSource::DirectoryPack(path) => SourceView::DirectoryPack(path@),
            TranslationSource::ModsDirectory(path) => SourceView::ModsDirectory(path@),
            TranslationSource::DatapacksDirectory(path) => SourceView::DatapacksDirectory(path@),
        }
    }
}

/// The views of `sources`, in their order.
pub open spec fn sources_view(sources: Seq<TranslationSource>) -> Seq<SourceView> {
    Seq::new(sources.len(), |i: int| sources[i]@)
}

/// One entry of a directory that was listed.
#[derive(Clone, Debug, PartialEq, Eq)]
pub struct FolderEntry {
    /// The name of the entry inside its directory.
    pub name: String,
    /// The path of the entry.
    pub path: String,
    /// Whether the entry is a directory.
    pub is_dir: bool,
    /// Whether the entry is a directory that holds a file named `PACK_META_FILE`.
    pub has_pack_meta: bool,
}

/// One file found below the root of a directory package.
#[derive(Clone, Debug, PartialEq, Eq)]
pub struct PackFile {
    /// The path of the file relative to the root of the package, its parts joined by `/`.
    pub path: String,
    /// The text of the file.
    pub content: String,
}

/// What was found at the path of a source.
#[derive(Clone, Debug, PartialEq, Eq)]
pub enum Contents {
    /// The bytes of a file.
    Archive(Vec<u8>),
    /// The files below a directory, however deep.
    Tree(Vec<PackFile>),
    /// The entries of a directory itself.
    Folder(Vec<FolderEntry>),
}

/// The kind of an error.
pub enum Fault {
    Io,
    Zip,
    Json,
}

impl ApiError {
    /// The kind of this error.
    pub open spec fn fault(&self) -> Fault {
        match *self {
            ApiError::IOError(_) => Fault::Io,
            ApiError::ZipError(_) => Fault::Zip,
            ApiError::SerdeJsonError(_) => Fault::Json,
        }
    }
}

/// `jar`, the extension of a mod archive.
pub open spec fn jar_extension() -> Seq<char> {
    seq!['j', 'a', 'r']
}

/// `zip`, the extension of a datapack archive.
pub open spec fn zip_extension() -> Seq<char> {
    seq!['z', 'i', 'p']
}

/// A name is hidden when it starts with a dot.
pub open spec fn hidden_name(name: Seq<char>) -> bool {
    name.len() > 0 && name[0] == '.'
}

/// Whether one of the parts of `path`, which `/` separates, starts with a dot.
pub open spec fn has_hidden_part(path: Seq<char>) -> bool {
    hidden_name(path) || exists|i: int|
        0 <= i < path.len() - 1 && path[i] == '/' && #[trigger] path[i + 1] == '.'
}

/// The sources that `pick` makes of `items`, in the order of the items.
pub open spec fn picked<T>(items: Seq<T>, pick: spec_fn(T) -> Option<SourceView>) -> Seq<SourceView>
    decreases items.len(),
{
    if items.len() == 0 {
        Seq::empty()
    } else {
        let before = picked(items.drop_last(), pick);
        match pick(items.last()) {
            Some(source) => before.push(source),
            None => before,
        }
    }
}

proof fn lemma_picked_step<T>(items: Seq<T>, pick: spec_fn(T) -> Option<SourceView>, done: int)
    requires
        0 <= done < items.len(),
    ensures
        picked(items.take(done + 1), pick) == match pick(items[done]) {
            Some(source) => picked(items.take(done), pick).push(source),
            None => picked(items.take(done), pick),
        },
{
    assert(items.take(done + 1).drop_last() =~= items.take(done));
}

/// What an entry of a mods directory stands for: an archive, if its name ends in `.jar`.
pub open spec fn mod_archive(entry: FolderEntry) -> Option<SourceView> {
    if has_extension(entry.name@, jar_extension()) {
        Some(SourceView::ZipPack(entry.path@))
    } else {
        None
    }
}

/// What an entry of a datapacks directory stands for: a directory package, if it is a
/// directory with a pack file in it; an archive, if it is no directory and its name ends
/// in `.zip`.
pub open spec fn datapack(entry: FolderEntry) -> Option<SourceView> {
    if entry.is_dir {
        if entry.has_pack_meta {
            Some(SourceView::DirectoryPack(entry.path@))
        } else {
            None
        }
    } else if has_extension(entry.name@, zip_extension()) {
        Some(SourceView::ZipPack(entry.path@))
    } else {
        None
    }
}

/// What a file of a directory package stands for: a lang file, if its path is that of a
/// translation file and none of the parts of the path is hidden.
pub open spec fn tree_lang_file(file: PackFile) -> Option<SourceView> {
    match path_locale(file.path@) {
        Some(locale) => if has_hidden_part(file.path@) {
            None
        } else {
            Some(SourceView::LangJson { locale, content: file.content@ })
        },
        None => None,
    }
}

/// The lang files among the entries of an archive, or the kind of the first error: `Zip`
/// at an entry that cannot be opened, `Io` at a translation file that cannot be read as
/// text.
pub open spec fn archive_lang_files(entries: Seq<ArchiveEntry>) -> Result<Seq<SourceView>, Fault>
    decreases entries.len(),
{
    if entries.len() == 0 {
        Ok(Seq::empty())
    } else {
        match archive_lang_files(entries.drop_last()) {
            Err(fault) => Err(fault),
            Ok(before) => match entries.last() {
                None => Err(Fault::Zip),
                Some((name, content)) => match path_locale(name) {
                    None => Ok(before),
                    Some(locale) => match content {
                        None => Err(Fault::Io),
                        Some(text) => Ok(before.push(SourceView::LangJson { locale, content: text })),
                    },
                },
            },
        }
    }
}

/// Whether `name` starts with a dot.
pub fn is_hidden(name: &str) -> (hidden: bool)
    ensures
        hidden == hidden_name(name@),
{
    if name.is_empty() {
        false
    } else {
        name.get_char(0) == '.'
    }
}

/// The mod archives among the entries of a mods directory.
pub fn mod_archives_in(entries: &Vec<FolderEntry>) -> (mods: Vec<TranslationSource>)
    ensures
        sources_view(mods@) == picked(entries@, |entry: FolderEntry| mod_archive(entry)),
{
    let ghost pick = |entry: FolderEntry| mod_archive(entry);
    let mut mods: Vec<TranslationSource> = Vec::new();
    let mut i: usize = 0;
    assert(sources_view(mods@) =~= picked(entries@.take(0), pick));
    while i < entries.len()
        invariant
            i <= entries.len(),
            pick == |entry: FolderEntry| mod_archive(entry),
            sources_view(mods@) == picked(entries@.take(i as int), pick),
        decreases entries.len() - i,
    {
        proof {
            lemma_picked_step(entries@, pick, i as int);
            reveal_strlit("jar");
            assert("jar"@ =~= jar_extension());
        }
        let entry = &entries[i];
        if ends_with_extension(entry.name.as_str(), "jar") {
            let ghost before = mods@;
            mods.push(TranslationSource::ZipPack(entry.path.clone()));
            assert(sources_view(mods@) =~= sources_view(before).push(SourceView::ZipPack(entry.path@)));
        }
        i += 1;
    }
    assert(entries@.take(entries.len() as int) =~= entries@);
    mods
}

/// The datapacks among the entries of a datapacks directory.
pub fn datapacks_in(entries: &Vec<FolderEntry>) -> (datapacks: Vec<TranslationSource>)
    ensures
        sources_view(datapacks@) == picked(entries@, |entry: FolderEntry| datapack(entry)),
{
    let ghost pick = |entry: FolderEntry| datapack(entry);
    let mut datapacks: Vec<TranslationSource> = Vec::new();
    let mut i: usize = 0;
    assert(sources_view(datapacks@) =~= picked(entries@.take(0), pick));
    while i < entries.len()
        invariant
            i <= entries.len(),
            pick == |entry: FolderEntry| datapack(entry),
            sources_view(datapacks@) == picked(entries@.take(i as int), pick),
        decreases entries.len() - i,
    {
        proof {
            lemma_picked_step(entries@, pick, i as int);
            reveal_strlit("zip");
            assert("zip"@ =~= zip_extension());
        }
        let entry = &entries[i];
        let ghost before = datapacks@;
        if entry.is_dir {
            if entry.has_pack_meta {
                datapacks.push(TranslationSource::DirectoryPack(entry.path.clone()));
                assert(sources_view(datapacks@) =~= sources_view(before).push(
                    SourceView::DirectoryPack(entry.path@),
                ));
            }
        } else if ends_with_extension(entry.name.as_str(), "zip") {
            datapacks.push(TranslationSource::ZipPack(entry.path.clone()));
            assert(sources_view(datapacks@) =~= sources_view(before).push(
                SourceView::ZipPack(entry.path@),
            ));
        }
        i += 1;
    }
    assert(entries@.take(entries.len() as int) =~= entries@);
    datapacks
}

/// Whether one of the parts of `path` starts with a dot, for a path of ASCII characters.
fn hidden_part_in(path: &str) -> (hidden: bool)
    requires
        is_ascii_chars(path@),
    ensures
        hidden == has_hidden_part(path@),
{
    let bytes = path.as_bytes();
    let n: usize = bytes.len();
    proof {
        is_ascii_chars_encode_utf8(path@);
    }
    assert(forall|i: int| 0 <= i < n ==> #[trigger] bytes@[i] as char == path@[i]);
    if n == 0 {
        return false;
    }
    if bytes[0] == '.' as u8 {
        return true;
    }
    let mut i: usize = 0;
    while i < n - 1
        invariant
            0 < n == bytes@.len() == path@.len(),
            i <= n - 1,
            !hidden_name(path@),
            forall|j: int| 0 <= j < n ==> #[trigger] bytes@[j] as char == path@[j],
            forall|j: int| 0 <= j < i ==> !(path@[j] == '/' && #[trigger] path@[j + 1] == '.'),
        decreases n - i,
    {
        if bytes[i] == '/' as u8 && bytes[i + 1] == '.' as u8 {
            assert(path@[i as int] == '/' && path@[i + 1] == '.');
            return true;
        }
        i += 1;
    }
    false
}

/// The lang files among the files found below the root of a directory package.
///
/// A file counts when its path, relative to that root, is that of a translation file and
/// none of the parts of the path is hidden.
pub fn extract_lang_files_from_dir(files: &Vec<PackFile>) -> (translations: Vec<TranslationSource>)
    ensures
        sources_view(translations@) == picked(files@, |file: PackFile| tree_lang_file(file)),
{
    let ghost pick = |file: PackFile| tree_lang_file(file);
    let mut translations: Vec<TranslationSource> = Vec::new();
    let mut i: usize = 0;
    assert(sources_view(translations@) =~= picked(files@.take(0), pick));
    while i < files.len()
        invariant
            i <= files.len(),
            pick == |file: PackFile| tree_lang_file(file),
            sources_view(translations@) == picked(files@.take(i as int), pick),
        decreases files.len() - i,
    {
        proof {
            lemma_picked_step(files@, pick, i as int);
        }
        let file = &files[i];
        match translation_locale(file.path.as_str()) {
            Some(locale) => {
                proof {
                    lemma_recognised_path_is_ascii(file.path@);
                }
                if !hidden_part_in(file.path.as_str()) {
                    let ghost before = translations@;
                    let ghost found = SourceView::LangJson { locale: locale@, content: file.content@ };
                    translations.push(
                        TranslationSource::LangJson { locale, content: file.content.clone() },
                    );
                    assert(sources_view(translations@) =~= sources_view(before).push(found));
                }
            },
            None => {},
        }
        i += 1;
    }
    assert(files@.take(files.len() as int) =~= files@);
    translations
}

proof fn lemma_archive_lang_files_step(entries: Seq<ArchiveEntry>, done: int)
    requires
        0 <= done < entries.len(),
    ensures
        entries.take(done + 1).drop_last() == entries.take(done),
        entries.take(done + 1).last() == entries[done],
{
    assert(entries.take(done + 1).drop_last() =~= entries.take(done));
}

/// The lang files of the zip archive that `bytes` hold.
///
/// Every entry is opened, in the order of the archive; the content of an entry is read
/// only where its name is the path of a translation file. The first entry that cannot be
/// opened, or whose content cannot be read as text, ends the work with its error.
pub fn extract_lang_files_from_zip(bytes: &[u8]) -> (translations: Result<
    Vec<TranslationSource>,
    ApiError,
>)
    ensures
        match translations {
            Ok(found) => zip_entries(bytes@) matches Some(entries) && archive_lang_files(entries)
                == Ok::<Seq<SourceView>, Fault>(sources_view(found@)),
            Err(error) => match zip_entries(bytes@) {
                Some(entries) => archive_lang_files(entries) == Err::<Seq<SourceView>, Fault>(
                    error.fault(),
                ),
                None => error is ZipError,
            },
        },
{
    let mut archive = match open_archive(bytes) {
        Ok(archive) => archive,
        Err(error) => {
            return Err(ApiError::ZipError(error));
        },
    };
    let ghost entries = archive_entries(archive);
    let count: usize = archive_len(&archive);
    let mut translations: Vec<TranslationSource> = Vec::new();
    let mut i: usize = 0;
    assert(sources_view(translations@) =~= Seq::<SourceView>::empty());
    while i < count
        invariant
            i <= count == entries.len(),
            archive_entries(archive) == entries,
            zip_entries(bytes@) == Some(entries),
            archive_lang_files(entries.take(i as int)) == Ok::<Seq<SourceView>, Fault>(
                sources_view(translations@),
            ),
        decreases count - i,
    {
        proof {
            lemma_archive_lang_files_step(entries, i as int);
        }
        let mut file = match open_entry(&mut archive, i) {
            Ok(file) => file,
            Err(error) => {
                proof {
                    lemma_archive_fault_stays(entries, i as int + 1);
                }
                return Err(ApiError::ZipError(error));
            },
        };
        let name = file_name(&file);
        match translation_locale(name.as_str()) {
            Some(locale) => {
                let content = match file_text(&mut file) {
                    Ok(content) => content,
                    Err(error) => {
                        proof {
                            lemma_archive_fault_stays(entries, i as int + 1);
                        }
                        return Err(ApiError::IOError(error));
                    },
                };
                let ghost before = translations@;
                let ghost found = SourceView::LangJson { locale: locale@, content: content@ };
                translations.push(TranslationSource::LangJson { locale, content });
                assert(sources_view(translations@) =~= sources_view(before).push(found));
            },
            None => {},
        }
        i += 1;
    }
    assert(entries.take(count as int) =~= entries);
    Ok(translations)
}

/// An error among the first `done` entries is the error of the whole archive.
proof fn lemma_archive_fault_stays(entries: Seq<ArchiveEntry>, done: int)
    requires
        0 <= done <= entries.len(),
        archive_lang_files(entries.take(done)) is Err,
    ensures
        archive_lang_files(entries) == archive_lang_files(entries.take(done)),
    decreases entries.len() - done,
{
    if done < entries.len() {
        lemma_archive_lang_files_step(entries, done);
        lemma_archive_fault_stays(entries, done + 1);
    } else {
        assert(entries.take(done) =~= entries);
    }
}

/// An error for contents that are not of the kind that the source asks for, made with
/// `std::io::Error::from` of `ErrorKind::InvalidInput`.
#[verifier::external_body]
fn wrong_contents() -> std::io::Error {
    std::io::Error::from(std::io::ErrorKind::InvalidInput)
}

/// The children that `contents` show for `source`, or the kind of the error.
///
/// A lang file has no children, whatever the contents. A single archive shows the lang
/// files of its bytes, a directory package those of its tree, a mods directory the mod
/// archives of its folder, a datapacks directory the datapacks of its folder. Contents of
/// another kind than the source asks for are an error of kind `Io`.
pub open spec fn found_children(source: SourceView, contents: Contents) -> Result<
    Seq<SourceView>,
    Fault,
> {
    match (source, contents) {
        (SourceView::LangJson { .. }, _) => Ok(Seq::empty()),
        (SourceView::ZipPack(_), Contents::Archive(bytes)) => match zip_entries(bytes@) {
            Some(entries) => archive_lang_files(entries),
            None => Err(Fault::Zip),
        },
        (SourceView::DirectoryPack(_), Contents::Tree(files)) => Ok(
            picked(files@, |file: PackFile| tree_lang_file(file)),
        ),
        (SourceView::ModsDirectory(_), Contents::Folder(entries)) => Ok(
            picked(entries@, |entry: FolderEntry| mod_archive(entry)),
        ),
        (SourceView::DatapacksDirectory(_), Contents::Folder(entries)) => Ok(
            picked(entries@, |entry: FolderEntry| datapack(entry)),
        ),
        _ => Err(Fault::Io),
    }
}

/// How far a source is from the lang files: a lang file is one itself, a package holds
/// lang files, a directory of packages holds packages.
pub open spec fn depth(source: SourceView) -> nat {
    match source {
        SourceView::LangJson { .. } => 0,
        SourceView::ZipPack(_) => 1,
        SourceView::DirectoryPack(_) => 1,
        SourceView::ModsDirectory(_) => 2,
        SourceView::DatapacksDirectory(_) => 2,
    }
}

proof fn lemma_picked_are_picks<T>(items: Seq<T>, pick: spec_fn(T) -> Option<SourceView>, at: int)
    requires
        0 <= at < picked(items, pick).len(),
    ensures
        exists|i: int| 0 <= i < items.len() && pick(#[trigger] items[i]) == Some(picked(items, pick)[at]),
    decreases items.len(),
{
    let before = picked(items.drop_last(), pick);
    if at < before.len() {
        lemma_picked_are_picks(items.drop_last(), pick, at);
        let i = choose|i: int|
            0 <= i < items.drop_last().len() && pick(#[trigger] items.drop_last()[i]) == Some(before[at]);
        assert(items[i] == items.drop_last()[i]);
    } else {
        assert(pick(items[items.len() - 1]) == Some(picked(items, pick)[at]));
    }
}

proof fn lemma_archive_lang_files_are_lang_files(entries: Seq<ArchiveEntry>, at: int)
    requires
        archive_lang_files(entries) is Ok,
        0 <= at < archive_lang_files(entries)->Ok_0.len(),
    ensures
        archive_lang_files(entries)->Ok_0[at] is LangJson,
    decreases entries.len(),
{
    if entries.len() > 0 {
        let before = archive_lang_files(entries.drop_last())->Ok_0;
        if at < before.len() {
            lemma_archive_lang_files_are_lang_files(entries.drop_last(), at);
        }
    }
}

/// Whether every one of `sources` lies less deep than `bound`.
pub open spec fn all_nearer(sources: Seq<SourceView>, bound: nat) -> bool {
    forall|i: int| 0 <= i < sources.len() ==> depth(#[trigger] sources[i]) < bound
}

/// One step down always comes nearer to the lang files: every child lies less deep than
/// its source. So a walk from any root ends after at most two steps down.
pub proof fn lemma_children_are_nearer(source: SourceView, contents: Contents)
    requires
        found_children(source, contents) is Ok,
    ensures
        all_nearer(found_children(source, contents)->Ok_0, depth(source)),
{
    let children = found_children(source, contents)->Ok_0;
    assert forall|at: int| 0 <= at < children.len() implies depth(#[trigger] children[at]) < depth(
        source,
    ) by {
        match (source, contents) {
            (SourceView::ZipPack(_), Contents::Archive(bytes)) => {
                lemma_archive_lang_files_are_lang_files(zip_entries(bytes@)->0, at);
            },
            (SourceView::DirectoryPack(_), Contents::Tree(files)) => {
                lemma_picked_are_picks(files@, |file: PackFile| tree_lang_file(file), at);
            },
            (SourceView::ModsDirectory(_), Contents::Folder(entries)) => {
                lemma_picked_are_picks(entries@, |entry: FolderEntry| mod_archive(entry), at);
            },
            (SourceView::DatapacksDirectory(_), Contents::Folder(entries)) => {
                lemma_picked_are_picks(entries@, |entry: FolderEntry| datapack(entry), at);
            },
            _ => {},
        }
    }
}

impl TranslationSource {
    /// The children of this source, one level down, given what was found at its path.
    pub fn find_children(&self, contents: &Contents) -> (children: Result<
        Vec<TranslationSource>,
        ApiError,
    >)
        ensures
            match children {
                Ok(found) => found_children(self@, *contents) == Ok::<Seq<SourceView>, Fault>(
                    sources_view(found@),
                ),
                Err(error) => found_children(self@, *contents) == Err::<Seq<SourceView>, Fault>(
                    error.fault(),
                ),
            },
    {
        match self {
            TranslationSource::LangJson { .. } => {
                let none: Vec<TranslationSource> = Vec::new();
                assert(sources_view(none@) =~= Seq::<SourceView>::empty());
                Ok(none)
            },
            TranslationSource::ZipPack(_) => match contents {
                Contents::Archive(bytes) => extract_lang_files_from_zip(bytes.as_slice()),
                _ => Err(ApiError::IOError(wrong_contents())),
            },
            TranslationSource::DirectoryPack(_) => match contents {
                Contents::Tree(files) => Ok(extract_lang_files_from_dir(files)),
                _ => Err(ApiError::IOError(wrong_contents())),
            },
            TranslationSource::ModsDirectory(_) => match contents {
                Contents::Folder(entries) => Ok(mod_archives_in(entries)),
                _ => Err(ApiError::IOError(wrong_contents())),
            },
            TranslationSource::DatapacksDirectory(_) => match contents {
                Contents::Folder(entries) => Ok(datapacks_in(entries)),
                _ => Err(ApiError::IOError(wrong_contents())),
            },
        }
    }

    /// The locale of a lang file and the dictionary that its content holds.
    pub fn parse_lang(self) -> (parsed: Result<(String, Dictionary), ApiError>)
        requires
            self is LangJson,
        ensures
            match parsed {
                Ok((locale, dictionary)) => {
                    &&& locale@ == self@->locale
                    &&& json_entries(self@->content) matches Some(entries)
                    &&& dictionary@ == entries_map(entries)
                },
                Err(error) => error is SerdeJsonError && json_entries(self@->content) is None,
            },
    {
        match self {
            TranslationSource::LangJson { locale, content } => {
                match parse_entries(content.as_str()) {
                    Ok(pairs) => Ok((locale, Dictionary::from_pairs(pairs))),
                    Err(error) => Err(ApiError::SerdeJsonError(error)),
                }
            },
            _ => unreached(),
        }
    }
}

} // verus!
