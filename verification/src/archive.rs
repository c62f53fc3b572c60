//! Zip archives held in memory, read with the `zip` crate.

use vstd::prelude::*;
use std::io::Cursor;
use std::io::Read;
use zip::read::ZipFile;
use zip::result::ZipError;
use zip::ZipArchive;

verus! {

// `zip::ZipArchive`, an open archive.
#[verifier::external_type_specification]
#[verifier::external_body]
#[verifier::reject_recursive_types(R)]
pub struct ExZipArchive<R>(ZipArchive<R>);

// `zip::read::ZipFile`, an open entry of an archive.
#[verifier::external_type_specification]
#[verifier::external_body]
pub struct ExZipFile<'a>(ZipFile<'a>);

// `std::io::Cursor`, which lets the archive read from bytes in memory.
#[verifier::external_type_specification]
#[verifier::external_body]
#[verifier::reject_recursive_types(T)]
pub struct ExCursor<T>(Cursor<T>);

/// One entry of an archive as this library reads it: `None` where the entry cannot be
/// opened; else its name, and its content where that can be read as text.
pub type ArchiveEntry = Option<(Seq<char>, Option<Seq<char>>)>;

/// The entries of an open archive, in the order of its central directory.
pub uninterp spec fn archive_entries(archive: ZipArchive<Cursor<Vec<u8>>>) -> Seq<ArchiveEntry>;

/// The entries of the zip archive that `bytes` hold, or `None` where `bytes` are no zip
/// archive that `ZipArchive::new` accepts.
pub uninterp spec fn zip_entries(bytes: Seq<u8>) -> Option<Seq<ArchiveEntry>>;

/// Opens the archive that `bytes` hold, with `ZipArchive::new` on a copy of the bytes.
///
/// Not proved: that the archive holds `zip_entries` of the bytes, and that the call fails
/// exactly where `zip_entries` is `None`.
#[verifier::external_body]
pub(crate) fn open_archive(bytes: &[u8]) -> (opened: Result<ZipArchive<Cursor<Vec<u8>>>, ZipError>)
    ensures
        match opened {
            Ok(archive) => zip_entries(bytes@) == Some(archive_entries(archive)),
            Err(_) => zip_entries(bytes@) is None,
        },
{
    ZipArchive::new(Cursor::new(bytes.to_vec()))
}

/// The number of entries, from `ZipArchive::len`.
#[verifier::external_body]
pub(crate) fn archive_len(archive: &ZipArchive<Cursor<Vec<u8>>>) -> (count: usize)
    ensures
        count == archive_entries(*archive).len(),
{
    archive.len()
}

/// The name of an open entry, as `ZipFile::name` gives it.
pub uninterp spec fn entry_name(file: ZipFile<'_>) -> Seq<char>;

/// The content of an entry that was opened and not read yet, or `None` where
/// `Read::read_to_string` cannot read it to its end as text.
pub uninterp spec fn entry_text(file: ZipFile<'_>) -> Option<Seq<char>>;

/// Opens the entry at `index`, with `ZipArchive::by_index_decrypt` and an empty password.
///
/// `by_index_decrypt` is `by_index` without its `unwrap`: where `by_index` would panic on
/// an entry that asks for a password it was not given, this returns the error that
/// `by_index` gives for an encrypted entry.
///
/// Not proved: that the call succeeds exactly on the entries that can be opened, with the
/// entry at `index`, and that it leaves the entries as they were.
#[verifier::external_body]
pub(crate) fn open_entry<'a>(archive: &'a mut ZipArchive<Cursor<Vec<u8>>>, index: usize) -> (opened: Result<
    ZipFile<'a>,
    ZipError,
>)
    ensures
        archive_entries(*final(archive)) == archive_entries(*old(archive)),
        index < archive_entries(*old(archive)).len() ==> match opened {
            Ok(file) => archive_entries(*old(archive))[index as int] == Some(
                (entry_name(file), entry_text(file)),
            ),
            Err(_) => archive_entries(*old(archive))[index as int] is None,
        },
{
    match archive.by_index_decrypt(index, b"") {
        Ok(Ok(file)) => Ok(file),
        Ok(Err(_)) => Err(ZipError::UnsupportedArchive(ZipError::PASSWORD_REQUIRED)),
        Err(error) => Err(error),
    }
}

/// The name of an open entry, from `ZipFile::name`.
#[verifier::external_body]
pub(crate) fn file_name(file: &ZipFile<'_>) -> (name: String)
    ensures
        name@ == entry_name(*file),
{
    file.name().to_string()
}

/// The content of an open entry as text, from `Read::read_to_string`.
///
/// Not proved: that the call succeeds exactly where the content can be read as text, with
/// that content.
#[verifier::external_body]
pub(crate) fn file_text(file: &mut ZipFile<'_>) -> (content: Result<String, std::io::Error>)
    ensures
        match content {
            Ok(text) => entry_text(*old(file)) == Some(text@),
            Err(_) => entry_text(*old(file)) is None,
        },
{
    let mut text = String::new();
    file.read_to_string(&mut text).map(|_| text)
}

} // verus!
