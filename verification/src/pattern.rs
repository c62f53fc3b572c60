//! The place of a translation file inside a package: `data/<namespace>/lang/<locale>.json`.

use vstd::prelude::*;
use vstd::string::*;
use vstd::utf8::*;

verus! {

/// A lower-case letter of the Latin alphabet.
pub open spec fn is_lower(c: char) -> bool {
    'a' <= c && c <= 'z'
}

/// A character that a namespace may hold: `a` to `z`, `0` to `9`, `_`, `.` and `-`.
pub open spec fn is_namespace_char(c: char) -> bool {
    is_lower(c) || ('0' <= c && c <= '9') || c == '_' || c == '.' || c == '-'
}

/// A namespace: one or more namespace characters.
pub open spec fn is_namespace(s: Seq<char>) -> bool {
    s.len() >= 1 && forall|i: int| 0 <= i < s.len() ==> is_namespace_char(#[trigger] s[i])
}

/// A locale code: two lower-case letters, an underscore, two lower-case letters.
pub open spec fn is_locale(s: Seq<char>) -> bool {
    &&& s.len() == 5
    &&& is_lower(s[0])
    &&& is_lower(s[1])
    &&& s[2] == '_'
    &&& is_lower(s[3])
    &&& is_lower(s[4])
}

/// `data/`
pub open spec fn data_prefix() -> Seq<char> {
    seq!['d', 'a', 't', 'a', '/']
}

/// `/lang/`
pub open spec fn lang_infix() -> Seq<char> {
    seq!['/', 'l', 'a', 'n', 'g', '/']
}

/// `.json`
pub open spec fn json_suffix() -> Seq<char> {
    seq!['.', 'j', 's', 'o', 'n']
}

/// The path of the translation file of `locale` in `namespace`.
pub open spec fn translation_path(namespace: Seq<char>, locale: Seq<char>) -> Seq<char> {
    data_prefix() + namespace + lang_infix() + locale + json_suffix()
}

/// The locale that a path names, if the path is that of a translation file.
///
/// Read from both ends: `data/` in front, `.json` at the end, before it the five
/// characters of the locale, before those `/lang/`, and a namespace in between.
pub open spec fn path_locale(path: Seq<char>) -> Option<Seq<char>> {
    let n = path.len() as int;
    if n >= 22
        && path.subrange(0, 5) == data_prefix()
        && is_namespace(path.subrange(5, n - 16))
        && path.subrange(n - 16, n - 10) == lang_infix()
        && is_locale(path.subrange(n - 10, n - 5))
        && path.subrange(n - 5, n) == json_suffix() {
        Some(path.subrange(n - 10, n - 5))
    } else {
        None
    }
}

/// Every path built as `data/<namespace>/lang/<locale>.json` names its locale.
pub proof fn lemma_translation_path_is_recognised(namespace: Seq<char>, locale: Seq<char>)
    requires
        is_namespace(namespace),
        is_locale(locale),
    ensures
        path_locale(translation_path(namespace, locale)) == Some(locale),
{
    let path = translation_path(namespace, locale);
    let n = path.len() as int;
    assert(n == namespace.len() + 21);
    assert(path.subrange(0, 5) =~= data_prefix());
    assert(path.subrange(5, n - 16) =~= namespace);
    assert(path.subrange(n - 16, n - 10) =~= lang_infix());
    assert(path.subrange(n - 10, n - 5) =~= locale);
    assert(path.subrange(n - 5, n) =~= json_suffix());
}

/// A path that names a locale is built as `data/<namespace>/lang/<locale>.json`, in one way only.
pub proof fn lemma_recognised_path_is_translation_path(path: Seq<char>)
    requires
        path_locale(path) is Some,
    ensures
        is_locale(path_locale(path)->0),
        is_namespace(path.subrange(5, path.len() - 16)),
        path == translation_path(path.subrange(5, path.len() - 16), path_locale(path)->0),
{
    let n = path.len() as int;
    let namespace = path.subrange(5, n - 16);
    let locale = path.subrange(n - 10, n - 5);
    assert(path =~= path.subrange(0, 5) + namespace + path.subrange(n - 16, n - 10) + locale
        + path.subrange(n - 5, n));
}

/// A path that names a locale holds ASCII characters only.
pub proof fn lemma_recognised_path_is_ascii(path: Seq<char>)
    requires
        path_locale(path) is Some,
    ensures
        is_ascii_chars(path),
{
    let n = path.len() as int;
    assert forall|i: int| 0 <= i < n implies '\0' <= #[trigger] path[i] <= '\u{7f}' by {
        if i < 5 {
            assert(path[i] == path.subrange(0, 5)[i]);
        } else if i < n - 16 {
            assert(path[i] == path.subrange(5, n - 16)[i - 5]);
            assert(is_namespace_char(path.subrange(5, n - 16)[i - 5]));
        } else if i < n - 10 {
            assert(path[i] == path.subrange(n - 16, n - 10)[i - (n - 16)]);
        } else if i < n - 5 {
            assert(path[i] == path.subrange(n - 10, n - 5)[i - (n - 10)]);
        } else {
            assert(path[i] == path.subrange(n - 5, n)[i - (n - 5)]);
        }
    }
}

/// The characters that `bytes` stand for, where every byte is one ASCII character.
pub open spec fn ascii_chars(bytes: Seq<u8>) -> Seq<char> {
    Seq::new(bytes.len(), |i: int| bytes[i] as char)
}

/// Whether `word` stands in `bytes` at `at`.
fn word_at(bytes: &[u8], at: usize, word: &str) -> (found: bool)
    requires
        is_ascii_chars(word@),
        at + word@.len() <= bytes@.len(),
    ensures
        found == (ascii_chars(bytes@).subrange(at as int, at + word@.len()) == word@),
{
    let letters = word.as_bytes();
    proof {
        is_ascii_chars_encode_utf8(word@);
    }
    let ghost part = ascii_chars(bytes@).subrange(at as int, at + word@.len());
    let mut i: usize = 0;
    while i < letters.len()
        invariant
            i <= letters@.len() == word@.len(),
            at + word@.len() <= bytes@.len() == bytes.len(),
            part == ascii_chars(bytes@).subrange(at as int, at + word@.len()),
            forall|j: int| 0 <= j < word@.len() ==> word@[j] as u8 == #[trigger] letters@[j],
            forall|j: int| 0 <= j < word@.len() ==> '\0' <= #[trigger] word@[j] <= '\u{7f}',
            forall|j: int| 0 <= j < i ==> part[j] == word@[j],
        decreases letters@.len() - i,
    {
        if bytes[at + i] != letters[i] {
            assert(part[i as int] != word@[i as int]);
            return false;
        }
        i += 1;
    }
    assert(part =~= word@);
    true
}

fn lower_byte(byte: u8) -> (lower: bool)
    ensures
        lower == is_lower(byte as char),
{
    'a' as u8 <= byte && byte <= 'z' as u8
}

fn namespace_byte(byte: u8) -> (fits: bool)
    ensures
        fits == is_namespace_char(byte as char),
{
    lower_byte(byte) || ('0' as u8 <= byte && byte <= '9' as u8) || byte == '_' as u8 || byte
        == '.' as u8 || byte == '-' as u8
}

/// The locale that `path` names, if `path` is that of a translation file.
///
/// `path` is relative to the root of its package and uses `/` between its parts.
pub fn translation_locale(path: &str) -> (locale: Option<String>)
    ensures
        match locale {
            Some(code) => path_locale(path@) == Some(code@),
            None => path_locale(path@) is None,
        },
{
    if !path.is_ascii() {
        proof {
            if path_locale(path@) is Some {
                lemma_recognised_path_is_ascii(path@);
            }
        }
        return None;
    }
    let bytes = path.as_bytes();
    let n: usize = bytes.len();
    proof {
        is_ascii_chars_encode_utf8(path@);
        reveal_strlit("data/");
        reveal_strlit("/lang/");
        reveal_strlit(".json");
    }
    assert(ascii_chars(bytes@) =~= path@);
    assert("data/"@ =~= data_prefix());
    assert("/lang/"@ =~= lang_infix());
    assert(".json"@ =~= json_suffix());
    if n < 22 {
        return None;
    }
    if !word_at(bytes, 0, "data/") || !word_at(bytes, n - 16, "/lang/") || !word_at(
        bytes,
        n - 5,
        ".json",
    ) {
        return None;
    }
    let ghost code = path@.subrange(n - 10, n - 5);
    assert(forall|i: int| 0 <= i < 5 ==> #[trigger] code[i] == bytes@[n - 10 + i] as char);
    if !(lower_byte(bytes[n - 10]) && lower_byte(bytes[n - 9]) && bytes[n - 8] == '_' as u8
        && lower_byte(bytes[n - 7]) && lower_byte(bytes[n - 6])) {
        return None;
    }
    let ghost namespace = path@.subrange(5, n - 16);
    let mut i: usize = 5;
    while i < n - 16
        invariant
            22 <= n == bytes@.len(),
            5 <= i <= n - 16,
            ascii_chars(bytes@) == path@,
            namespace == path@.subrange(5, n - 16),
            forall|j: int| 0 <= j < i - 5 ==> is_namespace_char(#[trigger] namespace[j]),
        decreases n - i,
    {
        if !namespace_byte(bytes[i]) {
            assert(namespace[i - 5] == bytes@[i as int] as char);
            return None;
        }
        assert(namespace[i - 5] == bytes@[i as int] as char);
        i += 1;
    }
    Some(path.substring_ascii(n - 10, n - 5).to_owned())
}

} // verus!
