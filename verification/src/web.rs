//! What the routes of the service answer, as plain values.

use vstd::prelude::*;
use vstd::string::*;
use crate::dictionary::{has_entry, lists_keys, Dictionary, Translations, TranslationsMap};
use crate::text::strings_view;
use crate::translations::{lookup, translated, TranslationsHolder};
use crate::util::ApiError;

verus! {

/// What stands for `key` where the asked locale has no value for it: the value that
/// `default_locale` has for it; else `key` itself.
pub open spec fn fallback(translations: Translations, default_locale: Seq<char>, key: Seq<char>) -> Seq<
    char,
> {
    if has_entry(translations, default_locale, key) {
        translations[default_locale][key]
    } else {
        key
    }
}

/// The answer to a request for `keys` in `locale`: each of the keys with its translation.
pub open spec fn translations_of(
    translations: Translations,
    default_locale: Seq<char>,
    locale: Seq<char>,
    keys: Seq<Seq<char>>,
) -> Map<Seq<char>, Seq<char>> {
    Map::new(
        |key: Seq<char>| keys.contains(key),
        |key: Seq<char>| translated(translations, default_locale, locale, key),
    )
}

/// Gives `key` in `translated` what stands for it where the asked locale has no value.
pub fn translation_fallback(
    translations: &TranslationsMap,
    translated: &mut Dictionary,
    key: &str,
    default_locale: &str,
)
    ensures
        final(translated)@ == old(translated)@.insert(
            key@,
            fallback(translations@, default_locale@, key@),
        ),
{
    match translations.get(default_locale) {
        Some(default_translations) => match default_translations.get(key) {
            Some(found) => {
                translated.insert(key.to_owned(), found.clone());
            },
            None => {
                translated.insert(key.to_owned(), key.to_owned());
            },
        },
        None => {
            translated.insert(key.to_owned(), key.to_owned());
        },
    }
}

/// The translation of each of `keys` in `locale`, with `default_locale` to fall back on.
pub fn translate(
    default_locale: &str,
    translations: &TranslationsHolder,
    locale: &str,
    keys: Vec<String>,
) -> (answer: Dictionary)
    ensures
        answer@ == translations_of(
            translations.translations()@,
            default_locale@,
            locale@,
            strings_view(keys@),
        ),
{
    let ghost all = strings_view(keys@);
    let ghost served = translations.translations()@;
    let mut answer = Dictionary::new();
    let map = translations.map();
    assert(answer@ =~= translations_of(served, default_locale@, locale@, all.take(0)));
    for key in it: keys
        invariant
            all == strings_view(it.seq()),
            served == map@,
            answer@ == translations_of(served, default_locale@, locale@, all.take(it.index() as int)),
    {
        let ghost before = answer@;
        let ghost done = it.index() as int;
        let text = lookup(map, default_locale, locale, key.as_str());
        answer.insert(key, text);
        assert(answer@ =~= translations_of(served, default_locale@, locale@, all.take(done + 1))) by {
            assert(all.take(done + 1) =~= all.take(done).push(all[done]));
            assert forall|k: Seq<char>| all.take(done + 1).contains(k) <==> (all.take(done).contains(k)
                || k == all[done]) by {
                if all.take(done).contains(k) {
                    let at = choose|at: int| 0 <= at < done && all.take(done)[at] == k;
                    assert(all.take(done + 1)[at] == k);
                }
                if k == all[done] {
                    assert(all.take(done + 1)[done] == k);
                }
            }
        }
    }
    assert(all.take(all.len() as int) =~= all);
    answer
}

/// Every locale that has translations.
pub fn list_all_locales(translations: &TranslationsHolder) -> (locales: Vec<String>)
    ensures
        strings_view(locales@) == translations.translations().locale_names(),
        lists_keys(strings_view(locales@), translations.translations()@),
{
    translations.list_locales()
}

/// The answer to a request for a reload: `ok`, or `failed` where the reload ended in an
/// error.
pub fn reload_reply(outcome: &Result<(), ApiError>) -> (answer: String)
    ensures
        answer@ == if outcome is Ok {
            "ok"@
        } else {
            "failed"@
        },
{
    match outcome {
        Ok(_) => "ok".to_owned(),
        Err(_) => "failed".to_owned(),
    }
}

} // verus!
