//! Merging lang files into one map: what the merged map holds, and the overlaps that
//! are noted on the way.

use vstd::prelude::*;
use vstd::string::*;
use crate::dictionary::{entries_map, has_entry, with_entry, with_locale, Translations, TranslationsMap};
use crate::extract::{Fault, SourceView};
use crate::json::json_entries;

verus! {

/// A key that a lang file gave a value in a locale where it already had one.
#[derive(Clone, Debug, PartialEq, Eq)]
pub struct Overlap {
    pub locale: String,
    pub key: String,
}

/// What loading gives: the merged map, and every overlap met on the way, in order.
pub struct Loaded {
    pub translations: TranslationsMap,
    pub overlaps: Vec<Overlap>,
}

/// What merging has given so far.
#[verifier::ext_equal]
pub struct Merged {
    pub translations: Translations,
    /// Locale and key of each overlap, in order.
    pub overlaps: Seq<(Seq<char>, Seq<char>)>,
}

/// Locale and key of each of `overlaps`.
pub open spec fn overlaps_view(overlaps: Seq<Overlap>) -> Seq<(Seq<char>, Seq<char>)> {
    Seq::new(overlaps.len(), |i: int| (overlaps[i].locale@, overlaps[i].key@))
}

/// Nothing merged yet.
pub open spec fn nothing_merged() -> Merged {
    Merged { translations: Map::empty(), overlaps: Seq::empty() }
}

/// `merged` after one more pair of `locale`: the new value replaces an old one, and a
/// key that had a value is noted as an overlap.
pub open spec fn merge_entry(merged: Merged, locale: Seq<char>, key: Seq<char>, value: Seq<char>) -> Merged {
    Merged {
        translations: with_entry(merged.translations, locale, key, value),
        overlaps: if has_entry(merged.translations, locale, key) {
            merged.overlaps.push((locale, key))
        } else {
            merged.overlaps
        },
    }
}

/// `merged` after the pairs of one lang file of `locale`, taken in their order. The
/// locale is known from then on, even where the file holds no pair.
pub open spec fn merge_entries(
    merged: Merged,
    locale: Seq<char>,
    entries: Seq<(Seq<char>, Seq<char>)>,
) -> Merged
    decreases entries.len(),
{
    if entries.len() == 0 {
        Merged { translations: with_locale(merged.translations, locale), overlaps: merged.overlaps }
    } else {
        merge_entry(
            merge_entries(merged, locale, entries.drop_last()),
            locale,
            entries.last().0,
            entries.last().1,
        )
    }
}

/// What merging `sources` in their order gives, or `Json` where the content of one of
/// the lang files among them is no JSON object of strings. Sources that are no lang
/// files add nothing.
pub open spec fn merge_sources(sources: Seq<SourceView>) -> Result<Merged, Fault>
    decreases sources.len(),
{
    if sources.len() == 0 {
        Ok(nothing_merged())
    } else {
        match merge_sources(sources.drop_last()) {
            Err(fault) => Err(fault),
            Ok(before) => match sources.last() {
                SourceView::LangJson { locale, content } => match json_entries(content) {
                    Some(entries) => Ok(merge_entries(before, locale, entries)),
                    None => Err(Fault::Json),
                },
                _ => Ok(before),
            },
        }
    }
}

pub(crate) proof fn lemma_merge_entries_step(
    merged: Merged,
    locale: Seq<char>,
    entries: Seq<(Seq<char>, Seq<char>)>,
    done: int,
)
    requires
        0 <= done < entries.len(),
    ensures
        merge_entries(merged, locale, entries.take(done + 1)) == merge_entry(
            merge_entries(merged, locale, entries.take(done)),
            locale,
            entries[done].0,
            entries[done].1,
        ),
{
    assert(entries.take(done + 1).drop_last() =~= entries.take(done));
}

pub(crate) proof fn lemma_merge_sources_step(sources: Seq<SourceView>, done: int)
    requires
        0 <= done < sources.len(),
    ensures
        sources.take(done + 1).drop_last() == sources.take(done),
        sources.take(done + 1).last() == sources[done],
{
    assert(sources.take(done + 1).drop_last() =~= sources.take(done));
}

/// An error among the first `done` sources is the error of them all.
pub(crate) proof fn lemma_merge_fault_stays(sources: Seq<SourceView>, done: int)
    requires
        0 <= done <= sources.len(),
        merge_sources(sources.take(done)) is Err,
    ensures
        merge_sources(sources) == merge_sources(sources.take(done)),
    decreases sources.len() - done,
{
    if done < sources.len() {
        lemma_merge_sources_step(sources, done);
        lemma_merge_fault_stays(sources, done + 1);
    } else {
        assert(sources.take(done) =~= sources);
    }
}

/// The translations after the pairs of one lang file: those of the file lie over what
/// `locale` had before, and every other locale is as it was.
pub proof fn lemma_merge_entries_overlays(
    merged: Merged,
    locale: Seq<char>,
    entries: Seq<(Seq<char>, Seq<char>)>,
)
    ensures
        merge_entries(merged, locale, entries).translations == merged.translations.insert(
            locale,
            with_locale(merged.translations, locale)[locale].union_prefer_right(entries_map(entries)),
        ),
    decreases entries.len(),
{
    let known = with_locale(merged.translations, locale);
    if entries.len() == 0 {
        assert(known[locale].union_prefer_right(entries_map(entries)) =~= known[locale]);
        assert(known =~= merged.translations.insert(locale, known[locale]));
    } else {
        let rest = entries.drop_last();
        lemma_merge_entries_overlays(merged, locale, rest);
        let before = merge_entries(merged, locale, rest).translations;
        let key = entries.last().0;
        let value = entries.last().1;
        assert(known[locale].union_prefer_right(entries_map(rest)).insert(key, value)
            =~= known[locale].union_prefer_right(entries_map(entries)));
        assert(with_entry(before, locale, key, value) =~= merged.translations.insert(
            locale,
            known[locale].union_prefer_right(entries_map(entries)),
        ));
    }
}

/// Every key of a lang file that had a value in its locale before is noted as an overlap.
pub proof fn lemma_merge_entries_notes_overlaps(
    merged: Merged,
    locale: Seq<char>,
    entries: Seq<(Seq<char>, Seq<char>)>,
    key: Seq<char>,
)
    requires
        has_entry(merged.translations, locale, key),
        entries_map(entries).contains_key(key),
    ensures
        merge_entries(merged, locale, entries).overlaps.contains((locale, key)),
    decreases entries.len(),
{
    if entries.len() > 0 {
        let rest = entries.drop_last();
        let before = merge_entries(merged, locale, rest);
        let after = merge_entries(merged, locale, entries);
        if entries.last().0 == key {
            lemma_merge_entries_overlays(merged, locale, rest);
            assert(has_entry(before.translations, locale, key));
            assert(after.overlaps == before.overlaps.push((locale, key)));
            assert(after.overlaps[before.overlaps.len() as int] == (locale, key));
        } else {
            lemma_merge_entries_notes_overlaps(merged, locale, rest, key);
            let at = choose|at: int|
                0 <= at < before.overlaps.len() && before.overlaps[at] == (locale, key);
            assert(after.overlaps[at] == (locale, key));
        }
    }
}

/// The last lang file wins: where a lang file of `locale` that holds `key` is merged
/// after `before`, `key` has the value of that file, whatever it had; and where it had a
/// value, the overlap is noted.
pub proof fn lemma_later_source_wins(
    before: Seq<SourceView>,
    locale: Seq<char>,
    content: Seq<char>,
    key: Seq<char>,
)
    requires
        merge_sources(before) is Ok,
        json_entries(content) is Some,
        entries_map(json_entries(content)->0).contains_key(key),
    ensures
        merge_sources(before.push(SourceView::LangJson { locale, content })) matches Ok(merged) && {
            &&& has_entry(merged.translations, locale, key)
            &&& merged.translations[locale][key] == entries_map(json_entries(content)->0)[key]
            &&& has_entry(merge_sources(before)->Ok_0.translations, locale, key)
                ==> merged.overlaps.contains((locale, key))
        },
{
    let sources = before.push(SourceView::LangJson { locale, content });
    assert(sources.drop_last() =~= before);
    let old = merge_sources(before)->Ok_0;
    let entries = json_entries(content)->0;
    lemma_merge_entries_overlays(old, locale, entries);
    if has_entry(old.translations, locale, key) {
        lemma_merge_entries_notes_overlaps(old, locale, entries, key);
    }
}

/// A lang file changes nothing but the keys that it holds, in its own locale.
pub proof fn lemma_other_entries_stay(
    before: Seq<SourceView>,
    locale: Seq<char>,
    content: Seq<char>,
    other_locale: Seq<char>,
    other_key: Seq<char>,
)
    requires
        merge_sources(before) is Ok,
        json_entries(content) is Some,
        other_locale != locale || !entries_map(json_entries(content)->0).contains_key(other_key),
    ensures
        merge_sources(before.push(SourceView::LangJson { locale, content })) matches Ok(merged) && {
            let old = merge_sources(before)->Ok_0.translations;
            &&& has_entry(merged.translations, other_locale, other_key) == has_entry(
                old,
                other_locale,
                other_key,
            )
            &&& has_entry(old, other_locale, other_key) ==> merged.translations[other_locale][other_key]
                == old[other_locale][other_key]
        },
{
    let sources = before.push(SourceView::LangJson { locale, content });
    assert(sources.drop_last() =~= before);
    lemma_merge_entries_overlays(merge_sources(before)->Ok_0, locale, json_entries(content)->0);
}

} // verus!
