//! Loading translations, and the holder of the map that is served.

use vstd::prelude::*;
use vstd::string::*;
use crate::dictionary::{has_entry, lists_keys, Translations, TranslationsMap};
use crate::extract::{sources_view, Fault, TranslationSource};
use crate::json::{pairs_view, parse_entries};
use crate::merge::{
    lemma_merge_entries_step, lemma_merge_fault_stays, lemma_merge_sources_step, merge_entries,
    merge_sources, overlaps_view, Loaded, Merged, Overlap,
};
use crate::text::strings_view;
use crate::util::ApiError;

verus! {

/// The time, in milliseconds, that has to pass after a reload before the next one scans
/// again: 60 seconds.
pub const RELOAD_INTERVAL: u64 = 60_000;

/// Parses every lang file among `sources`, in their order, and merges what they hold
/// into one map. A key that comes again for a locale takes the later value, and is
/// handed back as an overlap. The first lang file that is no JSON object of strings
/// ends the work with its error.
pub fn load_translations_from(sources: &[TranslationSource]) -> (loaded: Result<Loaded, ApiError>)
    ensures
        match loaded {
            Ok(all) => merge_sources(sources_view(sources@)) == Ok::<Merged, Fault>(
                Merged { translations: all.translations@, overlaps: overlaps_view(all.overlaps@) },
            ),
            Err(error) => error is SerdeJsonError && merge_sources(sources_view(sources@)) == Err::<
                Merged,
                Fault,
            >(Fault::Json),
        },
{
    let ghost views = sources_view(sources@);
    let mut translations = TranslationsMap::new();
    let mut overlaps: Vec<Overlap> = Vec::new();
    let mut i: usize = 0;
    assert(overlaps_view(overlaps@) =~= Seq::empty());
    while i < sources.len()
        invariant
            i <= sources.len(),
            views == sources_view(sources@),
            merge_sources(views.take(i as int)) == Ok::<Merged, Fault>(
                Merged { translations: translations@, overlaps: overlaps_view(overlaps@) },
            ),
        decreases sources.len() - i,
    {
        proof {
            lemma_merge_sources_step(views, i as int);
        }
        match &sources[i] {
            TranslationSource::LangJson { locale, content } => {
                let pairs = match parse_entries(content.as_str()) {
                    Ok(pairs) => pairs,
                    Err(error) => {
                        proof {
                            lemma_merge_fault_stays(views, i as int + 1);
                        }
                        return Err(ApiError::SerdeJsonError(error));
                    },
                };
                let ghost before = Merged {
                    translations: translations@,
                    overlaps: overlaps_view(overlaps@),
                };
                let ghost entries = pairs_view(pairs@);
                translations.add_locale(locale.as_str());
                for pair in it: pairs
                    invariant
                        entries == pairs_view(it.seq()),
                        merge_entries(before, locale@, entries.take(it.index() as int)) == (Merged {
                            translations: translations@,
                            overlaps: overlaps_view(overlaps@),
                        }),
                {
                    let (key, value) = pair;
                    proof {
                        lemma_merge_entries_step(before, locale@, entries, it.index() as int);
                    }
                    let ghost noted = overlaps@;
                    if translations.contains_entry(locale.as_str(), key.as_str()) {
                        overlaps.push(Overlap { locale: locale.clone(), key: key.clone() });
                        assert(overlaps_view(overlaps@) =~= overlaps_view(noted).push(
                            (locale@, key@),
                        ));
                    }
                    translations.insert(locale.as_str(), key, value);
                }
                assert(entries.take(entries.len() as int) =~= entries);
            },
            _ => {},
        }
        i += 1;
    }
    assert(views.take(sources.len() as int) =~= views);
    Ok(Loaded { translations, overlaps })
}

/// What a look-up of `key` in `locale` gives: the value that `locale` has for it; else
/// the value that `default_locale` has for it; else `key` itself.
pub open spec fn translated(
    translations: Translations,
    default_locale: Seq<char>,
    locale: Seq<char>,
    key: Seq<char>,
) -> Seq<char> {
    if has_entry(translations, locale, key) {
        translations[locale][key]
    } else if has_entry(translations, default_locale, key) {
        translations[default_locale][key]
    } else {
        key
    }
}

/// Whether a reload asked for at `now` scans, when the last scan began at `last`: at
/// least `RELOAD_INTERVAL` has passed. Times are in milliseconds on one clock that does
/// not run backwards; a `now` before `last` counts as no time passed.
pub open spec fn reload_due(last: u64, now: u64) -> bool {
    now - last >= RELOAD_INTERVAL
}

/// The time of the last scan after a reload asked for at `now`.
pub open spec fn reload_time(last: u64, now: u64) -> u64 {
    if reload_due(last, now) {
        now
    } else {
        last
    }
}

/// Of two reloads asked for less than `RELOAD_INTERVAL` apart, at most one scans.
pub proof fn lemma_reload_scans_once(last: u64, first: u64, second: u64)
    requires
        first <= second,
        second - first < RELOAD_INTERVAL,
    ensures
        !(reload_due(last, first) && reload_due(reload_time(last, first), second)),
{
}

/// A reload that does not scan leaves the time of the last scan as it was, so the
/// interval is counted from the last scan, not from the last request.
pub proof fn lemma_throttled_reload_keeps_time(last: u64, now: u64)
    requires
        !reload_due(last, now),
    ensures
        reload_time(last, now) == last,
{
}

/// What the holder holds.
pub struct TranslationsHolderInner {
    /// The map that is served.
    pub translations: TranslationsMap,
    last_update_time: u64,
    sources: Vec<TranslationSource>,
}

/// Holds the map that is served, the roots that it is loaded from, and the time of the
/// last scan.
pub struct TranslationsHolder(pub TranslationsHolderInner);

impl TranslationsHolder {
    /// The time at which the last scan began, in milliseconds.
    pub closed spec fn last_update_time(&self) -> u64 {
        self.0.last_update_time
    }

    /// The roots, in the order in which they were configured.
    pub closed spec fn roots(&self) -> Seq<TranslationSource> {
        self.0.sources@
    }

    /// The map that is served.
    pub closed spec fn translations(&self) -> TranslationsMap {
        self.0.translations
    }

    /// A holder of `initial`, loaded from `sources` at the time `now`.
    pub fn new(sources: Vec<TranslationSource>, initial: TranslationsMap, now: u64) -> (holder: Self)
        ensures
            holder.translations() == initial,
            holder.roots() == sources@,
            holder.last_update_time() == now,
    {
        TranslationsHolder(
            TranslationsHolderInner { translations: initial, last_update_time: now, sources },
        )
    }

    /// The map that is served.
    pub fn map(&self) -> (served: &TranslationsMap)
        ensures
            *served == self.translations(),
    {
        &self.0.translations
    }

    /// The roots, in the order in which they were configured.
    pub fn sources(&self) -> (roots: &Vec<TranslationSource>)
        ensures
            roots@ == self.roots(),
    {
        &self.0.sources
    }

    /// Begins a reload asked for at `now`, and says whether the caller has to scan.
    ///
    /// Where less than `RELOAD_INTERVAL` has passed since the last scan began, there is
    /// nothing to do. Else `now` is noted as the time of the last scan before any work is
    /// done; the caller then loads the roots anew and hands the outcome to `finish_reload`.
    pub fn reload(&mut self, now: u64) -> (scan: bool)
        ensures
            scan == reload_due(old(self).last_update_time(), now),
            final(self).last_update_time() == reload_time(old(self).last_update_time(), now),
            final(self).translations() == old(self).translations(),
            final(self).roots() == old(self).roots(),
    {
        if now < self.0.last_update_time || now - self.0.last_update_time < RELOAD_INTERVAL {
            return false;
        }
        self.0.last_update_time = now;
        true
    }

    /// Ends a reload with the outcome of loading: a new map takes the place of the one
    /// that was served; an error leaves that one untouched and is handed back.
    pub fn finish_reload(&mut self, outcome: Result<TranslationsMap, ApiError>) -> (done: Result<
        (),
        ApiError,
    >)
        ensures
            match outcome {
                Ok(fresh) => done is Ok && final(self).translations() == fresh,
                Err(error) => {
                    &&& done == Err::<(), ApiError>(error)
                    &&& final(self).translations() == old(self).translations()
                    &&& final(self).translations().locale_names() == old(
                        self,
                    ).translations().locale_names()
                    &&& forall|default_locale: Seq<char>, locale: Seq<char>, key: Seq<char>|
                        #[trigger] translated(final(self).translations()@, default_locale, locale, key)
                            == translated(old(self).translations()@, default_locale, locale, key)
                },
            },
            final(self).last_update_time() == old(self).last_update_time(),
            final(self).roots() == old(self).roots(),
    {
        match outcome {
            Ok(fresh) => {
                self.0.translations = fresh;
                Ok(())
            },
            Err(error) => Err(error),
        }
    }

    /// The translation of `key` in `locale`: the value that `locale` has for it; else the
    /// value that `default_locale` has for it; else `key` itself.
    pub fn query(&self, default_locale: &str, locale: &str, key: &str) -> (text: String)
        ensures
            text@ == translated(self.translations()@, default_locale@, locale@, key@),
    {
        lookup(&self.0.translations, default_locale, locale, key)
    }

    /// Every key that some locale of the map that is served has, each once.
    pub fn get_all_keys(&self) -> (keys: Vec<String>)
        ensures
            strings_view(keys@).no_duplicates(),
            forall|key: Seq<char>|
                strings_view(keys@).contains(key) <==> exists|locale: Seq<char>| #[trigger]
                    has_entry(self.translations()@, locale, key),
    {
        let keys = self.0.translations.all_keys();
        assert(self.translations() == self.0.translations);
        keys
    }

    /// The locales of the map that is served, each once, in the order in which they were
    /// first seen.
    pub fn list_locales(&self) -> (locales: Vec<String>)
        ensures
            strings_view(locales@) == self.translations().locale_names(),
            lists_keys(strings_view(locales@), self.translations()@),
    {
        self.0.translations.locales()
    }
}

/// The translation of `key` in `locale`, with `default_locale` to fall back on.
pub fn lookup(translations: &TranslationsMap, default_locale: &str, locale: &str, key: &str) -> (text:
    String)
    ensures
        text@ == translated(translations@, default_locale@, locale@, key@),
{
    match translations.get(locale) {
        Some(dictionary) => match dictionary.get(key) {
            Some(found) => {
                return found.clone();
            },
            None => {},
        },
        None => {},
    }
    match translations.get(default_locale) {
        Some(dictionary) => match dictionary.get(key) {
            Some(found) => {
                return found.clone();
            },
            None => {},
        },
        None => {},
    }
    key.to_owned()
}

} // verus!
