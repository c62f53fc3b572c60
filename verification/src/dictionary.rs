//! Maps keyed by strings that remember the order in which their keys came.

use vstd::prelude::*;
use vstd::hash_map::StringHashMap;
use vstd::string::*;
use crate::json::pairs_view;
use crate::text::strings_view;

verus! {

/// The translations of one locale: a value for each key.
///
/// The keys are kept in the order in which they were first inserted. An index from key
/// to position makes a lookup a single probe.
pub struct Dictionary {
    keys: Vec<String>,
    values: Vec<String>,
    index: StringHashMap<usize>,
}

impl View for Dictionary {
    type V = Map<Seq<char>, Seq<char>>;

    closed spec fn view(&self) -> Map<Seq<char>, Seq<char>> {
        Map::new(
            |key: Seq<char>| self.index@.contains_key(key),
            |key: Seq<char>| self.values[self.index@[key] as int]@,
        )
    }
}

impl Dictionary {
    #[verifier::type_invariant]
    spec fn well_formed(self) -> bool {
        &&& self.keys.len() == self.values.len()
        &&& forall|i: int|
            0 <= i < self.keys.len() ==> self.index@.contains_key(#[trigger] self.keys[i]@)
                && self.index@[self.keys[i]@] == i
        &&& forall|key: Seq<char>| #[trigger]
            self.index@.contains_key(key) ==> self.index@[key] < self.keys.len()
                && self.keys[self.index@[key] as int]@ == key
    }

    /// The pairs of key and value, in the order in which the keys were first inserted.
    pub closed spec fn entries(&self) -> Seq<(Seq<char>, Seq<char>)> {
        Seq::new(self.keys.len() as nat, |i: int| (self.keys[i]@, self.values[i]@))
    }

    /// A dictionary without keys.
    pub fn new() -> (empty: Dictionary)
        ensures
            empty@ == Map::<Seq<char>, Seq<char>>::empty(),
            empty.entries() == Seq::<(Seq<char>, Seq<char>)>::empty(),
    {
        let empty = Dictionary { keys: Vec::new(), values: Vec::new(), index: StringHashMap::new() };
        assert(empty@ =~= Map::<Seq<char>, Seq<char>>::empty());
        assert(empty.entries() =~= Seq::<(Seq<char>, Seq<char>)>::empty());
        empty
    }

    /// The dictionary that `pairs` give when inserted one after the other.
    pub fn from_pairs(pairs: Vec<(String, String)>) -> (dictionary: Dictionary)
        ensures
            dictionary@ == entries_map(pairs_view(pairs@)),
    {
        let mut dictionary = Dictionary::new();
        let ghost all = pairs_view(pairs@);
        for pair in it: pairs
            invariant
                all == pairs_view(it.seq()),
                dictionary@ == entries_map(all.take(it.index() as int)),
        {
            let (key, value) = pair;
            proof {
                lemma_entries_map_step(all, it.index() as int);
            }
            dictionary.insert(key, value);
        }
        assert(all.take(all.len() as int) =~= all);
        dictionary
    }

    /// The number of keys.
    pub fn len(&self) -> (count: usize)
        ensures
            count == self.entries().len(),
            lists_entries(self.entries(), self@),
    {
        proof {
            use_type_invariant(self);
            lemma_indexed_names_list_keys(entry_keys(self.entries()), self.index@, self@);
        }
        self.keys.len()
    }

    /// Whether `key` has a value.
    pub fn contains_key(&self, key: &str) -> (found: bool)
        ensures
            found == self@.contains_key(key@),
    {
        self.index.contains_key(key)
    }

    /// The value of `key`.
    pub fn get(&self, key: &str) -> (value: Option<&String>)
        ensures
            match value {
                Some(text) => self@.contains_key(key@) && self@[key@] == text@,
                None => !self@.contains_key(key@),
            },
    {
        proof {
            use_type_invariant(self);
        }
        match self.index.get(key) {
            Some(at) => Some(&self.values[*at]),
            None => None,
        }
    }

    /// The pair at `position`, counted in the order in which the keys were first inserted.
    pub fn entry(&self, position: usize) -> (pair: Option<(&String, &String)>)
        ensures
            match pair {
                Some((key, value)) => {
                    &&& position < self.entries().len()
                    &&& self.entries()[position as int] == (key@, value@)
                    &&& self@.contains_key(key@)
                    &&& self@[key@] == value@
                },
                None => position >= self.entries().len(),
            },
    {
        proof {
            use_type_invariant(self);
        }
        if position < self.keys.len() {
            Some((&self.keys[position], &self.values[position]))
        } else {
            None
        }
    }

    /// Gives `key` the value `value`, and says whether `key` had a value before.
    ///
    /// A key that is new comes last in the order; one that had a value keeps its place.
    pub fn insert(&mut self, key: String, value: String) -> (replaced: bool)
        ensures
            final(self)@ == old(self)@.insert(key@, value@),
            replaced == old(self)@.contains_key(key@),
            !replaced ==> final(self).entries() == old(self).entries().push((key@, value@)),
            replaced ==> final(self).entries().len() == old(self).entries().len(),
    {
        proof {
            use_type_invariant(&*self);
        }
        let mut taken = Dictionary::new();
        std::mem::swap(self, &mut taken);
        let Dictionary { mut keys, mut values, mut index } = taken;
        let ghost before = Dictionary { keys, values, index };
        let known: Option<usize> = match index.get(key.as_str()) {
            Some(at) => Some(*at),
            None => None,
        };
        let replaced = match known {
            Some(at) => {
                values[at] = value;
                true
            },
            None => {
                let at: usize = keys.len();
                index.insert(key.clone(), at);
                keys.push(key);
                values.push(value);
                false
            },
        };
        *self = Dictionary { keys, values, index };
        assert(self@ =~= before@.insert(key@, value@));
        if !replaced {
            assert(self.entries() =~= before.entries().push((key@, value@)));
        }
        replaced
    }
}

/// `names` holds every key of `map`, each once, and nothing else.
pub open spec fn lists_keys<V>(names: Seq<Seq<char>>, map: Map<Seq<char>, V>) -> bool {
    &&& names.no_duplicates()
    &&& forall|key: Seq<char>| map.contains_key(key) <==> names.contains(key)
}

/// Whether one of the first `count` of `dictionaries` has `key`.
spec fn key_among(dictionaries: Seq<Dictionary>, count: int, key: Seq<char>) -> bool {
    exists|i: int| 0 <= i < count && (#[trigger] dictionaries[i])@.contains_key(key)
}

/// Whether one of the first `count` of `entries` has `key`.
spec fn key_within(entries: Seq<(Seq<char>, Seq<char>)>, count: int, key: Seq<char>) -> bool {
    exists|i: int| 0 <= i < count && (#[trigger] entries[i]).0 == key
}

/// Names that an index maps to their places, and only those, list the keys of a map
/// that has the keys of the index.
proof fn lemma_indexed_names_list_keys<V>(
    names: Seq<Seq<char>>,
    index: Map<Seq<char>, usize>,
    map: Map<Seq<char>, V>,
)
    requires
        forall|i: int| 0 <= i < names.len() ==> index.contains_key(#[trigger] names[i]) && index[names[i]] == i,
        forall|key: Seq<char>| #[trigger]
            index.contains_key(key) ==> index[key] < names.len() && names[index[key] as int] == key,
        forall|key: Seq<char>| #[trigger] map.contains_key(key) <==> index.contains_key(key),
    ensures
        lists_keys(names, map),
{
    assert forall|key: Seq<char>| map.contains_key(key) implies names.contains(key) by {
        assert(index.contains_key(key));
        assert(names[index[key] as int] == key);
    }
    assert forall|key: Seq<char>| names.contains(key) implies map.contains_key(key) by {
        let at = choose|at: int| 0 <= at < names.len() && names[at] == key;
        assert(index.contains_key(names[at]));
    }
}

/// The keys of `entries`, in their order.
pub open spec fn entry_keys(entries: Seq<(Seq<char>, Seq<char>)>) -> Seq<Seq<char>> {
    Seq::new(entries.len(), |i: int| entries[i].0)
}

/// `entries` holds every key of `map` once, each with the value that `map` gives it.
pub open spec fn lists_entries(
    entries: Seq<(Seq<char>, Seq<char>)>,
    map: Map<Seq<char>, Seq<char>>,
) -> bool {
    &&& lists_keys(entry_keys(entries), map)
    &&& forall|i: int| 0 <= i < entries.len() ==> map[(#[trigger] entries[i]).0] == entries[i].1
}

/// The map that `entries` give when inserted one after the other: of two pairs with one
/// key, the later one stays.
pub open spec fn entries_map(entries: Seq<(Seq<char>, Seq<char>)>) -> Map<Seq<char>, Seq<char>>
    decreases entries.len(),
{
    if entries.len() == 0 {
        Map::empty()
    } else {
        entries_map(entries.drop_last()).insert(entries.last().0, entries.last().1)
    }
}

proof fn lemma_entries_map_step(entries: Seq<(Seq<char>, Seq<char>)>, done: int)
    requires
        0 <= done < entries.len(),
    ensures
        entries_map(entries.take(done + 1)) == entries_map(entries.take(done)).insert(
            entries[done].0,
            entries[done].1,
        ),
{
    assert(entries.take(done + 1).drop_last() =~= entries.take(done));
}

/// What a translations map holds: for each locale, a value for each of its keys.
pub type Translations = Map<Seq<char>, Map<Seq<char>, Seq<char>>>;

/// The translations of every locale.
///
/// The locales are kept in the order in which they were first seen.
pub struct TranslationsMap {
    locales: Vec<String>,
    dictionaries: Vec<Dictionary>,
    index: StringHashMap<usize>,
}

impl View for TranslationsMap {
    type V = Translations;

    closed spec fn view(&self) -> Translations {
        Map::new(
            |locale: Seq<char>| self.index@.contains_key(locale),
            |locale: Seq<char>| self.dictionaries[self.index@[locale] as int]@,
        )
    }
}

impl TranslationsMap {
    #[verifier::type_invariant]
    spec fn well_formed(self) -> bool {
        &&& self.locales.len() == self.dictionaries.len()
        &&& forall|i: int|
            0 <= i < self.locales.len() ==> self.index@.contains_key(#[trigger] self.locales[i]@)
                && self.index@[self.locales[i]@] == i
        &&& forall|locale: Seq<char>| #[trigger]
            self.index@.contains_key(locale) ==> self.index@[locale] < self.locales.len()
                && self.locales[self.index@[locale] as int]@ == locale
    }

    /// The locales, in the order in which they were first seen.
    pub closed spec fn locale_names(&self) -> Seq<Seq<char>> {
        Seq::new(self.locales.len() as nat, |i: int| self.locales[i]@)
    }

    /// A map without locales.
    pub fn new() -> (empty: TranslationsMap)
        ensures
            empty@ == Translations::empty(),
            empty.locale_names() == Seq::<Seq<char>>::empty(),
    {
        let empty = TranslationsMap {
            locales: Vec::new(),
            dictionaries: Vec::new(),
            index: StringHashMap::new(),
        };
        assert(empty@ =~= Translations::empty());
        assert(empty.locale_names() =~= Seq::<Seq<char>>::empty());
        empty
    }

    /// The number of locales.
    pub fn len(&self) -> (count: usize)
        ensures
            count == self.locale_names().len(),
            lists_keys(self.locale_names(), self@),
    {
        proof {
            use_type_invariant(self);
            lemma_indexed_names_list_keys(self.locale_names(), self.index@, self@);
        }
        self.locales.len()
    }

    /// Whether `locale` is known.
    pub fn contains_key(&self, locale: &str) -> (found: bool)
        ensures
            found == self@.contains_key(locale@),
    {
        self.index.contains_key(locale)
    }

    /// The translations of `locale`.
    pub fn get(&self, locale: &str) -> (dictionary: Option<&Dictionary>)
        ensures
            match dictionary {
                Some(found) => self@.contains_key(locale@) && self@[locale@] == found@,
                None => !self@.contains_key(locale@),
            },
    {
        proof {
            use_type_invariant(self);
        }
        match self.index.get(locale) {
            Some(at) => Some(&self.dictionaries[*at]),
            None => None,
        }
    }

    /// Whether `key` has a value in `locale`.
    pub fn contains_entry(&self, locale: &str, key: &str) -> (found: bool)
        ensures
            found == has_entry(self@, locale@, key@),
    {
        match self.get(locale) {
            Some(dictionary) => dictionary.contains_key(key),
            None => false,
        }
    }

    /// The locale at `position`, counted in the order in which the locales were first seen.
    pub fn locale(&self, position: usize) -> (name: Option<&String>)
        ensures
            match name {
                Some(locale) => {
                    &&& position < self.locale_names().len()
                    &&& self.locale_names()[position as int] == locale@
                    &&& self@.contains_key(locale@)
                },
                None => position >= self.locale_names().len(),
            },
    {
        proof {
            use_type_invariant(self);
        }
        if position < self.locales.len() {
            Some(&self.locales[position])
        } else {
            None
        }
    }

    /// The locales, each once, in the order in which they were first seen.
    pub fn locales(&self) -> (names: Vec<String>)
        ensures
            strings_view(names@) == self.locale_names(),
            lists_keys(self.locale_names(), self@),
    {
        proof {
            use_type_invariant(self);
            lemma_indexed_names_list_keys(self.locale_names(), self.index@, self@);
        }
        let mut names: Vec<String> = Vec::new();
        let mut i: usize = 0;
        while i < self.locales.len()
            invariant
                i <= self.locales.len(),
                names@.len() == i,
                forall|j: int| 0 <= j < i ==> #[trigger] names@[j]@ == self.locales[j]@,
            decreases self.locales.len() - i,
        {
            names.push(self.locales[i].clone());
            i += 1;
        }
        assert(strings_view(names@) =~= self.locale_names());
        names
    }

    /// Every key that some locale has, each once, in the order in which they are met.
    pub fn all_keys(&self) -> (keys: Vec<String>)
        ensures
            strings_view(keys@).no_duplicates(),
            forall|key: Seq<char>|
                strings_view(keys@).contains(key) <==> exists|locale: Seq<char>| #[trigger]
                    has_entry(self@, locale, key),
    {
        proof {
            use_type_invariant(self);
        }
        let mut keys: Vec<String> = Vec::new();
        let mut seen = Dictionary::new();
        let mut i: usize = 0;
        while i < self.dictionaries.len()
            invariant
                i <= self.dictionaries.len(),
                strings_view(keys@).no_duplicates(),
                forall|key: Seq<char>| seen@.contains_key(key) <==> strings_view(keys@).contains(key),
                forall|key: Seq<char>| #[trigger]
                    strings_view(keys@).contains(key) <==> key_among(self.dictionaries@, i as int, key),
            decreases self.dictionaries.len() - i,
        {
            let dictionary = &self.dictionaries[i];
            let count: usize = dictionary.len();
            let ghost entries = dictionary.entries();
            let mut j: usize = 0;
            while j < count
                invariant
                    j <= count == entries.len(),
                    i < self.dictionaries.len(),
                    dictionary == &self.dictionaries[i as int],
                    entries == dictionary.entries(),
                    strings_view(keys@).no_duplicates(),
                    forall|key: Seq<char>|
                        seen@.contains_key(key) <==> strings_view(keys@).contains(key),
                    lists_entries(entries, dictionary@),
                    forall|key: Seq<char>| #[trigger]
                        strings_view(keys@).contains(key) <==> key_among(
                            self.dictionaries@,
                            i as int,
                            key,
                        ) || key_within(entries, j as int, key),
                decreases count - j,
            {
                match dictionary.entry(j) {
                    Some((key, _)) => {
                        let ghost before = strings_view(keys@);
                        let ghost upto: int = j + 1;
                        if !seen.contains_key(key.as_str()) {
                            seen.insert(key.clone(), String::new());
                            keys.push(key.clone());
                            assert(strings_view(keys@) =~= before.push(key@));
                        }
                        proof {
                            let after = strings_view(keys@);
                            assert forall|other: Seq<char>| #[trigger] after.contains(other)
                                <==> before.contains(other) || other == key@ by {
                                if before.contains(other) {
                                    let at = choose|at: int| 0 <= at < before.len() && before[at] == other;
                                    assert(after[at] == other);
                                }
                                if other == key@ && !before.contains(other) {
                                    assert(after[before.len() as int] == other);
                                }
                            }
                            assert forall|other: Seq<char>| #[trigger] key_within(entries, upto, other)
                                <==> key_within(entries, j as int, other) || other == key@ by {
                                if other == key@ {
                                    assert(entries[j as int].0 == other);
                                }
                            }
                        }
                    },
                    None => {},
                }
                j += 1;
            }
            let ghost upto: int = i + 1;
            proof {
                let names = entry_keys(entries);
                assert(lists_keys(names, dictionary@));
                assert forall|key: Seq<char>| #[trigger] key_among(self.dictionaries@, upto, key)
                    <==> key_among(self.dictionaries@, i as int, key) || key_within(
                    entries,
                    count as int,
                    key,
                ) by {
                    if key_within(entries, count as int, key) {
                        let at = choose|at: int| 0 <= at < count && (#[trigger] entries[at]).0 == key;
                        assert(names[at] == key);
                        assert(names.contains(key));
                        assert(self.dictionaries@[i as int]@.contains_key(key));
                    }
                    if self.dictionaries@[i as int]@.contains_key(key) {
                        assert(names.contains(key));
                        let at = choose|at: int| 0 <= at < names.len() && names[at] == key;
                        assert(entries[at].0 == key);
                    }
                }
            }
            i += 1;
        }
        proof {
            let all = self.dictionaries@;
            assert forall|key: Seq<char>| key_among(all, all.len() as int, key) <==> exists|
                locale: Seq<char>,
            | #[trigger] has_entry(self@, locale, key) by {
                if key_among(all, all.len() as int, key) {
                    let at = choose|at: int| 0 <= at < all.len() && (#[trigger] all[at])@.contains_key(key);
                    assert(has_entry(self@, self.locales[at]@, key));
                }
                if exists|locale: Seq<char>| #[trigger] has_entry(self@, locale, key) {
                    let locale = choose|locale: Seq<char>| #[trigger] has_entry(self@, locale, key);
                    assert(all[self.index@[locale] as int]@.contains_key(key));
                }
            }
        }
        keys
    }

    /// Makes `locale` known: a locale that is new gets a dictionary without keys.
    pub fn add_locale(&mut self, locale: &str)
        ensures
            final(self)@ == with_locale(old(self)@, locale@),
            final(self).locale_names() == if old(self)@.contains_key(locale@) {
                old(self).locale_names()
            } else {
                old(self).locale_names().push(locale@)
            },
    {
        proof {
            use_type_invariant(&*self);
        }
        if self.index.contains_key(locale) {
            return ;
        }
        let mut taken = TranslationsMap::new();
        std::mem::swap(self, &mut taken);
        let TranslationsMap { mut locales, mut dictionaries, mut index } = taken;
        let ghost before = TranslationsMap { locales, dictionaries, index };
        let at: usize = locales.len();
        index.insert(locale.to_owned(), at);
        locales.push(locale.to_owned());
        dictionaries.push(Dictionary::new());
        *self = TranslationsMap { locales, dictionaries, index };
        assert(self@ =~= with_locale(before@, locale@));
        assert(self.locale_names() =~= before.locale_names().push(locale@));
    }

    /// Gives `key` the value `value` in `locale`, and says whether `key` had a value there.
    ///
    /// A locale that is new becomes known.
    pub fn insert(&mut self, locale: &str, key: String, value: String) -> (replaced: bool)
        ensures
            final(self)@ == with_entry(old(self)@, locale@, key@, value@),
            replaced == has_entry(old(self)@, locale@, key@),
            final(self).locale_names() == if old(self)@.contains_key(locale@) {
                old(self).locale_names()
            } else {
                old(self).locale_names().push(locale@)
            },
    {
        self.add_locale(locale);
        proof {
            use_type_invariant(&*self);
        }
        let ghost names = self.locale_names();
        assert(self.index@.contains_key(locale@)) by {
            assert(self@.contains_key(locale@));
        }
        let mut taken = TranslationsMap::new();
        std::mem::swap(self, &mut taken);
        let TranslationsMap { locales, mut dictionaries, index } = taken;
        let ghost before = TranslationsMap { locales, dictionaries, index };
        let at: usize = match index.get(locale) {
            Some(at) => *at,
            None => 0,
        };
        let replaced = dictionaries[at].insert(key, value);
        *self = TranslationsMap { locales, dictionaries, index };
        assert(self@ =~= with_entry(old(self)@, locale@, key@, value@));
        assert(self.locale_names() =~= names);
        replaced
    }
}

/// `translations` with `locale` known: a locale that is new has no keys.
pub open spec fn with_locale(translations: Translations, locale: Seq<char>) -> Translations {
    if translations.contains_key(locale) {
        translations
    } else {
        translations.insert(locale, Map::empty())
    }
}

/// Whether `key` has a value in `locale`.
pub open spec fn has_entry(translations: Translations, locale: Seq<char>, key: Seq<char>) -> bool {
    translations.contains_key(locale) && translations[locale].contains_key(key)
}

/// `translations` with `key` given the value `value` in `locale`.
pub open spec fn with_entry(
    translations: Translations,
    locale: Seq<char>,
    key: Seq<char>,
    value: Seq<char>,
) -> Translations {
    with_locale(translations, locale).insert(
        locale,
        with_locale(translations, locale)[locale].insert(key, value),
    )
}

} // verus!
