//! What is configured: the roots to load from, the locale to fall back on, the port.

use vstd::prelude::*;
use vstd::string::*;
use crate::extract::{sources_view, SourceView, TranslationSource};

verus! {

/// One configured root: a directory of mods or a directory of datapacks, by its path.
#[derive(Clone, Debug, PartialEq, Eq)]
pub enum ConfigSource {
    Mods(String),
    Datapacks(String),
}

/// A configured root as it stands in the list of sources.
#[derive(Clone, Debug, PartialEq, Eq)]
pub struct ConfigSourceWrapper(ConfigSource);

/// The configuration of the service.
#[derive(Clone, Debug, PartialEq, Eq)]
pub struct Config {
    pub fallback_locale: String,
    pub listen_port: u16,
    pub sources: Vec<ConfigSourceWrapper>,
}

impl ConfigSource {
    /// The source that this root stands for.
    pub open spec fn source(&self) -> SourceView {
        match *self {
            ConfigSource::Mods(path) => SourceView::ModsDirectory(path@),
            ConfigSource::Datapacks(path) => SourceView::DatapacksDirectory(path@),
        }
    }
}

impl ConfigSourceWrapper {
    /// The root that is wrapped.
    pub closed spec fn root(&self) -> ConfigSource {
        self.0
    }

    /// The root that is wrapped.
    pub fn get(&self) -> (root: &ConfigSource)
        ensures
            *root == self.root(),
    {
        &self.0
    }
}

impl From<ConfigSource> for ConfigSourceWrapper {
    fn from(root: ConfigSource) -> (wrapped: ConfigSourceWrapper) {
        ConfigSourceWrapper(root)
    }
}

impl vstd::std_specs::convert::FromSpecImpl<ConfigSource> for ConfigSourceWrapper {
    open spec fn obeys_from_spec() -> bool {
        true
    }

    closed spec fn from_spec(root: ConfigSource) -> ConfigSourceWrapper {
        ConfigSourceWrapper(root)
    }
}

/// A wrapped root wraps the root that it was made from.
pub proof fn lemma_wrapper_keeps_root(root: ConfigSource)
    ensures
        <ConfigSourceWrapper as vstd::std_specs::convert::FromSpec<ConfigSource>>::from_spec(root).root()
            == root,
{
}

impl<'a> From<&'a ConfigSourceWrapper> for TranslationSource {
    fn from(wrapped: &'a ConfigSourceWrapper) -> (source: TranslationSource) {
        match &wrapped.0 {
            ConfigSource::Mods(path) => TranslationSource::ModsDirectory(path.clone()),
            ConfigSource::Datapacks(path) => TranslationSource::DatapacksDirectory(path.clone()),
        }
    }
}

impl<'a> vstd::std_specs::convert::FromSpecImpl<&'a ConfigSourceWrapper> for TranslationSource {
    open spec fn obeys_from_spec() -> bool {
        true
    }

    open spec fn from_spec(wrapped: &'a ConfigSourceWrapper) -> TranslationSource {
        match wrapped.root() {
            ConfigSource::Mods(path) => TranslationSource::ModsDirectory(path),
            ConfigSource::Datapacks(path) => TranslationSource::DatapacksDirectory(path),
        }
    }
}

/// The sources that `roots` stand for, in their order.
pub open spec fn configured_sources(roots: Seq<ConfigSourceWrapper>) -> Seq<SourceView> {
    Seq::new(roots.len(), |i: int| roots[i].root().source())
}

impl Default for Config {
    /// Falls back on `en_us`, listens on port 4040, and loads from `datapacks/` and then
    /// from `mods/`.
    fn default() -> (config: Self)
        ensures
            config.fallback_locale@ == "en_us"@,
            config.listen_port == 4040,
            config.sources@.len() == 2,
            config.sources@[0].root().source() == SourceView::DatapacksDirectory("datapacks/"@),
            config.sources@[1].root().source() == SourceView::ModsDirectory("mods/"@),
    {
        let mut sources: Vec<ConfigSourceWrapper> = Vec::new();
        sources.push(ConfigSource::Datapacks("datapacks/".to_owned()).into());
        sources.push(ConfigSource::Mods("mods/".to_owned()).into());
        Config { fallback_locale: "en_us".to_owned(), listen_port: 4040, sources }
    }
}

impl Config {
    /// The sources to load from, in the order in which they are configured.
    pub fn sources(&self) -> (sources: Vec<TranslationSource>)
        ensures
            sources_view(sources@) == configured_sources(self.sources@),
    {
        let mut sources: Vec<TranslationSource> = Vec::new();
        let mut i: usize = 0;
        while i < self.sources.len()
            invariant
                i <= self.sources.len(),
                sources@.len() == i,
                forall|j: int| 0 <= j < i ==> #[trigger] sources@[j]@ == self.sources@[j].root().source(),
            decreases self.sources.len() - i,
        {
            let source: TranslationSource = (&self.sources[i]).into();
            sources.push(source);
            i += 1;
        }
        assert(sources_view(sources@) =~= configured_sources(self.sources@));
        sources
    }
}

} // verus!
