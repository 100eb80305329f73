//! The resolved configuration: the list of model definitions, provider
//! references replaced by their inline form, duplicate default markers
//! rejected, and lookup by alias or index.

mod alias_or_index;
mod detach;
mod external;
mod llama_cpp;
mod model;

pub use alias_or_index::{AliasOrIndex, SpecAliasOrIndex, spec_selector_of_string};
pub use detach::DetachConfig;
pub use external::{
    ExternalConfig, ExternalModelConfig, ExternalProviderAndModelConfig, ExternalProviderConfig,
    ExternalProviderNameAndModelConfig, SpecExternalConfig, SpecExternalModelConfig,
    SpecExternalProviderAndModelConfig, SpecExternalProviderConfig,
    SpecExternalProviderNameAndModelConfig,
};
pub use llama_cpp::{LlamaCppModelConfig, SpecLlamaCppModelConfig, spec_prop_arg, spec_prop_args, spec_spawn_args};
pub use model::{ModelConfig, ModelTypeConfig, SpecModelConfig, SpecModelTypeConfig};

use vstd::prelude::*;
use crate::text::{dec_u64, spec_dec_u64, spec_valid_base_url, str_eq, valid_base_url};

verus! {

/// A whole configuration, as handed over by the configuration file layer.
#[derive(Debug)]
pub struct Config {
    pub schema: Option<String>,
    pub models: Vec<ModelConfig>,
    pub providers: Option<Vec<(String, ExternalProviderConfig)>>,
    pub load_defaults_on_launch: Option<bool>,
}

/// Why a configuration or a lookup into it was rejected.
#[derive(Debug)]
pub enum ConfigError {
    /// No definition matches the requested alias or index.
    NotFound { selector: String },
    /// More than one definition shares the requested alias.
    Ambiguous { alias: String, count: usize },
    /// A definition names a provider the provider table does not hold.
    MissingProvider { model: String, provider: String },
    /// Two definitions with the same alias are both marked as default.
    DuplicateDefault { alias: String },
    /// A backend URL that paths cannot be joined onto.
    InvalidBaseUrl { url: String },
}

impl ConfigError {
    /// A diagnostic line naming the failing alias, index or URL.
    pub fn message(&self) -> (r: String)
        ensures
            match self {
                ConfigError::NotFound { selector } => r@ == "model not found: "@ + selector@,
                ConfigError::Ambiguous { alias, count } => r@ == spec_dec_u64(*count as nat)
                    + " models share alias '"@ + alias@ + "'; use an index instead"@,
                ConfigError::MissingProvider { model, provider } => r@ == "external model '"@
                    + model@ + "' references missing provider '"@ + provider@ + "'"@,
                ConfigError::DuplicateDefault { alias } => r@
                    == "multiple models with alias '"@ + alias@ + "' marked as default"@,
                ConfigError::InvalidBaseUrl { url } => r@ == "invalid base url: "@ + url@,
            },
    {
        let mut s = String::new();
        match self {
            ConfigError::NotFound { selector } => {
                s.append("model not found: ");
                s.append(selector.as_str());
            }
            ConfigError::Ambiguous { alias, count } => {
                s.append(dec_u64(*count as u64).as_str());
                s.append(" models share alias '");
                s.append(alias.as_str());
                s.append("'; use an index instead");
            }
            ConfigError::MissingProvider { model, provider } => {
                s.append("external model '");
                s.append(model.as_str());
                s.append("' references missing provider '");
                s.append(provider.as_str());
                s.append("'");
            }
            ConfigError::DuplicateDefault { alias } => {
                s.append("multiple models with alias '");
                s.append(alias.as_str());
                s.append("' marked as default");
            }
            ConfigError::InvalidBaseUrl { url } => {
                s.append("invalid base url: ");
                s.append(url.as_str());
            }
        }
        s
    }
}

/// The first provider entry under `name`, if any.
pub open spec fn spec_provider_lookup(
    providers: Seq<(Seq<char>, SpecExternalProviderConfig)>,
    name: Seq<char>,
) -> Option<SpecExternalProviderConfig>
    decreases providers.len(),
{
    if providers.len() == 0 {
        None
    } else if providers[0].0 == name {
        Some(providers[0].1)
    } else {
        spec_provider_lookup(providers.drop_first(), name)
    }
}

/// The provider table's view, an empty table when absent.
pub open spec fn spec_provider_table(
    providers: Option<Vec<(String, ExternalProviderConfig)>>,
) -> Seq<(Seq<char>, SpecExternalProviderConfig)> {
    match providers {
        Some(v) => v.deep_view(),
        None => Seq::empty(),
    }
}

/// Whether a definition names a provider the table does not hold.
pub open spec fn spec_missing_provider(
    m: SpecModelConfig,
    providers: Seq<(Seq<char>, SpecExternalProviderConfig)>,
) -> bool {
    match m.config {
        SpecModelTypeConfig::External(SpecExternalConfig::ProviderNameAndModel(x)) => {
            spec_provider_lookup(providers, x.provider) is None
        }
        _ => false,
    }
}

/// The definition with any provider reference replaced by the named provider.
pub open spec fn spec_resolved_model(
    m: SpecModelConfig,
    providers: Seq<(Seq<char>, SpecExternalProviderConfig)>,
) -> SpecModelConfig
    recommends
        !spec_missing_provider(m, providers),
{
    match m.config {
        SpecModelTypeConfig::External(SpecExternalConfig::ProviderNameAndModel(x)) => {
            SpecModelConfig {
                config: SpecModelTypeConfig::External(
                    SpecExternalConfig::ProviderAndModel(
                        SpecExternalProviderAndModelConfig {
                            provider: spec_provider_lookup(providers, x.provider)->Some_0,
                            model: x.model,
                        },
                    ),
                ),
                ..m
            }
        }
        _ => m,
    }
}

/// Whether the definition at `i` is marked default while an earlier one with
/// the same alias already is: what configuration loading rejects.
pub open spec fn spec_duplicate_default(models: Seq<ModelConfig>, i: int) -> bool {
    models[i]@.is_default == Some(true) && exists|j: int|
        0 <= j < i && models[j]@.is_default == Some(true) && models[j]@.spec_alias()
            == models[i]@.spec_alias()
}

/// Whether resolution rejects the definition at `i`.
pub open spec fn spec_model_fails(
    models: Seq<ModelConfig>,
    i: int,
    providers: Seq<(Seq<char>, SpecExternalProviderConfig)>,
) -> bool {
    ||| spec_duplicate_default(models, i)
    ||| spec_missing_provider(models[i]@, providers)
    ||| !spec_valid_base_url(spec_resolved_model(models[i]@, providers).spec_url())
}

/// Whether a definition matches a selector: by alias, or by position.
pub open spec fn spec_sel_matches(m: SpecModelConfig, i: int, sel: SpecAliasOrIndex) -> bool {
    match sel {
        SpecAliasOrIndex::Alias(a) => m.spec_alias() == a,
        SpecAliasOrIndex::Index(k) => i == k,
    }
}

/// How many of the first `n` definitions match the selector.
pub open spec fn spec_match_count(models: Seq<ModelConfig>, sel: SpecAliasOrIndex, n: int) -> nat
    decreases n,
{
    if n <= 0 {
        0
    } else {
        spec_match_count(models, sel, n - 1) + (if spec_sel_matches(models[n - 1]@, n - 1, sel) {
            1nat
        } else {
            0nat
        })
    }
}

impl Config {
    /// All definitions are in the inline form with a joinable base URL, and
    /// no alias has two default-marked definitions.
    pub open spec fn wf(&self) -> bool {
        &&& forall|i: int|
            0 <= i < self.models@.len() ==> (#[trigger] self.models@[i]@).is_resolved()
        &&& forall|i: int|
            0 <= i < self.models@.len() ==> spec_valid_base_url(
                (#[trigger] self.models@[i]@).spec_url(),
            )
        &&& forall|i: int| 0 <= i < self.models@.len() ==> !spec_duplicate_default(self.models@, i)
    }

    /// Resolves a configuration as read from disk: replaces provider
    /// references by their inline form, rejects definitions whose provider is
    /// missing or whose backend URL is unusable, and rejects a second default
    /// marker for the same alias. Later definitions are untouched once one is
    /// rejected.
    pub fn resolve(&self) -> (r: Result<Config, ConfigError>)
        ensures
            match r {
                Ok(c) => {
                    &&& c.wf()
                    &&& c.models@.len() == self.models@.len()
                    &&& forall|i: int|
                        0 <= i < self.models@.len() ==> #[trigger] c.models@[i]@
                            == spec_resolved_model(
                            self.models@[i]@,
                            spec_provider_table(self.providers),
                        )
                    &&& forall|i: int|
                        0 <= i < self.models@.len() ==> !spec_model_fails(
                            self.models@,
                            i,
                            spec_provider_table(self.providers),
                        )
                    &&& c.schema.deep_view() == self.schema.deep_view()
                    &&& c.load_defaults_on_launch == self.load_defaults_on_launch
                },
                Err(e) => exists|i: int|
                    0 <= i < self.models@.len() && #[trigger] spec_model_fails(
                        self.models@,
                        i,
                        spec_provider_table(self.providers),
                    ) && (forall|j: int|
                        0 <= j < i ==> !spec_model_fails(
                            self.models@,
                            j,
                            spec_provider_table(self.providers),
                        )),
            },
    {
        let ghost provs = spec_provider_table(self.providers);
        let n = self.models.len();
        let mut out: Vec<ModelConfig> = Vec::new();
        let mut i: usize = 0;
        while i < n
            invariant
                i <= n,
                n == self.models@.len(),
                provs == spec_provider_table(self.providers),
                out@.len() == i,
                forall|j: int|
                    0 <= j < i ==> #[trigger] out@[j]@ == spec_resolved_model(
                        self.models@[j]@,
                        provs,
                    ),
                forall|j: int| 0 <= j < i ==> !spec_model_fails(self.models@, j, provs),
                forall|j: int| 0 <= j < i ==> (#[trigger] out@[j]@).is_resolved(),
                forall|j: int|
                    0 <= j < i ==> spec_valid_base_url((#[trigger] out@[j]@).spec_url()),
            decreases n - i,
        {
            let m = &self.models[i];
            // A second default marker for an alias that already has one.
            if matches!(m.is_default, Some(true)) {
                let mut j: usize = 0;
                while j < i
                    invariant
                        j <= i < n,
                        n == self.models@.len(),
                        provs == spec_provider_table(self.providers),
                        forall|k: int| 0 <= k < i ==> !spec_model_fails(self.models@, k, provs),
                        *m == self.models@[i as int],
                        m@.is_default == Some(true),
                        forall|k: int|
                            0 <= k < j ==> !((#[trigger] self.models@[k]@).is_default == Some(true)
                                && self.models@[k]@.spec_alias() == self.models@[i as int]@.spec_alias()),
                    decreases i - j,
                {
                    let earlier = &self.models[j];
                    if matches!(earlier.is_default, Some(true)) && str_eq(
                        earlier.alias(),
                        m.alias(),
                    ) {
                        assert(spec_duplicate_default(self.models@, i as int));
                        assert(spec_model_fails(self.models@, i as int, provs));
                        return Err(
                            ConfigError::DuplicateDefault { alias: m.alias().to_owned() },
                        );
                    }
                    j = j + 1;
                }
                assert(!spec_duplicate_default(self.models@, i as int));
            } else {
                assert(!spec_duplicate_default(self.models@, i as int));
            }
            // Replace a provider reference by the named provider's inline form.
            let resolved: ModelConfig = match &m.config {
                ModelTypeConfig::External(ExternalConfig::ProviderNameAndModel(x)) => {
                    let provider = match self.lookup_provider(x.provider.as_str()) {
                        Some(p) => p,
                        None => {
                            assert(spec_missing_provider(self.models@[i as int]@, provs));
                            assert(spec_model_fails(self.models@, i as int, provs));
                            return Err(
                                ConfigError::MissingProvider {
                                    model: x.model.id.clone(),
                                    provider: x.provider.clone(),
                                },
                            );
                        }
                    };
                    let r = ModelConfig {
                        unloads: model::duplicate_selectors(&m.unloads),
                        loads: model::duplicate_selectors(&m.loads),
                        is_default: m.is_default,
                        config: ModelTypeConfig::External(
                            ExternalConfig::ProviderAndModel(
                                ExternalProviderAndModelConfig {
                                    provider,
                                    model: ExternalModelConfig {
                                        id: x.model.id.clone(),
                                        alias: match &x.model.alias {
                                            Some(a) => Some(a.clone()),
                                            None => None,
                                        },
                                    },
                                },
                            ),
                        ),
                    };
                    assert(r@ =~= spec_resolved_model(self.models@[i as int]@, provs));
                    r
                }
                _ => {
                    let r = m.duplicate();
                    assert(r@ =~= spec_resolved_model(self.models@[i as int]@, provs));
                    r
                }
            };
            // The backend URL must accept joined request paths.
            let url = resolved.url();
            if !valid_base_url(url.as_str()) {
                assert(spec_model_fails(self.models@, i as int, provs));
                return Err(ConfigError::InvalidBaseUrl { url });
            }
            out.push(resolved);
            i = i + 1;
        }
        let c = Config {
            schema: match &self.schema {
                Some(s) => Some(s.clone()),
                None => None,
            },
            models: out,
            providers: self.duplicate_providers(),
            load_defaults_on_launch: self.load_defaults_on_launch,
        };
        proof {
            assert forall|i2: int| 0 <= i2 < c.models@.len() implies !spec_duplicate_default(
                c.models@,
                i2,
            ) by {
                if spec_duplicate_default(c.models@, i2) {
                    let j2 = choose|j2: int|
                        0 <= j2 < i2 && c.models@[j2]@.is_default == Some(true)
                            && c.models@[j2]@.spec_alias() == c.models@[i2]@.spec_alias();
                    assert(c.models@[j2]@ == spec_resolved_model(self.models@[j2]@, provs));
                    assert(c.models@[i2]@ == spec_resolved_model(self.models@[i2]@, provs));
                    assert(self.models@[j2]@.is_default == Some(true));
                    assert(self.models@[j2]@.spec_alias() == c.models@[j2]@.spec_alias());
                    assert(self.models@[i2]@.spec_alias() == c.models@[i2]@.spec_alias());
                    assert(spec_duplicate_default(self.models@, i2));
                    assert(!spec_model_fails(self.models@, i2, provs));
                }
            }
        }
        Ok(c)
    }

    /// The first provider entry under `name`.
    fn lookup_provider(&self, name: &str) -> (r: Option<ExternalProviderConfig>)
        ensures
            match r {
                Some(p) => spec_provider_lookup(spec_provider_table(self.providers), name@)
                    matches Some(sp) && p@ == sp,
                None => spec_provider_lookup(spec_provider_table(self.providers), name@) is None,
            },
    {
        match &self.providers {
            None => None,
            Some(table) => {
                let n = table.len();
                proof {
                    assert(spec_provider_table(self.providers) == table.deep_view());
                    assert(table.deep_view().subrange(0, n as int) =~= table.deep_view());
                }
                let mut i: usize = 0;
                while i < n
                    invariant
                        i <= n,
                        n == table@.len(),
                        self.providers matches Some(t) && t@ == table@,
                        spec_provider_lookup(spec_provider_table(self.providers), name@)
                            == spec_provider_lookup(
                            table.deep_view().subrange(i as int, n as int),
                            name@,
                        ),
                    decreases n - i,
                {
                    proof {
                        assert(table.deep_view().subrange(i as int, n as int).len() == n - i);
                        assert(table.deep_view().subrange(i as int, n as int)[0]
                            == table.deep_view()[i as int]);
                    }
                    if str_eq(table[i].0.as_str(), name) {
                        let p = ExternalProviderConfig {
                            base_url: table[i].1.base_url.clone(),
                            api_key: table[i].1.api_key.clone(),
                        };
                        return Some(p);
                    }
                    proof {
                        assert(table.deep_view().subrange(i as int, n as int).drop_first()
                            =~= table.deep_view().subrange(i + 1, n as int));
                    }
                    i = i + 1;
                }
                proof {
                    assert(table.deep_view().subrange(n as int, n as int).len() == 0);
                }
                None
            }
        }
    }

    /// A fresh copy of the provider table.
    fn duplicate_providers(&self) -> (r: Option<Vec<(String, ExternalProviderConfig)>>)
        ensures
            spec_provider_table(r) == spec_provider_table(self.providers),
            r is Some <==> self.providers is Some,
    {
        match &self.providers {
            None => None,
            Some(table) => {
                let n = table.len();
                let mut out: Vec<(String, ExternalProviderConfig)> = Vec::new();
                let mut i: usize = 0;
                while i < n
                    invariant
                        i <= n,
                        n == table@.len(),
                        out@.len() == i,
                        forall|j: int|
                            0 <= j < i ==> #[trigger] out@[j].0@ == table@[j].0@ && out@[j].1@
                                == table@[j].1@,
                    decreases n - i,
                {
                    out.push(
                        (
                            table[i].0.clone(),
                            ExternalProviderConfig {
                                base_url: table[i].1.base_url.clone(),
                                api_key: table[i].1.api_key.clone(),
                            },
                        ),
                    );
                    i = i + 1;
                }
                let r = Some(out);
                proof {
                    assert(spec_provider_table(r) =~= spec_provider_table(self.providers));
                }
                r
            }
        }
    }

    /// The definition a selector addresses: exactly one must match. No match
    /// is reported as not found; several matches, as an ambiguous alias to be
    /// addressed by index instead.
    pub fn get_model_config(&self, alias_or_index: &AliasOrIndex) -> (r: Result<
        &ModelConfig,
        ConfigError,
    >)
        ensures
            match r {
                Ok(m) => {
                    &&& spec_match_count(self.models@, alias_or_index@, self.models@.len() as int)
                        == 1
                    &&& exists|i: int|
                        0 <= i < self.models@.len() && #[trigger] spec_sel_matches(
                            self.models@[i]@,
                            i,
                            alias_or_index@,
                        ) && m@ == self.models@[i]@
                },
                Err(ConfigError::NotFound { selector: _ }) => spec_match_count(
                    self.models@,
                    alias_or_index@,
                    self.models@.len() as int,
                ) == 0,
                Err(ConfigError::Ambiguous { alias, count }) => {
                    &&& spec_match_count(self.models@, alias_or_index@, self.models@.len() as int)
                        == count
                    &&& count > 1
                    &&& alias_or_index@ matches SpecAliasOrIndex::Alias(a) && alias@ == a
                },
                Err(_) => false,
            },
    {
        let n = self.models.len();
        let mut count: usize = 0;
        let mut found: usize = 0;
        let mut i: usize = 0;
        while i < n
            invariant
                i <= n,
                n == self.models@.len(),
                count == spec_match_count(self.models@, alias_or_index@, i as int),
                count <= i,
                count > 0 ==> found < i && spec_sel_matches(
                    self.models@[found as int]@,
                    found as int,
                    alias_or_index@,
                ),
            decreases n - i,
        {
            let matches_here: bool = match alias_or_index {
                AliasOrIndex::Alias(a) => str_eq(self.models[i].alias(), a.as_str()),
                AliasOrIndex::Index(k) => i == *k,
            };
            if matches_here {
                count = count + 1;
                found = i;
            }
            i = i + 1;
        }
        if count == 0 {
            let selector = match alias_or_index {
                AliasOrIndex::Alias(a) => a.clone(),
                AliasOrIndex::Index(k) => dec_u64(*k as u64),
            };
            return Err(ConfigError::NotFound { selector });
        }
        if count > 1 {
            proof {
                if alias_or_index@ is Index {
                    lemma_index_match_count_le_one(self.models@, alias_or_index@, n as int);
                }
            }
            let alias = match alias_or_index {
                AliasOrIndex::Alias(a) => a.clone(),
                AliasOrIndex::Index(_) => String::new(),
            };
            return Err(ConfigError::Ambiguous { alias, count });
        }
        Ok(&self.models[found])
    }

    /// The positions of the definitions marked to load at startup, in order.
    pub fn default_indices(&self) -> (r: Vec<usize>)
        ensures
            forall|j: int|
                0 <= j < r@.len() ==> #[trigger] r@[j] < self.models@.len()
                    && self.models@[r@[j] as int]@.is_default == Some(true),
            forall|j1: int, j2: int| 0 <= j1 < j2 < r@.len() ==> r@[j1] < r@[j2],
            forall|i: int|
                0 <= i < self.models@.len() && (#[trigger] self.models@[i]@).is_default == Some(
                    true,
                ) ==> r@.contains(i as usize),
    {
        let n = self.models.len();
        let mut out: Vec<usize> = Vec::new();
        let mut i: usize = 0;
        while i < n
            invariant
                i <= n,
                n == self.models@.len(),
                forall|j: int|
                    0 <= j < out@.len() ==> #[trigger] out@[j] < i
                        && self.models@[out@[j] as int]@.is_default == Some(true),
                forall|j1: int, j2: int| 0 <= j1 < j2 < out@.len() ==> out@[j1] < out@[j2],
                forall|k: int|
                    0 <= k < i && (#[trigger] self.models@[k]@).is_default == Some(true)
                        ==> out@.contains(k as usize),
            decreases n - i,
        {
            if matches!(self.models[i].is_default, Some(true)) {
                let ghost out0 = out@;
                out.push(i);
                proof {
                    assert forall|k: int|
                        0 <= k <= i && (#[trigger] self.models@[k]@).is_default == Some(
                            true,
                        ) implies out@.contains(k as usize) by {
                        if k < i {
                            assert(out0.contains(k as usize));
                            let idx = choose|idx: int|
                                0 <= idx < out0.len() && out0[idx] == k as usize;
                            assert(out@[idx] == k as usize);
                        } else {
                            assert(out@[out@.len() - 1] == i);
                        }
                    }
                }
            }
            i = i + 1;
        }
        out
    }
}

/// At most one definition sits at any one position.
proof fn lemma_index_match_count_le_one(models: Seq<ModelConfig>, sel: SpecAliasOrIndex, n: int)
    requires
        sel is Index,
    ensures
        spec_match_count(models, sel, n) <= 1,
    decreases n,
{
    if n > 0 {
        lemma_index_match_count_le_one(models, sel, n - 1);
        if spec_sel_matches(models[n - 1]@, n - 1, sel) {
            lemma_index_match_count_above(models, sel, n - 1);
        }
    }
}

/// Positions below an index selector never match it.
proof fn lemma_index_match_count_above(models: Seq<ModelConfig>, sel: SpecAliasOrIndex, n: int)
    requires
        sel matches SpecAliasOrIndex::Index(k) && n <= k,
    ensures
        spec_match_count(models, sel, n) == 0,
    decreases n,
{
    if n > 0 {
        lemma_index_match_count_above(models, sel, n - 1);
    }
}

} // verus!
