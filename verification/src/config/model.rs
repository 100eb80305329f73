//! One resolved model definition: what clients call it, what its backend
//! calls it, where it listens, and what loading it cascades into.

use vstd::prelude::*;
use crate::config::alias_or_index::{AliasOrIndex, SpecAliasOrIndex};
use crate::config::external::{ExternalConfig, SpecExternalConfig};
use crate::config::llama_cpp::{LlamaCppModelConfig, SpecLlamaCppModelConfig};
use crate::text::spec_dec_u64;

verus! {

/// The two kinds of backend a definition can describe.
#[derive(Debug)]
pub enum ModelTypeConfig {
    LlamaCpp(LlamaCppModelConfig),
    External(ExternalConfig),
}

/// The mathematical shape of a backend description.
#[verifier::ext_equal]
pub enum SpecModelTypeConfig {
    LlamaCpp(SpecLlamaCppModelConfig),
    External(SpecExternalConfig),
}

impl View for ModelTypeConfig {
    type V = SpecModelTypeConfig;

    open spec fn view(&self) -> SpecModelTypeConfig {
        match self {
            ModelTypeConfig::LlamaCpp(x) => SpecModelTypeConfig::LlamaCpp(x@),
            ModelTypeConfig::External(x) => SpecModelTypeConfig::External(x@),
        }
    }
}

impl DeepView for ModelTypeConfig {
    type V = SpecModelTypeConfig;

    open spec fn deep_view(&self) -> SpecModelTypeConfig {
        self.view()
    }
}

/// One entry of the resolved configuration.
#[derive(Debug)]
pub struct ModelConfig {
    pub unloads: Option<Vec<AliasOrIndex>>,
    pub loads: Option<Vec<AliasOrIndex>>,
    pub is_default: Option<bool>,
    pub config: ModelTypeConfig,
}

/// The mathematical shape of one definition.
#[verifier::ext_equal]
pub struct SpecModelConfig {
    pub unloads: Option<Seq<SpecAliasOrIndex>>,
    pub loads: Option<Seq<SpecAliasOrIndex>>,
    pub is_default: Option<bool>,
    pub config: SpecModelTypeConfig,
}

impl View for ModelConfig {
    type V = SpecModelConfig;

    open spec fn view(&self) -> SpecModelConfig {
        SpecModelConfig {
            unloads: self.unloads.deep_view(),
            loads: self.loads.deep_view(),
            is_default: self.is_default,
            config: self.config@,
        }
    }
}

impl DeepView for ModelConfig {
    type V = SpecModelConfig;

    open spec fn deep_view(&self) -> SpecModelConfig {
        self.view()
    }
}

impl SpecModelConfig {
    /// The client-facing alias: the llama.cpp alias, or for remote models the
    /// configured alias, falling back to the backend id.
    pub open spec fn spec_alias(&self) -> Seq<char> {
        match self.config {
            SpecModelTypeConfig::LlamaCpp(x) => x.alias,
            SpecModelTypeConfig::External(x) => match x.spec_model().alias {
                Some(a) => a,
                None => x.spec_model().id,
            },
        }
    }

    /// The backend-facing model identifier.
    pub open spec fn spec_id(&self) -> Seq<char> {
        match self.config {
            SpecModelTypeConfig::LlamaCpp(x) => x.alias,
            SpecModelTypeConfig::External(x) => x.spec_model().id,
        }
    }

    /// Whether any provider reference has been resolved inline.
    pub open spec fn is_resolved(&self) -> bool {
        match self.config {
            SpecModelTypeConfig::LlamaCpp(_) => true,
            SpecModelTypeConfig::External(x) => x.is_resolved(),
        }
    }

    /// The bearer credential presented to the backend, if any.
    pub open spec fn spec_api_key(&self) -> Option<Seq<char>>
        recommends
            self.is_resolved(),
    {
        match self.config {
            SpecModelTypeConfig::LlamaCpp(x) => x.api_key,
            SpecModelTypeConfig::External(x) => Some(x.spec_provider().api_key),
        }
    }

    /// The backend's base URL: built from host and port for local processes,
    /// taken from the provider for remote ones.
    pub open spec fn spec_url(&self) -> Seq<char>
        recommends
            self.is_resolved(),
    {
        match self.config {
            SpecModelTypeConfig::LlamaCpp(x) => "http://"@ + (match x.host {
                Some(h) => h,
                None => "localhost"@,
            }) + ":"@ + spec_dec_u64(x.port as nat),
            SpecModelTypeConfig::External(x) => x.spec_provider().base_url,
        }
    }
}

impl ModelConfig {
    /// The client-facing alias.
    pub fn alias(&self) -> (r: &str)
        ensures
            r@ == self@.spec_alias(),
    {
        match &self.config {
            ModelTypeConfig::LlamaCpp(x) => x.alias.as_str(),
            ModelTypeConfig::External(x) => {
                let m = x.model();
                match &m.alias {
                    Some(a) => a.as_str(),
                    None => m.id.as_str(),
                }
            }
        }
    }

    /// The backend-facing model identifier.
    pub fn id(&self) -> (r: &str)
        ensures
            r@ == self@.spec_id(),
    {
        match &self.config {
            ModelTypeConfig::LlamaCpp(x) => x.alias.as_str(),
            ModelTypeConfig::External(x) => x.model().id.as_str(),
        }
    }

    /// The bearer credential presented to the backend, if any.
    pub fn api_key(&self) -> (r: Option<&str>)
        requires
            self@.is_resolved(),
        ensures
            r.deep_view() == self@.spec_api_key(),
    {
        match &self.config {
            ModelTypeConfig::LlamaCpp(x) => match &x.api_key {
                Some(k) => Some(k.as_str()),
                None => None,
            },
            ModelTypeConfig::External(x) => Some(x.unwrap_provider().api_key.as_str()),
        }
    }

    /// The backend's base URL.
    pub fn url(&self) -> (r: String)
        requires
            self@.is_resolved(),
        ensures
            r@ == self@.spec_url(),
    {
        match &self.config {
            ModelTypeConfig::LlamaCpp(x) => {
                let mut s = String::new();
                s.append("http://");
                match &x.host {
                    Some(h) => s.append(h.as_str()),
                    None => s.append("localhost"),
                }
                s.append(":");
                s.append(crate::text::dec_u64(x.port as u64).as_str());
                assert(s@ =~= self@.spec_url());
                s
            }
            ModelTypeConfig::External(x) => x.unwrap_provider().base_url.clone(),
        }
    }

    /// An equal definition, built afresh.
    pub fn duplicate(&self) -> (r: ModelConfig)
        ensures
            r@ == self@,
    {
        let r = ModelConfig {
            unloads: duplicate_selectors(&self.unloads),
            loads: duplicate_selectors(&self.loads),
            is_default: self.is_default,
            config: match &self.config {
                ModelTypeConfig::LlamaCpp(x) => ModelTypeConfig::LlamaCpp(x.duplicate()),
                ModelTypeConfig::External(x) => ModelTypeConfig::External(x.duplicate()),
            },
        };
        assert(r@ =~= self@);
        r
    }
}

/// Copies an optional selector list, keeping its shape.
pub(crate) fn duplicate_selectors(v: &Option<Vec<AliasOrIndex>>) -> (r: Option<Vec<AliasOrIndex>>)
    ensures
        r.deep_view() == v.deep_view(),
{
    match v {
        None => None,
        Some(list) => {
            let n = list.len();
            let mut out: Vec<AliasOrIndex> = Vec::new();
            let mut i: usize = 0;
            while i < n
                invariant
                    i <= n,
                    n == list@.len(),
                    out@.len() == i,
                    forall|j: int| 0 <= j < i ==> #[trigger] out@[j]@ == list@[j]@,
                decreases n - i,
            {
                out.push(list[i].duplicate());
                i = i + 1;
            }
            let r = Some(out);
            assert(r.deep_view() matches Some(s) && s =~= list.deep_view());
            r
        }
    }
}

} // verus!
