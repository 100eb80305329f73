//! Configuration for a remote provider backend: either fully inline, or a
//! named reference that configuration resolution replaces with the inline
//! form before anything else sees it.

use vstd::prelude::*;

verus! {

/// A remote provider: where to forward, and the credential to present.
#[derive(Debug, Clone)]
pub struct ExternalProviderConfig {
    pub base_url: String,
    pub api_key: String,
}

/// The mathematical shape of a provider.
#[verifier::ext_equal]
pub struct SpecExternalProviderConfig {
    pub base_url: Seq<char>,
    pub api_key: Seq<char>,
}

impl View for ExternalProviderConfig {
    type V = SpecExternalProviderConfig;

    open spec fn view(&self) -> SpecExternalProviderConfig {
        SpecExternalProviderConfig { base_url: self.base_url@, api_key: self.api_key@ }
    }
}

impl DeepView for ExternalProviderConfig {
    type V = SpecExternalProviderConfig;

    open spec fn deep_view(&self) -> SpecExternalProviderConfig {
        self.view()
    }
}

/// The backend-facing identity of a remote model, with an optional
/// client-facing alias.
#[derive(Debug, Clone)]
pub struct ExternalModelConfig {
    pub id: String,
    pub alias: Option<String>,
}

/// The mathematical shape of a remote model identity.
#[verifier::ext_equal]
pub struct SpecExternalModelConfig {
    pub id: Seq<char>,
    pub alias: Option<Seq<char>>,
}

impl View for ExternalModelConfig {
    type V = SpecExternalModelConfig;

    open spec fn view(&self) -> SpecExternalModelConfig {
        SpecExternalModelConfig { id: self.id@, alias: self.alias.deep_view() }
    }
}

impl DeepView for ExternalModelConfig {
    type V = SpecExternalModelConfig;

    open spec fn deep_view(&self) -> SpecExternalModelConfig {
        self.view()
    }
}

/// A remote model with its provider inline: the only form the rest of the
/// system works with.
#[derive(Debug, Clone)]
pub struct ExternalProviderAndModelConfig {
    pub provider: ExternalProviderConfig,
    pub model: ExternalModelConfig,
}

/// The mathematical shape of an inline provider-and-model pair.
#[verifier::ext_equal]
pub struct SpecExternalProviderAndModelConfig {
    pub provider: SpecExternalProviderConfig,
    pub model: SpecExternalModelConfig,
}

impl View for ExternalProviderAndModelConfig {
    type V = SpecExternalProviderAndModelConfig;

    open spec fn view(&self) -> SpecExternalProviderAndModelConfig {
        SpecExternalProviderAndModelConfig { provider: self.provider@, model: self.model@ }
    }
}

impl DeepView for ExternalProviderAndModelConfig {
    type V = SpecExternalProviderAndModelConfig;

    open spec fn deep_view(&self) -> SpecExternalProviderAndModelConfig {
        self.view()
    }
}

/// A remote model referring to a provider by name, as written in the
/// configuration file before resolution.
#[derive(Debug, Clone)]
pub struct ExternalProviderNameAndModelConfig {
    pub provider: String,
    pub model: ExternalModelConfig,
}

/// The mathematical shape of a named provider reference.
#[verifier::ext_equal]
pub struct SpecExternalProviderNameAndModelConfig {
    pub provider: Seq<char>,
    pub model: SpecExternalModelConfig,
}

impl View for ExternalProviderNameAndModelConfig {
    type V = SpecExternalProviderNameAndModelConfig;

    open spec fn view(&self) -> SpecExternalProviderNameAndModelConfig {
        SpecExternalProviderNameAndModelConfig { provider: self.provider@, model: self.model@ }
    }
}

impl DeepView for ExternalProviderNameAndModelConfig {
    type V = SpecExternalProviderNameAndModelConfig;

    open spec fn deep_view(&self) -> SpecExternalProviderNameAndModelConfig {
        self.view()
    }
}

/// A remote backend, before or after provider-reference resolution.
#[derive(Debug, Clone)]
pub enum ExternalConfig {
    ProviderAndModel(ExternalProviderAndModelConfig),
    ProviderNameAndModel(ExternalProviderNameAndModelConfig),
}

/// The mathematical shape of a remote backend configuration.
#[verifier::ext_equal]
pub enum SpecExternalConfig {
    ProviderAndModel(SpecExternalProviderAndModelConfig),
    ProviderNameAndModel(SpecExternalProviderNameAndModelConfig),
}

impl View for ExternalConfig {
    type V = SpecExternalConfig;

    open spec fn view(&self) -> SpecExternalConfig {
        match self {
            ExternalConfig::ProviderAndModel(x) => SpecExternalConfig::ProviderAndModel(x@),
            ExternalConfig::ProviderNameAndModel(x) => SpecExternalConfig::ProviderNameAndModel(
                x@,
            ),
        }
    }
}

impl DeepView for ExternalConfig {
    type V = SpecExternalConfig;

    open spec fn deep_view(&self) -> SpecExternalConfig {
        self.view()
    }
}

impl SpecExternalConfig {
    /// Whether the provider reference has been resolved inline.
    pub open spec fn is_resolved(&self) -> bool {
        self is ProviderAndModel
    }

    /// The model identity, available in either form.
    pub open spec fn spec_model(&self) -> SpecExternalModelConfig {
        match self {
            SpecExternalConfig::ProviderAndModel(x) => x.model,
            SpecExternalConfig::ProviderNameAndModel(x) => x.model,
        }
    }

    /// The inline provider of a resolved configuration.
    pub open spec fn spec_provider(&self) -> SpecExternalProviderConfig
        recommends
            self.is_resolved(),
    {
        self->ProviderAndModel_0.provider
    }
}

impl ExternalConfig {
    /// The model identity, available in either form.
    pub fn model(&self) -> (r: &ExternalModelConfig)
        ensures
            r@ == self@.spec_model(),
    {
        match self {
            ExternalConfig::ProviderAndModel(x) => &x.model,
            ExternalConfig::ProviderNameAndModel(x) => &x.model,
        }
    }

    /// The inline provider. Only resolved configurations have one; the
    /// unresolved form never reaches the components that call this.
    pub fn unwrap_provider(&self) -> (r: &ExternalProviderConfig)
        requires
            self@.is_resolved(),
        ensures
            r@ == self@.spec_provider(),
    {
        match self {
            ExternalConfig::ProviderAndModel(x) => &x.provider,
            ExternalConfig::ProviderNameAndModel(_) => {
                proof {
                    assert(false);
                }
                unreached()
            }
        }
    }

    /// An equal configuration, built afresh.
    pub fn duplicate(&self) -> (r: ExternalConfig)
        ensures
            r@ == self@,
    {
        match self {
            ExternalConfig::ProviderAndModel(x) => ExternalConfig::ProviderAndModel(
                ExternalProviderAndModelConfig {
                    provider: ExternalProviderConfig {
                        base_url: x.provider.base_url.clone(),
                        api_key: x.provider.api_key.clone(),
                    },
                    model: duplicate_model(&x.model),
                },
            ),
            ExternalConfig::ProviderNameAndModel(x) => ExternalConfig::ProviderNameAndModel(
                ExternalProviderNameAndModelConfig {
                    provider: x.provider.clone(),
                    model: duplicate_model(&x.model),
                },
            ),
        }
    }
}

fn duplicate_model(m: &ExternalModelConfig) -> (r: ExternalModelConfig)
    ensures
        r@ == m@,
{
    ExternalModelConfig {
        id: m.id.clone(),
        alias: match &m.alias {
            Some(a) => Some(a.clone()),
            None => None,
        },
    }
}

} // verus!
