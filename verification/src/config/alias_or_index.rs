//! Selecting a model definition by client-facing alias or by position.

use vstd::prelude::*;
use crate::text::{parse_usize, spec_parse_usize};

verus! {

/// How callers address a model definition: by alias, or — where the alias is
/// ambiguous — by its position in the configuration.
#[derive(Debug, Clone)]
pub enum AliasOrIndex {
    Alias(String),
    Index(usize),
}

/// The mathematical shape of a selector.
#[verifier::ext_equal]
pub enum SpecAliasOrIndex {
    Alias(Seq<char>),
    Index(int),
}

impl View for AliasOrIndex {
    type V = SpecAliasOrIndex;

    open spec fn view(&self) -> SpecAliasOrIndex {
        match self {
            AliasOrIndex::Alias(a) => SpecAliasOrIndex::Alias(a@),
            AliasOrIndex::Index(i) => SpecAliasOrIndex::Index(*i as int),
        }
    }
}

impl DeepView for AliasOrIndex {
    type V = SpecAliasOrIndex;

    open spec fn deep_view(&self) -> SpecAliasOrIndex {
        self.view()
    }
}

impl AliasOrIndex {
    /// The alias, when this selector is one.
    pub fn as_alias(&self) -> (r: Option<&str>)
        ensures
            match self@ {
                SpecAliasOrIndex::Alias(a) => r matches Some(s) && s@ == a,
                SpecAliasOrIndex::Index(_) => r is None,
            },
    {
        match self {
            AliasOrIndex::Alias(alias) => Some(alias.as_str()),
            AliasOrIndex::Index(_) => None,
        }
    }

    /// An equal selector, built afresh.
    pub fn duplicate(&self) -> (r: AliasOrIndex)
        ensures
            r@ == self@,
    {
        match self {
            AliasOrIndex::Alias(a) => AliasOrIndex::Alias(a.clone()),
            AliasOrIndex::Index(i) => AliasOrIndex::Index(*i),
        }
    }
}

/// What a selector string means: digit strings in range address by position,
/// anything else is an alias.
pub open spec fn spec_selector_of_string(value: String) -> SpecAliasOrIndex {
    match spec_parse_usize(value@) {
        Some(n) => SpecAliasOrIndex::Index(n as int),
        None => SpecAliasOrIndex::Alias(value@),
    }
}

impl From<String> for AliasOrIndex {
    /// Strings that parse as a position select by position; all others are
    /// taken as aliases.
    fn from(value: String) -> (r: Self) {
        match parse_usize(value.as_str()) {
            Some(index) => AliasOrIndex::Index(index),
            None => AliasOrIndex::Alias(value),
        }
    }
}

impl vstd::std_specs::convert::FromSpecImpl<String> for AliasOrIndex {
    open spec fn obeys_from_spec() -> bool {
        true
    }

    open spec fn from_spec(value: String) -> AliasOrIndex {
        match spec_parse_usize(value@) {
            Some(n) => AliasOrIndex::Index(n as usize),
            None => AliasOrIndex::Alias(value),
        }
    }
}

impl From<usize> for AliasOrIndex {
    fn from(index: usize) -> (r: Self) {
        AliasOrIndex::Index(index)
    }
}

impl vstd::std_specs::convert::FromSpecImpl<usize> for AliasOrIndex {
    open spec fn obeys_from_spec() -> bool {
        true
    }

    open spec fn from_spec(index: usize) -> AliasOrIndex {
        AliasOrIndex::Index(index)
    }
}

} // verus!
