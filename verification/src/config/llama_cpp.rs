//! Configuration for a locally spawned llama.cpp server backend.

use vstd::prelude::*;
use crate::json::{Json, SpecJson, spec_render};
use crate::text::{dec_u64, spec_dec_u64};

verus! {

/// Launch parameters for a local process backend. Extra launch flags arrive
/// as an open key-value map and are passed through to the command line.
#[derive(Debug)]
pub struct LlamaCppModelConfig {
    pub hf_repo: String,
    pub port: u16,
    pub alias: String,
    pub api_key: Option<String>,
    pub host: Option<String>,
    pub additional_properties: Vec<(String, Json)>,
}

/// The mathematical shape of the launch parameters.
#[verifier::ext_equal]
pub struct SpecLlamaCppModelConfig {
    pub hf_repo: Seq<char>,
    pub port: u16,
    pub alias: Seq<char>,
    pub api_key: Option<Seq<char>>,
    pub host: Option<Seq<char>>,
    pub additional_properties: Seq<(Seq<char>, SpecJson)>,
}

impl View for LlamaCppModelConfig {
    type V = SpecLlamaCppModelConfig;

    open spec fn view(&self) -> SpecLlamaCppModelConfig {
        SpecLlamaCppModelConfig {
            hf_repo: self.hf_repo@,
            port: self.port,
            alias: self.alias@,
            api_key: self.api_key.deep_view(),
            host: self.host.deep_view(),
            additional_properties: self.additional_properties.deep_view(),
        }
    }
}

impl DeepView for LlamaCppModelConfig {
    type V = SpecLlamaCppModelConfig;

    open spec fn deep_view(&self) -> SpecLlamaCppModelConfig {
        self.view()
    }
}

/// What one extra launch property contributes to the command line: nothing
/// for null or false, a bare flag for true, and the flag followed by the
/// rendered value otherwise.
pub open spec fn spec_prop_arg(key: Seq<char>, v: SpecJson) -> Seq<Seq<char>> {
    if v == SpecJson::Null || v == SpecJson::Bool(false) {
        Seq::empty()
    } else if v == SpecJson::Bool(true) {
        seq!["--"@ + key]
    } else {
        seq!["--"@ + key, spec_render(v)]
    }
}

/// What the first `n` extra launch properties contribute, in order.
pub open spec fn spec_prop_args(props: Seq<(Seq<char>, SpecJson)>, n: int) -> Seq<Seq<char>>
    decreases n,
{
    if n <= 0 || n > props.len() {
        Seq::empty()
    } else {
        spec_prop_args(props, n - 1) + spec_prop_arg(props[n - 1].0, props[n - 1].1)
    }
}

/// The full launch argument list: alias, repository and port, then the
/// optional credential and host, then the extra properties.
pub open spec fn spec_spawn_args(m: SpecLlamaCppModelConfig) -> Seq<Seq<char>> {
    seq!["--alias"@, m.alias, "--hf-repo"@, m.hf_repo, "--port"@, spec_dec_u64(m.port as nat)]
        + (match m.api_key {
        Some(k) => seq!["--api-key"@, k],
        None => Seq::empty(),
    }) + (match m.host {
        Some(h) => seq!["--host"@, h],
        None => Seq::empty(),
    }) + spec_prop_args(m.additional_properties, m.additional_properties.len() as int)
}

/// The flag for one property key.
fn flag_of(key: &str) -> (r: String)
    ensures
        r@ == "--"@ + key@,
{
    let mut s = String::new();
    s.append("--");
    s.append(key);
    s
}

fn duplicate_opt_string(v: &Option<String>) -> (r: Option<String>)
    ensures
        r.deep_view() == v.deep_view(),
{
    match v {
        Some(s) => Some(s.clone()),
        None => None,
    }
}

impl LlamaCppModelConfig {
    /// The command-line arguments a backend process is launched with.
    pub fn spawn_args(&self) -> (r: Vec<String>)
        ensures
            r.deep_view() == spec_spawn_args(self@),
    {
        let mut out: Vec<String> = Vec::new();
        out.push("--alias".to_owned());
        out.push(self.alias.clone());
        out.push("--hf-repo".to_owned());
        out.push(self.hf_repo.clone());
        out.push("--port".to_owned());
        out.push(dec_u64(self.port as u64));
        match &self.api_key {
            Some(k) => {
                out.push("--api-key".to_owned());
                out.push(k.clone());
            }
            None => {}
        }
        match &self.host {
            Some(h) => {
                out.push("--host".to_owned());
                out.push(h.clone());
            }
            None => {}
        }
        let ghost head = out.deep_view();
        proof {
            assert(head =~= seq![
                "--alias"@,
                self@.alias,
                "--hf-repo"@,
                self@.hf_repo,
                "--port"@,
                spec_dec_u64(self@.port as nat),
            ] + (match self@.api_key {
                Some(k) => seq!["--api-key"@, k],
                None => Seq::<Seq<char>>::empty(),
            }) + (match self@.host {
                Some(h) => seq!["--host"@, h],
                None => Seq::<Seq<char>>::empty(),
            }));
        }
        let n = self.additional_properties.len();
        let mut i: usize = 0;
        while i < n
            invariant
                i <= n,
                n == self.additional_properties@.len(),
                head == (seq![
                    "--alias"@,
                    self@.alias,
                    "--hf-repo"@,
                    self@.hf_repo,
                    "--port"@,
                    spec_dec_u64(self@.port as nat),
                ] + (match self@.api_key {
                    Some(k) => seq!["--api-key"@, k],
                    None => Seq::<Seq<char>>::empty(),
                }) + (match self@.host {
                    Some(h) => seq!["--host"@, h],
                    None => Seq::<Seq<char>>::empty(),
                })),
                self@.additional_properties.len() == n,
                forall|j: int|
                    0 <= j < n ==> #[trigger] self@.additional_properties[j] == (
                    self.additional_properties@[j].0@,
                    self.additional_properties@[j].1@,
                    ),
                out.deep_view() == head + spec_prop_args(self@.additional_properties, i as int),
            decreases n - i,
        {
            let key = &self.additional_properties[i].0;
            let value = &self.additional_properties[i].1;
            let ghost before = out.deep_view();
            match value {
                Json::Null => {}
                Json::Bool(b) => {
                    if *b {
                        out.push(flag_of(key.as_str()));
                    }
                }
                _ => {
                    out.push(flag_of(key.as_str()));
                    out.push(value.render());
                }
            }
            i = i + 1;
            proof {
                assert(out.deep_view() =~= before + spec_prop_arg(
                    self@.additional_properties[i - 1].0,
                    self@.additional_properties[i - 1].1,
                ));
                assert(out.deep_view() =~= head + spec_prop_args(
                    self@.additional_properties,
                    i as int,
                ));
            }
        }
        proof {
            assert(out.deep_view() =~= spec_spawn_args(self@));
        }
        out
    }

    /// Equal launch parameters, built afresh.
    pub fn duplicate(&self) -> (r: LlamaCppModelConfig)
        ensures
            r@ == self@,
    {
        let n = self.additional_properties.len();
        let mut props: Vec<(String, Json)> = Vec::new();
        let mut i: usize = 0;
        while i < n
            invariant
                i <= n,
                n == self.additional_properties@.len(),
                props@.len() == i,
                forall|j: int|
                    0 <= j < i ==> #[trigger] props@[j].0@ == self.additional_properties@[j].0@
                        && props@[j].1@ == self.additional_properties@[j].1@,
            decreases n - i,
        {
            props.push(
                (self.additional_properties[i].0.clone(), self.additional_properties[i].1.duplicate()),
            );
            i = i + 1;
        }
        let r = LlamaCppModelConfig {
            hf_repo: self.hf_repo.clone(),
            port: self.port,
            alias: self.alias.clone(),
            api_key: duplicate_opt_string(&self.api_key),
            host: duplicate_opt_string(&self.host),
            additional_properties: props,
        };
        assert(r@.additional_properties =~= self@.additional_properties);
        assert(r@ =~= self@);
        r
    }
}

} // verus!
