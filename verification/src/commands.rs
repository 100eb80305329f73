//! What each command-line action computes before any request is sent: the
//! server URL it calls, and the listing lines printed for a configuration.

use vstd::prelude::*;
use crate::config::{
    Config, ModelConfig, ModelTypeConfig, SpecAliasOrIndex, SpecModelConfig, SpecModelTypeConfig,
};
use crate::text::{dec_u64, spec_dec_u64};

verus! {

/// The text of a flag value in a query string.
pub open spec fn spec_bool_text(b: bool) -> Seq<char> {
    if b {
        "true"@
    } else {
        "false"@
    }
}

fn bool_text(b: bool) -> (r: &'static str)
    ensures
        r@ == spec_bool_text(b),
{
    if b {
        "true"
    } else {
        "false"
    }
}

/// The URL that loads a definition on a local server.
pub open spec fn spec_load_url(
    alias_or_index: Seq<char>,
    port: u16,
    tail: bool,
    json: bool,
) -> Seq<char> {
    "http://localhost:"@ + spec_dec_u64(port as nat) + "/herder/"@ + alias_or_index + "?tail="@
        + spec_bool_text(tail) + "&json="@ + spec_bool_text(json)
}

/// The URL a `load` command calls.
pub fn load_url(alias_or_index: &str, port: u16, tail: bool, json: bool) -> (r: String)
    ensures
        r@ == spec_load_url(alias_or_index@, port, tail, json),
{
    let mut s = String::new();
    s.append("http://localhost:");
    s.append(dec_u64(port as u64).as_str());
    s.append("/herder/");
    s.append(alias_or_index);
    s.append("?tail=");
    s.append(bool_text(tail));
    s.append("&json=");
    s.append(bool_text(json));
    assert(s@ =~= spec_load_url(alias_or_index@, port, tail, json));
    s
}

/// The URL that fetches or follows a loaded definition's logs.
pub open spec fn spec_logs_url(
    alias_or_index: Seq<char>,
    port: u16,
    tail: bool,
    json: bool,
) -> Seq<char> {
    "http://localhost:"@ + spec_dec_u64(port as nat) + "/herder/"@ + alias_or_index + "/logs?tail="@
        + spec_bool_text(tail) + "&json="@ + spec_bool_text(json)
}

/// The URL a `logs` command calls.
pub fn logs_url(alias_or_index: &str, port: u16, tail: bool, json: bool) -> (r: String)
    ensures
        r@ == spec_logs_url(alias_or_index@, port, tail, json),
{
    let mut s = String::new();
    s.append("http://localhost:");
    s.append(dec_u64(port as u64).as_str());
    s.append("/herder/");
    s.append(alias_or_index);
    s.append("/logs?tail=");
    s.append(bool_text(tail));
    s.append("&json=");
    s.append(bool_text(json));
    assert(s@ =~= spec_logs_url(alias_or_index@, port, tail, json));
    s
}

/// The URL an `unload` command calls.
pub fn unload_url(alias_or_index: &str, port: u16) -> (r: String)
    ensures
        r@ == "http://localhost:"@ + spec_dec_u64(port as nat) + "/herder/"@ + alias_or_index@,
{
    let mut s = String::new();
    s.append("http://localhost:");
    s.append(dec_u64(port as u64).as_str());
    s.append("/herder/");
    s.append(alias_or_index);
    assert(s@ =~= "http://localhost:"@ + spec_dec_u64(port as nat) + "/herder/"@
        + alias_or_index@);
    s
}

/// The URL a `loaded` command calls.
pub fn loaded_url(port: u16) -> (r: String)
    ensures
        r@ == "http://localhost:"@ + spec_dec_u64(port as nat) + "/herder"@,
{
    let mut s = String::new();
    s.append("http://localhost:");
    s.append(dec_u64(port as u64).as_str());
    s.append("/herder");
    assert(s@ =~= "http://localhost:"@ + spec_dec_u64(port as nat) + "/herder"@);
    s
}

/// The text of one cascade selector in a listing line.
pub open spec fn spec_selector_text(sel: SpecAliasOrIndex) -> Seq<char> {
    match sel {
        SpecAliasOrIndex::Alias(a) => a,
        SpecAliasOrIndex::Index(k) => spec_dec_u64(k as nat),
    }
}

/// A comma-separated selector list in a listing line.
pub open spec fn spec_selector_list(sels: Seq<SpecAliasOrIndex>, n: int) -> Seq<char>
    decreases n,
{
    if n <= 0 || n > sels.len() {
        Seq::empty()
    } else if n == 1 {
        spec_selector_text(sels[0])
    } else {
        spec_selector_list(sels, n - 1) + ", "@ + spec_selector_text(sels[n - 1])
    }
}

/// The backend summary at the end of a listing line.
pub open spec fn spec_type_info(m: SpecModelConfig) -> Seq<char>
    recommends
        m.is_resolved(),
{
    match m.config {
        SpecModelTypeConfig::LlamaCpp(x) => "LlamaCpp ('"@ + x.hf_repo + "' - http://"@ + (
        match x.host {
            Some(h) => h,
            None => "localhost"@,
        }) + ":"@ + spec_dec_u64(x.port as nat) + ")"@,
        SpecModelTypeConfig::External(x) => "External ('"@ + x.spec_model().id + "' - "@
            + x.spec_provider().base_url + ")"@,
    }
}

/// One whole listing line: position, alias, default marker, cascades, and
/// the backend summary.
pub open spec fn spec_list_line(m: SpecModelConfig, i: int) -> Seq<char>
    recommends
        m.is_resolved(),
{
    "["@ + spec_dec_u64(i as nat) + "]: Alias '"@ + m.spec_alias() + "'"@ + (if m.is_default
        == Some(true) {
        " (default)"@
    } else {
        Seq::empty()
    }) + (match m.loads {
        Some(l) => " - Loads: "@ + spec_selector_list(l, l.len() as int),
        None => Seq::empty(),
    }) + (match m.unloads {
        Some(u) => " - Unloads: "@ + spec_selector_list(u, u.len() as int),
        None => Seq::empty(),
    }) + " - "@ + spec_type_info(m)
}

/// Appends a selector list to a line.
fn append_selector_list(out: &mut String, sels: &Vec<crate::config::AliasOrIndex>)
    ensures
        final(out)@ == old(out)@ + spec_selector_list(sels.deep_view(), sels.deep_view().len() as int),
{
    let n = sels.len();
    let mut i: usize = 0;
    while i < n
        invariant
            i <= n,
            n == sels@.len(),
            n == sels.deep_view().len(),
            out@ == old(out)@ + spec_selector_list(sels.deep_view(), i as int),
        decreases n - i,
    {
        if i > 0 {
            out.append(", ");
        }
        match &sels[i] {
            crate::config::AliasOrIndex::Alias(a) => out.append(a.as_str()),
            crate::config::AliasOrIndex::Index(k) => out.append(dec_u64(*k as u64).as_str()),
        }
        i = i + 1;
        proof {
            assert(sels.deep_view()[i - 1] == sels@[i - 1]@);
            assert(out@ =~= old(out)@ + spec_selector_list(sels.deep_view(), i as int));
        }
    }
}

/// One listing line for the definition at position `i`.
#[verifier::rlimit(60)]
fn list_line(m: &ModelConfig, i: usize) -> (r: String)
    requires
        m@.is_resolved(),
    ensures
        r@ == spec_list_line(m@, i as int),
{
    let mut s = String::new();
    s.append("[");
    s.append(dec_u64(i as u64).as_str());
    s.append("]: Alias '");
    s.append(m.alias());
    s.append("'");
    if matches!(m.is_default, Some(true)) {
        s.append(" (default)");
    }
    match &m.loads {
        Some(l) => {
            s.append(" - Loads: ");
            append_selector_list(&mut s, l);
        }
        None => {}
    }
    match &m.unloads {
        Some(u) => {
            s.append(" - Unloads: ");
            append_selector_list(&mut s, u);
        }
        None => {}
    }
    s.append(" - ");
    match &m.config {
        ModelTypeConfig::LlamaCpp(x) => {
            s.append("LlamaCpp ('");
            s.append(x.hf_repo.as_str());
            s.append("' - http://");
            match &x.host {
                Some(h) => s.append(h.as_str()),
                None => s.append("localhost"),
            }
            s.append(":");
            s.append(dec_u64(x.port as u64).as_str());
            s.append(")");
        }
        ModelTypeConfig::External(x) => {
            s.append("External ('");
            s.append(x.model().id.as_str());
            s.append("' - ");
            s.append(x.unwrap_provider().base_url.as_str());
            s.append(")");
        }
    }
    assert(s@ =~= spec_list_line(m@, i as int));
    s
}

/// The listing printed for a configuration: one line per definition, in
/// configuration order.
pub fn list_lines(config: &Config) -> (r: Vec<String>)
    requires
        config.wf(),
    ensures
        r.deep_view().len() == config.models@.len(),
        forall|i: int|
            0 <= i < config.models@.len() ==> #[trigger] r.deep_view()[i] == spec_list_line(
                config.models@[i]@,
                i,
            ),
{
    let n = config.models.len();
    let mut out: Vec<String> = Vec::new();
    let mut i: usize = 0;
    while i < n
        invariant
            i <= n,
            n == config.models@.len(),
            config.wf(),
            out@.len() == i,
            forall|j: int|
                0 <= j < i ==> #[trigger] out.deep_view()[j] == spec_list_line(
                    config.models@[j]@,
                    j,
                ),
        decreases n - i,
    {
        let ghost pre = out.deep_view();
        out.push(list_line(&config.models[i], i));
        i = i + 1;
        proof {
            assert(out.deep_view() =~= pre.push(spec_list_line(config.models@[i - 1]@, i - 1)));
        }
    }
    out
}

} // verus!
