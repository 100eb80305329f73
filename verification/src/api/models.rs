//! The model-management endpoints' decisions: turning a path segment into
//! an alias, and formatting a log history for one response.

use vstd::prelude::*;
use crate::config::{AliasOrIndex, Config, ConfigError, SpecAliasOrIndex};
use crate::json::{Json, SpecJson, spec_render};
use crate::models::{Log, SpecLog, spec_log_json, spec_plain_line};

verus! {

/// The alias a path segment addresses: an alias is used as it stands, a
/// position is resolved through the configuration.
pub fn resolve_alias_text(config: &Config, alias_or_index: String) -> (r: Result<
    String,
    ConfigError,
>)
    ensures
        match crate::config::spec_selector_of_string(alias_or_index) {
            SpecAliasOrIndex::Alias(a) => r matches Ok(s) && s@ == a,
            SpecAliasOrIndex::Index(_) => match r {
                Ok(s) => exists|i: int|
                    0 <= i < config.models@.len() && crate::config::spec_sel_matches(
                        (#[trigger] config.models@[i])@,
                        i,
                        crate::config::spec_selector_of_string(alias_or_index),
                    ) && s@ == config.models@[i]@.spec_alias(),
                Err(_) => crate::config::spec_match_count(
                    config.models@,
                    crate::config::spec_selector_of_string(alias_or_index),
                    config.models@.len() as int,
                ) != 1,
            },
        },
{
    let sel = AliasOrIndex::from(alias_or_index);
    match sel {
        AliasOrIndex::Alias(alias) => Ok(alias),
        AliasOrIndex::Index(index) => {
            match config.get_model_config(&AliasOrIndex::Index(index)) {
                Ok(m) => Ok(m.alias().to_owned()),
                Err(e) => Err(e),
            }
        }
    }
}

/// The shapes of a log history's entries, in capture order.
pub open spec fn spec_logs_json_seq(logs: Seq<SpecLog>) -> Seq<SpecJson> {
    logs.map_values(|l: SpecLog| spec_log_json(l))
}

/// A log history as one structured array.
pub fn format_logs_json(logs: &Vec<Log>) -> (r: String)
    ensures
        r@ == spec_render(SpecJson::Arr(spec_logs_json_seq(logs.deep_view()))),
{
    let n = logs.len();
    let mut items: Vec<Json> = Vec::new();
    let mut i: usize = 0;
    while i < n
        invariant
            i <= n,
            n == logs@.len(),
            items@.len() == i,
            forall|j: int|
                0 <= j < i ==> #[trigger] items.deep_view()[j] == spec_log_json(logs@[j]@),
        decreases n - i,
    {
        let ghost pre = items.deep_view();
        items.push(log_to_json(&logs[i]));
        i = i + 1;
        proof {
            assert(items.deep_view() =~= pre.push(spec_log_json(logs@[i - 1]@)));
        }
    }
    let arr = Json::Arr(items);
    proof {
        assert(forall|j: int|
            0 <= j < logs@.len() ==> #[trigger] logs.deep_view()[j] == logs@[j]@);
        assert(forall|j: int|
            0 <= j < items@.len() ==> #[trigger] arr@->Arr_0[j] == items.deep_view()[j]);
        assert(arr@->Arr_0 =~= spec_logs_json_seq(logs.deep_view()));
        assert(arr@ =~= SpecJson::Arr(spec_logs_json_seq(logs.deep_view())));
    }
    arr.render()
}

/// One entry as a structured object.
fn log_to_json(l: &Log) -> (r: Json)
    ensures
        r@ == spec_log_json(l@),
{
    let m = match l {
        Log::StdOut(m) => m,
        Log::StdErr(m) => m,
    };
    let tag: String = match l {
        Log::StdOut(_) => "StdOut".to_owned(),
        Log::StdErr(_) => "StdErr".to_owned(),
    };
    let mut pairs: Vec<(String, Json)> = Vec::new();
    pairs.push(("stream".to_owned(), Json::Str(tag)));
    pairs.push(("timestamp".to_owned(), Json::Num(crate::text::dec_i64(m.timestamp))));
    pairs.push(("message".to_owned(), Json::Str(m.message.clone())));
    let v = Json::Obj(pairs);
    proof {
        assert(pairs@.len() == 3);
        assert(v@->Obj_0.len() == 3);
        assert(v@->Obj_0[0] == (pairs@[0].0@, pairs@[0].1@));
        assert(v@->Obj_0[1] == (pairs@[1].0@, pairs@[1].1@));
        assert(v@->Obj_0[2] == (pairs@[2].0@, pairs@[2].1@));
        assert(v@->Obj_0 =~= spec_log_json(l@)->Obj_0);
        assert(v@ =~= spec_log_json(l@));
    }
    v
}

/// A log history as plain lines, one entry per line.
pub open spec fn spec_plain_lines(logs: Seq<SpecLog>, n: int) -> Seq<char>
    decreases n,
{
    if n <= 0 || n > logs.len() {
        Seq::empty()
    } else if n == 1 {
        spec_plain_line(logs[0])
    } else {
        spec_plain_lines(logs, n - 1) + seq!['\n'] + spec_plain_line(logs[n - 1])
    }
}

/// A log history joined as newline-separated plain lines.
pub fn format_logs_plain(logs: &Vec<Log>) -> (r: String)
    ensures
        r@ == spec_plain_lines(logs.deep_view(), logs.deep_view().len() as int),
{
    let n = logs.len();
    let mut out = String::new();
    let mut i: usize = 0;
    while i < n
        invariant
            i <= n,
            n == logs@.len(),
            n == logs.deep_view().len(),
            out@ == spec_plain_lines(logs.deep_view(), i as int),
        decreases n - i,
    {
        if i > 0 {
            out.push('\n');
        }
        out.append(logs[i].to_plain_line().as_str());
        i = i + 1;
        proof {
            assert(logs.deep_view()[i - 1] == logs@[i - 1]@);
            assert(out@ =~= spec_plain_lines(logs.deep_view(), i as int));
        }
    }
    out
}

} // verus!
