//! The model-listing aggregation: every loaded definition's backend is asked
//! for its own model list once per distinct provider, the entry matching the
//! backend id is picked out, renamed to the client-facing alias, and all
//! results are merged into one listing.

use vstd::prelude::*;
use crate::api::catchall::{find_key_index, set_str_field, spec_obj_get, spec_set_str_field};
use crate::api::result::ApiError;
use crate::config::{ModelConfig, SpecModelConfig};
use crate::json::{Json, SpecJson, parse_json, spec_parse_json, spec_render};
use crate::text::str_eq;

verus! {

/// The cache key for one backend: its base URL and credential. Definitions
/// sharing both are served by one upstream query.
pub open spec fn spec_key_of(m: SpecModelConfig) -> (Seq<char>, Option<Seq<char>>)
    recommends
        m.is_resolved(),
{
    (m.spec_url(), m.spec_api_key())
}

/// The distinct keys of a sequence, first occurrence first.
pub open spec fn spec_dedup_keys(s: Seq<(Seq<char>, Option<Seq<char>>)>) -> Seq<
    (Seq<char>, Option<Seq<char>>),
>
    decreases s.len(),
{
    if s.len() == 0 {
        Seq::empty()
    } else {
        let pre = spec_dedup_keys(s.drop_last());
        if pre.contains(s.last()) {
            pre
        } else {
            pre.push(s.last())
        }
    }
}

/// The position of `key` in the key list, if present.
pub open spec fn spec_key_index(
    keys: Seq<(Seq<char>, Option<Seq<char>>)>,
    key: (Seq<char>, Option<Seq<char>>),
) -> Option<int>
    decreases keys.len(),
{
    if keys.len() == 0 {
        None
    } else if keys[0] == key {
        Some(0)
    } else {
        match spec_key_index(keys.drop_first(), key) {
            Some(j) => Some(j + 1),
            None => None,
        }
    }
}

/// The model entries of one upstream listing: the response must be an
/// object whose `data` field is an array of objects each naming a string
/// `id`, as the upstream's own listing endpoint produces.
pub open spec fn spec_data_items(body: Seq<char>) -> Option<Seq<SpecJson>> {
    match spec_parse_json(body) {
        Some(SpecJson::Obj(pairs)) => match spec_obj_get(pairs, "data"@) {
            Some(SpecJson::Arr(items)) => if spec_items_ok(items) {
                Some(items)
            } else {
                None
            },
            _ => None,
        },
        _ => None,
    }
}

/// Every listed entry is an object with a string `id`.
pub open spec fn spec_items_ok(items: Seq<SpecJson>) -> bool {
    forall|j: int|
        0 <= j < items.len() ==> ((#[trigger] items[j]) matches SpecJson::Obj(pairs)
            && spec_obj_get(pairs, "id"@) matches Some(SpecJson::Str(_)))
}

/// The first listed entry whose identifier is `id`.
pub open spec fn spec_find_item(items: Seq<SpecJson>, id: Seq<char>) -> Option<SpecJson>
    decreases items.len(),
{
    if items.len() == 0 {
        None
    } else if items[0] matches SpecJson::Obj(pairs) && spec_obj_get(pairs, "id"@)
        == Some(SpecJson::Str(id)) {
        Some(items[0])
    } else {
        spec_find_item(items.drop_first(), id)
    }
}

/// A listed entry renamed to the client-facing alias.
pub open spec fn spec_rename_item(item: SpecJson, alias: Seq<char>) -> SpecJson {
    SpecJson::Obj(spec_set_str_field(item->Obj_0, "id"@, alias))
}

/// The merged listing: for each definition in order, its provider's
/// response must hold an entry under the definition's backend id, which
/// joins the result renamed to the alias. Anything else fails the whole
/// listing.
pub open spec fn spec_collect_items(
    configs: Seq<SpecModelConfig>,
    keys: Seq<(Seq<char>, Option<Seq<char>>)>,
    bodies: Seq<Seq<char>>,
    n: int,
) -> Option<Seq<SpecJson>>
    decreases n,
{
    if n <= 0 {
        Some(Seq::empty())
    } else {
        match spec_collect_items(configs, keys, bodies, n - 1) {
            None => None,
            Some(pre) => {
                if !(0 <= n - 1 < configs.len()) {
                    None
                } else {
                    let m = configs[n - 1];
                    match spec_key_index(keys, spec_key_of(m)) {
                        None => None,
                        Some(kx) => if !(0 <= kx < bodies.len()) {
                            None
                        } else {
                            match spec_data_items(bodies[kx]) {
                                None => None,
                                Some(items) => match spec_find_item(items, m.spec_id()) {
                                    None => None,
                                    Some(item) => Some(
                                        pre.push(spec_rename_item(item, m.spec_alias())),
                                    ),
                                },
                            }
                        },
                    }
                }
            }
        }
    }
}

/// A step that cannot be completed fails the whole listing.
proof fn lemma_collect_none(
    configs: Seq<SpecModelConfig>,
    keys: Seq<(Seq<char>, Option<Seq<char>>)>,
    bodies: Seq<Seq<char>>,
    k: int,
    n: int,
)
    requires
        0 <= k <= n,
        spec_collect_items(configs, keys, bodies, k) is None,
    ensures
        spec_collect_items(configs, keys, bodies, n) is None,
    decreases n - k,
{
    if k < n {
        lemma_collect_none(configs, keys, bodies, k + 1, n);
    }
}

/// Whether two cache keys are the same backend.
fn key_eq(a: &(String, Option<String>), b: &(String, Option<String>)) -> (r: bool)
    ensures
        r == (a.deep_view() == b.deep_view()),
{
    if !str_eq(a.0.as_str(), b.0.as_str()) {
        proof {
            assert(a.deep_view().0 != b.deep_view().0);
        }
        return false;
    }
    let r = match (&a.1, &b.1) {
        (Some(x), Some(y)) => str_eq(x.as_str(), y.as_str()),
        (None, None) => true,
        _ => false,
    };
    proof {
        if r {
            assert(a.deep_view() =~= b.deep_view());
        }
    }
    r
}

/// The key of one definition's backend.
fn key_of(m: &ModelConfig) -> (r: (String, Option<String>))
    requires
        m@.is_resolved(),
    ensures
        r.deep_view() == spec_key_of(m@),
{
    let url = m.url();
    let api_key: Option<String> = match m.api_key() {
        Some(k) => Some(k.to_owned()),
        None => None,
    };
    (url, api_key)
}

/// The distinct backends of the loaded definitions, in first-use order:
/// which upstream listing queries are needed.
pub fn provider_keys(configs: &Vec<ModelConfig>) -> (r: Vec<(String, Option<String>)>)
    requires
        forall|i: int| 0 <= i < configs@.len() ==> (#[trigger] configs@[i])@.is_resolved(),
    ensures
        r.deep_view() == spec_dedup_keys(
            configs.deep_view().map_values(|m: SpecModelConfig| spec_key_of(m)),
        ),
{
    let ghost allkeys = configs.deep_view().map_values(|m: SpecModelConfig| spec_key_of(m));
    let n = configs.len();
    let mut out: Vec<(String, Option<String>)> = Vec::new();
    proof {
        assert(out.deep_view() =~= spec_dedup_keys(allkeys.subrange(0, 0)));
    }
    let mut i: usize = 0;
    while i < n
        invariant
            i <= n,
            n == configs@.len(),
            allkeys == configs.deep_view().map_values(|m: SpecModelConfig| spec_key_of(m)),
            allkeys.len() == n,
            forall|j: int| 0 <= j < n ==> (#[trigger] configs@[j])@.is_resolved(),
            forall|j: int| 0 <= j < n ==> #[trigger] allkeys[j] == spec_key_of(configs@[j]@),
            out.deep_view() == spec_dedup_keys(allkeys.subrange(0, i as int)),
        decreases n - i,
    {
        let key = key_of(&configs[i]);
        let mut seen = false;
        let on = out.len();
        let mut k: usize = 0;
        while k < on
            invariant
                k <= on,
                on == out@.len(),
                key.deep_view() == spec_key_of(configs@[i as int]@),
                i < n,
                n == configs@.len(),
                seen ==> out.deep_view().contains(key.deep_view()),
                !seen ==> forall|j: int|
                    0 <= j < k ==> #[trigger] out.deep_view()[j] != key.deep_view(),
            decreases on - k,
        {
            if key_eq(&out[k], &key) {
                proof {
                    assert(out.deep_view()[k as int] == key.deep_view());
                }
                seen = true;
            }
            if seen {
                k = on;
            } else {
                k = k + 1;
            }
        }
        let ghost pre = out.deep_view();
        if !seen {
            out.push(key);
        }
        proof {
            let sub1 = allkeys.subrange(0, i + 1);
            assert(sub1.drop_last() =~= allkeys.subrange(0, i as int));
            assert(sub1.last() == spec_key_of(configs@[i as int]@));
            if seen {
                assert(out.deep_view() == pre);
            } else {
                assert(!pre.contains(sub1.last())) by {
                    if pre.contains(sub1.last()) {
                        let j = choose|j: int| 0 <= j < pre.len() && pre[j] == sub1.last();
                        assert(false);
                    }
                }
                assert(out.deep_view() =~= pre.push(sub1.last()));
            }
        }
        i = i + 1;
    }
    proof {
        assert(allkeys.subrange(0, n as int) =~= allkeys);
    }
    out
}

/// Finds the position of a backend key in the fetched key list.
fn find_key(keys: &Vec<(String, Option<String>)>, key: &(String, Option<String>)) -> (r: Option<
    usize,
>)
    ensures
        match r {
            Some(i) => spec_key_index(keys.deep_view(), key.deep_view()) == Some(i as int) && i
                < keys@.len(),
            None => spec_key_index(keys.deep_view(), key.deep_view()) is None,
        },
{
    let n = keys.len();
    proof {
        assert(keys.deep_view().subrange(0, n as int) =~= keys.deep_view());
    }
    let mut i: usize = 0;
    while i < n
        invariant
            i <= n,
            n == keys@.len(),
            spec_key_index(keys.deep_view(), key.deep_view()) == (match spec_key_index(
                keys.deep_view().subrange(i as int, n as int),
                key.deep_view(),
            ) {
                Some(j) => Some(j + i),
                None => None::<int>,
            }),
        decreases n - i,
    {
        proof {
            assert(keys.deep_view().subrange(i as int, n as int)[0] == keys.deep_view()[i as int]);
        }
        if key_eq(&keys[i], key) {
            return Some(i);
        }
        proof {
            assert(keys.deep_view().subrange(i as int, n as int).drop_first()
                =~= keys.deep_view().subrange(i + 1, n as int));
        }
        i = i + 1;
    }
    proof {
        assert(keys.deep_view().subrange(n as int, n as int).len() == 0);
    }
    None
}

/// Whether one listed entry is an object naming a string id.
fn item_ok(item: &Json) -> (r: bool)
    ensures
        r == (item@ matches SpecJson::Obj(ps) && spec_obj_get(ps, "id"@) matches Some(
            SpecJson::Str(_),
        )),
{
    match item {
        Json::Obj(pairs) => {
            proof {
                assert(item@->Obj_0 =~= pairs.deep_view());
            }
            match find_key_index(pairs, "id") {
                Some(ii) => {
                    proof {
                        crate::api::catchall::lemma_obj_get_at(pairs.deep_view(), ii as int, "id"@);
                    }
                    match &pairs[ii].1 {
                        Json::Str(_) => true,
                        _ => {
                            proof {
                                assert(!(pairs.deep_view()[ii as int].1 is Str));
                            }
                            false
                        }
                    }
                }
                None => {
                    proof {
                        crate::api::catchall::lemma_obj_get_absent(pairs.deep_view(), "id"@);
                    }
                    false
                }
            }
        }
        _ => false,
    }
}

/// Whether one listed entry carries exactly this backend id.
fn item_has_id(item: &Json, id: &str) -> (r: bool)
    ensures
        r == (item@ matches SpecJson::Obj(ps) && spec_obj_get(ps, "id"@) == Some(
            SpecJson::Str(id@),
        )),
{
    match item {
        Json::Obj(pairs) => {
            proof {
                assert(item@->Obj_0 =~= pairs.deep_view());
            }
            match find_key_index(pairs, "id") {
                Some(ii) => {
                    proof {
                        crate::api::catchall::lemma_obj_get_at(pairs.deep_view(), ii as int, "id"@);
                    }
                    match &pairs[ii].1 {
                        Json::Str(a) => {
                            proof {
                                assert(pairs.deep_view()[ii as int].1 == SpecJson::Str(a@));
                            }
                            str_eq(a.as_str(), id)
                        }
                        _ => {
                            proof {
                                assert(!(pairs.deep_view()[ii as int].1 is Str));
                            }
                            false
                        }
                    }
                }
                None => {
                    proof {
                        crate::api::catchall::lemma_obj_get_absent(pairs.deep_view(), "id"@);
                    }
                    false
                }
            }
        }
        _ => false,
    }
}

/// Copies a list of values.
fn duplicate_items(items: &Vec<Json>) -> (r: Vec<Json>)
    ensures
        r.deep_view() == items.deep_view(),
{
    let n = items.len();
    let mut out: Vec<Json> = Vec::new();
    let mut i: usize = 0;
    while i < n
        invariant
            i <= n,
            n == items@.len(),
            out@.len() == i,
            forall|j: int| 0 <= j < i ==> #[trigger] out.deep_view()[j] == items.deep_view()[j],
        decreases n - i,
    {
        let ghost pre = out.deep_view();
        out.push(items[i].duplicate());
        i = i + 1;
        proof {
            assert(out.deep_view() =~= pre.push(items.deep_view()[i - 1]));
        }
    }
    proof {
        assert(out.deep_view() =~= items.deep_view());
    }
    out
}

/// Parses one upstream listing and checks its shape.
fn data_items(body: &String) -> (r: Option<Vec<Json>>)
    ensures
        match r {
            Some(items) => spec_data_items(body@) == Some(items.deep_view()),
            None => spec_data_items(body@) is None,
        },
{
    let v = match parse_json(body.as_str()) {
        Some(v) => v,
        None => {
            return None;
        }
    };
    let ghost vspec = v@;
    let items: Vec<Json> = match &v {
        Json::Obj(pairs) => {
            proof {
                assert(vspec->Obj_0 =~= pairs.deep_view());
            }
            match find_key_index(pairs, "data") {
                Some(di) => {
                    proof {
                        crate::api::catchall::lemma_obj_get_at(
                            pairs.deep_view(),
                            di as int,
                            "data"@,
                        );
                    }
                    match &pairs[di].1 {
                        Json::Arr(its) => {
                            proof {
                                assert(pairs.deep_view()[di as int].1->Arr_0 =~= its.deep_view());
                            }
                            duplicate_items(its)
                        }
                        _ => {
                            proof {
                                assert(!(pairs.deep_view()[di as int].1 is Arr));
                            }
                            return None;
                        }
                    }
                }
                None => {
                    proof {
                        crate::api::catchall::lemma_obj_get_absent(pairs.deep_view(), "data"@);
                    }
                    return None;
                }
            }
        }
        _ => {
            return None;
        }
    };
    // Every entry must be an object naming a string id.
    let n = items.len();
    let mut i: usize = 0;
    while i < n
        invariant
            i <= n,
            n == items@.len(),
            spec_data_items(body@) == (if spec_items_ok(items.deep_view()) {
                Some(items.deep_view())
            } else {
                None::<Seq<SpecJson>>
            }),
            forall|j: int|
                0 <= j < i ==> ((#[trigger] items.deep_view()[j]) matches SpecJson::Obj(ps)
                    && spec_obj_get(ps, "id"@) matches Some(SpecJson::Str(_))),
        decreases n - i,
    {
        if !item_ok(&items[i]) {
            proof {
                assert(!spec_items_ok(items.deep_view())) by {
                    if spec_items_ok(items.deep_view()) {
                        assert((items.deep_view()[i as int]) matches SpecJson::Obj(ps)
                            && spec_obj_get(ps, "id"@) matches Some(SpecJson::Str(_)));
                    }
                }
            }
            return None;
        }
        i = i + 1;
    }
    proof {
        assert(spec_items_ok(items.deep_view()));
    }
    Some(items)
}

/// Finds the first listed entry under a backend id.
fn find_item(items: &Vec<Json>, id: &str) -> (r: Option<usize>)
    ensures
        match r {
            Some(i) => i < items@.len() && spec_find_item(items.deep_view(), id@) == Some(
                items.deep_view()[i as int],
            ) && items.deep_view()[i as int] is Obj,
            None => spec_find_item(items.deep_view(), id@) is None,
        },
{
    let n = items.len();
    proof {
        assert(items.deep_view().subrange(0, n as int) =~= items.deep_view());
    }
    let mut i: usize = 0;
    while i < n
        invariant
            i <= n,
            n == items@.len(),
            spec_find_item(items.deep_view(), id@) == spec_find_item(
                items.deep_view().subrange(i as int, n as int),
                id@,
            ),
        decreases n - i,
    {
        proof {
            assert(items.deep_view().subrange(i as int, n as int)[0]
                == items.deep_view()[i as int]);
        }
        if item_has_id(&items[i], id) {
            return Some(i);
        }
        proof {
            assert(items.deep_view().subrange(i as int, n as int).drop_first()
                =~= items.deep_view().subrange(i + 1, n as int));
        }
        i = i + 1;
    }
    proof {
        assert(items.deep_view().subrange(n as int, n as int).len() == 0);
    }
    None
}

/// One listed entry renamed to the client-facing alias.
fn rename_item(item: &Json, alias: &str) -> (r: Json)
    requires
        item@ is Obj,
    ensures
        r@ == spec_rename_item(item@, alias@),
{
    match item {
        Json::Obj(pairs) => {
            proof {
                assert(item@->Obj_0 =~= pairs.deep_view());
            }
            let np = set_str_field(pairs, "id", alias);
            proof {
                crate::json::lemma_obj_view(np);
            }
            Json::Obj(np)
        }
        _ => {
            proof {
                assert(false);
            }
            unreached()
        }
    }
}

/// Merges the upstream listings into the one list served to clients: each
/// loaded definition appears once, under its alias, with everything else
/// its backend reported for it.
#[verifier::rlimit(50)]
pub fn aggregate_v1_models(
    configs: &Vec<ModelConfig>,
    keys: &Vec<(String, Option<String>)>,
    bodies: &Vec<String>,
) -> (r: Result<String, ApiError>)
    requires
        forall|i: int| 0 <= i < configs@.len() ==> (#[trigger] configs@[i])@.is_resolved(),
        keys@.len() == bodies@.len(),
    ensures
        ({
            let cs = configs.deep_view();
            let ks = keys.deep_view();
            let bs = bodies.deep_view();
            match r {
                Ok(s) => spec_collect_items(cs, ks, bs, cs.len() as int) matches Some(items) && s@
                    == spec_render(SpecJson::Obj(seq![("data"@, SpecJson::Arr(items))])),
                Err(ApiError::Internal(_)) => spec_collect_items(cs, ks, bs, cs.len() as int)
                    is None,
                Err(_) => false,
            }
        }),
{
    let ghost cs = configs.deep_view();
    let ghost ks = keys.deep_view();
    let ghost bs = bodies.deep_view();
    let n = configs.len();
    let mut items: Vec<Json> = Vec::new();
    proof {
        assert(spec_collect_items(cs, ks, bs, 0) == Some(items.deep_view()));
        assert(items.deep_view() =~= Seq::<SpecJson>::empty());
    }
    let mut i: usize = 0;
    while i < n
        invariant
            i <= n,
            n == configs@.len(),
            cs == configs.deep_view(),
            ks == keys.deep_view(),
            bs == bodies.deep_view(),
            cs.len() == n,
            keys@.len() == bodies@.len(),
            forall|j: int| 0 <= j < n ==> (#[trigger] configs@[j])@.is_resolved(),
            spec_collect_items(cs, ks, bs, i as int) == Some(items.deep_view()),
        decreases n - i,
    {
        let m = &configs[i];
        proof {
            assert(cs[i as int] == configs@[i as int]@);
        }
        let key = key_of(m);
        let kx = match find_key(keys, &key) {
            Some(kx) => kx,
            None => {
                proof {
                    assert(spec_collect_items(cs, ks, bs, i + 1) is None);
                    lemma_collect_none(cs, ks, bs, i + 1, n as int);
                }
                return Err(ApiError::Internal("provider listing was not fetched".to_owned()));
            }
        };
        let body_items = match data_items(&bodies[kx]) {
            Some(its) => its,
            None => {
                proof {
                    assert(bs[kx as int] == bodies@[kx as int]@);
                    assert(spec_collect_items(cs, ks, bs, i + 1) is None);
                    lemma_collect_none(cs, ks, bs, i + 1, n as int);
                }
                return Err(ApiError::Internal("failed parsing provider response".to_owned()));
            }
        };
        proof {
            assert(bs[kx as int] == bodies@[kx as int]@);
        }
        let found = match find_item(&body_items, m.id()) {
            Some(f) => f,
            None => {
                proof {
                    assert(spec_collect_items(cs, ks, bs, i + 1) is None);
                    lemma_collect_none(cs, ks, bs, i + 1, n as int);
                }
                return Err(
                    ApiError::Internal(
                        "no model with the configured id at its provider".to_owned(),
                    ),
                );
            }
        };
        let renamed = rename_item(&body_items[found], m.alias());
        let ghost pre = items.deep_view();
        items.push(renamed);
        proof {
            assert(items.deep_view() =~= pre.push(
                spec_rename_item(body_items.deep_view()[found as int], cs[i as int].spec_alias()),
            ));
            assert(spec_collect_items(cs, ks, bs, i + 1) == Some(items.deep_view()));
        }
        i = i + 1;
    }
    proof {
        crate::json::lemma_arr_view(items);
    }
    let arr = Json::Arr(items);
    let mut pairs: Vec<(String, Json)> = Vec::new();
    pairs.push(("data".to_owned(), arr));
    let v = Json::Obj(pairs);
    proof {
        assert(v@->Obj_0.len() == 1);
        assert(v@->Obj_0[0] == (pairs@[0].0@, pairs@[0].1@));
        assert(v@->Obj_0 =~= seq![
            ("data"@, SpecJson::Arr(spec_collect_items(cs, ks, bs, n as int)->Some_0)),
        ]);
        assert(v@ =~= SpecJson::Obj(seq![
            ("data"@, SpecJson::Arr(spec_collect_items(cs, ks, bs, n as int)->Some_0)),
        ]));
    }
    Ok(v.render())
}

} // verus!
