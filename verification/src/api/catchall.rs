//! The reverse proxy's routing rules: find the target model in the body or
//! the headers, rewrite a structured body to the backend's own model
//! identifier, and assemble the outbound request's URL and credential.

use vstd::prelude::*;
use crate::api::result::ApiError;
use crate::json::{
    Json, SpecJson, parse_json, render_into, spec_parse_json, spec_render,
};
use crate::models::{Models, spec_entry_for, spec_has_alias};
use crate::text::{contains_json, join_url, spec_indicates_json, spec_join_url, str_eq};

verus! {

/// The body to forward: rewritten and buffered, or streamed through
/// untouched.
#[derive(Debug)]
pub enum RouteBody {
    Rewritten(String),
    Passthrough,
}

/// Everything the transport layer needs to forward one request.
#[derive(Debug)]
pub struct RoutePlan {
    pub url: String,
    pub authorization: Option<String>,
    pub body: RouteBody,
}

/// The first value under `key` in an object's pairs.
pub open spec fn spec_obj_get(pairs: Seq<(Seq<char>, SpecJson)>, key: Seq<char>) -> Option<
    SpecJson,
>
    decreases pairs.len(),
{
    if pairs.len() == 0 {
        None
    } else if pairs[0].0 == key {
        Some(pairs[0].1)
    } else {
        spec_obj_get(pairs.drop_first(), key)
    }
}

/// The alias a structured body names: its `model` field, when that field is
/// a string.
pub open spec fn spec_body_alias(v: SpecJson) -> Option<Seq<char>> {
    match v {
        SpecJson::Obj(pairs) => match spec_obj_get(pairs, "model"@) {
            Some(SpecJson::Str(a)) => Some(a),
            _ => None,
        },
        _ => None,
    }
}

/// Whether the body is an object whose `model` field can be rewritten: the
/// field is absent or a string. An object carrying something else there is
/// passed along unchanged, like any non-object body.
pub open spec fn spec_rewritable(v: SpecJson) -> bool {
    match v {
        SpecJson::Obj(pairs) => match spec_obj_get(pairs, "model"@) {
            None => true,
            Some(SpecJson::Str(_)) => true,
            Some(_) => false,
        },
        _ => false,
    }
}

/// The candidate alias: the body's `model` field, else the `model` header.
pub open spec fn spec_candidate_alias(v: SpecJson, header: Option<Seq<char>>) -> Option<
    Seq<char>,
> {
    match spec_body_alias(v) {
        Some(a) => Some(a),
        None => header,
    }
}

/// The object's pairs with the first `key` value replaced by the string
/// `val`, or such a field added at the end when none was present.
pub open spec fn spec_set_str_field(
    pairs: Seq<(Seq<char>, SpecJson)>,
    key: Seq<char>,
    val: Seq<char>,
) -> Seq<(Seq<char>, SpecJson)>
    decreases pairs.len(),
{
    if pairs.len() == 0 {
        seq![(key, SpecJson::Str(val))]
    } else if pairs[0].0 == key {
        seq![(pairs[0].0, SpecJson::Str(val))] + pairs.drop_first()
    } else {
        seq![pairs[0]] + spec_set_str_field(pairs.drop_first(), key, val)
    }
}

/// The object's pairs with the first `model` value replaced by `id`.
pub open spec fn spec_set_model(pairs: Seq<(Seq<char>, SpecJson)>, id: Seq<char>) -> Seq<
    (Seq<char>, SpecJson),
> {
    spec_set_str_field(pairs, "model"@, id)
}

/// The body as forwarded: a rewritable object gets the backend's own model
/// identifier; everything else is kept as it was.
pub open spec fn spec_rewritten(v: SpecJson, id: Seq<char>) -> SpecJson {
    match v {
        SpecJson::Obj(pairs) => if spec_rewritable(v) {
            SpecJson::Obj(spec_set_model(pairs, id))
        } else {
            v
        },
        _ => v,
    }
}

/// The authorization header injected for a credential.
pub open spec fn spec_bearer_of(key: Option<Seq<char>>) -> Option<Seq<char>> {
    match key {
        Some(k) => Some("Bearer "@ + k),
        None => None,
    }
}

/// Whether the content type announces a structured body.
pub fn is_json_content_type(content_type: Option<&String>) -> (r: bool)
    ensures
        r == match content_type {
            Some(ct) => spec_indicates_json(ct@),
            None => false,
        },
{
    match content_type {
        Some(ct) => contains_json(ct.as_str()),
        None => false,
    }
}

/// Finding the first pair of an object under `key`.
pub(crate) fn find_key_index(pairs: &Vec<(String, Json)>, key: &str) -> (r: Option<usize>)
    ensures
        match r {
            Some(i) => i < pairs@.len() && pairs.deep_view()[i as int].0 == key@ && (forall|
                j: int,
            |
                0 <= j < i ==> #[trigger] pairs.deep_view()[j].0 != key@),
            None => forall|j: int|
                0 <= j < pairs@.len() ==> #[trigger] pairs.deep_view()[j].0 != key@,
        },
{
    let n = pairs.len();
    let mut i: usize = 0;
    while i < n
        invariant
            i <= n,
            n == pairs@.len(),
            forall|j: int| 0 <= j < i ==> #[trigger] pairs.deep_view()[j].0 != key@,
        decreases n - i,
    {
        if str_eq(pairs[i].0.as_str(), key) {
            return Some(i);
        }
        i = i + 1;
    }
    None
}

/// The first `model` pair decides the object's candidate alias.
pub(crate) proof fn lemma_obj_get_at(pairs: Seq<(Seq<char>, SpecJson)>, i: int, key: Seq<char>)
    requires
        0 <= i < pairs.len(),
        pairs[i].0 == key,
        forall|j: int| 0 <= j < i ==> #[trigger] pairs[j].0 != key,
    ensures
        spec_obj_get(pairs, key) == Some(pairs[i].1),
    decreases i,
{
    if i > 0 {
        assert(pairs.drop_first()[i - 1] == pairs[i]);
        assert(forall|j: int| 0 <= j < i - 1 ==> #[trigger] pairs.drop_first()[j].0 != key);
        lemma_obj_get_at(pairs.drop_first(), i - 1, key);
    }
}

/// An object without the key yields nothing.
pub(crate) proof fn lemma_obj_get_absent(pairs: Seq<(Seq<char>, SpecJson)>, key: Seq<char>)
    requires
        forall|j: int| 0 <= j < pairs.len() ==> #[trigger] pairs[j].0 != key,
    ensures
        spec_obj_get(pairs, key) is None,
    decreases pairs.len(),
{
    if pairs.len() > 0 {
        assert(forall|j: int| 0 <= j < pairs.drop_first().len() ==> #[trigger] pairs.drop_first()[j].0 != key);
        lemma_obj_get_absent(pairs.drop_first(), key);
    }
}

/// Replacing the first value under a key is an in-place update.
pub(crate) proof fn lemma_set_field_found(
    pairs: Seq<(Seq<char>, SpecJson)>,
    i: int,
    key: Seq<char>,
    val: Seq<char>,
)
    requires
        0 <= i < pairs.len(),
        pairs[i].0 == key,
        forall|j: int| 0 <= j < i ==> #[trigger] pairs[j].0 != key,
    ensures
        spec_set_str_field(pairs, key, val) == pairs.update(i, (pairs[i].0, SpecJson::Str(val))),
    decreases i,
{
    if i == 0 {
        assert(spec_set_str_field(pairs, key, val) =~= pairs.update(
            0,
            (pairs[0].0, SpecJson::Str(val)),
        ));
    } else {
        assert(pairs.drop_first()[i - 1] == pairs[i]);
        assert(forall|j: int| 0 <= j < i - 1 ==> #[trigger] pairs.drop_first()[j].0 != key);
        lemma_set_field_found(pairs.drop_first(), i - 1, key, val);
        assert(spec_set_str_field(pairs, key, val) =~= pairs.update(
            i,
            (pairs[i].0, SpecJson::Str(val)),
        ));
    }
}

/// Adding a field to an object that lacked its key appends it.
pub(crate) proof fn lemma_set_field_absent(
    pairs: Seq<(Seq<char>, SpecJson)>,
    key: Seq<char>,
    val: Seq<char>,
)
    requires
        forall|j: int| 0 <= j < pairs.len() ==> #[trigger] pairs[j].0 != key,
    ensures
        spec_set_str_field(pairs, key, val) == pairs + seq![(key, SpecJson::Str(val))],
    decreases pairs.len(),
{
    if pairs.len() == 0 {
        assert(spec_set_str_field(pairs, key, val) =~= pairs + seq![(key, SpecJson::Str(val))]);
    } else {
        assert(forall|j: int| 0 <= j < pairs.drop_first().len() ==> #[trigger] pairs.drop_first()[j].0 != key);
        lemma_set_field_absent(pairs.drop_first(), key, val);
        assert(spec_set_str_field(pairs, key, val) =~= pairs + seq![(key, SpecJson::Str(val))]);
    }
}

/// Rebuilds an object's pairs with the field under `key` set to `val`.
pub(crate) fn set_str_field(pairs: &Vec<(String, Json)>, key: &str, val: &str) -> (r: Vec<
    (String, Json),
>)
    ensures
        r.deep_view() == spec_set_str_field(pairs.deep_view(), key@, val@),
{
    let idx = find_key_index(pairs, key);
    let n = pairs.len();
    let mut out: Vec<(String, Json)> = Vec::new();
    let mut i: usize = 0;
    while i < n
        invariant
            i <= n,
            n == pairs@.len(),
            out@.len() == i,
            match idx {
                Some(f) => f < n && pairs.deep_view()[f as int].0 == key@,
                None => true,
            },
            forall|j: int|
                0 <= j < i ==> #[trigger] out.deep_view()[j] == (match idx {
                    Some(f) => if j == f {
                        (pairs.deep_view()[j].0, SpecJson::Str(val@))
                    } else {
                        pairs.deep_view()[j]
                    },
                    None => pairs.deep_view()[j],
                }),
        decreases n - i,
    {
        let replace_here = match idx {
            Some(f) => f == i,
            None => false,
        };
        let ghost pre = out.deep_view();
        if replace_here {
            out.push((pairs[i].0.clone(), Json::Str(val.to_owned())));
        } else {
            out.push((pairs[i].0.clone(), pairs[i].1.duplicate()));
        }
        i = i + 1;
        proof {
            assert(out.deep_view() =~= pre.push(out.deep_view()[i - 1]));
            assert(out.deep_view()[i - 1].0 == pairs.deep_view()[i - 1].0);
        }
    }
    match idx {
        Some(f) => {
            proof {
                lemma_set_field_found(pairs.deep_view(), f as int, key@, val@);
                assert(out.deep_view() =~= pairs.deep_view().update(
                    f as int,
                    (pairs.deep_view()[f as int].0, SpecJson::Str(val@)),
                ));
            }
            out
        }
        None => {
            let ghost outv = out.deep_view();
            let mut out2 = out;
            out2.push((key.to_owned(), Json::Str(val.to_owned())));
            proof {
                lemma_set_field_absent(pairs.deep_view(), key@, val@);
                assert(out2.deep_view() =~= outv.push((key@, SpecJson::Str(val@))));
                assert(out2.deep_view() =~= pairs.deep_view() + seq![
                    (key@, SpecJson::Str(val@)),
                ]);
            }
            out2
        }
    }
}

/// Routes a structured request: the body is parsed permissively, the target
/// alias is taken from its `model` field or the `model` header, and the
/// forwarded body carries the backend's own model identifier.
pub fn route_by_json_body(
    models: &Models,
    model_header: Option<&String>,
    body: &str,
    path_and_query: &str,
) -> (r: Result<RoutePlan, ApiError>)
    requires
        models.wf(),
    ensures
        ({
            let parsed = spec_parse_json(body@);
            let header = match model_header {
                Some(h) => Some(h@),
                None => None::<Seq<char>>,
            };
            match r {
                Err(ApiError::BadRequest(_)) => parsed is None || spec_candidate_alias(
                    parsed->Some_0,
                    header,
                ) is None,
                Err(ApiError::NotFound(alias)) => parsed matches Some(v) && spec_candidate_alias(
                    v,
                    header,
                ) matches Some(a) && alias@ == a && !spec_has_alias(models.entries(), a),
                Err(ApiError::Internal(_)) => false,
                Ok(plan) => parsed matches Some(v) && spec_candidate_alias(v, header)
                    matches Some(a) && spec_has_alias(models.entries(), a) && {
                    let cfg = spec_entry_for(models.entries(), a).config;
                    &&& plan.url@ == spec_join_url(cfg.spec_url(), path_and_query@)
                    &&& plan.authorization.deep_view() == spec_bearer_of(cfg.spec_api_key())
                    &&& plan.body matches RouteBody::Rewritten(b) && b@ == spec_render(
                        spec_rewritten(v, cfg.spec_id()),
                    )
                },
            }
        }),
{
    let v = match parse_json(body) {
        Some(v) => v,
        None => {
            return Err(
                ApiError::BadRequest("Unable to deserialize json body".to_owned()),
            );
        }
    };
    let body_alias = body_model_alias(&v);
    let alias: String = match body_alias {
        Some(a) => a,
        None => match model_header {
            Some(h) => h.clone(),
            None => {
                return Err(
                    ApiError::BadRequest("No model specified in body nor headers".to_owned()),
                );
            }
        },
    };
    let config = match models.get_loaded_config(alias.as_str()) {
        Some(c) => c,
        None => {
            return Err(ApiError::NotFound(alias));
        }
    };
    let rewritten = rewrite_body(v, config.id());
    let mut body_out = String::new();
    render_into(&rewritten, &mut body_out);
    proof {
        assert(body_out@ =~= spec_render(rewritten@));
    }
    let url = join_url(config.url().as_str(), path_and_query);
    let authorization: Option<String> = match config.api_key() {
        Some(k) => {
            let mut s = String::new();
            s.append("Bearer ");
            s.append(k);
            Some(s)
        }
        None => None,
    };
    proof {
        assert(authorization.deep_view() == spec_bearer_of(config@.spec_api_key()));
    }
    Ok(RoutePlan { url, authorization, body: RouteBody::Rewritten(body_out) })
}

/// The body's own candidate alias, when it carries one.
fn body_model_alias(v: &Json) -> (r: Option<String>)
    ensures
        match r {
            Some(a) => spec_body_alias(v@) == Some(a@),
            None => spec_body_alias(v@) is None,
        },
{
    match v {
        Json::Obj(pairs) => {
            proof {
                assert(v@->Obj_0 =~= pairs.deep_view());
            }
            match find_key_index(pairs, "model") {
                Some(i) => {
                    proof {
                        lemma_obj_get_at(pairs.deep_view(), i as int, "model"@);
                    }
                    match &pairs[i].1 {
                        Json::Str(a) => {
                            proof {
                                assert(pairs.deep_view()[i as int].1 == SpecJson::Str(a@));
                            }
                            Some(a.clone())
                        }
                        _ => {
                            proof {
                                assert(!(pairs.deep_view()[i as int].1 is Str));
                            }
                            None
                        }
                    }
                }
                None => {
                    proof {
                        lemma_obj_get_absent(pairs.deep_view(), "model"@);
                    }
                    None
                }
            }
        }
        _ => None,
    }
}

/// The forwarded body: the backend's own identifier in place of the alias
/// wherever the object shape allows it.
fn rewrite_body(v: Json, id: &str) -> (r: Json)
    ensures
        r@ == spec_rewritten(v@, id@),
{
    let ghost vspec = v@;
    match v {
        Json::Obj(pairs) => {
            proof {
                assert(vspec->Obj_0 =~= pairs.deep_view());
            }
            let rewritable = match find_key_index(&pairs, "model") {
                Some(i) => {
                    proof {
                        lemma_obj_get_at(pairs.deep_view(), i as int, "model"@);
                    }
                    match &pairs[i].1 {
                        Json::Str(_) => true,
                        _ => {
                            proof {
                                assert(!(pairs.deep_view()[i as int].1 is Str));
                            }
                            false
                        }
                    }
                }
                None => {
                    proof {
                        lemma_obj_get_absent(pairs.deep_view(), "model"@);
                    }
                    true
                }
            };
            if rewritable {
                let np = set_str_field(&pairs, "model", id);
                proof {
                    crate::json::lemma_obj_view(np);
                }
                Json::Obj(np)
            } else {
                let r = Json::Obj(pairs);
                proof {
                    assert(r@ =~= vspec);
                }
                r
            }
        }
        other => {
            proof {
                assert(!(vspec is Obj));
            }
            other
        }
    }
}

/// Routes an unstructured request: only the `model` header can name the
/// target, and the body streams through untouched.
pub fn route_by_header(
    models: &Models,
    model_header: Option<&String>,
    path_and_query: &str,
) -> (r: Result<RoutePlan, ApiError>)
    requires
        models.wf(),
    ensures
        ({
            let header = match model_header {
                Some(h) => Some(h@),
                None => None::<Seq<char>>,
            };
            match r {
                Err(ApiError::BadRequest(_)) => header is None,
                Err(ApiError::NotFound(alias)) => header matches Some(a) && alias@ == a
                    && !spec_has_alias(models.entries(), a),
                Err(ApiError::Internal(_)) => false,
                Ok(plan) => header matches Some(a) && spec_has_alias(models.entries(), a) && {
                    let cfg = spec_entry_for(models.entries(), a).config;
                    &&& plan.url@ == spec_join_url(cfg.spec_url(), path_and_query@)
                    &&& plan.authorization.deep_view() == spec_bearer_of(cfg.spec_api_key())
                    &&& plan.body is Passthrough
                },
            }
        }),
{
    let alias: String = match model_header {
        Some(h) => h.clone(),
        None => {
            return Err(ApiError::BadRequest("No model specified in headers".to_owned()));
        }
    };
    let config = match models.get_loaded_config(alias.as_str()) {
        Some(c) => c,
        None => {
            return Err(ApiError::NotFound(alias));
        }
    };
    let url = join_url(config.url().as_str(), path_and_query);
    let authorization: Option<String> = match config.api_key() {
        Some(k) => {
            let mut s = String::new();
            s.append("Bearer ");
            s.append(k);
            Some(s)
        }
        None => None,
    };
    Ok(RoutePlan { url, authorization, body: RouteBody::Passthrough })
}

} // verus!
