use vstd::prelude::*;

use crate::value::{dict_update, lemma_vals_model_push, val_model, vals_model, Val, ValModel};

verus! {

/// A parsed JSON document. Numbers keep both readings the parser offers: the
/// exact 64-bit integer when the number is one, and the closest double's bit
/// pattern; the translation picks between them.
pub enum Json {
    Null,
    Bool(bool),
    Num { whole: Option<i64>, approx: Option<u64> },
    Str(String),
    Arr(Vec<Json>),
    Obj(Vec<(String, Json)>),
}

/// The mathematical model of a parsed JSON document.
#[verifier::ext_equal]
pub enum JsonModel {
    Null,
    Bool(bool),
    Num { whole: Option<i64>, approx: Option<u64> },
    Str(Seq<char>),
    Arr(Seq<JsonModel>),
    Obj(Seq<(Seq<char>, JsonModel)>),
}

pub open spec fn jarr_model(s: Seq<Json>) -> Seq<JsonModel>
    decreases s,
{
    if s.len() == 0 {
        Seq::empty()
    } else {
        seq![json_model(s[0])] + jarr_model(s.drop_first())
    }
}

pub open spec fn jobj_model(s: Seq<(String, Json)>) -> Seq<(Seq<char>, JsonModel)>
    decreases s,
{
    if s.len() == 0 {
        Seq::empty()
    } else {
        seq![(s[0].0@, json_model(s[0].1))] + jobj_model(s.drop_first())
    }
}

pub open spec fn json_model(j: Json) -> JsonModel
    decreases j,
{
    match j {
        Json::Null => JsonModel::Null,
        Json::Bool(b) => JsonModel::Bool(b),
        Json::Num { whole, approx } => JsonModel::Num { whole, approx },
        Json::Str(s) => JsonModel::Str(s@),
        Json::Arr(items) => JsonModel::Arr(jarr_model(items@)),
        Json::Obj(pairs) => JsonModel::Obj(jobj_model(pairs@)),
    }
}

impl DeepView for Json {
    type V = JsonModel;

    open spec fn deep_view(&self) -> JsonModel {
        json_model(*self)
    }
}

pub broadcast proof fn lemma_jarr_model_index(s: Seq<Json>)
    ensures
        #[trigger] jarr_model(s).len() == s.len(),
        forall|i: int| 0 <= i < s.len() ==> jarr_model(s)[i] == json_model(#[trigger] s[i]),
    decreases s,
{
    if s.len() > 0 {
        lemma_jarr_model_index(s.drop_first());
        assert forall|i: int| 0 <= i < s.len() implies jarr_model(s)[i] == json_model(
            #[trigger] s[i],
        ) by {
            if i > 0 {
                assert(s.drop_first()[i - 1] == s[i]);
            }
        }
    }
}

pub broadcast proof fn lemma_jobj_model_index(s: Seq<(String, Json)>)
    ensures
        #[trigger] jobj_model(s).len() == s.len(),
        forall|i: int|
            0 <= i < s.len() ==> jobj_model(s)[i] == ((#[trigger] s[i]).0@, json_model(s[i].1)),
    decreases s,
{
    if s.len() > 0 {
        lemma_jobj_model_index(s.drop_first());
        assert forall|i: int| 0 <= i < s.len() implies jobj_model(s)[i] == (
        (#[trigger] s[i]).0@,
        json_model(s[i].1),
        ) by {
            if i > 0 {
                assert(s.drop_first()[i - 1] == s[i]);
            }
        }
    }
}

/// The bit pattern of the quiet NaN that stands for a number that neither
/// reading of the parser could give.
pub const NAN_BITS: u64 = 0x7ff8000000000000;

/// The translation of a JSON number: the 64-bit integer when the number fits
/// one exactly, else the closest double, else NaN.
pub open spec fn json_num_value(whole: Option<i64>, approx: Option<u64>) -> ValModel {
    match whole {
        Option::Some(i) => ValModel::Int(i),
        Option::None => match approx {
            Option::Some(b) => ValModel::Float(b),
            Option::None => ValModel::Float(NAN_BITS),
        },
    }
}

pub open spec fn json_list(items: Seq<JsonModel>, acc: Seq<ValModel>) -> Seq<ValModel>
    decreases items,
{
    if items.len() == 0 {
        acc
    } else {
        json_list(items.drop_first(), acc.push(json_value(items[0])))
    }
}

pub open spec fn json_dict(
    pairs: Seq<(Seq<char>, JsonModel)>,
    acc: Seq<(Seq<char>, ValModel)>,
) -> Seq<(Seq<char>, ValModel)>
    decreases pairs,
{
    if pairs.len() == 0 {
        acc
    } else {
        json_dict(pairs.drop_first(), dict_update(acc, pairs[0].0, json_value(pairs[0].1)))
    }
}

/// What the translator yields for a parsed JSON document: null becomes none,
/// numbers follow `json_num_value`, arrays translate element by element, and
/// objects become dictionaries in key order.
pub open spec fn json_value(j: JsonModel) -> ValModel
    decreases j,
{
    match j {
        JsonModel::Null => ValModel::Nil,
        JsonModel::Bool(b) => ValModel::Bool(b),
        JsonModel::Num { whole, approx } => json_num_value(whole, approx),
        JsonModel::Str(s) => ValModel::Str(s),
        JsonModel::Arr(items) => ValModel::Array(json_list(items, Seq::empty())),
        JsonModel::Obj(pairs) => ValModel::Dict(json_dict(pairs, Seq::empty())),
    }
}

/// Translates a parsed JSON document into the typesetter's value algebra, as
/// `json_value` says. This translation is total: parsed strings are already
/// valid text.
#[verifier::loop_isolation(false)]
pub fn json_to_val(j: &Json) -> (r: Val)
    ensures
        val_model(r) == json_value(j.deep_view()),
    decreases *j,
{
    match j {
        Json::Null => Val::Nil,
        Json::Bool(b) => Val::Bool(*b),
        Json::Num { whole, approx } => match whole {
            Some(i) => Val::Int(*i),
            None => match approx {
                Some(b) => Val::Float(*b),
                None => Val::Float(NAN_BITS),
            },
        },
        Json::Str(s) => Val::Str(s.clone()),
        Json::Arr(items) => {
            proof {
                lemma_jarr_model_index(items@);
            }
            let ghost model = jarr_model(items@);
            let n = items.len();
            let mut out: Vec<Val> = Vec::new();
            let mut i: usize = 0;
            proof {
                assert(model.skip(0) =~= model);
                assert(out@ =~= Seq::<Val>::empty());
            }
            while i < n
                invariant
                    0 <= i <= n,
                    json_list(model.skip(i as int), vals_model(out@)) == json_list(
                        model,
                        Seq::empty(),
                    ),
                decreases n - i,
            {
                proof {
                    assert(model.skip(i as int)[0] == model[i as int]);
                    assert(model.skip(i as int).drop_first() =~= model.skip(i as int + 1));
                }
                let v = json_to_val(&items[i]);
                proof {
                    lemma_vals_model_push(out@, v);
                }
                out.push(v);
                i = i + 1;
            }
            proof {
                assert(model.skip(n as int) =~= Seq::empty());
            }
            Val::Array(out)
        },
        Json::Obj(pairs) => {
            proof {
                lemma_jobj_model_index(pairs@);
            }
            let ghost model = jobj_model(pairs@);
            let n = pairs.len();
            let mut out: Vec<(String, Val)> = Vec::new();
            let mut i: usize = 0;
            proof {
                assert(model.skip(0) =~= model);
                assert(out@ =~= Seq::<(String, Val)>::empty());
            }
            while i < n
                invariant
                    0 <= i <= n,
                    json_dict(model.skip(i as int), crate::value::pairs_model(out@)) == json_dict(
                        model,
                        Seq::empty(),
                    ),
                decreases n - i,
            {
                proof {
                    assert(model.skip(i as int)[0] == model[i as int]);
                    assert(model.skip(i as int).drop_first() =~= model.skip(i as int + 1));
                }
                let v = json_to_val(&pairs[i].1);
                let key = pairs[i].0.clone();
                crate::value::dict_insert(&mut out, key, v);
                i = i + 1;
            }
            proof {
                assert(model.skip(n as int) =~= Seq::empty());
            }
            Val::Dict(out)
        },
    }
}

#[verifier::external_type_specification]
#[verifier::external_body]
pub struct ExSerdeValue(serde_json::Value);

/// The parse of a JSON document: the tree `serde_json` yields for this text,
/// or nothing when the text is not valid JSON. Parsing depends on the text
/// alone.
pub uninterp spec fn parsed_json(s: Seq<char>) -> Option<JsonModel>;

/// Relies on the variants of `serde_json::Value` and on `Number::as_i64` /
/// `Number::as_f64`: carries the parsed tree over variant by variant, keeping
/// for each number the exact integer reading and the closest-double reading
/// that the parser offers.
#[verifier::external_body]
fn json_tree(v: serde_json::Value) -> Json {
    match v {
        serde_json::Value::Null => Json::Null,
        serde_json::Value::Bool(b) => Json::Bool(b),
        serde_json::Value::Number(n) => Json::Num {
            whole: n.as_i64(),
            approx: n.as_f64().map(|x| x.to_bits()),
        },
        serde_json::Value::String(s) => Json::Str(s),
        serde_json::Value::Array(a) => Json::Arr(a.into_iter().map(json_tree).collect()),
        serde_json::Value::Object(o) => Json::Obj(
            o.into_iter().map(|(k, x)| (k, json_tree(x))).collect(),
        ),
    }
}

/// Relies on `serde_json::from_str`: parses the text as one JSON document and
/// hands the tree over, or nothing when parsing fails.
#[verifier::external_body]
pub fn parse_json(s: &str) -> (r: Option<Json>)
    ensures
        r.deep_view() == parsed_json(s@),
{
    match serde_json::from_str::<serde_json::Value>(s) {
        Ok(v) => Some(json_tree(v)),
        Err(_) => None,
    }
}

} // verus!
