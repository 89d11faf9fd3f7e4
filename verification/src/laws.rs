use vstd::prelude::*;
use vstd::utf8::*;

use crate::host::{
    is_list, key_string, t_list, t_spec, t_table, HostKeyModel, HostModel,
};
use crate::json::{json_dict, json_list, json_value, JsonModel, NAN_BITS};
use crate::scope::apply_vars_spec;
use crate::value::ValModel;

verus! {

/// Round-trip identity on scalars: a host boolean, 64-bit integer, double or
/// UTF-8 string translates to exactly the corresponding value of the
/// typesetter's algebra, unchanged.
pub proof fn lemma_scalar_round_trip(h: HostModel)
    ensures
        h matches HostModel::Long(i) ==> t_spec(h) == Some(ValModel::Int(i)),
        h matches HostModel::Double(b) ==> t_spec(h) == Some(ValModel::Float(b)),
        h matches HostModel::Bool(b) ==> t_spec(h) == Some(ValModel::Bool(b)),
        h is True ==> t_spec(h) == Some(ValModel::Bool(true)),
        h is False ==> t_spec(h) == Some(ValModel::Bool(false)),
        h matches HostModel::Str(bytes) ==> (valid_utf8(bytes) ==> t_spec(h) == Some(
            ValModel::Str(decode_utf8(bytes)),
        )),
{
}

/// A name reads back from the scope as the value it was last bound to:
/// whatever the scope held before, after the variable bindings are applied
/// the name's final binding wins.
pub proof fn lemma_binding_read_back(
    m: Map<Seq<char>, ValModel>,
    vars: Seq<(Seq<char>, ValModel)>,
    i: int,
)
    requires
        0 <= i < vars.len(),
        forall|j: int| i < j < vars.len() ==> (#[trigger] vars[j]).0 != vars[i].0,
    ensures
        apply_vars_spec(m, vars).contains_key(vars[i].0),
        apply_vars_spec(m, vars)[vars[i].0] == vars[i].1,
    decreases vars,
{
    if i == 0 {
        lemma_vars_keep_other(m.insert(vars[0].0, vars[0].1), vars.drop_first(), vars[0].0);
    } else {
        lemma_binding_read_back(m.insert(vars[0].0, vars[0].1), vars.drop_first(), i - 1);
        assert forall|j: int| i - 1 < j < vars.drop_first().len() implies (
        #[trigger] vars.drop_first()[j]).0 != vars.drop_first()[i - 1].0 by {
            assert(vars.drop_first()[j] == vars[j + 1]);
        }
        assert(vars.drop_first()[i - 1] == vars[i]);
    }
}

/// A name bound by none of the variable bindings keeps its earlier value.
pub proof fn lemma_vars_keep_other(
    m: Map<Seq<char>, ValModel>,
    vars: Seq<(Seq<char>, ValModel)>,
    name: Seq<char>,
)
    requires
        forall|j: int| 0 <= j < vars.len() ==> (#[trigger] vars[j]).0 != name,
    ensures
        apply_vars_spec(m, vars).contains_key(name) == m.contains_key(name),
        m.contains_key(name) ==> apply_vars_spec(m, vars)[name] == m[name],
    decreases vars,
{
    if vars.len() > 0 {
        lemma_vars_keep_other(m.insert(vars[0].0, vars[0].1), vars.drop_first(), name);
        assert(forall|j: int|
            0 <= j < vars.drop_first().len() ==> (#[trigger] vars.drop_first()[j]).0 != name);
    }
}

proof fn lemma_t_list_len(vals: Seq<(HostKeyModel, HostModel)>, acc: Seq<ValModel>)
    ensures
        t_list(vals, acc) matches Some(items) ==> items.len() == acc.len() + vals.len(),
    decreases vals,
{
    if vals.len() > 0 {
        match t_spec(vals[0].1) {
            Option::Some(v) => {
                lemma_t_list_len(vals.drop_first(), acc.push(v));
            },
            Option::None => {
            },
        }
    }
}

/// Array-or-dictionary dichotomy: when translation succeeds, a host
/// collection keyed `0 .. n` in order becomes an array of length `n`, and a
/// collection keyed any other way becomes a dictionary.
pub proof fn lemma_list_dict_dichotomy(entries: Seq<(HostKeyModel, HostModel)>)
    ensures
        (is_list(entries) && t_spec(HostModel::Table(entries)) is Some) ==> (t_spec(
            HostModel::Table(entries),
        ) matches Some(v) && v matches ValModel::Array(items) && items.len() == entries.len()),
        (!is_list(entries) && t_spec(HostModel::Table(entries)) is Some) ==> (t_spec(
            HostModel::Table(entries),
        ) matches Some(v) && v is Dict),
{
    lemma_t_list_len(entries, Seq::empty());
}

proof fn lemma_t_list_index(vals: Seq<(HostKeyModel, HostModel)>, acc: Seq<ValModel>)
    ensures
        t_list(vals, acc) matches Some(items) ==> (items.len() == acc.len() + vals.len() && (
        forall|i: int| 0 <= i < acc.len() ==> #[trigger] items[i] == acc[i]) && (forall|i: int|
            0 <= i < vals.len() ==> t_spec((#[trigger] vals[i]).1) == Some(
                items[acc.len() + i],
            ))),
    decreases vals,
{
    if vals.len() > 0 {
        match t_spec(vals[0].1) {
            Option::Some(v) => {
                lemma_t_list_index(vals.drop_first(), acc.push(v));
                if t_list(vals, acc) is Some {
                    let items = t_list(vals, acc)->Some_0;
                    assert forall|i: int| 0 <= i < vals.len() implies t_spec(
                        (#[trigger] vals[i]).1,
                    ) == Some(items[acc.len() + i]) by {
                        if i > 0 {
                            assert(vals.drop_first()[i - 1] == vals[i]);
                        } else {
                            assert(items[acc.len() as int] == acc.push(v)[acc.len() as int]);
                        }
                    }
                }
            },
            Option::None => {
            },
        }
    }
}

/// Array translation preserves the host collection's order: element `i` of
/// the translated array is the translation of the value at key `i`.
pub proof fn lemma_array_order(entries: Seq<(HostKeyModel, HostModel)>)
    ensures
        t_spec(HostModel::Table(entries)) matches Some(v) ==> (is_list(entries) ==> (v
            matches ValModel::Array(items) && items.len() == entries.len() && forall|i: int|
            0 <= i < entries.len() ==> t_spec((#[trigger] entries[i]).1) == Some(items[i]))),
{
    lemma_t_list_index(entries, Seq::empty());
}

/// The canonical host representation of a parsed JSON document: objects and
/// arrays become host collections (arrays keyed `0 .. n` in order), numbers
/// become host integers when they fit and host doubles otherwise, strings
/// carry their UTF-8 bytes.
pub open spec fn host_of_json(j: JsonModel) -> HostModel
    decreases j,
{
    match j {
        JsonModel::Null => HostModel::Null,
        JsonModel::Bool(b) => HostModel::Bool(b),
        JsonModel::Num { whole, approx } => match whole {
            Option::Some(i) => HostModel::Long(i),
            Option::None => match approx {
                Option::Some(b) => HostModel::Double(b),
                Option::None => HostModel::Double(NAN_BITS),
            },
        },
        JsonModel::Str(s) => HostModel::Str(encode_utf8(s)),
        JsonModel::Arr(items) => HostModel::Table(hoj_list(items, 0)),
        JsonModel::Obj(pairs) => HostModel::Table(hoj_obj(pairs)),
    }
}

pub open spec fn hoj_list(items: Seq<JsonModel>, k: int) -> Seq<(HostKeyModel, HostModel)>
    decreases items,
{
    if items.len() == 0 {
        Seq::empty()
    } else {
        seq![(HostKeyModel::Int(k as i64), host_of_json(items[0]))] + hoj_list(
            items.drop_first(),
            k + 1,
        )
    }
}

pub open spec fn hoj_obj(pairs: Seq<(Seq<char>, JsonModel)>) -> Seq<(HostKeyModel, HostModel)>
    decreases pairs,
{
    if pairs.len() == 0 {
        Seq::empty()
    } else {
        seq![(HostKeyModel::Str(pairs[0].0), host_of_json(pairs[0].1))] + hoj_obj(
            pairs.drop_first(),
        )
    }
}

/// A canonical document: no empty objects anywhere (the one JSON shape whose
/// host representation is indistinguishable from an empty list), and no
/// array longer than a host integer can index.
pub open spec fn json_canonical(j: JsonModel) -> bool
    decreases j,
{
    match j {
        JsonModel::Arr(items) => items.len() <= 0x7fff_ffff_ffff_ffff && all_canonical(items),
        JsonModel::Obj(pairs) => pairs.len() > 0 && all_canonical_pairs(pairs),
        _ => true,
    }
}

pub open spec fn all_canonical(items: Seq<JsonModel>) -> bool
    decreases items,
{
    items.len() == 0 || (json_canonical(items[0]) && all_canonical(items.drop_first()))
}

pub open spec fn all_canonical_pairs(pairs: Seq<(Seq<char>, JsonModel)>) -> bool
    decreases pairs,
{
    pairs.len() == 0 || (json_canonical(pairs[0].1) && all_canonical_pairs(pairs.drop_first()))
}

proof fn lemma_hoj_list_keys(items: Seq<JsonModel>, k: int)
    ensures
        hoj_list(items, k).len() == items.len(),
        forall|i: int|
            0 <= i < items.len() ==> #[trigger] hoj_list(items, k)[i] == (
            HostKeyModel::Int((k + i) as i64),
            host_of_json(items[i]),
            ),
    decreases items,
{
    if items.len() > 0 {
        lemma_hoj_list_keys(items.drop_first(), k + 1);
        assert forall|i: int| 0 <= i < items.len() implies #[trigger] hoj_list(items, k)[i] == (
        HostKeyModel::Int((k + i) as i64),
        host_of_json(items[i]),
        ) by {
            if i > 0 {
                assert(hoj_list(items, k)[i] == hoj_list(items.drop_first(), k + 1)[i - 1]);
                assert(items.drop_first()[i - 1] == items[i]);
            }
        }
    }
}

proof fn lemma_list_agree(items: Seq<JsonModel>, k: int, acc: Seq<ValModel>)
    requires
        all_canonical(items),
        0 <= k,
        k + items.len() <= 0x7fff_ffff_ffff_ffff,
    ensures
        t_list(hoj_list(items, k), acc) == Some(json_list(items, acc)),
    decreases items,
{
    if items.len() > 0 {
        lemma_json_host_agree(items[0]);
        assert(hoj_list(items, k).drop_first() =~= hoj_list(items.drop_first(), k + 1));
        lemma_list_agree(items.drop_first(), k + 1, acc.push(json_value(items[0])));
    }
}

proof fn lemma_obj_agree(
    pairs: Seq<(Seq<char>, JsonModel)>,
    acc: Seq<(Seq<char>, ValModel)>,
)
    requires
        all_canonical_pairs(pairs),
    ensures
        t_table(hoj_obj(pairs), acc) == Some(json_dict(pairs, acc)),
    decreases pairs,
{
    if pairs.len() > 0 {
        lemma_json_host_agree(pairs[0].1);
        assert(hoj_obj(pairs).drop_first() =~= hoj_obj(pairs.drop_first()));
        assert(key_string(HostKeyModel::Str(pairs[0].0)) == pairs[0].0);
        lemma_obj_agree(
            pairs.drop_first(),
            crate::value::dict_update(acc, pairs[0].0, json_value(pairs[0].1)),
        );
    }
}

/// JSON idempotence: translating a parsed JSON document directly agrees with
/// translating its canonical host representation, for every canonical
/// document.
pub proof fn lemma_json_host_agree(j: JsonModel)
    requires
        json_canonical(j),
    ensures
        t_spec(host_of_json(j)) == Some(json_value(j)),
    decreases j,
{
    match j {
        JsonModel::Str(s) => {
            broadcast use encode_utf8_valid_utf8, encode_utf8_decode_utf8;

            assert(valid_utf8(encode_utf8(s)));
            assert(decode_utf8(encode_utf8(s)) == s);
        },
        JsonModel::Arr(items) => {
            lemma_hoj_list_keys(items, 0);
            assert(is_list(hoj_list(items, 0))) by {
                assert forall|i: int| 0 <= i < hoj_list(items, 0).len() implies ((
                #[trigger] hoj_list(items, 0)[i]).0 matches HostKeyModel::Int(kk) && kk as int
                    == i) by {
                    assert(hoj_list(items, 0)[i].0 == HostKeyModel::Int(i as i64));
                }
            }
            lemma_list_agree(items, 0, Seq::empty());
        },
        JsonModel::Obj(pairs) => {
            assert(hoj_obj(pairs).len() == pairs.len() && pairs.len() > 0 && hoj_obj(pairs)[0].0
                matches HostKeyModel::Str(s)) by {
                assert(hoj_obj(pairs)[0] == (HostKeyModel::Str(pairs[0].0), host_of_json(
                    pairs[0].1,
                )));
                lemma_hoj_obj_len(pairs);
            }
            assert(!is_list(hoj_obj(pairs)));
            lemma_obj_agree(pairs, Seq::empty());
        },
        _ => {
        },
    }
}

proof fn lemma_hoj_obj_len(pairs: Seq<(Seq<char>, JsonModel)>)
    ensures
        hoj_obj(pairs).len() == pairs.len(),
    decreases pairs,
{
    if pairs.len() > 0 {
        lemma_hoj_obj_len(pairs.drop_first());
    }
}

} // verus!
