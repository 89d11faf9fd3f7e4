use vstd::prelude::*;
use vstd::utf8::*;

use crate::error::BridgeError;
use crate::strutil::{dec_int, i64_string, utf8_string};
use crate::value::{
    dict_update, lemma_vals_model_push, pairs_model, val_model, vals_model, ColorVal, Val,
    ValModel,
};

verus! {

/// A key of a host collection: the host runtime keys its single collection
/// type by integers or by strings.
pub enum HostKey {
    Int(i64),
    Str(String),
}

/// A host value, as the host runtime's tag set presents it. Strings carry raw
/// bytes (the host does not promise UTF-8); doubles carry their IEEE-754 bit
/// pattern; `Other` stands for every unsupported tag (resources, references,
/// callables and the like).
pub enum HostValue {
    Undefined,
    Null,
    False,
    True,
    Long(i64),
    Double(u64),
    Str(Vec<u8>),
    Table(Vec<(HostKey, HostValue)>),
    Object { class: String, props: Vec<(String, HostValue)> },
    Void,
    Bool(bool),
    Other,
}

#[verifier::ext_equal]
pub enum HostKeyModel {
    Int(i64),
    Str(Seq<char>),
}

/// The mathematical model of a host value.
#[verifier::ext_equal]
pub enum HostModel {
    Undefined,
    Null,
    False,
    True,
    Long(i64),
    Double(u64),
    Str(Seq<u8>),
    Table(Seq<(HostKeyModel, HostModel)>),
    Object { class: Seq<char>, props: Seq<(Seq<char>, HostModel)> },
    Void,
    Bool(bool),
    Other,
}

pub open spec fn key_model(k: HostKey) -> HostKeyModel {
    match k {
        HostKey::Int(i) => HostKeyModel::Int(i),
        HostKey::Str(s) => HostKeyModel::Str(s@),
    }
}

pub open spec fn entries_model(s: Seq<(HostKey, HostValue)>) -> Seq<(HostKeyModel, HostModel)>
    decreases s,
{
    if s.len() == 0 {
        Seq::empty()
    } else {
        seq![(key_model(s[0].0), host_model(s[0].1))] + entries_model(s.drop_first())
    }
}

pub open spec fn hprops_model(s: Seq<(String, HostValue)>) -> Seq<(Seq<char>, HostModel)>
    decreases s,
{
    if s.len() == 0 {
        Seq::empty()
    } else {
        seq![(s[0].0@, host_model(s[0].1))] + hprops_model(s.drop_first())
    }
}

pub open spec fn host_model(h: HostValue) -> HostModel
    decreases h,
{
    match h {
        HostValue::Undefined => HostModel::Undefined,
        HostValue::Null => HostModel::Null,
        HostValue::False => HostModel::False,
        HostValue::True => HostModel::True,
        HostValue::Long(i) => HostModel::Long(i),
        HostValue::Double(bits) => HostModel::Double(bits),
        HostValue::Str(bytes) => HostModel::Str(bytes@),
        HostValue::Table(entries) => HostModel::Table(entries_model(entries@)),
        HostValue::Object { class, props } => HostModel::Object {
            class: class@,
            props: hprops_model(props@),
        },
        HostValue::Void => HostModel::Void,
        HostValue::Bool(b) => HostModel::Bool(b),
        HostValue::Other => HostModel::Other,
    }
}

impl DeepView for HostKey {
    type V = HostKeyModel;

    open spec fn deep_view(&self) -> HostKeyModel {
        key_model(*self)
    }
}

impl DeepView for HostValue {
    type V = HostModel;

    open spec fn deep_view(&self) -> HostModel {
        host_model(*self)
    }
}

pub broadcast proof fn lemma_entries_model_index(s: Seq<(HostKey, HostValue)>)
    ensures
        #[trigger] entries_model(s).len() == s.len(),
        forall|i: int|
            0 <= i < s.len() ==> entries_model(s)[i] == (
            key_model((#[trigger] s[i]).0),
            host_model(s[i].1),
            ),
    decreases s,
{
    if s.len() > 0 {
        lemma_entries_model_index(s.drop_first());
        assert forall|i: int| 0 <= i < s.len() implies entries_model(s)[i] == (
        key_model((#[trigger] s[i]).0),
        host_model(s[i].1),
        ) by {
            if i > 0 {
                assert(s.drop_first()[i - 1] == s[i]);
            }
        }
    }
}

pub broadcast proof fn lemma_hprops_model_index(s: Seq<(String, HostValue)>)
    ensures
        #[trigger] hprops_model(s).len() == s.len(),
        forall|i: int|
            0 <= i < s.len() ==> hprops_model(s)[i] == ((#[trigger] s[i]).0@, host_model(s[i].1)),
    decreases s,
{
    if s.len() > 0 {
        lemma_hprops_model_index(s.drop_first());
        assert forall|i: int| 0 <= i < s.len() implies hprops_model(s)[i] == (
        (#[trigger] s[i]).0@,
        host_model(s[i].1),
        ) by {
            if i > 0 {
                assert(s.drop_first()[i - 1] == s[i]);
            }
        }
    }
}

/// A host collection used as a list: its keys are exactly the integers
/// `0 .. len`, in that order.
pub open spec fn is_list(entries: Seq<(HostKeyModel, HostModel)>) -> bool {
    forall|i: int|
        0 <= i < entries.len() ==> ((#[trigger] entries[i]).0 matches HostKeyModel::Int(k) && k
            as int == i)
}

/// A host key coerced to a dictionary key: integers take their decimal
/// notation, strings stay as they are.
pub open spec fn key_string(k: HostKeyModel) -> Seq<char> {
    match k {
        HostKeyModel::Int(i) => dec_int(i as int),
        HostKeyModel::Str(s) => s,
    }
}

/// The first property of this name, if any.
pub open spec fn prop_get(props: Seq<(Seq<char>, HostModel)>, k: Seq<char>) -> Option<HostModel>
    decreases props,
{
    if props.len() == 0 {
        Option::None
    } else if props[0].0 == k {
        Option::Some(props[0].1)
    } else {
        prop_get(props.drop_first(), k)
    }
}

/// The property read as a color channel: a host integer within `0 ..= 255`.
pub open spec fn channel_of(props: Seq<(Seq<char>, HostModel)>, k: Seq<char>) -> Option<u8> {
    match prop_get(props, k) {
        Option::Some(HostModel::Long(v)) => if 0 <= v <= 255 {
            Option::Some(v as u8)
        } else {
            Option::None
        },
        _ => Option::None,
    }
}

/// An RGBA color read from the properties of a recognized color object; a
/// missing alpha channel defaults to fully opaque.
pub open spec fn rgba_of(props: Seq<(Seq<char>, HostModel)>) -> Option<ColorVal> {
    match (channel_of(props, "r"@), channel_of(props, "g"@), channel_of(props, "b"@)) {
        (Option::Some(r), Option::Some(g), Option::Some(b)) => {
            if prop_get(props, "a"@) is None {
                Option::Some(ColorVal::Rgba { r, g, b, a: 255 })
            } else {
                match channel_of(props, "a"@) {
                    Option::Some(a) => Option::Some(ColorVal::Rgba { r, g, b, a }),
                    Option::None => Option::None,
                }
            }
        },
        _ => Option::None,
    }
}

/// A luma color read from the properties of a recognized color object.
pub open spec fn luma_of(props: Seq<(Seq<char>, HostModel)>) -> Option<ColorVal> {
    match channel_of(props, "l"@) {
        Option::Some(l) => Option::Some(ColorVal::Luma { l }),
        Option::None => Option::None,
    }
}

/// Translation of a list of host values, element by element; `None` when any
/// element fails.
pub open spec fn t_list(
    vals: Seq<(HostKeyModel, HostModel)>,
    acc: Seq<ValModel>,
) -> Option<Seq<ValModel>>
    decreases vals,
{
    if vals.len() == 0 {
        Option::Some(acc)
    } else {
        match t_spec(vals[0].1) {
            Option::Some(v) => t_list(vals.drop_first(), acc.push(v)),
            Option::None => Option::None,
        }
    }
}

/// Translation of a host collection to a dictionary, coercing keys to strings
/// and keeping insertion order; `None` when any value fails.
pub open spec fn t_table(
    entries: Seq<(HostKeyModel, HostModel)>,
    acc: Seq<(Seq<char>, ValModel)>,
) -> Option<Seq<(Seq<char>, ValModel)>>
    decreases entries,
{
    if entries.len() == 0 {
        Option::Some(acc)
    } else {
        match t_spec(entries[0].1) {
            Option::Some(v) => t_table(
                entries.drop_first(),
                dict_update(acc, key_string(entries[0].0), v),
            ),
            Option::None => Option::None,
        }
    }
}

/// Translation of an object's properties to a dictionary.
pub open spec fn t_props(
    props: Seq<(Seq<char>, HostModel)>,
    acc: Seq<(Seq<char>, ValModel)>,
) -> Option<Seq<(Seq<char>, ValModel)>>
    decreases props,
{
    if props.len() == 0 {
        Option::Some(acc)
    } else {
        match t_spec(props[0].1) {
            Option::Some(v) => t_props(props.drop_first(), dict_update(acc, props[0].0, v)),
            Option::None => Option::None,
        }
    }
}

/// What the translator yields for a host value: the mapping of the host tag
/// set into the typesetter's value algebra. `None` marks the one failure the
/// translator knows, a host string that is not valid UTF-8.
pub open spec fn t_spec(h: HostModel) -> Option<ValModel>
    decreases h,
{
    match h {
        HostModel::Undefined => Option::Some(ValModel::Nil),
        HostModel::Null => Option::Some(ValModel::Nil),
        HostModel::Void => Option::Some(ValModel::Nil),
        HostModel::Other => Option::Some(ValModel::Nil),
        HostModel::False => Option::Some(ValModel::Bool(false)),
        HostModel::True => Option::Some(ValModel::Bool(true)),
        HostModel::Bool(b) => Option::Some(ValModel::Bool(b)),
        HostModel::Long(i) => Option::Some(ValModel::Int(i)),
        HostModel::Double(bits) => Option::Some(ValModel::Float(bits)),
        HostModel::Str(bytes) => if valid_utf8(bytes) {
            Option::Some(ValModel::Str(decode_utf8(bytes)))
        } else {
            Option::None
        },
        HostModel::Table(entries) => if is_list(entries) {
            match t_list(entries, Seq::empty()) {
                Option::Some(items) => Option::Some(ValModel::Array(items)),
                Option::None => Option::None,
            }
        } else {
            match t_table(entries, Seq::empty()) {
                Option::Some(pairs) => Option::Some(ValModel::Dict(pairs)),
                Option::None => Option::None,
            }
        },
        HostModel::Object { class, props } => if class == "RGBA"@ && rgba_of(props) is Some {
            match rgba_of(props) {
                Option::Some(c) => Option::Some(ValModel::Color(c)),
                Option::None => Option::None,
            }
        } else if class == "Luma"@ && luma_of(props) is Some {
            match luma_of(props) {
                Option::Some(c) => Option::Some(ValModel::Color(c)),
                Option::None => Option::None,
            }
        } else {
            match t_props(props, Seq::empty()) {
                Option::Some(pairs) => Option::Some(ValModel::Dict(pairs)),
                Option::None => Option::None,
            }
        },
    }
}

/// Whether the collection's keys are exactly `0 .. len` in order.
#[verifier::loop_isolation(false)]
fn is_list_exec(entries: &Vec<(HostKey, HostValue)>) -> (r: bool)
    ensures
        r == is_list(entries_model(entries@)),
{
    proof {
        lemma_entries_model_index(entries@);
    }
    let n = entries.len();
    let mut i: usize = 0;
    while i < n
        invariant
            n == entries.len(),
            0 <= i <= n,
            forall|j: int|
                0 <= j < i ==> ((#[trigger] entries_model(entries@)[j]).0
                    matches HostKeyModel::Int(k) && k as int == j),
            forall|j: int|
                0 <= j < entries@.len() ==> entries_model(entries@)[j] == (
                key_model((#[trigger] entries@[j]).0),
                host_model(entries@[j].1),
                ),
            entries_model(entries@).len() == entries@.len(),
        decreases n - i,
    {
        let ok: bool = match &entries[i].0 {
            HostKey::Int(k) => *k >= 0 && (*k as u64) == (i as u64),
            HostKey::Str(_) => false,
        };
        if !ok {
            proof {
                assert(!((entries_model(entries@)[i as int]).0 matches HostKeyModel::Int(k) && k
                    as int == i));
            }
            return false;
        }
        i = i + 1;
    }
    true
}

/// Looks a property up by name and reads it as a color channel.
#[verifier::loop_isolation(false)]
fn prop_channel(props: &Vec<(String, HostValue)>, name: &String) -> (r: Option<u8>)
    ensures
        r == channel_of(hprops_model(props@), name@),
{
    proof {
        lemma_hprops_model_index(props@);
    }
    let ghost model = hprops_model(props@);
    let n = props.len();
    let mut i: usize = 0;
    proof {
        assert(model.skip(0) =~= model);
    }
    while i < n
        invariant
            n == props.len(),
            0 <= i <= n,
            model == hprops_model(props@),
            model.len() == props@.len(),
            prop_get(model, name@) == prop_get(model.skip(i as int), name@),
            forall|j: int|
                0 <= j < props@.len() ==> model[j] == (
                (#[trigger] props@[j]).0@,
                host_model(props@[j].1),
                ),
        decreases n - i,
    {
        proof {
            assert(model.skip(i as int)[0] == model[i as int]);
            assert(model.skip(i as int).drop_first() =~= model.skip(i as int + 1));
        }
        if props[i].0 == *name {
            let r: Option<u8> = match &props[i].1 {
                HostValue::Long(v) => if *v >= 0 && *v <= 255 {
                    Some(*v as u8)
                } else {
                    None
                },
                _ => None,
            };
            assert(prop_get(model, name@) == Some(host_model(props@[i as int].1)));
            return r;
        }
        i = i + 1;
    }
    proof {
        assert(model.skip(n as int) =~= Seq::empty());
    }
    None
}

/// Whether a property of this name exists at all.
#[verifier::loop_isolation(false)]
fn prop_exists(props: &Vec<(String, HostValue)>, name: &String) -> (r: bool)
    ensures
        r == (prop_get(hprops_model(props@), name@) is Some),
{
    proof {
        lemma_hprops_model_index(props@);
    }
    let ghost model = hprops_model(props@);
    let n = props.len();
    let mut i: usize = 0;
    proof {
        assert(model.skip(0) =~= model);
    }
    while i < n
        invariant
            n == props.len(),
            0 <= i <= n,
            model == hprops_model(props@),
            model.len() == props@.len(),
            prop_get(model, name@) == prop_get(model.skip(i as int), name@),
            forall|j: int|
                0 <= j < props@.len() ==> model[j] == (
                (#[trigger] props@[j]).0@,
                host_model(props@[j].1),
                ),
        decreases n - i,
    {
        proof {
            assert(model.skip(i as int)[0] == model[i as int]);
            assert(model.skip(i as int).drop_first() =~= model.skip(i as int + 1));
        }
        if props[i].0 == *name {
            return true;
        }
        i = i + 1;
    }
    proof {
        assert(model.skip(n as int) =~= Seq::empty());
    }
    false
}

/// Reads an RGBA descriptor from a recognized color object's properties.
fn try_rgba(props: &Vec<(String, HostValue)>) -> (r: Option<ColorVal>)
    ensures
        r == rgba_of(hprops_model(props@)),
{
    let r = prop_channel(props, &String::from_str("r"));
    let g = prop_channel(props, &String::from_str("g"));
    let b = prop_channel(props, &String::from_str("b"));
    match (r, g, b) {
        (Some(r), Some(g), Some(b)) => {
            if !prop_exists(props, &String::from_str("a")) {
                Some(ColorVal::Rgba { r, g, b, a: 255 })
            } else {
                match prop_channel(props, &String::from_str("a")) {
                    Some(a) => Some(ColorVal::Rgba { r, g, b, a }),
                    None => None,
                }
            }
        },
        _ => None,
    }
}

/// Reads a luma descriptor from a recognized color object's properties.
fn try_luma(props: &Vec<(String, HostValue)>) -> (r: Option<ColorVal>)
    ensures
        r == luma_of(hprops_model(props@)),
{
    match prop_channel(props, &String::from_str("l")) {
        Some(l) => Some(ColorVal::Luma { l }),
        None => None,
    }
}

/// Translates a host value into the typesetter's value algebra, as `t_spec`
/// says: scalars map one to one, a collection keyed `0 .. n` in order becomes
/// an array, any other collection becomes a dictionary with keys coerced to
/// strings, recognized color objects become colors, other objects become
/// dictionaries of their properties, and unsupported tags become none. The
/// one failure is a host string that is not valid UTF-8.
#[verifier::loop_isolation(false)]
pub fn translate(h: &HostValue) -> (r: Result<Val, BridgeError>)
    ensures
        r matches Ok(v) ==> t_spec(h.deep_view()) == Some(val_model(v)),
        r is Err ==> t_spec(h.deep_view()) is None,
        r is Err ==> r matches Err(BridgeError::BadValue),
        r is Ok <==> t_spec(h.deep_view()) is Some,
    decreases *h,
{
    match h {
        HostValue::Undefined => Ok(Val::Nil),
        HostValue::Null => Ok(Val::Nil),
        HostValue::Void => Ok(Val::Nil),
        HostValue::Other => Ok(Val::Nil),
        HostValue::False => Ok(Val::Bool(false)),
        HostValue::True => Ok(Val::Bool(true)),
        HostValue::Bool(b) => Ok(Val::Bool(*b)),
        HostValue::Long(i) => Ok(Val::Int(*i)),
        HostValue::Double(bits) => Ok(Val::Float(*bits)),
        HostValue::Str(bytes) => match utf8_string(bytes) {
            Some(s) => Ok(Val::Str(s)),
            None => Err(BridgeError::BadValue),
        },
        HostValue::Table(entries) => {
            proof {
                lemma_entries_model_index(entries@);
            }
            let ghost model = entries_model(entries@);
            let n = entries.len();
            if is_list_exec(entries) {
                let mut out: Vec<Val> = Vec::new();
                let mut i: usize = 0;
                proof {
                    assert(model.skip(0) =~= model);
                    assert(out@ =~= Seq::<Val>::empty());
                }
                while i < n
                    invariant
                        n == entries.len(),
                        0 <= i <= n,
                        model == entries_model(entries@),
                        model.len() == n,
                        is_list(model),
                        forall|j: int|
                            0 <= j < entries@.len() ==> model[j] == (
                            key_model((#[trigger] entries@[j]).0),
                            host_model(entries@[j].1),
                            ),
                        t_list(model.skip(i as int), vals_model(out@)) == t_list(
                            model,
                            Seq::empty(),
                        ),
                    decreases n - i,
                {
                    proof {
                        assert(model.skip(i as int)[0] == model[i as int]);
                        assert(model.skip(i as int).drop_first() =~= model.skip(i as int + 1));
                    }
                    match translate(&entries[i].1) {
                        Ok(v) => {
                            let ghost pre = out@;
                            proof {
                                lemma_vals_model_push(pre, v);
                            }
                            out.push(v);
                        },
                        Err(e) => {
                            proof {
                                assert(t_list(model.skip(i as int), vals_model(out@)) is None);
                            }
                            return Err(e);
                        },
                    }
                    i = i + 1;
                }
                proof {
                    assert(model.skip(n as int) =~= Seq::empty());
                    assert(t_list(model, Seq::empty()) == Some(vals_model(out@)));
                }
                Ok(Val::Array(out))
            } else {
                let mut pairs: Vec<(String, Val)> = Vec::new();
                let mut i: usize = 0;
                proof {
                    assert(model.skip(0) =~= model);
                    assert(pairs@ =~= Seq::<(String, Val)>::empty());
                }
                while i < n
                    invariant
                        n == entries.len(),
                        0 <= i <= n,
                        model == entries_model(entries@),
                        model.len() == n,
                        !is_list(model),
                        forall|j: int|
                            0 <= j < entries@.len() ==> model[j] == (
                            key_model((#[trigger] entries@[j]).0),
                            host_model(entries@[j].1),
                            ),
                        t_table(model.skip(i as int), pairs_model(pairs@)) == t_table(
                            model,
                            Seq::empty(),
                        ),
                    decreases n - i,
                {
                    proof {
                        assert(model.skip(i as int)[0] == model[i as int]);
                        assert(model.skip(i as int).drop_first() =~= model.skip(i as int + 1));
                    }
                    match translate(&entries[i].1) {
                        Ok(v) => {
                            let key: String = match &entries[i].0 {
                                HostKey::Int(k) => i64_string(*k),
                                HostKey::Str(s) => s.clone(),
                            };
                            assert(key@ == key_string(model[i as int].0));
                            crate::value::dict_insert(&mut pairs, key, v);
                        },
                        Err(e) => {
                            proof {
                                assert(t_table(model.skip(i as int), pairs_model(pairs@)) is None);
                            }
                            return Err(e);
                        },
                    }
                    i = i + 1;
                }
                proof {
                    assert(model.skip(n as int) =~= Seq::empty());
                    assert(t_table(model, Seq::empty()) == Some(pairs_model(pairs@)));
                }
                Ok(Val::Dict(pairs))
            }
        },
        HostValue::Object { class, props } => {
            proof {
                lemma_hprops_model_index(props@);
            }
            let ghost model = hprops_model(props@);
            if *class == String::from_str("RGBA") {
                if let Some(c) = try_rgba(props) {
                    return Ok(Val::Color(c));
                }
            }
            if *class == String::from_str("Luma") {
                if let Some(c) = try_luma(props) {
                    return Ok(Val::Color(c));
                }
            }
            let n = props.len();
            let mut pairs: Vec<(String, Val)> = Vec::new();
            let mut i: usize = 0;
            proof {
                assert(model.skip(0) =~= model);
                assert(pairs@ =~= Seq::<(String, Val)>::empty());
            }
            while i < n
                invariant
                    n == props.len(),
                    0 <= i <= n,
                    model == hprops_model(props@),
                    model.len() == n,
                    forall|j: int|
                        0 <= j < props@.len() ==> model[j] == (
                        (#[trigger] props@[j]).0@,
                        host_model(props@[j].1),
                        ),
                    t_props(model.skip(i as int), pairs_model(pairs@)) == t_props(
                        model,
                        Seq::empty(),
                    ),
                decreases n - i,
            {
                proof {
                    assert(model.skip(i as int)[0] == model[i as int]);
                    assert(model.skip(i as int).drop_first() =~= model.skip(i as int + 1));
                }
                match translate(&props[i].1) {
                    Ok(v) => {
                        let key: String = props[i].0.clone();
                        crate::value::dict_insert(&mut pairs, key, v);
                    },
                    Err(e) => {
                        proof {
                            assert(t_props(model.skip(i as int), pairs_model(pairs@)) is None);
                        }
                        return Err(e);
                    },
                }
                i = i + 1;
            }
            proof {
                assert(model.skip(n as int) =~= Seq::empty());
                assert(t_props(model, Seq::empty()) == Some(pairs_model(pairs@)));
            }
            Ok(Val::Dict(pairs))
        },
    }
}

} // verus!
