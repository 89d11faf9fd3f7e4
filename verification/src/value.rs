use vstd::prelude::*;

verus! {

/// A color in the typesetter's value space, one byte per channel.
#[derive(PartialEq, Eq, Structural, Clone, Copy, Debug)]
pub enum ColorVal {
    Rgba { r: u8, g: u8, b: u8, a: u8 },
    Luma { l: u8 },
}

/// A translated value: the tagged value algebra shared with the typesetter.
/// Floating-point numbers are carried as their raw IEEE-754 bit pattern so
/// that the verified core never computes with them.
pub enum Val {
    Nil,
    Bool(bool),
    Int(i64),
    Float(u64),
    Str(String),
    Array(Vec<Val>),
    Dict(Vec<(String, Val)>),
    Color(ColorVal),
}

/// The mathematical model of a translated value: strings become sequences of
/// characters, arrays and dictionaries become sequences. Dictionary entries
/// keep their insertion order; keys are unique.
#[verifier::ext_equal]
pub enum ValModel {
    Nil,
    Bool(bool),
    Int(i64),
    Float(u64),
    Str(Seq<char>),
    Array(Seq<ValModel>),
    Dict(Seq<(Seq<char>, ValModel)>),
    Color(ColorVal),
}

pub open spec fn vals_model(items: Seq<Val>) -> Seq<ValModel>
    decreases items,
{
    if items.len() == 0 {
        Seq::empty()
    } else {
        seq![val_model(items[0])] + vals_model(items.drop_first())
    }
}

pub open spec fn pairs_model(pairs: Seq<(String, Val)>) -> Seq<(Seq<char>, ValModel)>
    decreases pairs,
{
    if pairs.len() == 0 {
        Seq::empty()
    } else {
        seq![(pairs[0].0@, val_model(pairs[0].1))] + pairs_model(pairs.drop_first())
    }
}

pub open spec fn val_model(v: Val) -> ValModel
    decreases v,
{
    match v {
        Val::Nil => ValModel::Nil,
        Val::Bool(b) => ValModel::Bool(b),
        Val::Int(i) => ValModel::Int(i),
        Val::Float(bits) => ValModel::Float(bits),
        Val::Str(s) => ValModel::Str(s@),
        Val::Array(items) => ValModel::Array(vals_model(items@)),
        Val::Dict(pairs) => ValModel::Dict(pairs_model(pairs@)),
        Val::Color(c) => ValModel::Color(c),
    }
}

impl DeepView for Val {
    type V = ValModel;

    open spec fn deep_view(&self) -> ValModel {
        val_model(*self)
    }
}

pub broadcast proof fn lemma_vals_model_index(items: Seq<Val>)
    ensures
        #[trigger] vals_model(items).len() == items.len(),
        forall|i: int|
            0 <= i < items.len() ==> vals_model(items)[i] == val_model(#[trigger] items[i]),
    decreases items,
{
    if items.len() > 0 {
        lemma_vals_model_index(items.drop_first());
        assert forall|i: int| 0 <= i < items.len() implies vals_model(items)[i] == val_model(
            #[trigger] items[i],
        ) by {
            if i > 0 {
                assert(items.drop_first()[i - 1] == items[i]);
            }
        }
    }
}

pub broadcast proof fn lemma_pairs_model_index(pairs: Seq<(String, Val)>)
    ensures
        #[trigger] pairs_model(pairs).len() == pairs.len(),
        forall|i: int|
            0 <= i < pairs.len() ==> pairs_model(pairs)[i] == (
            (#[trigger] pairs[i]).0@,
            val_model(pairs[i].1),
            ),
    decreases pairs,
{
    if pairs.len() > 0 {
        lemma_pairs_model_index(pairs.drop_first());
        assert forall|i: int| 0 <= i < pairs.len() implies pairs_model(pairs)[i] == (
        (#[trigger] pairs[i]).0@,
        val_model(pairs[i].1),
        ) by {
            if i > 0 {
                assert(pairs.drop_first()[i - 1] == pairs[i]);
            }
        }
    }
}

/// Pushing one value extends the model by that value's model.
pub proof fn lemma_vals_model_push(s: Seq<Val>, v: Val)
    ensures
        vals_model(s.push(v)) =~= vals_model(s).push(val_model(v)),
{
    lemma_vals_model_index(s.push(v));
    lemma_vals_model_index(s);
    assert forall|j: int| 0 <= j < s.len() + 1 implies vals_model(s.push(v))[j] == vals_model(
        s,
    ).push(val_model(v))[j] by {
        if j < s.len() {
            assert(s.push(v)[j] == s[j]);
        } else {
            assert(s.push(v)[j] == v);
        }
    }
}

/// The position of key `k` among the dictionary entries `pairs`: the first
/// index holding `k`, or the length when `k` is absent.
pub open spec fn key_index(pairs: Seq<(Seq<char>, ValModel)>, k: Seq<char>) -> int
    decreases pairs,
{
    if pairs.len() == 0 {
        0
    } else if pairs[0].0 == k {
        0
    } else {
        1 + key_index(pairs.drop_first(), k)
    }
}

pub open spec fn dict_has_key(pairs: Seq<(Seq<char>, ValModel)>, k: Seq<char>) -> bool {
    key_index(pairs, k) < pairs.len()
}

/// Dictionary update with the order-keeping policy of the typesetter's
/// dictionaries: an existing key keeps its position and gets the new value, a
/// new key is appended.
pub open spec fn dict_update(
    pairs: Seq<(Seq<char>, ValModel)>,
    k: Seq<char>,
    v: ValModel,
) -> Seq<(Seq<char>, ValModel)> {
    if dict_has_key(pairs, k) {
        pairs.update(key_index(pairs, k), (k, v))
    } else {
        pairs.push((k, v))
    }
}

pub broadcast proof fn lemma_key_index(pairs: Seq<(Seq<char>, ValModel)>, k: Seq<char>)
    ensures
        0 <= #[trigger] key_index(pairs, k) <= pairs.len(),
        key_index(pairs, k) < pairs.len() ==> pairs[key_index(pairs, k)].0 == k,
        forall|j: int| 0 <= j < key_index(pairs, k) ==> (#[trigger] pairs[j]).0 != k,
    decreases pairs,
{
    if pairs.len() > 0 && pairs[0].0 != k {
        lemma_key_index(pairs.drop_first(), k);
        assert forall|j: int| 0 <= j < key_index(pairs, k) implies (#[trigger] pairs[j]).0 != k by {
            if j > 0 {
                assert(pairs.drop_first()[j - 1] == pairs[j]);
            }
        }
    }
}

/// Every key appears at most once among a dictionary's entries.
pub open spec fn keys_unique(pairs: Seq<(Seq<char>, ValModel)>) -> bool {
    forall|i: int, j: int|
        0 <= i < j < pairs.len() ==> (#[trigger] pairs[i]).0 != (#[trigger] pairs[j]).0
}

/// Dictionary update keeps keys unique: replacing in place introduces no new
/// key, and a key is appended only when absent.
pub proof fn lemma_dict_update_unique(
    pairs: Seq<(Seq<char>, ValModel)>,
    k: Seq<char>,
    v: ValModel,
)
    requires
        keys_unique(pairs),
    ensures
        keys_unique(dict_update(pairs, k, v)),
{
    lemma_key_index(pairs, k);
    let out = dict_update(pairs, k, v);
    if dict_has_key(pairs, k) {
        let ki = key_index(pairs, k);
        assert forall|i: int, j: int| 0 <= i < j < out.len() implies (#[trigger] out[i]).0 != (
        #[trigger] out[j]).0 by {
            assert(out[i].0 == pairs[i].0 && out[j].0 == pairs[j].0);
        }
    } else {
        assert forall|i: int, j: int| 0 <= i < j < out.len() implies (#[trigger] out[i]).0 != (
        #[trigger] out[j]).0 by {
            if j == pairs.len() {
                assert(out[j].0 == k);
                assert(pairs[i].0 != k);
            }
        }
    }
}

/// Inserts `(k, v)` into the entry list of a dictionary, replacing the value
/// in place when the key is already bound and appending otherwise.
pub fn dict_insert(pairs: &mut Vec<(String, Val)>, k: String, v: Val)
    ensures
        pairs_model(final(pairs)@) == dict_update(pairs_model(old(pairs)@), k@, val_model(v)),
{
    proof {
        lemma_pairs_model_index(pairs@);
        lemma_key_index(pairs_model(pairs@), k@);
    }
    let ghost orig = pairs_model(pairs@);
    let n = pairs.len();
    let mut i: usize = 0;
    while i < n
        invariant
            n == pairs.len(),
            0 <= i <= n,
            pairs@ == old(pairs)@,
            orig == pairs_model(pairs@),
            forall|j: int| 0 <= j < i ==> (#[trigger] orig[j]).0 != k@,
            orig.len() == pairs.len(),
            forall|j: int| 0 <= j < n ==> orig[j] == ((#[trigger] pairs@[j]).0@, val_model(pairs@[j].1)),
        decreases n - i,
    {
        if pairs[i].0 == k {
            let ghost prev = pairs@;
            let ghost vmodel = val_model(v);
            let ki = pairs[i].0.clone();
            pairs.set(i, (ki, v));
            proof {
                lemma_pairs_model_index(pairs@);
                assert(key_index(orig, k@) == i) by {
                    lemma_key_index(orig, k@);
                    if key_index(orig, k@) < i {
                        assert(orig[key_index(orig, k@)].0 == k@);
                    }
                }
                assert(pairs@[i as int].0@ == k@ && val_model(pairs@[i as int].1) == vmodel);
                assert(pairs_model(pairs@)[i as int] == (k@, vmodel));
                assert forall|j: int| 0 <= j < n && j != i implies pairs_model(pairs@)[j]
                    == orig[j] by {
                    assert(pairs@[j] == prev[j]);
                }
                assert(pairs_model(pairs@) =~~= dict_update(orig, k@, vmodel));
            }
            return ;
        }
        i = i + 1;
    }
    let ghost kview = k@;
    let ghost vmodel = val_model(v);
    let ghost prev = pairs@;
    pairs.push((k, v));
    proof {
        lemma_pairs_model_index(pairs@);
        assert(!dict_has_key(orig, kview)) by {
            lemma_key_index(orig, kview);
            if key_index(orig, kview) < orig.len() {
                assert(orig[key_index(orig, kview)].0 == kview);
            }
        }
        assert(pairs@ == prev.push((k, v)));
        assert(pairs@.len() == n + 1);
        assert(pairs_model(pairs@).len() == n + 1);
        assert(forall|j: int| 0 <= j < n ==> pairs@[j] == prev[j]);
        assert(pairs@[n as int].0@ == kview && val_model(pairs@[n as int].1) == vmodel);
        assert(pairs_model(pairs@)[n as int] == (kview, vmodel));
        assert forall|j: int| 0 <= j < n implies pairs_model(pairs@)[j] == orig[j] by {
            assert(pairs@[j] == prev[j]);
        }
        assert(pairs_model(pairs@) =~~= dict_update(orig, kview, vmodel));
    }
}

} // verus!
