use vstd::prelude::*;
use vstd::string::StrSliceExecFns;
use vstd::string::StringSliceAdditionalSpecFns;
use vstd::utf8::encode_utf8;

use crate::csv_data::{csv_rows_of, csv_value, csv_value_of};
use crate::error::{BridgeError, PathFault};
use crate::host::{t_spec, translate, HostValue};
use crate::value::{dict_update, keys_unique, lemma_dict_update_unique, pairs_model, Val};

verus! {

/// A CMYK color descriptor, one byte per channel. The translator does not
/// recognize it as a color; a host object tagged with it translates to a
/// dictionary of its properties.
#[derive(PartialEq, Eq, Structural, Clone, Copy, Debug)]
pub struct TypstCMYK {
    pub c: u8,
    pub m: u8,
    pub y: u8,
    pub k: u8,
}

/// An RGBA color descriptor, one byte per channel.
#[derive(PartialEq, Eq, Structural, Clone, Copy, Debug)]
pub struct TypstRGBA {
    pub r: u8,
    pub g: u8,
    pub b: u8,
    pub a: u8,
}

/// A luma (grayscale) color descriptor.
#[derive(PartialEq, Eq, Structural, Clone, Copy, Debug)]
pub struct TypstLuma {
    pub luma: u8,
}

/// The model of the raw JSON bindings: names mapped to JSON text, in
/// insertion order, keys unique.
pub open spec fn jstr_model(pairs: Seq<(String, String)>) -> Seq<(Seq<char>, Seq<char>)>
    decreases pairs,
{
    if pairs.len() == 0 {
        Seq::empty()
    } else {
        seq![(pairs[0].0@, pairs[0].1@)] + jstr_model(pairs.drop_first())
    }
}

pub broadcast proof fn lemma_jstr_model_index(s: Seq<(String, String)>)
    ensures
        #[trigger] jstr_model(s).len() == s.len(),
        forall|i: int|
            0 <= i < s.len() ==> jstr_model(s)[i] == ((#[trigger] s[i]).0@, s[i].1@),
    decreases s,
{
    if s.len() > 0 {
        lemma_jstr_model_index(s.drop_first());
        assert forall|i: int| 0 <= i < s.len() implies jstr_model(s)[i] == (
        (#[trigger] s[i]).0@,
        s[i].1@,
        ) by {
            if i > 0 {
                assert(s.drop_first()[i - 1] == s[i]);
            }
        }
    }
}

/// The position of key `k` among the JSON binding entries.
pub open spec fn jkey_index(pairs: Seq<(Seq<char>, Seq<char>)>, k: Seq<char>) -> int
    decreases pairs,
{
    if pairs.len() == 0 {
        0
    } else if pairs[0].0 == k {
        0
    } else {
        1 + jkey_index(pairs.drop_first(), k)
    }
}

/// JSON binding update: an existing name keeps its position and gets the new
/// text, a new name is appended.
pub open spec fn jstr_update(
    pairs: Seq<(Seq<char>, Seq<char>)>,
    k: Seq<char>,
    v: Seq<char>,
) -> Seq<(Seq<char>, Seq<char>)> {
    if jkey_index(pairs, k) < pairs.len() {
        pairs.update(jkey_index(pairs, k), (k, v))
    } else {
        pairs.push((k, v))
    }
}

proof fn lemma_jkey_index(pairs: Seq<(Seq<char>, Seq<char>)>, k: Seq<char>)
    ensures
        0 <= jkey_index(pairs, k) <= pairs.len(),
        jkey_index(pairs, k) < pairs.len() ==> pairs[jkey_index(pairs, k)].0 == k,
        forall|j: int| 0 <= j < jkey_index(pairs, k) ==> (#[trigger] pairs[j]).0 != k,
    decreases pairs,
{
    if pairs.len() > 0 && pairs[0].0 != k {
        lemma_jkey_index(pairs.drop_first(), k);
        assert forall|j: int| 0 <= j < jkey_index(pairs, k) implies (#[trigger] pairs[j]).0
            != k by {
            if j > 0 {
                assert(pairs.drop_first()[j - 1] == pairs[j]);
            }
        }
    }
}

/// Every name appears at most once among the JSON binding entries.
pub open spec fn jkeys_unique(pairs: Seq<(Seq<char>, Seq<char>)>) -> bool {
    forall|i: int, j: int|
        0 <= i < j < pairs.len() ==> (#[trigger] pairs[i]).0 != (#[trigger] pairs[j]).0
}

/// JSON binding update keeps names unique, like the dictionary update.
pub proof fn lemma_jstr_update_unique(
    pairs: Seq<(Seq<char>, Seq<char>)>,
    k: Seq<char>,
    v: Seq<char>,
)
    requires
        jkeys_unique(pairs),
    ensures
        jkeys_unique(jstr_update(pairs, k, v)),
{
    lemma_jkey_index(pairs, k);
    let out = jstr_update(pairs, k, v);
    if jkey_index(pairs, k) < pairs.len() {
        assert forall|i: int, j: int| 0 <= i < j < out.len() implies (#[trigger] out[i]).0 != (
        #[trigger] out[j]).0 by {
            assert(out[i].0 == pairs[i].0 && out[j].0 == pairs[j].0);
        }
    } else {
        assert forall|i: int, j: int| 0 <= i < j < out.len() implies (#[trigger] out[i]).0 != (
        #[trigger] out[j]).0 by {
            if j == pairs.len() {
                assert(out[j].0 == k);
                assert(pairs[i].0 != k);
            }
        }
    }
}

/// Inserts a JSON binding, replacing in place when the name is already bound.
#[verifier::loop_isolation(false)]
fn jstr_insert(pairs: &mut Vec<(String, String)>, k: String, v: String)
    ensures
        jstr_model(final(pairs)@) == jstr_update(jstr_model(old(pairs)@), k@, v@),
{
    proof {
        lemma_jstr_model_index(pairs@);
        lemma_jkey_index(jstr_model(pairs@), k@);
    }
    let ghost orig = jstr_model(pairs@);
    let n = pairs.len();
    let mut i: usize = 0;
    while i < n
        invariant
            0 <= i <= n,
            n == pairs@.len(),
            pairs@ == old(pairs)@,
            orig == jstr_model(pairs@),
            orig.len() == n,
            forall|j: int| 0 <= j < n ==> orig[j] == ((#[trigger] pairs@[j]).0@, pairs@[j].1@),
            forall|j: int| 0 <= j < i ==> (#[trigger] orig[j]).0 != k@,
        decreases n - i,
    {
        if pairs[i].0 == k {
            let ghost prev = pairs@;
            let ghost vv = v@;
            let ki = pairs[i].0.clone();
            pairs.set(i, (ki, v));
            proof {
                lemma_jstr_model_index(pairs@);
                assert(jkey_index(orig, k@) == i) by {
                    lemma_jkey_index(orig, k@);
                    if jkey_index(orig, k@) < i {
                        assert(orig[jkey_index(orig, k@)].0 == k@);
                    }
                }
                assert(pairs@[i as int].0@ == k@ && pairs@[i as int].1@ == vv);
                assert(jstr_model(pairs@)[i as int] == (k@, vv));
                assert forall|j: int| 0 <= j < n && j != i implies jstr_model(pairs@)[j]
                    == orig[j] by {
                    assert(pairs@[j] == prev[j]);
                }
                assert(jstr_model(pairs@) =~~= jstr_update(orig, k@, vv));
            }
            return ;
        }
        i = i + 1;
    }
    let ghost prev = pairs@;
    let ghost kv = k@;
    let ghost vv = v@;
    pairs.push((k, v));
    proof {
        lemma_jstr_model_index(pairs@);
        assert(jkey_index(orig, k@) >= orig.len()) by {
            lemma_jkey_index(orig, k@);
            if jkey_index(orig, k@) < orig.len() {
                assert(orig[jkey_index(orig, k@)].0 == k@);
            }
        }
        assert(forall|j: int| 0 <= j < n ==> pairs@[j] == prev[j]);
        assert(pairs@[n as int].0@ == kv && pairs@[n as int].1@ == vv);
        assert(jstr_model(pairs@)[n as int] == (kv, vv));
        assert forall|j: int| 0 <= j < n implies jstr_model(pairs@)[j] == orig[j] by {
            assert(pairs@[j] == prev[j]);
        }
        assert(jstr_model(pairs@) =~~= jstr_update(orig, kv, vv));
    }
}

/// A path is relative in the sense the font guard accepts: it begins `./`.
pub open spec fn starts_rel(s: Seq<char>) -> bool {
    s.len() >= 2 && s[0] == '.' && s[1] == '/'
}

/// A path holds a parent-directory traversal: two dots in a row.
pub open spec fn has_parent(s: Seq<char>) -> bool {
    exists|i: int| 0 <= i && i + 1 < s.len() && #[trigger] s[i] == '.' && #[trigger] s[i + 1] == '.'
}

/// A font path the guard accepts: relative, with no parent traversal.
pub open spec fn path_ok(s: Seq<char>) -> bool {
    starts_rel(s) && !has_parent(s)
}

/// The delimiter byte drawn from the caller's option: the first byte of the
/// given string, or a comma when none is given or the string is empty.
pub open spec fn delim_of(d: Option<String>) -> u8 {
    match d {
        Option::Some(s) => if encode_utf8(s@).len() > 0 {
            encode_utf8(s@)[0]
        } else {
            0x2c
        },
        Option::None => 0x2c,
    }
}

/// The request accumulator: an optional document body, raw JSON bindings,
/// translated variable bindings, and registered font paths. Binding lists
/// keep insertion order and unique names.
pub struct Typst {
    pub body: Option<String>,
    pub json: Vec<(String, String)>,
    pub vars: Vec<(String, Val)>,
    pub fonts: Vec<String>,
}

impl Typst {
    /// A well-formed request: each binding list holds a name at most once.
    pub open spec fn wf(&self) -> bool {
        jkeys_unique(jstr_model(self.json@)) && keys_unique(pairs_model(self.vars@))
    }

    /// A fresh request, optionally with an initial body, with no bindings and
    /// no font registrations.
    pub fn __construct(body: Option<String>) -> (t: Typst)
        ensures
            t.body == body,
            t.json@ =~= Seq::<(String, String)>::empty(),
            t.vars@ =~= Seq::<(String, Val)>::empty(),
            t.fonts@ =~= Seq::<String>::empty(),
            t.wf(),
    {
        let t = Typst { body, json: Vec::new(), vars: Vec::new(), fonts: Vec::new() };
        proof {
            assert(jstr_model(t.json@) =~= Seq::<(Seq<char>, Seq<char>)>::empty());
            assert(crate::value::pairs_model(t.vars@) =~= Seq::<(Seq<char>, crate::value::ValModel)>::empty());
        }
        t
    }

    /// Replaces the document body.
    pub fn body(&mut self, body: String)
        ensures
            final(self).body == Some(body),
            final(self).json == old(self).json,
            final(self).vars == old(self).vars,
            final(self).fonts == old(self).fonts,
            old(self).wf() ==> final(self).wf(),
    {
        self.body = Some(body);
    }

    /// Records a raw JSON binding under `key`, replacing any earlier one.
    pub fn json(&mut self, key: String, value: String)
        ensures
            jstr_model(final(self).json@) == jstr_update(
                jstr_model(old(self).json@),
                key@,
                value@,
            ),
            final(self).body == old(self).body,
            final(self).vars == old(self).vars,
            final(self).fonts == old(self).fonts,
            old(self).wf() ==> final(self).wf(),
    {
        let ghost orig = jstr_model(self.json@);
        let ghost kv = key@;
        let ghost vv = value@;
        jstr_insert(&mut self.json, key, value);
        proof {
            if jkeys_unique(orig) {
                lemma_jstr_update_unique(orig, kv, vv);
            }
        }
    }

    /// Translates CSV text at once and stores the result as a variable
    /// binding under `key`. The delimiter is the first byte of the given
    /// string (a comma by default); headers are off by default.
    pub fn csv(
        &mut self,
        key: String,
        value: String,
        delimiter: Option<String>,
        use_headers: Option<bool>,
    )
        ensures
            pairs_model(final(self).vars@) == dict_update(
                pairs_model(old(self).vars@),
                key@,
                csv_value_of(
                    csv_rows_of(value@, delim_of(delimiter)),
                    use_headers == Some(true),
                ),
            ),
            final(self).body == old(self).body,
            final(self).json == old(self).json,
            final(self).fonts == old(self).fonts,
            old(self).wf() ==> final(self).wf(),
    {
        let real_delimiter: u8 = match &delimiter {
            Some(d) => {
                let db = d.as_str().as_bytes_vec();
                if db.len() > 0 {
                    db[0]
                } else {
                    0x2c
                }
            },
            None => 0x2c,
        };
        let real_use_headers: bool = match use_headers {
            Some(u) => u,
            None => false,
        };
        assert(real_delimiter == delim_of(delimiter));
        assert(real_use_headers == (use_headers == Some(true)));
        let ghost orig = pairs_model(self.vars@);
        let ghost kv = key@;
        let v = csv_value(value.as_str(), real_delimiter, real_use_headers);
        let ghost vm = crate::value::val_model(v);
        crate::value::dict_insert(&mut self.vars, key, v);
        proof {
            if keys_unique(orig) {
                lemma_dict_update_unique(orig, kv, vm);
            }
        }
    }

    /// Translates a host value at once and stores it as a variable binding
    /// under `key`; a host value holding an invalid string is rejected and
    /// binds nothing.
    pub fn var(&mut self, key: String, value: &HostValue) -> (r: Result<(), BridgeError>)
        ensures
            t_spec(value.deep_view()) matches Some(m) ==> (r is Ok && pairs_model(
                final(self).vars@,
            ) == dict_update(pairs_model(old(self).vars@), key@, m)),
            t_spec(value.deep_view()) is None ==> (r matches Err(BridgeError::BadValue)
                && *final(self) == *old(self)),
            final(self).body == old(self).body,
            final(self).json == old(self).json,
            final(self).fonts == old(self).fonts,
            old(self).wf() ==> final(self).wf(),
    {
        match translate(value) {
            Ok(v) => {
                let ghost orig = pairs_model(self.vars@);
                let ghost kv = key@;
                let ghost vm = crate::value::val_model(v);
                crate::value::dict_insert(&mut self.vars, key, v);
                proof {
                    if keys_unique(orig) {
                        lemma_dict_update_unique(orig, kv, vm);
                    }
                }
                Ok(())
            },
            Err(e) => Err(e),
        }
    }

    /// Registers a font path. A path is accepted exactly when it begins `./`
    /// and holds no `..`; an absolute or otherwise non-relative path fails
    /// first, a parent traversal second. Registration keeps order.
    #[verifier::loop_isolation(false)]
    pub fn register_font(&mut self, path: String) -> (r: Result<(), BridgeError>)
        ensures
            !starts_rel(path@) ==> (r matches Err(
                BridgeError::BadPath(PathFault::NotRelative),
            ) && *final(self) == *old(self)),
            starts_rel(path@) && has_parent(path@) ==> (r matches Err(
                BridgeError::BadPath(PathFault::ParentTraversal),
            ) && *final(self) == *old(self)),
            path_ok(path@) ==> (r is Ok && final(self).fonts@ == old(self).fonts@.push(path)
                && final(self).body == old(self).body && final(self).json == old(self).json
                && final(self).vars == old(self).vars),
            old(self).wf() ==> final(self).wf(),
    {
        let n = path.as_str().unicode_len();
        let rel: bool = n >= 2 && path.as_str().get_char(0) == '.' && path.as_str().get_char(1)
            == '/';
        if !rel {
            return Err(BridgeError::BadPath(PathFault::NotRelative));
        }
        let mut has_dots = false;
        let mut i: usize = 0;
        while i + 1 < n
            invariant
                n == path@.len(),
                0 <= i,
                i + 1 <= n,
                has_dots == exists|j: int|
                    0 <= j && j + 1 < i + 1 && #[trigger] path@[j] == '.' && #[trigger] path@[j
                        + 1] == '.',
            decreases n - i,
        {
            if path.as_str().get_char(i) == '.' && path.as_str().get_char(i + 1) == '.' {
                has_dots = true;
            }
            i = i + 1;
        }
        proof {
            if has_parent(path@) {
                let j = choose|j: int|
                    0 <= j && j + 1 < path@.len() && #[trigger] path@[j] == '.'
                        && #[trigger] path@[j + 1] == '.';
                assert(j + 1 < i + 1);
            }
        }
        if has_dots {
            Err(BridgeError::BadPath(PathFault::ParentTraversal))
        } else {
            self.fonts.push(path);
            Ok(())
        }
    }

    /// The CMYK descriptor for these channels.
    pub fn cmyk(c: u8, m: u8, y: u8, k: u8) -> (r: TypstCMYK)
        ensures
            r == (TypstCMYK { c, m, y, k }),
    {
        TypstCMYK { c, m, y, k }
    }

    /// The RGBA descriptor for these channels; a missing alpha defaults to
    /// fully opaque.
    pub fn rgba(r: u8, g: u8, b: u8, a: Option<u8>) -> (c: TypstRGBA)
        ensures
            c.r == r && c.g == g && c.b == b,
            c.a == if a is Some {
                a->0
            } else {
                255u8
            },
    {
        TypstRGBA {
            r,
            g,
            b,
            a: match a {
                Some(al) => al,
                None => 255,
            },
        }
    }

    /// The luma descriptor for this lightness.
    pub fn luma(luma: u8) -> (r: TypstLuma)
        ensures
            r == (TypstLuma { luma }),
    {
        TypstLuma { luma }
    }

    /// The document body, when one was set; compiling without one is the
    /// request's one precondition, and this is where it fails.
    pub fn ready_body(&self) -> (r: Result<&String, BridgeError>)
        ensures
            self.body matches Some(b) ==> (r matches Ok(rb) && rb == b),
            self.body is None ==> r matches Err(BridgeError::NoBody),
    {
        match &self.body {
            Some(b) => Ok(b),
            None => Err(BridgeError::NoBody),
        }
    }
}

} // verus!
