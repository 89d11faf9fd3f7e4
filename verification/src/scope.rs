use vstd::prelude::*;
use vstd::string::StringSliceAdditionalSpecFns;
use vstd::utf8::encode_utf8;

use crate::diag::{get_error_message, render_spec, Diag};
use crate::error::BridgeError;
use crate::json::{json_to_val, json_value, parse_json, parsed_json};
use crate::request::{jstr_model, lemma_jstr_model_index, Typst};
use crate::value::{lemma_pairs_model_index, pairs_model, val_model, ColorVal, Val, ValModel};

use palette::encoding::Srgb;
use palette::luma::Lumaa;
use typst::foundations::Value as TypstValue;
use typst::visualize::Color as TypstColor;

verus! {

#[verifier::external_type_specification]
#[verifier::external_body]
pub struct ExLibrary(typst::Library);

#[verifier::external_type_specification]
#[verifier::external_body]
pub struct ExTypstValue(typst::foundations::Value);

/// The bindings of a library's top-level global scope, each modelled by the
/// translated value it was bound to. A name this crate never bound maps to an
/// arbitrary fixed model value.
pub uninterp spec fn scope_of(lib: typst::Library) -> Map<Seq<char>, ValModel>;

#[verifier::external_type_specification]
#[verifier::external_body]
pub struct ExTypstColor(typst::visualize::Color);

/// Relies on typst's `Color::from_u8` and palette's byte-component `Lumaa`:
/// the typesetter color for the descriptor, each channel scaled from
/// `0..=255` to `0..=1`, in the descriptor's own color space.
#[verifier::external_body]
fn to_typst_color(c: &ColorVal) -> TypstColor {
    match c {
        ColorVal::Rgba { r, g, b, a } => TypstColor::from_u8(*r, *g, *b, *a),
        ColorVal::Luma { l } => TypstColor::Luma(Lumaa::<Srgb, u8>::new(*l, u8::MAX).into_format()),
    }
}

/// Relies on the one-to-one constructors of typst's value algebra: each
/// translated variant becomes the corresponding typesetter value. Floats are
/// rebuilt from their bit pattern by a bit-preserving cast.
#[verifier::external_body]
fn to_typst(v: &Val) -> TypstValue {
    match v {
        Val::Nil => TypstValue::None,
        Val::Bool(b) => TypstValue::Bool(*b),
        Val::Int(i) => TypstValue::Int(*i),
        Val::Float(bits) => TypstValue::Float(bytemuck::cast(*bits)),
        Val::Str(s) => TypstValue::Str(s.as_str().into()),
        Val::Array(items) => TypstValue::Array(items.iter().map(to_typst).collect()),
        Val::Dict(pairs) => TypstValue::Dict(
            pairs.iter().map(|(k, x)| (k.as_str().into(), to_typst(x))).collect(),
        ),
        Val::Color(c) => TypstValue::Color(to_typst_color(c)),
    }
}

/// Relies on `Library::builder().build()`: the typesetter's default library.
#[verifier::external_body]
pub fn new_library() -> typst::Library {
    typst::Library::builder().build()
}

/// Relies on `Scope::bind` on the library's global scope: binds `name` to the
/// translated value (converted by `to_typst`) with a detached span, leaving
/// every other binding as it was.
#[verifier::external_body]
fn bind_value(lib: &mut typst::Library, name: &str, v: &Val)
    ensures
        scope_of(*final(lib)) == scope_of(*old(lib)).insert(name@, v.deep_view()),
{
    lib.global.scope_mut().bind(
        name.into(),
        typst::foundations::Binding::new(to_typst(v), typst::syntax::Span::detached()),
    );
}

/// The scope after the raw JSON bindings are applied in order: a binding
/// whose text parses is bound to its translation, one that does not parse is
/// skipped silently.
pub open spec fn apply_json_spec(
    m: Map<Seq<char>, ValModel>,
    json: Seq<(Seq<char>, Seq<char>)>,
) -> Map<Seq<char>, ValModel>
    decreases json,
{
    if json.len() == 0 {
        m
    } else {
        let m2 = match parsed_json(json[0].1) {
            Option::Some(j) => m.insert(json[0].0, json_value(j)),
            Option::None => m,
        };
        apply_json_spec(m2, json.drop_first())
    }
}

/// The scope after the variable bindings are applied in order,
/// unconditionally.
pub open spec fn apply_vars_spec(
    m: Map<Seq<char>, ValModel>,
    vars: Seq<(Seq<char>, ValModel)>,
) -> Map<Seq<char>, ValModel>
    decreases vars,
{
    if vars.len() == 0 {
        m
    } else {
        apply_vars_spec(m.insert(vars[0].0, vars[0].1), vars.drop_first())
    }
}

/// Adds the request's bindings to the library's global scope: first each JSON
/// binding (parsed, or skipped where parsing fails), then each variable
/// binding, so that variable bindings win on shared names.
#[verifier::loop_isolation(false)]
pub fn apply_request_bindings(lib: &mut typst::Library, req: &Typst)
    ensures
        scope_of(*final(lib)) == apply_vars_spec(
            apply_json_spec(scope_of(*old(lib)), jstr_model(req.json@)),
            pairs_model(req.vars@),
        ),
{
    proof {
        lemma_jstr_model_index(req.json@);
        lemma_pairs_model_index(req.vars@);
    }
    let ghost jm = jstr_model(req.json@);
    let ghost base = scope_of(*lib);
    let n = req.json.len();
    let mut i: usize = 0;
    proof {
        assert(jm.skip(0) =~= jm);
    }
    while i < n
        invariant
            0 <= i <= n,
            apply_json_spec(scope_of(*lib), jm.skip(i as int)) == apply_json_spec(base, jm),
        decreases n - i,
    {
        proof {
            assert(jm.skip(i as int)[0] == jm[i as int]);
            assert(jm.skip(i as int).drop_first() =~= jm.skip(i as int + 1));
        }
        match parse_json(req.json[i].1.as_str()) {
            Some(j) => {
                let v = json_to_val(&j);
                bind_value(lib, req.json[i].0.as_str(), &v);
            },
            None => {
            },
        }
        i = i + 1;
    }
    proof {
        assert(jm.skip(n as int) =~= Seq::empty());
    }
    let ghost mid = scope_of(*lib);
    let ghost pm = pairs_model(req.vars@);
    let vn = req.vars.len();
    let mut k: usize = 0;
    proof {
        assert(pm.skip(0) =~= pm);
    }
    while k < vn
        invariant
            0 <= k <= vn,
            apply_vars_spec(scope_of(*lib), pm.skip(k as int)) == apply_vars_spec(mid, pm),
        decreases vn - k,
    {
        proof {
            assert(pm.skip(k as int)[0] == pm[k as int]);
            assert(pm.skip(k as int).drop_first() =~= pm.skip(k as int + 1));
        }
        bind_value(lib, req.vars[k].0.as_str(), &req.vars[k].1);
        k = k + 1;
    }
    proof {
        assert(pm.skip(vn as int) =~= Seq::empty());
    }
}

/// Builds the library for one compilation: the typesetter's default library
/// with the request's bindings added as `apply_request_bindings` says.
pub fn make_library(req: &Typst) -> (lib: typst::Library)
    ensures
        exists|base: Map<Seq<char>, ValModel>|
            scope_of(lib) == apply_vars_spec(
                #[trigger] apply_json_spec(base, jstr_model(req.json@)),
                pairs_model(req.vars@),
            ),
{
    let mut lib = new_library();
    let ghost base = scope_of(lib);
    apply_request_bindings(&mut lib, req);
    lib
}

#[verifier::external_type_specification]
#[verifier::external_body]
pub struct ExPagedDocument(typst::layout::PagedDocument);

/// The PDF serialization of a typeset document under default export options,
/// or nothing where the exporter fails; a deterministic function of the
/// document.
pub uninterp spec fn pdf_bytes_of(doc: typst::layout::PagedDocument) -> Option<Seq<u8>>;

/// Relies on `typst_pdf::pdf` with default options: serializes the typeset
/// document to a complete PDF byte buffer, or fails.
#[verifier::external_body]
fn export_pdf(doc: &typst::layout::PagedDocument) -> (r: Result<Vec<u8>, ()>)
    ensures
        r matches Ok(b) ==> pdf_bytes_of(*doc) == Some(b@),
        r is Err ==> pdf_bytes_of(*doc) is None,
{
    match typst_pdf::pdf(doc, &typst_pdf::PdfOptions::default()) {
        Ok(b) => Ok(b),
        Err(_) => Err(()),
    }
}

/// Finishes a compilation from the typesetter's outcome: a typeset document
/// is exported to PDF bytes; export failure yields the rendered warnings as
/// an export error; a failed compilation yields the rendered diagnostics as a
/// typeset error.
pub fn finish_compile(
    body: &str,
    outcome: Result<typst::layout::PagedDocument, Vec<Diag>>,
    warnings: Vec<Diag>,
) -> (r: Result<Vec<u8>, BridgeError>)
    requires
        body.spec_bytes().len() < usize::MAX,
    ensures
        outcome matches Err(ds) ==> (r matches Err(BridgeError::Typeset(m)) && m@ == render_spec(
            encode_utf8(body@),
            ds@,
        )),
        outcome matches Ok(doc) ==> (match pdf_bytes_of(doc) {
            Option::Some(b) => r matches Ok(bytes) && bytes@ == b,
            Option::None => r matches Err(BridgeError::Export(m)) && m@ == render_spec(
                encode_utf8(body@),
                warnings@,
            ),
        }),
{
    match outcome {
        Err(ds) => Err(BridgeError::Typeset(get_error_message(body, &ds))),
        Ok(doc) => match export_pdf(&doc) {
            Ok(b) => Ok(b),
            Err(_) => Err(BridgeError::Export(get_error_message(body, &warnings))),
        },
    }
}

} // verus!
