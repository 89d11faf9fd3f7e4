use typst::diag::{FileError, FileResult, Warned};
use typst::foundations::{Bytes, Datetime};
use typst::layout::PagedDocument;
use typst::syntax::{FileId, Source, VirtualPath};
use typst::text::{Font, FontBook};
use typst::utils::LazyHash;
use typst::{Library, World};
use typst_kit::fonts::{FontSearcher, FontSlot};
use typst_php::diag::Diag;
use typst_php::host::HostValue;
use typst_php::request::Typst;
use typst_php::scope::{finish_compile, make_library};

struct TestWorld {
    library: LazyHash<Library>,
    main: Source,
    book: LazyHash<FontBook>,
    fonts: Vec<FontSlot>,
}

fn build_world(req: &Typst, body: &str) -> TestWorld {
    let found = FontSearcher::new().search_with(req.fonts.iter());
    let file_id = FileId::new(None, VirtualPath::new("./::php_source::"));
    TestWorld {
        library: LazyHash::new(make_library(req)),
        main: Source::new(file_id, body.to_owned()),
        book: LazyHash::new(found.book),
        fonts: found.fonts,
    }
}

impl World for TestWorld {
    fn library(&self) -> &LazyHash<Library> {
        &self.library
    }

    fn main(&self) -> FileId {
        self.main.id()
    }

    fn source(&self, _id: FileId) -> FileResult<Source> {
        Ok(self.main.clone())
    }

    fn book(&self) -> &LazyHash<FontBook> {
        &self.book
    }

    fn font(&self, index: usize) -> Option<Font> {
        self.fonts.get(index).and_then(|slot| slot.get())
    }

    fn file(&self, id: FileId) -> FileResult<Bytes> {
        Err(FileError::NotFound(id.vpath().as_rootless_path().into()))
    }

    fn today(&self, _offset: Option<i64>) -> Option<Datetime> {
        Datetime::from_ymd(1970, 1, 1)
    }
}

fn compile_req(req: &Typst) -> Result<Vec<u8>, String> {
    let body = match req.ready_body() {
        Ok(b) => b.clone(),
        Err(e) => return Err(e.message()),
    };
    let world = build_world(req, &body);
    let Warned { output, warnings } = typst::compile::<PagedDocument>(&world);
    let to_diags = |ds: &[typst::diag::SourceDiagnostic]| -> Vec<Diag> {
        ds.iter()
            .map(|d| Diag {
                message: d.message.to_string(),
                range: world.main.range(d.span).map(|r| (r.start, r.end)),
            })
            .collect()
    };
    let outcome = match output {
        Ok(doc) => Ok(doc),
        Err(es) => Err(to_diags(&es)),
    };
    finish_compile(&body, outcome, to_diags(&warnings)).map_err(|e| e.message())
}

#[test]
fn minimal_body_compiles_to_pdf() {
    let mut t = Typst::__construct(None);
    t.body("= Hello".to_string());
    let pdf = compile_req(&t).unwrap();
    assert!(!pdf.is_empty());
    assert_eq!(&pdf[0..5], b"%PDF-");
}

#[test]
fn var_binding_reaches_document() {
    let mut t = Typst::__construct(Some("= #x".to_string()));
    t.var("x".to_string(), &HostValue::Long(42)).unwrap();
    let pdf = compile_req(&t).unwrap();
    assert_eq!(&pdf[0..5], b"%PDF-");
}

#[test]
fn json_binding_reaches_document() {
    let mut t = Typst::__construct(Some("= #d.name".to_string()));
    t.json("d".to_string(), "{\"name\":\"Ada\"}".to_string());
    let pdf = compile_req(&t).unwrap();
    assert_eq!(&pdf[0..5], b"%PDF-");
}

#[test]
fn invalid_json_binding_is_skipped_and_name_stays_unbound() {
    let mut t = Typst::__construct(Some("= #d".to_string()));
    t.json("d".to_string(), "{broken".to_string());
    let e = compile_req(&t).unwrap_err();
    assert!(e.contains("unknown variable"));
}

#[test]
fn var_binding_wins_over_json_binding() {
    let mut t = Typst::__construct(Some("= #v".to_string()));
    t.json("v".to_string(), "1".to_string());
    t.var("v".to_string(), &HostValue::Long(2)).unwrap();
    let pdf = compile_req(&t).unwrap();
    assert_eq!(&pdf[0..5], b"%PDF-");
}

#[test]
fn csv_binding_reaches_document() {
    let mut t = Typst::__construct(Some("= #t.at(0).name".to_string()));
    t.csv(
        "t".to_string(),
        "name,age\nAda,36\n".to_string(),
        Some(",".to_string()),
        Some(true),
    );
    let pdf = compile_req(&t).unwrap();
    assert_eq!(&pdf[0..5], b"%PDF-");
}

#[test]
fn unknown_variable_reports_line_and_source() {
    let mut t = Typst::__construct(None);
    t.body("= #unknown".to_string());
    let e = compile_req(&t).unwrap_err();
    assert!(e.contains("Typst error on line 1"), "message was: {e}");
    assert!(e.contains("= #unknown"), "message was: {e}");
}

#[test]
fn error_on_later_line_counts_newlines() {
    let mut t = Typst::__construct(None);
    t.body("first\nsecond\n= #unknown".to_string());
    let e = compile_req(&t).unwrap_err();
    assert!(e.contains("Typst error on line 3"), "message was: {e}");
    assert!(e.contains("= #unknown"), "message was: {e}");
}

#[test]
fn compile_without_body_fails_with_no_body() {
    let t = Typst::__construct(None);
    let e = compile_req(&t).unwrap_err();
    assert_eq!(e, "No body for typst compiler");
}

#[test]
fn compile_leaves_request_unchanged() {
    let mut t = Typst::__construct(None);
    t.body("= Hello".to_string());
    t.json("d".to_string(), "{\"name\":\"Ada\"}".to_string());
    t.var("x".to_string(), &HostValue::Long(1)).unwrap();
    t.register_font("./no-such-dir".to_string()).unwrap();
    let body_before = t.body.clone();
    let json_before = t.json.clone();
    let fonts_before = t.fonts.clone();
    let vars_len_before = t.vars.len();
    let _ = compile_req(&t);
    assert_eq!(t.body, body_before);
    assert_eq!(t.json, json_before);
    assert_eq!(t.fonts, fonts_before);
    assert_eq!(t.vars.len(), vars_len_before);
}

#[test]
fn compile_twice_gives_identical_bytes() {
    let mut t = Typst::__construct(None);
    t.body("= Hello twice".to_string());
    let a = compile_req(&t).unwrap();
    let b = compile_req(&t).unwrap();
    assert_eq!(a, b);
}

#[test]
fn color_binding_compiles() {
    let mut t = Typst::__construct(Some("#rect(fill: c)".to_string()));
    t.var(
        "c".to_string(),
        &HostValue::Object {
            class: "RGBA".to_string(),
            props: vec![
                ("r".to_string(), HostValue::Long(255)),
                ("g".to_string(), HostValue::Long(0)),
                ("b".to_string(), HostValue::Long(0)),
            ],
        },
    )
    .unwrap();
    let pdf = compile_req(&t).unwrap();
    assert_eq!(&pdf[0..5], b"%PDF-");
}

#[test]
fn registered_font_path_is_handed_to_search() {
    let mut t = Typst::__construct(Some("= Hello".to_string()));
    t.register_font("./does-not-exist".to_string()).unwrap();
    let pdf = compile_req(&t).unwrap();
    assert_eq!(&pdf[0..5], b"%PDF-");
}
