use typst_php::error::BridgeError;
use typst_php::host::HostValue;
use typst_php::request::Typst;
use typst_php::value::Val;

#[test]
fn new_request_is_empty() {
    let t = Typst::__construct(None);
    assert!(t.body.is_none());
    assert!(t.json.is_empty());
    assert!(t.vars.is_empty());
    assert!(t.fonts.is_empty());
}

#[test]
fn new_request_takes_initial_body() {
    let t = Typst::__construct(Some("= Hello".to_string()));
    assert_eq!(t.body.as_deref(), Some("= Hello"));
}

#[test]
fn body_setter_replaces_body() {
    let mut t = Typst::__construct(Some("old".to_string()));
    t.body("new".to_string());
    assert_eq!(t.body.as_deref(), Some("new"));
}

#[test]
fn ready_body_fails_without_body() {
    let t = Typst::__construct(None);
    let e = t.ready_body().err().unwrap();
    assert!(matches!(e, BridgeError::NoBody));
    assert_eq!(e.message(), "No body for typst compiler");
}

#[test]
fn json_binding_replaces_same_name() {
    let mut t = Typst::__construct(None);
    t.json("d".to_string(), "{\"a\":1}".to_string());
    t.json("e".to_string(), "2".to_string());
    t.json("d".to_string(), "{\"a\":9}".to_string());
    assert_eq!(t.json.len(), 2);
    assert_eq!(t.json[0].0, "d");
    assert_eq!(t.json[0].1, "{\"a\":9}");
    assert_eq!(t.json[1].0, "e");
}

#[test]
fn var_binding_stores_translation() {
    let mut t = Typst::__construct(None);
    t.var("x".to_string(), &HostValue::Long(42)).unwrap();
    assert_eq!(t.vars.len(), 1);
    assert_eq!(t.vars[0].0, "x");
    assert!(matches!(t.vars[0].1, Val::Int(42)));
}

#[test]
fn var_binding_rejects_invalid_string() {
    let mut t = Typst::__construct(None);
    let r = t.var("x".to_string(), &HostValue::Str(vec![0xff]));
    assert!(matches!(r, Err(BridgeError::BadValue)));
    assert!(t.vars.is_empty());
}

#[test]
fn csv_binding_stores_rows() {
    let mut t = Typst::__construct(None);
    t.csv(
        "t".to_string(),
        "name,age\nAda,36\n".to_string(),
        Some(",".to_string()),
        Some(true),
    );
    assert_eq!(t.vars.len(), 1);
    assert_eq!(t.vars[0].0, "t");
    match &t.vars[0].1 {
        Val::Array(rows) => {
            assert_eq!(rows.len(), 1);
            assert!(matches!(&rows[0], Val::Dict(p) if p.len() == 2));
        }
        _ => panic!("expected an array"),
    }
}

#[test]
fn csv_binding_defaults() {
    let mut t = Typst::__construct(None);
    t.csv("t".to_string(), "1,2\n".to_string(), None, None);
    match &t.vars[0].1 {
        Val::Array(rows) => {
            assert!(matches!(&rows[0], Val::Array(cells) if cells.len() == 2));
        }
        _ => panic!("expected an array"),
    }
}

#[test]
fn register_font_rejects_absolute_path() {
    let mut t = Typst::__construct(None);
    let e = t.register_font("/abs".to_string()).err().unwrap();
    assert!(matches!(
        e,
        BridgeError::BadPath(typst_php::error::PathFault::NotRelative)
    ));
    assert_eq!(e.message(), "Path must be relative.");
    assert!(t.fonts.is_empty());
}

#[test]
fn register_font_rejects_parent_traversal() {
    let mut t = Typst::__construct(None);
    let e = t.register_font("./a/../b".to_string()).err().unwrap();
    assert!(matches!(
        e,
        BridgeError::BadPath(typst_php::error::PathFault::ParentTraversal)
    ));
    assert_eq!(e.message(), "Path attempts to traverse parent.");
    assert!(t.fonts.is_empty());
}

#[test]
fn register_font_accepts_relative_path_in_order() {
    let mut t = Typst::__construct(None);
    t.register_font("./fonts".to_string()).unwrap();
    t.register_font("./more/fonts".to_string()).unwrap();
    assert_eq!(t.fonts, vec!["./fonts".to_string(), "./more/fonts".to_string()]);
}

#[test]
fn register_font_rejects_bare_name() {
    let mut t = Typst::__construct(None);
    assert!(matches!(
        t.register_font("fonts".to_string()),
        Err(BridgeError::BadPath(typst_php::error::PathFault::NotRelative))
    ));
}

#[test]
fn color_descriptor_builders() {
    let c = Typst::cmyk(1, 2, 3, 4);
    assert_eq!((c.c, c.m, c.y, c.k), (1, 2, 3, 4));
    let r = Typst::rgba(5, 6, 7, Some(8));
    assert_eq!((r.r, r.g, r.b, r.a), (5, 6, 7, 8));
    let r2 = Typst::rgba(5, 6, 7, None);
    assert_eq!(r2.a, 255);
    let l = Typst::luma(77);
    assert_eq!(l.luma, 77);
}
