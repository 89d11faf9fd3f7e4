use typst_php::error::BridgeError;
use typst_php::host::{translate, HostKey, HostValue};
use typst_php::value::{ColorVal, Val};

fn same_val(a: &Val, b: &Val) -> bool {
    match (a, b) {
        (Val::Nil, Val::Nil) => true,
        (Val::Bool(x), Val::Bool(y)) => x == y,
        (Val::Int(x), Val::Int(y)) => x == y,
        (Val::Float(x), Val::Float(y)) => x == y,
        (Val::Str(x), Val::Str(y)) => x == y,
        (Val::Array(xs), Val::Array(ys)) => {
            xs.len() == ys.len() && xs.iter().zip(ys.iter()).all(|(x, y)| same_val(x, y))
        }
        (Val::Dict(xs), Val::Dict(ys)) => {
            xs.len() == ys.len()
                && xs
                    .iter()
                    .zip(ys.iter())
                    .all(|(x, y)| x.0 == y.0 && same_val(&x.1, &y.1))
        }
        (Val::Color(x), Val::Color(y)) => x == y,
        _ => false,
    }
}

#[test]
fn scalars_translate_to_themselves() {
    assert!(matches!(translate(&HostValue::Undefined), Ok(Val::Nil)));
    assert!(matches!(translate(&HostValue::Null), Ok(Val::Nil)));
    assert!(matches!(translate(&HostValue::Void), Ok(Val::Nil)));
    assert!(matches!(translate(&HostValue::Other), Ok(Val::Nil)));
    assert!(matches!(translate(&HostValue::False), Ok(Val::Bool(false))));
    assert!(matches!(translate(&HostValue::True), Ok(Val::Bool(true))));
    assert!(matches!(translate(&HostValue::Bool(true)), Ok(Val::Bool(true))));
    assert!(matches!(translate(&HostValue::Long(42)), Ok(Val::Int(42))));
    assert!(matches!(
        translate(&HostValue::Long(i64::MIN)),
        Ok(Val::Int(i64::MIN))
    ));
    let bits = 2.5f64.to_bits();
    assert!(matches!(translate(&HostValue::Double(bits)), Ok(Val::Float(b)) if b == bits));
}

#[test]
fn utf8_string_translates() {
    let v = translate(&HostValue::Str("héllo".as_bytes().to_vec())).unwrap();
    assert!(matches!(v, Val::Str(s) if s == "héllo"));
}

#[test]
fn invalid_utf8_string_fails_with_bad_value() {
    let r = translate(&HostValue::Str(vec![0x66, 0xff, 0x67]));
    assert!(matches!(r, Err(BridgeError::BadValue)));
    let e = r.err().unwrap();
    assert_eq!(e.message(), "Host value holds an invalid string.");
}

#[test]
fn contiguous_integer_keys_become_array() {
    let t = HostValue::Table(vec![
        (HostKey::Int(0), HostValue::Long(10)),
        (HostKey::Int(1), HostValue::Long(20)),
        (HostKey::Int(2), HostValue::Str(b"x".to_vec())),
    ]);
    let v = translate(&t).unwrap();
    match v {
        Val::Array(items) => {
            assert_eq!(items.len(), 3);
            assert!(matches!(items[0], Val::Int(10)));
            assert!(matches!(items[1], Val::Int(20)));
            assert!(matches!(&items[2], Val::Str(s) if s == "x"));
        }
        _ => panic!("expected an array"),
    }
}

#[test]
fn gapped_integer_keys_become_dict_with_decimal_keys() {
    let t = HostValue::Table(vec![
        (HostKey::Int(0), HostValue::Long(10)),
        (HostKey::Int(2), HostValue::Long(20)),
        (HostKey::Int(-5), HostValue::Long(30)),
    ]);
    let v = translate(&t).unwrap();
    match v {
        Val::Dict(pairs) => {
            assert_eq!(pairs.len(), 3);
            assert_eq!(pairs[0].0, "0");
            assert_eq!(pairs[1].0, "2");
            assert_eq!(pairs[2].0, "-5");
            assert!(matches!(pairs[2].1, Val::Int(30)));
        }
        _ => panic!("expected a dict"),
    }
}

#[test]
fn string_keys_become_dict_in_insertion_order() {
    let t = HostValue::Table(vec![
        (HostKey::Str("b".to_string()), HostValue::Long(1)),
        (HostKey::Str("a".to_string()), HostValue::Long(2)),
    ]);
    let v = translate(&t).unwrap();
    match v {
        Val::Dict(pairs) => {
            assert_eq!(pairs.len(), 2);
            assert_eq!(pairs[0].0, "b");
            assert_eq!(pairs[1].0, "a");
        }
        _ => panic!("expected a dict"),
    }
}

#[test]
fn duplicate_keys_keep_position_and_take_last_value() {
    let t = HostValue::Table(vec![
        (HostKey::Str("b".to_string()), HostValue::Long(1)),
        (HostKey::Str("a".to_string()), HostValue::Long(2)),
        (HostKey::Str("b".to_string()), HostValue::Long(3)),
    ]);
    let v = translate(&t).unwrap();
    match v {
        Val::Dict(pairs) => {
            assert_eq!(pairs.len(), 2);
            assert_eq!(pairs[0].0, "b");
            assert!(matches!(pairs[0].1, Val::Int(3)));
            assert_eq!(pairs[1].0, "a");
        }
        _ => panic!("expected a dict"),
    }
}

#[test]
fn rgba_object_becomes_color() {
    let o = HostValue::Object {
        class: "RGBA".to_string(),
        props: vec![
            ("r".to_string(), HostValue::Long(10)),
            ("g".to_string(), HostValue::Long(20)),
            ("b".to_string(), HostValue::Long(30)),
            ("a".to_string(), HostValue::Long(40)),
        ],
    };
    let v = translate(&o).unwrap();
    assert!(matches!(
        v,
        Val::Color(ColorVal::Rgba { r: 10, g: 20, b: 30, a: 40 })
    ));
}

#[test]
fn rgba_object_missing_alpha_defaults_to_opaque() {
    let o = HostValue::Object {
        class: "RGBA".to_string(),
        props: vec![
            ("r".to_string(), HostValue::Long(1)),
            ("g".to_string(), HostValue::Long(2)),
            ("b".to_string(), HostValue::Long(3)),
        ],
    };
    let v = translate(&o).unwrap();
    assert!(matches!(
        v,
        Val::Color(ColorVal::Rgba { r: 1, g: 2, b: 3, a: 255 })
    ));
}

#[test]
fn luma_object_becomes_color() {
    let o = HostValue::Object {
        class: "Luma".to_string(),
        props: vec![("l".to_string(), HostValue::Long(128))],
    };
    let v = translate(&o).unwrap();
    assert!(matches!(v, Val::Color(ColorVal::Luma { l: 128 })));
}

#[test]
fn rgba_object_with_out_of_range_channel_becomes_dict() {
    let o = HostValue::Object {
        class: "RGBA".to_string(),
        props: vec![
            ("r".to_string(), HostValue::Long(300)),
            ("g".to_string(), HostValue::Long(2)),
            ("b".to_string(), HostValue::Long(3)),
        ],
    };
    let v = translate(&o).unwrap();
    match v {
        Val::Dict(pairs) => {
            assert_eq!(pairs.len(), 3);
            assert_eq!(pairs[0].0, "r");
            assert!(matches!(pairs[0].1, Val::Int(300)));
        }
        _ => panic!("expected a dict"),
    }
}

#[test]
fn cmyk_object_becomes_dict_of_properties() {
    let o = HostValue::Object {
        class: "CMYK".to_string(),
        props: vec![
            ("c".to_string(), HostValue::Long(1)),
            ("m".to_string(), HostValue::Long(2)),
            ("y".to_string(), HostValue::Long(3)),
            ("k".to_string(), HostValue::Long(4)),
        ],
    };
    let v = translate(&o).unwrap();
    match v {
        Val::Dict(pairs) => {
            assert_eq!(pairs.len(), 4);
            assert_eq!(pairs[0].0, "c");
            assert_eq!(pairs[3].0, "k");
        }
        _ => panic!("expected a dict"),
    }
}

#[test]
fn other_object_becomes_dict_of_properties() {
    let o = HostValue::Object {
        class: "Whatever".to_string(),
        props: vec![("x".to_string(), HostValue::True)],
    };
    let v = translate(&o).unwrap();
    match v {
        Val::Dict(pairs) => {
            assert_eq!(pairs.len(), 1);
            assert_eq!(pairs[0].0, "x");
            assert!(matches!(pairs[0].1, Val::Bool(true)));
        }
        _ => panic!("expected a dict"),
    }
}

#[test]
fn nested_invalid_string_propagates_bad_value() {
    let t = HostValue::Table(vec![(
        HostKey::Int(0),
        HostValue::Table(vec![(HostKey::Int(0), HostValue::Str(vec![0xc0]))]),
    )]);
    assert!(matches!(translate(&t), Err(BridgeError::BadValue)));
}

#[test]
fn translation_is_deterministic() {
    let t = HostValue::Table(vec![
        (HostKey::Str("k".to_string()), HostValue::Double(1.5f64.to_bits())),
        (HostKey::Int(7), HostValue::Str(b"v".to_vec())),
    ]);
    let a = translate(&t).unwrap();
    let b = translate(&t).unwrap();
    assert!(same_val(&a, &b));
}
