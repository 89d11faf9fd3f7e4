use typst_php::csv_data::{csv_to_val, csv_value};
use typst_php::diag::{get_error_message, Diag};
use typst_php::host::{translate, HostKey, HostValue};
use typst_php::json::{json_to_val, parse_json, Json};
use typst_php::strutil::{i64_string, u64_string};
use typst_php::value::Val;

fn same_val(a: &Val, b: &Val) -> bool {
    match (a, b) {
        (Val::Nil, Val::Nil) => true,
        (Val::Bool(x), Val::Bool(y)) => x == y,
        (Val::Int(x), Val::Int(y)) => x == y,
        (Val::Float(x), Val::Float(y)) => x == y,
        (Val::Str(x), Val::Str(y)) => x == y,
        (Val::Array(xs), Val::Array(ys)) => {
            xs.len() == ys.len() && xs.iter().zip(ys.iter()).all(|(x, y)| same_val(x, y))
        }
        (Val::Dict(xs), Val::Dict(ys)) => {
            xs.len() == ys.len()
                && xs
                    .iter()
                    .zip(ys.iter())
                    .all(|(x, y)| x.0 == y.0 && same_val(&x.1, &y.1))
        }
        (Val::Color(x), Val::Color(y)) => x == y,
        _ => false,
    }
}

#[test]
fn csv_with_headers_builds_dicts() {
    let v = csv_value("name,age\nAda,36\n", b',', true);
    match v {
        Val::Array(rows) => {
            assert_eq!(rows.len(), 1);
            match &rows[0] {
                Val::Dict(pairs) => {
                    assert_eq!(pairs.len(), 2);
                    assert_eq!(pairs[0].0, "name");
                    assert!(matches!(&pairs[0].1, Val::Str(s) if s == "Ada"));
                    assert_eq!(pairs[1].0, "age");
                    assert!(matches!(&pairs[1].1, Val::Str(s) if s == "36"));
                }
                _ => panic!("expected a dict row"),
            }
        }
        _ => panic!("expected an array"),
    }
}

#[test]
fn csv_without_headers_builds_arrays() {
    let v = csv_value("a,b\nc,d\n", b',', false);
    match v {
        Val::Array(rows) => {
            assert_eq!(rows.len(), 2);
            match &rows[0] {
                Val::Array(cells) => {
                    assert_eq!(cells.len(), 2);
                    assert!(matches!(&cells[0], Val::Str(s) if s == "a"));
                    assert!(matches!(&cells[1], Val::Str(s) if s == "b"));
                }
                _ => panic!("expected an array row"),
            }
        }
        _ => panic!("expected an array"),
    }
}

#[test]
fn csv_custom_delimiter() {
    let v = csv_value("x;y\n1;2\n", b';', true);
    match v {
        Val::Array(rows) => {
            assert_eq!(rows.len(), 1);
            match &rows[0] {
                Val::Dict(pairs) => {
                    assert_eq!(pairs[0].0, "x");
                    assert!(matches!(&pairs[0].1, Val::Str(s) if s == "1"));
                }
                _ => panic!("expected a dict row"),
            }
        }
        _ => panic!("expected an array"),
    }
}

#[test]
fn csv_malformed_row_is_skipped() {
    let v = csv_value("a,b\nonlyone\nc,d\n", b',', false);
    match v {
        Val::Array(rows) => {
            assert_eq!(rows.len(), 2);
        }
        _ => panic!("expected an array"),
    }
}

#[test]
fn csv_empty_text_gives_empty_array() {
    let v = csv_value("", b',', true);
    assert!(matches!(v, Val::Array(rows) if rows.is_empty()));
    let v2 = csv_value("", b',', false);
    assert!(matches!(v2, Val::Array(rows) if rows.is_empty()));
}

#[test]
fn csv_non_utf8_header_cell_becomes_empty_name() {
    let rows = vec![
        Some(vec![vec![0xffu8, 0xfe], b"age".to_vec()]),
        Some(vec![b"Ada".to_vec(), b"36".to_vec()]),
    ];
    let v = csv_to_val(&rows, true);
    match v {
        Val::Array(data) => {
            assert_eq!(data.len(), 1);
            match &data[0] {
                Val::Dict(pairs) => {
                    assert_eq!(pairs[0].0, "");
                    assert_eq!(pairs[1].0, "age");
                }
                _ => panic!("expected a dict row"),
            }
        }
        _ => panic!("expected an array"),
    }
}

#[test]
fn csv_non_utf8_data_row_is_skipped() {
    let rows = vec![
        Some(vec![b"h".to_vec()]),
        Some(vec![vec![0xffu8]]),
        Some(vec![b"ok".to_vec()]),
    ];
    let v = csv_to_val(&rows, true);
    match v {
        Val::Array(data) => {
            assert_eq!(data.len(), 1);
        }
        _ => panic!("expected an array"),
    }
}

#[test]
fn csv_short_and_long_rows_zip_with_headers() {
    let rows = vec![
        Some(vec![b"a".to_vec(), b"b".to_vec()]),
        Some(vec![b"1".to_vec()]),
        Some(vec![b"1".to_vec(), b"2".to_vec(), b"3".to_vec()]),
    ];
    let v = csv_to_val(&rows, true);
    match v {
        Val::Array(data) => {
            assert_eq!(data.len(), 2);
            assert!(matches!(&data[0], Val::Dict(p) if p.len() == 1));
            assert!(matches!(&data[1], Val::Dict(p) if p.len() == 2));
        }
        _ => panic!("expected an array"),
    }
}

#[test]
fn json_parses_scalars_and_numbers() {
    let v = json_to_val(&parse_json("3").unwrap());
    assert!(matches!(v, Val::Int(3)));
    let v = json_to_val(&parse_json("3.5").unwrap());
    assert!(matches!(v, Val::Float(b) if b == 3.5f64.to_bits()));
    let v = json_to_val(&parse_json("null").unwrap());
    assert!(matches!(v, Val::Nil));
    let v = json_to_val(&parse_json("true").unwrap());
    assert!(matches!(v, Val::Bool(true)));
    let v = json_to_val(&parse_json("\"hi\"").unwrap());
    assert!(matches!(v, Val::Str(s) if s == "hi"));
}

#[test]
fn json_large_integer_degrades_to_float() {
    let v = json_to_val(&parse_json("18446744073709551615").unwrap());
    assert!(matches!(v, Val::Float(b) if b == 18446744073709551615f64.to_bits()));
}

#[test]
fn json_invalid_text_gives_nothing() {
    assert!(parse_json("{not json").is_none());
    assert!(parse_json("").is_none());
}

#[test]
fn json_object_and_array_translate() {
    let v = json_to_val(&parse_json("{\"name\":\"Ada\",\"ns\":[1,2]}").unwrap());
    match v {
        Val::Dict(pairs) => {
            assert_eq!(pairs.len(), 2);
            assert_eq!(pairs[0].0, "name");
            assert!(matches!(&pairs[0].1, Val::Str(s) if s == "Ada"));
            match &pairs[1].1 {
                Val::Array(items) => {
                    assert_eq!(items.len(), 2);
                    assert!(matches!(items[0], Val::Int(1)));
                }
                _ => panic!("expected an array"),
            }
        }
        _ => panic!("expected a dict"),
    }
}

#[test]
fn json_agrees_with_host_translation() {
    let j = parse_json("{\"a\":[1,true,\"x\"],\"b\":2.5}").unwrap();
    let via_json = json_to_val(&j);
    let host = HostValue::Table(vec![
        (
            HostKey::Str("a".to_string()),
            HostValue::Table(vec![
                (HostKey::Int(0), HostValue::Long(1)),
                (HostKey::Int(1), HostValue::Bool(true)),
                (HostKey::Int(2), HostValue::Str(b"x".to_vec())),
            ]),
        ),
        (
            HostKey::Str("b".to_string()),
            HostValue::Double(2.5f64.to_bits()),
        ),
    ]);
    let via_host = translate(&host).unwrap();
    assert!(same_val(&via_json, &via_host));
}

#[test]
fn decimal_rendering_is_exact() {
    assert_eq!(u64_string(0), "0");
    assert_eq!(u64_string(907), "907");
    assert_eq!(i64_string(-123), "-123");
    assert_eq!(i64_string(i64::MIN), "-9223372036854775808");
    assert_eq!(i64_string(i64::MAX), "9223372036854775807");
}

#[test]
fn diagnostic_without_range_is_bare_message() {
    let ds = vec![Diag { message: "boom".to_string(), range: None }];
    assert_eq!(get_error_message("body", &ds), "boom");
}

#[test]
fn diagnostic_line_number_counts_newlines() {
    let ds = vec![Diag { message: "bad".to_string(), range: Some((4, 5)) }];
    let m = get_error_message("a\nb\nc", &ds);
    assert_eq!(m, "Typst error on line 3: bad\nc");
}

#[test]
fn diagnostic_on_first_line_includes_line_text() {
    let ds = vec![Diag { message: "oops".to_string(), range: Some((2, 9)) }];
    let m = get_error_message("= #unknown\nrest", &ds);
    assert_eq!(m, "Typst error on line 1: oops\n= #unknown");
}

#[test]
fn diagnostics_join_with_newlines() {
    let ds = vec![
        Diag { message: "one".to_string(), range: None },
        Diag { message: "two".to_string(), range: None },
    ];
    assert_eq!(get_error_message("x", &ds), "one\ntwo");
}

#[test]
fn json_binding_of_unparsed_number_is_nan() {
    let j = parse_json("1e999").map(|p| json_to_val(&p));
    if let Some(v) = j {
        match v {
            Val::Float(b) => {
                assert!(f64::from_bits(b).is_infinite() || f64::from_bits(b).is_nan());
            }
            Val::Int(_) => panic!("expected a float"),
            _ => panic!("expected a number"),
        }
    }
}

#[test]
fn json_nested_structures_round_trip_shape() {
    let j = parse_json("[[],{\"k\":null}]").unwrap();
    match &j {
        Json::Arr(items) => assert_eq!(items.len(), 2),
        _ => panic!("expected an array"),
    }
    let v = json_to_val(&j);
    match v {
        Val::Array(items) => {
            assert!(matches!(&items[0], Val::Array(xs) if xs.is_empty()));
            assert!(matches!(&items[1], Val::Dict(ps) if ps.len() == 1));
        }
        _ => panic!("expected an array"),
    }
}

#[test]
fn line_number_is_one_plus_preceding_newlines() {
    let body: Vec<u8> = b"a\nb\nc".to_vec();
    assert_eq!(typst_php::diag::line_number_at(&body, 0), 1);
    assert_eq!(typst_php::diag::line_number_at(&body, 2), 2);
    assert_eq!(typst_php::diag::line_number_at(&body, 4), 3);
    assert_eq!(typst_php::diag::line_number_at(&body, 999), 3);
}
