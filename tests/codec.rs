use tauri_plugin_libsql::codec::{
    decode_row, json_to_params, json_to_sql, value_to_json, JsonNumber, JsonValue, SqlValue,
};
use tauri_plugin_libsql::error::Error;

fn num(n: u64) -> JsonValue {
    JsonValue::Number(JsonNumber::PosInt(n))
}

#[test]
fn insert_then_read_back_row_values() {
    let values = vec![
        JsonValue::Null,
        JsonValue::Bool(true),
        num(3),
        JsonValue::Number(JsonNumber::Float(3.5f64.to_bits())),
        JsonValue::String("x".to_string()),
        JsonValue::Array(vec![num(1), num(2), num(3)]),
    ];
    let texts = vec![
        "null".to_string(),
        "true".to_string(),
        "3".to_string(),
        "3.5".to_string(),
        "\"x\"".to_string(),
        "[1,2,3]".to_string(),
    ];
    let params = json_to_params(values, texts);
    assert_eq!(
        params,
        vec![
            SqlValue::Null,
            SqlValue::Integer(1),
            SqlValue::Integer(3),
            SqlValue::Real(3.5f64.to_bits()),
            SqlValue::Text("x".to_string()),
            SqlValue::Blob(vec![1, 2, 3]),
        ]
    );
    let names: Vec<Option<String>> = ["a", "b", "c", "d", "e", "f"]
        .iter()
        .map(|n| Some(n.to_string()))
        .collect();
    let row = decode_row(names, params).unwrap();
    let got: Vec<JsonValue> = row.into_iter().map(|(_, v)| v).collect();
    assert_eq!(
        got,
        vec![
            JsonValue::Null,
            num(1),
            num(3),
            JsonValue::Number(JsonNumber::Float(3.5f64.to_bits())),
            JsonValue::String("x".to_string()),
            JsonValue::Array(vec![num(1), num(2), num(3)]),
        ]
    );
}

#[test]
fn byte_array_round_trips_through_blob() {
    let bytes: Vec<u8> = vec![0, 7, 128, 255];
    let arr = JsonValue::Array(bytes.iter().map(|b| num(*b as u64)).collect());
    let stored = json_to_sql(arr, "[0,7,128,255]".to_string());
    assert_eq!(stored, SqlValue::Blob(bytes.clone()));
    let back = value_to_json(stored).unwrap();
    assert_eq!(back, JsonValue::Array(bytes.iter().map(|b| num(*b as u64)).collect()));
}

#[test]
fn mixed_array_reads_back_as_text() {
    let arr = JsonValue::Array(vec![num(1), JsonValue::String("a".to_string())]);
    let stored = json_to_sql(arr, "[1,\"a\"]".to_string());
    assert_eq!(stored, SqlValue::Text("[1,\"a\"]".to_string()));
    assert_eq!(value_to_json(stored).unwrap(), JsonValue::String("[1,\"a\"]".to_string()));
}

#[test]
fn object_is_stored_as_text() {
    let obj = JsonValue::Object(vec![("k".to_string(), num(1))]);
    assert_eq!(json_to_sql(obj, "{\"k\":1}".to_string()), SqlValue::Text("{\"k\":1}".to_string()));
}

#[test]
fn numbers_map_to_integer_or_real() {
    assert_eq!(json_to_sql(JsonValue::Bool(false), String::new()), SqlValue::Integer(0));
    assert_eq!(
        json_to_sql(JsonValue::Number(JsonNumber::NegInt(-5)), String::new()),
        SqlValue::Integer(-5)
    );
    assert_eq!(json_to_sql(num(i64::MAX as u64), String::new()), SqlValue::Integer(i64::MAX));
    for n in [1u64 << 63, u64::MAX, (1u64 << 63) + 1025, (1u64 << 63) + 3072, 18_000_000_000_000_000_123] {
        assert_eq!(json_to_sql(num(n), String::new()), SqlValue::Real((n as f64).to_bits()));
    }
}

#[test]
fn array_bytes_truncate_every_element() {
    let arr = JsonValue::Array(vec![
        num(300),
        JsonValue::Number(JsonNumber::NegInt(-1)),
        JsonValue::Number(JsonNumber::Float(1.5f64.to_bits())),
        num(2),
    ]);
    assert_eq!(json_to_sql(arr, String::new()), SqlValue::Blob(vec![44, 255, 1, 2]));
}

#[test]
fn float_elements_become_low_byte_of_integer_part() {
    // Each of these has an integer part that fits in i128, so the cast below
    // gives its exact low byte.
    let floats = [-1.5f64, 300.7, 0.3, -0.0, 255.99, -256.5, -257.2, 1e20, -1e20, 4503599627370497.0];
    let arr = JsonValue::Array(floats.iter().map(|f| JsonValue::Number(JsonNumber::Float(f.to_bits()))).collect());
    let expected: Vec<u8> = floats.iter().map(|f| ((f.trunc() as i128) & 0xff) as u8).collect();
    assert_eq!(expected[..7], [255, 44, 0, 0, 255, 0, 255]);
    assert_eq!(json_to_sql(arr, String::new()), SqlValue::Blob(expected));
    // A huge float is an integer that is a multiple of 256.
    let huge = JsonValue::Array(vec![JsonValue::Number(JsonNumber::Float(1e300f64.to_bits()))]);
    assert_eq!(json_to_sql(huge, String::new()), SqlValue::Blob(vec![0]));
}

#[test]
fn integers_and_floats_decode() {
    assert_eq!(
        value_to_json(SqlValue::Integer(-3)).unwrap(),
        JsonValue::Number(JsonNumber::NegInt(-3))
    );
    assert_eq!(value_to_json(SqlValue::Integer(0)).unwrap(), num(0));
    assert_eq!(
        value_to_json(SqlValue::Real(0.25f64.to_bits())).unwrap(),
        JsonValue::Number(JsonNumber::Float(0.25f64.to_bits()))
    );
    assert_eq!(value_to_json(SqlValue::Blob(vec![])).unwrap(), JsonValue::Array(vec![]));
}

#[test]
fn non_finite_float_is_unsupported() {
    assert_eq!(
        value_to_json(SqlValue::Real(f64::NAN.to_bits())),
        Err(Error::UnsupportedDatatype("Invalid float value: NaN".to_string()))
    );
    assert_eq!(
        value_to_json(SqlValue::Real(f64::INFINITY.to_bits())),
        Err(Error::UnsupportedDatatype("Invalid float value: inf".to_string()))
    );
    assert_eq!(
        value_to_json(SqlValue::Real(f64::NEG_INFINITY.to_bits())),
        Err(Error::UnsupportedDatatype("Invalid float value: -inf".to_string()))
    );
}

#[test]
fn row_keeps_duplicate_names_and_skips_unnamed() {
    let names = vec![Some("id".to_string()), None, Some("id".to_string())];
    let values = vec![SqlValue::Integer(1), SqlValue::Real(f64::NAN.to_bits()), SqlValue::Integer(2)];
    let row = decode_row(names, values).unwrap();
    assert_eq!(row, vec![("id".to_string(), num(1)), ("id".to_string(), num(2))]);
}

#[test]
fn row_with_bad_float_fails() {
    let names = vec![Some("a".to_string()), Some("b".to_string())];
    let values = vec![SqlValue::Null, SqlValue::Real(f64::INFINITY.to_bits())];
    assert!(matches!(decode_row(names, values), Err(Error::UnsupportedDatatype(_))));
}
