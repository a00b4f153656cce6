use flvproxy::json::{array, bool_v, emit, obj, parse, str_v, uint, Json, JsonError, JsonNumber};

#[test]
fn json_round_trips_avclient_envelope() {
    let input = br#"{"from":"ubnt_avclient","functionName":"ubnt_avclient_timeSync","inResponseTo":0,"messageId":79364096,"payload":{"timeDelta":0},"responseExpected":true,"timeStamp":"2026-06-19T15:52:59.817+00:00","to":"UniFiVideo"}"#;
    let value = parse(input).expect("valid JSON");
    let emitted = emit(&value);
    assert_eq!(emitted.as_bytes(), input);
}

#[test]
fn json_parses_uint_without_precision_loss() {
    let value = parse(b"9007199254740993").expect("big uint");
    assert_eq!(value.as_u64(), Some(9_007_199_254_740_993));
}

#[test]
fn json_rejects_trailing_garbage() {
    assert_eq!(parse(b"{} trailing"), Err(JsonError::UnexpectedByte(b't')));
}

#[test]
fn each_error_has_its_text() {
    assert_eq!(parse(b""), Err(JsonError::Eof));
    assert_eq!(parse(b"\"abc"), Err(JsonError::Eof));
    assert_eq!(parse(b"[1;2]"), Err(JsonError::UnexpectedByte(b';')));
    assert_eq!(parse(b"99999999999999999999"), Err(JsonError::InvalidNumber));
    assert_eq!(parse(b"\"\\q\""), Err(JsonError::InvalidEscape));
    assert_eq!(parse(b"\"\\uD800\""), Err(JsonError::InvalidEscape));
    assert_eq!(parse(b"\"\xFF\""), Err(JsonError::InvalidUtf8String));
}

#[test]
fn escapes_name_characters() {
    let value = parse(br#""a\n\t\"\\\/\u00e9""#).expect("valid JSON");
    assert_eq!(value.as_str(), Some("a\n\t\"\\/\u{e9}"));
    assert_eq!(emit(&Json::Str("\u{1}\"".to_string())), "\"\\u0001\\\"\"");
}

#[test]
fn reading_undoes_writing() {
    let value = obj(&[
        ("a", uint(u64::MAX)),
        ("b", array(vec![bool_v(false), Json::Null, str_v("x\u{20ac}\u{1F600}")])),
        ("c", Json::Num(JsonNumber::Int(-5))),
        ("d", Json::Num(JsonNumber::Float("1.5e3".to_string()))),
    ]);
    let text = emit(&value);
    assert_eq!(text, "{\"a\":18446744073709551615,\"b\":[false,null,\"x\u{20ac}\u{1F600}\"],\"c\":-5,\"d\":1.5e3}");
    assert_eq!(parse(text.as_bytes()), Ok(value));
}

#[test]
fn numbers_are_read_as_whole_numbers() {
    let as_u64 = |t: &[u8]| parse(t).expect("a number").as_u64();
    assert_eq!(as_u64(b"1.9"), Some(1));
    assert_eq!(as_u64(b"2e3"), Some(2000));
    assert_eq!(as_u64(b"1e-5"), Some(0));
    assert_eq!(as_u64(b"9007199254740993.0"), Some(9_007_199_254_740_992));
    assert_eq!(as_u64(b"1e400"), Some(u64::MAX));
    assert_eq!(as_u64(b"-1"), None);
    assert_eq!(parse(b"\"5\"").expect("a text").as_u64(), None);
}

#[test]
fn values_are_found_by_key() {
    let value = parse(br#"{"k":true,"s":"t"}"#).expect("valid JSON");
    assert_eq!(value.get("k").and_then(Json::as_bool), Some(true));
    assert_eq!(value.get("s").and_then(Json::as_str), Some("t"));
    assert_eq!(value.get("x"), None);
    assert_eq!(value.duplicate(), value);
}

#[test]
fn numerals_are_taken_or_refused() {
    let float = |t: &str| Ok(Json::Num(JsonNumber::Float(t.to_string())));
    assert_eq!(parse(b"01"), Ok(uint(1)));
    assert_eq!(parse(b"-0"), Ok(Json::Num(JsonNumber::Int(0))));
    assert_eq!(parse(b"-9223372036854775807"), Ok(Json::Num(JsonNumber::Int(-9_223_372_036_854_775_807))));
    assert_eq!(parse(b"-9223372036854775808"), Err(JsonError::InvalidNumber));
    assert_eq!(parse(b"-"), Err(JsonError::InvalidNumber));
    assert_eq!(parse(b"1."), float("1."));
    assert_eq!(parse(b"-.5"), float("-.5"));
    assert_eq!(parse(b"1.e5"), float("1.e5"));
    assert_eq!(parse(b"-."), Err(JsonError::InvalidNumber));
    assert_eq!(parse(b"1e"), Err(JsonError::InvalidNumber));
    assert_eq!(parse(b"1e+"), Err(JsonError::InvalidNumber));
    assert_eq!(parse(b"-e5"), Err(JsonError::InvalidNumber));
    assert_eq!(parse(b".5"), Err(JsonError::UnexpectedByte(b'.')));
    assert_eq!(parse(b"+1"), Err(JsonError::UnexpectedByte(b'+')));
}

#[test]
fn surrogates_come_in_pairs() {
    assert_eq!(parse(br#""\uD83D\uDE00""#).expect("a pair").as_str(), Some("\u{1F600}"));
    assert_eq!(parse(br#""\uD83Dx""#), Err(JsonError::InvalidEscape));
    assert_eq!(parse(br#""\uD83D\u0041""#), Err(JsonError::InvalidEscape));
    assert_eq!(parse(br#""\uDE00""#), Err(JsonError::InvalidEscape));
    assert_eq!(parse(b"\"a\nb\""), Err(JsonError::UnexpectedByte(b'\n')));
}

#[test]
fn a_text_that_ends_early_is_told_so() {
    for text in ["", " ", "{", "{ ", "[", "[1", "[1,", "{\"a\"", "{\"a\":", "{\"a\":1", "{\"a\":1,", "t", "tru", "fals", "nul", "\"a"] {
        assert_eq!(parse(text.as_bytes()), Err(JsonError::Eof), "{}", text);
    }
    assert_eq!(parse(b"trap"), Err(JsonError::UnexpectedByte(b't')));
    assert_eq!(parse(b"trx"), Err(JsonError::UnexpectedByte(b't')));
    assert_eq!(parse(b"[1}"), Err(JsonError::UnexpectedByte(b'}')));
    assert_eq!(parse(b"{1"), Err(JsonError::UnexpectedByte(b'1')));
}

#[test]
fn white_space_around_a_value_is_ignored() {
    assert_eq!(parse(b" \t\r\n7\n\r\t "), Ok(uint(7)));
}
