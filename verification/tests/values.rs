//! Texts, JSON values, collections and instants.
use git_ai::fast_import::display_stream;
use git_ai::json::{parse_json, JsonNumber, JsonValue};
use git_ai::numbers::{seconds_u32, wrap_i64};
use git_ai::text::{decimal_string, non_blank_line_list, white_space};
use git_ai::text_map::{TextMap, TextSet};
use git_ai::transcript::{TimestampWatermark, MAX_SECS, MIN_SECS};

#[test]
fn decimals() {
    assert_eq!(decimal_string(0), "0");
    assert_eq!(decimal_string(9), "9");
    assert_eq!(decimal_string(10), "10");
    assert_eq!(decimal_string(usize::MAX), format!("{}", usize::MAX));
}

#[test]
fn lines_are_trimmed_and_blank_ones_dropped() {
    assert_eq!(non_blank_line_list(""), Vec::<String>::new());
    assert_eq!(non_blank_line_list("\n \n\t\r\n"), Vec::<String>::new());
    assert_eq!(non_blank_line_list("a"), vec!["a"]);
    assert_eq!(non_blank_line_list(" a b \r\n\u{3000}c\u{a0}\nd\n"), vec!["a b", "c", "d"]);
}

#[test]
fn white_space_is_that_of_unicode() {
    for p in 0..0x3100u32 {
        if let Some(c) = char::from_u32(p) {
            assert_eq!(white_space(c), c.is_whitespace(), "character {:x}", p);
        }
    }
}

#[test]
fn json_values_are_read() {
    assert!(matches!(parse_json(" null "), Some(JsonValue::Null)));
    assert!(matches!(parse_json("true"), Some(JsonValue::Bool(true))));
    assert!(matches!(parse_json("7"), Some(JsonValue::Number(JsonNumber::PosInt(7)))));
    assert!(matches!(parse_json("-7"), Some(JsonValue::Number(JsonNumber::NegInt(-7)))));
    match parse_json("2.5") {
        Some(JsonValue::Number(JsonNumber::Float(bits))) => {
            assert_eq!(f64::from_bits(bits), 2.5)
        }
        _ => panic!("no floating-point number"),
    }
    assert!(parse_json("").is_none());
    assert!(parse_json("{").is_none());
    assert!(parse_json("1 2").is_none());
    assert!(parse_json("nul").is_none());
}

#[test]
fn json_objects_and_arrays_are_read_deep() {
    let value = parse_json("{\"a\": [1, {\"b\": \"x\\u00e9\"}], \"a2\": {}, \"c\": -1}").unwrap();
    match value.get(&"a".to_string()) {
        Some(JsonValue::Array(items)) => {
            assert_eq!(items.len(), 2);
            assert_eq!(items[0].as_i64(), Some(1));
            let b = items[1].get(&"b".to_string()).unwrap();
            assert_eq!(b.as_text().unwrap(), "x\u{e9}");
        }
        _ => panic!("no array"),
    }
    assert!(value.get(&"b".to_string()).is_none());
    assert_eq!(value.get(&"c".to_string()).unwrap().as_i64(), Some(-1));
    let copy = value.duplicate();
    assert_eq!(format!("{:?}", copy), format!("{:?}", value));
}

/// Of members with the same name, the last one in the text counts.
#[test]
fn repeated_members_are_read_once() {
    let value = parse_json("{\"a\": 1, \"a\": 2}").unwrap();
    assert_eq!(value.get(&"a".to_string()).unwrap().as_i64(), Some(2));
    match value {
        JsonValue::Object(members) => assert_eq!(members.len(), 1),
        _ => panic!("no object"),
    }
}

#[test]
fn json_values_are_made() {
    assert!(matches!(JsonValue::from_optional_text(None), JsonValue::Null));
    assert!(matches!(JsonValue::from_optional_integer(None), JsonValue::Null));
    assert!(matches!(JsonValue::from_optional_float(None), JsonValue::Null));
    assert!(matches!(
        JsonValue::from_integer(0),
        JsonValue::Number(JsonNumber::PosInt(0))
    ));
    assert!(matches!(
        JsonValue::from_integer(i64::MIN),
        JsonValue::Number(JsonNumber::NegInt(i64::MIN))
    ));
    assert_eq!(JsonValue::Number(JsonNumber::PosInt(u64::MAX)).as_i64(), None);
    assert_eq!(JsonValue::from_integer(i64::MAX).as_i64(), Some(i64::MAX));
    assert!(JsonValue::Bool(true).as_text().is_none());
    assert!(JsonValue::Null.get(&"a".to_string()).is_none());
}

#[test]
fn maps_hold_each_key_once() {
    let mut map: TextMap<u64> = TextMap::new();
    map.insert("a".to_string(), 1);
    map.insert("b".to_string(), 2);
    map.insert("a".to_string(), 3);
    assert_eq!(map.len(), 2);
    assert_eq!(map.get(&"a".to_string()), Some(&3));
    assert_eq!(map.remove(&"b".to_string()), Some(2));
    assert_eq!(map.remove(&"b".to_string()), None);
    assert_eq!(map.into_entries(), vec![("a".to_string(), 3)]);
}

#[test]
fn sets_hold_each_member_once() {
    let mut set = TextSet::new();
    set.insert("a".to_string());
    set.insert("a".to_string());
    set.insert("b".to_string());
    assert_eq!(set.len(), 2);
    assert_eq!(set.items(), &vec!["a".to_string(), "b".to_string()]);
    assert!(set.contains(&"b".to_string()));
    assert!(!set.contains(&"c".to_string()));
}

#[test]
fn integers_wrap() {
    assert_eq!(wrap_i64(5), 5);
    assert_eq!(wrap_i64(u64::MAX), -1);
    assert_eq!(wrap_i64(1 << 63), i64::MIN);
    assert_eq!(seconds_u32(1999), 1);
    assert_eq!(seconds_u32(-1999), u32::MAX);
    assert_eq!(seconds_u32(i64::MIN), (i64::MIN / 1000) as u32);
    assert_eq!(seconds_u32(i64::MAX), (i64::MAX / 1000) as u32);
}

/// The instants are those that have a calendar date.
#[test]
fn instants_have_bounds() {
    assert_eq!(chrono::DateTime::<chrono::Utc>::MIN_UTC.timestamp(), MIN_SECS);
    assert_eq!(chrono::DateTime::<chrono::Utc>::MAX_UTC.timestamp(), MAX_SECS);
    assert!(TimestampWatermark::new(MIN_SECS, 0).is_some());
    assert!(TimestampWatermark::new(MIN_SECS - 1, 0).is_none());
    assert!(TimestampWatermark::new(MAX_SECS, 999_999_999).is_some());
    assert!(TimestampWatermark::new(MAX_SECS + 1, 0).is_none());
    assert!(TimestampWatermark::new(0, 1_500_000_000).is_some());
    assert!(TimestampWatermark::new(MAX_SECS, 1_999_999_999).is_some());
    assert!(TimestampWatermark::new(59, 1_500_000_000).is_some());
    assert!(TimestampWatermark::new(-1, 1_500_000_000).is_some());
    assert!(TimestampWatermark::new(59, 2_000_000_000).is_none());
    assert!(TimestampWatermark::from_millis(MIN_SECS * 1000).is_some());
    assert!(TimestampWatermark::from_millis(MIN_SECS * 1000 - 1).is_none());
    assert!(TimestampWatermark::from_millis(MAX_SECS * 1000 + 999).is_some());
    assert!(TimestampWatermark::from_millis(MAX_SECS * 1000 + 1000).is_none());
    assert!(TimestampWatermark::from_millis(i64::MIN).is_none());
}

#[test]
fn instants_are_counted_in_millis() {
    let millis = |secs, nanos| TimestampWatermark::new(secs, nanos).unwrap().timestamp_millis();
    assert_eq!(millis(0, 0), 0);
    assert_eq!(millis(1, 999_999), 1000);
    assert_eq!(millis(1, 1_000_000), 1001);
    assert_eq!(millis(-1, 999_000_000), -1);
    assert_eq!(millis(59, 1_500_000_000), 60_500);
    assert_eq!(millis(0, 1_500_000_000), 1500);
    assert_eq!(millis(MAX_SECS, 1_999_999_999), MAX_SECS * 1000 + 1999);
    assert_eq!(millis(MIN_SECS, 0), MIN_SECS * 1000);
    let early = TimestampWatermark::from_millis(-1).unwrap();
    assert_eq!(early.parts(), (-1, 999_000_000));
    assert_eq!(early.timestamp_millis(), -1);
}

/// Contents that look like commands are data all the same.
#[test]
fn stream_counts_bytes() {
    let notes = vec![("ab12".to_string(), "\u{1f600}".to_string())];
    assert_eq!(
        display_stream(&notes),
        "blob\nmark :1\ndata 4\n\u{1f600}\nreset refs/notes/ai-display\n\
         commit refs/notes/ai-display\n\
         committer git-ai <git-ai@localhost> 1000000000 +0000\ndata 0\n\
         D ab12\nM 100644 :1 ab12\n\n"
    );
}
