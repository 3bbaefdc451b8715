use rxe::constraints::number::NumberParseError;
use rxe::helper::identify::{IdBox, Identify};
use rxe::prompt::with_color;
use rxe::strmap::StrMap;
use rxe::values::flag::FlagValue;
use rxe::values::text::TextValue;
use rxe::values::Value;

#[test]
fn macro_generates_supposed_map() {
    assert_eq!(StrMap::<i8>::new(), StrMap::new());
    let mut built: StrMap<i8> = StrMap::new();
    built.insert("1".to_string(), 1);
    built.insert("2".to_string(), 2);
    built.insert("3".to_string(), 3);
    assert_eq!(built, {
        let mut map = StrMap::new();
        map.insert("1".to_string(), 1);
        map.insert("2".to_string(), 2);
        map.insert("3".to_string(), 3);
        map
    });
}

#[test]
fn map_insert_replaces_and_get_finds() {
    let mut m: StrMap<i8> = StrMap::new();
    assert_eq!(m.len(), 0);
    m.insert("k".to_string(), 1);
    m.insert("k".to_string(), 2);
    m.insert("other".to_string(), 3);
    assert_eq!(m.len(), 2);
    assert_eq!(m.get("k"), Some(&2));
    assert_eq!(m.get("other"), Some(&3));
    assert_eq!(m.get("missing"), None);
    assert!(m.contains_key("k"));
    assert!(!m.contains_key("missing"));
}

#[test]
fn value_wrappers_hand_back_their_values() {
    assert!(FlagValue::new(true).get());
    assert!(!FlagValue::new(false).get());
    assert_eq!(TextValue::new("hello".to_string()).get(), "hello");
}

#[test]
fn id_boxes_compare_by_identifier_alone() {
    let a = IdBox::new(Box::new(NumberParseError::NumberParseFailure("x".to_string())));
    let b = IdBox::new(Box::new(NumberParseError::NumberParseFailure("y".to_string())));
    assert!(a == b);
    assert_eq!(a.get_identifier(), "NumberParseError::NumberParseFailure");
}

#[test]
fn with_color_wraps_or_passes_through() {
    let plain = "warning";
    let out = with_color(1, plain);
    let colored = format!("\x1b[38;5;1m{}\x1b[m", plain);
    assert!(out == plain || out == colored);

    let out = with_color(214, plain);
    let colored = format!("\x1b[38;5;214m{}\x1b[m", plain);
    assert!(out == plain || out == colored);
}
