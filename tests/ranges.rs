use rvpacker_txt::ranges::{FFlags, RangeErrorKind, SkipEvents, SkipMaps};
use rvpacker_txt::text::IntError;
use std::str::FromStr;

#[test]
fn list_flattens_ranges_in_order() {
    let m = SkipMaps::parse("2,4-6").unwrap();
    assert_eq!(m.0, vec![2, 4, 5, 6]);
}

#[test]
fn list_keeps_written_order_and_repeats() {
    let m = SkipMaps::parse("9,0-2,1").unwrap();
    assert_eq!(m.0, vec![9, 0, 1, 2, 1]);
}

#[test]
fn list_ignores_whitespace_and_empty_tokens() {
    let m = SkipMaps::parse(" 1 , 3-4 ,, \t7\n,").unwrap();
    assert_eq!(m.0, vec![1, 3, 4, 7]);
}

#[test]
fn empty_list_is_empty() {
    assert_eq!(SkipMaps::parse("").unwrap().0, Vec::<u16>::new());
    assert_eq!(SkipMaps::parse(" , ,").unwrap().0, Vec::<u16>::new());
}

#[test]
fn list_bounds_of_u16() {
    assert_eq!(SkipMaps::parse("65535").unwrap().0, vec![65535]);
    assert_eq!(SkipMaps::parse("65534-65535").unwrap().0, vec![65534, 65535]);
    assert_eq!(SkipMaps::parse("+5").unwrap().0, vec![5]);
    assert_eq!(SkipMaps::parse("3-3").unwrap().0, vec![3]);
}

#[test]
fn reversed_range_fails_quoting_token() {
    let e = SkipMaps::parse("1, 5-3 ,8").unwrap_err();
    assert_eq!(e.kind, RangeErrorKind::Reversed);
    assert_eq!(e.token, "5-3");
    let msg = e.message();
    assert_eq!(msg, "Range `5-3` is reversed (start > end)");
    assert!(msg.contains("5-3"));
}

#[test]
fn invalid_integer_error() {
    let e = SkipMaps::parse("1,x2").unwrap_err();
    assert_eq!(e.kind, RangeErrorKind::InvalidInteger(IntError::InvalidDigit));
    assert_eq!(e.message(), "Invalid integer `x2`: invalid digit found in string");
}

#[test]
fn overflow_error() {
    let e = SkipMaps::parse("70000").unwrap_err();
    assert_eq!(e.kind, RangeErrorKind::InvalidInteger(IntError::PosOverflow));
    assert_eq!(e.message(), "Invalid integer `70000`: number too large to fit in target type");
}

#[test]
fn invalid_range_ends() {
    let e = SkipMaps::parse("a-3").unwrap_err();
    assert_eq!(e.kind, RangeErrorKind::InvalidStart(IntError::InvalidDigit));
    assert_eq!(e.token, "a");
    let e = SkipMaps::parse("1-").unwrap_err();
    assert_eq!(e.kind, RangeErrorKind::InvalidEnd(IntError::Empty));
    assert_eq!(e.message(), "Invalid end of range ``: cannot parse integer from empty string");
    let e = SkipMaps::parse("1-2-3").unwrap_err();
    assert_eq!(e.kind, RangeErrorKind::InvalidEnd(IntError::InvalidDigit));
    assert_eq!(e.token, "2-3");
}

#[test]
fn first_bad_token_decides() {
    let e = SkipMaps::parse("q,9-1").unwrap_err();
    assert_eq!(e.kind, RangeErrorKind::InvalidInteger(IntError::InvalidDigit));
    assert_eq!(e.token, "q");
}

#[test]
fn from_str_gives_message() {
    let e = SkipMaps::from_str("4-2").unwrap_err();
    assert_eq!(e, "Range `4-2` is reversed (start > end)");
    assert_eq!(SkipMaps::from_str("1,2").unwrap().0, vec![1, 2]);
}

#[test]
fn sections_in_input_order() {
    let s = SkipEvents::parse("fileA:1,2;fileB:5-6").unwrap();
    assert_eq!(s.0.len(), 2);
    assert_eq!(s.0[0], ("fileA".to_string(), vec![1, 2]));
    assert_eq!(s.0[1], ("fileB".to_string(), vec![5, 6]));
}

#[test]
fn sections_may_repeat_and_skip_empty() {
    let s = SkipEvents::parse(" Actors:1 ;; Actors: 2 , 3 ; ").unwrap();
    assert_eq!(s.0, vec![("Actors".to_string(), vec![1]), ("Actors".to_string(), vec![2, 3])]);
}

#[test]
fn section_without_colon_fails() {
    let e = SkipEvents::parse("Actors:1;Map").unwrap_err();
    assert_eq!(e.kind, RangeErrorKind::MissingColon);
    assert_eq!(e.token, "Map");
    assert!(e.message().contains("Map"));
    assert!(SkipEvents::from_str("Troops").is_err());
}

#[test]
fn section_list_errors_propagate() {
    let e = SkipEvents::parse("Items:7-2").unwrap_err();
    assert_eq!(e.kind, RangeErrorKind::Reversed);
    assert_eq!(e.token, "7-2");
    let e = SkipEvents::parse("Items:1:2").unwrap_err();
    assert_eq!(e.kind, RangeErrorKind::InvalidInteger(IntError::InvalidDigit));
}

#[test]
fn empty_events_input() {
    assert!(SkipEvents::parse("").unwrap().0.is_empty());
}

#[test]
fn flag_names_skip_empty() {
    let names = FFlags::names("map,,Actors,");
    assert_eq!(names, vec!["map", "Actors"]);
    assert!(FFlags::names("").is_empty());
}

#[test]
fn flag_bits_union() {
    assert_eq!(FFlags::from_bits_list(&vec![1, 2, 1 << 11]).0, 0b1000_0000_0011);
    assert_eq!(FFlags::from_bits_list(&vec![]).0, 0);
}
