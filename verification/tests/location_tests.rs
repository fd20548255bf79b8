use deet::location::{classify_location, parse_address, Location};

#[test]
fn raw_address_bypasses_both_lookups() {
    assert_eq!(parse_address("*0x401020", None, None), Some(0x401020));
    assert_eq!(parse_address("*0x401020", Some(1), Some(2)), Some(0x401020));
    assert_eq!(classify_location("*0x401020"), Location::Address(Some(0x401020)));
}

#[test]
fn bare_integer_is_a_line_first() {
    assert_eq!(classify_location("10"), Location::Line(10));
    assert_eq!(parse_address("10", Some(0x401136), Some(0x999)), Some(0x401136));
    assert_eq!(parse_address("10", Some(0x401136), None), Some(0x401136));
    assert_eq!(parse_address("10", None, Some(0x999)), Some(0x999));
    assert_eq!(parse_address("10", None, None), None);
    assert_eq!(classify_location("+7"), Location::Line(7));
    assert_eq!(classify_location("0"), Location::Line(0));
}

#[test]
fn other_text_is_a_function_name() {
    assert_eq!(classify_location("foo"), Location::Function);
    assert_eq!(parse_address("foo", Some(1), Some(0x401150)), Some(0x401150));
    assert_eq!(parse_address("foo", Some(1), None), None);
    assert_eq!(classify_location(""), Location::Function);
    assert_eq!(classify_location("+"), Location::Function);
    assert_eq!(classify_location("-3"), Location::Function);
    assert_eq!(classify_location("12a"), Location::Function);
    assert_eq!(classify_location("0x10"), Location::Function);
}

#[test]
fn a_number_too_large_for_an_address_is_no_line() {
    assert_eq!(classify_location("18446744073709551615"), Location::Line(usize::MAX));
    assert_eq!(classify_location("18446744073709551616"), Location::Function);
    assert_eq!(classify_location("99999999999999999999999"), Location::Function);
}

#[test]
fn raw_address_forms() {
    assert_eq!(classify_location("*401020"), Location::Address(Some(0x401020)));
    assert_eq!(classify_location("*0X1f"), Location::Address(Some(0x1f)));
    assert_eq!(classify_location("*0xDEADbeef"), Location::Address(Some(0xdeadbeef)));
    assert_eq!(classify_location("*+ff"), Location::Address(Some(0xff)));
    assert_eq!(classify_location("*0x+ff"), Location::Address(Some(0xff)));
    assert_eq!(classify_location("*0"), Location::Address(Some(0)));
    assert_eq!(
        classify_location("*ffffffffffffffff"),
        Location::Address(Some(usize::MAX))
    );
}

#[test]
fn malformed_raw_address_is_never_a_name() {
    assert_eq!(classify_location("*"), Location::Address(None));
    assert_eq!(classify_location("*0x"), Location::Address(None));
    assert_eq!(classify_location("*main"), Location::Address(None));
    assert_eq!(classify_location("*0x0x10"), Location::Address(None));
    assert_eq!(classify_location("*-1"), Location::Address(None));
    assert_eq!(classify_location("*1ffffffffffffffff"), Location::Address(None));
    assert_eq!(parse_address("*main", Some(1), Some(2)), None);
}
