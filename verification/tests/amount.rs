use themis::Amount;

#[test]
fn test_parse_four_decimals() {
    assert_eq!("1.2345".parse::<Amount>(), Ok(Amount::raw(12345)));
}

#[test]
fn test_parse_fewer_decimals() {
    assert_eq!("1.5".parse::<Amount>(), Ok(Amount::raw(15000)));
}

#[test]
fn test_parse_no_decimal() {
    assert_eq!("100".parse::<Amount>(), Ok(Amount::raw(1000000)));
}

#[test]
fn test_parse_minimum() {
    assert_eq!("0.0001".parse::<Amount>(), Ok(Amount::raw(1)));
}

#[test]
fn test_parse_negative_rejected() {
    assert!("-1.0".parse::<Amount>().is_err());
}

#[test]
fn test_parse_too_many_decimals_rejected() {
    assert!("1.23456".parse::<Amount>().is_err());
}

#[test]
fn test_parse_malformed_rejected() {
    assert!("NaN".parse::<Amount>().is_err());
    assert!("inf".parse::<Amount>().is_err());
    assert!("1e3".parse::<Amount>().is_err());
    assert!("1.2.3".parse::<Amount>().is_err());
}

#[test]
fn test_parse_overflow_rejected() {
    assert!("1844674407370955.1616".parse::<Amount>().is_err());
}

#[test]
fn test_display() {
    assert_eq!(Amount::raw(12345).to_string(), "1.2345");
}

#[test]
fn test_display_pads_decimals() {
    assert_eq!(Amount::raw(15000).to_string(), "1.5000");
}

#[test]
fn amount_test_display_zero() {
    assert_eq!(Amount::raw(0).to_string(), "0.0000");
}

#[test]
fn amount_doc_examples() {
    assert_eq!("1.5".parse::<Amount>().unwrap().to_string(), "1.5000");
    assert_eq!("1.2345".parse::<Amount>().unwrap().to_string(), "1.2345");
    assert_eq!("0.0001".parse::<Amount>().unwrap().to_string(), "0.0001");
    assert_eq!("0.0".parse::<Amount>().unwrap().to_string(), "0.0000");
}

#[test]
fn amount_parse_trims_surrounding_whitespace() {
    assert_eq!(Amount::parse(" 2.5\t"), Ok(Amount::raw(25000)));
    assert_eq!(Amount::parse("\u{3000}7\u{a0}"), Ok(Amount::raw(70000)));
}

#[test]
fn amount_parse_edge_cases() {
    assert!(Amount::parse("").is_err());
    assert!(Amount::parse("   ").is_err());
    assert!(Amount::parse(".5").is_err());
    assert_eq!(Amount::parse("5."), Ok(Amount::raw(50000)));
    assert!(Amount::parse("+5").is_err());
    assert!(Amount::parse("1 000").is_err());
    assert!(Amount::parse("١").is_err());
    assert_eq!(Amount::parse("007.0100"), Ok(Amount::raw(70100)));
}

#[test]
fn amount_parse_largest_value() {
    assert_eq!(
        Amount::parse("1844674407370955.1615"),
        Ok(Amount::raw(u64::MAX))
    );
    assert!(Amount::parse("18446744073709551615").is_err());
    assert!(Amount::parse("99999999999999999999999").is_err());
}

#[test]
fn amount_text_parses_back() {
    for units in [0u64, 1, 9999, 10000, 123456789, u64::MAX] {
        let text = Amount::raw(units).to_string();
        assert_eq!(Amount::parse(&text), Ok(Amount::raw(units)));
    }
}

#[test]
fn amount_arithmetic() {
    assert_eq!(Amount::raw(7).plus(Amount::raw(5)), Amount::raw(12));
    assert_eq!(Amount::raw(7).minus(Amount::raw(5)), Amount::raw(2));
    assert_eq!(Amount::raw(7).as_i128(), 7);
    assert_eq!(Amount::raw(7).units(), 7);
}

#[test]
fn amount_parse_trims_every_kind_of_whitespace() {
    assert_eq!(Amount::parse("\u{2028}\u{85}1\u{205f}\u{c}"), Ok(Amount::raw(10000)));
    assert_eq!(Amount::parse("\n\r\u{2000}3.25\u{200a}\u{1680}"), Ok(Amount::raw(32500)));
    assert!(Amount::parse("\u{200b}1").is_err());
    assert!(Amount::parse("1\u{200b}").is_err());
}
