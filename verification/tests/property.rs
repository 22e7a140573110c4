use bdf::Property;
use bdf::extract;

#[test]
fn parses_empty_quoted_string() {
    assert_eq!(Property::parse("\"\""), Property::StringValue(String::new()));
}

#[test]
fn parses_quoted_string_without_escapes() {
    assert_eq!(
        Property::parse("\"hello\""),
        Property::StringValue(String::from("hello"))
    );
}

#[test]
fn parses_quoted_string_with_doubled_quotes() {
    assert_eq!(
        Property::parse("\"he said \"\"hi\"\"\""),
        Property::StringValue(String::from("he said \"hi\""))
    );
}

#[test]
fn parses_quoted_string_of_only_escaped_quote() {
    assert_eq!(
        Property::parse("\"\"\"\""),
        Property::StringValue(String::from("\""))
    );
}

#[test]
fn extract_collapses_doubled_quotes() {
    assert_eq!(extract("\"a\"\"b\""), String::from("a\"b"));
    assert_eq!(extract("\"plain\""), String::from("plain"));
    assert_eq!(extract("\"\""), String::new());
}

#[test]
fn parses_bare_token_as_verbatim_string() {
    assert_eq!(
        Property::parse("ABC"),
        Property::StringValue(String::from("ABC"))
    );
}

#[test]
fn parses_empty_token_as_empty_string() {
    assert_eq!(Property::parse(""), Property::StringValue(String::new()));
}

#[test]
fn parses_plain_integers() {
    assert_eq!(Property::parse("0"), Property::IntegerValue(0));
    assert_eq!(Property::parse("42"), Property::IntegerValue(42));
    assert_eq!(Property::parse("-17"), Property::IntegerValue(-17));
    assert_eq!(Property::parse("+8"), Property::IntegerValue(8));
    assert_eq!(Property::parse("-0"), Property::IntegerValue(0));
}

#[test]
fn parses_integers_with_leading_zeros() {
    assert_eq!(Property::parse("007"), Property::IntegerValue(7));
    assert_eq!(Property::parse("-007"), Property::IntegerValue(-7));
}

#[test]
fn parses_integers_at_the_64_bit_bounds() {
    assert_eq!(
        Property::parse("9223372036854775807"),
        Property::IntegerValue(i64::MAX)
    );
    assert_eq!(
        Property::parse("-9223372036854775808"),
        Property::IntegerValue(i64::MIN)
    );
}

#[test]
fn keeps_out_of_range_integers_as_strings() {
    assert_eq!(
        Property::parse("9223372036854775808"),
        Property::StringValue(String::from("9223372036854775808"))
    );
    assert_eq!(
        Property::parse("-9223372036854775809"),
        Property::StringValue(String::from("-9223372036854775809"))
    );
}

#[test]
fn keeps_malformed_numbers_as_strings() {
    assert_eq!(Property::parse("+"), Property::StringValue(String::from("+")));
    assert_eq!(Property::parse("-"), Property::StringValue(String::from("-")));
    assert_eq!(
        Property::parse("12a"),
        Property::StringValue(String::from("12a"))
    );
    assert_eq!(
        Property::parse(" 12"),
        Property::StringValue(String::from(" 12"))
    );
    assert_eq!(
        Property::parse("1_2"),
        Property::StringValue(String::from("1_2"))
    );
    assert_eq!(
        Property::parse("--3"),
        Property::StringValue(String::from("--3"))
    );
}

#[test]
fn quoted_numbers_stay_strings() {
    assert_eq!(
        Property::parse("\"10\""),
        Property::StringValue(String::from("10"))
    );
}
