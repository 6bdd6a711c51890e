use ymnab::money::{get_money_from_string, get_total_as_formatted_string};

#[test]
fn test_formatted_string_less_than_100() {
    assert_eq!(get_total_as_formatted_string(12), String::from("£0.12"));
}

#[test]
fn test_formatted_string_more_than_100() {
    assert_eq!(get_total_as_formatted_string(1200), String::from("£12.00"));
}

#[test]
fn test_formatted_string_more_than_1000() {
    assert_eq!(get_total_as_formatted_string(1_200_00), String::from("£1,200.00"));
    assert_eq!(get_total_as_formatted_string(12_200_00), String::from("£12,200.00"));
    assert_eq!(get_total_as_formatted_string(123_200_00), String::from("£123,200.00"));
    // I don't think I need to worry about millionaires, but it's here
    assert_eq!(get_total_as_formatted_string(1_123_200_00), String::from("£1,123,200.00"));
}

#[test]
fn test_get_money_from_string() {
    // no pence
    assert_eq!(get_money_from_string(String::from("1,000")), Ok(1_000_00));
    assert_eq!(get_money_from_string(String::from("1000")), Ok(1_000_00));
    assert_eq!(get_money_from_string(String::from("1100.21")), Ok(1_100_21));
    assert_eq!(get_money_from_string(String::from("10,000")), Ok(10_000_00));
    assert_eq!(get_money_from_string(String::from("10,000.22")), Ok(10_000_22));
    assert_eq!(get_money_from_string(String::from("10000.22")), Ok(10_000_22));
    assert_eq!(get_money_from_string(String::from("00.00")), Ok(0));
    assert_eq!(get_money_from_string(String::from("00")), Ok(0));
    assert_eq!(get_money_from_string(String::from("0")), Ok(0));
    assert_eq!(get_money_from_string(String::from("100,00.22")), Ok(10_000_22));
    assert_eq!(get_money_from_string(String::from("100,00.22")), Ok(10_000_22));
    assert_eq!(get_money_from_string(String::from("abcdefg")), Err("Failed to parse input string"));
}

#[test]
fn test_format_zero_and_boundaries() {
    assert_eq!(get_total_as_formatted_string(0), String::from("£0.00"));
    assert_eq!(get_total_as_formatted_string(9), String::from("£0.09"));
    assert_eq!(get_total_as_formatted_string(99), String::from("£0.99"));
    assert_eq!(get_total_as_formatted_string(100), String::from("£1.00"));
    assert_eq!(get_total_as_formatted_string(99999), String::from("£999.99"));
    assert_eq!(get_total_as_formatted_string(100000), String::from("£1,000.00"));
}

#[test]
fn test_format_groups_at_most_three_times() {
    // the en-us pattern groups the last nine digits only; digits further
    // left stay ungrouped
    assert_eq!(
        get_total_as_formatted_string(100_000_000_000_000),
        String::from("£1000,000,000,000.00")
    );
    assert_eq!(get_total_as_formatted_string(i64::MAX), String::from("£92233720,368,547,758.07"));
}

#[test]
fn test_format_negative_balance() {
    assert_eq!(get_total_as_formatted_string(-1200), String::from("-£12.00"));
    assert_eq!(get_total_as_formatted_string(-12), String::from("-£0.12"));
    assert_eq!(
        get_total_as_formatted_string(i64::MIN),
        String::from("-£92233720,368,547,758.08")
    );
}

#[test]
fn test_parse_format_round_trip() {
    for v in [0i64, 5, 12, 99, 100, 999, 1000, 1200, 120000, 999999999, 1_123_200_00, i64::MAX] {
        let shown = get_total_as_formatted_string(v);
        let typed_back: String = shown.chars().skip(1).collect();
        assert_eq!(get_money_from_string(typed_back), Ok(v));
    }
}

#[test]
fn test_parse_rejections_and_quirks() {
    // an empty input gains ".00" and reads as zero, as does a lone comma
    assert_eq!(get_money_from_string(String::from("")), Ok(0));
    assert_eq!(get_money_from_string(String::from(",")), Ok(0));
    // a lone dot strips away entirely and is rejected
    assert_eq!(get_money_from_string(String::from(".")), Err("Failed to parse input string"));
    assert_eq!(get_money_from_string(String::from("-5")), Err("Failed to parse input string"));
    assert_eq!(get_money_from_string(String::from("£0.12")), Err("Failed to parse input string"));
    // one past i64::MAX pence overflows and is rejected
    assert_eq!(
        get_money_from_string(String::from("92233720368547758.08")),
        Err("Failed to parse input string")
    );
    assert_eq!(get_money_from_string(String::from("92233720368547758.07")), Ok(i64::MAX));
    // leading whitespace is trimmed before reading
    assert_eq!(get_money_from_string(String::from(" 100")), Ok(100_00));
    // a second dot is stripped like any separator, a known quirk
    assert_eq!(get_money_from_string(String::from("12.34.56")), Ok(123456));
}
