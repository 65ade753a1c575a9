use worklog::time::{format_duration, parse_duration};

#[test]
fn test_formatting_1s() {
    assert_eq!("1s", format_duration(1));
}

#[test]
fn test_formatting_1m() {
    assert_eq!("1m", format_duration(60));
}

#[test]
fn test_formatting_1h() {
    assert_eq!("1h", format_duration(60 * 60));
}

#[test]
fn test_formatting_complex_1() {
    assert_eq!("651h 43m 55s", format_duration(2346235));
}

#[test]
fn test_formatting_complex_2() {
    assert_eq!("46m", format_duration(2760));
}

#[test]
fn test_formatting_complex_3() {
    assert_eq!("2h 13m", format_duration(7980));
}

#[test]
fn test_formatting_complex_4() {
    assert_eq!("2h 30s", format_duration(7230));
}

#[test]
fn test_formatting_zero_is_empty() {
    assert_eq!("", format_duration(0));
}

#[test]
fn test_formatting_greatest_duration() {
    assert_eq!("1193046h 28m 15s", format_duration(u32::MAX));
}

#[test]
fn test_formatting_round_numbers_keep_their_zeros() {
    assert_eq!("10h 10m 10s", format_duration(36610));
    assert_eq!("100h", format_duration(360000));
}

#[test]
fn test_parsing_each_unit() {
    assert_eq!(parse_duration("1s"), Ok(1));
    assert_eq!(parse_duration("1m"), Ok(60));
    assert_eq!(parse_duration("1h"), Ok(3600));
    assert_eq!(parse_duration("2h 3m 12s"), Ok(2 * 3600 + 3 * 60 + 12));
    assert_eq!(parse_duration("45m"), Ok(2700));
    assert_eq!(parse_duration("1h 15m"), Ok(4500));
}

#[test]
fn test_parsing_sums_repeated_units_in_any_order() {
    assert_eq!(parse_duration("10s 1h 5s 2h"), Ok(3 * 3600 + 15));
    assert_eq!(parse_duration("1h1m1s"), Ok(3661));
    assert_eq!(parse_duration("  7 m"), Ok(420));
    assert_eq!(parse_duration("\t+5h\u{2003}-30m"), Ok(5 * 3600 - 1800));
    assert_eq!(parse_duration("-1s"), Ok(-1));
    assert_eq!(parse_duration("007s"), Ok(7));
}

#[test]
fn test_parsing_ignores_what_follows_the_last_unit() {
    assert_eq!(parse_duration(""), Ok(0));
    assert_eq!(parse_duration("15"), Ok(0));
    assert_eq!(parse_duration("3m 20"), Ok(180));
    assert_eq!(parse_duration("3m and more"), Err(
        "Could not parse time taken from given string '3m and more'".to_string()
    ));
}

#[test]
fn test_parsing_refuses_what_is_no_number() {
    let refused = |text: &str| {
        assert_eq!(
            parse_duration(text),
            Err(format!("Could not parse time taken from given string '{}'", text))
        );
    };
    refused("h");
    refused("xh");
    refused("1.5h");
    refused("1 2m");
    refused("+s");
    refused("-m");
    refused("--1s");
    refused("1h m");
    refused("١s");
    refused("2147483648s");
    refused("-2147483649s");
    refused("99999999999999999999999999999999999999999999s");
}

#[test]
fn test_parsing_at_the_limits() {
    assert_eq!(parse_duration("2147483647s"), Ok(i32::MAX));
    assert_eq!(parse_duration("-2147483648s"), Ok(i32::MIN));
    assert_eq!(parse_duration("596523h 14m 7s"), Ok(i32::MAX));
    assert_eq!(
        parse_duration("596523h 14m 8s"),
        Err("Could not parse time taken from given string '596523h 14m 8s'".to_string())
    );
    assert_eq!(parse_duration("2147483647s 1s -1s"), Ok(i32::MAX));
    assert_eq!(parse_duration("2147483647h -2147483647h 9s"), Ok(9));
}

#[test]
fn test_parsing_what_was_formatted() {
    for seconds in [0u32, 1, 59, 60, 61, 3599, 3600, 3661, 86_400, 2_346_235, i32::MAX as u32] {
        assert_eq!(parse_duration(&format_duration(seconds)), Ok(seconds as i32));
    }
}
