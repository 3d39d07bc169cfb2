use dec_utils::{
    dec_to_separated_string, dec_to_string_or_empty, dec_to_usd_string, usd_string_from_money,
    Dec, MAX_MAGNITUDE,
};

fn dec(negative: bool, magnitude: u128, scale: u32) -> Dec {
    Dec::from_parts(negative, magnitude, scale).unwrap()
}

#[test]
fn test_dec_to_string_or_empty() {
    assert_eq!(dec_to_string_or_empty(Some(dec(false, 1024, 3))), "1.024");
    assert_eq!(dec_to_string_or_empty(None), "");
}

#[test]
fn test_dec_to_usd_string() {
    assert_eq!(dec_to_usd_string(dec(false, 1024, 3)), "$1.02");
    assert_eq!(dec_to_usd_string(dec(false, 1026, 3)), "$1.03");
    assert_eq!(dec_to_usd_string(dec(false, 1000026, 3)), "$1,000.03");
}

#[test]
fn test_dec_to_separated_string() {
    assert_eq!(dec_to_separated_string(dec(false, 0, 0), 0), "0");
    assert_eq!(dec_to_separated_string(dec(true, 0, 0), 0), "0");
    assert_eq!(dec_to_separated_string(dec(false, 1, 0), 0), "1");
    assert_eq!(dec_to_separated_string(dec(true, 1, 0), 0), "-1");
    assert_eq!(dec_to_separated_string(dec(false, 11, 1), 0), "1");
    assert_eq!(dec_to_separated_string(dec(false, 1024, 3), 2), "1.02");
    assert_eq!(dec_to_separated_string(dec(false, 1026, 3), 2), "1.03");
    assert_eq!(dec_to_separated_string(dec(false, 999, 0), 0), "999");
    assert_eq!(dec_to_separated_string(dec(true, 999, 0), 0), "-999");
    assert_eq!(dec_to_separated_string(dec(false, 9999, 1), 0), "1,000");
    assert_eq!(dec_to_separated_string(dec(true, 9999, 1), 0), "-1,000");
    assert_eq!(dec_to_separated_string(dec(false, 1000026, 3), 2), "1,000.03");
    assert_eq!(dec_to_separated_string(dec(true, 1000026, 3), 2), "-1,000.03");
}

#[test]
fn string_or_empty_keeps_scale_and_sign() {
    assert_eq!(dec_to_string_or_empty(Some(dec(false, 123, 0))), "123");
    assert_eq!(dec_to_string_or_empty(Some(dec(false, 100, 2))), "1.00");
    assert_eq!(dec_to_string_or_empty(Some(dec(true, 5, 3))), "-0.005");
    assert_eq!(dec_to_string_or_empty(Some(dec(false, 0, 2))), "0.00");
}

#[test]
fn usd_rounds_half_to_even() {
    assert_eq!(dec_to_usd_string(dec(false, 123124, 3)), "$123.12");
    assert_eq!(dec_to_usd_string(dec(false, 123125, 3)), "$123.12");
    assert_eq!(dec_to_usd_string(dec(false, 123135, 3)), "$123.14");
    assert_eq!(dec_to_usd_string(dec(false, 123126, 3)), "$123.13");
}

#[test]
fn usd_negative_and_whole_amounts() {
    assert_eq!(dec_to_usd_string(dec(true, 1024, 3)), "-$1.02");
    assert_eq!(dec_to_usd_string(dec(false, 5, 0)), "$5.00");
    assert_eq!(dec_to_usd_string(dec(true, 1, 3)), "$0.00");
}

#[test]
fn usd_line_from_money_outcome() {
    assert_eq!(usd_string_from_money("1.02", Ok("$1.02".to_string())), "$1.02");
    assert_eq!(
        usd_string_from_money("1.02", Err("Amount not parsable".to_string())),
        "(1.02 Amount not parsable)"
    );
    assert_eq!(usd_string_from_money("", Err(String::new())), "( )");
}

#[test]
fn separated_scenarios() {
    assert_eq!(dec_to_separated_string(dec(false, 123456126, 3), 2), "123,456.13");
    assert_eq!(dec_to_separated_string(dec(true, 123456126, 3), 2), "-123,456.13");
    assert_eq!(dec_to_separated_string(dec(false, 123125, 3), 2), "123.12");
}

#[test]
fn separated_never_negative_zero() {
    assert_eq!(dec_to_separated_string(dec(true, 4, 1), 0), "0");
    assert_eq!(dec_to_separated_string(dec(true, 1, 3), 2), "0.00");
    assert_eq!(dec_to_separated_string(dec(true, 5, 1), 0), "0");
    assert_eq!(dec_to_separated_string(dec(true, 0, 2), 2), "0.00");
}

#[test]
fn separated_rounding_carry() {
    assert_eq!(dec_to_separated_string(dec(false, 999999995, 3), 2), "1,000,000.00");
    assert_eq!(dec_to_separated_string(dec(true, 999999995, 3), 2), "-1,000,000.00");
    assert_eq!(dec_to_separated_string(dec(false, 995, 1), 0), "100");
    assert_eq!(dec_to_separated_string(dec(false, 25, 1), 0), "2");
    assert_eq!(dec_to_separated_string(dec(false, 35, 1), 0), "4");
}

#[test]
fn separated_keeps_fewer_places() {
    assert_eq!(dec_to_separated_string(dec(false, 1, 0), 2), "1");
    assert_eq!(dec_to_separated_string(dec(false, 11, 1), 2), "1.1");
    assert_eq!(dec_to_separated_string(dec(false, 100, 2), 2), "1.00");
    assert_eq!(dec_to_separated_string(dec(false, 105, 2), 5), "1.05");
    assert_eq!(dec_to_separated_string(dec(false, 1234, 3), 0), "1");
}

#[test]
fn separated_grouping_counts() {
    assert_eq!(dec_to_separated_string(dec(false, 12, 0), 0), "12");
    assert_eq!(dec_to_separated_string(dec(false, 123, 0), 0), "123");
    assert_eq!(dec_to_separated_string(dec(false, 1234, 0), 0), "1,234");
    assert_eq!(dec_to_separated_string(dec(false, 123456, 0), 0), "123,456");
    assert_eq!(dec_to_separated_string(dec(false, 1234567, 0), 0), "1,234,567");
    assert_eq!(
        dec_to_separated_string(dec(false, MAX_MAGNITUDE, 0), 0),
        "79,228,162,514,264,337,593,543,950,335"
    );
    assert_eq!(
        dec_to_separated_string(dec(true, MAX_MAGNITUDE, 28), 28),
        "-7.9228162514264337593543950335"
    );
}

#[test]
fn separated_is_idempotent() {
    let first = dec_to_separated_string(dec(true, 123456126, 3), 2);
    assert_eq!(first, "-123,456.13");
    let again = dec_to_separated_string(dec(true, 12345613, 2), 2);
    assert_eq!(again, first);
    assert_eq!(dec_to_string_or_empty(Some(dec(true, 12345613, 2))), first.replace(',', ""));
}

#[test]
fn from_parts_limits() {
    assert!(Dec::from_parts(false, MAX_MAGNITUDE, 28).is_some());
    assert!(Dec::from_parts(false, MAX_MAGNITUDE + 1, 0).is_none());
    assert!(Dec::from_parts(true, 1, 29).is_none());
}
