use streamsql::casts::{cast_to_decimal_s, cast_to_decimalN_s, cast_to_decimalN_sN, try_cast_to_decimal_s, cast_to_Date_s, cast_to_Time_s, cast_to_Timestamp_s, cast_to_i8_s, cast_to_i16_s, cast_to_i32_s, cast_to_i64_s, cast_to_i8N_s, cast_to_i16N_s, cast_to_i32N_s, cast_to_i64N_s, cast_to_i32_decimal, cast_to_i64_decimal, cast_to_decimal_i32, cast_to_decimal_i64, cast_to_s_decimal, cast_to_DateN_nullN, cast_to_Date_Date, cast_to_Date_Timestamp, cast_to_ShortIntervalN_nullN, cast_to_ShortInterval_i16, cast_to_ShortInterval_i32, cast_to_ShortInterval_i64, cast_to_ShortInterval_i8, cast_to_TimeN_nullN, cast_to_Time_Time, cast_to_Time_Timestamp, cast_to_TimestampN_nullN, cast_to_Timestamp_Date, cast_to_Timestamp_Timestamp, cast_to_bN_b, cast_to_bN_bN, cast_to_bN_nullN, cast_to_b_b, cast_to_b_bN, cast_to_b_s, cast_to_b_sN, cast_to_bytesN_bytes, cast_to_bytesN_nullN, cast_to_bytes_bytes, cast_to_bytes_bytesN, cast_to_decimalN_b, cast_to_decimalN_bN, cast_to_decimalN_decimal, cast_to_decimalN_decimalN, cast_to_decimalN_nullN, cast_to_decimal_b, cast_to_decimal_bN, cast_to_decimal_decimal, cast_to_decimal_decimalN, cast_to_i64N_LongIntervalN, cast_to_i64N_ShortIntervalN, cast_to_i64_LongInterval, cast_to_i64_ShortInterval, cast_to_i64_Weight, cast_to_i_i32, cast_to_i_i64, cast_to_sN_nullN, cast_to_s_Date, cast_to_s_Time, cast_to_s_Timestamp, cast_to_s_b, cast_to_s_i, cast_to_s_i16, cast_to_s_i32, cast_to_s_i64, cast_to_s_i8, cast_to_s_s, cast_to_s_u, cast_to_u_i32, cast_to_u_i64, decimal_fits, limit_or_size_string, limit_string, size_string, timestamp_from_parts, truncate, try_cast_to_Date_s, try_cast_to_Time_s, try_cast_to_Timestamp_s};
use streamsql::values::{ByteArray, Date, Decimal, LongInterval, ShortInterval, Time, Timestamp};

#[test]
fn boolean_casts() {
    assert!(cast_to_b_b(true));
    assert!(cast_to_b_bN(Some(true)));
    assert_eq!(cast_to_bN_nullN(None), None);
    assert_eq!(cast_to_bN_b(false), Some(false));
    assert_eq!(cast_to_bN_bN(None), None);
    assert!(cast_to_b_s(String::from("  true ")));
    assert!(!cast_to_b_s(String::from("TRUE")));
    assert!(!cast_to_b_s(String::from("yes")));
    assert!(!cast_to_b_sN(Some(String::from("false"))));
}

#[test]
fn date_and_time_casts() {
    assert_eq!(cast_to_Date_Timestamp(Timestamp { milliseconds: 86_400_000 * 3 + 5 }), Date { days: 3 });
    assert_eq!(cast_to_Date_Timestamp(Timestamp { milliseconds: -1 }), Date { days: -1 });
    assert_eq!(cast_to_Time_Timestamp(Timestamp { milliseconds: 86_400_000 + 1_500 }), Time { nanoseconds: 1_500_000_000 });
    assert_eq!(cast_to_Time_Timestamp(Timestamp { milliseconds: -1 }), Time { nanoseconds: 86_399_999_000_000 });
    assert_eq!(cast_to_Timestamp_Date(Date { days: 2 }), Timestamp { milliseconds: 172_800_000 });
    assert_eq!(cast_to_Date_Date(Date { days: 9 }), Date { days: 9 });
    assert_eq!(cast_to_Time_Time(Time { nanoseconds: 1 }), Time { nanoseconds: 1 });
    assert_eq!(cast_to_Timestamp_Timestamp(Timestamp { milliseconds: 4 }), Timestamp { milliseconds: 4 });
    assert_eq!(cast_to_DateN_nullN(None), None);
    assert_eq!(cast_to_TimeN_nullN(None), None);
    assert_eq!(cast_to_TimestampN_nullN(None), None);
}

#[test]
fn interval_and_integer_casts() {
    assert_eq!(cast_to_i64_Weight(-3), -3);
    assert_eq!(cast_to_i64_ShortInterval(ShortInterval { milliseconds: 12 }), 12);
    assert_eq!(cast_to_i64N_ShortIntervalN(None), None);
    assert_eq!(cast_to_i64_LongInterval(LongInterval { months: 14 }), 14);
    assert_eq!(cast_to_i64N_LongIntervalN(Some(LongInterval { months: -2 })), Some(-2));
    assert_eq!(cast_to_ShortInterval_i8(-5), ShortInterval { milliseconds: -5 });
    assert_eq!(cast_to_ShortInterval_i16(300), ShortInterval { milliseconds: 300 });
    assert_eq!(cast_to_ShortInterval_i32(70_000), ShortInterval { milliseconds: 70_000 });
    assert_eq!(cast_to_ShortInterval_i64(1 << 40), ShortInterval { milliseconds: 1 << 40 });
    assert_eq!(cast_to_ShortIntervalN_nullN(None), None);
    assert_eq!(cast_to_u_i32(7), 7usize);
    assert_eq!(cast_to_u_i64(8), 8usize);
    assert_eq!(cast_to_i_i32(-7), -7isize);
    assert_eq!(cast_to_i_i64(-8), -8isize);
}

#[test]
fn binary_casts() {
    let b = ByteArray { bytes: vec![1, 2] };
    assert_eq!(cast_to_bytes_bytes(b.clone()), b);
    assert_eq!(cast_to_bytes_bytesN(Some(b.clone())), b);
    assert_eq!(cast_to_bytesN_bytes(b.clone()), Some(b));
    assert_eq!(cast_to_bytesN_nullN(None), None);
}

#[test]
fn decimal_casts() {
    let v = Decimal::new(-12345678, 4);
    assert_eq!(cast_to_decimal_decimal(v, 6, 2), Decimal::new(-123456, 2));
    assert_eq!(cast_to_decimal_decimal(Decimal::new(15, 1), 5, 3), Decimal::new(15, 1));
    assert_eq!(cast_to_decimal_decimalN(Some(Decimal::new(19, 1)), 2, 0), Decimal::new(1, 0));
    assert_eq!(cast_to_decimalN_decimal(Decimal::new(5, 0), 1, 0), Some(Decimal::new(5, 0)));
    assert_eq!(cast_to_decimalN_decimalN(None, 1, 0), None);
    assert_eq!(cast_to_decimal_b(true, 3, 2).mantissa, 1);
    assert_eq!(cast_to_decimal_b(false, 0, 0).mantissa, 0);
    assert!(!decimal_fits(Decimal::new(100, 0), 2, 0));
    assert!(decimal_fits(Decimal::new(99, 0), 2, 0));
    assert!(!decimal_fits(Decimal::new(1, 0), 1, 2));
}

#[test]
fn sized_and_limited_text() {
    assert_eq!(size_string(String::from("ab"), 4), "ab  ");
    assert_eq!(size_string(String::from("abcdef"), 4), "abcd");
    assert_eq!(size_string(String::from("ab  "), -1), "ab");
    assert_eq!(limit_string(String::from("ab"), 4), "ab");
    assert_eq!(limit_string(String::from("abcdef"), 4), "abcd");
    assert_eq!(limit_string(String::from("ab \t"), -1), "ab");
    assert_eq!(limit_or_size_string(String::from("a"), 3, true), "a  ");
    assert_eq!(limit_or_size_string(String::from("a"), 3, false), "a");
    assert_eq!(truncate(String::from("héllo"), 2), "hé");
}

#[test]
fn values_as_text() {
    assert_eq!(cast_to_s_b(true, -1, false), "true");
    assert_eq!(cast_to_s_b(false, 3, true), "fal");
    assert_eq!(cast_to_s_s(String::from("xyz"), 5, true), "xyz  ");
    assert_eq!(cast_to_s_i(-42, -1, false), "-42");
    assert_eq!(cast_to_s_i8(-128, -1, false), "-128");
    assert_eq!(cast_to_s_i16(0, -1, false), "0");
    assert_eq!(cast_to_s_i32(2147483647, -1, false), "2147483647");
    assert_eq!(cast_to_s_i64(i64::MIN, -1, false), "-9223372036854775808");
    assert_eq!(cast_to_s_u(1234, 2, false), "12");
    assert_eq!(cast_to_sN_nullN(None, 3, true), None);
}

#[test]
fn dates_and_times_as_text() {
    assert_eq!(cast_to_s_Date(Date { days: 13036 }, -1, false), "2005-09-10");
    assert_eq!(cast_to_s_Date(Date { days: -1 }, -1, false), "1969-12-31");
    assert_eq!(cast_to_s_Date(Date { days: 0 }, 4, true), "1970");
    assert_eq!(cast_to_s_Time(Time { nanoseconds: 3_661_500_000_000 }, -1, false), "01:01:01");
    let ts = Timestamp { milliseconds: 86_400_000 * 13036 + 3_661_500 };
    assert_eq!(cast_to_s_Timestamp(ts, -1, false), "2005-09-10 01:01:01");
    assert_eq!(cast_to_s_Timestamp(Timestamp { milliseconds: -1000 }, -1, false), "1969-12-31 23:59:59");
}

#[test]
fn texts_as_dates_and_times() {
    assert_eq!(try_cast_to_Date_s(String::from("2005-09-10")), Some(Date { days: 13036 }));
    assert_eq!(try_cast_to_Date_s(String::from("2005-13-10")), None);
    assert_eq!(try_cast_to_Time_s(String::from("01:01:01.5")), Some(Time { nanoseconds: 3_661_500_000_000 }));
    assert_eq!(try_cast_to_Time_s(String::from("noon")), None);
    let day = 86_400_000 * 13036;
    assert_eq!(
        try_cast_to_Timestamp_s(String::from("2005-09-10 01:01:01.0006")),
        Some(Timestamp { milliseconds: day + 3_661_001 })
    );
    assert_eq!(
        try_cast_to_Timestamp_s(String::from("2005-09-10 01:01:01.0004")),
        Some(Timestamp { milliseconds: day + 3_661_000 })
    );
    assert_eq!(try_cast_to_Timestamp_s(String::from("2005-09-10")), Some(Timestamp { milliseconds: day }));
    assert_eq!(try_cast_to_Timestamp_s(String::from("yesterday")), None);
    assert_eq!(timestamp_from_parts(Some((1, 999_500_000)), Some(5)), Some(Timestamp { milliseconds: 2000 }));
    assert_eq!(timestamp_from_parts(None, Some(1)), Some(Timestamp { milliseconds: 86_400_000 }));
    assert_eq!(timestamp_from_parts(Some((i64::MAX, 0)), None), None);
    assert_eq!(timestamp_from_parts(None, None), None);
}

#[test]
fn decimal_from_booleans() {
    assert_eq!(cast_to_decimal_bN(Some(true), 2, 1), Decimal::new(1, 0));
    assert_eq!(cast_to_decimalN_b(false, 1, 1), Some(Decimal::new(0, 0)));
    assert_eq!(cast_to_decimalN_bN(None, 1, 1), None);
    assert_eq!(cast_to_decimalN_nullN(None, 1, 1), None);
}

#[test]
fn decimals_as_text() {
    assert_eq!(cast_to_s_decimal(Decimal::new(-12345678, 4), -1, false), "-1234.5678");
    assert_eq!(cast_to_s_decimal(Decimal::new(5, 0), -1, false), "5");
    assert_eq!(cast_to_s_decimal(Decimal::new(-5, 2), -1, false), "-0.05");
    assert_eq!(cast_to_s_decimal(Decimal::new(0, 2), 6, true), "0.00  ");
}

#[test]
fn texts_as_integers() {
    assert_eq!(cast_to_i64_s(String::from(" -42 ")), -42);
    assert_eq!(cast_to_i32_s(String::from("+7")), 7);
    assert_eq!(cast_to_i8N_s(String::from("127")), Some(127));
    assert_eq!(cast_to_i8N_s(String::from("128")), None);
    assert_eq!(cast_to_i16N_s(String::from("-32768")), Some(-32768));
    assert_eq!(cast_to_i32N_s(String::from("12x")), None);
    assert_eq!(cast_to_i64N_s(String::from("")), None);
    assert_eq!(cast_to_i64N_s(String::from("-")), None);
    assert_eq!(cast_to_i64N_s(String::from("99999999999999999999999")), None);
    assert_eq!(cast_to_i64N_s(String::from("-9223372036854775808")), Some(i64::MIN));
    assert_eq!(cast_to_i16_s(String::from("300")), 300);
    assert_eq!(cast_to_i8_s(String::from("-1")), -1);
}

#[test]
fn decimals_and_integers() {
    assert_eq!(cast_to_i64_decimal(Decimal::new(-12345678, 4)), -1234);
    assert_eq!(cast_to_i32_decimal(Decimal::new(199, 2)), 1);
    assert_eq!(cast_to_decimal_i32(-12, 4, 1), Decimal::new(-12, 0));
    assert_eq!(cast_to_decimal_i64(7, 1, 0), Decimal::new(7, 0));
}

#[test]
fn required_text_casts() {
    assert_eq!(cast_to_Date_s(String::from("1970-01-02")), Date { days: 1 });
    assert_eq!(cast_to_Time_s(String::from("00:00:01")), Time { nanoseconds: 1_000_000_000 });
    assert_eq!(cast_to_Timestamp_s(String::from("1970-01-01 00:00:01.2")), Timestamp { milliseconds: 1200 });
    assert_eq!(cast_to_Timestamp_s(String::from("1970-01-03")), Timestamp { milliseconds: 2 * 86_400_000 });
}

#[test]
fn texts_as_decimals() {
    assert_eq!(cast_to_decimal_s(String::from(" 1234.5678 "), 6, 2), Decimal::new(123456, 2));
    assert_eq!(cast_to_decimalN_s(String::from("-0.5"), 3, 1), Some(Decimal::new(-5, 1)));
    assert_eq!(cast_to_decimalN_s(String::from("abc"), 3, 1), None);
    assert_eq!(cast_to_decimalN_sN(None, 3, 1), None);
    assert_eq!(try_cast_to_decimal_s(String::from("1234.5678"), 6, 3), None);
    assert_eq!(try_cast_to_decimal_s(String::from("12"), 6, 3), Some(Decimal::new(12, 0)));
    assert!(cast_to_b_s(String::from("\u{3000}true\u{2028}")));
}
