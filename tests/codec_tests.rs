use ape_dts::codec::{decode_text, parse_hex_bytes, parse_number, parse_unsigned, push_decimal, value_to_text};
use ape_dts::lsn::{position_to_text, standby_timestamp, PG_EPOCH_UNIX_MICROS};
use ape_dts::model::{ColType, ColValue, DateTimeValue, DateValue, Position, TimeValue};

#[test]
fn decimal_numbers() {
    assert_eq!(parse_number("-128", -128, 127), Some(-128));
    assert_eq!(parse_number("128", -128, 127), None);
    assert_eq!(parse_number("-9223372036854775808", i64::MIN, i64::MAX), Some(i64::MIN));
    assert_eq!(parse_number("99999999999999999999", i64::MIN, i64::MAX), None);
    assert_eq!(parse_number("", 0, 10), None);
    assert_eq!(parse_number("-", -10, 10), None);
    assert_eq!(parse_number("1a", 0, 100), None);
    assert_eq!(parse_unsigned("18446744073709551615", u64::MAX), Some(u64::MAX));
    assert_eq!(parse_unsigned("18446744073709551616", u64::MAX), None);
    let mut s = String::new();
    push_decimal(&mut s, 1204);
    assert_eq!(s, "1204");
}

#[test]
fn hex_bytes() {
    assert_eq!(parse_hex_bytes("\\x00ffA0"), Some(vec![0, 255, 160]));
    assert_eq!(parse_hex_bytes("\\x"), Some(vec![]));
    assert_eq!(parse_hex_bytes("\\x0"), None);
    assert_eq!(parse_hex_bytes("00"), None);
    assert_eq!(value_to_text(&ColValue::Blob(vec![0, 255, 160])), "\\x00ffa0");
}

#[test]
fn wal_text_decoding() {
    assert_eq!(decode_text(ColType::Long, "7"), Some(ColValue::Long(7)));
    assert_eq!(decode_text(ColType::Bool, "t"), Some(ColValue::Bool(true)));
    assert_eq!(decode_text(ColType::Bool, "false"), Some(ColValue::Bool(false)));
    assert_eq!(decode_text(ColType::Bool, "yes"), None);
    assert_eq!(decode_text(ColType::Short, "40000"), None);
    assert_eq!(decode_text(ColType::String, "g"), Some(ColValue::String("g".to_string())));
    assert_eq!(decode_text(ColType::Decimal, "3.14"), Some(ColValue::Decimal("3.14".to_string())));
    assert_eq!(decode_text(ColType::Date, "2023-01-02"), Some(ColValue::Date(DateValue { year: 2023, month: 1, day: 2 })));
    assert_eq!(
        decode_text(ColType::DateTime, "2023-01-02 03:04:05.5"),
        Some(ColValue::DateTime(DateTimeValue { date: DateValue { year: 2023, month: 1, day: 2 }, hour: 3, minute: 4, second: 5, micros: 500000 }))
    );
    assert_eq!(
        decode_text(ColType::DateTime, "2023-01-02 03:04:05"),
        Some(ColValue::DateTime(DateTimeValue { date: DateValue { year: 2023, month: 1, day: 2 }, hour: 3, minute: 4, second: 5, micros: 0 }))
    );
    assert_eq!(
        decode_text(ColType::Time, "-838:59:59"),
        Some(ColValue::Time(TimeValue { negative: true, hours: 838, minutes: 59, seconds: 59, micros: 0 }))
    );
    assert_eq!(decode_text(ColType::Date, "2023-1-2"), None);
    assert_eq!(decode_text(ColType::Time, "12:00"), None);
}

#[test]
fn value_texts() {
    assert_eq!(value_to_text(&ColValue::Long(-42)), "-42");
    assert_eq!(value_to_text(&ColValue::LongLong(i64::MIN)), "-9223372036854775808");
    assert_eq!(value_to_text(&ColValue::Bool(true)), "true");
    assert_eq!(
        value_to_text(&ColValue::DateTime(DateTimeValue { date: DateValue { year: 7, month: 3, day: 9 }, hour: 1, minute: 2, second: 3, micros: 45 })),
        "0007-03-09 01:02:03.000045"
    );
    assert_eq!(
        value_to_text(&ColValue::Time(TimeValue { negative: false, hours: 5, minutes: 0, seconds: 7, micros: 0 })),
        "05:00:07.000000"
    );
}

#[test]
fn values_round_trip_through_text() {
    let cases = vec![
        (ColType::Tiny, ColValue::Tiny(-128)),
        (ColType::Short, ColValue::Short(32767)),
        (ColType::Long, ColValue::Long(-7)),
        (ColType::LongLong, ColValue::LongLong(i64::MAX)),
        (ColType::UnsignedTiny, ColValue::UnsignedTiny(255)),
        (ColType::UnsignedLongLong, ColValue::UnsignedLongLong(u64::MAX)),
        (ColType::Year, ColValue::Year(2024)),
        (ColType::Bit, ColValue::Bit(0)),
        (ColType::Bool, ColValue::Bool(false)),
        (ColType::String, ColValue::String("héllo".to_string())),
        (ColType::Blob, ColValue::Blob(vec![1, 2, 254])),
        (ColType::Json, ColValue::Json(b"{\"a\":1}".to_vec())),
        (ColType::Date, ColValue::Date(DateValue { year: 1999, month: 12, day: 31 })),
        (ColType::Timestamp, ColValue::Timestamp(DateTimeValue { date: DateValue { year: 2000, month: 2, day: 29 }, hour: 23, minute: 59, second: 59, micros: 999999 })),
        (ColType::Time, ColValue::Time(TimeValue { negative: true, hours: 123, minutes: 4, seconds: 5, micros: 6 })),
    ];
    for (t, v) in cases {
        assert_eq!(decode_text(t, &value_to_text(&v)), Some(v));
    }
}

#[test]
fn position_texts() {
    assert_eq!(position_to_text(&Position::PgCdc { lsn: 0x2C28_0E70 }), "0/2C280E70");
    assert_eq!(position_to_text(&Position::PgCdc { lsn: 0x1_0000_00AB }), "1/AB");
    assert_eq!(position_to_text(&Position::MysqlCdc { file_index: 3, offset: 154 }), "3:154");
    assert_eq!(position_to_text(&Position::Nil), "");
}

#[test]
fn standby_timestamps() {
    assert_eq!(standby_timestamp(PG_EPOCH_UNIX_MICROS), 0);
    assert_eq!(standby_timestamp(PG_EPOCH_UNIX_MICROS + 1_000_000), 1_000_000);
    assert_eq!(standby_timestamp(0), -946_684_800_000_000);
}

#[test]
fn json_text_decodes_to_bytes() {
    assert_eq!(decode_text(ColType::Json, "{\"k\":\"é\"}"), Some(ColValue::Json("{\"k\":\"é\"}".as_bytes().to_vec())));
    assert_eq!(value_to_text(&ColValue::Json(b"[1]".to_vec())), "[1]");
    assert_eq!(value_to_text(&ColValue::Json(vec![0xff])), "\\xff");
}
