use chrono::{DateTime, Datelike, FixedOffset, Timelike, Utc};
use nu_plist::{
    convert_array, convert_date, convert_dict, convert_plist_value, ConversionError, DynamicValue,
    Failure, Integer, OffsetTimestamp, Place, StructuredValue, Timestamp,
};
use std::time::{Duration, SystemTime};

fn timestamp_of(time: SystemTime) -> Timestamp {
    match time.duration_since(SystemTime::UNIX_EPOCH) {
        Ok(after) => Timestamp::after_epoch(after.as_secs(), after.subsec_nanos()),
        Err(before) => {
            Timestamp::before_epoch(before.duration().as_secs(), before.duration().subsec_nanos())
        }
    }
    .expect("the instant can be held")
}

fn shown(date: &OffsetTimestamp) -> DateTime<FixedOffset> {
    DateTime::from_timestamp(date.timestamp(), date.timestamp_subsec_nanos())
        .expect("the date is in range")
        .with_timezone(&FixedOffset::east_opt(date.offset_seconds()).expect("the offset is in range"))
}

#[test]
fn test_convert_string() {
    let plist_val = StructuredValue::Text("hello".to_owned());
    let result = convert_plist_value(&plist_val);
    assert_eq!(result, Ok(DynamicValue::String("hello".to_owned())));
}

#[test]
fn test_convert_boolean() {
    let plist_val = StructuredValue::Boolean(true);
    let result = convert_plist_value(&plist_val);
    assert_eq!(result, Ok(DynamicValue::Bool(true)));
}

#[test]
fn test_convert_real() {
    let plist_val = StructuredValue::Real(3.14_f64.to_bits());
    let result = convert_plist_value(&plist_val);
    assert_eq!(result, Ok(DynamicValue::Float(3.14_f64.to_bits())));
}

#[test]
fn test_convert_integer() {
    let plist_val = StructuredValue::Integer(42_i64.into());
    let result = convert_plist_value(&plist_val);
    assert_eq!(result, Ok(DynamicValue::Int(42)));
}

#[test]
fn test_convert_uid() {
    let v = 12345678_u64;
    let plist_val = StructuredValue::UniqueId(v);
    let result = convert_plist_value(&plist_val);
    assert_eq!(result, Ok(DynamicValue::Float((v as f64).to_bits())));
}

#[test]
fn test_convert_data() {
    let data = vec![0x41, 0x42, 0x43];
    let plist_val = StructuredValue::Binary(data.clone());
    let result = convert_plist_value(&plist_val);
    assert_eq!(result, Ok(DynamicValue::Binary(data)));
}

#[test]
fn test_convert_date() {
    let epoch = SystemTime::UNIX_EPOCH;
    let plist_date = timestamp_of(epoch);

    let datetime = shown(&convert_date(&plist_date));
    assert_eq!(1970, datetime.year());
    assert_eq!(1, datetime.month());
    assert_eq!(1, datetime.day());
}

#[test]
fn test_convert_dict() {
    let mut dict = Vec::new();
    dict.push(("a".to_string(), StructuredValue::Text("c".to_string())));
    dict.push(("b".to_string(), StructuredValue::Text("d".to_string())));
    let nu_dict = convert_dict(&dict).unwrap();
    assert_eq!(
        nu_dict,
        DynamicValue::Record(vec![
            ("a".to_string(), DynamicValue::String("c".to_string())),
            ("b".to_string(), DynamicValue::String("d".to_string())),
        ])
    );
}

#[test]
fn test_convert_array() {
    let mut arr = Vec::new();
    arr.push(StructuredValue::Text("a".to_string()));
    arr.push(StructuredValue::Text("b".to_string()));
    let nu_arr = convert_array(&arr).unwrap();
    assert_eq!(
        nu_arr,
        vec![
            DynamicValue::String("a".to_string()),
            DynamicValue::String("b".to_string())
        ]
    );
}

#[test]
fn uid_becomes_the_float_of_the_same_number() {
    let result = convert_plist_value(&StructuredValue::UniqueId(12345678));
    match result {
        Ok(DynamicValue::Float(bits)) => assert_eq!(f64::from_bits(bits), 12345678.0),
        other => panic!("not a float: {:?}", other),
    }
}

#[test]
fn integer_beyond_the_signed_range_fails() {
    let big = Integer::from(u64::MAX);
    let result = convert_plist_value(&StructuredValue::Integer(big));
    assert_eq!(
        result,
        Err(ConversionError { failure: Failure::IntegerRange(big), path: Vec::new() })
    );
    let edge = Integer::from(i64::MAX as u64 + 1);
    assert_eq!(
        convert_plist_value(&StructuredValue::Integer(edge)),
        Err(ConversionError { failure: Failure::IntegerRange(edge), path: Vec::new() })
    );
}

#[test]
fn integers_at_the_ends_of_the_signed_range_pass() {
    for n in [i64::MIN, -1, 0, 1, i64::MAX] {
        assert_eq!(
            convert_plist_value(&StructuredValue::Integer(n.into())),
            Ok(DynamicValue::Int(n))
        );
    }
    assert_eq!(
        convert_plist_value(&StructuredValue::Integer((i64::MAX as u64).into())),
        Ok(DynamicValue::Int(i64::MAX))
    );
}

#[test]
fn integer_narrows_as_the_codec_does() {
    for n in [0_u64, 1, i64::MAX as u64, i64::MAX as u64 + 1, u64::MAX] {
        assert_eq!(Integer::from(n).as_signed(), plist::Integer::from(n).as_signed());
        assert_eq!(Integer::from(n).as_unsigned(), plist::Integer::from(n).as_unsigned());
    }
    for n in [i64::MIN, -1_i64, 0, i64::MAX] {
        assert_eq!(Integer::from(n).as_signed(), plist::Integer::from(n).as_signed());
        assert_eq!(Integer::from(n).as_unsigned(), plist::Integer::from(n).as_unsigned());
    }
}

#[test]
fn integer_holds_what_fits_either_width() {
    assert_eq!(Integer::new(-1), Some(Integer::from(-1_i64)));
    assert_eq!(Integer::new(u64::MAX as i128), Some(Integer::from(u64::MAX)));
    assert_eq!(Integer::new(i64::MIN as i128), Some(Integer::from(i64::MIN)));
    assert_eq!(Integer::new(u64::MAX as i128 + 1), None);
    assert_eq!(Integer::new(i64::MIN as i128 - 1), None);
    assert_eq!(Integer::from(u64::MAX).value(), 18_446_744_073_709_551_615);
    assert_eq!(Integer::from(i64::MIN).value(), -9_223_372_036_854_775_808);
    assert_eq!(Integer::from(7_u64), Integer::from(7_i64));
}

#[test]
fn reserved_becomes_nothing() {
    assert_eq!(convert_plist_value(&StructuredValue::Reserved), Ok(DynamicValue::Nothing));
}

#[test]
fn empty_mapping_becomes_empty_record() {
    let result = convert_plist_value(&StructuredValue::Mapping(Vec::new()));
    assert_eq!(result, Ok(DynamicValue::Record(Vec::new())));
    assert_eq!(convert_dict(&Vec::new()), Ok(DynamicValue::Record(Vec::new())));
}

#[test]
fn empty_sequence_becomes_empty_list() {
    let result = convert_plist_value(&StructuredValue::Sequence(Vec::new()));
    assert_eq!(result, Ok(DynamicValue::List(Vec::new())));
    assert_eq!(convert_array(&[]), Ok(Vec::new()));
}

#[test]
fn sequence_keeps_order_and_count() {
    let items: Vec<StructuredValue> =
        (0..20_i64).map(|n| StructuredValue::Integer(n.into())).collect();
    let expected: Vec<DynamicValue> = (0..20_i64).map(DynamicValue::Int).collect();
    assert_eq!(
        convert_plist_value(&StructuredValue::Sequence(items)),
        Ok(DynamicValue::List(expected))
    );
}

#[test]
fn mapping_keeps_keys_in_order() {
    let entries = vec![
        ("zeta".to_string(), StructuredValue::Boolean(false)),
        ("alpha".to_string(), StructuredValue::Integer(7_i64.into())),
        ("mid".to_string(), StructuredValue::Sequence(vec![StructuredValue::Reserved])),
    ];
    assert_eq!(
        convert_plist_value(&StructuredValue::Mapping(entries)),
        Ok(DynamicValue::Record(vec![
            ("zeta".to_string(), DynamicValue::Bool(false)),
            ("alpha".to_string(), DynamicValue::Int(7)),
            ("mid".to_string(), DynamicValue::List(vec![DynamicValue::Nothing])),
        ]))
    );
}

#[test]
fn first_failing_item_fails_the_sequence() {
    let first = Integer::from(u64::MAX);
    let second = Integer::from(u64::MAX - 1);
    let items = vec![
        StructuredValue::Boolean(true),
        StructuredValue::Mapping(vec![("k".to_string(), StructuredValue::Integer(first))]),
        StructuredValue::Integer(second),
    ];
    assert_eq!(
        convert_array(&items),
        Err(ConversionError {
            failure: Failure::IntegerRange(first),
            path: vec![Place::Item(1), Place::Key("k".to_string())],
        })
    );
    assert_eq!(
        convert_plist_value(&StructuredValue::Sequence(items)),
        Err(ConversionError {
            failure: Failure::IntegerRange(first),
            path: vec![Place::Item(1), Place::Key("k".to_string())],
        })
    );
}

#[test]
fn first_failing_value_fails_the_mapping() {
    let first = Integer::from(u64::MAX);
    let entries = vec![
        ("fine".to_string(), StructuredValue::Integer(1_i64.into())),
        (
            "outer".to_string(),
            StructuredValue::Sequence(vec![
                StructuredValue::Reserved,
                StructuredValue::Reserved,
                StructuredValue::Integer(first),
            ]),
        ),
        ("late".to_string(), StructuredValue::Integer(Integer::from(u64::MAX - 5))),
    ];
    assert_eq!(
        convert_dict(&entries),
        Err(ConversionError {
            failure: Failure::IntegerRange(first),
            path: vec![Place::Key("outer".to_string()), Place::Item(2)],
        })
    );
}

#[test]
fn epoch_is_shown_at_offset_zero() {
    let date = convert_date(&Timestamp::unix_epoch());
    assert_eq!(date.timestamp(), 0);
    assert_eq!(date.timestamp_subsec_nanos(), 0);
    assert_eq!(date.offset_seconds(), 0);
    let datetime = shown(&date);
    assert_eq!(datetime.hour(), 0);
    assert_eq!(datetime.offset().local_minus_utc(), 0);
    match convert_plist_value(&StructuredValue::Timestamp(Timestamp::unix_epoch())) {
        Ok(DynamicValue::Date(made)) => assert_eq!(made, date),
        other => panic!("not a date: {:?}", other),
    }
}

#[test]
fn date_before_the_epoch_rounds_its_seconds_down() {
    let date = convert_date(&Timestamp::before_epoch(0, 1).unwrap());
    assert_eq!(date.timestamp(), -1);
    assert_eq!(date.timestamp_subsec_nanos(), 999_999_999);
    let date = convert_date(&Timestamp::before_epoch(5, 0).unwrap());
    assert_eq!(date.timestamp(), -5);
    assert_eq!(date.timestamp_subsec_nanos(), 0);
    let date = convert_date(&Timestamp::before_epoch(5, 250_000_000).unwrap());
    assert_eq!(date.timestamp(), -6);
    assert_eq!(date.timestamp_subsec_nanos(), 750_000_000);
    let date = convert_date(&Timestamp::after_epoch(5, 250_000_000).unwrap());
    assert_eq!(date.timestamp(), 5);
    assert_eq!(date.timestamp_subsec_nanos(), 250_000_000);
}

#[test]
fn date_agrees_with_the_calendar_library() {
    let spans = [
        Duration::new(0, 0),
        Duration::new(0, 1),
        Duration::new(1, 0),
        Duration::new(59, 999_999_999),
        Duration::new(978_307_200, 123_456_789),
        Duration::new(4_102_444_800, 500),
    ];
    for span in spans {
        for time in [SystemTime::UNIX_EPOCH + span, SystemTime::UNIX_EPOCH - span] {
            let expected: DateTime<Utc> = time.into();
            let date = convert_date(&timestamp_of(time));
            assert_eq!(date.timestamp(), expected.timestamp());
            assert_eq!(date.timestamp_subsec_nanos(), expected.timestamp_subsec_nanos());
            assert_eq!(date.offset_seconds(), 0);
        }
    }
}

#[test]
fn dates_at_the_ends_of_the_range_pass() {
    let last = Timestamp::after_epoch(i64::MAX as u64, 999_999_999).unwrap();
    let date = convert_date(&last);
    assert_eq!(date.timestamp(), i64::MAX);
    assert_eq!(date.timestamp_subsec_nanos(), 999_999_999);
    let first = Timestamp::before_epoch(1 << 63, 0).unwrap();
    let date = convert_date(&first);
    assert_eq!(date.timestamp(), i64::MIN);
    assert_eq!(date.timestamp_subsec_nanos(), 0);
    let almost = Timestamp::before_epoch((1 << 63) - 1, 1).unwrap();
    let date = convert_date(&almost);
    assert_eq!(date.timestamp(), i64::MIN);
    assert_eq!(date.timestamp_subsec_nanos(), 999_999_999);
}

#[test]
fn timestamp_refuses_what_it_cannot_hold() {
    assert_eq!(Timestamp::after_epoch(0, 1_000_000_000), None);
    assert_eq!(Timestamp::before_epoch(0, 1_000_000_000), None);
    assert_eq!(Timestamp::after_epoch(1 << 63, 0), None);
    assert_eq!(Timestamp::before_epoch(1 << 63, 1), None);
    assert_eq!(Timestamp::before_epoch(u64::MAX, 0), None);
    assert_eq!(Timestamp::before_epoch(0, 0), Some(Timestamp::unix_epoch()));
    assert_eq!(Timestamp::after_epoch(0, 0), Some(Timestamp::unix_epoch()));
    let t = Timestamp::before_epoch(3, 4).unwrap();
    assert!(t.is_before_epoch());
    assert_eq!(t.seconds(), 3);
    assert_eq!(t.subsec_nanos(), 4);
    assert!(!Timestamp::unix_epoch().is_before_epoch());
}

#[test]
fn repeated_keys_are_copied_as_they_stand() {
    let entries = vec![
        ("k".to_string(), StructuredValue::Boolean(true)),
        ("k".to_string(), StructuredValue::Boolean(false)),
    ];
    assert_eq!(
        convert_dict(&entries),
        Ok(DynamicValue::Record(vec![
            ("k".to_string(), DynamicValue::Bool(true)),
            ("k".to_string(), DynamicValue::Bool(false)),
        ]))
    );
}

#[test]
fn deep_tree_is_converted_to_its_leaves() {
    let mut document = StructuredValue::Integer(5_i64.into());
    let mut expected = DynamicValue::Int(5);
    for depth in 0..200 {
        if depth % 2 == 0 {
            document = StructuredValue::Sequence(vec![document]);
            expected = DynamicValue::List(vec![expected]);
        } else {
            document = StructuredValue::Mapping(vec![("in".to_string(), document)]);
            expected = DynamicValue::Record(vec![("in".to_string(), expected)]);
        }
    }
    assert_eq!(convert_plist_value(&document), Ok(expected));
}

#[test]
fn deep_failure_names_every_step() {
    let big = Integer::from(u64::MAX);
    let mut document = StructuredValue::Integer(big);
    let mut path = Vec::new();
    for depth in 0..50 {
        if depth % 2 == 0 {
            document = StructuredValue::Sequence(vec![StructuredValue::Reserved, document]);
            path.insert(0, Place::Item(1));
        } else {
            document = StructuredValue::Mapping(vec![("in".to_string(), document)]);
            path.insert(0, Place::Key("in".to_string()));
        }
    }
    assert_eq!(
        convert_plist_value(&document),
        Err(ConversionError { failure: Failure::IntegerRange(big), path })
    );
}

#[test]
fn error_grows_at_its_root() {
    let plain = ConversionError::at_root(Failure::InvalidInput);
    assert_eq!(plain, ConversionError { failure: Failure::InvalidInput, path: Vec::new() });
    let inner = plain.under(Place::Key("k".to_string()));
    let outer = inner.under(Place::Item(4));
    assert_eq!(
        outer,
        ConversionError {
            failure: Failure::InvalidInput,
            path: vec![Place::Item(4), Place::Key("k".to_string())],
        }
    );
}
