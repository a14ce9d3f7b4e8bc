use chrono::{DateTime, FixedOffset, NaiveDate, TimeZone, Utc};
use nu_plist::{
    convert_date, convert_nu_dict, convert_nu_value, convert_plist_value, discard_offset,
    ConversionError, DynamicValue, Failure, Integer, OffsetTimestamp, Place, StructuredValue,
    Timestamp,
};
use std::time::SystemTime;

fn date_of(datetime: DateTime<FixedOffset>) -> OffsetTimestamp {
    OffsetTimestamp::new(
        datetime.timestamp(),
        datetime.timestamp_subsec_nanos(),
        datetime.offset().local_minus_utc(),
    )
    .expect("the date can be held")
}

fn unconvertible(what: &str, path: Vec<Place>) -> ConversionError {
    ConversionError { failure: Failure::UnconvertibleValue(what.to_string()), path }
}

fn timestamp_of(time: SystemTime) -> Timestamp {
    match time.duration_since(SystemTime::UNIX_EPOCH) {
        Ok(after) => Timestamp::after_epoch(after.as_secs(), after.subsec_nanos()),
        Err(before) => {
            Timestamp::before_epoch(before.duration().as_secs(), before.duration().subsec_nanos())
        }
    }
    .expect("the instant can be held")
}

#[test]
fn leaves_become_their_counterparts() {
    assert_eq!(
        convert_nu_value(&DynamicValue::String("hello".to_string())),
        Ok(StructuredValue::Text("hello".to_string()))
    );
    assert_eq!(convert_nu_value(&DynamicValue::Bool(false)), Ok(StructuredValue::Boolean(false)));
    assert_eq!(
        convert_nu_value(&DynamicValue::Float(2.5_f64.to_bits())),
        Ok(StructuredValue::Real(2.5_f64.to_bits()))
    );
    assert_eq!(
        convert_nu_value(&DynamicValue::Int(-42)),
        Ok(StructuredValue::Integer(Integer::from(-42_i64)))
    );
    assert_eq!(
        convert_nu_value(&DynamicValue::Binary(vec![0, 255, 7])),
        Ok(StructuredValue::Binary(vec![0, 255, 7]))
    );
}

#[test]
fn filesize_becomes_the_integer_of_the_same_value() {
    assert_eq!(
        convert_nu_value(&DynamicValue::Filesize(1_048_576)),
        Ok(StructuredValue::Integer(Integer::from(1_048_576_i64)))
    );
    assert_eq!(
        convert_nu_value(&DynamicValue::Filesize(-1)),
        Ok(StructuredValue::Integer(Integer::from(-1_i64)))
    );
}

#[test]
fn nothing_cannot_be_converted() {
    assert_eq!(
        convert_nu_value(&DynamicValue::Nothing),
        Err(ConversionError {
            failure: Failure::UnconvertibleValue("Nothing".to_string()),
            path: Vec::new(),
        })
    );
}

#[test]
fn other_kinds_cannot_be_converted() {
    assert_eq!(
        convert_nu_value(&DynamicValue::Other("Range 1..5".to_string())),
        Err(unconvertible("Range 1..5", Vec::new()))
    );
}

#[test]
fn one_unconvertible_item_fails_the_list() {
    let list = DynamicValue::List(vec![
        DynamicValue::Int(1),
        DynamicValue::Other("a closure".to_string()),
        DynamicValue::Int(3),
        DynamicValue::Nothing,
    ]);
    assert_eq!(
        convert_nu_value(&list),
        Err(unconvertible("a closure", vec![Place::Item(1)]))
    );
}

#[test]
fn one_unconvertible_value_fails_the_record() {
    let record = vec![
        ("a".to_string(), DynamicValue::Int(1)),
        ("b".to_string(), DynamicValue::List(vec![DynamicValue::Nothing])),
        ("c".to_string(), DynamicValue::Other("later".to_string())),
    ];
    assert_eq!(
        convert_nu_dict(&record),
        Err(unconvertible("Nothing", vec![Place::Key("b".to_string()), Place::Item(0)]))
    );
    assert_eq!(
        convert_nu_value(&DynamicValue::Record(record)),
        Err(unconvertible("Nothing", vec![Place::Key("b".to_string()), Place::Item(0)]))
    );
}

#[test]
fn list_becomes_a_sequence_in_order() {
    let list = DynamicValue::List(vec![
        DynamicValue::String("a".to_string()),
        DynamicValue::List(Vec::new()),
        DynamicValue::Int(3),
    ]);
    assert_eq!(
        convert_nu_value(&list),
        Ok(StructuredValue::Sequence(vec![
            StructuredValue::Text("a".to_string()),
            StructuredValue::Sequence(Vec::new()),
            StructuredValue::Integer(3_i64.into()),
        ]))
    );
}

#[test]
fn lazy_record_becomes_what_its_fields_become() {
    let fields = vec![
        ("name".to_string(), DynamicValue::String("x".to_string())),
        ("size".to_string(), DynamicValue::Filesize(12)),
    ];
    let expected = StructuredValue::Mapping(vec![
        ("name".to_string(), StructuredValue::Text("x".to_string())),
        ("size".to_string(), StructuredValue::Integer(12_i64.into())),
    ]);
    assert_eq!(convert_nu_dict(&fields), Ok(StructuredValue::Mapping(vec![
        ("name".to_string(), StructuredValue::Text("x".to_string())),
        ("size".to_string(), StructuredValue::Integer(12_i64.into())),
    ])));
    assert_eq!(convert_nu_value(&DynamicValue::LazyRecord(fields)), Ok(expected));
}

#[test]
fn failed_lazy_record_fails_with_the_report() {
    assert_eq!(
        convert_nu_value(&DynamicValue::FailedLazyRecord("column missing".to_string())),
        Err(ConversionError {
            failure: Failure::Materialization("column missing".to_string()),
            path: Vec::new(),
        })
    );
    let list = DynamicValue::List(vec![
        DynamicValue::LazyRecord(vec![(
            "inner".to_string(),
            DynamicValue::FailedLazyRecord("no such column".to_string()),
        )]),
    ]);
    assert_eq!(
        convert_nu_value(&list),
        Err(ConversionError {
            failure: Failure::Materialization("no such column".to_string()),
            path: vec![Place::Item(0), Place::Key("inner".to_string())],
        })
    );
}

#[test]
fn record_and_mapping_are_inverse() {
    let record = vec![
        ("a".to_string(), DynamicValue::String("c".to_string())),
        ("b".to_string(), DynamicValue::String("d".to_string())),
    ];
    let mapping = vec![
        ("a".to_string(), StructuredValue::Text("c".to_string())),
        ("b".to_string(), StructuredValue::Text("d".to_string())),
    ];
    let encoded = convert_nu_value(&DynamicValue::Record(record)).unwrap();
    assert_eq!(
        encoded,
        StructuredValue::Mapping(vec![
            ("a".to_string(), StructuredValue::Text("c".to_string())),
            ("b".to_string(), StructuredValue::Text("d".to_string())),
        ])
    );
    let decoded = convert_plist_value(&StructuredValue::Mapping(mapping)).unwrap();
    assert_eq!(
        decoded,
        DynamicValue::Record(vec![
            ("a".to_string(), DynamicValue::String("c".to_string())),
            ("b".to_string(), DynamicValue::String("d".to_string())),
        ])
    );
    assert_eq!(convert_plist_value(&encoded), Ok(decoded));
}

#[test]
fn leaves_come_back_from_the_host() {
    let leaves = vec![
        StructuredValue::Text("text with \u{e9}".to_string()),
        StructuredValue::Text(String::new()),
        StructuredValue::Boolean(true),
        StructuredValue::Boolean(false),
        StructuredValue::Real(3.14_f64.to_bits()),
        StructuredValue::Real(f64::NAN.to_bits()),
        StructuredValue::Real((-0.0_f64).to_bits()),
        StructuredValue::Binary(vec![1, 2, 3]),
        StructuredValue::Binary(Vec::new()),
    ];
    for leaf in leaves {
        let there = convert_plist_value(&leaf).unwrap();
        assert_eq!(convert_nu_value(&there), Ok(leaf));
    }
}

#[test]
fn integers_come_back_from_the_document() {
    for n in [i64::MIN, -7, 0, 1, 1 << 53, i64::MAX] {
        let there = convert_nu_value(&DynamicValue::Int(n)).unwrap();
        assert_eq!(convert_plist_value(&there), Ok(DynamicValue::Int(n)));
    }
}

#[test]
fn nested_tree_comes_back() {
    let tree = DynamicValue::Record(vec![
        ("list".to_string(), DynamicValue::List(vec![
            DynamicValue::Int(1),
            DynamicValue::Record(vec![("deep".to_string(), DynamicValue::Bool(true))]),
        ])),
        ("when".to_string(), DynamicValue::Date(OffsetTimestamp::new(-3, 5, 0).unwrap())),
        ("raw".to_string(), DynamicValue::Binary(vec![9])),
    ]);
    let there = convert_nu_value(&tree).unwrap();
    assert_eq!(convert_plist_value(&there), Ok(tree));
}

#[test]
fn date_loses_its_offset_and_keeps_its_instant() {
    let datetime = FixedOffset::east_opt(2 * 3600)
        .unwrap()
        .with_ymd_and_hms(2001, 1, 1, 2, 0, 0)
        .unwrap();
    let date = date_of(datetime);
    assert_eq!(date.offset_seconds(), 7200);
    let instant = discard_offset(&date);
    assert_eq!(instant, timestamp_of(SystemTime::from(datetime)));
    assert_eq!(instant, Timestamp::after_epoch(978_307_200, 0).unwrap());
    assert_eq!(
        convert_nu_value(&DynamicValue::Date(date)),
        Ok(StructuredValue::Timestamp(instant))
    );
    let back = convert_date(&instant);
    assert_eq!(back.timestamp(), 978_307_200);
    assert_eq!(back.offset_seconds(), 0);
}

#[test]
fn date_before_the_epoch_becomes_a_span_before_it() {
    let date = OffsetTimestamp::new(-1, 999_999_999, -3600).unwrap();
    assert_eq!(discard_offset(&date), Timestamp::before_epoch(0, 1).unwrap());
    let date = OffsetTimestamp::new(-6, 750_000_000, 0).unwrap();
    assert_eq!(discard_offset(&date), Timestamp::before_epoch(5, 250_000_000).unwrap());
    let date = OffsetTimestamp::new(-5, 0, 0).unwrap();
    assert_eq!(discard_offset(&date), Timestamp::before_epoch(5, 0).unwrap());
    let date = OffsetTimestamp::new(i64::MIN, 0, 0).unwrap();
    assert_eq!(discard_offset(&date), Timestamp::before_epoch(1 << 63, 0).unwrap());
    let date = OffsetTimestamp::new(0, 0, 86_399).unwrap();
    assert_eq!(discard_offset(&date), Timestamp::unix_epoch());
}

#[test]
fn leap_second_is_carried_into_the_instant() {
    let leap = NaiveDate::from_ymd_opt(2016, 12, 31)
        .unwrap()
        .and_hms_nano_opt(23, 59, 59, 1_500_000_000)
        .unwrap();
    let datetime = Utc.from_utc_datetime(&leap).fixed_offset();
    let date = date_of(datetime);
    assert_eq!(date.timestamp_subsec_nanos(), 1_500_000_000);
    let instant = discard_offset(&date);
    assert_eq!(instant, timestamp_of(SystemTime::from(datetime)));
    assert_eq!(instant, Timestamp::after_epoch(1_483_228_800, 500_000_000).unwrap());
    let date = OffsetTimestamp::new(-1, 1_250_000_000, 0).unwrap();
    assert_eq!(discard_offset(&date), Timestamp::after_epoch(0, 250_000_000).unwrap());
    let date = OffsetTimestamp::new(-2, 1_250_000_000, 0).unwrap();
    assert_eq!(discard_offset(&date), Timestamp::before_epoch(0, 750_000_000).unwrap());
}

#[test]
fn date_agrees_with_the_calendar_library_on_the_way_back() {
    let offsets = [0, 1, -1, 3600, -43_200, 86_399, -86_399];
    let stamps = [(0_i64, 0_u32), (-1, 1), (1_700_000_000, 999_999_999), (-2_000_000_000, 5)];
    for offset in offsets {
        for (secs, nanos) in stamps {
            let datetime = DateTime::from_timestamp(secs, nanos)
                .unwrap()
                .with_timezone(&FixedOffset::east_opt(offset).unwrap());
            assert_eq!(
                discard_offset(&date_of(datetime)),
                timestamp_of(SystemTime::from(datetime))
            );
        }
    }
}

#[test]
fn offset_timestamp_refuses_what_it_cannot_hold() {
    assert_eq!(OffsetTimestamp::new(0, 2_000_000_000, 0), None);
    assert_eq!(OffsetTimestamp::new(0, 0, 86_400), None);
    assert_eq!(OffsetTimestamp::new(0, 0, -86_400), None);
    assert_eq!(OffsetTimestamp::new(i64::MAX, 1_000_000_000, 0), None);
    assert!(OffsetTimestamp::new(i64::MAX, 999_999_999, 0).is_some());
    assert!(OffsetTimestamp::new(i64::MAX - 1, 1_999_999_999, 0).is_some());
    let date = OffsetTimestamp::new(12, 34, -56).unwrap();
    assert_eq!(date.timestamp(), 12);
    assert_eq!(date.timestamp_subsec_nanos(), 34);
    assert_eq!(date.offset_seconds(), -56);
}
