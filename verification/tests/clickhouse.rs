use base64::engine::general_purpose::STANDARD;
use base64::Engine as _;
use dogpaddle_sink::change::{
    Change, Column, DataType, Field, RecordBatch, Schema, TimeUnit, Value,
};
use dogpaddle_sink::clickhouse::config::{
    require_absent, string_literal, ClickHouseSinkConfig, ClickHouseTargetSpec,
};
use dogpaddle_sink::clickhouse::definition::{
    decode_definition, ClickHouseSinkDefinition, ParsedTarget,
};
use dogpaddle_sink::clickhouse::error::{ClickHouseSinkError, ClickHouseSinkSchemaError};
use dogpaddle_sink::clickhouse::row::{ClickHouseRowCodec, ClickHouseValue};
use dogpaddle_sink::clickhouse::schema::ClickHouseLayout;
use dogpaddle_sink::clickhouse::sql::{
    count_query, create_state_sql, create_view_sql, lookup_join_predicate, metadata_query,
    objects_query, quote, selected_columns, stored_statement,
};
use dogpaddle_sink::clickhouse::target::{
    begin_initialization, event_bytes, has_exact_hash_index, object_kinds, object_metadata,
    plan_lookup, plan_write, read_lookup_rows, read_stored, require_empty, select_tail,
    verify_identity, verify_state_columns, verify_state_metadata, verify_view_columns,
    verify_view_metadata, write_payload,
};
use dogpaddle_sink::relation::batch::{terminal_mutations, Batch, Delete, Insert};
use dogpaddle_sink::relation::plan::Lookup;
use dogpaddle_sink::relation::row::RowError;
use dogpaddle_sink::relation::target::relation_event_bytes;

const DATABASE_UUID: &str = "12345678-1234-1234-1234-123456789abc";

fn field(name: &str, data_type: DataType, nullable: bool) -> Field {
    Field {
        name: name.to_owned(),
        data_type,
        nullable,
        metadata: Vec::new(),
    }
}

fn spec() -> ClickHouseTargetSpec {
    ClickHouseTargetSpec::try_new("sink_1", "analytics", "materialized", DATABASE_UUID).unwrap()
}

fn one_row(cells: Vec<(&str, fn() -> DataType, Value)>) -> (Schema, RecordBatch) {
    let fields = |cells: &[(&str, fn() -> DataType, Value)]| {
        Schema::new(
            cells
                .iter()
                .map(|(name, data_type, _)| field(name, data_type(), false))
                .collect(),
        )
    };
    let schema = fields(&cells);
    let records = fields(&cells);
    let columns = cells
        .into_iter()
        .map(|(_, data_type, value)| Column {
            data_type: data_type(),
            values: vec![value],
        })
        .collect();
    (
        schema,
        RecordBatch {
            schema: records,
            columns,
            rows: 1,
        },
    )
}

#[test]
fn tests_definition_round_trips_canonically() {
    let definition = ClickHouseSinkDefinition::try_new(spec()).unwrap();
    let mut encoded = Vec::new();
    definition.encode_payload(&mut encoded);
    let parsed: serde_json::Value = serde_json::from_slice(&encoded).unwrap();
    let text = |key: &str| parsed[key].as_str().unwrap().to_owned();
    let decoded = decode_definition(
        &encoded,
        Some(ParsedTarget {
            sink_id: text("sink_id"),
            database: text("database"),
            table: text("table"),
            database_uuid: text("database_uuid"),
        }),
    )
    .unwrap();
    assert_eq!(decoded.persistence_tag(), 19);
    let mut again = Vec::new();
    decoded.encode_payload(&mut again);
    assert_eq!(again, encoded);
}

#[test]
fn row_codec_preserves_number_widths_and_timestamp_units() {
    let (schema, batch) = one_row(vec![
        ("bool", || DataType::Boolean, Value::Boolean(true)),
        ("i8", || DataType::Int8, Value::Int8(i8::MIN)),
        ("i16", || DataType::Int16, Value::Int16(i16::MIN)),
        ("i32", || DataType::Int32, Value::Int32(i32::MIN)),
        ("i64", || DataType::Int64, Value::Int64(i64::MIN)),
        ("u8", || DataType::UInt8, Value::UInt8(u8::MAX)),
        ("u16", || DataType::UInt16, Value::UInt16(u16::MAX)),
        ("u32", || DataType::UInt32, Value::UInt32(u32::MAX)),
        ("u64", || DataType::UInt64, Value::UInt64(u64::MAX)),
        ("date", || DataType::Date32, Value::Date32(-42)),
        (
            "seconds",
            || DataType::Timestamp(TimeUnit::Second, None),
            Value::Timestamp(i64::MIN),
        ),
        (
            "millis",
            || DataType::Timestamp(TimeUnit::Millisecond, Some("UTC".to_owned())),
            Value::Timestamp(i64::MAX),
        ),
        (
            "micros",
            || DataType::Timestamp(TimeUnit::Microsecond, Some("+08:00".to_owned())),
            Value::Timestamp(-1),
        ),
        (
            "nanos",
            || DataType::Timestamp(TimeUnit::Nanosecond, None),
            Value::Timestamp(1),
        ),
    ]);
    let row = ClickHouseRowCodec::new(ClickHouseLayout::try_new(schema).unwrap())
        .encode_row(&batch, 0)
        .unwrap();
    assert_eq!(
        row.values,
        vec![
            ClickHouseValue::Unsigned(1),
            ClickHouseValue::Negative(i64::from(i8::MIN)),
            ClickHouseValue::Negative(i64::from(i16::MIN)),
            ClickHouseValue::Negative(i64::from(i32::MIN)),
            ClickHouseValue::Negative(i64::MIN),
            ClickHouseValue::Unsigned(u64::from(u8::MAX)),
            ClickHouseValue::Unsigned(u64::from(u16::MAX)),
            ClickHouseValue::Unsigned(u64::from(u32::MAX)),
            ClickHouseValue::Unsigned(u64::MAX),
            ClickHouseValue::Negative(-42),
            ClickHouseValue::Negative(i64::MIN),
            ClickHouseValue::Unsigned(i64::MAX.unsigned_abs()),
            ClickHouseValue::Negative(-1),
            ClickHouseValue::Unsigned(1),
        ]
    );
    assert_eq!(row.values[8].json(), u64::MAX.to_string());
}

#[test]
fn row_codec_preserves_encoded_float_bits_and_nested_values() {
    let (schema, batch) = one_row(vec![
        (
            "minus_zero",
            || DataType::Float32,
            Value::Float32((-0.0_f32).to_bits()),
        ),
        (
            "plus_zero",
            || DataType::Float32,
            Value::Float32(0.0_f32.to_bits()),
        ),
        (
            "nan",
            || DataType::Float64,
            Value::Float64(0x7ff8_0000_0000_0001),
        ),
        (
            "decimal",
            || DataType::Decimal128(10, 2),
            Value::Decimal128(-123),
        ),
        ("text", || DataType::Utf8, Value::Utf8("é".to_owned())),
        ("bytes", || DataType::Binary, Value::Binary(vec![0, 255])),
        (
            "list",
            || DataType::List(Box::new(field("item", DataType::Int64, true))),
            Value::List(vec![Value::Int64(7), Value::Null]),
        ),
        (
            "struct",
            || DataType::Struct(vec![field("child", DataType::Int64, true)]),
            Value::Struct(vec![Value::Int64(-9)]),
        ),
    ]);
    let expected: Vec<Vec<u8>> = vec![
        [vec![1], (-0.0_f32).to_bits().to_be_bytes().to_vec()].concat(),
        [vec![1], 0.0_f32.to_bits().to_be_bytes().to_vec()].concat(),
        [vec![1], 0x7ff8_0000_0000_0001_u64.to_be_bytes().to_vec()].concat(),
        [vec![1], (-123_i128).to_be_bytes().to_vec()].concat(),
        [vec![1, 0, 0, 0, 0, 0, 0, 0, 2], "é".as_bytes().to_vec()].concat(),
        vec![1, 0, 0, 0, 0, 0, 0, 0, 2, 0, 255],
        [
            vec![1, 0, 0, 0, 0, 0, 0, 0, 2, 1],
            7_i64.to_be_bytes().to_vec(),
            vec![0],
        ]
        .concat(),
        [vec![1, 1], (-9_i64).to_be_bytes().to_vec()].concat(),
    ];
    let row = ClickHouseRowCodec::new(ClickHouseLayout::try_new(schema).unwrap())
        .encode_row(&batch, 0)
        .unwrap();
    assert_eq!(
        row.values,
        expected
            .iter()
            .map(|bytes| ClickHouseValue::Text(STANDARD.encode(bytes)))
            .collect::<Vec<_>>()
    );
    assert_ne!(row.values[0], row.values[1]);
    assert_eq!(row.hash.len(), 32);
}

#[test]
fn row_codec_uses_canonical_null_marker_and_preserves_errors() {
    let fields = || {
        Schema::new(vec![
            field("null", DataType::Null, false),
            field("number", DataType::UInt64, true),
            field("encoded", DataType::Float64, true),
            field("text", DataType::Utf8, true),
        ])
    };
    let nulls = |data_type: DataType| Column {
        data_type,
        values: vec![Value::Null],
    };
    let batch = RecordBatch {
        schema: fields(),
        columns: vec![
            nulls(DataType::Null),
            nulls(DataType::UInt64),
            nulls(DataType::Float64),
            nulls(DataType::Utf8),
        ],
        rows: 1,
    };
    let codec = ClickHouseRowCodec::new(ClickHouseLayout::try_new(fields()).unwrap());
    assert_eq!(
        codec.encode_row(&batch, 0).unwrap().values,
        vec![
            ClickHouseValue::Null,
            ClickHouseValue::Null,
            ClickHouseValue::Null,
            ClickHouseValue::Null,
        ]
    );
    assert!(matches!(
        codec.encode_row(&batch, 1).unwrap_err(),
        RowError::RowOutOfBounds {
            row_index: 1,
            rows: 1
        }
    ));
    let (_, other) = one_row(vec![("number", || DataType::Int64, Value::Int64(7))]);
    assert!(matches!(
        codec.encode_row(&other, 0).unwrap_err(),
        RowError::SchemaMismatch
    ));
}

#[test]
fn target_spec_rejects_zero_database_uuid() {
    assert!(ClickHouseTargetSpec::try_new(
        "sink",
        "db",
        "table",
        "00000000-0000-0000-0000-000000000000"
    )
    .is_err());
    assert!(ClickHouseTargetSpec::try_new(
        "sink",
        "db",
        "table",
        "123456781234-1234-1234-123456789abc"
    )
    .is_err());
    assert!(
        ClickHouseTargetSpec::try_new("sink", "db", "$dogpaddle.state.sink", DATABASE_UUID)
            .is_err()
    );
}

#[test]
fn tests_runtime_config_requires_numeric_ip_and_redacts_password() {
    assert!(
        ClickHouseSinkConfig::new_unencrypted("localhost", 8123, "db", "user", "secret").is_err()
    );
    let config =
        ClickHouseSinkConfig::new_unencrypted("127.0.0.1", 8123, "db", "user", "secret").unwrap();
    let debug = config.redacted();
    assert!(debug.contains("[redacted]"));
    assert!(!debug.contains("secret"));
    assert_eq!(
        debug,
        "ClickHouseSinkConfig { host: 127.0.0.1, port: 8123, database: \"db\", user: \"user\", \
         password: \"[redacted]\", .. }"
    );
}

#[test]
fn clickhouse_configuration_refuses_ports_blanks_and_controls() {
    let message = |result: Result<ClickHouseSinkConfig, ClickHouseSinkError>| match result {
        Err(ClickHouseSinkError::InvalidConfig { message }) => message,
        _ => String::new(),
    };
    assert_eq!(
        message(ClickHouseSinkConfig::new_unencrypted(
            "::1", 0, "db", "user", ""
        )),
        "port must be nonzero"
    );
    for (database, user, password) in [
        (" ", "user", ""),
        ("db", "\u{2003}", ""),
        ("d\tb", "user", ""),
        ("db", "user", "a\u{7f}"),
    ] {
        assert_eq!(
            message(ClickHouseSinkConfig::new_unencrypted(
                "::1", 1, database, user, password
            )),
            "invalid ClickHouse connection fields"
        );
    }
}

#[test]
fn clickhouse_endpoint_holds_the_query_parameters() {
    let endpoint = |host: &str, database: &str| {
        ClickHouseSinkConfig::new_unencrypted(host, 8123, database, "user", "secret")
            .unwrap()
            .endpoint()
            .unwrap()
    };
    assert_eq!(
        endpoint("127.0.0.1", "my db&x"),
        "http://127.0.0.1:8123/?database=my+db%26x&wait_end_of_query=1&max_query_size=16777216\
         &send_progress_in_http_headers=0"
    );
    assert_eq!(
        endpoint("::1", "db"),
        "http://[::1]:8123/?database=db&wait_end_of_query=1&max_query_size=16777216\
         &send_progress_in_http_headers=0"
    );
}

#[test]
fn clickhouse_literals_and_names_are_escaped() {
    assert_eq!(string_literal("a'b\\c\n\r\té\0"), "'a\\'b\\\\c\\n\\r\\t\\xc3\\xa9\\x00'");
    assert_eq!(quote("a`b\\c"), "`a\\`b\\\\c`");
}

#[test]
fn clickhouse_discovery_reads_identity_and_absence() {
    let config =
        ClickHouseSinkConfig::new_unencrypted("127.0.0.1", 8123, "analytics", "user", "secret")
            .unwrap();
    assert_eq!(
        config.identity_request("sink_1", "materialized").unwrap(),
        "SELECT toString(uuid) FROM system.databases WHERE name = 'analytics' FORMAT TabSeparatedRaw"
    );
    assert!(config.identity_request("Sink", "materialized").is_err());
    let reply = format!("{DATABASE_UUID}\n");
    let found = config
        .discover_target("sink_1", "materialized", &reply, "")
        .unwrap();
    assert_eq!(found, spec());
    assert!(matches!(
        config.discover_target("sink_1", "materialized", &reply, "materialized\n"),
        Err(ClickHouseSinkError::TargetExists { name }) if name == "materialized"
    ));
    assert!(require_absent("\r\nlater").is_ok());
    assert!(matches!(
        require_absent("first\r\nsecond\n"),
        Err(ClickHouseSinkError::TargetExists { name }) if name == "first"
    ));
    assert!(verify_identity("analytics", &spec(), &reply).is_ok());
    assert!(matches!(
        verify_identity("other", &spec(), &reply),
        Err(ClickHouseSinkError::DatabaseMismatch)
    ));
    assert!(matches!(
        verify_identity("analytics", &spec(), "0"),
        Err(ClickHouseSinkError::TargetIdentityChanged)
    ));
    assert_eq!(
        spec().absence_sql(),
        "SELECT name FROM system.tables WHERE database = 'analytics' AND name IN ('materialized', \
         '$dogpaddle.state.sink_1') ORDER BY name FORMAT TabSeparatedRaw"
    );
}

#[test]
fn clickhouse_layout_names_what_it_cannot_store() {
    let one = |name: &str, data_type: DataType| {
        ClickHouseLayout::try_new(Schema::new(vec![field(name, data_type, true)]))
    };
    assert!(matches!(
        one(&"x".repeat(256), DataType::Int64),
        Err(ClickHouseSinkSchemaError::InvalidFieldName { field: 0, .. })
    ));
    assert!(one(&"x".repeat(255), DataType::Int64).is_ok());
    assert!(matches!(
        one("$dogpaddle.version", DataType::Int64),
        Err(ClickHouseSinkSchemaError::TechnicalColumnCollision { field: 0, .. })
    ));
    assert!(matches!(
        one("later", DataType::Other("Duration".to_owned())),
        Err(ClickHouseSinkSchemaError::UnsupportedType { .. })
    ));
    let twice = Schema::new(vec![
        field("a", DataType::Int64, true),
        field("a", DataType::Utf8, true),
    ]);
    assert!(matches!(
        ClickHouseLayout::try_new(twice),
        Err(ClickHouseSinkSchemaError::DuplicateFieldName {
            first: 0,
            second: 1,
            ..
        })
    ));
    let wide = (0..4_093)
        .map(|index| field(&format!("f{index}"), DataType::Int64, true))
        .collect::<Vec<_>>();
    assert!(matches!(
        ClickHouseLayout::try_new(Schema::new(wide)),
        Err(ClickHouseSinkSchemaError::TooManyColumns {
            actual: 4_093,
            maximum: 4_092
        })
    ));
}

fn value_codec() -> ClickHouseRowCodec {
    ClickHouseRowCodec::new(
        ClickHouseLayout::try_new(Schema::new(vec![
            field("value", DataType::Int64, false),
            field("text", DataType::Utf8, true),
        ]))
        .unwrap(),
    )
}

fn values(rows: &[(i64, Option<&str>)]) -> Change {
    Change::try_new(
        Schema::new(vec![
            field("value", DataType::Int64, false),
            field("text", DataType::Utf8, true),
        ]),
        vec![
            Column {
                data_type: DataType::Int64,
                values: rows.iter().map(|row| Value::Int64(row.0)).collect(),
            },
            Column {
                data_type: DataType::Utf8,
                values: rows
                    .iter()
                    .map(|row| match row.1 {
                        Some(text) => Value::Utf8(text.to_owned()),
                        None => Value::Null,
                    })
                    .collect(),
            },
        ],
        rows.len(),
        vec![1; rows.len()],
    )
    .unwrap()
}

#[test]
fn clickhouse_statements_name_the_state_table_and_its_columns() {
    let codec = value_codec();
    let columns = &codec.layout.columns;
    let state = create_state_sql(&spec(), columns);
    assert!(state.starts_with("CREATE TABLE `analytics`.`$dogpaddle.state.sink_1` ("));
    assert!(state.contains("`value` Int64,`text` Nullable(String),INDEX `$dogpaddle.hash.index`"));
    assert!(state.ends_with("COMMENT 'dogpaddle.clickhouse-sink.v1:sink_1'"));
    assert_eq!(
        create_view_sql(&spec(), columns),
        "CREATE VIEW `analytics`.`materialized` AS SELECT `$dogpaddle.id`,`$dogpaddle.hash`,\
         `value`,`text` FROM `analytics`.`$dogpaddle.state.sink_1` FINAL WHERE \
         `$dogpaddle.deleted` = 0"
    );
    assert_eq!(
        lookup_join_predicate(columns),
        "s.hash = r.hash AND isNotDistinctFrom(s.`value`, r.v0) AND isNotDistinctFrom(s.`text`, \
         r.v1)"
    );
    assert_eq!(
        stored_statement(&spec(), columns, &vec![3, 5]),
        format!(
            "SELECT {} FROM `analytics`.`$dogpaddle.state.sink_1` FINAL WHERE `$dogpaddle.id` IN \
             (3,5) ORDER BY `$dogpaddle.id` FORMAT JSONCompactEachRow",
            selected_columns(columns)
        )
    );
    assert_eq!(
        count_query(&spec()),
        "SELECT count() FROM `analytics`.`$dogpaddle.state.sink_1` FORMAT TabSeparatedRaw"
    );
    assert!(objects_query(&spec()).contains("name IN ('materialized', '$dogpaddle.state.sink_1')"));
    assert!(metadata_query(&spec(), "x").ends_with("AND name = 'x' FORMAT JSONEachRow"));
}

#[test]
fn clickhouse_lookups_are_packed_and_read_in_order() {
    let codec = value_codec();
    let input = values(&[(7, Some("a")), (8, None)]);
    let request = |row_index: usize| Lookup {
        row_index,
        needed: 2,
        take: 1,
    };
    let plan = plan_lookup(&spec(), &codec, &input, &vec![request(0), request(1)]);
    assert!(plan.fault.is_none());
    assert_eq!(plan.pieces.len(), 1);
    assert_eq!((plan.pieces[0].start, plan.pieces[0].end), (0, 2));
    let hash = codec.encode_row(&input.records, 1).unwrap().hash;
    assert!(plan.pieces[0].sql.contains(&format!("(1,2,1,'{hash}',8,NULL))")));

    let found = read_lookup_rows("[0,\"2\",[\"4\"]]\n\n[1,0,[]]\n", 0, 2).unwrap();
    assert_eq!((found[0].count, found[0].ids.clone()), (2, vec![4]));
    assert_eq!((found[1].count, found[1].ids.clone()), (0, vec![]));
    for body in [
        "[0,1,[4]]\n",
        "[1,1,[4]]\n[0,1,[4]]\n",
        "[0,1,[4]]\n[1,-1,[4]]\n",
        "[0,1,[4]]\n[1,1,4]\n",
        "[0,1,[4]]\n[1,1]\n",
        "[0,1,[4]]\nx\n",
        "[0,1,[4]]\n[1,1.0,[4]]\n",
        "[0,1,[4]]\n[1,1,[null]]\n",
    ] {
        assert!(matches!(
            read_lookup_rows(body, 0, 2),
            Err(ClickHouseSinkError::InvalidResponse { stage }) if stage == "match target rows"
        ));
    }

    let large = "x".repeat(3 * 1024 * 1024);
    let input = values(&[(7, Some(&large)), (8, Some(&large))]);
    let plan = plan_lookup(
        &spec(),
        &codec,
        &input,
        &vec![request(0), request(1), request(9)],
    );
    assert!(matches!(
        plan.fault,
        Some(RowError::RowOutOfBounds { row_index: 9, .. })
    ));
    assert_eq!(plan.pieces.len(), 1);
    assert_eq!((plan.pieces[0].start, plan.pieces[0].end), (0, 1));
}

#[test]
fn clickhouse_replay_is_convergent_and_rejects_rebinding() {
    let codec = value_codec();
    let columns = &codec.layout.columns;
    let input = values(&[(7, Some("a")), (8, None)]);
    let insert = |row_index: u64| Batch {
        inserts: vec![Insert {
            row_index,
            technical_id: 1,
        }],
        deletes: vec![],
    };
    let delete = Batch {
        inserts: vec![],
        deletes: vec![Delete {
            row_index: 0,
            technical_id: 1,
        }],
    };
    let none = Vec::new();
    let actions = plan_write(&codec, &input, &terminal_mutations(&insert(0)), &none).unwrap();
    let payload = write_payload(&spec(), columns, &actions).unwrap();
    let row = codec.encode_row(&input.records, 0).unwrap();
    let line = payload.lines().nth(1).unwrap();
    assert_eq!(
        line,
        format!(
            "[1,\"{}\",0,0,7,\"{}\"]",
            row.hash,
            STANDARD.encode([1, 0, 0, 0, 0, 0, 0, 0, 1, b'a'])
        )
    );
    let stored = read_stored(&spec(), columns, line).unwrap();
    assert_eq!((stored[0].id, stored[0].deleted), (1, false));
    let again = plan_write(&codec, &input, &terminal_mutations(&insert(0)), &stored).unwrap();
    assert!(again.is_empty());
    assert!(write_payload(&spec(), columns, &again).is_none());
    assert!(matches!(
        plan_write(&codec, &input, &terminal_mutations(&insert(1)), &stored),
        Err(ClickHouseSinkError::InvalidBatch { message })
            if message == "technical ID 1 is bound to another logical row"
    ));
    let actions = plan_write(&codec, &input, &terminal_mutations(&delete), &stored).unwrap();
    let payload = write_payload(&spec(), columns, &actions).unwrap();
    let quoted = payload.lines().nth(1).unwrap().replace(",7,", ",\"7\",");
    let stored = read_stored(&spec(), columns, &quoted).unwrap();
    assert!(stored[0].deleted);
    assert!(
        plan_write(&codec, &input, &terminal_mutations(&delete), &stored)
            .unwrap()
            .is_empty()
    );
    assert!(matches!(
        plan_write(&codec, &input, &terminal_mutations(&insert(0)), &stored),
        Err(ClickHouseSinkError::InvalidBatch { message })
            if message == "technical ID 1 cannot be resurrected"
    ));
    assert!(
        plan_write(&codec, &input, &terminal_mutations(&delete), &none)
            .unwrap()
            .is_empty()
    );
}

#[test]
fn clickhouse_stored_rows_are_checked() {
    let codec = value_codec();
    let columns = &codec.layout.columns;
    for body in ["[1,\"h\",0,0,7]", "{}", "[1,2,0,0,7,null]", "[-1,\"h\",0,0,7,null]"] {
        assert!(matches!(
            read_stored(&spec(), columns, body),
            Err(ClickHouseSinkError::InvalidResponse { stage }) if stage == "read mutation IDs"
        ));
    }
    for body in [
        "[1,\"h\",0,1,7,null]",
        "[1,\"h\",2,2,7,null]",
        "[1,\"h\",0,0,7,null]\n[1,\"h\",1,1,7,null]",
    ] {
        assert!(matches!(
            read_stored(&spec(), columns, body),
            Err(ClickHouseSinkError::TargetLayoutMismatch { name })
                if name == "$dogpaddle.state.sink_1"
        ));
    }
}

#[test]
fn clickhouse_events_are_charged_with_what_it_takes_to_write_them() {
    let codec = value_codec();
    let input = values(&[(7, Some("a"))]);
    let row = codec.encode_row(&input.records, 0).unwrap();
    let json = format!(
        "[{},\"{}\",1,1,7,{}]",
        u64::MAX,
        row.hash,
        row.values[1].json()
    );
    let framing = selected_columns(&codec.layout.columns).len()
        + "analytics".len()
        + "$dogpaddle.state.sink_1".len()
        + 256;
    assert_eq!(
        event_bytes(&spec(), &codec, &input, 0).unwrap(),
        u64::try_from(json.len() + framing).unwrap()
    );
    let large = values(&[(7, Some(&"x".repeat(100_000)))]);
    assert!(
        event_bytes(&spec(), &codec, &large, 0).unwrap()
            > relation_event_bytes(&large, 0).unwrap()
    );
    assert!(event_bytes(&spec(), &codec, &input, 1).is_err());
}

#[test]
fn clickhouse_initialization_decides_from_the_objects_it_finds() {
    let kinds = |body: &str| object_kinds(body).unwrap();
    assert!(begin_initialization(&spec(), &kinds("")).unwrap());
    let state = "{\"name\":\"$dogpaddle.state.sink_1\",\"engine\":\"ReplacingMergeTree\"}\n";
    let view = "{\"name\":\"materialized\",\"engine\":\"View\"}\n";
    assert!(!begin_initialization(&spec(), &kinds(state)).unwrap());
    assert!(!begin_initialization(&spec(), &kinds(&format!("{view}{state}"))).unwrap());
    assert!(matches!(
        begin_initialization(&spec(), &kinds(view)),
        Err(ClickHouseSinkError::TargetMissing { name }) if name == "$dogpaddle.state.sink_1"
    ));
    assert!(matches!(
        begin_initialization(&spec(), &kinds(&state.replace("Replacing", ""))),
        Err(ClickHouseSinkError::TargetLayoutMismatch { name })
            if name == "$dogpaddle.state.sink_1"
    ));
    assert!(object_kinds("x").is_err());
    assert!(require_empty("0\n").is_ok());
    assert!(matches!(
        require_empty("3\n"),
        Err(ClickHouseSinkError::TargetNotEmpty)
    ));
    assert!(require_empty("none").is_err());
}

#[test]
fn clickhouse_layout_of_the_objects_is_verified() {
    let codec = value_codec();
    let columns = &codec.layout.columns;
    let body = "{\"name\":\"$dogpaddle.id\",\"type\":\"UInt64\"}\n\
                {\"name\":\"$dogpaddle.hash\",\"type\":\"FixedString(32)\"}\n\
                {\"name\":\"$dogpaddle.version\",\"type\":\"UInt8\"}\n\
                {\"name\":\"$dogpaddle.deleted\",\"type\":\"UInt8\"}\n\
                {\"name\":\"value\",\"type\":\"Int64\"}\n\
                {\"name\":\"text\",\"type\":\"Nullable(String)\"}\n";
    assert!(verify_state_columns(&spec(), columns, body).is_ok());
    assert!(verify_state_columns(&spec(), columns, &body.replace("Int64\"}\n{\"name\":\"text", "Int32\"}\n{\"name\":\"text")).is_err());
    let metadata = object_metadata(
        " {\"engine\":\"ReplacingMergeTree\",\"comment\":\"dogpaddle.clickhouse-sink.v1:sink_1\",\
         \"create_table_query\":\"\",\"sorting_key\":\"`$dogpaddle.id`\",\
         \"primary_key\":\"`$dogpaddle.id`\",\"engine_full\":\
         \"ReplacingMergeTree(`$dogpaddle.version`) ORDER BY `$dogpaddle.id` SETTINGS \
         fsync_after_insert = 1, fsync_part_directory = 1, index_granularity = 8192\"}\n",
    )
    .unwrap();
    assert!(verify_state_metadata(&spec(), &metadata).is_ok());
    let index = "{\"name\":\"$dogpaddle.hash.index\",\"type_full\":\"set(0)\",\
                 \"expr\":\"`$dogpaddle.hash`\",\"granularity\":1}\n";
    assert!(has_exact_hash_index(index).unwrap());
    assert!(!has_exact_hash_index(&index.replace(":1}", ":2}")).unwrap());
    assert!(!has_exact_hash_index("").unwrap());
    assert!(has_exact_hash_index("x").is_err());

    let sql = create_view_sql(&spec(), columns);
    let view = |query: &str| {
        object_metadata(
            &serde_json::to_string(&std::collections::BTreeMap::from([
                ("engine", "View"),
                ("create_table_query", query),
            ]))
            .unwrap(),
        )
        .unwrap()
    };
    assert!(verify_view_metadata(&spec(), columns, &view(&sql)).is_ok());
    let spaced = sql.replace(" AS SELECT", " (a Int64)\n AS\tSELECT").replace('`', "");
    assert!(verify_view_metadata(&spec(), columns, &view(&spaced)).is_ok());
    assert!(verify_view_metadata(&spec(), columns, &view(&sql.replace(" = 0", " = 1"))).is_err());
    assert_eq!(
        select_tail("CREATE VIEW x AS SELECT `a`"),
        Some("ASSELECTa".to_owned())
    );
    assert_eq!(select_tail("nothing"), None);
    assert!(verify_view_columns(&spec(), columns, "4\n").is_ok());
    assert!(verify_view_columns(&spec(), columns, "5").is_err());
}
