use dogpaddle_sink::change::{
    Change, Column, DataType, Field, RecordBatch, Schema, TimeUnit, Value,
};
use dogpaddle_sink::doris::config::{DorisSinkConfig, DorisTargetSpec};
use dogpaddle_sink::doris::definition::{decode_definition, DorisSinkDefinition, ParsedTarget};
use dogpaddle_sink::doris::error::{DorisSinkError, DorisSinkSchemaError};
use dogpaddle_sink::doris::row::{DorisRowCodec, DorisValue};
use dogpaddle_sink::doris::schema::DorisLayout;
use dogpaddle_sink::doris::sql::{
    create_state_sql, create_view_sql, expected_view_definition, insert_prefix, mutation_values,
    quote, quote_literal, stored_statement,
};
use dogpaddle_sink::doris::target::{
    begin_initialization, event_bytes, insert_statements, next_write, plan_lookup, plan_write,
    read_lookup_rows, read_stored, require_empty, values_equal, verify_cluster, verify_database,
    verify_state_catalog, verify_state_definition, verify_view_columns, verify_view_definition,
    write_failure, CatalogColumn, MatchRow, TableProperties, WriteCommand, WriteEvent, WritePhase,
};
use dogpaddle_sink::relation::batch::{terminal_mutations, Batch, Delete, Insert};
use dogpaddle_sink::relation::plan::Lookup;
use dogpaddle_sink::relation::row::RowError;

fn field(name: &str, data_type: DataType, nullable: bool) -> Field {
    Field {
        name: name.to_owned(),
        data_type,
        nullable,
        metadata: Vec::new(),
    }
}

fn spec() -> DorisTargetSpec {
    DorisTargetSpec::try_new("sink_1", "analytics", "materialized", 42).unwrap()
}

fn bytes(value: &[u8]) -> DorisValue {
    DorisValue::Bytes(value.to_vec())
}

#[test]
fn definition_round_trips_canonically() {
    let definition = DorisSinkDefinition::try_new(spec()).unwrap();
    let mut encoded = Vec::new();
    definition.encode_payload(&mut encoded);
    let parsed: serde_json::Value = serde_json::from_slice(&encoded).unwrap();
    let text = |key: &str| parsed[key].as_str().unwrap().to_owned();
    let decoded = decode_definition(
        &encoded,
        Some(ParsedTarget {
            sink_id: text("sink_id"),
            database: text("database"),
            table: text("table"),
            cluster_id: parsed["cluster_id"].as_u64().unwrap(),
        }),
    )
    .unwrap();
    assert_eq!(decoded.persistence_tag(), 18);
    let mut again = Vec::new();
    decoded.encode_payload(&mut again);
    assert_eq!(again, encoded);
    assert_eq!(decoded.target().cluster_id(), 42);
}

#[test]
fn row_codec_maps_every_supported_type_without_reinterpreting_canonical_values() {
    let list = || DataType::List(Box::new(field("item", DataType::Int64, true)));
    let structure = || {
        DataType::Struct(vec![
            field("flag", DataType::Boolean, false),
            field("text", DataType::Utf8, true),
        ])
    };
    let zoned = |unit: TimeUnit, zone: &str| DataType::Timestamp(unit, Some(zone.to_owned()));
    let cells = || -> Vec<(&str, DataType, Value, Value)> {
        vec![
            ("null", DataType::Null, Value::Null, Value::Null),
            (
                "bool",
                DataType::Boolean,
                Value::Boolean(true),
                Value::Null,
            ),
            ("i8", DataType::Int8, Value::Int8(i8::MIN), Value::Null),
            ("i16", DataType::Int16, Value::Int16(i16::MIN), Value::Null),
            ("i32", DataType::Int32, Value::Int32(i32::MIN), Value::Null),
            ("i64", DataType::Int64, Value::Int64(i64::MIN), Value::Null),
            ("u8", DataType::UInt8, Value::UInt8(u8::MAX), Value::Null),
            (
                "u16",
                DataType::UInt16,
                Value::UInt16(u16::MAX),
                Value::Null,
            ),
            (
                "u32",
                DataType::UInt32,
                Value::UInt32(u32::MAX),
                Value::Null,
            ),
            (
                "u64",
                DataType::UInt64,
                Value::UInt64(u64::MAX),
                Value::Null,
            ),
            (
                "f32",
                DataType::Float32,
                Value::Float32((-0.0_f32).to_bits()),
                Value::Null,
            ),
            (
                "f64",
                DataType::Float64,
                Value::Float64(0x7ff8_0000_0000_0001),
                Value::Null,
            ),
            (
                "utf8",
                DataType::Utf8,
                Value::Utf8("hé\0".to_owned()),
                Value::Null,
            ),
            (
                "binary",
                DataType::Binary,
                Value::Binary(vec![0, 255]),
                Value::Null,
            ),
            (
                "list",
                list(),
                Value::List(vec![Value::Int64(7), Value::Null]),
                Value::Null,
            ),
            (
                "struct",
                structure(),
                Value::Struct(vec![Value::Boolean(true), Value::Utf8("x".to_owned())]),
                Value::Struct(vec![Value::Boolean(false), Value::Null]),
            ),
            (
                "date32",
                DataType::Date32,
                Value::Date32(i32::MIN),
                Value::Null,
            ),
            (
                "timestamp_s",
                DataType::Timestamp(TimeUnit::Second, None),
                Value::Timestamp(i64::MIN),
                Value::Null,
            ),
            (
                "timestamp_ms",
                zoned(TimeUnit::Millisecond, "UTC"),
                Value::Timestamp(i64::MAX),
                Value::Null,
            ),
            (
                "timestamp_us",
                zoned(TimeUnit::Microsecond, "+08:00"),
                Value::Timestamp(-1),
                Value::Null,
            ),
            (
                "timestamp_ns",
                zoned(TimeUnit::Nanosecond, "America/New_York"),
                Value::Timestamp(i64::MIN + 1),
                Value::Null,
            ),
            (
                "decimal",
                DataType::Decimal128(10, 2),
                Value::Decimal128(-123),
                Value::Null,
            ),
        ]
    };
    let schema = || {
        Schema::new(
            cells()
                .into_iter()
                .map(|(name, data_type, _, _)| field(name, data_type, name != "null"))
                .collect(),
        )
    };
    let batch = RecordBatch {
        schema: schema(),
        columns: cells()
            .into_iter()
            .map(|(_, data_type, present, absent)| Column {
                data_type,
                values: vec![present, absent],
            })
            .collect(),
        rows: 2,
    };
    let codec = DorisRowCodec::new(DorisLayout::try_new(schema()).unwrap());
    let present = codec.encode_row(&batch, 0).unwrap();
    let absent = codec.encode_row(&batch, 1).unwrap();

    assert_eq!(
        present.values,
        vec![
            DorisValue::Null,
            DorisValue::Int(1),
            DorisValue::Int(i64::from(i8::MIN)),
            DorisValue::Int(i64::from(i16::MIN)),
            DorisValue::Int(i64::from(i32::MIN)),
            DorisValue::Int(i64::MIN),
            DorisValue::UInt(u64::from(u8::MAX)),
            DorisValue::UInt(u64::from(u16::MAX)),
            DorisValue::UInt(u64::from(u32::MAX)),
            bytes(b"Af//////////"),
            bytes(b"AYAAAAA="),
            bytes(b"AX/4AAAAAAAB"),
            bytes("hé\0".as_bytes()),
            bytes(b"AQAAAAAAAAACAP8="),
            bytes(b"AQAAAAAAAAACAQAAAAAAAAAHAA=="),
            bytes(b"AQEBAQAAAAAAAAABeA=="),
            DorisValue::Int(i64::from(i32::MIN)),
            DorisValue::Int(i64::MIN),
            DorisValue::Int(i64::MAX),
            DorisValue::Int(-1),
            DorisValue::Int(i64::MIN + 1),
            bytes(b"Af///////////////////4U="),
        ]
    );
    let mut expected_absent = (0..present.values.len())
        .map(|_| DorisValue::Null)
        .collect::<Vec<_>>();
    expected_absent[15] = bytes(b"AQEAAA==");
    assert_eq!(absent.values, expected_absent);
    assert_ne!(present.hash, absent.hash);
    assert_eq!(present.hash.len(), 32);
    assert!(present.hash.iter().all(u8::is_ascii_hexdigit));
}

#[test]
fn row_codec_rejects_null_in_non_nullable_nested_child_without_partial_row() {
    let object = || DataType::Struct(vec![field("required", DataType::Int64, false)]);
    let schema = || Schema::new(vec![field("object", object(), true)]);
    let batch = RecordBatch {
        schema: schema(),
        columns: vec![Column {
            data_type: object(),
            values: vec![Value::Struct(vec![Value::Int64(7)]), Value::Null],
        }],
        rows: 2,
    };
    let codec = DorisRowCodec::new(DorisLayout::try_new(schema()).unwrap());
    assert_eq!(
        codec.encode_row(&batch, 0).unwrap().values,
        [bytes(b"AQEAAAAAAAAABw==")]
    );
    assert_eq!(codec.encode_row(&batch, 1).unwrap().values, [DorisValue::Null]);
    let inner = RecordBatch {
        schema: schema(),
        columns: vec![Column {
            data_type: object(),
            values: vec![Value::Struct(vec![Value::Null])],
        }],
        rows: 1,
    };
    assert!(matches!(
        codec.encode_row(&inner, 0),
        Err(RowError::UnexpectedNull { field }) if field == "object.required"
    ));
}

#[test]
fn row_codec_preserves_canonical_nested_type_validation_with_relaxed_record_batch_names() {
    let named = |name: &str| DataType::Struct(vec![field(name, DataType::Int64, false)]);
    let schema = || Schema::new(vec![field("object", named("declared"), false)]);
    let batch = RecordBatch {
        schema: schema(),
        columns: vec![Column {
            data_type: named("actual"),
            values: vec![Value::Struct(vec![Value::Int64(9)])],
        }],
        rows: 1,
    };
    let codec = DorisRowCodec::new(DorisLayout::try_new(schema()).unwrap());

    let name_of = |data_type: &DataType| match data_type {
        DataType::Struct(fields) => fields[0].name.clone(),
        _ => String::new(),
    };
    assert!(matches!(
        codec.encode_row(&batch, 0),
        Err(RowError::ArrayTypeMismatch {
            field,
            expected,
            actual,
        }) if field == "object" && name_of(&expected) == "declared" && name_of(&actual) == "actual"
    ));
}

#[test]
fn row_codec_rejects_out_of_bounds_index() {
    let schema = || Schema::new(vec![field("number", DataType::Int64, false)]);
    let batch = RecordBatch {
        schema: schema(),
        columns: vec![Column {
            data_type: DataType::Int64,
            values: vec![Value::Int64(7)],
        }],
        rows: 1,
    };
    let codec = DorisRowCodec::new(DorisLayout::try_new(schema()).unwrap());
    assert!(codec.encode_row(&batch, 1).is_err());
}

#[test]
fn target_spec_rejects_zero_cluster_identity() {
    assert!(DorisTargetSpec::try_new("sink", "db", "table", 0).is_err());
}

#[test]
fn target_spec_rejects_case_folded_state_collision() {
    assert!(DorisTargetSpec::try_new("sink", "db", "$DOGPADDLE.STATE.SINK", 1).is_err());
}

#[test]
fn layout_rejects_case_folded_column_collisions() {
    let duplicate = Schema::new(vec![
        field("value", DataType::Int64, false),
        field("VALUE", DataType::Int64, false),
    ]);
    assert!(DorisLayout::try_new(duplicate).is_err());

    let technical = Schema::new(vec![field("__DOGPADDLE_ID", DataType::Int64, false)]);
    assert!(DorisLayout::try_new(technical).is_err());
}

#[test]
fn runtime_config_requires_numeric_ip_and_redacts_password() {
    assert!(DorisSinkConfig::new_unencrypted("localhost", 9030, "db", "user", "secret").is_err());
    let config =
        DorisSinkConfig::new_unencrypted("127.0.0.1", 9030, "db", "user", "secret").unwrap();
    let debug = config.redacted();
    assert!(debug.contains("[redacted]"));
    assert!(!debug.contains("secret"));
}

#[test]
fn doris_discovery_checks_the_database_the_cluster_and_absence() {
    let config =
        DorisSinkConfig::new_unencrypted("127.0.0.1", 9030, "analytics", "user", "").unwrap();
    let none = Vec::new();
    let found = config
        .discover_target("sink_1", "materialized", true, &vec![42], &none)
        .unwrap();
    assert_eq!(found, spec());
    let message = |result: Result<DorisTargetSpec, DorisSinkError>| match result {
        Err(DorisSinkError::InvalidSpec { message }) => message,
        _ => String::new(),
    };
    assert_eq!(
        message(config.discover_target("sink_1", "materialized", false, &vec![42], &none)),
        "target database does not exist"
    );
    assert_eq!(
        message(config.discover_target("sink_1", "materialized", true, &vec![1, 2], &none)),
        "Doris frontend metadata does not expose one cluster identity"
    );
    assert_eq!(
        message(config.discover_target("sink_1", "materialized", true, &vec![0], &none)),
        "cluster identity must be nonzero"
    );
    assert!(matches!(
        config.discover_target("sink_1", "materialized", true, &vec![42], &vec!["x".to_owned()]),
        Err(DorisSinkError::TargetExists { name }) if name == "x"
    ));
    assert!(verify_database("analytics", &spec()).is_ok());
    assert!(verify_database("other", &spec()).is_err());
    assert!(verify_cluster(&spec(), &vec![42]).is_ok());
    assert!(matches!(
        verify_cluster(&spec(), &vec![42, 42]),
        Err(DorisSinkError::TargetIdentityChanged)
    ));
}

#[test]
fn doris_layout_names_what_it_cannot_store() {
    let one = |name: &str, data_type: DataType| {
        DorisLayout::try_new(Schema::new(vec![field(name, data_type, true)]))
    };
    assert!(matches!(
        one(&"x".repeat(65), DataType::Int64),
        Err(DorisSinkSchemaError::InvalidFieldName { field: 0, .. })
    ));
    assert!(matches!(
        one("$DogPaddle.Hash", DataType::Int64),
        Err(DorisSinkSchemaError::TechnicalColumnCollision { field: 0, .. })
    ));
    assert!(matches!(
        one("later", DataType::Other("Duration".to_owned())),
        Err(DorisSinkSchemaError::UnsupportedType { .. })
    ));
    let wide = (0..1_598)
        .map(|index| field(&format!("f{index}"), DataType::Int64, true))
        .collect::<Vec<_>>();
    assert!(matches!(
        DorisLayout::try_new(Schema::new(wide)),
        Err(DorisSinkSchemaError::TooManyColumns {
            actual: 1_598,
            maximum: 1_597
        })
    ));
}

fn value_codec() -> DorisRowCodec {
    DorisRowCodec::new(
        DorisLayout::try_new(Schema::new(vec![
            field("value", DataType::Int64, false),
            field("te`xt", DataType::Utf8, true),
        ]))
        .unwrap(),
    )
}

fn values(rows: &[(i64, Option<&str>)]) -> Change {
    Change::try_new(
        Schema::new(vec![
            field("value", DataType::Int64, false),
            field("te`xt", DataType::Utf8, true),
        ]),
        vec![
            Column {
                data_type: DataType::Int64,
                values: rows.iter().map(|row| Value::Int64(row.0)).collect(),
            },
            Column {
                data_type: DataType::Utf8,
                values: rows
                    .iter()
                    .map(|row| match row.1 {
                        Some(text) => Value::Utf8(text.to_owned()),
                        None => Value::Null,
                    })
                    .collect(),
            },
        ],
        rows.len(),
        vec![1; rows.len()],
    )
    .unwrap()
}

#[test]
fn doris_statements_name_the_state_table_and_its_columns() {
    let codec = value_codec();
    let columns = &codec.layout.columns;
    assert_eq!(quote("a`b"), "`a``b`");
    assert_eq!(quote_literal("a'b\\"), "'a''b\\\\'");
    let state = create_state_sql(&spec(), columns);
    assert!(state.starts_with("CREATE TABLE `analytics`.`$dogpaddle.state.sink_1` ("));
    assert!(state.contains("`value` BIGINT NOT NULL,`te``xt` STRING NULL,INDEX"));
    assert!(state.contains("COMMENT 'dogpaddle.doris-sink.v1:sink_1' DISTRIBUTED BY HASH("));
    assert!(state.ends_with("\"function_column.sequence_col\" = '__dogpaddle_deleted')"));
    assert_eq!(
        create_view_sql(&spec(), columns),
        "CREATE VIEW `analytics`.`materialized` AS SELECT `__dogpaddle_id` AS `$dogpaddle.id`,\
         `__dogpaddle_hash` AS `$dogpaddle.hash`,`value`,`te``xt` FROM \
         `analytics`.`$dogpaddle.state.sink_1` WHERE `__dogpaddle_deleted` = 0"
    );
    assert_eq!(
        stored_statement(&spec(), columns, 2),
        "SELECT `__dogpaddle_id`,`__dogpaddle_hash`,`__dogpaddle_deleted`,`value`,`te``xt` FROM \
         `analytics`.`$dogpaddle.state.sink_1` WHERE `__dogpaddle_id` IN (?,?) ORDER BY \
         `__dogpaddle_id`"
    );
    assert_eq!(
        expected_view_definition(&spec(), columns),
        "SELECTinternal.analytics.$dogpaddle.state.sink_1.__dogpaddle_idAS$dogpaddle.id,\
         internal.analytics.$dogpaddle.state.sink_1.__dogpaddle_hashAS$dogpaddle.hash,\
         internal.analytics.$dogpaddle.state.sink_1.value,\
         internal.analytics.$dogpaddle.state.sink_1.te`xt\
         FROMinternal.analytics.$dogpaddle.state.sink_1\
         WHEREinternal.analytics.$dogpaddle.state.sink_1.__dogpaddle_deleted=0"
    );
}

#[test]
fn doris_lookups_are_packed_by_clauses_and_read_in_order() {
    let codec = value_codec();
    let input = values(&[(7, Some("a")), (8, None)]);
    let request = |row_index: usize| Lookup {
        row_index,
        needed: 2,
        take: 1,
    };
    let plan = plan_lookup(&spec(), &codec, &input, &vec![request(0), request(1)]);
    assert_eq!(plan.pieces.len(), 1);
    assert_eq!(plan.pieces[0].parameters.len(), 6);
    assert_eq!(plan.pieces[0].parameters[1], DorisValue::Int(7));
    assert_eq!(plan.pieces[0].parameters[5], DorisValue::Null);
    assert!(plan.pieces[0]
        .sql
        .contains("`__dogpaddle_hash` = ? AND `value` <=> ? AND `te``xt` <=> ?"));
    assert!(plan.pieces[0]
        .sql
        .ends_with("LIMIT 1) ORDER BY n, id IS NULL, id"));
    let many = (0..130).map(|_| request(0)).collect::<Vec<_>>();
    let plan = plan_lookup(&spec(), &codec, &input, &many);
    assert_eq!(
        plan.pieces
            .iter()
            .map(|piece| (piece.start, piece.end))
            .collect::<Vec<_>>(),
        [(0, 128), (128, 130)]
    );

    let row = |request: u64, id: Option<u64>, count: u64| MatchRow { request, id, count };
    let found = read_lookup_rows(
        &vec![
            row(3, Some(4), 2),
            row(3, Some(6), 2),
            row(4, None, 0),
        ],
        3,
        5,
    )
    .unwrap();
    assert_eq!((found[0].count, found[0].ids.clone()), (2, vec![4, 6]));
    assert_eq!((found[1].count, found[1].ids.clone()), (0, vec![]));
    let stage = |rows: Vec<MatchRow>| match read_lookup_rows(&rows, 0, 1) {
        Err(DorisSinkError::Database { stage }) => stage,
        _ => String::new(),
    };
    assert_eq!(
        stage(vec![row(1, None, 0)]),
        "decode matching request order"
    );
    assert_eq!(
        stage(vec![row(0, Some(1), 2), row(0, Some(2), 3)]),
        "decode matching-row count"
    );
    assert_eq!(stage(vec![row(0, None, 1)]), "decode matching-row count");
    assert_eq!(stage(vec![]), "decode matching rows");
}

#[test]
fn doris_replay_is_convergent_and_rejects_rebinding() {
    let codec = value_codec();
    let input = values(&[(7, Some("a")), (8, None)]);
    let insert = |row_index: u64| Batch {
        inserts: vec![Insert {
            row_index,
            technical_id: 1,
        }],
        deletes: vec![],
    };
    let delete = Batch {
        inserts: vec![],
        deletes: vec![Delete {
            row_index: 0,
            technical_id: 1,
        }],
    };
    let hash = codec.encode_row(&input.records, 0).unwrap().hash;
    let reply = |deleted: DorisValue| {
        vec![vec![
            bytes(b"1"),
            DorisValue::Bytes(hash.clone()),
            deleted,
            DorisValue::UInt(7),
            bytes(b"a"),
        ]]
    };
    let none = Vec::new();
    let actions = plan_write(&codec, &input, &terminal_mutations(&insert(0)), &none).unwrap();
    assert_eq!(actions.len(), 1);
    let present = read_stored(&spec(), &reply(DorisValue::Int(0))).unwrap();
    assert!(
        plan_write(&codec, &input, &terminal_mutations(&insert(0)), &present)
            .unwrap()
            .is_empty()
    );
    assert!(matches!(
        plan_write(&codec, &input, &terminal_mutations(&insert(1)), &present),
        Err(DorisSinkError::InvalidBatch { message })
            if message == "technical ID 1 is bound to another logical row"
    ));
    let actions = plan_write(&codec, &input, &terminal_mutations(&delete), &present).unwrap();
    assert_eq!((actions[0].id, actions[0].deleted), (1, true));
    let gone = read_stored(&spec(), &reply(bytes(b"1"))).unwrap();
    assert!(gone[0].deleted);
    assert!(
        plan_write(&codec, &input, &terminal_mutations(&delete), &gone)
            .unwrap()
            .is_empty()
    );
    assert!(matches!(
        plan_write(&codec, &input, &terminal_mutations(&insert(0)), &gone),
        Err(DorisSinkError::InvalidBatch { message })
            if message == "technical ID 1 cannot be resurrected"
    ));
    let stage = |row: Vec<DorisValue>| match read_stored(&spec(), &vec![row]) {
        Err(DorisSinkError::Database { stage }) => stage,
        _ => String::new(),
    };
    assert_eq!(stage(vec![DorisValue::Int(-1)]), "decode mutation ID");
    assert_eq!(stage(vec![bytes(b"\xff")]), "decode mutation ID");
    assert_eq!(
        stage(vec![DorisValue::UInt(1), DorisValue::Null]),
        "decode row hash"
    );
    assert_eq!(
        stage(vec![DorisValue::UInt(1), bytes(b"h"), DorisValue::Int(2)]),
        "decode delete marker"
    );
    let mut twice = reply(DorisValue::Int(0));
    twice.extend(reply(DorisValue::Int(0)));
    assert!(matches!(
        read_stored(&spec(), &twice),
        Err(DorisSinkError::TargetLayoutMismatch { .. })
    ));
    assert!(values_equal(&DorisValue::Int(5), &DorisValue::UInt(5)));
    assert!(!values_equal(
        &DorisValue::Int(-1),
        &DorisValue::UInt(u64::MAX)
    ));
    assert!(!values_equal(&DorisValue::Other, &DorisValue::Other));
}

#[test]
fn doris_wide_batches_are_split_by_values() {
    let fields = || {
        (0..100)
            .map(|index| field(&format!("f{index}"), DataType::Null, true))
            .collect::<Vec<_>>()
    };
    let input = Change::try_new(
        Schema::new(fields()),
        (0..100)
            .map(|_| Column {
                data_type: DataType::Null,
                values: vec![Value::Null],
            })
            .collect(),
        1,
        vec![1024],
    )
    .unwrap();
    let codec = DorisRowCodec::new(DorisLayout::try_new(Schema::new(fields())).unwrap());
    let batch = Batch {
        inserts: (1..=1024)
            .map(|technical_id| Insert {
                row_index: 0,
                technical_id,
            })
            .collect(),
        deletes: vec![],
    };
    let actions = plan_write(&codec, &input, &terminal_mutations(&batch), &Vec::new()).unwrap();
    assert_eq!(actions.len(), 1024);
    let statements = insert_statements(&spec(), &codec.layout.columns, &actions);
    // Each row has 103 values, so that 97 rows stay within 10000.
    assert_eq!(statements.len(), 11);
    let rows = |statement: &str| statement.matches("X'").count();
    assert_eq!(rows(&statements[0]), 97);
    assert_eq!(statements.iter().map(|text| rows(text)).sum::<usize>(), 1024);
    assert!(statements[0].starts_with(&insert_prefix(&spec(), &codec.layout.columns)));
}

#[test]
fn doris_writes_run_in_a_transaction_unless_there_is_one_statement() {
    let run = |statements: usize, events: &[WriteEvent]| {
        let mut phase = WritePhase::Start;
        let mut commands = Vec::new();
        let mut last = WriteEvent::Succeeded;
        for event in events {
            let (command, next) = next_write(statements, phase, last);
            commands.push(command);
            phase = next;
            last = *event;
        }
        commands.push(next_write(statements, phase, last).0);
        commands
    };
    let ok = WriteEvent::Succeeded;
    assert_eq!(
        run(2, &[ok, ok, ok, ok]),
        [
            WriteCommand::Begin,
            WriteCommand::Execute { statement: 0 },
            WriteCommand::Execute { statement: 1 },
            WriteCommand::Commit,
            WriteCommand::Finish,
        ]
    );
    assert_eq!(
        run(2, &[ok, WriteEvent::Failed, ok]),
        [
            WriteCommand::Begin,
            WriteCommand::Execute { statement: 0 },
            WriteCommand::Rollback,
            WriteCommand::FailApply,
        ]
    );
    assert_eq!(
        run(2, &[WriteEvent::OutOfTime, ok]),
        [
            WriteCommand::Begin,
            WriteCommand::Rollback,
            WriteCommand::FailApply
        ]
    );
    assert_eq!(
        run(1, &[WriteEvent::Failed]),
        [
            WriteCommand::Execute { statement: 0 },
            WriteCommand::FailApply
        ]
    );
    assert_eq!(run(2, &[WriteEvent::Failed]), [
        WriteCommand::Begin,
        WriteCommand::FailBegin
    ]);
    assert!(matches!(
        write_failure(WriteCommand::FailCommit),
        Some(DorisSinkError::Database { stage }) if stage == "commit relation batch"
    ));
    assert!(write_failure(WriteCommand::Finish).is_none());
}

#[test]
fn doris_events_are_charged_with_what_it_takes_to_write_them() {
    let codec = value_codec();
    let input = values(&[(7, Some("a"))]);
    let row = codec.encode_row(&input.records, 0).unwrap();
    let text = mutation_values(u64::MAX, true, &row);
    assert!(text.ends_with(",1,7,X'61')"));
    assert_eq!(
        event_bytes(&spec(), &codec, &input, 0).unwrap(),
        u64::try_from(text.len() + insert_prefix(&spec(), &codec.layout.columns).len()).unwrap()
    );
}

#[test]
fn doris_layout_of_the_objects_is_verified() {
    let codec = value_codec();
    let columns = &codec.layout.columns;
    let column = |name: &str, column_type: &str, nullable: &str| CatalogColumn {
        name: name.to_owned(),
        column_type: column_type.to_owned(),
        nullable: nullable.to_owned(),
    };
    let catalog = |last: &str| {
        vec![
            column("__dogpaddle_id", "bigint(20)", "NO"),
            column("__dogpaddle_hash", "CHAR(32)", "NO"),
            column("__dogpaddle_deleted", "tinyint(4)", "NO"),
            column("value", "bigint(20)", "NO"),
            column("te`xt", last, "YES"),
        ]
    };
    let properties = |comment: &str| {
        Some(TableProperties {
            table_type: "BASE TABLE".to_owned(),
            comment: comment.to_owned(),
        })
    };
    let marker = "dogpaddle.doris-sink.v1:sink_1";
    assert!(
        verify_state_catalog(&spec(), columns, &catalog("string"), &properties(marker)).is_ok()
    );
    assert!(
        verify_state_catalog(&spec(), columns, &catalog("int(11)"), &properties(marker)).is_err()
    );
    assert!(verify_state_catalog(&spec(), columns, &catalog("string"), &properties("x")).is_err());
    assert!(verify_state_catalog(&spec(), columns, &catalog("string"), &None).is_err());
    let definition = Some(
        create_state_sql(&spec(), columns).replace(
            "= '__dogpaddle_deleted')",
            "= \"__dogpaddle_deleted\")",
        ),
    );
    assert!(verify_state_definition(&spec(), &definition).is_ok());
    assert!(verify_state_definition(&spec(), &None).is_err());
    assert!(verify_state_definition(
        &spec(),
        &definition.map(|sql| sql.replace("BUCKETS 1", "BUCKETS 2"))
    )
    .is_err());
    let plain = DorisLayout::try_new(Schema::new(vec![field("Value", DataType::Int64, false)]))
        .unwrap()
        .columns;
    let view = expected_view_definition(&spec(), &plain).to_uppercase();
    let spaced = view.replace("FROM", " FROM `").replace("WHERE", "\nWHERE ");
    assert!(verify_view_definition(&spec(), &plain, &Some(spaced)).is_ok());
    assert!(verify_view_definition(&spec(), &plain, &Some(view.replace("=0", "=1"))).is_err());
    assert!(verify_view_columns(&spec(), &plain, Some(3)).is_ok());
    assert!(verify_view_columns(&spec(), &plain, None).is_err());
    let kinds = |pairs: &[(&str, &str)]| {
        pairs
            .iter()
            .map(|(name, kind)| ((*name).to_owned(), (*kind).to_owned()))
            .collect::<Vec<_>>()
    };
    let state = "$dogpaddle.state.sink_1";
    assert!(begin_initialization(&spec(), &kinds(&[])).unwrap());
    assert!(!begin_initialization(&spec(), &kinds(&[(state, "BASE TABLE")])).unwrap());
    assert!(begin_initialization(&spec(), &kinds(&[(state, "VIEW")])).is_err());
    assert!(matches!(
        begin_initialization(&spec(), &kinds(&[("materialized", "VIEW")])),
        Err(DorisSinkError::TargetMissing { .. })
    ));
    assert!(require_empty(Some(0)).is_ok());
    assert!(matches!(
        require_empty(None),
        Err(DorisSinkError::TargetNotEmpty)
    ));
}
