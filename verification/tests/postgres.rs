use dogpaddle_sink::change::{
    Change, Column, DataType, Field, RecordBatch, Schema, TimeUnit, Value,
};
use dogpaddle_sink::postgres::config::{
    validate_absence_snapshot, verify_identity, AbsenceSnapshot, PostgresSinkConfig,
    PostgresTargetSpec, ServerIdentity,
};
use dogpaddle_sink::postgres::definition::{
    decode_definition, ParsedTarget, PostgresSinkDefinition, TAG,
};
use dogpaddle_sink::postgres::error::{PostgresSinkError, PostgresSinkSchemaError};
use dogpaddle_sink::postgres::row::{PostgresRowCodec, PostgresValue};
use dogpaddle_sink::postgres::runtime::{
    fix_delivery, prepare, prepared_settlement, refuse_plan, restore, settle_initialization,
    settle_prepared, PostgresSinkOperation, PostgresWork, ReadyState, RuntimePhase,
};
use dogpaddle_sink::postgres::schema::PostgresLayout;
use dogpaddle_sink::postgres::state::{
    PostgresSinkState, PostgresSinkStateCodecError,
};
use dogpaddle_sink::postgres::target::SqlPlan;
use dogpaddle_sink::postgres::write::{
    begin_initialization, delete_ids, encode_inserts, lookup_limits, positive_i64,
    read_lookup_rows, require_empty, verify_database, verify_indexes, verify_relation, MatchRow,
    RelationRow,
};
use dogpaddle_sink::relation::batch::{Delete, Insert, MAX_TECHNICAL_ID};
use dogpaddle_sink::relation::plan::Lookup;
use dogpaddle_sink::relation::position::{Continuation, Mutation, MutationKind, Position};
use dogpaddle_sink::relation::row::{canonical_row, encode_canonical, row_hash, RowError};
use dogpaddle_sink::relation::stepwise::{BatchPlanner, MatchingIds, PlanError, PlanStep};
use dogpaddle_sink::sqlite::target::quote_identifier;

fn spec(table: &str) -> PostgresTargetSpec {
    PostgresTargetSpec::try_new("sink_1", "database", "Target Schema", table, "1", 2).unwrap()
}

fn field(name: &str, data_type: DataType, nullable: bool) -> Field {
    Field {
        name: name.to_owned(),
        data_type,
        nullable,
        metadata: Vec::new(),
    }
}

fn timestamp(unit: TimeUnit) -> DataType {
    DataType::Timestamp(unit, None)
}

fn batch(cells: Vec<(Field, DataType, Vec<Value>)>) -> RecordBatch {
    let rows = cells[0].2.len();
    let mut fields = Vec::new();
    let mut columns = Vec::new();
    for (field, data_type, values) in cells {
        fields.push(field);
        columns.push(Column { data_type, values });
    }
    RecordBatch {
        schema: Schema::new(fields),
        columns,
        rows,
    }
}

#[test]
fn runtime_config_debug_redacts_the_password() {
    let config = PostgresSinkConfig::new_unencrypted(
        "127.0.0.1",
        5432,
        "database",
        "writer",
        "visible-secret",
    )
    .unwrap();
    let debug = config.redacted();

    assert!(debug.contains("[redacted]"));
    assert!(!debug.contains("visible-secret"));
}

#[test]
fn runtime_config_rejects_dns_names_to_keep_connect_deadlines_bounded() {
    assert!(matches!(
        PostgresSinkConfig::new_unencrypted(
            "localhost",
            5432,
            "database",
            "writer",
            "secret",
        ),
        Err(PostgresSinkError::InvalidConfig { message })
            if message == "host must be a numeric IPv4 or IPv6 address"
    ));
}

#[test]
fn absence_snapshot_rejects_missing_schema_class_and_table_row_type() {
    let target = spec("target");

    assert!(matches!(
        validate_absence_snapshot(&target, false, None, false),
        Err(PostgresSinkError::TargetMissing { name }) if name == "Target Schema"
    ));
    assert!(matches!(
        validate_absence_snapshot(
            &target,
            true,
            Some("$dogpaddle.hash.sink_1".to_owned()),
            false,
        ),
        Err(PostgresSinkError::TargetExists { name })
            if name == "$dogpaddle.hash.sink_1"
    ));
    assert!(matches!(
        validate_absence_snapshot(&target, true, None, true),
        Err(PostgresSinkError::TargetExists { name }) if name == "target"
    ));
    assert!(validate_absence_snapshot(&target, true, None, false).is_ok());
}

#[test]
fn identifiers_are_quoted_as_independent_postgresql_components() {
    assert_eq!(quote_identifier("a\"b"), "\"a\"\"b\"");
    let schema = Schema::new(vec![field("odd\"column", DataType::Int64, false)]);
    let layout = PostgresLayout::try_new(schema).unwrap();
    let plan = SqlPlan::new(&spec("odd.table"), &layout);

    assert!(plan.initialize.contains("\"Target Schema\".\"odd.table\""));
    assert!(plan
        .initialize
        .contains("CREATE INDEX \"$dogpaddle.hash.sink_1\" ON"));
    assert!(!plan
        .initialize
        .contains("CREATE INDEX \"Target Schema\".\"$dogpaddle.hash.sink_1\""));
    assert!(plan.insert_statement(1).contains("\"odd\"\"column\""));
    assert!(!plan.initialize.contains("\"Target Schema.odd.table\""));
}

#[test]
fn maximum_sink_identity_keeps_derived_names_below_postgresql_limit() {
    let sink_id = "a".repeat(32);
    let spec =
        PostgresTargetSpec::try_new(&sink_id, "database", "schema", "table", "1", 2).unwrap();

    assert!(spec.object_names().iter().all(|name| name.len() <= 63));
}

#[test]
fn row_codec_maps_fixed_width_values_and_typed_nulls_from_canonical_bytes() {
    let cells = || {
        vec![
            (
                field("null", DataType::Null, false),
                DataType::Null,
                vec![Value::Null, Value::Null],
            ),
            (
                field("boolean", DataType::Boolean, true),
                DataType::Boolean,
                vec![Value::Boolean(true), Value::Null],
            ),
            (
                field("int8", DataType::Int8, true),
                DataType::Int8,
                vec![Value::Int8(-128), Value::Null],
            ),
            (
                field("int16", DataType::Int16, true),
                DataType::Int16,
                vec![Value::Int16(-32_768), Value::Null],
            ),
            (
                field("int32", DataType::Int32, true),
                DataType::Int32,
                vec![Value::Int32(i32::MIN), Value::Null],
            ),
            (
                field("int64", DataType::Int64, true),
                DataType::Int64,
                vec![Value::Int64(i64::MIN), Value::Null],
            ),
            (
                field("uint8", DataType::UInt8, true),
                DataType::UInt8,
                vec![Value::UInt8(u8::MAX), Value::Null],
            ),
            (
                field("uint16", DataType::UInt16, true),
                DataType::UInt16,
                vec![Value::UInt16(u16::MAX), Value::Null],
            ),
            (
                field("uint32", DataType::UInt32, true),
                DataType::UInt32,
                vec![Value::UInt32(u32::MAX), Value::Null],
            ),
            (
                field("uint64", DataType::UInt64, true),
                DataType::UInt64,
                vec![Value::UInt64(u64::MAX), Value::Null],
            ),
            (
                field("float32", DataType::Float32, true),
                DataType::Float32,
                vec![Value::Float32(0x7f80_0123), Value::Null],
            ),
            (
                field("float64", DataType::Float64, true),
                DataType::Float64,
                vec![Value::Float64((-0.0_f64).to_bits()), Value::Null],
            ),
            (
                field("date32", DataType::Date32, true),
                DataType::Date32,
                vec![Value::Date32(-12), Value::Null],
            ),
            (
                field("seconds", timestamp(TimeUnit::Second), true),
                timestamp(TimeUnit::Second),
                vec![Value::Timestamp(-1), Value::Null],
            ),
            (
                field("millis", timestamp(TimeUnit::Millisecond), true),
                timestamp(TimeUnit::Millisecond),
                vec![Value::Timestamp(-2), Value::Null],
            ),
            (
                field("micros", timestamp(TimeUnit::Microsecond), true),
                timestamp(TimeUnit::Microsecond),
                vec![Value::Timestamp(-3), Value::Null],
            ),
            (
                field("nanos", timestamp(TimeUnit::Nanosecond), true),
                timestamp(TimeUnit::Nanosecond),
                vec![Value::Timestamp(-4), Value::Null],
            ),
            (
                field("decimal", DataType::Decimal128(10, 2), true),
                DataType::Decimal128(10, 2),
                vec![Value::Decimal128(-12345), Value::Null],
            ),
            (
                field("utf8", DataType::Utf8, true),
                DataType::Utf8,
                vec![Value::Utf8("before\0after".to_owned()), Value::Null],
            ),
            (
                field("binary", DataType::Binary, true),
                DataType::Binary,
                vec![Value::Binary(vec![0, 255]), Value::Null],
            ),
        ]
    };
    let batch = batch(cells());
    let schema = Schema::new(cells().into_iter().map(|(field, _, _)| field).collect());
    let codec = PostgresRowCodec::new(PostgresLayout::try_new(schema).unwrap());
    let present = codec.encode_row(&batch, 0).unwrap();
    let nulls = codec.encode_row(&batch, 1).unwrap();

    assert_eq!(present.hash, row_hash(&canonical_row(&batch, 0).unwrap()));
    assert_eq!(nulls.hash, row_hash(&canonical_row(&batch, 1).unwrap()));
    assert_eq!(
        present.values,
        vec![
            PostgresValue::Bytes(None),
            PostgresValue::Boolean(Some(true)),
            PostgresValue::Int16(Some(-128)),
            PostgresValue::Int16(Some(-32_768)),
            PostgresValue::Int32(Some(i32::MIN)),
            PostgresValue::Int64(Some(i64::MIN)),
            PostgresValue::Int16(Some(i16::from(u8::MAX))),
            PostgresValue::Int32(Some(i32::from(u16::MAX))),
            PostgresValue::Int64(Some(i64::from(u32::MAX))),
            PostgresValue::Bytes(Some(u64::MAX.to_be_bytes().to_vec())),
            PostgresValue::Bytes(Some(0x7f80_0123_u32.to_be_bytes().to_vec())),
            PostgresValue::Bytes(Some((-0.0_f64).to_bits().to_be_bytes().to_vec())),
            PostgresValue::Int32(Some(-12)),
            PostgresValue::Int64(Some(-1)),
            PostgresValue::Int64(Some(-2)),
            PostgresValue::Int64(Some(-3)),
            PostgresValue::Int64(Some(-4)),
            PostgresValue::Bytes(Some((-12345_i128).to_be_bytes().to_vec())),
            PostgresValue::Bytes(Some(b"before\0after".to_vec())),
            PostgresValue::Bytes(Some(vec![0, 255])),
        ]
    );
    assert_eq!(
        nulls.values,
        vec![
            PostgresValue::Bytes(None),
            PostgresValue::Boolean(None),
            PostgresValue::Int16(None),
            PostgresValue::Int16(None),
            PostgresValue::Int32(None),
            PostgresValue::Int64(None),
            PostgresValue::Int16(None),
            PostgresValue::Int32(None),
            PostgresValue::Int64(None),
            PostgresValue::Bytes(None),
            PostgresValue::Bytes(None),
            PostgresValue::Bytes(None),
            PostgresValue::Int32(None),
            PostgresValue::Int64(None),
            PostgresValue::Int64(None),
            PostgresValue::Int64(None),
            PostgresValue::Int64(None),
            PostgresValue::Bytes(None),
            PostgresValue::Bytes(None),
            PostgresValue::Bytes(None),
        ]
    );
    assert!(matches!(
        codec.encode_row(&batch, 2),
        Err(RowError::RowOutOfBounds {
            row_index: 2,
            rows: 2,
        })
    ));
}

#[test]
fn row_codec_uses_shared_canonical_bytes_for_nested_values() {
    let items = || DataType::List(Box::new(field("item", DataType::Int64, true)));
    let object = || {
        DataType::Struct(vec![
            field("flag", DataType::Boolean, false),
            field("label", DataType::Utf8, true),
        ])
    };
    let batch = batch(vec![
        (
            field("items", items(), false),
            items(),
            vec![Value::List(vec![
                Value::Int64(7),
                Value::Null,
                Value::Int64(-2),
            ])],
        ),
        (
            field("object", object(), false),
            object(),
            vec![Value::Struct(vec![
                Value::Boolean(true),
                Value::Utf8("nested\0value".to_owned()),
            ])],
        ),
    ]);
    let schema = Schema::new(vec![
        field("items", items(), false),
        field("object", object(), false),
    ]);
    let encoded = PostgresRowCodec::new(PostgresLayout::try_new(schema).unwrap())
        .encode_row(&batch, 0)
        .unwrap();
    let expected = batch
        .schema
        .fields
        .iter()
        .zip(&batch.columns)
        .map(|(field, column)| {
            let mut bytes = Vec::new();
            encode_canonical(field, column, 0, &field.name, &mut bytes).unwrap();
            PostgresValue::Bytes(Some(bytes))
        })
        .collect::<Vec<_>>();

    assert_eq!(encoded.values, expected);
}

#[test]
fn matching_and_batched_writes_bind_exact_typed_values() {
    let schema = Schema::new(vec![
        field("a", DataType::Int64, false),
        field("b", DataType::Utf8, true),
    ]);
    let plan = SqlPlan::new(&spec("target"), &PostgresLayout::try_new(schema).unwrap());
    let lookup = plan.lookup_statement(2);
    let mismatch = plan.mismatch_statement(2);

    assert!(lookup
        .contains("target.\"a\" = request.c0 OR (target.\"a\" IS NULL AND request.c0 IS NULL)"));
    assert!(lookup
        .contains("target.\"b\" = request.c1 OR (target.\"b\" IS NULL AND request.c1 IS NULL)"));
    assert!(lookup.contains("(0, $1::bigint, $2::bigint, $3::bytea, $4::bigint, $5::bytea), (1, $6::bigint, $7::bigint, $8::bytea, $9::bigint, $10::bytea)"));
    assert!(lookup.contains("LIMIT request.needed"));
    assert!(lookup.contains("LIMIT request.take"));
    assert!(lookup.contains("request.needed > request.take"));
    assert!(lookup.ends_with("ORDER BY request.n"));
    assert!(!lookup.contains("excluded"));
    assert!(mismatch.contains("$1::bigint[]"));
    assert!(mismatch.contains("$5::bigint[]"));
    assert!(mismatch.contains("target.\"$dogpaddle.hash\" IS DISTINCT FROM expected.hash"));
    assert!(mismatch.contains("target.\"a\" IS DISTINCT FROM expected.c0"));
    assert!(mismatch.contains("target.\"b\" IS DISTINCT FROM expected.c1"));
    assert!(mismatch.contains("target.\"$dogpaddle.id\" = ANY(expected.ids)"));

    assert_eq!(
        plan.delete,
        "DELETE FROM ONLY \"Target Schema\".\"target\" WHERE \"$dogpaddle.id\" = ANY($1::bigint[])"
    );
    let insert = plan.insert_statement(2);
    assert!(insert.contains("($1::bigint, $2::bytea, $3::bigint, $4::bytea), ($5::bigint, $6::bytea, $7::bigint, $8::bytea)"));
    assert!(insert.ends_with("ON CONFLICT (\"$dogpaddle.id\") DO NOTHING"));
    assert!(!insert.contains("RETURNING"));
}

#[test]
fn statements_handle_empty_and_wide_schemas_within_parameter_limits() {
    let empty = SqlPlan::new(
        &spec("empty"),
        &PostgresLayout::try_new(Schema::new(vec![])).unwrap(),
    );
    assert_eq!(empty.insert_batch_size(), 1024);
    assert_eq!(empty.lookup_batch_size(), 1024);
    assert!(empty.insert_statement(1).contains("($1::bigint, $2::bytea)"));
    assert!(empty
        .lookup_statement(1)
        .contains("(0, $1::bigint, $2::bigint, $3::bytea)"));

    let fields = (0..1_598)
        .map(|index| field(&format!("f{index}"), DataType::Int64, true))
        .collect::<Vec<_>>();
    let wide = SqlPlan::new(
        &spec("wide"),
        &PostgresLayout::try_new(Schema::new(fields)).unwrap(),
    );
    assert_eq!(wide.insert_batch_size(), 40);
    assert_eq!(wide.lookup_batch_size(), 40);
    assert_eq!(wide.mismatch_batch_size(), 40);
    let insert = wide.insert_statement(40);
    assert!(insert.contains("$64000::bigint)"));
    assert!(!insert.contains("$64001"));
    let lookup = wide.lookup_statement(40);
    assert!(lookup.contains("$64040::bigint)"));
    assert!(!lookup.contains("$64041"));
    let mismatch = wide.mismatch_statement(40);
    assert!(mismatch.contains("$64000::bigint)"));
    assert!(!mismatch.contains("$64001"));
}

#[test]
fn layout_owns_only_the_target_and_two_indexes() {
    let target = spec("target");
    assert_eq!(
        target.object_names(),
        ["target", "$dogpaddle.hash.sink_1", "$dogpaddle.pk.sink_1",]
    );
    let plan = SqlPlan::new(
        &target,
        &PostgresLayout::try_new(Schema::new(vec![])).unwrap(),
    );
    assert_eq!(plan.initialize.matches("CREATE TABLE").count(), 1);
    assert!(plan.initialize.contains("dogpaddle.postgres-relation.v2:"));
}

#[test]
fn postgres_definition_is_accepted_exactly_as_it_was_stored() {
    let definition = PostgresSinkDefinition::try_new(spec("tab\"le")).unwrap();
    let mut payload = Vec::new();
    definition.encode_payload(&mut payload);
    assert_eq!(
        String::from_utf8(payload.clone()).unwrap(),
        "{\"sink_id\":\"sink_1\",\"database\":\"database\",\"schema\":\"Target Schema\",\
         \"table\":\"tab\\\"le\",\"system_identifier\":\"1\",\"database_oid\":2}"
    );
    assert_eq!(definition.persistence_tag(), TAG);
    let parsed = |table: &str| ParsedTarget {
        sink_id: "sink_1".to_owned(),
        database: "database".to_owned(),
        schema: "Target Schema".to_owned(),
        table: table.to_owned(),
        system_identifier: "1".to_owned(),
        database_oid: 2,
    };
    assert_eq!(
        decode_definition(&payload, Some(parsed("tab\"le"))),
        Some(definition)
    );
    assert_eq!(decode_definition(&payload, Some(parsed("other"))), None);
    assert_eq!(decode_definition(&payload, None), None);
    payload.push(b' ');
    assert_eq!(decode_definition(&payload, Some(parsed("tab\"le"))), None);
}

#[test]
fn postgres_discovery_checks_identity_durability_and_absence() {
    let config =
        PostgresSinkConfig::new_unencrypted("::1", 5432, "database", "writer", "secret").unwrap();
    let server = |fsync: bool, utf8: bool| ServerIdentity {
        system_identifier: "7".to_owned(),
        database_oid: 3,
        fsync,
        synchronous_commit: true,
        utf8,
    };
    let absent = AbsenceSnapshot {
        schema_exists: true,
        class_name: None,
        row_type_exists: false,
    };
    let spec = config
        .discover_target("sink_1", "public", "target", &server(true, true), &absent)
        .unwrap();
    assert_eq!(spec.system_identifier(), "7");
    assert_eq!(spec.database_oid(), 3);
    assert!(verify_identity(&spec, &server(true, true)).is_ok());
    assert!(matches!(
        verify_identity(&spec, &server(false, true)),
        Err(PostgresSinkError::DurabilityDisabled)
    ));
    assert!(matches!(
        verify_identity(&spec, &server(true, false)),
        Err(PostgresSinkError::UnsupportedServerEncoding)
    ));
    let other = PostgresTargetSpec::try_new("sink_1", "database", "public", "target", "8", 3);
    assert!(matches!(
        verify_identity(&other.unwrap(), &server(true, true)),
        Err(PostgresSinkError::TargetIdentityChanged)
    ));
    assert!(verify_database("database", &spec).is_ok());
    assert!(matches!(
        verify_database("other", &spec),
        Err(PostgresSinkError::DatabaseMismatch)
    ));
}

#[test]
fn postgres_absence_names_the_table_before_its_indexes() {
    let target = spec("target");
    let index = || Some("$dogpaddle.hash.sink_1".to_owned());
    assert!(matches!(
        validate_absence_snapshot(&target, true, index(), true),
        Err(PostgresSinkError::TargetExists { name }) if name == "target"
    ));
    assert!(matches!(
        validate_absence_snapshot(&target, false, index(), true),
        Err(PostgresSinkError::TargetMissing { name }) if name == "Target Schema"
    ));
}

#[test]
fn postgres_layout_names_what_it_cannot_store() {
    let one = |name: &str, data_type: DataType| {
        PostgresLayout::try_new(Schema::new(vec![field(name, data_type, true)]))
    };
    assert!(matches!(
        one("", DataType::Int64),
        Err(PostgresSinkSchemaError::InvalidFieldName { field: 0, .. })
    ));
    assert!(matches!(
        one("$dogpaddle.id", DataType::Int64),
        Err(PostgresSinkSchemaError::TechnicalColumnCollision { field: 0, .. })
    ));
    assert!(matches!(
        one("ctid", DataType::Int64),
        Err(PostgresSinkSchemaError::SystemColumnCollision { field: 0, .. })
    ));
    assert!(matches!(
        one("later", DataType::Other("Duration".to_owned())),
        Err(PostgresSinkSchemaError::UnsupportedType { .. })
    ));
    let twice = Schema::new(vec![
        field("a", DataType::Int64, true),
        field("a", DataType::Utf8, true),
    ]);
    assert!(matches!(
        PostgresLayout::try_new(twice),
        Err(PostgresSinkSchemaError::DuplicateFieldName {
            first: 0,
            second: 1,
            ..
        })
    ));
    let wide = (0..1_599)
        .map(|index| field(&format!("f{index}"), DataType::Int64, true))
        .collect::<Vec<_>>();
    assert!(matches!(
        PostgresLayout::try_new(Schema::new(wide)),
        Err(PostgresSinkSchemaError::TooManyColumns {
            actual: 1_599,
            maximum: 1_598
        })
    ));
}

fn numbers(rows: &[(i64, i64)]) -> Change {
    Change::try_new(
        Schema::new(vec![field("value", DataType::Int64, false)]),
        vec![Column {
            data_type: DataType::Int64,
            values: rows.iter().map(|row| Value::Int64(row.0)).collect(),
        }],
        rows.len(),
        rows.iter().map(|row| row.1).collect(),
    )
    .unwrap()
}

fn codec() -> PostgresRowCodec {
    PostgresRowCodec::new(
        PostgresLayout::try_new(Schema::new(vec![field("value", DataType::Int64, false)])).unwrap(),
    )
}

#[test]
fn encoded_inserts_share_the_row_of_their_neighbours() {
    let input = numbers(&[(7, 2), (8, 1)]);
    let insert = |row_index: u64, technical_id: u64| Insert {
        row_index,
        technical_id,
    };
    let encoded =
        encode_inserts(&codec(), &input, &vec![insert(0, 1), insert(0, 2), insert(1, 3)]).unwrap();
    assert_eq!(encoded.rows.len(), 2);
    assert_eq!(
        encoded
            .inserts
            .iter()
            .map(|insert| (insert.technical_id, insert.row))
            .collect::<Vec<_>>(),
        [(1, 0), (2, 0), (3, 1)]
    );
    assert_eq!(encoded.rows[1].values, [PostgresValue::Int64(Some(8))]);
    assert!(matches!(
        encode_inserts(&codec(), &input, &vec![insert(0, 0)]),
        Err(PostgresSinkError::InvalidBatch { message })
            if message == "technical ID must fit positive PostgreSQL bigint"
    ));
    assert!(matches!(
        encode_inserts(&codec(), &input, &vec![insert(9, 1)]),
        Err(PostgresSinkError::Row(RowError::RowOutOfBounds {
            row_index: 9,
            rows: 2
        }))
    ));
    assert_eq!(
        delete_ids(&vec![Delete {
            row_index: 0,
            technical_id: 5
        }])
        .unwrap(),
        [5]
    );
    assert!(positive_i64(MAX_TECHNICAL_ID + 1).is_err());
}

#[test]
fn lookup_limits_and_replies_keep_to_positive_integers() {
    let request = |needed: u64, take: usize| Lookup {
        row_index: 0,
        needed,
        take,
    };
    assert_eq!(lookup_limits(&request(3, 2)).unwrap(), (3, 2));
    assert_eq!(
        lookup_limits(&request(u64::MAX, 2)).unwrap(),
        (i64::MAX, 2)
    );
    assert!(lookup_limits(&request(1, usize::MAX)).is_err());
    let found = read_lookup_rows(&vec![MatchRow {
        count: 3,
        ids: vec![1, 4],
    }])
    .unwrap();
    assert_eq!((found[0].count, found[0].ids.clone()), (3, vec![1, 4]));
    assert!(matches!(
        read_lookup_rows(&vec![MatchRow { count: -1, ids: vec![] }]),
        Err(PostgresSinkError::InvalidBatch { message })
            if message == "negative matching-row count"
    ));
    assert!(matches!(
        read_lookup_rows(&vec![MatchRow { count: 1, ids: vec![0] }]),
        Err(PostgresSinkError::InvalidBatch { message })
            if message == "nonpositive target technical ID"
    ));
}

#[test]
fn postgres_initialization_requires_all_or_none_of_its_objects() {
    let target = spec("target");
    assert!(begin_initialization(&target, 0).unwrap());
    assert!(!begin_initialization(&target, 3).unwrap());
    assert!(matches!(
        begin_initialization(&target, 2),
        Err(PostgresSinkError::TargetLayoutMismatch { name }) if name == "target"
    ));
    assert!(begin_initialization(&target, -1).is_err());
    assert!(matches!(
        require_empty(false),
        Err(PostgresSinkError::TargetNotEmpty)
    ));
    let plan = SqlPlan::new(
        &target,
        &PostgresLayout::try_new(Schema::new(vec![])).unwrap(),
    );
    let row = |comment: Option<String>, rules: bool| RelationRow {
        kind: "r".to_owned(),
        persistence: "p".to_owned(),
        partition: false,
        row_security: false,
        forced_row_security: false,
        rules,
        comment,
        entangled: false,
    };
    assert!(verify_relation(&plan, &Some(row(Some(plan.marker.clone()), false))).is_ok());
    assert!(matches!(
        verify_relation(&plan, &None),
        Err(PostgresSinkError::TargetMissing { name }) if name == "target"
    ));
    assert!(verify_relation(&plan, &Some(row(None, false))).is_err());
    assert!(verify_relation(&plan, &Some(row(Some(plan.marker.clone()), true))).is_err());
    assert!(verify_indexes(&plan, 2, true).is_ok());
    assert!(verify_indexes(&plan, 1, true).is_err());
    assert!(verify_indexes(&plan, 2, false).is_err());
}

fn prepared() -> PostgresSinkState {
    PostgresSinkState::Prepared {
        delivery: 3,
        digest: [7; 32],
        next_id_before: 5,
        start_position: Position {
            row_index: 0,
            remaining: 2,
        },
        continuation: Continuation::Done,
        mutations: vec![
            Mutation {
                kind: MutationKind::Insert,
                row_index: 0,
                technical_id: 5,
            },
            Mutation {
                kind: MutationKind::Insert,
                row_index: 0,
                technical_id: 6,
            },
            Mutation {
                kind: MutationKind::Delete,
                row_index: 1,
                technical_id: 5,
            },
        ],
    }
}

#[test]
fn postgres_state_round_trips_and_rejects_truncation() {
    let ready = PostgresSinkState::Ready {
        next_delivery: 2,
        next_id: 3,
        position: Some(Position {
            row_index: 1,
            remaining: 4,
        }),
    };
    let encoded = ready.encode().unwrap();
    assert_eq!(
        encoded,
        [
            0, 1, 1, 0, 0, 0, 0, 0, 0, 0, 2, 0, 0, 0, 0, 0, 0, 0, 3, 1, 0, 0, 0, 0, 0, 0, 0, 1, 0,
            0, 0, 0, 0, 0, 0, 4
        ]
    );
    for state in [PostgresSinkState::Initialize, ready, prepared()] {
        let encoded = state.encode().unwrap();
        assert_eq!(PostgresSinkState::decode(&encoded), Ok(state));
        for end in 0..encoded.len() {
            assert_eq!(
                PostgresSinkState::decode(&encoded[..end]),
                Err(PostgresSinkStateCodecError::Truncated)
            );
        }
        let mut longer = encoded;
        longer.push(0);
        assert_eq!(
            PostgresSinkState::decode(&longer),
            Err(PostgresSinkStateCodecError::TrailingBytes)
        );
    }
    assert_eq!(
        PostgresSinkState::decode(&[0, 2]),
        Err(PostgresSinkStateCodecError::UnsupportedVersion(2))
    );
    assert_eq!(
        PostgresSinkState::decode(&[0, 1, 9]),
        Err(PostgresSinkStateCodecError::UnknownStateTag(9))
    );
}

fn altered(change: impl Fn(&mut u64, &mut Position, &mut Continuation, &mut Vec<Mutation>)) -> Result<
    Vec<u8>,
    PostgresSinkStateCodecError,
> {
    let PostgresSinkState::Prepared {
        delivery,
        digest,
        mut next_id_before,
        mut start_position,
        mut continuation,
        mut mutations,
    } = prepared()
    else {
        unreachable!()
    };
    change(
        &mut next_id_before,
        &mut start_position,
        &mut continuation,
        &mut mutations,
    );
    PostgresSinkState::Prepared {
        delivery,
        digest,
        next_id_before,
        start_position,
        continuation,
        mutations,
    }
    .encode()
}

#[test]
fn postgres_state_names_each_noncanonical_delivery() {
    type Fault = PostgresSinkStateCodecError;
    assert!(altered(|_, _, _, _| {}).is_ok());
    assert_eq!(
        altered(|next_id, _, _, _| *next_id = 0),
        Err(Fault::InvalidNextId(0))
    );
    assert_eq!(
        altered(|next_id, _, _, _| *next_id = 4),
        Err(Fault::InsertRangeStartMismatch)
    );
    assert_eq!(
        altered(|_, position, _, _| position.remaining = 0),
        Err(Fault::ZeroRemaining)
    );
    assert_eq!(
        altered(|_, position, _, _| position.remaining = 1),
        Err(Fault::StartRemainderExceeded)
    );
    assert_eq!(
        altered(|_, position, _, _| position.remaining = 3),
        Err(Fault::InvalidContinuation)
    );
    assert_eq!(
        altered(|_, position, _, _| position.row_index = 1),
        Err(Fault::FirstMutationRowMismatch)
    );
    assert_eq!(
        altered(|_, _, continuation, _| {
            *continuation = Continuation::Position(Position {
                row_index: 2,
                remaining: 1,
            });
        }),
        Err(Fault::InvalidContinuation)
    );
    assert_eq!(
        altered(|_, _, _, mutations| mutations.clear()),
        Err(Fault::EmptyMutationBatch)
    );
    assert_eq!(
        altered(|_, _, _, mutations| mutations[0].technical_id = 4),
        Err(Fault::InsertRangeStartMismatch)
    );
    assert_eq!(
        altered(|_, _, _, mutations| mutations[1].technical_id = 4),
        Err(Fault::NonConsecutiveInsertIds)
    );
    assert_eq!(
        altered(|_, _, _, mutations| mutations[2].technical_id = 0),
        Err(Fault::InvalidTechnicalId(0))
    );
    assert_eq!(
        altered(|_, _, _, mutations| mutations[2].row_index = 2),
        Err(Fault::NonContiguousMutationRows)
    );
    assert_eq!(
        altered(|_, _, _, mutations| mutations[1].kind = MutationKind::Delete),
        Err(Fault::UnallocatedTechnicalId)
    );
    assert_eq!(
        altered(|_, _, _, mutations| {
            let again = mutations[2];
            mutations.push(again);
        }),
        Err(Fault::NonIncreasingDeleteIds)
    );
    assert_eq!(
        altered(|_, _, _, mutations| {
            let mut again = mutations[2];
            again.row_index = 2;
            mutations.push(again);
        }),
        Err(Fault::DuplicateDeleteId)
    );
    assert_eq!(
        altered(|next_id, _, _, mutations| {
            *next_id = 5;
            mutations.truncate(2);
            mutations[0] = Mutation {
                kind: MutationKind::Delete,
                row_index: 0,
                technical_id: 5,
            };
            mutations[1] = Mutation {
                kind: MutationKind::Insert,
                row_index: 1,
                technical_id: 5,
            };
        }),
        Err(Fault::DeleteBeforeInsert)
    );
    assert_eq!(
        altered(|_, _, _, mutations| {
            mutations[1].kind = MutationKind::Delete;
            mutations[1].technical_id = 1;
        }),
        Err(Fault::MixedMutationKinds)
    );
    assert_eq!(
        altered(|next_id, _, _, mutations| {
            *next_id = MAX_TECHNICAL_ID;
            mutations[0].technical_id = MAX_TECHNICAL_ID;
        }),
        Err(Fault::InsertRangeOverflow)
    );
    assert_eq!(
        Fault::InvalidNextId(9).message(),
        "PostgreSQL sink next technical ID 9 is outside 1..=i64::MAX+1"
    );
}

#[test]
fn postgres_delivery_is_planned_fixed_and_settled() {
    let change = numbers(&[(7, 2), (7, -1)]);
    let operation = PostgresSinkOperation::new(Schema::new(vec![field(
        "value",
        DataType::Int64,
        false,
    )]));
    assert!(matches!(
        operation.turn(None),
        Err(PostgresSinkError::InvalidBatch { message })
            if message == "PostgreSQL sink requires one input"
    ));
    assert!(matches!(
        operation.turn(Some((1, &change))),
        Err(PostgresSinkError::InvalidBatch { message })
            if message == "input port 1 is invalid; expected port 0"
    ));
    assert_eq!(
        operation.turn(Some((0, &change))).unwrap(),
        PostgresWork::Restore
    );
    let restored = restore(&change, None).unwrap();
    assert_eq!(restored.state, PostgresSinkState::Initialize);
    assert_eq!(restored.store, Some(vec![0, 1, 0]));

    let settled = settle_initialization();
    assert_eq!(
        settled.ready,
        ReadyState {
            next_delivery: 1,
            next_id: 1,
            position: None
        }
    );
    let mut planner = prepare(settled.ready, &change).unwrap();
    assert!(matches!(planner.step(&change), Ok(PlanStep::Continue)));
    let query = match planner.step(&change) {
        Ok(PlanStep::Ask(query)) => query,
        other => panic!("expected a query, not {other:?}"),
    };
    assert_eq!((query.row_index, query.needed, query.take), (1, 1, 1));
    let reply = MatchingIds {
        count: 0,
        selected: vec![],
    };
    assert!(planner.accepts(&reply));
    let continuation = match planner.answer(&change, reply) {
        Ok(PlanStep::Done(continuation)) => continuation,
        other => panic!("expected the end, not {other:?}"),
    };
    assert_eq!(planner.mutations[2].technical_id, 1);
    let fixed = fix_delivery(planner, continuation, &change, 1, [9; 32]);
    assert_eq!(PostgresSinkState::decode(&fixed.encoded).unwrap(), fixed.state);
    let restored = restore(&change, Some(&fixed.encoded)).unwrap();
    assert_eq!(restored.state, fixed.state);
    assert!(restored.store.is_none());
    assert!(matches!(
        restore(&numbers(&[(7, 3)]), Some(&fixed.encoded)),
        Err(PostgresSinkError::InvalidBatch { message })
            if message == "position is not aligned to a stable 1024-mutation batch boundary"
    ));
    let settlement = prepared_settlement(&fixed.state, &change).unwrap();
    assert!(settlement.completes_input);
    let settled = settle_prepared(settlement).unwrap();
    assert_eq!(
        settled.ready,
        ReadyState {
            next_delivery: 2,
            next_id: 3,
            position: None
        }
    );
    let done = PostgresSinkOperation {
        phase: RuntimePhase::PreparedDelivered(fixed.state),
        ..operation
    };
    assert_eq!(
        done.turn(Some((0, &change))).unwrap(),
        PostgresWork::Settle(settlement)
    );
}

#[test]
fn postgres_refusals_keep_their_words() {
    let change = numbers(&[(7, 1)]);
    assert!(matches!(
        restore(&change, Some(&[0, 1, 9])),
        Err(PostgresSinkError::InvalidBatch { message })
            if message == "durable state is invalid: unknown PostgreSQL sink state tag 9"
    ));
    let ready = |next_delivery: u64, next_id: u64, position: Option<Position>| ReadyState {
        next_delivery,
        next_id,
        position,
    };
    assert!(matches!(
        prepare(ready(MAX_TECHNICAL_ID + 1, 1, None), &change),
        Err(PostgresSinkError::InvalidBatch { message })
            if message == "delivery sequence is exhausted"
    ));
    assert!(matches!(
        prepare(ready(1, 0, None), &change),
        Err(PostgresSinkError::InvalidBatch { message })
            if message == "next technical ID 0 is outside 1..=i64::MAX+1"
    ));
    assert!(matches!(
        prepare(
            ready(1, 1, Some(Position { row_index: 5, remaining: 1 })),
            &change
        ),
        Err(PostgresSinkError::InvalidBatch { message })
            if message == "row index 5 is outside a 1-row Change"
    ));
    let mut planner = prepare(ready(1, MAX_TECHNICAL_ID + 1, None), &change).unwrap();
    let refusal = refuse_plan(planner.step(&change).unwrap_err());
    assert!(matches!(
        refusal,
        PostgresSinkError::InvalidBatch { message }
            if message == "technical ID range from 9223372036854775808 cannot reserve 1 inserts"
    ));
    assert!(matches!(
        refuse_plan(PlanError::MissingRetraction { row_index: 1, needed: 3, available: 2 }),
        PostgresSinkError::InvalidBatch { message }
            if message == "row 1 retracts 3 instances, but only 2 exist"
    ));
}

#[test]
fn postgres_counts_no_more_instances_than_there_are_ids() {
    let change = numbers(&[(7, i64::MIN)]);
    let ready = ReadyState {
        next_delivery: 1,
        next_id: 1,
        position: None,
    };
    let mut planner = prepare(ready, &change).unwrap();
    let Ok(PlanStep::Ask(query)) = planner.step(&change) else {
        panic!("a row that leaves is asked for");
    };
    assert_eq!(query.needed, 1 << 63);
    assert_eq!(query.scan, MAX_TECHNICAL_ID);
    let mut unbounded = BatchPlanner::new(
        &change,
        1,
        Position {
            row_index: 0,
            remaining: 1 << 63,
        },
    )
    .unwrap();
    let Ok(PlanStep::Ask(query)) = unbounded.step(&change) else {
        panic!("a row that leaves is asked for");
    };
    assert_eq!(query.scan, 1 << 63);
}
