use dogpaddle_sink::change::{same_schema, Column, DataType, Field, RecordBatch, Schema, TimeUnit, Value};
use dogpaddle_sink::relation::row::RowError;
use dogpaddle_sink::sqlite::definition::SqliteSinkSchemaError;
use dogpaddle_sink::sqlite::row::{number_bytes, RowCodec, SqliteValue};
use dogpaddle_sink::sqlite::target::{column_definition, quote_identifier};
use rusqlite::types::Value as SqlValue;
use rusqlite::{params_from_iter, Connection};

fn field(name: &str, data_type: DataType, nullable: bool) -> Field {
    Field {
        name: name.to_owned(),
        data_type,
        nullable,
        metadata: Vec::new(),
    }
}

fn batch(cells: Vec<(Field, DataType, Vec<Value>)>, rows: usize) -> RecordBatch {
    let mut fields = Vec::new();
    let mut columns = Vec::new();
    for (field, data_type, values) in cells {
        fields.push(field);
        columns.push(Column { data_type, values });
    }
    RecordBatch {
        schema: Schema::new(fields),
        columns,
        rows,
    }
}

fn sql_value(value: &SqliteValue) -> SqlValue {
    match value {
        SqliteValue::Null => SqlValue::Null,
        SqliteValue::Integer(value) => SqlValue::Integer(*value),
        SqliteValue::Text(text) => SqlValue::Text(text.clone()),
        SqliteValue::Blob(bytes) => SqlValue::Blob(bytes.clone()),
    }
}

fn read_row(row: &rusqlite::Row<'_>, columns: usize) -> Vec<SqliteValue> {
    (0..columns)
        .map(|index| match row.get(index).unwrap() {
            SqlValue::Null => SqliteValue::Null,
            SqlValue::Integer(value) => SqliteValue::Integer(value),
            SqlValue::Real(value) => panic!("no row stores the number {value}"),
            SqlValue::Text(text) => SqliteValue::Text(text),
            SqlValue::Blob(bytes) => SqliteValue::Blob(bytes),
        })
        .collect()
}

fn blob(bytes: &[u8]) -> SqliteValue {
    SqliteValue::Blob(bytes.to_vec())
}

fn check_column_definitions() {
    let schema = Schema::new(vec![
        field("", DataType::Null, false),
        field("quote\"", DataType::Utf8, true),
        field("unsigned", DataType::UInt64, false),
    ]);
    let codec = RowCodec::new_validated(schema.copy());
    assert_eq!(
        schema
            .fields
            .iter()
            .map(|field| quote_identifier(&field.name))
            .collect::<Vec<_>>(),
        ["\"\"", "\"quote\"\"\"", "\"unsigned\""]
    );
    let definitions = schema
        .fields
        .iter()
        .map(|field| column_definition(field).unwrap())
        .collect::<Vec<_>>();
    assert_eq!(definitions[0], "\"\" BLOB CHECK(\"\" IS NULL)");
    assert!(definitions[1].contains("TEXT COLLATE BINARY"));
    assert!(definitions[2].contains("length(\"unsigned\") = 8"));
    assert!(same_schema(codec.schema(), &schema));
}

#[test]
fn tests_validates_names_and_builds_strict_column_definitions() {
    check_column_definitions();
}

#[test]
fn row_validates_names_and_builds_strict_column_definitions() {
    check_column_definitions();
}

fn check_future_type() {
    let future = field("future", DataType::Other("LargeUtf8".to_owned()), false);

    assert!(matches!(
        column_definition(&future),
        Err(SqliteSinkSchemaError::UnsupportedType {
            field,
            data_type: DataType::Other(name),
        }) if field == "future" && name == "LargeUtf8"
    ));
}

#[test]
fn tests_an_unmapped_future_type_returns_a_schema_error_instead_of_panicking() {
    check_future_type();
}

#[test]
fn row_an_unmapped_future_type_returns_a_schema_error_instead_of_panicking() {
    check_future_type();
}

fn timestamp(unit: TimeUnit, zone: Option<&str>) -> DataType {
    DataType::Timestamp(unit, zone.map(str::to_owned))
}

fn list() -> DataType {
    DataType::List(Box::new(field("item", DataType::Int64, true)))
}

fn structure() -> DataType {
    DataType::Struct(vec![
        field("flag", DataType::Boolean, false),
        field("score", DataType::Int64, true),
    ])
}

fn all_types_batch() -> RecordBatch {
    let decimal_max = 10_i128.pow(38) - 1;
    let cells = vec![
        (
            field("null", DataType::Null, false),
            DataType::Null,
            vec![Value::Null, Value::Null, Value::Null, Value::Null],
        ),
        (
            field("bool", DataType::Boolean, true),
            DataType::Boolean,
            vec![Value::Boolean(true), Value::Null, Value::Boolean(false), Value::Boolean(true)],
        ),
        (
            field("i8", DataType::Int8, true),
            DataType::Int8,
            vec![Value::Int8(i8::MIN), Value::Null, Value::Int8(0), Value::Int8(i8::MAX)],
        ),
        (
            field("i16", DataType::Int16, true),
            DataType::Int16,
            vec![Value::Int16(i16::MIN), Value::Null, Value::Int16(0), Value::Int16(i16::MAX)],
        ),
        (
            field("i32", DataType::Int32, true),
            DataType::Int32,
            vec![Value::Int32(i32::MIN), Value::Null, Value::Int32(0), Value::Int32(i32::MAX)],
        ),
        (
            field("i64", DataType::Int64, true),
            DataType::Int64,
            vec![Value::Int64(i64::MIN), Value::Null, Value::Int64(0), Value::Int64(i64::MAX)],
        ),
        (
            field("u8", DataType::UInt8, true),
            DataType::UInt8,
            vec![Value::UInt8(u8::MAX), Value::Null, Value::UInt8(0), Value::UInt8(1)],
        ),
        (
            field("u16", DataType::UInt16, true),
            DataType::UInt16,
            vec![Value::UInt16(u16::MAX), Value::Null, Value::UInt16(0), Value::UInt16(1)],
        ),
        (
            field("u32", DataType::UInt32, true),
            DataType::UInt32,
            vec![Value::UInt32(u32::MAX), Value::Null, Value::UInt32(0), Value::UInt32(1)],
        ),
        (
            field("u64", DataType::UInt64, true),
            DataType::UInt64,
            vec![Value::UInt64(u64::MAX), Value::Null, Value::UInt64(0), Value::UInt64(1)],
        ),
        (
            field("f32", DataType::Float32, true),
            DataType::Float32,
            vec![Value::Float32((-0.0_f32).to_bits()), Value::Null, Value::Float32(0.0_f32.to_bits()), Value::Float32(f32::NEG_INFINITY.to_bits())],
        ),
        (
            field("f64", DataType::Float64, true),
            DataType::Float64,
            vec![Value::Float64(0x7ff8_0000_0000_0001), Value::Null, Value::Float64(f64::INFINITY.to_bits()), Value::Float64(0x7ff8_0000_0000_0002)],
        ),
        (
            field("text", DataType::Utf8, true),
            DataType::Utf8,
            vec![Value::Utf8("utf8".to_owned()), Value::Null, Value::Utf8(String::new()), Value::Utf8("z".to_owned())],
        ),
        (
            field("binary", DataType::Binary, true),
            DataType::Binary,
            vec![Value::Binary(vec![0, 255]), Value::Null, Value::Binary(Vec::new()), Value::Binary(vec![7])],
        ),
        (
            field("list", list(), true),
            list(),
            vec![Value::List(vec![Value::Int64(1), Value::Null, Value::Int64(-2)]), Value::Null, Value::List(Vec::new()), Value::List(vec![Value::Int64(i64::MAX)])],
        ),
        (
            field("struct", structure(), true),
            structure(),
            vec![Value::Struct(vec![Value::Boolean(true), Value::Int64(7)]), Value::Struct(vec![Value::Boolean(false), Value::Null]), Value::Struct(vec![Value::Boolean(true), Value::Int64(-9)]), Value::Struct(vec![Value::Boolean(false), Value::Int64(12)])],
        ),
        (
            field("date32", DataType::Date32, true),
            DataType::Date32,
            vec![Value::Date32(i32::MIN), Value::Null, Value::Date32(0), Value::Date32(i32::MAX)],
        ),
        (
            field("timestamp_s", timestamp(TimeUnit::Second, None), true),
            timestamp(TimeUnit::Second, None),
            vec![Value::Timestamp(i64::MIN), Value::Null, Value::Timestamp(0), Value::Timestamp(i64::MAX)],
        ),
        (
            field("timestamp_ms", timestamp(TimeUnit::Millisecond, Some("UTC")), true),
            timestamp(TimeUnit::Millisecond, Some("UTC")),
            vec![Value::Timestamp(i64::MAX), Value::Null, Value::Timestamp(0), Value::Timestamp(i64::MIN)],
        ),
        (
            field("timestamp_us", timestamp(TimeUnit::Microsecond, Some("+08:00")), true),
            timestamp(TimeUnit::Microsecond, Some("+08:00")),
            vec![Value::Timestamp(-1), Value::Null, Value::Timestamp(0), Value::Timestamp(1)],
        ),
        (
            field("timestamp_ns", timestamp(TimeUnit::Nanosecond, Some("America/New_York")), true),
            timestamp(TimeUnit::Nanosecond, Some("America/New_York")),
            vec![Value::Timestamp(i64::MIN + 1), Value::Null, Value::Timestamp(0), Value::Timestamp(i64::MAX - 1)],
        ),
        (
            field("decimal", DataType::Decimal128(38, 18), true),
            DataType::Decimal128(38, 18),
            vec![Value::Decimal128(decimal_max), Value::Null, Value::Decimal128(0), Value::Decimal128(-decimal_max)],
        ),
        (
            field("decimal_negative_scale", DataType::Decimal128(4, -2), true),
            DataType::Decimal128(4, -2),
            vec![Value::Decimal128(-9_999), Value::Null, Value::Decimal128(0), Value::Decimal128(9_999)],
        ),
    ];
    batch(cells, 4)
}

#[test]
fn row_every_v1_type_round_trips_through_sqlite_with_exact_bits_and_nested_nulls() {
    let rows = 4;
    let decimal_max = 10_i128.pow(38) - 1;
    let batch = all_types_batch();
    let codec = RowCodec::new_validated(batch.schema.copy());
    let encoded = (0..rows)
        .map(|row| codec.encode_row(&batch, row).unwrap())
        .collect::<Vec<_>>();

    assert_eq!(encoded[0].values[9], blob(&u64::MAX.to_be_bytes()));
    assert_eq!(
        encoded[0].values[10],
        blob(&(-0.0_f32).to_bits().to_be_bytes())
    );
    assert_eq!(
        encoded[2].values[10],
        blob(&0.0_f32.to_bits().to_be_bytes())
    );
    assert_eq!(
        encoded[0].values[11],
        blob(&0x7ff8_0000_0000_0001_u64.to_be_bytes())
    );
    assert_eq!(
        encoded[3].values[11],
        blob(&0x7ff8_0000_0000_0002_u64.to_be_bytes())
    );
    assert!(encoded[1].values[..15]
        .iter()
        .all(|value| *value == SqliteValue::Null));
    assert!(encoded[1].values[16..]
        .iter()
        .all(|value| *value == SqliteValue::Null));
    assert_eq!(
        encoded[0].values[16],
        SqliteValue::Integer(i64::from(i32::MIN))
    );
    assert_eq!(encoded[0].values[17], SqliteValue::Integer(i64::MIN));
    assert_eq!(encoded[0].values[18], SqliteValue::Integer(i64::MAX));
    assert_eq!(encoded[0].values[19], SqliteValue::Integer(-1));
    assert_eq!(encoded[0].values[20], SqliteValue::Integer(i64::MIN + 1));
    assert_eq!(encoded[0].values[21], blob(&decimal_max.to_be_bytes()));
    assert_eq!(encoded[0].values[22], blob(&(-9_999_i128).to_be_bytes()));

    let connection = Connection::open_in_memory().unwrap();
    connection
        .execute(
            &format!(
                "CREATE TABLE candidate ({}) STRICT",
                batch
                    .schema
                    .fields
                    .iter()
                    .map(|field| column_definition(field).unwrap())
                    .collect::<Vec<_>>()
                    .join(", ")
            ),
            [],
        )
        .unwrap();
    let placeholders = (1..=batch.schema.fields.len())
        .map(|index| format!("?{index}"))
        .collect::<Vec<_>>()
        .join(", ");
    let insert = format!("INSERT INTO candidate VALUES ({placeholders})");
    for row in &encoded {
        connection
            .execute(&insert, params_from_iter(row.values.iter().map(sql_value)))
            .unwrap();
    }
    let mut statement = connection
        .prepare("SELECT * FROM candidate ORDER BY rowid")
        .unwrap();
    let mut rows = statement.query([]).unwrap();
    for expected in &encoded {
        let row = rows.next().unwrap().unwrap();
        assert!(expected.matches(&read_row(row, expected.values.len()), 0));
    }
    assert!(rows.next().unwrap().is_none());

    assert_eq!(encoded[0].canonical, canonical_all_types_row_golden());
    assert_eq!(
        encoded[0].hash,
        [
            0x7c, 0xdb, 0x54, 0xfc, 0x12, 0x8d, 0x90, 0xc1, 0x31, 0x4d, 0x2f, 0xf3, 0x85, 0xa5,
            0xfc, 0x70,
        ]
    );
}

fn canonical_all_types_row_golden() -> Vec<u8> {
    let hex = "
            00 01 01 01 80 01 80 00 01 80 00 00 00
            01 80 00 00 00 00 00 00 00 01 ff 01 ff ff
            01 ff ff ff ff 01 ff ff ff ff ff ff ff ff
            01 80 00 00 00 01 7f f8 00 00 00 00 00 01
            01 00 00 00 00 00 00 00 04 75 74 66 38
            01 00 00 00 00 00 00 00 02 00 ff
            01 00 00 00 00 00 00 00 03
              01 00 00 00 00 00 00 00 01
              00
              01 ff ff ff ff ff ff ff fe
            01 01 01 01 00 00 00 00 00 00 00 07
            01 80 00 00 00
            01 80 00 00 00 00 00 00 00
            01 7f ff ff ff ff ff ff ff
            01 ff ff ff ff ff ff ff ff
            01 80 00 00 00 00 00 00 01
            01 4b 3b 4c a8 5a 86 c4 7a 09 8a 22 3f ff ff ff ff
            01 ff ff ff ff ff ff ff ff ff ff ff ff ff ff d8 f1
        ";
    let digits = hex
        .bytes()
        .filter(|byte| !byte.is_ascii_whitespace())
        .collect::<Vec<_>>();
    digits
        .chunks_exact(2)
        .map(|pair| (hex_nibble(pair[0]) << 4) | hex_nibble(pair[1]))
        .collect()
}

fn hex_nibble(digit: u8) -> u8 {
    match digit {
        b'0'..=b'9' => digit - b'0',
        b'a'..=b'f' => digit - b'a' + 10,
        _ => panic!("invalid hexadecimal digit"),
    }
}

fn check_candidate() {
    let batch = batch(
        vec![
            (
                field("number", DataType::UInt64, false),
                DataType::UInt64,
                vec![Value::UInt64(u64::MAX)],
            ),
            (
                field("text", DataType::Utf8, true),
                DataType::Utf8,
                vec![Value::Utf8("same".to_owned())],
            ),
        ],
        1,
    );
    let codec = RowCodec::new_validated(batch.schema.copy());
    let encoded = codec.encode_row(&batch, 0).unwrap();
    let connection = Connection::open_in_memory().unwrap();
    connection
        .execute(
            "CREATE TABLE candidate (prefix INTEGER, number BLOB, text TEXT)",
            [],
        )
        .unwrap();
    connection
        .execute(
            "INSERT INTO candidate VALUES (7, ?1, ?2)",
            params_from_iter(encoded.values.iter().map(sql_value)),
        )
        .unwrap();
    let mut statement = connection
        .prepare("SELECT prefix, number, text FROM candidate")
        .unwrap();
    let mut rows = statement.query([]).unwrap();
    let row = rows.next().unwrap().unwrap();
    let matches = encoded.matches(&read_row(row, 3), 1);
    assert!(matches);
}

#[test]
fn tests_compares_sqlite_candidate_without_lossy_conversion() {
    check_candidate();
}

#[test]
fn row_compares_sqlite_candidate_without_lossy_conversion() {
    check_candidate();
}

fn check_null_struct() {
    let object = || DataType::Struct(vec![field("child", DataType::Int64, false)]);
    let batch = batch(
        vec![(field("object", object(), true), object(), vec![Value::Null])],
        1,
    );
    let encoded = RowCodec::new_validated(batch.schema.copy())
        .encode_row(&batch, 0)
        .unwrap();

    assert_eq!(encoded.canonical, [0]);
    assert_eq!(encoded.values, [SqliteValue::Null]);
}

#[test]
fn tests_a_null_struct_parent_ignores_its_hidden_non_nullable_child() {
    check_null_struct();
}

#[test]
fn row_a_null_struct_parent_ignores_its_hidden_non_nullable_child() {
    check_null_struct();
}

#[test]
fn zero_column_row_has_stable_relation_hash() {
    let batch = batch(Vec::new(), 1);
    let encoded = RowCodec::new_validated(batch.schema.copy())
        .encode_row(&batch, 0)
        .unwrap();

    assert!(encoded.canonical.is_empty());
    assert!(encoded.values.is_empty());
    assert_eq!(
        encoded.hash,
        [
            0x4b, 0x9b, 0x97, 0x07, 0xa9, 0xae, 0xba, 0x64, 0x25, 0x41, 0x84, 0x6f, 0x72, 0x96,
            0x45, 0xf8,
        ]
    );
}

#[test]
fn a_row_with_another_value_is_not_the_same_row() {
    let batch = all_types_batch();
    let codec = RowCodec::new_validated(batch.schema.copy());
    let encoded = codec.encode_row(&batch, 0).unwrap();
    let copy = || -> Vec<SqliteValue> {
        encoded
            .values
            .iter()
            .map(|value| match value {
                SqliteValue::Null => SqliteValue::Null,
                SqliteValue::Integer(value) => SqliteValue::Integer(*value),
                SqliteValue::Text(text) => SqliteValue::Text(text.clone()),
                SqliteValue::Blob(bytes) => SqliteValue::Blob(bytes.clone()),
            })
            .collect()
    };
    assert!(encoded.matches(&copy(), 0));
    for column in 0..encoded.values.len() {
        let mut other = copy();
        other[column] = SqliteValue::Text("another".to_owned());
        assert!(!encoded.matches(&other, 0));
    }
}

#[test]
fn a_number_is_stored_big_endian() {
    assert_eq!(number_bytes(0x0102_0304, 4), [1, 2, 3, 4]);
    assert_eq!(number_bytes(258, 8), [0, 0, 0, 0, 0, 0, 1, 2]);
}

#[test]
fn a_null_in_a_column_that_forbids_it_is_refused() {
    let batch = batch(
        vec![(
            field("value", DataType::Int64, false),
            DataType::Int64,
            vec![Value::Null],
        )],
        1,
    );
    let result = RowCodec::new_validated(batch.schema.copy()).encode_row(&batch, 0);

    assert!(matches!(
        result,
        Err(RowError::UnexpectedNull { field }) if field == "value"
    ));
}
