use dogpaddle_sink::change::{same_schema, Change, Column, DataType, Field, Schema, TimeUnit, Value};
use dogpaddle_sink::relation::batch::{
    Batch, Delete, Insert, FIRST_TECHNICAL_ID, MAX_TECHNICAL_ID,
};
use dogpaddle_sink::relation::plan::{Lookup, Matches};
use dogpaddle_sink::relation::position::{Continuation, Mutation, MutationKind, Position};
use dogpaddle_sink::relation::stepwise::{BatchPlanner, MatchingIds, PlanStep, Query};
use dogpaddle_sink::sqlite::error::{refuse_step, SqliteSinkError};
use dogpaddle_sink::sqlite::row::{EncodedRow, RowCodec, SqliteValue};
use dogpaddle_sink::sqlite::runtime::{
    apply_batch, refuse_plan, store_batch, Action, SqliteSinkOperation, Work,
};
use dogpaddle_sink::sqlite::state::PendingState;
use dogpaddle_sink::sqlite::target::SqlPlan;
use dogpaddle_sink::sqlite::write::{
    apply_mutation, begin_initialization, delete_statement, matching_ids, matching_instances,
    needs_count, require_absent, require_empty, require_exact_layout, select_row_statement,
    technical_id_as_i64, write_plan, SchemaObject,
};
use rusqlite::types::Value as SqlValue;
use rusqlite::{params_from_iter, Connection, TransactionBehavior};

const TABLE: &str = "materialized";

struct Fixture {
    uri: String,
    keeper: Connection,
    connection: Option<Connection>,
    plan: SqlPlan,
    codec: RowCodec,
    operation: SqliteSinkOperation,
    next_id: Option<u64>,
    pending: Option<Vec<u8>>,
}

/// What a turn leads to, and what the store holds of the sink once it commits.
type Turn = (Action, Option<u64>, Option<Vec<u8>>);

fn sqlite(error: rusqlite::Error) -> SqliteSinkError {
    SqliteSinkError::Sqlite {
        message: error.to_string(),
    }
}

fn sql_value(value: &SqliteValue) -> SqlValue {
    match value {
        SqliteValue::Null => SqlValue::Null,
        SqliteValue::Integer(value) => SqlValue::Integer(*value),
        SqliteValue::Text(text) => SqlValue::Text(text.clone()),
        SqliteValue::Blob(bytes) => SqlValue::Blob(bytes.clone()),
    }
}

fn read_value(value: SqlValue) -> SqliteValue {
    match value {
        SqlValue::Null => SqliteValue::Null,
        SqlValue::Integer(value) => SqliteValue::Integer(value),
        SqlValue::Real(value) => SqliteValue::Text(value.to_string()),
        SqlValue::Text(text) => SqliteValue::Text(text),
        SqlValue::Blob(bytes) => SqliteValue::Blob(bytes),
    }
}

fn object_exists(connection: &Connection, name: &str) -> bool {
    connection
        .query_row(
            "SELECT EXISTS(SELECT 1 FROM sqlite_schema WHERE name = ?1 COLLATE NOCASE)",
            [name],
            |row| row.get(0),
        )
        .unwrap()
}

fn require_layout(connection: &Connection, plan: &SqlPlan) -> Result<(), SqliteSinkError> {
    let mut statement = connection
        .prepare(
            "SELECT type, name, sql FROM sqlite_schema \
             WHERE tbl_name = ?1 COLLATE NOCASE \
             AND type IN ('table', 'index', 'trigger') \
             ORDER BY type COLLATE BINARY, name COLLATE BINARY",
        )
        .unwrap();
    let objects = statement
        .query_map([&plan.table_name], |row| {
            Ok(SchemaObject {
                kind: row.get(0)?,
                name: row.get(1)?,
                definition: row.get(2)?,
            })
        })
        .unwrap()
        .collect::<Result<Vec<_>, _>>()
        .unwrap();
    require_exact_layout(&objects, plan)
}

fn create_target(connection: &Connection, plan: &SqlPlan) -> Result<(), SqliteSinkError> {
    if begin_initialization(
        plan,
        object_exists(connection, &plan.table_name),
        object_exists(connection, &plan.index_name),
    )? {
        connection.execute(&plan.create_table, []).map_err(sqlite)?;
        connection.execute(&plan.create_index, []).map_err(sqlite)?;
    }
    require_layout(connection, plan)?;
    let has_rows = connection
        .query_row(&plan.has_rows, [], |row| row.get(0))
        .map_err(sqlite)?;
    require_empty(plan, has_rows)
}

fn lookup(
    connection: &Connection,
    plan: &SqlPlan,
    encoded: &EncodedRow,
    query: &Query,
) -> MatchingIds {
    let mut statement = connection.prepare(&plan.select_matching_ids).unwrap();
    let read = statement
        .query_map(params_from_iter(row_values(encoded, i64::MAX)), |row| {
            row.get(0)
        })
        .unwrap()
        .collect::<Result<Vec<i64>, _>>()
        .unwrap();
    matching_instances(&read, query).unwrap()
}

fn stored_row(
    connection: &Connection,
    plan: &SqlPlan,
    fields: usize,
    id: i64,
) -> Option<Vec<SqliteValue>> {
    let mut statement = connection.prepare(&select_row_statement(plan)).unwrap();
    let mut rows = statement.query([id]).unwrap();
    let row = rows.next().unwrap()?;
    Some(
        (0..fields + 2)
            .map(|index| read_value(row.get(index).unwrap()))
            .collect(),
    )
}

impl Fixture {
    fn new(schema: Schema) -> Self {
        let marker = Box::leak(Box::new(0_u8));
        let uri = format!("file:sink_{marker:p}?mode=memory&cache=shared");
        Self {
            keeper: Connection::open(&uri).unwrap(),
            uri,
            connection: None,
            plan: SqlPlan::try_new(TABLE, &schema).unwrap(),
            codec: RowCodec::new_validated(schema.copy()),
            operation: SqliteSinkOperation::new(schema),
            next_id: None,
            pending: None,
        }
    }

    fn peer(&self) -> Connection {
        Connection::open(&self.uri).unwrap()
    }

    fn reopen(self, schema: Schema) -> Self {
        let connection = Some(self.peer());
        Self {
            uri: self.uri,
            keeper: self.keeper,
            connection,
            plan: SqlPlan::try_new(TABLE, &schema).unwrap(),
            codec: RowCodec::new_validated(schema.copy()),
            operation: SqliteSinkOperation::new(schema),
            next_id: self.next_id,
            pending: self.pending,
        }
    }

    fn turn(&mut self, change: &Change) -> Result<Turn, SqliteSinkError> {
        let work = self
            .operation
            .turn_inner(0, change, self.next_id, self.pending.as_deref())?;
        if self.connection.is_none() {
            self.connection = Some(self.peer());
        }
        let connection = self.connection.as_mut().unwrap();
        let plan = &self.plan;
        match work {
            Work::PrepareInitialization => {
                require_absent(
                    plan,
                    object_exists(connection, &plan.table_name),
                    object_exists(connection, &plan.index_name),
                )?;
                let pending = PendingState::Initialize.encode().unwrap();
                Ok((Action::Commit, self.next_id, Some(pending)))
            }
            Work::ApplyInitialization => {
                let transaction = connection
                    .transaction_with_behavior(TransactionBehavior::Immediate)
                    .map_err(sqlite)?;
                create_target(&transaction, plan)?;
                transaction.commit().map_err(sqlite)?;
                Ok((Action::Commit, Some(FIRST_TECHNICAL_ID), None))
            }
            Work::PrepareBatch {
                next_id,
                start_position,
            } => {
                require_layout(connection, plan)?;
                let mut planner =
                    BatchPlanner::new(change, next_id, start_position).map_err(refuse_step)?;
                let mut step = planner.step(change).map_err(refuse_plan)?;
                let continuation = loop {
                    step = match step {
                        PlanStep::Continue => planner.step(change).map_err(refuse_plan)?,
                        PlanStep::Ask(query) => {
                            let encoded = self
                                .codec
                                .encode_row(&change.records, query.row_index)
                                .unwrap();
                            let matching = lookup(connection, plan, &encoded, &query);
                            assert!(planner.accepts(&matching));
                            planner.answer(change, matching).map_err(refuse_plan)?
                        }
                        PlanStep::Done(continuation) => break continuation,
                    };
                };
                let planned = store_batch(planner, continuation, change);
                Ok((Action::Commit, Some(planned.next_id), Some(planned.pending)))
            }
            Work::ApplyBatch {
                next_id,
                start_position,
                continuation,
                mutations,
            } => {
                require_layout(connection, plan)?;
                let applied =
                    apply_batch(change, next_id, start_position, continuation, &mutations)?;
                let transaction = connection
                    .transaction_with_behavior(TransactionBehavior::Immediate)
                    .map_err(sqlite)?;
                for mutation in &mutations {
                    let id = technical_id_as_i64(mutation.technical_id)?;
                    let row_index = usize::try_from(mutation.row_index).unwrap();
                    let encoded = self.codec.encode_row(&change.records, row_index).unwrap();
                    let same = stored_row(&transaction, plan, encoded.values.len(), id)
                        .map(|read| encoded.matches(&read, 2));
                    if !apply_mutation(*mutation, same)? {
                        continue;
                    }
                    match mutation.kind {
                        MutationKind::Insert => {
                            let mut values =
                                vec![SqlValue::Integer(id), SqlValue::Blob(encoded.hash.clone())];
                            values.extend(encoded.values.iter().map(sql_value));
                            transaction
                                .execute(&plan.insert, params_from_iter(values))
                                .map_err(sqlite)?;
                        }
                        MutationKind::Delete => {
                            transaction
                                .execute(&delete_statement(plan, 1), [id])
                                .map_err(sqlite)?;
                        }
                    }
                }
                transaction.commit().map_err(sqlite)?;
                Ok((applied.action, Some(next_id), applied.pending))
            }
        }
    }

    fn committed_turn(&mut self, change: &Change) -> Action {
        let (action, next_id, pending) = self.turn(change).unwrap();
        self.next_id = next_id;
        self.pending = pending;
        action
    }

    fn rolled_back_turn(&mut self, change: &Change) -> Action {
        self.turn(change).unwrap().0
    }

    fn failed_turn(&mut self, change: &Change) -> SqliteSinkError {
        self.turn(change).unwrap_err()
    }

    fn pending_state(&mut self) -> Option<PendingState> {
        self.pending
            .as_ref()
            .map(|encoded| PendingState::decode(encoded).unwrap())
    }

    fn durable_next_id(&mut self) -> Option<u64> {
        self.next_id
    }

    fn set_pending_state(&mut self, state: &PendingState) {
        self.pending = Some(state.encode().unwrap());
    }

    fn set_next_id(&mut self, next_id: u64) {
        self.next_id = Some(next_id);
    }

    fn initialize(&mut self, change: &Change) {
        assert_commit(self.committed_turn(change));
        assert_eq!(self.pending_state(), Some(PendingState::Initialize));
        assert_eq!(self.durable_next_id(), None);
        assert_commit(self.committed_turn(change));
        assert_eq!(self.pending_state(), None);
        assert_eq!(self.durable_next_id(), Some(1));
    }

    fn row_count(&self) -> i64 {
        self.peer()
            .query_row(&format!("SELECT COUNT(*) FROM \"{TABLE}\""), [], |row| {
                row.get(0)
            })
            .unwrap()
    }

    fn ids(&self) -> Vec<i64> {
        let connection = self.peer();
        let mut statement = connection
            .prepare(&format!(
                "SELECT \"$dogpaddle.id\" FROM \"{TABLE}\" ORDER BY \"$dogpaddle.id\""
            ))
            .unwrap();
        statement
            .query_map([], |row| row.get(0))
            .unwrap()
            .collect::<Result<Vec<_>, _>>()
            .unwrap()
    }

    fn id_values(&self) -> Vec<(i64, i64)> {
        let connection = self.peer();
        let mut statement = connection
            .prepare(
                "SELECT \"$dogpaddle.id\", \"value\" FROM \"materialized\" \
                 ORDER BY \"$dogpaddle.id\"",
            )
            .unwrap();
        statement
            .query_map([], |row| Ok((row.get(0)?, row.get(1)?)))
            .unwrap()
            .collect::<Result<Vec<_>, _>>()
            .unwrap()
    }

    fn finish_change(&mut self, change: &Change) {
        while self.committed_turn(change) == Action::Commit {}
    }
}

fn field(name: &str, data_type: DataType, nullable: bool) -> Field {
    Field {
        name: name.to_owned(),
        data_type,
        nullable,
        metadata: Vec::new(),
    }
}

fn value_schema() -> Schema {
    Schema::new(vec![field("value", DataType::Int64, false)])
}

fn value_change(schema: &Schema, values: &[i64], diffs: &[i64]) -> Change {
    assert_eq!(values.len(), diffs.len());
    let column = Column {
        data_type: DataType::Int64,
        values: values.iter().map(|value| Value::Int64(*value)).collect(),
    };
    Change::try_new(schema.copy(), vec![column], values.len(), diffs.to_vec()).unwrap()
}

fn assert_commit(action: Action) {
    assert_eq!(action, Action::Commit);
}

fn assert_complete(action: Action) {
    assert_eq!(action, Action::Complete);
}

#[test]
fn first_turn_opens_database_but_two_stage_initialization_delays_table_creation() {
    let schema = value_schema();
    let change = value_change(&schema, &[7], &[1]);
    let mut fixture = Fixture::new(schema);
    assert!(fixture.connection.is_none());

    assert_commit(fixture.committed_turn(&change));
    assert!(fixture.connection.is_some());
    let connection = fixture.peer();
    let objects: i64 = connection
        .query_row(
            "SELECT COUNT(*) FROM sqlite_schema WHERE name IN (?1, ?2)",
            [TABLE, "$dogpaddle.hash_index.materialized"],
            |row| row.get(0),
        )
        .unwrap();
    assert_eq!(objects, 0);
    assert_eq!(fixture.pending_state(), Some(PendingState::Initialize));
    assert_eq!(fixture.durable_next_id(), None);

    assert_commit(fixture.committed_turn(&change));
    assert_eq!(fixture.pending_state(), None);
    assert_eq!(fixture.durable_next_id(), Some(1));
    assert_eq!(fixture.row_count(), 0);

    assert_commit(fixture.committed_turn(&change));
    assert_eq!(fixture.row_count(), 0);
    assert_complete(fixture.committed_turn(&change));
    assert_eq!(fixture.row_count(), 1);
    assert_eq!(fixture.ids(), [1]);
}

#[test]
fn temporal_and_decimal_row_inserts_queries_and_retracts_without_loss() {
    let zone = || Some("America/New_York".to_owned());
    let schema = Schema::new(vec![
        field("date", DataType::Date32, false),
        field(
            "timestamp",
            DataType::Timestamp(TimeUnit::Nanosecond, zone()),
            false,
        ),
        field("amount", DataType::Decimal128(38, -4), false),
    ]);
    let row = |diff: i64| {
        let columns = vec![
            Column {
                data_type: DataType::Date32,
                values: vec![Value::Date32(i32::MIN)],
            },
            Column {
                data_type: DataType::Timestamp(TimeUnit::Nanosecond, zone()),
                values: vec![Value::Timestamp(i64::MAX)],
            },
            Column {
                data_type: DataType::Decimal128(38, -4),
                values: vec![Value::Decimal128(-12_345)],
            },
        ];
        Change::try_new(schema.copy(), columns, 1, vec![diff]).unwrap()
    };
    let insert = row(1);
    let retract = row(-1);
    let mut fixture = Fixture::new(schema.copy());

    fixture.initialize(&insert);
    fixture.finish_change(&insert);
    let connection = fixture.peer();
    let stored = connection
        .query_row(
            "SELECT date, timestamp, amount FROM materialized",
            [],
            |row| {
                Ok((
                    row.get::<_, i64>(0)?,
                    row.get::<_, i64>(1)?,
                    row.get::<_, Vec<u8>>(2)?,
                ))
            },
        )
        .unwrap();
    assert_eq!(
        stored,
        (
            i64::from(i32::MIN),
            i64::MAX,
            (-12_345_i128).to_be_bytes().to_vec(),
        )
    );
    drop(connection);

    fixture.finish_change(&retract);
    assert_eq!(fixture.row_count(), 0);
}

#[test]
fn initialization_replay_requires_an_exact_empty_layout_across_reopen() {
    let schema = value_schema();
    let change = value_change(&schema, &[7], &[1]);
    let mut fixture = Fixture::new(schema.copy());
    assert_commit(fixture.committed_turn(&change));

    assert_commit(fixture.rolled_back_turn(&change));
    assert_eq!(fixture.pending_state(), Some(PendingState::Initialize));
    assert_eq!(fixture.durable_next_id(), None);
    assert_eq!(fixture.row_count(), 0);

    let connection = fixture.peer();
    connection
        .execute(
            "INSERT INTO \"materialized\" \
             (\"$dogpaddle.id\", \"$dogpaddle.hash\", \"value\") \
             VALUES (1, zeroblob(16), 7)",
            [],
        )
        .unwrap();
    let error = fixture.failed_turn(&change);
    assert!(matches!(
        error,
        SqliteSinkError::TargetNotEmpty { table } if table == TABLE
    ));
    connection
        .execute("DELETE FROM \"materialized\"", [])
        .unwrap();
    drop(connection);

    let mut fixture = fixture.reopen(schema);
    assert_commit(fixture.committed_turn(&change));
    assert_eq!(fixture.pending_state(), None);
    assert_eq!(fixture.durable_next_id(), Some(1));
}

#[test]
fn first_turn_detects_existing_object_names_with_sqlite_identifier_casing() {
    let schema = value_schema();
    let change = value_change(&schema, &[7], &[1]);
    let mut fixture = Fixture::new(schema);
    fixture
        .peer()
        .execute("CREATE TABLE \"MATERIALIZED\" (value INTEGER)", [])
        .unwrap();

    let error = fixture.failed_turn(&change);
    assert!(matches!(
        error,
        SqliteSinkError::TargetExists { name } if name == TABLE
    ));
    assert_eq!(fixture.pending_state(), None);
    assert_eq!(fixture.durable_next_id(), None);
}

#[test]
fn initialization_replay_rejects_an_attached_trigger() {
    let schema = value_schema();
    let change = value_change(&schema, &[7], &[1]);
    let mut fixture = Fixture::new(schema);
    assert_commit(fixture.committed_turn(&change));
    assert_commit(fixture.rolled_back_turn(&change));
    fixture
        .peer()
        .execute(
            "CREATE TRIGGER \"erase_insert\" AFTER INSERT ON \"materialized\" \
             BEGIN DELETE FROM \"materialized\" \
             WHERE \"$dogpaddle.id\" = NEW.\"$dogpaddle.id\"; END",
            [],
        )
        .unwrap();

    let error = fixture.failed_turn(&change);
    assert!(matches!(
        error,
        SqliteSinkError::TargetLayoutMismatch { name } if name == "erase_insert"
    ));
    assert_eq!(fixture.pending_state(), Some(PendingState::Initialize));
    assert_eq!(fixture.durable_next_id(), None);
}

#[test]
fn ready_state_rejects_missing_and_extra_schema_objects() {
    let schema = value_schema();
    let change = value_change(&schema, &[7], &[1]);
    let mut fixture = Fixture::new(schema);
    fixture.initialize(&change);
    let connection = fixture.peer();

    connection
        .execute("DROP INDEX \"$dogpaddle.hash_index.materialized\"", [])
        .unwrap();
    let error = fixture.failed_turn(&change);
    assert!(matches!(
        error,
        SqliteSinkError::TargetMissing { name }
            if name == "$dogpaddle.hash_index.materialized"
    ));

    connection
        .execute(
            "CREATE INDEX \"$dogpaddle.hash_index.materialized\" \
             ON \"materialized\"(\"$dogpaddle.hash\")",
            [],
        )
        .unwrap();
    connection
        .execute("CREATE INDEX \"extra\" ON \"materialized\"(\"value\")", [])
        .unwrap();
    let error = fixture.failed_turn(&change);
    assert!(matches!(
        error,
        SqliteSinkError::TargetLayoutMismatch { name } if name == "extra"
    ));
    assert_eq!(fixture.pending_state(), None);
    assert_eq!(fixture.durable_next_id(), Some(1));
}

#[test]
fn one_row_multiplicity_respects_the_1024_and_1025_batch_boundary() {
    for (multiplicity, expected_batches) in [(1_024, 1), (1_025, 2)] {
        let schema = value_schema();
        let change = value_change(&schema, &[7], &[multiplicity]);
        let mut fixture = Fixture::new(schema);
        fixture.initialize(&change);

        let mut batches = 0;
        loop {
            assert_commit(fixture.committed_turn(&change));
            let Some(PendingState::Apply { mutations, .. }) = fixture.pending_state() else {
                panic!("prepare turn did not persist an Apply batch")
            };
            assert!(mutations.len() <= 1_024);
            batches += 1;
            match fixture.committed_turn(&change) {
                Action::Commit => {}
                Action::Complete => break,
                            }
        }

        assert_eq!(batches, expected_batches);
        assert_eq!(fixture.row_count(), multiplicity);
        assert_eq!(
            fixture.durable_next_id(),
            Some(u64::try_from(multiplicity).unwrap() + 1)
        );
    }
}

#[test]
fn maximum_1998_column_schema_creates_and_inserts_into_a_strict_table() {
    let schema = Schema::new(
        (0..1_998)
            .map(|index| field(&format!("field_{index}"), DataType::Null, false))
            .collect(),
    );
    let columns = (0..1_998)
        .map(|_| Column {
            data_type: DataType::Null,
            values: vec![Value::Null],
        })
        .collect();
    let change = Change::try_new(schema.copy(), columns, 1, vec![1]).unwrap();
    let mut fixture = Fixture::new(schema);

    fixture.initialize(&change);
    assert_commit(fixture.committed_turn(&change));
    assert_complete(fixture.committed_turn(&change));
    assert_eq!(fixture.row_count(), 1);
    assert_eq!(fixture.ids(), [1]);
}

#[test]
fn a_full_batch_crosses_change_rows_without_reordering_them() {
    let schema = value_schema();
    let change = value_change(&schema, &[10, 20], &[600, 500]);
    let mut fixture = Fixture::new(schema);
    fixture.initialize(&change);

    assert_commit(fixture.committed_turn(&change));
    let Some(PendingState::Apply {
        continuation,
        mutations,
        ..
    }) = fixture.pending_state()
    else {
        panic!("prepare turn did not persist an Apply batch")
    };
    assert_eq!(mutations.len(), 1_024);
    assert_eq!(
        mutations
            .iter()
            .filter(|mutation| mutation.row_index == 0)
            .count(),
        600
    );
    assert_eq!(
        mutations
            .iter()
            .filter(|mutation| mutation.row_index == 1)
            .count(),
        424
    );
    assert_eq!(
        continuation,
        Continuation::Position(Position {
            row_index: 1,
            remaining: 76,
        })
    );

    assert_commit(fixture.committed_turn(&change));
    assert_eq!(fixture.row_count(), 1_024);
    assert_eq!(
        fixture.pending_state(),
        Some(PendingState::Prepare {
            position: Position {
                row_index: 1,
                remaining: 76,
            },
        })
    );
    assert_commit(fixture.committed_turn(&change));
    assert_complete(fixture.committed_turn(&change));
    assert_eq!(fixture.row_count(), 1_100);
}

#[test]
fn stable_change_rebatching_preserves_ids_and_final_relation() {
    let schema = value_schema();
    let combined = value_change(&schema, &[7, 7, 8, 8], &[2, -1, 2, -1]);
    let first = value_change(&schema, &[7], &[2]);
    let second = value_change(&schema, &[7, 8, 8], &[-1, 2, -1]);

    let mut one_change = Fixture::new(schema.copy());
    one_change.initialize(&combined);
    one_change.finish_change(&combined);

    let mut two_changes = Fixture::new(schema);
    two_changes.initialize(&first);
    two_changes.finish_change(&first);
    two_changes.finish_change(&second);

    assert_eq!(one_change.id_values(), [(2, 7), (4, 8)]);
    assert_eq!(two_changes.id_values(), one_change.id_values());
    assert_eq!(two_changes.durable_next_id(), Some(5));
}

#[test]
fn a_persisted_prepare_position_must_be_on_a_stable_batch_boundary() {
    let schema = value_schema();
    let change = value_change(&schema, &[10, 20], &[600, 500]);
    let mut fixture = Fixture::new(schema);
    fixture.initialize(&change);
    fixture.set_pending_state(&PendingState::Prepare {
        position: Position {
            row_index: 1,
            remaining: 500,
        },
    });

    let error = fixture.failed_turn(&change);
    assert!(matches!(
        error,
        SqliteSinkError::PendingInputMismatch(mismatch)
            if mismatch.message().contains("stable 1024-mutation batch boundary")
    ));
    assert_eq!(fixture.row_count(), 0);
}

#[test]
fn a_persisted_apply_insert_range_must_end_at_the_next_id_frontier() {
    let schema = value_schema();
    let change = value_change(&schema, &[7], &[1]);
    let mut fixture = Fixture::new(schema);
    fixture.initialize(&change);
    fixture.set_next_id(100);
    fixture.set_pending_state(&PendingState::Apply {
        start_position: Position {
            row_index: 0,
            remaining: 1,
        },
        continuation: Continuation::Done,
        mutations: vec![Mutation {
            kind: MutationKind::Insert,
            row_index: 0,
            technical_id: 1,
        }],
    });

    let error = fixture.failed_turn(&change);
    assert!(matches!(
        error,
        SqliteSinkError::PendingInputMismatch(mismatch)
            if mismatch.message().contains("next-ID frontier")
    ));
    assert_eq!(fixture.row_count(), 0);
}

#[test]
fn negative_multiplicity_is_fully_preflighted_without_partial_work() {
    let schema = value_schema();
    let invalid_after_insert = value_change(&schema, &[7, 8], &[1, -2]);
    let mut fixture = Fixture::new(schema.copy());
    fixture.initialize(&invalid_after_insert);

    let error = fixture.failed_turn(&invalid_after_insert);
    assert!(matches!(
        error,
        SqliteSinkError::MissingRetraction {
            row_index: 1,
            needed: 2,
            available: 0,
        }
    ));
    assert_eq!(fixture.pending_state(), None);
    assert_eq!(fixture.durable_next_id(), Some(1));
    assert_eq!(fixture.row_count(), 0);

    let minimum = value_change(&schema, &[9], &[i64::MIN]);
    let error = fixture.failed_turn(&minimum);
    assert!(matches!(
        error,
        SqliteSinkError::MissingRetraction {
            row_index: 0,
            needed,
            available: 0,
        } if needed == 1_u64 << 63
    ));
    assert_eq!(fixture.pending_state(), None);
    assert_eq!(fixture.row_count(), 0);

    let existing = value_change(&schema, &[11], &[1_024]);
    fixture.finish_change(&existing);
    let over_batch_boundary = value_change(&schema, &[11], &[-1_025]);
    let error = fixture.failed_turn(&over_batch_boundary);
    assert!(matches!(
        error,
        SqliteSinkError::MissingRetraction {
            row_index: 0,
            needed: 1_025,
            available: 1_024,
        }
    ));
    assert_eq!(fixture.pending_state(), None);
    assert_eq!(fixture.durable_next_id(), Some(1_025));
    assert_eq!(fixture.row_count(), 1_024);
}

#[test]
fn id_exhaustion_is_checked_for_the_complete_remaining_multiplicity() {
    let schema = value_schema();
    let change = value_change(&schema, &[7], &[2]);
    let mut fixture = Fixture::new(schema);
    fixture.initialize(&change);
    fixture.set_next_id(MAX_TECHNICAL_ID);

    let error = fixture.failed_turn(&change);
    assert!(matches!(
        error,
        SqliteSinkError::TechnicalIdExhausted {
            next_id,
            needed: 2,
        } if next_id == MAX_TECHNICAL_ID
    ));
    assert_eq!(fixture.pending_state(), None);
    assert_eq!(fixture.durable_next_id(), Some(MAX_TECHNICAL_ID));
    assert_eq!(fixture.row_count(), 0);
}

#[test]
fn an_insert_then_delete_of_the_same_row_cancels_inside_one_batch() {
    let schema = value_schema();
    let change = value_change(&schema, &[7, 7], &[1, -1]);
    let mut fixture = Fixture::new(schema);
    fixture.initialize(&change);

    assert_commit(fixture.committed_turn(&change));
    let Some(PendingState::Apply { mutations, .. }) = fixture.pending_state() else {
        panic!("prepare turn did not persist an Apply batch")
    };
    assert_eq!(mutations.len(), 2);
    assert_eq!(mutations[0].kind, MutationKind::Insert);
    assert_eq!(mutations[1].kind, MutationKind::Delete);
    assert_eq!(mutations[0].technical_id, mutations[1].technical_id);

    assert_complete(fixture.committed_turn(&change));
    assert_eq!(fixture.row_count(), 0);
    assert_eq!(fixture.durable_next_id(), Some(2));
}

#[test]
fn deleting_duplicate_rows_selects_the_smallest_technical_id() {
    let schema = value_schema();
    let inserts = value_change(&schema, &[7], &[3]);
    let delete = value_change(&schema, &[7], &[-1]);
    let mut fixture = Fixture::new(schema);
    fixture.initialize(&inserts);
    assert_commit(fixture.committed_turn(&inserts));
    assert_complete(fixture.committed_turn(&inserts));
    assert_eq!(fixture.ids(), [1, 2, 3]);

    assert_commit(fixture.committed_turn(&delete));
    let Some(PendingState::Apply { mutations, .. }) = fixture.pending_state() else {
        panic!("prepare turn did not persist an Apply batch")
    };
    assert_eq!(mutations.len(), 1);
    assert_eq!(mutations[0].kind, MutationKind::Delete);
    assert_eq!(mutations[0].technical_id, 1);

    assert_complete(fixture.committed_turn(&delete));
    assert_eq!(fixture.ids(), [2, 3]);
}

#[test]
fn hash_collisions_are_filtered_by_exact_logical_values() {
    let schema = value_schema();
    let inserts = value_change(&schema, &[10, 20], &[1, 1]);
    let delete_twenty = value_change(&schema, &[20], &[-1]);
    let mut fixture = Fixture::new(schema);
    fixture.initialize(&inserts);
    assert_commit(fixture.committed_turn(&inserts));
    assert_complete(fixture.committed_turn(&inserts));

    let connection = fixture.peer();
    let hash: Vec<u8> = connection
        .query_row(
            "SELECT \"$dogpaddle.hash\" FROM \"materialized\" \
             WHERE \"$dogpaddle.id\" = 2",
            [],
            |row| row.get(0),
        )
        .unwrap();
    connection
        .execute(
            "UPDATE \"materialized\" SET \"$dogpaddle.hash\" = ?1 \
             WHERE \"$dogpaddle.id\" = 1",
            [hash],
        )
        .unwrap();
    drop(connection);

    assert_commit(fixture.committed_turn(&delete_twenty));
    let Some(PendingState::Apply { mutations, .. }) = fixture.pending_state() else {
        panic!("prepare turn did not persist an Apply batch")
    };
    assert_eq!(mutations[0].technical_id, 2);
    assert_complete(fixture.committed_turn(&delete_twenty));
    assert_eq!(fixture.ids(), [1]);
}

#[test]
fn replay_after_sqlite_commit_and_store_rollback_applies_exactly_once() {
    let schema = value_schema();
    let change = value_change(&schema, &[7], &[1]);
    let mut fixture = Fixture::new(schema.copy());
    fixture.initialize(&change);
    assert_commit(fixture.committed_turn(&change));
    let apply = fixture.pending_state().unwrap();

    assert_complete(fixture.rolled_back_turn(&change));
    assert_eq!(fixture.row_count(), 1);
    assert_eq!(fixture.pending_state(), Some(apply.clone()));

    let mut fixture = fixture.reopen(schema);
    assert_eq!(fixture.pending_state(), Some(apply));
    assert_complete(fixture.committed_turn(&change));
    assert_eq!(fixture.row_count(), 1);
    assert_eq!(fixture.ids(), [1]);
    assert_eq!(fixture.pending_state(), None);
}

#[test]
fn sqlite_write_lock_error_preserves_apply_state_and_can_retry() {
    let schema = value_schema();
    let change = value_change(&schema, &[7], &[1]);
    let mut fixture = Fixture::new(schema);
    fixture.initialize(&change);
    assert_commit(fixture.committed_turn(&change));
    let apply = fixture.pending_state().unwrap();

    let mut blocker = fixture.peer();
    let blocker_transaction = blocker
        .transaction_with_behavior(TransactionBehavior::Immediate)
        .unwrap();
    let error = fixture.failed_turn(&change);
    assert!(matches!(
        error,
        SqliteSinkError::Sqlite { .. }
    ));
    drop(blocker_transaction);

    assert_eq!(fixture.pending_state(), Some(apply));
    assert_eq!(fixture.row_count(), 0);
    assert_complete(fixture.committed_turn(&change));
    assert_eq!(fixture.ids(), [1]);
}

#[test]
fn sqlite_commit_lock_error_rolls_back_rows_and_pending_then_can_retry() {
    let schema = value_schema();
    let change = value_change(&schema, &[7], &[1]);
    let mut fixture = Fixture::new(schema);
    fixture.initialize(&change);
    assert_commit(fixture.committed_turn(&change));
    let apply = fixture.pending_state().unwrap();

    let blocker = fixture.peer();
    blocker.execute_batch("BEGIN").unwrap();
    let mut statement = blocker
        .prepare("SELECT \"$dogpaddle.id\" FROM \"materialized\"")
        .unwrap();
    let mut rows = statement.query([]).unwrap();
    assert!(rows.next().unwrap().is_none());
    let error = fixture.failed_turn(&change);
    assert!(matches!(
        error,
        SqliteSinkError::Sqlite { .. }
    ));
    drop(rows);
    drop(statement);
    blocker.execute_batch("COMMIT").unwrap();

    assert_eq!(fixture.pending_state(), Some(apply));
    assert_eq!(fixture.row_count(), 0);
    assert_complete(fixture.committed_turn(&change));
    assert_eq!(fixture.ids(), [1]);
}

#[test]
fn conflicting_insert_and_delete_rows_preserve_apply_state_and_can_retry() {
    let schema = value_schema();
    let change = value_change(&schema, &[7], &[1]);
    let mut fixture = Fixture::new(schema.copy());
    fixture.initialize(&change);
    assert_commit(fixture.committed_turn(&change));
    let apply = fixture.pending_state().unwrap();

    let connection = fixture.peer();
    connection
        .execute(
            "INSERT INTO \"materialized\" \
             (\"$dogpaddle.id\", \"$dogpaddle.hash\", \"value\") \
             VALUES (1, zeroblob(16), 99)",
            [],
        )
        .unwrap();
    drop(connection);
    let error = fixture.failed_turn(&change);
    assert!(matches!(
        error,
        SqliteSinkError::TechnicalIdConflict { id: 1 }
    ));
    assert_eq!(fixture.pending_state(), Some(apply));

    fixture
        .peer()
        .execute(
            "DELETE FROM \"materialized\" WHERE \"$dogpaddle.id\" = 1",
            [],
        )
        .unwrap();
    assert_complete(fixture.committed_turn(&change));
    assert_eq!(fixture.ids(), [1]);

    let delete = value_change(&schema, &[7], &[-1]);
    assert_commit(fixture.committed_turn(&delete));
    let apply = fixture.pending_state().unwrap();
    fixture
        .peer()
        .execute(
            "UPDATE \"materialized\" SET \"value\" = 99 \
             WHERE \"$dogpaddle.id\" = 1",
            [],
        )
        .unwrap();
    let error = fixture.failed_turn(&delete);
    assert!(matches!(
        error,
        SqliteSinkError::DeleteRowMismatch { id: 1 }
    ));
    assert_eq!(fixture.pending_state(), Some(apply));

    fixture
        .peer()
        .execute(
            "UPDATE \"materialized\" SET \"value\" = 7 \
             WHERE \"$dogpaddle.id\" = 1",
            [],
        )
        .unwrap();
    assert_complete(fixture.committed_turn(&delete));
    assert_eq!(fixture.row_count(), 0);
}

#[test]
fn replay_of_a_committed_delete_after_store_rollback_is_exactly_once() {
    let schema = value_schema();
    let insert = value_change(&schema, &[7], &[1]);
    let delete = value_change(&schema, &[7], &[-1]);
    let mut fixture = Fixture::new(schema.copy());
    fixture.initialize(&insert);
    assert_commit(fixture.committed_turn(&insert));
    assert_complete(fixture.committed_turn(&insert));
    assert_eq!(fixture.ids(), [1]);

    assert_commit(fixture.committed_turn(&delete));
    let apply = fixture.pending_state().unwrap();
    assert_complete(fixture.rolled_back_turn(&delete));
    assert_eq!(fixture.row_count(), 0);
    assert_eq!(fixture.pending_state(), Some(apply.clone()));

    let mut fixture = fixture.reopen(schema);
    assert_eq!(fixture.pending_state(), Some(apply));
    assert_complete(fixture.committed_turn(&delete));
    assert_eq!(fixture.row_count(), 0);
    assert_eq!(fixture.pending_state(), None);
}

#[test]
fn replay_of_a_full_1024_mutation_batch_is_exactly_once() {
    let schema = value_schema();
    let change = value_change(&schema, &[7, 8, 7], &[1_022, 1, -1]);
    let mut fixture = Fixture::new(schema.copy());
    fixture.initialize(&change);
    assert_commit(fixture.committed_turn(&change));
    let apply = fixture.pending_state().unwrap();

    assert_complete(fixture.rolled_back_turn(&change));
    assert_eq!(fixture.ids(), (2_i64..=1_023).collect::<Vec<_>>());
    assert_eq!(fixture.pending_state(), Some(apply.clone()));

    let mut fixture = fixture.reopen(schema);
    assert_eq!(fixture.pending_state(), Some(apply));
    assert_complete(fixture.committed_turn(&change));
    assert_eq!(fixture.ids(), (2_i64..=1_023).collect::<Vec<_>>());
    assert_eq!(fixture.pending_state(), None);
    assert_eq!(fixture.durable_next_id(), Some(1_024));
}

/// A target of its own, with no state beside it.
struct Target {
    uri: String,
    keeper: Connection,
    verified: bool,
    plan: SqlPlan,
    codec: RowCodec,
}

impl Target {
    fn new(schema: Schema) -> Self {
        let marker = Box::leak(Box::new(0_u8));
        let uri = format!("file:target_{marker:p}?mode=memory&cache=shared");
        Self {
            keeper: Connection::open(&uri).unwrap(),
            uri,
            verified: false,
            plan: SqlPlan::try_new(TABLE, &schema).unwrap(),
            codec: RowCodec::new_validated(schema),
        }
    }

    fn fresh_target(&self) -> Self {
        Self {
            uri: self.uri.clone(),
            keeper: self.peer(),
            verified: false,
            plan: SqlPlan::try_new(TABLE, &self.codec.schema).unwrap(),
            codec: RowCodec::new_validated(self.codec.schema.copy()),
        }
    }

    fn peer(&self) -> Connection {
        Connection::open(&self.uri).unwrap()
    }

    fn require_absent(&self) -> Result<(), SqliteSinkError> {
        require_absent(
            &self.plan,
            object_exists(&self.keeper, &self.plan.table_name),
            object_exists(&self.keeper, &self.plan.index_name),
        )
    }

    fn create(&mut self) -> Result<(), SqliteSinkError> {
        let transaction = self.keeper.transaction().map_err(sqlite)?;
        create_target(&transaction, &self.plan)?;
        transaction.commit().map_err(sqlite)?;
        self.verified = true;
        Ok(())
    }

    fn verify_ready(&mut self) -> Result<(), SqliteSinkError> {
        if !self.verified {
            require_layout(&self.keeper, &self.plan)?;
            self.verified = true;
        }
        Ok(())
    }

    fn initialize(&mut self) {
        self.require_absent().unwrap();
        self.create().unwrap();
    }

    fn encode_row(&self, input: &Change, row_index: usize) -> EncodedRow {
        self.codec.encode_row(&input.records, row_index).unwrap()
    }

    fn lookup(
        &mut self,
        input: &Change,
        requests: &[Lookup],
    ) -> Result<Vec<Matches>, SqliteSinkError> {
        self.verify_ready()?;
        requests
            .iter()
            .map(|request| {
                let encoded = self.encode_row(input, request.row_index);
                let limit = i64::try_from(request.take).unwrap();
                let mut statement = self.keeper.prepare(&self.plan.select_matching_ids).unwrap();
                let selected = statement
                    .query_map(params_from_iter(row_values(&encoded, limit)), |row| {
                        row.get(0)
                    })
                    .unwrap()
                    .collect::<Result<Vec<i64>, _>>()
                    .unwrap();
                let counted = if needs_count(selected.len(), request.take, request.needed) {
                    let limit = i64::try_from(request.needed).unwrap_or(i64::MAX);
                    let count: i64 = self
                        .keeper
                        .query_row(
                            &self.plan.count_matches,
                            params_from_iter(row_values(&encoded, limit)),
                            |row| row.get(0),
                        )
                        .unwrap();
                    Some(u64::try_from(count).unwrap())
                } else {
                    None
                };
                matching_ids(&selected, counted)
            })
            .collect()
    }

    fn write_batch(&mut self, input: &Change, batch: &Batch) -> Result<(), SqliteSinkError> {
        self.verify_ready()?;
        let plan = write_plan(&self.codec, input, batch)?;
        let transaction = self
            .keeper
            .transaction_with_behavior(TransactionBehavior::Immediate)
            .map_err(sqlite)?;
        for run in &plan.inserts {
            for id in &run.ids {
                let mut values = vec![SqlValue::Integer(*id), SqlValue::Blob(run.row.hash.clone())];
                values.extend(run.row.values.iter().map(sql_value));
                transaction
                    .execute(&self.plan.insert, params_from_iter(values))
                    .map_err(sqlite)?;
            }
        }
        if !plan.deletes.is_empty() {
            transaction
                .execute(
                    &delete_statement(&self.plan, plan.deletes.len()),
                    params_from_iter(plan.deletes.iter()),
                )
                .map_err(sqlite)?;
        }
        transaction.commit().map_err(sqlite)
    }

    fn rows(&self) -> Vec<(i64, i64)> {
        let connection = self.peer();
        let mut statement = connection
            .prepare("SELECT \"$dogpaddle.id\", value FROM materialized ORDER BY \"$dogpaddle.id\"")
            .unwrap();
        statement
            .query_map([], |row| Ok((row.get(0)?, row.get(1)?)))
            .unwrap()
            .collect::<Result<Vec<_>, _>>()
            .unwrap()
    }
}

fn row_values(encoded: &EncodedRow, limit: i64) -> Vec<SqlValue> {
    let mut values = vec![SqlValue::Blob(encoded.hash.clone())];
    values.extend(encoded.values.iter().map(sql_value));
    values.push(SqlValue::Integer(limit));
    values
}

fn values(schema: &Schema, values: &[i64]) -> Change {
    value_change(schema, values, &vec![1; values.len()])
}

fn batch(inserts: &[(u64, u64)], deletes: &[u64]) -> Batch {
    Batch {
        inserts: inserts
            .iter()
            .map(|&(row_index, technical_id)| Insert {
                row_index,
                technical_id,
            })
            .collect(),
        deletes: deletes
            .iter()
            .map(|&technical_id| Delete {
                row_index: 0,
                technical_id,
            })
            .collect(),
    }
}

#[test]
fn initialization_requires_absence_and_replay_requires_the_exact_empty_layout() {
    let mut fixture = Target::new(value_schema());
    fixture.initialize();
    fixture.fresh_target().create().unwrap();
    assert!(matches!(
        fixture.fresh_target().require_absent(),
        Err(SqliteSinkError::TargetExists { .. })
    ));
    let input = values(&fixture.codec.schema, &[7]);
    fixture
        .write_batch(&input, &batch(&[(0, 1)], &[]))
        .unwrap();
    assert!(matches!(
        fixture.fresh_target().create(),
        Err(SqliteSinkError::TargetNotEmpty { .. })
    ));
}

#[test]
fn initialization_and_reconnect_reject_extra_schema_objects() {
    let mut fixture = Target::new(value_schema());
    fixture.initialize();
    fixture
        .peer()
        .execute_batch(
            "CREATE TRIGGER unexpected AFTER INSERT ON materialized BEGIN SELECT 1; END;",
        )
        .unwrap();
    assert!(matches!(
        fixture.fresh_target().create(),
        Err(SqliteSinkError::TargetLayoutMismatch { .. })
    ));
    let input = values(&fixture.codec.schema, &[7]);
    assert!(
        fixture
            .fresh_target()
            .lookup(
                &input,
                &[Lookup {
                    row_index: 0,
                    needed: 1,
                    take: 1,
                }]
            )
            .is_err()
    );
}

#[test]
fn fixed_inserts_and_deletes_replay_as_one_idempotent_batch() {
    let mut fixture = Target::new(value_schema());
    fixture.initialize();
    let input = values(&fixture.codec.schema, &[7, 8]);
    let writes = batch(&[(0, 1), (1, 2), (0, 3)], &[1, 3, 999]);
    fixture.write_batch(&input, &writes).unwrap();
    assert_eq!(fixture.rows(), [(2, 8)]);
    let mut fixture = fixture.fresh_target();
    fixture.write_batch(&input, &writes).unwrap();
    assert_eq!(fixture.rows(), [(2, 8)]);
}

#[test]
fn only_primary_key_duplicates_are_ignored_and_other_errors_roll_back_the_batch() {
    let mut fixture = Target::new(value_schema());
    fixture.initialize();
    let input = values(&fixture.codec.schema, &[7, 8]);
    fixture
        .write_batch(&input, &batch(&[(0, 1)], &[]))
        .unwrap();
    fixture
        .peer()
        .execute_batch(
            "CREATE TRIGGER reject_eight BEFORE INSERT ON materialized \
             WHEN NEW.value = 8 BEGIN SELECT RAISE(ABORT, 'rejected'); END;",
        )
        .unwrap();
    assert!(
        fixture
            .write_batch(&input, &batch(&[(0, 2), (1, 3)], &[1]))
            .is_err()
    );
    assert_eq!(fixture.rows(), [(1, 7)]);
    fixture
        .peer()
        .execute_batch("DROP TRIGGER reject_eight")
        .unwrap();
    fixture
        .write_batch(&input, &batch(&[(0, 2), (1, 3)], &[1]))
        .unwrap();
    assert_eq!(fixture.rows(), [(2, 7), (3, 8)]);
}

#[test]
fn lookup_returns_bounded_smallest_ids_and_a_capped_exact_count() {
    let mut fixture = Target::new(value_schema());
    fixture.initialize();
    let input = values(&fixture.codec.schema, &[7]);
    for offset in [0_u64, 1_024] {
        let writes = batch(
            &(1..=1_024).map(|id| (0, offset + id)).collect::<Vec<_>>(),
            &[],
        );
        fixture.write_batch(&input, &writes).unwrap();
    }
    let matches = fixture
        .lookup(
            &input,
            &[Lookup {
                row_index: 0,
                needed: 2_000,
                take: 4,
            }],
        )
        .unwrap();
    assert_eq!(matches[0].count, 2_000);
    assert_eq!(matches[0].ids, [1, 2, 3, 4]);
    let matches = fixture
        .lookup(
            &input,
            &[Lookup {
                row_index: 0,
                needed: 3_000,
                take: 1_024,
            }],
        )
        .unwrap();
    assert_eq!(matches[0].count, 2_048);
    assert_eq!(matches[0].ids.len(), 1_024);
    fixture
        .write_batch(&input, &batch(&[], &(1..=1_024).collect::<Vec<_>>()))
        .unwrap();
    let matches = fixture
        .lookup(
            &input,
            &[Lookup {
                row_index: 0,
                needed: 4,
                take: 4,
            }],
        )
        .unwrap();
    assert_eq!(matches[0].ids, [1_025, 1_026, 1_027, 1_028]);
}

#[test]
fn hash_collisions_do_not_match_other_logical_rows() {
    let mut fixture = Target::new(value_schema());
    fixture.initialize();
    let input = values(&fixture.codec.schema, &[7, 8]);
    fixture
        .write_batch(&input, &batch(&[(0, 1), (1, 2), (0, 3)], &[]))
        .unwrap();
    let hash = fixture.encode_row(&input, 0).hash;
    fixture
        .peer()
        .execute(
            "UPDATE materialized SET \"$dogpaddle.hash\" = ?1 WHERE \"$dogpaddle.id\" = 2",
            [hash],
        )
        .unwrap();
    let matches = fixture
        .lookup(
            &input,
            &[Lookup {
                row_index: 0,
                needed: 3,
                take: 3,
            }],
        )
        .unwrap();
    assert_eq!(matches[0].count, 2);
    assert_eq!(matches[0].ids, [1, 3]);
}

#[test]
fn null_and_nul_containing_text_are_matched_exactly_in_request_order() {
    let schema = Schema::new(vec![field("text", DataType::Utf8, true)]);
    let column = Column {
        data_type: DataType::Utf8,
        values: vec![
            Value::Utf8("a\0b".to_owned()),
            Value::Utf8("a\0c".to_owned()),
            Value::Null,
        ],
    };
    let input = Change::try_new(schema.copy(), vec![column], 3, vec![1, 1, 1]).unwrap();
    let mut fixture = Target::new(schema);
    fixture.initialize();
    fixture
        .write_batch(&input, &batch(&[(0, 1), (1, 2), (2, 3)], &[]))
        .unwrap();
    let first_hash = fixture.encode_row(&input, 0).hash;
    fixture
        .peer()
        .execute(
            "UPDATE materialized SET \"$dogpaddle.hash\" = ?1 WHERE \"$dogpaddle.id\" = 2",
            [first_hash],
        )
        .unwrap();
    let matches = fixture
        .lookup(
            &input,
            &[                Lookup {
                    row_index: 2,
                    needed: 2,
                    take: 2,
                },
                Lookup {
                    row_index: 0,
                    needed: 2,
                    take: 2,
                },
            ],
        )
        .unwrap();
    assert_eq!(matches[0].ids, [3]);
    assert_eq!(matches[1].ids, [1]);
}

#[test]
fn empty_and_maximum_width_schemas_support_insert_lookup_and_delete() {
    for fields in [0, 1_998] {
        let schema = Schema::new(
            (0..fields)
                .map(|index| field(&format!("field_{index}"), DataType::Int64, true))
                .collect(),
        );
        let columns = (0..fields)
            .map(|_| Column {
                data_type: DataType::Int64,
                values: vec![Value::Null],
            })
            .collect();
        let input = Change::try_new(schema.copy(), columns, 1, vec![1]).unwrap();
        let mut fixture = Target::new(schema);
        fixture.initialize();
        fixture
            .write_batch(&input, &batch(&[(0, 1)], &[]))
            .unwrap();
        let matches = fixture
            .lookup(
                &input,
                &[Lookup {
                    row_index: 0,
                    needed: 1,
                    take: 1,
                }],
            )
            .unwrap();
        assert_eq!(matches[0].ids, [1]);
        fixture
            .write_batch(&input, &batch(&[], &[1]))
            .unwrap();
        let matches = fixture
            .lookup(
                &input,
                &[Lookup {
                    row_index: 0,
                    needed: 1,
                    take: 1,
                }],
            )
            .unwrap();
        assert!(matches[0].ids.is_empty());
    }
}

#[test]
fn a_query_is_answered_without_the_excluded_instances() {
    let query = |scan: u64, take: u64| Query {
        row_index: 0,
        needed: 4,
        scan,
        take,
        excluded: vec![3, 5],
    };
    let read = vec![1, 3, 4, 5, 8, 9];
    let matching = matching_instances(&read, &query(9, 2)).unwrap();
    assert_eq!((matching.count, matching.selected), (4, vec![1, 4]));
    let matching = matching_instances(&read, &query(3, 5)).unwrap();
    assert_eq!((matching.count, matching.selected), (3, vec![1, 4, 8]));
    assert!(matches!(
        matching_instances(&vec![1, 0], &query(9, 2)),
        Err(SqliteSinkError::InvalidStoredTechnicalId { id: 0 })
    ));
}

#[test]
fn a_change_with_other_metadata_is_refused() {
    let mut fixture = Fixture::new(value_schema());
    let change = value_change(&value_schema(), &[7], &[1]);
    fixture.initialize(&change);
    let mut schema = value_schema();
    schema.metadata = vec![("origin".to_owned(), "orders".to_owned())];
    assert!(matches!(
        fixture.failed_turn(&value_change(&schema, &[7], &[1])),
        SqliteSinkError::InputSchemaMismatch { expected, actual }
            if same_schema(&expected, &value_schema()) && same_schema(&actual, &schema)
    ));
    let mut schema = value_schema();
    schema.fields[0].metadata = vec![("unit".to_owned(), "cent".to_owned())];
    assert!(matches!(
        fixture.failed_turn(&value_change(&schema, &[7], &[1])),
        SqliteSinkError::InputSchemaMismatch { expected, actual }
            if same_schema(&expected, &value_schema()) && same_schema(&actual, &schema)
    ));
}

#[test]
fn metadata_is_the_same_whatever_its_order() {
    let pair = |key: &str, value: &str| (key.to_owned(), value.to_owned());
    let mut left = value_schema();
    let mut right = value_schema();
    left.metadata = vec![pair("a", "1"), pair("b", "2")];
    right.metadata = vec![pair("b", "2"), pair("a", "0"), pair("a", "1")];
    assert!(same_schema(&left, &right));
    right.metadata.push(pair("c", ""));
    assert!(!same_schema(&left, &right));
    assert!(!same_schema(&right, &left));
}

#[test]
fn sqlite_row_is_read_by_its_id() {
    let schema = Schema::new(vec![field("value", DataType::Int64, false)]);
    let plan = SqlPlan::try_new("odd\"table", &schema).unwrap();
    assert_eq!(
        select_row_statement(&plan),
        "SELECT * FROM \"odd\"\"table\" WHERE \"$dogpaddle.id\" = ?1"
    );
}
