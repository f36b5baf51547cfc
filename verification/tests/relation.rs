use std::collections::BTreeMap;

use dogpaddle_sink::buffered::delivery::DeliveryBatch;
use dogpaddle_sink::buffered::state::{
    BufferFault, BufferState, Position, Prepared, Ready, State,
};
use dogpaddle_sink::bytes::Cursor;
use dogpaddle_sink::change::{Change, Column, DataType, Field, Schema, Value};
use dogpaddle_sink::relation::batch::{
    group_mutations, terminal_mutations, Batch, Delete, Insert, TerminalMutation, EXHAUSTED_ID,
    MAX_TECHNICAL_ID,
};
use dogpaddle_sink::relation::control::{
    decode_state, decode_stored_plan, ControlError, ControlState,
};
use dogpaddle_sink::relation::fault::{RelationError, RelationFault};
use dogpaddle_sink::relation::plan::{
    prepare, Lookup, Matches, RelationTarget, MAX_CANONICAL_BATCH_BYTES,
};
use dogpaddle_sink::relation::recovery::validate;
use dogpaddle_sink::relation::row::{canonical_row, encode_canonical};
use dogpaddle_sink::relation::target::RelationSinkTarget;

#[derive(Default)]
struct Target {
    rows: BTreeMap<u64, Vec<u8>>,
    lookups: Vec<Vec<Lookup>>,
}

impl RelationTarget for Target {
    fn lookup(&mut self, input: &Change, requests: &Vec<Lookup>) -> Result<Vec<Matches>, String> {
        self.lookups.push(requests.clone());
        requests
            .iter()
            .map(|request| {
                let key = canonical_row(&input.records, request.row_index)
                    .map_err(|error| format!("{error:?}"))?;
                let ids = self
                    .rows
                    .iter()
                    .filter(|(_, value)| **value == key)
                    .map(|(id, _)| *id)
                    .take(usize::try_from(request.needed).unwrap())
                    .collect::<Vec<_>>();
                Ok(Matches {
                    count: u64::try_from(ids.len()).unwrap(),
                    ids: ids.into_iter().take(request.take).collect(),
                })
            })
            .collect()
    }
}

impl Target {
    fn write_batch(&mut self, input: &Change, batch: &Batch) -> Result<(), String> {
        for insert in &batch.inserts {
            let expected =
                canonical_row(&input.records, usize::try_from(insert.row_index).unwrap()).unwrap();
            match self.rows.get(&insert.technical_id) {
                None => {
                    self.rows.insert(insert.technical_id, expected);
                }
                Some(actual) if *actual == expected => {}
                Some(_) => return Err("insert ID belongs to a different row".to_owned()),
            }
        }
        for delete in &batch.deletes {
            let expected =
                canonical_row(&input.records, usize::try_from(delete.row_index).unwrap()).unwrap();
            if self
                .rows
                .get(&delete.technical_id)
                .is_some_and(|actual| *actual != expected)
            {
                return Err("delete ID belongs to a different row".to_owned());
            }
            self.rows.remove(&delete.technical_id);
        }
        Ok(())
    }
}

fn field(name: &str, data_type: DataType, nullable: bool) -> Field {
    Field {
        name: name.to_owned(),
        data_type,
        nullable,
        metadata: Vec::new(),
    }
}

fn change(rows: &[(i64, i64)]) -> Change {
    Change::try_new(
        Schema::new(vec![field("value", DataType::Int64, false)]),
        vec![Column {
            data_type: DataType::Int64,
            values: rows.iter().map(|row| Value::Int64(row.0)).collect(),
        }],
        rows.len(),
        rows.iter().map(|row| row.1).collect(),
    )
    .unwrap()
}

fn delivery(rows: &[(i64, i64)], admissions: &[u64]) -> DeliveryBatch {
    DeliveryBatch::new(change(rows), admissions.to_vec()).unwrap()
}

fn apply(target: &mut Target, input: &DeliveryBatch, next_id: &mut u64) {
    let (next, plan) = prepare(target, input, *next_id).unwrap();
    validate(&plan, next, &input.change).unwrap();
    target.write_batch(&input.change, &plan).unwrap();
    let once = target.rows.clone();
    target.write_batch(&input.change, &plan).unwrap();
    assert_eq!(target.rows, once, "fixed plan replay must be idempotent");
    *next_id = next;
}

#[test]
fn insert_delete_same_id_replays_empty_and_never_reuses_an_id() {
    let mut target = Target::default();
    let mut next_id = 1;
    apply(
        &mut target,
        &delivery(&[(7, 2), (7, -2)], &[2, 2]),
        &mut next_id,
    );
    assert!(target.rows.is_empty());
    assert_eq!(next_id, 3);
    apply(&mut target, &delivery(&[(7, 1)], &[1]), &mut next_id);
    assert_eq!(target.rows.keys().copied().collect::<Vec<_>>(), [3]);
}

#[test]
fn retractions_use_oldest_existing_then_newly_inserted_ids() {
    let mut target = Target::default();
    let mut next_id = 1;
    apply(&mut target, &delivery(&[(7, 3)], &[3]), &mut next_id);
    let input = delivery(&[(7, 2), (7, -4)], &[2, 4]);
    let (_, batch) = prepare(&mut target, &input, next_id).unwrap();
    assert_eq!(
        batch
            .deletes
            .iter()
            .map(|delete| delete.technical_id)
            .collect::<Vec<_>>(),
        [1, 2, 3, 4]
    );
    assert_eq!(
        batch
            .inserts
            .iter()
            .map(|insert| insert.technical_id)
            .collect::<Vec<_>>(),
        [4, 5]
    );
}

#[test]
fn later_inserts_cannot_cover_an_invalid_negative_prefix() {
    let mut target = Target::default();
    let input = delivery(&[(7, -1), (7, 1)], &[1, 1]);
    assert!(prepare(&mut target, &input, 1).is_err());
    assert!(target.rows.is_empty());
}

#[test]
fn first_slice_admits_a_large_event_before_any_partial_delivery() {
    let mut target = Target::default();
    let mut next_id = 1;
    for (diff, admission) in [(1024, 2050), (1024, 1024), (2, 2)] {
        apply(
            &mut target,
            &delivery(&[(7, diff)], &[admission]),
            &mut next_id,
        );
    }
    assert_eq!(target.rows.len(), 2050);

    let invalid = delivery(&[(7, -1024)], &[2051]);
    assert!(prepare(&mut target, &invalid, next_id).is_err());
    assert_eq!(target.rows.len(), 2050);

    target.lookups.clear();
    for (diff, admission) in [(-1024, 2050), (-1024, 1024), (-2, 2)] {
        apply(
            &mut target,
            &delivery(&[(7, diff)], &[admission]),
            &mut next_id,
        );
    }
    assert!(target.rows.is_empty());
    assert_eq!(
        target
            .lookups
            .iter()
            .map(|requests| (requests[0].needed, requests[0].take))
            .collect::<Vec<_>>(),
        [(2050, 1024), (1024, 1024), (2, 2)]
    );
}

#[test]
fn last_technical_id_is_usable_but_an_event_cannot_partly_overflow() {
    let mut target = Target::default();
    assert!(prepare(&mut target, &delivery(&[(7, 1)], &[2]), MAX_TECHNICAL_ID).is_err());
    let (next, batch) =
        prepare(&mut target, &delivery(&[(7, 1)], &[1]), MAX_TECHNICAL_ID).unwrap();
    assert_eq!(next, EXHAUSTED_ID);
    assert_eq!(batch.inserts[0].technical_id, MAX_TECHNICAL_ID);
    assert!(prepare(&mut target, &delivery(&[(7, 1)], &[1]), next).is_err());
}

#[test]
fn relation_checkpoint_and_plan_codecs_are_stable_and_validate_the_batch() {
    type Adapter = RelationSinkTarget<Target>;

    let input = delivery(&[(7, 1), (7, -1)], &[1, 1]);
    let mut adapter = Adapter::new(Target::default());
    let (checkpoint, plan) = adapter.prepare(&input, &1).unwrap();
    let mut encoded = Vec::new();
    Adapter::encode_checkpoint(&checkpoint, &mut encoded);
    Adapter::encode_plan(&plan, &mut encoded);
    assert_eq!(
        encoded,
        [
            0, 0, 0, 0, 0, 0, 0, 2, // checkpoint
            1, 0, 1, 0, 1, // plan header
            0, 0, 0, 0, 0, 0, 0, 0, // insert row
            0, 0, 0, 0, 0, 0, 0, 1, // insert ID
            0, 0, 0, 0, 0, 0, 0, 1, // delete row
            0, 0, 0, 0, 0, 0, 0, 1, // delete ID
        ]
    );

    let mut cursor = Cursor::new(encoded.as_slice());
    let decoded_checkpoint = Adapter::decode_checkpoint(&mut cursor).unwrap();
    let decoded = Adapter::decode_plan(&mut cursor, &input, &decoded_checkpoint).unwrap();
    assert!(cursor.at_end());
    assert_eq!(decoded, plan);

    for end in 0..encoded.len() {
        let mut cursor = Cursor::new(&encoded[..end]);
        let result = Adapter::decode_checkpoint(&mut cursor)
            .and_then(|checkpoint| Adapter::decode_plan(&mut cursor, &input, &checkpoint));
        assert!(
            result.is_err(),
            "accepted truncated relation state at {end}"
        );
    }
    let different = delivery(&[(7, 1), (8, -1)], &[1, 1]);
    let mut cursor = Cursor::new(&encoded[8..]);
    assert!(Adapter::decode_plan(&mut cursor, &different, &checkpoint).is_err());
}

#[test]
fn relation_recovery_rejects_positive_work_beyond_the_id_frontier() {
    let adapter = RelationSinkTarget::new(Target::default());
    assert!(adapter.validate_recovery(&EXHAUSTED_ID, 0).is_ok());
    assert!(adapter.validate_recovery(&EXHAUSTED_ID, 1).is_err());
    assert!(adapter.validate_recovery(&(EXHAUSTED_ID - 2), 2).is_ok());
    assert!(adapter.validate_recovery(&(EXHAUSTED_ID - 2), 3).is_err());
}

#[test]
fn recovered_plan_compares_each_large_row_pair_once() {
    let payload = vec![7_u8; 3 * 1024 * 1024];
    let input = Change::try_new(
        Schema::new(vec![field("payload", DataType::Binary, false)]),
        vec![Column {
            data_type: DataType::Binary,
            values: vec![Value::Binary(payload.clone()), Value::Binary(payload)],
        }],
        2,
        vec![512, -512],
    )
    .unwrap();
    let batch = Batch {
        inserts: (1..=512)
            .map(|technical_id| Insert {
                row_index: 0,
                technical_id,
            })
            .collect(),
        deletes: (1..=512)
            .map(|technical_id| Delete {
                row_index: 1,
                technical_id,
            })
            .collect(),
    };

    validate(&batch, 513, &input).unwrap();
}

#[test]
fn zero_width_nested_values_cannot_expand_past_the_planning_budget() {
    let child = field("item", DataType::Null, true);
    let length = MAX_CANONICAL_BATCH_BYTES + 1;
    let data_type = DataType::List(Box::new(child));
    let values = (0..length).map(|_| Value::Null).collect::<Vec<_>>();
    let input = Change::try_new(
        Schema::new(vec![field(
            "items",
            DataType::List(Box::new(field("item", DataType::Null, true))),
            false,
        )]),
        vec![Column {
            data_type,
            values: vec![Value::List(values)],
        }],
        1,
        vec![1],
    )
    .unwrap();

    let mut target = Target::default();
    assert!(prepare(&mut target, &DeliveryBatch::new(input, vec![1]).unwrap(), 1).is_err());
    assert!(target.lookups.is_empty());
}

#[test]
fn missing_instances_name_the_row_and_the_counts() {
    let mut target = Target::default();
    let mut next_id = 1;
    apply(&mut target, &delivery(&[(7, 1)], &[1]), &mut next_id);
    let result = prepare(&mut target, &delivery(&[(7, -2)], &[2]), next_id);
    assert!(matches!(
        result,
        Err(RelationError::Fault(RelationFault::MissingInstances {
            row_index: 0,
            needed: 2,
            count: 1
        }))
    ));
}

#[test]
fn equal_rows_keep_exact_multiplicities() {
    let mut target = Target::default();
    let mut next_id = 1;
    apply(
        &mut target,
        &delivery(&[(7, 3), (8, 2), (7, -1)], &[3, 2, 1]),
        &mut next_id,
    );
    apply(
        &mut target,
        &delivery(&[(8, -1), (7, 1)], &[1, 1]),
        &mut next_id,
    );
    let seven = canonical_row(&change(&[(7, 1)]).records, 0).unwrap();
    let eight = canonical_row(&change(&[(8, 1)]).records, 0).unwrap();
    assert_eq!(target.rows.values().filter(|row| **row == seven).count(), 3);
    assert_eq!(target.rows.values().filter(|row| **row == eight).count(), 1);
    assert_eq!(next_id, 7);
}

#[test]
fn recovered_plan_names_what_does_not_match() {
    let input = change(&[(7, 1), (7, -1)]);
    let plan = |insert_row: u64, delete_row: u64, insert_id: u64, delete_id: u64| Batch {
        inserts: vec![Insert {
            row_index: insert_row,
            technical_id: insert_id,
        }],
        deletes: vec![Delete {
            row_index: delete_row,
            technical_id: delete_id,
        }],
    };
    let fault = |batch: &Batch, next_id: u64, input: &Change| match validate(batch, next_id, input)
    {
        Err(RelationError::Fault(fault)) => Some(fault),
        _ => None,
    };
    assert!(validate(&plan(0, 1, 4, 4), 5, &input).is_ok());
    assert_eq!(
        fault(&plan(0, 1, 4, 4), 0, &input),
        Some(RelationFault::NextId)
    );
    assert_eq!(
        fault(&plan(0, 1, 4, 4), 6, &input),
        Some(RelationFault::PreparedIds)
    );
    assert_eq!(
        fault(&plan(1, 1, 4, 4), 5, &input),
        Some(RelationFault::ConsumedInsert)
    );
    assert_eq!(
        fault(&plan(1, 1, 4, 3), 5, &input),
        Some(RelationFault::PreparedInserts)
    );
    assert_eq!(
        fault(&plan(0, 0, 4, 4), 5, &input),
        Some(RelationFault::PreparedDeletions)
    );
    assert_eq!(
        fault(&plan(0, 1, 4, 4), 5, &change(&[(7, 1), (8, -1)])),
        Some(RelationFault::ConsumedInsert)
    );
    assert_eq!(
        fault(&plan(0, 1, 4, 4), 5, &change(&[(7, 1)])),
        Some(RelationFault::PlanCoverage)
    );
    assert_eq!(
        fault(&plan(0, 1, 0, 0), 1, &input),
        Some(RelationFault::InsertFrontier)
    );
}

#[test]
fn final_mutations_keep_the_last_word_for_each_id() {
    let batch = Batch {
        inserts: vec![
            Insert {
                row_index: 0,
                technical_id: 5,
            },
            Insert {
                row_index: 0,
                technical_id: 6,
            },
        ],
        deletes: vec![
            Delete {
                row_index: 2,
                technical_id: 5,
            },
            Delete {
                row_index: 1,
                technical_id: 2,
            },
        ],
    };
    assert_eq!(
        terminal_mutations(&batch),
        vec![
            TerminalMutation {
                row_index: 1,
                technical_id: 2,
                deleted: true
            },
            TerminalMutation {
                row_index: 2,
                technical_id: 5,
                deleted: true
            },
            TerminalMutation {
                row_index: 0,
                technical_id: 6,
                deleted: false
            },
        ]
    );
    let groups = group_mutations(&batch);
    assert_eq!(groups.delete_ids, [5, 2]);
    assert_eq!(groups.rows.len(), 3);
    assert_eq!(groups.rows[0].insert_ids, [5, 6]);
    assert_eq!(groups.rows[0].mutation_ids, [5, 6]);
    assert_eq!(groups.rows[2].insert_ids, Vec::<u64>::new());
    assert_eq!(groups.rows[2].mutation_ids, [5]);
}

#[test]
fn a_relation_fault_is_called_by_its_text() {
    assert_eq!(
        RelationFault::MissingInstances {
            row_index: 2,
            needed: 3,
            count: 1,
        }
        .message(),
        "relation sink: row 2 needs 3 existing instances, but only 1 exist"
    );
    assert_eq!(
        RelationFault::NextId.message(),
        "relation sink: next ID is outside 1..=i64::MAX+1"
    );
}

fn prepared_state() -> (State, DeliveryBatch) {
    let input = delivery(&[(7, 2), (7, -1)], &[2, 1]);
    let plan = Batch {
        inserts: vec![
            Insert {
                row_index: 0,
                technical_id: 4,
            },
            Insert {
                row_index: 0,
                technical_id: 5,
            },
        ],
        deletes: vec![Delete {
            row_index: 1,
            technical_id: 4,
        }],
    };
    let mut encoded = Vec::new();
    RelationSinkTarget::<Target>::encode_plan(&plan, &mut encoded);
    let state = State::Prepared(Prepared {
        before: BufferState {
            head: Some(Position {
                sequence: 3,
                row_index: 0,
                remaining: 2,
            }),
            tail: 4,
            pending_events: 3,
            retained_bytes: 100,
        },
        after: BufferState::empty(),
        batch_id: 9,
        checkpoint: 6,
        plan: encoded,
    });
    (state, input)
}

#[test]
fn a_control_state_reads_back_and_every_other_length_is_refused() {
    let (state, input) = prepared_state();
    let ready = State::Ready(Ready {
        buffer: BufferState::empty(),
        next_batch_id: 2,
        checkpoint: 6,
    });
    for state in [State::Initialize, ready, state] {
        let bytes = state.encode();
        match decode_state(&bytes, Some(&input)).unwrap() {
            ControlState::Initialize => assert_eq!(state, State::Initialize),
            ControlState::Ready(ready) => assert_eq!(state, State::Ready(ready)),
            ControlState::Prepared(prepared, plan) => {
                assert_eq!(plan.deletes.len(), 1);
                assert_eq!(state, State::Prepared(prepared));
            }
        }
        for end in 0..bytes.len() {
            assert!(decode_state(&bytes[..end], Some(&input)).is_err());
        }
        let mut longer = bytes;
        longer.push(0);
        assert!(decode_state(&longer, Some(&input)).is_err());
    }
}

#[test]
fn a_control_state_names_what_is_wrong_with_it() {
    let (state, input) = prepared_state();
    assert!(matches!(
        decode_state(&state.encode(), None),
        Err(ControlError::Buffer(BufferFault::PreparedInput))
    ));
    let idle = State::Ready(Ready {
        buffer: BufferState::empty(),
        next_batch_id: 2,
        checkpoint: 0,
    });
    assert!(matches!(
        decode_state(&idle.encode(), None),
        Err(ControlError::Relation(RelationError::Fault(
            RelationFault::NextId
        )))
    ));
    let State::Prepared(prepared) = state else {
        panic!("expected Prepared");
    };
    let mut plan = prepared.plan;
    plan.push(0);
    assert!(matches!(
        decode_stored_plan(&plan, &input, &6),
        Err(RelationError::Fault(RelationFault::TrailingBytes))
    ));
    plan.pop();
    assert!(decode_stored_plan(&plan, &input, &6).is_ok());
    assert!(matches!(
        decode_stored_plan(&plan, &input, &7),
        Err(RelationError::Fault(RelationFault::PreparedIds))
    ));
}

#[test]
fn a_refused_or_entering_delivery_leaves_the_target_alone() {
    let mut target = Target::default();
    prepare(&mut target, &delivery(&[(7, 2)], &[2]), 1).unwrap();
    assert!(prepare(&mut target, &delivery(&[(7, -2)], &[2]), 0).is_err());
    assert!(target.lookups.is_empty());
}

#[test]
fn canonical_values_of_a_field_are_no_parts_of_each_other() {
    let field = field("value", DataType::Binary, true);
    let column = Column {
        data_type: DataType::Binary,
        values: vec![
            Value::Null,
            Value::Binary(Vec::new()),
            Value::Binary(vec![0]),
            Value::Binary(vec![0, 0]),
        ],
    };
    let encoded: Vec<Vec<u8>> = (0..4)
        .map(|index| {
            let mut output = Vec::new();
            encode_canonical(&field, &column, index, "value", &mut output).unwrap();
            output
        })
        .collect();
    for left in 0..4 {
        for right in 0..4 {
            assert_eq!(encoded[left].starts_with(&encoded[right]), left == right);
        }
    }
}
