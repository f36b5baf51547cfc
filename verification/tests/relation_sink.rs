use dogpaddle_sink::change::{Change, Column, DataType, Field, Schema, Value};
use dogpaddle_sink::relation::batch::{Insert, EXHAUSTED_ID};
use dogpaddle_sink::relation::converge::{decide, Decision, Held};
use dogpaddle_sink::relation::pack::{pack, PackLimits};
use dogpaddle_sink::relation::position::{
    advance_position, ensure_id_capacity, first_position, position_index,
    validate_apply_for_change, validate_batch_boundary, validate_next_id,
    validate_position_for_change, Continuation, Mismatch, Mutation, MutationKind, Position,
    StepError,
};
use dogpaddle_sink::relation::row::{
    canonical_row, canonical_row_bounded, canonical_row_size_bounded, row_hash, RowError,
};
use dogpaddle_sink::relation::runtime::{
    batch_of, deliver, restore, Effect, InputFault, Phase, RelationalSink, SinkWork,
};
use dogpaddle_sink::relation::state::{processed_modulo, State, StateFault, StepBatch};

fn schema() -> Schema {
    Schema::new(vec![Field {
        name: "value".to_owned(),
        data_type: DataType::Int64,
        nullable: false,
        metadata: Vec::new(),
    }])
}

fn change(rows: &[(i64, i64)]) -> Change {
    Change::try_new(
        schema(),
        vec![Column {
            data_type: DataType::Int64,
            values: rows.iter().map(|row| Value::Int64(row.0)).collect(),
        }],
        rows.len(),
        rows.iter().map(|row| row.1).collect(),
    )
    .unwrap()
}

fn at(row_index: u64, remaining: u64) -> Position {
    Position {
        row_index,
        remaining,
    }
}

fn insert(row_index: u64, technical_id: u64) -> Insert {
    Insert {
        row_index,
        technical_id,
    }
}

fn mutation(kind: MutationKind, row_index: u64, technical_id: u64) -> Mutation {
    Mutation {
        kind,
        row_index,
        technical_id,
    }
}

fn prepared() -> State {
    State::Prepared {
        next_id: 12,
        batch: StepBatch {
            inserts: vec![insert(0, 10), insert(0, 11)],
            deletes: vec![4],
            continuation: Continuation::Done,
        },
    }
}

#[test]
fn the_state_of_a_sink_round_trips_through_its_bytes() {
    let input = change(&[(7, 2), (8, -1)]);
    assert_eq!(State::Initialize.encode(), [1, 0]);
    let ready = State::Ready {
        next_id: 3,
        position: None,
    };
    assert_eq!(ready.encode(), [1, 1, 0, 0, 0, 0, 0, 0, 0, 3, 0]);
    assert_eq!(
        prepared().encode(),
        [
            1, 2, 0, 0, 0, 0, 0, 0, 0, 12, // phase and next ID
            0, // nothing follows
            0, 2, 0, 1, // two rows enter and one leaves
            0, 0, 0, 0, 0, 0, 0, 0, 0, 0, 0, 0, 0, 0, 0, 10, //
            0, 0, 0, 0, 0, 0, 0, 0, 0, 0, 0, 0, 0, 0, 0, 11, //
            0, 0, 0, 0, 0, 0, 0, 4,
        ]
    );
    for state in [State::Initialize, ready, prepared()] {
        let bytes = state.encode();
        assert_eq!(State::decode(&bytes, &input).unwrap(), state);
        for end in 0..bytes.len() {
            assert!(State::decode(&bytes[..end], &input).is_err());
        }
        let mut longer = bytes;
        longer.push(0);
        assert!(matches!(
            State::decode(&longer, &input),
            Err(StateFault::Trailing)
        ));
    }
}

#[test]
fn each_corruption_of_a_state_has_its_own_fault() {
    let input = change(&[(7, 2), (8, -1)]);
    let fault = |bytes: &[u8]| State::decode(bytes, &input).unwrap_err();
    assert!(matches!(fault(&[]), StateFault::Truncated));
    assert!(matches!(fault(&[2, 0]), StateFault::Version));
    assert!(matches!(
        fault(&[1, 3, 0, 0, 0, 0, 0, 0, 0, 3, 0]),
        StateFault::Phase
    ));
    assert!(matches!(
        fault(&[1, 1, 0, 0, 0, 0, 0, 0, 0, 0, 0]),
        StateFault::NextId
    ));
    assert!(matches!(
        fault(&[1, 1, 0, 0, 0, 0, 0, 0, 0, 1, 2]),
        StateFault::PositionTag
    ));
    let outside = State::Ready {
        next_id: 1,
        position: Some(at(2, 1)),
    };
    assert!(matches!(fault(&outside.encode()), StateFault::Position));
    let unaligned = State::Ready {
        next_id: 1,
        position: Some(at(1, 1)),
    };
    assert!(matches!(fault(&unaligned.encode()), StateFault::Boundary));

    let batch = |next_id: u64, inserts: Vec<Insert>, deletes: Vec<u64>| {
        State::Prepared {
            next_id,
            batch: StepBatch {
                inserts,
                deletes,
                continuation: Continuation::Done,
            },
        }
        .encode()
    };
    assert!(matches!(
        fault(&batch(12, Vec::new(), Vec::new())),
        StateFault::BatchSize
    ));
    assert!(matches!(
        fault(&batch(2, vec![insert(0, 1), insert(0, 2)], vec![1])),
        StateFault::InsertFrontier
    ));
    assert!(matches!(
        fault(&batch(12, vec![insert(0, 9), insert(0, 11)], vec![4])),
        StateFault::Ids
    ));
    assert!(matches!(
        fault(&batch(12, vec![insert(1, 10), insert(1, 11)], vec![4])),
        StateFault::Inserts
    ));
    assert!(matches!(
        fault(&batch(
            13,
            vec![insert(0, 10), insert(0, 11), insert(0, 12)],
            Vec::new()
        )),
        StateFault::MissingDeletion
    ));
    assert!(matches!(
        fault(&batch(12, vec![insert(0, 10), insert(0, 11)], vec![10])),
        StateFault::Consumption
    ));
    assert_eq!(processed_modulo(&input), 3);
}

#[test]
fn a_sink_goes_from_restoration_to_a_completed_change() {
    let input = change(&[(7, 2), (8, -1)]);
    let mut sink = RelationalSink::new(schema());
    assert_eq!(sink.turn(None), Err(InputFault::Missing));
    assert_eq!(sink.turn(Some((1, &input))), Err(InputFault::Port));
    assert_eq!(sink.turn(Some((0, &input))), Ok(SinkWork::Restore));
    assert_eq!(restore(None, &input).unwrap(), None);

    sink.phase = Phase::New;
    assert_eq!(sink.turn(Some((0, &input))), Ok(SinkWork::Begin));
    let (effect, phase) = deliver(State::Initialize);
    assert_eq!((effect, phase), (Effect::Initialize, Phase::Initialized));

    sink.phase = phase;
    let Ok(SinkWork::Persist { state, complete }) = sink.turn(Some((0, &input))) else {
        panic!("an initialized sink persists its first state");
    };
    assert!(!complete);
    let (effect, phase) = deliver(state);
    assert_eq!(effect, Effect::Nothing);

    sink.phase = phase;
    assert_eq!(
        sink.turn(Some((0, &input))),
        Ok(SinkWork::Plan {
            next_id: 1,
            position: at(0, 2),
        })
    );
    let bytes = prepared().encode();
    let state = restore(Some(&bytes), &input).unwrap().unwrap();
    let (effect, phase) = deliver(state);
    let Effect::Write(batch) = effect else {
        panic!("a prepared batch is written");
    };
    assert_eq!(batch.deletes, [4]);

    sink.phase = phase;
    assert_eq!(
        sink.turn(Some((0, &input))),
        Ok(SinkWork::Persist {
            state: State::Ready {
                next_id: 12,
                position: None,
            },
            complete: true,
        })
    );
}

#[test]
fn a_sink_refuses_another_schema() {
    let other = Schema::new(vec![Field {
        name: "value".to_owned(),
        data_type: DataType::Int64,
        nullable: true,
        metadata: Vec::new(),
    }]);
    let sink = RelationalSink::new(other);
    assert_eq!(
        sink.turn(Some((0, &change(&[(1, 1)])))),
        Err(InputFault::Schema)
    );
}

#[test]
fn a_batch_splits_its_mutations_in_their_order() {
    let batch = batch_of(
        &vec![
            mutation(MutationKind::Insert, 0, 5),
            mutation(MutationKind::Delete, 1, 2),
            mutation(MutationKind::Insert, 2, 6),
            mutation(MutationKind::Delete, 3, 5),
        ],
        Continuation::Position(at(4, 1)),
    );
    assert_eq!(batch.inserts, [insert(0, 5), insert(2, 6)]);
    assert_eq!(batch.deletes, [2, 5]);
    assert_eq!(batch.continuation, Continuation::Position(at(4, 1)));
}

#[test]
fn positions_are_checked_against_their_change() {
    let input = change(&[(1, 1_000), (2, -100)]);
    assert_eq!(first_position(&input), at(0, 1_000));
    assert_eq!(position_index(&input, at(1, 1)), Ok(1));
    assert_eq!(
        position_index(&input, at(2, 1)),
        Err(StepError::InputMismatch(Mismatch::RowOutside {
            row_index: 2,
            rows: 2,
        }))
    );
    assert_eq!(
        validate_position_for_change(&input, at(0, 0)),
        Err(StepError::InputMismatch(Mismatch::ZeroRemaining))
    );
    assert_eq!(
        validate_position_for_change(&input, at(1, 101)),
        Err(StepError::InputMismatch(Mismatch::RemainderTooLarge {
            row_index: 1,
            remaining: 101,
            magnitude: 100,
        }))
    );
    assert_eq!(validate_batch_boundary(&input, at(1, 76)), Ok(()));
    assert_eq!(
        validate_batch_boundary(&input, at(1, 77)),
        Err(StepError::InputMismatch(Mismatch::BatchBoundary))
    );
    assert_eq!(
        advance_position(&input, at(0, 10), 4),
        Ok(Continuation::Position(at(0, 6)))
    );
    assert_eq!(
        advance_position(&input, at(0, 10), 10),
        Ok(Continuation::Position(at(1, 100)))
    );
    assert_eq!(
        advance_position(&input, at(1, 10), 10),
        Ok(Continuation::Done)
    );
}

#[test]
fn ids_are_checked_against_their_range() {
    assert_eq!(validate_next_id(1), Ok(()));
    assert_eq!(validate_next_id(EXHAUSTED_ID), Ok(()));
    assert_eq!(
        validate_next_id(0),
        Err(StepError::InvalidNextId { next_id: 0 })
    );
    assert_eq!(
        validate_next_id(EXHAUSTED_ID + 1),
        Err(StepError::InvalidNextId {
            next_id: EXHAUSTED_ID + 1,
        })
    );
    assert_eq!(ensure_id_capacity(EXHAUSTED_ID - 2, 2), Ok(()));
    assert_eq!(
        ensure_id_capacity(EXHAUSTED_ID - 2, 3),
        Err(StepError::TechnicalIdExhausted {
            next_id: EXHAUSTED_ID - 2,
            needed: 3,
        })
    );
}

#[test]
fn a_stored_batch_is_checked_event_by_event() {
    let input = change(&[(7, 2), (8, -1)]);
    let insert = |row: u64, id: u64| mutation(MutationKind::Insert, row, id);
    let delete = |row: u64, id: u64| mutation(MutationKind::Delete, row, id);
    let check = |next_id: u64, mutations: Vec<Mutation>| {
        validate_apply_for_change(
            &input,
            next_id,
            at(0, 2),
            Continuation::Done,
            &mutations,
        )
    };
    let valid = || vec![insert(0, 1), insert(0, 2), delete(1, 1)];
    assert_eq!(check(3, valid()), Ok(()));
    assert!(check(4, valid()).is_err());
    assert!(check(3, vec![insert(0, 1), insert(0, 2)]).is_err());
    assert!(check(3, vec![insert(0, 1), delete(0, 2), delete(1, 1)]).is_err());
    assert!(check(3, vec![insert(0, 1), insert(1, 2), delete(1, 1)]).is_err());
    assert!(check(3, vec![insert(0, 2), insert(0, 1), delete(1, 1)]).is_err());
    assert_eq!(
        Mismatch::BatchBoundary.message(),
        "position is not aligned to a stable 1024-mutation batch boundary"
    );
}

#[test]
fn rows_are_packed_in_order_and_within_the_limits() {
    let limits = PackLimits {
        frame: 10,
        bytes: 30,
        rows: 3,
    };
    assert_eq!(pack(&vec![10, 10, 1], limits), [2, 3]);
    assert_eq!(pack(&vec![1, 1, 1, 1, 1], limits), [3, 5]);
    assert_eq!(pack(&vec![50, 1], limits), [1, 2]);
    assert!(pack(&Vec::new(), limits).is_empty());
}

#[test]
fn a_mutation_that_took_effect_is_kept_and_another_row_is_refused() {
    let held = |same_row: bool, deleted: bool| Some(Held { same_row, deleted });
    assert_eq!(decide(None, false), Decision::Write);
    assert_eq!(decide(None, true), Decision::Keep);
    assert_eq!(decide(held(true, false), false), Decision::Keep);
    assert_eq!(decide(held(true, false), true), Decision::Write);
    assert_eq!(decide(held(true, true), true), Decision::Keep);
    assert_eq!(decide(held(true, true), false), Decision::Resurrected);
    assert_eq!(decide(held(false, false), false), Decision::Rebound);
    assert_eq!(decide(held(false, true), true), Decision::Rebound);
}

#[test]
fn canonical_rows_are_bounded_exactly() {
    let input = change(&[(-2, 1)]);
    let expected = [1, 255, 255, 255, 255, 255, 255, 255, 254];
    assert_eq!(canonical_row(&input.records, 0).unwrap(), expected);
    assert_eq!(
        canonical_row_bounded(&input.records, 0, 9).unwrap(),
        expected
    );
    assert_eq!(
        canonical_row_size_bounded(&input.records, 0, 9).unwrap(),
        9
    );
    assert!(matches!(
        canonical_row_bounded(&input.records, 0, 8),
        Err(RowError::TooLarge { limit: 8 })
    ));
    assert!(matches!(
        canonical_row_size_bounded(&input.records, 0, 8),
        Err(RowError::TooLarge { limit: 8 })
    ));
    assert!(matches!(
        canonical_row(&input.records, 1),
        Err(RowError::RowOutOfBounds {
            row_index: 1,
            rows: 1,
        })
    ));
    assert_eq!(row_hash(&[]).len(), 16);
    assert_ne!(row_hash(&expected), expected[..]);
    assert_ne!(row_hash(&expected), row_hash(&[]));
}
