use std::collections::BTreeMap;

use dogpaddle_sink::buffered::audit::{remaining_event_counts, validate_event_sizes};
use dogpaddle_sink::buffered::delivery::DeliveryBatch;
use dogpaddle_sink::buffered::entry::{
    encoded_item_bytes, StoredEntry, MAX_DELIVERY_BYTES, MAX_TARGET_BATCH_BYTES,
};
use dogpaddle_sink::buffered::load::{load, signed_count, LoadLimits, LoadedBatch};
use dogpaddle_sink::buffered::runtime::{
    admit_change, begin_initialization, delivered, delivery_event_limit, delivery_limits, encode_bounded, fits,
    plan_delivery, prepare_admission, publish_ready, restore, settle, should_drain, turn,
    validate_capacity, Admission, Delivered, Offer, Phase, Restored, TurnStep,
    MAX_BUFFERED_EVENTS, MAX_RETAINED_BYTES,
};
use dogpaddle_sink::buffered::state::{
    decode_header, has_batch_id_capacity, validate_settlement, BufferFault, BufferState, Position,
    Prepared, Ready, State,
};
use dogpaddle_sink::change::{
    copy_type, copy_values, count_events, same_schema, Change, Column, DataType, Field, Schema,
    Value,
};

const MAX_BATCH_EVENTS: u32 = 3;

/// How many entries the scan of a store hands out at a time.
const SCAN_ITEMS: usize = 256;

#[derive(Clone, Copy, Debug, Eq, PartialEq)]
enum Action {
    Commit,
    Complete,
}

#[derive(Clone, Debug, Eq, PartialEq)]
struct Plan {
    batch_id: u64,
    events: u64,
    fingerprint: u64,
}

impl Plan {
    fn encode(&self) -> Vec<u8> {
        let mut output = vec![1];
        output.extend(self.batch_id.to_be_bytes());
        output.extend(self.events.to_be_bytes());
        output.extend(self.fingerprint.to_be_bytes());
        output
    }

    fn decode(bytes: &[u8], delivery: &DeliveryBatch) -> Result<Plan, BufferFault> {
        if bytes.len() != 25 || bytes[0] != 1 {
            return Err(BufferFault::Target);
        }
        let number = |start: usize| {
            let mut number = [0; 8];
            number.copy_from_slice(&bytes[start..start + 8]);
            u64::from_be_bytes(number)
        };
        let plan = Plan {
            batch_id: number(1),
            events: number(9),
            fingerprint: number(17),
        };
        if plan.events != count_events(&delivery.change.diffs).unwrap()
            || plan.fingerprint != fingerprint(delivery)
        {
            return Err(BufferFault::Target);
        }
        Ok(plan)
    }
}

#[derive(Default)]
struct TargetState {
    present: bool,
    initialize_calls: usize,
    prepare_calls: usize,
    delivery_attempts: usize,
    delivered: BTreeMap<u64, Plan>,
    fail_after_delivery_once: bool,
    event_bytes: u64,
    recovery_positive_capacity: Option<u64>,
}

impl TargetState {
    fn event_bytes(&self, input: &Change) -> Vec<u64> {
        vec![self.event_bytes.max(1); input.num_rows()]
    }

    fn validate_recovery(&self, remaining_positive_events: u64) -> Result<(), BufferFault> {
        match self.recovery_positive_capacity {
            Some(capacity) if remaining_positive_events > capacity => Err(BufferFault::Target),
            _ => Ok(()),
        }
    }

    fn initialize(&mut self) {
        self.initialize_calls += 1;
        self.present = true;
    }

    fn prepare(&mut self, input: &DeliveryBatch, checkpoint: u64, batch_id: u64) -> (u64, Plan) {
        self.prepare_calls += 1;
        let events = count_events(&input.change.diffs).unwrap();
        let plan = Plan {
            batch_id,
            events,
            fingerprint: fingerprint(input),
        };
        (checkpoint + events, plan)
    }

    fn deliver(
        &mut self,
        input: &DeliveryBatch,
        batch_id: u64,
        plan: &[u8],
    ) -> Result<(), BufferFault> {
        let plan = Plan::decode(plan, input)?;
        assert_eq!(plan.batch_id, batch_id);
        self.delivery_attempts += 1;
        if let Some(previous) = self.delivered.get(&batch_id) {
            assert_eq!(*previous, plan);
        }
        self.delivered.insert(batch_id, plan);
        if self.fail_after_delivery_once {
            self.fail_after_delivery_once = false;
            return Err(BufferFault::Target);
        }
        Ok(())
    }
}

fn fingerprint(batch: &DeliveryBatch) -> u64 {
    let values = &batch.change.records.columns[0].values;
    let mut hash = 0xcbf2_9ce4_8422_2325_u64;
    for (row, diff) in batch.change.diffs.iter().enumerate() {
        let Value::UInt64(value) = &values[row] else {
            panic!("expected a number");
        };
        hash = hash.wrapping_mul(0x100_0000_01b3)
            ^ u64::from_be_bytes(diff.to_be_bytes())
            ^ batch.admission(row).rotate_left(17)
            ^ value.rotate_left(31);
    }
    hash
}

fn field(name: &str, data_type: DataType) -> Field {
    Field {
        name: name.to_owned(),
        data_type,
        nullable: false,
        metadata: Vec::new(),
    }
}

fn schema() -> Schema {
    Schema::new(vec![field("value", DataType::UInt64)])
}

fn change(values: &[u64], diffs: &[i64]) -> Change {
    let column = Column {
        data_type: DataType::UInt64,
        values: values.iter().map(|value| Value::UInt64(*value)).collect(),
    };
    Change::try_new(schema(), vec![column], values.len(), diffs.to_vec()).unwrap()
}

fn copy_change(change: &Change) -> Change {
    let columns = change
        .records
        .columns
        .iter()
        .map(|column| Column {
            data_type: copy_type(&column.data_type),
            values: copy_values(&column.values),
        })
        .collect();
    Change::try_new(
        change.records.schema.copy(),
        columns,
        change.records.rows,
        change.diffs.clone(),
    )
    .unwrap()
}

/// How long a change is once it is encoded.
fn encoded_length(change: &Change) -> u64 {
    let mut length = 64 + 8 * change.diffs.len();
    for column in &change.records.columns {
        for value in &column.values {
            length += match value {
                Value::Binary(bytes) => 8 + bytes.len(),
                _ => 8,
            };
        }
    }
    u64::try_from(length).unwrap()
}

/// An entry of the buffer: how long it is, and the change that it decodes to, if to any.
struct Entry {
    length: u64,
    change: Option<Change>,
}

impl Entry {
    fn of(change: &Change) -> Self {
        Self {
            length: encoded_length(change),
            change: Some(copy_change(change)),
        }
    }

    fn malformed() -> Self {
        Self {
            length: 3,
            change: None,
        }
    }

    fn stored(&self, sequence: u64, charge: u64) -> StoredEntry {
        StoredEntry {
            sequence,
            encoded_length: self.length,
            change: self.change.as_ref().map(copy_change),
            event_bytes: self
                .change
                .as_ref()
                .map(|change| vec![charge; change.num_rows()]),
        }
    }
}

struct Fixture {
    schema: Schema,
    target: TargetState,
    control: Option<Vec<u8>>,
    buffer: BTreeMap<u64, Entry>,
    phase: Phase,
    loaded: Option<(Ready, LoadedBatch)>,
    planned: Option<(Prepared, DeliveryBatch)>,
    done: Option<Delivered>,
}

impl Fixture {
    fn create() -> Self {
        Self::create_with_schema(schema())
    }

    fn create_with_schema(schema: Schema) -> Self {
        Self {
            schema,
            target: TargetState::default(),
            control: None,
            buffer: BTreeMap::new(),
            phase: Phase::Restore,
            loaded: None,
            planned: None,
            done: None,
        }
    }

    fn reopen(self) -> Self {
        Self {
            phase: Phase::Restore,
            loaded: None,
            planned: None,
            done: None,
            ..self
        }
    }

    fn bootstrap(&mut self) {
        assert_commit(self.commit(None).unwrap());
        assert_commit(self.commit(None).unwrap());
        assert_commit(self.commit(None).unwrap());
        assert!(matches!(self.commit(None).unwrap(), None));
    }

    fn entries(&self) -> Vec<StoredEntry> {
        self.buffer
            .iter()
            .map(|(sequence, entry)| entry.stored(*sequence, self.target.event_bytes.max(1)))
            .collect()
    }

    fn offer(&self, change: &Change) -> Offer {
        Offer {
            port: 0,
            schema_matches: same_schema(&change.records.schema, &self.schema),
            admission: prepare_admission(
                change,
                true,
                &Some(self.target.event_bytes(change)),
                encoded_length(change),
            ),
        }
    }

    /// Runs one turn, whose transaction commits or not and whose callback runs or not.
    fn turn(
        &mut self,
        offered: Option<&Change>,
        commits: bool,
        calls_back: bool,
    ) -> Result<Option<Action>, BufferFault> {
        let offer = offered.map(|change| self.offer(change));
        let step = match turn(&self.phase, &offer, MAX_BATCH_EVENTS)? {
            TurnStep::Plan => {
                let (ready, batch) = self.loaded.take().unwrap();
                let (checkpoint, plan) =
                    self.target
                        .prepare(&batch.delivery, ready.checkpoint, ready.next_batch_id);
                let prepared = plan_delivery(&ready, batch.after, checkpoint, plan.encode());
                self.planned = Some((prepared, batch.delivery));
                self.phase = Phase::Planned;
                turn(&self.phase, &offer, MAX_BATCH_EVENTS)?
            }
            step => step,
        };
        match step {
            TurnStep::Idle => return Ok(None),
            TurnStep::Restore => {
                let restored = restore(
                    self.control.as_deref(),
                    &self.entries(),
                    &self.schema,
                    MAX_BATCH_EVENTS,
                )?;
                match &restored {
                    Restored::New | Restored::Initialize => {}
                    Restored::Ready {
                        positive_events, ..
                    } => self.target.validate_recovery(*positive_events)?,
                    Restored::Prepared {
                        prepared,
                        delivery,
                        positive_events,
                    } => {
                        self.target.validate_recovery(*positive_events)?;
                        Plan::decode(&prepared.plan, delivery)?;
                    }
                }
                if commits && calls_back {
                    self.phase = Phase::Failed;
                    match restored {
                        Restored::New => self.phase = Phase::New,
                        Restored::Initialize => {
                            self.target.initialize();
                            self.phase = Phase::Initialized;
                        }
                        Restored::Ready { ready, .. } => self.phase = Phase::Ready(ready),
                        Restored::Prepared {
                            prepared, delivery, ..
                        } => {
                            self.target
                                .deliver(&delivery, prepared.batch_id, &prepared.plan)?;
                            self.done = Some(delivered(&prepared));
                            self.phase = Phase::Delivered;
                        }
                    }
                }
            }
            TurnStep::Initialize => {
                let control = begin_initialization(!self.target.present)?;
                if commits {
                    self.control = Some(control);
                }
                if commits && calls_back {
                    self.target.initialize();
                    self.phase = Phase::Initialized;
                }
            }
            TurnStep::PublishReady => {
                let stored = publish_ready(0)?;
                if commits {
                    self.control = Some(stored.control);
                }
                if commits && calls_back {
                    self.phase = Phase::Ready(stored.ready);
                }
            }
            TurnStep::Admit(admission) => {
                let ready = self.ready_phase();
                let stored = admit_change(&ready, &admission)?;
                if self.buffer.contains_key(&ready.buffer.tail) {
                    return Err(BufferFault::EntryExists {
                        sequence: ready.buffer.tail,
                    });
                }
                if commits {
                    self.buffer
                        .insert(ready.buffer.tail, Entry::of(offered.unwrap()));
                    self.control = Some(stored.control);
                }
                if commits && calls_back {
                    self.phase = Phase::Ready(stored.ready);
                }
                return Ok(Some(Action::Complete));
            }
            TurnStep::Load => {
                let ready = self.ready_phase();
                let loaded = load(
                    &self.entries(),
                    ready.buffer,
                    delivery_limits(delivery_event_limit(MAX_BATCH_EVENTS)),
                    &self.schema,
                )?;
                if commits && calls_back {
                    self.loaded = Some((ready, loaded));
                    self.phase = Phase::Loaded;
                }
            }
            TurnStep::Plan => panic!("a planned delivery is persisted next"),
            TurnStep::Persist => {
                let (prepared, delivery) = self.planned.take().unwrap();
                let state = State::Prepared(prepared);
                let control = encode_bounded(&state)?;
                let State::Prepared(prepared) = state else {
                    panic!("expected Prepared");
                };
                if commits {
                    self.control = Some(control);
                }
                if commits && calls_back {
                    self.phase = Phase::Failed;
                    self.target
                        .deliver(&delivery, prepared.batch_id, &prepared.plan)?;
                    self.done = Some(delivered(&prepared));
                    self.phase = Phase::Delivered;
                } else {
                    self.planned = Some((prepared, delivery));
                }
            }
            TurnStep::Settle => {
                let settlement = settle(&self.done.unwrap())?;
                for sequence in settlement.remove_start..settlement.remove_end {
                    if !self.buffer.contains_key(&sequence) {
                        return Err(BufferFault::SettledEntryMissing { sequence });
                    }
                }
                if commits {
                    for sequence in settlement.remove_start..settlement.remove_end {
                        self.buffer.remove(&sequence);
                    }
                    self.control = Some(settlement.control);
                }
                if commits && calls_back {
                    self.phase = Phase::Ready(settlement.ready);
                }
            }
        }
        Ok(Some(Action::Commit))
    }

    fn ready_phase(&self) -> Ready {
        match self.phase {
            Phase::Ready(ready) => ready,
            phase => panic!("expected a ready phase, not {phase:?}"),
        }
    }

    fn commit(&mut self, offered: Option<&Change>) -> Result<Option<Action>, BufferFault> {
        self.turn(offered, true, true)
    }

    fn rollback(&mut self, offered: Option<&Change>) -> Result<Action, BufferFault> {
        Ok(self.turn(offered, false, false)?.unwrap())
    }

    fn commit_without_after_commit(
        &mut self,
        offered: Option<&Change>,
    ) -> Result<Action, BufferFault> {
        Ok(self.turn(offered, true, false)?.unwrap())
    }

    fn control(&self) -> Option<Vec<u8>> {
        self.control.clone()
    }

    fn set_control(&mut self, value: &[u8]) {
        self.control = Some(value.to_vec());
    }

    fn entry(&self, sequence: u64) -> Option<&Entry> {
        self.buffer.get(&sequence)
    }
}

fn assert_commit(action: Option<Action>) {
    assert!(matches!(action, Some(Action::Commit)));
}

fn assert_complete(action: Option<Action>) {
    assert!(matches!(action, Some(Action::Complete)));
}

fn ready(bytes: &[u8]) -> Ready {
    match decode_header(bytes).unwrap() {
        State::Ready(ready) => ready,
        State::Initialize | State::Prepared(_) => panic!("expected Ready control state"),
    }
}

/// Decodes a control state, and its plan against the delivery that it stands for.
fn decode(bytes: &[u8], delivery: Option<&DeliveryBatch>) -> Result<State, BufferFault> {
    let state = decode_header(bytes)?;
    if let State::Prepared(prepared) = &state {
        Plan::decode(&prepared.plan, delivery.unwrap())?;
    }
    Ok(state)
}

fn entry_list(entries: Vec<Entry>) -> Vec<StoredEntry> {
    entries
        .iter()
        .zip(0..)
        .map(|(entry, sequence)| entry.stored(sequence, 1))
        .collect()
}

fn first_position(sequence: u64, change: &Change) -> Position {
    Position {
        sequence,
        row_index: 0,
        remaining: change.diffs[0].unsigned_abs(),
    }
}

fn limits(events: u64, encoded_bytes: u64) -> LoadLimits {
    LoadLimits::new(
        events,
        encoded_bytes,
        MAX_DELIVERY_BYTES,
        MAX_TARGET_BATCH_BYTES,
    )
}

#[test]
fn control_codec_has_phase_goldens_and_rejects_corruption() {
    let delivery = DeliveryBatch::new(change(&[7], &[2]), vec![2]).unwrap();
    let initialize = State::Initialize;
    assert_eq!(initialize.encode(), [1, 0]);
    assert!(matches!(
        decode(&[1, 0], None).unwrap(),
        State::Initialize
    ));

    let ready_state = State::Ready(Ready {
        buffer: BufferState::empty(),
        next_batch_id: u64::MAX,
        checkpoint: 9,
    });
    let ready_bytes = ready_state.encode();
    assert_eq!(
        ready_bytes,
        [
            1, 1, 0, 0, 0, 0, 0, 0, 0, 0, 0, 0, 0, 0, 0, 0, 0, 0, 0, 0, 0, 0, 0, 0, 0, 0, 0, 0xff,
            0xff, 0xff, 0xff, 0xff, 0xff, 0xff, 0xff, 0, 0, 0, 0, 0, 0, 0, 9,
        ]
    );
    let State::Ready(decoded_ready) =
        decode(&ready_bytes, None).unwrap()
    else {
        panic!("expected Ready");
    };
    assert_eq!(decoded_ready.buffer, BufferState::empty());
    assert_eq!(decoded_ready.next_batch_id, u64::MAX);
    assert_eq!(decoded_ready.checkpoint, 9);
    let zero_ready = State::Ready(Ready {
        buffer: BufferState::empty(),
        next_batch_id: 0,
        checkpoint: 9,
    })
    .encode();
    assert!(decode(&zero_ready, None).is_err());

    let prepared = State::Prepared(Prepared {
        before: BufferState {
            head: Some(Position {
                sequence: 3,
                row_index: 0,
                remaining: 2,
            }),
            tail: 4,
            pending_events: 2,
            retained_bytes: 100,
        },
        after: BufferState::empty(),
        batch_id: 5,
        checkpoint: 11,
        plan: Plan {
            batch_id: 5,
            events: 2,
            fingerprint: fingerprint(&delivery),
        }
.encode(),
    });
    let prepared_bytes = prepared.encode();
    let State::Prepared(decoded) =
        decode(&prepared_bytes, Some(&delivery)).unwrap()
    else {
        panic!("expected Prepared");
    };
    assert_eq!(decoded.before.head.unwrap().sequence, 3);
    assert_eq!(decoded.after, BufferState::empty());
    assert_eq!(Plan::decode(&decoded.plan, &delivery).unwrap().batch_id, 5);
    for end in 0..prepared_bytes.len() {
        assert!(
            decode(&prepared_bytes[..end], Some(&delivery)).is_err(),
            "accepted truncated control state at {end}"
        );
    }
    let mut trailing = prepared_bytes.clone();
    trailing.push(0);
    assert!(decode(&trailing, Some(&delivery)).is_err());
    let mut corrupt_plan = prepared_bytes;
    *corrupt_plan.last_mut().unwrap() ^= 1;
    assert!(decode(&corrupt_plan, Some(&delivery)).is_err());
    for invalid_id in [0, u64::MAX] {
        let invalid = State::Prepared(Prepared {
            before: BufferState {
                head: Some(Position {
                    sequence: 3,
                    row_index: 0,
                    remaining: 2,
                }),
                tail: 4,
                pending_events: 2,
                retained_bytes: 100,
            },
            after: BufferState::empty(),
            batch_id: invalid_id,
            checkpoint: 11,
            plan: Plan {
                batch_id: invalid_id,
                events: 2,
                fingerprint: fingerprint(&delivery),
            }
.encode(),
        })
        .encode();
        assert!(decode(&invalid, Some(&delivery)).is_err());
    }
}

#[test]
fn loader_slices_mixed_diffs_and_preserves_whole_row_admission() {
    let first = change(&[10, 11, 12], &[2, -5, 1]);
    let second = change(&[20, 21], &[-3, 4]);
    let retained_bytes = encoded_item_bytes(encoded_length(&first)).unwrap()
        + encoded_item_bytes(encoded_length(&second)).unwrap();
    let before = BufferState {
        head: Some(first_position(0, &first)),
        tail: 2,
        pending_events: 15,
        retained_bytes,
    };
    let entries = entry_list(vec![Entry::of(&first), Entry::of(&second)]);

    let first_batch = load(&entries, before, limits(6, MAX_DELIVERY_BYTES), &schema()).unwrap();
    assert_eq!(first_batch.delivery.change.diffs, [2, -4]);
    assert_eq!(first_batch.delivery.admission(0), 2);
    assert_eq!(first_batch.delivery.admission(1), 5);
    assert_eq!(
        first_batch.after.head,
        Some(Position {
            sequence: 0,
            row_index: 1,
            remaining: 1,
        })
    );

    let second_batch = load(
        &entries,
        first_batch.after,
        limits(4, MAX_DELIVERY_BYTES),
        &schema(),
    )
    .unwrap();
    assert_eq!(second_batch.delivery.change.diffs, [-1, 1, -2]);
    assert_eq!(second_batch.delivery.admission(0), 1);
    assert_eq!(second_batch.delivery.admission(1), 1);
    assert_eq!(second_batch.delivery.admission(2), 3);
    assert_eq!(
        second_batch.after.head,
        Some(Position {
            sequence: 1,
            row_index: 0,
            remaining: 1,
        })
    );
    let values = &second_batch.delivery.change.records.columns[0].values;
    assert!(matches!(
        values[..],
        [Value::UInt64(11), Value::UInt64(12), Value::UInt64(20)]
    ));
}

#[test]
fn loader_bounds_cross_entry_aggregation_by_encoded_bytes() {
    let first = change(&[1], &[1]);
    let second = change(&[2], &[1]);
    let first_bytes = encoded_item_bytes(encoded_length(&first)).unwrap();
    let second_bytes = encoded_item_bytes(encoded_length(&second)).unwrap();
    let before = BufferState {
        head: Some(first_position(0, &first)),
        tail: 2,
        pending_events: 2,
        retained_bytes: first_bytes + second_bytes,
    };
    let entries = entry_list(vec![Entry::of(&first), Entry::of(&second)]);

    let loaded = load(
        &entries,
        before,
        limits(2, first_bytes + second_bytes - 1),
        &schema(),
    )
    .unwrap();
    assert_eq!(loaded.delivery.change.diffs, [1]);
    assert_eq!(loaded.after.head, Some(Position::entry_start(1)));
    assert_eq!(loaded.after.retained_bytes, second_bytes);
}

#[test]
fn loader_rejects_missing_corrupt_and_wrong_schema_entries() {
    let before = BufferState {
        head: Some(Position {
            sequence: 0,
            row_index: 0,
            remaining: 1,
        }),
        tail: 1,
        pending_events: 1,
        retained_bytes: 8,
    };
    let one = limits(1, MAX_DELIVERY_BYTES);
    assert!(matches!(
        load(&Vec::new(), before, one, &schema()),
        Err(BufferFault::EntryMissing { sequence: 0 })
    ));

    let corrupt = BufferState {
        retained_bytes: 11,
        ..before
    };
    let entries = entry_list(vec![Entry::malformed()]);
    assert!(matches!(
        load(&entries, corrupt, one, &schema()),
        Err(BufferFault::EntryUndecodable { sequence: 0 })
    ));

    let column = Column {
        data_type: DataType::Int64,
        values: vec![Value::Int64(1)],
    };
    let other = Schema::new(vec![field("different", DataType::Int64)]);
    let wrong = Change::try_new(other, vec![column], 1, vec![1]).unwrap();
    let wrong_schema = BufferState {
        retained_bytes: encoded_item_bytes(encoded_length(&wrong)).unwrap(),
        ..before
    };
    let entries = entry_list(vec![Entry::of(&wrong)]);
    assert!(matches!(
        load(&entries, wrong_schema, one, &schema()),
        Err(BufferFault::SchemaMismatch)
    ));
}

#[test]
fn initialization_intent_rollback_has_no_target_effect() {
    let mut fixture = Fixture::create();
    assert_commit(fixture.commit(None).unwrap());
    assert!(matches!(
        fixture.rollback(None).unwrap(),
        Action::Commit
    ));
    assert!(fixture.control().is_none());
    assert!(!fixture.target.present);
    assert_eq!(fixture.target.initialize_calls, 0);
}

#[test]
fn admission_rolls_back_atomically_and_small_claims_form_multiple_entries() {
    let mut fixture = Fixture::create();
    fixture.bootstrap();
    let first = change(&[1], &[1]);
    let second = change(&[2], &[1]);

    assert!(matches!(
        fixture.rollback(Some(&first)).unwrap(),
        Action::Complete
    ));
    assert!(fixture.entry(0).is_none());
    assert!(ready(&fixture.control().unwrap()).buffer.is_empty());

    assert_complete(fixture.commit(Some(&first)).unwrap());
    assert_complete(fixture.commit(Some(&second)).unwrap());
    assert!(fixture.entry(0).is_some());
    assert!(fixture.entry(1).is_some());
    let durable = ready(&fixture.control().unwrap());
    assert_eq!(durable.buffer.tail, 2);
    assert_eq!(durable.buffer.pending_events, 2);
}

#[test]
fn load_cache_and_prepared_intent_only_advance_after_commit() {
    let mut fixture = Fixture::create();
    fixture.bootstrap();
    let input = change(&[1], &[3]);
    assert_complete(fixture.commit(Some(&input)).unwrap());

    assert!(matches!(
        fixture.rollback(None).unwrap(),
        Action::Commit
    ));
    assert_eq!(fixture.target.prepare_calls, 0);
    assert!(matches!(
        decode_header(&fixture.control().unwrap()).unwrap(),
        State::Ready(_)
    ));

    assert_commit(fixture.commit(None).unwrap());
    assert!(matches!(
        fixture.rollback(None).unwrap(),
        Action::Commit
    ));
    assert_eq!(fixture.target.prepare_calls, 1);
    assert_eq!(fixture.target.delivery_attempts, 0);
    assert!(matches!(
        decode_header(&fixture.control().unwrap()).unwrap(),
        State::Ready(_)
    ));

    assert_commit(fixture.commit(None).unwrap());
    assert_eq!(fixture.target.prepare_calls, 1);
    assert_eq!(fixture.target.delivery_attempts, 1);
}

#[test]
fn continuous_claim_is_held_while_threshold_drains_and_then_is_admitted() {
    let mut fixture = Fixture::create();
    fixture.bootstrap();
    let buffered = change(&[1], &[3]);
    let offered = change(&[9], &[1]);
    assert_complete(fixture.commit(Some(&buffered)).unwrap());

    assert_commit(fixture.commit(Some(&offered)).unwrap());
    assert_eq!(fixture.target.prepare_calls, 0);
    assert_commit(fixture.commit(Some(&offered)).unwrap());
    assert_eq!(fixture.target.delivered.len(), 1);
    assert_commit(fixture.commit(Some(&offered)).unwrap());
    assert!(fixture.entry(0).is_none());
    assert_complete(fixture.commit(Some(&offered)).unwrap());
    assert!(fixture.entry(0).is_some());
}

#[test]
fn one_large_diff_is_settled_across_bounded_batches() {
    let mut fixture = Fixture::create();
    fixture.bootstrap();
    let input = change(&[1], &[7]);
    assert_complete(fixture.commit(Some(&input)).unwrap());

    for expected_batch in 1..=3 {
        assert_commit(fixture.commit(None).unwrap());
        assert_commit(fixture.commit(None).unwrap());
        assert_commit(fixture.commit(None).unwrap());
        assert_eq!(
            fixture.target.delivered.len(),
            expected_batch
        );
        assert_eq!(fixture.entry(0).is_none(), expected_batch == 3);
    }
    assert!(matches!(fixture.commit(None).unwrap(), None));
    let delivered = &fixture.target;
    assert_eq!(delivered.delivered[&1].events, 3);
    assert_eq!(delivered.delivered[&2].events, 3);
    assert_eq!(delivered.delivered[&3].events, 1);
}

#[test]
fn prepared_delivery_is_rebuilt_after_an_uncertain_result() {
    let mut fixture = Fixture::create();
    fixture.bootstrap();
    let change = change(&[1], &[3]);
    assert_complete(fixture.commit(Some(&change)).unwrap());
    assert_commit(fixture.commit(None).unwrap());
    fixture.target.fail_after_delivery_once = true;
    assert!(fixture.commit(None).is_err());
    assert_eq!(fixture.target.delivered.len(), 1);
    assert!(fixture.entry(0).is_some());
    assert!(matches!(
        decode_header(&fixture.control().unwrap()).unwrap(),
        State::Prepared(_)
    ));

    let mut fixture = fixture.reopen();
    assert_commit(fixture.commit(None).unwrap());
    assert_eq!(fixture.target.delivery_attempts, 2);
    assert_commit(fixture.commit(None).unwrap());
    assert!(fixture.entry(0).is_none());
    assert!(ready(&fixture.control().unwrap()).buffer.is_empty());
}

#[test]
fn committed_prepared_without_its_callback_replays_on_open() {
    let mut fixture = Fixture::create();
    fixture.bootstrap();
    let change = change(&[1], &[3]);
    assert_complete(fixture.commit(Some(&change)).unwrap());
    assert_commit(fixture.commit(None).unwrap());
    assert!(matches!(
        fixture.commit_without_after_commit(None).unwrap(),
        Action::Commit
    ));
    assert_eq!(fixture.target.delivery_attempts, 0);

    let mut fixture = fixture.reopen();
    assert_commit(fixture.commit(None).unwrap());
    assert_eq!(fixture.target.delivery_attempts, 1);
    assert_commit(fixture.commit(None).unwrap());
    assert!(fixture.entry(0).is_none());
}

#[test]
fn settlement_rollback_keeps_the_prepared_state_and_complete_entries() {
    let mut fixture = Fixture::create();
    fixture.bootstrap();
    let change = change(&[1], &[3]);
    assert_complete(fixture.commit(Some(&change)).unwrap());
    assert_commit(fixture.commit(None).unwrap());
    assert_commit(fixture.commit(None).unwrap());

    assert!(matches!(
        fixture.rollback(None).unwrap(),
        Action::Commit
    ));
    assert!(fixture.entry(0).is_some());
    assert!(matches!(
        decode_header(&fixture.control().unwrap()).unwrap(),
        State::Prepared(_)
    ));
    assert_commit(fixture.commit(None).unwrap());
    assert!(fixture.entry(0).is_none());
}

#[test]
fn recovery_rejects_a_forged_settlement_before_decoding_its_plan() {
    let mut fixture = Fixture::create();
    fixture.bootstrap();
    let input_change = change(&[1], &[5]);
    assert_complete(fixture.commit(Some(&input_change)).unwrap());
    let before = ready(&fixture.control().unwrap());
    let delivery = DeliveryBatch::new(change(&[1], &[3]), vec![5]).unwrap();
    let forged = State::Prepared(Prepared {
        before: before.buffer,
        after: BufferState {
            head: Some(Position {
                sequence: 0,
                row_index: 0,
                remaining: 1,
            }),
            tail: 1,
            pending_events: 1,
            retained_bytes: before.buffer.retained_bytes,
        },
        batch_id: before.next_batch_id,
        checkpoint: 3,
        plan: Plan {
            batch_id: before.next_batch_id,
            events: 3,
            fingerprint: fingerprint(&delivery),
        }
.encode(),
    })
    .encode();
    fixture.set_control(&forged);

    let mut fixture = fixture.reopen();
    assert!(fixture.commit(None).is_err());
    assert_eq!(fixture.target.delivery_attempts, 0);
}

fn admission(change: &Change) -> Result<Admission, BufferFault> {
    prepare_admission(
        change,
        true,
        &Some(vec![1; change.num_rows()]),
        encoded_length(change),
    )
}

#[test]
fn oversized_event_and_item_are_rejected_without_partial_admission() {
    let mut fixture = Fixture::create();
    fixture.bootstrap();
    let too_many = change(&[1], &[i64::MIN]);
    assert!(fixture.commit(Some(&too_many)).is_err());
    assert!(fixture.entry(0).is_none());
    assert!(ready(&fixture.control().unwrap()).buffer.is_empty());
    assert!(admission(&change(&[1], &[1_048_576])).is_ok());
    assert!(admission(&change(&[1], &[1_048_577])).is_err());
    assert!(count_events(&[i64::MIN, i64::MIN]).is_none());

    let column = Column {
        data_type: DataType::Binary,
        values: vec![Value::Binary(vec![
            7;
            usize::try_from(MAX_DELIVERY_BYTES).unwrap()
        ])],
    };
    let binary = Schema::new(vec![field("value", DataType::Binary)]);
    let oversized = Change::try_new(binary, vec![column], 1, vec![1]).unwrap();
    assert_eq!(admission(&oversized), Err(BufferFault::ItemCapacity));
}

#[test]
fn target_byte_charge_slices_delivery_and_rejects_one_oversized_event_before_ack() {
    let mut fixture = Fixture::create();
    fixture.target.event_bytes = MAX_TARGET_BATCH_BYTES / 2 + 1;
    fixture.bootstrap();
    assert_complete(fixture.commit(Some(&change(&[7], &[3]))).unwrap());

    let mut fixture = fixture.reopen();
    assert_commit(fixture.commit(None).unwrap());
    for _ in 0..32 {
        if fixture.commit(None).unwrap().is_none() {
            break;
        }
    }
    let target = &fixture.target;
    assert_eq!(target.delivered.len(), 3);
    assert!(target.delivered.values().all(|plan| plan.events == 1));
    assert!(ready(&fixture.control().unwrap()).buffer.is_empty());

    let mut oversized = Fixture::create();
    oversized.target.event_bytes = MAX_TARGET_BATCH_BYTES + 1;
    oversized.bootstrap();
    assert!(oversized.commit(Some(&change(&[9], &[1]))).is_err());
    assert!(oversized.entry(0).is_none());
    assert!(ready(&oversized.control().unwrap()).buffer.is_empty());
    assert!(oversized.target.delivered.is_empty());
}

#[test]
fn restore_checks_positive_capacity_before_any_target_io() {
    let mut fixture = Fixture::create();
    fixture.bootstrap();
    assert_complete(fixture.commit(Some(&change(&[1, 2], &[-2, 2]))).unwrap());
    fixture.target.recovery_positive_capacity = Some(1);

    let mut fixture = fixture.reopen();
    assert!(fixture.commit(None).is_err());
    assert!(fixture.entry(0).is_some());
    assert_eq!(fixture.target.delivery_attempts, 0);
}

#[test]
fn a_wide_large_change_round_trips_through_owned_ipc_and_reopen() {
    let wide_schema = Schema::new(vec![
        field("value", DataType::UInt64),
        field("first", DataType::Binary),
        field("second", DataType::Binary),
        field("third", DataType::Binary),
    ]);
    let payload = || Column {
        data_type: DataType::Binary,
        values: vec![Value::Binary(vec![7; 2 * 1024 * 1024])],
    };
    let number = Column {
        data_type: DataType::UInt64,
        values: vec![Value::UInt64(1)],
    };
    let columns = vec![number, payload(), payload(), payload()];
    let input = Change::try_new(wide_schema.copy(), columns, 1, vec![1]).unwrap();
    assert!(encoded_item_bytes(encoded_length(&input)).unwrap() < MAX_DELIVERY_BYTES);

    let mut fixture = Fixture::create_with_schema(wide_schema);
    fixture.bootstrap();
    assert_complete(fixture.commit(Some(&input)).unwrap());
    let mut fixture = fixture.reopen();
    assert_commit(fixture.commit(None).unwrap());
    assert_commit(fixture.commit(None).unwrap());
    assert_commit(fixture.commit(None).unwrap());
    assert_commit(fixture.commit(None).unwrap());
    assert!(ready(&fixture.control().unwrap()).buffer.is_empty());
    assert_eq!(fixture.target.delivered.len(), 1);
}

#[test]
fn admission_reserves_enough_batch_ids_for_every_buffered_event() {
    let mut fixture = Fixture::create();
    fixture.bootstrap();
    fixture.set_control(
        &State::Ready(Ready {
            buffer: BufferState::empty(),
            next_batch_id: u64::MAX - 1,
            checkpoint: 0,
        })
        .encode(),
    );
    let mut fixture = fixture.reopen();
    assert_commit(fixture.commit(None).unwrap());

    assert!(fixture.commit(Some(&change(&[1], &[2]))).is_err());
    assert!(fixture.entry(0).is_none());
    assert_eq!(
        ready(&fixture.control().unwrap()).next_batch_id,
        u64::MAX - 1
    );

    assert_complete(fixture.commit(Some(&change(&[1], &[1]))).unwrap());
    assert_commit(fixture.commit(None).unwrap());
    assert_commit(fixture.commit(None).unwrap());
    assert_commit(fixture.commit(None).unwrap());
    let exhausted = ready(&fixture.control().unwrap());
    assert!(exhausted.buffer.is_empty());
    assert_eq!(exhausted.next_batch_id, u64::MAX);
    assert!(fixture.commit(Some(&change(&[2], &[1]))).is_err());
}

#[test]
fn recovery_rejects_buffered_work_that_cannot_drain_before_id_exhaustion() {
    let mut fixture = Fixture::create();
    fixture.bootstrap();
    assert_complete(fixture.commit(Some(&change(&[1], &[2]))).unwrap());
    let admitted = ready(&fixture.control().unwrap());
    fixture.set_control(
        &State::Ready(Ready {
            buffer: admitted.buffer,
            next_batch_id: u64::MAX - 1,
            checkpoint: admitted.checkpoint,
        })
        .encode(),
    );

    let mut fixture = fixture.reopen();
    assert!(fixture.commit(None).is_err());
    assert!(fixture.entry(0).is_some());
    assert_eq!(fixture.target.delivery_attempts, 0);
}

#[test]
fn restore_validates_every_buffer_entry_and_accounting_before_delivery() {
    let mut missing = Fixture::create();
    missing.bootstrap();
    assert_complete(missing.commit(Some(&change(&[1], &[1]))).unwrap());
    assert_complete(missing.commit(Some(&change(&[2], &[1]))).unwrap());
    assert!(missing.buffer.remove(&1).is_some());
    let mut missing = missing.reopen();
    assert!(missing.commit(None).is_err());
    assert!(missing.target.delivered.is_empty());

    let mut corrupt = Fixture::create();
    corrupt.bootstrap();
    assert_complete(corrupt.commit(Some(&change(&[1], &[1]))).unwrap());
    assert_complete(corrupt.commit(Some(&change(&[2], &[1]))).unwrap());
    corrupt.buffer.insert(1, Entry::malformed());
    let mut corrupt = corrupt.reopen();
    assert!(corrupt.commit(None).is_err());
    assert!(corrupt.target.delivered.is_empty());

    let mut miscounted = Fixture::create();
    miscounted.bootstrap();
    assert_complete(miscounted.commit(Some(&change(&[1, 2], &[1, 1]))).unwrap());
    let mut durable = ready(&miscounted.control().unwrap());
    durable.buffer.pending_events += 1;
    let encoded = State::Ready(durable).encode();
    miscounted.set_control(&encoded);
    let mut miscounted = miscounted.reopen();
    assert!(miscounted.commit(None).is_err());
    assert!(miscounted.target.delivered.is_empty());
}

#[test]
fn restore_validation_crosses_scan_pages_before_external_io() {
    let mut fixture = Fixture::create();
    fixture.bootstrap();
    let count = SCAN_ITEMS + 1;
    let valid = (0..count - 1)
        .map(|value| Entry::of(&change(&[u64::try_from(value).unwrap()], &[1])))
        .collect::<Vec<_>>();
    let retained_bytes = valid
        .iter()
        .map(|entry| encoded_item_bytes(entry.length).unwrap())
        .sum::<u64>()
        + encoded_item_bytes(Entry::malformed().length).unwrap();
    let control = State::Ready(Ready {
        buffer: BufferState {
            head: Some(Position {
                sequence: 0,
                row_index: 0,
                remaining: 1,
            }),
            tail: u64::try_from(count).unwrap(),
            pending_events: u64::try_from(count).unwrap(),
            retained_bytes,
        },
        next_batch_id: 1,
        checkpoint: 0,
    })
    .encode();
    fixture.buffer = (0..).zip(valid).collect();
    fixture
        .buffer
        .insert(u64::try_from(count - 1).unwrap(), Entry::malformed());
    fixture.set_control(&control);

    let mut fixture = fixture.reopen();
    assert!(fixture.commit(None).is_err());
    assert_eq!(fixture.target.delivery_attempts, 0);
}

#[test]
fn restore_rejects_a_nonzero_orphan_without_control_state() {
    let mut fixture = Fixture::create();
    fixture.buffer.insert(7, Entry::of(&change(&[7], &[1])));

    assert!(fixture.commit(None).is_err());
    assert_eq!(fixture.target.initialize_calls, 0);
}

#[test]
fn each_refusal_of_an_admission_has_its_own_fault() {
    let input = change(&[1], &[2]);
    let sizes = Some(vec![1]);
    assert_eq!(
        prepare_admission(&input, true, &sizes, 100),
        Ok(Admission {
            item_bytes: 108,
            events: 2,
            first_remaining: 2,
        })
    );
    let many = change(&[1, 2], &[i64::MIN, i64::MIN]);
    let two = Some(vec![1, 1]);
    assert_eq!(
        prepare_admission(&many, true, &two, 100),
        Err(BufferFault::CountOverflow)
    );
    let many = change(&[1], &[1_048_577]);
    assert_eq!(
        prepare_admission(&many, true, &sizes, 100),
        Err(BufferFault::ChangeTooManyEvents)
    );
    assert_eq!(
        prepare_admission(&input, false, &sizes, 100),
        Err(BufferFault::Target)
    );
    assert_eq!(
        prepare_admission(&input, true, &None, 100),
        Err(BufferFault::Target)
    );
    assert_eq!(
        prepare_admission(&input, true, &Some(vec![0]), 100),
        Err(BufferFault::ZeroCharge)
    );
    assert_eq!(
        prepare_admission(&input, true, &Some(vec![MAX_TARGET_BATCH_BYTES + 1]), 100),
        Err(BufferFault::OversizedMutation)
    );
    assert_eq!(
        prepare_admission(&input, true, &sizes, u64::MAX),
        Err(BufferFault::EncodedOverflow)
    );
    assert_eq!(
        prepare_admission(&input, true, &sizes, MAX_DELIVERY_BYTES - 7),
        Err(BufferFault::ItemCapacity)
    );
}

#[test]
fn a_buffer_admits_up_to_its_capacity_and_drains_when_it_is_full() {
    let buffer = BufferState {
        head: Some(Position {
            sequence: 4,
            row_index: 0,
            remaining: 2,
        }),
        tail: 5,
        pending_events: 2,
        retained_bytes: 100,
    };
    let ready = Ready {
        buffer,
        next_batch_id: 1,
        checkpoint: 0,
    };
    let admission = |events: u64, item_bytes: u64| Admission {
        item_bytes,
        events,
        first_remaining: 1,
    };
    let stored = admit_change(&ready, &admission(3, 50)).unwrap();
    assert_eq!(
        stored.ready.buffer,
        BufferState {
            head: buffer.head,
            tail: 6,
            pending_events: 5,
            retained_bytes: 150,
        }
    );
    assert_eq!(stored.control, State::Ready(stored.ready).encode());
    assert!(matches!(
        admit_change(&ready, &admission(1, MAX_RETAINED_BYTES - 99)),
        Err(BufferFault::RetainedCapacity)
    ));
    assert!(matches!(
        admit_change(&ready, &admission(MAX_BUFFERED_EVENTS - 1, 8)),
        Err(BufferFault::EventCapacity)
    ));
    assert!(fits(&ready, &admission(MAX_BUFFERED_EVENTS - 2, 8)));
    assert!(!fits(&ready, &admission(MAX_BUFFERED_EVENTS - 1, 8)));
    assert!(!fits(&ready, &admission(1, MAX_RETAINED_BYTES - 99)));
    let last = Ready {
        buffer: BufferState {
            tail: u64::MAX,
            ..buffer
        },
        ..ready
    };
    assert!(matches!(
        admit_change(&last, &admission(1, 8)),
        Err(BufferFault::SequenceExhausted)
    ));

    assert!(!should_drain(&ready, 3));
    assert!(should_drain(&ready, 2));
    assert_eq!(delivery_event_limit(3), 3);
    assert_eq!(delivery_event_limit(u32::MAX), 65_536);
    assert_eq!(validate_capacity(buffer), Ok(()));
    let large = BufferState {
        retained_bytes: MAX_RETAINED_BYTES + 1,
        ..buffer
    };
    assert_eq!(
        validate_capacity(large),
        Err(BufferFault::CapacityExceeded)
    );
}

#[test]
fn only_port_zero_and_the_bound_schema_are_served() {
    let mut fixture = Fixture::create();
    fixture.bootstrap();
    let mut offer = fixture.offer(&change(&[1], &[1]));
    offer.port = 1;
    assert_eq!(
        turn(&fixture.phase, &Some(offer), 3),
        Err(BufferFault::InputPort)
    );
    offer.port = 0;
    offer.schema_matches = false;
    assert_eq!(
        turn(&fixture.phase, &Some(offer), 3),
        Err(BufferFault::InputSchema)
    );
    assert_eq!(turn(&Phase::Failed, &None, 3), Err(BufferFault::Failed));
}

#[test]
fn a_settlement_only_moves_forward_and_releases_what_it_used_up() {
    let before = BufferState {
        head: Some(Position {
            sequence: 3,
            row_index: 0,
            remaining: 2,
        }),
        tail: 6,
        pending_events: 9,
        retained_bytes: 300,
    };
    let after = BufferState {
        head: Some(Position::entry_start(5)),
        tail: 6,
        pending_events: 4,
        retained_bytes: 100,
    };
    assert_eq!(validate_settlement(before, after), Ok(()));
    assert_eq!(
        validate_settlement(after, before),
        Err(BufferFault::InvalidSettlement)
    );
    let settlement = settle(&Delivered {
        before,
        after,
        batch_id: 7,
        checkpoint: 11,
    })
    .unwrap();
    assert_eq!((settlement.remove_start, settlement.remove_end), (3, 5));
    assert_eq!(
        settlement.ready,
        Ready {
            buffer: after,
            next_batch_id: 8,
            checkpoint: 11,
        }
    );
    let all = settle(&Delivered {
        before,
        after: BufferState::empty(),
        batch_id: 7,
        checkpoint: 11,
    })
    .unwrap();
    assert_eq!((all.remove_start, all.remove_end), (3, 6));
    assert!(has_batch_id_capacity(after, u64::MAX - 4));
    assert!(!has_batch_id_capacity(after, u64::MAX - 3));
}

#[test]
fn deliveries_cover_a_buffer_exactly_once_and_in_order() {
    let first = change(&[1, 2, 3], &[2, -5, 1]);
    let second = change(&[4, 5], &[-3, 4]);
    let entries = entry_list(vec![Entry::of(&first), Entry::of(&second)]);
    let mut state = BufferState {
        head: Some(first_position(0, &first)),
        tail: 2,
        pending_events: 15,
        retained_bytes: entries.iter().map(|entry| entry.encoded_length + 8).sum(),
    };
    let mut events = Vec::new();
    while !state.is_empty() {
        let batch = load(&entries, state, limits(4, MAX_DELIVERY_BYTES), &schema()).unwrap();
        for (value, diff) in batch.delivery.change.records.columns[0]
            .values
            .iter()
            .zip(&batch.delivery.change.diffs)
        {
            let Value::UInt64(value) = value else {
                panic!("expected a number");
            };
            for _ in 0..diff.unsigned_abs() {
                events.push((*value, diff.signum()));
            }
        }
        state = batch.after;
    }
    let mut expected = vec![(1, 1); 2];
    expected.extend(vec![(2, -1); 5]);
    expected.push((3, 1));
    expected.extend(vec![(4, -1); 3]);
    expected.extend(vec![(5, 1); 4]);
    assert_eq!(events, expected);
    assert_eq!(state, BufferState::empty());
}

#[test]
fn counts_and_signs_of_events_are_exact() {
    assert_eq!(signed_count(-9, 4), -4);
    assert_eq!(signed_count(9, 4), 4);
    assert_eq!(signed_count(i64::MIN, 1_u64 << 63), i64::MIN);
    let input = change(&[1, 2, 3], &[2, -5, 4]);
    let place = |row_index: u64, remaining: u64| Position {
        sequence: 0,
        row_index,
        remaining,
    };
    assert_eq!(remaining_event_counts(&input, place(0, 2)), Ok((11, 6)));
    assert_eq!(remaining_event_counts(&input, place(1, 3)), Ok((7, 4)));
    assert_eq!(
        remaining_event_counts(&input, place(3, 1)),
        Err(BufferFault::RowIndexOutside)
    );
    assert_eq!(
        remaining_event_counts(&input, place(1, 6)),
        Err(BufferFault::PositionMismatch)
    );
    assert_eq!(validate_event_sizes(&vec![1, 2]), Ok(()));
    assert_eq!(
        validate_event_sizes(&vec![1, 0]),
        Err(BufferFault::ZeroCharge)
    );
}

#[test]
fn a_load_needs_limits_and_something_to_load() {
    let input = change(&[1], &[1]);
    let entries = entry_list(vec![Entry::of(&input)]);
    let state = BufferState {
        head: Some(first_position(0, &input)),
        tail: 1,
        pending_events: 1,
        retained_bytes: entries[0].encoded_length + 8,
    };
    let fault = |limits: LoadLimits| load(&entries, state, limits, &schema()).unwrap_err();
    assert_eq!(
        fault(LoadLimits::new(0, 1, 1, 1)),
        BufferFault::EventLimitZero
    );
    assert_eq!(
        fault(LoadLimits::new(1, 0, 1, 1)),
        BufferFault::EncodedLimitZero
    );
    assert_eq!(
        fault(LoadLimits::new(1, 1, 0, 1)),
        BufferFault::ItemLimitZero
    );
    assert_eq!(
        fault(LoadLimits::new(1, 1, 1, 0)),
        BufferFault::TargetLimitZero
    );
    assert_eq!(
        fault(LoadLimits::new(1, 1, 1, 1)),
        BufferFault::EntryTooLarge { sequence: 0 }
    );
    assert_eq!(
        load(&entries, BufferState::empty(), limits(1, 1), &schema()).unwrap_err(),
        BufferFault::EmptyBuffer
    );
}

#[test]
fn a_fault_is_called_by_its_text() {
    assert_eq!(
        BufferFault::EntryMissing { sequence: 17 }.message(),
        "buffered sink: buffer entry 17 is missing"
    );
    assert_eq!(
        BufferFault::Failed.message(),
        "buffered sink: runtime must be reopened after a post-commit failure"
    );
}

#[test]
fn a_target_that_is_there_stops_initialization_before_anything_is_stored() {
    assert_eq!(begin_initialization(true), Ok(vec![1, 0]));
    assert_eq!(begin_initialization(false), Err(BufferFault::Target));
    let mut fixture = Fixture::create();
    fixture.target.present = true;
    assert_commit(fixture.commit(None).unwrap());
    assert_eq!(fixture.commit(None), Err(BufferFault::Target));
    assert!(fixture.control().is_none());
    assert_eq!(fixture.target.initialize_calls, 0);
}

#[test]
fn a_continued_row_is_admitted_only_as_far_as_it_is_delivered() {
    let input = change(&[1, 2], &[5, -2]);
    let entries = entry_list(vec![Entry::of(&input)]);
    let mut state = BufferState {
        head: Some(first_position(0, &input)),
        tail: 1,
        pending_events: 7,
        retained_bytes: entries[0].encoded_length + 8,
    };
    let mut seen = Vec::new();
    while !state.is_empty() {
        let batch = load(&entries, state, limits(3, MAX_DELIVERY_BYTES), &schema()).unwrap();
        seen.push((batch.delivery.change.diffs, batch.delivery.admissions));
        assert!(seen.len() < 4);
        state = batch.after;
    }
    assert_eq!(
        seen,
        [
            (vec![3], vec![5]),
            (vec![2, -1], vec![2, 2]),
            (vec![-1], vec![1]),
        ]
    );
}
