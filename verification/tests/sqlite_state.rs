use dogpaddle_sink::relation::batch::{MAX_MUTATIONS_PER_BATCH, MAX_TECHNICAL_ID};
use dogpaddle_sink::relation::position::{Continuation, Mutation, MutationKind, Position};
use dogpaddle_sink::sqlite::state::{PendingState, PendingStateCodecError};

const DONE_TAG: u8 = 0;

#[test]
fn stable_v1_golden_bytes_round_trip() {
    let cases = [
        (PendingState::Initialize, vec![0, 1, 0]),
        (
            PendingState::Prepare {
                position: Position {
                    row_index: 2,
                    remaining: 3,
                },
            },
            vec![0, 1, 1, 0, 0, 0, 0, 0, 0, 0, 2, 0, 0, 0, 0, 0, 0, 0, 3],
        ),
        (
            PendingState::Apply {
                start_position: Position {
                    row_index: 4,
                    remaining: 2,
                },
                continuation: Continuation::Done,
                mutations: vec![
                    Mutation {
                        kind: MutationKind::Insert,
                        row_index: 4,
                        technical_id: 9,
                    },
                    Mutation {
                        kind: MutationKind::Insert,
                        row_index: 4,
                        technical_id: 10,
                    },
                    Mutation {
                        kind: MutationKind::Delete,
                        row_index: 5,
                        technical_id: 7,
                    },
                ],
            },
            vec![
                0, 1, 2, // format and Apply
                0, 0, 0, 0, 0, 0, 0, 4, // start row
                0, 0, 0, 0, 0, 0, 0, 2, // start remaining
                0, // Done
                0, 3, // mutation count
                0, 0, 0, 0, 0, 0, 0, 0, 4, 0, 0, 0, 0, 0, 0, 0, 9, // insert
                0, 0, 0, 0, 0, 0, 0, 0, 4, 0, 0, 0, 0, 0, 0, 0, 10, // insert
                1, 0, 0, 0, 0, 0, 0, 0, 5, 0, 0, 0, 0, 0, 0, 0, 7, // delete
            ],
        ),
    ];

    for (state, golden) in cases {
        assert_eq!(state.encode().unwrap(), golden);
        assert_eq!(PendingState::decode(&golden).unwrap(), state);
    }
}

#[test]
fn every_truncated_golden_prefix_is_rejected() {
    let state = PendingState::Apply {
        start_position: Position {
            row_index: 0,
            remaining: 1,
        },
        continuation: Continuation::Done,
        mutations: vec![Mutation {
            kind: MutationKind::Insert,
            row_index: 0,
            technical_id: 1,
        }],
    };
    let encoded = state.encode().unwrap();
    for length in 0..encoded.len() {
        assert_eq!(
            PendingState::decode(&encoded[..length]),
            Err(PendingStateCodecError::Truncated),
            "accepted prefix of length {length}"
        );
    }
}

#[test]
fn decoder_rejects_tags_versions_and_trailing_bytes() {
    assert_eq!(
        PendingState::decode(&[0, 2, 0]),
        Err(PendingStateCodecError::UnsupportedVersion(2))
    );
    assert_eq!(
        PendingState::decode(&[0, 1, 3]),
        Err(PendingStateCodecError::UnknownStateTag(3))
    );
    assert_eq!(
        PendingState::decode(&[0, 1, 0, 0]),
        Err(PendingStateCodecError::TrailingBytes)
    );

    let mut invalid_continuation = apply_prefix();
    invalid_continuation.push(2);
    assert_eq!(
        PendingState::decode(&invalid_continuation),
        Err(PendingStateCodecError::UnknownContinuationTag(2))
    );

    let mut invalid_kind = apply_prefix();
    invalid_kind.extend_from_slice(&[DONE_TAG, 0, 1, 2]);
    assert_eq!(
        PendingState::decode(&invalid_kind),
        Err(PendingStateCodecError::UnknownMutationKindTag(2))
    );
}

#[test]
fn codec_rejects_invalid_positions_counts_and_ids() {
    let zero_remaining = PendingState::Prepare {
        position: Position {
            row_index: 0,
            remaining: 0,
        },
    };
    assert_eq!(
        zero_remaining.encode(),
        Err(PendingStateCodecError::ZeroRemaining)
    );

    let empty = PendingState::Apply {
        start_position: Position {
            row_index: 0,
            remaining: 1,
        },
        continuation: Continuation::Done,
        mutations: Vec::new(),
    };
    assert_eq!(
        empty.encode(),
        Err(PendingStateCodecError::EmptyMutationBatch)
    );

    for technical_id in [0, MAX_TECHNICAL_ID + 1] {
        let invalid_id = PendingState::Apply {
            start_position: Position {
                row_index: 0,
                remaining: 1,
            },
            continuation: Continuation::Done,
            mutations: vec![Mutation {
                kind: MutationKind::Insert,
                row_index: 0,
                technical_id,
            }],
        };
        assert_eq!(
            invalid_id.encode(),
            Err(PendingStateCodecError::InvalidTechnicalId(technical_id))
        );
    }

    let too_many = PendingState::Apply {
        start_position: Position {
            row_index: 0,
            remaining: u64::try_from(MAX_MUTATIONS_PER_BATCH + 1).unwrap(),
        },
        continuation: Continuation::Done,
        mutations: vec![
            Mutation {
                kind: MutationKind::Insert,
                row_index: 0,
                technical_id: 1,
            };
            MAX_MUTATIONS_PER_BATCH + 1
        ],
    };
    assert_eq!(
        too_many.encode(),
        Err(PendingStateCodecError::TooManyMutations(
            MAX_MUTATIONS_PER_BATCH + 1
        ))
    );
}

#[test]
fn decoder_revalidates_counts_positions_and_ids() {
    let mut zero_remaining = PendingState::Prepare {
        position: Position {
            row_index: 0,
            remaining: 1,
        },
    }
    .encode()
    .unwrap();
    zero_remaining[11..19].fill(0);
    assert_eq!(
        PendingState::decode(&zero_remaining),
        Err(PendingStateCodecError::ZeroRemaining)
    );

    let mut empty_batch = apply_prefix();
    empty_batch.extend_from_slice(&[DONE_TAG, 0, 0]);
    assert_eq!(
        PendingState::decode(&empty_batch),
        Err(PendingStateCodecError::EmptyMutationBatch)
    );

    let mut oversized_batch = apply_prefix();
    oversized_batch.push(DONE_TAG);
    let oversized_count = u16::try_from(MAX_MUTATIONS_PER_BATCH + 1)
        .unwrap()
        .to_be_bytes();
    oversized_batch.extend_from_slice(&oversized_count);
    assert_eq!(
        PendingState::decode(&oversized_batch),
        Err(PendingStateCodecError::TooManyMutations(
            MAX_MUTATIONS_PER_BATCH + 1
        ))
    );

    let valid = PendingState::Apply {
        start_position: Position {
            row_index: 0,
            remaining: 1,
        },
        continuation: Continuation::Done,
        mutations: vec![insert(0, 1)],
    };
    let mut zero_id = valid.encode().unwrap();
    let id_offset = zero_id.len() - std::mem::size_of::<u64>();
    zero_id[id_offset..].fill(0);
    assert_eq!(
        PendingState::decode(&zero_id),
        Err(PendingStateCodecError::InvalidTechnicalId(0))
    );
}

#[test]
fn codec_rejects_noncanonical_apply_sequences() {
    assert_apply_error(
        Position {
            row_index: 1,
            remaining: 1,
        },
        Continuation::Done,
        vec![insert(2, 1)],
        PendingStateCodecError::FirstMutationRowMismatch,
    );
    assert_apply_error(
        Position {
            row_index: 1,
            remaining: 1,
        },
        Continuation::Done,
        vec![insert(1, 1), insert(3, 2)],
        PendingStateCodecError::NonContiguousMutationRows,
    );
    assert_apply_error(
        Position {
            row_index: 1,
            remaining: 2,
        },
        Continuation::Done,
        vec![insert(1, 1), delete(1, 2)],
        PendingStateCodecError::MixedMutationKinds,
    );
    assert_apply_error(
        Position {
            row_index: 1,
            remaining: 2,
        },
        Continuation::Done,
        vec![insert(1, 1), insert(1, 3)],
        PendingStateCodecError::NonConsecutiveInsertIds,
    );
    assert_apply_error(
        Position {
            row_index: 1,
            remaining: 2,
        },
        Continuation::Done,
        vec![delete(1, 2), delete(1, 1)],
        PendingStateCodecError::NonIncreasingDeleteIds,
    );
    assert_apply_error(
        Position {
            row_index: 1,
            remaining: 1,
        },
        Continuation::Done,
        vec![delete(1, 1), delete(2, 1)],
        PendingStateCodecError::DuplicateDeleteId,
    );
    assert_apply_error(
        Position {
            row_index: 1,
            remaining: 1,
        },
        Continuation::Done,
        vec![insert(1, 1), insert(1, 2)],
        PendingStateCodecError::StartRemainderExceeded,
    );
    assert_apply_error(
        Position {
            row_index: 1,
            remaining: 2,
        },
        Continuation::Done,
        vec![insert(1, 1)],
        PendingStateCodecError::InvalidContinuation,
    );
    assert_apply_error(
        Position {
            row_index: 1,
            remaining: 1,
        },
        Continuation::Position(Position {
            row_index: 2,
            remaining: 1,
        }),
        vec![insert(1, 1)],
        PendingStateCodecError::InvalidContinuation,
    );
}

#[test]
fn full_batch_can_continue_within_a_row() {
    let batch_size = u64::try_from(MAX_MUTATIONS_PER_BATCH).unwrap();
    let mutations = (1..=batch_size)
        .map(|technical_id| insert(7, technical_id))
        .collect::<Vec<_>>();
    let state = PendingState::Apply {
        start_position: Position {
            row_index: 7,
            remaining: batch_size + 3,
        },
        continuation: Continuation::Position(Position {
            row_index: 7,
            remaining: 3,
        }),
        mutations,
    };

    let encoded = state.encode().unwrap();
    assert_eq!(PendingState::decode(&encoded).unwrap(), state);
}

fn apply_prefix() -> Vec<u8> {
    let mut encoded = vec![0, 1, 2];
    encoded.extend_from_slice(&0_u64.to_be_bytes());
    encoded.extend_from_slice(&1_u64.to_be_bytes());
    encoded
}

fn insert(row_index: u64, technical_id: u64) -> Mutation {
    Mutation {
        kind: MutationKind::Insert,
        row_index,
        technical_id,
    }
}

fn delete(row_index: u64, technical_id: u64) -> Mutation {
    Mutation {
        kind: MutationKind::Delete,
        row_index,
        technical_id,
    }
}

fn assert_apply_error(
    start_position: Position,
    continuation: Continuation,
    mutations: Vec<Mutation>,
    expected: PendingStateCodecError,
) {
    let state = PendingState::Apply {
        start_position,
        continuation,
        mutations,
    };
    assert_eq!(state.encode(), Err(expected));
}
