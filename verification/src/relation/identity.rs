//! The identity of rows: canonical bytes tell rows apart exactly by their values.

use crate::bytes::{be_bytes, byte_range, twos_complement};
use crate::bytes::{lemma_be_bytes_len, lemma_be_round_trip, lemma_byte_ranges};
use crate::change::{FieldModel, RecordBatch, TypeModel, ValueModel};
use crate::relation::row::{
    canonical, canonical_bytes, canonical_children, canonical_fault, child_field, child_path,
    children, children_fault, row_bytes, row_fault, shape_fits, value_fault,
};
use crate::text::byte_len;
use vstd::prelude::*;
use vstd::utf8::{encode_utf8, encode_utf8_decode_utf8};

verus! {

/// Whether the lengths in a value can be counted in eight bytes, as they can in memory.
pub open spec fn measured(value: ValueModel) -> bool
    decreases value,
{
    match value {
        ValueModel::Utf8(text) => byte_len(text) <= u64::MAX,
        ValueModel::Binary(bytes) => bytes.len() <= u64::MAX,
        ValueModel::List(values) => values.len() <= u64::MAX && forall|i: int|
            0 <= i < values.len() ==> measured(#[trigger] values[i]),
        ValueModel::Struct(values) => forall|i: int|
            0 <= i < values.len() ==> measured(#[trigger] values[i]),
        _ => true,
    }
}

/// Numbers of one width that are followed by something are told apart.
proof fn lemma_number_prefix(left: nat, right: nat, width: nat, s: Seq<u8>, t: Seq<u8>)
    requires
        left < byte_range(width),
        right < byte_range(width),
        seq![1u8] + be_bytes(left, width) + s == seq![1u8] + be_bytes(right, width) + t,
    ensures
        left == right,
        s == t,
{
    broadcast use lemma_be_bytes_len;

    let a = seq![1u8] + be_bytes(left, width) + s;
    let b = seq![1u8] + be_bytes(right, width) + t;
    let end = 1 + width as int;
    assert(a.subrange(1, end) =~= be_bytes(left, width));
    assert(b.subrange(1, end) =~= be_bytes(right, width));
    lemma_be_round_trip(left, width);
    lemma_be_round_trip(right, width);
    assert(a.skip(end) =~= s);
    assert(b.skip(end) =~= t);
}

/// Signed numbers are told apart by their complements.
proof fn lemma_complement(left: int, right: int, width: nat, bound: int)
    requires
        2 * bound == byte_range(width),
        -bound <= left < bound,
        -bound <= right < bound,
    ensures
        twos_complement(left, width) < byte_range(width),
        twos_complement(right, width) < byte_range(width),
        twos_complement(left, width) == twos_complement(right, width) ==> left == right,
{
}

/// Signed numbers of one width that are followed by something are told apart.
proof fn lemma_signed_prefix(
    left: int,
    right: int,
    width: nat,
    bound: int,
    s: Seq<u8>,
    t: Seq<u8>,
)
    requires
        2 * bound == byte_range(width),
        -bound <= left < bound,
        -bound <= right < bound,
        seq![1u8] + be_bytes(twos_complement(left, width), width) + s == seq![1u8] + be_bytes(
            twos_complement(right, width),
            width,
        ) + t,
    ensures
        left == right,
        s == t,
{
    lemma_complement(left, right, width, bound);
    lemma_number_prefix(
        twos_complement(left, width),
        twos_complement(right, width),
        width,
        s,
        t,
    );
}

/// Bytes behind their length that are followed by something are told apart.
proof fn lemma_bytes_prefix(left: Seq<u8>, right: Seq<u8>, s: Seq<u8>, t: Seq<u8>)
    requires
        left.len() <= u64::MAX,
        right.len() <= u64::MAX,
        seq![1u8] + be_bytes(left.len(), 8) + left + s == seq![1u8] + be_bytes(right.len(), 8)
            + right + t,
    ensures
        left == right,
        s == t,
{
    lemma_byte_ranges();
    let a = seq![1u8] + be_bytes(left.len(), 8) + left + s;
    let b = seq![1u8] + be_bytes(right.len(), 8) + right + t;
    assert(a =~= seq![1u8] + be_bytes(left.len(), 8) + (left + s));
    assert(b =~= seq![1u8] + be_bytes(right.len(), 8) + (right + t));
    lemma_number_prefix(left.len(), right.len(), 8, left + s, right + t);
    assert((left + s).take(left.len() as int) =~= left);
    assert((right + t).take(right.len() as int) =~= right);
    assert((left + s).skip(left.len() as int) =~= s);
    assert((right + t).skip(right.len() as int) =~= t);
}

/// The first byte tells whether a value is null.
proof fn lemma_marker(value: ValueModel)
    ensures
        canonical(value).len() > 0,
        canonical(value)[0] == (if value is Null {
            0u8
        } else {
            1u8
        }),
{
}

/// Children one behind the other that are followed by something are told apart.
proof fn lemma_children_prefix(
    data_type: TypeModel,
    left: ValueModel,
    right: ValueModel,
    left_path: Seq<char>,
    right_path: Seq<char>,
    count: nat,
    s: Seq<u8>,
    t: Seq<u8>,
)
    requires
        count <= children(left).len(),
        count <= children(right).len(),
        measured(left),
        measured(right),
        children_fault(data_type, left, left_path, count) is None,
        children_fault(data_type, right, right_path, count) is None,
        canonical_children(left, count) + s == canonical_children(right, count) + t,
    ensures
        children(left).take(count as int) == children(right).take(count as int),
        s == t,
    decreases left, 0nat, count,
{
    if count > 0 {
        let before = (count - 1) as nat;
        let a = children(left)[before as int];
        let b = children(right)[before as int];
        let child = child_field(data_type, before as int);
        assert(canonical_children(left, count) + s =~= canonical_children(left, before) + (
        canonical(a) + s));
        assert(canonical_children(right, count) + t =~= canonical_children(right, before) + (
        canonical(b) + t));
        lemma_children_prefix(
            data_type,
            left,
            right,
            left_path,
            right_path,
            before,
            canonical(a) + s,
            canonical(b) + t,
        );
        lemma_canonical_prefix(
            child,
            a,
            b,
            child_path(left_path, child.name),
            child_path(right_path, child.name),
            s,
            t,
        );
        assert(children(left).take(count as int) =~= children(left).take(before as int).push(a));
        assert(children(right).take(count as int) =~= children(right).take(before as int).push(b));
    } else {
        assert(canonical_children(left, count) + s =~= s);
        assert(canonical_children(right, count) + t =~= t);
        assert(children(left).take(0) =~= children(right).take(0));
    }
}

/// Values of one field that are followed by something are told apart.
proof fn lemma_canonical_prefix(
    field: FieldModel,
    left: ValueModel,
    right: ValueModel,
    left_path: Seq<char>,
    right_path: Seq<char>,
    s: Seq<u8>,
    t: Seq<u8>,
)
    requires
        measured(left),
        measured(right),
        value_fault(field, left, left_path) is None,
        value_fault(field, right, right_path) is None,
        canonical(left) + s == canonical(right) + t,
    ensures
        left == right,
        s == t,
    decreases left, 2nat, 0nat,
{
    lemma_marker(left);
    lemma_marker(right);
    assert((canonical(left) + s)[0] == canonical(left)[0]);
    assert((canonical(right) + t)[0] == canonical(right)[0]);
    if left is Null {
        assert((canonical(left) + s).skip(1) =~= s);
        assert((canonical(right) + t).skip(1) =~= t);
    } else {
        assert(shape_fits(field.data_type, left));
        assert(shape_fits(field.data_type, right));
        lemma_present_prefix(field, left, right, left_path, right_path, s, t);
    }
}

/// Present values of one field that are followed by something are told apart.
#[verifier::spinoff_prover]
#[verifier::rlimit(40)]
proof fn lemma_present_prefix(
    field: FieldModel,
    left: ValueModel,
    right: ValueModel,
    left_path: Seq<char>,
    right_path: Seq<char>,
    s: Seq<u8>,
    t: Seq<u8>,
)
    requires
        measured(left),
        measured(right),
        shape_fits(field.data_type, left),
        shape_fits(field.data_type, right),
        children_fault(field.data_type, left, left_path, children(left).len()) is None,
        children_fault(field.data_type, right, right_path, children(right).len()) is None,
        canonical(left) + s == canonical(right) + t,
    ensures
        left == right,
        s == t,
    decreases left, 1nat, 0nat,
{
    lemma_byte_ranges();
    match (left, right) {
        (ValueModel::Boolean(a), ValueModel::Boolean(b)) => {
            assert((canonical(left) + s)[1] == canonical(left)[1]);
            assert((canonical(right) + t)[1] == canonical(right)[1]);
            assert((canonical(left) + s).skip(2) =~= s);
            assert((canonical(right) + t).skip(2) =~= t);
        },
        (ValueModel::Int8(a), ValueModel::Int8(b)) => {
            lemma_signed_prefix(a as int, b as int, 1, 0x80, s, t);
        },
        (ValueModel::Int16(a), ValueModel::Int16(b)) => {
            lemma_signed_prefix(a as int, b as int, 2, 0x8000, s, t);
        },
        (ValueModel::Int32(a), ValueModel::Int32(b)) => {
            lemma_signed_prefix(a as int, b as int, 4, 0x8000_0000, s, t);
        },
        (ValueModel::Int64(a), ValueModel::Int64(b)) => {
            lemma_signed_prefix(a as int, b as int, 8, 0x8000_0000_0000_0000, s, t);
        },
        (ValueModel::UInt8(a), ValueModel::UInt8(b)) => {
            lemma_number_prefix(a as nat, b as nat, 1, s, t);
        },
        (ValueModel::UInt16(a), ValueModel::UInt16(b)) => {
            lemma_number_prefix(a as nat, b as nat, 2, s, t);
        },
        (ValueModel::UInt32(a), ValueModel::UInt32(b)) => {
            lemma_number_prefix(a as nat, b as nat, 4, s, t);
        },
        (ValueModel::UInt64(a), ValueModel::UInt64(b)) => {
            lemma_number_prefix(a as nat, b as nat, 8, s, t);
        },
        (ValueModel::Float32(a), ValueModel::Float32(b)) => {
            lemma_number_prefix(a as nat, b as nat, 4, s, t);
        },
        (ValueModel::Float64(a), ValueModel::Float64(b)) => {
            lemma_number_prefix(a as nat, b as nat, 8, s, t);
        },
        (ValueModel::Date32(a), ValueModel::Date32(b)) => {
            lemma_signed_prefix(a as int, b as int, 4, 0x8000_0000, s, t);
        },
        (ValueModel::Timestamp(a), ValueModel::Timestamp(b)) => {
            lemma_signed_prefix(a as int, b as int, 8, 0x8000_0000_0000_0000, s, t);
        },
        (ValueModel::Decimal128(a), ValueModel::Decimal128(b)) => {
            lemma_signed_prefix(
                a as int,
                b as int,
                16,
                (0x8000_0000_0000_0000 * 0x1_0000_0000_0000_0000) as int,
                s,
                t,
            );
        },
        (ValueModel::Utf8(a), ValueModel::Utf8(b)) => {
            lemma_bytes_prefix(encode_utf8(a), encode_utf8(b), s, t);
            encode_utf8_decode_utf8(a);
            encode_utf8_decode_utf8(b);
        },
        (ValueModel::Binary(a), ValueModel::Binary(b)) => {
            lemma_bytes_prefix(a, b, s, t);
        },
        (ValueModel::List(a), ValueModel::List(b)) => {
            let first = canonical_children(left, a.len());
            let second = canonical_children(right, b.len());
            assert(canonical(left) + s =~= seq![1u8] + be_bytes(a.len(), 8) + (first + s));
            assert(canonical(right) + t =~= seq![1u8] + be_bytes(b.len(), 8) + (second + t));
            lemma_number_prefix(a.len(), b.len(), 8, first + s, second + t);
            lemma_children_prefix(
                field.data_type,
                left,
                right,
                left_path,
                right_path,
                a.len(),
                s,
                t,
            );
            assert(a.take(a.len() as int) =~= a);
            assert(b.take(b.len() as int) =~= b);
        },
        (ValueModel::Struct(a), ValueModel::Struct(b)) => {
            let first = canonical_children(left, a.len());
            let second = canonical_children(right, b.len());
            assert((canonical(left) + s).skip(1) =~= first + s);
            assert((canonical(right) + t).skip(1) =~= second + t);
            lemma_children_prefix(
                field.data_type,
                left,
                right,
                left_path,
                right_path,
                a.len(),
                s,
                t,
            );
            assert(a.take(a.len() as int) =~= a);
            assert(b.take(b.len() as int) =~= b);
        },
        _ => {},
    }
}

/// Whether the lengths in a row can be counted in eight bytes, as they can in memory.
pub open spec fn row_measured(batch: RecordBatch, index: int) -> bool {
    forall|c: int|
        0 <= c < batch.columns@.len() ==> measured(
            (#[trigger] batch.columns@[c]).values@[index]@,
        )
}

/// Whether two rows have the same values.
pub open spec fn same_values(
    left: RecordBatch,
    left_index: int,
    right: RecordBatch,
    right_index: int,
    columns: nat,
) -> bool {
    forall|c: int|
        0 <= c < columns ==> (#[trigger] left.columns@[c]).values@[left_index]@
            == right.columns@[c].values@[right_index]@
}

proof fn lemma_rows_prefix(
    left: RecordBatch,
    left_index: int,
    right: RecordBatch,
    right_index: int,
    columns: nat,
    s: Seq<u8>,
    t: Seq<u8>,
)
    requires
        left.wf(),
        right.wf(),
        left.schema@ == right.schema@,
        columns <= left.columns@.len(),
        columns <= right.columns@.len(),
        0 <= left_index < left.rows,
        0 <= right_index < right.rows,
        row_fault(left, left_index, columns) is None,
        row_fault(right, right_index, columns) is None,
        row_measured(left, left_index),
        row_measured(right, right_index),
        row_bytes(left, left_index, columns) + s == row_bytes(right, right_index, columns) + t,
    ensures
        same_values(left, left_index, right, right_index, columns),
        s == t,
    decreases columns,
{
    if columns > 0 {
        let before = (columns - 1) as nat;
        let field = left.schema@.fields[before as int];
        let a = left.columns@[before as int].values@[left_index]@;
        let b = right.columns@[before as int].values@[right_index]@;
        assert(row_bytes(left, left_index, columns) + s =~= row_bytes(left, left_index, before) + (
        canonical(a) + s));
        assert(row_bytes(right, right_index, columns) + t =~= row_bytes(
            right,
            right_index,
            before,
        ) + (canonical(b) + t));
        lemma_rows_prefix(
            left,
            left_index,
            right,
            right_index,
            before,
            canonical(a) + s,
            canonical(b) + t,
        );
        assert(measured(left.columns@[before as int].values@[left_index]@));
        assert(measured(right.columns@[before as int].values@[right_index]@));
        lemma_canonical_prefix(field, a, b, field.name, field.name, s, t);
    } else {
        assert(row_bytes(left, left_index, columns) + s =~= s);
        assert(row_bytes(right, right_index, columns) + t =~= t);
    }
}

proof fn lemma_same_bytes(
    left: RecordBatch,
    left_index: int,
    right: RecordBatch,
    right_index: int,
    columns: nat,
)
    requires
        columns <= left.columns@.len(),
        columns <= right.columns@.len(),
        same_values(left, left_index, right, right_index, columns),
    ensures
        row_bytes(left, left_index, columns) == row_bytes(right, right_index, columns),
    decreases columns,
{
    if columns > 0 {
        lemma_same_bytes(left, left_index, right, right_index, (columns - 1) as nat);
        assert(left.columns@[columns - 1].values@[left_index]@
            == right.columns@[columns - 1].values@[right_index]@);
    }
}

/// Two rows of one schema have the same canonical bytes exactly where all their values are the
/// same: floating-point numbers by their bits, texts by their characters, nested values by
/// their parts.
pub proof fn law_row_identity_is_exact(
    left: RecordBatch,
    left_index: int,
    right: RecordBatch,
    right_index: int,
)
    requires
        left.wf(),
        right.wf(),
        left.schema@ == right.schema@,
        0 <= left_index < left.rows,
        0 <= right_index < right.rows,
        canonical_fault(left, left_index) is None,
        canonical_fault(right, right_index) is None,
        row_measured(left, left_index),
        row_measured(right, right_index),
    ensures
        canonical_bytes(left, left_index) == canonical_bytes(right, right_index) <==> same_values(
            left,
            left_index,
            right,
            right_index,
            left.columns@.len(),
        ),
{
    let columns = left.columns@.len();
    assert(left.schema@.fields.len() == left.schema.fields@.len());
    assert(right.schema@.fields.len() == right.schema.fields@.len());
    if canonical_bytes(left, left_index) == canonical_bytes(right, right_index) {
        let empty = Seq::<u8>::empty();
        lemma_rows_prefix(left, left_index, right, right_index, columns, empty, empty);
    }
    if same_values(left, left_index, right, right_index, columns) {
        lemma_same_bytes(left, left_index, right, right_index, columns);
    }
}

/// Two values of one field have the same canonical bytes exactly where they are the same, and
/// the bytes of neither are a part of the bytes of the other that lacks its end.
pub proof fn law_value_identity_is_exact(
    field: FieldModel,
    left: ValueModel,
    right: ValueModel,
    left_path: Seq<char>,
    right_path: Seq<char>,
)
    requires
        value_fault(field, left, left_path) is None,
        value_fault(field, right, right_path) is None,
        measured(left),
        measured(right),
    ensures
        canonical(left) == canonical(right) <==> left == right,
        canonical(left).is_prefix_of(canonical(right)) ==> left == right,
{
    if canonical(left).is_prefix_of(canonical(right)) {
        let rest = canonical(right).skip(canonical(left).len() as int);
        let empty = Seq::<u8>::empty();
        assert(canonical(left) + rest =~= canonical(right) + empty);
        lemma_canonical_prefix(field, left, right, left_path, right_path, rest, empty);
    }
    if canonical(left) == canonical(right) {
        assert(canonical(left).is_prefix_of(canonical(right)));
    }
}

} // verus!
