//! Big-endian integers and bounded reading of byte sequences.

use vstd::prelude::*;

verus! {

/// The `width` low bytes of `value`, most significant first.
pub open spec fn be_bytes(value: nat, width: nat) -> Seq<u8>
    decreases width,
{
    if width == 0 {
        Seq::empty()
    } else {
        be_bytes(value / 256, (width - 1) as nat).push((value % 256) as u8)
    }
}

/// The number that `bytes` spell, most significant first.
pub open spec fn be_value(bytes: Seq<u8>) -> nat
    decreases bytes.len(),
{
    if bytes.len() == 0 {
        0
    } else {
        be_value(bytes.drop_last()) * 256 + bytes.last() as nat
    }
}

/// `256` to the power of `width`.
pub open spec fn byte_range(width: nat) -> nat
    decreases width,
{
    if width == 0 {
        1
    } else {
        256 * byte_range((width - 1) as nat)
    }
}

/// The two's complement of `value` in `width` bytes, as a natural number.
pub open spec fn twos_complement(value: int, width: nat) -> nat {
    if value < 0 {
        (value + byte_range(width)) as nat
    } else {
        value as nat
    }
}

pub broadcast proof fn lemma_be_bytes_len(value: nat, width: nat)
    ensures
        #[trigger] be_bytes(value, width).len() == width,
    decreases width,
{
    if width > 0 {
        lemma_be_bytes_len(value / 256, (width - 1) as nat);
    }
}

/// Reading back what was written gives the number, where it fits the width.
pub broadcast proof fn lemma_be_round_trip(value: nat, width: nat)
    requires
        value < byte_range(width),
    ensures
        be_value(#[trigger] be_bytes(value, width)) == value,
    decreases width,
{
    if width > 0 {
        let low = (width - 1) as nat;
        assert(value / 256 < byte_range(low)) by (nonlinear_arith)
            requires
                value < 256 * byte_range(low),
        ;
        lemma_be_round_trip(value / 256, low);
        let bytes = be_bytes(value, width);
        assert(bytes.drop_last() =~= be_bytes(value / 256, low));
    }
}

pub broadcast proof fn lemma_be_value_bound(bytes: Seq<u8>)
    ensures
        #[trigger] be_value(bytes) < byte_range(bytes.len()),
    decreases bytes.len(),
{
    if bytes.len() > 0 {
        lemma_be_value_bound(bytes.drop_last());
    }
}

/// Writing back what was read gives the same bytes.
pub proof fn lemma_be_value_inverse(bytes: Seq<u8>)
    ensures
        be_bytes(be_value(bytes), bytes.len()) == bytes,
    decreases bytes.len(),
{
    if bytes.len() > 0 {
        let high = be_value(bytes.drop_last());
        let value = be_value(bytes);
        assert(value / 256 == high && value % 256 == bytes.last() as nat) by (nonlinear_arith)
            requires
                value == high * 256 + bytes.last() as nat,
                (bytes.last() as nat) < 256,
        ;
        lemma_be_value_inverse(bytes.drop_last());
        assert(be_bytes(value, bytes.len()) =~= bytes);
    } else {
        assert(be_bytes(be_value(bytes), bytes.len()) =~= bytes);
    }
}

pub proof fn lemma_byte_ranges()
    ensures
        byte_range(1) == 0x100,
        byte_range(2) == 0x1_0000,
        byte_range(4) == 0x1_0000_0000,
        byte_range(8) == 0x1_0000_0000_0000_0000,
        byte_range(16) == 0x1_0000_0000_0000_0000 * 0x1_0000_0000_0000_0000,
{
    reveal_with_fuel(byte_range, 17);
}

/// Appends `value` in `width` bytes, most significant first.
pub fn push_be(output: &mut Vec<u8>, value: u128, width: u8)
    ensures
        final(output)@ == old(output)@ + be_bytes(value as nat, width as nat),
    decreases width,
{
    if width > 0 {
        push_be(output, value / 256, width - 1);
        output.push((value % 256) as u8);
    }
    assert(output@ =~= old(output)@ + be_bytes(value as nat, width as nat));
}

/// The two's complement of `value` in sixteen bytes.
pub fn complement_i128(value: i128) -> (result: u128)
    ensures
        result as nat == twos_complement(value as int, 16),
{
    proof {
        lemma_byte_ranges();
    }
    if value < 0 {
        let offset: u128 = (value - i128::MIN) as u128;
        offset + 0x8000_0000_0000_0000_0000_0000_0000_0000
    } else {
        value as u128
    }
}

/// Appends all of `bytes`.
pub fn push_all(output: &mut Vec<u8>, bytes: &[u8])
    ensures
        final(output)@ == old(output)@ + bytes@,
{
    let mut index: usize = 0;
    while index < bytes.len()
        invariant
            index <= bytes@.len(),
            output@ == old(output)@ + bytes@.subrange(0, index as int),
        decreases bytes@.len() - index,
    {
        output.push(bytes[index]);
        index += 1;
        assert(output@ =~= old(output)@ + bytes@.subrange(0, index as int));
    }
    assert(output@ =~= old(output)@ + bytes@);
}

/// A copy of `bytes`.
pub fn copy_bytes(bytes: &[u8]) -> (copy: Vec<u8>)
    ensures
        copy@ == bytes@,
{
    let mut copy: Vec<u8> = Vec::new();
    push_all(&mut copy, bytes);
    assert(copy@ =~= bytes@);
    copy
}

/// Whether two byte strings are equal.
pub fn same_bytes(left: &[u8], right: &[u8]) -> (same: bool)
    ensures
        same == (left@ == right@),
{
    if left.len() != right.len() {
        return false;
    }
    let mut index: usize = 0;
    while index < left.len()
        invariant
            index <= left@.len(),
            left@.len() == right@.len(),
            forall|i: int| 0 <= i < index ==> left@[i] == right@[i],
        decreases left@.len() - index,
    {
        if left[index] != right[index] {
            return false;
        }
        index += 1;
    }
    assert(left@ =~= right@);
    true
}

/// The number in the eight bytes at `offset`.
pub open spec fn number_at(bytes: Seq<u8>, offset: int) -> u64 {
    be_value(bytes.subrange(offset, offset + 8)) as u64
}

/// A number stands at the same place, seen from further on.
pub proof fn lemma_number_after(rest: Seq<u8>, offset: int, more: int)
    requires
        0 <= offset,
        0 <= more,
        offset + more + 8 <= rest.len(),
    ensures
        number_at(rest.skip(offset), more) == number_at(rest, offset + more),
{
    assert(rest.skip(offset).subrange(more, more + 8) =~= rest.subrange(
        offset + more,
        offset + more + 8,
    ));
}

/// A reader over a byte string that never moves past its end.
pub struct Cursor<'a> {
    pub bytes: &'a [u8],
    pub offset: usize,
}

impl<'a> Cursor<'a> {
    pub open spec fn wf(&self) -> bool {
        self.offset <= self.bytes@.len()
    }

    /// What has not been read yet.
    pub open spec fn rest(&self) -> Seq<u8> {
        self.bytes@.skip(self.offset as int)
    }

    pub fn new(bytes: &'a [u8]) -> (cursor: Self)
        ensures
            cursor.wf(),
            cursor.bytes == bytes,
            cursor.rest() == bytes@,
    {
        assert(bytes@.skip(0) =~= bytes@);
        Cursor { bytes, offset: 0 }
    }

    /// Reads a big-endian number of `width` bytes, or nothing where fewer remain.
    pub fn read_be(&mut self, width: u8) -> (value: Option<u128>)
        requires
            old(self).wf(),
            width <= 16,
        ensures
            final(self).wf(),
            final(self).bytes == old(self).bytes,
            value is Some <==> old(self).rest().len() >= width,
            value is Some ==> {
                &&& value->0 as nat == be_value(old(self).rest().take(width as int))
                &&& (value->0 as nat) < byte_range(width as nat)
                &&& final(self).rest() == old(self).rest().skip(width as int)
            },
            value is None ==> *final(self) == *old(self),
    {
        if self.bytes.len() - self.offset < width as usize {
            return None;
        }
        let ghost rest = self.rest();
        let ghost whole = self.bytes@;
        let start: usize = self.offset;
        let total: usize = self.bytes.len();
        let mut value: u128 = 0;
        let mut index: u8 = 0;
        while index < width
            invariant
                index <= width <= 16,
                whole == self.bytes@,
                start == self.offset,
                start + width <= total,
                total == whole.len(),
                rest == whole.skip(start as int),
                value as nat == be_value(rest.take(index as int)),
                (value as nat) < byte_range(index as nat),
            decreases width - index,
        {
            proof {
                reveal_with_fuel(byte_range, 17);
                assert(rest.take(index + 1).drop_last() =~= rest.take(index as int));
                lemma_be_value_bound(rest.take(index + 1));
            }
            let byte: u8 = self.bytes[start + index as usize];
            assert(value <= 0xff_ffff_ffff_ffff_ffff_ffff_ffff_ffff) by {
                reveal_with_fuel(byte_range, 17);
                assert(index <= 15);
                lemma_byte_range_monotone(index as nat, 15);
            }
            value = value * 256 + byte as u128;
            index += 1;
        }
        self.offset = start + width as usize;
        assert(whole.skip(start + width) =~= rest.skip(width as int));
        Some(value)
    }

    /// Reads `count` bytes, or nothing where fewer remain.
    pub fn read_bytes(&mut self, count: usize) -> (value: Option<Vec<u8>>)
        requires
            old(self).wf(),
        ensures
            final(self).wf(),
            final(self).bytes == old(self).bytes,
            value is Some <==> old(self).rest().len() >= count,
            value is Some ==> {
                &&& value->0@ == old(self).rest().take(count as int)
                &&& final(self).rest() == old(self).rest().skip(count as int)
            },
            value is None ==> *final(self) == *old(self),
    {
        if self.bytes.len() - self.offset < count {
            return None;
        }
        let ghost rest = self.rest();
        let start: usize = self.offset;
        let total: usize = self.bytes.len();
        let mut taken: Vec<u8> = Vec::new();
        let mut index: usize = 0;
        while index < count
            invariant
                index <= count,
                start == self.offset,
                start + count <= total,
                total == self.bytes@.len(),
                rest == self.bytes@.skip(start as int),
                taken@ == rest.take(index as int),
            decreases count - index,
        {
            taken.push(self.bytes[start + index]);
            index += 1;
            assert(taken@ =~= rest.take(index as int));
        }
        self.offset = start + count;
        assert(self.bytes@.skip(start + count) =~= rest.skip(count as int));
        Some(taken)
    }

    /// Reads one byte.
    pub fn read_u8(&mut self) -> (value: Option<u8>)
        requires
            old(self).wf(),
        ensures
            final(self).wf(),
            final(self).bytes == old(self).bytes,
            value is Some <==> old(self).rest().len() >= 1,
            value is Some ==> {
                &&& value->0 == old(self).rest()[0]
                &&& final(self).rest() == old(self).rest().skip(1)
            },
    {
        let ghost rest = self.rest();
        if self.offset == self.bytes.len() {
            return None;
        }
        let byte: u8 = self.bytes[self.offset];
        self.offset = self.offset + 1;
        assert(self.rest() =~= rest.skip(1));
        Some(byte)
    }

    /// Reads a number of two bytes.
    pub fn read_u16(&mut self) -> (value: Option<u16>)
        requires
            old(self).wf(),
        ensures
            final(self).wf(),
            final(self).bytes == old(self).bytes,
            value is Some <==> old(self).rest().len() >= 2,
            value is Some ==> {
                &&& value->0 == be_value(old(self).rest().subrange(0, 2))
                &&& final(self).rest() == old(self).rest().skip(2)
            },
    {
        let ghost rest = self.rest();
        proof {
            lemma_byte_ranges();
        }
        match self.read_be(2) {
            Some(value) => {
                assert(rest.take(2) =~= rest.subrange(0, 2));
                Some(value as u16)
            },
            None => None,
        }
    }

    /// Reads a number of eight bytes.
    pub fn read_u64(&mut self) -> (value: Option<u64>)
        requires
            old(self).wf(),
        ensures
            final(self).wf(),
            final(self).bytes == old(self).bytes,
            value is Some <==> old(self).rest().len() >= 8,
            value is Some ==> {
                &&& value->0 == number_at(old(self).rest(), 0)
                &&& final(self).rest() == old(self).rest().skip(8)
            },
    {
        let ghost rest = self.rest();
        proof {
            lemma_byte_ranges();
        }
        match self.read_be(8) {
            Some(value) => {
                assert(rest.take(8) =~= rest.subrange(0, 8));
                Some(value as u64)
            },
            None => None,
        }
    }

    pub fn at_end(&self) -> (end: bool)
        requires
            self.wf(),
        ensures
            end == (self.rest().len() == 0),
    {
        self.offset == self.bytes.len()
    }
}

pub proof fn lemma_byte_range_monotone(low: nat, high: nat)
    requires
        low <= high,
    ensures
        byte_range(low) <= byte_range(high),
    decreases high,
{
    if low < high {
        lemma_byte_range_monotone(low, (high - 1) as nat);
    }
}

} // verus!
