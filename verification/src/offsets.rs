//! The offset table of a value with parts of variable size. The fixed part
//! holds, in place of each such part, the position at which the part begins;
//! the parts follow the fixed part in order and without gaps.

use crate::ssz::{append_bytes, DeserializeError};
use vstd::bytes::{spec_u32_from_le_bytes, spec_u32_to_le_bytes, u32_from_le_bytes, u32_to_le_bytes};
use vstd::prelude::*;
use vstd::slice::slice_subrange;

verus! {

/// The number of bytes that an offset takes.
pub const BYTES_PER_LENGTH_OFFSET: usize = 4;

/// The offset that stands at position `at`: four bytes, little-endian.
pub open spec fn offset_at(bytes: Seq<u8>, at: int) -> nat {
    spec_u32_from_le_bytes(bytes.subrange(at, at + 4)) as nat
}

/// The offsets that stand at the given positions.
pub open spec fn offsets_of(bytes: Seq<u8>, positions: Seq<usize>) -> Seq<nat> {
    Seq::new(positions.len(), |i: int| offset_at(bytes, positions[i] as int))
}

/// What is wrong with the offset of part `i`, if anything: the first one
/// must point at the end of the fixed part, none may point before the one
/// before it, and none behind the end of the input.
pub open spec fn offset_error_at(offsets: Seq<nat>, fixed_len: nat, total: nat, i: int) -> Option<
    DeserializeError,
> {
    if i == 0 && offsets[0] != fixed_len {
        Some(
            DeserializeError::OffsetOutOfPlace {
                offset: offsets[0] as usize,
                expected: fixed_len as usize,
            },
        )
    } else if i > 0 && offsets[i - 1] > offsets[i] {
        Some(
            DeserializeError::OffsetNotIncreasing {
                start: offsets[i - 1] as usize,
                end: offsets[i] as usize,
            },
        )
    } else if offsets[i] > total {
        Some(
            DeserializeError::ExpectedFurtherInput {
                provided: total as usize,
                expected: offsets[i] as usize,
            },
        )
    } else {
        None
    }
}

/// The first thing that is wrong with the offsets from part `from` on.
pub open spec fn offsets_error(offsets: Seq<nat>, fixed_len: nat, total: nat, from: int) -> Option<
    DeserializeError,
>
    decreases offsets.len() - from,
{
    if from < 0 || from >= offsets.len() {
        None
    } else {
        match offset_error_at(offsets, fixed_len, total, from) {
            Some(error) => Some(error),
            None => offsets_error(offsets, fixed_len, total, from + 1),
        }
    }
}

/// Where the parts lie: each from its offset to the offset of the next,
/// the last to the end of the input.
pub open spec fn variable_ranges(offsets: Seq<nat>, total: nat) -> Seq<(nat, nat)> {
    Seq::new(
        offsets.len(),
        |i: int|
            (
                offsets[i],
                if i + 1 < offsets.len() {
                    offsets[i + 1]
                } else {
                    total
                },
            ),
    )
}

/// The ranges as pairs of numbers.
pub open spec fn ranges_view(ranges: Seq<(usize, usize)>) -> Seq<(nat, nat)> {
    Seq::new(ranges.len(), |i: int| (ranges[i].0 as nat, ranges[i].1 as nat))
}

/// Offsets with nothing wrong lay the parts out in order, without gap or
/// overlap, from the end of the fixed part to the end of the input.
pub proof fn lemma_valid_offsets_tile(offsets: Seq<nat>, fixed_len: nat, total: nat)
    requires
        offsets.len() > 0,
        offsets_error(offsets, fixed_len, total, 0) is None,
    ensures
        variable_ranges(offsets, total)[0].0 == fixed_len,
        variable_ranges(offsets, total).last().1 == total,
        forall|i: int|
            0 <= i < offsets.len() ==> (#[trigger] variable_ranges(offsets, total)[i]).0
                <= variable_ranges(offsets, total)[i].1 <= total,
        forall|i: int|
            0 <= i < offsets.len() - 1 ==> (#[trigger] variable_ranges(offsets, total)[i]).1
                == variable_ranges(offsets, total)[i + 1].0,
{
    lemma_no_error_from(offsets, fixed_len, total, 0);
    let ranges = variable_ranges(offsets, total);
    assert(offset_error_at(offsets, fixed_len, total, 0) is None);
    assert forall|i: int| 0 <= i < offsets.len() implies (#[trigger] ranges[i]).0 <= ranges[i].1
        <= total by {
        assert(offset_error_at(offsets, fixed_len, total, i) is None);
        if i + 1 < offsets.len() {
            assert(offset_error_at(offsets, fixed_len, total, i + 1) is None);
        }
    }
}

proof fn lemma_no_error_from(offsets: Seq<nat>, fixed_len: nat, total: nat, from: int)
    requires
        0 <= from <= offsets.len(),
        offsets_error(offsets, fixed_len, total, from) is None,
    ensures
        forall|i: int|
            from <= i < offsets.len() ==> (#[trigger] offset_error_at(
                offsets,
                fixed_len,
                total,
                i,
            )) is None,
    decreases offsets.len() - from,
{
    if from < offsets.len() {
        lemma_no_error_from(offsets, fixed_len, total, from + 1);
    }
}

/// Appends an offset to `buffer`.
pub fn write_offset(buffer: &mut Vec<u8>, offset: u32)
    ensures
        final(buffer)@ == old(buffer)@ + spec_u32_to_le_bytes(offset),
{
    let bytes = u32_to_le_bytes(offset);
    append_bytes(buffer, bytes.as_slice());
}

/// Reads the offset that stands at position `at`.
pub fn read_offset(bytes: &[u8], at: usize) -> (offset: usize)
    requires
        at + 4 <= bytes.len(),
    ensures
        offset == offset_at(bytes@, at as int),
{
    let word = u32_from_le_bytes(slice_subrange(bytes, at, at + 4));
    word as usize
}

/// Reads the offsets at `positions` in the fixed part of `bytes` and finds
/// where the variable parts lie. Fails with the first thing that is wrong with
/// the offsets; an input shorter than the fixed part is refused before any
/// offset is read.
pub fn split_variable_parts(bytes: &[u8], fixed_len: usize, positions: &Vec<usize>) -> (result:
    Result<Vec<(usize, usize)>, DeserializeError>)
    requires
        forall|i: int| 0 <= i < positions.len() ==> #[trigger] positions[i] + 4 <= fixed_len,
    ensures
        bytes.len() < fixed_len ==> result == Err::<Vec<(usize, usize)>, DeserializeError>(
            DeserializeError::ExpectedFurtherInput { provided: bytes.len(), expected: fixed_len },
        ),
        bytes.len() >= fixed_len ==> match offsets_error(
            offsets_of(bytes@, positions@),
            fixed_len as nat,
            bytes.len() as nat,
            0,
        ) {
            Some(error) => result == Err::<Vec<(usize, usize)>, DeserializeError>(error),
            None => result is Ok && ranges_view(result->Ok_0@) == variable_ranges(
                offsets_of(bytes@, positions@),
                bytes.len() as nat,
            ),
        },
{
    if bytes.len() < fixed_len {
        return Err(
            DeserializeError::ExpectedFurtherInput { provided: bytes.len(), expected: fixed_len },
        );
    }
    let ghost offsets = offsets_of(bytes@, positions@);
    let total: usize = bytes.len();
    let count: usize = positions.len();
    let mut starts: Vec<usize> = Vec::with_capacity(count);
    let mut i: usize = 0;
    while i < count
        invariant
            i <= count,
            count == positions.len(),
            total == bytes.len(),
            fixed_len <= total,
            offsets == offsets_of(bytes@, positions@),
            forall|k: int| 0 <= k < positions.len() ==> #[trigger] positions[k] + 4 <= fixed_len,
            starts.len() == i,
            forall|k: int| 0 <= k < i ==> #[trigger] starts@[k] == offsets[k],
            forall|k: int| 0 <= k < i ==> #[trigger] starts@[k] <= total,
            offsets_error(offsets, fixed_len as nat, total as nat, 0) == offsets_error(
                offsets,
                fixed_len as nat,
                total as nat,
                i as int,
            ),
        decreases count - i,
    {
        let offset: usize = read_offset(bytes, positions[i]);
        proof {
            assert(offset == offsets[i as int]);
        }
        if i == 0 && offset != fixed_len {
            return Err(DeserializeError::OffsetOutOfPlace { offset, expected: fixed_len });
        }
        if i > 0 && starts[i - 1] > offset {
            return Err(DeserializeError::OffsetNotIncreasing { start: starts[i - 1], end: offset });
        }
        if offset > total {
            return Err(DeserializeError::ExpectedFurtherInput { provided: total, expected: offset });
        }
        starts.push(offset);
        i = i + 1;
    }
    let mut ranges: Vec<(usize, usize)> = Vec::with_capacity(count);
    let mut j: usize = 0;
    while j < count
        invariant
            j <= count,
            count == starts.len(),
            count == offsets.len(),
            ranges.len() == j,
            forall|k: int| 0 <= k < count ==> #[trigger] starts@[k] == offsets[k],
            forall|k: int|
                0 <= k < j ==> (#[trigger] ranges@[k]).0 == offsets[k] && ranges@[k].1 == (if k + 1
                    < count {
                    offsets[k + 1]
                } else {
                    total as nat
                }),
        decreases count - j,
    {
        let end: usize = if j + 1 < count {
            starts[j + 1]
        } else {
            total
        };
        ranges.push((starts[j], end));
        j = j + 1;
    }
    proof {
        assert(ranges_view(ranges@) =~= variable_ranges(offsets, total as nat));
    }
    Ok(ranges)
}

} // verus!
