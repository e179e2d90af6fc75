//! Lists of byte lists: elements of variable size, which the encoding finds
//! again by a table of offsets at its start.

use crate::byte_list::ByteList;
use crate::collections::List;
use crate::offsets::{
    lemma_valid_offsets_tile, offset_at, offsets_error, offsets_of, ranges_view,
    split_variable_parts, variable_ranges, write_offset,
};
use crate::ssz::{append_bytes, DeserializeError, SerializeError};
use vstd::bytes::{lemma_auto_spec_u32_to_from_le_bytes, spec_u32_to_le_bytes};
use vstd::prelude::*;
use vstd::slice::slice_subrange;

verus! {

/// The bytes of each element.
pub open spec fn views_of<const M: usize>(items: Seq<ByteList<M>>) -> Seq<Seq<u8>> {
    Seq::new(items.len(), |i: int| items[i]@)
}

/// The number of bytes in the first `k` elements.
pub open spec fn lengths_sum(items: Seq<Seq<u8>>, k: int) -> int
    decreases k,
{
    if k <= 0 {
        0
    } else {
        lengths_sum(items, k - 1) + items[k - 1].len()
    }
}

/// The place of element `i` in the encoding: behind the table and the
/// elements before it.
pub open spec fn item_start(items: Seq<Seq<u8>>, i: int) -> int {
    4 * items.len() + lengths_sum(items, i)
}

/// The first `k` entries of the table of offsets.
pub open spec fn offsets_table(items: Seq<Seq<u8>>, k: int) -> Seq<u8>
    decreases k,
{
    if k <= 0 {
        Seq::empty()
    } else {
        offsets_table(items, k - 1) + spec_u32_to_le_bytes(item_start(items, k - 1) as u32)
    }
}

/// The first `k` elements, one after the other.
pub open spec fn concat_items(items: Seq<Seq<u8>>, k: int) -> Seq<u8>
    decreases k,
{
    if k <= 0 {
        Seq::empty()
    } else {
        concat_items(items, k - 1) + items[k - 1]
    }
}

/// The encoding of a list of byte strings: the table of offsets, then the
/// strings.
pub open spec fn items_encoding(items: Seq<Seq<u8>>) -> Seq<u8> {
    offsets_table(items, items.len() as int) + concat_items(items, items.len() as int)
}

/// The offsets in a table of `count` entries at the start of an encoding.
pub open spec fn table_offsets(encoding: Seq<u8>, count: nat) -> Seq<nat> {
    Seq::new(count, |i: int| offset_at(encoding, 4 * i))
}

/// The first part that is longer than `bound`, from part `from` on, as the
/// error that says so.
pub open spec fn oversized_error(ranges: Seq<(nat, nat)>, bound: nat, from: int) -> Option<
    DeserializeError,
>
    decreases ranges.len() - from,
{
    if from < 0 || from >= ranges.len() {
        None
    } else if ranges[from].1 - ranges[from].0 > bound {
        Some(
            DeserializeError::Bounded {
                bound: bound as usize,
                provided: (ranges[from].1 - ranges[from].0) as usize,
            },
        )
    } else {
        oversized_error(ranges, bound, from + 1)
    }
}

/// What decoding `encoding` as a list of at most `N` byte lists of at most
/// `M` bytes gives. The empty input is the empty list. Else the first offset
/// says how long the table is, and so how many elements there are; the
/// offsets must lay the elements out in order up to the end of the input, and
/// no element may be longer than `M`.
pub open spec fn decodes_byte_lists<const M: usize, const N: usize>(
    encoding: Seq<u8>,
    result: Result<List<ByteList<M>, N>, DeserializeError>,
) -> bool {
    if encoding.len() == 0 {
        result is Ok && result->Ok_0@.len() == 0
    } else if encoding.len() < 4 {
        result == Err::<List<ByteList<M>, N>, DeserializeError>(
            DeserializeError::ExpectedFurtherInput {
                provided: encoding.len() as usize,
                expected: 4,
            },
        )
    } else {
        let first = offset_at(encoding, 0);
        let offsets = table_offsets(encoding, first / 4);
        let ranges = variable_ranges(offsets, encoding.len());
        if first == 0 || first % 4 != 0 {
            result == Err::<List<ByteList<M>, N>, DeserializeError>(
                DeserializeError::InvalidOffsetsLength(first as usize),
            )
        } else if first > encoding.len() {
            result == Err::<List<ByteList<M>, N>, DeserializeError>(
                DeserializeError::ExpectedFurtherInput {
                    provided: encoding.len() as usize,
                    expected: first as usize,
                },
            )
        } else if first / 4 > N {
            result == Err::<List<ByteList<M>, N>, DeserializeError>(
                DeserializeError::Bounded { bound: N, provided: (first / 4) as usize },
            )
        } else {
            match offsets_error(offsets, first, encoding.len(), 0) {
                Some(error) => result == Err::<List<ByteList<M>, N>, DeserializeError>(error),
                None => match oversized_error(ranges, M as nat, 0) {
                    Some(error) => result == Err::<List<ByteList<M>, N>, DeserializeError>(
                        error,
                    ),
                    None => {
                        &&& result is Ok
                        &&& result->Ok_0.wf()
                        &&& result->Ok_0@.len() == first / 4
                        &&& forall|i: int|
                            0 <= i < first / 4 ==> (#[trigger] result->Ok_0@[i])@
                                == encoding.subrange(ranges[i].0 as int, ranges[i].1 as int)
                    },
                },
            }
        }
    }
}

/// The elements take more room the more of them are counted.
pub proof fn lemma_lengths_sum_grows(items: Seq<Seq<u8>>, i: int, j: int)
    requires
        0 <= i <= j,
    ensures
        0 <= lengths_sum(items, i) <= lengths_sum(items, j),
    decreases j,
{
    if i < j {
        lemma_lengths_sum_grows(items, i, j - 1);
    } else if i > 0 {
        lemma_lengths_sum_grows(items, i - 1, i - 1);
    }
}

/// Encodes a list of byte lists. Fails exactly when the encoding would be
/// longer than an offset can address.
pub fn serialize_byte_lists<const M: usize>(items: &Vec<ByteList<M>>) -> (result: Result<
    Vec<u8>,
    SerializeError,
>)
    ensures
        item_start(views_of(items@), items@.len() as int) <= u32::MAX ==> result is Ok
            && result->Ok_0@ == items_encoding(views_of(items@)),
        item_start(views_of(items@), items@.len() as int) > u32::MAX ==> result == Err::<
            Vec<u8>,
            SerializeError,
        >(SerializeError::MaximumEncodingLengthExceeded(0xffff_ffff)),
{
    let ghost views = views_of(items@);
    let count: usize = items.len();
    proof {
        lemma_lengths_sum_grows(views, 0, count as int);
    }
    if count > 0x3fff_ffff {
        return Err(SerializeError::MaximumEncodingLengthExceeded(0xffff_ffff));
    }
    let mut starts: Vec<u32> = Vec::with_capacity(count);
    let mut running: usize = 4 * count;
    let mut i: usize = 0;
    while i < count
        invariant
            i <= count,
            count == items.len(),
            views == views_of(items@),
            starts.len() == i,
            running == item_start(views, i as int),
            running <= u32::MAX,
            forall|k: int| 0 <= k < i ==> #[trigger] starts@[k] == item_start(views, k),
        decreases count - i,
    {
        starts.push(running as u32);
        let length: usize = items[i].len();
        proof {
            assert(views[i as int] == items@[i as int]@);
            assert(lengths_sum(views, i + 1) == lengths_sum(views, i as int) + views[i as int].len());
            lemma_lengths_sum_grows(views, i + 1, count as int);
        }
        if length > 0xffff_ffff - running {
            return Err(SerializeError::MaximumEncodingLengthExceeded(0xffff_ffff));
        }
        running = running + length;
        i = i + 1;
    }
    let mut bytes: Vec<u8> = Vec::new();
    let mut t: usize = 0;
    while t < count
        invariant
            t <= count,
            count == starts.len(),
            forall|k: int| 0 <= k < count ==> #[trigger] starts@[k] == item_start(views, k),
            bytes@ == offsets_table(views, t as int),
        decreases count - t,
    {
        write_offset(&mut bytes, starts[t]);
        t = t + 1;
    }
    let mut j: usize = 0;
    proof {
        assert(bytes@ + concat_items(views, 0) =~= bytes@);
    }
    while j < count
        invariant
            j <= count,
            count == items.len(),
            views == views_of(items@),
            bytes@ == offsets_table(views, count as int) + concat_items(views, j as int),
        decreases count - j,
    {
        let ghost before = bytes@;
        append_bytes(&mut bytes, items[j].as_ref());
        proof {
            assert(views[j as int] == items@[j as int]@);
            assert(bytes@ =~= offsets_table(views, count as int) + concat_items(views, j + 1));
        }
        j = j + 1;
    }
    Ok(bytes)
}

proof fn lemma_table_entries(items: Seq<Seq<u8>>, k: int)
    requires
        0 <= k <= items.len(),
    ensures
        offsets_table(items, k).len() == 4 * k,
        forall|i: int|
            0 <= i < k ==> #[trigger] offsets_table(items, k).subrange(4 * i, 4 * i + 4)
                == spec_u32_to_le_bytes(item_start(items, i) as u32),
    decreases k,
{
    lemma_auto_spec_u32_to_from_le_bytes();
    if k > 0 {
        lemma_table_entries(items, k - 1);
        let table = offsets_table(items, k);
        let front = offsets_table(items, k - 1);
        assert forall|i: int| 0 <= i < k implies #[trigger] table.subrange(4 * i, 4 * i + 4)
            == spec_u32_to_le_bytes(item_start(items, i) as u32) by {
            if i < k - 1 {
                assert(table.subrange(4 * i, 4 * i + 4) =~= front.subrange(4 * i, 4 * i + 4));
            } else {
                assert(table.subrange(4 * i, 4 * i + 4) =~= spec_u32_to_le_bytes(
                    item_start(items, i) as u32,
                ));
            }
        }
    }
}

proof fn lemma_concat_entries(items: Seq<Seq<u8>>, k: int)
    requires
        0 <= k <= items.len(),
    ensures
        concat_items(items, k).len() == lengths_sum(items, k),
        forall|i: int|
            0 <= i < k ==> #[trigger] concat_items(items, k).subrange(
                lengths_sum(items, i),
                lengths_sum(items, i + 1),
            ) == items[i],
    decreases k,
{
    if k > 0 {
        lemma_concat_entries(items, k - 1);
        let all = concat_items(items, k);
        let front = concat_items(items, k - 1);
        assert forall|i: int| 0 <= i < k implies #[trigger] all.subrange(
            lengths_sum(items, i),
            lengths_sum(items, i + 1),
        ) == items[i] by {
            lemma_lengths_sum_grows(items, i, i + 1);
            lemma_lengths_sum_grows(items, i + 1, k);
            lemma_lengths_sum_grows(items, 0, i);
            if i < k - 1 {
                lemma_lengths_sum_grows(items, i + 1, k - 1);
                assert(all.subrange(lengths_sum(items, i), lengths_sum(items, i + 1))
                    =~= front.subrange(lengths_sum(items, i), lengths_sum(items, i + 1)));
            } else {
                assert(all.subrange(lengths_sum(items, i), lengths_sum(items, i + 1))
                    =~= items[i]);
            }
        }
    }
}

proof fn lemma_no_offset_error(offsets: Seq<nat>, fixed_len: nat, total: nat, from: int)
    requires
        0 <= from,
        forall|i: int|
            from <= i < offsets.len() ==> (#[trigger] crate::offsets::offset_error_at(
                offsets,
                fixed_len,
                total,
                i,
            )) is None,
    ensures
        offsets_error(offsets, fixed_len, total, from) is None,
    decreases offsets.len() - from,
{
    if from < offsets.len() {
        assert(crate::offsets::offset_error_at(offsets, fixed_len, total, from) is None);
        lemma_no_offset_error(offsets, fixed_len, total, from + 1);
    }
}

proof fn lemma_none_oversized(ranges: Seq<(nat, nat)>, bound: nat, from: int)
    requires
        0 <= from,
        forall|i: int| from <= i < ranges.len() ==> (#[trigger] ranges[i]).1 - ranges[i].0 <= bound,
    ensures
        oversized_error(ranges, bound, from) is None,
    decreases ranges.len() - from,
{
    if from < ranges.len() {
        assert(ranges[from].1 - ranges[from].0 <= bound);
        lemma_none_oversized(ranges, bound, from + 1);
    }
}

/// The encoding is as long as the table and the elements together.
pub proof fn lemma_items_encoding_len(items: Seq<Seq<u8>>)
    ensures
        items_encoding(items).len() == item_start(items, items.len() as int),
{
    lemma_table_entries(items, items.len() as int);
    lemma_concat_entries(items, items.len() as int);
}

/// Decoding the encoding of a list of byte lists that keep their bounds
/// gives the list back.
pub proof fn lemma_byte_lists_round_trip<const M: usize, const N: usize>(
    items: Seq<ByteList<M>>,
    decoded: Result<List<ByteList<M>, N>, DeserializeError>,
)
    requires
        items.len() <= N,
        forall|i: int| 0 <= i < items.len() ==> (#[trigger] items[i]).wf(),
        item_start(views_of(items), items.len() as int) <= u32::MAX,
        decodes_byte_lists(items_encoding(views_of(items)), decoded),
    ensures
        decoded is Ok,
        decoded->Ok_0@.len() == items.len(),
        forall|i: int| 0 <= i < items.len() ==> (#[trigger] decoded->Ok_0@[i])@ == items[i]@,
{
    let views = views_of(items);
    let n = items.len() as int;
    let encoding = items_encoding(views);
    let table = offsets_table(views, n);
    let body = concat_items(views, n);
    lemma_auto_spec_u32_to_from_le_bytes();
    lemma_table_entries(views, n);
    lemma_concat_entries(views, n);
    lemma_lengths_sum_grows(views, 0, n);
    if n > 0 {
        let total = encoding.len();
        assert(total == 4 * n + lengths_sum(views, n));
        assert forall|i: int| 0 <= i < n implies offset_at(encoding, 4 * i) == item_start(
            views,
            i,
        ) by {
            lemma_lengths_sum_grows(views, 0, i);
            lemma_lengths_sum_grows(views, i, n);
            assert(encoding.subrange(4 * i, 4 * i + 4) =~= table.subrange(4 * i, 4 * i + 4));
        }
        assert(offset_at(encoding, 4 * 0int) == item_start(views, 0));
        let first = offset_at(encoding, 0);
        assert(first == 4 * n);
        let offsets = table_offsets(encoding, first / 4);
        let ranges = variable_ranges(offsets, total);
        assert forall|i: int| 0 <= i < offsets.len() implies (
        #[trigger] crate::offsets::offset_error_at(offsets, first, total, i)) is None by {
            lemma_lengths_sum_grows(views, i, n);
            lemma_lengths_sum_grows(views, 0, i);
            assert(offsets[i] == offset_at(encoding, 4 * i));
            assert(offsets[i] == item_start(views, i));
            if i > 0 {
                lemma_lengths_sum_grows(views, i - 1, i);
                assert(offsets[i - 1] == offset_at(encoding, 4 * (i - 1)));
                assert(offsets[i - 1] == item_start(views, i - 1));
            }
        }
        lemma_no_offset_error(offsets, first, total, 0);
        assert forall|i: int| 0 <= i < n implies (#[trigger] ranges[i]).0 == item_start(views, i)
            && ranges[i].1 == item_start(views, i + 1) by {
            assert(lengths_sum(views, i + 1) == lengths_sum(views, i) + views[i].len());
            assert(offsets[i] == offset_at(encoding, 4 * i));
            if i + 1 < n {
                assert(offsets[i + 1] == offset_at(encoding, 4 * (i + 1)));
            }
        }
        assert forall|i: int| 0 <= i < ranges.len() implies (#[trigger] ranges[i]).1
            - ranges[i].0 <= M by {
            assert(lengths_sum(views, i + 1) == lengths_sum(views, i) + views[i].len());
            assert(items[i].wf());
            assert(views[i] == items[i]@);
            assert(ranges[i].0 == item_start(views, i) && ranges[i].1 == item_start(views, i + 1));
        }
        lemma_none_oversized(ranges, M as nat, 0);
        assert forall|i: int| 0 <= i < n implies (#[trigger] decoded->Ok_0@[i])@ == items[i]@ by {
            lemma_lengths_sum_grows(views, 0, i);
            lemma_lengths_sum_grows(views, i + 1, n);
            lemma_lengths_sum_grows(views, i, i + 1);
            assert(ranges[i].0 == item_start(views, i));
            assert(encoding.subrange(item_start(views, i), item_start(views, i + 1))
                =~= body.subrange(lengths_sum(views, i), lengths_sum(views, i + 1)));
            assert(views[i] == items[i]@);
        }
    } else {
        assert(encoding.len() == 0);
    }
}

/// Decodes a list of byte lists.
pub fn deserialize_byte_lists<const M: usize, const N: usize>(encoding: &[u8]) -> (result: Result<
    List<ByteList<M>, N>,
    DeserializeError,
>)
    ensures
        decodes_byte_lists(encoding@, result),
{
    if encoding.len() == 0 {
        return Ok(List::new());
    }
    if encoding.len() < 4 {
        return Err(
            DeserializeError::ExpectedFurtherInput { provided: encoding.len(), expected: 4 },
        );
    }
    let first: usize = crate::offsets::read_offset(encoding, 0);
    if first == 0 || first % 4 != 0 {
        return Err(DeserializeError::InvalidOffsetsLength(first));
    }
    if first > encoding.len() {
        return Err(
            DeserializeError::ExpectedFurtherInput { provided: encoding.len(), expected: first },
        );
    }
    let count: usize = first / 4;
    if count > N {
        return Err(DeserializeError::Bounded { bound: N, provided: count });
    }
    let mut positions: Vec<usize> = Vec::with_capacity(count);
    let mut p: usize = 0;
    while p < count
        invariant
            p <= count,
            count == first / 4,
            first % 4 == 0,
            positions.len() == p,
            forall|k: int| 0 <= k < p ==> #[trigger] positions@[k] == 4 * k,
        decreases count - p,
    {
        positions.push(4 * p);
        p = p + 1;
    }
    let ghost offsets = table_offsets(encoding@, count as nat);
    proof {
        assert(offsets_of(encoding@, positions@) =~= offsets);
    }
    let ranges = match split_variable_parts(encoding, first, &positions) {
        Ok(ranges) => ranges,
        Err(error) => {
            return Err(error);
        },
    };
    let ghost spans = variable_ranges(offsets, encoding.len() as nat);
    proof {
        lemma_valid_offsets_tile(offsets, first as nat, encoding.len() as nat);
        assert(ranges_view(ranges@).len() == ranges@.len());
        assert forall|k: int| 0 <= k < count implies (#[trigger] ranges@[k]).0 == spans[k].0
            && ranges@[k].1 == spans[k].1 && ranges@[k].0 <= ranges@[k].1 <= encoding.len() by {
            assert(ranges_view(ranges@)[k] == spans[k]);
        }
    }
    let mut items: Vec<ByteList<M>> = Vec::with_capacity(count);
    let mut i: usize = 0;
    while i < count
        invariant
            i <= count,
            count == ranges.len(),
            count == spans.len(),
            encoding.len() >= 4,
            first == offset_at(encoding@, 0),
            first != 0,
            first % 4 == 0,
            first <= encoding.len(),
            count == first / 4,
            count <= N,
            offsets == table_offsets(encoding@, count as nat),
            spans == variable_ranges(offsets, encoding.len() as nat),
            offsets_error(offsets, first as nat, encoding.len() as nat, 0) is None,
            items.len() == i,
            forall|k: int|
                0 <= k < count ==> (#[trigger] ranges@[k]).0 == spans[k].0 && ranges@[k].1
                    == spans[k].1 && ranges@[k].0 <= ranges@[k].1 <= encoding.len(),
            oversized_error(spans, M as nat, 0) == oversized_error(spans, M as nat, i as int),
            forall|k: int|
                0 <= k < i ==> (#[trigger] items@[k])@ == encoding@.subrange(
                    spans[k].0 as int,
                    spans[k].1 as int,
                ),
        decreases count - i,
    {
        let start: usize = ranges[i].0;
        let end: usize = ranges[i].1;
        proof {
            assert(ranges@[i as int].0 == spans[i as int].0 && ranges@[i as int].1
                == spans[i as int].1);
            assert(oversized_error(spans, M as nat, i as int) == (if spans[i as int].1
                - spans[i as int].0 > M {
                Some(
                    DeserializeError::Bounded {
                        bound: M,
                        provided: (spans[i as int].1 - spans[i as int].0) as usize,
                    },
                )
            } else {
                oversized_error(spans, M as nat, i + 1)
            }));
        }
        if end - start > M {
            return Err(DeserializeError::Bounded { bound: M, provided: end - start });
        }
        let item = match ByteList::<M>::deserialize(slice_subrange(encoding, start, end)) {
            Ok(item) => item,
            Err(error) => {
                return Err(error);
            },
        };
        items.push(item);
        i = i + 1;
    }
    List::try_from(items)
}

} // verus!
