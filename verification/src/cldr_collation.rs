//! Compact CLDR 48 Japanese/Chinese starred-primary tailoring maps.
//!
//! The data is one block of bytes: an eight-byte mark, the row counts of the four orders as
//! little-endian words, then the rows of each order one after the other. A row is a code point
//! and its rank, and the rows of an order ascend by code point.
use vstd::prelude::*;

verus! {

const HEADER_SIZE: usize = 24;

const ROW_SIZE: usize = 8;

/// An order of Han characters.
#[derive(Clone, Copy, PartialEq, Eq, Structural, Debug)]
pub enum HanOrder {
    Japanese,
    Pinyin,
    Stroke,
    Zhuyin,
}

impl HanOrder {
    /// The place of the order among the four.
    pub open spec fn place(self) -> int {
        match self {
            HanOrder::Japanese => 0,
            HanOrder::Pinyin => 1,
            HanOrder::Stroke => 2,
            HanOrder::Zhuyin => 3,
        }
    }

    fn index(self) -> (r: usize)
        ensures
            r == self.place(),
    {
        match self {
            HanOrder::Japanese => 0,
            HanOrder::Pinyin => 1,
            HanOrder::Stroke => 2,
            HanOrder::Zhuyin => 3,
        }
    }
}

/// The little-endian word at `offset`.
pub open spec fn word_at(data: Seq<u8>, offset: int) -> int {
    data[offset] + 0x100 * data[offset + 1] + 0x10000 * data[offset + 2] + 0x1000000 * data[offset
        + 3]
}

/// The rows of the order at `place`.
pub open spec fn row_count(data: Seq<u8>, place: int) -> int {
    word_at(data, 8 + place * 4)
}

/// The rows of the orders before `place`.
pub open spec fn rows_before(data: Seq<u8>, place: int) -> int
    decreases place,
{
    if place <= 0 {
        0
    } else {
        rows_before(data, place - 1) + row_count(data, place - 1)
    }
}

/// Where row `i` of the order at `place` starts.
pub open spec fn row_offset(data: Seq<u8>, place: int, i: int) -> int {
    24 + (rows_before(data, place) + i) * 8
}

pub open spec fn row_code_point(data: Seq<u8>, place: int, i: int) -> int {
    word_at(data, row_offset(data, place, i))
}

pub open spec fn row_rank(data: Seq<u8>, place: int, i: int) -> int {
    word_at(data, row_offset(data, place, i) + 4)
}

/// The bytes "LCLD48", a zero and a one.
pub open spec fn marked(data: Seq<u8>) -> bool {
    &&& data[0] == 0x4c
    &&& data[1] == 0x43
    &&& data[2] == 0x4c
    &&& data[3] == 0x44
    &&& data[4] == 0x34
    &&& data[5] == 0x38
    &&& data[6] == 0
    &&& data[7] == 1
}

/// The rows of the order at `place` ascend by code point.
pub open spec fn ascending(data: Seq<u8>, place: int) -> bool {
    forall|i: int, j: int|
        0 <= i < j < row_count(data, place) ==> row_code_point(data, place, i) < row_code_point(
            data,
            place,
            j,
        )
}

/// Whether the bytes hold four complete tables.
pub open spec fn well_formed(data: Seq<u8>) -> bool {
    &&& data.len() >= 24
    &&& marked(data)
    &&& 24 + rows_before(data, 4) * 8 <= data.len()
    &&& forall|place: int| 0 <= place < 4 ==> #[trigger] ascending(data, place)
}

fn u32_at(data: &[u8], offset: usize) -> (r: u32)
    requires
        offset + 4 <= data@.len(),
    ensures
        r == word_at(data@, offset as int),
{
    data[offset] as u32 + 0x100 * (data[offset + 1] as u32) + 0x10000 * (data[offset + 2] as u32)
        + 0x1000000 * (data[offset + 3] as u32)
}

/// The offset of the order's first row and the number of its rows.
fn table(data: &[u8], order: HanOrder) -> (r: (usize, usize))
    requires
        data@.len() >= 24,
        24 + rows_before(data@, 4) * 8 <= data@.len(),
    ensures
        r.0 == row_offset(data@, order.place(), 0),
        r.1 == row_count(data@, order.place()),
        r.0 + r.1 * 8 <= data@.len(),
{
    let size: usize = data.len();
    let index: usize = order.index();
    let count: usize = u32_at(data, 8 + index * 4) as usize;
    let mut preceding: usize = 0;
    let mut previous: usize = 0;
    assert(rows_before(data@, 4) == row_count(data@, 0) + row_count(data@, 1) + row_count(data@, 2)
        + row_count(data@, 3)) by {
        reveal_with_fuel(rows_before, 5);
    }
    assert(rows_before(data@, index as int) + row_count(data@, index as int) <= rows_before(
        data@,
        4,
    )) by {
        reveal_with_fuel(rows_before, 5);
    }
    while previous < index
        invariant
            previous <= index <= 3,
            data@.len() >= 24,
            size == data@.len(),
            preceding == rows_before(data@, previous as int),
            24 + rows_before(data@, 4) * 8 <= size,
            rows_before(data@, 4) == row_count(data@, 0) + row_count(data@, 1) + row_count(data@, 2)
                + row_count(data@, 3),
        decreases index - previous,
    {
        assert(preceding + row_count(data@, previous as int) <= rows_before(data@, 4)) by {
            reveal_with_fuel(rows_before, 5);
        }
        assert(rows_before(data@, previous + 1) == preceding + row_count(data@, previous as int));
        preceding = preceding + u32_at(data, 8 + previous * 4) as usize;
        previous += 1;
    }
    (HEADER_SIZE + preceding * ROW_SIZE, count)
}

/// The rank of a code point in an order, if the order lists it.
pub fn primary_rank(data: &[u8], order: HanOrder, code_point: u32) -> (r: Option<u32>)
    requires
        well_formed(data@),
    ensures
        match r {
            Some(rank) => exists|i: int|
                0 <= i < row_count(data@, order.place()) && #[trigger] row_code_point(
                    data@,
                    order.place(),
                    i,
                ) == code_point && row_rank(data@, order.place(), i) == rank,
            None => forall|i: int|
                0 <= i < row_count(data@, order.place()) ==> #[trigger] row_code_point(
                    data@,
                    order.place(),
                    i,
                ) != code_point,
        },
{
    let ghost place = order.place();
    let size: usize = data.len();
    let (base, count) = table(data, order);
    let mut low: usize = 0;
    let mut high: usize = count;
    assert(ascending(data@, place));
    while low < high
        invariant
            0 <= low <= high <= count,
            place == order.place(),
            count == row_count(data@, place),
            base == row_offset(data@, place, 0),
            size == data@.len(),
            base + count * 8 <= size,
            ascending(data@, place),
            forall|i: int|
                0 <= i < low ==> #[trigger] row_code_point(data@, place, i) < code_point,
            forall|i: int|
                high <= i < count ==> #[trigger] row_code_point(data@, place, i) > code_point,
        decreases high - low,
    {
        let middle: usize = low + (high - low) / 2;
        let row: usize = base + middle * ROW_SIZE;
        assert(row == row_offset(data@, place, middle as int));
        let found: u32 = u32_at(data, row);
        assert(found == row_code_point(data@, place, middle as int));
        if found < code_point {
            low = middle + 1;
        } else if found > code_point {
            high = middle;
        } else {
            let rank: u32 = u32_at(data, row + 4);
            assert(row_code_point(data@, order.place(), middle as int) == code_point && row_rank(
                data@,
                order.place(),
                middle as int,
            ) == rank);
            return Some(rank);
        }
    }
    None
}

/// Whether the bytes hold four complete tables.
pub fn check_data(data: &[u8]) -> (r: bool)
    ensures
        r == well_formed(data@),
{
    if data.len() < 24 {
        return false;
    }
    if !(data[0] == 0x4c && data[1] == 0x43 && data[2] == 0x4c && data[3] == 0x44 && data[4] == 0x34
        && data[5] == 0x38 && data[6] == 0 && data[7] == 1) {
        return false;
    }
    let rows: u64 = u32_at(data, 8) as u64 + u32_at(data, 12) as u64 + u32_at(data, 16) as u64
        + u32_at(data, 20) as u64;
    assert(rows_before(data@, 4) == rows) by {
        reveal_with_fuel(rows_before, 5);
    }
    if 24 + rows * 8 > data.len() as u64 {
        return false;
    }
    let japanese = check_order(data, HanOrder::Japanese);
    let pinyin = check_order(data, HanOrder::Pinyin);
    let stroke = check_order(data, HanOrder::Stroke);
    let zhuyin = check_order(data, HanOrder::Zhuyin);
    assert(ascending(data@, 0) == japanese && ascending(data@, 1) == pinyin && ascending(data@, 2)
        == stroke && ascending(data@, 3) == zhuyin);
    japanese && pinyin && stroke && zhuyin
}

fn check_order(data: &[u8], order: HanOrder) -> (r: bool)
    requires
        data@.len() >= 24,
        24 + rows_before(data@, 4) * 8 <= data@.len(),
    ensures
        r == ascending(data@, order.place()),
{
    let ghost place = order.place();
    let size: usize = data.len();
    let (base, count) = table(data, order);
    let mut i: usize = 1;
    while i < count
        invariant
            1 <= i,
            i <= count || count == 0,
            count == row_count(data@, place),
            base == row_offset(data@, place, 0),
            size == data@.len(),
            place == order.place(),
            base + count * 8 <= size,
            forall|a: int, b: int|
                0 <= a < b < i && b < count ==> row_code_point(data@, place, a) < row_code_point(
                    data@,
                    place,
                    b,
                ),
        decreases count - i,
    {
        let row: usize = base + i * ROW_SIZE;
        assert(row == row_offset(data@, place, i as int));
        assert(row - 8 == row_offset(data@, place, i - 1));
        let last: u32 = u32_at(data, row - ROW_SIZE);
        let next: u32 = u32_at(data, row);
        assert(last == row_code_point(data@, place, i - 1));
        assert(next == row_code_point(data@, place, i as int));
        if last >= next {
            return false;
        }
        assert forall|a: int, b: int| 0 <= a < b < i + 1 && b < count implies row_code_point(
            data@,
            place,
            a,
        ) < row_code_point(data@, place, b) by {
            if b == i && a < i - 1 {
                assert(row_code_point(data@, place, a) < row_code_point(data@, place, i - 1));
            }
        }
        i += 1;
    }
    true
}

/// A code point has one rank in an order: no two rows give it.
pub proof fn law_rank_unique(data: Seq<u8>, order: HanOrder, i: int, j: int)
    requires
        well_formed(data),
        0 <= i < row_count(data, order.place()),
        0 <= j < row_count(data, order.place()),
        row_code_point(data, order.place(), i) == row_code_point(data, order.place(), j),
    ensures
        i == j,
{
    assert(ascending(data, order.place()));
}

} // verus!
