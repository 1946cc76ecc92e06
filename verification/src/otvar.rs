//! The Item Variation Store: a region list and blocks of delta values,
//! reached through offsets that are relative to the start of the store.
//!
//! The store is decode-only.  Its layout, with all integers big-endian:
//!
//! * a header: `format` (16 bits), the offset of the region list (32 bits),
//!   the number of data blocks (16 bits), and one 32-bit offset per block;
//! * everything after the header is captured as one buffer, and an offset
//!   `o` resolves to position `o - header length` of that buffer;
//! * the region list: `axisCount`, `regionCount` (16 bits each), then
//!   `regionCount` regions of `axisCount` triples of 2.14 numbers;
//! * a data block: `itemCount`, `shortDeltaCount`, a 16-bit count of region
//!   indexes and the indexes, then `itemCount` rows with one delta per
//!   region index.  A delta in column `c` takes 16 bits where
//!   `c <= shortDeltaCount` and 8 bits otherwise.

use vstd::prelude::*;
use crate::error::{DecodeFault, DeserializationError, Place};
use crate::reader::ReaderContext;
use crate::types::{int16, uint16, F2DOT14};
use crate::wire::{has_bytes, i16_at, i8_at, u16_at, u32_at};

verus! {

/// Where a region lies on one axis: the start, the peak and the end coordinate.
#[derive(Debug, PartialEq, Eq, Clone, Copy, Structural)]
#[allow(non_snake_case)]
pub struct RegionAxisCoordinates {
    pub startCoord: F2DOT14,
    pub peakCoord: F2DOT14,
    pub endCoord: F2DOT14,
}

/// The scaled values of the three coordinates of a region on one axis.
pub struct AxisModel {
    pub start: i32,
    pub peak: i32,
    pub end: i32,
}

impl View for RegionAxisCoordinates {
    type V = AxisModel;

    open spec fn view(&self) -> AxisModel {
        AxisModel { start: self.startCoord@, peak: self.peakCoord@, end: self.endCoord@ }
    }
}

/// One block of per-item, per-region delta values.
#[derive(Debug, PartialEq, Eq)]
#[allow(non_snake_case)]
pub struct ItemVariationData {
    /// Indices into the region list of the store.
    pub regionIndexes: Vec<uint16>,
    /// One row per item, one delta per region index.
    pub deltaValues: Vec<Vec<int16>>,
}

/// The mathematical content of an [`ItemVariationData`].
pub struct DataModel {
    pub region_indexes: Seq<u16>,
    pub delta_values: Seq<Seq<i16>>,
}

/// The views of the rows of a matrix.
pub open spec fn rows_of(rows: Seq<Vec<i16>>) -> Seq<Seq<i16>> {
    Seq::new(rows.len(), |r: int| rows[r]@)
}

impl View for ItemVariationData {
    type V = DataModel;

    open spec fn view(&self) -> DataModel {
        DataModel {
            region_indexes: self.regionIndexes@,
            delta_values: rows_of(self.deltaValues@),
        }
    }
}

/// The region list of a store.
#[allow(non_snake_case)]
pub struct VariationRegionList {
    pub axisCount: uint16,
    pub regionCount: uint16,
    pub variationRegions: Vec<Vec<RegionAxisCoordinates>>,
}

/// The views of the axes of one region.
pub open spec fn axes_of(region: Seq<RegionAxisCoordinates>) -> Seq<AxisModel> {
    Seq::new(region.len(), |a: int| region[a]@)
}

/// The views of the regions of a region list.
pub open spec fn regions_of(regions: Seq<Vec<RegionAxisCoordinates>>) -> Seq<Seq<AxisModel>> {
    Seq::new(regions.len(), |r: int| axes_of(regions[r]@))
}

/// The mathematical content of a [`VariationRegionList`].
pub struct RegionListModel {
    pub axis_count: u16,
    pub regions: Seq<Seq<AxisModel>>,
}

impl View for VariationRegionList {
    type V = RegionListModel;

    open spec fn view(&self) -> RegionListModel {
        RegionListModel {
            axis_count: self.axisCount,
            regions: regions_of(self.variationRegions@),
        }
    }
}

/// A decoded item variation store.
#[derive(Debug, PartialEq, Eq)]
#[allow(non_snake_case)]
pub struct ItemVariationStore {
    pub format: uint16,
    /// The number of axes, as the region list states it.
    pub axisCount: uint16,
    pub variationRegions: Vec<Vec<RegionAxisCoordinates>>,
    pub variationData: Vec<ItemVariationData>,
}

/// The mathematical content of an [`ItemVariationStore`].
pub struct StoreModel {
    pub format: u16,
    pub axis_count: u16,
    pub regions: Seq<Seq<AxisModel>>,
    pub data: Seq<DataModel>,
}

/// The views of a sequence of data blocks.
pub open spec fn blocks_of(blocks: Seq<ItemVariationData>) -> Seq<DataModel> {
    Seq::new(blocks.len(), |i: int| blocks[i]@)
}

impl View for ItemVariationStore {
    type V = StoreModel;

    open spec fn view(&self) -> StoreModel {
        StoreModel {
            format: self.format,
            axis_count: self.axisCount,
            regions: regions_of(self.variationRegions@),
            data: blocks_of(self.variationData@),
        }
    }
}

/// The error of a fault at a place.
pub open spec fn fault_at(place: Place, fault: DecodeFault) -> DeserializationError {
    DeserializationError { place, fault }
}

// ---------------------------------------------------------------------------
// A data block that starts at position `at` of `s`.
// ---------------------------------------------------------------------------
/// The number of items (rows) of the block.
pub open spec fn data_item_count(s: Seq<u8>, at: int) -> int {
    u16_at(s, at) as int
}

/// The last column that holds 16-bit deltas.
pub open spec fn data_short_delta_count(s: Seq<u8>, at: int) -> int {
    u16_at(s, at + 2) as int
}

/// The number of region indexes, which is the number of columns.
pub open spec fn data_width(s: Seq<u8>, at: int) -> int {
    u16_at(s, at + 4) as int
}

/// The number of bytes of the header of the block.
pub open spec fn data_header_len(s: Seq<u8>, at: int) -> int {
    6 + 2 * data_width(s, at)
}

/// Whether the header of the block lies within the buffer.
pub open spec fn data_header_fits(s: Seq<u8>, at: int) -> bool {
    has_bytes(s, at, 6) && has_bytes(s, at, data_header_len(s, at))
}

/// Region index `k` of the block.
pub open spec fn data_region_index(s: Seq<u8>, at: int, k: int) -> u16 {
    u16_at(s, at + 6 + 2 * k)
}

/// The number of columns that hold 16-bit deltas: the columns `c` with
/// `c <= shortDeltaCount`.
pub open spec fn data_wide_columns(s: Seq<u8>, at: int) -> int {
    if data_width(s, at) <= data_short_delta_count(s, at) + 1 {
        data_width(s, at)
    } else {
        data_short_delta_count(s, at) + 1
    }
}

/// The number of bytes that the columns before `col` take in a row of which
/// the first `wide` columns take two bytes and the others one.
pub open spec fn column_offset(wide: int, col: int) -> int {
    if col <= wide {
        2 * col
    } else {
        2 * wide + (col - wide)
    }
}

/// The number of bytes of one row.
pub open spec fn data_row_len(s: Seq<u8>, at: int) -> int {
    column_offset(data_wide_columns(s, at), data_width(s, at))
}

/// The number of bytes of the block.
pub open spec fn data_len(s: Seq<u8>, at: int) -> int {
    data_header_len(s, at) + data_item_count(s, at) * data_row_len(s, at)
}

/// Whether the whole block lies within the buffer.
pub open spec fn data_fits(s: Seq<u8>, at: int) -> bool {
    data_header_fits(s, at) && has_bytes(s, at, data_len(s, at))
}

/// The position of the delta in the given row and column.
pub open spec fn delta_position(s: Seq<u8>, at: int, row: int, col: int) -> int {
    at + data_header_len(s, at) + row * data_row_len(s, at) + column_offset(
        data_wide_columns(s, at),
        col,
    )
}

/// The delta in the given row and column: a signed 16-bit integer in a wide
/// column, a signed 8-bit integer, sign-extended, in a narrow one.
pub open spec fn data_delta(s: Seq<u8>, at: int, row: int, col: int) -> i16 {
    if col < data_wide_columns(s, at) {
        i16_at(s, delta_position(s, at, row, col))
    } else {
        i8_at(s, delta_position(s, at, row, col)) as i16
    }
}

/// One row of deltas.
pub open spec fn data_row(s: Seq<u8>, at: int, row: int) -> Seq<i16> {
    Seq::new(data_width(s, at) as nat, |col: int| data_delta(s, at, row, col))
}

/// The region indexes of the block.
pub open spec fn data_region_indexes(s: Seq<u8>, at: int) -> Seq<u16> {
    Seq::new(data_width(s, at) as nat, |k: int| data_region_index(s, at, k))
}

/// The matrix of deltas of the block.
pub open spec fn data_rows(s: Seq<u8>, at: int) -> Seq<Seq<i16>> {
    Seq::new(data_item_count(s, at) as nat, |row: int| data_row(s, at, row))
}

/// The data block that starts at `at`, or the error of reading it: a short
/// read in the header, or a short read among the deltas.
pub open spec fn data_at(s: Seq<u8>, at: int, block: usize) -> Result<
    DataModel,
    DeserializationError,
> {
    if !data_header_fits(s, at) {
        Err(fault_at(Place::VariationDataHeader { block }, DecodeFault::ShortRead))
    } else if !data_fits(s, at) {
        Err(fault_at(Place::DeltaValues { block }, DecodeFault::ShortRead))
    } else {
        Ok(
            DataModel {
                region_indexes: data_region_indexes(s, at),
                delta_values: data_rows(s, at),
            },
        )
    }
}

// ---------------------------------------------------------------------------
// A region list that starts at position `at` of `s`.
// ---------------------------------------------------------------------------
/// The number of axes of each region.
pub open spec fn list_axis_count(s: Seq<u8>, at: int) -> int {
    u16_at(s, at) as int
}

/// The number of regions.
pub open spec fn list_region_count(s: Seq<u8>, at: int) -> int {
    u16_at(s, at + 2) as int
}

/// The number of bytes of the region list.
pub open spec fn list_len(s: Seq<u8>, at: int) -> int {
    4 + list_region_count(s, at) * list_axis_count(s, at) * 6
}

/// Whether the whole region list lies within the buffer.
pub open spec fn list_fits(s: Seq<u8>, at: int) -> bool {
    has_bytes(s, at, 4) && has_bytes(s, at, list_len(s, at))
}

/// The position of the triple of the given region and axis.
pub open spec fn axis_position(s: Seq<u8>, at: int, region: int, axis: int) -> int {
    at + 4 + (region * list_axis_count(s, at) + axis) * 6
}

/// The triple of the given region and axis.
pub open spec fn list_axis(s: Seq<u8>, at: int, region: int, axis: int) -> AxisModel {
    AxisModel {
        start: i16_at(s, axis_position(s, at, region, axis)) as i32,
        peak: i16_at(s, axis_position(s, at, region, axis) + 2) as i32,
        end: i16_at(s, axis_position(s, at, region, axis) + 4) as i32,
    }
}

/// One region: a triple per axis.
pub open spec fn list_region(s: Seq<u8>, at: int, region: int) -> Seq<AxisModel> {
    Seq::new(list_axis_count(s, at) as nat, |axis: int| list_axis(s, at, region, axis))
}

/// The regions of the list.
pub open spec fn list_regions(s: Seq<u8>, at: int) -> Seq<Seq<AxisModel>> {
    Seq::new(list_region_count(s, at) as nat, |region: int| list_region(s, at, region))
}

/// The region list that starts at `at`, or the error of reading it.
pub open spec fn region_list_at(s: Seq<u8>, at: int) -> Result<
    RegionListModel,
    DeserializationError,
> {
    if !list_fits(s, at) {
        Err(fault_at(Place::RegionList, DecodeFault::ShortRead))
    } else {
        Ok(RegionListModel { axis_count: u16_at(s, at), regions: list_regions(s, at) })
    }
}

// ---------------------------------------------------------------------------
// A store that fills the buffer `s` from its start.
// ---------------------------------------------------------------------------
/// The number of data blocks of the store.
pub open spec fn store_data_count(s: Seq<u8>) -> int {
    u16_at(s, 6) as int
}

/// The number of bytes of the header: `2 + 4 + 2 + 4 * dataCount`.
pub open spec fn store_prefix(s: Seq<u8>) -> int {
    8 + 4 * store_data_count(s)
}

/// Whether the header lies within the buffer.
pub open spec fn store_header_fits(s: Seq<u8>) -> bool {
    has_bytes(s, 0, 8) && has_bytes(s, 0, store_prefix(s))
}

/// The offset of the region list, from the start of the store.
pub open spec fn store_region_list_offset(s: Seq<u8>) -> int {
    u32_at(s, 2) as int
}

/// The offset of data block `i`, from the start of the store.
pub open spec fn store_data_offset(s: Seq<u8>, i: int) -> int {
    u32_at(s, 8 + 4 * i) as int
}

/// Everything after the header: the buffer that the offsets lead into.
pub open spec fn store_remainder(s: Seq<u8>) -> Seq<u8> {
    s.skip(store_prefix(s))
}

/// Whether an offset resolves to a position within the captured buffer or
/// at its end.
pub open spec fn resolves(s: Seq<u8>, offset: int) -> bool {
    store_prefix(s) <= offset <= store_prefix(s) + store_remainder(s).len()
}

/// The data block that an offset leads to in the buffer captured after a
/// header of `prefix` bytes, or the error of reaching or reading it.
pub open spec fn block_via(captured: Seq<u8>, prefix: int, offset: int, block: usize) -> Result<
    DataModel,
    DeserializationError,
> {
    if !(prefix <= offset <= prefix + captured.len()) {
        Err(fault_at(Place::VariationDataHeader { block }, DecodeFault::OffsetOutOfBounds))
    } else {
        data_at(captured, offset - prefix, block)
    }
}

/// Data block `i` of the store, or the error of reaching or reading it.
pub open spec fn store_block(s: Seq<u8>, i: int) -> Result<DataModel, DeserializationError> {
    block_via(store_remainder(s), store_prefix(s), store_data_offset(s, i), i as usize)
}

/// `rest` with `front` before it, where `rest` is a success.
pub open spec fn blocks_after(
    front: Seq<DataModel>,
    rest: Result<Seq<DataModel>, DeserializationError>,
) -> Result<Seq<DataModel>, DeserializationError> {
    match rest {
        Ok(blocks) => Ok(front + blocks),
        Err(e) => Err(e),
    }
}

/// The data blocks from block `from` on; the first block that cannot be
/// reached or read gives the error.
pub open spec fn store_blocks(s: Seq<u8>, from: int) -> Result<
    Seq<DataModel>,
    DeserializationError,
>
    decreases store_data_count(s) - from,
{
    if from < 0 || from >= store_data_count(s) {
        Ok(Seq::empty())
    } else {
        match store_block(s, from) {
            Err(e) => Err(e),
            Ok(block) => blocks_after(seq![block], store_blocks(s, from + 1)),
        }
    }
}

/// The store that `s` holds, or the first error of decoding it: a short
/// header; a region list that cannot be reached or read; a data block that
/// cannot be reached or read.
pub open spec fn store_at(s: Seq<u8>) -> Result<StoreModel, DeserializationError> {
    if !store_header_fits(s) {
        Err(fault_at(Place::StoreHeader, DecodeFault::ShortRead))
    } else if !resolves(s, store_region_list_offset(s)) {
        Err(fault_at(Place::RegionList, DecodeFault::OffsetOutOfBounds))
    } else {
        match region_list_at(store_remainder(s), store_region_list_offset(s) - store_prefix(s)) {
            Err(e) => Err(e),
            Ok(list) => match store_blocks(s, 0) {
                Err(e) => Err(e),
                Ok(data) => Ok(
                    StoreModel {
                        format: u16_at(s, 0),
                        axis_count: list.axis_count,
                        regions: list.regions,
                        data,
                    },
                ),
            },
        }
    }
}

/// Multiplying by a non-negative number keeps the order, and one more row
/// is one more row length.
proof fn lemma_rows(row: int, count: int, len: int)
    requires
        0 <= row < count,
        0 <= len,
    ensures
        (row + 1) * len == row * len + len,
        (row + 1) * len <= count * len,
        0 <= row * len,
{
    assert((row + 1) * len == row * len + len) by (nonlinear_arith);
    assert((row + 1) * len <= count * len) by (nonlinear_arith)
        requires
            row + 1 <= count,
            0 <= len,
    ;
    assert(0 <= row * len) by (nonlinear_arith)
        requires
            0 <= row,
            0 <= len,
    ;
}

impl ItemVariationData {
    /// Read a data block at the cursor.  `block` is the number of the block
    /// in its store, by which an error names it.
    pub fn decode(c: &mut ReaderContext, block: usize) -> (r: Result<Self, DeserializationError>)
        requires
            old(c).wf(),
        ensures
            final(c).wf(),
            final(c).bytes() == old(c).bytes(),
            match data_at(old(c).bytes(), old(c).position(), block) {
                Ok(model) => (r matches Ok(v) && v@ == model) && final(c).position() == old(
                    c,
                ).position() + data_len(old(c).bytes(), old(c).position()),
                Err(e) => r matches Err(x) && x == e,
            },
    {
        let ghost s = c.bytes();
        let ghost at = c.position();
        proof {
            c.lemma_within();
        }
        let short_header = DeserializationError {
            place: Place::VariationDataHeader { block },
            fault: DecodeFault::ShortRead,
        };
        let short_deltas = DeserializationError {
            place: Place::DeltaValues { block },
            fault: DecodeFault::ShortRead,
        };
        let item_count = match c.read_u16() {
            Some(v) => v,
            None => { return Err(short_header); },
        };
        let short_delta_count = match c.read_u16() {
            Some(v) => v,
            None => { return Err(short_header); },
        };
        let width = match c.read_u16() {
            Some(v) => v,
            None => { return Err(short_header); },
        };
        let mut region_indexes: Vec<u16> = Vec::new();
        let mut k: usize = 0;
        while k < width as usize
            invariant
                c.wf(),
                c.bytes() == s,
                s == old(c).bytes(),
                at == old(c).position(),
                has_bytes(s, at, 6),
                width == data_width(s, at),
                k <= width,
                c.position() == at + 6 + 2 * k,
                region_indexes@.len() == k,
                forall|i: int|
                    0 <= i < k ==> #[trigger] region_indexes@[i] == data_region_index(s, at, i),
                short_header == fault_at(
                    Place::VariationDataHeader { block },
                    DecodeFault::ShortRead,
                ),
            decreases width - k,
        {
            match c.read_u16() {
                Some(v) => {
                    region_indexes.push(v);
                    k = k + 1;
                },
                None => {
                    return Err(short_header);
                },
            }
        }
        proof {
            c.lemma_within();
            assert(data_header_fits(s, at));
            assert(region_indexes@ =~= data_region_indexes(s, at));
        }
        let ghost wide = data_wide_columns(s, at);
        let ghost row_len = data_row_len(s, at);
        let ghost header_len = data_header_len(s, at);
        let mut rows: Vec<Vec<i16>> = Vec::new();
        let mut row: usize = 0;
        while row < item_count as usize
            invariant
                c.wf(),
                c.bytes() == s,
                s == old(c).bytes(),
                at == old(c).position(),
                0 <= at,
                data_header_fits(s, at),
                width == data_width(s, at),
                short_delta_count == data_short_delta_count(s, at),
                item_count == data_item_count(s, at),
                wide == data_wide_columns(s, at),
                row_len == data_row_len(s, at),
                header_len == data_header_len(s, at),
                row <= item_count,
                c.position() == at + header_len + row * row_len,
                rows@.len() == row,
                forall|i: int| 0 <= i < row ==> (#[trigger] rows@[i])@ == data_row(s, at, i),
                short_deltas == fault_at(Place::DeltaValues { block }, DecodeFault::ShortRead),
            decreases item_count - row,
        {
            let mut deltas: Vec<i16> = Vec::new();
            let mut col: usize = 0;
            proof {
                lemma_rows(row as int, item_count as int, row_len);
            }
            while col < width as usize
                invariant
                    c.wf(),
                    c.bytes() == s,
                    s == old(c).bytes(),
                    at == old(c).position(),
                    0 <= at,
                    data_header_fits(s, at),
                    width == data_width(s, at),
                    short_delta_count == data_short_delta_count(s, at),
                    item_count == data_item_count(s, at),
                    wide == data_wide_columns(s, at),
                    row_len == data_row_len(s, at),
                    header_len == data_header_len(s, at),
                    row < item_count,
                    (row + 1) * row_len == row * row_len + row_len,
                    (row + 1) * row_len <= item_count * row_len,
                    0 <= row * row_len,
                    col <= width,
                    c.position() == delta_position(s, at, row as int, col as int),
                    deltas@.len() == col,
                    forall|j: int|
                        0 <= j < col ==> #[trigger] deltas@[j] == data_delta(s, at, row as int, j),
                    short_deltas == fault_at(Place::DeltaValues { block }, DecodeFault::ShortRead),
                decreases width - col,
            {
                if col <= short_delta_count as usize {
                    match c.read_i16() {
                        Some(v) => {
                            deltas.push(v);
                        },
                        None => {
                            return Err(short_deltas);
                        },
                    }
                } else {
                    match c.read_i8() {
                        Some(v) => {
                            deltas.push(v as i16);
                        },
                        None => {
                            return Err(short_deltas);
                        },
                    }
                }
                col = col + 1;
            }
            proof {
                assert(deltas@ =~= data_row(s, at, row as int));
            }
            rows.push(deltas);
            row = row + 1;
        }
        proof {
            c.lemma_within();
            assert(data_fits(s, at));
            assert(rows_of(rows@) =~= data_rows(s, at));
        }
        Ok(ItemVariationData { regionIndexes: region_indexes, deltaValues: rows })
    }

    /// Read a data block from the start of `bytes`.  Bytes after the block
    /// are left unread.
    pub fn from_bytes(bytes: &[u8]) -> (r: Result<Self, DeserializationError>)
        ensures
            match data_at(bytes@, 0, 0) {
                Ok(model) => r matches Ok(v) && v@ == model,
                Err(e) => r matches Err(x) && x == e,
            },
    {
        let mut c = ReaderContext::new(bytes);
        ItemVariationData::decode(&mut c, 0)
    }
}

/// The triples of a region list lie one after the other, region by region.
proof fn lemma_axes(region: int, axis: int, regions: int, axes: int)
    requires
        0 <= region < regions,
        0 <= axis < axes,
    ensures
        0 <= region * axes + axis,
        (region * axes + axis + 1) * 6 <= regions * axes * 6,
        (region + 1) * axes == region * axes + axes,
{
    assert(0 <= region * axes) by (nonlinear_arith)
        requires
            0 <= region,
            0 <= axes,
    ;
    assert((region + 1) * axes == region * axes + axes) by (nonlinear_arith);
    assert((region + 1) * axes <= regions * axes) by (nonlinear_arith)
        requires
            region + 1 <= regions,
            0 <= axes,
    ;
}

impl VariationRegionList {
    /// Read a region list at the cursor.
    pub fn decode(c: &mut ReaderContext) -> (r: Result<Self, DeserializationError>)
        requires
            old(c).wf(),
        ensures
            final(c).wf(),
            final(c).bytes() == old(c).bytes(),
            match region_list_at(old(c).bytes(), old(c).position()) {
                Ok(model) => (r matches Ok(v) && v@ == model && v.regionCount
                    == list_region_count(old(c).bytes(), old(c).position()))
                    && final(c).position() == old(c).position() + list_len(
                    old(c).bytes(),
                    old(c).position(),
                ),
                Err(e) => r matches Err(x) && x == e,
            },
    {
        let ghost s = c.bytes();
        let ghost at = c.position();
        proof {
            c.lemma_within();
        }
        let short = DeserializationError {
            place: Place::RegionList,
            fault: DecodeFault::ShortRead,
        };
        let axis_count = match c.read_u16() {
            Some(v) => v,
            None => { return Err(short); },
        };
        let region_count = match c.read_u16() {
            Some(v) => v,
            None => { return Err(short); },
        };
        let mut regions: Vec<Vec<RegionAxisCoordinates>> = Vec::new();
        let mut region: usize = 0;
        proof {
            assert(0 * (axis_count as int) == 0) by (nonlinear_arith);
        }
        while region < region_count as usize
            invariant
                c.wf(),
                c.bytes() == s,
                s == old(c).bytes(),
                at == old(c).position(),
                0 <= at,
                has_bytes(s, at, 4),
                axis_count == list_axis_count(s, at),
                region_count == list_region_count(s, at),
                region <= region_count,
                c.position() == at + 4 + (region * axis_count) * 6,
                regions@.len() == region,
                forall|i: int|
                    0 <= i < region ==> axes_of((#[trigger] regions@[i])@) == list_region(s, at, i),
                short == fault_at(Place::RegionList, DecodeFault::ShortRead),
            decreases region_count - region,
        {
            let mut axes: Vec<RegionAxisCoordinates> = Vec::new();
            let mut axis: usize = 0;
            while axis < axis_count as usize
                invariant
                    c.wf(),
                    c.bytes() == s,
                    s == old(c).bytes(),
                    at == old(c).position(),
                    0 <= at,
                    has_bytes(s, at, 4),
                    axis_count == list_axis_count(s, at),
                    region_count == list_region_count(s, at),
                    region < region_count,
                    axis <= axis_count,
                    c.position() == at + 4 + (region * axis_count + axis) * 6,
                    axes@.len() == axis,
                    forall|a: int|
                        0 <= a < axis ==> (#[trigger] axes@[a])@ == list_axis(
                            s,
                            at,
                            region as int,
                            a,
                        ),
                    short == fault_at(Place::RegionList, DecodeFault::ShortRead),
                decreases axis_count - axis,
            {
                proof {
                    lemma_axes(
                        region as int,
                        axis as int,
                        region_count as int,
                        axis_count as int,
                    );
                }
                let start = match c.read_i16() {
                    Some(v) => F2DOT14::from_packed(v),
                    None => { return Err(short); },
                };
                let peak = match c.read_i16() {
                    Some(v) => F2DOT14::from_packed(v),
                    None => { return Err(short); },
                };
                let end = match c.read_i16() {
                    Some(v) => F2DOT14::from_packed(v),
                    None => { return Err(short); },
                };
                axes.push(RegionAxisCoordinates { startCoord: start, peakCoord: peak, endCoord: end });
                axis = axis + 1;
            }
            proof {
                assert(axes_of(axes@) =~= list_region(s, at, region as int));
                if axis_count > 0 {
                    lemma_axes(region as int, 0, region_count as int, axis_count as int);
                } else {
                    assert(region * 0 == 0 && (region + 1) * 0 == 0) by (nonlinear_arith);
                }
            }
            regions.push(axes);
            region = region + 1;
        }
        proof {
            c.lemma_within();
            assert(list_fits(s, at));
            assert(regions_of(regions@) =~= list_regions(s, at));
        }
        Ok(
            VariationRegionList {
                axisCount: axis_count,
                regionCount: region_count,
                variationRegions: regions,
            },
        )
    }
}

/// The position in the captured buffer that an offset resolves to, where it
/// resolves to one.
fn resolve(offset: u32, prefix: usize, captured: usize) -> (r: Option<usize>)
    ensures
        r.is_some() == (prefix <= offset <= prefix + captured),
        r matches Some(at) ==> at == offset - prefix,
{
    let offset = offset as usize;
    if offset >= prefix && offset - prefix <= captured {
        Some(offset - prefix)
    } else {
        None
    }
}

/// Read the data block that an offset leads to in the captured buffer.
fn read_block(captured: &[u8], prefix: usize, offset: u32, block: usize) -> (r: Result<
    ItemVariationData,
    DeserializationError,
>)
    ensures
        match block_via(captured@, prefix as int, offset as int, block) {
            Ok(model) => r matches Ok(v) && v@ == model,
            Err(e) => r matches Err(x) && x == e,
        },
{
    let start = match resolve(offset, prefix, captured.len()) {
        Some(at) => at,
        None => {
            return Err(
                DeserializationError {
                    place: Place::VariationDataHeader { block },
                    fault: DecodeFault::OffsetOutOfBounds,
                },
            );
        },
    };
    let mut sub = ReaderContext::new(captured);
    sub.skip(start);
    ItemVariationData::decode(&mut sub, block)
}

impl ItemVariationStore {
    /// Decode a store from a buffer that starts with it.
    ///
    /// The header is read first; all that follows it is captured as one
    /// buffer, and each offset of the header is resolved against that
    /// buffer.  An offset that leads outside it, a short read or any other
    /// failure ends the decoding with the first error; no part of a store is
    /// ever returned.
    pub fn from_bytes(bytes: &[u8]) -> (r: Result<Self, DeserializationError>)
        ensures
            match store_at(bytes@) {
                Ok(model) => r matches Ok(v) && v@ == model,
                Err(e) => r matches Err(x) && x == e,
            },
    {
        let ghost s = bytes@;
        let mut c = ReaderContext::new(bytes);
        let short = DeserializationError {
            place: Place::StoreHeader,
            fault: DecodeFault::ShortRead,
        };
        let format = match c.read_u16() {
            Some(v) => v,
            None => { return Err(short); },
        };
        let offset = match c.read_u32() {
            Some(v) => v,
            None => { return Err(short); },
        };
        let data_count = match c.read_u16() {
            Some(v) => v,
            None => { return Err(short); },
        };
        let mut offsets: Vec<u32> = Vec::new();
        let mut i: usize = 0;
        while i < data_count as usize
            invariant
                c.wf(),
                c.bytes() == s,
                s == bytes@,
                has_bytes(s, 0, 8),
                data_count == store_data_count(s),
                i <= data_count,
                c.position() == 8 + 4 * i,
                offsets@.len() == i,
                forall|j: int| 0 <= j < i ==> #[trigger] offsets@[j] == store_data_offset(s, j),
                short == fault_at(Place::StoreHeader, DecodeFault::ShortRead),
            decreases data_count - i,
        {
            match c.read_u32() {
                Some(v) => {
                    offsets.push(v);
                    i = i + 1;
                },
                None => {
                    return Err(short);
                },
            }
        }
        proof {
            c.lemma_within();
            assert(store_header_fits(s));
        }
        let prefix = c.pos();
        let remainder = c.read_remainder();
        assert(remainder@ == store_remainder(s));
        let start = match resolve(offset, prefix, remainder.len()) {
            Some(at) => at,
            None => {
                return Err(
                    DeserializationError {
                        place: Place::RegionList,
                        fault: DecodeFault::OffsetOutOfBounds,
                    },
                );
            },
        };
        let mut sub = ReaderContext::new(remainder);
        sub.skip(start);
        let list = match VariationRegionList::decode(&mut sub) {
            Ok(list) => list,
            Err(e) => { return Err(e); },
        };
        let mut blocks: Vec<ItemVariationData> = Vec::new();
        let mut i: usize = 0;
        proof {
            assert(blocks_of(blocks@) =~= Seq::<DataModel>::empty());
            if let Ok(all) = store_blocks(s, 0) {
                assert(blocks_of(blocks@) + all =~= all);
            }
        }
        while i < data_count as usize
            invariant
                s == bytes@,
                store_header_fits(s),
                data_count == store_data_count(s),
                prefix == store_prefix(s),
                remainder@ == store_remainder(s),
                remainder@.len() == s.len() - prefix,
                i <= data_count,
                offsets@.len() == data_count,
                forall|j: int|
                    0 <= j < data_count ==> #[trigger] offsets@[j] == store_data_offset(s, j),
                store_blocks(s, 0) == blocks_after(blocks_of(blocks@), store_blocks(s, i as int)),
                resolves(s, store_region_list_offset(s)),
                region_list_at(
                    store_remainder(s),
                    store_region_list_offset(s) - store_prefix(s),
                ) is Ok,
            decreases data_count - i,
        {
            match read_block(remainder, prefix, offsets[i], i) {
                Err(e) => {
                    return Err(e);
                },
                Ok(block) => {
                    proof {
                        let before = blocks_of(blocks@);
                        let after = blocks_of(blocks@.push(block));
                        assert(after =~= before + seq![block@]);
                        if let Ok(tail) = store_blocks(s, i + 1) {
                            assert(before + (seq![block@] + tail) =~= after + tail);
                        }
                    }
                    blocks.push(block);
                    i = i + 1;
                },
            }
        }
        proof {
            assert(blocks_of(blocks@) + Seq::<DataModel>::empty() =~= blocks_of(blocks@));
        }
        Ok(
            ItemVariationStore {
                format,
                axisCount: list.axisCount,
                variationRegions: list.variationRegions,
                variationData: blocks,
            },
        )
    }
}

/// Where the data blocks from `from` on can all be read, the offset of each
/// of them resolves within the captured buffer.
pub proof fn lemma_blocks_resolve(s: Seq<u8>, from: int, i: int)
    requires
        0 <= from <= i < store_data_count(s),
        store_blocks(s, from) is Ok,
    ensures
        resolves(s, store_data_offset(s, i)),
    decreases i - from,
{
    if from < i {
        lemma_blocks_resolve(s, from + 1, i);
    } else {
        assert(store_block(s, i) is Ok);
    }
}

/// An offset that resolves outside the captured buffer makes the decoding
/// fail: a store is decoded only where the offset of the region list and
/// the offset of every data block resolve within the buffer that was
/// captured after the header.
pub proof fn lemma_offsets_in_bounds(s: Seq<u8>)
    requires
        store_at(s) is Ok,
    ensures
        store_header_fits(s),
        resolves(s, store_region_list_offset(s)),
        forall|i: int|
            0 <= i < store_data_count(s) ==> resolves(s, #[trigger] store_data_offset(s, i)),
{
    assert forall|i: int| 0 <= i < store_data_count(s) implies resolves(
        s,
        #[trigger] store_data_offset(s, i),
    ) by {
        lemma_blocks_resolve(s, 0, i);
    }
}

} // verus!
