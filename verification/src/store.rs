//! Dense, unbounded counting-bin storage.
//!
//! Bucket indices are signed integers with no a-priori range. The store keeps
//! one 64-bit count cell per representable index in a contiguous buffer; the
//! window of representable indices is `[offset, offset + length)`. When a new
//! index falls outside the window the buffer grows (rounded up to a multiple
//! of the growth increment) and the live data is re-centered so that future
//! growth on either side is served without moving data on every insertion.
//!
//! A cell value of `0` means "no weight stored". The cell payload itself is
//! opaque to this module: callers decide what the 64 bits mean.

use vstd::prelude::*;

use crate::iter::StoreIter;

verus! {

/// The buffer length is always rounded up to a multiple of this increment.
pub const ARRAY_LENGTH_GROWTH_INCREMENT: i64 = 64;

/// Extra slack reserved beyond the requested span on each resize.
pub const ARRAY_LENGTH_OVERHEAD: i64 = 6;

/// Largest buffer length the store ever allocates: the rounded-up length of
/// the widest possible `i32` index span.
pub const MAX_ARRAY_LENGTH: i64 = 0x1_0000_0080;

/// Growable dense store: one count cell per index in the current window.
pub struct UnboundedSizeDenseStore {
    /// One cell per representable index; position `p` holds the cell of
    /// index `offset + p`.
    pub counts: Vec<u64>,
    /// The bucket index mapped to buffer position zero.
    pub offset: i64,
    /// Smallest index inserted since the last clear; `i32::MAX` when empty.
    pub min_index: i32,
    /// Largest index inserted since the last clear; `i32::MIN` when empty.
    pub max_index: i32,
}

impl UnboundedSizeDenseStore {
    /// Buffer length, as a mathematical integer.
    pub open spec fn spec_len(self) -> int {
        self.counts@.len() as int
    }

    pub open spec fn spec_offset(self) -> int {
        self.offset as int
    }

    pub open spec fn spec_min(self) -> int {
        self.min_index as int
    }

    pub open spec fn spec_max(self) -> int {
        self.max_index as int
    }

    /// The store is empty exactly when the sentinel range is inverted.
    pub open spec fn spec_is_empty(self) -> bool {
        self.max_index < self.min_index
    }

    /// The cell stored for bucket index `idx`: the buffer entry when `idx`
    /// lies in the window, and zero for every index outside it.
    pub open spec fn cell(self, idx: int) -> u64 {
        if self.spec_offset() <= idx && idx < self.spec_offset() + self.spec_len() {
            self.counts@[idx - self.spec_offset()]
        } else {
            0u64
        }
    }

    /// Well-formedness: the buffer length is a bounded multiple of the growth
    /// increment; an empty store carries the sentinel range, offset zero and
    /// an all-zero buffer; a non-empty store keeps its active range inside
    /// the window and all cells outside the active range at zero.
    pub open spec fn wf(self) -> bool {
        &&& self.spec_len() % (ARRAY_LENGTH_GROWTH_INCREMENT as int) == 0
        &&& self.spec_len() <= MAX_ARRAY_LENGTH as int
        &&& (self.spec_is_empty() ==> {
            &&& self.min_index == i32::MAX
            &&& self.max_index == i32::MIN
            &&& self.offset == 0
            &&& forall|p: int| 0 <= p < self.spec_len() ==> self.counts@[p] == 0u64
        })
        &&& (!self.spec_is_empty() ==> {
            &&& self.spec_min() <= self.spec_max()
            &&& self.spec_offset() <= self.spec_min()
            &&& self.spec_max() < self.spec_offset() + self.spec_len()
            &&& forall|idx: int|
                idx < self.spec_min() || idx > self.spec_max() ==> self.cell(idx) == 0u64
        })
    }

    /// A freshly constructed store: empty, with no allocation.
    pub fn new() -> (store: Self)
        ensures
            store.wf(),
            store.spec_is_empty(),
            store.spec_len() == 0,
            store.spec_offset() == 0,
            forall|idx: int| store.cell(idx) == 0u64,
    {
        UnboundedSizeDenseStore {
            counts: Vec::new(),
            offset: 0,
            min_index: i32::MAX,
            max_index: i32::MIN,
        }
    }

    /// Emptiness test: no index has been inserted since the last clear.
    pub fn is_empty(&self) -> (empty: bool)
        ensures
            empty == self.spec_is_empty(),
    {
        self.max_index < self.min_index
    }

    /// Smallest inserted index; the sentinel `i32::MAX` when empty.
    pub fn get_min_index(&self) -> (idx: i32)
        ensures
            idx as int == self.spec_min(),
    {
        self.min_index
    }

    /// Largest inserted index; the sentinel `i32::MIN` when empty.
    pub fn get_max_index(&self) -> (idx: i32)
        ensures
            idx as int == self.spec_max(),
    {
        self.max_index
    }

    /// The bucket index mapped to buffer position zero.
    pub fn get_offset(&self) -> (off: i64)
        ensures
            off as int == self.spec_offset(),
    {
        self.offset
    }

    /// Current buffer length (capacity in cells; preserved by `clear`).
    pub fn get_length(&self) -> (len: usize)
        ensures
            len as int == self.spec_len(),
    {
        self.counts.len()
    }

    /// Raw buffer read at position `i`; callers supply an already-normalized
    /// position, so an out-of-bounds position is a contract violation.
    pub fn get_count(&self, i: i32) -> (cell: u64)
        requires
            0 <= i < self.spec_len(),
        ensures
            cell == self.counts@[i as int],
            self.wf() && !self.spec_is_empty() ==> cell == self.cell(self.spec_offset() + i),
    {
        self.counts[i as usize]
    }

    /// Overwrite the cell at buffer position `position`, which must lie
    /// inside the active range so the zero-outside-range invariant holds.
    pub fn set_count(&mut self, position: usize, cell: u64)
        requires
            old(self).wf(),
            !old(self).spec_is_empty(),
            old(self).spec_min() <= old(self).spec_offset() + position <= old(self).spec_max(),
        ensures
            final(self).wf(),
            final(self).spec_offset() == old(self).spec_offset(),
            final(self).spec_min() == old(self).spec_min(),
            final(self).spec_max() == old(self).spec_max(),
            final(self).spec_len() == old(self).spec_len(),
            final(self).cell(old(self).spec_offset() + position) == cell,
            forall|idx: int|
                idx != old(self).spec_offset() + position ==> final(self).cell(idx) == old(
                    self).cell(idx),
    {
        self.counts[position] = cell;
        proof {
            assert forall|idx: int|
                idx < self.spec_min() || idx > self.spec_max() implies self.cell(idx)
                == 0u64 by {
                assert(old(self).cell(idx) == 0u64);
            }
        }
    }

    /// Reset to the empty state: sentinel range, offset zero, all cells
    /// zeroed. The buffer length (capacity) is preserved for reuse.
    pub fn clear(&mut self)
        requires
            old(self).wf(),
        ensures
            final(self).wf(),
            final(self).spec_is_empty(),
            final(self).spec_len() == old(self).spec_len(),
            final(self).spec_offset() == 0,
            forall|idx: int| final(self).cell(idx) == 0u64,
    {
        let length = self.counts.len();
        fill_zero(&mut self.counts, 0, length);
        self.max_index = i32::MIN;
        self.min_index = i32::MAX;
        self.offset = 0;
    }
}

/// Zero every buffer position in `[from, to)`, leaving the rest unchanged.
fn fill_zero(counts: &mut Vec<u64>, from: usize, to: usize)
    requires
        from <= to <= old(counts)@.len(),
    ensures
        final(counts)@.len() == old(counts)@.len(),
        forall|p: int| from <= p < to ==> final(counts)@[p] == 0u64,
        forall|p: int|
            0 <= p < final(counts)@.len() && !(from <= p < to) ==> final(counts)@[p] == old(
                counts)@[p],
{
    let mut index: usize = from;
    while index < to
        invariant
            from <= index <= to <= counts@.len(),
            counts@.len() == old(counts)@.len(),
            forall|p: int| from <= p < index ==> counts@[p] == 0u64,
            forall|p: int|
                0 <= p < counts@.len() && !(from <= p < index) ==> counts@[p] == old(counts)@[p],
        decreases to - index,
    {
        counts[index] = 0u64;
        index = index + 1;
    }
}

/// The buffer length chosen for a required active range `[new_min, new_max]`:
/// the span plus the overhead, rounded up to the next multiple of the growth
/// increment (always strictly above the span, so the window never fits
/// exactly).
pub open spec fn spec_new_length(new_min: int, new_max: int) -> int {
    ((new_max - new_min + 1 + ARRAY_LENGTH_OVERHEAD - 1) / (
    ARRAY_LENGTH_GROWTH_INCREMENT as int) + 1) * (ARRAY_LENGTH_GROWTH_INCREMENT as int)
}

/// Bounds of the rounded-up length: a positive multiple of the increment, at
/// least the span plus the overhead, and never above `MAX_ARRAY_LENGTH` for
/// spans that fit the index type.
proof fn lemma_new_length_bounds(new_min: int, new_max: int)
    requires
        new_min <= new_max,
        new_max - new_min + 1 <= 0x1_0000_0000,
    ensures
        spec_new_length(new_min, new_max) % (ARRAY_LENGTH_GROWTH_INCREMENT as int) == 0,
        spec_new_length(new_min, new_max) >= new_max - new_min + 1 + ARRAY_LENGTH_OVERHEAD,
        spec_new_length(new_min, new_max) <= MAX_ARRAY_LENGTH as int,
        spec_new_length(new_min, new_max) >= ARRAY_LENGTH_GROWTH_INCREMENT as int,
{
    let d = new_max - new_min + 1;
    let q = (d + 5) / 64;
    vstd::arithmetic::div_mod::lemma_fundamental_div_mod(d + 5, 64);
    vstd::arithmetic::div_mod::lemma_mod_division_less_than_divisor(d + 5, 64);
    vstd::arithmetic::div_mod::lemma_div_is_ordered(d + 5, 0x1_0000_0005, 64);
    vstd::arithmetic::div_mod::lemma_mod_multiples_basic(q + 1, 64);
    assert(0x1_0000_0005int / 64 == 0x400_0000);
}

/// Extend the buffer with zero cells until it holds `new_length` of them.
fn grow_to(counts: &mut Vec<u64>, new_length: i64)
    requires
        old(counts)@.len() <= new_length <= MAX_ARRAY_LENGTH as int,
    ensures
        final(counts)@.len() == new_length,
        forall|p: int| 0 <= p < old(counts)@.len() ==> final(counts)@[p] == old(counts)@[p],
        forall|p: int| old(counts)@.len() <= p < new_length ==> final(counts)@[p] == 0u64,
{
    while (counts.len() as i64) < new_length
        invariant
            old(counts)@.len() <= counts@.len() <= new_length <= MAX_ARRAY_LENGTH as int,
            forall|p: int| 0 <= p < old(counts)@.len() ==> counts@[p] == old(counts)@[p],
            forall|p: int| old(counts)@.len() <= p < counts@.len() ==> counts@[p] == 0u64,
        decreases new_length - counts@.len(),
    {
        counts.push(0u64);
    }
}

impl UnboundedSizeDenseStore {
    /// The rounded-up buffer length for the range `[new_min_index,
    /// new_max_index]`; see `spec_new_length`.
    fn get_new_length(new_min_index: i64, new_max_index: i64) -> (new_length: i64)
        requires
            i32::MIN <= new_min_index <= new_max_index <= i32::MAX,
        ensures
            new_length == spec_new_length(new_min_index as int, new_max_index as int),
    {
        let desired_length = new_max_index - new_min_index + 1;
        ((desired_length + ARRAY_LENGTH_OVERHEAD - 1) / ARRAY_LENGTH_GROWTH_INCREMENT + 1)
            * ARRAY_LENGTH_GROWTH_INCREMENT
    }

    /// Overlap-safe in-place block move: copy `length` cells starting at
    /// `src_pos` onto the positions starting at `dest_pos`, traversing
    /// backward when the destination follows the source so that no cell is
    /// overwritten before it has been read.
    fn array_copy(&mut self, src_pos: usize, dest_pos: usize, length: usize)
        requires
            src_pos + length <= old(self).counts@.len(),
            dest_pos + length <= old(self).counts@.len(),
        ensures
            final(self).offset == old(self).offset,
            final(self).min_index == old(self).min_index,
            final(self).max_index == old(self).max_index,
            final(self).counts@.len() == old(self).counts@.len(),
            forall|p: int|
                dest_pos <= p < dest_pos + length ==> final(self).counts@[p] == old(
                    self).counts@[p - dest_pos + src_pos],
            forall|p: int|
                0 <= p < old(self).counts@.len() && !(dest_pos <= p < dest_pos + length)
                    ==> final(self).counts@[p] == old(self).counts@[p],
    {
        proof {
            vstd::std_specs::vec::axiom_spec_len(&self.counts);
        }
        if src_pos < dest_pos {
            let mut k: usize = length;
            while k > 0
                invariant
                    k <= length,
                    src_pos < dest_pos,
                    src_pos + length <= self.counts@.len(),
                    dest_pos + length <= self.counts@.len(),
                    self.counts@.len() <= usize::MAX,
                    self.offset == old(self).offset,
                    self.min_index == old(self).min_index,
                    self.max_index == old(self).max_index,
                    self.counts@.len() == old(self).counts@.len(),
                    forall|p: int|
                        dest_pos + k <= p < dest_pos + length ==> self.counts@[p] == old(
                            self).counts@[p - dest_pos + src_pos],
                    forall|p: int|
                        0 <= p < self.counts@.len() && !(dest_pos + k <= p < dest_pos + length)
                            ==> self.counts@[p] == old(self).counts@[p],
                decreases k,
            {
                k = k - 1;
                let moved = self.counts[src_pos + k];
                self.counts[dest_pos + k] = moved;
            }
        } else if src_pos > dest_pos {
            let mut k: usize = 0;
            while k < length
                invariant
                    k <= length,
                    src_pos > dest_pos,
                    src_pos + length <= self.counts@.len(),
                    dest_pos + length <= self.counts@.len(),
                    self.counts@.len() <= usize::MAX,
                    self.offset == old(self).offset,
                    self.min_index == old(self).min_index,
                    self.max_index == old(self).max_index,
                    self.counts@.len() == old(self).counts@.len(),
                    forall|p: int|
                        dest_pos <= p < dest_pos + k ==> self.counts@[p] == old(
                            self).counts@[p - dest_pos + src_pos],
                    forall|p: int|
                        0 <= p < self.counts@.len() && !(dest_pos <= p < dest_pos + k)
                            ==> self.counts@[p] == old(self).counts@[p],
                decreases length - k,
            {
                let moved = self.counts[src_pos + k];
                self.counts[dest_pos + k] = moved;
                k = k + 1;
            }
        }
    }
}

impl UnboundedSizeDenseStore {
    /// Move the live slice of cells by `shift` positions (overlap-safe),
    /// zero-fill the vacated region, and lower `offset` by `shift`, so that
    /// every bucket index keeps the cell it had before the move.
    fn shift_counts(&mut self, shift: i64)
        requires
            old(self).spec_len() <= MAX_ARRAY_LENGTH as int,
            old(self).spec_min() <= old(self).spec_max(),
            old(self).spec_offset() <= old(self).spec_min(),
            old(self).spec_max() < old(self).spec_offset() + old(self).spec_len(),
            0 <= old(self).spec_min() - old(self).spec_offset() + shift,
            old(self).spec_max() - old(self).spec_offset() + shift < old(self).spec_len(),
            forall|idx: int|
                idx < old(self).spec_min() || idx > old(self).spec_max() ==> old(self).cell(idx)
                    == 0u64,
        ensures
            final(self).min_index == old(self).min_index,
            final(self).max_index == old(self).max_index,
            final(self).spec_len() == old(self).spec_len(),
            final(self).spec_offset() == old(self).spec_offset() - shift,
            forall|idx: int| final(self).cell(idx) == old(self).cell(idx),
    {
        proof {
            vstd::std_specs::vec::axiom_spec_len(&self.counts);
        }
        let min_array_index: i64 = self.min_index as i64 - self.offset;
        let max_array_index: i64 = self.max_index as i64 - self.offset;

        self.array_copy(
            min_array_index as usize,
            (min_array_index + shift) as usize,
            (max_array_index - min_array_index + 1) as usize,
        );

        if shift > 0 {
            let from = min_array_index as usize;
            let to = (min_array_index + shift) as usize;
            fill_zero(&mut self.counts, from, to);
        } else {
            let from = (max_array_index + 1 + shift) as usize;
            let to = (max_array_index + 1) as usize;
            fill_zero(&mut self.counts, from, to);
        }

        self.offset = self.offset - shift;

        proof {
            let a = old(self).spec_min() - old(self).spec_offset();
            let b = old(self).spec_max() - old(self).spec_offset();
            assert forall|idx: int| self.cell(idx) == old(self).cell(idx) by {
                if old(self).spec_min() <= idx <= old(self).spec_max() {
                    assert(self.counts@[idx - self.spec_offset()] == old(self).counts@[idx - old(
                        self).spec_offset()]);
                } else {
                    assert(old(self).cell(idx) == 0u64);
                    if self.spec_offset() <= idx < self.spec_offset() + self.spec_len() {
                        let p = idx - self.spec_offset();
                        if a + shift <= p <= b + shift {
                            assert(self.counts@[p] == old(self).counts@[p - shift]);
                            assert(old(self).cell(idx) == old(self).counts@[p - shift]);
                        } else if shift > 0 && a <= p < a + shift {
                            assert(self.counts@[p] == 0u64);
                        } else if shift <= 0 && b + shift < p <= b {
                            assert(self.counts@[p] == 0u64);
                        } else {
                            assert(self.counts@[p] == old(self).counts@[p]);
                            assert(old(self).cell(old(self).spec_offset() + p) == 0u64);
                        }
                    }
                }
            }
        }
    }
}

/// After centering, the window `[off, off + len)` placed so its midpoint
/// aligns with the midpoint of `[new_min, new_max]` contains that whole
/// range, provided the buffer is at least the span plus the overhead.
proof fn lemma_centering_bounds(new_min: int, new_max: int, len: int)
    requires
        new_min <= new_max,
        len >= new_max - new_min + 1 + ARRAY_LENGTH_OVERHEAD,
    ensures
        ({
            let middle = new_min + (new_max - new_min + 1) / 2;
            let off = middle - len / 2;
            off <= new_min && new_max < off + len
        }),
{
    let s = new_max - new_min + 1;
    vstd::arithmetic::div_mod::lemma_fundamental_div_mod(s, 2);
    vstd::arithmetic::div_mod::lemma_mod_division_less_than_divisor(s, 2);
    vstd::arithmetic::div_mod::lemma_fundamental_div_mod(len, 2);
    vstd::arithmetic::div_mod::lemma_mod_division_less_than_divisor(len, 2);
}

impl UnboundedSizeDenseStore {
    /// Re-center: align the midpoint of the candidate active range with the
    /// midpoint of the buffer, move the live cells accordingly, and commit
    /// the candidate range.
    fn center_counts(&mut self, new_min_index: i32, new_max_index: i32)
        requires
            old(self).spec_len() % (ARRAY_LENGTH_GROWTH_INCREMENT as int) == 0,
            old(self).spec_len() <= MAX_ARRAY_LENGTH as int,
            old(self).spec_min() <= old(self).spec_max(),
            new_min_index as int <= old(self).spec_min(),
            old(self).spec_max() <= new_max_index as int,
            old(self).spec_offset() <= old(self).spec_min(),
            old(self).spec_max() < old(self).spec_offset() + old(self).spec_len(),
            old(self).spec_len() >= new_max_index - new_min_index + 1 + ARRAY_LENGTH_OVERHEAD,
            forall|idx: int|
                idx < old(self).spec_min() || idx > old(self).spec_max() ==> old(self).cell(idx)
                    == 0u64,
        ensures
            final(self).wf(),
            !final(self).spec_is_empty(),
            final(self).spec_len() == old(self).spec_len(),
            final(self).spec_min() == new_min_index as int,
            final(self).spec_max() == new_max_index as int,
            forall|idx: int| final(self).cell(idx) == old(self).cell(idx),
    {
        let new_min: i64 = new_min_index as i64;
        let new_max: i64 = new_max_index as i64;
        let middle_index: i64 = new_min + (new_max - new_min + 1) / 2;
        let buffer_len: i64 = self.counts.len() as i64;
        let shift: i64 = self.offset + buffer_len / 2 - middle_index;
        proof {
            lemma_centering_bounds(new_min as int, new_max as int, buffer_len as int);
        }
        self.shift_counts(shift);
        self.min_index = new_min_index;
        self.max_index = new_max_index;
        proof {
            assert forall|idx: int|
                idx < self.spec_min() || idx > self.spec_max() implies self.cell(idx)
                == 0u64 by {
                assert(old(self).cell(idx) == 0u64);
            }
        }
    }

    /// Adjust the window to hold the candidate active range; dense unbounded
    /// storage always does so by re-centering.
    fn adjust(&mut self, new_min_index: i32, new_max_index: i32)
        requires
            old(self).spec_len() % (ARRAY_LENGTH_GROWTH_INCREMENT as int) == 0,
            old(self).spec_len() <= MAX_ARRAY_LENGTH as int,
            old(self).spec_min() <= old(self).spec_max(),
            new_min_index as int <= old(self).spec_min(),
            old(self).spec_max() <= new_max_index as int,
            old(self).spec_offset() <= old(self).spec_min(),
            old(self).spec_max() < old(self).spec_offset() + old(self).spec_len(),
            old(self).spec_len() >= new_max_index - new_min_index + 1 + ARRAY_LENGTH_OVERHEAD,
            forall|idx: int|
                idx < old(self).spec_min() || idx > old(self).spec_max() ==> old(self).cell(idx)
                    == 0u64,
        ensures
            final(self).wf(),
            !final(self).spec_is_empty(),
            final(self).spec_len() == old(self).spec_len(),
            final(self).spec_min() == new_min_index as int,
            final(self).spec_max() == new_max_index as int,
            forall|idx: int| final(self).cell(idx) == old(self).cell(idx),
    {
        self.center_counts(new_min_index, new_max_index);
    }
}

impl UnboundedSizeDenseStore {
    /// Widen the active range to cover `[new_min_index, new_max_index]`,
    /// growing the buffer (never shrinking it) and re-centering the window
    /// when the merged range does not fit; every cell keeps its value.
    fn extend_range(&mut self, new_min_index: i32, new_max_index: i32)
        requires
            old(self).wf(),
            new_min_index <= new_max_index,
        ensures
            final(self).wf(),
            !final(self).spec_is_empty(),
            final(self).spec_min() == vstd::math::min(
                old(self).spec_min(),
                new_min_index as int,
            ),
            final(self).spec_max() == vstd::math::max(
                old(self).spec_max(),
                new_max_index as int,
            ),
            final(self).spec_len() >= old(self).spec_len(),
            final(self).spec_len() > 0,
            forall|idx: int| final(self).cell(idx) == old(self).cell(idx),
    {
        proof {
            vstd::std_specs::vec::axiom_spec_len(&self.counts);
        }
        let new_min_index: i32 = if new_min_index < self.min_index {
            new_min_index
        } else {
            self.min_index
        };
        let new_max_index: i32 = if new_max_index > self.max_index {
            new_max_index
        } else {
            self.max_index
        };

        if self.is_empty() {
            let initial_length = Self::get_new_length(new_min_index as i64, new_max_index as i64);
            proof {
                lemma_new_length_bounds(new_min_index as int, new_max_index as int);
            }
            if initial_length >= self.counts.len() as i64 {
                grow_to(&mut self.counts, initial_length);
            }
            self.offset = new_min_index as i64;
            self.min_index = new_min_index;
            self.max_index = new_max_index;
            proof {
                assert forall|p: int| 0 <= p < self.spec_len() implies self.counts@[p]
                    == 0u64 by {
                    if p < old(self).spec_len() {
                        assert(old(self).counts@[p] == 0u64);
                    }
                }
                assert forall|idx: int|
                    idx < self.spec_min() || idx > self.spec_max() implies self.cell(idx)
                    == 0u64 by {}
            }
            self.adjust(new_min_index, new_max_index);
        } else if new_min_index as i64 >= self.offset && (new_max_index as i64) < self.offset
            + self.counts.len() as i64 {
            self.min_index = new_min_index;
            self.max_index = new_max_index;
            proof {
                assert forall|idx: int|
                    idx < self.spec_min() || idx > self.spec_max() implies self.cell(idx)
                    == 0u64 by {
                    assert(old(self).cell(idx) == 0u64);
                }
            }
        } else {
            // To avoid shifting too often when nearing the capacity of the
            // array, grow it before the capacity is actually reached.
            let new_length = Self::get_new_length(new_min_index as i64, new_max_index as i64);
            proof {
                lemma_new_length_bounds(new_min_index as int, new_max_index as int);
            }
            if new_length > self.counts.len() as i64 {
                grow_to(&mut self.counts, new_length);
            }
            proof {
                assert forall|idx: int|
                    idx < self.spec_min() || idx > self.spec_max() implies self.cell(idx)
                    == 0u64 by {
                    assert(old(self).cell(idx) == 0u64);
                }
            }
            self.adjust(new_min_index, new_max_index);
        }
    }

    /// Make `index` representable (growing and re-centering the window as
    /// needed), widen the active range to include it, and return its buffer
    /// position `index - offset`. No cell changes its value.
    pub fn normalize(&mut self, index: i32) -> (position: usize)
        requires
            old(self).wf(),
        ensures
            final(self).wf(),
            !final(self).spec_is_empty(),
            final(self).spec_min() == vstd::math::min(old(self).spec_min(), index as int),
            final(self).spec_max() == vstd::math::max(old(self).spec_max(), index as int),
            final(self).spec_len() >= old(self).spec_len(),
            final(self).spec_len() > 0,
            forall|idx: int| final(self).cell(idx) == old(self).cell(idx),
            position == index - final(self).spec_offset(),
            position < final(self).spec_len(),
            final(self).spec_min() <= final(self).spec_offset() + position <= final(
                self).spec_max(),
    {
        if index < self.min_index || index > self.max_index {
            self.extend_range(index, index);
        }
        proof {
            vstd::std_specs::vec::axiom_spec_len(&self.counts);
        }
        (index as i64 - self.offset) as usize
    }
}

impl UnboundedSizeDenseStore {
    /// The cells at the buffer positions derived from `[from, to]`, clamped
    /// to the buffer: positions `max(from - offset, 0)` up to and including
    /// `min(to - offset, length - 1)`; empty when the store is empty.
    pub open spec fn spec_range_cells(self, from: int, to: int) -> Seq<u64> {
        if self.spec_is_empty() {
            Seq::empty()
        } else {
            let lo = vstd::math::max(from - self.spec_offset(), 0);
            let hi = vstd::math::min(to - self.spec_offset(), self.spec_len() - 1) + 1;
            if lo >= hi {
                Seq::empty()
            } else {
                self.counts@.subrange(lo, hi)
            }
        }
    }

    /// The cells whose total is the partial sum over `[from_index,
    /// to_index]`: buffer contents between the clamped positions, in
    /// ascending index order; empty when the store is empty.
    pub fn cells_in_range(&self, from_index: i32, to_index: i32) -> (cells: Vec<u64>)
        requires
            self.wf(),
        ensures
            cells@ == self.spec_range_cells(from_index as int, to_index as int),
    {
        proof {
            vstd::std_specs::vec::axiom_spec_len(&self.counts);
        }
        let mut cells: Vec<u64> = Vec::new();
        if self.is_empty() {
            return cells;
        }
        let candidate_from: i64 = from_index as i64 - self.offset;
        let from_array_index: i64 = if candidate_from > 0 {
            candidate_from
        } else {
            0
        };
        let candidate_to: i64 = to_index as i64 - self.offset;
        let last: i64 = self.counts.len() as i64 - 1;
        let to_array_index: i64 = (if candidate_to < last {
            candidate_to
        } else {
            last
        }) + 1;

        let mut array_index: i64 = from_array_index;
        proof {
            if from_array_index < to_array_index {
                assert(cells@ =~= self.counts@.subrange(
                    from_array_index as int,
                    from_array_index as int,
                ));
            }
        }
        while array_index < to_array_index
            invariant
                self.wf(),
                !self.spec_is_empty(),
                0 <= from_array_index <= array_index,
                array_index <= vstd::math::max(from_array_index as int, to_array_index as int),
                to_array_index <= self.spec_len(),
                self.spec_len() <= usize::MAX,
                cells@ == (if from_array_index < to_array_index {
                    self.counts@.subrange(from_array_index as int, array_index as int)
                } else {
                    Seq::<u64>::empty()
                }),
            decreases to_array_index - array_index,
        {
            cells.push(self.counts[array_index as usize]);
            proof {
                assert(self.counts@.subrange(from_array_index as int, array_index + 1)
                    =~= self.counts@.subrange(from_array_index as int, array_index as int).push(
                    self.counts@[array_index as int]));
            }
            array_index = array_index + 1;
        }
        proof {
            assert(cells@ =~= self.spec_range_cells(from_index as int, to_index as int));
        }
        cells
    }
}

impl UnboundedSizeDenseStore {
    /// The `(index, cell)` pairs of the non-zero bins with index in
    /// `[lo, hi)`, in ascending index order.
    pub open spec fn spec_bins_between(self, lo: int, hi: int) -> Seq<(i32, u64)>
        decreases hi - lo,
    {
        if lo >= hi {
            Seq::empty()
        } else if self.cell(lo) != 0u64 {
            seq![(lo as i32, self.cell(lo))] + self.spec_bins_between(lo + 1, hi)
        } else {
            self.spec_bins_between(lo + 1, hi)
        }
    }

    /// The non-zero bins of the whole active range, ascending.
    pub open spec fn spec_ascending_bins(self) -> Seq<(i32, u64)> {
        self.spec_bins_between(self.spec_min(), self.spec_max() + 1)
    }

    /// Peeling the top index off `[lo, hi + 1)` appends at most one pair.
    proof fn lemma_bins_between_snoc(self, lo: int, hi: int)
        requires
            lo <= hi,
        ensures
            self.spec_bins_between(lo, hi + 1) == self.spec_bins_between(lo, hi) + (
            if self.cell(hi) != 0u64 {
                seq![(hi as i32, self.cell(hi))]
            } else {
                Seq::<(i32, u64)>::empty()
            }),
        decreases hi - lo,
    {
        let tail = if self.cell(hi) != 0u64 {
            seq![(hi as i32, self.cell(hi))]
        } else {
            Seq::<(i32, u64)>::empty()
        };
        if lo == hi {
            assert(self.spec_bins_between(lo + 1, hi + 1) =~= Seq::<(i32, u64)>::empty());
            assert(self.spec_bins_between(lo, hi) =~= Seq::<(i32, u64)>::empty());
            assert(self.spec_bins_between(lo, hi + 1) =~= self.spec_bins_between(lo, hi) + tail);
        } else {
            self.lemma_bins_between_snoc(lo + 1, hi);
            assert(self.spec_bins_between(lo, hi + 1) =~= self.spec_bins_between(lo, hi) + tail);
        }
    }

    /// Every listed bin lies in `[lo, hi)`, carries its own non-zero cell,
    /// and the indices come out strictly increasing.
    pub proof fn lemma_bins_between_ordered(self, lo: int, hi: int)
        requires
            i32::MIN <= lo,
            hi <= i32::MAX + 1,
        ensures
            forall|k: int| #![trigger self.spec_bins_between(lo, hi)[k]]
                0 <= k < self.spec_bins_between(lo, hi).len() ==> (lo
                    <= self.spec_bins_between(lo, hi)[k].0 as int
                    && (self.spec_bins_between(lo, hi)[k].0 as int) < hi
                    && self.spec_bins_between(lo, hi)[k].1 == self.cell(
                    self.spec_bins_between(lo, hi)[k].0 as int)
                    && self.spec_bins_between(lo, hi)[k].1 != 0u64),
            forall|k1: int, k2: int|
                #![trigger self.spec_bins_between(lo, hi)[k1], self.spec_bins_between(lo, hi)[k2]]
                0 <= k1 < k2 < self.spec_bins_between(lo, hi).len()
                    ==> self.spec_bins_between(lo, hi)[k1].0 < self.spec_bins_between(
                    lo,
                    hi,
                )[k2].0,
        decreases hi - lo,
    {
        if lo < hi {
            self.lemma_bins_between_ordered(lo + 1, hi);
            let rest = self.spec_bins_between(lo + 1, hi);
            let whole = self.spec_bins_between(lo, hi);
            if self.cell(lo) != 0u64 {
                assert forall|k: int| #![trigger whole[k]] 0 <= k < whole.len() implies (lo
                    <= whole[k].0 as int && (whole[k].0 as int) < hi && whole[k].1
                    == self.cell(whole[k].0 as int) && whole[k].1 != 0u64) by {
                    if k == 0 {
                        assert(whole[0] == (lo as i32, self.cell(lo)));
                    } else {
                        assert(whole[k] == rest[k - 1]);
                    }
                }
                assert forall|k1: int, k2: int| 0 <= k1 < k2 < whole.len() implies (
                whole[k1]).0 < (whole[k2]).0 by {
                    if k1 == 0 {
                        assert(whole[k2] == rest[k2 - 1]);
                        assert(lo + 1 <= rest[k2 - 1].0 as int);
                    } else {
                        assert(whole[k1] == rest[k1 - 1]);
                        assert(whole[k2] == rest[k2 - 1]);
                    }
                }
            } else {
                assert(whole == rest);
            }
        }
    }

    /// The non-zero bins in ascending index order, materialized eagerly.
    pub fn get_ascending_stream(&self) -> (bins: Vec<(i32, u64)>)
        requires
            self.wf(),
        ensures
            bins@ == self.spec_ascending_bins(),
    {
        proof {
            vstd::std_specs::vec::axiom_spec_len(&self.counts);
        }
        let mut bins: Vec<(i32, u64)> = Vec::new();
        let mut index: i64 = self.min_index as i64;
        while index <= self.max_index as i64
            invariant
                self.wf(),
                self.spec_min() <= index,
                index <= vstd::math::max(self.spec_min(), self.spec_max() + 1),
                bins@ == self.spec_bins_between(self.spec_min(), index as int),
                self.spec_len() <= usize::MAX,
            decreases self.spec_max() - index + 1,
        {
            let value = self.counts[(index - self.offset) as usize];
            proof {
                self.lemma_bins_between_snoc(self.spec_min(), index as int);
            }
            if value != 0 {
                bins.push((index as i32, value));
                proof {
                    assert(bins@ =~= self.spec_bins_between(self.spec_min(), index + 1));
                }
            } else {
                proof {
                    assert(bins@ =~= self.spec_bins_between(self.spec_min(), index + 1));
                }
            }
            index = index + 1;
        }
        bins
    }

    /// The non-zero bins in descending index order: the exact reverse of the
    /// ascending traversal.
    pub fn get_descending_stream(&self) -> (bins: Vec<(i32, u64)>)
        requires
            self.wf(),
        ensures
            bins@ == self.spec_ascending_bins().reverse(),
    {
        proof {
            vstd::std_specs::vec::axiom_spec_len(&self.counts);
        }
        let mut bins: Vec<(i32, u64)> = Vec::new();
        let mut index: i64 = self.max_index as i64;
        while index >= self.min_index as i64
            invariant
                self.wf(),
                index <= self.spec_max(),
                index >= vstd::math::min(self.spec_max(), self.spec_min() - 1),
                bins@ == self.spec_bins_between(index + 1, self.spec_max() + 1).reverse(),
                self.spec_len() <= usize::MAX,
            decreases index - self.spec_min() + 1,
        {
            let value = self.counts[(index - self.offset) as usize];
            proof {
                let rest = self.spec_bins_between(index + 1, self.spec_max() + 1);
                let whole = self.spec_bins_between(index as int, self.spec_max() + 1);
                if self.cell(index as int) != 0u64 {
                    assert(whole == seq![(index as i32, self.cell(index as int))] + rest);
                    assert(whole.reverse() =~= rest.reverse().push(
                        (index as i32, self.cell(index as int)),
                    ));
                } else {
                    assert(whole == rest);
                }
            }
            if value != 0 {
                bins.push((index as i32, value));
            }
            index = index - 1;
        }
        proof {
            if self.spec_is_empty() {
                assert(self.spec_ascending_bins().reverse() =~= Seq::<(i32, u64)>::empty());
            }
        }
        bins
    }

    /// Lazy, finite, one-shot traversal of the non-zero bins in ascending
    /// index order, over a snapshot taken now.
    pub fn get_ascending_iter(&self) -> (it: StoreIter)
        requires
            self.wf(),
        ensures
            it.wf(),
            it.remaining() == self.spec_ascending_bins(),
    {
        StoreIter::new(self.get_ascending_stream())
    }

    /// Lazy, finite, one-shot traversal of the non-zero bins in descending
    /// index order, over a snapshot taken now.
    pub fn get_descending_iter(&self) -> (it: StoreIter)
        requires
            self.wf(),
        ensures
            it.wf(),
            it.remaining() == self.spec_ascending_bins().reverse(),
    {
        StoreIter::new(self.get_descending_stream())
    }
}

/// Law: two empty well-formed stores are indistinguishable to every query,
/// whatever their capacities: same sentinel range and offset, the same
/// (all-zero) cell at every index, the same (empty) traversals, and the same
/// (empty) range reads. A cleared store therefore answers every query like a
/// freshly constructed one, while keeping its buffer length.
pub proof fn lemma_empty_stores_agree(a: UnboundedSizeDenseStore, b: UnboundedSizeDenseStore)
    requires
        a.wf(),
        b.wf(),
        a.spec_is_empty(),
        b.spec_is_empty(),
    ensures
        a.spec_min() == b.spec_min(),
        a.spec_max() == b.spec_max(),
        a.spec_offset() == b.spec_offset(),
        forall|idx: int| a.cell(idx) == b.cell(idx),
        a.spec_ascending_bins() == b.spec_ascending_bins(),
        forall|from: int, to: int|
            #![trigger a.spec_range_cells(from, to), b.spec_range_cells(from, to)]
            a.spec_range_cells(from, to) == b.spec_range_cells(from, to),
{
    assert forall|idx: int| a.cell(idx) == b.cell(idx) by {
        assert(a.cell(idx) == 0u64);
        assert(b.cell(idx) == 0u64);
    }
}

/// Law: once any insertion has occurred, the buffer length is positive and a
/// multiple of the growth increment (and the contracts of `normalize` and
/// `clear` keep it non-decreasing from then on).
pub proof fn lemma_buffer_length_positive_multiple(store: UnboundedSizeDenseStore)
    requires
        store.wf(),
        !store.spec_is_empty(),
    ensures
        store.spec_len() > 0,
        store.spec_len() % (ARRAY_LENGTH_GROWTH_INCREMENT as int) == 0,
{
}

/// Law: the ascending traversal lists bins with strictly increasing indices,
/// every listed bin lies inside the active range and carries its own
/// non-zero cell; the descending traversal is its exact reverse by the
/// contract of `get_descending_stream`.
pub proof fn lemma_ascending_bins_strictly_increasing(store: UnboundedSizeDenseStore)
    requires
        store.wf(),
    ensures
        forall|k: int| #![trigger store.spec_ascending_bins()[k]]
            0 <= k < store.spec_ascending_bins().len() ==> (store.spec_min()
                <= store.spec_ascending_bins()[k].0 as int
                && store.spec_ascending_bins()[k].0 as int <= store.spec_max()
                && store.spec_ascending_bins()[k].1 == store.cell(
                store.spec_ascending_bins()[k].0 as int)
                && store.spec_ascending_bins()[k].1 != 0u64),
        forall|k1: int, k2: int|
            #![trigger store.spec_ascending_bins()[k1], store.spec_ascending_bins()[k2]]
            0 <= k1 < k2 < store.spec_ascending_bins().len()
                ==> store.spec_ascending_bins()[k1].0 < store.spec_ascending_bins()[k2].0,
{
    store.lemma_bins_between_ordered(store.spec_min(), store.spec_max() + 1);
}

} // verus!
