//! Slices and arrays indexed relative to a movable "zero" position, so that
//! negative indices can address samples to the left of / above a block.
use vstd::prelude::*;
use vstd::std_specs::iter::IteratorSpec;
use std::slice::{ChunksExactMut, ChunksMut};

verus! {

/// Position in the underlying storage of offset `idx` relative to `zero`.
pub open spec fn inner_index(zero: int, idx: int) -> int {
    zero + idx
}

/// Moving the zero position by `offset` and then reading at `idx` reads
/// the storage position that offset `offset + idx` reads from the old zero.
pub proof fn law_with_offset_shifts_index(zero: int, offset: int, idx: int)
    ensures
        inner_index(zero + offset, idx) == inner_index(zero, offset + idx),
{
}

/// `zero + idx` as a storage index, computed without intermediate overflow.
fn offset_to_index(zero: isize, idx: isize) -> (r: usize)
    requires
        0 <= zero + idx <= usize::MAX,
    ensures
        r == zero + idx,
{
    ((zero as i128) + (idx as i128)) as usize
}

/// `zero + idx` as a storage index for an unsigned zero position.
fn unsigned_offset_to_index(zero: usize, idx: isize) -> (r: usize)
    requires
        0 <= zero + idx <= usize::MAX,
    ensures
        r == zero + idx,
{
    ((zero as i128) + (idx as i128)) as usize
}

/// A shared slice whose index 0 sits at position `zero` of `slice`.
pub struct OffsetSliceRef<'a, T> {
    pub slice: &'a [T],
    pub zero: isize,
}

impl<'a, T> OffsetSliceRef<'a, T> {
    pub fn new(slice: &'a [T], zero: isize) -> (r: Self)
        ensures
            r.slice@ == slice@,
            r.zero == zero,
    {
        OffsetSliceRef { slice, zero }
    }

    /// The same storage with the zero position moved by `offset`.
    pub fn with_offset(&self, offset: isize) -> (r: Self)
        requires
            isize::MIN <= self.zero + offset <= isize::MAX,
        ensures
            r.slice@ == self.slice@,
            r.zero == self.zero + offset,
    {
        OffsetSliceRef { slice: self.slice, zero: self.zero + offset }
    }

    /// The element at offset `idx` from the zero position.
    pub fn index(&self, idx: isize) -> (r: &'a T)
        requires
            0 <= self.zero + idx < self.slice@.len(),
        ensures
            *r == self.slice@[self.zero + idx],
    {
        let i = offset_to_index(self.zero, idx);
        &self.slice[i]
    }
}

/// A mutable slice whose index 0 sits at position `zero` of `slice`.
pub struct OffsetSliceRefMut<'a, T> {
    pub slice: &'a mut [T],
    pub zero: isize,
}

impl<'a, T> OffsetSliceRefMut<'a, T> {
    pub fn new(slice: &'a mut [T], zero: isize) -> (r: OffsetSliceRefMut<'a, T>)
        ensures
            r.slice@ == old(slice)@,
            r.zero == zero,
            final(slice)@ == final(r.slice)@,
    {
        OffsetSliceRefMut { slice, zero }
    }

    /// Reborrows the storage with the zero position moved by `offset`;
    /// writes through the result land in `self`.
    pub fn with_offset<'b>(&'b mut self, offset: isize) -> (r: OffsetSliceRefMut<'b, T>)
        requires
            isize::MIN <= old(self).zero + offset <= isize::MAX,
        ensures
            r.slice@ == old(self).slice@,
            r.zero == old(self).zero + offset,
            final(self).slice@ == final(r.slice)@,
            final(self).zero == old(self).zero,
            final(final(self).slice)@ == final(old(self).slice)@,
    {
        OffsetSliceRefMut { slice: &mut *self.slice, zero: self.zero + offset }
    }

    /// Moves the zero position by `offset` in place.
    pub fn move_zero(&mut self, offset: isize)
        requires
            isize::MIN <= old(self).zero + offset <= isize::MAX,
        ensures
            final(self).slice@ == old(self).slice@,
            final(self).zero == old(self).zero + offset,
            final(final(self).slice)@ == final(old(self).slice)@,
    {
        self.zero = self.zero + offset;
    }

    /// The element at offset `idx` from the zero position.
    pub fn index(&self, idx: isize) -> (r: &T)
        requires
            0 <= self.zero + idx < old(self.slice)@.len(),
        ensures
            *r == old(self.slice)@[self.zero + idx],
    {
        let i = offset_to_index(self.zero, idx);
        &self.slice[i]
    }

    /// Stores `v` at offset `idx` from the zero position.
    pub fn set(&mut self, idx: isize, v: T)
        requires
            0 <= old(self).zero + idx < old(self).slice@.len(),
        ensures
            final(self).slice@ == old(self).slice@.update(old(self).zero + idx, v),
            final(self).zero == old(self).zero,
            final(final(self).slice)@ == final(old(self).slice)@,
    {
        let i = offset_to_index(self.zero, idx);
        self.slice[i] = v;
    }
}

/// std's iterator over the full-size chunks of a mutable slice.
#[verifier::external_type_specification]
#[verifier::external_body]
#[verifier::reject_recursive_types(T)]
pub struct ExChunksExactMut<'a, T: 'a>(ChunksExactMut<'a, T>);

/// std's iterator over the chunks of a mutable slice, the last one possibly
/// shorter.
#[verifier::external_type_specification]
#[verifier::external_body]
#[verifier::reject_recursive_types(T)]
pub struct ExChunksMut<'a, T: 'a>(ChunksMut<'a, T>);

/// Calls std's `<[T]>::chunks_exact_mut`, which panics on a chunk size of
/// zero.  Stated of the iterator, as std documents it: it yields, in order,
/// the `len / chunk_size` non-overlapping full chunks from the start of the
/// slice, and what is written through a chunk is what the slice holds there
/// afterwards.  The left-over tail, reachable through `into_remainder`, is
/// left unsaid.
#[verifier::external_body]
fn slice_chunks_exact_mut<T>(s: &mut [T], chunk_size: usize) -> (r: ChunksExactMut<'_, T>)
    requires
        chunk_size != 0,
    ensures
        r.remaining().len() == old(s)@.len() / (chunk_size as nat),
        forall|i: int|
            0 <= i < r.remaining().len() ==> (*#[trigger] r.remaining()[i])@ == old(s)@.subrange(
                i * chunk_size,
                i * chunk_size + chunk_size,
            ),
        final(s)@.len() == old(s)@.len(),
        forall|k: int|
            0 <= k < r.remaining().len() * chunk_size ==> #[trigger] final(s)@[k] == (*final(r.remaining()[k / chunk_size as int]))@[k % chunk_size as int],
{
    s.chunks_exact_mut(chunk_size)
}

/// Calls std's `<[T]>::chunks_mut`, which panics on a chunk size of zero.
/// Stated of the iterator, as std documents it: it yields, in order, the
/// non-overlapping chunks of `chunk_size` items that cover the slice from its
/// start, the last one possibly shorter, and what is written through a
/// chunk is what the slice holds there afterwards.
#[verifier::external_body]
fn slice_chunks_mut<T>(s: &mut [T], chunk_size: usize) -> (r: ChunksMut<'_, T>)
    requires
        chunk_size != 0,
    ensures
        r.remaining().len() == chunk_count(old(s)@.len(), chunk_size as nat),
        forall|i: int|
            0 <= i < r.remaining().len() ==> (*#[trigger] r.remaining()[i])@ == old(s)@.subrange(
                i * chunk_size,
                chunk_end(old(s)@.len(), chunk_size as nat, i),
            ),
        final(s)@.len() == old(s)@.len(),
        forall|k: int|
            0 <= k < old(s)@.len() ==> #[trigger] final(s)@[k] == (*final(r.remaining()[k / chunk_size as int]))@[k % chunk_size as int],
{
    s.chunks_mut(chunk_size)
}

/// The number of chunks of `size` items that cover `len` items, the last one
/// possibly shorter.
pub open spec fn chunk_count(len: nat, size: nat) -> nat {
    (len + size - 1) as nat / size
}

/// Where chunk `i` of `size` items ends in a run of `len` items.
pub open spec fn chunk_end(len: nat, size: nat, i: int) -> int {
    if i * size + size <= len {
        i * size + size
    } else {
        len as int
    }
}

/// A fixed-size array whose index 0 sits at position `ZERO`.
pub struct OffsetArray<T, const SIZE: usize, const ZERO: usize> {
    pub arr: [T; SIZE],
}

impl<T, const SIZE: usize, const ZERO: usize> OffsetArray<T, SIZE, ZERO> {
    /// A mutable view of the whole array with index 0 at `ZERO + offset`.
    pub fn with_offset<'b>(&'b mut self, offset: isize) -> (r: OffsetSliceRefMut<'b, T>)
        requires
            ZERO <= isize::MAX,
            isize::MIN <= ZERO + offset <= isize::MAX,
        ensures
            r.slice@ == old(self).arr@,
            r.zero == ZERO + offset,
            final(self).arr@ == final(r.slice)@,
    {
        let z = ZERO as isize;
        OffsetSliceRefMut { slice: &mut self.arr, zero: z + offset }
    }

    /// The array's chunks of `chunk_size` items, from its first item (at
    /// offset `-ZERO`) on, leaving out a shorter last chunk.
    pub fn chunks_exact_mut(&mut self, chunk_size: usize) -> (r: ChunksExactMut<'_, T>)
        requires
            chunk_size != 0,
        ensures
                r.remaining().len() == SIZE as nat / (chunk_size as nat),
            forall|i: int|
                0 <= i < r.remaining().len() ==> (*#[trigger] r.remaining()[i])@ == old(self).arr@.subrange(
                    i * chunk_size,
                    i * chunk_size + chunk_size,
                ),
            forall|k: int|
                0 <= k < r.remaining().len() * chunk_size ==> #[trigger] final(self).arr@[k] == (*final(r.remaining()[k / chunk_size as int]))@[k % chunk_size as int],
    {
        slice_chunks_exact_mut(&mut self.arr, chunk_size)
    }

    /// The array's chunks of `chunk_size` items, from its first item (at
    /// offset `-ZERO`) on; the last one may be shorter.
    pub fn chunks_mut(&mut self, chunk_size: usize) -> (r: ChunksMut<'_, T>)
        requires
            chunk_size != 0,
        ensures
                r.remaining().len() == chunk_count(SIZE as nat, chunk_size as nat),
            forall|i: int|
                0 <= i < r.remaining().len() ==> (*#[trigger] r.remaining()[i])@ == old(self).arr@.subrange(
                    i * chunk_size,
                    chunk_end(SIZE as nat, chunk_size as nat, i),
                ),
            forall|k: int|
                0 <= k < SIZE ==> #[trigger] final(self).arr@[k] == (*final(r.remaining()[k / chunk_size as int]))@[k % chunk_size as int],
    {
        slice_chunks_mut(&mut self.arr, chunk_size)
    }

    /// Splits the array at offset `mid` from the zero position.
    pub fn split_at_mut<'b>(&'b mut self, mid: isize) -> (r: (&'b mut [T], &'b mut [T]))
        requires
            0 <= ZERO + mid <= SIZE,
        ensures
            r.0@ == old(self).arr@.subrange(0, ZERO + mid),
            r.1@ == old(self).arr@.subrange(ZERO + mid, SIZE as int),
            final(self).arr@ == final(r.0)@ + final(r.1)@,
    {
        let computed_mid = unsigned_offset_to_index(ZERO, mid);
        let s: &mut [T] = &mut self.arr;
        s.split_at_mut(computed_mid)
    }

    /// The element at offset `idx` from the zero position.
    pub fn index(&self, idx: isize) -> (r: &T)
        requires
            0 <= ZERO + idx < SIZE,
        ensures
            *r == self.arr@[ZERO + idx],
    {
        let i = unsigned_offset_to_index(ZERO, idx);
        &self.arr[i]
    }

    /// Stores `v` at offset `idx` from the zero position.
    pub fn set(&mut self, idx: isize, v: T)
        requires
            0 <= ZERO + idx < SIZE,
        ensures
            final(self).arr@ == old(self).arr@.update(ZERO + idx, v),
    {
        let i = unsigned_offset_to_index(ZERO, idx);
        self.arr[i] = v;
    }
}

} // verus!
