//! Group-commit batch accumulator.
//!
//! Aggregates raw framed upsert bytes into one staging buffer so that many
//! small mutations ride a single sector-aligned file append. One tag per
//! appended request records the originating connection slot, so that
//! acknowledgments can be routed back after the write completes.

use vstd::prelude::*;

verus! {

use vstd::pervasive::VecAdditionalExecFns;

/// Standard sector alignment for direct file writes.
pub const PAGE_SIZE: usize = 4096;

/// Default staging capacity: 256 KiB.
pub const BATCH_CAPACITY: usize = 262144;

/// `n` rounded up to the next multiple of `PAGE_SIZE`.
pub open spec fn round_up_page(n: int) -> int {
    ((n + PAGE_SIZE - 1) / PAGE_SIZE as int) * PAGE_SIZE as int
}

/// Rounding up to a sector reaches at least `n`, stays within one sector
/// of it, and yields a multiple of the sector size.
pub proof fn lemma_round_up_page(n: int)
    requires
        0 <= n,
    ensures
        n <= round_up_page(n) < n + PAGE_SIZE,
        round_up_page(n) % (PAGE_SIZE as int) == 0,
{
    let p = PAGE_SIZE as int;
    let m = n + p - 1;
    vstd::arithmetic::div_mod::lemma_fundamental_div_mod(m, p);
    assert(round_up_page(n) == m - m % p);
    vstd::arithmetic::div_mod::lemma_mod_bound(m, p);
    assert((m - m % p) % p == 0) by {
        vstd::arithmetic::div_mod::lemma_mod_multiples_vanish(m / p, 0, p);
    }
}

/// A batch never pads beyond its own capacity: rounding up a staged
/// length stays within the (sector-aligned) capacity.
pub proof fn lemma_round_up_cap(n: int)
    requires
        0 <= n <= BATCH_CAPACITY,
    ensures
        round_up_page(n) <= BATCH_CAPACITY,
{
    vstd::arithmetic::div_mod::lemma_div_is_ordered(
        n + PAGE_SIZE - 1,
        BATCH_CAPACITY + PAGE_SIZE - 1,
        PAGE_SIZE as int,
    );
    assert((BATCH_CAPACITY + PAGE_SIZE - 1) as int / (PAGE_SIZE as int) == 64);
}

/// A staging buffer of fixed capacity with a write cursor and one routing
/// tag per appended request. The buffer bytes before the cursor are the
/// batch payload; the rest of the buffer is scratch.
pub struct BatchAccumulator {
    buffer: Vec<u8>,
    cursor: usize,
    tags: Vec<u64>,
    capacity: usize,
}

impl BatchAccumulator {
    /// The buffer is exactly `capacity` long and the cursor stays inside
    /// it.
    pub closed spec fn wf(&self) -> bool {
        &&& self.buffer@.len() == self.capacity
        &&& self.cursor <= self.capacity
        &&& self.capacity == BATCH_CAPACITY
    }

    /// The bytes staged so far, in append order.
    pub closed spec fn content(&self) -> Seq<u8> {
        self.buffer@.subrange(0, self.cursor as int)
    }

    /// The routing tags recorded so far, one per appended request.
    pub closed spec fn spec_tags(&self) -> Seq<u64> {
        self.tags@
    }

    pub closed spec fn spec_capacity(&self) -> int {
        self.capacity as int
    }

    /// The staged bytes always fit the fixed capacity.
    pub proof fn lemma_content_bound(&self)
        requires
            self.wf(),
        ensures
            self.content().len() <= BATCH_CAPACITY,
            self.spec_capacity() == BATCH_CAPACITY,
    {
    }

    pub fn new() -> (r: Self)
        ensures
            r.wf(),
            r.content() == Seq::<u8>::empty(),
            r.spec_tags() == Seq::<u64>::empty(),
            r.spec_capacity() == BATCH_CAPACITY,
    {
        let r = BatchAccumulator {
            buffer: vec![0u8; BATCH_CAPACITY],
            cursor: 0,
            tags: Vec::new(),
            capacity: BATCH_CAPACITY,
        };
        proof {
            assert(r.content() =~= Seq::<u8>::empty());
        }
        r
    }

    /// Appends one framed request to the batch, recording its routing tag.
    /// Fails, leaving the batch untouched, exactly when the bytes do not
    /// fit in the remaining capacity.
    pub fn try_add(&mut self, data: &[u8], tag: u64) -> (r: Result<(), ()>)
        requires
            old(self).wf(),
        ensures
            final(self).wf(),
            final(self).spec_capacity() == old(self).spec_capacity(),
            r is Ok <==> old(self).content().len() + data@.len()
                <= old(self).spec_capacity(),
            r is Ok ==> final(self).content() == old(self).content() + data@
                && final(self).spec_tags() == old(self).spec_tags().push(tag),
            r is Err ==> *final(self) == *old(self),
    {
        let n = data.len();
        if n > self.capacity - self.cursor {
            return Err(());
        }
        let base = self.cursor;
        let mut i: usize = 0;
        while i < n
            invariant
                i <= n,
                n == data@.len(),
                base == old(self).cursor,
                base + n <= self.buffer@.len(),
                self.buffer@.len() == old(self).buffer@.len(),
                self.buffer@.len() == self.capacity,
                self.cursor == old(self).cursor,
                self.tags == old(self).tags,
                self.capacity == old(self).capacity,
                forall|j: int| 0 <= j < base ==> self.buffer@[j] == old(self).buffer@[j],
                forall|j: int| 0 <= j < i ==> self.buffer@[base + j] == data@[j],
                forall|j: int|
                    base + i <= j < self.buffer@.len() ==> self.buffer@[j] == old(self).buffer@[j],
            decreases n - i,
        {
            let b = *vstd::slice::slice_index_get(data, i);
            self.buffer.set(base + i, b);
            i += 1;
        }
        self.cursor = base + n;
        self.tags.push(tag);
        proof {
            assert(self.content() =~= old(self).content() + data@);
        }
        Ok(())
    }

    /// Bytes staged so far.
    pub fn staged_len(&self) -> (r: usize)
        requires
            self.wf(),
        ensures
            r == self.content().len(),
    {
        self.cursor
    }

    /// Capacity still free for appends.
    pub fn remaining(&self) -> (r: usize)
        requires
            self.wf(),
        ensures
            r == self.spec_capacity() - self.content().len(),
    {
        self.capacity - self.cursor
    }

    /// True when the batch holds pending data.
    pub fn is_dirty(&self) -> (r: bool)
        requires
            self.wf(),
        ensures
            r <==> self.content().len() > 0,
    {
        self.cursor > 0
    }

    /// Prepares the staged bytes for a direct flush: zeroes the tail up to
    /// the next sector boundary and returns the padded bytes, whose length
    /// is the staged length rounded up to a sector multiple. The cursor is
    /// reset; the tags remain until taken.
    pub fn prepare_flush(&mut self) -> (out: Vec<u8>)
        requires
            old(self).wf(),
            old(self).content().len() > 0,
        ensures
            final(self).wf(),
            final(self).spec_tags() == old(self).spec_tags(),
            final(self).content() == Seq::<u8>::empty(),
            out@.len() == round_up_page(old(self).content().len() as int),
            out@.subrange(0, old(self).content().len() as int) == old(self).content(),
            forall|j: int|
                old(self).content().len() <= j < out@.len() ==> out@[j] == 0u8,
            out@.len() as int % (PAGE_SIZE as int) == 0,
    {
        let len = self.cursor;
        proof {
            lemma_round_up_page(len as int);
        }
        let aligned = ((len + PAGE_SIZE - 1) / PAGE_SIZE) * PAGE_SIZE;
        let mut out: Vec<u8> = Vec::new();
        let mut i: usize = 0;
        while i < aligned
            invariant
                i <= aligned,
                len <= aligned <= self.buffer@.len() + PAGE_SIZE,
                len <= self.buffer@.len(),
                out@.len() == i,
                self == old(self),
                len == old(self).cursor,
                forall|j: int| 0 <= j < i && j < len ==> out@[j] == self.buffer@[j],
                forall|j: int| len <= j < i ==> out@[j] == 0u8,
            decreases aligned - i,
        {
            if i < len {
                let b = self.buffer[i];
                out.push(b);
            } else {
                out.push(0u8);
            }
            i += 1;
        }
        self.cursor = 0;
        proof {
            assert(out@.subrange(0, old(self).content().len() as int) =~= old(self).content());
            assert(self.content() =~= Seq::<u8>::empty());
        }
        out
    }

    /// Hands out the recorded tags, leaving the batch with none.
    pub fn take_tags(&mut self) -> (r: Vec<u64>)
        requires
            old(self).wf(),
        ensures
            final(self).wf(),
            r@ == old(self).spec_tags(),
            final(self).spec_tags() == Seq::<u64>::empty(),
            final(self).content() == old(self).content(),
    {
        let mut taken: Vec<u64> = Vec::new();
        core::mem::swap(&mut taken, &mut self.tags);
        taken
    }

    /// True when at least one routing tag is recorded.
    pub fn has_tags(&self) -> (r: bool)
        requires
            self.wf(),
        ensures
            r <==> self.spec_tags().len() > 0,
    {
        !self.tags.is_empty()
    }

    /// Discards all staged bytes and tags.
    pub fn reset(&mut self)
        requires
            old(self).wf(),
        ensures
            final(self).wf(),
            final(self).content() == Seq::<u8>::empty(),
            final(self).spec_tags() == Seq::<u64>::empty(),
    {
        self.cursor = 0;
        self.tags.clear();
        proof {
            assert(self.content() =~= Seq::<u8>::empty());
        }
    }
}

} // verus!
