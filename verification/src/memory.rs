//! Shard-local buffer pages and the pool that leases them.
//!
//! A page is a fixed-size, zero-initialized buffer; the pool hands out
//! page indices from a free list and takes them back. Pinning pages into
//! physical memory and registering them with the I/O driver happen
//! outside the core; the pool owns the bookkeeping.

use vstd::prelude::*;

verus! {

use vstd::pervasive::VecAdditionalExecFns;

/// Page alignment for direct I/O buffers.
pub const MEMORY_PAGE_SIZE: usize = 4096;

/// Why a buffer operation failed.
#[derive(Clone, Copy, Debug, PartialEq, Eq, Structural)]
pub enum MemoryError {
    /// The allocation could not be satisfied.
    AllocationFailed,
    /// The pages could not be locked into physical memory; carries the
    /// error number.
    LockFailed(i32),
    /// A size was not a multiple of the required alignment: the size and
    /// the alignment.
    InvalidAlignment(usize, usize),
}

/// A single pre-allocated buffer page.
pub struct BufferPage {
    data: Vec<u8>,
}

impl BufferPage {
    /// The page contents.
    pub closed spec fn contents(&self) -> Seq<u8> {
        self.data@
    }

    /// A zeroed page of `size` bytes.
    pub fn new(size: usize) -> (r: Self)
        ensures
            r.contents().len() == size,
            forall|i: int| 0 <= i < size ==> r.contents()[i] == 0u8,
    {
        BufferPage { data: vec![0u8; size] }
    }

    /// The page size in bytes.
    pub fn len(&self) -> (r: usize)
        ensures
            r == self.contents().len(),
    {
        self.data.len()
    }

    /// Read access to the whole page.
    pub fn as_slice(&self) -> (r: &[u8])
        ensures
            r@ == self.contents(),
    {
        self.data.as_slice()
    }

    /// Copies `src` into the page starting at `at`.
    pub fn write_at(&mut self, at: usize, src: &[u8])
        requires
            at + src@.len() <= old(self).contents().len(),
        ensures
            final(self).contents().len() == old(self).contents().len(),
            forall|i: int| 0 <= i < src@.len() ==> final(self).contents()[at + i] == src@[i],
            forall|i: int|
                0 <= i < old(self).contents().len() && !(at <= i < at + src@.len())
                    ==> final(self).contents()[i] == old(self).contents()[i],
    {
        let n = src.len();
        let total = self.data.len();
        let mut i: usize = 0;
        while i < n
            invariant
                i <= n,
                n == src@.len(),
                at + n <= total,
                total == self.data@.len(),
                self.data@.len() == old(self).data@.len(),
                forall|j: int| 0 <= j < i ==> self.data@[at + j] == src@[j],
                forall|j: int|
                    0 <= j < total && !(at <= j < at + i) ==> self.data@[j] == old(self).data@[j],
            decreases n - i,
        {
            let b = *vstd::slice::slice_index_get(src, i);
            self.data.set(at + i, b);
            i += 1;
        }
    }
}

/// A lightweight handle to a leased page.
#[derive(Clone, Copy, Debug, PartialEq, Eq, Structural)]
pub struct BufferLease {
    pub index: usize,
    pub len: usize,
}

/// A pool of equally sized pages with a free list of their indices.
pub struct BufferPool {
    pages: Vec<BufferPage>,
    free_indices: Vec<usize>,
    page_size: usize,
}

impl BufferPool {
    /// Every page has the configured size and every free index is a valid
    /// page index.
    pub closed spec fn wf(&self) -> bool {
        &&& forall|i: int|
            0 <= i < self.pages@.len() ==> (#[trigger] self.pages@[i]).contents().len()
                == self.page_size
        &&& forall|k: int|
            0 <= k < self.free_indices@.len() ==> (#[trigger] self.free_indices@[k] as int)
                < self.pages@.len()
    }

    /// Number of pages.
    pub closed spec fn spec_page_count(&self) -> int {
        self.pages@.len() as int
    }

    /// The free list, oldest first.
    pub closed spec fn spec_free(&self) -> Seq<usize> {
        self.free_indices@
    }

    pub closed spec fn spec_page_size(&self) -> int {
        self.page_size as int
    }

    /// The bytes of page `i`.
    pub closed spec fn page_contents(&self, i: int) -> Seq<u8> {
        self.pages@[i].contents()
    }

    /// A pool of `page_count` zeroed pages of `page_size` bytes each,
    /// all initially free. The size must keep the direct-I/O alignment.
    pub fn new(page_count: usize, page_size: usize) -> (r: Self)
        requires
            page_size % MEMORY_PAGE_SIZE == 0,
        ensures
            r.wf(),
            r.spec_page_count() == page_count,
            r.spec_page_size() == page_size,
            r.spec_free().len() == page_count,
            forall|k: int| 0 <= k < page_count ==> #[trigger] r.spec_free()[k] == k,
    {
        let mut pages: Vec<BufferPage> = Vec::new();
        let mut free_indices: Vec<usize> = Vec::new();
        let mut i: usize = 0;
        while i < page_count
            invariant
                i <= page_count,
                pages@.len() == i,
                free_indices@.len() == i,
                forall|j: int|
                    0 <= j < i ==> (#[trigger] pages@[j]).contents().len() == page_size,
                forall|k: int| 0 <= k < i ==> #[trigger] free_indices@[k] == k,
            decreases page_count - i,
        {
            pages.push(BufferPage::new(page_size));
            free_indices.push(i);
            i += 1;
        }
        BufferPool { pages, free_indices, page_size }
    }

    /// Leases a page index off the free list; nothing is free at
    /// saturation.
    pub fn lease(&mut self) -> (r: Option<BufferLease>)
        requires
            old(self).wf(),
        ensures
            final(self).wf(),
            final(self).spec_page_count() == old(self).spec_page_count(),
            final(self).spec_page_size() == old(self).spec_page_size(),
            r is Some <==> old(self).spec_free().len() > 0,
            r is Some ==> {
                let l = r.unwrap();
                &&& (l.index as int) < old(self).spec_page_count()
                &&& l.index == old(self).spec_free().last()
                &&& l.len == old(self).spec_page_size()
                &&& final(self).spec_free() == old(self).spec_free().drop_last()
            },
            r is None ==> final(self).spec_free() == old(self).spec_free(),
    {
        let popped = self.free_indices.pop();
        match popped {
            Some(idx) => Some(BufferLease { index: idx, len: self.page_size }),
            None => None,
        }
    }

    /// Returns a lease to the free list.
    pub fn release(&mut self, lease: BufferLease)
        requires
            old(self).wf(),
            (lease.index as int) < old(self).spec_page_count(),
        ensures
            final(self).wf(),
            final(self).spec_page_count() == old(self).spec_page_count(),
            final(self).spec_page_size() == old(self).spec_page_size(),
            final(self).spec_free() == old(self).spec_free().push(lease.index),
    {
        self.free_indices.push(lease.index);
    }

    /// Reclaims every page: the free list becomes all indices in order.
    pub fn reset(&mut self)
        requires
            old(self).wf(),
        ensures
            final(self).wf(),
            final(self).spec_page_count() == old(self).spec_page_count(),
            final(self).spec_page_size() == old(self).spec_page_size(),
            final(self).spec_free().len() == final(self).spec_page_count(),
            forall|k: int|
                0 <= k < final(self).spec_free().len() ==> #[trigger] final(self).spec_free()[k]
                    == k,
    {
        self.free_indices.clear();
        let n = self.pages.len();
        let mut i: usize = 0;
        while i < n
            invariant
                i <= n,
                n == self.pages@.len(),
                self.pages@ == old(self).pages@,
                self.page_size == old(self).page_size,
                old(self).wf(),
                self.free_indices@.len() == i,
                forall|k: int| 0 <= k < i ==> #[trigger] self.free_indices@[k] == k,
            decreases n - i,
        {
            self.free_indices.push(i);
            i += 1;
        }
    }

    /// Read access to one page.
    pub fn get_page(&self, index: usize) -> (r: &BufferPage)
        requires
            self.wf(),
            (index as int) < self.spec_page_count(),
        ensures
            r.contents().len() == self.spec_page_size(),
    {
        &self.pages[index]
    }

    /// Copies `src` into page `index` at offset `at`. This is the
    /// mutable-page access path.
    pub fn get_page_mut(&mut self, index: usize, at: usize, src: &[u8])
        requires
            old(self).wf(),
            (index as int) < old(self).spec_page_count(),
            at + src@.len() <= old(self).spec_page_size(),
        ensures
            final(self).wf(),
            final(self).spec_page_count() == old(self).spec_page_count(),
            final(self).spec_page_size() == old(self).spec_page_size(),
            final(self).spec_free() == old(self).spec_free(),
            forall|i: int|
                0 <= i < src@.len() ==> final(self).page_contents(index as int)[at + i]
                    == src@[i],
            final(self).page_contents(index as int).len() == old(self).page_contents(
                index as int,
            ).len(),
            forall|i: int|
                0 <= i < old(self).page_contents(index as int).len() && !(at <= i < at
                    + src@.len()) ==> final(self).page_contents(index as int)[i] == old(self).page_contents(index as int)[i],
            forall|j: int|
                0 <= j < old(self).spec_page_count() && j != index as int ==> final(self).page_contents(j) == old(self).page_contents(j),
    {
        let ghost pages0 = self.pages@;
        self.pages[index].write_at(at, src);
        proof {
            assert forall|i: int|
                0 <= i < self.pages@.len() implies (#[trigger] self.pages@[i]).contents().len()
                == self.page_size by {
                if i != index as int {
                    assert(self.pages@[i] == pages0[i]);
                }
            }
        }
    }
}

} // verus!
