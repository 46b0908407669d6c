//! Hierarchical proximity graph over a flat quantized arena.
//!
//! Nodes live in a contiguous arena of quantized rows; links live in one
//! flat arena of 32-bit row indices with a sentinel for empty slots, laid
//! out per node as 32 layer-0 slots followed by 16 slots for each upper
//! layer. Insertion samples a geometric level, descends greedily from the
//! entry point, then connects the new node bidirectionally on every layer
//! it occupies. Search descends with beam width 1 and runs a bounded beam
//! search on layer 0, all with the coarse integer kernel; callers refine
//! the returned candidates with full-precision distances outside the
//! core.

use vstd::prelude::*;

verus! {

use std::collections::HashMap;
use vstd::pervasive::VecAdditionalExecFns;
use vstd::slice::slice_subrange;
use crate::simd::MAX_KERNEL_DIM;
use crate::simd::coarse_distance;
use crate::simd::scalar_dot_u8;
use crate::quantization::ScalarQuantizer;

broadcast use vstd::std_specs::hash::group_hash_axioms;

/// Sentinel marking an empty link slot.
pub const LINK_EMPTY: u32 = u32::MAX;

/// Neighbor cap on the upper layers.
pub const HNSW_M: usize = 16;

/// Neighbor cap on layer 0.
pub const HNSW_M0: usize = 32;

/// Beam width used while inserting.
pub const EF_CONSTRUCTION: usize = 128;

/// Number of layers, layer 0 included.
pub const MAX_LAYERS: usize = 16;

/// Link slots per node: `HNSW_M0 + (MAX_LAYERS - 1) * HNSW_M`.
pub const LINK_STRIDE: usize = 272;

/// One scored node during a layer search.
#[derive(Clone, Copy, Debug, PartialEq, Eq, Structural)]
pub struct Candidate {
    pub distance: i32,
    pub node_id: usize,
}

/// Index of the first sentinel slot at or after `i`, or the window
/// length when every remaining slot is populated.
pub open spec fn first_empty_at(s: Seq<u32>, i: int) -> int
    recommends
        0 <= i <= s.len(),
    decreases s.len() - i,
    when 0 <= i <= s.len()
{
    if i == s.len() {
        i
    } else if s[i] == LINK_EMPTY {
        i
    } else {
        first_empty_at(s, i + 1)
    }
}

/// The first sentinel index is within the window, and everything before
/// it is populated.
pub proof fn lemma_first_empty(s: Seq<u32>, i: int)
    requires
        0 <= i <= s.len(),
    ensures
        i <= first_empty_at(s, i) <= s.len(),
        forall|j: int| i <= j < first_empty_at(s, i) ==> s[j] != LINK_EMPTY,
        first_empty_at(s, i) < s.len() ==> s[first_empty_at(s, i)] == LINK_EMPTY,
    decreases s.len() - i,
{
    if i < s.len() && s[i] != LINK_EMPTY {
        lemma_first_empty(s, i + 1);
    }
}

/// A window whose first `i` slots are populated and whose slot `i` (if
/// any) is the sentinel has its first sentinel exactly at `i`.
pub proof fn lemma_first_empty_is(s: Seq<u32>, i: int)
    requires
        0 <= i <= s.len(),
        forall|j: int| 0 <= j < i ==> s[j] != LINK_EMPTY,
        i < s.len() ==> s[i] == LINK_EMPTY,
    ensures
        first_empty_at(s, 0) == i,
    decreases s.len(),
{
    lemma_first_empty_is_from(s, 0, i);
}

proof fn lemma_first_empty_is_from(s: Seq<u32>, at: int, i: int)
    requires
        0 <= at <= i <= s.len(),
        forall|j: int| at <= j < i ==> s[j] != LINK_EMPTY,
        i < s.len() ==> s[i] == LINK_EMPTY,
    ensures
        first_empty_at(s, at) == i,
    decreases s.len() - at,
{
    if at < i {
        lemma_first_empty_is_from(s, at + 1, i);
    }
}

/// In a well-formed index every adjacency list is made of populated
/// rows.
proof fn lemma_insert_links_valid(ix: &HnswIndex)
    requires
        ix.wf(),
    ensures
        forall|n: int, l: int, k: int|
            0 <= n < ix.spec_count() && 0 <= l < MAX_LAYERS as int && 0 <= k < ix.links_of(
                n,
                l,
            ).len() ==> ((#[trigger] ix.links_of(n, l)[k]) as int) < ix.spec_count(),
{
    assert forall|n: int, l: int, k: int|
        0 <= n < ix.spec_count() && 0 <= l < MAX_LAYERS as int && 0 <= k < ix.links_of(
            n,
            l,
        ).len() implies ((#[trigger] ix.links_of(n, l)[k]) as int) < ix.spec_count() by {
        ix.lemma_links_valid(n, l);
    }
}

/// The graph index. `external_ids` and the quantized arena grow together;
/// the link arena and the visited-epoch table are sized once for
/// `max_elements` rows.
pub struct HnswIndex {
    dimension: usize,
    max_elements: usize,
    quantized_arena: Vec<u8>,
    external_ids: Vec<u64>,
    link_arena: Vec<u32>,
    map: HashMap<u64, usize>,
    entry_point: u32,
    max_layer_active: u32,
    visited_tags: Vec<u32>,
    global_search_id: u32,
}

impl HnswIndex {
    /// Number of populated rows.
    pub closed spec fn spec_count(&self) -> int {
        self.external_ids@.len() as int
    }

    /// External identifiers, in row order.
    pub closed spec fn ids(&self) -> Seq<u64> {
        self.external_ids@
    }

    /// The quantized arena bytes.
    pub closed spec fn arena(&self) -> Seq<u8> {
        self.quantized_arena@
    }

    pub closed spec fn spec_dimension(&self) -> int {
        self.dimension as int
    }

    pub closed spec fn spec_max_elements(&self) -> int {
        self.max_elements as int
    }

    /// The quantized vector stored in row `r`.
    pub open spec fn row(&self, r: int) -> Seq<u8> {
        self.arena().subrange(r * self.spec_dimension(), (r + 1) * self.spec_dimension())
    }

    spec fn spec_link_offset(&self, node: int, level: int) -> int {
        node * (LINK_STRIDE as int) + if level == 0 {
            0
        } else {
            HNSW_M0 as int + (level - 1) * (HNSW_M as int)
        }
    }

    spec fn spec_link_cap(level: int) -> int {
        if level == 0 {
            HNSW_M0 as int
        } else {
            HNSW_M as int
        }
    }

    /// The raw slot window of `node` on `level`.
    spec fn link_slots(&self, node: int, level: int) -> Seq<u32> {
        self.link_arena@.subrange(
            self.spec_link_offset(node, level),
            self.spec_link_offset(node, level) + Self::spec_link_cap(level),
        )
    }

    /// The adjacency of `node` on `level`: the slot values before the
    /// first sentinel.
    pub closed spec fn links_of(&self, node: int, level: int) -> Seq<u32> {
        let s = self.link_slots(node, level);
        s.take(first_empty_at(s, 0))
    }

    /// The slot window of a populated node sits inside the link arena.
    proof fn lemma_link_window(&self, node: int, level: int)
        requires
            self.wf(),
            0 <= node < self.spec_count(),
            0 <= level < MAX_LAYERS as int,
        ensures
            0 <= self.spec_link_offset(node, level),
            self.spec_link_offset(node, level) + Self::spec_link_cap(level)
                <= self.link_arena@.len(),
            self.link_slots(node, level).len() == Self::spec_link_cap(level),
    {
        vstd::arithmetic::mul::lemma_mul_inequality(
            node + 1,
            self.max_elements as int,
            LINK_STRIDE as int,
        );
        vstd::arithmetic::mul::lemma_mul_is_distributive_add_other_way(
            LINK_STRIDE as int,
            node,
            1,
        );
        vstd::arithmetic::mul::lemma_mul_nonnegative(node, LINK_STRIDE as int);
    }

    /// P5, the statable half: every link of a populated node targets a
    /// populated row, and an adjacency list never exceeds its layer's
    /// cap. This holds in every reachable index state.
    pub proof fn lemma_links_valid(&self, node: int, level: int)
        requires
            self.wf(),
            0 <= node < self.spec_count(),
            0 <= level < MAX_LAYERS as int,
        ensures
            self.links_of(node, level).len() <= if level == 0 {
                HNSW_M0 as int
            } else {
                HNSW_M as int
            },
            forall|k: int|
                0 <= k < self.links_of(node, level).len() ==> (#[trigger] self.links_of(
                    node,
                    level,
                )[k]) != LINK_EMPTY && (self.links_of(node, level)[k] as int) < self.spec_count(),
    {
        self.lemma_link_window(node, level);
        let s = self.link_slots(node, level);
        lemma_first_empty(s, 0);
        assert forall|k: int|
            0 <= k < self.links_of(node, level).len() implies (#[trigger] self.links_of(
            node,
            level,
        )[k]) != LINK_EMPTY && (self.links_of(node, level)[k] as int) < self.spec_count() by {
            assert(self.links_of(node, level)[k] == s[k]);
            assert(s[k] == self.link_arena@[self.spec_link_offset(node, level) + k]);
        }
    }

    /// A walk along `level`'s populated links: consecutive entries are
    /// linked, and every entry names a populated row.
    pub open spec fn is_path(&self, level: int, p: Seq<int>) -> bool {
        &&& forall|x: int| 0 <= x < p.len() ==> 0 <= #[trigger] p[x] < self.spec_count()
        &&& forall|x: int|
            0 <= x < p.len() - 1 ==> (#[trigger] self.links_of(p[x], level)).contains(
                p[x + 1] as u32,
            )
    }

    /// Whether `to` is reachable from `from` along the populated links of
    /// `level`'s graph: some walk starts at `from` and ends at `to`.
    pub open spec fn reachable(&self, level: int, from: int, to: int) -> bool {
        exists|p: Seq<int>|
            #[trigger] self.is_path(level, p) && p.len() >= 1 && p[0] == from && p[p.len() - 1]
                == to
    }

    /// Every populated row reaches itself.
    proof fn lemma_reachable_self(&self, level: int, from: int)
        requires
            0 <= from < self.spec_count(),
        ensures
            self.reachable(level, from, from),
    {
        let p = seq![from];
        assert(self.is_path(level, p));
        assert(p.len() >= 1 && p[0] == from && p[p.len() - 1] == from);
    }

    /// One hop extends reachability: a link of a reachable node is
    /// reachable.
    proof fn lemma_reachable_step(&self, level: int, from: int, mid: int, to: int)
        requires
            self.reachable(level, from, mid),
            0 <= to < self.spec_count(),
            self.links_of(mid, level).contains(to as u32),
        ensures
            self.reachable(level, from, to),
    {
        let p = choose|p: Seq<int>|
            #[trigger] self.is_path(level, p) && p.len() >= 1 && p[0] == from && p[p.len() - 1]
                == mid;
        let q = p.push(to);
        assert forall|x: int| 0 <= x < q.len() implies 0 <= #[trigger] q[x] < self.spec_count()
            by {
            if x < p.len() {
                assert(q[x] == p[x]);
            } else {
                assert(q[x] == to);
            }
        }
        assert forall|x: int|
            0 <= x < q.len() - 1 implies (#[trigger] self.links_of(q[x], level)).contains(
            q[x + 1] as u32,
        ) by {
            if x < p.len() - 1 {
                assert(q[x] == p[x]);
                assert(q[x + 1] == p[x + 1]);
            } else {
                assert(q[x] == p[p.len() - 1]);
                assert(q[x] == mid);
                assert(q[x + 1] == to);
            }
        }
        assert(self.is_path(level, q));
        assert(q.len() >= 1 && q[0] == from && q[q.len() - 1] == to);
    }

    /// Structural well-formedness. In particular: every populated link
    /// slot targets a populated row, the entry point is set exactly when
    /// the graph is non-empty and then targets a populated row, and the
    /// arenas agree on the row count.
    pub closed spec fn wf(&self) -> bool {
        &&& 1 <= self.dimension <= MAX_KERNEL_DIM
        &&& self.max_elements <= 0xFFFF_FFFEusize
        &&& self.max_elements * self.dimension <= usize::MAX
        &&& self.max_elements * LINK_STRIDE <= usize::MAX
        &&& self.external_ids@.len() <= self.max_elements
        &&& self.quantized_arena@.len() == self.external_ids@.len() * self.dimension
        &&& self.link_arena@.len() == self.max_elements * LINK_STRIDE
        &&& self.visited_tags@.len() == self.max_elements
        &&& forall|i: int|
            0 <= i < self.link_arena@.len() ==> (#[trigger] self.link_arena@[i] == LINK_EMPTY
                || (self.link_arena@[i] as int) < self.spec_count())
        &&& (self.entry_point == LINK_EMPTY <==> self.spec_count() == 0)
        &&& (self.entry_point != LINK_EMPTY ==> (self.entry_point as int) < self.spec_count())
        &&& (self.max_layer_active as int) < MAX_LAYERS as int
    }

    /// Rows, identifiers, dimensions and links all unchanged: only the
    /// search scratch state (visited epochs, search counter) may differ.
    pub closed spec fn same_store(&self, o: &Self) -> bool {
        &&& self.dimension == o.dimension
        &&& self.max_elements == o.max_elements
        &&& self.quantized_arena@ == o.quantized_arena@
        &&& self.external_ids@ == o.external_ids@
        &&& self.link_arena@ == o.link_arena@
        &&& self.map@ == o.map@
        &&& self.entry_point == o.entry_point
        &&& self.max_layer_active == o.max_layer_active
    }

    /// Rows, identifiers and dimensions unchanged; the link arena and the
    /// search scratch state may differ.
    pub closed spec fn same_content(&self, o: &Self) -> bool {
        &&& self.dimension == o.dimension
        &&& self.max_elements == o.max_elements
        &&& self.quantized_arena@ == o.quantized_arena@
        &&& self.external_ids@ == o.external_ids@
    }

    /// A search result pairs an identifier with the coarse distance of
    /// the row that carries it.
    pub open spec fn search_hit(&self, q: Seq<i8>, id: u64, d: i32) -> bool {
        exists|r: int|
            0 <= r < self.spec_count() && self.ids()[r] == id && d == coarse_distance(
                q,
                self.row(r),
            )
    }

    /// Creates an empty index for up to `max_elements` vectors of the
    /// given dimension.
    pub fn new(dimension: usize, max_elements: usize) -> (r: Self)
        requires
            1 <= dimension <= MAX_KERNEL_DIM,
            max_elements <= 0xFFFF_FFFEusize,
            max_elements * dimension <= usize::MAX,
            max_elements * LINK_STRIDE <= usize::MAX,
        ensures
            r.wf(),
            r.spec_count() == 0,
            r.ids() == Seq::<u64>::empty(),
            r.spec_dimension() == dimension,
            r.spec_max_elements() == max_elements,
    {
        let r = HnswIndex {
            dimension,
            max_elements,
            quantized_arena: Vec::new(),
            external_ids: Vec::new(),
            link_arena: vec![LINK_EMPTY; max_elements * LINK_STRIDE],
            map: HashMap::new(),
            entry_point: LINK_EMPTY,
            max_layer_active: 0,
            visited_tags: vec![0u32; max_elements],
            global_search_id: 1,
        };
        r
    }

    /// Populated row count.
    pub fn len(&self) -> (r: usize)
        ensures
            r == self.spec_count(),
    {
        self.external_ids.len()
    }

    /// The fixed vector dimension.
    pub fn dimension(&self) -> (r: usize)
        ensures
            r == self.spec_dimension(),
    {
        self.dimension
    }

    /// Link slots per node.
    fn link_stride(&self) -> (r: usize)
        ensures
            r == LINK_STRIDE,
    {
        LINK_STRIDE
    }

    /// Start of the slot window for `node_id` on `level`.
    fn link_offset(&self, node_id: usize, level: usize) -> (r: usize)
        requires
            self.wf(),
            node_id < self.spec_count(),
            level < MAX_LAYERS,
        ensures
            r == self.spec_link_offset(node_id as int, level as int),
            r + Self::spec_link_cap(level as int) <= self.link_arena@.len(),
    {
        proof {
            vstd::arithmetic::mul::lemma_mul_inequality(
                node_id as int + 1,
                self.max_elements as int,
                LINK_STRIDE as int,
            );
            vstd::arithmetic::mul::lemma_mul_is_distributive_add_other_way(
                LINK_STRIDE as int,
                node_id as int,
                1,
            );
        }
        let base = node_id * LINK_STRIDE;
        if level == 0 {
            base
        } else {
            base + HNSW_M0 + (level - 1) * HNSW_M
        }
    }

    /// The populated neighbors of `node_id` on `level`: exactly the slot
    /// values before the first sentinel. Every one targets a populated
    /// row.
    fn get_neighbors(&self, node_id: usize, level: usize) -> (r: Vec<u32>)
        requires
            self.wf(),
            node_id < self.spec_count(),
            level < MAX_LAYERS,
        ensures
            r@ == self.links_of(node_id as int, level as int),
            r@.len() <= Self::spec_link_cap(level as int),
            forall|k: int| 0 <= k < r@.len() ==> (#[trigger] r@[k] as int) < self.spec_count(),
    {
        let offset = self.link_offset(node_id, level);
        let max_links = if level == 0 {
            HNSW_M0
        } else {
            HNSW_M
        };
        let ghost win = self.link_slots(node_id as int, level as int);
        proof {
            self.lemma_link_window(node_id as int, level as int);
        }
        let mut out: Vec<u32> = Vec::new();
        let mut i: usize = 0;
        while i < max_links
            invariant
                i <= max_links,
                out@.len() == i,
                offset == self.spec_link_offset(node_id as int, level as int),
                offset + max_links <= self.link_arena@.len(),
                max_links == Self::spec_link_cap(level as int),
                win == self.link_slots(node_id as int, level as int),
                win.len() == max_links,
                self.wf(),
                node_id < self.spec_count(),
                level < MAX_LAYERS,
                out@ == win.take(i as int),
                forall|j: int| 0 <= j < i ==> win[j] != LINK_EMPTY,
                forall|k: int| 0 <= k < out@.len() ==> (#[trigger] out@[k] as int) < self.spec_count(),
            ensures
                i <= max_links,
                out@ == win.take(i as int),
                forall|j: int| 0 <= j < i ==> win[j] != LINK_EMPTY,
                i < max_links ==> win[i as int] == LINK_EMPTY,
                forall|k: int| 0 <= k < out@.len() ==> (#[trigger] out@[k] as int) < self.spec_count(),
            decreases max_links - i,
        {
            let v = self.link_arena[offset + i];
            proof {
                assert(win[i as int] == self.link_arena@[offset + i]);
            }
            if v == LINK_EMPTY {
                break;
            }
            out.push(v);
            proof {
                assert(out@ =~= win.take(i + 1));
            }
            i += 1;
        }
        proof {
            lemma_first_empty_is(win, i as int);
            assert(out@ == self.links_of(node_id as int, level as int));
        }
        out
    }

    /// Records `neighbor_id` as a neighbor of `node_id` on `level`: the
    /// first empty slot takes it; a slot already holding it keeps it; in a
    /// full window it replaces the farthest neighbor when it is closer to
    /// the node, keeping the list at the cap closest.
    fn add_neighbor(&mut self, node_id: usize, level: usize, neighbor_id: u32)
        requires
            old(self).wf(),
            node_id < old(self).spec_count(),
            (neighbor_id as int) < old(self).spec_count(),
            level < MAX_LAYERS,
        ensures
            final(self).wf(),
            final(self).same_content(old(self)),
            final(self).entry_point == old(self).entry_point,
            final(self).max_layer_active == old(self).max_layer_active,
            final(self).map@ == old(self).map@,
            final(self).visited_tags@ == old(self).visited_tags@,
            final(self).global_search_id == old(self).global_search_id,
    {
        let offset = self.link_offset(node_id, level);
        let max_links = if level == 0 {
            HNSW_M0
        } else {
            HNSW_M
        };
        let mut i: usize = 0;
        while i < max_links
            invariant
                i <= max_links,
                offset + max_links <= self.link_arena@.len(),
                neighbor_id != LINK_EMPTY,
                (neighbor_id as int) < self.spec_count(),
                self.wf(),
                self.same_content(old(self)),
                self.link_arena@ == old(self).link_arena@,
                self.entry_point == old(self).entry_point,
                self.max_layer_active == old(self).max_layer_active,
                self.map@ == old(self).map@,
                self.visited_tags@ == old(self).visited_tags@,
                self.global_search_id == old(self).global_search_id,
            decreases max_links - i,
        {
            let v = self.link_arena[offset + i];
            if v == LINK_EMPTY {
                self.link_arena.set(offset + i, neighbor_id);
                return;
            }
            if v == neighbor_id {
                return;
            }
            i += 1;
        }
        // The window is full: keep the cap closest neighbors by evicting
        // the farthest slot when the new edge improves on it.
        let rowq = self.row_vec(node_id);
        let q = ScalarQuantizer::center(rowq.as_slice());
        let dn = self.row_distance(q.as_slice(), neighbor_id as usize);
        let mut worst_i: usize = max_links;
        let mut worst_d: i32 = 0;
        let mut k: usize = 0;
        while k < max_links
            invariant
                k <= max_links,
                worst_i <= max_links,
                offset + max_links <= self.link_arena@.len(),
                q@.len() == self.spec_dimension(),
                self.wf(),
                self.same_content(old(self)),
                self.link_arena@ == old(self).link_arena@,
                self.entry_point == old(self).entry_point,
                self.max_layer_active == old(self).max_layer_active,
                self.map@ == old(self).map@,
                self.visited_tags@ == old(self).visited_tags@,
                self.global_search_id == old(self).global_search_id,
            decreases max_links - k,
        {
            let v = self.link_arena[offset + k];
            if v != LINK_EMPTY {
                let d = self.row_distance(q.as_slice(), v as usize);
                if worst_i == max_links || d > worst_d {
                    worst_i = k;
                    worst_d = d;
                }
            }
            k += 1;
        }
        if worst_i < max_links && dn < worst_d {
            self.link_arena.set(offset + worst_i, neighbor_id);
        }
    }

    /// Reorders the neighbor list of `node_id` on `level` so that
    /// distances to the node come ascending; the slot values all come
    /// from the old window.
    fn prune_connections(&mut self, node_id: usize, level: usize)
        requires
            old(self).wf(),
            node_id < old(self).spec_count(),
            level < MAX_LAYERS,
        ensures
            final(self).wf(),
            final(self).same_content(old(self)),
            final(self).entry_point == old(self).entry_point,
            final(self).max_layer_active == old(self).max_layer_active,
            final(self).map@ == old(self).map@,
            final(self).visited_tags@ == old(self).visited_tags@,
            final(self).global_search_id == old(self).global_search_id,
    {
        let nbrs = self.get_neighbors(node_id, level);
        let n = nbrs.len();
        if n <= 1 {
            return;
        }
        let row_q = self.row_vec(node_id);
        let q = ScalarQuantizer::center(row_q.as_slice());
        let mut scored: Vec<Candidate> = Vec::new();
        let mut i: usize = 0;
        while i < n
            invariant
                i <= n,
                n == nbrs@.len(),
                q@.len() == self.spec_dimension(),
                scored@.len() == i,
                self.wf(),
                forall|k: int| 0 <= k < nbrs@.len() ==> (#[trigger] nbrs@[k] as int) < self.spec_count(),
                forall|k: int|
                    0 <= k < scored@.len() ==> (#[trigger] scored@[k].node_id as int)
                        < self.spec_count(),
            decreases n - i,
        {
            let nid = nbrs[i] as usize;
            let d = self.row_distance(q.as_slice(), nid);
            scored.push(Candidate { distance: d, node_id: nid });
            i += 1;
        }
        // Selection sort: smallest distance first.
        let mut a: usize = 0;
        while a < n
            invariant
                a <= n,
                n == scored@.len(),
                self.wf(),
                forall|k: int|
                    0 <= k < scored@.len() ==> (#[trigger] scored@[k].node_id as int)
                        < self.spec_count(),
            decreases n - a,
        {
            let mut best = a;
            let mut b = a + 1;
            while b < n
                invariant
                    a < n,
                    a <= best < n,
                    a < b <= n,
                    n == scored@.len(),
                    self.wf(),
                    forall|k: int|
                        0 <= k < scored@.len() ==> (#[trigger] scored@[k].node_id as int)
                            < self.spec_count(),
                decreases n - b,
            {
                if scored[b].distance < scored[best].distance {
                    best = b;
                }
                b += 1;
            }
            let x = scored[a];
            let y = scored[best];
            scored.set(a, y);
            scored.set(best, x);
            a += 1;
        }
        // Rewrite the window in sorted order.
        let offset = self.link_offset(node_id, level);
        let mut w: usize = 0;
        while w < n
            invariant
                w <= n,
                n == scored@.len(),
                n <= Self::spec_link_cap(level as int),
                offset + Self::spec_link_cap(level as int) <= self.link_arena@.len(),
                self.wf(),
                self.same_content(old(self)),
                self.entry_point == old(self).entry_point,
                self.max_layer_active == old(self).max_layer_active,
                self.map@ == old(self).map@,
                self.visited_tags@ == old(self).visited_tags@,
                self.global_search_id == old(self).global_search_id,
                forall|k: int|
                    0 <= k < scored@.len() ==> (#[trigger] scored@[k].node_id as int)
                        < self.spec_count(),
            decreases n - w,
        {
            let nid = scored[w].node_id as u32;
            self.link_arena.set(offset + w, nid);
            w += 1;
        }
    }

    /// Copies one stored row out of the arena.
    fn row_vec(&self, r: usize) -> (out: Vec<u8>)
        requires
            self.wf(),
            r < self.spec_count(),
        ensures
            out@ == self.row(r as int),
            out@.len() == self.spec_dimension(),
    {
        proof {
            vstd::arithmetic::mul::lemma_mul_inequality(
                r as int + 1,
                self.spec_count(),
                self.spec_dimension(),
            );
            vstd::arithmetic::mul::lemma_mul_inequality(
                self.spec_count(),
                self.max_elements as int,
                self.spec_dimension(),
            );
            vstd::arithmetic::mul::lemma_mul_is_distributive_add_other_way(
                self.spec_dimension(),
                r as int,
                1,
            );
        }
        let start = r * self.dimension;
        vstd::slice::slice_to_vec(
            slice_subrange(self.quantized_arena.as_slice(), start, start + self.dimension),
        )
    }

    /// Coarse distance between a centered query and the stored row `r`.
    fn row_distance(&self, q: &[i8], r: usize) -> (d: i32)
        requires
            self.wf(),
            q@.len() == self.spec_dimension(),
            r < self.spec_count(),
        ensures
            d == coarse_distance(q@, self.row(r as int)),
    {
        proof {
            vstd::arithmetic::mul::lemma_mul_inequality(
                r as int + 1,
                self.spec_count(),
                self.spec_dimension(),
            );
            vstd::arithmetic::mul::lemma_mul_inequality(
                self.spec_count(),
                self.max_elements as int,
                self.spec_dimension(),
            );
            vstd::arithmetic::mul::lemma_mul_is_distributive_add_other_way(
                self.spec_dimension(),
                r as int,
                1,
            );
        }
        let start = r * self.dimension;
        let row = slice_subrange(self.quantized_arena.as_slice(), start, start + self.dimension);
        scalar_dot_u8(q, row)
    }

    /// Advances the search epoch; a row is "visited this search" exactly
    /// when its tag equals the returned value.
    fn next_search_version(&mut self) -> (r: u32)
        requires
            old(self).wf(),
        ensures
            final(self).wf(),
            final(self).same_store(old(self)),
            final(self).visited_tags@ == old(self).visited_tags@,
    {
        let v = self.global_search_id;
        self.global_search_id = v.wrapping_add(1);
        v
    }

    /// Samples the level of a new node: a fair draw per layer until the
    /// first failure or the layer cap.
    fn random_level(&self) -> (r: usize)
        ensures
            r < MAX_LAYERS,
    {
        let mut level: usize = 0;
        loop
            invariant
                level < MAX_LAYERS,
            ensures
                level < MAX_LAYERS,
            decreases MAX_LAYERS - level,
        {
            if level + 1 >= MAX_LAYERS {
                break;
            }
            if !coin_flip() {
                break;
            }
            level += 1;
        }
        level
    }

    /// Beam search on one layer, starting from `ep` with beam width `ef`,
    /// under a fresh search epoch. Returns between 1 and `ef` distinct
    /// populated rows, each reachable from `ep` along the level's links
    /// and scored with its exact coarse distance to `q`, sorted nearest
    /// first. Only the visited-epoch scratch state is written.
    #[verifier::rlimit(100)]
    fn search_layer(&mut self, q: &[i8], ep: usize, ef: usize, level: usize) -> (res: Vec<
        Candidate,
    >)
        requires
            old(self).wf(),
            q@.len() == old(self).spec_dimension(),
            ep < old(self).spec_count(),
            1 <= ef,
            level < MAX_LAYERS,
        ensures
            final(self).wf(),
            final(self).same_store(old(self)),
            1 <= res@.len() <= ef,
            forall|k: int|
                0 <= k < res@.len() ==> (#[trigger] res@[k].node_id as int) < old(
                    self,
                ).spec_count(),
            forall|k: int|
                0 <= k < res@.len() ==> (#[trigger] res@[k].distance) == coarse_distance(
                    q@,
                    old(self).row(res@[k].node_id as int),
                ),
            forall|k: int, l: int|
                0 <= k < l < res@.len() ==> res@[k].distance <= res@[l].distance,
            forall|k: int, l: int|
                0 <= k < l < res@.len() ==> res@[k].node_id != res@[l].node_id,
            forall|k: int|
                0 <= k < res@.len() ==> old(self).reachable(
                    level as int,
                    ep as int,
                    ((#[trigger] res@[k]).node_id) as int,
                    ),
    {
        let search_id = self.next_search_version();
        let d0 = self.row_distance(q, ep);
        let entry = Candidate { distance: d0, node_id: ep };
        let mut frontier: Vec<Candidate> = Vec::new();
        let mut res: Vec<Candidate> = Vec::new();
        frontier.push(entry);
        res.push(entry);
        self.visited_tags.set(ep, search_id);
        proof {
            old(self).lemma_reachable_self(level as int, ep as int);
            assert forall|k: int| 0 <= k < res@.len() implies old(self).reachable(
                level as int,
                ep as int,
                ((#[trigger] res@[k]).node_id) as int,
            ) by {
                assert(res@[k].node_id == ep);
            }
            assert forall|k: int| 0 <= k < frontier@.len() implies old(self).reachable(
                level as int,
                ep as int,
                ((#[trigger] frontier@[k]).node_id) as int,
            ) by {
                assert(frontier@[k].node_id == ep);
            }
        }
        let mut steps: usize = self.external_ids.len() + 1;
        while steps > 0
            invariant
                self.wf(),
                self.same_store(old(self)),
                level < MAX_LAYERS,
                q@.len() == self.spec_dimension(),
                1 <= res@.len() <= ef,
                forall|k: int|
                    0 <= k < res@.len() ==> (#[trigger] res@[k].node_id as int)
                        < self.spec_count(),
                forall|k: int|
                    0 <= k < res@.len() ==> (#[trigger] res@[k].distance) == coarse_distance(
                        q@,
                        self.row(res@[k].node_id as int),
                    ),
                forall|k: int, l: int|
                    0 <= k < l < res@.len() ==> res@[k].distance <= res@[l].distance,
                forall|k: int, l: int|
                    0 <= k < l < res@.len() ==> res@[k].node_id != res@[l].node_id,
                forall|k: int|
                    0 <= k < res@.len() ==> self.visited_tags@[res@[k].node_id as int]
                        == search_id,
                forall|k: int|
                    0 <= k < frontier@.len() ==> (#[trigger] frontier@[k].node_id as int)
                        < self.spec_count(),
                forall|k: int|
                    0 <= k < res@.len() ==> old(self).reachable(
                        level as int,
                        ep as int,
                        ((#[trigger] res@[k]).node_id) as int,
                        ),
                forall|k: int|
                    0 <= k < frontier@.len() ==> old(self).reachable(
                        level as int,
                        ep as int,
                        ((#[trigger] frontier@[k]).node_id) as int,
                        ),
            ensures
                self.wf(),
                self.same_store(old(self)),
                1 <= res@.len() <= ef,
                forall|k: int|
                    0 <= k < res@.len() ==> (#[trigger] res@[k].node_id as int)
                        < self.spec_count(),
                forall|k: int|
                    0 <= k < res@.len() ==> (#[trigger] res@[k].distance) == coarse_distance(
                        q@,
                        self.row(res@[k].node_id as int),
                    ),
                forall|k: int, l: int|
                    0 <= k < l < res@.len() ==> res@[k].distance <= res@[l].distance,
                forall|k: int, l: int|
                    0 <= k < l < res@.len() ==> res@[k].node_id != res@[l].node_id,
                forall|k: int|
                    0 <= k < res@.len() ==> old(self).reachable(
                        level as int,
                        ep as int,
                        ((#[trigger] res@[k]).node_id) as int,
                        ),
            decreases steps,
        {
            steps -= 1;
            if frontier.len() == 0 {
                break;
            }
            // Pop the nearest frontier candidate.
            let mut best: usize = 0;
            let mut b: usize = 1;
            while b < frontier.len()
                invariant
                    best < frontier@.len(),
                    b <= frontier@.len(),
                decreases frontier@.len() - b,
            {
                if frontier[b].distance < frontier[best].distance {
                    best = b;
                }
                b += 1;
            }
            proof {
                assert(old(self).reachable(
                    level as int,
                    ep as int,
                    (frontier@[best as int].node_id) as int,
                ));
            }
            let ghost frontier0 = frontier@;
            let top = frontier.swap_remove(best);
            proof {
                assert(top == frontier0[best as int]);
                assert forall|k: int|
                    0 <= k < frontier@.len() implies (#[trigger] frontier@[k].node_id as int)
                    < self.spec_count() && old(self).reachable(
                    level as int,
                    ep as int,
                    (frontier@[k].node_id) as int,
                ) by {
                    if k == best as int {
                        assert(frontier@[k] == frontier0[frontier0.len() - 1]);
                    } else {
                        assert(frontier@[k] == frontier0[k]);
                    }
                }
            }
            let worst = res[res.len() - 1].distance;
            if top.distance > worst && res.len() >= ef {
                break;
            }
            let neighbors = self.get_neighbors(top.node_id, level);
            let mut j: usize = 0;
            while j < neighbors.len()
                invariant
                    j <= neighbors@.len(),
                    self.wf(),
                    self.same_store(old(self)),
                    q@.len() == self.spec_dimension(),
                    forall|k: int|
                        0 <= k < neighbors@.len() ==> (#[trigger] neighbors@[k] as int)
                            < self.spec_count(),
                    1 <= res@.len() <= ef,
                    forall|k: int|
                        0 <= k < res@.len() ==> (#[trigger] res@[k].node_id as int)
                            < self.spec_count(),
                    forall|k: int|
                        0 <= k < res@.len() ==> (#[trigger] res@[k].distance) == coarse_distance(
                            q@,
                            self.row(res@[k].node_id as int),
                        ),
                    forall|k: int, l: int|
                        0 <= k < l < res@.len() ==> res@[k].distance <= res@[l].distance,
                    forall|k: int, l: int|
                        0 <= k < l < res@.len() ==> res@[k].node_id != res@[l].node_id,
                    forall|k: int|
                        0 <= k < res@.len() ==> self.visited_tags@[res@[k].node_id as int]
                            == search_id,
                    forall|k: int|
                        0 <= k < frontier@.len() ==> (#[trigger] frontier@[k].node_id as int)
                            < self.spec_count(),
                    forall|k: int|
                        0 <= k < res@.len() ==> old(self).reachable(
                            level as int,
                            ep as int,
                            ((#[trigger] res@[k]).node_id) as int,
                            ),
                    forall|k: int|
                        0 <= k < frontier@.len() ==> old(self).reachable(
                            level as int,
                            ep as int,
                            ((#[trigger] frontier@[k]).node_id) as int,
                            ),
                    old(self).reachable(level as int, ep as int, top.node_id as int),
                    neighbors@ == self.links_of(top.node_id as int, level as int),
                    (top.node_id as int) < self.spec_count(),
                decreases neighbors@.len() - j,
            {
                let ghost j0 = j;
                let nid = neighbors[j] as usize;
                j += 1;
                if self.visited_tags[nid] == search_id {
                    continue;
                }
                self.visited_tags.set(nid, search_id);
                let d = self.row_distance(q, nid);
                let cur_worst = res[res.len() - 1].distance;
                if res.len() < ef || d < cur_worst {
                    let c = Candidate { distance: d, node_id: nid };
                    // `nid` was unvisited, so it is not in `res`; it is a
                    // link of `top`, so it is reachable through it.
                    proof {
                        assert(forall|k: int|
                            0 <= k < res@.len() ==> res@[k].node_id != nid);
                        let lvl = level as int;
                        let tn = top.node_id as int;
                        assert(self.link_slots(tn, lvl) =~= old(self).link_slots(tn, lvl));
                        assert(self.links_of(tn, lvl) == old(self).links_of(tn, lvl));
                        assert(nid == neighbors@[j0 as int] as usize);
                        assert(nid as u32 == neighbors@[j0 as int]);
                        assert(old(self).links_of(tn, lvl)[j0 as int] == nid as u32);
                        assert(old(self).links_of(tn, lvl).contains(nid as u32));
                        assert(old(self).reachable(lvl, ep as int, tn));
                        assert(0 <= (nid as int) < old(self).spec_count());
                        assert(((nid as int) as u32) == nid as u32);
                        assert(old(self).links_of(tn, lvl).contains((nid as int) as u32));
                        old(self).lemma_reachable_step(lvl, ep as int, tn, nid as int);
                        assert(old(self).reachable(lvl, ep as int, nid as int));
                    }
                    let mut pos: usize = 0;
                    while pos < res.len()
                        invariant
                            pos <= res@.len(),
                            forall|k: int| 0 <= k < pos ==> res@[k].distance <= c.distance,
                        ensures
                            pos <= res@.len(),
                            forall|k: int| 0 <= k < pos ==> res@[k].distance <= c.distance,
                            pos < res@.len() ==> res@[pos as int].distance > c.distance,
                        decreases res@.len() - pos,
                    {
                        if res[pos].distance > c.distance {
                            break;
                        }
                        pos += 1;
                    }
                    let ghost res0 = res@;
                    res.insert(pos, c);
                    proof {
                        assert(res@.len() == res0.len() + 1);
                        assert(forall|k: int| 0 <= k < pos ==> res@[k] == res0[k]);
                        assert(res@[pos as int] == c);
                        assert(forall|k: int|
                            pos < k < res@.len() ==> res@[k] == res0[k - 1]);
                    }
                    if res.len() > ef {
                        let ghost res1 = res@;
                        let _ = res.pop();
                        proof {
                            assert(res@ =~= res1.subrange(0, res1.len() - 1));
                        }
                    }
                    frontier.push(c);
                }
            }
        }
        res
    }

    /// Inserts a quantized vector under an external identifier. When the
    /// vector has the index's dimension and the index is below capacity,
    /// a new row is appended to the arena, the identifier is recorded for
    /// it, and the node is linked into the graph. A record whose length
    /// does not match the dimension is skipped, and an insert at capacity
    /// is dropped: either way the index is left unchanged, exactly and
    /// only then.
    pub fn insert(&mut self, id: u64, qvec: &[u8])
        requires
            old(self).wf(),
        ensures
            final(self).wf(),
            final(self).spec_dimension() == old(self).spec_dimension(),
            final(self).spec_max_elements() == old(self).spec_max_elements(),
            qvec@.len() == old(self).spec_dimension() && old(self).spec_count() < old(
                self,
            ).spec_max_elements() ==> {
                &&& final(self).spec_count() == old(self).spec_count() + 1
                &&& final(self).ids() == old(self).ids().push(id)
                &&& final(self).arena() == old(self).arena() + qvec@
                &&& final(self).row(old(self).spec_count()) == qvec@
            },
            qvec@.len() != old(self).spec_dimension() || old(self).spec_count() >= old(
                self,
            ).spec_max_elements() ==> {
                &&& final(self).spec_count() == old(self).spec_count()
                &&& final(self).ids() == old(self).ids()
                &&& final(self).arena() == old(self).arena()
            },
            forall|n: int, l: int, k: int|
                0 <= n < final(self).spec_count() && 0 <= l < MAX_LAYERS as int && 0 <= k
                    < final(self).links_of(n, l).len() ==> ((#[trigger] final(self).links_of(
                    n,
                    l,
                )[k]) as int) < final(self).spec_count(),
    {
        if qvec.len() != self.dimension {
            // Dimension mismatch: skip the record.
            proof {
                lemma_insert_links_valid(self);
            }
            return;
        }
        if self.external_ids.len() >= self.max_elements {
            proof {
                lemma_insert_links_valid(self);
            }
            return;
        }
        let row_idx = self.external_ids.len();
        self.quantized_arena.extend_from_slice(qvec);
        self.external_ids.push(id);
        self.map.insert(id, row_idx);
        proof {
            vstd::arithmetic::mul::lemma_mul_is_distributive_add_other_way(
                self.spec_dimension(),
                row_idx as int,
                1,
            );
            assert(self.quantized_arena@.len() == self.external_ids@.len() * self.dimension);
            assert(self.row(row_idx as int) =~= qvec@);
            assert(forall|i: int|
                0 <= i < self.link_arena@.len() ==> (#[trigger] self.link_arena@[i] == LINK_EMPTY
                    || (self.link_arena@[i] as int) < self.spec_count()));
        }
        let node_level = self.random_level();
        if self.entry_point == LINK_EMPTY {
            self.entry_point = row_idx as u32;
            self.max_layer_active = node_level as u32;
            proof {
                lemma_insert_links_valid(self);
            }
            return;
        }
        let ghost g0 = *self;
        let q = ScalarQuantizer::center(qvec);
        let max_l = self.max_layer_active as usize;
        let mut curr: usize = self.entry_point as usize;
        if node_level < max_l {
            let mut lvl: usize = max_l;
            while lvl > node_level
                invariant
                    node_level < lvl <= max_l || lvl == node_level,
                    lvl < MAX_LAYERS,
                    self.wf(),
                    self.same_store(&g0),
                    q@.len() == self.spec_dimension(),
                    curr < self.spec_count(),
                decreases lvl,
            {
                let cands = self.search_layer(q.as_slice(), curr, 1, lvl);
                curr = cands[0].node_id;
                lvl -= 1;
            }
        }
        let start_layer = if node_level < max_l {
            node_level
        } else {
            max_l
        };
        let mut lvl: usize = start_layer;
        loop
            invariant
                lvl <= start_layer,
                start_layer < MAX_LAYERS,
                self.wf(),
                self.same_content(&g0),
                self.entry_point == g0.entry_point,
                self.max_layer_active == g0.max_layer_active,
                q@.len() == self.spec_dimension(),
                curr < self.spec_count(),
                row_idx < self.spec_count(),
            ensures
                self.wf(),
                self.same_content(&g0),
                self.entry_point == g0.entry_point,
                self.max_layer_active == g0.max_layer_active,
            decreases lvl,
        {
            let cands = self.search_layer(q.as_slice(), curr, EF_CONSTRUCTION, lvl);
            let max_neighbors = if lvl == 0 {
                HNSW_M0
            } else {
                HNSW_M
            };
            let take = if cands.len() < max_neighbors {
                cands.len()
            } else {
                max_neighbors
            };
            let mut t: usize = 0;
            while t < take
                invariant
                    t <= take,
                    take <= cands@.len(),
                    lvl < MAX_LAYERS,
                    self.wf(),
                    self.same_content(&g0),
                    self.entry_point == g0.entry_point,
                    self.max_layer_active == g0.max_layer_active,
                    row_idx < self.spec_count(),
                    forall|k: int|
                        0 <= k < cands@.len() ==> (#[trigger] cands@[k].node_id as int)
                            < self.spec_count(),
                decreases take - t,
            {
                let cn = cands[t].node_id;
                self.add_neighbor(row_idx, lvl, cn as u32);
                self.add_neighbor(cn, lvl, row_idx as u32);
                self.prune_connections(cn, lvl);
                t += 1;
            }
            curr = cands[0].node_id;
            if lvl == 0 {
                break;
            }
            lvl -= 1;
        }
        if node_level > max_l {
            self.entry_point = row_idx as u32;
            self.max_layer_active = node_level as u32;
        }
        proof {
            lemma_insert_links_valid(self);
        }
    }

    /// Approximate nearest-neighbour search with a pre-quantized query.
    /// On a non-empty index and positive `top_k`, returns between 1 and
    /// `top_k` hits, nearest first by coarse distance; each hit carries
    /// the identifier of a populated row and that row's exact coarse
    /// distance to the query. An empty index yields no hits.
    pub fn search(&mut self, query: &[i8], top_k: usize) -> (res: Vec<(u64, i32)>)
        requires
            old(self).wf(),
            query@.len() == old(self).spec_dimension(),
        ensures
            final(self).wf(),
            final(self).same_store(old(self)),
            old(self).spec_count() == 0 ==> res@.len() == 0,
            old(self).spec_count() > 0 && top_k > 0 ==> 1 <= res@.len(),
            res@.len() <= top_k,
            forall|k: int|
                0 <= k < res@.len() ==> old(self).search_hit(query@, res@[k].0, res@[k].1),
            forall|k: int, l: int| 0 <= k < l < res@.len() ==> res@[k].1 <= res@[l].1,
    {
        if self.entry_point == LINK_EMPTY {
            return Vec::new();
        }
        let max_l = self.max_layer_active as usize;
        let mut curr: usize = self.entry_point as usize;
        let ghost g0 = *self;
        let mut lvl: usize = max_l;
        while lvl > 0
            invariant
                lvl <= max_l,
                max_l < MAX_LAYERS,
                self.wf(),
                self.same_store(&g0),
                query@.len() == self.spec_dimension(),
                curr < self.spec_count(),
            decreases lvl,
        {
            let cands = self.search_layer(query, curr, 1, lvl);
            curr = cands[0].node_id;
            lvl -= 1;
        }
        let ef_search = if top_k > EF_CONSTRUCTION {
            top_k
        } else {
            EF_CONSTRUCTION
        };
        if top_k == 0 {
            return Vec::new();
        }
        let coarse = self.search_layer(query, curr, ef_search, 0);
        let mut out: Vec<(u64, i32)> = Vec::new();
        let n = coarse.len();
        let mut i: usize = 0;
        while i < n && i < top_k
            invariant
                i <= n,
                n == coarse@.len(),
                out@.len() == i,
                i <= top_k,
                self.wf(),
                self.same_store(&g0),
                forall|k: int|
                    0 <= k < coarse@.len() ==> (#[trigger] coarse@[k].node_id as int)
                        < self.spec_count(),
                forall|k: int|
                    0 <= k < coarse@.len() ==> (#[trigger] coarse@[k].distance)
                        == coarse_distance(query@, self.row(coarse@[k].node_id as int)),
                forall|k: int, l: int|
                    0 <= k < l < coarse@.len() ==> coarse@[k].distance <= coarse@[l].distance,
                forall|k: int|
                    0 <= k < out@.len() ==> self.search_hit(query@, out@[k].0, out@[k].1),
                forall|k: int| 0 <= k < out@.len() ==> out@[k].1 == coarse@[k].distance,
                forall|k: int, l: int| 0 <= k < l < out@.len() ==> out@[k].1 <= out@[l].1,
            decreases n - i,
        {
            let c = coarse[i];
            let ext = self.external_ids[c.node_id];
            proof {
                let rid = c.node_id as int;
                assert(0 <= rid && rid < self.spec_count());
                assert(self.ids()[rid] == ext);
                assert(c.distance == coarse_distance(query@, self.row(rid)));
                assert(self.search_hit(query@, ext, c.distance));
            }
            out.push((ext, c.distance));
            i += 1;
        }
        proof {
            assert forall|k: int| 0 <= k < out@.len() implies old(self).search_hit(
                query@,
                out@[k].0,
                out@[k].1,
            ) by {
                assert(self.search_hit(query@, out@[k].0, out@[k].1));
                let r = choose|r: int|
                    0 <= r < self.spec_count() && self.ids()[r] == out@[k].0 && out@[k].1
                        == coarse_distance(query@, self.row(r));
                assert(old(self).row(r) == self.row(r));
                assert(0 <= r < old(self).spec_count() && old(self).ids()[r] == out@[k].0
                    && out@[k].1 == coarse_distance(query@, old(self).row(r)));
            }
        }
        out
    }
}

/// Relies on `rand::random::<bool>`: one fair coin draw from the thread
/// generator. Nothing is assumed of the outcome.
#[verifier::external_body]
fn coin_flip() -> bool {
    rand::random::<bool>()
}

} // verus!
