use vstd::prelude::*;

verus! {

/// Where one singly inserted element lives: block `slab`, position `index`.
#[derive(Clone, Copy, Debug, PartialEq, Eq, Structural)]
pub struct Handle {
    pub slab: usize,
    pub index: usize,
}

/// Where the elements of one bulk insert live: block `slab`, positions
/// `start .. start + len`, contiguous and in order.
#[derive(Clone, Copy, Debug, PartialEq, Eq, Structural)]
pub struct SliceHandle {
    pub slab: usize,
    pub start: usize,
    pub len: usize,
}

/// Capacity given to the block created at index `i` by a single insert: 32 for
/// the first block, then doubling with each block, held at `usize::MAX` once
/// doubling would no longer fit.
pub open spec fn block_capacity(i: nat) -> nat
    decreases i,
{
    if i == 0 {
        32
    } else {
        let c = block_capacity((i - 1) as nat);
        if 2 * c <= usize::MAX {
            2 * c
        } else {
            usize::MAX as nat
        }
    }
}

/// Number of elements held over all blocks.
pub open spec fn total_len<T>(blocks: Seq<Seq<T>>) -> nat
    decreases blocks.len(),
{
    if blocks.len() == 0 {
        0
    } else {
        total_len(blocks.drop_last()) + blocks.last().len()
    }
}

/// One call on an arena: a single insert or a bulk insert.
pub enum Op<T> {
    Insert(T),
    InsertAll(Seq<T>),
}

/// The values that one call hands to the arena.
pub open spec fn op_values<T>(op: Op<T>) -> Seq<T> {
    match op {
        Op::Insert(v) => seq![v],
        Op::InsertAll(vs) => vs,
    }
}

/// All values handed to the arena by `ops`, in call order.
pub open spec fn inserted<T>(ops: Seq<Op<T>>) -> Seq<T>
    decreases ops.len(),
{
    if ops.len() == 0 {
        Seq::empty()
    } else {
        inserted(ops.drop_last()) + op_values(ops.last())
    }
}

/// The abstract state of an arena: the contents and capacity of each block in
/// creation order, the known-full cursor, and the element count.
pub struct ArenaView<T> {
    pub blocks: Seq<Seq<T>>,
    pub caps: Seq<nat>,
    pub cursor: nat,
    pub len: nat,
}

impl<T> ArenaView<T> {
    pub open spec fn empty() -> Self {
        ArenaView { blocks: Seq::empty(), caps: Seq::empty(), cursor: 0, len: 0 }
    }

    /// Block `i` has free room.
    pub open spec fn is_open(self, i: int) -> bool {
        self.blocks[i].len() < self.caps[i]
    }

    pub open spec fn wf(self) -> bool {
        &&& self.caps.len() == self.blocks.len()
        &&& forall|i: int|
            0 <= i < self.blocks.len() ==> #[trigger] self.blocks[i].len() <= self.caps[i]
                && self.caps[i] >= block_capacity(i as nat)
        &&& self.cursor <= self.blocks.len()
        &&& forall|i: int| 0 <= i < self.cursor ==> !#[trigger] self.is_open(i)
        &&& self.len == total_len(self.blocks)
    }

    /// The first block at or after `i` with free room, or the number of
    /// blocks when there is none.
    pub open spec fn first_open_from(self, i: int) -> int
        decreases self.blocks.len() - i,
    {
        if i >= self.blocks.len() {
            self.blocks.len() as int
        } else if self.is_open(i) {
            i
        } else {
            self.first_open_from(i + 1)
        }
    }

    /// The last block in `lo .. hi` with free room, or -1 when there is none.
    pub open spec fn last_open(self, lo: int, hi: int) -> int
        decreases hi - lo,
    {
        if hi <= lo {
            -1
        } else if self.is_open(hi - 1) {
            hi - 1
        } else {
            self.last_open(lo, hi - 1)
        }
    }

    /// The block a single insert writes to; the number of blocks stands for a new one.
    pub open spec fn insert_target(self) -> int {
        self.first_open_from(self.cursor as int)
    }

    /// The state after a single insert of `v`.
    pub open spec fn after_insert(self, v: T) -> Self {
        let j = self.insert_target();
        let n = self.blocks.len();
        if j < n {
            ArenaView {
                blocks: self.blocks.update(j, self.blocks[j].push(v)),
                caps: self.caps,
                cursor: j as nat,
                len: self.len + 1,
            }
        } else {
            ArenaView {
                blocks: self.blocks.push(seq![v]),
                caps: self.caps.push(block_capacity(n)),
                cursor: n,
                len: self.len + 1,
            }
        }
    }

    /// Block and position where a single insert puts its value.
    pub open spec fn insert_slot(self) -> (int, int) {
        let j = self.insert_target();
        if j < self.blocks.len() {
            (j, self.blocks[j].len() as int)
        } else {
            (self.blocks.len() as int, 0)
        }
    }

    pub open spec fn insert_handle(self) -> Handle {
        Handle { slab: self.insert_slot().0 as usize, index: self.insert_slot().1 as usize }
    }

    /// The block a bulk insert tries first: the last one at or after the
    /// cursor with free room, or -1.
    pub open spec fn bulk_target(self) -> int {
        self.last_open(self.cursor as int, self.blocks.len() as int)
    }

    /// The values `vs` fit in the room left in the bulk insert's target block.
    pub open spec fn bulk_fits(self, vs: Seq<T>) -> bool {
        let j = self.bulk_target();
        j >= 0 && self.blocks[j].len() + vs.len() <= self.caps[j]
    }

    /// The state after a bulk insert of `vs`: appended to the target block
    /// when they fit there, else all of them in one new block, which is made
    /// large enough to hold them.
    pub open spec fn after_insert_all(self, vs: Seq<T>) -> Self {
        let j = self.bulk_target();
        let n = self.blocks.len();
        if self.bulk_fits(vs) {
            ArenaView {
                blocks: self.blocks.update(j, self.blocks[j] + vs),
                caps: self.caps,
                cursor: self.cursor,
                len: self.len + vs.len(),
            }
        } else {
            ArenaView {
                blocks: self.blocks.push(vs),
                caps: self.caps.push(
                    if vs.len() <= block_capacity(n) {
                        block_capacity(n)
                    } else {
                        vs.len()
                    },
                ),
                cursor: self.cursor,
                len: self.len + vs.len(),
            }
        }
    }

    /// Block and starting position where a bulk insert of `vs` puts its values.
    pub open spec fn insert_all_slot(self, vs: Seq<T>) -> (int, int) {
        let j = self.bulk_target();
        if self.bulk_fits(vs) {
            (j, self.blocks[j].len() as int)
        } else {
            (self.blocks.len() as int, 0)
        }
    }

    pub open spec fn insert_all_handle(self, vs: Seq<T>) -> SliceHandle {
        SliceHandle {
            slab: self.insert_all_slot(vs).0 as usize,
            start: self.insert_all_slot(vs).1 as usize,
            len: vs.len() as usize,
        }
    }

    pub open spec fn holds(self, h: Handle) -> bool {
        h.slab < self.blocks.len() && h.index < self.blocks[h.slab as int].len()
    }

    pub open spec fn at(self, h: Handle) -> T {
        self.blocks[h.slab as int][h.index as int]
    }

    pub open spec fn holds_slice(self, s: SliceHandle) -> bool {
        s.slab < self.blocks.len() && s.start + s.len <= self.blocks[s.slab as int].len()
    }

    pub open spec fn slice_at(self, s: SliceHandle) -> Seq<T> {
        self.blocks[s.slab as int].subrange(s.start as int, s.start + s.len)
    }

    /// Every block of `self` is still in `other`, with its elements unchanged
    /// and in place at the front.
    pub open spec fn grows_into(self, other: Self) -> bool {
        &&& self.blocks.len() <= other.blocks.len()
        &&& forall|i: int|
            0 <= i < self.blocks.len() ==> (#[trigger] self.blocks[i]).len()
                <= other.blocks[i].len()
        &&& forall|i: int, k: int|
            0 <= i < self.blocks.len() && 0 <= k < self.blocks[i].len() ==> #[trigger] self.blocks[i][k]
                == other.blocks[i][k]
    }

    pub open spec fn step(self, op: Op<T>) -> Self {
        match op {
            Op::Insert(v) => self.after_insert(v),
            Op::InsertAll(vs) => self.after_insert_all(vs),
        }
    }

    /// The state after the calls `ops`, in order.
    pub open spec fn run(self, ops: Seq<Op<T>>) -> Self
        decreases ops.len(),
    {
        if ops.len() == 0 {
            self
        } else {
            self.run(ops.drop_last()).step(ops.last())
        }
    }

    /// What the reference or slice that `op` returns when applied to `self`
    /// reads in the state `later`.
    pub open spec fn read_result(self, op: Op<T>, later: Self) -> Seq<T> {
        match op {
            Op::Insert(_) => seq![later.blocks[self.insert_slot().0][self.insert_slot().1]],
            Op::InsertAll(vs) => {
                let (j, p) = self.insert_all_slot(vs);
                later.blocks[j].subrange(p, p + vs.len())
            },
        }
    }

    /// The results of all the calls `ops`, read in the state `later` and
    /// concatenated in call order.
    pub open spec fn read_all(self, ops: Seq<Op<T>>, later: Self) -> Seq<T>
        decreases ops.len(),
    {
        if ops.len() == 0 {
            Seq::empty()
        } else {
            self.read_all(ops.drop_last(), later) + self.run(ops.drop_last()).read_result(
                ops.last(),
                later,
            )
        }
    }
}

pub proof fn lemma_block_capacity_bounds(i: nat)
    ensures
        32 <= block_capacity(i) <= usize::MAX,
    decreases i,
{
    if i > 0 {
        lemma_block_capacity_bounds((i - 1) as nat);
    }
}

pub proof fn lemma_total_len_push<T>(blocks: Seq<Seq<T>>, b: Seq<T>)
    ensures
        total_len(blocks.push(b)) == total_len(blocks) + b.len(),
{
    assert(blocks.push(b).drop_last() =~= blocks);
}

pub proof fn lemma_total_len_update<T>(blocks: Seq<Seq<T>>, j: int, b: Seq<T>)
    requires
        0 <= j < blocks.len(),
    ensures
        total_len(blocks.update(j, b)) + blocks[j].len() == total_len(blocks) + b.len(),
    decreases blocks.len(),
{
    let u = blocks.update(j, b);
    if j == blocks.len() - 1 {
        assert(u.drop_last() =~= blocks.drop_last());
    } else {
        lemma_total_len_update(blocks.drop_last(), j, b);
        assert(u.drop_last() =~= blocks.drop_last().update(j, b));
    }
}

impl<T> ArenaView<T> {
    pub proof fn lemma_first_open_from(self, i: int)
        requires
            0 <= i <= self.blocks.len(),
        ensures
            i <= self.first_open_from(i) <= self.blocks.len(),
            self.first_open_from(i) < self.blocks.len() ==> self.is_open(self.first_open_from(i)),
            forall|k: int| i <= k < self.first_open_from(i) ==> !#[trigger] self.is_open(k),
        decreases self.blocks.len() - i,
    {
        if i < self.blocks.len() && !self.is_open(i) {
            self.lemma_first_open_from(i + 1);
        }
    }

    pub proof fn lemma_last_open(self, lo: int, hi: int)
        requires
            0 <= lo,
            hi <= self.blocks.len(),
        ensures
            self.last_open(lo, hi) == -1 || (lo <= self.last_open(lo, hi) < hi && self.is_open(
                self.last_open(lo, hi),
            )),
        decreases hi - lo,
    {
        if hi > lo && !self.is_open(hi - 1) {
            self.lemma_last_open(lo, hi - 1);
        }
    }

    pub proof fn lemma_targets(self)
        requires
            self.cursor <= self.blocks.len(),
        ensures
            self.cursor <= self.insert_target() <= self.blocks.len(),
            self.insert_target() < self.blocks.len() ==> self.is_open(self.insert_target()),
            forall|k: int| self.cursor <= k < self.insert_target() ==> !#[trigger] self.is_open(k),
            self.bulk_target() == -1 || (self.cursor <= self.bulk_target() < self.blocks.len()
                && self.is_open(self.bulk_target())),
    {
        self.lemma_first_open_from(self.cursor as int);
        self.lemma_last_open(self.cursor as int, self.blocks.len() as int);
    }

    /// A single insert keeps the arena well formed.
    pub proof fn lemma_insert_wf(self, v: T)
        requires
            self.wf(),
        ensures
            self.after_insert(v).wf(),
    {
        let j = self.insert_target();
        let n = self.blocks.len();
        let s = self.after_insert(v);
        self.lemma_targets();
        if j < n {
            lemma_total_len_update(self.blocks, j, self.blocks[j].push(v));
            assert forall|i: int| 0 <= i < s.cursor implies !#[trigger] s.is_open(i) by {
                assert(!self.is_open(i));
                assert(s.blocks[i] == self.blocks[i]);
            }
            assert forall|i: int| 0 <= i < s.blocks.len() implies #[trigger] s.blocks[i].len()
                <= s.caps[i] && s.caps[i] >= block_capacity(i as nat) by {
                if i != j {
                    assert(self.blocks[i].len() <= self.caps[i]);
                }
            }
        } else {
            lemma_total_len_push(self.blocks, seq![v]);
            lemma_block_capacity_bounds(n);
            assert forall|i: int| 0 <= i < s.cursor implies !#[trigger] s.is_open(i) by {
                assert(!self.is_open(i));
                assert(s.blocks[i] == self.blocks[i]);
            }
            assert forall|i: int| 0 <= i < s.blocks.len() implies #[trigger] s.blocks[i].len()
                <= s.caps[i] && s.caps[i] >= block_capacity(i as nat) by {
                if i < n {
                    assert(self.blocks[i].len() <= self.caps[i]);
                }
            }
        }
    }

    /// A bulk insert keeps the arena well formed.
    pub proof fn lemma_insert_all_wf(self, vs: Seq<T>)
        requires
            self.wf(),
        ensures
            self.after_insert_all(vs).wf(),
    {
        let j = self.bulk_target();
        let n = self.blocks.len();
        let s = self.after_insert_all(vs);
        self.lemma_targets();
        if self.bulk_fits(vs) {
            lemma_total_len_update(self.blocks, j, self.blocks[j] + vs);
            assert forall|i: int| 0 <= i < s.cursor implies !#[trigger] s.is_open(i) by {
                assert(!self.is_open(i));
            }
            assert forall|i: int| 0 <= i < s.blocks.len() implies #[trigger] s.blocks[i].len()
                <= s.caps[i] && s.caps[i] >= block_capacity(i as nat) by {
                if i != j {
                    assert(self.blocks[i].len() <= self.caps[i]);
                }
            }
        } else {
            lemma_total_len_push(self.blocks, vs);
            assert forall|i: int| 0 <= i < s.cursor implies !#[trigger] s.is_open(i) by {
                assert(!self.is_open(i));
            }
            assert forall|i: int| 0 <= i < s.blocks.len() implies #[trigger] s.blocks[i].len()
                <= s.caps[i] && s.caps[i] >= block_capacity(i as nat) by {
                if i < n {
                    assert(self.blocks[i].len() <= self.caps[i]);
                }
            }
        }
    }
}

} // verus!
