use vstd::prelude::*;

use crate::model::{block_capacity, lemma_block_capacity_bounds, lemma_total_len_push, lemma_total_len_update, ArenaView, Handle, SliceHandle};
use crate::slab::Slab;

verus! {

/// A growable arena: values go in one at a time or in bulk, and what has gone
/// in stays where it was put for as long as the arena lives.
///
/// Storage is a list of blocks of fixed capacity, 32 for the first and
/// doubling with each new one. A single insert returns a [`Handle`] and a
/// bulk insert a [`SliceHandle`] covering one contiguous run of a block; both
/// keep reading the same values after any later insert.
pub struct Arena<T> {
    slabs: Vec<Slab<T>>,
    full_slabs: usize,
    len: usize,
    next_capacity: usize,
}

impl<T> View for Arena<T> {
    type V = ArenaView<T>;

    closed spec fn view(&self) -> ArenaView<T> {
        ArenaView {
            blocks: Seq::new(self.slabs@.len(), |i: int| self.slabs@[i]@),
            caps: Seq::new(self.slabs@.len(), |i: int| self.slabs@[i].cap()),
            cursor: self.full_slabs as nat,
            len: self.len as nat,
        }
    }
}

/// The capacity that follows `c` in the doubling sequence.
fn next_block_capacity(c: usize) -> (r: usize)
    ensures
        r == (if 2 * c <= usize::MAX {
            2 * c
        } else {
            usize::MAX as int
        }),
{
    if c <= usize::MAX / 2 {
        c * 2
    } else {
        usize::MAX
    }
}

impl<T> Arena<T> {
    pub closed spec fn wf(&self) -> bool {
        &&& self@.wf()
        &&& self.next_capacity == block_capacity(self.slabs@.len())
    }

    /// An empty arena: no blocks, no elements.
    pub fn new() -> (a: Self)
        ensures
            a.wf(),
            a@ == ArenaView::<T>::empty(),
    {
        let a = Arena { slabs: Vec::new(), full_slabs: 0, len: 0, next_capacity: 32 };
        assert(a@.blocks =~= Seq::<Seq<T>>::empty());
        assert(a@.caps =~= Seq::<nat>::empty());
        a
    }

    /// Number of elements inserted so far.
    pub fn len(&self) -> (n: usize)
        ensures
            n == self@.len,
    {
        self.len
    }

    pub fn is_empty(&self) -> (b: bool)
        ensures
            b == (self@.len == 0),
    {
        self.len == 0
    }

    /// Number of blocks made so far.
    pub fn slab_count(&self) -> (n: usize)
        ensures
            n == self@.blocks.len(),
    {
        self.slabs.len()
    }

    /// Capacity of block `i`.
    pub fn slab_capacity(&self, i: usize) -> (c: usize)
        requires
            i < self@.blocks.len(),
        ensures
            c == self@.caps[i as int],
    {
        self.slabs[i].capacity()
    }

    /// Number of elements held in block `i`.
    pub fn slab_len(&self, i: usize) -> (n: usize)
        requires
            i < self@.blocks.len(),
        ensures
            n == self@.blocks[i as int].len(),
    {
        self.slabs[i].len()
    }

    /// The element that `h` refers to.
    pub fn get(&self, h: Handle) -> (r: &T)
        requires
            self@.holds(h),
        ensures
            *r == self@.at(h),
    {
        self.slabs[h.slab].get(h.index)
    }

    /// The elements that `s` refers to, in order.
    pub fn get_slice(&self, s: SliceHandle) -> (r: &[T])
        requires
            self@.holds_slice(s),
        ensures
            r@ == self@.slice_at(s),
    {
        self.slabs[s.slab].get_slice(s.start, s.len)
    }

    /// Makes a new block holding `value` alone, once every block from the
    /// cursor on is full.
    fn insert_new_slab(&mut self, value: T) -> (h: Handle)
        requires
            old(self).wf(),
            old(self)@.len < usize::MAX,
            old(self)@.insert_target() == old(self)@.blocks.len(),
        ensures
            final(self).wf(),
            final(self)@ == old(self)@.after_insert(value),
            h == old(self)@.insert_handle(),
    {
        let n = self.slabs.len();
        proof {
            lemma_block_capacity_bounds(n as nat);
            old(self)@.lemma_insert_wf(value);
        }
        let mut slab = Slab::new(self.next_capacity);
        let pos = slab.push(value);
        self.slabs.push(slab);
        self.full_slabs = n;
        self.next_capacity = next_block_capacity(self.next_capacity);
        self.len = self.len + 1;
        proof {
            let e = old(self)@.after_insert(value);
            assert(self@.blocks =~= e.blocks);
            assert(self@.caps =~= e.caps);
        }
        Handle { slab: n, index: pos }
    }

    /// Puts `value` in the first block, from the known-full cursor on, that
    /// has room, or in a new block when there is none; the cursor moves past
    /// the full blocks it skipped.
    pub fn insert(&mut self, value: T) -> (h: Handle)
        requires
            old(self).wf(),
            old(self)@.len < usize::MAX,
        ensures
            final(self).wf(),
            final(self)@ == old(self)@.after_insert(value),
            h == old(self)@.insert_handle(),
    {
        let n = self.slabs.len();
        proof {
            old(self)@.lemma_targets();
        }
        while self.full_slabs < n
            invariant
                old(self).wf(),
                old(self)@.len < usize::MAX,
                self.wf(),
                self.slabs@ == old(self).slabs@,
                self.len == old(self).len,
                self.next_capacity == old(self).next_capacity,
                old(self).full_slabs <= self.full_slabs <= n,
                n == self.slabs@.len(),
                old(self)@.insert_target() == old(self)@.first_open_from(self.full_slabs as int),
                forall|k: int| 0 <= k < self.full_slabs ==> !#[trigger] old(self)@.is_open(k),
            decreases n - self.full_slabs,
        {
            let i = self.full_slabs;
            if !self.slabs[i].is_full() {
                proof {
                    old(self)@.lemma_insert_wf(value);
                }
                let pos = self.slabs[i].push(value);
                self.len = self.len + 1;
                proof {
                    let e = old(self)@.after_insert(value);
                    assert(self@.blocks =~= e.blocks);
                    assert(self@.caps =~= e.caps);
                }
                return Handle { slab: i, index: pos };
            }
            proof {
                assert(!old(self)@.is_open(i as int));
            }
            self.full_slabs = i + 1;
            proof {
                assert forall|k: int| 0 <= k < self@.cursor implies !#[trigger] self@.is_open(
                    k,
                ) by {
                    assert(!old(self)@.is_open(k));
                }
            }
        }
        let h = self.insert_new_slab(value);
        proof {
            let e = old(self)@.after_insert(value);
            assert(self@.blocks =~= e.blocks);
            assert(self@.caps =~= e.caps);
        }
        h
    }
    /// Makes a new block and fills it: first with the tail of block `j` from
    /// position `p` on, when `previous` is `Some((j, p))`, then with `rest`.
    /// The new block gets the next capacity of the doubling sequence, or
    /// `count` where that is larger, so that everything fits.
    fn insert_all_new_slab(
        &mut self,
        previous: Option<(usize, usize)>,
        rest: Vec<T>,
        count: usize,
    ) -> (s: SliceHandle)
        requires
            old(self).wf(),
            old(self)@.len + rest@.len() <= usize::MAX,
            match previous {
                Some((j, p)) => old(self)@.cursor <= j < old(self)@.blocks.len() && p <= old(
                    self,
                )@.blocks[j as int].len() && rest@.len() > 0 && count == old(
                    self,
                )@.blocks[j as int].len() - p + rest@.len(),
                None => count == rest@.len(),
            },
        ensures
            final(self).wf(),
            final(self)@.caps == old(self)@.caps.push(
                if count <= block_capacity(old(self)@.blocks.len()) {
                    block_capacity(old(self)@.blocks.len())
                } else {
                    count as nat
                },
            ),
            final(self)@.cursor == old(self)@.cursor,
            final(self)@.len == old(self)@.len + rest@.len(),
            match previous {
                Some((j, p)) => final(self)@.blocks == old(self)@.blocks.update(
                    j as int,
                    old(self)@.blocks[j as int].subrange(0, p as int),
                ).push(
                    old(self)@.blocks[j as int].subrange(
                        p as int,
                        old(self)@.blocks[j as int].len() as int,
                    ) + rest@,
                ),
                None => final(self)@.blocks == old(self)@.blocks.push(rest@),
            },
            s == (SliceHandle { slab: old(self)@.blocks.len() as usize, start: 0, len: count }),
    {
        let ghost ov = old(self)@;
        let n = self.slabs.len();
        let rest_len = rest.len();
        proof {
            lemma_block_capacity_bounds(n as nat);
        }
        let cap = if count <= self.next_capacity {
            self.next_capacity
        } else {
            count
        };
        let mut slab = Slab::new(cap);
        let ghost mid = ov.blocks;
        match previous {
            Some((j, p)) => {
                self.slabs[j].split_off_extend(p, &mut slab);
                proof {
                    mid = ov.blocks.update(j as int, ov.blocks[j as int].subrange(0, p as int));
                    lemma_total_len_update(ov.blocks, j as int, mid[j as int]);
                    assert(self@.blocks =~= mid);
                }
            },
            None => {
                proof {
                    assert(self@.blocks =~= mid);
                }
            },
        }
        slab.extend(rest);
        let ghost added = slab@;
        self.slabs.push(slab);
        self.next_capacity = next_block_capacity(self.next_capacity);
        self.len = self.len + rest_len;
        proof {
            lemma_total_len_push(mid, added);
            assert(self@.blocks =~= mid.push(added));
            let sv = self@;
            assert forall|k: int| 0 <= k < sv.cursor implies !#[trigger] sv.is_open(k) by {
                assert(!ov.is_open(k));
                assert(sv.blocks[k] == ov.blocks[k]);
            }
            assert forall|k: int| 0 <= k < sv.blocks.len() implies #[trigger] sv.blocks[k].len()
                <= sv.caps[k] && sv.caps[k] >= block_capacity(k as nat) by {
                if k < n {
                    assert(ov.blocks[k].len() <= ov.caps[k]);
                    assert(sv.caps[k] == ov.caps[k]);
                }
            }
            assert(sv.caps =~= ov.caps.push(cap as nat));
        }
        SliceHandle { slab: n, start: 0, len: count }
    }

    /// Puts all of `values`, in order, in one contiguous run of one block and
    /// returns where. The blocks from the cursor on are searched from the
    /// last down for one with room; the values are written there while it
    /// has room. Should it fill up before they run out, what was written in
    /// this call moves to a new block, where the rest follows, and the block
    /// tried first is left as it was before the call.
    pub fn insert_all(&mut self, values: Vec<T>) -> (s: SliceHandle)
        requires
            old(self).wf(),
            old(self)@.len + values@.len() <= usize::MAX,
        ensures
            final(self).wf(),
            final(self)@ == old(self)@.after_insert_all(values@),
            s == old(self)@.insert_all_handle(values@),
    {
        let ghost ov = old(self)@;
        let count = values.len();
        let cursor = self.full_slabs;
        let mut i = self.slabs.len();
        proof {
            ov.lemma_targets();
            ov.lemma_insert_all_wf(values@);
        }
        while i > cursor
            invariant
                old(self).wf(),
                ov == old(self)@,
                ov.wf(),
                ov.after_insert_all(values@).wf(),
                ov.len + values@.len() <= usize::MAX,
                self.slabs@ == old(self).slabs@,
                self.full_slabs == old(self).full_slabs,
                self.len == old(self).len,
                self.next_capacity == old(self).next_capacity,
                cursor == old(self).full_slabs,
                count == values@.len(),
                cursor <= i <= self.slabs@.len(),
                ov.bulk_target() == ov.last_open(cursor as int, i as int),
            decreases i,
        {
            let j = i - 1;
            if !self.slabs[j].is_full() {
                proof {
                    assert(ov.is_open(j as int));
                    assert(ov.bulk_target() == j);
                }
                let prefix = self.slabs[j].len();
                let room = self.slabs[j].capacity() - prefix;
                if count <= room {
                    self.slabs[j].extend(values);
                    self.len = self.len + count;
                    proof {
                        let e = ov.after_insert_all(values@);
                        assert(self@.blocks =~= e.blocks);
                        assert(self@.caps =~= e.caps);
                    }
                    return SliceHandle { slab: j, start: prefix, len: count };
                }
                let ghost all = values@;
                let mut values = values;
                let rest = values.split_off(room);
                let ghost head = values@;
                self.slabs[j].extend(values);
                self.len = self.len + room;
                proof {
                    let b = ov.blocks.update(j as int, ov.blocks[j as int] + head);
                    lemma_total_len_update(ov.blocks, j as int, ov.blocks[j as int] + head);
                    assert(self@.blocks =~= b);
                    assert(self@.caps =~= ov.caps);
                    assert(!ov.bulk_fits(all));
                    let sv = self@;
                    assert forall|k: int| 0 <= k < sv.cursor implies !#[trigger] sv.is_open(k) by {
                        assert(!ov.is_open(k));
                        assert(sv.blocks[k] == ov.blocks[k]);
                    }
                    assert forall|k: int|
                        0 <= k < sv.blocks.len() implies #[trigger] sv.blocks[k].len()
                        <= sv.caps[k] && sv.caps[k] >= block_capacity(k as nat) by {
                        assert(ov.blocks[k].len() <= ov.caps[k]);
                    }
                    assert(sv.blocks[j as int].subrange(0, prefix as int) =~= ov.blocks[j as int]);
                    assert(sv.blocks[j as int].subrange(prefix as int, sv.blocks[j as int].len() as int)
                        + rest@ =~= all);
                }
                let s = self.insert_all_new_slab(Some((j, prefix)), rest, count);
                proof {
                    let e = ov.after_insert_all(all);
                    assert(ov.blocks.update(j as int, ov.blocks[j as int]) =~= ov.blocks);
                    assert(self@.blocks =~= e.blocks);
                    assert(self@.caps =~= e.caps);
                }
                return s;
            }
            proof {
                assert(!ov.is_open(j as int));
            }
            i = j;
        }
        let s = self.insert_all_new_slab(None, values, count);
        proof {
            let e = ov.after_insert_all(values@);
            assert(self@.blocks =~= e.blocks);
        }
        s
    }
}

} // verus!
