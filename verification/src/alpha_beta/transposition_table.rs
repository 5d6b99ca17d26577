//! A fixed-capacity, hash-indexed, overwrite-only cache of search values:
//! a lossy accelerator, never a source of truth.  A slot holds at most one
//! entry; a colliding store silently evicts.
use vstd::prelude::*;

use crate::game::board::Board;

verus! {

/// One cached fact: searching `key` to depth `depth` gave `value`.
#[derive(Clone, Copy)]
struct Entry {
    key: Board,
    value: i32,
    depth: u32,
}

/// The cache: `slots[hash(board) % capacity]` holds the last entry written
/// there.  `lookups_enabled` switches the read path the searcher uses;
/// writes always happen.  Reading is an optimization only: disabling it
/// never changes which values a search computes, only its speed.
pub struct TranspositionTable {
    slots: Vec<Option<Entry>>,
    lookups_enabled: bool,
}

/// The slot a board hashes to: a fixed mix of the two occupancy words,
/// reduced by the capacity.
pub open spec fn index_spec(b: Board, capacity: nat) -> int {
    ((b.player1 ^ ((b.player2 << 20) | (b.player2 >> 44))) as int) % (capacity as int)
}

impl TranspositionTable {
    /// How many slots the table was created with.
    pub closed spec fn capacity(&self) -> nat {
        self.slots@.len()
    }

    /// Whether the searcher may read cached values back.
    pub closed spec fn lookups(&self) -> bool {
        self.lookups_enabled
    }

    /// The table invariant: at least one slot, every entry in its own
    /// slot, every cached value a legal score.
    pub closed spec fn wf(&self) -> bool {
        &&& self.slots@.len() >= 1
        &&& forall|i: int|
            0 <= i < self.slots@.len() ==> match #[trigger] self.slots@[i] {
                Some(e) => -1_000_000 <= e.value <= 1_000_000 && index_spec(
                    e.key,
                    self.slots@.len() as nat,
                ) == i,
                None => true,
            }
    }

    /// What the table knows about `b`: the cached value and depth, if the
    /// slot `b` hashes to holds exactly `b`.
    pub closed spec fn stored(&self, b: Board) -> Option<(i32, u32)> {
        match self.slots@[index_spec(b, self.capacity())] {
            Some(e) => if e.key == b {
                Some((e.value, e.depth))
            } else {
                None
            },
            None => None,
        }
    }

    /// What a lookup returns: a hit only when the stored key is exactly
    /// `b` and the stored depth is at least `min_depth`.
    pub open spec fn get_spec(&self, b: Board, min_depth: u32) -> Option<i32> {
        match self.stored(b) {
            Some((v, d)) => if d >= min_depth {
                Some(v)
            } else {
                None
            },
            None => None,
        }
    }

    /// Preallocates `size` empty slots, with the read path switched off.
    pub fn new(size: usize) -> (r: TranspositionTable)
        requires
            size >= 1,
        ensures
            r.wf(),
            r.capacity() == size,
            !r.lookups(),
            forall|b: Board| r.stored(b) == None::<(i32, u32)>,
    {
        let mut slots: Vec<Option<Entry>> = Vec::new();
        let mut i: usize = 0;
        while i < size
            invariant
                i <= size,
                slots@.len() == i,
                forall|j: int| 0 <= j < i ==> slots@[j] is None,
            decreases size - i,
        {
            slots.push(None);
            i = i + 1;
        }
        TranspositionTable { slots, lookups_enabled: false }
    }

    /// Switches the read path on or off.  Writes are unaffected.
    pub fn set_lookups(&mut self, enabled: bool)
        requires
            old(self).wf(),
        ensures
            final(self).wf(),
            final(self).capacity() == old(self).capacity(),
            final(self).lookups() == enabled,
            forall|b: Board| final(self).stored(b) == old(self).stored(b),
    {
        self.lookups_enabled = enabled;
    }

    /// Whether the searcher may read cached values back.
    pub fn lookups_on(&self) -> (r: bool)
        ensures
            r == self.lookups(),
    {
        self.lookups_enabled
    }

    /// Stores `(key, value, depth)`, unconditionally overwriting whatever
    /// the slot held: a collision silently evicts the older entry.
    pub fn put(&mut self, key: Board, value: i32, depth: u32)
        requires
            old(self).wf(),
            -1_000_000 <= value <= 1_000_000,
        ensures
            final(self).wf(),
            final(self).capacity() == old(self).capacity(),
            final(self).lookups() == old(self).lookups(),
            final(self).stored(key) == Some((value, depth)),
            forall|b: Board|
                index_spec(b, final(self).capacity()) != index_spec(key, final(self).capacity())
                    ==> final(self).stored(b) == old(self).stored(b),
            forall|b: Board|
                index_spec(b, final(self).capacity()) == index_spec(key, final(self).capacity())
                    && b != key ==> final(self).stored(b) == None::<(i32, u32)>,
    {
        let i = self.index(key);
        self.slots[i] = Some(Entry { key, value, depth });
    }

    /// Looks `key` up: a hit only if the slot holds exactly this board,
    /// stored with depth at least `min_depth`; a miss otherwise.
    pub fn get(&self, key: Board, min_depth: u32) -> (r: Option<i32>)
        requires
            self.wf(),
        ensures
            r == self.get_spec(key, min_depth),
            match r {
                Some(v) => -1_000_000 <= v <= 1_000_000,
                None => true,
            },
    {
        let i = self.index(key);
        match &self.slots[i] {
            Some(e) => {
                if e.key == key && e.depth >= min_depth {
                    Some(e.value)
                } else {
                    None
                }
            },
            None => None,
        }
    }

    /// The slot `key` hashes to.
    fn index(&self, key: Board) -> (r: usize)
        requires
            self.wf(),
        ensures
            r as int == index_spec(key, self.capacity()),
            r < self.capacity(),
    {
        let mixed: u64 = key.player1 ^ ((key.player2 << 20) | (key.player2 >> 44));
        let len: u64 = self.slots.len() as u64;
        (mixed % len) as usize
    }
}

} // verus!
