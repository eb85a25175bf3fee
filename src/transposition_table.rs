use vstd::prelude::*;
use crate::zobrist::ZobristHash;

verus! {

/// The replacement policy of an entry: whether a new entry may take its slot.
pub trait TTOverwriteable: Sized {
    spec fn overwrites(&self, new: &Self) -> bool;

    fn should_overwrite_with(&self, new: &Self) -> (r: bool)
        ensures
            r == self.overwrites(new),
    ;
}

#[derive(Clone, Copy, Debug)]
pub struct TranspositionTableEntry<T> {
    pub key: ZobristHash,
    pub data: T,
}

/// A direct-mapped table from position hashes to data, one entry per slot.
pub struct TranspositionTable<T> {
    data: Vec<Option<TranspositionTableEntry<T>>>,
    pub occupied: usize,
    size: usize,
}

/// The most slots a table holds.
pub const MAX_SLOTS: usize = 0x4000_0000;

/// The number of filled slots.
pub open spec fn count_filled<T>(s: Seq<Option<TranspositionTableEntry<T>>>) -> nat
    decreases s.len(),
{
    if s.len() == 0 {
        0
    } else {
        count_filled(s.drop_last()) + if s.last() is Some {
            1nat
        } else {
            0nat
        }
    }
}

proof fn lemma_count_filled_update<T>(
    s: Seq<Option<TranspositionTableEntry<T>>>,
    i: int,
    v: TranspositionTableEntry<T>,
)
    requires
        0 <= i < s.len(),
    ensures
        count_filled(s.update(i, Some(v))) == count_filled(s) + if s[i] is None {
            1nat
        } else {
            0nat
        },
        count_filled(s) <= s.len(),
    decreases s.len(),
{
    let u = s.update(i, Some(v));
    if i < s.len() - 1 {
        lemma_count_filled_update(s.drop_last(), i, v);
        assert(u.drop_last() =~= s.drop_last().update(i, Some(v)));
    } else {
        assert(u.drop_last() =~= s.drop_last());
        lemma_count_filled_bound(s.drop_last());
    }
}

proof fn lemma_count_filled_bound<T>(s: Seq<Option<TranspositionTableEntry<T>>>)
    ensures
        count_filled(s) <= s.len(),
    decreases s.len(),
{
    if s.len() > 0 {
        lemma_count_filled_bound(s.drop_last());
    }
}

proof fn lemma_count_filled_empty<T>(s: Seq<Option<TranspositionTableEntry<T>>>)
    requires
        forall|i: int| 0 <= i < s.len() ==> s[i] is None,
    ensures
        count_filled(s) == 0,
    decreases s.len(),
{
    if s.len() > 0 {
        lemma_count_filled_empty(s.drop_last());
    }
}

/// The slot of `key` in a table of `len` slots.
pub open spec fn slot_of(key: u64, len: nat) -> int {
    (key % (len as u64)) as int
}

/// The slots after inserting `data` under `key`: an empty slot is filled, a full one is
/// replaced when its entry allows it.
pub open spec fn inserted<T: TTOverwriteable>(
    s: Seq<Option<TranspositionTableEntry<T>>>,
    key: u64,
    data: T,
) -> Seq<Option<TranspositionTableEntry<T>>> {
    if s.len() == 0 {
        s
    } else {
        let i = slot_of(key, s.len());
        match s[i] {
            None => s.update(i, Some(TranspositionTableEntry { key, data })),
            Some(e) => if e.data.overwrites(&data) {
                s.update(i, Some(TranspositionTableEntry { key, data }))
            } else {
                s
            },
        }
    }
}

/// What a lookup of `key` finds: the entry of its slot, if it was stored under `key`.
pub open spec fn lookup<T>(s: Seq<Option<TranspositionTableEntry<T>>>, key: u64) -> Option<T> {
    if s.len() == 0 {
        None
    } else {
        match s[slot_of(key, s.len())] {
            Some(e) => if e.key == key {
                Some(e.data)
            } else {
                None
            },
            None => None,
        }
    }
}

/// An insert that evicts nothing is found by the next lookup of its key; and a second
/// insert under the same key, whose data the first allows to replace it, is what the
/// lookup then finds.
pub proof fn lemma_insert_then_get<T: TTOverwriteable>(
    s: Seq<Option<TranspositionTableEntry<T>>>,
    key: u64,
    v1: T,
    v2: T,
)
    requires
        s.len() > 0,
        s.len() <= u64::MAX,
        s[slot_of(key, s.len())] is None || s[slot_of(key, s.len())].unwrap().data.overwrites(&v1),
    ensures
        lookup(inserted(s, key, v1), key) == Some(v1),
        v1.overwrites(&v2) ==> lookup(inserted(inserted(s, key, v1), key, v2), key) == Some(v2),
{
}

impl<T: Copy + TTOverwriteable> TranspositionTable<T> {
    pub closed spec fn slots(&self) -> Seq<Option<TranspositionTableEntry<T>>> {
        self.data@
    }

    /// The value of the `occupied` field: how many slots are filled.
    pub closed spec fn occupied_count(&self) -> usize {
        self.occupied
    }

    /// The size in megabytes that the table was last given.
    pub closed spec fn size_mb(&self) -> usize {
        self.size
    }

    pub closed spec fn wf(&self) -> bool {
        &&& self.data@.len() <= MAX_SLOTS
        &&& self.occupied == count_filled(self.data@)
    }

    /// A sound table has at most `MAX_SLOTS` slots.
    pub proof fn lemma_slots_bounded(&self)
        requires
            self.wf(),
        ensures
            self.slots().len() <= MAX_SLOTS,
    {
    }

    /// A table with no slots; `resize` gives it room.
    pub fn new() -> (r: Self)
        ensures
            r.wf(),
            r.slots().len() == 0,
            r.size_mb() == 0,
            r.occupied_count() == 0,
    {
        TranspositionTable { data: Vec::new(), occupied: 0, size: 0 }
    }

    /// Gives the table as many slots as fit in `size_mb` megabytes, emptying it, unless it
    /// already has that size.
    pub fn resize(&mut self, size_mb: usize)
        requires
            old(self).wf(),
            size_mb <= 1024,
        ensures
            final(self).wf(),
            final(self).size_mb() == size_mb,
            final(self).slots().len() <= MAX_SLOTS,
            final(self).occupied_count() == count_filled(final(self).slots()),
            old(self).size_mb() != size_mb ==> final(self).slots().len() == if vstd::layout::size_of::<TranspositionTableEntry<T>>() == 0 {
                size_mb * 1024 * 1024
            } else {
                size_mb * 1024 * 1024 / (vstd::layout::size_of::<TranspositionTableEntry<T>>() as int)
            },
            old(self).size_mb() != size_mb ==> forall|i: int|
                0 <= i < final(self).slots().len() ==> final(self).slots()[i] is None,
            old(self).size_mb() == size_mb ==> final(self).slots() == old(self).slots(),
    {
        if self.size == size_mb {
            return;
        }
        let size_of_entry = core::mem::size_of::<TranspositionTableEntry<T>>();
        let total: usize = size_mb * 1024 * 1024;
        let n = if size_of_entry == 0 {
            total
        } else {
            total / size_of_entry
        };
        let mut data: Vec<Option<TranspositionTableEntry<T>>> = Vec::new();
        let mut i: usize = 0;
        while i < n
            invariant
                i <= n,
                n <= MAX_SLOTS,
                data@.len() == i,
                forall|j: int| 0 <= j < i ==> data@[j] is None,
            decreases n - i,
        {
            data.push(None);
            i = i + 1;
        }
        proof {
            lemma_count_filled_empty(data@);
        }
        self.data = data;
        self.size = size_mb;
        self.occupied = 0;
    }

    /// The fill of the table in parts per thousand.
    pub fn occupancy(&self) -> (r: usize)
        requires
            self.wf(),
        ensures
            self.slots().len() == 0 ==> r == 0,
            self.slots().len() > 0 ==> r == count_filled(self.slots()) * 1000 / self.slots().len(),
    {
        if self.data.len() == 0 {
            return 0;
        }
        proof {
            lemma_count_filled_bound(self.data@);
        }
        let len = self.data.len() as u64;
        let num: u64 = self.occupied as u64 * 1000;
        let q = num / len;
        assert(q <= 1000) by (nonlinear_arith)
            requires
                q == num / len,
                num == self.occupied * 1000,
                self.occupied <= len,
                len > 0,
        ;
        q as usize
    }

    /// Stores `data` under `key` in its slot when the slot is empty or its entry allows it.
    pub fn insert(&mut self, key: &ZobristHash, data: T)
        requires
            old(self).wf(),
        ensures
            final(self).wf(),
            final(self).slots() == inserted(old(self).slots(), *key, data),
            final(self).slots().len() == old(self).slots().len(),
            final(self).occupied_count() == count_filled(final(self).slots()),
    {
        let len = self.data.len();
        if len == 0 {
            return;
        }
        let idx = (*key % (len as u64)) as usize;
        let entry = TranspositionTableEntry { key: *key, data };
        proof {
            lemma_count_filled_update(self.data@, idx as int, entry);
        }
        match self.data[idx] {
            None => {
                self.occupied = self.occupied + 1;
                self.data.set(idx, Some(entry));
            },
            Some(existing) => {
                if existing.data.should_overwrite_with(&data) {
                    self.data.set(idx, Some(entry));
                }
            },
        }
    }

    /// The data stored under `key`, if its slot holds it.
    pub fn get(&self, key: &ZobristHash) -> (r: Option<T>)
        ensures
            r == lookup(self.slots(), *key),
    {
        let len = self.data.len();
        if len == 0 {
            return None;
        }
        let idx = (*key % (len as u64)) as usize;
        match self.data[idx] {
            Some(e) => {
                if e.key == *key {
                    Some(e.data)
                } else {
                    None
                }
            },
            None => None,
        }
    }
}

} // verus!
