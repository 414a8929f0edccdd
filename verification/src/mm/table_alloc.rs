//! The pool of translation tables: a bitmap says which tables are taken.
use vstd::prelude::*;

verus! {

/// Number of translation tables in the pool.
pub const TABLE_POOL_SIZE: usize = 64;

/// Number of 64-bit bitmap words that cover the pool.
pub const TABLE_POOL_MAP_WORDS: usize = (TABLE_POOL_SIZE - 1) / 64 + 1;

/// Bit `b` of `w` is set.
pub open spec fn is_set(w: u64, b: u64) -> bool {
    w & (1u64 << b) != 0
}

/// The tables that a bitmap marks as taken.
pub open spec fn taken(map: Seq<u64>) -> Set<int> {
    Set::new(|i: int| 0 <= i < TABLE_POOL_SIZE && is_set(map[i / 64], (i % 64) as u64))
}

proof fn lemma_set_bit(w: u64, b: u64, c: u64)
    requires
        b < 64,
        c < 64,
    ensures
        is_set(w | (1u64 << b), c) == (is_set(w, c) || c == b),
        is_set(w & !(1u64 << b), c) == (is_set(w, c) && c != b),
{
    assert((w | (1u64 << b)) & (1u64 << c) != 0 <==> (w & (1u64 << c) != 0 || c == b))
        by (bit_vector)
        requires b < 64, c < 64;
    assert((w & !(1u64 << b)) & (1u64 << c) != 0 <==> (w & (1u64 << c) != 0 && c != b))
        by (bit_vector)
        requires b < 64, c < 64;
}

/// Setting bit `b` of word `k` takes table `64 * k + b`; clearing it frees
/// that table; nothing else changes.
proof fn lemma_taken_update(map: Seq<u64>, k: int, b: u64)
    requires
        map.len() == TABLE_POOL_MAP_WORDS,
        0 <= k < TABLE_POOL_MAP_WORDS,
        b < 64,
        k * 64 + b < TABLE_POOL_SIZE,
    ensures
        taken(map.update(k, map[k] | (1u64 << b))) == taken(map).insert(k * 64 + b),
        taken(map.update(k, map[k] & !(1u64 << b))) == taken(map).remove(k * 64 + b),
{
    assert forall|i: int| 0 <= i < TABLE_POOL_SIZE implies #[trigger] taken(
        map.update(k, map[k] | (1u64 << b)),
    ).contains(i) == taken(map).insert(k * 64 + b).contains(i) by {
        lemma_set_bit(map[k], b, (i % 64) as u64);
    }
    assert forall|i: int| 0 <= i < TABLE_POOL_SIZE implies #[trigger] taken(
        map.update(k, map[k] & !(1u64 << b)),
    ).contains(i) == taken(map).remove(k * 64 + b).contains(i) by {
        lemma_set_bit(map[k], b, (i % 64) as u64);
    }
    assert(taken(map.update(k, map[k] | (1u64 << b))) =~= taken(map).insert(k * 64 + b));
    assert(taken(map.update(k, map[k] & !(1u64 << b))) =~= taken(map).remove(k * 64 + b));
}

/// The bitmap of the translation table pool.
pub struct TableAllocator {
    map: [u64; TABLE_POOL_MAP_WORDS],
}

impl View for TableAllocator {
    type V = Set<int>;

    /// The indices of the tables that are taken.
    closed spec fn view(&self) -> Set<int> {
        taken(self.map@)
    }
}

impl TableAllocator {
    /// A pool in which every table is free.
    pub fn new() -> (r: Self)
        ensures
            r@ == Set::<int>::empty(),
    {
        let r = Self { map: [0u64; TABLE_POOL_MAP_WORDS] };
        assert(0u64 & (1u64 << 0u64) == 0) by (bit_vector);
        assert forall|b: u64| b < 64 implies !is_set(0, b) by {
            assert(0u64 & (1u64 << b) == 0) by (bit_vector);
        }
        assert(r@ =~= Set::<int>::empty());
        r
    }

    /// Marks the first table taken, keeping it from the allocator; the
    /// rest of the first bitmap word is cleared.
    pub fn init_table_alloc(&mut self)
        ensures
            final(self)@ == Set::<int>::empty().insert(0),
    {
        self.map[0] = 1;
        assert forall|b: u64| b < 64 implies is_set(1, b) == (b == 0) by {
            assert(1u64 & (1u64 << b) != 0 <==> b == 0) by (bit_vector)
                requires b < 64;
        }
        assert(self@ =~= Set::<int>::empty().insert(0));
    }

    /// Takes the free table with the lowest index and returns its index;
    /// fails when every table is taken.
    pub fn alloc_table(&mut self) -> (r: Result<usize, ()>)
        ensures
            match r {
                Ok(k) => {
                    &&& k < TABLE_POOL_SIZE
                    &&& !old(self)@.contains(k as int)
                    &&& forall|j: int| 0 <= j < k ==> old(self)@.contains(j)
                    &&& final(self)@ == old(self)@.insert(k as int)
                },
                Err(()) => {
                    &&& forall|j: int| 0 <= j < TABLE_POOL_SIZE ==> old(self)@.contains(j)
                    &&& final(self)@ == old(self)@
                },
            },
    {
        let mut i: usize = 0;
        while i < TABLE_POOL_MAP_WORDS
            invariant
                i <= TABLE_POOL_MAP_WORDS,
                self@ == old(self)@,
                forall|j: int| 0 <= j < i * 64 && j < TABLE_POOL_SIZE ==> self@.contains(j),
            decreases TABLE_POOL_MAP_WORDS - i,
        {
            let mut bit: usize = 0;
            while bit < 64
                invariant
                    i < TABLE_POOL_MAP_WORDS,
                    bit <= 64,
                    self@ == old(self)@,
                    forall|j: int| 0 <= j < i * 64 + bit && j < TABLE_POOL_SIZE ==> self@.contains(j),
                decreases 64 - bit,
            {
                if self.map[i] & (1u64 << bit) == 0 {
                    proof {
                        lemma_taken_update(self.map@, i as int, bit as u64);
                    }
                    self.map[i] = self.map[i] | (1u64 << bit);
                    return Ok(i * 64 + bit);
                }
                bit = bit + 1;
            }
            i = i + 1;
        }
        Err(())
    }

    /// Gives table `index` back to the pool.
    pub fn free_table(&mut self, index: usize)
        requires
            index < TABLE_POOL_SIZE,
        ensures
            final(self)@ == old(self)@.remove(index as int),
    {
        let map = index / 64;
        let bit = index % 64;
        proof {
            lemma_taken_update(self.map@, map as int, bit as u64);
        }
        self.map[map] = self.map[map] & !(1u64 << bit);
    }
}

/// Two allocations in a row hand out different tables, and freeing a table
/// that an allocation took gives back the pool as it was before.
pub proof fn lemma_alloc_then_free(before: Set<int>, k1: int, k2: int)
    requires
        !before.contains(k1),
        !before.insert(k1).contains(k2),
    ensures
        k1 != k2,
        before.insert(k1).remove(k1) == before,
        before.insert(k1).insert(k2).remove(k2) == before.insert(k1),
{
    assert(before.insert(k1).remove(k1) =~= before);
    assert(before.insert(k1).insert(k2).remove(k2) =~= before.insert(k1));
}

/// Once the pool is initialised, the first table stays reserved: the first
/// allocation, taking the lowest free table, takes table 1.
pub proof fn lemma_first_alloc_after_init(k: int)
    requires
        0 <= k,
        !Set::<int>::empty().insert(0).contains(k),
        forall|j: int| 0 <= j < k ==> Set::<int>::empty().insert(0).contains(j),
    ensures
        k == 1,
{
    if k > 1 {
        assert(Set::<int>::empty().insert(0).contains(1));
    }
}

} // verus!
