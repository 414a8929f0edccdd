//! Building the boot-time identity mapping in the translation tables.
//!
//! Physical memory is a slice of 64-bit words that starts at address
//! `base`: the word at address `a` is `mem[(a - base) / 8]`.
use vstd::prelude::*;
use crate::mmu::{shift_of, entry_size_of, level_mask, block_bits, table_bits, known_kind, addr_of};
use crate::mm::table::{
    Descriptor, MemoryAttributes, AccessPermissions, Execution, level_shift, level_entry_size,
    lemma_block_matches_raw,
};

verus! {

/// Address `a` names a whole word of the memory.
pub open spec fn in_mem(len: nat, base: int, a: int) -> bool {
    &&& base <= a
    &&& (a - base) % 8 == 0
    &&& (a - base) / 8 < len
}

/// Index of the word at address `a`.
pub open spec fn word_index(base: int, a: int) -> int {
    (a - base) / 8
}

/// The outcome of mapping one block: the inputs on which the mapper
/// panics or reads or writes outside memory, or the memory afterwards and
/// the number of bytes mapped.
pub enum BlockSpec {
    Panics,
    Mapped(Seq<u64>, int),
}

/// Mapping the block that starts at `begin` from the table at `table`, at
/// `level`, where the entries above began at `entry_begin`.
///
/// The entry for `begin` at this level becomes a block when the region it
/// covers ends no later than `end` (never at level 0). Otherwise the walk
/// descends: an empty entry gets a new table placed right after the
/// current one, a filled entry is followed to the address it holds.
pub open spec fn walk(
    mem: Seq<u64>,
    base: int,
    table: int,
    begin: u64,
    end: u64,
    level: u8,
    entry_begin: int,
) -> BlockSpec
    decreases 4 - level,
{
    if level > 3 {
        BlockSpec::Panics
    } else {
        let index = (begin >> shift_of(level)) & 0x1ff;
        let entry = table + index * 8;
        let eb = entry_begin + index * entry_size_of(level);
        let ee = eb + entry_size_of(level);
        if !in_mem(mem.len(), base, entry) {
            BlockSpec::Panics
        } else if ee <= end && level > 0 {
            if ee < begin {
                BlockSpec::Panics
            } else {
                BlockSpec::Mapped(mem.update(word_index(base, entry), block_bits(begin, level)), ee - begin)
            }
        } else {
            let e = mem[word_index(base, entry)];
            if e == 0 {
                if table + 4096 > u64::MAX {
                    BlockSpec::Panics
                } else {
                    walk(
                        mem.update(word_index(base, entry), table_bits((table + 4096) as u64)),
                        base,
                        table + 4096,
                        begin,
                        end,
                        (level + 1) as u8,
                        eb,
                    )
                }
            } else if !known_kind(e) {
                BlockSpec::Panics
            } else {
                walk(mem, base, addr_of(e, level) as int, begin, end, (level + 1) as u8, eb)
            }
        }
    }
}

/// Mapping `[begin, end)` block by block; `None` where the mapper panics,
/// touches memory outside `mem`, or never finishes.
pub open spec fn region(mem: Seq<u64>, base: int, table: int, begin: u64, end: u64) -> Option<Seq<u64>>
    decreases end - begin,
{
    if begin >= end {
        Some(mem)
    } else {
        match walk(mem, base, table, begin, end, 0, 0) {
            BlockSpec::Panics => None,
            BlockSpec::Mapped(m, c) => if c <= 0 || begin + c > end {
                None
            } else {
                region(m, base, table, (begin + c) as u64, end)
            },
        }
    }
}

/// Walking keeps the length of memory.
proof fn lemma_walk_len(
    mem: Seq<u64>,
    base: int,
    table: int,
    begin: u64,
    end: u64,
    level: u8,
    entry_begin: int,
)
    ensures
        walk(mem, base, table, begin, end, level, entry_begin) matches BlockSpec::Mapped(m, _) ==> m.len() == mem.len(),
    decreases 4 - level,
{
    if level <= 3 {
        let index = (begin >> shift_of(level)) & 0x1ff;
        let entry = table + index * 8;
        let eb = entry_begin + index * entry_size_of(level);
        if in_mem(mem.len(), base, entry) {
            let e = mem[word_index(base, entry)];
            lemma_walk_len(
                mem.update(word_index(base, entry), table_bits((table + 4096) as u64)),
                base,
                table + 4096,
                begin,
                end,
                (level + 1) as u8,
                eb,
            );
            lemma_walk_len(mem, base, addr_of(e, level) as int, begin, end, (level + 1) as u8, eb);
        }
    }
}

/// Follows or creates the next-level table for the entry at `desc` of the
/// table at `table`: an empty entry gets a new table right after `table`,
/// which it then points to.
fn get_or_create_table(mem: &mut [u64], base: u64, table: u64, desc: u64, level: u8) -> (r: u64)
    requires
        in_mem(old(mem)@.len(), base as int, desc as int),
        level <= 3,
        old(mem)@[word_index(base as int, desc as int)] == 0 ==> table + 4096 <= u64::MAX,
        old(mem)@[word_index(base as int, desc as int)] != 0 ==> known_kind(
            old(mem)@[word_index(base as int, desc as int)],
        ),
    ensures
        ({
            let e = old(mem)@[word_index(base as int, desc as int)];
            &&& e == 0 ==> r == table + 4096 && final(mem)@ == old(mem)@.update(
                word_index(base as int, desc as int),
                table_bits(r),
            )
            &&& e != 0 ==> r == addr_of(e, level) && final(mem)@ == old(mem)@
        }),
{
    let i = ((desc - base) / 8) as usize;
    let entry = Descriptor(mem[i]);
    if entry.bits() == 0 {
        let next_table = table + 4096;
        mem[i] = Descriptor::table(next_table).into();
        return next_table;
    }
    entry.addr(level)
}

/// Maps the largest block that starts at `begin`, fits before `end` and
/// is aligned to its size, creating tables on the way; returns its size
/// less the part before `begin`.
pub fn map_block(mem: &mut [u64], base: u64, table: u64, begin: u64, end: u64) -> (r: usize)
    requires
        usize::BITS == 64,
        base + 8 * old(mem)@.len() <= u64::MAX + 1,
        walk(old(mem)@, base as int, table as int, begin, end, 0, 0) is Mapped,
    ensures
        walk(old(mem)@, base as int, table as int, begin, end, 0, 0) == BlockSpec::Mapped(
            final(mem)@,
            r as int,
        ),
        final(mem)@.len() == old(mem)@.len(),
{
    proof {
        lemma_walk_len(mem@, base as int, table as int, begin, end, 0, 0);
    }
    let ghost target = walk(mem@, base as int, table as int, begin, end, 0, 0);
    let mut current = table;
    let mut entry_begin: u64 = 0;
    let mut level: u8 = 0;
    while level <= 3
        invariant
            usize::BITS == 64,
            base + 8 * mem@.len() <= u64::MAX + 1,
            target is Mapped,
            target == walk(old(mem)@, base as int, table as int, begin, end, 0, 0),
            mem@.len() == old(mem)@.len(),
            level <= 4,
            level <= 3 ==> entry_begin + 512 * entry_size_of(level) <= 0x1_0000_0000_0000,
            walk(mem@, base as int, current as int, begin, end, level, entry_begin as int) == target,
        decreases 4 - level,
    {
        let shift = level_shift(level);
        let entry_size = level_entry_size(level);
        let index = begin >> shift & 0x1ff;
        assert(index <= 0x1ff) by (bit_vector)
            requires index == begin >> shift & 0x1ff;
        proof {
            assert(index * entry_size <= 511 * entry_size) by (nonlinear_arith)
                requires index <= 511;
        }
        let entry = current + index * 8;
        entry_begin = entry_begin + index * entry_size as u64;
        let entry_end = entry_begin + entry_size as u64;
        if entry_end <= end && level > 0 {
            proof {
                lemma_block_matches_raw(begin, level);
            }
            let i = ((entry - base) / 8) as usize;
            let attrs = MemoryAttributes {
                permissions: AccessPermissions::ReadWrite,
                execution: Execution::Executable,
            };
            let w: u64 = Descriptor::block(begin, level, &attrs).into();
            mem[i] = w;
            return (entry_end - begin) as usize;
        }
        current = get_or_create_table(mem, base, current, entry, level);
        level = level + 1;
    }
    0
}

/// Maps one block as [`map_block`] does, where that stays inside memory and
/// does not panic; `None`, having changed nothing that matters, where it
/// would not.
fn try_map_block(mem: &mut Vec<u64>, base: u64, table: u64, begin: u64, end: u64) -> (r: Option<usize>)
    requires
        usize::BITS == 64,
        base + 8 * old(mem)@.len() <= u64::MAX + 1,
    ensures
        final(mem)@.len() == old(mem)@.len(),
        match walk(old(mem)@, base as int, table as int, begin, end, 0, 0) {
            BlockSpec::Panics => r is None,
            BlockSpec::Mapped(m, c) => r == Some(c as usize) && final(mem)@ == m && 0 <= c <= usize::MAX,
        },
{
    let ghost target = walk(mem@, base as int, table as int, begin, end, 0, 0);
    proof {
        lemma_walk_len(mem@, base as int, table as int, begin, end, 0, 0);
        lemma_walk_consumed(mem@, base as int, table as int, begin, end, 0, 0);
    }
    let mut current = table;
    let mut entry_begin: u64 = 0;
    let mut level: u8 = 0;
    while level <= 3
        invariant
            usize::BITS == 64,
            base + 8 * mem@.len() <= u64::MAX + 1,
            target == walk(old(mem)@, base as int, table as int, begin, end, 0, 0),
            mem@.len() == old(mem)@.len(),
            level <= 4,
            level <= 3 ==> entry_begin + 512 * entry_size_of(level) <= 0x1_0000_0000_0000,
            walk(mem@, base as int, current as int, begin, end, level, entry_begin as int) == target,
            target matches BlockSpec::Mapped(_, c) ==> 0 <= c && begin + c <= end,
        decreases 4 - level,
    {
        let shift = level_shift(level);
        let entry_size = level_entry_size(level);
        let index = begin >> shift & 0x1ff;
        assert(index <= 0x1ff) by (bit_vector)
            requires index == begin >> shift & 0x1ff;
        proof {
            assert(index * entry_size <= 511 * entry_size) by (nonlinear_arith)
                requires index <= 511;
        }
        if current > u64::MAX - index * 8 {
            return None;
        }
        let entry = current + index * 8;
        if entry < base || (entry - base) % 8 != 0 || (entry - base) / 8 >= mem.len() as u64 {
            return None;
        }
        let i = ((entry - base) / 8) as usize;
        entry_begin = entry_begin + index * entry_size as u64;
        let entry_end = entry_begin + entry_size as u64;
        if entry_end <= end && level > 0 {
            if entry_end < begin {
                return None;
            }
            proof {
                lemma_block_matches_raw(begin, level);
            }
            let attrs = MemoryAttributes {
                permissions: AccessPermissions::ReadWrite,
                execution: Execution::Executable,
            };
            let w: u64 = Descriptor::block(begin, level, &attrs).into();
            mem.set(i, w);
            return Some((entry_end - begin) as usize);
        }
        let e = mem[i];
        if e == 0 {
            if current > u64::MAX - 4096 {
                return None;
            }
            let next_table = current + 4096;
            mem.set(i, Descriptor::table(next_table).into());
            current = next_table;
        } else {
            if e & 3 == 2 {
                return None;
            }
            current = Descriptor(e).addr(level);
        }
        level = level + 1;
    }
    None
}

/// Whether [`map_region`] can map `[begin, end)` within `mem`: no panic,
/// no access outside memory, and an end.
pub fn region_mappable(mem: &[u64], base: u64, table: u64, begin: u64, end: u64) -> (r: bool)
    requires
        usize::BITS == 64,
        base + 8 * mem@.len() <= u64::MAX + 1,
    ensures
        r == region(mem@, base as int, table as int, begin, end) is Some,
{
    let mut copy = vstd::slice::slice_to_vec(mem);
    let ghost target = region(mem@, base as int, table as int, begin, end);
    let mut cur = begin;
    while cur < end
        invariant
            usize::BITS == 64,
            base + 8 * copy@.len() <= u64::MAX + 1,
            region(copy@, base as int, table as int, cur, end) == target,
            target == region(mem@, base as int, table as int, begin, end),
        decreases end - cur,
    {
        match try_map_block(&mut copy, base, table, cur, end) {
            None => return false,
            Some(consumed) => {
                if consumed == 0 || consumed as u64 > end - cur {
                    return false;
                }
                cur = cur + consumed as u64;
            },
        }
    }
    true
}

/// Maps `[begin, end)` with blocks as large as alignment and the end allow.
pub fn map_region(mem: &mut [u64], base: u64, table: u64, begin: u64, end: u64)
    requires
        usize::BITS == 64,
        base + 8 * old(mem)@.len() <= u64::MAX + 1,
        region(old(mem)@, base as int, table as int, begin, end) is Some,
    ensures
        region(old(mem)@, base as int, table as int, begin, end) == Some(final(mem)@),
{
    let ghost target = region(mem@, base as int, table as int, begin, end);
    let mut begin = begin;
    while begin < end
        invariant
            usize::BITS == 64,
            base + 8 * mem@.len() <= u64::MAX + 1,
            region(mem@, base as int, table as int, begin, end) == target,
            target is Some,
        decreases end - begin,
    {
        let consumed = map_block(mem, base, table, begin, end);
        begin = begin + consumed as u64;
    }
    assert(region(mem@, base as int, table as int, begin, end) == Some(mem@));
}

/// Output address bits `[47:shift]` of an entry at `level`.
pub open spec fn out_mask(level: u8) -> u64 {
    level_mask(level) & 0xffff_ffff_ffff
}

/// Where the tables from the table at `table` translate the virtual
/// address `va`, looked up from `level` with the 4 KiB granule: a block
/// (levels 1 and 2) or a page (level 3) gives its output address plus the
/// offset of `va` inside it; a table entry leads to the next level.
pub open spec fn translate(mem: Seq<u64>, base: int, table: int, va: u64, level: u8) -> Option<int>
    decreases 4 - level,
{
    if level > 3 {
        None
    } else {
        let index = (va >> shift_of(level)) & 0x1ff;
        let entry = table + index * 8;
        if !in_mem(mem.len(), base, entry) {
            None
        } else {
            let e = mem[word_index(base, entry)];
            if level == 3 {
                if e & 3 == 3 {
                    Some((e & out_mask(3)) + va % 4096)
                } else {
                    None
                }
            } else if e & 3 == 1 && level > 0 {
                Some((e & out_mask(level)) + (va as int) % (entry_size_of(level) as int))
            } else if e & 3 == 3 {
                translate(mem, base, (e & out_mask(3)) as int, va, (level + 1) as u8)
            } else {
                None
            }
        }
    }
}

/// The entries that mapping a block reads or writes.
pub open spec fn walk_entries(
    mem: Seq<u64>,
    base: int,
    table: int,
    begin: u64,
    end: u64,
    level: u8,
    entry_begin: int,
) -> Set<int>
    decreases 4 - level,
{
    if level > 3 {
        Set::empty()
    } else {
        let index = (begin >> shift_of(level)) & 0x1ff;
        let entry = table + index * 8;
        let eb = entry_begin + index * entry_size_of(level);
        let ee = eb + entry_size_of(level);
        if !in_mem(mem.len(), base, entry) {
            Set::empty()
        } else if ee <= end && level > 0 {
            set![entry]
        } else {
            let e = mem[word_index(base, entry)];
            if e == 0 {
                set![entry].union(
                    walk_entries(
                        mem.update(word_index(base, entry), table_bits((table + 4096) as u64)),
                        base,
                        table + 4096,
                        begin,
                        end,
                        (level + 1) as u8,
                        eb,
                    ),
                )
            } else {
                set![entry].union(
                    walk_entries(mem, base, addr_of(e, level) as int, begin, end, (level + 1) as u8, eb),
                )
            }
        }
    }
}

/// The walk that maps a block is plain: every table on it is aligned to
/// 4 KiB with room for a table after it below 2^48, each entry it passes
/// through is empty or a table entry below 2^48, and it meets no entry
/// twice.
pub open spec fn walk_clean(
    mem: Seq<u64>,
    base: int,
    table: int,
    begin: u64,
    end: u64,
    level: u8,
    entry_begin: int,
) -> bool
    decreases 4 - level,
{
    if level > 3 {
        false
    } else {
        let index = (begin >> shift_of(level)) & 0x1ff;
        let entry = table + index * 8;
        let eb = entry_begin + index * entry_size_of(level);
        let ee = eb + entry_size_of(level);
        &&& 0 <= table
        &&& table % 4096 == 0
        &&& table + 4096 < 0x1_0000_0000_0000
        &&& if ee <= end && level > 0 {
            true
        } else {
            let e = mem[word_index(base, entry)];
            if e == 0 {
                let mem2 = mem.update(word_index(base, entry), table_bits((table + 4096) as u64));
                &&& !walk_entries(mem2, base, table + 4096, begin, end, (level + 1) as u8, eb).contains(entry)
                &&& walk_clean(mem2, base, table + 4096, begin, end, (level + 1) as u8, eb)
            } else {
                &&& e & 3 == 3
                &&& e < 0x1_0000_0000_0000
                &&& !walk_entries(mem, base, addr_of(e, level) as int, begin, end, (level + 1) as u8, eb).contains(entry)
                &&& walk_clean(mem, base, addr_of(e, level) as int, begin, end, (level + 1) as u8, eb)
            }
        }
    }
}

/// Mapping a block changes no word outside the entries it walks.
proof fn lemma_walk_frame(
    mem: Seq<u64>,
    base: int,
    table: int,
    begin: u64,
    end: u64,
    level: u8,
    entry_begin: int,
    a: int,
)
    requires
        walk(mem, base, table, begin, end, level, entry_begin) is Mapped,
        in_mem(mem.len(), base, a),
        !walk_entries(mem, base, table, begin, end, level, entry_begin).contains(a),
    ensures
        walk(mem, base, table, begin, end, level, entry_begin) matches BlockSpec::Mapped(m, _) ==> m.len() == mem.len() && m[word_index(base, a)] == mem[word_index(base, a)],
    decreases 4 - level,
{
    lemma_walk_len(mem, base, table, begin, end, level, entry_begin);
    let index = (begin >> shift_of(level)) & 0x1ff;
    let entry = table + index * 8;
    let eb = entry_begin + index * entry_size_of(level);
    let ee = eb + entry_size_of(level);
    if !(ee <= end && level > 0) {
        let e = mem[word_index(base, entry)];
        if e == 0 {
            let mem2 = mem.update(word_index(base, entry), table_bits((table + 4096) as u64));
            lemma_walk_frame(mem2, base, table + 4096, begin, end, (level + 1) as u8, eb, a);
        } else {
            lemma_walk_frame(mem, base, addr_of(e, level) as int, begin, end, (level + 1) as u8, eb, a);
        }
    }
}

/// The level at which mapping a block writes the block entry; 4 where the
/// mapper panics first.
pub open spec fn walk_level(
    mem: Seq<u64>,
    base: int,
    table: int,
    begin: u64,
    end: u64,
    level: u8,
    entry_begin: int,
) -> u8
    decreases 4 - level,
{
    if level > 3 {
        4
    } else {
        let index = (begin >> shift_of(level)) & 0x1ff;
        let entry = table + index * 8;
        let eb = entry_begin + index * entry_size_of(level);
        let ee = eb + entry_size_of(level);
        if !in_mem(mem.len(), base, entry) {
            4
        } else if ee <= end && level > 0 {
            level
        } else {
            let e = mem[word_index(base, entry)];
            if e == 0 {
                walk_level(
                    mem.update(word_index(base, entry), table_bits((table + 4096) as u64)),
                    base,
                    table + 4096,
                    begin,
                    end,
                    (level + 1) as u8,
                    eb,
                )
            } else {
                walk_level(mem, base, addr_of(e, level) as int, begin, end, (level + 1) as u8, eb)
            }
        }
    }
}

/// `va` is a 48-bit address in the same block at `level` as `begin`.
pub open spec fn same_block(va: u64, begin: u64, level: u8) -> bool {
    &&& va < 0x1_0000_0000_0000
    &&& va & level_mask(level) == begin & level_mask(level)
}

/// Addresses in the same block at `level` have the same table index at
/// every level down to `level`.
proof fn lemma_same_block_index(va: u64, begin: u64, level: u8, l: u8)
    requires
        level <= 3,
        l <= level,
        same_block(va, begin, level),
    ensures
        (va >> shift_of(l)) & 0x1ff == (begin >> shift_of(l)) & 0x1ff,
{
    let sl = shift_of(l);
    let s = shift_of(level);
    assert(s <= sl <= 39);
    assert((va >> sl) & 0x1ff == (begin >> sl) & 0x1ff) by (bit_vector)
        requires
            va & (u64::MAX << s) == begin & (u64::MAX << s),
            s <= sl,
            sl <= 39;
}

/// A block entry written for `begin` at `level` translates each address
/// of the block to itself.
proof fn lemma_block_translates(begin: u64, va: u64, level: u8)
    requires
        1 <= level <= 3,
        same_block(va, begin, level),
    ensures
        level == 3 ==> block_bits(begin, level) & 3 == 3 && (block_bits(begin, level) & out_mask(3)) + va % 4096 == va,
        level < 3 ==> block_bits(begin, level) & 3 == 1 && (block_bits(begin, level) & out_mask(level)) + (va as int) % (entry_size_of(level) as int) == va,
{
    let b = begin;
    let v = va;
    assert(forall|a: u64, x: u64, y: u64| (a | x) | y == a | (x | y)) by (bit_vector);
    assert(1u64 << 10u64 == 0x400) by (bit_vector);
    if level == 3 {
        assert(((b & (u64::MAX << 12u8)) | (0x400u64 | 3)) & 3 == 3 && (((b & (u64::MAX << 12u8)) | (
        0x400u64 | 3)) & ((u64::MAX << 12u8) & 0xffff_ffff_ffff)) + v % 4096 == v) by (bit_vector)
            requires v < 0x1_0000_0000_0000, v & (u64::MAX << 12u8) == b & (u64::MAX << 12u8);
    } else if level == 2 {
        assert(((b & (u64::MAX << 21u8)) | (0x400u64 | 1)) & 3 == 1 && (((b & (u64::MAX << 21u8)) | (
        0x400u64 | 1)) & ((u64::MAX << 21u8) & 0xffff_ffff_ffff)) + v % 0x20_0000 == v) by (bit_vector)
            requires v < 0x1_0000_0000_0000, v & (u64::MAX << 21u8) == b & (u64::MAX << 21u8);
    } else {
        assert(((b & (u64::MAX << 30u8)) | (0x400u64 | 1)) & 3 == 1 && (((b & (u64::MAX << 30u8)) | (
        0x400u64 | 1)) & ((u64::MAX << 30u8) & 0xffff_ffff_ffff)) + v % 0x4000_0000 == v) by (bit_vector)
            requires v < 0x1_0000_0000_0000, v & (u64::MAX << 30u8) == b & (u64::MAX << 30u8);
    }
}

/// A table entry on a plain walk leads translation to the table that the
/// walk goes on with.
proof fn lemma_table_entry_leads(table: int, e: u64, level: u8)
    requires
        0 <= table,
        table % 4096 == 0,
        table + 4096 < 0x1_0000_0000_0000,
        level <= 3,
        e == 0 || (e & 3 == 3 && e < 0x1_0000_0000_0000),
    ensures
        e == 0 ==> table_bits((table + 4096) as u64) & 3 == 3 && (table_bits((table + 4096) as u64) & out_mask(3)) == table + 4096,
        e != 0 ==> (e & out_mask(3)) == addr_of(e, level),
{
    let t = (table + 4096) as u64;
    assert(t % 4096 == 0);
    assert((t & (u64::MAX << 12u8) | 3) & 3 == 3) by (bit_vector);
    assert(((t & (u64::MAX << 12u8) | 3) & ((u64::MAX << 12u8) & 0xffff_ffff_ffff)) == t) by (bit_vector)
        requires t % 4096 == 0, t < 0x1_0000_0000_0000;
    if e != 0 {
        assert(e & ((u64::MAX << 12u8) & 0xffff_ffff_ffff) == e & (u64::MAX << 12u8)) by (bit_vector)
            requires e < 0x1_0000_0000_0000;
    }
}

/// Mapping a block makes the tables translate every address of that block
/// to itself: where the walk is plain, each 48-bit address `va` that shares
/// the block of `begin` at the level where the block entry is written
/// translates to `va` afterwards.
pub proof fn lemma_walk_identity(
    mem: Seq<u64>,
    base: int,
    table: int,
    begin: u64,
    end: u64,
    level: u8,
    entry_begin: int,
    va: u64,
)
    requires
        walk(mem, base, table, begin, end, level, entry_begin) is Mapped,
        walk_clean(mem, base, table, begin, end, level, entry_begin),
        same_block(va, begin, walk_level(mem, base, table, begin, end, level, entry_begin)),
    ensures
        walk(mem, base, table, begin, end, level, entry_begin) matches BlockSpec::Mapped(m, _) ==> translate(m, base, table, va, level) == Some(va as int),
    decreases 4 - level,
{
    let index = (begin >> shift_of(level)) & 0x1ff;
    let entry = table + index * 8;
    let eb = entry_begin + index * entry_size_of(level);
    let ee = eb + entry_size_of(level);
    let block_level = walk_level(mem, base, table, begin, end, level, entry_begin);
    lemma_walk_level_bounds(mem, base, table, begin, end, level, entry_begin);
    lemma_same_block_index(va, begin, block_level, level);
    if ee <= end && level > 0 {
        lemma_block_translates(begin, va, level);
    } else {
        let e = mem[word_index(base, entry)];
        lemma_table_entry_leads(table, e, level);
        if e == 0 {
            let mem2 = mem.update(word_index(base, entry), table_bits((table + 4096) as u64));
            lemma_walk_identity(mem2, base, table + 4096, begin, end, (level + 1) as u8, eb, va);
            lemma_walk_frame(mem2, base, table + 4096, begin, end, (level + 1) as u8, eb, entry);
        } else {
            lemma_walk_identity(mem, base, addr_of(e, level) as int, begin, end, (level + 1) as u8, eb, va);
            lemma_walk_frame(mem, base, addr_of(e, level) as int, begin, end, (level + 1) as u8, eb, entry);
        }
    }
}

/// Where mapping a block succeeds, the block is written at or below the
/// level the walk is at, and at most at level 3.
proof fn lemma_walk_level_bounds(
    mem: Seq<u64>,
    base: int,
    table: int,
    begin: u64,
    end: u64,
    level: u8,
    entry_begin: int,
)
    ensures
        walk(mem, base, table, begin, end, level, entry_begin) is Mapped ==> level <= walk_level(mem, base, table, begin, end, level, entry_begin) <= 3,
    decreases 4 - level,
{
    if level <= 3 {
        let index = (begin >> shift_of(level)) & 0x1ff;
        let entry = table + index * 8;
        let eb = entry_begin + index * entry_size_of(level);
        if in_mem(mem.len(), base, entry) {
            let e = mem[word_index(base, entry)];
            lemma_walk_level_bounds(
                mem.update(word_index(base, entry), table_bits((table + 4096) as u64)),
                base,
                table + 4096,
                begin,
                end,
                (level + 1) as u8,
                eb,
            );
            lemma_walk_level_bounds(mem, base, addr_of(e, level) as int, begin, end, (level + 1) as u8, eb);
        }
    }
}

/// A block that the mapper maps lies between `begin` and `end`: the size
/// it returns is at most what is left of the region.
pub proof fn lemma_walk_consumed(
    mem: Seq<u64>,
    base: int,
    table: int,
    begin: u64,
    end: u64,
    level: u8,
    entry_begin: int,
)
    ensures
        walk(mem, base, table, begin, end, level, entry_begin) matches BlockSpec::Mapped(_, c) ==> 0 <= c && begin + c <= end,
    decreases 4 - level,
{
    if level <= 3 {
        let index = (begin >> shift_of(level)) & 0x1ff;
        let entry = table + index * 8;
        let eb = entry_begin + index * entry_size_of(level);
        if in_mem(mem.len(), base, entry) {
            let e = mem[word_index(base, entry)];
            lemma_walk_consumed(
                mem.update(word_index(base, entry), table_bits((table + 4096) as u64)),
                base,
                table + 4096,
                begin,
                end,
                (level + 1) as u8,
                eb,
            );
            lemma_walk_consumed(mem, base, addr_of(e, level) as int, begin, end, (level + 1) as u8, eb);
        }
    }
}

/// The start of the block at `level` that holds `b`, within 48 bits.
pub open spec fn block_start(b: u64, level: u8) -> int {
    (b & level_mask(level) & 0xffff_ffff_ffff) as int
}

/// Where the entries above `level` put the walk for `b`: the start of the
/// block one level up (0 at the top level).
pub open spec fn prefix(b: u64, level: u8) -> int {
    if level == 0 {
        0
    } else {
        block_start(b, (level - 1) as u8)
    }
}

/// Adding this level's entry to the start of the block above gives the
/// start of the block at this level.
proof fn lemma_prefix_step(b: u64, level: u8)
    requires
        level <= 3,
    ensures
        prefix(b, level) + ((b >> shift_of(level)) & 0x1ff) * entry_size_of(level) == block_start(b, level),
{
    if level == 0 {
        assert(((b >> 39u8) & 0x1ff) * 0x80_0000_0000 == b & (u64::MAX << 39u8) & 0xffff_ffff_ffff)
            by (bit_vector);
    } else if level == 1 {
        assert((b & (u64::MAX << 39u8) & 0xffff_ffff_ffff) + ((b >> 30u8) & 0x1ff) * 0x4000_0000
            == b & (u64::MAX << 30u8) & 0xffff_ffff_ffff) by (bit_vector);
    } else if level == 2 {
        assert((b & (u64::MAX << 30u8) & 0xffff_ffff_ffff) + ((b >> 21u8) & 0x1ff) * 0x20_0000
            == b & (u64::MAX << 21u8) & 0xffff_ffff_ffff) by (bit_vector);
    } else {
        assert((b & (u64::MAX << 21u8) & 0xffff_ffff_ffff) + ((b >> 12u8) & 0x1ff) * 0x1000
            == b & (u64::MAX << 12u8) & 0xffff_ffff_ffff) by (bit_vector);
    }
}

/// A 48-bit address at or after `b` and before the end of `b`'s block at
/// `level` lies in that block.
proof fn lemma_in_block(b: u64, va: u64, level: u8)
    requires
        level <= 3,
        b < 0x1_0000_0000_0000,
        b <= va,
        va < block_start(b, level) + entry_size_of(level),
    ensures
        same_block(va, b, level),
        block_start(b, level) <= b,
{
    if level == 0 {
        assert(va & (u64::MAX << 39u8) == b & (u64::MAX << 39u8) && b & (u64::MAX << 39u8) & 0xffff_ffff_ffff <= b
            && va < 0x1_0000_0000_0000) by (bit_vector)
            requires b < 0x1_0000_0000_0000, b <= va, va < (b & (u64::MAX << 39u8) & 0xffff_ffff_ffff) + 0x80_0000_0000;
    } else if level == 1 {
        assert(va & (u64::MAX << 30u8) == b & (u64::MAX << 30u8) && b & (u64::MAX << 30u8) & 0xffff_ffff_ffff <= b
            && va < 0x1_0000_0000_0000) by (bit_vector)
            requires b < 0x1_0000_0000_0000, b <= va, va < (b & (u64::MAX << 30u8) & 0xffff_ffff_ffff) + 0x4000_0000;
    } else if level == 2 {
        assert(va & (u64::MAX << 21u8) == b & (u64::MAX << 21u8) && b & (u64::MAX << 21u8) & 0xffff_ffff_ffff <= b
            && va < 0x1_0000_0000_0000) by (bit_vector)
            requires b < 0x1_0000_0000_0000, b <= va, va < (b & (u64::MAX << 21u8) & 0xffff_ffff_ffff) + 0x20_0000;
    } else {
        assert(va & (u64::MAX << 12u8) == b & (u64::MAX << 12u8) && b & (u64::MAX << 12u8) & 0xffff_ffff_ffff <= b
            && va < 0x1_0000_0000_0000) by (bit_vector)
            requires b < 0x1_0000_0000_0000, b <= va, va < (b & (u64::MAX << 12u8) & 0xffff_ffff_ffff) + 0x1000;
    }
}

/// The address of the entry into which mapping a block writes the block.
pub open spec fn walk_block_entry(
    mem: Seq<u64>,
    base: int,
    table: int,
    begin: u64,
    end: u64,
    level: u8,
    entry_begin: int,
) -> int
    decreases 4 - level,
{
    if level > 3 {
        0
    } else {
        let index = (begin >> shift_of(level)) & 0x1ff;
        let entry = table + index * 8;
        let eb = entry_begin + index * entry_size_of(level);
        let ee = eb + entry_size_of(level);
        if !in_mem(mem.len(), base, entry) {
            0
        } else if ee <= end && level > 0 {
            entry
        } else {
            let e = mem[word_index(base, entry)];
            if e == 0 {
                walk_block_entry(
                    mem.update(word_index(base, entry), table_bits((table + 4096) as u64)),
                    base,
                    table + 4096,
                    begin,
                    end,
                    (level + 1) as u8,
                    eb,
                )
            } else {
                walk_block_entry(mem, base, addr_of(e, level) as int, begin, end, (level + 1) as u8, eb)
            }
        }
    }
}

/// Facts on a block mapped from the top of the walk onwards: it ends where
/// the block at its level that holds `begin` ends, and its entry is one of
/// the entries the walk passes through, inside memory.
proof fn lemma_walk_block(
    mem: Seq<u64>,
    base: int,
    table: int,
    begin: u64,
    end: u64,
    level: u8,
)
    requires
        level <= 3,
        walk(mem, base, table, begin, end, level, prefix(begin, level)) is Mapped,
    ensures
        ({
            let bl = walk_level(mem, base, table, begin, end, level, prefix(begin, level));
            let be = walk_block_entry(mem, base, table, begin, end, level, prefix(begin, level));
            &&& walk(mem, base, table, begin, end, level, prefix(begin, level)) matches BlockSpec::Mapped(_, c)
                && begin + c == block_start(begin, bl) + entry_size_of(bl)
            &&& walk_entries(mem, base, table, begin, end, level, prefix(begin, level)).contains(be)
            &&& in_mem(mem.len(), base, be)
        }),
    decreases 4 - level,
{
    lemma_prefix_step(begin, level);
    let index = (begin >> shift_of(level)) & 0x1ff;
    let entry = table + index * 8;
    let eb = prefix(begin, level) + index * entry_size_of(level);
    let ee = eb + entry_size_of(level);
    if !(ee <= end && level > 0) {
        assert(eb == prefix(begin, (level + 1) as u8));
        let e = mem[word_index(base, entry)];
        if e == 0 {
            let mem2 = mem.update(word_index(base, entry), table_bits((table + 4096) as u64));
            lemma_walk_block(mem2, base, table + 4096, begin, end, (level + 1) as u8);
        } else {
            lemma_walk_block(mem, base, addr_of(e, level) as int, begin, end, (level + 1) as u8);
        }
    }
}

/// On a plain walk whose block goes into an empty entry, mapping a block
/// only writes words that held 0.
proof fn lemma_walk_fills_empty(
    mem: Seq<u64>,
    base: int,
    table: int,
    begin: u64,
    end: u64,
    level: u8,
    a: int,
)
    requires
        level <= 3,
        walk(mem, base, table, begin, end, level, prefix(begin, level)) is Mapped,
        walk_clean(mem, base, table, begin, end, level, prefix(begin, level)),
        mem[word_index(base, walk_block_entry(mem, base, table, begin, end, level, prefix(begin, level)))] == 0,
        in_mem(mem.len(), base, a),
    ensures
        walk(mem, base, table, begin, end, level, prefix(begin, level)) matches BlockSpec::Mapped(m, _)
            ==> (m[word_index(base, a)] != mem[word_index(base, a)] ==> mem[word_index(base, a)] == 0),
    decreases 4 - level,
{
    lemma_prefix_step(begin, level);
    let index = (begin >> shift_of(level)) & 0x1ff;
    let entry = table + index * 8;
    let eb = prefix(begin, level) + index * entry_size_of(level);
    let ee = eb + entry_size_of(level);
    if !(ee <= end && level > 0) {
        assert(eb == prefix(begin, (level + 1) as u8));
        let e = mem[word_index(base, entry)];
        if e == 0 {
            let mem2 = mem.update(word_index(base, entry), table_bits((table + 4096) as u64));
            lemma_walk_block(mem2, base, table + 4096, begin, end, (level + 1) as u8);
            lemma_walk_fills_empty(mem2, base, table + 4096, begin, end, (level + 1) as u8, a);
            if a == entry {
                lemma_walk_frame(mem2, base, table + 4096, begin, end, (level + 1) as u8, eb, entry);
            }
        } else {
            lemma_walk_block(mem, base, addr_of(e, level) as int, begin, end, (level + 1) as u8);
            lemma_walk_fills_empty(mem, base, addr_of(e, level) as int, begin, end, (level + 1) as u8, a);
        }
    }
}

/// `after` differs from `before` only in words that held 0.
pub open spec fn fills_only_empty(before: Seq<u64>, after: Seq<u64>) -> bool {
    &&& after.len() == before.len()
    &&& forall|i: int| 0 <= i < before.len() && #[trigger] after[i] != before[i] ==> before[i] == 0
}

/// Each block of the region is mapped by a plain walk into an empty entry,
/// and the region lies below 2^48.
pub open spec fn region_plain(mem: Seq<u64>, base: int, table: int, begin: u64, end: u64) -> bool
    decreases end - begin,
{
    if begin >= end {
        true
    } else {
        &&& end <= 0x1_0000_0000_0000
        &&& walk_clean(mem, base, table, begin, end, 0, 0)
        &&& mem[word_index(base, walk_block_entry(mem, base, table, begin, end, 0, 0))] == 0
        &&& match walk(mem, base, table, begin, end, 0, 0) {
            BlockSpec::Mapped(m, c) => c > 0 && begin + c <= end && region_plain(
                m,
                base,
                table,
                (begin + c) as u64,
                end,
            ),
            BlockSpec::Panics => false,
        }
    }
}

/// A translation that succeeds reads only words that are not 0, so
/// filling empty words keeps it.
proof fn lemma_translate_frame(mem: Seq<u64>, m: Seq<u64>, base: int, table: int, va: u64, level: u8)
    requires
        fills_only_empty(mem, m),
        translate(mem, base, table, va, level) is Some,
    ensures
        translate(m, base, table, va, level) == translate(mem, base, table, va, level),
    decreases 4 - level,
{
    let index = (va >> shift_of(level)) & 0x1ff;
    let entry = table + index * 8;
    let i = word_index(base, entry);
    assert(mem[i] != 0 ==> m[i] == mem[i]);
    assert(0u64 & 3 == 0) by (bit_vector);
    let e = mem[i];
    if level < 3 && !(e & 3 == 1 && level > 0) && e & 3 == 3 {
        lemma_translate_frame(mem, m, base, (e & out_mask(3)) as int, va, (level + 1) as u8);
    }
}

/// Mapping a block by a plain walk into an empty entry fills only empty
/// words.
proof fn lemma_walk_fills_only_empty(mem: Seq<u64>, base: int, table: int, begin: u64, end: u64)
    requires
        walk(mem, base, table, begin, end, 0, 0) is Mapped,
        walk_clean(mem, base, table, begin, end, 0, 0),
        mem[word_index(base, walk_block_entry(mem, base, table, begin, end, 0, 0))] == 0,
    ensures
        walk(mem, base, table, begin, end, 0, 0) matches BlockSpec::Mapped(m, _) ==> fills_only_empty(mem, m),
{
    lemma_walk_len(mem, base, table, begin, end, 0, 0);
    if let BlockSpec::Mapped(m, _) = walk(mem, base, table, begin, end, 0, 0) {
        assert forall|i: int| 0 <= i < mem.len() && #[trigger] m[i] != mem[i] implies mem[i] == 0 by {
            let a = base + 8 * i;
            assert(word_index(base, a) == i);
            lemma_walk_fills_empty(mem, base, table, begin, end, 0, a);
        }
    }
}

/// Mapping a plain region fills only empty words and finishes.
proof fn lemma_region_fills_only_empty(mem: Seq<u64>, base: int, table: int, begin: u64, end: u64)
    requires
        region_plain(mem, base, table, begin, end),
    ensures
        region(mem, base, table, begin, end) matches Some(m) && fills_only_empty(mem, m),
    decreases end - begin,
{
    if begin < end {
        lemma_walk_fills_only_empty(mem, base, table, begin, end);
        lemma_walk_consumed(mem, base, table, begin, end, 0, 0);
        if let BlockSpec::Mapped(m1, c) = walk(mem, base, table, begin, end, 0, 0) {
            lemma_region_fills_only_empty(m1, base, table, (begin + c) as u64, end);
        }
    } else {
        assert(fills_only_empty(mem, mem));
    }
}

/// Mapping a region makes every address of it translate to itself, where
/// each block of the region is mapped by a plain walk into an empty entry
/// and the region lies below 2^48. (Each block is mapped whole, so more
/// than the region may translate.)
pub proof fn lemma_region_identity(mem: Seq<u64>, base: int, table: int, begin: u64, end: u64, va: u64)
    requires
        region_plain(mem, base, table, begin, end),
        begin <= va < end,
    ensures
        region(mem, base, table, begin, end) is Some,
        region(mem, base, table, begin, end) matches Some(m) ==> translate(m, base, table, va, 0) == Some(va as int),
    decreases end - begin,
{
    lemma_region_fills_only_empty(mem, base, table, begin, end);
    lemma_walk_consumed(mem, base, table, begin, end, 0, 0);
    lemma_walk_block(mem, base, table, begin, end, 0);
    lemma_walk_level_bounds(mem, base, table, begin, end, 0, 0);
    if let BlockSpec::Mapped(m1, c) = walk(mem, base, table, begin, end, 0, 0) {
        let next = (begin + c) as u64;
        if va < next {
            let bl = walk_level(mem, base, table, begin, end, 0, 0);
            lemma_in_block(begin, va, bl);
            lemma_walk_identity(mem, base, table, begin, end, 0, 0, va);
            lemma_region_fills_only_empty(m1, base, table, next, end);
            if let Some(mf) = region(m1, base, table, next, end) {
                lemma_translate_frame(m1, mf, base, table, va, 0);
            }
        } else {
            lemma_region_identity(m1, base, table, next, end, va);
        }
    }
}

} // verus!
