//! Four-level x86_64 paging: the decisions taken at each level of a page
//! table walk, and the walks themselves over the page tables held as
//! values: mapping, translating and unmapping an address.

use vstd::prelude::*;
use std::collections::HashMap;
use crate::frame::{FrameAllocator, PAGE_SIZE, allocated};

verus! {

pub const PRESENT: u64 = 1;
pub const WRITABLE: u64 = 2;
pub const USER: u64 = 4;
pub const NO_EXECUTE: u64 = 0x8000_0000_0000_0000;
/// Page-size bit of a directory entry: the entry maps a huge page.
pub const HUGE_PAGE: u64 = 0x80;
/// The physical address bits of an entry.
pub const ADDRESS_MASK: u64 = 0x000F_FFFF_FFFF_F000;
/// Entries per table.
pub const ENTRIES: usize = 512;

/// Index into the table of `level` (0: PML4, 1: PDPT, 2: PD, 3: PT) for
/// virtual address `virt`: 9 bits each, from bit 39 down to bit 12.
pub open spec fn index_at(virt: u64, level: int) -> int {
    ((virt >> ((39 - 9 * level) as u64)) & 0x1FF) as int
}

/// The entry is present.
pub open spec fn is_present(entry: u64) -> bool {
    entry & PRESENT != 0
}

/// Facts about entry and address bits: a table index is below 512, a zero
/// entry is absent, the offsets within a page fit in 30 bits, and an
/// entry's address plus such an offset fits in 64 bits.
proof fn lemma_bits(e: u64, virt: u64)
    by (bit_vector)
    ensures
        forall|v: u64, s: u64| 0 <= #[trigger] ((v >> s) & 0x1FF) < 512,
        0u64 & 1u64 == 0,
        virt & 0xFFF <= 0x3FFF_FFFF,
        virt & 0x3FFF_FFFF <= 0x3FFF_FFFF,
        virt & 0x1F_FFFF <= 0x3FFF_FFFF,
        (e & 0x000F_FFFF_FFFF_F000u64) + 0x3FFF_FFFF <= u64::MAX,
{
}

/// The four table indices of `virt`, from the PML4 down to the page table.
pub fn indices(virt: u64) -> (r: [usize; 4])
    ensures
        forall|l: int| 0 <= l < 4 ==> #[trigger] r@[l] == index_at(virt, l),
        forall|l: int| 0 <= l < 4 ==> r@[l] < ENTRIES,
{
    let a = ((virt >> 39u64) & 0x1FF) as usize;
    let b = ((virt >> 30u64) & 0x1FF) as usize;
    let c = ((virt >> 21u64) & 0x1FF) as usize;
    let d = ((virt >> 12u64) & 0x1FF) as usize;
    proof {
        lemma_bits(0, virt);
    }
    let r = [a, b, c, d];
    assert(r@[0] == index_at(virt, 0));
    assert(r@[1] == index_at(virt, 1));
    assert(r@[2] == index_at(virt, 2));
    assert(r@[3] == index_at(virt, 3));
    r
}

/// What mapping a page does at one level of the walk.
#[derive(Debug, Clone, Copy, PartialEq, Eq, Structural)]
pub enum MapStep {
    /// The entry is present: continue in the table at this address.
    Descend(u64),
    /// The entry was absent: zero the new table at `table`, write `entry`
    /// at the current index, and continue in the new table.
    NewTable { table: u64, entry: u64 },
    /// The page table entry to write: the mapping is complete.
    Leaf(u64),
    /// No frame was left for a new table.
    OutOfFrames,
}

/// One step of mapping `phys` with `flags` at `level`, where the entry on
/// the walk's path reads `entry`. Directory levels follow present entries
/// and otherwise take the lowest free frame for a new table, linked as
/// present, writable and user-accessible (so that user mappings below it
/// are reachable); at the page table level the entry becomes `phys` with
/// the flags and the present bit.
pub fn map_step(frames: &mut FrameAllocator, level: usize, entry: u64, phys: u64, flags: u64) -> (r: MapStep)
    requires
        old(frames).wf(),
        level < 4,
    ensures
        final(frames).wf(),
        level == 3 ==> r == MapStep::Leaf(phys | flags | PRESENT) && *final(frames) == *old(frames),
        level < 3 && is_present(entry) ==> r == MapStep::Descend(entry & ADDRESS_MASK) && *final(frames)
            == *old(frames),
        level < 3 && !is_present(entry) ==> match r {
            MapStep::NewTable { table, entry: e } => allocated(*old(frames), *final(frames), Some(table))
                && e == table | PRESENT | WRITABLE | USER,
            MapStep::OutOfFrames => allocated(*old(frames), *final(frames), None),
            _ => false,
        },
{
    if level == 3 {
        return MapStep::Leaf(phys | flags | PRESENT);
    }
    if entry & PRESENT != 0 {
        MapStep::Descend(entry & ADDRESS_MASK)
    } else {
        match frames.allocate() {
            Some(table) => MapStep::NewTable { table, entry: table | PRESENT | WRITABLE | USER },
            None => MapStep::OutOfFrames,
        }
    }
}

/// What translating an address does at one level of the walk.
#[derive(Debug, Clone, Copy, PartialEq, Eq, Structural)]
pub enum LookupStep {
    /// The address is not mapped.
    Unmapped,
    /// Continue in the table at this address.
    Descend(u64),
    /// The physical address the virtual address maps to.
    Found(u64),
}

/// The physical address for `virt` when the entry at `level` maps a huge
/// page (a 1 GiB page at the PDPT level, a 2 MiB page at the PD level).
pub open spec fn huge_target(entry: u64, virt: u64, level: int) -> int {
    (entry & ADDRESS_MASK) + if level == 1 { (virt & 0x3FFF_FFFF) as int } else { (virt & 0x1F_FFFF) as int }
}

/// One step of translating `virt` where the entry on the path at `level`
/// reads `entry`: absent entries end the walk; a huge-page entry at the
/// PDPT or PD level gives the address within that page; other directory
/// entries lead to the next table; a page table entry gives its frame plus
/// the offset within the page.
pub fn lookup_step(level: usize, entry: u64, virt: u64) -> (r: LookupStep)
    requires
        level < 4,
        (entry & ADDRESS_MASK) + 0x3FFF_FFFF <= u64::MAX,
    ensures
        !is_present(entry) ==> r == LookupStep::Unmapped,
        is_present(entry) && (level == 1 || level == 2) && entry & HUGE_PAGE != 0 ==> r
            == LookupStep::Found(huge_target(entry, virt, level as int) as u64),
        is_present(entry) && (level == 0 || ((level == 1 || level == 2) && entry & HUGE_PAGE == 0))
            ==> r == LookupStep::Descend(entry & ADDRESS_MASK),
        is_present(entry) && level == 3 ==> r == LookupStep::Found(
            ((entry & ADDRESS_MASK) + (virt & 0xFFF)) as u64,
        ),
{
    if entry & PRESENT == 0 {
        return LookupStep::Unmapped;
    }
    let base = entry & ADDRESS_MASK;
    proof {
        lemma_bits(entry, virt);
    }
    if level == 3 {
        return LookupStep::Found(base + (virt & 0xFFF));
    }
    if (level == 1 || level == 2) && (entry & HUGE_PAGE != 0) {
        if level == 1 {
            LookupStep::Found(base + (virt & 0x3FFF_FFFF))
        } else {
            LookupStep::Found(base + (virt & 0x1F_FFFF))
        }
    } else {
        LookupStep::Descend(base)
    }
}

/// A new user PML4 built from the active one: the lower half (user space)
/// empty, the higher half (the kernel) shared.
pub fn user_pml4(active: &[u64; 512]) -> (r: Vec<u64>)
    ensures
        r@.len() == ENTRIES,
        forall|i: int| 0 <= i < 256 ==> #[trigger] r@[i] == 0,
        forall|i: int| 256 <= i < 512 ==> #[trigger] r@[i] == active@[i],
{
    let mut table: Vec<u64> = vec![0u64; ENTRIES];
    let mut i: usize = 256;
    while i < ENTRIES
        invariant
            256 <= i <= ENTRIES,
            table@.len() == ENTRIES,
            forall|j: int| 0 <= j < 256 ==> #[trigger] table@[j] == 0,
            forall|j: int| 256 <= j < i ==> #[trigger] table@[j] == active@[j],
            forall|j: int| i <= j < 512 ==> #[trigger] table@[j] == 0,
        decreases ENTRIES - i,
    {
        table.set(i, active[i]);
        i = i + 1;
    }
    table
}

/// Take the frame for a new user PML4: the lowest free frame (an empty
/// allocator is fatal, as the kernel cannot go on without one).
pub fn create_user_page_table(frames: &mut FrameAllocator, active: &[u64; 512]) -> (r: Option<(u64, Vec<u64>)>)
    requires
        old(frames).wf(),
    ensures
        final(frames).wf(),
        match r {
            Some((frame, table)) => allocated(*old(frames), *final(frames), Some(frame)) && table@.len()
                == ENTRIES && (forall|i: int| 0 <= i < 256 ==> #[trigger] table@[i] == 0) && (forall|
                i: int,
            | 256 <= i < 512 ==> #[trigger] table@[i] == active@[i]),
            None => allocated(*old(frames), *final(frames), None),
        },
{
    match frames.allocate() {
        Some(frame) => Some((frame, user_pml4(active))),
        None => None,
    }
}

/// The table a directory entry leads to when unmapping: its address when
/// present (the huge-page bit is not looked at), none when absent.
pub fn next_table(entry: u64) -> (r: Option<u64>)
    ensures
        is_present(entry) ==> r == Some(entry & ADDRESS_MASK),
        !is_present(entry) ==> r is None,
{
    if entry & PRESENT != 0 {
        Some(entry & ADDRESS_MASK)
    } else {
        None
    }
}

/// Where the translation of `virt` ends, starting at `level` in the table at
/// `table`: an absent entry ends it with nothing; a huge-page entry at the
/// PDPT or PD level gives the address within that page; a page table entry
/// gives its frame plus the offset within the page; other entries lead to
/// the next table.
pub open spec fn translate_from(m: PageTables, table: u64, virt: u64, level: int) -> Option<u64>
    decreases 4 - level,
{
    if level < 0 || level >= 4 {
        None
    } else {
        let e = m.entry(table, index_at(virt, level));
        if !is_present(e) {
            None
        } else if level == 3 {
            Some(((e & ADDRESS_MASK) + (virt & 0xFFF)) as u64)
        } else if (level == 1 || level == 2) && e & HUGE_PAGE != 0 {
            Some(huge_target(e, virt, level) as u64)
        } else {
            translate_from(m, e & ADDRESS_MASK, virt, level + 1)
        }
    }
}

/// The physical address `virt` maps to in the hierarchy rooted at `pml4`.
pub open spec fn translate(m: PageTables, pml4: u64, virt: u64) -> Option<u64> {
    translate_from(m, pml4, virt, 0)
}

/// The table the walk for `virt` reaches at `level` (0 is the PML4 itself),
/// following present entries without looking at the huge-page bit; none
/// once an entry on the way is absent.
pub open spec fn walk_table(m: PageTables, pml4: u64, virt: u64, level: int) -> Option<u64>
    decreases level,
{
    if level <= 0 {
        Some(pml4)
    } else {
        match walk_table(m, pml4, virt, level - 1) {
            None => None,
            Some(t) => {
                let e = m.entry(t, index_at(virt, level - 1));
                if is_present(e) {
                    Some(e & ADDRESS_MASK)
                } else {
                    None
                }
            },
        }
    }
}

/// No entry on the walk for `virt` maps a huge page.
pub open spec fn no_huge_page(m: PageTables, pml4: u64, virt: u64) -> bool {
    forall|l: int|
        1 <= l <= 2 ==> match #[trigger] walk_table(m, pml4, virt, l) {
            Some(t) => {
                let e = m.entry(t, index_at(virt, l));
                !(is_present(e) && e & HUGE_PAGE != 0)
            },
            None => true,
        }
}

/// The tables on the walk for `virt` are distinct, none of them a free
/// frame, and no huge page is met: a walk that writes into them cannot
/// overwrite its own path.
pub open spec fn path_ok(m: PageTables, frames: FrameAllocator, pml4: u64, virt: u64) -> bool {
    &&& no_huge_page(m, pml4, virt)
    &&& forall|l: int|
        0 <= l <= 3 ==> match #[trigger] walk_table(m, pml4, virt, l) {
            Some(t) => !frames.free(t as int / PAGE_SIZE as int),
            None => true,
        }
    &&& forall|l1: int, l2: int|
        0 <= l1 < l2 <= 3 ==> match (#[trigger] walk_table(m, pml4, virt, l1), #[trigger] walk_table(
            m,
            pml4,
            virt,
            l2,
        )) {
            (Some(t1), Some(t2)) => t1 != t2,
            _ => true,
        }
}

proof fn lemma_walk_absent(m: PageTables, pml4: u64, virt: u64, l: int)
    requires
        0 < l <= 3,
        walk_table(m, pml4, virt, l) is None,
    ensures
        walk_table(m, pml4, virt, 3) is None,
    decreases 3 - l,
{
    if l < 3 {
        lemma_walk_absent(m, pml4, virt, l + 1);
    }
}

/// Unmapping `virt` took the tables from `old` to `new`: the page table
/// entry the walk reaches is cleared and nothing else changes; nothing
/// changes when the walk stops at an absent directory entry.
pub open spec fn unmapped(old: PageTables, new: PageTables, pml4: u64, virt: u64) -> bool {
    match walk_table(old, pml4, virt, 3) {
        Some(pt) => forall|t: u64, j: int|
            0 <= j < 512 ==> #[trigger] new.entry(t, j) == if t == pt && j == index_at(virt, 3) {
                0
            } else {
                old.entry(t, j)
            },
        None => forall|t: u64, j: int| 0 <= j < 512 ==> #[trigger] new.entry(t, j) == old.entry(t, j),
    }
}

/// Where `new` differs from `old` only in entry `i` of table `t`, cleared,
/// an address whose walk through `old` reads that entry translates to
/// nothing through `new`.
proof fn lemma_cleared_translate(old: PageTables, new: PageTables, pml4: u64, virt: u64)
    requires
        no_huge_page(old, pml4, virt),
        unmapped(old, new, pml4, virt),
    ensures
        translate(new, pml4, virt) is None,
{
    let i0 = index_at(virt, 0);
    let i1 = index_at(virt, 1);
    let i2 = index_at(virt, 2);
    let i3 = index_at(virt, 3);
    assert(0 <= i0 < 512 && 0 <= i1 < 512 && 0 <= i2 < 512 && 0 <= i3 < 512) by {
        lemma_bits(0, virt);
    }
    let e0 = new.entry(pml4, i0);
    if !is_present(e0) {
        return;
    }
    assert(e0 == old.entry(pml4, i0) || e0 == 0);
    assert(e0 == old.entry(pml4, i0)) by {
        lemma_bits(0, virt);
    }
    let t1 = e0 & ADDRESS_MASK;
    assert(walk_table(old, pml4, virt, 0) == Some(pml4));
    assert(walk_table(old, pml4, virt, 1) == Some(t1));
    let e1 = new.entry(t1, i1);
    lemma_bits(0, virt);
    if !is_present(e1) {
        assert(translate_from(new, t1, virt, 1) is None);
        return;
    }
    assert(e1 == old.entry(t1, i1));
    assert(walk_table(old, pml4, virt, 1) == Some(t1));
    assert(!(e1 & HUGE_PAGE != 0));
    let t2 = e1 & ADDRESS_MASK;
    assert(walk_table(old, pml4, virt, 2) == Some(t2));
    let e2 = new.entry(t2, i2);
    if !is_present(e2) {
        assert(translate_from(new, t2, virt, 2) is None);
        assert(translate_from(new, t1, virt, 1) is None);
        return;
    }
    assert(e2 == old.entry(t2, i2));
    assert(!(e2 & HUGE_PAGE != 0));
    let t3 = e2 & ADDRESS_MASK;
    assert(walk_table(old, pml4, virt, 3) == Some(t3));
    assert(new.entry(t3, i3) == 0);
    assert(translate_from(new, t3, virt, 3) is None);
    assert(translate_from(new, t2, virt, 2) is None);
    assert(translate_from(new, t1, virt, 1) is None);
}

/// Entry `(t, j)` is the one the walk for `virt` reads at some level.
pub open spec fn on_walk(m: PageTables, pml4: u64, virt: u64, t: u64, j: int) -> bool {
    ||| walk_table(m, pml4, virt, 0) == Some(t) && j == index_at(virt, 0)
    ||| walk_table(m, pml4, virt, 1) == Some(t) && j == index_at(virt, 1)
    ||| walk_table(m, pml4, virt, 2) == Some(t) && j == index_at(virt, 2)
    ||| walk_table(m, pml4, virt, 3) == Some(t) && j == index_at(virt, 3)
}

/// `t` is the address of a frame that was free in `f0` and is in use in `f1`.
pub open spec fn taken(f0: FrameAllocator, f1: FrameAllocator, t: u64) -> bool {
    &&& t as int % PAGE_SIZE as int == 0
    &&& f0.free(t as int / PAGE_SIZE as int)
    &&& !f1.free(t as int / PAGE_SIZE as int)
}

/// What mapping `virt` to the page table entry `leaf` took the tables from
/// `old` to `new` and the allocator from `f0` to `f1` (`ok`: the walk got to
/// the page table):
/// - the tables the walk already had are kept, and so are the entries
///   leading from one to the next;
/// - each table the walk lacked is a frame taken from the allocator, linked
///   as present, writable and user-accessible;
/// - every frame taken is a table of the walk;
/// - on success the page table entry is `leaf`;
/// - every entry off the walk is as it was, or zero in a frame taken.
pub open spec fn map_effect(
    old: PageTables,
    new: PageTables,
    f0: FrameAllocator,
    f1: FrameAllocator,
    pml4: u64,
    virt: u64,
    leaf: u64,
    ok: bool,
) -> bool {
    &&& forall|l: int|
        0 <= l <= 3 && (#[trigger] walk_table(old, pml4, virt, l)) is Some ==> walk_table(
            new,
            pml4,
            virt,
            l,
        ) == walk_table(old, pml4, virt, l)
    &&& forall|l: int|
        0 <= l < 3 && walk_table(old, pml4, virt, l) is Some && (#[trigger] walk_table(
            old,
            pml4,
            virt,
            l + 1,
        )) is Some ==> new.entry(walk_table(old, pml4, virt, l)->0, index_at(virt, l)) == old.entry(
            walk_table(old, pml4, virt, l)->0,
            index_at(virt, l),
        )
    &&& forall|l: int|
        1 <= l <= 3 && walk_table(old, pml4, virt, l) is None && (#[trigger] walk_table(
            new,
            pml4,
            virt,
            l,
        )) is Some ==> {
            let t = walk_table(new, pml4, virt, l)->0;
            &&& taken(f0, f1, t)
            &&& new.entry(walk_table(new, pml4, virt, l - 1)->0, index_at(virt, l - 1)) == t | PRESENT
                | WRITABLE | USER
        }
    &&& forall|f: int|
        #[trigger] f0.free(f) && !f1.free(f) ==> {
            let t = (f * PAGE_SIZE as int) as u64;
            ||| walk_table(new, pml4, virt, 1) == Some(t)
            ||| walk_table(new, pml4, virt, 2) == Some(t)
            ||| walk_table(new, pml4, virt, 3) == Some(t)
        }
    &&& ok ==> {
        &&& walk_table(new, pml4, virt, 3) is Some
        &&& new.entry(walk_table(new, pml4, virt, 3)->0, index_at(virt, 3)) == leaf
    }
    &&& forall|t: u64, j: int|
        0 <= j < 512 && !on_walk(new, pml4, virt, t, j) ==> #[trigger] new.entry(t, j) == if taken(
            f0,
            f1,
            t,
        ) {
            0
        } else {
            old.entry(t, j)
        }
}

/// The entry at level `k` of `path` leads to the table at level `k + 1`
/// (without mapping a huge page at the PDPT and PD levels).
pub open spec fn linked(m: PageTables, virt: u64, path: Seq<u64>, k: int) -> bool {
    let e = m.entry(path[k], index_at(virt, k));
    &&& is_present(e)
    &&& e & ADDRESS_MASK == path[k + 1]
    &&& (k == 1 || k == 2) ==> e & HUGE_PAGE == 0
}

proof fn lemma_links_walk(m: PageTables, pml4: u64, virt: u64, path: Seq<u64>, n: int)
    requires
        0 <= n < path.len(),
        path[0] == pml4,
        forall|k: int| 0 <= k < n ==> #[trigger] linked(m, virt, path, k),
    ensures
        forall|k: int| 0 <= k <= n ==> #[trigger] walk_table(m, pml4, virt, k) == Some(path[k]),
    decreases n,
{
    if n > 0 {
        lemma_links_walk(m, pml4, virt, path, n - 1);
        assert(linked(m, virt, path, n - 1));
        assert(walk_table(m, pml4, virt, n - 1) == Some(path[n - 1]));
    }
}

proof fn lemma_walk_absent_from(m: PageTables, pml4: u64, virt: u64, l: int)
    requires
        0 < l <= 3,
        walk_table(m, pml4, virt, l) is None,
    ensures
        forall|l2: int| l <= l2 <= 3 ==> #[trigger] walk_table(m, pml4, virt, l2) is None,
    decreases 3 - l,
{
    if l < 3 {
        lemma_walk_absent_from(m, pml4, virt, l + 1);
    }
}

proof fn lemma_links_translate(m: PageTables, pml4: u64, virt: u64, path: Seq<u64>)
    requires
        path.len() == 4,
        path[0] == pml4,
        forall|k: int| 0 <= k < 3 ==> #[trigger] linked(m, virt, path, k),
        is_present(m.entry(path[3], index_at(virt, 3))),
    ensures
        translate(m, pml4, virt) == Some(
            ((m.entry(path[3], index_at(virt, 3)) & ADDRESS_MASK) + (virt & 0xFFF)) as u64,
        ),
{
    assert(linked(m, virt, path, 0));
    assert(linked(m, virt, path, 1));
    assert(linked(m, virt, path, 2));
    assert(translate_from(m, path[3], virt, 3) == Some(
        ((m.entry(path[3], index_at(virt, 3)) & ADDRESS_MASK) + (virt & 0xFFF)) as u64,
    ));
    assert(translate_from(m, path[2], virt, 2) == translate_from(m, path[3], virt, 3));
    assert(translate_from(m, path[1], virt, 1) == translate_from(m, path[2], virt, 2));
}

/// The page table entry for `phys` with `flags` leads back to `phys` when
/// `phys` is a page-aligned physical address and `flags` hold no address
/// bits.
proof fn lemma_leaf_address(phys: u64, flags: u64)
    by (bit_vector)
    ensures
        phys % 4096 == 0 && phys <= 0x000F_FFFF_FFFF_F000u64 && flags & 0x000F_FFFF_FFFF_F000u64 == 0
            ==> (phys | flags | 1u64) & 0x000F_FFFF_FFFF_F000u64 == phys,
        (phys | flags | 1u64) & 1u64 != 0,
{
}

/// A new table's directory entry: present, leading to the table, with no
/// huge-page bit.
proof fn lemma_table_entry(t: u64)
    requires
        t % 4096 == 0,
        t < 0x1_0000_0000,
    ensures
        is_present(t | PRESENT | WRITABLE | USER),
        (t | PRESENT | WRITABLE | USER) & ADDRESS_MASK == t,
        (t | PRESENT | WRITABLE | USER) & HUGE_PAGE == 0,
{
    assert(t % 4096 == 0 && t < 0x1_0000_0000u64 ==> (t | 1u64 | 2u64 | 4u64) & 1u64 != 0 && (t | 1u64
        | 2u64 | 4u64) & 0x000F_FFFF_FFFF_F000u64 == t && (t | 1u64 | 2u64 | 4u64) & 0x80u64 == 0)
        by (bit_vector);
}

proof fn lemma_exit_kept(
    old: PageTables,
    new: PageTables,
    pml4: u64,
    virt: u64,
    ok: bool,
    path: Seq<u64>,
    nf: int,
    level: int,
)
    requires
        0 <= level <= 3,
        path.len() == level + 1,
        path[0] == pml4,
        1 <= nf <= level + 1,
        ok ==> level == 3,
        !ok ==> !is_present(new.entry(path[level], index_at(virt, level))),
        !ok && level < nf ==> new.entry(path[level], index_at(virt, level)) == old.entry(
            path[level],
            index_at(virt, level),
        ),
        forall|k: int| 0 <= k < level ==> #[trigger] linked(new, virt, path, k),
        forall|k: int| 0 <= k < nf ==> #[trigger] walk_table(old, pml4, virt, k) == Some(path[k]),
        nf <= level ==> walk_table(old, pml4, virt, nf) is None,
    ensures
        forall|k: int| 0 <= k <= level ==> #[trigger] walk_table(new, pml4, virt, k) == Some(path[k]),
        forall|l: int| level < l <= 3 ==> #[trigger] walk_table(new, pml4, virt, l) is None,
        forall|l: int| nf <= l <= 3 ==> #[trigger] walk_table(old, pml4, virt, l) is None,
        forall|l: int|
            0 <= l <= 3 && (#[trigger] walk_table(old, pml4, virt, l)) is Some ==> walk_table(
                new,
                pml4,
                virt,
                l,
            ) == walk_table(old, pml4, virt, l),
{
    lemma_links_walk(new, pml4, virt, path, level);
    if level < 3 {
        assert(walk_table(new, pml4, virt, level) == Some(path[level]));
        assert(walk_table(new, pml4, virt, level + 1) is None);
        lemma_walk_absent_from(new, pml4, virt, level + 1);
    }
    if nf <= level {
        lemma_walk_absent_from(old, pml4, virt, nf);
    } else if level < 3 {
        assert(walk_table(old, pml4, virt, level) == Some(path[level]));
        assert(walk_table(old, pml4, virt, level + 1) is None);
        lemma_walk_absent_from(old, pml4, virt, level + 1);
    }
}

proof fn lemma_exit_links_kept(
    old: PageTables,
    new: PageTables,
    pml4: u64,
    virt: u64,
    path: Seq<u64>,
    nf: int,
    level: int,
)
    requires
        0 <= level <= 3,
        path.len() == level + 1,
        1 <= nf <= level + 1,
        forall|k: int| 0 <= k < nf ==> #[trigger] walk_table(old, pml4, virt, k) == Some(path[k]),
        forall|l: int| nf <= l <= 3 ==> #[trigger] walk_table(old, pml4, virt, l) is None,
        forall|k: int|
            0 <= k < level && k + 1 < nf ==> new.entry(#[trigger] path[k], index_at(virt, k)) == old.entry(
                path[k],
                index_at(virt, k),
            ),
    ensures
        forall|l: int|
            0 <= l < 3 && walk_table(old, pml4, virt, l) is Some && (#[trigger] walk_table(
                old,
                pml4,
                virt,
                l + 1,
            )) is Some ==> new.entry(walk_table(old, pml4, virt, l)->0, index_at(virt, l)) == old.entry(
                walk_table(old, pml4, virt, l)->0,
                index_at(virt, l),
            ),
{
    assert forall|l: int|
        0 <= l < 3 && walk_table(old, pml4, virt, l) is Some && (#[trigger] walk_table(
            old,
            pml4,
            virt,
            l + 1,
        )) is Some implies new.entry(walk_table(old, pml4, virt, l)->0, index_at(virt, l)) == old.entry(
        walk_table(old, pml4, virt, l)->0,
        index_at(virt, l),
    ) by {
        assert(l + 1 < nf);
        assert(walk_table(old, pml4, virt, l) == Some(path[l]));
        assert(new.entry(path[l], index_at(virt, l)) == old.entry(path[l], index_at(virt, l)));
    }
}

proof fn lemma_exit_frames(
    f0: FrameAllocator,
    f1: FrameAllocator,
    new: PageTables,
    pml4: u64,
    virt: u64,
    path: Seq<u64>,
    nf: int,
    level: int,
)
    requires
        0 <= level <= 3,
        path.len() == level + 1,
        1 <= nf,
        forall|k: int| 0 <= k <= level ==> #[trigger] walk_table(new, pml4, virt, k) == Some(path[k]),
        forall|f: int|
            #[trigger] f0.free(f) && !f1.free(f) ==> exists|k: int|
                nf <= k <= level && #[trigger] path[k] as int == f * PAGE_SIZE as int,
    ensures
        forall|f: int|
            #[trigger] f0.free(f) && !f1.free(f) ==> {
                let t = (f * PAGE_SIZE as int) as u64;
                ||| walk_table(new, pml4, virt, 1) == Some(t)
                ||| walk_table(new, pml4, virt, 2) == Some(t)
                ||| walk_table(new, pml4, virt, 3) == Some(t)
            },
{
    assert forall|f: int| #[trigger] f0.free(f) && !f1.free(f) implies {
        let t = (f * PAGE_SIZE as int) as u64;
        ||| walk_table(new, pml4, virt, 1) == Some(t)
        ||| walk_table(new, pml4, virt, 2) == Some(t)
        ||| walk_table(new, pml4, virt, 3) == Some(t)
    } by {
        let k = choose|k: int| nf <= k <= level && #[trigger] path[k] as int == f * PAGE_SIZE as int;
        assert(walk_table(new, pml4, virt, k) == Some(path[k]));
    }
}

#[verifier::spinoff_prover]
#[verifier::rlimit(40)]
proof fn lemma_exit_entry(
    old: PageTables,
    new: PageTables,
    f0: FrameAllocator,
    f1: FrameAllocator,
    pml4: u64,
    virt: u64,
    ok: bool,
    path: Seq<u64>,
    nf: int,
    level: int,
    t: u64,
    j: int,
)
    requires
        0 <= j < 512,
        !on_walk(new, pml4, virt, t, j),
        0 <= level <= 3,
        path.len() == level + 1,
        1 <= nf <= level + 1,
        ok ==> level == 3,
        forall|k: int| 0 <= k <= level ==> #[trigger] walk_table(new, pml4, virt, k) == Some(path[k]),
        forall|k: int| 0 <= k <= level ==> !f1.free(#[trigger] path[k] as int / PAGE_SIZE as int),
        forall|k: int|
            nf <= k <= level ==> #[trigger] path[k] as int % PAGE_SIZE as int == 0 && f0.free(
                path[k] as int / PAGE_SIZE as int,
            ),
        forall|k: int, j: int|
            nf <= k <= level && 0 <= j < 512 && !(j == index_at(virt, k) && (k < level || ok))
                ==> #[trigger] new.entry(path[k], j) == 0,
        forall|t: u64, j: int|
            0 <= j < 512 && #[trigger] new.entry(t, j) != old.entry(t, j) ==> (exists|k: int|
                0 <= k <= level && (k < level || ok) && #[trigger] path[k] == t && j == index_at(virt, k))
                || (exists|k: int| nf <= k <= level && #[trigger] path[k] == t),
        forall|f: int|
            #[trigger] f0.free(f) && !f1.free(f) ==> exists|k: int|
                nf <= k <= level && #[trigger] path[k] as int == f * PAGE_SIZE as int,
    ensures
        new.entry(t, j) == if taken(f0, f1, t) {
            0
        } else {
            old.entry(t, j)
        },
{
    if taken(f0, f1, t) {
        let f = t as int / PAGE_SIZE as int;
        assert(f0.free(f) && !f1.free(f));
        let k = choose|k: int| nf <= k <= level && #[trigger] path[k] as int == f * PAGE_SIZE as int;
        assert(path[k] == t);
        assert(walk_table(new, pml4, virt, k) == Some(path[k]));
        if j == index_at(virt, k) && (k < level || ok) {
            assert(on_walk(new, pml4, virt, t, j));
        }
    } else if new.entry(t, j) != old.entry(t, j) {
        if exists|k: int|
            0 <= k <= level && (k < level || ok) && #[trigger] path[k] == t && j == index_at(virt, k) {
            let k = choose|k: int|
                0 <= k <= level && (k < level || ok) && #[trigger] path[k] == t && j == index_at(virt, k);
            assert(walk_table(new, pml4, virt, k) == Some(path[k]));
            assert(on_walk(new, pml4, virt, t, j));
        } else {
            let k = choose|k: int| nf <= k <= level && #[trigger] path[k] == t;
            assert(taken(f0, f1, t));
        }
    }
}

proof fn lemma_exit_entries(
    old: PageTables,
    new: PageTables,
    f0: FrameAllocator,
    f1: FrameAllocator,
    pml4: u64,
    virt: u64,
    ok: bool,
    path: Seq<u64>,
    nf: int,
    level: int,
)
    requires
        0 <= level <= 3,
        path.len() == level + 1,
        1 <= nf <= level + 1,
        ok ==> level == 3,
        forall|k: int| 0 <= k <= level ==> #[trigger] walk_table(new, pml4, virt, k) == Some(path[k]),
        forall|k: int| 0 <= k <= level ==> !f1.free(#[trigger] path[k] as int / PAGE_SIZE as int),
        forall|k: int|
            nf <= k <= level ==> #[trigger] path[k] as int % PAGE_SIZE as int == 0 && f0.free(
                path[k] as int / PAGE_SIZE as int,
            ),
        forall|k: int, j: int|
            nf <= k <= level && 0 <= j < 512 && !(j == index_at(virt, k) && (k < level || ok))
                ==> #[trigger] new.entry(path[k], j) == 0,
        forall|t: u64, j: int|
            0 <= j < 512 && #[trigger] new.entry(t, j) != old.entry(t, j) ==> (exists|k: int|
                0 <= k <= level && (k < level || ok) && #[trigger] path[k] == t && j == index_at(virt, k))
                || (exists|k: int| nf <= k <= level && #[trigger] path[k] == t),
        forall|f: int|
            #[trigger] f0.free(f) && !f1.free(f) ==> exists|k: int|
                nf <= k <= level && #[trigger] path[k] as int == f * PAGE_SIZE as int,
    ensures
        forall|t: u64, j: int|
            0 <= j < 512 && !on_walk(new, pml4, virt, t, j) ==> #[trigger] new.entry(t, j) == if taken(
                f0,
                f1,
                t,
            ) {
                0
            } else {
                old.entry(t, j)
            },
{
    assert forall|t: u64, j: int|
        0 <= j < 512 && !on_walk(new, pml4, virt, t, j) implies #[trigger] new.entry(t, j) == if taken(
        f0,
        f1,
        t,
    ) {
        0
    } else {
        old.entry(t, j)
    } by {
        lemma_exit_entry(old, new, f0, f1, pml4, virt, ok, path, nf, level, t, j);
    }
}

proof fn lemma_exit_new_tables(
    old: PageTables,
    new: PageTables,
    f0: FrameAllocator,
    f1: FrameAllocator,
    pml4: u64,
    virt: u64,
    path: Seq<u64>,
    nf: int,
    level: int,
)
    requires
        0 <= level <= 3,
        path.len() == level + 1,
        1 <= nf <= level + 1,
        forall|k: int| 0 <= k <= level ==> #[trigger] walk_table(new, pml4, virt, k) == Some(path[k]),
        forall|l: int| level < l <= 3 ==> #[trigger] walk_table(new, pml4, virt, l) is None,
        forall|k: int| 0 <= k < nf ==> #[trigger] walk_table(old, pml4, virt, k) == Some(path[k]),
        forall|k: int| 0 <= k <= level ==> !f1.free(#[trigger] path[k] as int / PAGE_SIZE as int),
        forall|k: int|
            nf <= k <= level ==> #[trigger] path[k] as int % PAGE_SIZE as int == 0 && f0.free(
                path[k] as int / PAGE_SIZE as int,
            ),
        forall|k: int|
            nf <= k + 1 <= level ==> new.entry(#[trigger] path[k], index_at(virt, k)) == path[k + 1]
                | PRESENT | WRITABLE | USER,
    ensures
        forall|l: int|
            1 <= l <= 3 && walk_table(old, pml4, virt, l) is None && (#[trigger] walk_table(
                new,
                pml4,
                virt,
                l,
            )) is Some ==> {
                let t = walk_table(new, pml4, virt, l)->0;
                &&& taken(f0, f1, t)
                &&& new.entry(walk_table(new, pml4, virt, l - 1)->0, index_at(virt, l - 1)) == t
                    | PRESENT | WRITABLE | USER
            },
{
    assert forall|l: int|
        1 <= l <= 3 && walk_table(old, pml4, virt, l) is None && (#[trigger] walk_table(
            new,
            pml4,
            virt,
            l,
        )) is Some implies {
            let t = walk_table(new, pml4, virt, l)->0;
            &&& taken(f0, f1, t)
            &&& new.entry(walk_table(new, pml4, virt, l - 1)->0, index_at(virt, l - 1)) == t | PRESENT
                | WRITABLE | USER
        } by {
        assert(l <= level);
        assert(l >= nf);
        assert(walk_table(new, pml4, virt, l) == Some(path[l]));
        assert(walk_table(new, pml4, virt, l - 1) == Some(path[l - 1]));
        assert(path[l - 1] == path[(l - 1) + 1 - 1]);
    }
}

/// What a mapping walk kept track of when it stopped at `level` of `path`
/// (`ok`: with the page table entry written as `leaf`) gives `map_effect`.
proof fn lemma_map_exit(
    old: PageTables,
    new: PageTables,
    f0: FrameAllocator,
    f1: FrameAllocator,
    pml4: u64,
    virt: u64,
    leaf: u64,
    ok: bool,
    path: Seq<u64>,
    nf: int,
    level: int,
)
    requires
        0 <= level <= 3,
        path.len() == level + 1,
        path[0] == pml4,
        1 <= nf <= level + 1,
        ok ==> level == 3 && new.entry(path[3], index_at(virt, 3)) == leaf,
        !ok ==> !is_present(new.entry(path[level], index_at(virt, level))),
        !ok && level < nf ==> new.entry(path[level], index_at(virt, level)) == old.entry(
            path[level],
            index_at(virt, level),
        ),
        forall|k: int| 0 <= k < level ==> #[trigger] linked(new, virt, path, k),
        forall|k: int| 0 <= k <= level ==> !f1.free(#[trigger] path[k] as int / PAGE_SIZE as int),
        forall|k: int| 0 <= k < nf ==> #[trigger] walk_table(old, pml4, virt, k) == Some(path[k]),
        nf <= level ==> walk_table(old, pml4, virt, nf) is None,
        forall|k: int|
            0 <= k < level && k + 1 < nf ==> new.entry(#[trigger] path[k], index_at(virt, k)) == old.entry(
                path[k],
                index_at(virt, k),
            ),
        forall|k: int|
            nf <= k <= level ==> #[trigger] path[k] as int % PAGE_SIZE as int == 0 && f0.free(
                path[k] as int / PAGE_SIZE as int,
            ),
        forall|k: int|
            nf <= k + 1 <= level ==> new.entry(#[trigger] path[k], index_at(virt, k)) == path[k + 1]
                | PRESENT | WRITABLE | USER,
        forall|k: int, j: int|
            nf <= k <= level && 0 <= j < 512 && !(j == index_at(virt, k) && (k < level || ok))
                ==> #[trigger] new.entry(path[k], j) == 0,
        forall|t: u64, j: int|
            0 <= j < 512 && #[trigger] new.entry(t, j) != old.entry(t, j) ==> (exists|k: int|
                0 <= k <= level && (k < level || ok) && #[trigger] path[k] == t && j == index_at(virt, k))
                || (exists|k: int| nf <= k <= level && #[trigger] path[k] == t),
        forall|f: int|
            #[trigger] f0.free(f) && !f1.free(f) ==> exists|k: int|
                nf <= k <= level && #[trigger] path[k] as int == f * PAGE_SIZE as int,
    ensures
        map_effect(old, new, f0, f1, pml4, virt, leaf, ok),
{
    lemma_exit_kept(old, new, pml4, virt, ok, path, nf, level);
    lemma_exit_links_kept(old, new, pml4, virt, path, nf, level);
    lemma_exit_frames(f0, f1, new, pml4, virt, path, nf, level);
    lemma_exit_entries(old, new, f0, f1, pml4, virt, ok, path, nf, level);
    lemma_exit_new_tables(old, new, f0, f1, pml4, virt, path, nf, level);
    if ok {
        assert(walk_table(new, pml4, virt, 3) == Some(path[3]));
    }
}

/// What a mapping walk from `pml4` for `virt` keeps track of when it is at
/// `level` of `path`, with the tables `m` and the allocator `fr`, having
/// started from the tables `s0` and the allocator `f0`: the tables before
/// `nf` are those of the walk through `s0`, the later ones frames it took.
pub open spec fn walk_inv(
    s0: PageTables,
    f0: FrameAllocator,
    m: PageTables,
    fr: FrameAllocator,
    pml4: u64,
    virt: u64,
    path: Seq<u64>,
    nf: int,
    level: int,
) -> bool {
    &&& 0 <= level <= 3
    &&& path.len() == level + 1
    &&& path[0] == pml4
    &&& 1 <= nf <= level + 1
    &&& forall|f: int| #[trigger] fr.free(f) ==> f0.free(f)
    &&& forall|k: int| 0 <= k < level ==> #[trigger] linked(m, virt, path, k)
    &&& forall|a: int, b: int| 0 <= a < b <= level ==> #[trigger] path[a] != #[trigger] path[b]
    &&& forall|k: int| 0 <= k <= level ==> !fr.free(#[trigger] path[k] as int / PAGE_SIZE as int)
    &&& forall|k: int| 0 <= k < nf ==> #[trigger] walk_table(s0, pml4, virt, k) == Some(path[k])
    &&& nf <= level ==> walk_table(s0, pml4, virt, nf) is None
    &&& forall|k: int|
        0 <= k < level && k + 1 < nf ==> m.entry(#[trigger] path[k], index_at(virt, k)) == s0.entry(
            path[k],
            index_at(virt, k),
        )
    &&& forall|k: int|
        nf <= k <= level ==> #[trigger] path[k] as int % PAGE_SIZE as int == 0 && f0.free(
            path[k] as int / PAGE_SIZE as int,
        ) && path[k] < 0x1_0000_0000
    &&& forall|k: int|
        nf <= k + 1 <= level ==> m.entry(#[trigger] path[k], index_at(virt, k)) == path[k + 1]
            | PRESENT | WRITABLE | USER
    &&& forall|k: int, j: int|
        nf <= k <= level && 0 <= j < 512 && !(j == index_at(virt, k) && k < level)
            ==> #[trigger] m.entry(path[k], j) == 0
    &&& level < nf ==> forall|j: int|
        0 <= j < 512 ==> #[trigger] m.entry(path[level], j) == s0.entry(path[level], j)
    &&& forall|t: u64, j: int|
        0 <= j < 512 && #[trigger] m.entry(t, j) != s0.entry(t, j) ==> (exists|k: int|
            0 <= k < level && #[trigger] path[k] == t && j == index_at(virt, k)) || (exists|k: int|
            nf <= k <= level && #[trigger] path[k] == t)
    &&& forall|f: int|
        #[trigger] f0.free(f) && !fr.free(f) ==> exists|k: int|
            nf <= k <= level && #[trigger] path[k] as int == f * PAGE_SIZE as int
}

proof fn lemma_step_descend(
    s0: PageTables,
    f0: FrameAllocator,
    m: PageTables,
    fr: FrameAllocator,
    pml4: u64,
    virt: u64,
    path: Seq<u64>,
    nf: int,
    level: int,
    next: u64,
)
    requires
        path_ok(s0, f0, pml4, virt),
        walk_inv(s0, f0, m, fr, pml4, virt, path, nf, level),
        level < 3,
        is_present(m.entry(path[level], index_at(virt, level))),
        next == m.entry(path[level], index_at(virt, level)) & ADDRESS_MASK,
    ensures
        nf == level + 1,
        walk_inv(s0, f0, m, fr, pml4, virt, path.push(next), nf + 1, level + 1),
{
    let i = index_at(virt, level);
    assert(0 <= i < 512) by {
        lemma_bits(0, virt);
    }
    if nf <= level {
        assert(m.entry(path[level], i) == 0);
        lemma_bits(0, virt);
    }
    assert(nf == level + 1);
    let e = m.entry(path[level], i);
    assert(e == s0.entry(path[level], i));
    assert(walk_table(s0, pml4, virt, level) == Some(path[level]));
    assert(walk_table(s0, pml4, virt, level + 1) == Some(next));
    let p2 = path.push(next);
    assert forall|k: int| 0 <= k < level + 1 implies #[trigger] linked(m, virt, p2, k) by {
        if k < level {
            assert(linked(m, virt, path, k));
        } else {
            if level == 1 || level == 2 {
                assert(walk_table(s0, pml4, virt, level) == Some(path[level]));
            }
        }
    }
    assert forall|a: int, b: int| 0 <= a < b <= level + 1 implies #[trigger] p2[a] != #[trigger] p2[b] by {
        if b == level + 1 {
            assert(walk_table(s0, pml4, virt, a) == Some(path[a]));
        } else {
            assert(path[a] != path[b]);
        }
    }
    assert forall|k: int| 0 <= k <= level + 1 implies !fr.free(#[trigger] p2[k] as int / PAGE_SIZE as int) by {
        if k == level + 1 {
            assert(walk_table(s0, pml4, virt, k) == Some(next));
        } else {
            assert(p2[k] == path[k]);
        }
    }
    assert forall|k: int| 0 <= k < nf + 1 implies #[trigger] walk_table(s0, pml4, virt, k) == Some(p2[k]) by {
        if k < nf {
            assert(p2[k] == path[k]);
        }
    }
    assert forall|j: int| 0 <= j < 512 implies #[trigger] m.entry(p2[level + 1], j) == s0.entry(p2[level + 1], j) by {
        if m.entry(next, j) != s0.entry(next, j) {
            let k = choose|k: int| 0 <= k < level && #[trigger] path[k] == next && j == index_at(virt, k);
            assert(walk_table(s0, pml4, virt, k) == Some(path[k]));
        }
    }
    assert forall|t: u64, j: int|
        0 <= j < 512 && #[trigger] m.entry(t, j) != s0.entry(t, j) implies (exists|k: int|
            0 <= k < level + 1 && #[trigger] p2[k] == t && j == index_at(virt, k)) || (exists|k: int|
            nf + 1 <= k <= level + 1 && #[trigger] p2[k] == t) by {
        let k = choose|k: int| 0 <= k < level && #[trigger] path[k] == t && j == index_at(virt, k);
        assert(p2[k] == t);
    }
    assert forall|f: int| #[trigger] f0.free(f) && !fr.free(f) implies exists|k: int|
        nf + 1 <= k <= level + 1 && #[trigger] p2[k] as int == f * PAGE_SIZE as int by {
        let k = choose|k: int| nf <= k <= level && #[trigger] path[k] as int == f * PAGE_SIZE as int;
    }
}

proof fn lemma_step_new_table(
    s0: PageTables,
    f0: FrameAllocator,
    m0: PageTables,
    m1: PageTables,
    fb: FrameAllocator,
    fa: FrameAllocator,
    pml4: u64,
    virt: u64,
    path: Seq<u64>,
    nf: int,
    level: int,
    new: u64,
)
    requires
        path_ok(s0, f0, pml4, virt),
        walk_inv(s0, f0, m0, fb, pml4, virt, path, nf, level),
        level < 3,
        !is_present(m0.entry(path[level], index_at(virt, level))),
        allocated(fb, fa, Some(new)),
        forall|t: u64, j: int|
            0 <= j < 512 ==> #[trigger] m1.entry(t, j) == if t == path[level] && j == index_at(virt, level) {
                new | PRESENT | WRITABLE | USER
            } else if t == new {
                0
            } else {
                m0.entry(t, j)
            },
    ensures
        walk_inv(s0, f0, m1, fa, pml4, virt, path.push(new), nf, level + 1),
{
    let i = index_at(virt, level);
    lemma_bits(0, virt);
    let f = new as int / PAGE_SIZE as int;
    fb.lemma_free_in_range(f);
    assert(new < 0x1_0000_0000);
    lemma_table_entry(new);
    let p2 = path.push(new);
    assert forall|k: int| 0 <= k <= level implies #[trigger] path[k] != new by {
        assert(!fb.free(path[k] as int / PAGE_SIZE as int));
    }
    if nf == level + 1 {
        assert(m0.entry(path[level], i) == s0.entry(path[level], i));
        assert(walk_table(s0, pml4, virt, level) == Some(path[level]));
    }
    assert forall|g: int| #[trigger] fa.free(g) implies f0.free(g) by {
        assert(fb.free(g));
    }
    assert forall|k: int| 0 <= k < level + 1 implies #[trigger] linked(m1, virt, p2, k) by {
        if k < level {
            assert(linked(m0, virt, path, k));
            assert(path[k] != path[level]);
            assert(path[k] != new);
        } else {
            assert(m1.entry(path[level], i) == new | PRESENT | WRITABLE | USER);
        }
    }
    assert forall|a: int, b: int| 0 <= a < b <= level + 1 implies #[trigger] p2[a] != #[trigger] p2[b] by {
        if b <= level {
            assert(path[a] != path[b]);
        }
    }
    assert forall|k: int| 0 <= k <= level + 1 implies !fa.free(#[trigger] p2[k] as int / PAGE_SIZE as int) by {
        if k <= level {
            assert(!fb.free(path[k] as int / PAGE_SIZE as int));
        }
    }
    assert forall|k: int| 0 <= k < nf implies #[trigger] walk_table(s0, pml4, virt, k) == Some(p2[k]) by {
        assert(walk_table(s0, pml4, virt, k) == Some(path[k]));
    }
    assert forall|k: int|
        nf <= k <= level + 1 implies #[trigger] p2[k] as int % PAGE_SIZE as int == 0 && f0.free(
        p2[k] as int / PAGE_SIZE as int,
    ) && p2[k] < 0x1_0000_0000 by {
        if k <= level {
            assert(p2[k] == path[k]);
        }
    }
    assert forall|k: int|
        nf <= k + 1 <= level + 1 implies m1.entry(#[trigger] p2[k], index_at(virt, k)) == p2[k + 1] | PRESENT
        | WRITABLE | USER by {
        if k < level {
            assert(path[k] != path[level]);
            assert(path[k] != new);
            assert(m0.entry(path[k], index_at(virt, k)) == path[k + 1] | PRESENT | WRITABLE | USER);
        }
    }
    assert forall|k: int, j: int|
        nf <= k <= level + 1 && 0 <= j < 512 && !(j == index_at(virt, k) && k < level + 1)
            implies #[trigger] m1.entry(p2[k], j) == 0 by {
        if k <= level {
            assert(p2[k] == path[k]);
            if k < level {
                assert(path[k] != path[level]);
            }
            assert(m0.entry(path[k], j) == 0);
        }
    }
    assert forall|t: u64, j: int|
        0 <= j < 512 && #[trigger] m1.entry(t, j) != s0.entry(t, j) implies (exists|k: int|
            0 <= k < level + 1 && #[trigger] p2[k] == t && j == index_at(virt, k)) || (exists|k: int|
            nf <= k <= level + 1 && #[trigger] p2[k] == t) by {
        if t == path[level] && j == i {
            assert(p2[level] == t);
        } else if t == new {
            assert(p2[level + 1] == t);
        } else {
            assert(m0.entry(t, j) != s0.entry(t, j));
            if exists|k: int| 0 <= k < level && #[trigger] path[k] == t && j == index_at(virt, k) {
                let k = choose|k: int| 0 <= k < level && #[trigger] path[k] == t && j == index_at(virt, k);
                assert(p2[k] == t);
            } else {
                let k = choose|k: int| nf <= k <= level && #[trigger] path[k] == t;
                assert(p2[k] == t);
            }
        }
    }
    assert forall|g: int| #[trigger] f0.free(g) && !fa.free(g) implies exists|k: int|
        nf <= k <= level + 1 && #[trigger] p2[k] as int == g * PAGE_SIZE as int by {
        if g == f {
            assert(p2[level + 1] as int == g * PAGE_SIZE as int);
        } else {
            let k = choose|k: int| nf <= k <= level && #[trigger] path[k] as int == g * PAGE_SIZE as int;
            assert(p2[k] == path[k]);
        }
    }
}

proof fn lemma_leaf_exit(
    s0: PageTables,
    f0: FrameAllocator,
    m0: PageTables,
    m1: PageTables,
    fr: FrameAllocator,
    pml4: u64,
    virt: u64,
    path: Seq<u64>,
    nf: int,
    leaf: u64,
)
    requires
        path_ok(s0, f0, pml4, virt),
        walk_inv(s0, f0, m0, fr, pml4, virt, path, nf, 3),
        is_present(leaf),
        forall|t: u64, j: int|
            0 <= j < 512 ==> #[trigger] m1.entry(t, j) == if t == path[3] && j == index_at(virt, 3) {
                leaf
            } else {
                m0.entry(t, j)
            },
    ensures
        map_effect(s0, m1, f0, fr, pml4, virt, leaf, true),
        translate(m1, pml4, virt) == Some(((leaf & ADDRESS_MASK) + (virt & 0xFFF)) as u64),
{
    lemma_bits(0, virt);
    assert forall|k: int| 0 <= k < 3 implies #[trigger] linked(m1, virt, path, k) by {
        assert(linked(m0, virt, path, k));
        assert(path[k] != path[3]);
    }
    assert forall|k: int|
        nf <= k + 1 <= 3 implies m1.entry(#[trigger] path[k], index_at(virt, k)) == path[k + 1] | PRESENT
        | WRITABLE | USER by {
        assert(path[k] != path[3]);
    }
    assert forall|k: int|
        0 <= k < 3 && k + 1 < nf implies m1.entry(#[trigger] path[k], index_at(virt, k)) == s0.entry(
        path[k],
        index_at(virt, k),
    ) by {
        assert(path[k] != path[3]);
    }
    assert forall|k: int, j: int|
        nf <= k <= 3 && 0 <= j < 512 && !(j == index_at(virt, k) && (k < 3 || true))
            implies #[trigger] m1.entry(path[k], j) == 0 by {
        assert(m0.entry(path[k], j) == 0);
    }
    assert forall|t: u64, j: int|
        0 <= j < 512 && #[trigger] m1.entry(t, j) != s0.entry(t, j) implies (exists|k: int|
            0 <= k <= 3 && (k < 3 || true) && #[trigger] path[k] == t && j == index_at(virt, k))
            || (exists|k: int| nf <= k <= 3 && #[trigger] path[k] == t) by {
        if t == path[3] && j == index_at(virt, 3) {
            assert(path[3] == t);
        } else {
            assert(m0.entry(t, j) != s0.entry(t, j));
            if exists|k: int| 0 <= k < 3 && #[trigger] path[k] == t && j == index_at(virt, k) {
                let k = choose|k: int| 0 <= k < 3 && #[trigger] path[k] == t && j == index_at(virt, k);
                assert(path[k] == t);
            } else {
                let k = choose|k: int| nf <= k <= 3 && #[trigger] path[k] == t;
                assert(path[k] == t);
            }
        }
    }
    lemma_map_exit(s0, m1, f0, fr, pml4, virt, leaf, true, path, nf, 3);
    lemma_links_translate(m1, pml4, virt, path);
}

proof fn lemma_out_of_frames_exit(
    s0: PageTables,
    f0: FrameAllocator,
    m: PageTables,
    fb: FrameAllocator,
    fa: FrameAllocator,
    pml4: u64,
    virt: u64,
    path: Seq<u64>,
    nf: int,
    level: int,
    leaf: u64,
)
    requires
        walk_inv(s0, f0, m, fb, pml4, virt, path, nf, level),
        !is_present(m.entry(path[level], index_at(virt, level))),
        forall|g: int| #[trigger] fa.free(g) == fb.free(g),
    ensures
        map_effect(s0, m, f0, fa, pml4, virt, leaf, false),
{
    lemma_bits(0, virt);
    assert forall|f: int| #[trigger] f0.free(f) && !fa.free(f) implies exists|k: int|
        nf <= k <= level && #[trigger] path[k] as int == f * PAGE_SIZE as int by {
        assert(!fb.free(f));
    }
    assert forall|k: int| 0 <= k <= level implies !fa.free(#[trigger] path[k] as int / PAGE_SIZE as int) by {
        assert(!fb.free(path[k] as int / PAGE_SIZE as int));
    }
    lemma_map_exit(s0, m, f0, fa, pml4, virt, leaf, false, path, nf, level);
}

/// The walks for `a` and `b` meet only on a common start: a table on both
/// stands at the same level of each, reached through the same indices.
pub open spec fn separate_walks(m: PageTables, pml4: u64, a: u64, b: u64) -> bool {
    forall|l1: int, l2: int|
        0 <= l1 <= 3 && 0 <= l2 <= 3 && (#[trigger] walk_table(m, pml4, a, l1)) is Some && walk_table(
            m,
            pml4,
            a,
            l1,
        ) == #[trigger] walk_table(m, pml4, b, l2) ==> l1 == l2 && forall|k: int|
            0 <= k < l1 ==> index_at(a, k) == index_at(b, k)
}

/// No table on the walk for `v` is a free frame of `frames`.
pub open spec fn walk_in_use(m: PageTables, frames: FrameAllocator, pml4: u64, v: u64) -> bool {
    forall|l: int|
        0 <= l <= 3 ==> match #[trigger] walk_table(m, pml4, v, l) {
            Some(t) => !frames.free(t as int / PAGE_SIZE as int),
            None => true,
        }
}

/// `a` and `b` lie on different pages of the walk: some table index differs.
pub open spec fn other_page(a: u64, b: u64) -> bool {
    ||| index_at(a, 0) != index_at(b, 0)
    ||| index_at(a, 1) != index_at(b, 1)
    ||| index_at(a, 2) != index_at(b, 2)
    ||| index_at(a, 3) != index_at(b, 3)
}

proof fn lemma_other_entry_kept(
    old: PageTables,
    new: PageTables,
    f0: FrameAllocator,
    f1: FrameAllocator,
    pml4: u64,
    virt: u64,
    leaf: u64,
    ok: bool,
    other: u64,
    l: int,
)
    requires
        path_ok(old, f0, pml4, virt),
        map_effect(old, new, f0, f1, pml4, virt, leaf, ok),
        other_page(virt, other),
        separate_walks(old, pml4, virt, other),
        walk_in_use(old, f0, pml4, other),
        0 <= l <= 3,
        walk_table(old, pml4, other, l) is Some,
        is_present(old.entry(walk_table(old, pml4, other, l)->0, index_at(other, l))),
    ensures
        new.entry(walk_table(old, pml4, other, l)->0, index_at(other, l)) == old.entry(
            walk_table(old, pml4, other, l)->0,
            index_at(other, l),
        ),
{
    lemma_bits(0, other);
    let t = walk_table(old, pml4, other, l)->0;
    let j = index_at(other, l);
    assert(!f0.free(t as int / PAGE_SIZE as int));
    assert(!taken(f0, f1, t));
    if on_walk(new, pml4, virt, t, j) {
        let lv = if walk_table(new, pml4, virt, 0) == Some(t) && j == index_at(virt, 0) {
            0int
        } else if walk_table(new, pml4, virt, 1) == Some(t) && j == index_at(virt, 1) {
            1int
        } else if walk_table(new, pml4, virt, 2) == Some(t) && j == index_at(virt, 2) {
            2int
        } else {
            3int
        };
        assert(walk_table(new, pml4, virt, lv) == Some(t) && j == index_at(virt, lv));
        assert(walk_table(old, pml4, virt, 0) == Some(pml4));
        if walk_table(old, pml4, virt, lv) is Some {
            assert(walk_table(old, pml4, virt, lv) == Some(t));
            assert(lv == l);
            assert(forall|k: int| 0 <= k < l ==> index_at(virt, k) == index_at(other, k));
            if l < 3 {
                assert(walk_table(old, pml4, virt, l + 1) is Some);
            }
        } else {
            assert(taken(f0, f1, t));
        }
    }
}

/// Where every entry that the translation of `other` reads through `old`
/// reads the same through `new`, the translation is the same.
proof fn lemma_translate_kept(old: PageTables, new: PageTables, pml4: u64, other: u64)
    requires
        translate(old, pml4, other) is Some,
        forall|l: int|
            0 <= l <= 3 && (#[trigger] walk_table(old, pml4, other, l)) is Some && is_present(
                old.entry(walk_table(old, pml4, other, l)->0, index_at(other, l)),
            ) ==> new.entry(walk_table(old, pml4, other, l)->0, index_at(other, l)) == old.entry(
                walk_table(old, pml4, other, l)->0,
                index_at(other, l),
            ),
    ensures
        translate(new, pml4, other) == translate(old, pml4, other),
{
    let t0 = pml4;
    assert(walk_table(old, pml4, other, 0) == Some(t0));
    let e0 = old.entry(t0, index_at(other, 0));
    assert(is_present(e0));
    assert(new.entry(t0, index_at(other, 0)) == e0);
    let t1 = e0 & ADDRESS_MASK;
    assert(walk_table(old, pml4, other, 1) == Some(t1));
    let e1 = old.entry(t1, index_at(other, 1));
    assert(translate_from(old, t1, other, 1) is Some);
    assert(is_present(e1));
    assert(new.entry(t1, index_at(other, 1)) == e1);
    if e1 & HUGE_PAGE != 0 {
        assert(translate_from(new, t1, other, 1) == translate_from(old, t1, other, 1));
        return;
    }
    let t2 = e1 & ADDRESS_MASK;
    assert(walk_table(old, pml4, other, 2) == Some(t2));
    let e2 = old.entry(t2, index_at(other, 2));
    assert(translate_from(old, t2, other, 2) is Some);
    assert(is_present(e2));
    assert(new.entry(t2, index_at(other, 2)) == e2);
    if e2 & HUGE_PAGE != 0 {
        assert(translate_from(new, t2, other, 2) == translate_from(old, t2, other, 2));
        return;
    }
    let t3 = e2 & ADDRESS_MASK;
    assert(walk_table(old, pml4, other, 3) == Some(t3));
    assert(translate_from(old, t3, other, 3) is Some);
    assert(is_present(old.entry(t3, index_at(other, 3))));
    assert(new.entry(t3, index_at(other, 3)) == old.entry(t3, index_at(other, 3)));
    assert(translate_from(new, t3, other, 3) == translate_from(old, t3, other, 3));
    assert(translate_from(new, t2, other, 2) == translate_from(old, t2, other, 2));
    assert(translate_from(new, t1, other, 1) == translate_from(old, t1, other, 1));
}

/// Mapping a page leaves every other mapped page where it was: an address
/// on another page, whose walk meets the mapped one's only on a common
/// start and crosses no free frame, translates as before.
pub proof fn map_keeps_other_pages(
    old: PageTables,
    new: PageTables,
    f0: FrameAllocator,
    f1: FrameAllocator,
    pml4: u64,
    virt: u64,
    leaf: u64,
    ok: bool,
    other: u64,
)
    requires
        path_ok(old, f0, pml4, virt),
        map_effect(old, new, f0, f1, pml4, virt, leaf, ok),
        translate(old, pml4, other) is Some,
        other_page(virt, other),
        separate_walks(old, pml4, virt, other),
        walk_in_use(old, f0, pml4, other),
    ensures
        translate(new, pml4, other) == translate(old, pml4, other),
{
    assert forall|l: int|
        0 <= l <= 3 && (#[trigger] walk_table(old, pml4, other, l)) is Some && is_present(
            old.entry(walk_table(old, pml4, other, l)->0, index_at(other, l)),
        ) implies new.entry(walk_table(old, pml4, other, l)->0, index_at(other, l)) == old.entry(
        walk_table(old, pml4, other, l)->0,
        index_at(other, l),
    ) by {
        lemma_other_entry_kept(old, new, f0, f1, pml4, virt, leaf, ok, other, l);
    }
    lemma_translate_kept(old, new, pml4, other);
}

/// Unmapping a page leaves every other mapped page where it was: an
/// address on another page, whose walk meets the unmapped one's only on a
/// common start, translates as before.
pub proof fn unmap_keeps_other_pages(old: PageTables, new: PageTables, pml4: u64, virt: u64, other: u64)
    requires
        unmapped(old, new, pml4, virt),
        translate(old, pml4, other) is Some,
        other_page(virt, other),
        separate_walks(old, pml4, virt, other),
    ensures
        translate(new, pml4, other) == translate(old, pml4, other),
{
    lemma_bits(0, other);
    assert forall|l: int|
        0 <= l <= 3 && (#[trigger] walk_table(old, pml4, other, l)) is Some && is_present(
            old.entry(walk_table(old, pml4, other, l)->0, index_at(other, l)),
        ) implies new.entry(walk_table(old, pml4, other, l)->0, index_at(other, l)) == old.entry(
        walk_table(old, pml4, other, l)->0,
        index_at(other, l),
    ) by {
        let t = walk_table(old, pml4, other, l)->0;
        if walk_table(old, pml4, virt, 3) == Some(t) && index_at(other, l) == index_at(virt, 3) {
            assert(l == 3);
            assert(forall|k: int| 0 <= k < 3 ==> index_at(virt, k) == index_at(other, k));
        }
    }
    lemma_translate_kept(old, new, pml4, other);
}

/// The page tables in physical memory, each 4 KiB table of 512 entries
/// under its physical address; memory never written reads as zero.
pub struct PageTables {
    tables: HashMap<u64, [u64; 512]>,
}

impl PageTables {
    /// Entry `i` of the table at physical address `table`.
    pub closed spec fn entry(&self, table: u64, i: int) -> u64 {
        if self.tables@.contains_key(table) {
            self.tables@[table]@[i]
        } else {
            0
        }
    }

    /// No page tables written yet: every entry reads as zero.
    pub fn new() -> (r: PageTables)
        ensures
            forall|t: u64, i: int| 0 <= i < 512 ==> #[trigger] r.entry(t, i) == 0,
    {
        PageTables { tables: HashMap::new() }
    }

    /// Entry `i` of the table at `table`.
    pub fn read(&self, table: u64, i: usize) -> (r: u64)
        requires
            i < ENTRIES,
        ensures
            r == self.entry(table, i as int),
    {
        broadcast use vstd::std_specs::hash::group_hash_axioms;
        match self.tables.get(&table) {
            Some(t) => t[i],
            None => 0,
        }
    }

    /// Set entry `i` of the table at `table` to `value`.
    pub fn write(&mut self, table: u64, i: usize, value: u64)
        requires
            i < ENTRIES,
        ensures
            forall|t: u64, j: int|
                0 <= j < 512 ==> #[trigger] final(self).entry(t, j) == if t == table && j == i {
                    value
                } else {
                    old(self).entry(t, j)
                },
    {
        broadcast use vstd::std_specs::hash::group_hash_axioms;
        let mut t: [u64; 512] = match self.tables.get(&table) {
            Some(t) => *t,
            None => [0u64; 512],
        };
        t[i] = value;
        self.tables.insert(table, t);
    }

    /// Clear every entry of the table at `table`.
    pub fn zero_table(&mut self, table: u64)
        ensures
            forall|t: u64, j: int|
                0 <= j < 512 ==> #[trigger] final(self).entry(t, j) == if t == table {
                    0
                } else {
                    old(self).entry(t, j)
                },
    {
        broadcast use vstd::std_specs::hash::group_hash_axioms;
        self.tables.insert(table, [0u64; 512]);
    }

    /// The physical address `virt` maps to in the hierarchy rooted at
    /// `pml4`, if any.
    pub fn get_mapped_frame(&self, pml4: u64, virt: u64) -> (r: Option<u64>)
        ensures
            r == translate(*self, pml4, virt),
    {
        let idx = indices(virt);
        let mut table = pml4;
        let mut level: usize = 0;
        while level < 4
            invariant
                level <= 4,
                translate(*self, pml4, virt) == translate_from(*self, table, virt, level as int),
                forall|l: int| 0 <= l < 4 ==> #[trigger] idx@[l] == index_at(virt, l),
                forall|l: int| 0 <= l < 4 ==> idx@[l] < ENTRIES,
            decreases 4 - level,
        {
            let e = self.read(table, idx[level]);
            proof {
                lemma_bits(e, virt);
            }
            match lookup_step(level, e, virt) {
                LookupStep::Unmapped => return None,
                LookupStep::Found(a) => return Some(a),
                LookupStep::Descend(next) => {
                    table = next;
                },
            }
            level = level + 1;
        }
        None
    }

    /// Clear the page table entry for `virt` in the hierarchy rooted at
    /// `pml4`; nothing happens when a directory entry on the way is absent.
    pub fn unmap_page(&mut self, pml4: u64, virt: u64)
        ensures
            unmapped(*old(self), *final(self), pml4, virt),
            no_huge_page(*old(self), pml4, virt) ==> translate(*final(self), pml4, virt) is None,
    {
        let idx = indices(virt);
        let mut table = pml4;
        let mut level: usize = 0;
        while level < 3
            invariant
                level <= 3,
                *self == *old(self),
                walk_table(*self, pml4, virt, level as int) == Some(table),
                forall|l: int| 0 <= l < 4 ==> #[trigger] idx@[l] == index_at(virt, l),
                forall|l: int| 0 <= l < 4 ==> idx@[l] < ENTRIES,
            decreases 3 - level,
        {
            let e = self.read(table, idx[level]);
            match next_table(e) {
                Some(next) => {
                    table = next;
                },
                None => {
                    proof {
                        lemma_walk_absent(*self, pml4, virt, level as int + 1);
                        if no_huge_page(*old(self), pml4, virt) {
                            lemma_cleared_translate(*old(self), *self, pml4, virt);
                        }
                    }
                    return;
                },
            }
            level = level + 1;
        }
        self.write(table, idx[3], 0);
        proof {
            if no_huge_page(*old(self), pml4, virt) {
                lemma_cleared_translate(*old(self), *self, pml4, virt);
            }
        }
    }

    /// Map the page at `virt` to the frame at `phys` with `flags` in the
    /// hierarchy rooted at `pml4`, taking a zeroed frame from `frames` for
    /// each table the walk lacks; false when no frame was left for one.
    pub fn map_page_in_table(
        &mut self,
        frames: &mut FrameAllocator,
        pml4: u64,
        virt: u64,
        phys: u64,
        flags: u64,
    ) -> (ok: bool)
        requires
            old(frames).wf(),
        ensures
            final(frames).wf(),
            final(frames).total() == old(frames).total(),
            forall|f: int| #[trigger] final(frames).free(f) ==> old(frames).free(f),
            !ok ==> forall|f: int| !#[trigger] final(frames).free(f),
            path_ok(*old(self), *old(frames), pml4, virt) ==> map_effect(
                *old(self),
                *final(self),
                *old(frames),
                *final(frames),
                pml4,
                virt,
                phys | flags | PRESENT,
                ok,
            ),
            path_ok(*old(self), *old(frames), pml4, virt) && ok ==> translate(*final(self), pml4, virt)
                == Some((((phys | flags | PRESENT) & ADDRESS_MASK) + (virt & 0xFFF)) as u64),
            path_ok(*old(self), *old(frames), pml4, virt) && ok && phys % 4096 == 0 && phys
                <= ADDRESS_MASK && flags & ADDRESS_MASK == 0 ==> translate(*final(self), pml4, virt)
                == Some((phys + (virt & 0xFFF)) as u64),
    {
        let ghost s0 = *self;
        let ghost f0 = *frames;
        let ghost h = path_ok(s0, f0, pml4, virt);
        let idx = indices(virt);
        let mut table = pml4;
        let mut level: usize = 0;
        let ghost mut path: Seq<u64> = seq![pml4];
        let ghost mut nf: int = 1;
        assert(walk_table(s0, pml4, virt, 0) == Some(pml4));
        while level < 4
            invariant
                level <= 3,
                s0 == *old(self),
                f0 == *old(frames),
                frames.wf(),
                frames.total() == f0.total(),
                forall|f: int| #[trigger] frames.free(f) ==> f0.free(f),
                forall|l: int| 0 <= l < 4 ==> #[trigger] idx@[l] == index_at(virt, l),
                forall|l: int| 0 <= l < 4 ==> idx@[l] < ENTRIES,
                path.len() == level + 1,
                path[level as int] == table,
                h == path_ok(s0, f0, pml4, virt),
                h ==> walk_inv(s0, f0, *self, *frames, pml4, virt, path, nf, level as int),
            decreases 4 - level,
        {
            let e = self.read(table, idx[level]);
            let ghost fb = *frames;
            let ghost m0 = *self;
            let step = map_step(frames, level, e, phys, flags);
            match step {
                MapStep::Descend(next) => {
                    table = next;
                    proof {
                        if h {
                            lemma_step_descend(s0, f0, m0, fb, pml4, virt, path, nf, level as int, next);
                        }
                        path = path.push(next);
                        nf = nf + 1;
                    }
                },
                MapStep::NewTable { table: new, entry } => {
                    self.zero_table(new);
                    self.write(table, idx[level], entry);
                    table = new;
                    proof {
                        if h {
                            lemma_step_new_table(
                                s0,
                                f0,
                                m0,
                                *self,
                                fb,
                                *frames,
                                pml4,
                                virt,
                                path,
                                nf,
                                level as int,
                                new,
                            );
                        }
                        path = path.push(new);
                    }
                },
                MapStep::Leaf(entry) => {
                    self.write(table, idx[level], entry);
                    proof {
                        if h {
                            lemma_leaf_address(phys, flags);
                            lemma_leaf_exit(s0, f0, m0, *self, *frames, pml4, virt, path, nf, entry);
                        }
                    }
                    return true;
                },
                MapStep::OutOfFrames => {
                    proof {
                        if h {
                            lemma_out_of_frames_exit(
                                s0,
                                f0,
                                *self,
                                fb,
                                *frames,
                                pml4,
                                virt,
                                path,
                                nf,
                                level as int,
                                phys | flags | PRESENT,
                            );
                        }
                    }
                    return false;
                },
            }
            level = level + 1;
        }
        false
    }

    /// Map the page at `virt` to the frame at `phys` with `flags` in the
    /// active hierarchy, the one rooted at `active_pml4`.
    pub fn map_page(
        &mut self,
        frames: &mut FrameAllocator,
        active_pml4: u64,
        virt: u64,
        phys: u64,
        flags: u64,
    ) -> (ok: bool)
        requires
            old(frames).wf(),
        ensures
            final(frames).wf(),
            final(frames).total() == old(frames).total(),
            forall|f: int| #[trigger] final(frames).free(f) ==> old(frames).free(f),
            !ok ==> forall|f: int| !#[trigger] final(frames).free(f),
            path_ok(*old(self), *old(frames), active_pml4, virt) ==> map_effect(
                *old(self),
                *final(self),
                *old(frames),
                *final(frames),
                active_pml4,
                virt,
                phys | flags | PRESENT,
                ok,
            ),
            path_ok(*old(self), *old(frames), active_pml4, virt) && ok && phys % 4096 == 0 && phys
                <= ADDRESS_MASK && flags & ADDRESS_MASK == 0 ==> translate(*final(self), active_pml4, virt)
                == Some((phys + (virt & 0xFFF)) as u64),
    {
        self.map_page_in_table(frames, active_pml4, virt, phys, flags)
    }
}

} // verus!
