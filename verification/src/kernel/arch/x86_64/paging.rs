use vstd::prelude::*;
use crate::kernel::memory::frame_allocator::BootInfoFrameAllocator;

verus! {

/// Bits 12..51 of an entry: the physical address it points to.
pub const ADDRESS_MASK: u64 = 0x000f_ffff_ffff_f000;

/// Number of entries in one page table.
pub const ENTRIES_PER_TABLE: usize = 512;

/// Flags given to an intermediate entry created on the way to a mapping.
pub const TABLE_FLAGS: u64 = 7;

/// One 64-bit page-table entry.
#[derive(Clone, Copy, Debug)]
pub struct PageTableEntry(pub u64);

/// The physical address held in an entry.
pub open spec fn entry_address(e: u64) -> u64 {
    e & ADDRESS_MASK
}

/// The entry that maps `frame` with `flags`.
pub open spec fn make_entry(frame: u64, flags: u64) -> u64 {
    (frame & ADDRESS_MASK) | flags
}

impl PageTableEntry {
    pub const PRESENT: u64 = 1 << 0;
    pub const WRITABLE: u64 = 1 << 1;
    pub const USER_ACCESSIBLE: u64 = 1 << 2;

    pub fn is_unused(&self) -> (r: bool)
        ensures
            r == (self.0 == 0),
    {
        self.0 == 0
    }

    pub fn set_frame(&mut self, frame_phys: u64, flags: u64)
        ensures
            final(self).0 == make_entry(frame_phys, flags),
    {
        self.0 = (frame_phys & 0x000f_ffff_ffff_f000) | flags;
    }

    pub fn frame_address(&self) -> (r: u64)
        ensures
            r == entry_address(self.0),
    {
        self.0 & 0x000f_ffff_ffff_f000
    }
}

/// A page table: 512 entries, 4 KiB.
#[derive(Clone, Copy)]
pub struct PageTable {
    pub entries: [PageTableEntry; 512],
}

/// The raw values of a table's entries.
pub open spec fn table_view(t: PageTable) -> Seq<u64> {
    t.entries@.map_values(|e: PageTableEntry| e.0)
}

/// A table whose entries are all zero.
pub open spec fn zero_table() -> Seq<u64> {
    Seq::new(512, |i: int| 0u64)
}

impl PageTable {
    pub fn zero(&mut self)
        ensures
            table_view(*final(self)) == zero_table(),
    {
        let mut i: usize = 0;
        while i < 512
            invariant
                0 <= i <= 512,
                forall|j: int| 0 <= j < i ==> (#[trigger] self.entries@[j]).0 == 0,
            decreases 512 - i,
        {
            self.entries[i] = PageTableEntry(0);
            i += 1;
        }
        assert(table_view(*self) =~= zero_table());
    }
}

/// A page table stored in a physical frame.
#[derive(Clone, Copy)]
pub struct TableFrame {
    pub phys: u64,
    pub table: PageTable,
}

/// The page tables held in physical memory, by the address of their frame.
pub struct PageTableMemory {
    frames: Vec<TableFrame>,
    tables: Ghost<Map<u64, Seq<u64>>>,
}

impl View for PageTableMemory {
    type V = Map<u64, Seq<u64>>;

    closed spec fn view(&self) -> Map<u64, Seq<u64>> {
        self.tables@
    }
}

impl PageTableMemory {
    pub closed spec fn wf(&self) -> bool {
        &&& forall|i: int|
            0 <= i < self.frames@.len() ==> {
                &&& self.tables@.contains_key(#[trigger] self.frames@[i].phys)
                &&& self.tables@[self.frames@[i].phys] == table_view(self.frames@[i].table)
            }
        &&& forall|a: u64|
            #[trigger] self.tables@.contains_key(a) ==> exists|i: int|
                0 <= i < self.frames@.len() && #[trigger] self.frames@[i].phys == a
        &&& forall|i: int, j: int|
            0 <= i < self.frames@.len() && 0 <= j < self.frames@.len() && i != j
                ==> #[trigger] self.frames@[i].phys != #[trigger] self.frames@[j].phys
        &&& forall|a: u64| #[trigger] self.tables@.contains_key(a) ==> self.tables@[a].len() == 512
    }

    /// No page table anywhere.
    pub fn new() -> (m: Self)
        ensures
            m.wf(),
            m@ == Map::<u64, Seq<u64>>::empty(),
    {
        Self { frames: Vec::new(), tables: Ghost(Map::empty()) }
    }

    fn find(&self, phys: u64) -> (r: Option<usize>)
        requires
            self.wf(),
        ensures
            match r {
                Some(i) => i < self.frames@.len() && self.frames@[i as int].phys == phys,
                None => !self@.contains_key(phys),
            },
    {
        let mut i: usize = 0;
        while i < self.frames.len()
            invariant
                self.wf(),
                0 <= i <= self.frames@.len(),
                forall|j: int| 0 <= j < i ==> (#[trigger] self.frames@[j]).phys != phys,
            decreases self.frames@.len() - i,
        {
            if self.frames[i].phys == phys {
                return Some(i);
            }
            i += 1;
        }
        None
    }

    /// Places `table` in the frame at `phys`, replacing what was there.
    pub fn insert_table(&mut self, phys: u64, table: PageTable)
        requires
            old(self).wf(),
        ensures
            final(self).wf(),
            final(self)@ == old(self)@.insert(phys, table_view(table)),
    {
        let ghost before = self.frames@;
        match self.find(phys) {
            Some(i) => {
                self.frames.set(i, TableFrame { phys, table });
                proof {
                    self.tables@ = self.tables@.insert(phys, table_view(table));
                    assert forall|a: u64| #[trigger] self.tables@.contains_key(a) implies exists|j: int|
                        0 <= j < self.frames@.len() && #[trigger] self.frames@[j].phys == a by {
                        if a != phys {
                            let j = choose|j: int| 0 <= j < before.len() && #[trigger] before[j].phys == a;
                            assert(self.frames@[j].phys == a);
                        } else {
                            assert(self.frames@[i as int].phys == a);
                        }
                    }
                }
            },
            None => {
                self.frames.push(TableFrame { phys, table });
                proof {
                    self.tables@ = self.tables@.insert(phys, table_view(table));
                    let last = self.frames@.len() - 1;
                    assert(self.frames@[last].phys == phys);
                    assert forall|a: u64| #[trigger] self.tables@.contains_key(a) implies exists|j: int|
                        0 <= j < self.frames@.len() && #[trigger] self.frames@[j].phys == a by {
                        if a != phys {
                            let j = choose|j: int| 0 <= j < before.len() && #[trigger] before[j].phys == a;
                            assert(self.frames@[j].phys == a);
                        } else {
                            assert(self.frames@[last].phys == a);
                        }
                    }
                }
            },
        }
    }

    /// The table in the frame at `phys`, if one is held there.
    pub fn table(&self, phys: u64) -> (r: Option<&PageTable>)
        requires
            self.wf(),
        ensures
            r.is_some() == self@.contains_key(phys),
            r.is_some() ==> table_view(*r->Some_0) == self@[phys],
    {
        match self.find(phys) {
            Some(i) => Some(&self.frames[i].table),
            None => None,
        }
    }

    /// What the frame at `phys` holds: the table stored there, or zeros.
    fn frame_contents(&self, phys: u64) -> (t: PageTable)
        requires
            self.wf(),
        ensures
            self@.contains_key(phys) ==> table_view(t) == self@[phys],
    {
        match self.find(phys) {
            Some(i) => self.frames[i].table,
            None => PageTable { entries: [PageTableEntry(0); 512] },
        }
    }

    fn entry(&self, phys: u64, idx: usize) -> (e: PageTableEntry)
        requires
            self.wf(),
            self@.contains_key(phys),
            idx < ENTRIES_PER_TABLE,
        ensures
            e.0 == self@[phys][idx as int],
    {
        let i = self.find(phys).unwrap();
        self.frames[i].table.entries[idx]
    }

    fn set_entry(&mut self, phys: u64, idx: usize, e: PageTableEntry)
        requires
            old(self).wf(),
            old(self)@.contains_key(phys),
            idx < ENTRIES_PER_TABLE,
        ensures
            final(self).wf(),
            final(self)@ == old(self)@.insert(phys, old(self)@[phys].update(idx as int, e.0)),
    {
        let i = self.find(phys).unwrap();
        let mut frame = self.frames[i];
        frame.table.entries[idx] = e;
        proof {
            assert(table_view(frame.table) =~= self@[phys].update(idx as int, e.0));
        }
        self.insert_table(phys, frame.table);
    }
}

/// Index into the table at the level whose entries each cover `1 << shift` bytes.
pub open spec fn table_index(va: u64, shift: u64) -> int {
    ((va >> shift) & 0x1ff) as int
}

/// One level of the walk that `map_page` performs: follow entry `idx` of the table at
/// `table`, or, when that entry is unused, take the next frame of `frames`, clear it
/// and link it there. Gives the memory and the frames left afterwards, and the
/// address of the next table (`None` when no frame was left).
pub open spec fn next_table_step(mem: Map<u64, Seq<u64>>, frames: Seq<u64>, table: u64, idx: int) -> (
    Map<u64, Seq<u64>>,
    Seq<u64>,
    Option<u64>,
) {
    let e = mem[table][idx];
    if e != 0 {
        (mem, frames, Some(entry_address(e)))
    } else if frames.len() == 0 {
        (mem, frames, None)
    } else {
        let f = frames[0];
        let cleared = mem.insert(f, zero_table());
        (
            cleared.insert(table, cleared[table].update(idx, make_entry(f, TABLE_FLAGS))),
            frames.drop_first(),
            Some(f),
        )
    }
}

/// The walk can read every table it reaches: the top-level table is held in memory,
/// and so is every table that an existing entry on the way points to.
pub open spec fn walk_readable(mem: Map<u64, Seq<u64>>, frames: Seq<u64>, l4: u64, va: u64) -> bool {
    let (m3, f3, o3) = next_table_step(mem, frames, l4, table_index(va, 39));
    let (m2, f2, o2) = next_table_step(m3, f3, o3->Some_0, table_index(va, 30));
    let (m1, f1, o1) = next_table_step(m2, f2, o2->Some_0, table_index(va, 21));
    &&& mem.contains_key(l4)
    &&& o3 is Some ==> m3.contains_key(o3->Some_0)
    &&& o3 is Some && o2 is Some ==> m2.contains_key(o2->Some_0)
    &&& o3 is Some && o2 is Some && o1 is Some ==> m1.contains_key(o1->Some_0)
}

/// What `map_page` leaves behind: the memory, the frames not used, and whether the
/// mapping was made. The leaf entry is written only when all four levels were reached.
pub open spec fn map_page_result(
    mem: Map<u64, Seq<u64>>,
    frames: Seq<u64>,
    l4: u64,
    va: u64,
    pa: u64,
    flags: u64,
) -> (Map<u64, Seq<u64>>, Seq<u64>, bool) {
    let (m3, f3, o3) = next_table_step(mem, frames, l4, table_index(va, 39));
    let (m2, f2, o2) = next_table_step(m3, f3, o3->Some_0, table_index(va, 30));
    let (m1, f1, o1) = next_table_step(m2, f2, o2->Some_0, table_index(va, 21));
    if o3 is None {
        (m3, f3, false)
    } else if o2 is None {
        (m2, f2, false)
    } else if o1 is None {
        (m1, f1, false)
    } else {
        let t1 = o1->Some_0;
        (
            m1.insert(t1, m1[t1].update(table_index(va, 12), make_entry(pa, flags | 1))),
            f1,
            true,
        )
    }
}

/// Owner of a four-level page-table hierarchy.
pub struct PageTableManager {
    pub l4_table_phys: u64,
}

impl PageTableManager {
    pub fn new(l4_table_phys: u64) -> (m: Self)
        ensures
            m.l4_table_phys == l4_table_phys,
    {
        Self { l4_table_phys }
    }

    /// Maps the 4 KiB virtual page at `virt_addr` to the frame at `phys_addr`, creating
    /// the intermediate tables it lacks from `allocator`'s frames.
    pub fn map_page(
        &mut self,
        virt_addr: u64,
        phys_addr: u64,
        flags: u64,
        allocator: &mut BootInfoFrameAllocator,
        memory: &mut PageTableMemory,
    ) -> (r: Result<(), &'static str>)
        requires
            old(allocator).wf(),
            old(memory).wf(),
            walk_readable(old(memory)@, old(allocator).remaining(), old(self).l4_table_phys, virt_addr),
        ensures
            final(allocator).wf(),
            final(memory).wf(),
            final(self).l4_table_phys == old(self).l4_table_phys,
            final(allocator).memory_map() == old(allocator).memory_map(),
            ({
                let (m, f, ok) = map_page_result(
                    old(memory)@,
                    old(allocator).remaining(),
                    old(self).l4_table_phys,
                    virt_addr,
                    phys_addr,
                    flags,
                );
                &&& final(memory)@ == m
                &&& final(allocator).remaining() == f
                &&& r.is_ok() == ok
            }),
            r.is_err() ==> r->Err_0@ == "Out of physical memory for page table"@,
    {
        let l4_idx = ((virt_addr >> 39) & 0x1ff) as usize;
        let l3_idx = ((virt_addr >> 30) & 0x1ff) as usize;
        let l2_idx = ((virt_addr >> 21) & 0x1ff) as usize;
        let l1_idx = ((virt_addr >> 12) & 0x1ff) as usize;
        proof {
            assert((virt_addr >> 39u64) & 0x1ff < 512) by (bit_vector);
            assert((virt_addr >> 30u64) & 0x1ff < 512) by (bit_vector);
            assert((virt_addr >> 21u64) & 0x1ff < 512) by (bit_vector);
            assert((virt_addr >> 12u64) & 0x1ff < 512) by (bit_vector);
            assert(1u64 << 0u64 == 1u64) by (bit_vector);
        }
        let l3_phys = match Self::get_or_create_next_table(memory, self.l4_table_phys, l4_idx, allocator) {
            Ok(p) => p,
            Err(e) => return Err(e),
        };
        let l2_phys = match Self::get_or_create_next_table(memory, l3_phys, l3_idx, allocator) {
            Ok(p) => p,
            Err(e) => return Err(e),
        };
        let l1_phys = match Self::get_or_create_next_table(memory, l2_phys, l2_idx, allocator) {
            Ok(p) => p,
            Err(e) => return Err(e),
        };
        let mut leaf = memory.entry(l1_phys, l1_idx);
        leaf.set_frame(phys_addr, flags | PageTableEntry::PRESENT);
        memory.set_entry(l1_phys, l1_idx, leaf);
        Ok(())
    }

    /// Follows entry `idx` of the table at `table_phys`, creating and linking a cleared
    /// table there first when the entry is unused.
    fn get_or_create_next_table(
        memory: &mut PageTableMemory,
        table_phys: u64,
        idx: usize,
        allocator: &mut BootInfoFrameAllocator,
    ) -> (r: Result<u64, &'static str>)
        requires
            old(allocator).wf(),
            old(memory).wf(),
            old(memory)@.contains_key(table_phys),
            idx < ENTRIES_PER_TABLE,
        ensures
            final(allocator).wf(),
            final(memory).wf(),
            final(allocator).memory_map() == old(allocator).memory_map(),
            ({
                let (m, f, next) = next_table_step(
                    old(memory)@,
                    old(allocator).remaining(),
                    table_phys,
                    idx as int,
                );
                &&& final(memory)@ == m
                &&& final(allocator).remaining() == f
                &&& match r {
                    Ok(p) => next == Some(p),
                    Err(_) => next is None,
                }
            }),
            r.is_err() ==> r->Err_0@ == "Out of physical memory for page table"@,
    {
        let mut entry = memory.entry(table_phys, idx);
        if entry.is_unused() {
            let new_frame_phys = match allocator.allocate_frame() {
                Some(f) => f,
                None => return Err("Out of physical memory for page table"),
            };
            let mut new_table = memory.frame_contents(new_frame_phys);
            new_table.zero();
            memory.insert_table(new_frame_phys, new_table);
            entry.set_frame(
                new_frame_phys,
                PageTableEntry::PRESENT | PageTableEntry::WRITABLE | PageTableEntry::USER_ACCESSIBLE,
            );
            proof {
                assert((1u64 << 0u64) | (1u64 << 1u64) | (1u64 << 2u64) == 7u64) by (bit_vector);
            }
            memory.set_entry(table_phys, idx, entry);
            Ok(new_frame_phys)
        } else {
            Ok(entry.frame_address())
        }
    }
}

/// The entry at `idx` of the table at `table`, when that table is held and the entry is in use.
pub open spec fn used_entry(mem: Map<u64, Seq<u64>>, table: u64, idx: int) -> Option<u64> {
    if mem.contains_key(table) && mem[table][idx] != 0 {
        Some(mem[table][idx])
    } else {
        None
    }
}

/// The last-level entry that translates `va`: the walk from the table at `l4` through
/// three used entries to a used entry of the last-level table.
pub open spec fn leaf_entry(mem: Map<u64, Seq<u64>>, l4: u64, va: u64) -> Option<u64> {
    match used_entry(mem, l4, table_index(va, 39)) {
        None => None,
        Some(e4) => match used_entry(mem, entry_address(e4), table_index(va, 30)) {
            None => None,
            Some(e3) => match used_entry(mem, entry_address(e3), table_index(va, 21)) {
                None => None,
                Some(e2) => used_entry(mem, entry_address(e2), table_index(va, 12)),
            },
        },
    }
}

/// Every frame still to be handed out is page aligned, addressable by an entry,
/// held by no table yet, and comes only once.
pub open spec fn frames_fresh(mem: Map<u64, Seq<u64>>, frames: Seq<u64>) -> bool {
    &&& frames.no_duplicates()
    &&& forall|i: int| 0 <= i < frames.len() ==> !mem.contains_key(#[trigger] frames[i])
    &&& forall|i: int| 0 <= i < frames.len() ==> #[trigger] frames[i] & ADDRESS_MASK == frames[i]
}

/// The tables that the walk for `va` already passes through are distinct frames.
pub open spec fn walk_tables_distinct(mem: Map<u64, Seq<u64>>, l4: u64, va: u64) -> bool {
    let e4 = mem[l4][table_index(va, 39)];
    let t3 = entry_address(e4);
    let e3 = mem[t3][table_index(va, 30)];
    let t2 = entry_address(e3);
    let e2 = mem[t2][table_index(va, 21)];
    let t1 = entry_address(e2);
    &&& e4 != 0 ==> t3 != l4
    &&& e4 != 0 && e3 != 0 ==> t2 != l4 && t2 != t3
    &&& e4 != 0 && e3 != 0 && e2 != 0 ==> t1 != l4 && t1 != t3 && t1 != t2
}

/// How many intermediate tables the walk for `va` still lacks.
pub open spec fn missing_tables(mem: Map<u64, Seq<u64>>, l4: u64, va: u64) -> nat {
    let e4 = mem[l4][table_index(va, 39)];
    let e3 = mem[entry_address(e4)][table_index(va, 30)];
    let e2 = mem[entry_address(e3)][table_index(va, 21)];
    if e4 == 0 {
        3
    } else if e3 == 0 {
        2
    } else if e2 == 0 {
        1
    } else {
        0
    }
}

proof fn lemma_fresh_entry_roundtrip(f: u64)
    requires
        f & ADDRESS_MASK == f,
    ensures
        entry_address(make_entry(f, TABLE_FLAGS)) == f,
        make_entry(f, TABLE_FLAGS) != 0,
{
    assert(((f & 0x000f_ffff_ffff_f000u64) | 7u64) & 0x000f_ffff_ffff_f000u64 == f) by (bit_vector)
        requires
            f & 0x000f_ffff_ffff_f000u64 == f,
    ;
    assert((f & 0x000f_ffff_ffff_f000u64) | 7u64 != 0) by (bit_vector);
}

proof fn lemma_step_fresh(mem: Map<u64, Seq<u64>>, frames: Seq<u64>, table: u64, idx: int)
    requires
        mem.contains_key(table),
        0 <= idx < 512,
        frames_fresh(mem, frames),
        forall|a: u64| #[trigger] mem.contains_key(a) ==> mem[a].len() == 512,
    ensures
        ({
            let (m, f, next) = next_table_step(mem, frames, table, idx);
            &&& frames_fresh(m, f)
            &&& forall|a: u64| #[trigger] m.contains_key(a) ==> m[a].len() == 512
            &&& m.contains_key(table)
            &&& mem[table][idx] == 0 && frames.len() > 0 ==> {
                &&& next == Some(frames[0])
                &&& f == frames.drop_first()
                &&& m == mem.insert(frames[0], zero_table()).insert(
                    table,
                    mem[table].update(idx, make_entry(frames[0], TABLE_FLAGS)),
                )
                &&& m[table][idx] != 0
                &&& entry_address(m[table][idx]) == frames[0]
                &&& frames[0] != table
            }
        }),
{
    let (m, f, next) = next_table_step(mem, frames, table, idx);
    if mem[table][idx] == 0 && frames.len() > 0 {
        let f0 = frames[0];
        assert(!mem.contains_key(f0));
        lemma_fresh_entry_roundtrip(f0);
        assert forall|i: int| 0 <= i < f.len() implies !m.contains_key(#[trigger] f[i]) by {
            assert(f[i] == frames[i + 1]);
            assert(frames[i + 1] != frames[0]);
        }
        assert forall|i: int| 0 <= i < f.len() implies #[trigger] f[i] & ADDRESS_MASK == f[i] by {
            assert(f[i] == frames[i + 1]);
        }
    }
}

/// After a successful `map_page`, the walk for `virt_addr` ends at an entry that
/// maps `phys_addr` with the requested flags and the present bit. Stated for walks
/// whose existing tables are distinct frames and for allocators whose frames are
/// fresh, aligned and addressable.
pub proof fn law_map_page_translates(
    mem: Map<u64, Seq<u64>>,
    frames: Seq<u64>,
    l4: u64,
    virt_addr: u64,
    phys_addr: u64,
    flags: u64,
)
    requires
        walk_readable(mem, frames, l4, virt_addr),
        forall|a: u64| #[trigger] mem.contains_key(a) ==> mem[a].len() == 512,
        frames_fresh(mem, frames),
        walk_tables_distinct(mem, l4, virt_addr),
        map_page_result(mem, frames, l4, virt_addr, phys_addr, flags).2,
    ensures
        leaf_entry(map_page_result(mem, frames, l4, virt_addr, phys_addr, flags).0, l4, virt_addr)
            == Some(make_entry(phys_addr, flags | 1)),
{
    let i4 = table_index(virt_addr, 39);
    let i3 = table_index(virt_addr, 30);
    let i2 = table_index(virt_addr, 21);
    let i1 = table_index(virt_addr, 12);
    assert(0 <= i4 < 512 && 0 <= i3 < 512 && 0 <= i2 < 512 && 0 <= i1 < 512) by {
        assert((virt_addr >> 39u64) & 0x1ff < 512) by (bit_vector);
        assert((virt_addr >> 30u64) & 0x1ff < 512) by (bit_vector);
        assert((virt_addr >> 21u64) & 0x1ff < 512) by (bit_vector);
        assert((virt_addr >> 12u64) & 0x1ff < 512) by (bit_vector);
    }
    let (m3, f3, o3) = next_table_step(mem, frames, l4, i4);
    lemma_step_fresh(mem, frames, l4, i4);
    let t3 = o3->Some_0;
    let (m2, f2, o2) = next_table_step(m3, f3, t3, i3);
    lemma_step_fresh(m3, f3, t3, i3);
    let t2 = o2->Some_0;
    let (m1, f1, o1) = next_table_step(m2, f2, t2, i2);
    lemma_step_fresh(m2, f2, t2, i2);
    let t1 = o1->Some_0;
    let leaf = make_entry(phys_addr, flags | 1);
    assert(leaf != 0) by {
        assert(((phys_addr & 0x000f_ffff_ffff_f000u64) | (flags | 1u64)) != 0) by (bit_vector);
    }
    let fin = m1.insert(t1, m1[t1].update(i1, leaf));
    // the last-level table differs from every table above it on the walk
    assert(t1 != l4 && t1 != t3 && t1 != t2);
    assert(t2 != l4 && t2 != t3);
    assert(t3 != l4);
    assert(fin[l4][i4] == m3[l4][i4]);
    assert(fin[t3][i3] == m2[t3][i3]);
    assert(fin[t2][i2] == m1[t2][i2]);
    assert(entry_address(m3[l4][i4]) == t3);
    assert(entry_address(m2[t3][i3]) == t2);
    assert(entry_address(m1[t2][i2]) == t1);
}

/// `map_page` fails exactly when the allocator has fewer frames left than the walk
/// lacks tables, and it uses one frame per missing table, up to the frames it has.
/// Stated for allocators whose frames are fresh, aligned and addressable.
pub proof fn law_map_page_fails_iff_out_of_frames(
    mem: Map<u64, Seq<u64>>,
    frames: Seq<u64>,
    l4: u64,
    virt_addr: u64,
    phys_addr: u64,
    flags: u64,
)
    requires
        walk_readable(mem, frames, l4, virt_addr),
        forall|a: u64| #[trigger] mem.contains_key(a) ==> mem[a].len() == 512,
        frames_fresh(mem, frames),
    ensures
        ({
            let (m, f, ok) = map_page_result(mem, frames, l4, virt_addr, phys_addr, flags);
            let need = missing_tables(mem, l4, virt_addr);
            &&& ok <==> need <= frames.len()
            &&& f == frames.skip(if need <= frames.len() { need as int } else { frames.len() as int })
        }),
{
    let i4 = table_index(virt_addr, 39);
    let i3 = table_index(virt_addr, 30);
    let i2 = table_index(virt_addr, 21);
    assert(0 <= i4 < 512 && 0 <= i3 < 512 && 0 <= i2 < 512) by {
        assert((virt_addr >> 39u64) & 0x1ff < 512) by (bit_vector);
        assert((virt_addr >> 30u64) & 0x1ff < 512) by (bit_vector);
        assert((virt_addr >> 21u64) & 0x1ff < 512) by (bit_vector);
    }
    let (m3, f3, o3) = next_table_step(mem, frames, l4, i4);
    lemma_step_fresh(mem, frames, l4, i4);
    if o3 is Some {
        let t3 = o3->Some_0;
        let (m2, f2, o2) = next_table_step(m3, f3, t3, i3);
        lemma_step_fresh(m3, f3, t3, i3);
        if mem[l4][i4] == 0 {
            assert(m3[t3] == zero_table());
        }
        if o2 is Some {
            let t2 = o2->Some_0;
            lemma_step_fresh(m2, f2, t2, i2);
            if m3[t3][i3] == 0 {
                assert(m2[t2] == zero_table());
            }
        }
    }
    let need = missing_tables(mem, l4, virt_addr);
    let (m, f, ok) = map_page_result(mem, frames, l4, virt_addr, phys_addr, flags);
    if need <= frames.len() {
        assert(f =~= frames.skip(need as int));
    } else {
        assert(f =~= frames.skip(frames.len() as int));
    }
}

/// Entry `idx` of the table at `a` is one of the four entries the walk for `va` uses.
pub open spec fn on_walk(mem: Map<u64, Seq<u64>>, l4: u64, va: u64, a: u64, idx: int) -> bool {
    let t3 = entry_address(mem[l4][table_index(va, 39)]);
    let t2 = entry_address(mem[t3][table_index(va, 30)]);
    let t1 = entry_address(mem[t2][table_index(va, 21)]);
    ||| a == l4 && idx == table_index(va, 39)
    ||| a == t3 && idx == table_index(va, 30)
    ||| a == t2 && idx == table_index(va, 21)
    ||| a == t1 && idx == table_index(va, 12)
}

/// `map_page` changes no entry off the walk: every table held before is still held,
/// and each of its entries that the final walk for `virt_addr` does not use keeps
/// its value. Stated for walks whose existing tables are distinct frames and for
/// allocators whose frames are fresh, aligned and addressable.
pub proof fn law_map_page_touches_only_the_walk(
    mem: Map<u64, Seq<u64>>,
    frames: Seq<u64>,
    l4: u64,
    virt_addr: u64,
    phys_addr: u64,
    flags: u64,
)
    requires
        walk_readable(mem, frames, l4, virt_addr),
        forall|a: u64| #[trigger] mem.contains_key(a) ==> mem[a].len() == 512,
        frames_fresh(mem, frames),
        walk_tables_distinct(mem, l4, virt_addr),
    ensures
        ({
            let fin = map_page_result(mem, frames, l4, virt_addr, phys_addr, flags).0;
            forall|a: u64, idx: int|
                #![trigger mem[a][idx]]
                mem.contains_key(a) && 0 <= idx < 512 && !on_walk(fin, l4, virt_addr, a, idx)
                    ==> fin.contains_key(a) && fin[a][idx] == mem[a][idx]
        }),
{
    let i4 = table_index(virt_addr, 39);
    let i3 = table_index(virt_addr, 30);
    let i2 = table_index(virt_addr, 21);
    let i1 = table_index(virt_addr, 12);
    assert(0 <= i4 < 512 && 0 <= i3 < 512 && 0 <= i2 < 512 && 0 <= i1 < 512) by {
        assert((virt_addr >> 39u64) & 0x1ff < 512) by (bit_vector);
        assert((virt_addr >> 30u64) & 0x1ff < 512) by (bit_vector);
        assert((virt_addr >> 21u64) & 0x1ff < 512) by (bit_vector);
        assert((virt_addr >> 12u64) & 0x1ff < 512) by (bit_vector);
    }
    let (m3, f3, o3) = next_table_step(mem, frames, l4, i4);
    lemma_step_fresh(mem, frames, l4, i4);
    if o3 is Some {
        let t3 = o3->Some_0;
        let (m2, f2, o2) = next_table_step(m3, f3, t3, i3);
        lemma_step_fresh(m3, f3, t3, i3);
        if o2 is Some {
            let t2 = o2->Some_0;
            let (m1, f1, o1) = next_table_step(m2, f2, t2, i2);
            lemma_step_fresh(m2, f2, t2, i2);
            if o1 is Some {
                let t1 = o1->Some_0;
                let fin = m1.insert(t1, m1[t1].update(i1, make_entry(phys_addr, flags | 1)));
                assert(t1 != l4 && t1 != t3 && t1 != t2);
                assert(t2 != l4 && t2 != t3);
                assert(t3 != l4);
                assert(entry_address(fin[l4][i4]) == t3);
                assert(entry_address(fin[t3][i3]) == t2);
                assert(entry_address(fin[t2][i2]) == t1);
            } else {
                assert(t2 != l4 && t2 != t3);
                assert(t3 != l4);
                assert(entry_address(m1[l4][i4]) == t3);
                assert(entry_address(m1[t3][i3]) == t2);
            }
        } else {
            assert(t3 != l4);
            assert(entry_address(m2[l4][i4]) == t3);
        }
    }
}

/// An entry set to a frame reads that frame back, page aligned and cut to 52 bits,
/// whenever the flags leave the address bits clear.
pub proof fn law_set_frame_then_frame_address(frame_phys: u64, flags: u64)
    requires
        flags & ADDRESS_MASK == 0,
    ensures
        entry_address(make_entry(frame_phys, flags)) == frame_phys & ADDRESS_MASK,
{
    assert(((frame_phys & 0x000f_ffff_ffff_f000u64) | flags) & 0x000f_ffff_ffff_f000u64 == frame_phys
        & 0x000f_ffff_ffff_f000u64) by (bit_vector)
        requires
            flags & 0x000f_ffff_ffff_f000u64 == 0,
    ;
}

/// Mapping the same page again right after a successful `map_page` succeeds, takes
/// no frame and changes no entry. Stated for walks whose existing tables are
/// distinct frames and for allocators whose frames are fresh, aligned and addressable.
pub proof fn law_map_page_idempotent(
    mem: Map<u64, Seq<u64>>,
    frames: Seq<u64>,
    l4: u64,
    virt_addr: u64,
    phys_addr: u64,
    flags: u64,
)
    requires
        walk_readable(mem, frames, l4, virt_addr),
        forall|a: u64| #[trigger] mem.contains_key(a) ==> mem[a].len() == 512,
        frames_fresh(mem, frames),
        walk_tables_distinct(mem, l4, virt_addr),
        map_page_result(mem, frames, l4, virt_addr, phys_addr, flags).2,
    ensures
        ({
            let (m, f, ok) = map_page_result(mem, frames, l4, virt_addr, phys_addr, flags);
            &&& walk_readable(m, f, l4, virt_addr)
            &&& map_page_result(m, f, l4, virt_addr, phys_addr, flags) == (m, f, true)
        }),
{
    let i4 = table_index(virt_addr, 39);
    let i3 = table_index(virt_addr, 30);
    let i2 = table_index(virt_addr, 21);
    let i1 = table_index(virt_addr, 12);
    assert(0 <= i4 < 512 && 0 <= i3 < 512 && 0 <= i2 < 512 && 0 <= i1 < 512) by {
        assert((virt_addr >> 39u64) & 0x1ff < 512) by (bit_vector);
        assert((virt_addr >> 30u64) & 0x1ff < 512) by (bit_vector);
        assert((virt_addr >> 21u64) & 0x1ff < 512) by (bit_vector);
        assert((virt_addr >> 12u64) & 0x1ff < 512) by (bit_vector);
    }
    let (m3, f3, o3) = next_table_step(mem, frames, l4, i4);
    lemma_step_fresh(mem, frames, l4, i4);
    let t3 = o3->Some_0;
    let (m2, f2, o2) = next_table_step(m3, f3, t3, i3);
    lemma_step_fresh(m3, f3, t3, i3);
    let t2 = o2->Some_0;
    let (m1, f1, o1) = next_table_step(m2, f2, t2, i2);
    lemma_step_fresh(m2, f2, t2, i2);
    let t1 = o1->Some_0;
    let leaf = make_entry(phys_addr, flags | 1);
    let fin = m1.insert(t1, m1[t1].update(i1, leaf));
    assert(t1 != l4 && t1 != t3 && t1 != t2);
    assert(t2 != l4 && t2 != t3);
    assert(t3 != l4);
    assert(fin[l4][i4] == m3[l4][i4]);
    assert(fin[t3][i3] == m2[t3][i3]);
    assert(fin[t2][i2] == m1[t2][i2]);
    assert(entry_address(m3[l4][i4]) == t3);
    assert(entry_address(m2[t3][i3]) == t2);
    assert(entry_address(m1[t2][i2]) == t1);
    assert(fin[l4][i4] != 0 && fin[t3][i3] != 0 && fin[t2][i2] != 0);
    assert(next_table_step(fin, f1, l4, i4) == (fin, f1, Some(t3)));
    assert(next_table_step(fin, f1, t3, i3) == (fin, f1, Some(t2)));
    assert(next_table_step(fin, f1, t2, i2) == (fin, f1, Some(t1)));
    assert(fin[t1][i1] == leaf);
    assert(fin.insert(t1, fin[t1].update(i1, leaf)) =~= fin) by {
        assert(fin[t1].update(i1, leaf) =~= fin[t1]);
    }
}

/// The table index used at each level is a nine-bit digit of the virtual address:
/// the index at the level of `shift` is `va / 2^shift mod 512`, so the four indices
/// and the page offset together spell out the low 48 bits of the address, and two
/// addresses that differ in a bit of a level's digit use different entries there.
pub proof fn law_table_indices_are_address_digits(va: u64)
    ensures
        table_index(va, 39) == (va as int / 0x80_0000_0000) % 512,
        table_index(va, 30) == (va as int / 0x4000_0000) % 512,
        table_index(va, 21) == (va as int / 0x20_0000) % 512,
        table_index(va, 12) == (va as int / 0x1000) % 512,
        table_index(va, 39) * 0x80_0000_0000 + table_index(va, 30) * 0x4000_0000 + table_index(
            va,
            21,
        ) * 0x20_0000 + table_index(va, 12) * 0x1000 + (va as int % 0x1000) == va as int
            % 0x1_0000_0000_0000,
{
    assert((va >> 39u64) & 0x1ff == (va / 0x80_0000_0000u64) % 512) by (bit_vector);
    assert((va >> 30u64) & 0x1ff == (va / 0x4000_0000u64) % 512) by (bit_vector);
    assert((va >> 21u64) & 0x1ff == (va / 0x20_0000u64) % 512) by (bit_vector);
    assert((va >> 12u64) & 0x1ff == (va / 0x1000u64) % 512) by (bit_vector);
    assert(((va >> 39u64) & 0x1ff) * 0x80_0000_0000u64 + ((va >> 30u64) & 0x1ff) * 0x4000_0000u64
        + ((va >> 21u64) & 0x1ff) * 0x20_0000u64 + ((va >> 12u64) & 0x1ff) * 0x1000u64 + (va
        % 0x1000u64) == va % 0x1_0000_0000_0000u64) by (bit_vector);
}

} // verus!
