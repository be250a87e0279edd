use vstd::prelude::*;
use vstd::bytes::{spec_u32_from_le_bytes, spec_u64_from_le_bytes, u32_from_le_bytes, u64_from_le_bytes};
use vstd::slice::slice_subrange;

verus! {

/// Size in bytes of the fields of a memory descriptor.
pub const DESCRIPTOR_BYTES: usize = 40;

/// Memory type of conventional (free) RAM in the firmware memory map.
pub const CONVENTIONAL_MEMORY: u32 = 7;

/// Size of a physical frame.
pub const FRAME_SIZE: u64 = 4096;

/// One entry of the firmware memory map.
#[derive(Clone, Copy, Debug)]
pub struct MemoryDescriptor {
    pub ty: u32,
    pub _pad: u32,
    pub phys_start: u64,
    pub virt_start: u64,
    pub page_count: u64,
    pub attribute: u64,
}

/// The descriptor whose little-endian encoding starts at byte `off` of `bytes`.
pub open spec fn descriptor_at(bytes: Seq<u8>, off: int) -> MemoryDescriptor {
    MemoryDescriptor {
        ty: spec_u32_from_le_bytes(bytes.subrange(off, off + 4)),
        _pad: spec_u32_from_le_bytes(bytes.subrange(off + 4, off + 8)),
        phys_start: spec_u64_from_le_bytes(bytes.subrange(off + 8, off + 16)),
        virt_start: spec_u64_from_le_bytes(bytes.subrange(off + 16, off + 24)),
        page_count: spec_u64_from_le_bytes(bytes.subrange(off + 24, off + 32)),
        attribute: spec_u64_from_le_bytes(bytes.subrange(off + 32, off + 40)),
    }
}

impl MemoryDescriptor {
    /// Decodes the descriptor stored at byte `offset` of a memory map.
    pub fn read_from(bytes: &[u8], offset: usize) -> (d: Self)
        requires
            offset + DESCRIPTOR_BYTES <= bytes@.len(),
        ensures
            d == descriptor_at(bytes@, offset as int),
    {
        let _len = bytes.len();
        Self {
            ty: u32_from_le_bytes(slice_subrange(bytes, offset, offset + 4)),
            _pad: u32_from_le_bytes(slice_subrange(bytes, offset + 4, offset + 8)),
            phys_start: u64_from_le_bytes(slice_subrange(bytes, offset + 8, offset + 16)),
            virt_start: u64_from_le_bytes(slice_subrange(bytes, offset + 16, offset + 24)),
            page_count: u64_from_le_bytes(slice_subrange(bytes, offset + 24, offset + 32)),
            attribute: u64_from_le_bytes(slice_subrange(bytes, offset + 32, offset + 40)),
        }
    }
}

/// Bytes of the map not yet visited from `off` on.
pub open spec fn bytes_left(len: int, off: int) -> nat {
    if off < len {
        (len - off) as nat
    } else {
        0
    }
}

/// The frames an allocator positioned at byte `off`, page `page` hands out, in order:
/// the remaining pages of every conventional-memory descriptor from there to the end.
pub open spec fn frames_from(bytes: Seq<u8>, ds: int, off: int, page: int) -> Seq<u64>
    decreases bytes_left(bytes.len() as int, off), descriptor_at(bytes, off).page_count - page,
{
    if off < bytes.len() && ds > 0 {
        let d = descriptor_at(bytes, off);
        if d.ty == CONVENTIONAL_MEMORY && 0 <= page < d.page_count {
            seq![(d.phys_start + page * FRAME_SIZE) as u64].add(frames_from(bytes, ds, off, page + 1))
        } else {
            frames_from(bytes, ds, off + ds, 0)
        }
    } else {
        Seq::empty()
    }
}

/// Every descriptor of the map is readable and every conventional-memory frame
/// address fits in 64 bits.
pub open spec fn valid_memory_map(bytes: Seq<u8>, ds: int) -> bool {
    &&& ds >= DESCRIPTOR_BYTES
    &&& (bytes.len() as int) % ds == 0
    &&& bytes.len() <= u64::MAX
    &&& forall|off: int|
        0 <= off < bytes.len() && off % ds == 0 ==> {
            let d = #[trigger] descriptor_at(bytes, off);
            d.ty == CONVENTIONAL_MEMORY && d.page_count > 0 ==> d.phys_start + (d.page_count - 1)
                * FRAME_SIZE <= u64::MAX
        }
}

/// Hands out 4 KiB frames of conventional memory from the firmware memory map,
/// walking it once, front to back.
pub struct BootInfoFrameAllocator {
    memory_map: Vec<u8>,
    memory_map_size: u64,
    descriptor_size: u64,
    current_byte_offset: u64,
    current_page_in_desc: u64,
}

impl BootInfoFrameAllocator {
    pub closed spec fn wf(&self) -> bool {
        &&& valid_memory_map(self.memory_map@, self.descriptor_size as int)
        &&& self.memory_map_size == self.memory_map@.len()
        &&& self.memory_map@.len() <= usize::MAX
        &&& self.current_byte_offset <= self.memory_map_size
        &&& self.current_byte_offset % self.descriptor_size == 0
    }

    /// The frames still to be handed out, in the order they will come.
    pub closed spec fn remaining(&self) -> Seq<u64> {
        frames_from(
            self.memory_map@,
            self.descriptor_size as int,
            self.current_byte_offset as int,
            self.current_page_in_desc as int,
        )
    }

    /// The memory map the allocator walks.
    pub closed spec fn memory_map(&self) -> Seq<u8> {
        self.memory_map@
    }

    /// Starts at the first descriptor of `memory_map`, a copy of the firmware map
    /// whose entries are `descriptor_size` bytes apart.
    pub fn new(memory_map: Vec<u8>, descriptor_size: u64) -> (a: Self)
        requires
            valid_memory_map(memory_map@, descriptor_size as int),
        ensures
            a.wf(),
            a.memory_map() == memory_map@,
            a.remaining() == frames_from(memory_map@, descriptor_size as int, 0, 0),
    {
        let size = memory_map.len() as u64;
        proof {
            vstd::arithmetic::div_mod::lemma_small_mod(0, descriptor_size as nat);
        }
        Self {
            memory_map,
            memory_map_size: size,
            descriptor_size,
            current_byte_offset: 0,
            current_page_in_desc: 0,
        }
    }

    /// Allocates the next free 4 KiB frame, or `None` once the map is exhausted.
    pub fn allocate_frame(&mut self) -> (r: Option<u64>)
        requires
            old(self).wf(),
        ensures
            final(self).wf(),
            final(self).memory_map() == old(self).memory_map(),
            old(self).remaining().len() == 0 ==> r.is_none() && final(self).remaining().len() == 0,
            old(self).remaining().len() > 0 ==> {
                &&& r == Some(old(self).remaining()[0])
                &&& final(self).remaining() == old(self).remaining().drop_first()
            },
    {
        let ghost start = self.remaining();
        let ghost bytes = self.memory_map@;
        let ghost ds = self.descriptor_size as int;
        while self.current_byte_offset < self.memory_map_size
            invariant
                self.wf(),
                self.memory_map@ == bytes,
                self.descriptor_size == ds,
                self.remaining() == start,
                start == old(self).remaining(),
                bytes == old(self).memory_map(),
            decreases self.memory_map_size - self.current_byte_offset,
        {
            let off = self.current_byte_offset;
            proof {
                lemma_next_descriptor_in_bounds(off as int, self.memory_map_size as int, ds);
            }
            let desc = MemoryDescriptor::read_from(self.memory_map.as_slice(), off as usize);
            if desc.ty == 7 {
                if self.current_page_in_desc < desc.page_count {
                    proof {
                        assert(desc == descriptor_at(bytes, off as int));
                        assert(desc.phys_start + (desc.page_count - 1) * FRAME_SIZE <= u64::MAX);
                        assert(self.current_page_in_desc * FRAME_SIZE <= (desc.page_count - 1) * FRAME_SIZE)
                            by (nonlinear_arith)
                            requires
                                self.current_page_in_desc < desc.page_count,
                        ;
                    }
                    let frame_phys = desc.phys_start + (self.current_page_in_desc * 4096);
                    self.current_page_in_desc += 1;
                    proof {
                        assert(start =~= seq![frame_phys].add(self.remaining()));
                        assert(start.drop_first() =~= self.remaining());
                    }
                    return Some(frame_phys);
                }
            }
            self.current_byte_offset += self.descriptor_size;
            self.current_page_in_desc = 0;
            proof {
                vstd::arithmetic::div_mod::lemma_mod_add_multiples_vanish(off as int, ds);
            }
        }
        proof {
            assert(start.len() == 0);
        }
        None
    }
}

/// A descriptor-aligned offset inside a map whose size is a multiple of the
/// descriptor size leaves room for a whole descriptor.
proof fn lemma_next_descriptor_in_bounds(off: int, len: int, ds: int)
    requires
        ds > 0,
        0 <= off < len,
        off % ds == 0,
        len % ds == 0,
    ensures
        off + ds <= len,
{
    vstd::arithmetic::div_mod::lemma_fundamental_div_mod(off, ds);
    vstd::arithmetic::div_mod::lemma_fundamental_div_mod(len, ds);
    let a = off / ds;
    let b = len / ds;
    assert(off + ds <= len) by (nonlinear_arith)
        requires
            off == ds * a,
            len == ds * b,
            off < len,
            ds > 0,
    {
        assert(a < b);
    }
}

/// Address of page `page` of the descriptor at byte `off`.
pub open spec fn frame_of(bytes: Seq<u8>, off: int, page: int) -> u64 {
    (descriptor_at(bytes, off).phys_start + page * FRAME_SIZE) as u64
}

/// Frame `f` is a page of a conventional-memory descriptor of the map.
pub open spec fn in_conventional_memory(bytes: Seq<u8>, ds: int, f: u64) -> bool {
    exists|off: int, page: int|
        0 <= off < bytes.len() && off % ds == 0 && 0 <= page < descriptor_at(bytes, off).page_count
            && descriptor_at(bytes, off).ty == CONVENTIONAL_MEMORY && f == #[trigger] frame_of(
            bytes,
            off,
            page,
        )
}

/// Every frame the allocator hands out is a page of conventional memory named by
/// the map; from the start of the map this covers every frame it ever returns.
pub proof fn law_frames_are_conventional_memory(bytes: Seq<u8>, ds: int, off: int, page: int)
    requires
        valid_memory_map(bytes, ds),
        0 <= off,
        off % ds == 0,
    ensures
        forall|i: int|
            0 <= i < frames_from(bytes, ds, off, page).len() ==> in_conventional_memory(
                bytes,
                ds,
                #[trigger] frames_from(bytes, ds, off, page)[i],
            ),
    decreases bytes_left(bytes.len() as int, off), descriptor_at(bytes, off).page_count - page,
{
    let fr = frames_from(bytes, ds, off, page);
    if off < bytes.len() {
        let d = descriptor_at(bytes, off);
        if d.ty == CONVENTIONAL_MEMORY && 0 <= page < d.page_count {
            law_frames_are_conventional_memory(bytes, ds, off, page + 1);
            let rest = frames_from(bytes, ds, off, page + 1);
            assert(fr == seq![frame_of(bytes, off, page)].add(rest));
            assert forall|i: int| 0 <= i < fr.len() implies in_conventional_memory(
                bytes,
                ds,
                #[trigger] fr[i],
            ) by {
                if i == 0 {
                    assert(fr[0] == frame_of(bytes, off, page));
                } else {
                    assert(fr[i] == rest[i - 1]);
                }
            }
        } else {
            vstd::arithmetic::div_mod::lemma_mod_add_multiples_vanish(off, ds);
            law_frames_are_conventional_memory(bytes, ds, off + ds, 0);
            assert(fr == frames_from(bytes, ds, off + ds, 0));
        }
    }
}

/// The non-empty conventional-memory descriptors of the map name pairwise disjoint ranges.
pub open spec fn conventional_ranges_disjoint(bytes: Seq<u8>, ds: int) -> bool {
    forall|o1: int, o2: int|
        #![trigger descriptor_at(bytes, o1), descriptor_at(bytes, o2)]
        0 <= o1 < bytes.len() && 0 <= o2 < bytes.len() && o1 % ds == 0 && o2 % ds == 0 && o1 != o2
            && descriptor_at(bytes, o1).ty == CONVENTIONAL_MEMORY && descriptor_at(bytes, o2).ty
            == CONVENTIONAL_MEMORY && descriptor_at(bytes, o1).page_count > 0 && descriptor_at(
            bytes,
            o2,
        ).page_count > 0 ==> {
            let d1 = descriptor_at(bytes, o1);
            let d2 = descriptor_at(bytes, o2);
            d1.phys_start + d1.page_count * FRAME_SIZE <= d2.phys_start || d2.phys_start
                + d2.page_count * FRAME_SIZE <= d1.phys_start
        }
}

/// `f` is page `p` of a conventional descriptor at `o`, with `o` at or after `off`
/// and, at `off` itself, `p` at or after `page`.
spec fn frame_ahead(bytes: Seq<u8>, ds: int, off: int, page: int, f: u64) -> bool {
    exists|o: int, p: int|
        {
            &&& off <= o < bytes.len()
            &&& o % ds == 0
            &&& o == off ==> page <= p
            &&& 0 <= p < descriptor_at(bytes, o).page_count
            &&& descriptor_at(bytes, o).ty == CONVENTIONAL_MEMORY
            &&& f == #[trigger] frame_of(bytes, o, p)
        }
}

/// Every frame still to come from position (`off`, `page`) lies ahead of it.
proof fn lemma_frames_ahead(bytes: Seq<u8>, ds: int, off: int, page: int)
    requires
        valid_memory_map(bytes, ds),
        0 <= off,
        off % ds == 0,
        0 <= page,
    ensures
        forall|i: int|
            0 <= i < frames_from(bytes, ds, off, page).len() ==> frame_ahead(
                bytes,
                ds,
                off,
                page,
                #[trigger] frames_from(bytes, ds, off, page)[i],
            ),
    decreases bytes_left(bytes.len() as int, off), descriptor_at(bytes, off).page_count - page,
{
    let fr = frames_from(bytes, ds, off, page);
    if off < bytes.len() {
        let d = descriptor_at(bytes, off);
        if d.ty == CONVENTIONAL_MEMORY && 0 <= page < d.page_count {
            lemma_frames_ahead(bytes, ds, off, page + 1);
            let rest = frames_from(bytes, ds, off, page + 1);
            assert(fr == seq![frame_of(bytes, off, page)].add(rest));
            assert forall|i: int| 0 <= i < fr.len() implies frame_ahead(bytes, ds, off, page, #[trigger] fr[i]) by {
                if i == 0 {
                    assert(fr[0] == frame_of(bytes, off, page));
                } else {
                    assert(fr[i] == rest[i - 1]);
                    assert(frame_ahead(bytes, ds, off, page + 1, rest[i - 1]));
                    let (o, p) = choose|o: int, p: int|
                        {
                            &&& off <= o < bytes.len()
                            &&& o % ds == 0
                            &&& o == off ==> page + 1 <= p
                            &&& 0 <= p < descriptor_at(bytes, o).page_count
                            &&& descriptor_at(bytes, o).ty == CONVENTIONAL_MEMORY
                            &&& rest[i - 1] == #[trigger] frame_of(bytes, o, p)
                        };
                    assert(fr[i] == frame_of(bytes, o, p));
                }
            }
        } else {
            vstd::arithmetic::div_mod::lemma_mod_add_multiples_vanish(off, ds);
            lemma_frames_ahead(bytes, ds, off + ds, 0);
            let rest = frames_from(bytes, ds, off + ds, 0);
            assert(fr == rest);
            assert forall|i: int| 0 <= i < fr.len() implies frame_ahead(bytes, ds, off, page, #[trigger] fr[i]) by {
                assert(frame_ahead(bytes, ds, off + ds, 0, rest[i]));
                let (o, p) = choose|o: int, p: int|
                    {
                        &&& off + ds <= o < bytes.len()
                        &&& o % ds == 0
                        &&& o == off + ds ==> 0 <= p
                        &&& 0 <= p < descriptor_at(bytes, o).page_count
                        &&& descriptor_at(bytes, o).ty == CONVENTIONAL_MEMORY
                        &&& rest[i] == #[trigger] frame_of(bytes, o, p)
                    };
                assert(fr[i] == frame_of(bytes, o, p));
            }
        }
    }
}

/// Frames of one descriptor, or of two disjoint conventional descriptors, differ
/// when their positions differ.
proof fn lemma_distinct_positions(bytes: Seq<u8>, ds: int, o1: int, p1: int, o2: int, p2: int)
    requires
        valid_memory_map(bytes, ds),
        conventional_ranges_disjoint(bytes, ds),
        0 <= o1 < bytes.len(),
        0 <= o2 < bytes.len(),
        o1 % ds == 0,
        o2 % ds == 0,
        descriptor_at(bytes, o1).ty == CONVENTIONAL_MEMORY,
        descriptor_at(bytes, o2).ty == CONVENTIONAL_MEMORY,
        0 <= p1 < descriptor_at(bytes, o1).page_count,
        0 <= p2 < descriptor_at(bytes, o2).page_count,
        o1 != o2 || p1 != p2,
    ensures
        frame_of(bytes, o1, p1) != frame_of(bytes, o2, p2),
{
    let d1 = descriptor_at(bytes, o1);
    let d2 = descriptor_at(bytes, o2);
    assert(d1.phys_start + (d1.page_count - 1) * FRAME_SIZE <= u64::MAX);
    assert(d2.phys_start + (d2.page_count - 1) * FRAME_SIZE <= u64::MAX);
    assert(p1 * FRAME_SIZE <= (d1.page_count - 1) * FRAME_SIZE) by (nonlinear_arith)
        requires
            p1 < d1.page_count,
    ;
    assert(p2 * FRAME_SIZE <= (d2.page_count - 1) * FRAME_SIZE) by (nonlinear_arith)
        requires
            p2 < d2.page_count,
    ;
    assert(frame_of(bytes, o1, p1) == d1.phys_start + p1 * FRAME_SIZE);
    assert(frame_of(bytes, o2, p2) == d2.phys_start + p2 * FRAME_SIZE);
    if o1 == o2 {
        assert(p1 * FRAME_SIZE != p2 * FRAME_SIZE) by (nonlinear_arith)
            requires
                p1 != p2,
        ;
    } else {
        assert(p1 * FRAME_SIZE < d1.page_count * FRAME_SIZE) by (nonlinear_arith)
            requires
                p1 < d1.page_count,
        ;
        assert(p2 * FRAME_SIZE < d2.page_count * FRAME_SIZE) by (nonlinear_arith)
            requires
                p2 < d2.page_count,
        ;
    }
}

/// No frame is handed out twice, provided the non-empty conventional-memory
/// descriptors of the map do not overlap.
pub proof fn law_frames_are_distinct(bytes: Seq<u8>, ds: int, off: int, page: int)
    requires
        valid_memory_map(bytes, ds),
        conventional_ranges_disjoint(bytes, ds),
        0 <= off,
        off % ds == 0,
        0 <= page,
    ensures
        frames_from(bytes, ds, off, page).no_duplicates(),
    decreases bytes_left(bytes.len() as int, off), descriptor_at(bytes, off).page_count - page,
{
    let fr = frames_from(bytes, ds, off, page);
    if off < bytes.len() {
        let d = descriptor_at(bytes, off);
        if d.ty == CONVENTIONAL_MEMORY && 0 <= page < d.page_count {
            law_frames_are_distinct(bytes, ds, off, page + 1);
            lemma_frames_ahead(bytes, ds, off, page + 1);
            let rest = frames_from(bytes, ds, off, page + 1);
            assert(fr == seq![frame_of(bytes, off, page)].add(rest));
            assert forall|i: int, j: int| 0 <= i < fr.len() && 0 <= j < fr.len() && i != j implies fr[i]
                != fr[j] by {
                if i == 0 || j == 0 {
                    let k = if i == 0 { j } else { i };
                    assert(fr[k] == rest[k - 1]);
                    assert(frame_ahead(bytes, ds, off, page + 1, rest[k - 1]));
                    let (o, p) = choose|o: int, p: int|
                        {
                            &&& off <= o < bytes.len()
                            &&& o % ds == 0
                            &&& o == off ==> page + 1 <= p
                            &&& 0 <= p < descriptor_at(bytes, o).page_count
                            &&& descriptor_at(bytes, o).ty == CONVENTIONAL_MEMORY
                            &&& rest[k - 1] == #[trigger] frame_of(bytes, o, p)
                        };
                    lemma_distinct_positions(bytes, ds, off, page, o, p);
                } else {
                    assert(fr[i] == rest[i - 1]);
                    assert(fr[j] == rest[j - 1]);
                }
            }
        } else {
            vstd::arithmetic::div_mod::lemma_mod_add_multiples_vanish(off, ds);
            law_frames_are_distinct(bytes, ds, off + ds, 0);
            assert(fr == frames_from(bytes, ds, off + ds, 0));
        }
    }
}

/// Pages of the conventional-memory descriptors at byte `off` and after it.
pub open spec fn conventional_pages(bytes: Seq<u8>, ds: int, off: int) -> nat
    decreases bytes_left(bytes.len() as int, off),
{
    if off < bytes.len() && ds > 0 {
        let d = descriptor_at(bytes, off);
        let here: nat = if d.ty == CONVENTIONAL_MEMORY {
            d.page_count as nat
        } else {
            0
        };
        here + conventional_pages(bytes, ds, off + ds)
    } else {
        0
    }
}

/// The allocator hands out every page of conventional memory: from position
/// (`off`, `page`) it yields the pages of the current descriptor from `page` on and
/// all the pages of every conventional descriptor after it, so from the start of
/// the map it yields as many frames as the conventional descriptors hold pages.
pub proof fn law_frames_cover_conventional_memory(bytes: Seq<u8>, ds: int, off: int, page: int)
    requires
        valid_memory_map(bytes, ds),
        0 <= off,
        off % ds == 0,
        0 <= page,
    ensures
        frames_from(bytes, ds, off, page).len() == (if off < bytes.len() && descriptor_at(
            bytes,
            off,
        ).ty == CONVENTIONAL_MEMORY && page < descriptor_at(bytes, off).page_count {
            descriptor_at(bytes, off).page_count - page
        } else {
            0
        }) + conventional_pages(bytes, ds, off + ds),
        forall|o: int, p: int|
            off <= o < bytes.len() && o % ds == 0 && (o == off ==> page <= p) && 0 <= p
                < descriptor_at(bytes, o).page_count && descriptor_at(bytes, o).ty
                == CONVENTIONAL_MEMORY ==> frames_from(bytes, ds, off, page).contains(
                #[trigger] frame_of(bytes, o, p),
            ),
    decreases bytes_left(bytes.len() as int, off), descriptor_at(bytes, off).page_count - page,
{
    let fr = frames_from(bytes, ds, off, page);
    vstd::arithmetic::div_mod::lemma_mod_add_multiples_vanish(off, ds);
    if off < bytes.len() {
        let d = descriptor_at(bytes, off);
        if d.ty == CONVENTIONAL_MEMORY && 0 <= page < d.page_count {
            law_frames_cover_conventional_memory(bytes, ds, off, page + 1);
            let rest = frames_from(bytes, ds, off, page + 1);
            assert(fr == seq![frame_of(bytes, off, page)].add(rest));
            assert forall|o: int, p: int|
                off <= o < bytes.len() && o % ds == 0 && (o == off ==> page <= p) && 0 <= p
                    < descriptor_at(bytes, o).page_count && descriptor_at(bytes, o).ty
                    == CONVENTIONAL_MEMORY implies fr.contains(#[trigger] frame_of(bytes, o, p)) by {
                if o == off && p == page {
                    assert(fr[0] == frame_of(bytes, o, p));
                } else {
                    assert(rest.contains(frame_of(bytes, o, p)));
                    let j = choose|j: int| 0 <= j < rest.len() && rest[j] == frame_of(bytes, o, p);
                    assert(fr[j + 1] == rest[j]);
                }
            }
        } else {
            law_frames_cover_conventional_memory(bytes, ds, off + ds, 0);
            assert(fr == frames_from(bytes, ds, off + ds, 0));
            assert(conventional_pages(bytes, ds, off) == (if d.ty == CONVENTIONAL_MEMORY {
                d.page_count as nat
            } else {
                0nat
            }) + conventional_pages(bytes, ds, off + ds));
            assert forall|o: int, p: int|
                off <= o < bytes.len() && o % ds == 0 && (o == off ==> page <= p) && 0 <= p
                    < descriptor_at(bytes, o).page_count && descriptor_at(bytes, o).ty
                    == CONVENTIONAL_MEMORY implies fr.contains(#[trigger] frame_of(bytes, o, p)) by {
                if o == off {
                    assert(false);
                } else {
                    assert(off + ds <= o) by {
                        lemma_next_aligned(off, o, ds);
                    }
                }
            }
        }
    }
}

/// Two distinct descriptor-aligned offsets are at least a descriptor apart.
proof fn lemma_next_aligned(off: int, o: int, ds: int)
    requires
        ds > 0,
        0 <= off < o,
        off % ds == 0,
        o % ds == 0,
    ensures
        off + ds <= o,
{
    vstd::arithmetic::div_mod::lemma_fundamental_div_mod(off, ds);
    vstd::arithmetic::div_mod::lemma_fundamental_div_mod(o, ds);
    let a = off / ds;
    let b = o / ds;
    assert(off + ds <= o) by (nonlinear_arith)
        requires
            off == ds * a,
            o == ds * b,
            off < o,
            ds > 0,
    {
        assert(a < b);
    }
}

} // verus!
