//! Four-level page tables: entry codec, table blocks, a bump frame allocator
//! and the mapper that installs 4 KiB mappings.

use vstd::prelude::*;

pub mod flags;
pub mod laws;

verus! {

/// Number of entries in one page table.
pub const ENTRIES_PER_TABLE: usize = 512;

/// Size of a frame and of a page, in bytes.
pub const FRAME_SIZE: u64 = 4096;

/// Bits 12 to 51 of an entry: the physical frame address.
pub const ADDRESS_MASK: u64 = 0x000F_FFFF_FFFF_F000;

/// The raw entry that `set` stores for a frame and flags: the frame's address
/// bits, and every flag bit that lies outside the address field.
pub open spec fn entry_bits(frame: u64, flag_bits: u64) -> u64 {
    (frame & ADDRESS_MASK) | (flag_bits & !ADDRESS_MASK)
}

/// Whether a raw entry has the present bit.
pub open spec fn entry_present(raw: u64) -> bool {
    raw & flags::PRESENT != 0
}

/// The frame address held in a raw entry.
pub open spec fn entry_addr(raw: u64) -> u64 {
    raw & ADDRESS_MASK
}

/// The flag bits held in a raw entry.
pub open spec fn entry_flags(raw: u64) -> u64 {
    raw & !ADDRESS_MASK
}

/// One 8-byte page-table entry.
#[derive(Clone, Copy)]
pub struct PageTableEntry(u64);

impl View for PageTableEntry {
    type V = u64;

    closed spec fn view(&self) -> u64 {
        self.0
    }
}

impl PageTableEntry {
    /// An empty entry.
    pub fn new() -> (entry: Self)
        ensures
            entry@ == 0,
    {
        Self(0)
    }

    /// Points the entry at `frame` with the given flag bits.
    pub fn set(&mut self, frame: u64, flag_bits: u64)
        requires
            frame % FRAME_SIZE == 0,
        ensures
            final(self)@ == entry_bits(frame, flag_bits),
    {
        self.0 = (frame & ADDRESS_MASK) | (flag_bits & !ADDRESS_MASK);
    }

    /// Whether the present bit is clear.
    pub fn is_unused(&self) -> (unused: bool)
        ensures
            unused == !entry_present(self@),
    {
        (self.0 & flags::PRESENT) == 0
    }

    /// The frame address held in the entry: always a multiple of 4096
    /// below 2^52.
    pub fn addr(&self) -> (frame: u64)
        ensures
            frame == entry_addr(self@),
            frame % FRAME_SIZE == 0,
            frame <= ADDRESS_MASK,
    {
        proof {
            lemma_entry_layout(0, 0, self.0);
        }
        self.0 & ADDRESS_MASK
    }

    /// The flag bits held in the entry.
    pub fn flags(&self) -> (flag_bits: u64)
        ensures
            flag_bits == entry_flags(self@),
    {
        self.0 & !ADDRESS_MASK
    }

    /// The raw 8-byte value.
    pub fn raw(&self) -> (bits: u64)
        ensures
            bits == self@,
    {
        self.0
    }

    /// Resets the entry to empty.
    pub fn clear(&mut self)
        ensures
            final(self)@ == 0,
    {
        self.0 = 0;
    }
}

/// One page table: 512 entries.
pub struct PageTable {
    entries: [PageTableEntry; 512],
}

impl View for PageTable {
    type V = Seq<u64>;

    closed spec fn view(&self) -> Seq<u64> {
        Seq::new(512, |i: int| self.entries[i]@)
    }
}

impl PageTable {
    /// A table has 512 entries.
    pub proof fn lemma_len(&self)
        ensures
            self@.len() == 512,
    {
    }

    /// A table of empty entries.
    pub fn new() -> (table: Self)
        ensures
            table@ == zero_table(),
            table@.len() == 512,
    {
        let table = Self { entries: [PageTableEntry::new(); 512] };
        assert(table@ =~= zero_table());
        table
    }

    /// Clears every entry.
    pub fn zero(&mut self)
        ensures
            final(self)@ == zero_table(),
            final(self)@.len() == 512,
    {
        let mut i: usize = 0;
        while i < 512
            invariant
                i <= 512,
                forall|j: int| 0 <= j < i ==> self.entries[j]@ == 0,
            decreases 512 - i,
        {
            self.entries[i].clear();
            i += 1;
        }
        assert(self@ =~= zero_table());
    }

    /// A copy of the entry at `index`.
    pub fn entry(&self, index: usize) -> (entry: PageTableEntry)
        requires
            index < ENTRIES_PER_TABLE,
        ensures
            self@.len() == 512,
            entry@ == self@[index as int],
    {
        self.entries[index]
    }

    /// The entry at `index`, for reading or writing.
    pub fn entry_mut(&mut self, index: usize) -> (entry: &mut PageTableEntry)
        requires
            index < ENTRIES_PER_TABLE,
        ensures
            old(self)@.len() == 512,
            final(self)@.len() == 512,
            (*entry)@ == old(self)@[index as int],
            final(self)@ == old(self)@.update(index as int, (*final(entry))@),
    {
        &mut self.entries[index]
    }
}

/// The contents of a table whose entries are all empty.
pub open spec fn zero_table() -> Seq<u64> {
    Seq::new(512, |i: int| 0u64)
}

/// Facts about the bit layout of an entry: what `set` stores can be read
/// back, an address read from an entry is a multiple of 4096 below 2^52, and
/// a frame address of that shape passes through an entry unchanged.
pub proof fn lemma_entry_layout(frame: u64, flag_bits: u64, raw: u64)
    by (bit_vector)
    ensures
        entry_addr(entry_bits(frame, flag_bits)) == frame & ADDRESS_MASK,
        entry_flags(entry_bits(frame, flag_bits)) == flag_bits & !ADDRESS_MASK,
        entry_present(entry_bits(frame, flag_bits)) == (flag_bits & 0x1 != 0),
        entry_present(entry_bits(frame, 0x3)),
        entry_addr(raw) % 4096 == 0,
        entry_addr(raw) <= ADDRESS_MASK,
        !entry_present(0),
        (frame % 4096 == 0 && frame <= ADDRESS_MASK) ==> frame & ADDRESS_MASK == frame,
        flag_bits & ADDRESS_MASK == 0 ==> flag_bits & !ADDRESS_MASK == flag_bits,
        (raw & !0xFFFu64) == raw - raw % 4096,
{
}

/// The largest multiple of 4096 that is not above `addr`.
pub open spec fn spec_align_down(addr: int) -> int {
    addr - addr % 4096
}

/// The smallest multiple of 4096 that is not below `addr`.
pub open spec fn spec_align_up(addr: int) -> int {
    spec_align_down(addr + 4095)
}

/// Rounds `addr` up to a frame boundary.
pub fn align_up(addr: u64) -> (aligned: u64)
    requires
        addr + FRAME_SIZE - 1 <= u64::MAX,
    ensures
        aligned == spec_align_up(addr as int),
        aligned % FRAME_SIZE == 0,
        addr <= aligned < addr + FRAME_SIZE,
{
    let bumped: u64 = addr + (FRAME_SIZE - 1);
    proof {
        lemma_entry_layout(0, 0, bumped);
    }
    bumped & !(FRAME_SIZE - 1)
}

/// Rounds `addr` down to a frame boundary.
pub fn align_down(addr: u64) -> (aligned: u64)
    ensures
        aligned == spec_align_down(addr as int),
        aligned % FRAME_SIZE == 0,
        aligned <= addr < aligned + FRAME_SIZE,
{
    proof {
        lemma_entry_layout(0, 0, addr);
    }
    addr & !0xFFF
}

/// The 9-bit slice of a virtual address that starts at bit `shift`.
pub open spec fn spec_index(addr: u64, shift: u64) -> usize {
    ((addr >> shift) & 0x1FF) as usize
}

/// Every 9-bit slice is below 512.
pub proof fn lemma_index_bound(addr: u64)
    by (bit_vector)
    ensures
        (addr >> 39) & 0x1FF < 512,
        (addr >> 30) & 0x1FF < 512,
        (addr >> 21) & 0x1FF < 512,
        (addr >> 12) & 0x1FF < 512,
{
}

/// Index into the top-level table: bits 39 to 47 of the address.
pub fn pml4_index(addr: u64) -> (index: usize)
    ensures
        index == spec_index(addr, 39),
        index < ENTRIES_PER_TABLE,
{
    proof {
        lemma_index_bound(addr);
    }
    ((addr >> 39) & 0x1FF) as usize
}

/// Index into the second-level table: bits 30 to 38 of the address.
pub fn pdpt_index(addr: u64) -> (index: usize)
    ensures
        index == spec_index(addr, 30),
        index < ENTRIES_PER_TABLE,
{
    proof {
        lemma_index_bound(addr);
    }
    ((addr >> 30) & 0x1FF) as usize
}

/// Index into the third-level table: bits 21 to 29 of the address.
pub fn pd_index(addr: u64) -> (index: usize)
    ensures
        index == spec_index(addr, 21),
        index < ENTRIES_PER_TABLE,
{
    proof {
        lemma_index_bound(addr);
    }
    ((addr >> 21) & 0x1FF) as usize
}

/// Index into the leaf table: bits 12 to 20 of the address.
pub fn pt_index(addr: u64) -> (index: usize)
    ensures
        index == spec_index(addr, 12),
        index < ENTRIES_PER_TABLE,
{
    proof {
        lemma_index_bound(addr);
    }
    ((addr >> 12) & 0x1FF) as usize
}

/// The physical base that the page-table-base register holds: bits 12 to 51
/// of its raw value.
pub fn read_cr3_phys(raw: u64) -> (base: u64)
    ensures
        base == entry_addr(raw),
        base % FRAME_SIZE == 0,
{
    proof {
        lemma_entry_layout(0, 0, raw);
    }
    raw & 0x000F_FFFF_FFFF_F000
}

/// The paging bit, bit 31, of the control-mode register.
pub const PAGING_BIT: u64 = 0x8000_0000;

/// The value to write to the control-mode register so that paging is on, or
/// nothing where `cr0` has the paging bit already.
pub fn enable_paging(cr0: u64) -> (update: Option<u64>)
    ensures
        update == (if cr0 & PAGING_BIT == 0 {
            Some(cr0 | PAGING_BIT)
        } else {
            None::<u64>
        }),
{
    if cr0 & PAGING_BIT == 0 {
        Some(cr0 | PAGING_BIT)
    } else {
        None
    }
}

/// One stretch of physical memory, from `start` up to but without `end`.
#[derive(Clone, Copy, Debug, PartialEq, Eq, Structural)]
pub struct MemoryRegion {
    pub start: u64,
    pub end: u64,
    /// Whether frames may be taken from the stretch.
    pub usable: bool,
}

/// How many frames a stretch yields from the frame boundary `next` on: one
/// for every whole 4096 bytes before its end. What the end cuts short is no
/// frame.
pub open spec fn frames_left(region: MemoryRegion, next: int) -> nat {
    if region.usable && next < region.end {
        ((region.end - next) / 4096) as nat
    } else {
        0
    }
}

/// The frames a stretch yields from the frame boundary `next` on, in
/// ascending order.
pub open spec fn frames_from(region: MemoryRegion, next: int) -> Seq<u64> {
    Seq::new(frames_left(region, next), |k: int| (next + 4096 * k) as u64)
}

/// The frames of a stretch: from its start rounded up to a frame boundary.
pub open spec fn region_frames(region: MemoryRegion) -> Seq<u64> {
    frames_from(region, spec_align_up(region.start as int))
}

/// The frames of a memory map: those of each stretch, in the map's order.
pub open spec fn frames_of(regions: Seq<MemoryRegion>) -> Seq<u64>
    decreases regions.len(),
{
    if regions.len() == 0 {
        Seq::empty()
    } else {
        region_frames(regions[0]) + frames_of(regions.skip(1))
    }
}

/// The number of usable frames of a memory map.
pub open spec fn usable_frames(regions: Seq<MemoryRegion>) -> nat
    decreases regions.len(),
{
    if regions.len() == 0 {
        0
    } else {
        frames_left(regions[0], spec_align_up(regions[0].start as int)) + usable_frames(
            regions.skip(1),
        )
    }
}

/// Whether the stretches of a memory map come in ascending order without
/// overlap.
pub open spec fn regions_ordered(regions: Seq<MemoryRegion>) -> bool {
    forall|i: int, j: int| 0 <= i < j < regions.len() ==> regions[i].end <= regions[j].start
}

/// Whether frames come in strictly ascending order, so that none comes
/// twice.
pub open spec fn ascending(frames: Seq<u64>) -> bool {
    forall|i: int, j: int| 0 <= i < j < frames.len() ==> frames[i] < frames[j]
}

/// Whether the stretches of a memory map come in ascending order without
/// overlap.
pub fn regions_in_order(regions: &Vec<MemoryRegion>) -> (ordered: bool)
    ensures
        ordered == regions_ordered(regions@),
{
    let mut highest: u64 = 0;
    let ghost mut at: int = 0;
    let mut j: usize = 0;
    while j < regions.len()
        invariant
            j <= regions.len(),
            regions_ordered(regions@.take(j as int)),
            forall|i: int| 0 <= i < j ==> regions[i].end <= highest,
            j > 0 ==> 0 <= at < j && regions[at].end == highest,
            j == 0 ==> highest == 0,
        decreases regions.len() - j,
    {
        let region = regions[j];
        if region.start < highest {
            assert(!(regions@[at].end <= regions@[j as int].start));
            return false;
        }
        proof {
            let longer = regions@.take(j + 1);
            assert forall|a: int, b: int| 0 <= a < b < longer.len() implies longer[a].end <= longer[b].start by {
                if b < j {
                    assert(regions@.take(j as int)[a].end <= regions@.take(j as int)[b].start);
                }
            }
        }
        if region.end >= highest {
            highest = region.end;
            proof {
                at = j as int;
            }
        }
        j += 1;
    }
    assert(regions@.take(j as int) =~= regions@);
    true
}

/// Whether a stretch can hold `bytes` of page tables: it is usable, starts
/// on a frame boundary, and is at least that long.
pub open spec fn holds_tables(region: MemoryRegion, bytes: u64) -> bool {
    region.usable && region.start % 4096 == 0 && region.start <= region.end && region.end
        - region.start >= bytes
}

/// Where the first stretch of a memory map that can hold `bytes` of page
/// tables starts; nothing where no stretch can.
pub fn table_window(regions: &Vec<MemoryRegion>, bytes: u64) -> (window: Option<u64>)
    ensures
        window is None ==> forall|i: int| 0 <= i < regions.len() ==> !holds_tables(#[trigger] regions[i], bytes),
        window matches Some(start) ==> exists|i: int|
            0 <= i < regions.len() && holds_tables(#[trigger] regions[i], bytes) && regions[i].start
                == start && forall|j: int| 0 <= j < i ==> !holds_tables(#[trigger] regions[j], bytes),
{
    let mut i: usize = 0;
    while i < regions.len()
        invariant
            i <= regions.len(),
            forall|j: int| 0 <= j < i ==> !holds_tables(#[trigger] regions[j], bytes),
        decreases regions.len() - i,
    {
        let region = regions[i];
        if region.usable && region.start % FRAME_SIZE == 0 && region.start <= region.end && region.end
            - region.start >= bytes {
            assert(holds_tables(regions[i as int], bytes));
            return Some(region.start);
        }
        i += 1;
    }
    None
}

/// What the next call of an allocator returns, given the frames it still
/// holds.
pub open spec fn spec_next_frame(upcoming: Seq<u64>) -> Option<u64> {
    if upcoming.len() > 0 {
        Some(upcoming[0])
    } else {
        None
    }
}

/// The frames an allocator still holds after one more call.
pub open spec fn spec_rest_frames(upcoming: Seq<u64>) -> Seq<u64> {
    if upcoming.len() > 0 {
        upcoming.skip(1)
    } else {
        upcoming
    }
}

/// A source of physical frames for page-table structures. An allocator
/// hands its frames out one by one and never takes one back; once it has
/// none left it returns `None` on every call.
pub trait FrameAllocator {
    /// The frames that the coming calls hand out, in order. An allocator
    /// that says nothing of its frames leaves them unknown.
    open spec fn upcoming(&self) -> Seq<u64> {
        arbitrary()
    }

    /// Hands out the next frame, or `None` when none is left.
    fn allocate_frame(&mut self) -> (frame: Option<u64>)
        ensures
            frame == spec_next_frame(old(self).upcoming()),
            final(self).upcoming() == spec_rest_frames(old(self).upcoming()),
    ;
}

/// An allocator that walks a memory map from its first stretch to its last
/// and hands out the frames of the usable stretches in ascending order.
pub struct BumpFrameAllocator {
    regions: Vec<MemoryRegion>,
    index: usize,
    next: u64,
}

impl BumpFrameAllocator {
    #[verifier::type_invariant]
    closed spec fn map_in_order(&self) -> bool {
        regions_ordered(self.regions@)
    }

    /// The memory map the allocator walks.
    pub closed spec fn spec_regions(&self) -> Seq<MemoryRegion> {
        self.regions@
    }

    /// The frames still to come are in ascending order, whatever was handed
    /// out before.
    pub proof fn lemma_upcoming_ascending(&self)
        requires
            regions_ordered(self.spec_regions()),
        ensures
            ascending(self.upcoming()),
    {
        if self.index < self.regions.len() {
            let region = self.regions[self.index as int];
            let head = frames_from(region, self.next as int);
            let rest = self.regions@.skip(self.index + 1);
            let tail = frames_of(rest);
            assert forall|i: int, j: int| 0 <= i < j < rest.len() implies rest[i].end <= rest[j].start by {
                assert(rest[i] == self.regions[self.index + 1 + i]);
                assert(rest[j] == self.regions[self.index + 1 + j]);
            }
            laws::lemma_frames_ascending(rest);
            let all = head + tail;
            assert forall|i: int, j: int| 0 <= i < j < all.len() implies all[i] < all[j] by {
                if j < head.len() {
                } else if i < head.len() {
                    let t = j - head.len();
                    assert(all[j] == tail[t]);
                    let r = choose|r: int| 0 <= r < rest.len() && laws::frame_in_region(tail[t], rest[r]);
                    assert(rest[r] == self.regions[self.index + 1 + r]);
                    assert(region.end <= self.regions[self.index + 1 + r].start);
                    assert(all[i] == head[i]);
                    assert(head[i] + 4096 <= region.end);
                } else {
                    assert(all[i] == tail[i - head.len()]);
                    assert(all[j] == tail[j - head.len()]);
                }
            }
        }
    }

    /// The frames still to come: the rest of the current stretch, then the
    /// stretches behind it.
    pub closed spec fn spec_upcoming(&self) -> Seq<u64> {
        if self.index < self.regions.len() {
            frames_from(self.regions[self.index as int], self.next as int) + frames_of(
                self.regions@.skip(self.index + 1),
            )
        } else {
            Seq::empty()
        }
    }

    /// Whether the walk is past the last stretch or at a frame that the
    /// current stretch still holds.
    closed spec fn spec_settled(&self) -> bool {
        &&& self.index <= self.regions.len()
        &&& self.index < self.regions.len() ==> {
            let region = self.regions[self.index as int];
            region.usable && self.next < region.end && region.end - self.next >= 4096
        }
    }

    /// An allocator over the single usable stretch from `start` to `end`:
    /// it holds the whole frames between the two, in ascending order.
    pub fn new(start: u64, end: u64) -> (allocator: Self)
        ensures
            allocator.spec_regions() == seq![MemoryRegion { start, end, usable: true }],
            allocator.upcoming() == frames_of(allocator.spec_regions()),
            allocator.upcoming() == region_frames(MemoryRegion { start, end, usable: true }),
            ascending(allocator.upcoming()),
    {
        let mut regions: Vec<MemoryRegion> = Vec::new();
        regions.push(MemoryRegion { start, end, usable: true });
        proof {
            let only = MemoryRegion { start, end, usable: true };
            assert(regions@[0] == only);
            assert(regions@.skip(1) =~= Seq::<MemoryRegion>::empty());
            assert(frames_of(regions@.skip(1)) =~= Seq::<u64>::empty());
            assert(frames_of(regions@) =~= region_frames(only));
        }
        Self::from_regions(regions)
    }

    /// An allocator over an ordered memory map: it holds the whole frames
    /// of the usable stretches, in ascending order.
    pub fn from_regions(regions: Vec<MemoryRegion>) -> (allocator: Self)
        requires
            regions_ordered(regions@),
        ensures
            allocator.spec_regions() == regions@,
            allocator.upcoming() == frames_of(regions@),
            ascending(allocator.upcoming()),
    {
        let mut allocator = BumpFrameAllocator { regions, index: 0, next: 0 };
        proof {
            assert(allocator.regions@.skip(0) =~= allocator.regions@);
            laws::lemma_frames_ascending(regions@);
        }
        allocator.settle();
        allocator
    }

    /// Moves to the first stretch, from the current one on, that has a frame
    /// at its start; past the last stretch where there is none.
    fn settle(&mut self)
        requires
            old(self).index <= old(self).regions.len(),
        ensures
            final(self).regions == old(self).regions,
            final(self).spec_upcoming() == frames_of(old(self).regions@.skip(old(self).index as int)),
            final(self).index <= final(self).regions.len(),
            final(self).spec_settled(),
    {
        proof {
            use_type_invariant(&*self);
        }
        while self.index < self.regions.len()
            invariant
                self.index <= self.regions.len(),
                self.regions == old(self).regions,
                regions_ordered(self.regions@),
                frames_of(self.regions@.skip(self.index as int)) == frames_of(
                    old(self).regions@.skip(old(self).index as int),
                ),
            decreases self.regions.len() - self.index,
        {
            let region = self.regions[self.index];
            proof {
                let rest = self.regions@.skip(self.index as int);
                assert(rest[0] == region);
                assert(rest.skip(1) =~= self.regions@.skip(self.index + 1));
            }
            if region.usable && region.start <= u64::MAX - (FRAME_SIZE - 1) {
                let first = align_up(region.start);
                if first < region.end && region.end - first >= FRAME_SIZE {
                    self.next = first;
                    return ;
                }
            }
            assert(region_frames(region) =~= Seq::<u64>::empty());
            self.index += 1;
        }
        proof {
            assert(self.regions@.skip(self.index as int) =~= Seq::<MemoryRegion>::empty());
        }
    }

    /// How many frames are still to come.
    pub fn remaining(&self) -> (count: u64)
        requires
            self.upcoming().len() <= u64::MAX,
        ensures
            count == self.upcoming().len(),
    {
        let mut count: u64 = 0;
        if self.index < self.regions.len() {
            let region = self.regions[self.index];
            if region.usable && self.next < region.end {
                count = (region.end - self.next) / FRAME_SIZE;
            }
            let mut i: usize = self.index + 1;
            proof {
                lemma_frames_of_len(self.regions@.skip(i as int));
            }
            while i < self.regions.len()
                invariant
                    self.index < i <= self.regions.len(),
                    self.upcoming().len() <= u64::MAX,
                    self.upcoming().len() == count + usable_frames(self.regions@.skip(i as int)),
                decreases self.regions.len() - i,
            {
                let other = self.regions[i];
                proof {
                    let rest = self.regions@.skip(i as int);
                    assert(rest[0] == other);
                    assert(rest.skip(1) =~= self.regions@.skip(i + 1));
                }
                if other.usable && other.start <= u64::MAX - (FRAME_SIZE - 1) {
                    let first = align_up(other.start);
                    if first < other.end {
                        count = count + (other.end - first) / FRAME_SIZE;
                    }
                }
                i += 1;
            }
            proof {
                assert(self.regions@.skip(i as int) =~= Seq::<MemoryRegion>::empty());
            }
        }
        count
    }
}

impl FrameAllocator for BumpFrameAllocator {
    closed spec fn upcoming(&self) -> Seq<u64> {
        self.spec_upcoming()
    }

    fn allocate_frame(&mut self) -> (frame: Option<u64>)
        ensures
            ascending(old(self).upcoming()),
            ascending(final(self).upcoming()),
            final(self).spec_regions() == old(self).spec_regions(),
            frame matches Some(handed) ==> forall|k: int|
                0 <= k < final(self).upcoming().len() ==> handed < #[trigger] final(self).upcoming()[k],
    {
        proof {
            use_type_invariant(&*self);
            self.lemma_upcoming_ascending();
            laws::lemma_ascending_rest(self.spec_upcoming(), if self.spec_upcoming().len() > 0 {
                1int
            } else {
                0int
            });
        }
        if self.index < self.regions.len() {
            let current = self.regions[self.index];
            if !(current.usable && self.next < current.end && current.end - self.next >= FRAME_SIZE) {
                assert(frames_from(current, self.next as int) =~= Seq::<u64>::empty());
                assert(self.spec_upcoming() =~= frames_of(self.regions@.skip(self.index + 1)));
                self.index += 1;
                self.settle();
            }
        }
        assert(self.spec_upcoming() == old(self).spec_upcoming());
        if self.index >= self.regions.len() {
            return None;
        }
        let ghost before = self.spec_upcoming();
        let region = self.regions[self.index];
        let frame = self.next;
        assert(frames_from(region, frame as int)[0] == frame);
        self.next = frame + FRAME_SIZE;
        assert(frames_from(region, frame as int).skip(1) =~= frames_from(region, frame + FRAME_SIZE));
        assert(before.skip(1) =~= self.spec_upcoming());
        assert forall|k: int| 0 <= k < self.spec_upcoming().len() implies frame < #[trigger] self.spec_upcoming()[k] by {
            assert(self.spec_upcoming()[k] == before[k + 1]);
            assert(before[0] == frame);
        }
        Some(frame)
    }
}

/// A memory map has as many frames as its stretches have together.
pub proof fn lemma_frames_of_len(regions: Seq<MemoryRegion>)
    ensures
        frames_of(regions).len() == usable_frames(regions),
    decreases regions.len(),
{
    if regions.len() > 0 {
        lemma_frames_of_len(regions.skip(1));
    }
}

/// The contents of a stretch of memory that holds page tables: block `i`
/// is the table at address `base + 4096 * i`.
pub struct MemoryView {
    pub base: u64,
    pub tables: Seq<Seq<u64>>,
}

impl MemoryView {
    /// The block that holds the table at address `addr`, if the address is
    /// the start of one.
    pub open spec fn slot(self, addr: int) -> Option<int> {
        if self.base <= addr <= u64::MAX && (addr - self.base) % 4096 == 0 && (addr - self.base)
            / 4096 < self.tables.len() {
            Some((addr - self.base) / 4096)
        } else {
            None
        }
    }

    /// The memory with block `slot` replaced.
    pub open spec fn with_table(self, slot: int, table: Seq<u64>) -> MemoryView {
        MemoryView { tables: self.tables.update(slot, table), ..self }
    }

    /// The memory with one entry of block `slot` replaced.
    pub open spec fn with_entry(self, slot: int, index: int, raw: u64) -> MemoryView {
        self.with_table(slot, self.tables[slot].update(index, raw))
    }

    /// Whether every block is a table of 512 entries.
    pub open spec fn well_formed(self) -> bool {
        forall|i: int| 0 <= i < self.tables.len() ==> (#[trigger] self.tables[i]).len() == 512
    }
}

/// Memory that holds page tables, as fixed-size blocks addressed by where
/// each starts.
pub struct PhysMemory {
    base: u64,
    tables: Vec<PageTable>,
}

impl View for PhysMemory {
    type V = MemoryView;

    closed spec fn view(&self) -> MemoryView {
        MemoryView { base: self.base, tables: Seq::new(self.tables.len() as nat, |i: int| self.tables[i]@) }
    }
}

impl PhysMemory {
    /// `count` zeroed blocks, the first at address `base`.
    pub fn new(base: u64, count: usize) -> (memory: Self)
        requires
            base % FRAME_SIZE == 0,
        ensures
            memory@.base == base,
            memory@.tables == Seq::new(count as nat, |i: int| zero_table()),
            memory@.well_formed(),
    {
        let mut tables: Vec<PageTable> = Vec::new();
        let mut i: usize = 0;
        while i < count
            invariant
                i <= count,
                tables.len() == i,
                forall|j: int| 0 <= j < i ==> tables[j]@ == zero_table(),
            decreases count - i,
        {
            tables.push(PageTable::new());
            i += 1;
        }
        let memory = PhysMemory { base, tables };
        assert(memory@.tables =~= Seq::new(count as nat, |i: int| zero_table()));
        memory
    }

    /// Every block of memory is a table of 512 entries.
    pub proof fn lemma_well_formed(&self)
        ensures
            self@.well_formed(),
    {
    }

    /// Address of the first block.
    pub fn base(&self) -> (base: u64)
        ensures
            base == self@.base,
    {
        self.base
    }

    /// Number of blocks.
    pub fn len(&self) -> (count: usize)
        ensures
            count == self@.tables.len(),
    {
        self.tables.len()
    }

    /// The block that holds the table at `addr`, if the address is the start
    /// of one.
    pub fn slot(&self, addr: u64) -> (slot: Option<usize>)
        ensures
            slot matches Some(i) ==> self@.slot(addr as int) == Some(i as int),
            slot is None ==> self@.slot(addr as int) is None,
    {
        if addr < self.base {
            return None;
        }
        let distance: u64 = addr - self.base;
        if distance % FRAME_SIZE != 0 {
            return None;
        }
        let block: u64 = distance / FRAME_SIZE;
        if block >= self.tables.len() as u64 {
            return None;
        }
        Some(block as usize)
    }

    /// A copy of entry `index` of block `slot`.
    pub fn entry(&self, slot: usize, index: usize) -> (entry: PageTableEntry)
        requires
            slot < self@.tables.len(),
            index < ENTRIES_PER_TABLE,
        ensures
            entry@ == self@.tables[slot as int][index as int],
    {
        self.tables[slot].entry(index)
    }

    /// Clears every entry of block `slot`.
    pub fn zero_table(&mut self, slot: usize)
        requires
            slot < old(self)@.tables.len(),
        ensures
            final(self)@ == old(self)@.with_table(slot as int, zero_table()),
    {
        self.tables[slot].zero();
        assert(self@.tables =~= old(self)@.tables.update(slot as int, zero_table()));
    }

    /// Points entry `index` of block `slot` at `frame` with the given flags.
    pub fn set_entry(&mut self, slot: usize, index: usize, frame: u64, flag_bits: u64)
        requires
            slot < old(self)@.tables.len(),
            index < ENTRIES_PER_TABLE,
            frame % FRAME_SIZE == 0,
        ensures
            final(self)@ == old(self)@.with_entry(
                slot as int,
                index as int,
                entry_bits(frame, flag_bits),
            ),
    {
        let entry = self.tables[slot].entry_mut(index);
        entry.set(frame, flag_bits);
        assert(self@.tables =~= old(self)@.tables.update(
            slot as int,
            old(self)@.tables[slot as int].update(index as int, entry_bits(frame, flag_bits)),
        ));
    }
}

/// Why a mapping could not be installed.
#[derive(Clone, Copy, Debug, PartialEq, Eq, Structural)]
pub enum MapError {
    /// The allocator has no frame left for a missing table. The mapper is
    /// not to be called on such an input, so it never returns this; the
    /// walk's description uses it to name the input that is left out.
    OutOfFrames,
    /// The allocator handed out a frame that is not 4 KiB aligned.
    MisalignedFrame,
    /// A table of the hierarchy lies outside the memory at hand.
    Unbacked,
}

/// What a walk has to work with and leaves behind: the memory and the frames
/// that the allocator still holds.
pub struct WalkState {
    pub memory: MemoryView,
    pub frames: Seq<u64>,
}

/// The flags of an entry that points to a child table.
pub open spec fn table_flags() -> u64 {
    0x3
}

/// Installing `frame` as the child table behind entry `index` of block
/// `parent`: the table at the frame is zeroed, then the entry is pointed at
/// it, present and writable. A frame that is not 4 KiB aligned, or whose
/// table memory does not hold, changes nothing.
pub open spec fn spec_install_table(
    memory: MemoryView,
    offset: u64,
    parent: int,
    index: int,
    frame: u64,
) -> (MemoryView, Result<u64, MapError>) {
    if frame % 4096 != 0 {
        (memory, Err(MapError::MisalignedFrame))
    } else {
        match memory.slot(frame + offset) {
            None => (memory, Err(MapError::Unbacked)),
            Some(child) => (
                memory.with_table(child, zero_table()).with_entry(
                    parent,
                    index,
                    entry_bits(frame, table_flags()),
                ),
                Ok(frame),
            ),
        }
    }
}

/// One step down the hierarchy, from entry `index` of the table at
/// `table_phys`. A present entry names the child and nothing changes. For an
/// absent one the next frame is taken from the allocator and installed as
/// the child. `offset` is added to a physical address to find its table in
/// memory.
pub open spec fn spec_next_table(state: WalkState, offset: u64, table_phys: u64, index: int) -> (
    WalkState,
    Result<u64, MapError>,
) {
    match state.memory.slot(table_phys + offset) {
        None => (state, Err(MapError::Unbacked)),
        Some(parent) => {
            let entry = state.memory.tables[parent][index];
            if entry_present(entry) {
                (state, Ok(entry_addr(entry)))
            } else if state.frames.len() == 0 {
                (state, Err(MapError::OutOfFrames))
            } else {
                let (memory, installed) = spec_install_table(
                    state.memory,
                    offset,
                    parent,
                    index,
                    state.frames[0],
                );
                (WalkState { memory, frames: state.frames.skip(1) }, installed)
            }
        },
    }
}

/// The last step of a walk, at entry `index` of the leaf table at
/// `table_phys`: a present entry stays as it is, an absent one is pointed at
/// `phys` with the given flags.
pub open spec fn spec_map_leaf(
    state: WalkState,
    offset: u64,
    table_phys: u64,
    index: int,
    phys: u64,
    flag_bits: u64,
) -> (WalkState, Result<(), MapError>) {
    match state.memory.slot(table_phys + offset) {
        None => (state, Err(MapError::Unbacked)),
        Some(leaf) => {
            if entry_present(state.memory.tables[leaf][index]) {
                (state, Ok(()))
            } else {
                (
                    WalkState {
                        memory: state.memory.with_entry(leaf, index, entry_bits(phys, flag_bits)),
                        ..state
                    },
                    Ok(()),
                )
            }
        },
    }
}

/// Mapping the page of `virt` to the frame `phys`: three steps down from the
/// root at `root`, by bits 39 to 47, 30 to 38 and 21 to 29 of the address,
/// then the leaf entry by bits 12 to 20. The walk stops at the first step
/// that fails.
pub open spec fn spec_map_page(
    state: WalkState,
    root: u64,
    offset: u64,
    virt: u64,
    phys: u64,
    flag_bits: u64,
) -> (WalkState, Result<(), MapError>) {
    let (s1, r1) = spec_next_table(state, offset, root, spec_index(virt, 39) as int);
    match r1 {
        Err(e) => (s1, Err(e)),
        Ok(pdpt) => {
            let (s2, r2) = spec_next_table(s1, offset, pdpt, spec_index(virt, 30) as int);
            match r2 {
                Err(e) => (s2, Err(e)),
                Ok(pd) => {
                    let (s3, r3) = spec_next_table(s2, offset, pd, spec_index(virt, 21) as int);
                    match r3 {
                        Err(e) => (s3, Err(e)),
                        Ok(pt) => spec_map_leaf(
                            s3,
                            offset,
                            pt,
                            spec_index(virt, 12) as int,
                            phys,
                            flag_bits,
                        ),
                    }
                },
            }
        },
    }
}

/// Mapping `count` pages in a row, the first from `virt` to `phys`, each
/// next one 4096 bytes on. The run stops at the first page that fails.
pub open spec fn spec_map_pages(
    state: WalkState,
    root: u64,
    offset: u64,
    virt: int,
    phys: int,
    count: nat,
    flag_bits: u64,
) -> (WalkState, Result<(), MapError>)
    decreases count,
{
    if count == 0 {
        (state, Ok(()))
    } else {
        let (next, result) = spec_map_page(state, root, offset, virt as u64, phys as u64, flag_bits);
        match result {
            Err(e) => (next, Err(e)),
            Ok(_) => spec_map_pages(
                next,
                root,
                offset,
                virt + 4096,
                phys + 4096,
                (count - 1) as nat,
                flag_bits,
            ),
        }
    }
}

/// The table behind entry `index` of the table at `table_phys`, as a walk
/// that changes nothing finds it: the block of the child, where the entry is
/// present and memory holds the child.
pub open spec fn child_slot(memory: MemoryView, offset: u64, parent: int, index: int) -> Option<int> {
    let entry = memory.tables[parent][index];
    if entry_present(entry) {
        memory.slot(entry_addr(entry) + offset)
    } else {
        None
    }
}

/// The blocks of the tables that exist on the way to the page of `virt`,
/// the root first: up to four, fewer where an entry on the way is absent.
pub open spec fn walk_path(memory: MemoryView, root: u64, offset: u64, virt: u64) -> Seq<int> {
    match memory.slot(root + offset) {
        None => Seq::empty(),
        Some(slot0) => match child_slot(memory, offset, slot0, spec_index(virt, 39) as int) {
            None => seq![slot0],
            Some(slot1) => match child_slot(memory, offset, slot1, spec_index(virt, 30) as int) {
                None => seq![slot0, slot1],
                Some(slot2) => match child_slot(memory, offset, slot2, spec_index(virt, 21) as int) {
                    None => seq![slot0, slot1, slot2],
                    Some(slot3) => seq![slot0, slot1, slot2, slot3],
                },
            },
        },
    }
}

/// How many tables are missing on the way to the page of `virt`: at most
/// three below a root that memory holds, and four, the root among them,
/// where memory does not hold the root.
pub open spec fn missing_tables(memory: MemoryView, root: u64, offset: u64, virt: u64) -> int {
    4 - walk_path(memory, root, offset, virt).len()
}

/// One privileged action of switching to a hierarchy.
#[derive(Clone, Copy, Debug, PartialEq, Eq, Structural)]
pub enum ActivateStep {
    /// Load the page-table-base register with this physical address.
    LoadBase(u64),
    /// Write this value to the control-mode register.
    SetControl(u64),
}

/// The actions that switch to the hierarchy at `root`: the base register
/// first; then the control-mode register, where `cr0` has paging off.
pub open spec fn spec_activate(root: u64, cr0: u64) -> Seq<ActivateStep> {
    if cr0 & PAGING_BIT == 0 {
        seq![ActivateStep::LoadBase(root), ActivateStep::SetControl(cr0 | PAGING_BIT)]
    } else {
        seq![ActivateStep::LoadBase(root)]
    }
}

/// The mapper: the root of a page-table hierarchy, the offset at which
/// physical memory is mirrored, and the memory that holds the tables.
pub struct Mapper {
    pml4_phys: u64,
    phys_offset: u64,
    memory: PhysMemory,
    /// The tables that the mapper knows to belong to its hierarchy, each
    /// with its depth.
    levels: Ghost<Map<int, int>>,
}

/// The pages of a range: page `k` starts `4096 * k` bytes after `virt`.
pub open spec fn range_settled(memory: MemoryView, root: u64, offset: u64, virt: int, count: nat) -> bool {
    forall|k: int| 0 <= k < count ==> laws::settled(memory, root, offset, #[trigger] ((virt + 4096 * k) as u64))
}

impl Mapper {
    /// Physical address of the root table.
    pub closed spec fn spec_root(&self) -> u64 {
        self.pml4_phys
    }

    /// What is added to a physical address to find it in memory.
    pub closed spec fn spec_offset(&self) -> u64 {
        self.phys_offset
    }

    /// The memory that holds the tables.
    pub closed spec fn spec_memory(&self) -> MemoryView {
        self.memory@
    }

    /// The tables that the mapper knows to belong to its hierarchy, each
    /// with its depth: 0 for the root, 3 for a leaf table.
    pub closed spec fn spec_levels(&self) -> Map<int, int> {
        self.levels@
    }

    /// Whether the mapper knows its hierarchy: the root and every table
    /// behind a present entry are among the tables it knows. A mapper made
    /// by `new` does, and mapping with clean frames keeps it so.
    pub open spec fn spec_kept(&self) -> bool {
        &&& self.spec_memory().well_formed()
        &&& laws::tables_closed(self.spec_memory(), self.spec_offset(), self.spec_levels())
        &&& laws::rooted(self.spec_memory(), self.spec_root(), self.spec_offset(), self.spec_levels())
        &&& self.spec_levels().dom().finite()
    }

    /// Whether the mapper knows its hierarchy and `frames` are clean for
    /// it: fit to become tables and none of them a table already.
    pub open spec fn spec_clean(&self, frames: Seq<u64>) -> bool {
        &&& self.spec_kept()
        &&& laws::frames_clean(self.spec_memory(), self.spec_offset(), self.spec_levels(), frames)
    }

    /// What mapping `count` pages from `virt` on leaves behind where it
    /// started from a known hierarchy with clean frames: the hierarchy is
    /// known still and the frames left are clean; as many frames are gone
    /// as tables were missing, and the hierarchy has that many tables
    /// more; every present entry of the tables known before is unchanged;
    /// and every page of the range has its tables and a present leaf.
    pub open spec fn spec_grown(
        self,
        before: Mapper,
        frames: Seq<u64>,
        left: Seq<u64>,
        virt: int,
        phys: int,
        count: nat,
        flag_bits: u64,
    ) -> bool {
        let taken = laws::missing_in_range(
            WalkState { memory: before.spec_memory(), frames },
            before.spec_root(),
            before.spec_offset(),
            virt,
            phys,
            count,
            flag_bits,
        );
        &&& self.spec_clean(left)
        &&& 0 <= taken <= 3 * count
        &&& taken <= frames.len()
        &&& left == frames.skip(taken)
        &&& before.spec_levels().submap_of(self.spec_levels())
        &&& self.spec_levels().dom().len() == before.spec_levels().dom().len() + taken
        &&& laws::entries_kept(before.spec_memory(), self.spec_memory(), before.spec_levels().dom())
        &&& range_settled(self.spec_memory(), before.spec_root(), before.spec_offset(), virt, count)
    }

    /// A mapper for the hierarchy that `memory` already holds; nothing is
    /// cleared, and nothing is known of the tables.
    pub fn from_existing(pml4_phys: u64, phys_offset: u64, memory: PhysMemory) -> (mapper: Self)
        ensures
            mapper.spec_root() == pml4_phys,
            mapper.spec_offset() == phys_offset,
            mapper.spec_memory() == memory@,
    {
        Mapper { pml4_phys, phys_offset, memory, levels: Ghost(Map::empty()) }
    }

    /// A mapper for a fresh hierarchy: the root table is zeroed.
    pub fn new(pml4_phys: u64, phys_offset: u64, memory: PhysMemory) -> (mapper: Self)
        requires
            memory@.slot(pml4_phys + phys_offset) is Some,
        ensures
            mapper.spec_root() == pml4_phys,
            mapper.spec_offset() == phys_offset,
            mapper.spec_memory() == memory@.with_table(
                memory@.slot(pml4_phys + phys_offset)->0,
                zero_table(),
            ),
            mapper.spec_kept(),
            mapper.spec_levels().dom() == Set::<int>::empty().insert(
                memory@.slot(pml4_phys + phys_offset)->0,
            ),
            mapper.spec_levels().dom().len() == 1,
    {
        let mut memory = memory;
        let root = memory.slot(pml4_phys + phys_offset);
        match root {
            Some(slot) => {
                memory.zero_table(slot);
            },
            None => {},
        }
        let ghost only = memory@.slot(pml4_phys + phys_offset)->0;
        proof {
            memory.lemma_well_formed();
            laws::lemma_fresh_hierarchy(memory@, pml4_phys, phys_offset);
            assert(Map::<int, int>::empty().insert(only, 0).dom() =~= Set::<int>::empty().insert(only));
        }
        Mapper {
            pml4_phys,
            phys_offset,
            memory,
            levels: Ghost(Map::<int, int>::empty().insert(only, 0)),
        }
    }

    /// The memory that holds the tables.
    pub fn memory(&self) -> (memory: &PhysMemory)
        ensures
            memory@ == self.spec_memory(),
    {
        &self.memory
    }

    /// Gives the memory back.
    pub fn into_memory(self) -> (memory: PhysMemory)
        ensures
            memory@ == self.spec_memory(),
    {
        self.memory
    }

    /// The actions that make the processor use this hierarchy, in the order
    /// they must run: first the base register gets the root's physical
    /// address; then, only where `cr0` has the paging bit clear, the
    /// control-mode register gets `cr0` with the bit set.
    pub fn activate(&self, cr0: u64) -> (steps: Vec<ActivateStep>)
        ensures
            steps@ == spec_activate(self.spec_root(), cr0),
    {
        let mut steps: Vec<ActivateStep> = Vec::new();
        steps.push(ActivateStep::LoadBase(self.pml4_phys));
        match enable_paging(cr0) {
            Some(update) => {
                steps.push(ActivateStep::SetControl(update));
            },
            None => {},
        }
        assert(steps@ =~= spec_activate(self.spec_root(), cr0));
        steps
    }

    /// Physical address of the root table.
    pub fn root(&self) -> (root: u64)
        ensures
            root == self.spec_root(),
    {
        self.pml4_phys
    }

    /// The child table behind entry `index` of block `parent`, where the
    /// entry is present and memory holds the child.
    fn child(&self, parent: usize, index: usize) -> (child: Option<usize>)
        requires
            parent < self.spec_memory().tables.len(),
            index < ENTRIES_PER_TABLE,
        ensures
            child matches Some(c) ==> child_slot(
                self.spec_memory(),
                self.spec_offset(),
                parent as int,
                index as int,
            ) == Some(c as int),
            child is None ==> child_slot(
                self.spec_memory(),
                self.spec_offset(),
                parent as int,
                index as int,
            ) is None,
    {
        let entry = self.memory.entry(parent, index);
        if entry.is_unused() {
            None
        } else {
            self.table_slot(entry.addr())
        }
    }

    /// How many tables are missing on the way to the page of `virt`: as
    /// many frames as mapping the page can take at most.
    pub fn missing_tables(&self, virt: u64) -> (missing: usize)
        ensures
            missing == missing_tables(self.spec_memory(), self.spec_root(), self.spec_offset(), virt),
            missing <= 4,
    {
        let root = match self.table_slot(self.pml4_phys) {
            None => {
                return 4;
            },
            Some(root) => root,
        };
        let second = match self.child(root, pml4_index(virt)) {
            None => {
                return 3;
            },
            Some(table) => table,
        };
        let third = match self.child(second, pdpt_index(virt)) {
            None => {
                return 2;
            },
            Some(table) => table,
        };
        match self.child(third, pd_index(virt)) {
            None => 1,
            Some(_) => 0,
        }
    }

    /// The block of the table at physical address `phys`, if memory holds it.
    fn table_slot(&self, phys: u64) -> (slot: Option<usize>)
        ensures
            slot matches Some(i) ==> self.memory@.slot(phys + self.phys_offset) == Some(i as int),
            slot is None ==> self.memory@.slot(phys + self.phys_offset) is None,
    {
        if phys > u64::MAX - self.phys_offset {
            return None;
        }
        self.memory.slot(phys + self.phys_offset)
    }

    /// Installs `frame`, which the allocator has just handed out, as the
    /// child table behind the absent entry `index` of block `parent`: the
    /// table at the frame is zeroed, then the entry is pointed at it.
    pub fn install_table(&mut self, parent: usize, index: usize, frame: u64) -> (installed: Result<
        u64,
        MapError,
    >)
        requires
            parent < old(self).spec_memory().tables.len(),
            index < ENTRIES_PER_TABLE,
        ensures
            final(self).spec_root() == old(self).spec_root(),
            final(self).spec_offset() == old(self).spec_offset(),
            (final(self).spec_memory(), installed) == spec_install_table(
                old(self).spec_memory(),
                old(self).spec_offset(),
                parent as int,
                index as int,
                frame,
            ),
    {
        if frame % FRAME_SIZE != 0 {
            return Err(MapError::MisalignedFrame);
        }
        match self.table_slot(frame) {
            None => Err(MapError::Unbacked),
            Some(child) => {
                self.memory.zero_table(child);
                self.memory.set_entry(parent, index, frame, flags::PRESENT | flags::WRITABLE);
                assert(flags::PRESENT | flags::WRITABLE == 0x3) by (bit_vector);
                Ok(frame)
            },
        }
    }

    /// One step down the hierarchy: the child table behind entry `index` of
    /// the table at `table_phys`, made from the allocator's next frame where
    /// the entry is absent.
    fn ensure_next_table<A: FrameAllocator>(
        &mut self,
        table_phys: u64,
        index: usize,
        allocator: &mut A,
    ) -> (next: Result<u64, MapError>)
        requires
            index < ENTRIES_PER_TABLE,
            spec_next_table(
                WalkState { memory: old(self).spec_memory(), frames: old(allocator).upcoming() },
                old(self).spec_offset(),
                table_phys,
                index as int,
            ).1 != Err::<u64, MapError>(MapError::OutOfFrames),
        ensures
            final(self).spec_root() == old(self).spec_root(),
            final(self).spec_offset() == old(self).spec_offset(),
            (WalkState { memory: final(self).spec_memory(), frames: final(allocator).upcoming() }, next)
                == spec_next_table(
                WalkState { memory: old(self).spec_memory(), frames: old(allocator).upcoming() },
                old(self).spec_offset(),
                table_phys,
                index as int,
            ),
    {
        let parent = match self.table_slot(table_phys) {
            None => {
                return Err(MapError::Unbacked);
            },
            Some(parent) => parent,
        };
        let entry = self.memory.entry(parent, index);
        if !entry.is_unused() {
            return Ok(entry.addr());
        }
        match allocator.allocate_frame() {
            None => {
                assert(false);
                Err(MapError::OutOfFrames)
            },
            Some(frame) => self.install_table(parent, index, frame),
        }
    }

    /// Maps the page of `virt` to the frame `phys` with the given flags.
    /// Missing tables on the way are made from the allocator's frames; a
    /// leaf entry that is already present is left as it is. The allocator
    /// must not run out on the way: a walk that meets an absent entry with
    /// no frame left cannot go on, and such a call is not admitted. An
    /// allocator that holds as many frames as `missing_tables` counts never
    /// runs out. A page that is mapped already is left as it is, byte for
    /// byte, and no frame is taken. On a known hierarchy, with clean frames
    /// and a present flag, the call succeeds, takes exactly one frame for
    /// each missing table and none for the leaf, and the walk then finds
    /// the leaf entry that was written.
    pub fn map_page<A: FrameAllocator>(
        &mut self,
        virt: u64,
        phys: u64,
        flag_bits: u64,
        allocator: &mut A,
    ) -> (mapped: Result<(), MapError>)
        requires
            phys % FRAME_SIZE == 0,
            spec_map_page(
                WalkState { memory: old(self).spec_memory(), frames: old(allocator).upcoming() },
                old(self).spec_root(),
                old(self).spec_offset(),
                virt,
                phys,
                flag_bits,
            ).1 != Err::<(), MapError>(MapError::OutOfFrames),
        ensures
            mapped != Err::<(), MapError>(MapError::OutOfFrames),
            final(self).spec_root() == old(self).spec_root(),
            final(self).spec_offset() == old(self).spec_offset(),
            (WalkState { memory: final(self).spec_memory(), frames: final(allocator).upcoming() }, mapped)
                == spec_map_page(
                WalkState { memory: old(self).spec_memory(), frames: old(allocator).upcoming() },
                old(self).spec_root(),
                old(self).spec_offset(),
                virt,
                phys,
                flag_bits,
            ),
            laws::settled(old(self).spec_memory(), old(self).spec_root(), old(self).spec_offset(), virt)
                ==> {
                &&& mapped is Ok
                &&& final(self).spec_memory() == old(self).spec_memory()
                &&& final(allocator).upcoming() == old(allocator).upcoming()
                &&& final(self).spec_levels() == old(self).spec_levels()
            },
            (old(self).spec_clean(old(allocator).upcoming()) && flag_bits & flags::PRESENT != 0
                && missing_tables(
                old(self).spec_memory(),
                old(self).spec_root(),
                old(self).spec_offset(),
                virt,
            ) <= old(allocator).upcoming().len()) ==> {
                &&& mapped is Ok
                &&& final(allocator).upcoming() == old(allocator).upcoming().skip(
                    missing_tables(
                        old(self).spec_memory(),
                        old(self).spec_root(),
                        old(self).spec_offset(),
                        virt,
                    ),
                )
                &&& final(self).spec_grown(
                    *old(self),
                    old(allocator).upcoming(),
                    final(allocator).upcoming(),
                    virt as int,
                    phys as int,
                    1,
                    flag_bits,
                )
                &&& laws::spec_leaf(
                    final(self).spec_memory(),
                    old(self).spec_root(),
                    old(self).spec_offset(),
                    virt,
                ) == Some(
                    laws::mapped_leaf(
                        laws::spec_leaf(
                            old(self).spec_memory(),
                            old(self).spec_root(),
                            old(self).spec_offset(),
                            virt,
                        ),
                        phys,
                        flag_bits,
                    ),
                )
            },
    {
        let ghost before = WalkState { memory: self.spec_memory(), frames: allocator.upcoming() };
        let ghost known = self.levels@;
        let ghost is_settled = laws::settled(self.spec_memory(), self.spec_root(), self.spec_offset(), virt);
        let ghost is_clean = self.spec_clean(allocator.upcoming()) && flag_bits & flags::PRESENT != 0
            && missing_tables(self.spec_memory(), self.spec_root(), self.spec_offset(), virt)
            <= allocator.upcoming().len();
        let ghost mut grown = known;
        proof {
            self.memory.lemma_well_formed();
            if is_settled {
                laws::lemma_map_page_settled(
                    before,
                    self.spec_root(),
                    self.spec_offset(),
                    virt,
                    phys,
                    flag_bits,
                );
            }
            if is_clean && !is_settled {
                grown = laws::lemma_map_page_in_hierarchy(
                    before,
                    self.spec_root(),
                    self.spec_offset(),
                    virt,
                    phys,
                    flag_bits,
                    known,
                );
            } else if is_clean {
                let same = laws::lemma_map_page_in_hierarchy(
                    before,
                    self.spec_root(),
                    self.spec_offset(),
                    virt,
                    phys,
                    flag_bits,
                    known,
                );
                assert(missing_tables(before.memory, self.spec_root(), self.spec_offset(), virt) == 0);
                assert(before.frames.skip(0) =~= before.frames);
            }
            if is_clean {
                laws::lemma_one_page_range(
                    before,
                    self.spec_root(),
                    self.spec_offset(),
                    virt,
                    phys,
                    flag_bits,
                );
            }
        }
        let root = self.pml4_phys;
        let pdpt = match self.ensure_next_table(root, pml4_index(virt), allocator) {
            Err(e) => {
                return Err(e);
            },
            Ok(table) => table,
        };
        let pd = match self.ensure_next_table(pdpt, pdpt_index(virt), allocator) {
            Err(e) => {
                return Err(e);
            },
            Ok(table) => table,
        };
        let pt = match self.ensure_next_table(pd, pd_index(virt), allocator) {
            Err(e) => {
                return Err(e);
            },
            Ok(table) => table,
        };
        let leaf = match self.table_slot(pt) {
            None => {
                return Err(MapError::Unbacked);
            },
            Some(leaf) => leaf,
        };
        let index = pt_index(virt);
        if self.memory.entry(leaf, index).is_unused() {
            self.memory.set_entry(leaf, index, phys, flag_bits);
        }
        self.levels = Ghost(grown);
        Ok(())
    }
}

/// How many pages overlap the `len` bytes from `virt` on.
pub open spec fn pages_spanned(virt: u64, len: u64) -> nat {
    if len == 0 {
        0
    } else {
        ((spec_align_up(virt + len) - spec_align_down(virt as int)) / 4096) as nat
    }
}

/// How many pages `identity_map_range` maps for `start` and `end`: those from
/// `start` rounded down to `end` rounded up.
pub open spec fn identity_pages(start: u64, end: u64) -> nat {
    if spec_align_down(start as int) < spec_align_up(end as int) {
        ((spec_align_up(end as int) - spec_align_down(start as int)) / 4096) as nat
    } else {
        0
    }
}

impl Mapper {
    /// Maps `count` pages in a row, the first from `virt` to `phys`.
    fn map_pages<A: FrameAllocator>(
        &mut self,
        virt: u64,
        phys: u64,
        count: u64,
        flag_bits: u64,
        allocator: &mut A,
    ) -> (mapped: Result<(), MapError>)
        requires
            phys % FRAME_SIZE == 0,
            count > 0 ==> virt + 4096 * (count - 1) <= u64::MAX,
            count > 0 ==> phys + 4096 * (count - 1) <= u64::MAX,
            spec_map_pages(
                WalkState { memory: old(self).spec_memory(), frames: old(allocator).upcoming() },
                old(self).spec_root(),
                old(self).spec_offset(),
                virt as int,
                phys as int,
                count as nat,
                flag_bits,
            ).1 != Err::<(), MapError>(MapError::OutOfFrames),
        ensures
            mapped != Err::<(), MapError>(MapError::OutOfFrames),
            final(self).spec_root() == old(self).spec_root(),
            final(self).spec_offset() == old(self).spec_offset(),
            (WalkState { memory: final(self).spec_memory(), frames: final(allocator).upcoming() }, mapped)
                == spec_map_pages(
                WalkState { memory: old(self).spec_memory(), frames: old(allocator).upcoming() },
                old(self).spec_root(),
                old(self).spec_offset(),
                virt as int,
                phys as int,
                count as nat,
                flag_bits,
            ),
            range_settled(
                old(self).spec_memory(),
                old(self).spec_root(),
                old(self).spec_offset(),
                virt as int,
                count as nat,
            ) ==> {
                &&& mapped is Ok
                &&& final(self).spec_memory() == old(self).spec_memory()
                &&& final(allocator).upcoming() == old(allocator).upcoming()
                &&& final(self).spec_levels() == old(self).spec_levels()
            },
            (old(self).spec_clean(old(allocator).upcoming()) && flag_bits & flags::PRESENT != 0
                && laws::frames_suffice(
                WalkState { memory: old(self).spec_memory(), frames: old(allocator).upcoming() },
                old(self).spec_root(),
                old(self).spec_offset(),
                virt as int,
                phys as int,
                count as nat,
                flag_bits,
            )) ==> {
                &&& mapped is Ok
                &&& final(self).spec_grown(
                    *old(self),
                    old(allocator).upcoming(),
                    final(allocator).upcoming(),
                    virt as int,
                    phys as int,
                    count as nat,
                    flag_bits,
                )
            },
    {
        let ghost start = *self;
        let ghost first = WalkState { memory: self.spec_memory(), frames: allocator.upcoming() };
        let ghost known = self.levels@;
        let ghost all_settled = range_settled(
            self.spec_memory(),
            self.spec_root(),
            self.spec_offset(),
            virt as int,
            count as nat,
        );
        let ghost is_clean = self.spec_clean(allocator.upcoming()) && flag_bits & flags::PRESENT != 0
            && laws::frames_suffice(
            first,
            self.spec_root(),
            self.spec_offset(),
            virt as int,
            phys as int,
            count as nat,
            flag_bits,
        );
        let ghost mut grown = known;
        proof {
            self.memory.lemma_well_formed();
            if all_settled {
                laws::lemma_settled_range(
                    first,
                    self.spec_root(),
                    self.spec_offset(),
                    virt as int,
                    phys as int,
                    count as nat,
                    flag_bits,
                );
            }
            if is_clean {
                let total = laws::lemma_map_pages_in_hierarchy(
                    first,
                    self.spec_root(),
                    self.spec_offset(),
                    virt as int,
                    phys as int,
                    count as nat,
                    flag_bits,
                    known,
                );
                if all_settled {
                    let taken = laws::missing_in_range(
                        first,
                        self.spec_root(),
                        self.spec_offset(),
                        virt as int,
                        phys as int,
                        count as nat,
                        flag_bits,
                    );
                    assert(first.frames.skip(taken).len() == first.frames.len() - taken);
                    assert(taken == 0);
                    assert(first.frames.skip(0) =~= first.frames);
                } else {
                    grown = total;
                }
            }
        }
        let ghost goal = spec_map_pages(
            WalkState { memory: self.spec_memory(), frames: allocator.upcoming() },
            self.spec_root(),
            self.spec_offset(),
            virt as int,
            phys as int,
            count as nat,
            flag_bits,
        );
        let mut k: u64 = 0;
        while k < count
            invariant
                k <= count,
                phys % FRAME_SIZE == 0,
                goal.1 != Err::<(), MapError>(MapError::OutOfFrames),
                (all_settled || is_clean) ==> goal.1 is Ok,
                all_settled == range_settled(
                    old(self).spec_memory(),
                    old(self).spec_root(),
                    old(self).spec_offset(),
                    virt as int,
                    count as nat,
                ),
                is_clean == (old(self).spec_clean(old(allocator).upcoming()) && flag_bits
                    & flags::PRESENT != 0 && laws::frames_suffice(
                    WalkState { memory: old(self).spec_memory(), frames: old(allocator).upcoming() },
                    old(self).spec_root(),
                    old(self).spec_offset(),
                    virt as int,
                    phys as int,
                    count as nat,
                    flag_bits,
                )),
                count > 0 ==> virt + 4096 * (count - 1) <= u64::MAX,
                count > 0 ==> phys + 4096 * (count - 1) <= u64::MAX,
                self.spec_root() == old(self).spec_root(),
                self.spec_offset() == old(self).spec_offset(),
                goal == spec_map_pages(
                    WalkState { memory: old(self).spec_memory(), frames: old(allocator).upcoming() },
                    old(self).spec_root(),
                    old(self).spec_offset(),
                    virt as int,
                    phys as int,
                    count as nat,
                    flag_bits,
                ),
                goal == spec_map_pages(
                    WalkState { memory: self.spec_memory(), frames: allocator.upcoming() },
                    self.spec_root(),
                    self.spec_offset(),
                    virt + 4096 * k,
                    phys + 4096 * k,
                    (count - k) as nat,
                    flag_bits,
                ),
            decreases count - k,
        {
            let page: u64 = virt + 4096 * k;
            let frame: u64 = phys + 4096 * k;
            let ghost before = WalkState { memory: self.spec_memory(), frames: allocator.upcoming() };
            proof {
                assert(goal == spec_map_pages(
                    before,
                    self.spec_root(),
                    self.spec_offset(),
                    page as int,
                    frame as int,
                    (count - k) as nat,
                    flag_bits,
                ));
            }
            let outcome = self.map_page(page, frame, flag_bits, allocator);
            proof {
                let after = WalkState { memory: self.spec_memory(), frames: allocator.upcoming() };
                assert((after, outcome) == spec_map_page(
                    before,
                    self.spec_root(),
                    self.spec_offset(),
                    page,
                    frame,
                    flag_bits,
                ));
                assert(goal == spec_map_pages(
                    before,
                    self.spec_root(),
                    self.spec_offset(),
                    page as int,
                    frame as int,
                    (count - k) as nat,
                    flag_bits,
                ));
            }
            match outcome {
                Err(e) => {
                    return Err(e);
                },
                Ok(_) => {},
            }
            k += 1;
        }
        self.levels = Ghost(grown);
        Ok(())
    }

    /// Maps every page that overlaps the `len` bytes from `virt` on, the
    /// first to the frame `phys`, each next one to the frame 4096 bytes on.
    /// Stops at the first page that fails; the allocator must not run out
    /// on the way. A range whose pages are all mapped already is left as it
    /// is, byte for byte, and no frame is taken. On a known hierarchy, with
    /// clean frames and enough of them, the call succeeds and takes exactly
    /// as many frames as tables were missing.
    pub fn map_range<A: FrameAllocator>(
        &mut self,
        virt: u64,
        phys: u64,
        len: u64,
        flag_bits: u64,
        allocator: &mut A,
    ) -> (mapped: Result<(), MapError>)
        requires
            phys % FRAME_SIZE == 0,
            virt + len + (FRAME_SIZE - 1) <= u64::MAX,
            phys + len + (FRAME_SIZE - 1) <= u64::MAX,
            spec_map_pages(
                WalkState { memory: old(self).spec_memory(), frames: old(allocator).upcoming() },
                old(self).spec_root(),
                old(self).spec_offset(),
                spec_align_down(virt as int),
                phys as int,
                pages_spanned(virt, len),
                flag_bits,
            ).1 != Err::<(), MapError>(MapError::OutOfFrames),
        ensures
            mapped != Err::<(), MapError>(MapError::OutOfFrames),
            final(self).spec_root() == old(self).spec_root(),
            final(self).spec_offset() == old(self).spec_offset(),
            (WalkState { memory: final(self).spec_memory(), frames: final(allocator).upcoming() }, mapped)
                == spec_map_pages(
                WalkState { memory: old(self).spec_memory(), frames: old(allocator).upcoming() },
                old(self).spec_root(),
                old(self).spec_offset(),
                spec_align_down(virt as int),
                phys as int,
                pages_spanned(virt, len),
                flag_bits,
            ),
            range_settled(
                old(self).spec_memory(),
                old(self).spec_root(),
                old(self).spec_offset(),
                spec_align_down(virt as int),
                pages_spanned(virt, len),
            ) ==> {
                &&& mapped is Ok
                &&& final(self).spec_memory() == old(self).spec_memory()
                &&& final(allocator).upcoming() == old(allocator).upcoming()
                &&& final(self).spec_levels() == old(self).spec_levels()
            },
            (old(self).spec_clean(old(allocator).upcoming()) && flag_bits & flags::PRESENT != 0
                && laws::frames_suffice(
                WalkState { memory: old(self).spec_memory(), frames: old(allocator).upcoming() },
                old(self).spec_root(),
                old(self).spec_offset(),
                spec_align_down(virt as int),
                phys as int,
                pages_spanned(virt, len),
                flag_bits,
            )) ==> {
                &&& mapped is Ok
                &&& final(self).spec_grown(
                    *old(self),
                    old(allocator).upcoming(),
                    final(allocator).upcoming(),
                    spec_align_down(virt as int),
                    phys as int,
                    pages_spanned(virt, len),
                    flag_bits,
                )
            },
    {
        if len == 0 {
            proof {
                assert(allocator.upcoming().skip(0) =~= allocator.upcoming());
            }
            return Ok(());
        }
        let first = align_down(virt);
        let last = align_up(virt + len);
        let count: u64 = (last - first) / FRAME_SIZE;
        self.map_pages(first, phys, count, flag_bits, allocator)
    }

    /// Maps every page from `start` rounded down to `end` rounded up onto
    /// the frame of the same address. Stops at the first page that fails;
    /// the allocator must not run out on the way. A range whose pages are
    /// all mapped already is left as it is, byte for byte, and no frame is
    /// taken. On a known hierarchy, with clean frames and enough of them,
    /// the call succeeds and takes exactly as many frames as tables were
    /// missing.
    pub fn identity_map_range<A: FrameAllocator>(
        &mut self,
        start: u64,
        end: u64,
        flag_bits: u64,
        allocator: &mut A,
    ) -> (mapped: Result<(), MapError>)
        requires
            end + (FRAME_SIZE - 1) <= u64::MAX,
            spec_map_pages(
                WalkState { memory: old(self).spec_memory(), frames: old(allocator).upcoming() },
                old(self).spec_root(),
                old(self).spec_offset(),
                spec_align_down(start as int),
                spec_align_down(start as int),
                identity_pages(start, end),
                flag_bits,
            ).1 != Err::<(), MapError>(MapError::OutOfFrames),
        ensures
            mapped != Err::<(), MapError>(MapError::OutOfFrames),
            final(self).spec_root() == old(self).spec_root(),
            final(self).spec_offset() == old(self).spec_offset(),
            (WalkState { memory: final(self).spec_memory(), frames: final(allocator).upcoming() }, mapped)
                == spec_map_pages(
                WalkState { memory: old(self).spec_memory(), frames: old(allocator).upcoming() },
                old(self).spec_root(),
                old(self).spec_offset(),
                spec_align_down(start as int),
                spec_align_down(start as int),
                identity_pages(start, end),
                flag_bits,
            ),
            range_settled(
                old(self).spec_memory(),
                old(self).spec_root(),
                old(self).spec_offset(),
                spec_align_down(start as int),
                identity_pages(start, end),
            ) ==> {
                &&& mapped is Ok
                &&& final(self).spec_memory() == old(self).spec_memory()
                &&& final(allocator).upcoming() == old(allocator).upcoming()
                &&& final(self).spec_levels() == old(self).spec_levels()
            },
            (old(self).spec_clean(old(allocator).upcoming()) && flag_bits & flags::PRESENT != 0
                && laws::frames_suffice(
                WalkState { memory: old(self).spec_memory(), frames: old(allocator).upcoming() },
                old(self).spec_root(),
                old(self).spec_offset(),
                spec_align_down(start as int),
                spec_align_down(start as int),
                identity_pages(start, end),
                flag_bits,
            )) ==> {
                &&& mapped is Ok
                &&& final(self).spec_grown(
                    *old(self),
                    old(allocator).upcoming(),
                    final(allocator).upcoming(),
                    spec_align_down(start as int),
                    spec_align_down(start as int),
                    identity_pages(start, end),
                    flag_bits,
                )
            },
    {
        let first = align_down(start);
        let last = align_up(end);
        if first >= last {
            proof {
                assert(allocator.upcoming().skip(0) =~= allocator.upcoming());
            }
            return Ok(());
        }
        let count: u64 = (last - first) / FRAME_SIZE;
        self.map_pages(first, first, count, flag_bits, allocator)
    }
}

} // verus!
