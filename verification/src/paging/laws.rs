//! What holds of the entry codec, of the frames of a memory map, and of the
//! walk that maps a page.

use vstd::prelude::*;
use super::{
    entry_addr, entry_bits, entry_flags, entry_present, frames_of, lemma_entry_layout,
    child_slot, lemma_index_bound, missing_tables, region_frames, regions_ordered, spec_align_up,
    spec_index, spec_map_page, walk_path,
    spec_map_pages, spec_next_table,
    table_flags, zero_table, MapError, MemoryRegion, MemoryView, WalkState, ADDRESS_MASK,
};

verus! {

/// An entry made from a 4 KiB aligned frame address below 2^52 and from flag
/// bits outside the address field gives both back unchanged.
pub proof fn lemma_entry_round_trip(frame: u64, flag_bits: u64)
    requires
        frame % 4096 == 0,
        frame <= ADDRESS_MASK,
        flag_bits & ADDRESS_MASK == 0,
    ensures
        entry_addr(entry_bits(frame, flag_bits)) == frame,
        entry_flags(entry_bits(frame, flag_bits)) == flag_bits,
        entry_present(entry_bits(frame, flag_bits)) == (flag_bits & 0x1 != 0),
{
    lemma_entry_layout(frame, flag_bits, 0);
}

/// The address held in any entry is a multiple of 4096.
pub proof fn lemma_entry_addr_aligned(raw: u64)
    ensures
        entry_addr(raw) % 4096 == 0,
        entry_addr(raw) <= ADDRESS_MASK,
{
    lemma_entry_layout(0, 0, raw);
}

/// Whether `frame` starts on a frame boundary and lies, all 4096 bytes of
/// it, inside a usable stretch.
pub open spec fn frame_in_region(frame: u64, region: MemoryRegion) -> bool {
    region.usable && region.start <= frame && frame + 4096 <= region.end && frame % 4096 == 0
}

/// Frame `k` of a stretch starts on a boundary, lies whole inside the
/// stretch, and comes 4096 bytes after the frame before it.
pub proof fn lemma_region_frame(region: MemoryRegion, k: int)
    requires
        0 <= k < region_frames(region).len(),
    ensures
        frame_in_region(region_frames(region)[k], region),
        region_frames(region)[k] == spec_align_up(region.start as int) + 4096 * k,
{
    let first = spec_align_up(region.start as int);
    assert(first % 4096 == 0);
    assert(first >= region.start);
    assert(first + 4096 * k + 4096 <= region.end);
    assert((first + 4096 * k) % 4096 == 0);
}

/// The frames of an ordered memory map come in strictly ascending order, and
/// each starts on a frame boundary and lies whole inside a usable stretch of
/// the map. So no frame is handed out twice, and no byte of a frame lies
/// outside usable memory.
pub proof fn lemma_frames_ascending(regions: Seq<MemoryRegion>)
    requires
        regions_ordered(regions),
    ensures
        super::ascending(frames_of(regions)),
        forall|i: int, j: int|
            0 <= i < j < frames_of(regions).len() ==> frames_of(regions)[i] < frames_of(regions)[j],
        forall|k: int|
            0 <= k < frames_of(regions).len() ==> exists|r: int|
                0 <= r < regions.len() && frame_in_region(
                    #[trigger] frames_of(regions)[k],
                    #[trigger] regions[r],
                ),
    decreases regions.len(),
{
    if regions.len() > 0 {
        let head = region_frames(regions[0]);
        let rest = regions.skip(1);
        let tail = frames_of(rest);
        let all = frames_of(regions);
        assert(all == head + tail);
        assert forall|i: int, j: int| 0 <= i < j < rest.len() implies rest[i].end <= rest[j].start by {
            assert(rest[i] == regions[i + 1] && rest[j] == regions[j + 1]);
        }
        lemma_frames_ascending(rest);
        assert forall|k: int| 0 <= k < all.len() implies exists|r: int|
            0 <= r < regions.len() && frame_in_region(#[trigger] all[k], #[trigger] regions[r]) by {
            if k < head.len() {
                lemma_region_frame(regions[0], k);
                assert(frame_in_region(all[k], regions[0]));
            } else {
                let t = k - head.len();
                assert(all[k] == tail[t]);
                let r = choose|r: int| 0 <= r < rest.len() && frame_in_region(tail[t], rest[r]);
                assert(rest[r] == regions[r + 1]);
                assert(frame_in_region(all[k], regions[r + 1]));
            }
        }
        assert forall|i: int, j: int| 0 <= i < j < all.len() implies all[i] < all[j] by {
            if j < head.len() {
                lemma_region_frame(regions[0], i);
                lemma_region_frame(regions[0], j);
            } else if i < head.len() {
                lemma_region_frame(regions[0], i);
                let t = j - head.len();
                assert(all[j] == tail[t]);
                let r = choose|r: int| 0 <= r < rest.len() && frame_in_region(tail[t], rest[r]);
                assert(rest[r] == regions[r + 1]);
                assert(regions[0].end <= regions[r + 1].start);
            } else {
                assert(all[i] == tail[i - head.len()]);
                assert(all[j] == tail[j - head.len()]);
            }
        }
    }
}

/// Frames in ascending order stay so when the first of them are gone.
pub proof fn lemma_ascending_rest(frames: Seq<u64>, gone: int)
    requires
        super::ascending(frames),
        0 <= gone <= frames.len(),
    ensures
        super::ascending(frames.skip(gone)),
{
    let rest = frames.skip(gone);
    assert forall|i: int, j: int| 0 <= i < j < rest.len() implies rest[i] < rest[j] by {
        assert(rest[i] == frames[i + gone] && rest[j] == frames[j + gone]);
    }
}

/// Of two calls of an allocator whose frames come in ascending order, the
/// later one returns the higher frame, where both return one.
pub proof fn lemma_allocations_ascend(upcoming: Seq<u64>, earlier: nat, later: nat)
    requires
        super::ascending(upcoming),
        earlier < later,
    ensures
        nth_allocation(upcoming, later) is Some ==> nth_allocation(upcoming, earlier) is Some
            && nth_allocation(upcoming, earlier)->0 < nth_allocation(upcoming, later)->0,
{
}

/// Call `n` of an allocator that started with the frames `upcoming`: the
/// frame at position `n` while there is one, `None` from then on.
pub open spec fn nth_allocation(upcoming: Seq<u64>, n: nat) -> Option<u64> {
    if n < upcoming.len() {
        Some(upcoming[n as int])
    } else {
        None
    }
}

/// The frames left after `n` calls.
pub open spec fn after_allocations(upcoming: Seq<u64>, n: nat) -> Seq<u64>
    decreases n,
{
    if n == 0 {
        upcoming
    } else {
        super::spec_rest_frames(after_allocations(upcoming, (n - 1) as nat))
    }
}

/// After `n` calls an allocator holds its first frames less the first `n`,
/// so call `n` (counting from 0) returns frame `n` while `n` is below the
/// number of frames it started with, and `None` on every later call.
pub proof fn lemma_allocation_sequence(upcoming: Seq<u64>, n: nat)
    ensures
        after_allocations(upcoming, n) == (if n <= upcoming.len() {
            upcoming.skip(n as int)
        } else {
            Seq::<u64>::empty()
        }),
        super::spec_next_frame(after_allocations(upcoming, n)) == nth_allocation(upcoming, n),
        nth_allocation(upcoming, n) is Some <==> n < upcoming.len(),
    decreases n,
{
    if n == 0 {
        assert(upcoming.skip(0) =~= upcoming);
    } else {
        lemma_allocation_sequence(upcoming, (n - 1) as nat);
        let before = after_allocations(upcoming, (n - 1) as nat);
        if n <= upcoming.len() {
            assert(before.skip(1) =~= upcoming.skip(n as int));
        } else {
            assert(before =~= Seq::<u64>::empty());
        }
    }
}

/// Whether the frames that the walk to the page of `virt` will take are fit
/// to become tables and owned by nobody: each is 4 KiB aligned, below 2^52
/// and held by memory, none is a table on the way, and no two are the same.
pub open spec fn frames_fresh(
    memory: MemoryView,
    root: u64,
    offset: u64,
    virt: u64,
    frames: Seq<u64>,
) -> bool {
    let path = walk_path(memory, root, offset, virt);
    let need = missing_tables(memory, root, offset, virt);
    &&& forall|k: int|
        0 <= k < need && k < frames.len() ==> {
            &&& (#[trigger] frames[k]) % 4096 == 0
            &&& frames[k] <= ADDRESS_MASK
            &&& memory.slot(frames[k] + offset) is Some
            &&& !path.contains(memory.slot(frames[k] + offset)->0)
        }
    &&& forall|j: int, k: int|
        0 <= j < k < need && k < frames.len() ==> memory.slot(#[trigger] frames[j] + offset)
            != memory.slot(#[trigger] frames[k] + offset)
}

/// The memory after `frame` was installed as the child behind entry `index`
/// of block `parent`, where the frame's table is block `child`.
pub open spec fn with_child(memory: MemoryView, child: int, parent: int, index: int, frame: u64) -> MemoryView {
    memory.with_table(child, zero_table()).with_entry(parent, index, entry_bits(frame, table_flags()))
}

/// Installing a child at a block other than the parent's zeroes the child's
/// block, sets the one entry of the parent, and leaves the rest alone.
proof fn lemma_with_child(memory: MemoryView, child: int, parent: int, index: int, frame: u64)
    requires
        memory.well_formed(),
        0 <= child < memory.tables.len(),
        0 <= parent < memory.tables.len(),
        child != parent,
        0 <= index < 512,
        frame % 4096 == 0,
        frame <= ADDRESS_MASK,
    ensures
        ({
            let made = with_child(memory, child, parent, index, frame);
            let entry = entry_bits(frame, table_flags());
            &&& made.well_formed()
            &&& made.base == memory.base
            &&& made.tables.len() == memory.tables.len()
            &&& made.tables[child] == zero_table()
            &&& made.tables[parent] == memory.tables[parent].update(index, entry)
            &&& made.tables[parent][index] == entry
            &&& forall|q: int|
                0 <= q < memory.tables.len() && q != child && q != parent ==> made.tables[q]
                    == memory.tables[q]
            &&& forall|a: int| made.slot(a) == memory.slot(a)
            &&& entry_present(entry)
            &&& entry_addr(entry) == frame
        }),
{
    lemma_entry_layout(frame, table_flags(), 0);
    assert(zero_table().len() == 512);
    assert(memory.tables[parent].len() == 512);
}

/// No entry of a zeroed table is present.
proof fn lemma_zero_entries(virt: u64)
    ensures
        !entry_present(0),
        zero_table().len() == 512,
        forall|i: int| 0 <= i < 512 ==> (#[trigger] zero_table()[i]) == 0,
        0 <= spec_index(virt, 39) < 512,
        0 <= spec_index(virt, 30) < 512,
        0 <= spec_index(virt, 21) < 512,
        0 <= spec_index(virt, 12) < 512,
{
    lemma_entry_layout(0, 0, 0);
    lemma_index_bound(virt);
}

/// Writing one entry keeps the shape of memory and every other entry.
proof fn lemma_with_entry(memory: MemoryView, slot: int, index: int, raw: u64)
    requires
        memory.well_formed(),
        0 <= slot < memory.tables.len(),
        0 <= index < 512,
    ensures
        ({
            let made = memory.with_entry(slot, index, raw);
            &&& made.well_formed()
            &&& made.base == memory.base
            &&& made.tables.len() == memory.tables.len()
            &&& made.tables[slot] == memory.tables[slot].update(index, raw)
            &&& made.tables[slot][index] == raw
            &&& forall|q: int|
                0 <= q < memory.tables.len() && q != slot ==> made.tables[q] == memory.tables[q]
            &&& forall|a: int| made.slot(a) == memory.slot(a)
        }),
{
    assert(memory.tables[slot].len() == 512);
}

/// Writing to an entry the value it holds changes nothing.
proof fn lemma_with_entry_same(memory: MemoryView, slot: int, index: int)
    requires
        memory.well_formed(),
        0 <= slot < memory.tables.len(),
        0 <= index < 512,
    ensures
        memory.with_entry(slot, index, memory.tables[slot][index]) == memory,
{
    assert(memory.tables[slot].len() == 512);
    assert(memory.tables[slot].update(index, memory.tables[slot][index]) =~= memory.tables[slot]);
    assert(memory.tables.update(slot, memory.tables[slot]) =~= memory.tables);
}

/// The index that the walk to the page of `virt` uses in table `level` on
/// its way (0 for the root, 3 for the leaf table).
pub open spec fn level_index(virt: u64, level: int) -> int {
    if level == 0 {
        spec_index(virt, 39) as int
    } else if level == 1 {
        spec_index(virt, 30) as int
    } else if level == 2 {
        spec_index(virt, 21) as int
    } else {
        spec_index(virt, 12) as int
    }
}

/// The state after the first missing table on the way to the page of `virt`
/// was made from the allocator's next frame.
pub open spec fn after_install(state: WalkState, root: u64, offset: u64, virt: u64) -> WalkState {
    let path = walk_path(state.memory, root, offset, virt);
    let frame = state.frames[0];
    WalkState {
        memory: with_child(
            state.memory,
            state.memory.slot(frame + offset)->0,
            path.last(),
            level_index(virt, path.len() - 1),
            frame,
        ),
        frames: state.frames.skip(1),
    }
}

/// Mapping a page whose tables are all there writes the leaf entry where it
/// is absent and nothing else.
proof fn lemma_map_page_complete(
    state: WalkState,
    root: u64,
    offset: u64,
    virt: u64,
    phys: u64,
    flag_bits: u64,
)
    requires
        state.memory.well_formed(),
        walk_path(state.memory, root, offset, virt).len() == 4,
    ensures
        ({
            let leaf = walk_path(state.memory, root, offset, virt)[3];
            let index = spec_index(virt, 12) as int;
            spec_map_page(state, root, offset, virt, phys, flag_bits) == (
                if entry_present(state.memory.tables[leaf][index]) {
                    state
                } else {
                    WalkState {
                        memory: state.memory.with_entry(leaf, index, entry_bits(phys, flag_bits)),
                        ..state
                    }
                },
                Ok::<(), MapError>(()),
            )
        }),
{
}

/// With only the root there, making the second-level table is the first
/// thing that mapping the page does.
#[verifier::rlimit(50)]
proof fn lemma_install_first(
    state: WalkState,
    root: u64,
    offset: u64,
    virt: u64,
    phys: u64,
    flag_bits: u64,
)
    requires
        state.memory.well_formed(),
        walk_path(state.memory, root, offset, virt).len() == 1,
        frames_fresh(state.memory, root, offset, virt, state.frames),
        !entry_present(
            state.memory.tables[walk_path(state.memory, root, offset, virt).last()][level_index(
                virt,
                walk_path(state.memory, root, offset, virt).len() - 1,
            )],
        ),
        state.frames.len() > 0,
    ensures
        state.frames.len() > 0,
        ({
            let next = after_install(state, root, offset, virt);
            &&& spec_map_page(state, root, offset, virt, phys, flag_bits) == spec_map_page(
                next,
                root,
                offset,
                virt,
                phys,
                flag_bits,
            )
            &&& walk_path(next.memory, root, offset, virt) == walk_path(
                state.memory,
                root,
                offset,
                virt,
            ).push(state.memory.slot(state.frames[0] + offset)->0)
        }),
{
    lemma_index_bound(virt);
    let memory = state.memory;
    let path = walk_path(memory, root, offset, virt);
    let slot0 = memory.slot(root + offset)->0;
    assert(path[0] == slot0);
    let f = state.frames[0];
    let c = memory.slot(f + offset)->0;
    assert(!path.contains(c));
    let i1 = spec_index(virt, 39) as int;
    lemma_with_child(memory, c, slot0, i1, f);
    let next = after_install(state, root, offset, virt);
    lemma_zero_entries(virt);
    assert(next.memory.tables[c] == zero_table());
    assert(child_slot(next.memory, offset, slot0, i1) == Some(c));
    assert(child_slot(next.memory, offset, c, spec_index(virt, 30) as int) is None);
    assert(walk_path(next.memory, root, offset, virt) =~= path.push(c));
    assert(spec_next_table(state, offset, root, i1) == (next, Ok::<u64, MapError>(f)));
    assert(spec_next_table(next, offset, root, i1) == (next, Ok::<u64, MapError>(f)));
}

/// With the root and the second-level table there, making the third-level
/// table is the first thing that mapping the page changes.
#[verifier::rlimit(50)]
proof fn lemma_install_second(
    state: WalkState,
    root: u64,
    offset: u64,
    virt: u64,
    phys: u64,
    flag_bits: u64,
)
    requires
        state.memory.well_formed(),
        walk_path(state.memory, root, offset, virt).len() == 2,
        frames_fresh(state.memory, root, offset, virt, state.frames),
        !entry_present(
            state.memory.tables[walk_path(state.memory, root, offset, virt).last()][level_index(
                virt,
                walk_path(state.memory, root, offset, virt).len() - 1,
            )],
        ),
        state.frames.len() > 0,
    ensures
        state.frames.len() > 0,
        ({
            let next = after_install(state, root, offset, virt);
            &&& spec_map_page(state, root, offset, virt, phys, flag_bits) == spec_map_page(
                next,
                root,
                offset,
                virt,
                phys,
                flag_bits,
            )
            &&& walk_path(next.memory, root, offset, virt) == walk_path(
                state.memory,
                root,
                offset,
                virt,
            ).push(state.memory.slot(state.frames[0] + offset)->0)
        }),
{
    lemma_index_bound(virt);
    let memory = state.memory;
    let path = walk_path(memory, root, offset, virt);
    let slot0 = memory.slot(root + offset)->0;
    let slot1 = path[1];
    assert(path[0] == slot0);
    let f = state.frames[0];
    let c = memory.slot(f + offset)->0;
    assert(!path.contains(c));
    let i1 = spec_index(virt, 39) as int;
    let i2 = spec_index(virt, 30) as int;
    lemma_with_child(memory, c, slot1, i2, f);
    let next = after_install(state, root, offset, virt);
    lemma_zero_entries(virt);
    assert(next.memory.tables[slot0][i1] == memory.tables[slot0][i1]);
    assert(child_slot(next.memory, offset, slot0, i1) == Some(slot1));
    assert(child_slot(next.memory, offset, slot1, i2) == Some(c));
    assert(child_slot(next.memory, offset, c, spec_index(virt, 21) as int) is None);
    assert(walk_path(next.memory, root, offset, virt) =~= path.push(c));
    let pdpt = entry_addr(memory.tables[slot0][i1]);
    assert(spec_next_table(state, offset, root, i1) == (state, Ok::<u64, MapError>(pdpt)));
    assert(spec_next_table(next, offset, root, i1) == (next, Ok::<u64, MapError>(pdpt)));
    assert(spec_next_table(state, offset, pdpt, i2) == (next, Ok::<u64, MapError>(f)));
    assert(spec_next_table(next, offset, pdpt, i2) == (next, Ok::<u64, MapError>(f)));
}

/// With all but the leaf table there, making the leaf table is the first
/// thing that mapping the page changes.
#[verifier::rlimit(50)]
proof fn lemma_install_third(
    state: WalkState,
    root: u64,
    offset: u64,
    virt: u64,
    phys: u64,
    flag_bits: u64,
)
    requires
        state.memory.well_formed(),
        walk_path(state.memory, root, offset, virt).len() == 3,
        frames_fresh(state.memory, root, offset, virt, state.frames),
        !entry_present(
            state.memory.tables[walk_path(state.memory, root, offset, virt).last()][level_index(
                virt,
                walk_path(state.memory, root, offset, virt).len() - 1,
            )],
        ),
        state.frames.len() > 0,
    ensures
        state.frames.len() > 0,
        ({
            let next = after_install(state, root, offset, virt);
            &&& spec_map_page(state, root, offset, virt, phys, flag_bits) == spec_map_page(
                next,
                root,
                offset,
                virt,
                phys,
                flag_bits,
            )
            &&& walk_path(next.memory, root, offset, virt) == walk_path(
                state.memory,
                root,
                offset,
                virt,
            ).push(state.memory.slot(state.frames[0] + offset)->0)
        }),
{
    lemma_index_bound(virt);
    let memory = state.memory;
    let path = walk_path(memory, root, offset, virt);
    let slot0 = memory.slot(root + offset)->0;
    let slot1 = path[1];
    let slot2 = path[2];
    assert(path[0] == slot0);
    let f = state.frames[0];
    let c = memory.slot(f + offset)->0;
    assert(!path.contains(c));
    let i1 = spec_index(virt, 39) as int;
    let i2 = spec_index(virt, 30) as int;
    let i3 = spec_index(virt, 21) as int;
    lemma_with_child(memory, c, slot2, i3, f);
    let next = after_install(state, root, offset, virt);
    lemma_zero_entries(virt);
    assert(next.memory.tables[slot0][i1] == memory.tables[slot0][i1]);
    assert(next.memory.tables[slot1][i2] == memory.tables[slot1][i2]);
    assert(child_slot(next.memory, offset, slot0, i1) == Some(slot1));
    assert(child_slot(next.memory, offset, slot1, i2) == Some(slot2));
    assert(child_slot(next.memory, offset, slot2, i3) == Some(c));
    assert(walk_path(next.memory, root, offset, virt) =~= path.push(c));
    let pdpt = entry_addr(memory.tables[slot0][i1]);
    let pd = entry_addr(memory.tables[slot1][i2]);
    assert(spec_next_table(state, offset, root, i1) == (state, Ok::<u64, MapError>(pdpt)));
    assert(spec_next_table(next, offset, root, i1) == (next, Ok::<u64, MapError>(pdpt)));
    assert(spec_next_table(state, offset, pdpt, i2) == (state, Ok::<u64, MapError>(pd)));
    assert(spec_next_table(next, offset, pdpt, i2) == (next, Ok::<u64, MapError>(pd)));
    assert(spec_next_table(state, offset, pd, i3) == (next, Ok::<u64, MapError>(f)));
    assert(spec_next_table(next, offset, pd, i3) == (next, Ok::<u64, MapError>(f)));
}

/// After the first missing table was made, the frames that follow are still
/// fit and owned by nobody.
#[verifier::rlimit(50)]
proof fn lemma_fresh_after_install(state: WalkState, root: u64, offset: u64, virt: u64)
    requires
        state.memory.well_formed(),
        1 <= walk_path(state.memory, root, offset, virt).len() < 4,
        state.frames.len() > 0,
        frames_fresh(state.memory, root, offset, virt, state.frames),
        walk_path(after_install(state, root, offset, virt).memory, root, offset, virt) == walk_path(
            state.memory,
            root,
            offset,
            virt,
        ).push(state.memory.slot(state.frames[0] + offset)->0),
    ensures
        after_install(state, root, offset, virt).memory.well_formed(),
        frames_fresh(
            after_install(state, root, offset, virt).memory,
            root,
            offset,
            virt,
            after_install(state, root, offset, virt).frames,
        ),
{
    lemma_index_bound(virt);
    let memory = state.memory;
    let path = walk_path(memory, root, offset, virt);
    let f = state.frames[0];
    let c = memory.slot(f + offset)->0;
    assert(!path.contains(c));
    assert(path.contains(path.last()));
    let next = after_install(state, root, offset, virt);
    lemma_with_child(memory, c, path.last(), level_index(virt, path.len() - 1), f);
    let need = missing_tables(memory, root, offset, virt);
    let next_path = walk_path(next.memory, root, offset, virt);
    assert forall|k: int| 0 <= k < need - 1 && k < next.frames.len() implies {
        &&& (#[trigger] next.frames[k]) % 4096 == 0
        &&& next.frames[k] <= ADDRESS_MASK
        &&& next.memory.slot(next.frames[k] + offset) is Some
        &&& !next_path.contains(next.memory.slot(next.frames[k] + offset)->0)
    } by {
        assert(next.frames[k] == state.frames[k + 1]);
        let ck = memory.slot(state.frames[k + 1] + offset)->0;
        assert(!path.contains(ck));
        assert(memory.slot(state.frames[0] + offset) != memory.slot(state.frames[k + 1] + offset));
        if next_path.contains(ck) {
            let q = choose|q: int| 0 <= q < next_path.len() && next_path[q] == ck;
            if q < path.len() {
                assert(path[q] == ck);
            }
        }
    }
    assert forall|j: int, k: int| 0 <= j < k < need - 1 && k < next.frames.len() implies next.memory.slot(
        #[trigger] next.frames[j] + offset,
    ) != next.memory.slot(#[trigger] next.frames[k] + offset) by {
        assert(next.frames[j] == state.frames[j + 1]);
        assert(next.frames[k] == state.frames[k + 1]);
    }
}

/// Mapping a page whose tables are all there, and whose leaf entry is
/// present or holds already what would be written, changes nothing.
pub proof fn lemma_map_page_settled(
    state: WalkState,
    root: u64,
    offset: u64,
    virt: u64,
    phys: u64,
    flag_bits: u64,
)
    requires
        state.memory.well_formed(),
        walk_path(state.memory, root, offset, virt).len() == 4,
        ({
            let leaf = state.memory.tables[walk_path(state.memory, root, offset, virt)[3]][spec_index(
                virt,
                12,
            ) as int];
            entry_present(leaf) || leaf == entry_bits(phys, flag_bits)
        }),
    ensures
        spec_map_page(state, root, offset, virt, phys, flag_bits) == (state, Ok::<(), MapError>(())),
{
    lemma_index_bound(virt);
    let memory = state.memory;
    let path = walk_path(memory, root, offset, virt);
    let slot3 = path[3];
    let i4 = spec_index(virt, 12) as int;
    assert(0 <= slot3 < memory.tables.len());
    lemma_map_page_complete(state, root, offset, virt, phys, flag_bits);
    if !entry_present(memory.tables[slot3][i4]) {
        lemma_with_entry_same(memory, slot3, i4);
    }
}

/// Mapping a page whose tables are all there takes no frame, keeps the
/// tables there, and mapping it once more changes nothing.
#[verifier::rlimit(50)]
proof fn lemma_complete_page(
    state: WalkState,
    root: u64,
    offset: u64,
    virt: u64,
    phys: u64,
    flag_bits: u64,
    later: Seq<u64>,
)
    requires
        state.memory.well_formed(),
        walk_path(state.memory, root, offset, virt).len() == 4,
    ensures
        ({
            let after = spec_map_page(state, root, offset, virt, phys, flag_bits).0;
            let again = WalkState { memory: after.memory, frames: later };
            &&& after.frames == state.frames
            &&& after.memory.well_formed()
            &&& walk_path(after.memory, root, offset, virt) == walk_path(state.memory, root, offset, virt)
            &&& spec_map_page(again, root, offset, virt, phys, flag_bits) == (again, Ok::<(), MapError>(()))
        }),
{
    lemma_index_bound(virt);
    let memory = state.memory;
    let path = walk_path(memory, root, offset, virt);
    let after = spec_map_page(state, root, offset, virt, phys, flag_bits).0;
    let slot3 = path[3];
    let i1 = spec_index(virt, 39) as int;
    let i2 = spec_index(virt, 30) as int;
    let i3 = spec_index(virt, 21) as int;
    let i4 = spec_index(virt, 12) as int;
    assert(0 <= slot3 < memory.tables.len());
    lemma_map_page_complete(state, root, offset, virt, phys, flag_bits);
    if !entry_present(memory.tables[slot3][i4]) {
        let bits = entry_bits(phys, flag_bits);
        lemma_with_entry(memory, slot3, i4, bits);
        assert(after.memory == memory.with_entry(slot3, i4, bits));
        assert(after.memory.tables[path[0]][i1] == memory.tables[path[0]][i1]);
        assert(after.memory.tables[path[1]][i2] == memory.tables[path[1]][i2]);
        assert(after.memory.tables[path[2]][i3] == memory.tables[path[2]][i3]);
        assert(walk_path(after.memory, root, offset, virt) =~= path);
    }
    lemma_map_page_settled(
        WalkState { memory: after.memory, frames: later },
        root,
        offset,
        virt,
        phys,
        flag_bits,
    );
}

/// A walk that succeeds though a table is missing met an absent entry where
/// the tables end, and the allocator had a frame for it.
proof fn lemma_ok_wants_frame(
    state: WalkState,
    root: u64,
    offset: u64,
    virt: u64,
    phys: u64,
    flag_bits: u64,
)
    requires
        spec_map_page(state, root, offset, virt, phys, flag_bits).1 is Ok,
        walk_path(state.memory, root, offset, virt).len() < 4,
    ensures
        1 <= walk_path(state.memory, root, offset, virt).len(),
        !entry_present(
            state.memory.tables[walk_path(state.memory, root, offset, virt).last()][level_index(
                virt,
                walk_path(state.memory, root, offset, virt).len() - 1,
            )],
        ),
        state.frames.len() > 0,
{
}

/// Where a page is mapped with frames that are fit and owned by nobody, the
/// walk takes exactly as many frames as tables were missing on its way, and
/// mapping the same page once more, with whatever frames, takes none and
/// leaves every entry as it is.
#[verifier::rlimit(50)]
pub proof fn lemma_map_page_settles(
    state: WalkState,
    root: u64,
    offset: u64,
    virt: u64,
    phys: u64,
    flag_bits: u64,
    later: Seq<u64>,
)
    requires
        state.memory.well_formed(),
        spec_map_page(state, root, offset, virt, phys, flag_bits).1 is Ok,
        frames_fresh(state.memory, root, offset, virt, state.frames),
    ensures
        ({
            let after = spec_map_page(state, root, offset, virt, phys, flag_bits).0;
            let again = WalkState { memory: after.memory, frames: later };
            &&& 0 <= missing_tables(state.memory, root, offset, virt) <= 3
            &&& missing_tables(state.memory, root, offset, virt) <= state.frames.len()
            &&& after.frames == state.frames.skip(missing_tables(state.memory, root, offset, virt))
            &&& after.memory.well_formed()
            &&& missing_tables(after.memory, root, offset, virt) == 0
            &&& spec_map_page(again, root, offset, virt, phys, flag_bits) == (again, Ok::<(), MapError>(()))
        }),
    decreases missing_tables(state.memory, root, offset, virt),
{
    let need = missing_tables(state.memory, root, offset, virt);
    assert(state.memory.slot(root + offset) is Some);
    if need == 0 {
        assert(state.frames.skip(0) =~= state.frames);
        lemma_complete_page(state, root, offset, virt, phys, flag_bits, later);
    } else {
        lemma_ok_wants_frame(state, root, offset, virt, phys, flag_bits);
        if need == 3 {
            lemma_install_first(state, root, offset, virt, phys, flag_bits);
        } else if need == 2 {
            lemma_install_second(state, root, offset, virt, phys, flag_bits);
        } else {
            lemma_install_third(state, root, offset, virt, phys, flag_bits);
        }
        let next = after_install(state, root, offset, virt);
        lemma_fresh_after_install(state, root, offset, virt);
        lemma_map_page_settles(next, root, offset, virt, phys, flag_bits, later);
        assert(state.frames.skip(1).skip(need - 1) =~= state.frames.skip(need));
    }
}

/// Whether the entry `index` of block `table` points to a table that is in
/// use one level further down.
pub open spec fn child_in_use(
    memory: MemoryView,
    offset: u64,
    levels: Map<int, int>,
    table: int,
    index: int,
) -> bool {
    let child = memory.slot(entry_addr(memory.tables[table][index]) + offset);
    child is Some && levels.dom().contains(child->0) && levels[child->0] == levels[table] + 1
}

/// Whether `levels` names the tables of a hierarchy with their depth (0 for
/// the root, 3 for a leaf table): every table named is held by memory, and
/// every present entry of a table above the leaves points to a table named
/// one level further down.
pub open spec fn tables_closed(memory: MemoryView, offset: u64, levels: Map<int, int>) -> bool {
    &&& forall|t: int| #[trigger]
        levels.dom().contains(t) ==> 0 <= t < memory.tables.len() && 0 <= levels[t] <= 3
    &&& forall|t: int, i: int|
        levels.dom().contains(t) && levels[t] < 3 && 0 <= i < 512 && entry_present(
            #[trigger] memory.tables[t][i],
        ) ==> child_in_use(memory, offset, levels, t, i)
}

/// Whether the root at `root` is named with depth 0.
pub open spec fn rooted(memory: MemoryView, root: u64, offset: u64, levels: Map<int, int>) -> bool {
    let slot = memory.slot(root + offset);
    slot is Some && levels.dom().contains(slot->0) && levels[slot->0] == 0
}

/// Whether every frame that the allocator still holds is fit to become a
/// table and owned by nobody: 4 KiB aligned, below 2^52, held by memory, no
/// table of the hierarchy, and no two the same.
pub open spec fn frames_clean(
    memory: MemoryView,
    offset: u64,
    levels: Map<int, int>,
    frames: Seq<u64>,
) -> bool {
    &&& forall|k: int|
        0 <= k < frames.len() ==> {
            &&& (#[trigger] frames[k]) % 4096 == 0
            &&& frames[k] <= ADDRESS_MASK
            &&& memory.slot(frames[k] + offset) is Some
            &&& !levels.dom().contains(memory.slot(frames[k] + offset)->0)
        }
    &&& forall|j: int, k: int|
        0 <= j < k < frames.len() ==> memory.slot(#[trigger] frames[j] + offset) != memory.slot(
            #[trigger] frames[k] + offset,
        )
}

/// The leaf entry of the page of `virt` as a walk that changes nothing
/// finds it; none where a table is missing on the way.
pub open spec fn spec_leaf(memory: MemoryView, root: u64, offset: u64, virt: u64) -> Option<u64> {
    let path = walk_path(memory, root, offset, virt);
    if path.len() == 4 {
        Some(memory.tables[path[3]][spec_index(virt, 12) as int])
    } else {
        None
    }
}

/// The leaf entry that mapping a page to `phys` with `flag_bits` leaves
/// behind: the one found before where that is present, else the frame's
/// address bits with the flag bits.
pub open spec fn mapped_leaf(found: Option<u64>, phys: u64, flag_bits: u64) -> u64 {
    match found {
        Some(entry) => if entry_present(entry) {
            entry
        } else {
            entry_bits(phys, flag_bits)
        },
        None => entry_bits(phys, flag_bits),
    }
}

/// Whether the page of `virt` has all its tables and a present leaf entry.
pub open spec fn settled(memory: MemoryView, root: u64, offset: u64, virt: u64) -> bool {
    let path = walk_path(memory, root, offset, virt);
    path.len() == 4 && entry_present(memory.tables[path[3]][spec_index(virt, 12) as int])
}

/// Whether `after` has every present entry of the named tables as `before`
/// has it.
pub open spec fn entries_kept(before: MemoryView, after: MemoryView, tables: Set<int>) -> bool {
    &&& after.base == before.base
    &&& after.tables.len() == before.tables.len()
    &&& forall|t: int, i: int|
        tables.contains(t) && 0 <= i < 512 && entry_present(#[trigger] before.tables[t][i])
            ==> after.tables[t][i] == before.tables[t][i]
}

/// In a hierarchy whose tables are named, the tables on the way to a page
/// are named with the depth at which the walk meets them, and the walk ends
/// early only at an absent entry.
proof fn lemma_path_typed(memory: MemoryView, root: u64, offset: u64, virt: u64, levels: Map<int, int>)
    requires
        tables_closed(memory, offset, levels),
        rooted(memory, root, offset, levels),
    ensures
        ({
            let path = walk_path(memory, root, offset, virt);
            &&& 1 <= path.len() <= 4
            &&& path[0] == memory.slot(root + offset)->0
            &&& forall|q: int|
                0 <= q < path.len() ==> levels.dom().contains(#[trigger] path[q]) && levels[path[q]]
                    == q
            &&& path.len() < 4 ==> !entry_present(
                memory.tables[path.last()][level_index(virt, path.len() - 1)],
            )
        }),
{
    lemma_index_bound(virt);
    let slot0 = memory.slot(root + offset)->0;
    let i1 = spec_index(virt, 39) as int;
    let i2 = spec_index(virt, 30) as int;
    let i3 = spec_index(virt, 21) as int;
    if entry_present(memory.tables[slot0][i1]) {
        assert(child_in_use(memory, offset, levels, slot0, i1));
        let slot1 = child_slot(memory, offset, slot0, i1)->0;
        if entry_present(memory.tables[slot1][i2]) {
            assert(child_in_use(memory, offset, levels, slot1, i2));
            let slot2 = child_slot(memory, offset, slot1, i2)->0;
            if entry_present(memory.tables[slot2][i3]) {
                assert(child_in_use(memory, offset, levels, slot2, i3));
            }
        }
    }
}

/// A settled page stays settled, on the same tables, while the present
/// entries of the named tables are kept.
#[verifier::rlimit(50)]
proof fn lemma_settled_kept(
    before: MemoryView,
    after: MemoryView,
    root: u64,
    offset: u64,
    virt: u64,
    levels: Map<int, int>,
)
    requires
        tables_closed(before, offset, levels),
        rooted(before, root, offset, levels),
        settled(before, root, offset, virt),
        entries_kept(before, after, levels.dom()),
    ensures
        settled(after, root, offset, virt),
        walk_path(after, root, offset, virt) == walk_path(before, root, offset, virt),
{
    lemma_index_bound(virt);
    lemma_path_typed(before, root, offset, virt, levels);
    let path = walk_path(before, root, offset, virt);
    let i1 = spec_index(virt, 39) as int;
    let i2 = spec_index(virt, 30) as int;
    let i3 = spec_index(virt, 21) as int;
    let i4 = spec_index(virt, 12) as int;
    assert(forall|a: int| after.slot(a) == before.slot(a));
    assert(levels.dom().contains(path[0]) && levels.dom().contains(path[1]));
    assert(levels.dom().contains(path[2]) && levels.dom().contains(path[3]));
    assert(after.tables[path[0]][i1] == before.tables[path[0]][i1]);
    assert(after.tables[path[1]][i2] == before.tables[path[1]][i2]);
    assert(after.tables[path[2]][i3] == before.tables[path[2]][i3]);
    assert(after.tables[path[3]][i4] == before.tables[path[3]][i4]);
    assert(walk_path(after, root, offset, virt) =~= path);
}

/// Keeping entries carries over two steps, where the second keeps at least
/// the tables of the first.
proof fn lemma_kept_twice(first: MemoryView, second: MemoryView, third: MemoryView, tables: Set<int>, more: Set<int>)
    requires
        entries_kept(first, second, tables),
        entries_kept(second, third, more),
        tables.subset_of(more),
    ensures
        entries_kept(first, third, tables),
{
    assert forall|t: int, i: int|
        tables.contains(t) && 0 <= i < 512 && entry_present(#[trigger] first.tables[t][i]) implies third.tables[t][i]
        == first.tables[t][i] by {
        assert(second.tables[t][i] == first.tables[t][i]);
        assert(more.contains(t));
    }
}

/// Making a table from a clean frame behind an absent entry of a named
/// table keeps the hierarchy closed, with the new table named one level
/// below its parent, and keeps every present entry of the tables named
/// before.
#[verifier::rlimit(50)]
proof fn lemma_install_closed(
    memory: MemoryView,
    offset: u64,
    levels: Map<int, int>,
    child: int,
    parent: int,
    index: int,
    frame: u64,
)
    requires
        memory.well_formed(),
        tables_closed(memory, offset, levels),
        levels.dom().contains(parent),
        levels[parent] < 3,
        0 <= index < 512,
        !entry_present(memory.tables[parent][index]),
        frame % 4096 == 0,
        frame <= ADDRESS_MASK,
        memory.slot(frame + offset) == Some(child),
        !levels.dom().contains(child),
    ensures
        tables_closed(
            with_child(memory, child, parent, index, frame),
            offset,
            levels.insert(child, levels[parent] + 1),
        ),
        entries_kept(memory, with_child(memory, child, parent, index, frame), levels.dom()),
        with_child(memory, child, parent, index, frame).well_formed(),
{
    let made = with_child(memory, child, parent, index, frame);
    let grown = levels.insert(child, levels[parent] + 1);
    lemma_with_child(memory, child, parent, index, frame);
    lemma_zero_entries(0);
    assert forall|t: int, i: int|
        grown.dom().contains(t) && grown[t] < 3 && 0 <= i < 512 && entry_present(
            #[trigger] made.tables[t][i],
        ) implies child_in_use(made, offset, grown, t, i) by {
        if t == child {
            assert(made.tables[t][i] == 0);
        } else if t == parent && i == index {
            assert(made.tables[t][i] == entry_bits(frame, table_flags()));
        } else {
            assert(made.tables[t][i] == memory.tables[t][i]);
            assert(child_in_use(memory, offset, levels, t, i));
        }
    }
    assert forall|t: int, i: int|
        levels.dom().contains(t) && 0 <= i < 512 && entry_present(#[trigger] memory.tables[t][i]) implies made.tables[t][i]
        == memory.tables[t][i] by {
        if t == parent {
            assert(i != index);
        }
    }
}

/// Writing an absent entry of a leaf table keeps the hierarchy closed and
/// every present entry of the named tables.
proof fn lemma_leaf_closed(
    memory: MemoryView,
    offset: u64,
    levels: Map<int, int>,
    leaf: int,
    index: int,
    raw: u64,
)
    requires
        memory.well_formed(),
        tables_closed(memory, offset, levels),
        levels.dom().contains(leaf),
        levels[leaf] == 3,
        0 <= index < 512,
        !entry_present(memory.tables[leaf][index]),
    ensures
        tables_closed(memory.with_entry(leaf, index, raw), offset, levels),
        entries_kept(memory, memory.with_entry(leaf, index, raw), levels.dom()),
        memory.with_entry(leaf, index, raw).well_formed(),
{
    let made = memory.with_entry(leaf, index, raw);
    lemma_with_entry(memory, leaf, index, raw);
    assert forall|t: int, i: int|
        levels.dom().contains(t) && levels[t] < 3 && 0 <= i < 512 && entry_present(
            #[trigger] made.tables[t][i],
        ) implies child_in_use(made, offset, levels, t, i) by {
        assert(t != leaf);
        assert(made.tables[t][i] == memory.tables[t][i]);
        assert(child_in_use(memory, offset, levels, t, i));
    }
    assert forall|t: int, i: int|
        levels.dom().contains(t) && 0 <= i < 512 && entry_present(#[trigger] memory.tables[t][i]) implies made.tables[t][i]
        == memory.tables[t][i] by {
        if t == leaf {
            assert(i != index);
        }
    }
}

/// Clean frames are fit for the walk to any page.
proof fn lemma_clean_is_fresh(
    memory: MemoryView,
    root: u64,
    offset: u64,
    virt: u64,
    levels: Map<int, int>,
    frames: Seq<u64>,
)
    requires
        tables_closed(memory, offset, levels),
        rooted(memory, root, offset, levels),
        frames_clean(memory, offset, levels, frames),
    ensures
        frames_fresh(memory, root, offset, virt, frames),
{
    lemma_path_typed(memory, root, offset, virt, levels);
    let path = walk_path(memory, root, offset, virt);
    assert forall|k: int| 0 <= k < frames.len() implies !path.contains(
        memory.slot(#[trigger] frames[k] + offset)->0,
    ) by {
        let c = memory.slot(frames[k] + offset)->0;
        if path.contains(c) {
            let q = choose|q: int| 0 <= q < path.len() && path[q] == c;
            assert(levels.dom().contains(path[q]));
        }
    }
}

/// Mapping a page whose tables are all there keeps a named hierarchy as it
/// is, takes no frame, and leaves the page settled.
#[verifier::rlimit(50)]
proof fn lemma_complete_in_hierarchy(
    state: WalkState,
    root: u64,
    offset: u64,
    virt: u64,
    phys: u64,
    flag_bits: u64,
    levels: Map<int, int>,
)
    requires
        state.memory.well_formed(),
        tables_closed(state.memory, offset, levels),
        rooted(state.memory, root, offset, levels),
        flag_bits & 0x1 != 0,
        walk_path(state.memory, root, offset, virt).len() == 4,
    ensures
        ({
            let after = spec_map_page(state, root, offset, virt, phys, flag_bits).0;
            &&& after.memory.well_formed()
            &&& tables_closed(after.memory, offset, levels)
            &&& rooted(after.memory, root, offset, levels)
            &&& spec_map_page(state, root, offset, virt, phys, flag_bits).1 is Ok
            &&& after.frames == state.frames
            &&& settled(after.memory, root, offset, virt)
            &&& spec_leaf(after.memory, root, offset, virt) == Some(
                mapped_leaf(spec_leaf(state.memory, root, offset, virt), phys, flag_bits),
            )
            &&& entries_kept(state.memory, after.memory, levels.dom())
            &&& forall|a: int| after.memory.slot(a) == state.memory.slot(a)
        }),
{
    lemma_index_bound(virt);
    let memory = state.memory;
    let path = walk_path(memory, root, offset, virt);
    let after = spec_map_page(state, root, offset, virt, phys, flag_bits).0;
    lemma_path_typed(memory, root, offset, virt, levels);
    let leaf = path[3];
    let index = spec_index(virt, 12) as int;
    lemma_map_page_complete(state, root, offset, virt, phys, flag_bits);
    lemma_complete_page(state, root, offset, virt, phys, flag_bits, state.frames);
    assert(levels.dom().contains(path[3]) && levels[path[3]] == 3);
    if !entry_present(memory.tables[leaf][index]) {
        let bits = entry_bits(phys, flag_bits);
        lemma_entry_layout(phys, flag_bits, 0);
        lemma_leaf_closed(memory, offset, levels, leaf, index, bits);
        lemma_with_entry(memory, leaf, index, bits);
        assert(after.memory == memory.with_entry(leaf, index, bits));
        assert(entry_present(after.memory.tables[leaf][index]));
    }
}

/// Where a table is missing on the way to a page, mapping the page starts
/// by making it from the allocator's next frame; the hierarchy stays closed
/// with the new table named, and the frames that follow stay clean.
#[verifier::rlimit(50)]
proof fn lemma_install_in_hierarchy(
    state: WalkState,
    root: u64,
    offset: u64,
    virt: u64,
    phys: u64,
    flag_bits: u64,
    levels: Map<int, int>,
) -> (wider: Map<int, int>)
    requires
        state.memory.well_formed(),
        tables_closed(state.memory, offset, levels),
        rooted(state.memory, root, offset, levels),
        frames_clean(state.memory, offset, levels, state.frames),
        state.frames.len() > 0,
        missing_tables(state.memory, root, offset, virt) > 0,
        levels.dom().finite(),
    ensures
        !(spec_leaf(after_install(state, root, offset, virt).memory, root, offset, virt) matches Some(entry)
            && entry_present(entry)),
        spec_leaf(state.memory, root, offset, virt) is None,
        wider.dom().finite(),
        wider.dom().len() == levels.dom().len() + 1,
        ({
            let next = after_install(state, root, offset, virt);
            &&& spec_map_page(state, root, offset, virt, phys, flag_bits) == spec_map_page(
                next,
                root,
                offset,
                virt,
                phys,
                flag_bits,
            )
            &&& next.memory.well_formed()
            &&& next.frames == state.frames.skip(1)
            &&& missing_tables(next.memory, root, offset, virt) == missing_tables(
                state.memory,
                root,
                offset,
                virt,
            ) - 1
            &&& tables_closed(next.memory, offset, wider)
            &&& rooted(next.memory, root, offset, wider)
            &&& levels.submap_of(wider)
            &&& frames_clean(next.memory, offset, wider, next.frames)
            &&& entries_kept(state.memory, next.memory, levels.dom())
        }),
{
    lemma_index_bound(virt);
    let memory = state.memory;
    let path = walk_path(memory, root, offset, virt);
    let need = missing_tables(memory, root, offset, virt);
    lemma_path_typed(memory, root, offset, virt, levels);
    lemma_clean_is_fresh(memory, root, offset, virt, levels, state.frames);
    if need == 3 {
        lemma_install_first(state, root, offset, virt, phys, flag_bits);
    } else if need == 2 {
        lemma_install_second(state, root, offset, virt, phys, flag_bits);
    } else {
        lemma_install_third(state, root, offset, virt, phys, flag_bits);
    }
    let frame = state.frames[0];
    let child = memory.slot(frame + offset)->0;
    let parent = path.last();
    let index = level_index(virt, path.len() - 1);
    let next = after_install(state, root, offset, virt);
    let wider = levels.insert(child, levels[parent] + 1);
    assert(levels.dom().contains(path[path.len() - 1]));
    lemma_install_closed(memory, offset, levels, child, parent, index, frame);
    lemma_with_child(memory, child, parent, index, frame);
    assert(rooted(next.memory, root, offset, wider));
    assert forall|k: int| 0 <= k < next.frames.len() implies {
        &&& (#[trigger] next.frames[k]) % 4096 == 0
        &&& next.frames[k] <= ADDRESS_MASK
        &&& next.memory.slot(next.frames[k] + offset) is Some
        &&& !wider.dom().contains(next.memory.slot(next.frames[k] + offset)->0)
    } by {
        assert(next.frames[k] == state.frames[k + 1]);
        assert(memory.slot(state.frames[0] + offset) != memory.slot(state.frames[k + 1] + offset));
    }
    assert forall|j: int, k: int| 0 <= j < k < next.frames.len() implies next.memory.slot(
        #[trigger] next.frames[j] + offset,
    ) != next.memory.slot(#[trigger] next.frames[k] + offset) by {
        assert(next.frames[j] == state.frames[j + 1]);
        assert(next.frames[k] == state.frames[k + 1]);
    }
    assert(wider.dom() =~= levels.dom().insert(child));
    lemma_zero_entries(virt);
    assert(next.memory.tables[child] == zero_table());
    assert(walk_path(next.memory, root, offset, virt).last() == child);
    wider
}

/// Mapping one page into a hierarchy whose tables are named, with an
/// allocator that holds clean frames and at least as many as tables are
/// missing, succeeds. It takes exactly as many frames as tables were
/// missing; the hierarchy stays closed and grows by those tables; every
/// present entry stays as it was; and the walk then finds the page's leaf
/// entry: the one that was present before, else the frame with the flags.
/// The result names the tables afterwards.
#[verifier::rlimit(50)]
pub proof fn lemma_map_page_in_hierarchy(
    state: WalkState,
    root: u64,
    offset: u64,
    virt: u64,
    phys: u64,
    flag_bits: u64,
    levels: Map<int, int>,
) -> (grown: Map<int, int>)
    requires
        state.memory.well_formed(),
        tables_closed(state.memory, offset, levels),
        rooted(state.memory, root, offset, levels),
        frames_clean(state.memory, offset, levels, state.frames),
        flag_bits & 0x1 != 0,
        missing_tables(state.memory, root, offset, virt) <= state.frames.len(),
        levels.dom().finite(),
    ensures
        spec_map_page(state, root, offset, virt, phys, flag_bits).1 is Ok,
        grown.dom().finite(),
        grown.dom().len() == levels.dom().len() + missing_tables(state.memory, root, offset, virt),
        0 <= missing_tables(state.memory, root, offset, virt) <= 3,
        ({
            let after = spec_map_page(state, root, offset, virt, phys, flag_bits).0;
            &&& after.memory.well_formed()
            &&& tables_closed(after.memory, offset, grown)
            &&& rooted(after.memory, root, offset, grown)
            &&& levels.submap_of(grown)
            &&& frames_clean(after.memory, offset, grown, after.frames)
            &&& after.frames == state.frames.skip(missing_tables(state.memory, root, offset, virt))
            &&& settled(after.memory, root, offset, virt)
            &&& spec_leaf(after.memory, root, offset, virt) == Some(
                mapped_leaf(spec_leaf(state.memory, root, offset, virt), phys, flag_bits),
            )
            &&& entries_kept(state.memory, after.memory, levels.dom())
        }),
    decreases missing_tables(state.memory, root, offset, virt),
{
    let need = missing_tables(state.memory, root, offset, virt);
    let after = spec_map_page(state, root, offset, virt, phys, flag_bits).0;
    lemma_path_typed(state.memory, root, offset, virt, levels);
    if need == 0 {
        assert(state.frames.skip(0) =~= state.frames);
        lemma_complete_in_hierarchy(state, root, offset, virt, phys, flag_bits, levels);
        lemma_frames_clean_moved(state.memory, after.memory, offset, levels, state.frames);
        levels
    } else {
        let wider = lemma_install_in_hierarchy(state, root, offset, virt, phys, flag_bits, levels);
        let next = after_install(state, root, offset, virt);
        let grown = lemma_map_page_in_hierarchy(next, root, offset, virt, phys, flag_bits, wider);
        vstd::map_lib::lemma_submap_of_trans(levels, wider, grown);
        lemma_kept_twice(state.memory, next.memory, after.memory, levels.dom(), wider.dom());
        assert(state.frames.skip(1).skip(need - 1) =~= state.frames.skip(need));
        grown
    }
}

/// Whether frames are clean depends on where memory holds its blocks only.
proof fn lemma_frames_clean_moved(
    before: MemoryView,
    after: MemoryView,
    offset: u64,
    levels: Map<int, int>,
    frames: Seq<u64>,
)
    requires
        frames_clean(before, offset, levels, frames),
        forall|a: int| after.slot(a) == before.slot(a),
    ensures
        frames_clean(after, offset, levels, frames),
{
}

/// How many tables are missing, one page after the other, on the way to
/// `count` pages in a row, each page counted in the memory that the pages
/// before it leave behind.
pub open spec fn missing_in_range(
    state: WalkState,
    root: u64,
    offset: u64,
    virt: int,
    phys: int,
    count: nat,
    flag_bits: u64,
) -> int
    decreases count,
{
    if count == 0 {
        0
    } else {
        missing_tables(state.memory, root, offset, virt as u64) + missing_in_range(
            spec_map_page(state, root, offset, virt as u64, phys as u64, flag_bits).0,
            root,
            offset,
            virt + 4096,
            phys + 4096,
            (count - 1) as nat,
            flag_bits,
        )
    }
}

/// A range of one page is that page.
pub proof fn lemma_one_page_range(
    state: WalkState,
    root: u64,
    offset: u64,
    virt: u64,
    phys: u64,
    flag_bits: u64,
)
    ensures
        missing_in_range(state, root, offset, virt as int, phys as int, 1, flag_bits) == missing_tables(
            state.memory,
            root,
            offset,
            virt,
        ),
        spec_map_pages(state, root, offset, virt as int, phys as int, 1, flag_bits) == spec_map_page(
            state,
            root,
            offset,
            virt,
            phys,
            flag_bits,
        ),
        forall|memory: MemoryView|
            settled(memory, root, offset, virt) ==> (forall|k: int|
                0 <= k < 1 ==> settled(memory, root, offset, #[trigger] ((virt + 4096 * k) as u64))),
{
    reveal_with_fuel(missing_in_range, 2);
    reveal_with_fuel(spec_map_pages, 2);
    let (next, result) = spec_map_page(state, root, offset, virt, phys, flag_bits);
    assert(missing_in_range(next, root, offset, virt + 4096, phys + 4096, 0, flag_bits) == 0);
}

/// Mapping pages that are all settled changes nothing.
pub proof fn lemma_settled_range(
    state: WalkState,
    root: u64,
    offset: u64,
    virt: int,
    phys: int,
    count: nat,
    flag_bits: u64,
)
    requires
        state.memory.well_formed(),
        forall|k: int| 0 <= k < count ==> settled(state.memory, root, offset, #[trigger] ((virt + 4096 * k) as u64)),
    ensures
        spec_map_pages(state, root, offset, virt, phys, count, flag_bits) == (state, Ok::<(), MapError>(())),
    decreases count,
{
    if count > 0 {
        assert(settled(state.memory, root, offset, (virt + 4096 * 0) as u64));
        lemma_map_page_settled(state, root, offset, virt as u64, phys as u64, flag_bits);
        assert forall|k: int| 0 <= k < count - 1 implies settled(
            state.memory,
            root,
            offset,
            #[trigger] ((virt + 4096 + 4096 * k) as u64),
        ) by {
            assert(settled(state.memory, root, offset, (virt + 4096 * (k + 1)) as u64));
        }
        lemma_settled_range(state, root, offset, virt + 4096, phys + 4096, (count - 1) as nat, flag_bits);
    }
}

/// Whether the allocator holds frames enough for a range: as many as tables
/// are missing, or three for every page, which is never less.
pub open spec fn frames_suffice(
    state: WalkState,
    root: u64,
    offset: u64,
    virt: int,
    phys: int,
    count: nat,
    flag_bits: u64,
) -> bool {
    missing_in_range(state, root, offset, virt, phys, count, flag_bits) <= state.frames.len() || 3
        * count <= state.frames.len()
}

/// The pages of a range that are settled stay in place when the range is
/// read one page later.
proof fn lemma_settled_shift(memory: MemoryView, root: u64, offset: u64, virt: int, count: nat)
    requires
        count > 0,
        settled(memory, root, offset, virt as u64),
        forall|k: int|
            0 <= k < count - 1 ==> settled(memory, root, offset, #[trigger] ((virt + 4096 + 4096 * k) as u64)),
    ensures
        forall|k: int| 0 <= k < count ==> settled(memory, root, offset, #[trigger] ((virt + 4096 * k) as u64)),
{
    assert forall|k: int| 0 <= k < count implies settled(
        memory,
        root,
        offset,
        #[trigger] ((virt + 4096 * k) as u64),
    ) by {
        if k > 0 {
            assert(virt + 4096 * k == virt + 4096 + 4096 * (k - 1));
            assert(settled(memory, root, offset, (virt + 4096 + 4096 * (k - 1)) as u64));
        } else {
            assert(virt + 4096 * k == virt);
        }
    }
}

/// Mapping a range into a hierarchy whose tables are named, with an
/// allocator that holds clean frames and enough of them, succeeds. The
/// hierarchy stays closed, every present entry of its tables stays as it
/// was, every page of the range is settled at the end, and the frames taken
/// are exactly as many as tables were missing and as the hierarchy has new
/// tables. The result names the tables afterwards.
#[verifier::rlimit(50)]
pub proof fn lemma_map_pages_in_hierarchy(
    state: WalkState,
    root: u64,
    offset: u64,
    virt: int,
    phys: int,
    count: nat,
    flag_bits: u64,
    levels: Map<int, int>,
) -> (grown: Map<int, int>)
    requires
        state.memory.well_formed(),
        tables_closed(state.memory, offset, levels),
        rooted(state.memory, root, offset, levels),
        frames_clean(state.memory, offset, levels, state.frames),
        flag_bits & 0x1 != 0,
        frames_suffice(state, root, offset, virt, phys, count, flag_bits),
        levels.dom().finite(),
    ensures
        spec_map_pages(state, root, offset, virt, phys, count, flag_bits).1 is Ok,
        grown.dom().finite(),
        grown.dom().len() == levels.dom().len() + missing_in_range(
            state,
            root,
            offset,
            virt,
            phys,
            count,
            flag_bits,
        ),
        0 <= missing_in_range(state, root, offset, virt, phys, count, flag_bits) <= 3 * count,
        missing_in_range(state, root, offset, virt, phys, count, flag_bits) <= state.frames.len(),
        spec_map_pages(state, root, offset, virt, phys, count, flag_bits).0.frames == state.frames.skip(
            missing_in_range(state, root, offset, virt, phys, count, flag_bits),
        ),
        ({
            let after = spec_map_pages(state, root, offset, virt, phys, count, flag_bits).0;
            &&& after.memory.well_formed()
            &&& tables_closed(after.memory, offset, grown)
            &&& rooted(after.memory, root, offset, grown)
            &&& levels.submap_of(grown)
            &&& frames_clean(after.memory, offset, grown, after.frames)
            &&& entries_kept(state.memory, after.memory, levels.dom())
            &&& forall|k: int|
                0 <= k < count ==> settled(after.memory, root, offset, #[trigger] ((virt + 4096 * k) as u64))
        }),
    decreases count,
{
    if count == 0 {
        assert(state.frames.skip(0) =~= state.frames);
        levels
    } else {
        let page = virt as u64;
        let frame = phys as u64;
        let rest = (count - 1) as nat;
        let here = missing_tables(state.memory, root, offset, page);
        let first = spec_map_page(state, root, offset, page, frame, flag_bits).0;
        let there = missing_in_range(first, root, offset, virt + 4096, phys + 4096, rest, flag_bits);
        lemma_path_typed(state.memory, root, offset, page, levels);
        lemma_missing_in_range_bounds(first, root, offset, virt + 4096, phys + 4096, rest, flag_bits);
        assert(0 <= here <= 3);
        assert(here <= state.frames.len());
        let wider = lemma_map_page_in_hierarchy(state, root, offset, page, frame, flag_bits, levels);
        assert(first.frames.len() == state.frames.len() - here);
        assert(frames_suffice(first, root, offset, virt + 4096, phys + 4096, rest, flag_bits));
        let grown = lemma_map_pages_in_hierarchy(
            first,
            root,
            offset,
            virt + 4096,
            phys + 4096,
            rest,
            flag_bits,
            wider,
        );
        let after = spec_map_pages(state, root, offset, virt, phys, count, flag_bits).0;
        assert(after == spec_map_pages(first, root, offset, virt + 4096, phys + 4096, rest, flag_bits).0);
        assert(state.frames.skip(here).skip(there) =~= state.frames.skip(here + there));
        vstd::map_lib::lemma_submap_of_trans(levels, wider, grown);
        lemma_kept_twice(state.memory, first.memory, after.memory, levels.dom(), wider.dom());
        lemma_settled_kept(first.memory, after.memory, root, offset, page, wider);
        lemma_settled_shift(after.memory, root, offset, virt, count);
        grown
    }
}

/// The tables missing over a range are no fewer than none.
proof fn lemma_missing_in_range_bounds(
    state: WalkState,
    root: u64,
    offset: u64,
    virt: int,
    phys: int,
    count: nat,
    flag_bits: u64,
)
    ensures
        0 <= missing_in_range(state, root, offset, virt, phys, count, flag_bits),
    decreases count,
{
    if count > 0 {
        lemma_missing_in_range_bounds(
            spec_map_page(state, root, offset, virt as u64, phys as u64, flag_bits).0,
            root,
            offset,
            virt + 4096,
            phys + 4096,
            (count - 1) as nat,
            flag_bits,
        );
    }
}

/// Mapping a range a second time changes nothing. Where a range is mapped,
/// with present leaf entries, into a hierarchy whose tables are named, with
/// clean frames and enough of them, the mapping succeeds; and mapping the
/// same range again, with whatever frames, succeeds, takes none of them and
/// leaves every entry of memory as it is.
pub proof fn lemma_map_range_idempotent(
    state: WalkState,
    root: u64,
    offset: u64,
    virt: int,
    phys: int,
    count: nat,
    flag_bits: u64,
    levels: Map<int, int>,
    later: Seq<u64>,
)
    requires
        state.memory.well_formed(),
        tables_closed(state.memory, offset, levels),
        rooted(state.memory, root, offset, levels),
        frames_clean(state.memory, offset, levels, state.frames),
        flag_bits & 0x1 != 0,
        frames_suffice(state, root, offset, virt, phys, count, flag_bits),
        levels.dom().finite(),
    ensures
        spec_map_pages(state, root, offset, virt, phys, count, flag_bits).1 is Ok,
        ({
            let after = spec_map_pages(state, root, offset, virt, phys, count, flag_bits).0;
            let again = WalkState { memory: after.memory, frames: later };
            spec_map_pages(again, root, offset, virt, phys, count, flag_bits) == (again, Ok::<(), MapError>(()))
        }),
{
    let grown = lemma_map_pages_in_hierarchy(state, root, offset, virt, phys, count, flag_bits, levels);
    let after = spec_map_pages(state, root, offset, virt, phys, count, flag_bits).0;
    lemma_settled_range(
        WalkState { memory: after.memory, frames: later },
        root,
        offset,
        virt,
        phys,
        count,
        flag_bits,
    );
}

/// A zeroed root alone is a closed hierarchy of one table.
pub proof fn lemma_fresh_hierarchy(memory: MemoryView, root: u64, offset: u64)
    requires
        memory.slot(root + offset) is Some,
        memory.tables[memory.slot(root + offset)->0] == zero_table(),
    ensures
        tables_closed(memory, offset, Map::<int, int>::empty().insert(memory.slot(root + offset)->0, 0)),
        rooted(memory, root, offset, Map::<int, int>::empty().insert(memory.slot(root + offset)->0, 0)),
        Map::<int, int>::empty().insert(memory.slot(root + offset)->0, 0).dom().finite(),
        Map::<int, int>::empty().insert(memory.slot(root + offset)->0, 0).dom().len() == 1,
{
    lemma_zero_entries(0);
    let only = memory.slot(root + offset)->0;
    assert(Map::<int, int>::empty().insert(only, 0).dom() =~= Set::<int>::empty().insert(only));
}

/// The block of the table at physical address `frame`, if memory holds it.
pub open spec fn table_slot(memory: MemoryView, offset: u64, frame: u64) -> Option<int> {
    memory.slot(frame + offset)
}

/// Whether a stretch of a memory map can give tables to a hierarchy: it is
/// reserved, or it ends below 2^52 and every frame in it is held by memory
/// and is no table of the hierarchy.
pub open spec fn region_free(
    memory: MemoryView,
    offset: u64,
    levels: Map<int, int>,
    region: MemoryRegion,
) -> bool {
    region.usable ==> {
        &&& region.end <= 0x0010_0000_0000_0000
        &&& forall|frame: u64|
            region.start <= frame < region.end && frame % 4096 == 0 ==> {
                &&& (#[trigger] table_slot(memory, offset, frame)) is Some
                &&& !levels.dom().contains(table_slot(memory, offset, frame)->0)
            }
    }
}

/// The frames of an ordered memory map whose usable stretches can give
/// tables to a hierarchy are clean for it.
pub proof fn lemma_map_frames_clean(
    memory: MemoryView,
    offset: u64,
    levels: Map<int, int>,
    regions: Seq<MemoryRegion>,
)
    requires
        regions_ordered(regions),
        forall|r: int| 0 <= r < regions.len() ==> region_free(memory, offset, levels, #[trigger] regions[r]),
    ensures
        frames_clean(memory, offset, levels, frames_of(regions)),
{
    lemma_frames_ascending(regions);
    let frames = frames_of(regions);
    assert forall|k: int| 0 <= k < frames.len() implies {
        &&& (#[trigger] frames[k]) % 4096 == 0
        &&& frames[k] <= ADDRESS_MASK
        &&& memory.slot(frames[k] + offset) is Some
        &&& !levels.dom().contains(memory.slot(frames[k] + offset)->0)
    } by {
        let r = choose|r: int| 0 <= r < regions.len() && frame_in_region(frames[k], regions[r]);
        assert(region_free(memory, offset, levels, regions[r]));
        assert(table_slot(memory, offset, frames[k]) is Some);
    }
    assert forall|j: int, k: int| 0 <= j < k < frames.len() implies memory.slot(
        #[trigger] frames[j] + offset,
    ) != memory.slot(#[trigger] frames[k] + offset) by {
        assert(frames[j] < frames[k]);
        assert(memory.slot(frames[j] + offset) is Some);
        assert(memory.slot(frames[k] + offset) is Some);
    }
}

/// Clean frames stay clean when the first of them are gone.
pub proof fn lemma_clean_rest(
    memory: MemoryView,
    offset: u64,
    levels: Map<int, int>,
    frames: Seq<u64>,
    gone: int,
)
    requires
        frames_clean(memory, offset, levels, frames),
        0 <= gone <= frames.len(),
    ensures
        frames_clean(memory, offset, levels, frames.skip(gone)),
{
    let rest = frames.skip(gone);
    assert forall|k: int| 0 <= k < rest.len() implies {
        &&& (#[trigger] rest[k]) % 4096 == 0
        &&& rest[k] <= ADDRESS_MASK
        &&& memory.slot(rest[k] + offset) is Some
        &&& !levels.dom().contains(memory.slot(rest[k] + offset)->0)
    } by {
        assert(rest[k] == frames[k + gone]);
    }
    assert forall|j: int, k: int| 0 <= j < k < rest.len() implies memory.slot(
        #[trigger] rest[j] + offset,
    ) != memory.slot(#[trigger] rest[k] + offset) by {
        assert(rest[j] == frames[j + gone]);
        assert(rest[k] == frames[k + gone]);
    }
}

/// One step down the hierarchy takes no frame or one, and runs out of
/// frames only where it meets an absent entry with none left.
proof fn lemma_step_takes(state: WalkState, offset: u64, table_phys: u64, index: int)
    ensures
        ({
            let (next, result) = spec_next_table(state, offset, table_phys, index);
            &&& next.frames.len() <= state.frames.len() <= next.frames.len() + 1
            &&& state.frames.len() > 0 ==> result != Err::<u64, MapError>(MapError::OutOfFrames)
            &&& result == Err::<u64, MapError>(MapError::OutOfFrames) ==> next == state
            &&& (state.memory.slot(table_phys + offset) matches Some(parent) && entry_present(
                state.memory.tables[parent][index],
            )) ==> next == state && result == Ok::<u64, MapError>(
                entry_addr(state.memory.tables[state.memory.slot(table_phys + offset)->0][index]),
            )
        }),
{
}

/// Mapping a page takes three frames at most, and never runs out of frames
/// where the allocator holds as many as tables are missing on the way.
pub proof fn lemma_frames_suffice(
    state: WalkState,
    root: u64,
    offset: u64,
    virt: u64,
    phys: u64,
    flag_bits: u64,
)
    ensures
        ({
            let (after, result) = spec_map_page(state, root, offset, virt, phys, flag_bits);
            &&& after.frames.len() <= state.frames.len() <= after.frames.len() + 3
            &&& missing_tables(state.memory, root, offset, virt) <= state.frames.len() ==> result
                != Err::<(), MapError>(MapError::OutOfFrames)
            &&& 3 <= state.frames.len() ==> result != Err::<(), MapError>(MapError::OutOfFrames)
        }),
{
    let first = spec_index(virt, 39) as int;
    let second = spec_index(virt, 30) as int;
    let third = spec_index(virt, 21) as int;
    lemma_step_takes(state, offset, root, first);
    let (s1, r1) = spec_next_table(state, offset, root, first);
    if r1 is Ok {
        lemma_step_takes(s1, offset, r1->Ok_0, second);
        let (s2, r2) = spec_next_table(s1, offset, r1->Ok_0, second);
        if r2 is Ok {
            lemma_step_takes(s2, offset, r2->Ok_0, third);
        }
    }
}

/// Mapping a range never runs out of frames where the allocator holds three
/// for every page.
pub proof fn lemma_frames_suffice_range(
    state: WalkState,
    root: u64,
    offset: u64,
    virt: int,
    phys: int,
    count: nat,
    flag_bits: u64,
)
    requires
        3 * count <= state.frames.len(),
    ensures
        spec_map_pages(state, root, offset, virt, phys, count, flag_bits).1 != Err::<(), MapError>(
            MapError::OutOfFrames,
        ),
    decreases count,
{
    if count > 0 {
        lemma_frames_suffice(state, root, offset, virt as u64, phys as u64, flag_bits);
        let (next, result) = spec_map_page(state, root, offset, virt as u64, phys as u64, flag_bits);
        if result is Ok {
            lemma_frames_suffice_range(
                next,
                root,
                offset,
                virt + 4096,
                phys + 4096,
                (count - 1) as nat,
                flag_bits,
            );
        }
    }
}

} // verus!
