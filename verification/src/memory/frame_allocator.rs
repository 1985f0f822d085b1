//! Physical frame allocator.
//!
//! A bump allocator that walks the bootloader memory map and hands out
//! 4 KiB physical frames from the usable regions, one after the other.
use vstd::prelude::*;

use x86_64::structures::paging::{PhysFrame, Size4KiB};
use x86_64::PhysAddr;

use crate::memory::address::PHYS_ADDR_LIMIT;
use crate::memory::map::{MemmapEntry, MEMMAP_USABLE};

verus! {

/// Size in bytes of a frame.
pub const FRAME_SIZE: u64 = 4096;

/// Bump-style physical frame allocator over a memory map.
pub struct PhysFrameAllocator<'a> {
    entries: &'a [MemmapEntry],
    current_entry: usize,
    current_addr: u64,
}

/// What the allocator holds: the memory map, the entry it allocates from,
/// and the next address it hands out from that entry (zero before the
/// entry's first frame).
pub struct AllocatorView {
    pub entries: Seq<MemmapEntry>,
    pub current_entry: int,
    pub current_addr: u64,
}

impl<'a> View for PhysFrameAllocator<'a> {
    type V = AllocatorView;

    closed spec fn view(&self) -> AllocatorView {
        AllocatorView {
            entries: self.entries@,
            current_entry: self.current_entry as int,
            current_addr: self.current_addr,
        }
    }
}

/// The entry describes usable RAM.
pub open spec fn is_usable(e: MemmapEntry) -> bool {
    e.kind == MEMMAP_USABLE
}

/// Every usable region of the map lies within the physical address space.
pub open spec fn map_ok(es: Seq<MemmapEntry>) -> bool {
    forall|i: int|
        0 <= i < es.len() && #[trigger] is_usable(es[i]) ==> es[i].base + es[i].length
            <= PHYS_ADDR_LIMIT
}

/// Allocation from entry `i` with next address `a`: the address handed out
/// (if any), then the entry and next address the allocator is left with.
///
/// Entries that are not usable are skipped; a usable entry hands out
/// consecutive 4 KiB steps from its base while they start below its end.
pub open spec fn alloc_from(es: Seq<MemmapEntry>, i: int, a: u64) -> (Option<u64>, int, u64)
    decreases es.len() - i,
{
    if i < 0 || i >= es.len() {
        (None, i, a)
    } else if !is_usable(es[i]) {
        alloc_from(es, i + 1, a)
    } else {
        let start = if a == 0 {
            es[i].base
        } else {
            a
        };
        if start < es[i].base + es[i].length {
            (Some(start), i, (start + FRAME_SIZE) as u64)
        } else {
            alloc_from(es, i + 1, 0)
        }
    }
}

/// The start of the 4 KiB frame that contains `addr`.
pub open spec fn frame_of(addr: u64) -> u64 {
    (addr - addr % FRAME_SIZE) as u64
}

/// The effect of one allocation on the allocator `v`: the frame handed
/// out and the allocator afterwards.
pub open spec fn allocate_result(v: AllocatorView) -> (Option<u64>, AllocatorView) {
    let step = alloc_from(v.entries, v.current_entry, v.current_addr);
    (
        match step.0 {
            Some(x) => Some(frame_of(x)),
            None => None,
        },
        AllocatorView { entries: v.entries, current_entry: step.1, current_addr: step.2 },
    )
}

/// The start address of the frame that contains `addr`:
/// `PhysFrame::<Size4KiB>::containing_address(PhysAddr::new(addr))`.
///
/// Trusted: `PhysAddr::new` accepts addresses below 2^52, and
/// `containing_address` aligns the address down to the 4 KiB frame size,
/// as the x86_64 crate's source shows.
#[verifier::external_body]
fn frame_containing(addr: u64) -> (r: u64)
    requires
        addr < PHYS_ADDR_LIMIT,
    ensures
        r == frame_of(addr),
{
    PhysFrame::<Size4KiB>::containing_address(PhysAddr::new(addr)).start_address().as_u64()
}

/// A new allocator over the memory map `entries`, positioned before its first frame.
pub fn init<'a>(entries: &'a [MemmapEntry]) -> (r: PhysFrameAllocator<'a>)
    requires
        map_ok(entries@),
    ensures
        r@ == (AllocatorView { entries: entries@, current_entry: 0, current_addr: 0 }),
        r.wf(),
{
    PhysFrameAllocator { entries, current_entry: 0, current_addr: 0 }
}

/// Whether every usable region of `entries` lies in the physical address
/// space, which `init` asks of its map.
pub fn map_ok_checked(entries: &[MemmapEntry]) -> (r: bool)
    ensures
        r == map_ok(entries@),
{
    let mut i: usize = 0;
    while i < entries.len()
        invariant
            i <= entries.len(),
            forall|j: int|
                0 <= j < i && #[trigger] is_usable(entries@[j]) ==> entries@[j].base
                    + entries@[j].length <= PHYS_ADDR_LIMIT,
        decreases entries.len() - i,
    {
        let e = entries[i];
        if e.kind == MEMMAP_USABLE && (e.base > PHYS_ADDR_LIMIT || e.length > PHYS_ADDR_LIMIT
            - e.base) {
            proof {
                assert(is_usable(entries@[i as int]));
            }
            return false;
        }
        i = i + 1;
    }
    true
}

/// `n` consecutive allocations from `v`: the frames handed out, in order,
/// and the allocator afterwards.
pub open spec fn run(v: AllocatorView, n: nat) -> (Seq<Option<u64>>, AllocatorView)
    decreases n,
{
    if n == 0 {
        (Seq::empty(), v)
    } else {
        let before = run(v, (n - 1) as nat);
        let step = allocate_result(before.1);
        (before.0.push(step.0), step.1)
    }
}

/// A fresh allocator over `es`.
pub open spec fn fresh(es: Seq<MemmapEntry>) -> AllocatorView {
    AllocatorView { entries: es, current_entry: 0, current_addr: 0 }
}

/// `x` lies in the region that `e` describes.
pub open spec fn in_region(e: MemmapEntry, x: int) -> bool {
    e.base <= x < e.base + e.length
}

/// The usable regions start on frame boundaries, as a bootloader's memory
/// map promises.
pub open spec fn usable_regions_aligned(es: Seq<MemmapEntry>) -> bool {
    forall|i: int| 0 <= i < es.len() && #[trigger] is_usable(es[i]) ==> es[i].base % 4096 == 0
}

/// The usable regions start on frame boundaries and do not overlap, as a
/// bootloader's memory map promises.
pub open spec fn usable_regions_disjoint(es: Seq<MemmapEntry>) -> bool {
    &&& usable_regions_aligned(es)
    &&& forall|i: int, j: int|
        0 <= i < es.len() && 0 <= j < es.len() && i != j && #[trigger] is_usable(es[i])
            && #[trigger] is_usable(es[j]) ==> es[i].base + es[i].length <= es[j].base
            || es[j].base + es[j].length <= es[i].base
}

/// A position the allocator can reach: before any frame of entry `i`, or
/// at a frame boundary inside usable entry `i`.
pub open spec fn reachable(es: Seq<MemmapEntry>, i: int, a: u64) -> bool {
    a == 0 || (0 <= i < es.len() && is_usable(es[i]) && es[i].base <= a && (a - es[i].base)
        % 4096 == 0)
}

/// `x` was handed out before position `(i, a)`: it lies in a usable entry
/// before `i`, or in entry `i` below `a`.
pub open spec fn handed_before(es: Seq<MemmapEntry>, x: int, i: int, a: u64) -> bool {
    exists|j: int|
        0 <= j < es.len() && #[trigger] is_usable(es[j]) && in_region(es[j], x) && (j < i || (j
            == i && a != 0 && x < a))
}

proof fn lemma_aligned_step(a: int, b: int)
    requires
        b % 4096 == 0,
        a >= b,
        (a - b) % 4096 == 0,
    ensures
        a % 4096 == 0,
        (a + 4096 - b) % 4096 == 0,
{
    assert(a % 4096 == 0) by (nonlinear_arith)
        requires
            b % 4096 == 0,
            a >= b,
            (a - b) % 4096 == 0,
    ;
    assert((a + 4096 - b) % 4096 == 0) by (nonlinear_arith)
        requires
            (a - b) % 4096 == 0,
            a >= b,
    ;
}

proof fn lemma_alloc_from(es: Seq<MemmapEntry>, i: int, a: u64)
    requires
        map_ok(es),
        usable_regions_aligned(es),
        i >= 0,
        reachable(es, i, a),
    ensures
        ({
            let r = alloc_from(es, i, a);
            &&& r.1 >= i
            &&& reachable(es, r.1, r.2)
            &&& r.0 matches Some(x) ==> {
                &&& 0 <= r.1 < es.len()
                &&& is_usable(es[r.1])
                &&& in_region(es[r.1], x as int)
                &&& x % 4096 == 0
                &&& r.2 == x + 4096
                &&& handed_before(es, x as int, r.1, r.2)
            }
            &&& forall|y: int|
                #![trigger handed_before(es, y, i, a)]
                handed_before(es, y, i, a) ==> handed_before(es, y, r.1, r.2) && (
                usable_regions_disjoint(es) ==> (r.0 matches Some(x) ==> y != x))
        }),
    decreases es.len() - i,
{
    if i >= es.len() {
    } else if !is_usable(es[i]) {
        lemma_alloc_from(es, i + 1, a);
        assert forall|y: int| handed_before(es, y, i, a) implies handed_before(es, y, i + 1, a) by {
            let j = choose|j: int|
                0 <= j < es.len() && #[trigger] is_usable(es[j]) && in_region(es[j], y) && (j < i
                    || (j == i && a != 0 && y < a));
            assert(is_usable(es[j]));
        }
    } else {
        let start = if a == 0 {
            es[i].base
        } else {
            a
        };
        if start < es[i].base + es[i].length {
            assert(is_usable(es[i]));
            lemma_aligned_step(start as int, es[i].base as int);
            assert(is_usable(es[i]));
            assert(handed_before(es, start as int, i, (start + 4096) as u64));
            assert forall|y: int| #![trigger handed_before(es, y, i, a)]
                handed_before(es, y, i, a) implies handed_before(
                es,
                y,
                i,
                (start + 4096) as u64,
            ) && (usable_regions_disjoint(es) ==> y != start) by {
                let j = choose|j: int|
                    0 <= j < es.len() && #[trigger] is_usable(es[j]) && in_region(es[j], y) && (j
                        < i || (j == i && a != 0 && y < a));
                assert(is_usable(es[j]));
                if j != i && usable_regions_disjoint(es) {
                    assert(is_usable(es[i]));
                }
            }
        } else {
            lemma_alloc_from(es, i + 1, 0);
            assert forall|y: int| handed_before(es, y, i, a) implies handed_before(es, y, i + 1, 0) by {
                let j = choose|j: int|
                    0 <= j < es.len() && #[trigger] is_usable(es[j]) && in_region(es[j], y) && (j
                        < i || (j == i && a != 0 && y < a));
                assert(is_usable(es[j]));
            }
        }
    }
}

proof fn lemma_run(es: Seq<MemmapEntry>, n: nat)
    requires
        map_ok(es),
        usable_regions_aligned(es),
    ensures
        ({
            let r = run(fresh(es), n);
            &&& r.0.len() == n
            &&& r.1.entries == es
            &&& r.1.current_entry >= 0
            &&& reachable(es, r.1.current_entry, r.1.current_addr)
            &&& forall|k: int|
                0 <= k < n && #[trigger] r.0[k] is Some ==> handed_before(
                    es,
                    r.0[k]->0 as int,
                    r.1.current_entry,
                    r.1.current_addr,
                ) && r.0[k]->0 % 4096 == 0
            &&& usable_regions_disjoint(es) ==> forall|k: int, m: int|
                0 <= k < m < n && #[trigger] r.0[k] is Some && #[trigger] r.0[m] is Some ==> r.0[k]
                    != r.0[m]
        }),
    decreases n,
{
    if n > 0 {
        lemma_run(es, (n - 1) as nat);
        let before = run(fresh(es), (n - 1) as nat);
        let v = before.1;
        lemma_alloc_from(es, v.current_entry, v.current_addr);
        let step = alloc_from(es, v.current_entry, v.current_addr);
        let r = run(fresh(es), n);
        assert forall|k: int| 0 <= k < n && #[trigger] r.0[k] is Some implies handed_before(
            es,
            r.0[k]->0 as int,
            r.1.current_entry,
            r.1.current_addr,
        ) && r.0[k]->0 % 4096 == 0 by {
            if k < n - 1 {
                assert(r.0[k] == before.0[k]);
                assert(handed_before(es, before.0[k]->0 as int, v.current_entry, v.current_addr));
            } else {
                let x = step.0->0;
                assert(x % 4096 == 0);
                assert(frame_of(x) == x);
            }
        }
        if usable_regions_disjoint(es) {
        assert forall|k: int, m: int|
            0 <= k < m < n && #[trigger] r.0[k] is Some && #[trigger] r.0[m] is Some implies r.0[k]
                != r.0[m] by {
            if m < n - 1 {
                assert(r.0[k] == before.0[k]);
                assert(r.0[m] == before.0[m]);
            } else {
                assert(r.0[k] == before.0[k]);
                let y = before.0[k]->0 as int;
                assert(handed_before(es, y, v.current_entry, v.current_addr));
                let x = step.0->0;
                assert(frame_of(x) == x);
            }
        }
        }
    }
}

/// A frame is never handed out twice: from a fresh allocator over a memory
/// map whose usable regions are frame-aligned and disjoint, any two
/// allocations that succeed give different frames.
pub proof fn lemma_frames_never_repeat(es: Seq<MemmapEntry>, n: nat, k: int, m: int)
    requires
        map_ok(es),
        usable_regions_disjoint(es),
        0 <= k < m < n,
        run(fresh(es), n).0[k] is Some,
        run(fresh(es), n).0[m] is Some,
    ensures
        run(fresh(es), n).0[k] != run(fresh(es), n).0[m],
{
    lemma_run(es, n);
}

/// Every frame handed out from a fresh allocator starts inside a usable
/// region of the memory map, on a frame boundary, when the usable regions
/// are frame-aligned.
pub proof fn lemma_frames_usable(es: Seq<MemmapEntry>, n: nat, k: int)
    requires
        map_ok(es),
        usable_regions_aligned(es),
        0 <= k < n,
        run(fresh(es), n).0[k] is Some,
    ensures
        exists|j: int|
            0 <= j < es.len() && #[trigger] is_usable(es[j]) && in_region(
                es[j],
                run(fresh(es), n).0[k]->0 as int,
            ),
        run(fresh(es), n).0[k]->0 % 4096 == 0,
{
    lemma_run(es, n);
    let r = run(fresh(es), n);
    let x = r.0[k]->0 as int;
    assert(handed_before(es, x, r.1.current_entry, r.1.current_addr));
    let j = choose|j: int|
        0 <= j < es.len() && #[trigger] is_usable(es[j]) && in_region(es[j], x) && (j
            < r.1.current_entry || (j == r.1.current_entry && r.1.current_addr != 0 && x
            < r.1.current_addr));
    assert(is_usable(es[j]));
}

proof fn lemma_alloc_none(es: Seq<MemmapEntry>, i: int, a: u64)
    ensures
        alloc_from(es, i, a).0 is None ==> alloc_from(es, i, a).1 < 0 || alloc_from(es, i, a).1
            >= es.len(),
    decreases es.len() - i,
{
    if i < 0 || i >= es.len() {
    } else if !is_usable(es[i]) {
        lemma_alloc_none(es, i + 1, a);
    } else {
        lemma_alloc_none(es, i + 1, 0);
    }
}

proof fn lemma_run_len(v: AllocatorView, n: nat)
    ensures
        run(v, n).0.len() == n,
    decreases n,
{
    if n > 0 {
        lemma_run_len(v, (n - 1) as nat);
    }
}

/// The first `k + 1` allocations of a run of `n > k` are those of a run of
/// `k + 1`.
proof fn lemma_run_prefix(v: AllocatorView, n: nat, k: nat)
    requires
        k < n,
    ensures
        run(v, n).0[k as int] == run(v, k + 1).0[k as int],
    decreases n,
{
    lemma_run_len(v, n);
    lemma_run_len(v, k + 1);
    if n > k + 1 {
        lemma_run_len(v, (n - 1) as nat);
        lemma_run_prefix(v, (n - 1) as nat, k);
    }
}

/// After an allocation that fails, the allocator no longer changes and
/// every allocation fails.
proof fn lemma_run_after_none(v: AllocatorView, n: nat, k: nat)
    requires
        k < n,
        run(v, k + 1).0[k as int] is None,
    ensures
        run(v, n).1 == run(v, k + 1).1,
        forall|m: int| k <= m < n ==> #[trigger] run(v, n).0[m] is None,
    decreases n,
{
    lemma_run_len(v, n);
    lemma_run_len(v, k + 1);
    if n > k + 1 {
        lemma_run_len(v, (n - 1) as nat);
        lemma_run_after_none(v, (n - 1) as nat, k);
        let before = run(v, (n - 1) as nat);
        let w = run(v, k).1;
        lemma_alloc_none(w.entries, w.current_entry, w.current_addr);
        assert(run(v, n).0[n - 1] is None);
        assert forall|m: int| k <= m < n implies #[trigger] run(v, n).0[m] is None by {
            if m < n - 1 {
                assert(run(v, n).0[m] == before.0[m]);
            }
        }
    }
}

/// Once the allocator runs out of frames it stays out: after an allocation
/// that gives `None`, every later allocation gives `None` too.
pub proof fn lemma_exhausted_stays_exhausted(v: AllocatorView, n: nat, k: int, m: int)
    requires
        0 <= k < m < n,
        run(v, n).0[k] is None,
    ensures
        run(v, n).0[m] is None,
{
    lemma_run_prefix(v, n, k as nat);
    lemma_run_after_none(v, n, k as nat);
}

/// The frame addresses from `a` on, one frame apart, that start below `end`.
pub open spec fn frames_between(a: int, end: int) -> Seq<u64>
    decreases (if a < end {
        end - a
    } else {
        0
    }),
{
    if a < end {
        seq![a as u64] + frames_between(a + FRAME_SIZE, end)
    } else {
        Seq::empty()
    }
}

/// The frames of the usable entries of `es` from entry `i` on, in entry
/// order: for each, its base and every frame after it that starts inside
/// the entry.
pub open spec fn frames_from(es: Seq<MemmapEntry>, i: int) -> Seq<u64>
    decreases es.len() - i,
{
    if i < 0 || i >= es.len() {
        Seq::empty()
    } else if is_usable(es[i]) {
        frames_between(es[i].base as int, es[i].base + es[i].length) + frames_from(es, i + 1)
    } else {
        frames_from(es, i + 1)
    }
}

/// The frames an allocator positioned at entry `i` and next address `a`
/// (zero before the entry's first frame) still hands out, in order.
pub open spec fn pending(es: Seq<MemmapEntry>, i: int, a: u64) -> Seq<u64> {
    if a == 0 {
        frames_from(es, i)
    } else if 0 <= i < es.len() {
        frames_between(a as int, es[i].base + es[i].length) + frames_from(es, i + 1)
    } else {
        Seq::empty()
    }
}

proof fn lemma_alloc_pending(es: Seq<MemmapEntry>, i: int, a: u64)
    requires
        map_ok(es),
        i >= 0,
        reachable(es, i, a),
    ensures
        ({
            let r = alloc_from(es, i, a);
            let p = pending(es, i, a);
            &&& p.len() > 0 ==> r.0 == Some(p[0]) && pending(es, r.1, r.2) == p.drop_first()
            &&& p.len() == 0 ==> r.0 is None && pending(es, r.1, r.2).len() == 0
        }),
    decreases es.len() - i,
{
    if i >= es.len() {
    } else if !is_usable(es[i]) {
        lemma_alloc_pending(es, i + 1, 0);
    } else {
        assert(is_usable(es[i]));
        let end = es[i].base + es[i].length;
        let start = if a == 0 {
            es[i].base
        } else {
            a
        };
        let rest = frames_from(es, i + 1);
        if start < end {
            let tail = frames_between(start + FRAME_SIZE, end);
            assert(frames_between(start as int, end) == seq![start] + tail);
            assert((seq![start] + tail + rest).drop_first() =~= tail + rest);
            assert((seq![start] + tail + rest)[0] == start);
        } else {
            assert(frames_between(start as int, end) =~= Seq::<u64>::empty());
            assert(Seq::<u64>::empty() + rest =~= rest);
            lemma_alloc_pending(es, i + 1, 0);
        }
    }
}

proof fn lemma_run_pending(es: Seq<MemmapEntry>, n: nat)
    requires
        map_ok(es),
        usable_regions_aligned(es),
    ensures
        ({
            let r = run(fresh(es), n);
            let all = frames_from(es, 0);
            let m = if n < all.len() { n as int } else { all.len() as int };
            &&& r.0.len() == n
            &&& r.1.entries == es
            &&& r.1.current_entry >= 0
            &&& reachable(es, r.1.current_entry, r.1.current_addr)
            &&& pending(es, r.1.current_entry, r.1.current_addr) == all.skip(m)
            &&& forall|k: int|
                0 <= k < n ==> #[trigger] r.0[k] == if k < all.len() {
                    Some(all[k])
                } else {
                    None::<u64>
                }
        }),
    decreases n,
{
    let all = frames_from(es, 0);
    if n == 0 {
        assert(all.skip(0) =~= all);
    } else {
        lemma_run_pending(es, (n - 1) as nat);
        let before = run(fresh(es), (n - 1) as nat);
        let v = before.1;
        let m0 = if n - 1 < all.len() { (n - 1) as int } else { all.len() as int };
        lemma_alloc_pending(es, v.current_entry, v.current_addr);
        lemma_alloc_from(es, v.current_entry, v.current_addr);
        let step = alloc_from(es, v.current_entry, v.current_addr);
        let r = run(fresh(es), n);
        if m0 < all.len() {
            assert(all.skip(m0)[0] == all[m0]);
            assert(all.skip(m0).drop_first() =~= all.skip(m0 + 1));
            let x = step.0->0;
            assert(frame_of(x) == x);
        } else {
            assert(all.skip(m0).len() == 0);
        }
        assert forall|k: int|
            0 <= k < n implies #[trigger] r.0[k] == if k < all.len() {
                Some(all[k])
            } else {
                None::<u64>
            } by {
            if k < n - 1 {
                assert(r.0[k] == before.0[k]);
            }
        }
    }
}

/// Frames come out in order: from a fresh allocator over a memory map whose
/// usable regions are frame-aligned, the `k`-th allocation gives the `k`-th
/// frame of [`frames_from`] — every frame of each usable entry from its
/// base up, entry after entry — and `None` once those are all handed out.
pub proof fn lemma_frames_in_order(es: Seq<MemmapEntry>, n: nat, k: int)
    requires
        map_ok(es),
        usable_regions_aligned(es),
        0 <= k < n,
    ensures
        k < frames_from(es, 0).len() ==> run(fresh(es), n).0[k] == Some(frames_from(es, 0)[k]),
        k >= frames_from(es, 0).len() ==> run(fresh(es), n).0[k] is None,
{
    lemma_run_pending(es, n);
}

impl<'a> PhysFrameAllocator<'a> {
    /// The allocator's invariant: its memory map lies in the physical address space.
    pub open spec fn wf(&self) -> bool {
        map_ok(self@.entries)
    }

    /// Hands out the next 4 KiB frame (by its start address), or `None` when
    /// the usable regions are exhausted.
    pub fn allocate_frame(&mut self) -> (r: Option<u64>)
        requires
            old(self).wf(),
        ensures
            (r, final(self)@) == allocate_result(old(self)@),
            final(self).wf(),
    {
        let ghost v0 = self@;
        let ghost target = alloc_from(v0.entries, v0.current_entry, v0.current_addr);
        loop
            invariant
                self.wf(),
                self@.entries == v0.entries,
                alloc_from(self@.entries, self@.current_entry, self@.current_addr) == target,
                target == alloc_from(v0.entries, v0.current_entry, v0.current_addr),
                v0 == old(self)@,
            decreases self@.entries.len() - self@.current_entry,
        {
            if self.current_entry >= self.entries.len() {
                return None;
            }
            let entry = self.entries[self.current_entry];
            if entry.kind != MEMMAP_USABLE {
                self.current_entry = self.current_entry + 1;
                continue;
            }
            proof {
                assert(is_usable(self@.entries[self@.current_entry]));
            }
            if self.current_addr == 0 {
                self.current_addr = entry.base;
            }
            if self.current_addr < entry.base + entry.length {
                let addr = self.current_addr;
                self.current_addr = self.current_addr + FRAME_SIZE;
                return Some(frame_containing(addr));
            }
            self.current_entry = self.current_entry + 1;
            self.current_addr = 0;
        }
    }
}

} // verus!
