//! The mathematical model of an address space, and what follows from its
//! invariant.

use vstd::prelude::*;
use crate::config::PAGE_SIZE;
use crate::mm::address::pages_for;
use crate::mm::area::{AreaView, MapPermission};

verus! {

/// An address space as contracts see it: the areas in the order in which
/// they were inserted, the heap's bottom and the program break. The first
/// area is the heap.
pub struct MemorySetView {
    pub areas: Seq<AreaView>,
    pub heap_bottom: int,
    pub brk: int,
}

impl MemorySetView {
    /// Every area is well formed, no page belongs to two areas, and the
    /// heap area runs from the heap's bottom to the program break.
    pub open spec fn wf(self) -> bool {
        &&& self.areas.len() >= 1
        &&& forall|i: int| 0 <= i < self.areas.len() ==> (#[trigger] self.areas[i]).wf()
        &&& forall|i: int, j: int|
            0 <= i < self.areas.len() && 0 <= j < self.areas.len() && i != j ==> !(
            #[trigger] self.areas[i]).overlaps((#[trigger] self.areas[j]).start, self.areas[j].end)
        &&& 0 <= self.heap_bottom <= self.brk <= usize::MAX
        &&& self.heap_bottom % (PAGE_SIZE as int) == 0
        &&& self.areas[0].start == self.heap_bottom / (PAGE_SIZE as int)
        &&& self.areas[0].end == pages_for(self.brk)
        &&& self.areas[0].perm == MapPermission::heap()
    }

    /// Whether page `vpn` belongs to some area.
    pub open spec fn mapped(self, vpn: int) -> bool {
        exists|i: int| 0 <= i < self.areas.len() && (#[trigger] self.areas[i]).contains(vpn)
    }

    /// Index of the area that page `vpn` belongs to.
    pub open spec fn area_of(self, vpn: int) -> int {
        choose|i: int| 0 <= i < self.areas.len() && (#[trigger] self.areas[i]).contains(vpn)
    }

    /// Whether no page of `[s, e)` is mapped.
    pub open spec fn range_free(self, s: int, e: int) -> bool {
        forall|vpn: int| s <= vpn < e ==> !self.mapped(vpn)
    }

    /// Permissions of the mapped page `vpn`.
    pub open spec fn perm_at(self, vpn: int) -> MapPermission {
        self.areas[self.area_of(vpn)].perm
    }

    /// The byte at the mapped address `va`.
    pub open spec fn byte(self, va: int) -> u8 {
        let vpn = va / (PAGE_SIZE as int);
        let a = self.areas[self.area_of(vpn)];
        a.pages[vpn - a.start][va % (PAGE_SIZE as int)]
    }

    /// Whether `va` is an address that user code may read.
    pub open spec fn user_readable(self, va: int) -> bool {
        &&& 0 <= va <= usize::MAX
        &&& self.mapped(va / (PAGE_SIZE as int))
        &&& self.perm_at(va / (PAGE_SIZE as int)).user_readable()
    }

    /// Whether `va` is an address that user code may write.
    pub open spec fn user_writable(self, va: int) -> bool {
        &&& 0 <= va <= usize::MAX
        &&& self.mapped(va / (PAGE_SIZE as int))
        &&& self.perm_at(va / (PAGE_SIZE as int)).user_writable()
    }

    /// Whether user code may write each of the `len` bytes from `va` on.
    pub open spec fn range_user_writable(self, va: int, len: int) -> bool {
        forall|a: int| va <= a < va + len ==> #[trigger] self.user_writable(a)
    }

    /// Whether user code may read each of the `len` bytes from `va` on.
    pub open spec fn range_user_readable(self, va: int, len: int) -> bool {
        forall|a: int| va <= a < va + len ==> #[trigger] self.user_readable(a)
    }

    /// The `len` bytes from `va` on.
    pub open spec fn bytes_at(self, va: int, len: int) -> Seq<u8> {
        Seq::new(len as nat, |i: int| self.byte(va + i))
    }

    /// Whether `other` has the same areas with the same bounds and
    /// permissions, and the same heap; the bytes may differ.
    pub open spec fn same_layout(self, other: MemorySetView) -> bool {
        &&& self.areas.len() == other.areas.len()
        &&& forall|i: int|
            0 <= i < self.areas.len() ==> {
                &&& (#[trigger] self.areas[i]).start == other.areas[i].start
                &&& self.areas[i].end == other.areas[i].end
                &&& self.areas[i].perm == other.areas[i].perm
            }
        &&& self.heap_bottom == other.heap_bottom
        &&& self.brk == other.brk
    }

    /// Whether `other` differs from `self` at most in the `len` bytes from
    /// `va` on, which in `other` hold `data`.
    pub open spec fn written(self, other: MemorySetView, va: int, data: Seq<u8>) -> bool {
        &&& self.same_layout(other)
        &&& forall|a: int|
            self.mapped(a / (PAGE_SIZE as int)) ==> #[trigger] other.byte(a) == if va <= a < va
                + data.len() {
                data[a - va]
            } else {
                self.byte(a)
            }
    }

    /// The address space with byte `b` stored at the mapped address `va`.
    pub open spec fn store(self, va: int, b: u8) -> MemorySetView {
        let vpn = va / (PAGE_SIZE as int);
        let k = self.area_of(vpn);
        let a = self.areas[k];
        let page = vpn - a.start;
        MemorySetView {
            areas: self.areas.update(
                k,
                AreaView {
                    pages: a.pages.update(page, a.pages[page].update(va % (PAGE_SIZE as int), b)),
                    ..a
                },
            ),
            ..self
        }
    }

    /// The address space with the break at `brk`: the heap loses the pages
    /// beyond it, or gains zeroed pages up to it.
    pub open spec fn with_brk(self, brk: int) -> MemorySetView {
        let heap = self.areas[0];
        let end = pages_for(brk);
        MemorySetView {
            areas: self.areas.update(
                0,
                AreaView {
                    end,
                    pages: if end <= heap.end {
                        heap.pages.subrange(0, end - heap.start)
                    } else {
                        heap.pages + crate::mm::area::zero_pages(end - heap.end)
                    },
                    ..heap
                },
            ),
            brk,
            ..self
        }
    }

    /// Whether the break may move to `brk`: not below the heap's bottom, not
    /// beyond the last address, and not over a page that another area holds.
    pub open spec fn brk_fits(self, brk: int) -> bool {
        &&& self.heap_bottom <= brk <= usize::MAX
        &&& self.range_free(self.areas[0].end, pages_for(brk))
    }

    /// Whether a string of `n` bytes and its closing zero byte can be read
    /// at `va`.
    pub open spec fn has_str(self, va: int, n: int) -> bool {
        &&& 0 <= n
        &&& self.range_user_readable(va, n + 1)
        &&& forall|a: int| va <= a < va + n ==> #[trigger] self.byte(a) != 0
        &&& self.byte(va + n) == 0
    }

    /// The string at `va`: the bytes up to, and without, the first zero
    /// byte, where user code may read them all.
    pub open spec fn str_at(self, va: int) -> Option<Seq<u8>> {
        if exists|n: int| self.has_str(va, n) {
            Some(self.bytes_at(va, choose|n: int| self.has_str(va, n)))
        } else {
            None
        }
    }

    /// Whether some area other than the heap has exactly the bounds `[s, e)`.
    pub open spec fn has_span(self, s: int, e: int) -> bool {
        exists|i: int| 1 <= i < self.areas.len() && (#[trigger] self.areas[i]).spans(s, e)
    }

    /// Whether the area number `i` is the first, the heap aside, with
    /// exactly the bounds `[s, e)`.
    pub open spec fn is_first_span(self, s: int, e: int, i: int) -> bool {
        &&& 1 <= i < self.areas.len()
        &&& self.areas[i].spans(s, e)
        &&& forall|j: int| 1 <= j < i ==> !(#[trigger] self.areas[j]).spans(s, e)
    }

    /// Index of the first area, the heap aside, with exactly the bounds `[s, e)`.
    pub open spec fn first_span(self, s: int, e: int) -> int {
        choose|i: int| self.is_first_span(s, e, i)
    }

    /// The address space with one more area, `[s, e)`, zero filled.
    pub open spec fn insert(self, s: int, e: int, perm: MapPermission) -> MemorySetView {
        MemorySetView { areas: self.areas.push(AreaView::fresh(s, e, perm)), ..self }
    }

    /// The address space without its area number `i`.
    pub open spec fn remove(self, i: int) -> MemorySetView {
        MemorySetView { areas: self.areas.remove(i), ..self }
    }

    /// The address space with nothing mapped and the break back at the
    /// heap's bottom.
    pub open spec fn released(self) -> MemorySetView {
        Self::bare(self.heap_bottom)
    }

    /// The address space that holds nothing but an empty heap at `heap_bottom`.
    pub open spec fn bare(heap_bottom: int) -> MemorySetView {
        MemorySetView {
            areas: seq![
                AreaView::fresh(
                    heap_bottom / (PAGE_SIZE as int),
                    heap_bottom / (PAGE_SIZE as int),
                    MapPermission::heap(),
                ),
            ],
            heap_bottom,
            brk: heap_bottom,
        }
    }
}

/// In a well-formed address space the area that holds a page is unique.
pub proof fn lemma_area_of(ms: MemorySetView, i: int, vpn: int)
    requires
        ms.wf(),
        0 <= i < ms.areas.len(),
        ms.areas[i].contains(vpn),
    ensures
        ms.mapped(vpn),
        ms.area_of(vpn) == i,
{
    let j = ms.area_of(vpn);
    assert(ms.areas[j].contains(vpn));
    if j != i {
        assert(ms.areas[i].overlaps(ms.areas[j].start, ms.areas[j].end));
    }
}

/// The first area with given bounds is the one before which there is none.
pub proof fn lemma_first_span_is(ms: MemorySetView, s: int, e: int, i: int)
    requires
        ms.is_first_span(s, e, i),
    ensures
        ms.first_span(s, e) == i,
        ms.has_span(s, e),
{
    let first = ms.first_span(s, e);
    assert(ms.is_first_span(s, e, first));
    if first < i {
        assert(!ms.areas[first].spans(s, e));
    }
    if first > i {
        assert(!ms.areas[i].spans(s, e));
    }
}

/// A range is free exactly if no area shares a page with it.
pub proof fn lemma_range_free(ms: MemorySetView, s: int, e: int)
    ensures
        ms.range_free(s, e) <==> forall|i: int|
            0 <= i < ms.areas.len() ==> !(#[trigger] ms.areas[i]).overlaps(s, e),
{
    if ms.range_free(s, e) {
        assert forall|i: int| 0 <= i < ms.areas.len() implies !(#[trigger] ms.areas[i]).overlaps(
            s,
            e,
        ) by {
            if ms.areas[i].overlaps(s, e) {
                let vpn = if ms.areas[i].start >= s {
                    ms.areas[i].start
                } else {
                    s
                };
                assert(ms.areas[i].contains(vpn));
                assert(ms.mapped(vpn));
            }
        }
    }
    if forall|i: int| 0 <= i < ms.areas.len() ==> !(#[trigger] ms.areas[i]).overlaps(s, e) {
        assert forall|vpn: int| s <= vpn < e implies !ms.mapped(vpn) by {
            if ms.mapped(vpn) {
                let i = ms.area_of(vpn);
                assert(ms.areas[i].overlaps(s, e));
            }
        }
    }
}

/// Inserting an area over a free range keeps the address space well formed.
pub proof fn lemma_insert_wf(ms: MemorySetView, s: int, e: int, perm: MapPermission)
    requires
        ms.wf(),
        0 <= s <= e <= crate::mm::address::vpn_limit(),
        perm.some_access(),
        ms.range_free(s, e),
    ensures
        ms.insert(s, e, perm).wf(),
{
    lemma_range_free(ms, s, e);
    let n = ms.insert(s, e, perm);
    let k = ms.areas.len() as int;
    assert(n.areas[k] == AreaView::fresh(s, e, perm));
    assert(n.areas[k].wf());
    assert forall|i: int| 0 <= i < n.areas.len() implies (#[trigger] n.areas[i]).wf() by {
        if i < k {
            assert(n.areas[i] == ms.areas[i]);
        }
    }
    assert forall|i: int, j: int|
        0 <= i < n.areas.len() && 0 <= j < n.areas.len() && i != j implies !(
        #[trigger] n.areas[i]).overlaps((#[trigger] n.areas[j]).start, n.areas[j].end) by {
        if i < k && j < k {
            assert(n.areas[i] == ms.areas[i]);
            assert(n.areas[j] == ms.areas[j]);
        } else if i < k {
            assert(n.areas[i] == ms.areas[i]);
            assert(!ms.areas[i].overlaps(s, e));
        } else {
            assert(n.areas[j] == ms.areas[j]);
            assert(!ms.areas[j].overlaps(s, e));
        }
    }
    assert(n.areas[0] == ms.areas[0]);
}

/// Removing an area other than the heap keeps the address space well formed.
pub proof fn lemma_remove_wf(ms: MemorySetView, i: int)
    requires
        ms.wf(),
        1 <= i < ms.areas.len(),
    ensures
        ms.remove(i).wf(),
{
    let n = ms.remove(i);
    assert forall|a: int| 0 <= a < n.areas.len() implies (#[trigger] n.areas[a]).wf() by {
        if a < i {
            assert(n.areas[a] == ms.areas[a]);
        } else {
            assert(n.areas[a] == ms.areas[a + 1]);
        }
    }
    assert forall|a: int, b: int|
        0 <= a < n.areas.len() && 0 <= b < n.areas.len() && a != b implies !(
        #[trigger] n.areas[a]).overlaps((#[trigger] n.areas[b]).start, n.areas[b].end) by {
        let a0 = if a < i { a } else { a + 1 };
        let b0 = if b < i { b } else { b + 1 };
        assert(n.areas[a] == ms.areas[a0]);
        assert(n.areas[b] == ms.areas[b0]);
    }
    assert(n.areas[0] == ms.areas[0]);
}


/// Areas with the same bounds map the same pages, and in well-formed
/// address spaces a page then belongs to the area of the same index.
pub proof fn lemma_same_layout(a: MemorySetView, b: MemorySetView, vpn: int)
    requires
        a.same_layout(b),
    ensures
        a.mapped(vpn) == b.mapped(vpn),
        a.wf() && b.wf() && a.mapped(vpn) ==> a.area_of(vpn) == b.area_of(vpn) && a.perm_at(vpn)
            == b.perm_at(vpn),
{
    if a.mapped(vpn) {
        let i = a.area_of(vpn);
        assert(a.areas[i].contains(vpn));
        assert(b.areas[i].contains(vpn));
        if a.wf() && b.wf() {
            lemma_area_of(b, i, vpn);
        }
    }
    if b.mapped(vpn) {
        let i = b.area_of(vpn);
        assert(b.areas[i].contains(vpn));
        assert(a.areas[i].contains(vpn));
    }
}

/// Storing a byte at a mapped address changes that byte and nothing else.
pub proof fn lemma_store(ms: MemorySetView, va: int, b: u8)
    requires
        ms.wf(),
        0 <= va,
        ms.mapped(va / (PAGE_SIZE as int)),
    ensures
        ms.store(va, b).wf(),
        ms.same_layout(ms.store(va, b)),
        ms.written(ms.store(va, b), va, seq![b]),
{
    let cur = ms.store(va, b);
    let vpn = va / (PAGE_SIZE as int);
    let k = ms.area_of(vpn);
    let page = vpn - ms.areas[k].start;
    let off = va % (PAGE_SIZE as int);
    assert(ms.areas[k].contains(vpn));
    assert(ms.areas[k].wf());
    assert(ms.areas[k].pages[page].len() == PAGE_SIZE);
    assert forall|i: int| 0 <= i < cur.areas.len() implies (#[trigger] cur.areas[i]).wf() by {
        assert(ms.areas[i].wf());
        if i == k {
            assert forall|p: int| 0 <= p < cur.areas[i].pages.len() implies (
            #[trigger] cur.areas[i].pages[p]).len() == PAGE_SIZE by {
                assert(ms.areas[i].pages[p].len() == PAGE_SIZE);
            }
        }
    }
    assert forall|i: int, j: int|
        0 <= i < cur.areas.len() && 0 <= j < cur.areas.len() && i != j implies !(
        #[trigger] cur.areas[i]).overlaps((#[trigger] cur.areas[j]).start, cur.areas[j].end) by {
        assert(!ms.areas[i].overlaps(ms.areas[j].start, ms.areas[j].end));
    }
    assert(cur.wf());
    assert forall|a: int| ms.mapped(a / (PAGE_SIZE as int)) implies #[trigger] cur.byte(a) == if va
        <= a < va + 1 {
        b
    } else {
        ms.byte(a)
    } by {
        let v = a / (PAGE_SIZE as int);
        lemma_same_layout(ms, cur, v);
        let j = ms.area_of(v);
        assert(ms.areas[j].contains(v));
        if j == k {
            if v - ms.areas[k].start == page && a % (PAGE_SIZE as int) == off {
                assert(a == va);
            }
        }
    }
}

/// Writes compose: a byte stored behind `i` written bytes makes `i + 1`
/// written bytes.
pub proof fn lemma_written_step(
    start: MemorySetView,
    prev: MemorySetView,
    va: int,
    data: Seq<u8>,
    i: int,
)
    requires
        start.wf(),
        prev.wf(),
        0 <= va,
        0 <= i < data.len(),
        start.written(prev, va, data.subrange(0, i)),
        start.mapped((va + i) / (PAGE_SIZE as int)),
    ensures
        prev.store(va + i, data[i]).wf(),
        start.written(prev.store(va + i, data[i]), va, data.subrange(0, i + 1)),
{
    let cur = prev.store(va + i, data[i]);
    lemma_same_layout(start, prev, (va + i) / (PAGE_SIZE as int));
    lemma_store(prev, va + i, data[i]);
    assert forall|a: int| start.mapped(a / (PAGE_SIZE as int)) implies #[trigger] cur.byte(a) == if va
        <= a < va + data.subrange(0, i + 1).len() {
        data.subrange(0, i + 1)[a - va]
    } else {
        start.byte(a)
    } by {
        lemma_same_layout(start, prev, a / (PAGE_SIZE as int));
        assert(prev.byte(a) == if va <= a < va + data.subrange(0, i).len() {
            data.subrange(0, i)[a - va]
        } else {
            start.byte(a)
        });
        assert(cur.byte(a) == if va + i <= a < va + i + 1 {
            data[i]
        } else {
            prev.byte(a)
        });
    }
}

/// What was written can be read back.
pub proof fn lemma_written_reads_back(before: MemorySetView, after: MemorySetView, va: int, data: Seq<u8>)
    requires
        before.written(after, va, data),
        before.range_user_writable(va, data.len() as int),
    ensures
        after.bytes_at(va, data.len() as int) == data,
{
    assert forall|i: int| 0 <= i < data.len() implies after.byte(va + i) == data[i] by {
        assert(before.user_writable(va + i));
    }
    assert(after.bytes_at(va, data.len() as int) =~= data);
}

/// An address space that gave up every frame is well formed.
pub proof fn lemma_released_wf(ms: MemorySetView)
    requires
        ms.wf(),
    ensures
        ms.released().wf(),
{
    let n = ms.released();
    assert(n.areas[0].pages.len() == 0);
}

/// A string has one length: the place of its first zero byte.
pub proof fn lemma_str_unique(ms: MemorySetView, va: int, n: int)
    requires
        ms.has_str(va, n),
    ensures
        ms.str_at(va) == Some(ms.bytes_at(va, n)),
{
    let m = choose|m: int| ms.has_str(va, m);
    assert(ms.has_str(va, m));
    if m < n {
        assert(ms.byte(va + m) != 0);
    }
    if n < m {
        assert(ms.byte(va + n) != 0);
    }
}

} // verus!
