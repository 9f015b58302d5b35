//! Address spaces: an ordered collection of areas over one page table.

use vstd::prelude::*;
use crate::config::PAGE_SIZE;
use crate::mm::address::VirtAddr;
use crate::mm::area::{AreaView, MapArea, MapPermission};
use crate::mm::space::{
    lemma_area_of, lemma_first_span_is, lemma_insert_wf, lemma_range_free, lemma_remove_wf, lemma_same_layout,
    lemma_str_unique, lemma_written_step, MemorySetView,
};

verus! {

/// Why an operation on an address space failed.
#[derive(Clone, Copy, Debug, PartialEq, Eq, Structural)]
pub enum MmError {
    /// The address belongs to no area.
    Unmapped,
    /// A page of the range belongs to an area already.
    AlreadyMapped,
    /// No inserted area has exactly the bounds given.
    NotFullyMapped,
    /// The range or the break asked for does not fit.
    OutOfRange,
    /// The permissions asked for allow no access at all.
    NoAccess,
}

/// Where a byte of an address space is kept: the area that owns its frame,
/// the frame's place in that area, and the offset in the frame.
#[derive(Clone, Copy, Debug, PartialEq, Eq, Structural)]
pub struct PhysAddr {
    pub area: usize,
    pub page: usize,
    pub offset: usize,
}

/// A task's address space. The first area is the heap; the others are the
/// framed areas in the order in which they were inserted.
pub struct MemorySet {
    areas: Vec<MapArea>,
    heap_bottom: usize,
    program_brk: usize,
}

impl View for MemorySet {
    type V = MemorySetView;

    closed spec fn view(&self) -> MemorySetView {
        MemorySetView {
            areas: Seq::new(self.areas@.len(), |i: int| self.areas@[i]@),
            heap_bottom: self.heap_bottom as int,
            brk: self.program_brk as int,
        }
    }
}

impl MemorySet {
    /// An address space with nothing mapped, whose heap will start at the
    /// page boundary at or below `heap_bottom`.
    pub fn new_bare(heap_bottom: VirtAddr) -> (ms: MemorySet)
        ensures
            ms@ == MemorySetView::bare(heap_bottom.spec_floor() * (PAGE_SIZE as int)),
            ms@.wf(),
    {
        let vpn = heap_bottom.floor().0;
        let bottom = vpn * PAGE_SIZE;
        let heap = MapArea::new(vpn, vpn, MapPermission { r: true, w: true, x: false, u: true });
        let mut areas: Vec<MapArea> = Vec::new();
        areas.push(heap);
        let ms = MemorySet { areas, heap_bottom: bottom, program_brk: bottom };
        assert(ms@.areas =~= MemorySetView::bare(bottom as int).areas);
        ms
    }

    /// Lowest address of the heap.
    pub fn heap_bottom(&self) -> (a: usize)
        ensures
            a == self@.heap_bottom,
    {
        self.heap_bottom
    }

    /// The program break: the end of the heap.
    pub fn program_brk(&self) -> (a: usize)
        ensures
            a == self@.brk,
    {
        self.program_brk
    }

    /// Index of the area that holds page `vpn`, if any does.
    pub fn find_area(&self, vpn: usize) -> (r: Option<usize>)
        requires
            self@.wf(),
        ensures
            r is Some <==> self@.mapped(vpn as int),
            r matches Some(i) ==> i == self@.area_of(vpn as int) && i < self@.areas.len(),
    {
        let mut i: usize = 0;
        while i < self.areas.len()
            invariant
                i <= self.areas.len(),
                self@.wf(),
                forall|k: int| 0 <= k < i ==> !(#[trigger] self@.areas[k]).contains(vpn as int),
            decreases self.areas.len() - i,
        {
            if self.areas[i].contains(vpn) {
                proof {
                    lemma_area_of(self@, i as int, vpn as int);
                }
                return Some(i);
            }
            i = i + 1;
        }
        None
    }

    /// Whether no page of `[s, e)` is mapped.
    pub fn is_range_free(&self, s: usize, e: usize) -> (b: bool)
        ensures
            b == self@.range_free(s as int, e as int),
    {
        let mut i: usize = 0;
        while i < self.areas.len()
            invariant
                i <= self.areas.len(),
                forall|k: int| 0 <= k < i ==> !(#[trigger] self@.areas[k]).overlaps(s as int, e as int),
            decreases self.areas.len() - i,
        {
            if self.areas[i].overlaps(s, e) {
                proof {
                    assert(self@.areas[i as int].overlaps(s as int, e as int));
                    lemma_range_free(self@, s as int, e as int);
                }
                return false;
            }
            i = i + 1;
        }
        proof {
            lemma_range_free(self@, s as int, e as int);
        }
        true
    }

    /// Registers a new area over the pages from the one that holds
    /// `start_va` up to the first that starts at or after `end_va`, and backs
    /// each page with a zeroed frame. Fails where the permissions allow no
    /// access, where the bounds are out of order, and where a page of the
    /// range is mapped already.
    pub fn insert_framed_area(&mut self, start_va: VirtAddr, end_va: VirtAddr, perm: MapPermission) -> (r:
        Result<(), MmError>)
        requires
            old(self)@.wf(),
        ensures
            final(self)@.wf(),
            r == Self::insert_outcome(old(self)@, start_va, end_va, perm),
            r is Ok ==> final(self)@ == old(self)@.insert(start_va.spec_floor(), end_va.spec_ceil(), perm),
            r is Err ==> final(self)@ == old(self)@,
    {
        let s = start_va.floor().0;
        let e = end_va.ceil().0;
        if !perm.some_access() {
            return Err(MmError::NoAccess);
        }
        if s > e {
            return Err(MmError::OutOfRange);
        }
        if !self.is_range_free(s, e) {
            return Err(MmError::AlreadyMapped);
        }
        let area = MapArea::new(s, e, perm);
        self.areas.push(area);
        proof {
            assert(self@.areas =~= old(self)@.areas.push(AreaView::fresh(s as int, e as int, perm)));
            lemma_insert_wf(old(self)@, s as int, e as int, perm);
        }
        Ok(())
    }

    /// What inserting an area from `start_va` to `end_va` with the
    /// permissions `perm` answers.
    pub open spec fn insert_outcome(
        ms: MemorySetView,
        start_va: VirtAddr,
        end_va: VirtAddr,
        perm: MapPermission,
    ) -> Result<(), MmError> {
        if !perm.some_access() {
            Err(MmError::NoAccess)
        } else if start_va.spec_floor() > end_va.spec_ceil() {
            Err(MmError::OutOfRange)
        } else if !ms.range_free(start_va.spec_floor(), end_va.spec_ceil()) {
            Err(MmError::AlreadyMapped)
        } else {
            Ok(())
        }
    }

    /// Removes the first inserted area whose bounds are exactly the pages
    /// from the one that holds `start_va` up to the first that starts at or
    /// after `end_va`, with its frames.
    pub fn drop_framed_area(&mut self, start_va: VirtAddr, end_va: VirtAddr) -> (r: Result<(), MmError>)
        requires
            old(self)@.wf(),
        ensures
            final(self)@.wf(),
            r is Ok <==> old(self)@.has_span(start_va.spec_floor(), end_va.spec_ceil()),
            r is Ok ==> final(self)@ == old(self)@.remove(
                old(self)@.first_span(start_va.spec_floor(), end_va.spec_ceil()),
            ),
            r is Err ==> r == Err::<(), MmError>(MmError::NotFullyMapped) && final(self)@ == old(self)@,
    {
        let s = start_va.floor().0;
        let e = end_va.ceil().0;
        let mut i: usize = 1;
        while i < self.areas.len()
            invariant
                1 <= i <= self.areas.len(),
                s == start_va.spec_floor(),
                e == end_va.spec_ceil(),
                self@ == old(self)@,
                self@.wf(),
                forall|k: int| 1 <= k < i ==> !(#[trigger] self@.areas[k]).spans(s as int, e as int),
            decreases self.areas.len() - i,
        {
            if self.areas[i].start_vpn() == s && self.areas[i].end_vpn() == e {
                proof {
                    assert(self@.areas[i as int].spans(s as int, e as int));
                    lemma_first_span_is(old(self)@, s as int, e as int, i as int);
                }
                self.areas.remove(i);
                proof {
                    assert(self@.areas =~= old(self)@.areas.remove(i as int));
                    lemma_remove_wf(old(self)@, i as int);
                }
                return Ok(());
            }
            i = i + 1;
        }
        Err(MmError::NotFullyMapped)
    }

    /// Resolves a virtual address to the place where its byte is kept.
    pub fn translate(&self, va: VirtAddr) -> (r: Result<PhysAddr, MmError>)
        requires
            self@.wf(),
        ensures
            r is Ok <==> self@.mapped(va.spec_floor()),
            r matches Ok(pa) ==> {
                &&& pa.area == self@.area_of(va.spec_floor())
                &&& pa.area < self@.areas.len()
                &&& self@.areas[pa.area as int].contains(va.spec_floor())
                &&& pa.page == va.spec_floor() - self@.areas[pa.area as int].start
                &&& pa.offset == va.spec_page_offset()
            },
            r is Err ==> r == Err::<PhysAddr, MmError>(MmError::Unmapped),
    {
        let vpn = va.floor().0;
        match self.find_area(vpn) {
            Some(i) => {
                assert(self@.areas[i as int].contains(vpn as int));
                Ok(PhysAddr { area: i, page: vpn - self.areas[i].start_vpn(), offset: va.page_offset() })
            },
            None => Err(MmError::Unmapped),
        }
    }
}

impl MemorySet {
    /// Reads the byte at `va` on behalf of user code.
    pub fn read_byte(&self, va: usize) -> (r: Option<u8>)
        requires
            self@.wf(),
        ensures
            r is Some <==> self@.user_readable(va as int),
            r matches Some(b) ==> b == self@.byte(va as int),
    {
        match self.translate(VirtAddr(va)) {
            Ok(pa) => {
                let p = self.areas[pa.area].perm();
                if p.r && p.u {
                    Some(self.areas[pa.area].read(pa.page, pa.offset))
                } else {
                    None
                }
            },
            Err(_) => None,
        }
    }

    /// Whether user code may write each of the `len` bytes from `va` on.
    pub fn is_range_user_writable(&self, va: usize, len: usize) -> (b: bool)
        requires
            self@.wf(),
        ensures
            b == self@.range_user_writable(va as int, len as int),
    {
        let mut i: usize = 0;
        while i < len
            invariant
                i <= len,
                self@.wf(),
                forall|a: int| va <= a < va + i ==> #[trigger] self@.user_writable(a),
            decreases len - i,
        {
            if va > usize::MAX - i {
                assert(!self@.user_writable(va + i));
                return false;
            }
            match self.translate(VirtAddr(va + i)) {
                Ok(pa) => {
                    let p = self.areas[pa.area].perm();
                    if !(p.w && p.u) {
                        assert(!self@.user_writable(va + i));
                        return false;
                    }
                },
                Err(_) => {
                    assert(!self@.user_writable(va + i));
                    return false;
                },
            }
            i = i + 1;
        }
        true
    }

    /// Stores `data` at `va` on behalf of user code. Each byte's address is
    /// translated by itself, so the range may lie on several pages whose
    /// frames are no neighbours. Nothing is stored unless user code may
    /// write every byte of the range.
    pub fn write_bytes(&mut self, va: usize, data: &Vec<u8>) -> (r: Result<(), MmError>)
        requires
            old(self)@.wf(),
        ensures
            final(self)@.wf(),
            r is Ok <==> old(self)@.range_user_writable(va as int, data@.len() as int),
            r is Ok ==> old(self)@.written(final(self)@, va as int, data@),
            r is Err ==> r == Err::<(), MmError>(MmError::Unmapped) && final(self)@ == old(self)@,
    {
        if !self.is_range_user_writable(va, data.len()) {
            return Err(MmError::Unmapped);
        }
        let mut i: usize = 0;
        assert(data@.subrange(0, 0) =~= Seq::<u8>::empty());
        while i < data.len()
            invariant
                i <= data.len(),
                old(self)@.wf(),
                self@.wf(),
                old(self)@.range_user_writable(va as int, data@.len() as int),
                old(self)@.written(self@, va as int, data@.subrange(0, i as int)),
            decreases data.len() - i,
        {
            assert(old(self)@.user_writable(va + i));
            let a = va + i;
            let vpn = a / PAGE_SIZE;
            let ghost prev = self@;
            proof {
                lemma_same_layout(old(self)@, prev, vpn as int);
                lemma_written_step(old(self)@, prev, va as int, data@, i as int);
            }
            match self.translate(VirtAddr(a)) {
                Ok(pa) => {
                    self.areas[pa.area].write(pa.page, pa.offset, data[i]);
                    assert(self@.areas =~= prev.store(a as int, data@[i as int]).areas);
                },
                Err(_) => {},
            }
            i = i + 1;
        }
        assert(data@.subrange(0, data@.len() as int) =~= data@);
        Ok(())
    }

    /// Reads the bytes at `va` up to, and without, the first zero byte, on
    /// behalf of user code.
    pub fn read_str(&self, va: usize) -> (r: Option<Vec<u8>>)
        requires
            self@.wf(),
        ensures
            r matches Some(s) ==> self@.has_str(va as int, s@.len() as int) && self@.str_at(va as int)
                == Some(s@),
            r is None ==> self@.str_at(va as int) is None,
    {
        let mut s: Vec<u8> = Vec::new();
        let mut i: usize = 0;
        loop
            invariant
                self@.wf(),
                s@.len() == i,
                va + i <= usize::MAX + 1,
                forall|a: int| va <= a < va + i ==> #[trigger] self@.user_readable(a),
                forall|a: int| va <= a < va + i ==> #[trigger] self@.byte(a) != 0,
                s@ == self@.bytes_at(va as int, i as int),
            decreases usize::MAX - i,
        {
            if va > usize::MAX - i {
                assert(!self@.user_readable(va + i));
                assert forall|n: int| !self@.has_str(va as int, n) by {
                    if self@.has_str(va as int, n) {
                        if n >= i {
                            assert(self@.user_readable(va + i));
                        } else {
                            assert(self@.byte(va + n) != 0);
                        }
                    }
                }
                return None;
            }
            match self.read_byte(va + i) {
                Some(b) => {
                    if b == 0 {
                        proof {
                            assert(self@.has_str(va as int, i as int));
                            lemma_str_unique(self@, va as int, i as int);
                        }
                        return Some(s);
                    }
                    s.push(b);
                    assert(s@.len() == s.len());
                    assert(s@ =~= self@.bytes_at(va as int, i + 1));
                },
                None => {
                    assert forall|n: int| !self@.has_str(va as int, n) by {
                        if self@.has_str(va as int, n) {
                            if n >= i {
                                assert(self@.user_readable(va + i));
                            } else {
                                assert(self@.byte(va + n) != 0);
                            }
                        }
                    }
                    return None;
                },
            }
            i = i + 1;
        }
    }

    /// A copy of the address space with frames of its own that hold the
    /// same bytes.
    pub fn duplicate(&self) -> (ms: MemorySet)
        ensures
            ms@ == self@,
    {
        let mut areas: Vec<MapArea> = Vec::new();
        let mut i: usize = 0;
        while i < self.areas.len()
            invariant
                i <= self.areas.len(),
                areas@.len() == i,
                forall|k: int| 0 <= k < i ==> (#[trigger] areas@[k])@ == self.areas@[k]@,
            decreases self.areas.len() - i,
        {
            areas.push(self.areas[i].duplicate());
            i = i + 1;
        }
        let ms = MemorySet { areas, heap_bottom: self.heap_bottom, program_brk: self.program_brk };
        assert(ms@.areas =~= self@.areas);
        ms
    }

    /// Gives up every frame: nothing stays mapped, and the break is back at
    /// the heap's bottom.
    pub fn recycle_data_pages(&mut self)
        requires
            old(self)@.wf(),
        ensures
            final(self)@ == old(self)@.released(),
            final(self)@.wf(),
    {
        let vpn = self.heap_bottom / PAGE_SIZE;
        let heap = MapArea::new(vpn, vpn, MapPermission { r: true, w: true, x: false, u: true });
        self.areas.clear();
        self.areas.push(heap);
        self.program_brk = self.heap_bottom;
        assert(self@.areas =~= old(self)@.released().areas);
    }

    /// Moves the program break by `delta` bytes and answers the new break.
    /// The heap loses the pages beyond the new break, or gains zeroed pages
    /// up to it.
    pub fn change_program_brk(&mut self, delta: i32) -> (r: Result<usize, MmError>)
        requires
            old(self)@.wf(),
        ensures
            final(self)@.wf(),
            r is Ok <==> old(self)@.brk_fits(old(self)@.brk + delta),
            r matches Ok(brk) ==> brk == old(self)@.brk + delta && final(self)@ == old(self)@.with_brk(
                old(self)@.brk + delta,
            ),
            r matches Err(e) ==> final(self)@ == old(self)@ && e == (if old(self)@.heap_bottom
                <= old(self)@.brk + delta <= usize::MAX {
                MmError::AlreadyMapped
            } else {
                MmError::OutOfRange
            }),
    {
        let new_brk: usize = if delta >= 0 {
            let d: usize = delta as usize;
            if self.program_brk > usize::MAX - d {
                return Err(MmError::OutOfRange);
            }
            self.program_brk + d
        } else {
            let d: usize = (-(delta as i64)) as usize;
            if d > self.program_brk - self.heap_bottom {
                return Err(MmError::OutOfRange);
            }
            self.program_brk - d
        };
        let new_end = VirtAddr(new_brk).ceil().0;
        let old_end = self.areas[0].end_vpn();
        assert(self@.areas[0].wf());
        if !self.is_range_free(old_end, new_end) {
            return Err(MmError::AlreadyMapped);
        }
        proof {
            lemma_range_free(self@, old_end as int, new_end as int);
        }
        self.areas[0].resize(new_end);
        self.program_brk = new_brk;
        proof {
            let cur = self@;
            let before = old(self)@;
            assert(cur.areas =~= before.with_brk(new_brk as int).areas);
            assert forall|i: int| 0 <= i < cur.areas.len() implies (#[trigger] cur.areas[i]).wf() by {
                if i != 0 {
                    assert(cur.areas[i] == before.areas[i]);
                }
            }
            assert forall|i: int, j: int|
                0 <= i < cur.areas.len() && 0 <= j < cur.areas.len() && i != j implies !(
                #[trigger] cur.areas[i]).overlaps((#[trigger] cur.areas[j]).start, cur.areas[j].end) by {
                assert(!before.areas[i].overlaps(before.areas[j].start, before.areas[j].end));
                assert(!before.areas[i].overlaps(old_end as int, new_end as int));
                assert(!before.areas[j].overlaps(old_end as int, new_end as int));
            }
        }
        Ok(new_brk)
    }
}

} // verus!
