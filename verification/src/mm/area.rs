//! Mapped areas: a run of virtual pages with one permission set, each page
//! backed by a frame of its own.

use vstd::prelude::*;
use crate::config::PAGE_SIZE;
use crate::mm::address::vpn_limit;

verus! {

/// What a task may do with the pages of an area.
#[derive(Clone, Copy, Debug, PartialEq, Eq, Structural)]
pub struct MapPermission {
    pub r: bool,
    pub w: bool,
    pub x: bool,
    pub u: bool,
}

impl MapPermission {
    /// The permission set that allows nothing.
    pub fn empty() -> (p: MapPermission)
        ensures
            p == (MapPermission { r: false, w: false, x: false, u: false }),
    {
        MapPermission { r: false, w: false, x: false, u: false }
    }

    /// Permissions of the heap: read and write, from user mode.
    pub open spec fn heap() -> MapPermission {
        MapPermission { r: true, w: true, x: false, u: true }
    }

    /// Permissions that the three low bits of `port` ask for (bit 0 read,
    /// bit 1 write, bit 2 execute), always with access from user mode.
    pub open spec fn of_port(port: int) -> MapPermission {
        MapPermission {
            r: port % 2 == 1,
            w: (port / 2) % 2 == 1,
            x: (port / 4) % 2 == 1,
            u: true,
        }
    }

    /// Computes `of_port(port)`.
    pub fn from_port(port: usize) -> (p: MapPermission)
        ensures
            p == Self::of_port(port as int),
    {
        assert((port & 0x1 != 0) == (port % 2 == 1)) by (bit_vector);
        assert((port & 0x2 != 0) == ((port / 2) % 2 == 1)) by (bit_vector);
        assert((port & 0x4 != 0) == ((port / 4) % 2 == 1)) by (bit_vector);
        MapPermission { r: port & 0x1 != 0, w: port & 0x2 != 0, x: port & 0x4 != 0, u: true }
    }

    /// Whether the set allows at least one of read, write and execute.
    pub open spec fn spec_some_access(&self) -> bool {
        self.r || self.w || self.x
    }

    /// Whether the set allows at least one of read, write and execute.
    #[verifier::when_used_as_spec(spec_some_access)]
    pub fn some_access(&self) -> (b: bool)
        ensures
            b == self.spec_some_access(),
    {
        self.r || self.w || self.x
    }

    /// Whether user code may read a page with these permissions.
    pub open spec fn user_readable(self) -> bool {
        self.r && self.u
    }

    /// Whether user code may write a page with these permissions.
    pub open spec fn user_writable(self) -> bool {
        self.w && self.u
    }
}

/// The page filled with zeros, as a fresh frame holds it.
pub open spec fn zero_page() -> Seq<u8> {
    Seq::new(PAGE_SIZE as nat, |i: int| 0u8)
}

/// `n` pages filled with zeros.
pub open spec fn zero_pages(n: int) -> Seq<Seq<u8>> {
    Seq::new(n as nat, |i: int| zero_page())
}

/// The mathematical content of an area: its page range `[start, end)`, its
/// permissions and the bytes of each page in order.
pub struct AreaView {
    pub start: int,
    pub end: int,
    pub perm: MapPermission,
    pub pages: Seq<Seq<u8>>,
}

impl AreaView {
    /// The range is ordered and inside the address space, the permissions
    /// allow some access, and every page has a frame of `PAGE_SIZE` bytes.
    pub open spec fn wf(self) -> bool {
        &&& 0 <= self.start <= self.end <= vpn_limit()
        &&& self.perm.some_access()
        &&& self.pages.len() == self.end - self.start
        &&& forall|i: int| 0 <= i < self.pages.len() ==> (#[trigger] self.pages[i]).len() == PAGE_SIZE
    }

    /// Whether page `vpn` belongs to the area.
    pub open spec fn contains(self, vpn: int) -> bool {
        self.start <= vpn < self.end
    }

    /// Whether the area shares a page with the range `[s, e)`.
    pub open spec fn overlaps(self, s: int, e: int) -> bool {
        self.start < e && s < self.end && self.start < self.end && s < e
    }

    /// Whether the area's bounds are exactly `[s, e)`.
    pub open spec fn spans(self, s: int, e: int) -> bool {
        self.start == s && self.end == e
    }

    /// The area `[s, e)` with permissions `perm`, every page zero.
    pub open spec fn fresh(s: int, e: int, perm: MapPermission) -> AreaView {
        AreaView { start: s, end: e, perm, pages: zero_pages(e - s) }
    }
}

/// A run of virtual pages `[start_vpn, end_vpn)` with one permission set.
/// Page `start_vpn + i` is backed by `frames[i]`.
pub struct MapArea {
    start_vpn: usize,
    end_vpn: usize,
    perm: MapPermission,
    frames: Vec<Vec<u8>>,
}

/// Allocates one frame filled with zeros.
pub fn new_frame() -> (f: Vec<u8>)
    ensures
        f@ == zero_page(),
{
    let mut f: Vec<u8> = Vec::new();
    let mut i: usize = 0;
    while i < PAGE_SIZE
        invariant
            i <= PAGE_SIZE,
            f@.len() == i,
            forall|k: int| 0 <= k < i ==> f@[k] == 0u8,
        decreases PAGE_SIZE - i,
    {
        f.push(0u8);
        i = i + 1;
    }
    assert(f@ =~= zero_page());
    f
}

/// Copies a frame.
pub fn copy_frame(src: &Vec<u8>) -> (f: Vec<u8>)
    ensures
        f@ == src@,
{
    let mut f: Vec<u8> = Vec::new();
    let mut i: usize = 0;
    while i < src.len()
        invariant
            i <= src.len(),
            f@.len() == i,
            forall|k: int| 0 <= k < i ==> f@[k] == src@[k],
        decreases src.len() - i,
    {
        f.push(src[i]);
        i = i + 1;
    }
    assert(f@ =~= src@);
    f
}

impl View for MapArea {
    type V = AreaView;

    closed spec fn view(&self) -> AreaView {
        AreaView {
            start: self.start_vpn as int,
            end: self.end_vpn as int,
            perm: self.perm,
            pages: Seq::new(self.frames@.len(), |i: int| self.frames@[i]@),
        }
    }
}

impl MapArea {
    /// A new area over `[start_vpn, end_vpn)`, each page backed by a fresh
    /// zeroed frame.
    pub fn new(start_vpn: usize, end_vpn: usize, perm: MapPermission) -> (a: MapArea)
        requires
            start_vpn <= end_vpn <= vpn_limit(),
            perm.some_access(),
        ensures
            a@ == AreaView::fresh(start_vpn as int, end_vpn as int, perm),
            a@.wf(),
    {
        let mut frames: Vec<Vec<u8>> = Vec::new();
        let mut vpn: usize = start_vpn;
        while vpn < end_vpn
            invariant
                start_vpn <= vpn <= end_vpn,
                frames@.len() == vpn - start_vpn,
                forall|k: int| 0 <= k < frames@.len() ==> (#[trigger] frames@[k])@ == zero_page(),
            decreases end_vpn - vpn,
        {
            frames.push(new_frame());
            vpn = vpn + 1;
        }
        let a = MapArea { start_vpn, end_vpn, perm, frames };
        assert(a@.pages =~= zero_pages(end_vpn - start_vpn));
        a
    }

    /// First page of the area.
    pub fn start_vpn(&self) -> (v: usize)
        ensures
            v == self@.start,
    {
        self.start_vpn
    }

    /// The page behind the last page of the area.
    pub fn end_vpn(&self) -> (v: usize)
        ensures
            v == self@.end,
    {
        self.end_vpn
    }

    /// What a task may do with the area's pages.
    pub fn perm(&self) -> (p: MapPermission)
        ensures
            p == self@.perm,
    {
        self.perm
    }

    /// Whether page `vpn` belongs to the area.
    pub fn contains(&self, vpn: usize) -> (b: bool)
        ensures
            b == self@.contains(vpn as int),
    {
        self.start_vpn <= vpn && vpn < self.end_vpn
    }

    /// Whether the area shares a page with `[s, e)`.
    pub fn overlaps(&self, s: usize, e: usize) -> (b: bool)
        ensures
            b == self@.overlaps(s as int, e as int),
    {
        self.start_vpn < e && s < self.end_vpn && self.start_vpn < self.end_vpn && s < e
    }

    /// The byte at `offset` of the frame behind the area's page number `page`
    /// (counted from the start of the area).
    pub fn read(&self, page: usize, offset: usize) -> (b: u8)
        requires
            self@.wf(),
            page < self@.pages.len(),
            offset < PAGE_SIZE,
        ensures
            b == self@.pages[page as int][offset as int],
    {
        assert(self@.pages[page as int].len() == PAGE_SIZE);
        self.frames[page][offset]
    }

    /// Stores `b` at `offset` of the frame behind page number `page`.
    pub fn write(&mut self, page: usize, offset: usize, b: u8)
        requires
            old(self)@.wf(),
            page < old(self)@.pages.len(),
            offset < PAGE_SIZE,
        ensures
            final(self)@ == (AreaView {
                pages: old(self)@.pages.update(
                    page as int,
                    old(self)@.pages[page as int].update(offset as int, b),
                ),
                ..old(self)@
            }),
            final(self)@.wf(),
    {
        assert(self@.pages[page as int].len() == PAGE_SIZE);
        self.frames[page][offset] = b;
        assert(self@.pages =~= old(self)@.pages.update(
            page as int,
            old(self)@.pages[page as int].update(offset as int, b),
        ));
    }

    /// Moves the end of the area to `new_end`: pages beyond it lose their
    /// frames, new pages get zeroed ones.
    pub fn resize(&mut self, new_end: usize)
        requires
            old(self)@.wf(),
            old(self)@.start <= new_end <= vpn_limit(),
        ensures
            final(self)@.wf(),
            final(self)@.start == old(self)@.start,
            final(self)@.end == new_end,
            final(self)@.perm == old(self)@.perm,
            final(self)@.pages == if new_end <= old(self)@.end {
                old(self)@.pages.subrange(0, new_end - old(self)@.start)
            } else {
                old(self)@.pages + zero_pages(new_end - old(self)@.end)
            },
    {
        if new_end <= self.end_vpn {
            self.frames.truncate(new_end - self.start_vpn);
            self.end_vpn = new_end;
            assert(self@.pages =~= old(self)@.pages.subrange(0, new_end - old(self)@.start));
        } else {
            let ghost before = self@.pages;
            while self.end_vpn < new_end
                invariant
                    self.start_vpn == old(self).start_vpn,
                    self.perm == old(self).perm,
                    old(self).end_vpn <= self.end_vpn <= new_end <= vpn_limit(),
                    self@.wf(),
                    self@.pages == before + zero_pages(self.end_vpn - old(self).end_vpn),
                    before == old(self)@.pages,
                decreases new_end - self.end_vpn,
            {
                let ghost prev = self@.pages;
                self.frames.push(new_frame());
                self.end_vpn = self.end_vpn + 1;
                assert(self@.pages =~= prev.push(zero_page()));
                assert(self@.pages =~= before + zero_pages(self.end_vpn - old(self).end_vpn));
            }
        }
    }

    /// A copy of the area with frames of its own that hold the same bytes.
    pub fn duplicate(&self) -> (a: MapArea)
        ensures
            a@ == self@,
    {
        let mut frames: Vec<Vec<u8>> = Vec::new();
        let mut i: usize = 0;
        while i < self.frames.len()
            invariant
                i <= self.frames.len(),
                frames@.len() == i,
                forall|k: int| 0 <= k < i ==> (#[trigger] frames@[k])@ == self.frames@[k]@,
            decreases self.frames.len() - i,
        {
            frames.push(copy_frame(&self.frames[i]));
            i = i + 1;
        }
        let a = MapArea { start_vpn: self.start_vpn, end_vpn: self.end_vpn, perm: self.perm, frames };
        assert(a@.pages =~= self@.pages);
        a
    }
}

} // verus!
