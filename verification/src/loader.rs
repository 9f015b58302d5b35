//! Program images and the table that finds them by name.

use vstd::prelude::*;
use crate::mm::memory_set::MemorySet;
use crate::mm::space::MemorySetView;

verus! {

/// A program ready to run: the address space it starts in, its entry point
/// and the initial value of its stack pointer.
pub struct ProgramImage {
    space: MemorySet,
    entry: usize,
    user_sp: usize,
}

/// A program image as contracts see it.
pub struct ProgramView {
    pub space: MemorySetView,
    pub entry: usize,
    pub user_sp: usize,
}

impl View for ProgramImage {
    type V = ProgramView;

    closed spec fn view(&self) -> ProgramView {
        ProgramView { space: self.space@, entry: self.entry, user_sp: self.user_sp }
    }
}

impl ProgramImage {
    /// An image that starts in `space` at `entry` with the stack pointer at
    /// `user_sp`.
    pub fn new(space: MemorySet, entry: usize, user_sp: usize) -> (img: ProgramImage)
        ensures
            img@ == (ProgramView { space: space@, entry, user_sp }),
    {
        ProgramImage { space, entry, user_sp }
    }

    /// A fresh copy of the address space that the program starts in.
    pub fn instantiate(&self) -> (ms: MemorySet)
        ensures
            ms@ == self@.space,
    {
        self.space.duplicate()
    }

    /// Address of the program's first instruction.
    pub fn entry(&self) -> (e: usize)
        ensures
            e == self@.entry,
    {
        self.entry
    }

    /// Initial value of the program's stack pointer.
    pub fn user_sp(&self) -> (sp: usize)
        ensures
            sp == self@.user_sp,
    {
        self.user_sp
    }
}

/// The programs that the kernel can start, each under its name.
pub struct Loader {
    names: Vec<Vec<u8>>,
    images: Vec<ProgramImage>,
}

/// A loader as contracts see it: the names and the images, in the order in
/// which they were added.
pub struct LoaderView {
    pub names: Seq<Seq<u8>>,
    pub images: Seq<ProgramView>,
}

impl LoaderView {
    /// There is one image for each name, and each starts in a well-formed
    /// address space.
    pub open spec fn wf(self) -> bool {
        &&& self.names.len() == self.images.len()
        &&& forall|i: int| 0 <= i < self.images.len() ==> (#[trigger] self.images[i]).space.wf()
    }

    /// Whether a program is known under `name`.
    pub open spec fn knows(self, name: Seq<u8>) -> bool {
        exists|i: int| 0 <= i < self.names.len() && #[trigger] self.names[i] == name
    }

    /// Whether the program number `i` is the first known under `name`.
    pub open spec fn is_first_named(self, name: Seq<u8>, i: int) -> bool {
        &&& 0 <= i < self.names.len()
        &&& self.names[i] == name
        &&& forall|j: int| 0 <= j < i ==> #[trigger] self.names[j] != name
    }

    /// Index of the first program known under `name`.
    pub open spec fn index_of(self, name: Seq<u8>) -> int {
        choose|i: int| self.is_first_named(name, i)
    }

    /// The first program known under `name`.
    pub open spec fn image_of(self, name: Seq<u8>) -> ProgramView {
        self.images[self.index_of(name)]
    }
}

impl View for Loader {
    type V = LoaderView;

    closed spec fn view(&self) -> LoaderView {
        LoaderView {
            names: Seq::new(self.names@.len(), |i: int| self.names@[i]@),
            images: Seq::new(self.images@.len(), |i: int| self.images@[i]@),
        }
    }
}

/// The first program of a name is the one before which there is none of
/// that name.
pub proof fn lemma_first_named_is(l: LoaderView, name: Seq<u8>, i: int)
    requires
        l.is_first_named(name, i),
    ensures
        l.index_of(name) == i,
        l.knows(name),
{
    let first = l.index_of(name);
    assert(l.is_first_named(name, first));
    if first < i {
        assert(l.names[first] != name);
    }
    if first > i {
        assert(l.names[i] != name);
    }
}

/// Whether two byte strings are equal.
pub fn bytes_eq(a: &Vec<u8>, b: &Vec<u8>) -> (r: bool)
    ensures
        r == (a@ == b@),
{
    if a.len() != b.len() {
        return false;
    }
    let mut i: usize = 0;
    while i < a.len()
        invariant
            i <= a.len(),
            a.len() == b.len(),
            forall|k: int| 0 <= k < i ==> a@[k] == b@[k],
        decreases a.len() - i,
    {
        if a[i] != b[i] {
            return false;
        }
        i = i + 1;
    }
    assert(a@ =~= b@);
    true
}

impl Loader {
    /// A loader that knows no program.
    pub fn new() -> (l: Loader)
        ensures
            l@.names.len() == 0,
            l@.images.len() == 0,
            l@.wf(),
    {
        Loader { names: Vec::new(), images: Vec::new() }
    }

    /// Makes `image` known under `name`. A program added earlier under the
    /// same name stays the one that is found.
    pub fn add(&mut self, name: Vec<u8>, image: ProgramImage)
        requires
            old(self)@.wf(),
            image@.space.wf(),
        ensures
            final(self)@.wf(),
            final(self)@.names == old(self)@.names.push(name@),
            final(self)@.images == old(self)@.images.push(image@),
    {
        self.names.push(name);
        self.images.push(image);
        assert(self@.names =~= old(self)@.names.push(name@));
        assert(self@.images =~= old(self)@.images.push(image@));
    }

    /// Finds the first program known under `name`.
    pub fn get_app_data_by_name(&self, name: &Vec<u8>) -> (r: Option<&ProgramImage>)
        requires
            self@.wf(),
        ensures
            r is Some <==> self@.knows(name@),
            r matches Some(img) ==> img@ == self@.image_of(name@) && img@.space.wf(),
    {
        let mut i: usize = 0;
        while i < self.names.len()
            invariant
                i <= self.names.len(),
                self@.wf(),
                forall|k: int| 0 <= k < i ==> #[trigger] self@.names[k] != name@,
            decreases self.names.len() - i,
        {
            if bytes_eq(&self.names[i], name) {
                proof {
                    assert(self@.names[i as int] == name@);
                    lemma_first_named_is(self@, name@, i as int);
                }
                assert(self@.images[i as int].space.wf());
                return Some(&self.images[i]);
            }
            i = i + 1;
        }
        None
    }
}

} // verus!
