//! Handles: one machine word that names a record in one of the runtime's arenas.

use core::marker::PhantomData;
use vstd::prelude::*;

verus! {

/// A non-nil handle to a record of type `T`.
///
/// The word it holds is the record's position in its arena, counted from one,
/// so that zero stays free to stand for nil in [`NilablePtr`]; the handle of
/// code holds whatever word the caller jumps to. A handle owns nothing: the
/// arena that it points into is held by the runtime context, and the context
/// is what turns a handle into a reference.
pub struct Ptr<T> {
    addr: usize,
    _marker: PhantomData<T>,
}

impl<T> View for Ptr<T> {
    type V = usize;

    /// The word that the handle holds.
    closed spec fn view(&self) -> usize {
        self.addr
    }
}

impl<T> Ptr<T> {
    #[verifier::type_invariant]
    spec fn nonzero(self) -> bool {
        self.addr != 0
    }

    /// The position in the arena that the handle names.
    pub open spec fn index(self) -> int {
        self@ - 1
    }

    /// Whether the handle names one of the first `len` records of its arena.
    pub open spec fn within(self, len: nat) -> bool {
        1 <= self@ <= len
    }

    /// The handle that names position `index` of its arena.
    pub closed spec fn at(index: int) -> Ptr<T> {
        Ptr { addr: (index + 1) as usize, _marker: PhantomData }
    }

    /// The handle of a position holds the number of that position and one
    /// more.
    pub proof fn lemma_at_word(index: int)
        requires
            0 <= index < usize::MAX,
        ensures
            Ptr::<T>::at(index)@ == index + 1,
            Ptr::<T>::at(index).index() == index,
    {
    }

    /// A handle is the handle of the position that it names.
    pub proof fn lemma_at_index(self)
        requires
            1 <= self@,
        ensures
            Ptr::<T>::at(self.index()) == self,
    {
    }

    /// Makes a handle from its word.
    pub fn new(addr: usize) -> (p: Ptr<T>)
        requires
            addr != 0,
        ensures
            p@ == addr,
    {
        Ptr { addr, _marker: PhantomData }
    }

    /// The word this handle holds; never zero.
    pub fn as_ptr(&self) -> (addr: usize)
        ensures
            addr == self@,
            addr != 0,
    {
        proof {
            use_type_invariant(self);
        }
        self.addr
    }

    /// The position in the arena that the handle names, for indexing.
    pub fn slot(&self) -> (i: usize)
        ensures
            i == self.index(),
    {
        proof {
            use_type_invariant(self);
        }
        self.addr - 1
    }

    /// The same word as a handle to a record of another type, in contracts.
    pub closed spec fn spec_cast<U>(&self) -> Ptr<U> {
        Ptr { addr: self.addr, _marker: PhantomData }
    }

    /// The same word as a handle to a record of another type.
    ///
    /// A module's definition table holds handles without a type; the reader
    /// knows from the position which arena each one points into.
    #[verifier::when_used_as_spec(spec_cast)]
    pub fn cast<U>(&self) -> (p: Ptr<U>)
        ensures
            p == self.cast::<U>(),
            p@ == self@,
    {
        proof {
            use_type_invariant(self);
        }
        Ptr { addr: self.addr, _marker: PhantomData }
    }

    /// Two handles that hold the same word are the same handle.
    pub broadcast proof fn lemma_same_word(self, other: Ptr<T>)
        ensures
            (#[trigger] self@ == #[trigger] other@) <==> self == other,
    {
    }
}

impl<T> Clone for Ptr<T> {
    fn clone(&self) -> (p: Self)
        ensures
            p == *self,
    {
        proof {
            use_type_invariant(self);
        }
        Ptr { addr: self.addr, _marker: PhantomData }
    }
}

impl<T> Copy for Ptr<T> {

}

impl<T> PartialEq for Ptr<T> {
    fn eq(&self, other: &Self) -> (b: bool) {
        self.addr == other.addr
    }
}

impl<T> Eq for Ptr<T> {

}

impl<T> vstd::std_specs::cmp::PartialEqSpecImpl for Ptr<T> {
    open spec fn obeys_eq_spec() -> bool {
        true
    }

    open spec fn eq_spec(&self, other: &Self) -> bool {
        self@ == other@
    }
}

/// A handle that may be nil.
pub struct NilablePtr<T> {
    addr: usize,
    _marker: PhantomData<T>,
}

impl<T> View for NilablePtr<T> {
    type V = Option<Ptr<T>>;

    /// `None` for nil, else the handle held.
    closed spec fn view(&self) -> Option<Ptr<T>> {
        if self.addr == 0 {
            None
        } else {
            Some(Ptr { addr: self.addr, _marker: PhantomData })
        }
    }
}

impl<T> NilablePtr<T> {
    /// A handle that is not nil.
    pub fn new(ptr: Ptr<T>) -> (p: NilablePtr<T>)
        ensures
            p@ == Some(ptr),
    {
        proof {
            use_type_invariant(&ptr);
        }
        NilablePtr { addr: ptr.addr, _marker: PhantomData }
    }

    /// `Some` handle or nil.
    pub fn wrap(ptr: Option<Ptr<T>>) -> (p: NilablePtr<T>)
        ensures
            p@ == ptr,
    {
        match ptr {
            Some(q) => NilablePtr::new(q),
            None => NilablePtr::nil(),
        }
    }

    /// The nil handle.
    pub fn nil() -> (p: NilablePtr<T>)
        ensures
            p@.is_none(),
    {
        NilablePtr { addr: 0, _marker: PhantomData }
    }

    /// The handle held, unless nil.
    pub fn as_ref(&self) -> (ptr: Option<Ptr<T>>)
        ensures
            ptr == self@,
    {
        if self.addr == 0 {
            None
        } else {
            Some(Ptr { addr: self.addr, _marker: PhantomData })
        }
    }
}

impl<T> Clone for NilablePtr<T> {
    fn clone(&self) -> (p: Self)
        ensures
            p == *self,
    {
        NilablePtr { addr: self.addr, _marker: PhantomData }
    }
}

impl<T> Copy for NilablePtr<T> {

}

impl<T> PartialEq for NilablePtr<T> {
    fn eq(&self, other: &Self) -> (b: bool) {
        self.addr == other.addr
    }
}

impl<T> Eq for NilablePtr<T> {

}

impl<T> vstd::std_specs::cmp::PartialEqSpecImpl for NilablePtr<T> {
    open spec fn obeys_eq_spec() -> bool {
        true
    }

    open spec fn eq_spec(&self, other: &Self) -> bool {
        self@ == other@
    }
}

impl<T> From<Option<Ptr<T>>> for NilablePtr<T> {
    fn from(ptr: Option<Ptr<T>>) -> (p: Self) {
        NilablePtr::wrap(ptr)
    }
}

impl<T> vstd::std_specs::convert::FromSpecImpl<Option<Ptr<T>>> for NilablePtr<T> {
    open spec fn obeys_from_spec() -> bool {
        true
    }

    open spec fn from_spec(ptr: Option<Ptr<T>>) -> Self {
        NilablePtr::spec_wrap(ptr)
    }
}

impl<T> NilablePtr<T> {
    /// A nilable handle made from a handle, or from none, holds just that.
    pub proof fn lemma_from_keeps(ptr: Option<Ptr<T>>)
        requires
            ptr matches Some(p) ==> p@ != 0,
        ensures
            NilablePtr::spec_wrap(ptr)@ == ptr,
    {
    }

    /// The nilable handle whose view is `ptr`.
    pub closed spec fn spec_wrap(ptr: Option<Ptr<T>>) -> NilablePtr<T> {
        match ptr {
            Some(q) => NilablePtr { addr: q.addr, _marker: PhantomData },
            None => NilablePtr { addr: 0, _marker: PhantomData },
        }
    }
}

} // verus!
