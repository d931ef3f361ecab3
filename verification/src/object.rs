//! Instances.

use crate::class::ObjcClass;
use crate::ptr::Ptr;
use vstd::prelude::*;

verus! {

/// An instance: the class it belongs to, and its block of memory.
pub struct ObjcObject {
    class_pointer: Ptr<ObjcClass>,
    body: Vec<u8>,
}

/// What an instance holds.
pub ghost struct ObjectView {
    pub class_pointer: Ptr<ObjcClass>,
    pub body: Seq<u8>,
}

/// A block of `n` bytes, all zero.
pub open spec fn zeros(n: nat) -> Seq<u8> {
    Seq::new(n, |i: int| 0u8)
}

/// The number of words of `word` bytes each that a block of `len` bytes
/// takes: the least number of whole words that hold it.
pub fn whole_words(len: usize, word: usize) -> (n: usize)
    requires
        word > 0,
    ensures
        n * word >= len,
        n * word < len + word,
{
    let q = len / word;
    let r = len % word;
    assert(len == q * word + r && 0 <= r < word) by (nonlinear_arith)
        requires
            word > 0,
            q == len / word,
            r == len % word,
    ;
    if r == 0 {
        q
    } else {
        assert(q < usize::MAX) by (nonlinear_arith)
            requires
                len == q * word + r,
                0 < r < word,
                len <= usize::MAX,
        ;
        assert((q + 1) * word == q * word + word) by (nonlinear_arith);
        q + 1
    }
}

impl View for ObjcObject {
    type V = ObjectView;

    closed spec fn view(&self) -> ObjectView {
        ObjectView { class_pointer: self.class_pointer, body: self.body@ }
    }
}

impl ObjcObject {
    /// An instance of `class` with a block of `size` bytes, all zero.
    pub fn new(class: Ptr<ObjcClass>, size: usize) -> (object: ObjcObject)
        ensures
            object@ == (ObjectView { class_pointer: class, body: zeros(size as nat) }),
    {
        let mut body: Vec<u8> = Vec::new();
        let mut i: usize = 0;
        while i < size
            invariant
                i <= size,
                body@ == zeros(i as nat),
            decreases size - i,
        {
            body.push(0);
            i = i + 1;
            assert(body@ =~= zeros(i as nat));
        }
        ObjcObject { class_pointer: class, body }
    }

    /// The class of the instance.
    pub fn get_class_pointer(&self) -> (class: &Ptr<ObjcClass>)
        ensures
            *class == self@.class_pointer,
    {
        &self.class_pointer
    }

    /// The instance's block.
    pub fn body(&self) -> (body: &Vec<u8>)
        ensures
            body@ == self@.body,
    {
        &self.body
    }

    /// The size of the instance's block in bytes.
    pub fn size(&self) -> (size: usize)
        ensures
            size == self@.body.len(),
    {
        self.body.len()
    }

    /// Makes the instance one of `class`. Its block is left as it is.
    pub fn initialize(&mut self, class: Ptr<ObjcClass>)
        ensures
            final(self)@ == (ObjectView { class_pointer: class, ..old(self)@ }),
    {
        self.class_pointer = class;
    }
}

} // verus!
