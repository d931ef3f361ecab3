//! Methods, method lists and the walk over a chain of lists.

use crate::ptr::Ptr;
use crate::selector::ObjcSelector;
use crate::str_ptr::StrPtr;
use vstd::prelude::*;

verus! {

/// Code that a method runs. The runtime never calls it and never looks inside:
/// a `Ptr<Procedure>` is a word that the caller knows how to jump to.
#[derive(Debug)]
pub struct Procedure;

impl Procedure {
    /// The no-op code pointer, in contracts.
    pub open spec fn null_procedure() -> Ptr<Procedure> {
        Ptr::at(0)
    }

    /// The code pointer that answers a message nobody implements: calling it
    /// returns nil and does nothing else. It is always the same word, so a
    /// caller can tell it from a method that was found. The word is one, which
    /// is no address of compiled code.
    #[verifier::when_used_as_spec(null_procedure)]
    pub fn new_null_procedure() -> (p: Ptr<Procedure>)
        ensures
            p == Procedure::null_procedure(),
            p@ == 1,
    {
        let p: Ptr<Procedure> = Ptr::new(1);
        proof {
            p.lemma_at_index();
        }
        p
    }
}

/// A method record: the name as the compiler spelled it, the selector that the
/// name was linked to (none before linking), the encoding of the argument
/// types, and the code.
pub struct ObjcMethod {
    method_name: StrPtr,
    selector: Option<Ptr<ObjcSelector>>,
    method_types: StrPtr,
    method_imp: Ptr<Procedure>,
}

/// What a method record holds.
pub ghost struct MethodView {
    pub raw_name: Option<Seq<char>>,
    pub name: Option<Ptr<ObjcSelector>>,
    pub types: Option<Seq<char>>,
    pub imp: Ptr<Procedure>,
}

impl View for ObjcMethod {
    type V = MethodView;

    closed spec fn view(&self) -> MethodView {
        MethodView {
            raw_name: self.method_name@,
            name: self.selector,
            types: self.method_types@,
            imp: self.method_imp,
        }
    }
}

/// The method records of an arena as plain values.
pub open spec fn method_views(records: Seq<ObjcMethod>) -> Seq<MethodView> {
    Seq::new(records.len(), |i: int| records[i]@)
}

impl ObjcMethod {
    /// A method as the compiler emits it: named, not yet linked.
    pub fn new(name: StrPtr, types: StrPtr, imp: Ptr<Procedure>) -> (m: ObjcMethod)
        ensures
            m@ == (MethodView { raw_name: name@, name: None, types: types@, imp }),
    {
        ObjcMethod { method_name: name, selector: None, method_types: types, method_imp: imp }
    }

    /// The selector that the method is linked to; `None` before linking.
    pub fn name(&self) -> (sel: Option<Ptr<ObjcSelector>>)
        ensures
            sel == self@.name,
    {
        self.selector
    }

    /// The name as the compiler spelled it.
    pub fn raw_name(&self) -> (name: &StrPtr)
        ensures
            name@ == self@.raw_name,
    {
        &self.method_name
    }

    /// The encoding of the argument types.
    pub fn types(&self) -> (types: &StrPtr)
        ensures
            types@ == self@.types,
    {
        &self.method_types
    }

    /// The code.
    pub fn imp(&self) -> (imp: &Ptr<Procedure>)
        ensures
            *imp == self@.imp,
    {
        &self.method_imp
    }

    /// Takes the method's link away: it is as the compiler emits it again.
    pub fn unlink(&mut self)
        ensures
            final(self)@ == (MethodView { name: None, ..old(self)@ }),
    {
        self.selector = None;
    }

    /// Links the method to the selector `name` and hands back what it was
    /// linked to before. Nothing else of the record changes.
    pub fn link_to_selector(&mut self, name: Ptr<ObjcSelector>) -> (previous: Option<
        Ptr<ObjcSelector>,
    >)
        ensures
            previous == old(self)@.name,
            final(self)@ == (MethodView { name: Some(name), ..old(self)@ }),
    {
        let previous = self.selector;
        self.selector = Some(name);
        previous
    }
}

/// A method list: the methods of one definition, and the list that follows it
/// in the chain, if any.
pub struct ObjcMethodList {
    method_next: Option<Box<ObjcMethodList>>,
    method_list: Vec<Ptr<ObjcMethod>>,
}

impl View for ObjcMethodList {
    type V = Seq<Ptr<ObjcMethod>>;

    /// The methods of the whole chain: this list's, then those of each
    /// successor, in order.
    closed spec fn view(&self) -> Seq<Ptr<ObjcMethod>> {
        self.flat()
    }
}

/// The methods of a chain that may be absent: none for no chain.
pub open spec fn chain_view(chain: Option<Box<ObjcMethodList>>) -> Seq<Ptr<ObjcMethod>> {
    match chain {
        Some(list) => list@,
        None => Seq::empty(),
    }
}

impl ObjcMethodList {
    spec fn flat(&self) -> Seq<Ptr<ObjcMethod>>
        decreases self,
    {
        match self.method_next {
            Some(next) => self.method_list@ + next.flat(),
            None => self.method_list@,
        }
    }

    /// The methods of this list alone.
    pub closed spec fn own(&self) -> Seq<Ptr<ObjcMethod>> {
        self.method_list@
    }

    /// The chain behind this list.
    pub closed spec fn rest(&self) -> Option<Box<ObjcMethodList>> {
        self.method_next
    }

    /// The number of lists behind this one.
    pub closed spec fn depth(&self) -> nat
        decreases self,
    {
        match self.method_next {
            Some(next) => 1 + next.depth(),
            None => 0,
        }
    }

    /// A list of `methods`, followed by the chain `next`.
    pub fn new(next: Option<Box<ObjcMethodList>>, methods: Vec<Ptr<ObjcMethod>>) -> (list:
        ObjcMethodList)
        ensures
            list.own() == methods@,
            list.rest() == next,
            list@ == methods@ + chain_view(next),
    {
        ObjcMethodList { method_next: next, method_list: methods }
    }

    /// The list that follows this one.
    pub fn get_next(&self) -> (next: Option<&ObjcMethodList>)
        ensures
            match next {
                Some(list) => self.rest() == Some(Box::new(*list)),
                None => self.rest().is_none(),
            },
    {
        match &self.method_next {
            Some(next) => Some(&**next),
            None => None,
        }
    }

    /// The number of methods in this list alone.
    pub fn method_count(&self) -> (count: usize)
        ensures
            count == self.own().len(),
    {
        self.method_list.len()
    }

    /// The `i`-th method of this list alone; `None` past its end.
    pub fn nth_method(&self, i: usize) -> (m: Option<Ptr<ObjcMethod>>)
        ensures
            m == if i < self.own().len() {
                Some(self.own()[i as int])
            } else {
                None
            },
    {
        if i >= self.method_list.len() {
            return None;
        }
        Some(self.method_list[i])
    }

    /// A walk over the methods of the chain that starts at this list.
    pub fn iter(&self) -> (it: ObjcMethodIterator<'_>)
        ensures
            it@ == self@,
    {
        ObjcMethodIterator { current_list: self, index: Some(0) }
    }

    /// The methods of the whole chain, in order.
    pub fn to_vec(&self) -> (v: Vec<Ptr<ObjcMethod>>)
        ensures
            v@ == self@,
    {
        let mut v: Vec<Ptr<ObjcMethod>> = Vec::new();
        let mut it = self.iter();
        loop
            invariant
                v@ + it@ == self@,
            ensures
                v@ == self@,
            decreases it@.len(),
        {
            match it.next() {
                Some(m) => {
                    v.push(m);
                },
                None => {
                    break ;
                },
            }
        }
        v
    }

    /// This chain with the chain `tail` behind its last list.
    pub fn prepend_to(self, tail: Option<Box<ObjcMethodList>>) -> (list: ObjcMethodList)
        ensures
            list@ == self@ + chain_view(tail),
        decreases self.depth(),
    {
        let ObjcMethodList { method_next, method_list } = self;
        match method_next {
            Some(next) => {
                let joined = (*next).prepend_to(tail);
                ObjcMethodList { method_next: Some(Box::new(joined)), method_list }
            },
            None => ObjcMethodList { method_next: tail, method_list },
        }
    }
}

impl Clone for ObjcMethodList {
    fn clone(&self) -> (list: Self)
        ensures
            list@ == self@,
        decreases self.depth(),
    {
        let methods = self.method_list.clone();
        assert(methods@ == self.method_list@);
        match &self.method_next {
            Some(next) => {
                let copy = (**next).clone();
                ObjcMethodList { method_next: Some(Box::new(copy)), method_list: methods }
            },
            None => ObjcMethodList { method_next: None, method_list: methods },
        }
    }
}

/// A walk over a chain of method lists: the first list's methods, then those
/// of each list that follows.
pub struct ObjcMethodIterator<'a> {
    current_list: &'a ObjcMethodList,
    index: Option<usize>,
}

impl<'a> View for ObjcMethodIterator<'a> {
    type V = Seq<Ptr<ObjcMethod>>;

    /// The methods that the walk has yet to give, in order.
    closed spec fn view(&self) -> Seq<Ptr<ObjcMethod>> {
        match self.index {
            Some(i) => self.current_list@.skip(i as int),
            None => Seq::empty(),
        }
    }
}

impl<'a> ObjcMethodIterator<'a> {
    #[verifier::type_invariant]
    spec fn in_list(self) -> bool {
        self.index matches Some(i) ==> i <= self.current_list.method_list.len()
    }

    /// The next method of the walk, or `None` when every list of the chain is
    /// used up. Lists without methods are passed over.
    pub fn next(&mut self) -> (m: Option<Ptr<ObjcMethod>>)
        ensures
            match m {
                Some(p) => old(self)@.len() > 0 && p == old(self)@[0] && final(self)@ == old(
                    self,
                )@.skip(1),
                None => old(self)@.len() == 0 && final(self)@.len() == 0,
            },
    {
        proof {
            use_type_invariant(&*self);
        }
        loop
            invariant
                self@ == old(self)@,
                self.index matches Some(i) ==> i <= self.current_list.method_list.len(),
            decreases self.current_list.depth(),
        {
            let index = match self.index {
                Some(i) => i,
                None => {
                    return None;
                },
            };
            let list: &'a ObjcMethodList = self.current_list;
            if index < list.method_list.len() {
                let m = list.method_list[index];
                self.index = Some(index + 1);
                assert(self@ == old(self)@.skip(1));
                return Some(m);
            }
            match &list.method_next {
                Some(next) => {
                    assert(list@.skip(index as int) == next@);
                    self.index = Some(0);
                    self.current_list = &**next;
                    assert(self@ == next@);
                },
                None => {
                    self.index = None;
                    return None;
                },
            }
        }
    }
}

} // verus!
