//! Instance variables, as the compiler lists them for a class.

use crate::str_ptr::StrPtr;
use vstd::prelude::*;

verus! {

/// One instance variable: its name, the encoding of its type, and its offset
/// in bytes from the start of an instance.
pub struct ObjcIvar {
    ivar_name: StrPtr,
    ivar_type: StrPtr,
    ivar_offset: i32,
}

/// What an instance-variable record holds.
pub ghost struct IvarView {
    pub name: Option<Seq<char>>,
    pub type_encoding: Option<Seq<char>>,
    pub offset: i32,
}

impl View for ObjcIvar {
    type V = IvarView;

    closed spec fn view(&self) -> IvarView {
        IvarView { name: self.ivar_name@, type_encoding: self.ivar_type@, offset: self.ivar_offset }
    }
}

impl ObjcIvar {
    /// The record of one instance variable.
    pub fn new(name: StrPtr, type_encoding: StrPtr, offset: i32) -> (ivar: ObjcIvar)
        ensures
            ivar@ == (IvarView { name: name@, type_encoding: type_encoding@, offset }),
    {
        ObjcIvar { ivar_name: name, ivar_type: type_encoding, ivar_offset: offset }
    }

    /// The variable's name.
    pub fn name(&self) -> (name: &StrPtr)
        ensures
            name@ == self@.name,
    {
        &self.ivar_name
    }

    /// The encoding of the variable's type.
    pub fn type_encoding(&self) -> (t: &StrPtr)
        ensures
            t@ == self@.type_encoding,
    {
        &self.ivar_type
    }

    /// The variable's offset in bytes.
    pub fn offset(&self) -> (offset: i32)
        ensures
            offset == self@.offset,
    {
        self.ivar_offset
    }
}

/// The number of records that a count written by the compiler stands for: a
/// count below zero stands for none.
pub fn declared_count(count: i32) -> (n: usize)
    ensures
        n == if count < 0 {
            0
        } else {
            count as int
        },
{
    if count < 0 {
        0
    } else {
        count as usize
    }
}

/// The instance variables of one class, in the order of declaration.
pub struct ObjcIvarList {
    ivar_list: Vec<ObjcIvar>,
}

impl View for ObjcIvarList {
    type V = Seq<IvarView>;

    closed spec fn view(&self) -> Seq<IvarView> {
        self.ivar_list@.map_values(|ivar: ObjcIvar| ivar@)
    }
}

impl ObjcIvarList {
    /// The list of `ivars`.
    pub fn new(ivars: Vec<ObjcIvar>) -> (list: ObjcIvarList)
        ensures
            list@ == ivars@.map_values(|ivar: ObjcIvar| ivar@),
    {
        ObjcIvarList { ivar_list: ivars }
    }

    /// The number of variables.
    pub fn ivar_count(&self) -> (count: usize)
        ensures
            count == self@.len(),
    {
        self.ivar_list.len()
    }

    /// The `i`-th variable; `None` for an index at or past the count.
    pub fn nth_ivar(&self, i: usize) -> (ivar: Option<&ObjcIvar>)
        ensures
            match ivar {
                Some(v) => i < self@.len() && v@ == self@[i as int],
                None => i >= self@.len(),
            },
    {
        let count = self.ivar_count();
        if i >= count {
            return None;
        }
        Some(&self.ivar_list[i])
    }
}

} // verus!
