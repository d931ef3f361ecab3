//! The core of a GNU-style Objective-C runtime: descriptor records, the module
//! loader that links them into a class graph, and method dispatch.

pub mod category;
pub mod class;
pub mod context;
pub mod ivar;
pub mod laws;
pub mod message;
pub mod method;
pub mod module;
pub mod object;
pub mod ptr;
pub mod runtime;
pub mod selector;
pub mod state;
pub mod str_ptr;

use crate::class::ObjcClass;
use crate::ivar::ObjcIvar;
use crate::method::ObjcMethod;
use crate::method::Procedure;
use crate::module::ObjcModule;
use crate::object::ObjcObject;
use crate::ptr::NilablePtr;
use crate::ptr::Ptr;
use crate::selector::ObjcSelector;
use vstd::prelude::*;

verus! {

/// A truth value as the compiled program passes it: one byte, one for yes and
/// zero for no.
#[derive(Clone, Copy, Debug)]
pub struct Bool(pub u8);

/// The byte that stands for yes.
pub const YES: u8 = 1;

/// The byte that stands for no.
pub const NO: u8 = 0;

impl From<bool> for Bool {
    fn from(b: bool) -> (r: Self) {
        if b {
            Bool(YES)
        } else {
            Bool(NO)
        }
    }
}

impl vstd::std_specs::convert::FromSpecImpl<bool> for Bool {
    open spec fn obeys_from_spec() -> bool {
        true
    }

    open spec fn from_spec(b: bool) -> Self {
        if b {
            Bool(YES)
        } else {
            Bool(NO)
        }
    }
}

/// An instance variable, or none.
#[derive(Clone)]
pub struct Ivar<'a>(pub Option<&'a ObjcIvar>);

/// A class, or nil.
#[derive(Clone, Copy)]
pub struct Class(pub NilablePtr<ObjcClass>);

/// An instance, or nil.
#[derive(Clone, Copy)]
pub struct Id(pub NilablePtr<ObjcObject>);

/// A selector, or nil.
#[derive(Clone, Copy)]
pub struct Sel(pub NilablePtr<ObjcSelector>);

/// The code of a method, or nil.
#[derive(Clone, Copy)]
pub struct Imp(pub NilablePtr<Procedure>);

/// A method, or nil.
#[derive(Clone, Copy)]
pub struct Method(pub NilablePtr<ObjcMethod>);

/// The word under which a caller knows a module.
#[derive(Clone, Copy)]
pub struct Module(pub Ptr<ObjcModule>);

} // verus!
