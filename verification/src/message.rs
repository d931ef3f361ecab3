//! Message dispatch: from a receiver and a selector to the code to run.

use crate::class::ObjcClass;
use crate::context::Context;
use crate::method::Procedure;
use crate::object::ObjcObject;
use crate::ptr::NilablePtr;
use crate::ptr::Ptr;
use crate::selector::ObjcSelector;
use crate::Id;
use crate::Imp;
use crate::Sel;
use vstd::prelude::*;

verus! {

/// The code that answers `selector` for the class `class`: that of the method
/// which the class or one of its superclasses answers with, or the no-op
/// procedure where none does or `class` names no class.
pub fn class_lookup(ctx: &Context, class: Ptr<ObjcClass>, selector: Ptr<ObjcSelector>) -> (procedure:
    Ptr<Procedure>)
    requires
        ctx.wf(),
    ensures
        procedure == ctx@.class_lookup(class, selector),
{
    let record = match ctx.class(class) {
        Some(record) => record,
        None => {
            return Procedure::new_null_procedure();
        },
    };
    proof {
        ctx.lemma_class_wf(class);
        ctx@.lemma_resolved_has_method(record@, selector, ctx@.classes.len());
    }
    match record.resolve_method(ctx, selector) {
        Some(m) => match ctx.method(m) {
            Some(method) => *method.imp(),
            None => Procedure::new_null_procedure(),
        },
        None => Procedure::new_null_procedure(),
    }
}

/// The code that answers the message `selector` sent to `receiver`.
///
/// A message to nil, and a nil message, are answered by the no-op procedure;
/// so is a message that neither the receiver's class nor any of its
/// superclasses implements. The answer is never nil.
#[allow(non_snake_case)]
pub fn objc_msg_lookup(ctx: &Context, receiver: Id, selector: Sel) -> (imp: Imp)
    requires
        ctx.wf(),
    ensures
        imp.0@ == Some(ctx@.msg_lookup(receiver.0@, selector.0@)),
{
    let procedure = match (receiver.0.as_ref(), selector.0.as_ref()) {
        (Some(object), Some(selector)) => match ctx.object(object) {
            Some(instance) => class_lookup(ctx, *instance.get_class_pointer(), selector),
            None => Procedure::new_null_procedure(),
        },
        _ => Procedure::new_null_procedure(),
    };
    Imp(NilablePtr::new(procedure))
}

/// What a message to `super` is sent with: the receiver, and the class at
/// which the search starts, which is the superclass of the class whose method
/// sends the message.
pub struct ObjcSuper {
    self_obj: NilablePtr<ObjcObject>,
    super_class: Ptr<ObjcClass>,
}

impl ObjcSuper {
    /// The record of a message to `super`.
    pub fn new(self_obj: NilablePtr<ObjcObject>, super_class: Ptr<ObjcClass>) -> (s: ObjcSuper)
        ensures
            s.self_obj() == self_obj,
            s.super_class() == super_class,
    {
        ObjcSuper { self_obj, super_class }
    }

    /// The receiver, in contracts.
    pub closed spec fn spec_self_obj(&self) -> NilablePtr<ObjcObject> {
        self.self_obj
    }

    /// The class at which the search starts, in contracts.
    pub closed spec fn spec_super_class(&self) -> Ptr<ObjcClass> {
        self.super_class
    }

    /// The receiver.
    #[verifier::when_used_as_spec(spec_self_obj)]
    pub fn self_obj(&self) -> (o: NilablePtr<ObjcObject>)
        ensures
            o == self.self_obj(),
    {
        self.self_obj
    }

    /// The class at which the search starts.
    #[verifier::when_used_as_spec(spec_super_class)]
    pub fn super_class(&self) -> (c: Ptr<ObjcClass>)
        ensures
            c == self.super_class(),
    {
        self.super_class
    }
}

/// The code that answers the message `selector` sent to `super`: the search
/// starts at the class that `super_data` names and so passes over the
/// receiver's own class. A message from a nil receiver, a nil message, and
/// one that nobody up the chain implements, are answered by the no-op
/// procedure.
#[allow(non_snake_case)]
pub fn objc_msg_lookup_super(ctx: &Context, super_data: &ObjcSuper, selector: Sel) -> (imp: Imp)
    requires
        ctx.wf(),
    ensures
        imp.0@ == Some(
            ctx@.msg_lookup_super(super_data.self_obj()@, super_data.super_class(), selector.0@),
        ),
{
    let procedure = match (super_data.self_obj().as_ref(), selector.0.as_ref()) {
        (Some(_), Some(selector)) => class_lookup(ctx, super_data.super_class(), selector),
        _ => Procedure::new_null_procedure(),
    };
    Imp(NilablePtr::new(procedure))
}

} // verus!
