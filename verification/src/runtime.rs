//! The query surface: what a compiled program asks the runtime.

use crate::class::ObjcClass;
use crate::context::Context;
use crate::method::ObjcMethod;
use crate::ptr::NilablePtr;
use crate::ptr::Ptr;
use crate::selector::ObjcSelector;
use crate::str_ptr::StrPtr;
use crate::Bool;
use crate::Class;
use crate::Id;
use crate::Method;
use crate::Sel;
use vstd::prelude::*;

verus! {

/// The class of `object`; nil for nil and for a handle that names no
/// instance.
#[allow(non_snake_case)]
pub fn object_getClass(ctx: &Context, object: Id) -> (class: Class)
    ensures
        class.0@ == match object.0@ {
            Some(o) => if ctx@.has_object(o) {
                Some(ctx@.object(o).class_pointer)
            } else {
                None
            },
            None => None,
        },
{
    let found = match object.0.as_ref() {
        Some(o) => match ctx.object(o) {
            Some(instance) => Some(*instance.get_class_pointer()),
            None => None,
        },
        None => None,
    };
    Class(NilablePtr::wrap(found))
}

/// The name of `selector`; null for nil and for a handle that names no
/// selector.
#[allow(non_snake_case)]
pub fn sel_getName(ctx: &Context, selector: Sel) -> (name: StrPtr)
    ensures
        name@ == match selector.0@ {
            Some(s) => if ctx@.selectors.holds(s) {
                ctx@.selectors.entries[s.index()].id
            } else {
                None
            },
            None => None,
        },
{
    match selector.0.as_ref() {
        Some(s) => match ctx.selectors().get(s) {
            Some(record) => record.get_id().clone(),
            None => StrPtr::null(),
        },
        None => StrPtr::null(),
    }
}

/// The type encoding of `selector`; null for nil and for a handle that names
/// no selector.
#[allow(non_snake_case)]
pub fn sel_getTypeEncoding(ctx: &Context, selector: Sel) -> (types: StrPtr)
    ensures
        types@ == match selector.0@ {
            Some(s) => if ctx@.selectors.holds(s) {
                ctx@.selectors.entries[s.index()].types
            } else {
                None
            },
            None => None,
        },
{
    match selector.0.as_ref() {
        Some(s) => match ctx.selectors().get(s) {
            Some(record) => record.get_types().clone(),
            None => StrPtr::null(),
        },
        None => StrPtr::null(),
    }
}

/// The first selector called `name` that the table holds, whatever its type
/// encoding; nil where it holds none, and for a null name. Nothing is
/// interned.
#[allow(non_snake_case)]
pub fn sel_getUid(ctx: &Context, name: StrPtr) -> (selector: Sel)
    ensures
        selector.0@ == if name@.is_some() && ctx@.selectors.knows_name(name@) {
            Some(ctx@.selectors.first_named(name@))
        } else {
            None
        },
{
    if name.is_null() {
        return Sel(NilablePtr::nil());
    }
    Sel(NilablePtr::wrap(ctx.selectors().lookup_name(&name)))
}

/// Makes an instance of `class`: a block of the class's instance size and
/// `extra_bytes` more, all zero, with the class written into it. Returns nil,
/// and makes nothing, for nil, for a handle that names no class, and where
/// the two sizes together are more than a block can hold.
#[allow(non_snake_case)]
pub fn class_createInstance(ctx: &mut Context, class: Class, extra_bytes: usize) -> (object: Id)
    requires
        old(ctx).wf(),
    ensures
        final(ctx).wf(),
        match class.0@ {
            Some(c) => final(ctx)@ == old(ctx)@.instance_made(c, extra_bytes) && object.0@.is_some()
                == old(ctx)@.can_make(c, extra_bytes),
            None => final(ctx)@ == old(ctx)@ && object.0@.is_none(),
        },
        object.0@ matches Some(o) ==> o.index() == old(ctx)@.objects.len(),
{
    let made = match class.0.as_ref() {
        Some(c) => ctx.create_instance(c, extra_bytes),
        None => None,
    };
    Id(NilablePtr::wrap(made))
}

fn resolve(ctx: &Context, class: Ptr<ObjcClass>, selector: Ptr<ObjcSelector>) -> (m: Option<
    Ptr<ObjcMethod>,
>)
    requires
        ctx.wf(),
    ensures
        m == if ctx@.has_class(class) {
            ctx@.resolve_method(ctx@.class(class), selector)
        } else {
            None
        },
{
    match ctx.class(class) {
        Some(record) => record.resolve_method(ctx, selector),
        None => None,
    }
}

/// The method that instances of `class` answer `selector` with, which may be
/// one of a superclass; nil where there is none, and where the class or the
/// selector is nil.
#[allow(non_snake_case)]
pub fn class_getInstanceMethod(ctx: &Context, class: Class, selector: Sel) -> (method: Method)
    requires
        ctx.wf(),
    ensures
        method.0@ == match (class.0@, selector.0@) {
            (Some(c), Some(s)) => if ctx@.has_class(c) {
                ctx@.resolve_method(ctx@.class(c), s)
            } else {
                None
            },
            _ => None,
        },
{
    let class = match class.0.as_ref() {
        Some(class) => class,
        None => {
            return Method(NilablePtr::nil());
        },
    };
    let selector = match selector.0.as_ref() {
        Some(selector) => selector,
        None => {
            return Method(NilablePtr::nil());
        },
    };
    Method(NilablePtr::wrap(resolve(ctx, class, selector)))
}

/// The method that the class `class` itself answers `selector` with: the
/// search is made on the metaclass. Nil where there is none, where the class
/// or the selector is nil, and where the record has no metaclass.
#[allow(non_snake_case)]
pub fn class_getClassMethod(ctx: &Context, class: Class, selector: Sel) -> (method: Method)
    requires
        ctx.wf(),
    ensures
        method.0@ == match (class.0@, selector.0@) {
            (Some(c), Some(s)) => if ctx@.has_class(c) {
                match ctx@.class(c).class_pointer {
                    Some(m) => ctx@.resolve_method(ctx@.class(m), s),
                    None => None,
                }
            } else {
                None
            },
            _ => None,
        },
{
    let class = match class.0.as_ref() {
        Some(class) => class,
        None => {
            return Method(NilablePtr::nil());
        },
    };
    let selector = match selector.0.as_ref() {
        Some(selector) => selector,
        None => {
            return Method(NilablePtr::nil());
        },
    };
    let meta_class = match ctx.class(class) {
        Some(record) => match record.class_pointer() {
            Some(m) => *m,
            None => {
                return Method(NilablePtr::nil());
            },
        },
        None => {
            return Method(NilablePtr::nil());
        },
    };
    proof {
        ctx.lemma_class_wf(class);
    }
    Method(NilablePtr::wrap(resolve(ctx, meta_class, selector)))
}

/// The superclass of `class`; nil for a root, for an orphan, for nil and for
/// a handle that names no class.
#[allow(non_snake_case)]
pub fn class_getSuperclass(ctx: &Context, class: Class) -> (super_class: Class)
    ensures
        super_class.0@ == match class.0@ {
            Some(c) => if ctx@.has_class(c) {
                ctx@.class(c).super_pointer
            } else {
                None
            },
            None => None,
        },
{
    let found = match class.0.as_ref() {
        Some(c) => match ctx.class(c) {
            Some(record) => *record.super_pointer(),
            None => None,
        },
        None => None,
    };
    Class(NilablePtr::wrap(found))
}

/// Disposes of `object`: its block is given up, and a message to it is
/// answered like a message to nil from now on. The answer is nil; for nil and
/// for a handle that names no instance nothing else happens.
#[allow(non_snake_case)]
pub fn object_dispose(ctx: &mut Context, object: Id) -> (gone: Id)
    requires
        old(ctx).wf(),
    ensures
        final(ctx).wf(),
        gone.0@.is_none(),
        final(ctx)@ == match object.0@ {
            Some(o) => old(ctx)@.instance_disposed(o),
            None => old(ctx)@,
        },
{
    match object.0.as_ref() {
        Some(o) => {
            ctx.dispose_instance(o);
        },
        None => {},
    }
    Id(NilablePtr::nil())
}

/// The name of `class`; null for nil and for a handle that names no class.
#[allow(non_snake_case)]
pub fn class_getName(ctx: &Context, class: Class) -> (name: StrPtr)
    ensures
        name@ == match class.0@ {
            Some(c) => if ctx@.has_class(c) {
                ctx@.class(c).name
            } else {
                None
            },
            None => None,
        },
{
    match class.0.as_ref() {
        Some(c) => match ctx.class(c) {
            Some(record) => record.get_name().clone(),
            None => StrPtr::null(),
        },
        None => StrPtr::null(),
    }
}

/// Whether `class` is a metaclass; no for nil and for a handle that names no
/// class.
#[allow(non_snake_case)]
pub fn class_isMetaClass(ctx: &Context, class: Class) -> (b: Bool)
    ensures
        b.0 == if class.0@ matches Some(c) && ctx@.has_class(c) && ctx@.class(c).is_meta() {
            crate::YES
        } else {
            crate::NO
        },
{
    let is_meta = match class.0.as_ref() {
        Some(c) => match ctx.class(c) {
            Some(record) => record.is_meta(),
            None => false,
        },
        None => false,
    };
    Bool::from(is_meta)
}

/// The class called `name`; nil where no class of that name is registered.
#[allow(non_snake_case)]
pub fn objc_getClass(ctx: &Context, name: StrPtr) -> (class: Class)
    ensures
        class.0@ == match name@ {
            Some(n) => if ctx@.class_table.contains_key(n) {
                Some(ctx@.class_table[n].class())
            } else {
                None
            },
            None => None,
        },
{
    objc_get_class(ctx, name)
}

/// The class called `name`; nil where no class of that name is registered.
pub fn objc_get_class(ctx: &Context, name: StrPtr) -> (class: Class)
    ensures
        class.0@ == match name@ {
            Some(n) => if ctx@.class_table.contains_key(n) {
                Some(ctx@.class_table[n].class())
            } else {
                None
            },
            None => None,
        },
{
    let found = match ctx.get_class_entry(&name) {
        Some(entry) => Some(entry.class()),
        None => None,
    };
    Class(NilablePtr::wrap(found))
}

} // verus!
