use objc_runtime::category::ObjcCategory;
use objc_runtime::class::ObjcClass;
use objc_runtime::context::Context;
use objc_runtime::message::class_lookup;
use objc_runtime::message::objc_msg_lookup;
use objc_runtime::message::objc_msg_lookup_super;
use objc_runtime::message::ObjcSuper;
use objc_runtime::method::ObjcMethod;
use objc_runtime::method::ObjcMethodList;
use objc_runtime::method::Procedure;
use objc_runtime::module::ObjcModule;
use objc_runtime::module::ObjcSymtab;
use objc_runtime::ptr::NilablePtr;
use objc_runtime::ptr::Ptr;
use objc_runtime::runtime::class_createInstance;
use objc_runtime::runtime::class_getClassMethod;
use objc_runtime::runtime::class_getInstanceMethod;
use objc_runtime::runtime::object_dispose;
use objc_runtime::runtime::object_getClass;
use objc_runtime::runtime::sel_getName;
use objc_runtime::runtime::sel_getTypeEncoding;
use objc_runtime::runtime::sel_getUid;
use objc_runtime::selector::KeyPolicy;
use objc_runtime::selector::ObjcSelector;
use objc_runtime::str_ptr::StrPtr;
use objc_runtime::Class;
use objc_runtime::Id;
use objc_runtime::Imp;
use objc_runtime::Sel;

const NO_OP: usize = 1;

fn name(text: &str) -> StrPtr {
    StrPtr::new(text)
}

fn optional_name(text: Option<&str>) -> StrPtr {
    match text {
        Some(text) => StrPtr::new(text),
        None => StrPtr::null(),
    }
}

fn list_of(ctx: &mut Context, methods: &[(&str, &str, usize)]) -> Option<ObjcMethodList> {
    if methods.is_empty() {
        return None;
    }
    let mut handles = Vec::new();
    for (method_name, types, code) in methods {
        let record = ObjcMethod::new(name(method_name), name(types), Ptr::new(*code));
        handles.push(ctx.place_method(record).unwrap());
    }
    Some(ObjcMethodList::new(None, handles))
}

fn define_class(
    ctx: &mut Context,
    class_name: &str,
    super_name: Option<&str>,
    instance_size: i64,
    instance_methods: &[(&str, &str, usize)],
    class_methods: &[(&str, &str, usize)],
) -> Ptr<ObjcClass> {
    let class_side = list_of(ctx, class_methods);
    let meta = ObjcClass::new(
        None,
        optional_name(super_name),
        name(class_name),
        0,
        2,
        48,
        None,
        class_side,
    );
    let meta = ctx.place_class(meta).unwrap();
    let instance_side = list_of(ctx, instance_methods);
    let class = ObjcClass::new(
        Some(meta),
        optional_name(super_name),
        name(class_name),
        0,
        1,
        instance_size,
        None,
        instance_side,
    );
    ctx.place_class(class).unwrap()
}

fn module_of(
    refs: &[(&str, &str)],
    classes: &[Ptr<ObjcClass>],
    categories: &[Ptr<ObjcCategory>],
) -> ObjcModule {
    let mut selectors = Vec::new();
    for (selector_name, types) in refs {
        selectors.push(ObjcSelector::new(name(selector_name), name(types)));
    }
    selectors.push(ObjcSelector::new(StrPtr::null(), StrPtr::null()));
    let mut defs = Vec::new();
    for class in classes {
        defs.push(class.cast::<()>());
    }
    for category in categories {
        defs.push(category.cast::<()>());
    }
    let symtab =
        ObjcSymtab::new(selectors, classes.len() as u16, categories.len() as u16, defs).unwrap();
    ObjcModule::new(8, 32, name("unit.m"), symtab)
}

fn selector(ctx: &Context, selector_name: &str, types: &str) -> Sel {
    Sel(NilablePtr::wrap(ctx.selectors().lookup(&name(selector_name), &name(types))))
}

fn instance_of(ctx: &mut Context, class: Ptr<ObjcClass>) -> Id {
    class_createInstance(ctx, Class(NilablePtr::new(class)), 0)
}

fn code(imp: Imp) -> usize {
    imp.0.as_ref().unwrap().as_ptr()
}

#[test]
fn category_adds_and_overrides() {
    let mut ctx = Context::new();
    let calc = define_class(&mut ctx, "Calc", None, 8, &[("add:", "i12@0:4i8", 0x1000)], &[]);
    let extra = list_of(
        &mut ctx,
        &[("mul:", "i12@0:4i8", 0x2000), ("add:", "i12@0:4i8", 0x2100)],
    );
    let category =
        ctx.place_category(ObjcCategory::new(name("Extra"), name("Calc"), extra, None)).unwrap();
    ctx.load_module(&module_of(
        &[("add:", "i12@0:4i8"), ("mul:", "i12@0:4i8")],
        &[calc],
        &[category],
    ));

    let object = instance_of(&mut ctx, calc);
    let add = selector(&ctx, "add:", "i12@0:4i8");
    let mul = selector(&ctx, "mul:", "i12@0:4i8");
    assert_eq!(code(objc_msg_lookup(&ctx, object, add)), 0x2100);
    assert_eq!(code(objc_msg_lookup(&ctx, object, mul)), 0x2000);

    // the category's list stands in front of the class's own
    let chain = ctx.class(calc).unwrap().methods().unwrap().to_vec();
    let names: Vec<usize> =
        chain.iter().map(|m| ctx.method(*m).unwrap().imp().as_ptr()).collect();
    assert_eq!(names, vec![0x2000, 0x2100, 0x1000]);
}

#[test]
fn category_loaded_by_a_later_module_overrides() {
    let mut ctx = Context::new();
    let calc = define_class(&mut ctx, "Calc", None, 8, &[("add:", "i12@0:4i8", 0x1000)], &[]);
    ctx.load_module(&module_of(&[("add:", "i12@0:4i8")], &[calc], &[]));
    let object = instance_of(&mut ctx, calc);
    let add = selector(&ctx, "add:", "i12@0:4i8");
    assert_eq!(code(objc_msg_lookup(&ctx, object, add)), 0x1000);

    let extra = list_of(&mut ctx, &[("add:", "i12@0:4i8", 0x2100)]);
    let class_side = list_of(&mut ctx, &[("shared", "@8@0:4", 0x2200)]);
    let category = ctx
        .place_category(ObjcCategory::new(name("Extra"), name("Calc"), extra, class_side))
        .unwrap();
    ctx.load_module(&module_of(
        &[("add:", "i12@0:4i8"), ("shared", "@8@0:4")],
        &[],
        &[category],
    ));
    assert_eq!(code(objc_msg_lookup(&ctx, object, add)), 0x2100);

    let shared = selector(&ctx, "shared", "@8@0:4");
    let found = class_getClassMethod(&ctx, Class(NilablePtr::new(calc)), shared);
    let found = found.0.as_ref().unwrap();
    assert_eq!(ctx.method(found).unwrap().imp().as_ptr(), 0x2200);
    assert!(class_getInstanceMethod(&ctx, Class(NilablePtr::new(calc)), shared)
        .0
        .as_ref()
        .is_none());
}

#[test]
fn unknown_selector_is_answered_by_the_no_op() {
    let mut ctx = Context::new();
    let calc = define_class(&mut ctx, "Calc", None, 8, &[("add:", "i12@0:4i8", 0x1000)], &[]);
    ctx.load_module(&module_of(&[("add:", "i12@0:4i8"), ("div:", "i12@0:4i8")], &[calc], &[]));
    let object = instance_of(&mut ctx, calc);
    let div = selector(&ctx, "div:", "i12@0:4i8");
    assert!(div.0.as_ref().is_some());
    assert_eq!(code(objc_msg_lookup(&ctx, object, div)), NO_OP);
    assert_eq!(Procedure::new_null_procedure().as_ptr(), NO_OP);
    // a selector that no table holds
    let stray = Sel(NilablePtr::new(Ptr::new(500)));
    assert_eq!(code(objc_msg_lookup(&ctx, object, stray)), NO_OP);
}

#[test]
fn nil_receiver_is_answered_by_the_no_op() {
    let mut ctx = Context::new();
    let calc = define_class(&mut ctx, "Calc", None, 8, &[("add:", "i12@0:4i8", 0x1000)], &[]);
    ctx.load_module(&module_of(&[("add:", "i12@0:4i8")], &[calc], &[]));
    let add = selector(&ctx, "add:", "i12@0:4i8");
    assert_eq!(code(objc_msg_lookup(&ctx, Id(NilablePtr::nil()), add)), NO_OP);
}

#[test]
fn nil_selector_is_answered_by_the_no_op() {
    let mut ctx = Context::new();
    let calc = define_class(&mut ctx, "Calc", None, 8, &[("add:", "i12@0:4i8", 0x1000)], &[]);
    ctx.load_module(&module_of(&[("add:", "i12@0:4i8")], &[calc], &[]));
    let object = instance_of(&mut ctx, calc);
    assert_eq!(code(objc_msg_lookup(&ctx, object, Sel(NilablePtr::nil()))), NO_OP);
    assert_eq!(
        code(objc_msg_lookup(&ctx, Id(NilablePtr::nil()), Sel(NilablePtr::nil()))),
        NO_OP
    );
    let to_super = ObjcSuper::new(object.0, calc);
    assert_eq!(code(objc_msg_lookup_super(&ctx, &to_super, Sel(NilablePtr::nil()))), NO_OP);
}

#[test]
fn receiver_that_names_no_instance_is_answered_by_the_no_op() {
    let mut ctx = Context::new();
    let calc = define_class(&mut ctx, "Calc", None, 8, &[("add:", "i12@0:4i8", 0x1000)], &[]);
    ctx.load_module(&module_of(&[("add:", "i12@0:4i8")], &[calc], &[]));
    let add = selector(&ctx, "add:", "i12@0:4i8");
    let stray = Id(NilablePtr::new(Ptr::new(42)));
    assert_eq!(code(objc_msg_lookup(&ctx, stray, add)), NO_OP);
    assert!(object_getClass(&ctx, stray).0.as_ref().is_none());
}

#[test]
fn superclass_answers_what_the_class_does_not() {
    let mut ctx = Context::new();
    let animal = define_class(
        &mut ctx,
        "Animal",
        None,
        8,
        &[("eat", "v8@0:4", 0x100), ("speak", "v8@0:4", 0x110)],
        &[("count", "i8@0:4", 0x120)],
    );
    let dog =
        define_class(&mut ctx, "Dog", Some("Animal"), 16, &[("speak", "v8@0:4", 0x200)], &[]);
    ctx.load_module(&module_of(
        &[("eat", "v8@0:4"), ("speak", "v8@0:4"), ("count", "i8@0:4")],
        &[animal, dog],
        &[],
    ));
    let rex = instance_of(&mut ctx, dog);
    let eat = selector(&ctx, "eat", "v8@0:4");
    let speak = selector(&ctx, "speak", "v8@0:4");
    let count = selector(&ctx, "count", "i8@0:4");

    assert_eq!(code(objc_msg_lookup(&ctx, rex, eat)), 0x100);
    assert_eq!(code(objc_msg_lookup(&ctx, rex, speak)), 0x200);

    // a message to super from a method of Dog starts at Animal
    let to_super = ObjcSuper::new(rex.0, animal);
    assert_eq!(code(objc_msg_lookup_super(&ctx, &to_super, eat)), 0x100);
    assert_eq!(code(objc_msg_lookup_super(&ctx, &to_super, speak)), 0x110);
    assert_eq!(to_super.super_class().as_ptr(), animal.as_ptr());
    assert!(to_super.self_obj() == rex.0);

    // class methods are found on the metaclass, and up its chain
    let found = class_getClassMethod(&ctx, Class(NilablePtr::new(dog)), count);
    assert_eq!(ctx.method(found.0.as_ref().unwrap()).unwrap().imp().as_ptr(), 0x120);
    let found = class_getInstanceMethod(&ctx, Class(NilablePtr::new(dog)), eat);
    assert_eq!(ctx.method(found.0.as_ref().unwrap()).unwrap().imp().as_ptr(), 0x100);
    assert!(class_getInstanceMethod(&ctx, Class(NilablePtr::new(dog)), count)
        .0
        .as_ref()
        .is_none());
    assert!(class_getInstanceMethod(&ctx, Class(NilablePtr::nil()), eat).0.as_ref().is_none());
    assert!(class_getInstanceMethod(&ctx, Class(NilablePtr::new(dog)), Sel(NilablePtr::nil()))
        .0
        .as_ref()
        .is_none());
    assert!(class_getClassMethod(&ctx, Class(NilablePtr::nil()), eat).0.as_ref().is_none());
    assert!(class_getClassMethod(&ctx, Class(NilablePtr::new(dog)), Sel(NilablePtr::nil()))
        .0
        .as_ref()
        .is_none());
    // a metaclass record has no class of its own to search
    let dog_meta = ctx.class(dog).unwrap().class_pointer().unwrap();
    assert!(class_getClassMethod(&ctx, Class(NilablePtr::new(dog_meta)), count)
        .0
        .as_ref()
        .is_none());
}

#[test]
fn message_to_super_of_unknown_class_is_answered_by_the_no_op() {
    let mut ctx = Context::new();
    let animal = define_class(&mut ctx, "Animal", None, 8, &[("eat", "v8@0:4", 0x100)], &[]);
    ctx.load_module(&module_of(&[("eat", "v8@0:4")], &[animal], &[]));
    let eat = selector(&ctx, "eat", "v8@0:4");
    let sender = instance_of(&mut ctx, animal);
    let to_super = ObjcSuper::new(sender.0, Ptr::new(77));
    assert_eq!(code(objc_msg_lookup_super(&ctx, &to_super, eat)), NO_OP);
    assert_eq!(class_lookup(&ctx, Ptr::new(77), eat.0.as_ref().unwrap()).as_ptr(), NO_OP);
}

#[test]
fn message_to_super_from_nil_is_answered_by_the_no_op() {
    let mut ctx = Context::new();
    let animal = define_class(&mut ctx, "Animal", None, 8, &[("eat", "v8@0:4", 0x100)], &[]);
    ctx.load_module(&module_of(&[("eat", "v8@0:4")], &[animal], &[]));
    let eat = selector(&ctx, "eat", "v8@0:4");
    // the start class has the method, and still nobody is there to run it
    let from_nil = ObjcSuper::new(NilablePtr::nil(), animal);
    assert_eq!(code(objc_msg_lookup_super(&ctx, &from_nil, eat)), NO_OP);
    assert_eq!(class_lookup(&ctx, animal, eat.0.as_ref().unwrap()).as_ptr(), 0x100);
    let sender = instance_of(&mut ctx, animal);
    let from_sender = ObjcSuper::new(sender.0, animal);
    assert_eq!(code(objc_msg_lookup_super(&ctx, &from_sender, eat)), 0x100);
}

#[test]
fn orphan_does_not_reach_its_superclass() {
    let mut ctx = Context::new();
    let dog =
        define_class(&mut ctx, "Dog", Some("Animal"), 16, &[("speak", "v8@0:4", 0x200)], &[]);
    ctx.load_module(&module_of(&[("eat", "v8@0:4"), ("speak", "v8@0:4")], &[dog], &[]));
    let rex = instance_of(&mut ctx, dog);
    let eat = selector(&ctx, "eat", "v8@0:4");
    let speak = selector(&ctx, "speak", "v8@0:4");
    assert_eq!(code(objc_msg_lookup(&ctx, rex, speak)), 0x200);
    assert_eq!(code(objc_msg_lookup(&ctx, rex, eat)), NO_OP);

    let animal = define_class(&mut ctx, "Animal", None, 8, &[("eat", "v8@0:4", 0x100)], &[]);
    ctx.load_module(&module_of(&[("eat", "v8@0:4")], &[animal], &[]));
    assert_eq!(code(objc_msg_lookup(&ctx, rex, eat)), 0x100);
}

#[test]
fn walk_in_a_circle_ends() {
    let mut ctx = Context::new();
    let a = define_class(&mut ctx, "A", Some("B"), 8, &[], &[]);
    let b = define_class(&mut ctx, "B", Some("A"), 8, &[("here", "v8@0:4", 0x700)], &[]);
    ctx.load_module(&module_of(&[("here", "v8@0:4"), ("gone", "v8@0:4")], &[a, b], &[]));
    assert_eq!(ctx.class(a).unwrap().super_pointer().unwrap().as_ptr(), b.as_ptr());
    assert_eq!(ctx.class(b).unwrap().super_pointer().unwrap().as_ptr(), a.as_ptr());
    let object = instance_of(&mut ctx, a);
    let here = selector(&ctx, "here", "v8@0:4");
    let gone = selector(&ctx, "gone", "v8@0:4");
    assert_eq!(code(objc_msg_lookup(&ctx, object, here)), 0x700);
    assert_eq!(code(objc_msg_lookup(&ctx, object, gone)), NO_OP);
}

#[test]
fn dispatch_entry_holds_the_interned_selector() {
    let mut ctx = Context::new();
    let calc = define_class(&mut ctx, "Calc", None, 8, &[("add:", "i12@0:4i8", 0x1000)], &[]);
    ctx.load_module(&module_of(&[("neg", "i8@0:4"), ("add:", "i12@0:4i8")], &[calc], &[]));
    let add = ctx.selectors().lookup(&name("add:"), &name("i12@0:4i8")).unwrap();
    assert_eq!(add.as_ptr(), 2);
    let method = ctx.class(calc).unwrap().own_method(add).unwrap();
    let record = ctx.method(method).unwrap();
    assert_eq!(record.name().unwrap().as_ptr(), add.as_ptr());
    assert!(record.raw_name() == &name("add:"));
    assert!(record.types() == &name("i12@0:4i8"));
    let resolved = class_getInstanceMethod(
        &ctx,
        Class(NilablePtr::new(calc)),
        Sel(NilablePtr::new(add)),
    );
    assert_eq!(resolved.0.as_ref().unwrap().as_ptr(), method.as_ptr());
}

#[test]
fn instance_is_a_zeroed_block_of_the_class() {
    let mut ctx = Context::new();
    let calc = define_class(&mut ctx, "Calc", None, 24, &[], &[]);
    ctx.load_module(&module_of(&[], &[calc], &[]));
    let object = class_createInstance(&mut ctx, Class(NilablePtr::new(calc)), 8);
    let handle = object.0.as_ref().unwrap();
    assert_eq!(handle.as_ptr(), 1);
    let instance = ctx.object(handle).unwrap();
    assert_eq!(instance.size(), 32);
    assert_eq!(instance.body(), &vec![0u8; 32]);
    assert_eq!(instance.get_class_pointer().as_ptr(), calc.as_ptr());
    assert_eq!(object_getClass(&ctx, object).0.as_ref().unwrap().as_ptr(), calc.as_ptr());
    assert!(object_getClass(&ctx, Id(NilablePtr::nil())).0.as_ref().is_none());

    let second = class_createInstance(&mut ctx, Class(NilablePtr::new(calc)), 0);
    assert_eq!(second.0.as_ref().unwrap().as_ptr(), 2);
    assert_eq!(ctx.object(second.0.as_ref().unwrap()).unwrap().size(), 24);

}

#[test]
fn disposed_instance_is_answered_like_nil() {
    let mut ctx = Context::new();
    let calc = define_class(&mut ctx, "Calc", None, 24, &[("add:", "i12@0:4i8", 0x1000)], &[]);
    ctx.load_module(&module_of(&[("add:", "i12@0:4i8")], &[calc], &[]));
    let first = instance_of(&mut ctx, calc);
    let second = instance_of(&mut ctx, calc);
    let add = selector(&ctx, "add:", "i12@0:4i8");
    assert_eq!(code(objc_msg_lookup(&ctx, first, add)), 0x1000);

    assert!(object_dispose(&mut ctx, first).0.as_ref().is_none());
    assert_eq!(code(objc_msg_lookup(&ctx, first, add)), NO_OP);
    assert!(object_getClass(&ctx, first).0.as_ref().is_none());
    assert!(ctx.object(first.0.as_ref().unwrap()).is_none());
    assert_eq!(code(objc_msg_lookup(&ctx, second, add)), 0x1000);

    // a second time, nil, and a handle that names nothing change nothing
    assert!(object_dispose(&mut ctx, first).0.as_ref().is_none());
    assert!(!ctx.dispose_instance(first.0.as_ref().unwrap()));
    assert!(object_dispose(&mut ctx, Id(NilablePtr::nil())).0.as_ref().is_none());
    assert!(object_dispose(&mut ctx, Id(NilablePtr::new(Ptr::new(40)))).0.as_ref().is_none());
    assert_eq!(code(objc_msg_lookup(&ctx, second, add)), 0x1000);
    // the place of a disposed instance is not given out again
    let third = instance_of(&mut ctx, calc);
    assert_eq!(third.0.as_ref().unwrap().as_ptr(), 3);
}

#[test]
fn instance_of_nil_is_nil() {
    let mut ctx = Context::new();
    assert!(class_createInstance(&mut ctx, Class(NilablePtr::nil()), 8).0.as_ref().is_none());
    assert!(class_createInstance(&mut ctx, Class(NilablePtr::new(Ptr::new(3))), 8)
        .0
        .as_ref()
        .is_none());
    assert!(ctx.create_instance(Ptr::new(3), 0).is_none());
}

#[test]
fn instance_larger_than_a_block_is_nil() {
    let mut ctx = Context::new();
    let calc = define_class(&mut ctx, "Calc", None, 24, &[], &[]);
    let made = class_createInstance(&mut ctx, Class(NilablePtr::new(calc)), usize::MAX - 23);
    assert!(made.0.as_ref().is_none());
    assert!(ctx.object(Ptr::new(1)).is_none());
}

#[test]
fn negative_instance_size_counts_as_zero() {
    let mut ctx = Context::new();
    let odd = define_class(&mut ctx, "Odd", None, -8, &[], &[]);
    assert_eq!(ctx.class(odd).unwrap().get_instance_size(), 0);
    let made = class_createInstance(&mut ctx, Class(NilablePtr::new(odd)), 5);
    assert_eq!(ctx.object(made.0.as_ref().unwrap()).unwrap().size(), 5);
}

#[test]
fn selector_queries_read_the_table() {
    let mut ctx = Context::with_policy(KeyPolicy::NameOnly);
    let calc = define_class(&mut ctx, "Calc", None, 8, &[("add:", "i12@0:4i8", 0x1000)], &[]);
    ctx.load_module(&module_of(&[("add:", "i12@0:4i8")], &[calc], &[]));
    let add = sel_getUid(&ctx, name("add:"));
    assert_eq!(add.0.as_ref().unwrap().as_ptr(), 1);
    assert!(sel_getName(&ctx, add) == name("add:"));
    assert!(sel_getTypeEncoding(&ctx, add) == name("i12@0:4i8"));
    assert!(sel_getUid(&ctx, name("sub:")).0.as_ref().is_none());
    assert!(sel_getUid(&ctx, StrPtr::null()).0.as_ref().is_none());
    assert!(sel_getName(&ctx, Sel(NilablePtr::nil())).is_null());
    assert!(sel_getTypeEncoding(&ctx, Sel(NilablePtr::nil())).is_null());
    assert!(sel_getName(&ctx, Sel(NilablePtr::new(Ptr::new(9)))).is_null());
    assert!(sel_getTypeEncoding(&ctx, Sel(NilablePtr::new(Ptr::new(9)))).is_null());

    // where the encoding is part of the key, the first selector of the name
    let mut strict = Context::new();
    let calc = define_class(&mut strict, "Calc", None, 8, &[("add:", "i12@0:4i8", 0x1000)], &[]);
    strict.load_module(&module_of(
        &[("neg", "i8@0:4"), ("add:", "i12@0:4i8"), ("add:", "q16@0:4q8")],
        &[calc],
        &[],
    ));
    let add = sel_getUid(&strict, name("add:"));
    assert_eq!(add.0.as_ref().unwrap().as_ptr(), 2);
    assert!(sel_getTypeEncoding(&strict, add) == name("i12@0:4i8"));
    assert!(sel_getUid(&strict, name("sub:")).0.as_ref().is_none());
    assert!(sel_getUid(&strict, StrPtr::null()).0.as_ref().is_none());
    assert_eq!(strict.selectors().lookup_name(&name("neg")).map(|s| s.as_ptr()), Some(1));
    assert!(strict.selectors().lookup_name(&StrPtr::null()).is_none());
}

#[test]
fn no_method_has_the_no_op_for_its_code() {
    let mut ctx = Context::new();
    let no_op = Procedure::new_null_procedure();
    assert!(ctx.place_method(ObjcMethod::new(name("run"), name("v8@0:4"), no_op)).is_none());
    assert!(ctx.method(Ptr::new(1)).is_none());
    let placed = ctx.place_method(ObjcMethod::new(name("run"), name("v8@0:4"), Ptr::new(2)));
    assert_eq!(placed.map(|m| m.as_ptr()), Some(1));
}
