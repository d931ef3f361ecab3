use objc_runtime::class::ObjcClass;
use objc_runtime::context::ClassTable;
use objc_runtime::context::ClassTableEntry;
use objc_runtime::context::Context;
use objc_runtime::ivar::declared_count;
use objc_runtime::ivar::ObjcIvar;
use objc_runtime::ivar::ObjcIvarList;
use objc_runtime::method::ObjcMethod;
use objc_runtime::method::ObjcMethodList;
use objc_runtime::module::ObjcModule;
use objc_runtime::module::ObjcSymtab;
use objc_runtime::module::SelectorMap;
use objc_runtime::object::whole_words;
use objc_runtime::object::ObjcObject;
use objc_runtime::ptr::NilablePtr;
use objc_runtime::ptr::Ptr;
use objc_runtime::selector::KeyPolicy;
use objc_runtime::selector::ObjcSelector;
use objc_runtime::selector::SelectorTable;
use objc_runtime::str_ptr::StrPtr;
use objc_runtime::Bool;
use objc_runtime::Ivar;
use objc_runtime::NO;
use objc_runtime::YES;

fn name(text: &str) -> StrPtr {
    StrPtr::new(text)
}

fn handles(words: &[usize]) -> Vec<Ptr<ObjcMethod>> {
    words.iter().map(|w| Ptr::new(*w)).collect()
}

fn list(words: &[usize]) -> ObjcMethodList {
    ObjcMethodList::new(None, handles(words))
}

fn words(list: &[Ptr<ObjcMethod>]) -> Vec<usize> {
    list.iter().map(|p| p.as_ptr()).collect()
}

#[test]
fn handle_keeps_its_word() {
    let p: Ptr<ObjcClass> = Ptr::new(12);
    assert_eq!(p.as_ptr(), 12);
    assert_eq!(p.slot(), 11);
    assert_eq!(p.cast::<()>().as_ptr(), 12);
    assert!(p == p.clone());
    assert!(p != Ptr::new(13));
}

#[test]
fn nilable_handle_round_trip() {
    let p: Ptr<ObjcClass> = Ptr::new(5);
    let some = NilablePtr::new(p);
    assert_eq!(some.as_ref().map(|q| q.as_ptr()), Some(5));
    let nil: NilablePtr<ObjcClass> = NilablePtr::nil();
    assert!(nil.as_ref().is_none());
    assert!(NilablePtr::wrap(Some(p)) == some);
    assert!(NilablePtr::wrap(None) == nil);
    assert!(NilablePtr::from(Some(p)) == some);
    assert!(NilablePtr::from(None) == nil);
    assert!(some != nil);
}

#[test]
fn names_are_equal_by_their_text() {
    let a = name("length");
    let b = StrPtr::new(&String::from("length"));
    assert!(a == b);
    assert!(a != name("Length"));
    assert!(a != StrPtr::null());
    assert!(StrPtr::null() == StrPtr::null());
    assert_eq!(a.as_ref(), Some("length"));
    assert_eq!(StrPtr::null().as_ref(), None);
    assert!(StrPtr::null().is_null());
    assert!(!a.is_null());
    assert!(a.clone() == a);
    assert_eq!(name("").as_ref(), Some(""));
}

#[test]
fn truth_value_is_one_byte() {
    assert_eq!(Bool::from(true).0, 1);
    assert_eq!(Bool::from(false).0, 0);
    assert_eq!(YES, 1);
    assert_eq!(NO, 0);
}

#[test]
fn ivar_index_out_of_range_is_none() {
    let list = ObjcIvarList::new(vec![
        ObjcIvar::new(name("isa"), name("#"), 0),
        ObjcIvar::new(name("count"), name("i"), 8),
    ]);
    assert_eq!(list.ivar_count(), 2);
    let second = list.nth_ivar(1).unwrap();
    assert!(second.name() == &name("count"));
    assert!(second.type_encoding() == &name("i"));
    assert_eq!(second.offset(), 8);
    assert_eq!(list.nth_ivar(0).unwrap().offset(), 0);
    assert!(list.nth_ivar(2).is_none());
    assert!(list.nth_ivar(usize::MAX).is_none());
    let empty = ObjcIvarList::new(Vec::new());
    assert_eq!(empty.ivar_count(), 0);
    assert!(empty.nth_ivar(0).is_none());
    let handle = Ivar(list.nth_ivar(0));
    assert_eq!(handle.0.unwrap().offset(), 0);
}

#[test]
fn class_record_keeps_what_it_was_made_of() {
    let ivars = ObjcIvarList::new(vec![ObjcIvar::new(name("isa"), name("#"), 0)]);
    let meta: Ptr<ObjcClass> = Ptr::new(4);
    let class =
        ObjcClass::new(Some(meta), name("Animal"), name("Dog"), 3, 1, 40, Some(ivars), None);
    assert_eq!(class.class_pointer().map(|p| p.as_ptr()), Some(4));
    assert!(class.super_pointer().is_none());
    assert!(class.super_name() == &name("Animal"));
    assert!(class.get_name() == &name("Dog"));
    assert_eq!(class.version(), 3);
    assert_eq!(class.get_instance_size(), 40);
    assert!(class.is_class());
    assert!(!class.is_meta());
    assert_eq!(class.ivars().unwrap().ivar_count(), 1);
    assert!(class.methods().is_none());
    assert!(class.own_method(Ptr::new(1)).is_none());

    let meta_record = ObjcClass::new(None, StrPtr::null(), name("Dog"), 0, 2, 0, None, None);
    assert!(meta_record.is_meta());
    assert!(!meta_record.is_class());
    assert!(meta_record.class_pointer().is_none());
    assert!(meta_record.ivars().is_none());
}

#[test]
fn class_record_finds_its_superclass_in_the_registry() {
    let mut table = ClassTable::new();
    assert!(table.lookup("Animal").is_none());
    table.register("Animal", ClassTableEntry::new(Ptr::new(2), Ptr::new(1)));
    let entry = table.lookup("Animal").unwrap();
    assert_eq!(entry.class().as_ptr(), 2);
    assert_eq!(entry.meta_class().as_ptr(), 1);

    let mut dog = ObjcClass::new(Some(Ptr::new(3)), name("Animal"), name("Dog"), 0, 1, 0, None, None);
    assert!(dog.initialize_super_pointer(&table));
    assert_eq!(dog.super_pointer().map(|p| p.as_ptr()), Some(2));

    let mut dog_meta = ObjcClass::new(None, name("Animal"), name("Dog"), 0, 2, 0, None, None);
    assert!(dog_meta.initialize_super_pointer(&table));
    assert_eq!(dog_meta.super_pointer().map(|p| p.as_ptr()), Some(1));

    let mut root = ObjcClass::new(None, StrPtr::null(), name("Root"), 0, 1, 0, None, None);
    assert!(root.initialize_super_pointer(&table));
    assert!(root.super_pointer().is_none());

    let mut cat = ObjcClass::new(None, name("Feline"), name("Cat"), 0, 1, 0, None, None);
    assert!(!cat.initialize_super_pointer(&table));
    assert!(cat.super_pointer().is_none());

    table.register("Animal", ClassTableEntry::new(Ptr::new(8), Ptr::new(7)));
    assert_eq!(table.lookup("Animal").unwrap().class().as_ptr(), 8);
    dog.reset();
    assert!(dog.super_pointer().is_none());
}

#[test]
fn dispatch_table_keeps_the_last_method_entered() {
    let mut class = ObjcClass::new(None, StrPtr::null(), name("A"), 0, 1, 0, None, None);
    let selector: Ptr<ObjcSelector> = Ptr::new(3);
    assert!(class.register_method(selector, Ptr::new(10)).is_none());
    assert_eq!(class.own_method(selector).map(|m| m.as_ptr()), Some(10));
    assert_eq!(class.register_method(selector, Ptr::new(11)).map(|m| m.as_ptr()), Some(10));
    assert_eq!(class.own_method(selector).map(|m| m.as_ptr()), Some(11));
    assert!(class.own_method(Ptr::new(4)).is_none());
}

fn declared(refs: &[(&str, &str)], table: &mut SelectorTable) -> SelectorMap {
    let mut selectors = Vec::new();
    for (selector_name, types) in refs {
        selectors.push(ObjcSelector::new(name(selector_name), name(types)));
    }
    ObjcSymtab::new(selectors, 0, 0, Vec::new()).unwrap().create_selector_map(table)
}

#[test]
fn class_initialize_builds_the_table_and_queues_the_rest() {
    let mut table = SelectorTable::new(KeyPolicy::NameAndTypes);
    let map = declared(&[("a", "v"), ("b", "v")], &mut table);
    let mut arena = vec![
        ObjcMethod::new(name("a"), name("v"), Ptr::new(0x10)),
        ObjcMethod::new(name("x"), name("v"), Ptr::new(0x20)),
        ObjcMethod::new(name("b"), name("v"), Ptr::new(0x30)),
        ObjcMethod::new(name("a"), name("v"), Ptr::new(0x40)),
        ObjcMethod::new(name("a"), name("q"), Ptr::new(0x50)),
    ];
    let chain = ObjcMethodList::new(
        Some(Box::new(ObjcMethodList::new(None, handles(&[3, 4, 5])))),
        handles(&[1, 2]),
    );
    let mut class = ObjcClass::new(None, StrPtr::null(), name("A"), 0, 1, 0, None, Some(chain));
    class.register_method(Ptr::new(9), Ptr::new(1));
    let this: Ptr<ObjcClass> = Ptr::new(7);
    let mut queue = vec![(Ptr::new(1), Ptr::new(1))];
    class.initialize(this, &map, &mut arena, &mut queue);

    // what stood in the table is gone; under a the later method stands
    assert!(class.own_method(Ptr::new(9)).is_none());
    assert_eq!(class.own_method(Ptr::new(1)).map(|m| m.as_ptr()), Some(4));
    assert_eq!(class.own_method(Ptr::new(2)).map(|m| m.as_ptr()), Some(3));
    assert!(class.own_method(Ptr::new(3)).is_none());
    // the methods in the table are linked, the others are not
    let links: Vec<Option<usize>> = arena.iter().map(|m| m.name().map(|s| s.as_ptr())).collect();
    assert_eq!(links, vec![Some(1), None, Some(2), Some(1), None]);
    // the methods without a selector are queued in the order of the chain
    let queued: Vec<(usize, usize)> = queue.iter().map(|(c, m)| (c.as_ptr(), m.as_ptr())).collect();
    assert_eq!(queued, vec![(1, 1), (7, 2), (7, 5)]);
}

#[test]
fn class_without_methods_gets_an_empty_table() {
    let mut table = SelectorTable::new(KeyPolicy::NameAndTypes);
    let map = declared(&[("a", "v")], &mut table);
    let mut arena = vec![ObjcMethod::new(name("a"), name("v"), Ptr::new(0x10))];
    let mut class = ObjcClass::new(None, StrPtr::null(), name("A"), 0, 1, 0, None, None);
    class.register_method(Ptr::new(1), Ptr::new(1));
    let mut queue = Vec::new();
    class.initialize(Ptr::new(7), &map, &mut arena, &mut queue);
    assert!(class.own_method(Ptr::new(1)).is_none());
    assert!(queue.is_empty());
    assert!(arena[0].name().is_none());
}

#[test]
fn method_enters_the_table_or_the_queue() {
    let mut table = SelectorTable::new(KeyPolicy::NameOnly);
    let map = declared(&[("a", "v")], &mut table);
    let mut arena = vec![
        ObjcMethod::new(name("a"), name("other"), Ptr::new(0x10)),
        ObjcMethod::new(name("b"), name("v"), Ptr::new(0x20)),
    ];
    let mut class = ObjcClass::new(None, StrPtr::null(), name("A"), 0, 1, 0, None, None);
    let mut queue = Vec::new();
    assert!(class.enter_method(Ptr::new(7), Ptr::new(1), &map, &mut arena, &mut queue));
    assert!(!class.enter_method(Ptr::new(7), Ptr::new(2), &map, &mut arena, &mut queue));
    assert_eq!(class.own_method(Ptr::new(1)).map(|m| m.as_ptr()), Some(1));
    assert_eq!(arena[0].name().map(|s| s.as_ptr()), Some(1));
    assert!(arena[1].name().is_none());
    assert_eq!(queue.len(), 1);
    assert_eq!(queue[0].1.as_ptr(), 2);
    arena[0].unlink();
    assert!(arena[0].name().is_none());
}

#[test]
fn count_below_zero_stands_for_none() {
    assert_eq!(declared_count(-1), 0);
    assert_eq!(declared_count(i32::MIN), 0);
    assert_eq!(declared_count(0), 0);
    assert_eq!(declared_count(3), 3);
    assert_eq!(declared_count(i32::MAX), 2147483647);
}

#[test]
fn block_takes_whole_words() {
    assert_eq!(whole_words(0, 8), 0);
    assert_eq!(whole_words(1, 8), 1);
    assert_eq!(whole_words(8, 8), 1);
    assert_eq!(whole_words(9, 8), 2);
    assert_eq!(whole_words(24, 8), 3);
    assert_eq!(whole_words(5, 1), 5);
    assert_eq!(whole_words(usize::MAX, 8), usize::MAX / 8 + 1);
    assert_eq!(whole_words(usize::MAX, 1), usize::MAX);
}

#[test]
fn method_link_hands_back_the_old_selector() {
    let mut method = ObjcMethod::new(name("add:"), name("i12@0:4i8"), Ptr::new(0x1000));
    assert!(method.name().is_none());
    assert!(method.raw_name() == &name("add:"));
    assert!(method.types() == &name("i12@0:4i8"));
    assert_eq!(method.imp().as_ptr(), 0x1000);
    assert!(method.link_to_selector(Ptr::new(2)).is_none());
    assert_eq!(method.name().map(|s| s.as_ptr()), Some(2));
    assert_eq!(method.link_to_selector(Ptr::new(3)).map(|s| s.as_ptr()), Some(2));
    assert_eq!(method.name().map(|s| s.as_ptr()), Some(3));
    assert_eq!(method.imp().as_ptr(), 0x1000);
}

#[test]
fn method_walk_follows_the_chain() {
    let third = ObjcMethodList::new(None, handles(&[6]));
    let second = ObjcMethodList::new(Some(Box::new(third)), handles(&[]));
    let first = ObjcMethodList::new(Some(Box::new(second)), handles(&[3, 4]));
    assert_eq!(first.method_count(), 2);
    assert_eq!(first.nth_method(1).map(|m| m.as_ptr()), Some(4));
    assert!(first.nth_method(2).is_none());
    assert_eq!(first.get_next().unwrap().method_count(), 0);
    assert!(first.get_next().unwrap().get_next().unwrap().get_next().is_none());

    let mut walk = first.iter();
    assert_eq!(walk.next().map(|m| m.as_ptr()), Some(3));
    assert_eq!(walk.next().map(|m| m.as_ptr()), Some(4));
    assert_eq!(walk.next().map(|m| m.as_ptr()), Some(6));
    assert!(walk.next().is_none());
    assert!(walk.next().is_none());
    assert_eq!(words(&first.to_vec()), vec![3, 4, 6]);
    assert_eq!(words(&first.clone().to_vec()), vec![3, 4, 6]);

    let empty = ObjcMethodList::new(None, handles(&[]));
    assert!(empty.iter().next().is_none());
}

#[test]
fn method_chain_in_front_of_another() {
    let tail = ObjcMethodList::new(None, handles(&[1, 2]));
    let front = ObjcMethodList::new(
        Some(Box::new(ObjcMethodList::new(None, handles(&[8])))),
        handles(&[9]),
    );
    let joined = front.prepend_to(Some(Box::new(tail)));
    assert_eq!(words(&joined.to_vec()), vec![9, 8, 1, 2]);
    let alone = ObjcMethodList::new(None, handles(&[4])).prepend_to(None);
    assert_eq!(words(&alone.to_vec()), vec![4]);

    let mut class = ObjcClass::new(
        None,
        StrPtr::null(),
        name("A"),
        0,
        1,
        0,
        None,
        Some(ObjcMethodList::new(None, handles(&[1]))),
    );
    class.prepend_methods(ObjcMethodList::new(None, handles(&[2, 3])));
    assert_eq!(words(&class.methods().unwrap().to_vec()), vec![2, 3, 1]);
}

#[test]
fn symtab_counts_must_match_its_definitions() {
    let defs: Vec<Ptr<()>> = vec![Ptr::new(1), Ptr::new(2), Ptr::new(3)];
    assert!(ObjcSymtab::new(Vec::new(), 2, 2, defs.clone()).is_none());
    assert!(ObjcSymtab::new(Vec::new(), 1, 1, defs.clone()).is_none());
    assert!(ObjcSymtab::new(Vec::new(), 0, 0, defs.clone()).is_none());
    assert!(ObjcSymtab::new(Vec::new(), u16::MAX, u16::MAX, defs.clone()).is_none());
    let symtab = ObjcSymtab::new(Vec::new(), 2, 1, defs).unwrap();
    assert_eq!(symtab.cls_def_cnt(), 2);
    assert_eq!(symtab.cat_def_cnt(), 1);
}

#[test]
fn symtab_gives_classes_first_then_categories() {
    let defs: Vec<Ptr<()>> = vec![Ptr::new(10), Ptr::new(20), Ptr::new(30)];
    let symtab = ObjcSymtab::new(Vec::new(), 2, 1, defs).unwrap();
    assert_eq!(symtab.nth_class_ptr(0).map(|p| p.as_ptr()), Some(10));
    assert_eq!(symtab.nth_class_ptr(1).map(|p| p.as_ptr()), Some(20));
    assert!(symtab.nth_class_ptr(2).is_none());
    assert_eq!(symtab.nth_category_ptr(0).map(|p| p.as_ptr()), Some(30));
    assert!(symtab.nth_category_ptr(1).is_none());
    assert!(symtab.nth_category_ptr(usize::MAX).is_none());

    let mut classes = symtab.iter_class();
    assert_eq!(classes.next().map(|p| p.as_ptr()), Some(10));
    assert_eq!(classes.next().map(|p| p.as_ptr()), Some(20));
    assert!(classes.next().is_none());
    assert!(classes.next().is_none());
    let mut categories = symtab.iter_category();
    assert_eq!(categories.next().map(|p| p.as_ptr()), Some(30));
    assert!(categories.next().is_none());

    let empty = ObjcSymtab::new(Vec::new(), 0, 0, Vec::new()).unwrap();
    assert!(empty.iter_class().next().is_none());
    assert!(empty.iter_category().next().is_none());
    assert!(empty.iter_selector().next().is_none());
}

#[test]
fn selector_references_end_at_the_record_without_a_name() {
    let refs = vec![
        ObjcSelector::new(name("a"), name("v8@0:4")),
        ObjcSelector::new(name("b"), StrPtr::null()),
        ObjcSelector::new(StrPtr::null(), StrPtr::null()),
        ObjcSelector::new(name("c"), name("v8@0:4")),
    ];
    let symtab = ObjcSymtab::new(refs, 0, 0, Vec::new()).unwrap();
    let mut walk = symtab.iter_selector();
    assert!(walk.next().unwrap().get_id() == &name("a"));
    let second = walk.next().unwrap();
    assert!(second.get_id() == &name("b"));
    assert!(second.get_types().is_null());
    assert!(walk.next().is_none());
    assert!(walk.next().is_none());

    // the array may also just end
    let refs = vec![ObjcSelector::new(name("a"), name("v8@0:4"))];
    let symtab = ObjcSymtab::new(refs, 0, 0, Vec::new()).unwrap();
    let mut walk = symtab.iter_selector();
    assert!(walk.next().is_some());
    assert!(walk.next().is_none());
}

#[test]
fn selector_map_holds_what_the_module_declares() {
    let refs = vec![
        ObjcSelector::new(name("a"), name("v8@0:4")),
        ObjcSelector::new(name("b"), StrPtr::null()),
        ObjcSelector::new(name("a"), name("v8@0:4")),
        ObjcSelector::new(name("a"), name("i8@0:4")),
        ObjcSelector::new(StrPtr::null(), StrPtr::null()),
        ObjcSelector::new(name("z"), name("v8@0:4")),
    ];
    let symtab = ObjcSymtab::new(refs, 0, 0, Vec::new()).unwrap();
    let mut table = SelectorTable::new(KeyPolicy::NameAndTypes);
    let first = table.intern(&name("early"), &name("v8@0:4")).unwrap();
    assert_eq!(first.as_ptr(), 1);
    let map = symtab.create_selector_map(&mut table);
    // "b" has no type encoding and is passed over; the second "a" is the first,
    // and the map holds it once
    assert_eq!(table.len(), 3);
    assert_eq!(map.len(), 2);
    assert_eq!(map.get(&name("a"), &name("v8@0:4")).map(|s| s.as_ptr()), Some(2));
    assert_eq!(map.get(&name("a"), &name("i8@0:4")).map(|s| s.as_ptr()), Some(3));
    assert!(map.get(&name("b"), &StrPtr::null()).is_none());
    assert!(map.get(&name("z"), &name("v8@0:4")).is_none());
    // the module's map does not hold what only other modules declared
    assert!(map.get(&name("early"), &name("v8@0:4")).is_none());
    assert!(map.policy() == KeyPolicy::NameAndTypes);

    let mut lenient = SelectorTable::new(KeyPolicy::NameOnly);
    let map = symtab.create_selector_map(&mut lenient);
    assert_eq!(lenient.len(), 2);
    assert_eq!(map.len(), 2);
    assert!(map.policy() == KeyPolicy::NameOnly);
    assert_eq!(map.get(&name("a"), &name("anything")).map(|s| s.as_ptr()), Some(1));
    assert_eq!(map.get(&name("b"), &name("v")).map(|s| s.as_ptr()), Some(2));
    assert!(lenient.get(Ptr::new(2)).unwrap().get_types().is_null());
}

#[test]
fn intern_gives_one_identity_per_selector() {
    let mut table = SelectorTable::new(KeyPolicy::NameAndTypes);
    assert!(table.policy() == KeyPolicy::NameAndTypes);
    assert_eq!(table.len(), 0);
    assert!(table.lookup(&name("length"), &name("i8@0:")).is_none());
    let first = table.intern(&name("length"), &name("i8@0:")).unwrap();
    let again = table.intern(&name("length"), &name("i8@0:")).unwrap();
    let other = table.intern(&name("count"), &name("i8@0:")).unwrap();
    let wide = table.intern(&name("length"), &name("q8@0:")).unwrap();
    assert_eq!(first.as_ptr(), 1);
    assert_eq!(again.as_ptr(), 1);
    assert_eq!(other.as_ptr(), 2);
    assert_eq!(wide.as_ptr(), 3);
    assert_eq!(table.len(), 3);
    assert_eq!(table.lookup(&name("length"), &name("i8@0:")).map(|s| s.as_ptr()), Some(1));
    assert_eq!(table.lookup(&name("length"), &name("q8@0:")).map(|s| s.as_ptr()), Some(3));
    assert!(table.lookup(&name("length"), &StrPtr::null()).is_none());
    assert!(table.get(first).unwrap().get_id() == &name("length"));
    assert!(table.get(Ptr::new(4)).is_none());
}

#[test]
fn intern_refuses_a_selector_without_a_name() {
    let mut strict = SelectorTable::new(KeyPolicy::NameAndTypes);
    assert!(strict.intern(&StrPtr::null(), &name("v8@0:4")).is_none());
    assert!(strict.intern(&name("run"), &StrPtr::null()).is_none());
    assert_eq!(strict.len(), 0);

    let mut lenient = SelectorTable::new(KeyPolicy::NameOnly);
    assert!(lenient.intern(&StrPtr::null(), &name("v8@0:4")).is_none());
    assert_eq!(lenient.intern(&name("run"), &StrPtr::null()).map(|s| s.as_ptr()), Some(1));
    assert_eq!(lenient.intern(&name("run"), &name("v8@0:4")).map(|s| s.as_ptr()), Some(1));
    assert_eq!(lenient.len(), 1);
}

#[test]
fn module_keeps_what_it_was_made_of() {
    let symtab = ObjcSymtab::new(Vec::new(), 0, 0, Vec::new()).unwrap();
    let module = ObjcModule::new(8, 32, name("main.m"), symtab);
    assert_eq!(module.version(), 8);
    assert_eq!(module.size(), 32);
    assert!(module.name() == &name("main.m"));
    assert_eq!(module.symtab().cls_def_cnt(), 0);
}

#[test]
fn object_can_change_its_class() {
    let mut object = ObjcObject::new(Ptr::new(2), 4);
    assert_eq!(object.get_class_pointer().as_ptr(), 2);
    assert_eq!(object.body(), &vec![0u8; 4]);
    object.initialize(Ptr::new(6));
    assert_eq!(object.get_class_pointer().as_ptr(), 6);
    assert_eq!(object.size(), 4);
    assert_eq!(ObjcObject::new(Ptr::new(1), 0).size(), 0);
}

#[test]
fn empty_context_holds_nothing() {
    let ctx = Context::new();
    assert_eq!(ctx.class_count(), 0);
    assert!(ctx.class(Ptr::new(1)).is_none());
    assert!(ctx.method(Ptr::new(1)).is_none());
    assert!(ctx.category(Ptr::new(1)).is_none());
    assert!(ctx.object(Ptr::new(1)).is_none());
    assert!(ctx.selectors().policy() == KeyPolicy::NameAndTypes);
    assert!(Context::with_policy(KeyPolicy::NameOnly).selectors().policy() == KeyPolicy::NameOnly);
    assert!(ctx.orphan_classes().is_empty());
    assert!(ctx.unresolved_methods().is_empty());
    assert!(ctx.unresolved_categories().is_empty());
}

#[test]
fn definitions_can_be_rewritten_in_place() {
    let defs: Vec<Ptr<()>> = vec![Ptr::new(10), Ptr::new(20), Ptr::new(30)];
    let mut symtab = ObjcSymtab::new(Vec::new(), 2, 1, defs).unwrap();
    *symtab.nth_class_ptr_mut(1).unwrap() = Ptr::new(21);
    *symtab.nth_category_ptr_mut(0).unwrap() = Ptr::new(31);
    assert!(symtab.nth_class_ptr_mut(2).is_none());
    assert!(symtab.nth_category_ptr_mut(1).is_none());
    assert_eq!(symtab.nth_class_ptr(0).map(|p| p.as_ptr()), Some(10));
    assert_eq!(symtab.nth_class_ptr(1).map(|p| p.as_ptr()), Some(21));
    assert_eq!(symtab.nth_category_ptr(0).map(|p| p.as_ptr()), Some(31));

    let mut module = ObjcModule::new(8, 32, name("main.m"), symtab);
    *module.symtab_mut().nth_class_ptr_mut(0).unwrap() = Ptr::new(11);
    assert_eq!(module.symtab().nth_class_ptr(0).map(|p| p.as_ptr()), Some(11));

    let mut class = ObjcClass::new(None, StrPtr::null(), name("A"), 0, 1, 0, None, None);
    *class.class_pointer_mut() = Some(Ptr::new(4));
    assert_eq!(class.class_pointer().map(|p| p.as_ptr()), Some(4));
}

#[test]
fn handle_reads_its_record_through_the_context() {
    let mut ctx = Context::new();
    let method = ctx
        .place_method(ObjcMethod::new(name("run"), name("v8@0:4"), Ptr::new(0x10)))
        .unwrap();
    assert_eq!(method.as_ref(&ctx).unwrap().imp().as_ptr(), 0x10);
    let stray: Ptr<ObjcMethod> = Ptr::new(9);
    assert!(stray.as_ref(&ctx).is_none());

    let class = ctx
        .place_class(ObjcClass::new(None, StrPtr::null(), name("A"), 0, 2, 0, None, None))
        .unwrap();
    assert!(class.as_ref(&ctx).unwrap().get_name() == &name("A"));
    let stray: Ptr<ObjcClass> = Ptr::new(9);
    assert!(stray.as_ref(&ctx).is_none());

    let category = ctx
        .place_category(objc_runtime::category::ObjcCategory::new(
            name("Extra"),
            name("A"),
            None,
            None,
        ))
        .unwrap();
    assert!(category.as_ref(&ctx).unwrap().category_name() == &name("Extra"));
    assert!(category.as_ref(&ctx).unwrap().class_name() == &name("A"));
    assert!(category.as_ref(&ctx).unwrap().instance_methods().is_none());
    assert!(category.as_ref(&ctx).unwrap().class_methods().is_none());

    let object = ctx.create_instance(class, 3).unwrap();
    assert_eq!(object.as_ref(&ctx).unwrap().size(), 3);
    let stray: Ptr<ObjcObject> = Ptr::new(9);
    assert!(stray.as_ref(&ctx).is_none());

    let stray: Ptr<ObjcSelector> = Ptr::new(1);
    assert!(stray.as_ref(&ctx).is_none());
}

#[test]
fn category_queues_its_methods_for_its_class() {
    let mut table = ClassTable::new();
    table.register("Calc", ClassTableEntry::new(Ptr::new(2), Ptr::new(1)));
    let mut category = objc_runtime::category::ObjcCategory::new(
        name("Extra"),
        name("Calc"),
        Some(list(&[5, 6])),
        Some(list(&[7])),
    );
    category.initialize();
    let mut queue = vec![(Ptr::new(4), Ptr::new(4))];
    assert!(category.defer_resolving_methods(&table, &mut queue));
    let queued: Vec<(usize, usize)> = queue.iter().map(|(c, m)| (c.as_ptr(), m.as_ptr())).collect();
    assert_eq!(queued, vec![(4, 4), (2, 5), (2, 6), (1, 7)]);

    let elsewhere = objc_runtime::category::ObjcCategory::new(
        name("Extra"),
        name("Text"),
        Some(list(&[5])),
        None,
    );
    assert!(!elsewhere.defer_resolving_methods(&table, &mut queue));
    assert_eq!(queue.len(), 4);
    let unnamed = objc_runtime::category::ObjcCategory::new(
        name("Extra"),
        StrPtr::null(),
        Some(list(&[5])),
        None,
    );
    assert!(!unnamed.defer_resolving_methods(&table, &mut queue));
    assert_eq!(queue.len(), 4);
}
