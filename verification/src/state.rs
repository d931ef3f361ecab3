//! The state of the runtime as plain values: what loading and dispatch do to
//! it, the invariant that every step keeps, and why each step keeps it.

use crate::category::CategoryView;
use crate::category::ObjcCategory;
use crate::class::built;
use crate::class::entered;
use crate::class::paired_with;
use crate::class::Built;
use crate::class::ClassView;
use crate::class::ObjcClass;
use crate::context::ClassTableEntry;
use crate::method::MethodView;
use crate::method::ObjcMethod;
use crate::method::Procedure;
use crate::module::declared_under;
use crate::module::found_in;
use crate::module::interned_all;
use crate::module::lemma_found_in_sound;
use crate::module::lemma_interned_all_wf;
use crate::module::sound_under;
use crate::module::SymtabView;
use crate::object::zeros;
use crate::object::ObjcObject;
use crate::object::ObjectView;
use crate::ptr::Ptr;
use crate::selector::ObjcSelector;
use crate::selector::SelectorTableView;
use crate::selector::SelectorView;
use vstd::prelude::*;

verus! {

/// The state of the runtime as plain values.
pub ghost struct ContextView {
    /// The class arena: every class and metaclass record placed so far.
    pub classes: Seq<ClassView>,
    /// The method arena.
    pub methods: Seq<MethodView>,
    /// The category arena.
    pub categories: Seq<CategoryView>,
    /// The instances made so far; `None` in the place of one that was
    /// disposed of.
    pub objects: Seq<Option<ObjectView>>,
    /// The selector table.
    pub selectors: SelectorTableView,
    /// The class registry.
    pub class_table: Map<Seq<char>, ClassTableEntry>,
    /// The classes whose superclass is not loaded yet, oldest first.
    pub orphan_classes: Seq<Ptr<ObjcClass>>,
    /// The methods that are not linked to a selector yet, each with the class
    /// that it belongs to, oldest first.
    pub unresolved_methods: Seq<(Ptr<ObjcClass>, Ptr<ObjcMethod>)>,
    /// The categories whose class is not loaded yet, oldest first.
    pub unresolved_categories: Seq<Ptr<ObjcCategory>>,
}

impl ContextView {
    /// Whether `p` names a record of the class arena.
    pub open spec fn has_class(self, p: Ptr<ObjcClass>) -> bool {
        p.within(self.classes.len())
    }

    /// The class record that `p` names.
    pub open spec fn class(self, p: Ptr<ObjcClass>) -> ClassView {
        self.classes[p.index()]
    }

    /// Whether `m` names a record of the method arena.
    pub open spec fn has_method(self, m: Ptr<ObjcMethod>) -> bool {
        m.within(self.methods.len())
    }

    /// The method record that `m` names.
    pub open spec fn method(self, m: Ptr<ObjcMethod>) -> MethodView {
        self.methods[m.index()]
    }

    /// Whether `k` names a record of the category arena.
    pub open spec fn has_category(self, k: Ptr<ObjcCategory>) -> bool {
        k.within(self.categories.len())
    }

    /// The category record that `k` names.
    pub open spec fn category(self, k: Ptr<ObjcCategory>) -> CategoryView {
        self.categories[k.index()]
    }

    /// Whether `o` names an instance.
    pub open spec fn has_object(self, o: Ptr<ObjcObject>) -> bool {
        o.within(self.objects.len()) && self.objects[o.index()].is_some()
    }

    /// The instance that `o` names.
    pub open spec fn object(self, o: Ptr<ObjcObject>) -> ObjectView {
        self.objects[o.index()].unwrap()
    }

    /// Whether every one of `methods` names a record of the method arena.
    pub open spec fn has_methods(self, methods: Seq<Ptr<ObjcMethod>>) -> bool {
        forall|k: int| 0 <= k < methods.len() ==> self.has_method(#[trigger] methods[k])
    }

    /// Whether the dispatch-table entry `w -> m` is sound: `m` is a method of
    /// the arena, `w` is the word of a selector of the table, the method is
    /// linked to that selector, and that selector is the one that the table
    /// gives to the method's name and type encoding.
    pub open spec fn entry_wf(self, w: usize, m: Ptr<ObjcMethod>) -> bool {
        &&& self.has_method(m)
        &&& 1 <= w <= self.selectors.entries.len()
        &&& self.method(m).name == Some(Ptr::<ObjcSelector>::at(w - 1))
        &&& self.selectors.same_key(
            self.selectors.entries[w - 1],
            self.method(m).raw_name,
            self.method(m).types,
        )
    }

    /// Whether the class record `c` fits the arenas around it.
    pub open spec fn class_wf(self, c: ClassView) -> bool {
        &&& c.class_pointer matches Some(m) ==> self.has_class(m)
        &&& c.super_pointer matches Some(s) ==> self.has_class(s) && self.class(s).is_meta()
            == c.is_meta()
        &&& self.has_methods(c.methods)
        &&& forall|w: usize| #[trigger] c.dtable.contains_key(w) ==> self.entry_wf(w, c.dtable[w])
    }

    /// Whether `entry`, registered under `name`, is a class of that name with
    /// its metaclass.
    pub open spec fn pair_wf(self, name: Seq<char>, entry: ClassTableEntry) -> bool {
        &&& self.has_class(entry.class())
        &&& self.has_class(entry.meta_class())
        &&& entry.class() != entry.meta_class()
        &&& self.class(entry.class()).is_class()
        &&& !self.class(entry.class()).is_meta()
        &&& self.class(entry.class()).class_pointer == Some(entry.meta_class())
        &&& self.class(entry.class()).name == Some(name)
        &&& self.class(entry.meta_class()).is_meta()
        &&& !self.class(entry.meta_class()).is_class()
    }

    /// The invariant of the runtime: every handle that the state holds names
    /// a record, the registry holds classes with their metaclasses, a
    /// superclass is of the same kind as its subclass, the dispatch tables
    /// hold linked methods under their selectors, and no method's code is the
    /// no-op procedure.
    pub open spec fn wf(self) -> bool {
        &&& self.selectors.wf()
        &&& forall|i: int| 0 <= i < self.classes.len() ==> self.class_wf(#[trigger] self.classes[i])
        &&& forall|name: Seq<char>| #[trigger]
            self.class_table.contains_key(name) ==> self.pair_wf(name, self.class_table[name])
        &&& forall|i: int|
            0 <= i < self.methods.len() ==> (#[trigger] self.methods[i]).imp
                != Procedure::null_procedure()
        &&& forall|i: int|
            0 <= i < self.categories.len() ==> self.has_methods(
                (#[trigger] self.categories[i]).instance_methods,
            ) && self.has_methods(self.categories[i].class_methods)
        &&& forall|i: int|
            0 <= i < self.objects.len() ==> ((#[trigger] self.objects[i]) matches Some(o)
                ==> self.has_class(o.class_pointer))
        &&& forall|i: int|
            0 <= i < self.orphan_classes.len() ==> self.has_class(#[trigger] self.orphan_classes[i])
        &&& forall|i: int|
            0 <= i < self.unresolved_methods.len() ==> self.has_class(
                (#[trigger] self.unresolved_methods[i]).0,
            ) && self.has_method(self.unresolved_methods[i].1)
        &&& forall|i: int|
            0 <= i < self.unresolved_categories.len() ==> self.has_category(
                #[trigger] self.unresolved_categories[i],
            )
    }

    /// The state with the record of class `p` replaced by `c`.
    pub open spec fn with_class(self, p: Ptr<ObjcClass>, c: ClassView) -> ContextView {
        ContextView { classes: self.classes.update(p.index(), c), ..self }
    }

    /// What the builder of the dispatch table of class `c` starts from.
    pub open spec fn building(self, c: Ptr<ObjcClass>) -> Built {
        Built {
            dtable: self.class(c).dtable,
            methods: self.methods,
            queue: self.unresolved_methods,
        }
    }

    /// The state with what the builder made for class `c`.
    pub open spec fn with_built(self, c: Ptr<ObjcClass>, b: Built) -> ContextView {
        ContextView {
            classes: self.classes.update(
                c.index(),
                ClassView { dtable: b.dtable, ..self.class(c) },
            ),
            methods: b.methods,
            unresolved_methods: b.queue,
            ..self
        }
    }

    /// The state after the dispatch table of class `p` was built through a
    /// module's selector map: the table holds each method of the class's
    /// chain that the map holds a selector for, under that selector, a later
    /// method in place of an earlier one; the other methods are queued in
    /// the order of the chain.
    pub open spec fn initialized(
        self,
        p: Ptr<ObjcClass>,
        map: Seq<(SelectorView, Ptr<ObjcSelector>)>,
    ) -> ContextView {
        self.with_built(
            p,
            built(
                Built { dtable: Map::empty(), ..self.building(p) },
                p,
                self.class(p).methods,
                map,
                self.selectors.policy,
            ),
        )
    }

    /// The state after a try to find the superclass of class `p` in the
    /// registry: the class linked, or else queued as an orphan.
    pub open spec fn super_linked(self, p: Ptr<ObjcClass>) -> ContextView {
        ContextView {
            classes: self.classes.update(p.index(), self.class(p).linked(self.class_table)),
            orphan_classes: if self.class(p).linkable(self.class_table) {
                self.orphan_classes
            } else {
                self.orphan_classes.push(p)
            },
            ..self
        }
    }

    /// Whether `p` can be loaded as a class: it names a record that is
    /// marked as a class and not as a metaclass and that has a name, and the
    /// record's own class is another record, marked as a metaclass and not
    /// as a class.
    pub open spec fn loadable(self, p: Ptr<ObjcClass>) -> bool {
        &&& self.has_class(p)
        &&& self.class(p).is_class()
        &&& !self.class(p).is_meta()
        &&& self.class(p).name.is_some()
        &&& self.class(p).class_pointer matches Some(m) && self.has_class(m) && m != p
            && self.class(m).is_meta() && !self.class(m).is_class()
    }

    /// The state after class `p` was entered in the registry with its
    /// metaclass, in place of any class of the same name.
    pub open spec fn registered(self, p: Ptr<ObjcClass>) -> ContextView {
        ContextView {
            class_table: self.class_table.insert(
                self.class(p).name.unwrap(),
                ClassTableEntry::new(p, self.class(p).class_pointer.unwrap()),
            ),
            ..self
        }
    }

    /// The state after the class definition `p` of a module was loaded. A
    /// definition that cannot be loaded changes nothing. Otherwise the class
    /// is made ready, then its metaclass; the class is linked to its
    /// superclass or queued, then the metaclass; and at last the pair is
    /// registered.
    pub open spec fn class_loaded(
        self,
        p: Ptr<ObjcClass>,
        map: Seq<(SelectorView, Ptr<ObjcSelector>)>,
    ) -> ContextView {
        if self.loadable(p) {
            let m = self.class(p).class_pointer.unwrap();
            self.initialized(p, map).initialized(m, map).super_linked(p).super_linked(
                m,
            ).registered(p)
        } else {
            self
        }
    }

    /// The state after the class definitions `defs` were loaded, in order.
    pub open spec fn classes_loaded(
        self,
        defs: Seq<Ptr<ObjcClass>>,
        map: Seq<(SelectorView, Ptr<ObjcSelector>)>,
    ) -> ContextView
        decreases defs.len(),
    {
        if defs.len() == 0 {
            self
        } else {
            self.classes_loaded(defs.drop_last(), map).class_loaded(defs.last(), map)
        }
    }

    /// The state with `methods` put in front of the chain of class `p`.
    pub open spec fn methods_prepended(
        self,
        p: Ptr<ObjcClass>,
        methods: Seq<Ptr<ObjcMethod>>,
    ) -> ContextView {
        self.with_class(p, ClassView { methods: methods + self.class(p).methods, ..self.class(p) })
    }

    /// The state after category `k` was attached to the class `entry`: its
    /// methods queued for linking, its instance methods put in front of the
    /// class's chain and its class methods in front of the metaclass's.
    pub open spec fn attached_to(self, k: Ptr<ObjcCategory>, entry: ClassTableEntry) -> ContextView {
        let queued = ContextView {
            unresolved_methods: self.unresolved_methods + self.category(k).deferred(entry),
            ..self
        };
        queued.methods_prepended(
            entry.class(),
            self.category(k).instance_methods,
        ).methods_prepended(entry.meta_class(), self.category(k).class_methods)
    }

    /// The state after a try to attach category `k`: attached where its
    /// class is registered, else queued. A handle that names no category
    /// changes nothing.
    pub open spec fn category_attached(self, k: Ptr<ObjcCategory>) -> ContextView {
        if !self.has_category(k) {
            self
        } else {
            match self.category(k).target(self.class_table) {
                Some(entry) => self.attached_to(k, entry),
                None => ContextView {
                    unresolved_categories: self.unresolved_categories.push(k),
                    ..self
                },
            }
        }
    }

    /// The state after the category definitions `defs` were loaded, in order.
    pub open spec fn categories_loaded(self, defs: Seq<Ptr<ObjcCategory>>) -> ContextView
        decreases defs.len(),
    {
        if defs.len() == 0 {
            self
        } else {
            self.categories_loaded(defs.drop_last()).category_attached(defs.last())
        }
    }

    /// The state after each class of `queue` was tried again, in order.
    pub open spec fn orphans_tried(self, queue: Seq<Ptr<ObjcClass>>) -> ContextView
        decreases queue.len(),
    {
        if queue.len() == 0 {
            self
        } else {
            self.orphans_tried(queue.drop_last()).super_linked(queue.last())
        }
    }

    /// The state after one pass over the orphan queue: every orphan tried
    /// again, those still without a superclass queued anew in their order.
    pub open spec fn orphans_pass(self) -> ContextView {
        (ContextView { orphan_classes: Seq::empty(), ..self }).orphans_tried(self.orphan_classes)
    }

    /// The state after the orphan queue was drained: passes are made while
    /// the queue is not empty and the pass before made it shorter.
    pub open spec fn orphans_drained(self) -> ContextView
        decreases self.orphan_classes.len(),
    {
        if self.orphan_classes.len() == 0 {
            self
        } else {
            let next = self.orphans_pass();
            if next.orphan_classes.len() < self.orphan_classes.len() {
                next.orphans_drained()
            } else {
                next
            }
        }
    }

    /// The number of passes that the drain of the orphan queue makes.
    pub open spec fn orphan_passes(self) -> nat
        decreases self.orphan_classes.len(),
    {
        if self.orphan_classes.len() == 0 {
            0
        } else {
            let next = self.orphans_pass();
            if next.orphan_classes.len() < self.orphan_classes.len() {
                1 + next.orphan_passes()
            } else {
                1
            }
        }
    }

    /// The state after each category of `queue` was tried again, in order.
    pub open spec fn categories_tried(self, queue: Seq<Ptr<ObjcCategory>>) -> ContextView
        decreases queue.len(),
    {
        if queue.len() == 0 {
            self
        } else {
            self.categories_tried(queue.drop_last()).category_attached(queue.last())
        }
    }

    /// The state after one pass over the queue of unattached categories.
    pub open spec fn categories_pass(self) -> ContextView {
        (ContextView { unresolved_categories: Seq::empty(), ..self }).categories_tried(
            self.unresolved_categories,
        )
    }

    /// The state after the queue of unattached categories was drained, by
    /// the same rule as the orphan queue.
    pub open spec fn categories_drained(self) -> ContextView
        decreases self.unresolved_categories.len(),
    {
        if self.unresolved_categories.len() == 0 {
            self
        } else {
            let next = self.categories_pass();
            if next.unresolved_categories.len() < self.unresolved_categories.len() {
                next.categories_drained()
            } else {
                next
            }
        }
    }

    /// The number of passes that the drain of the category queue makes.
    pub open spec fn category_passes(self) -> nat
        decreases self.unresolved_categories.len(),
    {
        if self.unresolved_categories.len() == 0 {
            0
        } else {
            let next = self.categories_pass();
            if next.unresolved_categories.len() < self.unresolved_categories.len() {
                1 + next.category_passes()
            } else {
                1
            }
        }
    }

    /// The state after a try to link method `m` of class `c` through a
    /// module's selector map: where the map holds the method's name and type
    /// encoding, the method is linked to that selector and entered in the
    /// class's dispatch table under it, in place of what was there; else the
    /// method is queued again.
    pub open spec fn method_linked(
        self,
        c: Ptr<ObjcClass>,
        m: Ptr<ObjcMethod>,
        map: Seq<(SelectorView, Ptr<ObjcSelector>)>,
    ) -> ContextView {
        self.with_built(c, entered(self.building(c), c, m, map, self.selectors.policy))
    }

    /// The state after each method of `queue` was tried, in order.
    pub open spec fn methods_tried(
        self,
        queue: Seq<(Ptr<ObjcClass>, Ptr<ObjcMethod>)>,
        map: Seq<(SelectorView, Ptr<ObjcSelector>)>,
    ) -> ContextView
        decreases queue.len(),
    {
        if queue.len() == 0 {
            self
        } else {
            self.methods_tried(queue.drop_last(), map).method_linked(
                queue.last().0,
                queue.last().1,
                map,
            )
        }
    }

    /// The state after one pass over the queue of unlinked methods.
    pub open spec fn methods_pass(self, map: Seq<(SelectorView, Ptr<ObjcSelector>)>) -> ContextView {
        (ContextView { unresolved_methods: Seq::empty(), ..self }).methods_tried(
            self.unresolved_methods,
            map,
        )
    }

    /// The state after the queue of unlinked methods was drained through a
    /// module's selector map, by the same rule as the orphan queue.
    pub open spec fn methods_drained(
        self,
        map: Seq<(SelectorView, Ptr<ObjcSelector>)>,
    ) -> ContextView
        decreases self.unresolved_methods.len(),
    {
        if self.unresolved_methods.len() == 0 {
            self
        } else {
            let next = self.methods_pass(map);
            if next.unresolved_methods.len() < self.unresolved_methods.len() {
                next.methods_drained(map)
            } else {
                next
            }
        }
    }

    /// The number of passes that the drain of the method queue makes.
    pub open spec fn method_passes(self, map: Seq<(SelectorView, Ptr<ObjcSelector>)>) -> nat
        decreases self.unresolved_methods.len(),
    {
        if self.unresolved_methods.len() == 0 {
            0
        } else {
            let next = self.methods_pass(map);
            if next.unresolved_methods.len() < self.unresolved_methods.len() {
                1 + next.method_passes(map)
            } else {
                1
            }
        }
    }

    /// The state after the module's selector references were interned and
    /// the queue of unlinked methods was drained through the module's map.
    pub open spec fn selectors_linked(self, refs: Seq<SelectorView>) -> ContextView {
        let interned = ContextView { selectors: interned_all(self.selectors, refs), ..self };
        interned.methods_drained(declared_under(interned.selectors, refs))
    }

    /// The number of passes that the drain of the method queue makes when a
    /// module that declares the selector references `refs` is linked.
    pub open spec fn link_passes(self, refs: Seq<SelectorView>) -> nat {
        let interned = ContextView { selectors: interned_all(self.selectors, refs), ..self };
        interned.method_passes(declared_under(interned.selectors, refs))
    }

    /// The state after the selector references `refs` were interned.
    pub open spec fn selectors_declared(self, refs: Seq<SelectorView>) -> ContextView {
        ContextView { selectors: interned_all(self.selectors, refs), ..self }
    }

    /// The state after a module with the symbol table `symtab` was loaded:
    /// its selector references are interned, which gives the module's map;
    /// its classes are loaded through that map, then its categories; then
    /// come the drain of the orphan queue, of the category queue and, through
    /// the map, of the method queue.
    pub open spec fn module_loaded(self, symtab: SymtabView) -> ContextView {
        let declared = self.selectors_declared(symtab.selectors());
        let map = declared_under(declared.selectors, symtab.selectors());
        declared.classes_loaded(symtab.classes(), map).categories_loaded(
            symtab.categories(),
        ).orphans_drained().categories_drained().methods_drained(map)
    }

    /// The method that answers `selector` for the class record `c`: the one
    /// in the record's own dispatch table, or else the answer of the
    /// superclass. The walk up gives up after `fuel` steps.
    pub open spec fn resolved(self, c: ClassView, selector: Ptr<ObjcSelector>, fuel: nat) -> Option<
        Ptr<ObjcMethod>,
    >
        decreases fuel,
    {
        match c.own_method(selector) {
            Some(m) => Some(m),
            None => match c.super_pointer {
                Some(s) => if fuel > 0 && self.has_class(s) {
                    self.resolved(self.class(s), selector, (fuel - 1) as nat)
                } else {
                    None
                },
                None => None,
            },
        }
    }

    /// The method that answers `selector` for the class record `c`. The walk
    /// up the superclasses visits at most as many records as the arena
    /// holds: a longer walk would go in a circle.
    pub open spec fn resolve_method(self, c: ClassView, selector: Ptr<ObjcSelector>) -> Option<
        Ptr<ObjcMethod>,
    > {
        self.resolved(c, selector, self.classes.len())
    }
}

impl ContextView {
    /// Whether the state `next` holds the same arenas as this one but for
    /// the class records, each of which kept its own class, its name and its
    /// kind, and the method records, each of which kept its code.
    pub open spec fn same_frame(self, next: ContextView) -> bool {
        &&& next.classes.len() == self.classes.len()
        &&& next.methods.len() == self.methods.len()
        &&& forall|i: int|
            0 <= i < self.methods.len() ==> (#[trigger] next.methods[i]).imp == self.methods[i].imp
        &&& next.categories == self.categories
        &&& next.objects == self.objects
        &&& forall|i: int|
            0 <= i < self.classes.len() ==> (#[trigger] next.classes[i]).class_pointer
                == self.classes[i].class_pointer && next.classes[i].name == self.classes[i].name
                && next.classes[i].info == self.classes[i].info
    }

    /// The registry stays sound while the class records keep their own
    /// class, their name and their kind.
    pub proof fn lemma_frame_keeps_pairs(self, next: ContextView)
        requires
            self.wf(),
            self.same_frame(next),
            next.class_table == self.class_table,
        ensures
            forall|name: Seq<char>| #[trigger]
                next.class_table.contains_key(name) ==> next.pair_wf(name, next.class_table[name]),
            forall|i: int|
                0 <= i < next.categories.len() ==> next.has_methods(
                    (#[trigger] next.categories[i]).instance_methods,
                ) && next.has_methods(next.categories[i].class_methods),
            forall|i: int|
                0 <= i < next.objects.len() ==> ((#[trigger] next.objects[i]) matches Some(o)
                    ==> next.has_class(o.class_pointer)),
            forall|i: int|
                0 <= i < next.methods.len() ==> (#[trigger] next.methods[i]).imp
                    != Procedure::null_procedure(),
    {
        assert forall|name: Seq<char>| #[trigger] next.class_table.contains_key(name) implies next.pair_wf(
            name,
            next.class_table[name],
        ) by {
            assert(self.pair_wf(name, self.class_table[name]));
        }
    }

    /// The class records and the registry stay sound while the class arena
    /// and the method arena only grow and the selector table and the
    /// registry stay as they are.
    pub proof fn lemma_grown_keeps(self, next: ContextView)
        requires
            self.wf(),
            next.selectors == self.selectors,
            next.class_table == self.class_table,
            self.classes.len() <= next.classes.len(),
            forall|i: int| 0 <= i < self.classes.len() ==> #[trigger] next.classes[i] == self.classes[i],
            self.methods.len() <= next.methods.len(),
            forall|i: int| 0 <= i < self.methods.len() ==> #[trigger] next.methods[i] == self.methods[i],
        ensures
            forall|i: int| 0 <= i < self.classes.len() ==> next.class_wf(#[trigger] next.classes[i]),
            forall|name: Seq<char>| #[trigger]
                next.class_table.contains_key(name) ==> next.pair_wf(name, next.class_table[name]),
    {
        assert forall|i: int| 0 <= i < self.classes.len() implies next.class_wf(
            #[trigger] next.classes[i],
        ) by {
            let c = self.classes[i];
            assert(self.class_wf(c));
            assert forall|w: usize| #[trigger] c.dtable.contains_key(w) implies next.entry_wf(
                w,
                c.dtable[w],
            ) by {
                assert(self.entry_wf(w, c.dtable[w]));
            }
        }
        assert forall|name: Seq<char>| #[trigger] next.class_table.contains_key(name) implies next.pair_wf(
            name,
            next.class_table[name],
        ) by {
            assert(self.pair_wf(name, self.class_table[name]));
        }
    }

    /// A class record that was sound before is sound after, where it kept
    /// its superclass, its methods and its dispatch table and no method
    /// record changed.
    pub proof fn lemma_frame_keeps_class(self, next: ContextView, c: ClassView)
        requires
            self.wf(),
            self.same_frame(next),
            self.class_wf(c),
            next.methods == self.methods,
            next.selectors == self.selectors,
        ensures
            next.class_wf(c),
    {
        assert forall|w: usize| #[trigger] c.dtable.contains_key(w) implies next.entry_wf(
            w,
            c.dtable[w],
        ) by {
            assert(self.entry_wf(w, c.dtable[w]));
        }
    }

    /// Emptying the dispatch table of a class keeps the invariant.
    pub proof fn lemma_emptied_wf(self, p: Ptr<ObjcClass>)
        requires
            self.wf(),
            self.has_class(p),
        ensures
            self.with_class(p, ClassView { dtable: Map::empty(), ..self.class(p) }).wf(),
            self.same_frame(
                self.with_class(p, ClassView { dtable: Map::empty(), ..self.class(p) }),
            ),
    {
        let next = self.with_class(p, ClassView { dtable: Map::empty(), ..self.class(p) });
        assert(self.class_wf(self.classes[p.index()]));
        self.lemma_frame_keeps_pairs(next);
        assert forall|i: int| 0 <= i < next.classes.len() implies next.class_wf(
            #[trigger] next.classes[i],
        ) by {
            assert(self.class_wf(self.classes[i]));
            if i == p.index() {
                let c = next.classes[i];
                assert(c.dtable =~= Map::empty());
            } else {
                self.lemma_frame_keeps_class(next, self.classes[i]);
            }
        }
    }

    /// Two steps that each keep the frame keep it together.
    pub proof fn lemma_same_frame_twice(self, mid: ContextView, next: ContextView)
        requires
            self.same_frame(mid),
            mid.same_frame(next),
        ensures
            self.same_frame(next),
    {
        assert forall|i: int| 0 <= i < self.classes.len() implies (#[trigger] next.classes[i]).class_pointer
            == self.classes[i].class_pointer && next.classes[i].name == self.classes[i].name
            && next.classes[i].info == self.classes[i].info by {
            assert(mid.classes[i].info == self.classes[i].info);
        }
        assert forall|i: int| 0 <= i < self.methods.len() implies (#[trigger] next.methods[i]).imp
            == self.methods[i].imp by {
            assert(mid.methods[i].imp == self.methods[i].imp);
        }
    }

    /// What a run of tries to link methods leaves of the state: the
    /// invariant, the frame, the registry, the selector table, the other
    /// queues, and of every method its name as spelled, its type encoding
    /// and its code.
    pub proof fn lemma_methods_tried_keeps(
        self,
        queue: Seq<(Ptr<ObjcClass>, Ptr<ObjcMethod>)>,
        map: Seq<(SelectorView, Ptr<ObjcSelector>)>,
    )
        requires
            self.wf(),
            sound_under(self.selectors, map),
            forall|k: int|
                0 <= k < queue.len() ==> self.has_class((#[trigger] queue[k]).0) && self.has_method(
                    queue[k].1,
                ),
        ensures
            self.methods_tried(queue, map).wf(),
            self.same_frame(self.methods_tried(queue, map)),
            self.methods_tried(queue, map).selectors == self.selectors,
            self.methods_tried(queue, map).class_table == self.class_table,
            self.methods_tried(queue, map).orphan_classes == self.orphan_classes,
            self.methods_tried(queue, map).unresolved_categories == self.unresolved_categories,
            forall|i: int|
                0 <= i < self.methods.len() ==> (#[trigger] self.methods_tried(
                    queue,
                    map,
                ).methods[i]).raw_name == self.methods[i].raw_name && self.methods_tried(
                    queue,
                    map,
                ).methods[i].types == self.methods[i].types,
            forall|i: int|
                0 <= i < self.classes.len() ==> (#[trigger] self.methods_tried(
                    queue,
                    map,
                ).classes[i]).super_pointer == self.classes[i].super_pointer && self.methods_tried(
                    queue,
                    map,
                ).classes[i].super_name == self.classes[i].super_name && self.methods_tried(
                    queue,
                    map,
                ).classes[i].methods == self.classes[i].methods,
        decreases queue.len(),
    {
        if queue.len() > 0 {
            let front = queue.drop_last();
            assert forall|k: int| 0 <= k < front.len() implies self.has_class(
                (#[trigger] front[k]).0,
            ) && self.has_method(front[k].1) by {
                assert(front[k] == queue[k]);
            }
            self.lemma_methods_tried_keeps(front, map);
            let mid = self.methods_tried(front, map);
            let (c, m) = queue.last();
            assert(queue[queue.len() - 1] == (c, m));
            mid.lemma_method_linked_wf(c, m, map);
            self.lemma_same_frame_twice(mid, self.methods_tried(queue, map));
        }
    }

    /// Building a table is trying each method of the chain, first to last.
    pub proof fn lemma_built_is_tried(
        self,
        p: Ptr<ObjcClass>,
        chain: Seq<Ptr<ObjcMethod>>,
        map: Seq<(SelectorView, Ptr<ObjcSelector>)>,
    )
        requires
            self.has_class(p),
        ensures
            self.with_built(p, built(self.building(p), p, chain, map, self.selectors.policy))
                == self.methods_tried(paired_with(p, chain), map),
            self.methods_tried(paired_with(p, chain), map).selectors == self.selectors,
            self.methods_tried(paired_with(p, chain), map).classes.len() == self.classes.len(),
        decreases chain.len(),
    {
        let policy = self.selectors.policy;
        if chain.len() == 0 {
            assert(self.with_built(p, self.building(p)).classes =~= self.classes);
            assert(paired_with(p, chain) =~= Seq::empty());
        } else {
            let front = chain.drop_last();
            let m = chain.last();
            self.lemma_built_is_tried(p, front, map);
            let b = built(self.building(p), p, front, map, policy);
            let mid = self.methods_tried(paired_with(p, front), map);
            assert(paired_with(p, chain).drop_last() =~= paired_with(p, front));
            assert(paired_with(p, chain).last() == (p, m));
            assert(mid.building(p) == b);
            let e = entered(b, p, m, map, policy);
            assert(mid.with_built(p, e).classes =~= self.with_built(p, e).classes);
        }
    }

    /// Building the dispatch table of a class keeps the invariant.
    pub proof fn lemma_initialized_wf(
        self,
        p: Ptr<ObjcClass>,
        map: Seq<(SelectorView, Ptr<ObjcSelector>)>,
    )
        requires
            self.wf(),
            self.has_class(p),
            sound_under(self.selectors, map),
        ensures
            self.initialized(p, map).wf(),
            self.same_frame(self.initialized(p, map)),
            self.initialized(p, map).selectors == self.selectors,
            self.initialized(p, map) == self.with_class(
                p,
                ClassView { dtable: Map::empty(), ..self.class(p) },
            ).methods_tried(paired_with(p, self.class(p).methods), map),
    {
        let emptied = self.with_class(p, ClassView { dtable: Map::empty(), ..self.class(p) });
        let chain = self.class(p).methods;
        self.lemma_emptied_wf(p);
        emptied.lemma_built_is_tried(p, chain, map);
        assert(emptied.building(p) == (Built { dtable: Map::empty(), ..self.building(p) }));
        let b = built(emptied.building(p), p, chain, map, self.selectors.policy);
        assert(emptied.with_built(p, b).classes =~= self.with_built(p, b).classes);
        assert(self.class_wf(self.classes[p.index()]));
        assert forall|k: int| 0 <= k < paired_with(p, chain).len() implies emptied.has_class(
            (#[trigger] paired_with(p, chain)[k]).0,
        ) && emptied.has_method(paired_with(p, chain)[k].1) by {
            assert(self.has_method(chain[k]));
        }
        emptied.lemma_methods_tried_keeps(paired_with(p, chain), map);
        self.lemma_same_frame_twice(emptied, self.initialized(p, map));
    }

    /// A try to link a class to its superclass keeps the invariant.
    pub proof fn lemma_super_linked_wf(self, p: Ptr<ObjcClass>)
        requires
            self.wf(),
            self.has_class(p),
        ensures
            self.super_linked(p).wf(),
            self.same_frame(self.super_linked(p)),
    {
        let next = self.super_linked(p);
        let old_c = self.class(p);
        assert(self.class_wf(self.classes[p.index()]));
        self.lemma_frame_keeps_pairs(next);
        assert forall|i: int| 0 <= i < next.classes.len() implies next.class_wf(
            #[trigger] next.classes[i],
        ) by {
            assert(self.class_wf(self.classes[i]));
            self.lemma_frame_keeps_class(next, self.classes[i]);
            if i == p.index() {
                let c = next.classes[i];
                assert(c == old_c.linked(self.class_table));
                if old_c.super_name.is_some() && self.class_table.contains_key(
                    old_c.super_name.unwrap(),
                ) {
                    let n = old_c.super_name.unwrap();
                    assert(self.pair_wf(n, self.class_table[n]));
                    assert forall|w: usize| #[trigger] c.dtable.contains_key(w) implies next.entry_wf(
                        w,
                        c.dtable[w],
                    ) by {
                        assert(self.entry_wf(w, old_c.dtable[w]));
                    }
                }
            }
        }
        assert forall|i: int| 0 <= i < next.orphan_classes.len() implies next.has_class(
            #[trigger] next.orphan_classes[i],
        ) by {
            if i < self.orphan_classes.len() {
                assert(next.orphan_classes[i] == self.orphan_classes[i]);
            }
        }
    }

    /// Registering a class that can be loaded keeps the invariant.
    pub proof fn lemma_registered_wf(self, p: Ptr<ObjcClass>)
        requires
            self.wf(),
            self.loadable(p),
        ensures
            self.registered(p).wf(),
            self.same_frame(self.registered(p)),
    {
        let next = self.registered(p);
        let name = self.class(p).name.unwrap();
        let m = self.class(p).class_pointer.unwrap();
        broadcast use ClassTableEntry::lemma_new;

        assert forall|n: Seq<char>| #[trigger] next.class_table.contains_key(n) implies next.pair_wf(
            n,
            next.class_table[n],
        ) by {
            if n != name {
                assert(self.pair_wf(n, self.class_table[n]));
            }
        }
        assert forall|i: int| 0 <= i < next.classes.len() implies next.class_wf(
            #[trigger] next.classes[i],
        ) by {
            assert(self.class_wf(self.classes[i]));
        }
    }

}

impl ContextView {
    /// Attaching a category to its class keeps the invariant.
    pub proof fn lemma_attached_wf(self, k: Ptr<ObjcCategory>, entry: ClassTableEntry)
        requires
            self.wf(),
            self.has_category(k),
            self.category(k).target(self.class_table) == Some(entry),
        ensures
            self.attached_to(k, entry).wf(),
            self.same_frame(self.attached_to(k, entry)),
    {
        let next = self.attached_to(k, entry);
        let cat = self.category(k);
        let name = cat.class_name.unwrap();
        let c = entry.class();
        let m = entry.meta_class();
        assert(self.pair_wf(name, self.class_table[name]));
        assert(self.has_methods(self.categories[k.index()].instance_methods));
        assert(self.has_methods(cat.class_methods));
        assert(self.class_wf(self.classes[c.index()]));
        assert(self.class_wf(self.classes[m.index()]));
        self.lemma_frame_keeps_pairs(next);
        assert forall|i: int| 0 <= i < next.classes.len() implies next.class_wf(
            #[trigger] next.classes[i],
        ) by {
            assert(self.class_wf(self.classes[i]));
            self.lemma_frame_keeps_class(next, self.classes[i]);
            let r = next.classes[i];
            assert forall|w: usize| #[trigger] r.dtable.contains_key(w) implies next.entry_wf(
                w,
                r.dtable[w],
            ) by {
                assert(self.entry_wf(w, self.classes[i].dtable[w]));
            }
            assert forall|j: int| 0 <= j < r.methods.len() implies next.has_method(
                #[trigger] r.methods[j],
            ) by {
                if i == m.index() {
                    if j < cat.class_methods.len() {
                        assert(r.methods[j] == cat.class_methods[j]);
                    } else {
                        assert(r.methods[j] == self.classes[i].methods[j - cat.class_methods.len()]);
                    }
                } else if i == c.index() {
                    if j < cat.instance_methods.len() {
                        assert(r.methods[j] == cat.instance_methods[j]);
                    } else {
                        assert(r.methods[j] == self.classes[i].methods[j
                            - cat.instance_methods.len()]);
                    }
                } else {
                    assert(r.methods[j] == self.classes[i].methods[j]);
                }
            }
        }
        assert forall|i: int| 0 <= i < next.unresolved_methods.len() implies next.has_class(
            (#[trigger] next.unresolved_methods[i]).0,
        ) && next.has_method(next.unresolved_methods[i].1) by {
            let n = self.unresolved_methods.len();
            if i < n {
                assert(next.unresolved_methods[i] == self.unresolved_methods[i]);
            } else if i < n + cat.instance_methods.len() {
                assert(next.unresolved_methods[i] == (c, cat.instance_methods[i - n]));
            } else {
                assert(next.unresolved_methods[i] == (
                    m,
                    cat.class_methods[i - n - cat.instance_methods.len()],
                ));
            }
        }
    }

    /// A try to attach a category keeps the invariant and the arenas.
    pub proof fn lemma_category_attached_wf(self, k: Ptr<ObjcCategory>)
        requires
            self.wf(),
        ensures
            self.category_attached(k).wf(),
            self.category_attached(k).classes.len() == self.classes.len(),
            self.category_attached(k).methods.len() == self.methods.len(),
            self.category_attached(k).categories == self.categories,
    {
        if self.has_category(k) {
            match self.category(k).target(self.class_table) {
                Some(entry) => {
                    self.lemma_attached_wf(k, entry);
                },
                None => {
                    let next = self.category_attached(k);
                    assert forall|i: int|
                        0 <= i < next.unresolved_categories.len() implies next.has_category(
                        #[trigger] next.unresolved_categories[i],
                    ) by {
                        if i < self.unresolved_categories.len() {
                            assert(next.unresolved_categories[i] == self.unresolved_categories[i]);
                        }
                    }
                    assert forall|i: int| 0 <= i < next.classes.len() implies next.class_wf(
                        #[trigger] next.classes[i],
                    ) by {
                        assert(self.class_wf(self.classes[i]));
                    }
                    assert forall|n: Seq<char>| #[trigger]
                        next.class_table.contains_key(n) implies next.pair_wf(
                        n,
                        next.class_table[n],
                    ) by {
                        assert(self.pair_wf(n, self.class_table[n]));
                    }
                },
            }
        }
    }

}

impl ContextView {
    /// The state with an emptied orphan queue keeps the invariant.
    pub proof fn lemma_without_orphans_wf(self)
        requires
            self.wf(),
        ensures
            (ContextView { orphan_classes: Seq::empty(), ..self }).wf(),
    {
        let next = ContextView { orphan_classes: Seq::empty(), ..self };
        self.lemma_frame_keeps_pairs(next);
        assert forall|i: int| 0 <= i < next.classes.len() implies next.class_wf(
            #[trigger] next.classes[i],
        ) by {
            assert(self.class_wf(self.classes[i]));
        }
    }

    /// The state with an emptied category queue keeps the invariant.
    pub proof fn lemma_without_categories_wf(self)
        requires
            self.wf(),
        ensures
            (ContextView { unresolved_categories: Seq::empty(), ..self }).wf(),
    {
        let next = ContextView { unresolved_categories: Seq::empty(), ..self };
        self.lemma_frame_keeps_pairs(next);
        assert forall|i: int| 0 <= i < next.classes.len() implies next.class_wf(
            #[trigger] next.classes[i],
        ) by {
            assert(self.class_wf(self.classes[i]));
        }
    }

    /// The state with an emptied method queue keeps the invariant.
    pub proof fn lemma_without_methods_wf(self)
        requires
            self.wf(),
        ensures
            (ContextView { unresolved_methods: Seq::empty(), ..self }).wf(),
    {
        let next = ContextView { unresolved_methods: Seq::empty(), ..self };
        self.lemma_frame_keeps_pairs(next);
        assert forall|i: int| 0 <= i < next.classes.len() implies next.class_wf(
            #[trigger] next.classes[i],
        ) by {
            assert(self.class_wf(self.classes[i]));
        }
    }

    /// The invariant holds on while selectors are interned: the table only
    /// grows, and what it held keeps its place.
    pub proof fn lemma_interned_wf(self, refs: Seq<SelectorView>)
        requires
            self.wf(),
        ensures
            (ContextView { selectors: interned_all(self.selectors, refs), ..self }).wf(),
            interned_all(self.selectors, refs).policy == self.selectors.policy,
        decreases refs.len(),
    {
        let next = ContextView { selectors: interned_all(self.selectors, refs), ..self };
        lemma_interned_all_wf(self.selectors, refs);
        if refs.len() > 0 {
            let mid = ContextView {
                selectors: interned_all(self.selectors, refs.drop_last()),
                ..self
            };
            self.lemma_interned_wf(refs.drop_last());
            mid.selectors.lemma_intern_wf(refs.last().id, refs.last().types);
            mid.lemma_frame_keeps_pairs(next);
            assert forall|i: int| 0 <= i < next.classes.len() implies next.class_wf(
                #[trigger] next.classes[i],
            ) by {
                let c = next.classes[i];
                assert(mid.class_wf(mid.classes[i]));
                assert forall|w: usize| #[trigger] c.dtable.contains_key(w) implies next.entry_wf(
                    w,
                    c.dtable[w],
                ) by {
                    assert(mid.entry_wf(w, c.dtable[w]));
                    assert(next.selectors.entries[w - 1] == mid.selectors.entries[w - 1]);
                }
            }
        }
    }

    /// A try to link a method keeps the invariant, where the map is sound.
    pub proof fn lemma_method_linked_wf(
        self,
        c: Ptr<ObjcClass>,
        m: Ptr<ObjcMethod>,
        map: Seq<(SelectorView, Ptr<ObjcSelector>)>,
    )
        requires
            self.wf(),
            self.has_class(c),
            self.has_method(m),
            sound_under(self.selectors, map),
        ensures
            self.method_linked(c, m, map).wf(),
            self.same_frame(self.method_linked(c, m, map)),
            self.method_linked(c, m, map).selectors == self.selectors,
    {
        let next = self.method_linked(c, m, map);
        let raw = self.method(m).raw_name;
        let types = self.method(m).types;
        lemma_found_in_sound(self.selectors, map, raw, types);
        self.lemma_frame_keeps_pairs(next);
        match found_in(map, self.selectors.policy, raw, types) {
            Some(sel) => {
                assert(self.selectors.names(sel, raw, types));
                sel.lemma_at_index();
                assert forall|i: int| 0 <= i < next.classes.len() implies next.class_wf(
                    #[trigger] next.classes[i],
                ) by {
                    let r = next.classes[i];
                    assert(self.class_wf(self.classes[i]));
                    assert forall|w: usize| #[trigger] r.dtable.contains_key(w) implies next.entry_wf(
                        w,
                        r.dtable[w],
                    ) by {
                        if i == c.index() && w == sel@ {
                            assert(r.dtable[w] == m);
                        } else {
                            let q = self.classes[i].dtable[w];
                            assert(r.dtable[w] == q);
                            assert(self.entry_wf(w, q));
                            if q.index() == m.index() {
                                q.lemma_same_word(m);
                                // one method, one key, one selector
                                self.selectors.lemma_one_position(w - 1, raw, types);
                                self.selectors.lemma_one_position(sel.index(), raw, types);
                                assert(w - 1 == sel.index());
                            }
                        }
                    }
                }
            },
            None => {
                assert forall|i: int| 0 <= i < next.classes.len() implies next.class_wf(
                    #[trigger] next.classes[i],
                ) by {
                    assert(self.class_wf(self.classes[i]));
                }
                assert forall|i: int| 0 <= i < next.unresolved_methods.len() implies next.has_class(
                    (#[trigger] next.unresolved_methods[i]).0,
                ) && next.has_method(next.unresolved_methods[i].1) by {
                    if i < self.unresolved_methods.len() {
                        assert(next.unresolved_methods[i] == self.unresolved_methods[i]);
                    }
                }
            },
        }
    }
}

impl ContextView {
    /// The code that answers `selector` for the class `p`: that of the
    /// method that the class or one of its superclasses answers with, or the
    /// no-op procedure where none does or `p` names no class.
    pub open spec fn class_lookup(self, p: Ptr<ObjcClass>, selector: Ptr<ObjcSelector>) -> Ptr<
        Procedure,
    > {
        if self.has_class(p) {
            match self.resolve_method(self.class(p), selector) {
                Some(m) => self.method(m).imp,
                None => Procedure::null_procedure(),
            }
        } else {
            Procedure::null_procedure()
        }
    }

    /// The code that answers the message `selector` sent to `receiver`: the
    /// no-op procedure where either is nil or the receiver names no
    /// instance, else what the receiver's class answers.
    pub open spec fn msg_lookup(
        self,
        receiver: Option<Ptr<ObjcObject>>,
        selector: Option<Ptr<ObjcSelector>>,
    ) -> Ptr<Procedure> {
        match (receiver, selector) {
            (Some(o), Some(s)) => if self.has_object(o) {
                self.class_lookup(self.object(o).class_pointer, s)
            } else {
                Procedure::null_procedure()
            },
            _ => Procedure::null_procedure(),
        }
    }

    /// The code that answers the message `selector` sent to `super` by
    /// `receiver`: the no-op procedure where either is nil, else what the
    /// class `super_class` answers, at which the search starts.
    pub open spec fn msg_lookup_super(
        self,
        receiver: Option<Ptr<ObjcObject>>,
        super_class: Ptr<ObjcClass>,
        selector: Option<Ptr<ObjcSelector>>,
    ) -> Ptr<Procedure> {
        match (receiver, selector) {
            (Some(_), Some(s)) => self.class_lookup(super_class, s),
            _ => Procedure::null_procedure(),
        }
    }

    /// Whether an instance of `class` with `extra_bytes` more can be made:
    /// `class` names a class, and the class's instance size and the extra
    /// bytes together are no more than a block can hold.
    pub open spec fn can_make(self, class: Ptr<ObjcClass>, extra_bytes: usize) -> bool {
        self.has_class(class) && self.class(class).size() + extra_bytes <= usize::MAX
    }

    /// The state after an instance of `class` with `extra_bytes` more was
    /// made, where that can be done: the instance stands behind all others,
    /// marked as one of `class`, its block all zero.
    pub open spec fn instance_made(self, class: Ptr<ObjcClass>, extra_bytes: usize) -> ContextView {
        if self.can_make(class, extra_bytes) {
            ContextView {
                objects: self.objects.push(
                    Some(
                        ObjectView {
                            class_pointer: class,
                            body: zeros((self.class(class).size() + extra_bytes) as nat),
                        },
                    ),
                ),
                ..self
            }
        } else {
            self
        }
    }

    /// The state after the instance `o` was disposed of: its place is empty,
    /// and its handle names no instance any more. A handle that names no
    /// instance changes nothing.
    pub open spec fn instance_disposed(self, o: Ptr<ObjcObject>) -> ContextView {
        if self.has_object(o) {
            ContextView { objects: self.objects.update(o.index(), None), ..self }
        } else {
            self
        }
    }

    /// What a walk up the superclasses finds is a method of the arena.
    pub proof fn lemma_resolved_has_method(
        self,
        c: ClassView,
        selector: Ptr<ObjcSelector>,
        fuel: nat,
    )
        requires
            self.wf(),
            self.class_wf(c),
        ensures
            self.resolved(c, selector, fuel) matches Some(m) ==> self.has_method(m),
        decreases fuel,
    {
        match c.own_method(selector) {
            Some(m) => {
                assert(c.dtable.contains_key(selector@));
                assert(self.entry_wf(selector@, c.dtable[selector@]));
            },
            None => match c.super_pointer {
                Some(s) => if fuel > 0 && self.has_class(s) {
                    assert(self.class_wf(self.classes[s.index()]));
                    self.lemma_resolved_has_method(self.class(s), selector, (fuel - 1) as nat);
                },
                None => {},
            },
        }
    }
}

} // verus!
