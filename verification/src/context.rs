//! The runtime context: the arenas, the class registry, the queues of what is
//! not yet linked, and the loader that fills them.

use crate::category::CategoryView;
use crate::category::ObjcCategory;
use crate::class::ClassView;
use crate::class::ObjcClass;
use crate::method::method_views;
use crate::method::MethodView;
use crate::method::ObjcMethod;
use crate::method::Procedure;
use crate::module::declared_under;
use crate::module::sound_under;
use crate::module::ObjcModule;
use crate::module::SelectorMap;
use crate::object::ObjcObject;
use crate::object::ObjectView;
use crate::ptr::Ptr;
use crate::selector::KeyPolicy;
use crate::selector::ObjcSelector;
use crate::selector::SelectorTable;
use crate::selector::SelectorTableView;
use crate::state::ContextView;
use crate::str_ptr::StrPtr;
use vstd::hash_map::StringHashMap;
use vstd::prelude::*;

verus! {

/// An entry of the class registry: a class and its metaclass.
#[derive(Clone, Copy)]
pub struct ClassTableEntry {
    class: Ptr<ObjcClass>,
    meta_class: Ptr<ObjcClass>,
}

impl ClassTableEntry {
    /// The entry of `class` and its metaclass `meta_class`, in contracts.
    pub closed spec fn spec_new(class: Ptr<ObjcClass>, meta_class: Ptr<ObjcClass>) -> ClassTableEntry {
        ClassTableEntry { class, meta_class }
    }

    /// An entry holds the two handles that it was made of.
    pub broadcast proof fn lemma_new(class: Ptr<ObjcClass>, meta_class: Ptr<ObjcClass>)
        ensures
            (#[trigger] ClassTableEntry::new(class, meta_class)).class() == class,
            ClassTableEntry::new(class, meta_class).meta_class() == meta_class,
    {
    }

    /// The entry of `class` and its metaclass `meta_class`.
    #[verifier::when_used_as_spec(spec_new)]
    pub fn new(class: Ptr<ObjcClass>, meta_class: Ptr<ObjcClass>) -> (entry: ClassTableEntry)
        ensures
            entry == ClassTableEntry::new(class, meta_class),
            entry.class() == class,
            entry.meta_class() == meta_class,
    {
        ClassTableEntry { class, meta_class }
    }

    /// The class, in contracts.
    pub closed spec fn spec_class(&self) -> Ptr<ObjcClass> {
        self.class
    }

    /// The metaclass, in contracts.
    pub closed spec fn spec_meta_class(&self) -> Ptr<ObjcClass> {
        self.meta_class
    }

    /// The class.
    #[verifier::when_used_as_spec(spec_class)]
    pub fn class(&self) -> (class: Ptr<ObjcClass>)
        ensures
            class == self.class(),
    {
        self.class
    }

    /// The metaclass.
    #[verifier::when_used_as_spec(spec_meta_class)]
    pub fn meta_class(&self) -> (meta_class: Ptr<ObjcClass>)
        ensures
            meta_class == self.meta_class(),
    {
        self.meta_class
    }

}

/// The class registry: from the name of a class to the class and its
/// metaclass. A name has one entry; a class that is registered under a name
/// already taken replaces the entry.
pub struct ClassTable {
    entries: StringHashMap<ClassTableEntry>,
}

impl View for ClassTable {
    type V = Map<Seq<char>, ClassTableEntry>;

    closed spec fn view(&self) -> Map<Seq<char>, ClassTableEntry> {
        self.entries@
    }
}

impl ClassTable {
    /// The empty registry.
    pub fn new() -> (table: ClassTable)
        ensures
            table@ == Map::<Seq<char>, ClassTableEntry>::empty(),
    {
        ClassTable { entries: StringHashMap::new() }
    }

    /// Enters `entry` under `name`, in place of any entry of that name.
    pub fn register(&mut self, name: &str, entry: ClassTableEntry)
        ensures
            final(self)@ == old(self)@.insert(name@, entry),
    {
        self.entries.insert(name.to_owned(), entry);
    }

    /// The entry of the class called `name`, if one is registered.
    pub fn lookup(&self, name: &str) -> (entry: Option<ClassTableEntry>)
        ensures
            entry == if self@.contains_key(name@) {
                Some(self@[name@])
            } else {
                None
            },
    {
        match self.entries.get(name) {
            Some(entry) => Some(*entry),
            None => None,
        }
    }
}

spec fn class_views(records: Seq<ObjcClass>) -> Seq<ClassView> {
    Seq::new(records.len(), |i: int| records[i]@)
}

spec fn category_views(records: Seq<ObjcCategory>) -> Seq<CategoryView> {
    Seq::new(records.len(), |i: int| records[i]@)
}

spec fn object_views(records: Seq<Option<ObjcObject>>) -> Seq<Option<ObjectView>> {
    Seq::new(
        records.len(),
        |i: int|
            match records[i] {
                Some(object) => Some(object@),
                None => None,
            },
    )
}

/// The runtime context: all that the runtime knows. One context serves one
/// process; nothing keeps a program from making several.
pub struct Context {
    classes: Vec<ObjcClass>,
    methods: Vec<ObjcMethod>,
    categories: Vec<ObjcCategory>,
    objects: Vec<Option<ObjcObject>>,
    selectors: SelectorTable,
    class_table: ClassTable,
    orphan_classes: Vec<Ptr<ObjcClass>>,
    unresolved_methods: Vec<(Ptr<ObjcClass>, Ptr<ObjcMethod>)>,
    unresolved_categories: Vec<Ptr<ObjcCategory>>,
}

impl View for Context {
    type V = ContextView;

    closed spec fn view(&self) -> ContextView {
        ContextView {
            classes: class_views(self.classes@),
            methods: method_views(self.methods@),
            categories: category_views(self.categories@),
            objects: object_views(self.objects@),
            selectors: self.selectors@,
            class_table: self.class_table@,
            orphan_classes: self.orphan_classes@,
            unresolved_methods: self.unresolved_methods@,
            unresolved_categories: self.unresolved_categories@,
        }
    }
}

impl Context {
    /// Whether the context keeps the invariant of the runtime.
    pub open spec fn wf(&self) -> bool {
        self@.wf()
    }

    /// An empty context that tells selectors apart by name and type
    /// encoding.
    pub fn new() -> (ctx: Context)
        ensures
            ctx.wf(),
            ctx@ == Context::empty_view(KeyPolicy::NameAndTypes),
    {
        Context::with_policy(KeyPolicy::NameAndTypes)
    }

    /// The state of a context that holds nothing.
    pub open spec fn empty_view(policy: KeyPolicy) -> ContextView {
        ContextView {
            classes: Seq::empty(),
            methods: Seq::empty(),
            categories: Seq::empty(),
            objects: Seq::empty(),
            selectors: SelectorTableView { policy, entries: Seq::empty() },
            class_table: Map::empty(),
            orphan_classes: Seq::empty(),
            unresolved_methods: Seq::empty(),
            unresolved_categories: Seq::empty(),
        }
    }

    /// An empty context that tells selectors apart by `policy`.
    pub fn with_policy(policy: KeyPolicy) -> (ctx: Context)
        ensures
            ctx.wf(),
            ctx@ == Context::empty_view(policy),
    {
        let ctx = Context {
            classes: Vec::new(),
            methods: Vec::new(),
            categories: Vec::new(),
            objects: Vec::new(),
            selectors: SelectorTable::new(policy),
            class_table: ClassTable::new(),
            orphan_classes: Vec::new(),
            unresolved_methods: Vec::new(),
            unresolved_categories: Vec::new(),
        };
        proof {
            assert(ctx@.classes =~= Seq::empty());
            assert(ctx@.methods =~= Seq::empty());
            assert(ctx@.categories =~= Seq::empty());
            assert(ctx@.objects =~= Seq::empty());
        }
        ctx
    }

    /// The class record that `p` names; `None` for a handle that names none.
    pub fn class(&self, p: Ptr<ObjcClass>) -> (class: Option<&ObjcClass>)
        ensures
            match class {
                Some(c) => self@.has_class(p) && c@ == self@.class(p),
                None => !self@.has_class(p),
            },
    {
        let i = p.slot();
        if i < self.classes.len() {
            Some(&self.classes[i])
        } else {
            None
        }
    }

    /// The method record that `m` names; `None` for a handle that names
    /// none.
    pub fn method(&self, m: Ptr<ObjcMethod>) -> (method: Option<&ObjcMethod>)
        ensures
            match method {
                Some(r) => self@.has_method(m) && r@ == self@.method(m),
                None => !self@.has_method(m),
            },
    {
        let i = m.slot();
        if i < self.methods.len() {
            Some(&self.methods[i])
        } else {
            None
        }
    }

    /// The category record that `k` names; `None` for a handle that names
    /// none.
    pub fn category(&self, k: Ptr<ObjcCategory>) -> (category: Option<&ObjcCategory>)
        ensures
            match category {
                Some(r) => self@.has_category(k) && r@ == self@.category(k),
                None => !self@.has_category(k),
            },
    {
        let i = k.slot();
        if i < self.categories.len() {
            Some(&self.categories[i])
        } else {
            None
        }
    }

    /// The instance that `o` names; `None` for a handle that names none.
    pub fn object(&self, o: Ptr<ObjcObject>) -> (object: Option<&ObjcObject>)
        ensures
            match object {
                Some(r) => self@.has_object(o) && r@ == self@.object(o),
                None => !self@.has_object(o),
            },
    {
        let i = o.slot();
        if i < self.objects.len() {
            self.objects[i].as_ref()
        } else {
            None
        }
    }

    /// The classes whose superclass is not loaded yet, oldest first.
    pub fn orphan_classes(&self) -> (queue: &Vec<Ptr<ObjcClass>>)
        ensures
            queue@ == self@.orphan_classes,
    {
        &self.orphan_classes
    }

    /// The methods that are not linked to a selector yet, each with its
    /// class, oldest first.
    pub fn unresolved_methods(&self) -> (queue: &Vec<(Ptr<ObjcClass>, Ptr<ObjcMethod>)>)
        ensures
            queue@ == self@.unresolved_methods,
    {
        &self.unresolved_methods
    }

    /// The categories whose class is not loaded yet, oldest first.
    pub fn unresolved_categories(&self) -> (queue: &Vec<Ptr<ObjcCategory>>)
        ensures
            queue@ == self@.unresolved_categories,
    {
        &self.unresolved_categories
    }

    /// The selector table.
    pub fn selectors(&self) -> (table: &SelectorTable)
        ensures
            table@ == self@.selectors,
    {
        &self.selectors
    }

    /// The entry of the class called `name` in the registry, if the class is
    /// registered.
    pub fn get_class_entry(&self, name: &StrPtr) -> (entry: Option<ClassTableEntry>)
        ensures
            entry == match name@ {
                Some(n) => if self@.class_table.contains_key(n) {
                    Some(self@.class_table[n])
                } else {
                    None
                },
                None => None,
            },
    {
        match name.as_ref() {
            Some(n) => self.class_table.lookup(n),
            None => None,
        }
    }

    /// Whether the class record `c` may be placed in the class arena: its
    /// own class, if it has one, and all its methods are placed already.
    pub open spec fn placeable(&self, c: ClassView) -> bool {
        &&& c.class_pointer matches Some(m) ==> self@.has_class(m)
        &&& self@.has_methods(c.methods)
    }

    fn holds_all(&self, methods: Option<&crate::method::ObjcMethodList>) -> (b: bool)
        ensures
            b == self@.has_methods(
                match methods {
                    Some(list) => list@,
                    None => Seq::empty(),
                },
            ),
    {
        let ghost all = match methods {
            Some(list) => list@,
            None => Seq::empty(),
        };
        let handles = match methods {
            Some(list) => list.to_vec(),
            None => Vec::new(),
        };
        let mut i: usize = 0;
        while i < handles.len()
            invariant
                i <= handles.len(),
                handles@ == all,
                all == match methods {
                    Some(list) => list@,
                    None => Seq::empty(),
                },
                forall|k: int| 0 <= k < i ==> self@.has_method(#[trigger] handles@[k]),
            decreases handles.len() - i,
        {
            if handles[i].slot() >= self.methods.len() {
                assert(!self@.has_method(all[i as int]));
                return false;
            }
            i = i + 1;
        }
        true
    }

    /// Places a method record in the method arena and returns its handle.
    /// The record is placed behind all others, as the compiler emits it:
    /// linked to no selector. `None`, and no change, for a method whose code
    /// is the no-op procedure: that word is kept for messages that nobody
    /// answers, so that a caller can tell the two apart.
    pub fn place_method(&mut self, method: ObjcMethod) -> (r: Option<Ptr<ObjcMethod>>)
        requires
            old(self).wf(),
        ensures
            final(self).wf(),
            match r {
                Some(m) => method@.imp != Procedure::null_procedure() && m.index()
                    == old(self)@.methods.len() && final(self)@ == (ContextView {
                    methods: old(self)@.methods.push(MethodView { name: None, ..method@ }),
                    ..old(self)@
                }),
                None => method@.imp == Procedure::null_procedure() && final(self)@ == old(self)@,
            },
    {
        let no_op = Procedure::new_null_procedure();
        proof {
            no_op.lemma_same_word(method@.imp);
        }
        if *method.imp() == no_op {
            return None;
        }
        let mut method = method;
        method.unlink();
        let ghost fresh = method@;
        self.methods.push(method);
        let n = self.methods.len();
        proof {
            assert(self@.methods =~= old(self)@.methods.push(fresh));
        }
        Some(Ptr::new(n))
    }

    /// Places a class record in the class arena and returns its handle. The
    /// record is placed behind all others, as the compiler emits it: no
    /// superclass found, the dispatch table empty. `None`, and no change,
    /// where the record names a class or a method that is not placed.
    pub fn place_class(&mut self, class: ObjcClass) -> (r: Option<Ptr<ObjcClass>>)
        requires
            old(self).wf(),
        ensures
            final(self).wf(),
            match r {
                Some(p) => old(self).placeable(class@) && p.index() == old(self)@.classes.len()
                    && final(self)@ == (ContextView {
                    classes: old(self)@.classes.push(
                        ClassView { super_pointer: None, dtable: Map::empty(), ..class@ },
                    ),
                    ..old(self)@
                }),
                None => !old(self).placeable(class@) && final(self)@ == old(self)@,
            },
    {
        match class.class_pointer() {
            Some(m) => {
                if m.slot() >= self.classes.len() {
                    return None;
                }
            },
            None => {},
        }
        if !self.holds_all(class.methods()) {
            return None;
        }
        let mut class = class;
        class.reset();
        let ghost fresh = class@;
        self.classes.push(class);
        let n = self.classes.len();
        proof {
            assert(self@.classes =~= old(self)@.classes.push(fresh));
            old(self)@.lemma_grown_keeps(self@);
        }
        Some(Ptr::new(n))
    }

    /// Whether the category record `k` may be placed in the category arena:
    /// all its methods are placed already.
    pub open spec fn category_placeable(&self, k: CategoryView) -> bool {
        self@.has_methods(k.instance_methods) && self@.has_methods(k.class_methods)
    }

    /// Places a category record in the category arena and returns its
    /// handle. `None`, and no change, where the record names a method that is
    /// not placed.
    pub fn place_category(&mut self, category: ObjcCategory) -> (r: Option<Ptr<ObjcCategory>>)
        requires
            old(self).wf(),
        ensures
            final(self).wf(),
            match r {
                Some(k) => old(self).category_placeable(category@) && k.index() == old(
                    self,
                )@.categories.len() && final(self)@ == (ContextView {
                    categories: old(self)@.categories.push(category@),
                    ..old(self)@
                }),
                None => !old(self).category_placeable(category@) && final(self)@ == old(self)@,
            },
    {
        if !self.holds_all(category.instance_methods()) {
            return None;
        }
        if !self.holds_all(category.class_methods()) {
            return None;
        }
        let ghost placed = category@;
        self.categories.push(category);
        let n = self.categories.len();
        proof {
            assert(self@.categories =~= old(self)@.categories.push(placed));
            old(self)@.lemma_grown_keeps(self@);
            assert forall|i: int| 0 <= i < self@.categories.len() implies self@.has_methods(
                (#[trigger] self@.categories[i]).instance_methods,
            ) && self@.has_methods(self@.categories[i].class_methods) by {
                if i < n - 1 {
                    assert(self@.categories[i] == old(self)@.categories[i]);
                }
            }
        }
        Some(Ptr::new(n))
    }

    /// Whether `map` is a selector map over this context's selector table:
    /// each of its pairs holds the identity that the table gives to the
    /// pair's selector, and it tells selectors apart as the table does. The
    /// map that `declare_selectors` returns is one, and stays one while the
    /// context lives.
    pub open spec fn fits(&self, map: &SelectorMap) -> bool {
        sound_under(self@.selectors, map@.pairs) && map@.policy == self@.selectors.policy
    }

    /// Interns the selector references that `module` declares, first to
    /// last, and returns the module's selector map: one pair for each
    /// selector that the module declares, with the identity that the table
    /// gives it.
    pub fn declare_selectors(&mut self, module: &ObjcModule) -> (map: SelectorMap)
        requires
            old(self).wf(),
        ensures
            final(self).wf(),
            final(self)@ == old(self)@.selectors_declared(module@.symtab.selectors()),
            map@.pairs == declared_under(final(self)@.selectors, module@.symtab.selectors()),
            map@.wf(),
            final(self).fits(&map),
    {
        let map = module.symtab().create_selector_map(&mut self.selectors);
        proof {
            old(self)@.lemma_interned_wf(module@.symtab.selectors());
        }
        map
    }

    fn initialize_class(&mut self, p: Ptr<ObjcClass>, map: &SelectorMap)
        requires
            old(self).wf(),
            old(self)@.has_class(p),
            old(self).fits(map),
        ensures
            final(self).wf(),
            final(self)@ == old(self)@.initialized(p, map@.pairs),
            final(self)@.selectors == old(self)@.selectors,
    {
        proof {
            old(self).lemma_class_wf(p);
            old(self)@.lemma_initialized_wf(p, map@.pairs);
        }
        let i = p.slot();
        self.classes[i].initialize(p, map, &mut self.methods, &mut self.unresolved_methods);
        proof {
            assert(self@.classes =~= old(self)@.initialized(p, map@.pairs).classes);
        }
    }

    fn link_super(&mut self, p: Ptr<ObjcClass>) -> (settled: bool)
        requires
            old(self).wf(),
            old(self)@.has_class(p),
        ensures
            final(self).wf(),
            final(self)@ == old(self)@.super_linked(p),
            final(self)@.selectors == old(self)@.selectors,
            settled == old(self)@.class(p).linkable(old(self)@.class_table),
    {
        let i = p.slot();
        let settled = self.classes[i].initialize_super_pointer(&self.class_table);
        if !settled {
            self.orphan_classes.push(p);
        }
        proof {
            assert(self@.classes =~= old(self)@.super_linked(p).classes);
            old(self)@.lemma_super_linked_wf(p);
        }
        settled
    }

    fn is_loadable(&self, p: Ptr<ObjcClass>) -> (b: bool)
        ensures
            b == self@.loadable(p),
    {
        let class = match self.class(p) {
            Some(c) => c,
            None => {
                return false;
            },
        };
        if !class.is_class() || class.is_meta() || class.get_name().is_null() {
            return false;
        }
        let m = match class.class_pointer() {
            Some(m) => *m,
            None => {
                return false;
            },
        };
        if m == p {
            proof {
                m.lemma_same_word(p);
            }
            return false;
        }
        proof {
            m.lemma_same_word(p);
        }
        match self.class(m) {
            Some(meta) => meta.is_meta() && !meta.is_class(),
            None => false,
        }
    }

    fn register_class_pair(&mut self, p: Ptr<ObjcClass>)
        requires
            old(self).wf(),
            old(self)@.loadable(p),
        ensures
            final(self).wf(),
            final(self)@ == old(self)@.registered(p),
    {
        let class = &self.classes[p.slot()];
        let meta_class = match class.class_pointer() {
            Some(m) => *m,
            None => p,
        };
        match class.get_name().as_ref() {
            Some(name) => {
                self.class_table.register(name, ClassTableEntry::new(p, meta_class));
            },
            None => {},
        }
        proof {
            old(self)@.lemma_registered_wf(p);
        }
    }

    /// Loads one class definition of a module: builds the dispatch table of
    /// the class and of its metaclass through the module's selector map,
    /// links each to its superclass or queues it as an orphan, and registers
    /// the pair under the class's name. Returns `false`, and changes
    /// nothing, for a definition that cannot be loaded.
    pub fn load_class(&mut self, p: Ptr<ObjcClass>, map: &SelectorMap) -> (loaded: bool)
        requires
            old(self).wf(),
            old(self).fits(map),
        ensures
            final(self).wf(),
            loaded == old(self)@.loadable(p),
            final(self)@ == old(self)@.class_loaded(p, map@.pairs),
            final(self)@.selectors == old(self)@.selectors,
    {
        if !self.is_loadable(p) {
            return false;
        }
        let m = match self.classes[p.slot()].class_pointer() {
            Some(m) => *m,
            None => p,
        };
        self.initialize_class(p, map);
        self.initialize_class(m, map);
        self.link_super(p);
        self.link_super(m);
        proof {
            let a = old(self)@.initialized(p, map@.pairs);
            old(self)@.lemma_initialized_wf(p, map@.pairs);
            let b = a.initialized(m, map@.pairs);
            a.lemma_initialized_wf(m, map@.pairs);
            let c = b.super_linked(p);
            b.lemma_super_linked_wf(p);
            let d = c.super_linked(m);
            c.lemma_super_linked_wf(m);
            assert(d.class(p).name == old(self)@.class(p).name);
            assert(d.class(p).class_pointer == old(self)@.class(p).class_pointer);
            assert(d.class(p).info == old(self)@.class(p).info);
            assert(d.class(m).info == old(self)@.class(m).info);
            assert(d.loadable(p));
        }
        self.register_class_pair(p);
        true
    }

    fn prepend_to_class(&mut self, p: Ptr<ObjcClass>, methods: Option<&crate::method::ObjcMethodList>)
        requires
            old(self)@.has_class(p),
        ensures
            final(self)@ == old(self)@.methods_prepended(
                p,
                match methods {
                    Some(list) => list@,
                    None => Seq::empty(),
                },
            ),
    {
        match methods {
            Some(list) => {
                let copy = list.clone();
                self.classes[p.slot()].prepend_methods(copy);
                proof {
                    assert(self@.classes =~= old(self)@.classes.update(
                        p.index(),
                        ClassView {
                            methods: list@ + old(self)@.class(p).methods,
                            ..old(self)@.class(p)
                        },
                    ));
                }
            },
            None => {
                proof {
                    assert(Seq::<Ptr<ObjcMethod>>::empty() + old(self)@.class(p).methods
                        =~= old(self)@.class(p).methods);
                    assert(self@.classes =~= old(self)@.classes.update(
                        p.index(),
                        old(self)@.class(p),
                    ));
                }
            },
        }
    }

    /// Attaches one category of a module. Where the registry holds the class
    /// that the category extends, the category's methods are queued for
    /// linking, its instance methods are put in front of the class's chain
    /// of method lists and its class methods in front of the metaclass's.
    /// Otherwise the category is queued. Returns whether the category was
    /// attached; a handle that names no category changes nothing.
    pub fn attach_category(&mut self, k: Ptr<ObjcCategory>) -> (attached: bool)
        requires
            old(self).wf(),
        ensures
            final(self).wf(),
            final(self)@ == old(self)@.category_attached(k),
            final(self)@.selectors == old(self)@.selectors,
            attached == (old(self)@.has_category(k) && old(self)@.category(k).target(
                old(self)@.class_table,
            ).is_some()),
    {
        let i = k.slot();
        if i >= self.categories.len() {
            return false;
        }
        proof {
            old(self)@.lemma_category_attached_wf(k);
        }
        self.categories[i].initialize();
        let entry = match self.categories[i].class_name().as_ref() {
            Some(name) => self.class_table.lookup(name),
            None => None,
        };
        let entry = match entry {
            Some(entry) => entry,
            None => {
                self.unresolved_categories.push(k);
                assert(self@.categories =~= old(self)@.categories);
                return false;
            },
        };
        self.categories[i].defer_resolving_methods(&self.class_table, &mut self.unresolved_methods);
        assert(self@.categories =~= old(self)@.categories);
        let ghost queued = self@;
        let category = &self.categories[i];
        let instance_methods = match category.instance_methods() {
            Some(list) => Some(list.clone()),
            None => None,
        };
        let class_methods = match category.class_methods() {
            Some(list) => Some(list.clone()),
            None => None,
        };
        proof {
            let name = old(self)@.category(k).class_name.unwrap();
            assert(old(self)@.pair_wf(name, old(self)@.class_table[name]));
        }
        self.prepend_to_class(entry.class(), instance_methods.as_ref());
        self.prepend_to_class(entry.meta_class(), class_methods.as_ref());
        proof {
            assert(self@.classes =~= old(self)@.attached_to(k, entry).classes);
        }
        true
    }

    fn orphans_pass(&mut self)
        requires
            old(self).wf(),
        ensures
            final(self).wf(),
            final(self)@ == old(self)@.orphans_pass(),
            final(self)@.selectors == old(self)@.selectors,
    {
        let mut queue: Vec<Ptr<ObjcClass>> = Vec::new();
        std::mem::swap(&mut self.orphan_classes, &mut queue);
        let ghost start = self@;
        proof {
            assert(start == (ContextView { orphan_classes: Seq::empty(), ..old(self)@ }));
            old(self)@.lemma_without_orphans_wf();
            assert(queue@.take(0) =~= Seq::empty());
        }
        let mut i: usize = 0;
        while i < queue.len()
            invariant
                i <= queue.len(),
                self.wf(),
                self@ == start.orphans_tried(queue@.take(i as int)),
                self@.selectors == start.selectors,
                self@.classes.len() == start.classes.len(),
                forall|j: int| 0 <= j < queue.len() ==> start.has_class(#[trigger] queue@[j]),
            decreases queue.len() - i,
        {
            self.link_super(queue[i]);
            proof {
                assert(queue@.take(i + 1).drop_last() == queue@.take(i as int));
            }
            i = i + 1;
        }
        proof {
            assert(queue@.take(i as int) == queue@);
        }
    }

    /// Drains the orphan queue: tries every queued class again, pass after
    /// pass, while the queue is not empty and the pass before made it
    /// shorter. Returns the number of passes made, which is at most the
    /// length that the queue had.
    pub fn resolve_orphan_classes(&mut self) -> (passes: usize)
        requires
            old(self).wf(),
        ensures
            final(self).wf(),
            final(self)@ == old(self)@.orphans_drained(),
            final(self)@.selectors == old(self)@.selectors,
            passes == old(self)@.orphan_passes(),
            passes <= old(self)@.orphan_classes.len(),
    {
        let total = self.orphan_classes.len();
        let mut passes: usize = 0;
        proof {
            crate::laws::lemma_orphan_passes_bounded(self@);
        }
        loop
            invariant_except_break
                self@.orphans_drained() == old(self)@.orphans_drained(),
                passes + self@.orphan_passes() == old(self)@.orphan_passes(),
            invariant
                self.wf(),
                self@.selectors == old(self)@.selectors,
                total == old(self)@.orphan_classes.len(),
                old(self)@.orphan_passes() <= total,
            ensures
                self@ == old(self)@.orphans_drained(),
                passes == old(self)@.orphan_passes(),
            decreases self@.orphan_classes.len(),
        {
            let n = self.orphan_classes.len();
            if n == 0 {
                break ;
            }
            self.orphans_pass();
            passes = passes + 1;
            if self.orphan_classes.len() >= n {
                break ;
            }
        }
        passes
    }

    fn categories_pass(&mut self)
        requires
            old(self).wf(),
        ensures
            final(self).wf(),
            final(self)@ == old(self)@.categories_pass(),
            final(self)@.selectors == old(self)@.selectors,
    {
        let mut queue: Vec<Ptr<ObjcCategory>> = Vec::new();
        std::mem::swap(&mut self.unresolved_categories, &mut queue);
        let ghost start = self@;
        proof {
            assert(start == (ContextView { unresolved_categories: Seq::empty(), ..old(self)@ }));
            old(self)@.lemma_without_categories_wf();
            assert(queue@.take(0) =~= Seq::empty());
        }
        let mut i: usize = 0;
        while i < queue.len()
            invariant
                i <= queue.len(),
                self.wf(),
                self@ == start.categories_tried(queue@.take(i as int)),
                self@.selectors == start.selectors,
            decreases queue.len() - i,
        {
            self.attach_category(queue[i]);
            proof {
                assert(queue@.take(i + 1).drop_last() == queue@.take(i as int));
            }
            i = i + 1;
        }
        proof {
            assert(queue@.take(i as int) == queue@);
        }
    }

    /// Drains the queue of unattached categories, by the rule of the orphan
    /// queue. Returns the number of passes made, which is at most the length
    /// that the queue had.
    pub fn resolve_unattached_categories(&mut self) -> (passes: usize)
        requires
            old(self).wf(),
        ensures
            final(self).wf(),
            final(self)@ == old(self)@.categories_drained(),
            final(self)@.selectors == old(self)@.selectors,
            passes == old(self)@.category_passes(),
            passes <= old(self)@.unresolved_categories.len(),
    {
        let total = self.unresolved_categories.len();
        let mut passes: usize = 0;
        proof {
            crate::laws::lemma_category_passes_bounded(self@);
        }
        loop
            invariant_except_break
                self@.categories_drained() == old(self)@.categories_drained(),
                passes + self@.category_passes() == old(self)@.category_passes(),
            invariant
                self.wf(),
                self@.selectors == old(self)@.selectors,
                total == old(self)@.unresolved_categories.len(),
                old(self)@.category_passes() <= total,
            ensures
                self@ == old(self)@.categories_drained(),
                passes == old(self)@.category_passes(),
            decreases self@.unresolved_categories.len(),
        {
            let n = self.unresolved_categories.len();
            if n == 0 {
                break ;
            }
            self.categories_pass();
            passes = passes + 1;
            if self.unresolved_categories.len() >= n {
                break ;
            }
        }
        passes
    }

    fn link_method(&mut self, c: Ptr<ObjcClass>, m: Ptr<ObjcMethod>, map: &SelectorMap)
        requires
            old(self).wf(),
            old(self)@.has_class(c),
            old(self)@.has_method(m),
            sound_under(old(self)@.selectors, map@.pairs),
            map@.policy == old(self)@.selectors.policy,
        ensures
            final(self).wf(),
            final(self)@ == old(self)@.method_linked(c, m, map@.pairs),
    {
        proof {
            old(self)@.lemma_method_linked_wf(c, m, map@.pairs);
        }
        self.classes[c.slot()].enter_method(
            c,
            m,
            map,
            &mut self.methods,
            &mut self.unresolved_methods,
        );
        proof {
            assert(self@.classes =~= old(self)@.method_linked(c, m, map@.pairs).classes);
        }
    }

    fn methods_pass(&mut self, map: &SelectorMap)
        requires
            old(self).wf(),
            sound_under(old(self)@.selectors, map@.pairs),
            map@.policy == old(self)@.selectors.policy,
        ensures
            final(self).wf(),
            final(self)@ == old(self)@.methods_pass(map@.pairs),
            final(self)@.selectors == old(self)@.selectors,
    {
        let mut queue: Vec<(Ptr<ObjcClass>, Ptr<ObjcMethod>)> = Vec::new();
        std::mem::swap(&mut self.unresolved_methods, &mut queue);
        let ghost start = self@;
        proof {
            assert(start == (ContextView { unresolved_methods: Seq::empty(), ..old(self)@ }));
            old(self)@.lemma_without_methods_wf();
            assert(queue@.take(0) =~= Seq::empty());
        }
        let mut i: usize = 0;
        while i < queue.len()
            invariant
                i <= queue.len(),
                self.wf(),
                self@ == start.methods_tried(queue@.take(i as int), map@.pairs),
                self@.classes.len() == start.classes.len(),
                self@.methods.len() == start.methods.len(),
                self@.selectors == start.selectors,
                sound_under(start.selectors, map@.pairs),
                map@.policy == start.selectors.policy,
                forall|j: int|
                    0 <= j < queue.len() ==> start.has_class((#[trigger] queue@[j]).0)
                        && start.has_method(queue@[j].1),
            decreases queue.len() - i,
        {
            let (c, m) = queue[i];
            proof {
                self@.lemma_method_linked_wf(c, m, map@.pairs);
            }
            self.link_method(c, m, map);
            proof {
                assert(queue@.take(i + 1).drop_last() == queue@.take(i as int));
            }
            i = i + 1;
        }
        proof {
            assert(queue@.take(i as int) == queue@);
        }
    }

    /// Drains the queue of unlinked methods through a module's selector map,
    /// by the rule of the orphan queue: a method whose name and type
    /// encoding the map holds is linked to that selector and entered in its
    /// class's dispatch table under it, in place of what stood there;
    /// another stays queued. Returns the number of passes made, which is at
    /// most the length that the queue had.
    pub fn resolve_unlinked_methods(&mut self, map: &SelectorMap) -> (passes: usize)
        requires
            old(self).wf(),
            old(self).fits(map),
        ensures
            final(self).wf(),
            final(self)@ == old(self)@.methods_drained(map@.pairs),
            final(self)@.selectors == old(self)@.selectors,
            passes == old(self)@.method_passes(map@.pairs),
            passes <= old(self)@.unresolved_methods.len(),
    {
        let total = self.unresolved_methods.len();
        let mut passes: usize = 0;
        proof {
            crate::laws::lemma_method_passes_bounded(self@, map@.pairs);
        }
        loop
            invariant_except_break
                self@.methods_drained(map@.pairs) == old(self)@.methods_drained(map@.pairs),
                passes + self@.method_passes(map@.pairs) == old(self)@.method_passes(map@.pairs),
            invariant
                self.wf(),
                total == old(self)@.unresolved_methods.len(),
                old(self)@.method_passes(map@.pairs) <= total,
                self@.selectors == old(self)@.selectors,
                old(self).fits(map),
            ensures
                self@ == old(self)@.methods_drained(map@.pairs),
                passes == old(self)@.method_passes(map@.pairs),
            decreases self@.unresolved_methods.len(),
        {
            let n = self.unresolved_methods.len();
            if n == 0 {
                break ;
            }
            self.methods_pass(map);
            passes = passes + 1;
            if self.unresolved_methods.len() >= n {
                break ;
            }
        }
        passes
    }

    /// Links methods to selectors: interns the selector references that the
    /// module declares, which gives the module's selector map, and drains
    /// the queue of unlinked methods through that map. Returns the number of
    /// passes made, which is at most the length that the queue had.
    pub fn link_selectors_to_methods(&mut self, module: &ObjcModule) -> (passes: usize)
        requires
            old(self).wf(),
        ensures
            final(self).wf(),
            final(self)@ == old(self)@.selectors_linked(module@.symtab.selectors()),
            passes == old(self)@.link_passes(module@.symtab.selectors()),
            passes <= old(self)@.unresolved_methods.len(),
    {
        let map = self.declare_selectors(module);
        self.resolve_unlinked_methods(&map)
    }

    /// Loads a module. The selector references that it declares are
    /// interned, which gives the module's selector map. Then come its class
    /// definitions in the order of the symbol table, each with its dispatch
    /// table built through the map; then its categories; then the drain of
    /// the orphan queue, of the category queue and of the method queue. A
    /// definition that cannot be loaded is passed over and the load goes on;
    /// what cannot be linked yet stays queued for the next module.
    pub fn load_module(&mut self, module: &ObjcModule)
        requires
            old(self).wf(),
        ensures
            final(self).wf(),
            final(self)@ == old(self)@.module_loaded(module@.symtab),
    {
        let map = self.declare_selectors(module);
        let ghost declared = self@;
        let symtab = module.symtab();
        let ghost class_defs = symtab@.classes();
        let mut classes = symtab.iter_class();
        let ghost mut loaded: Seq<Ptr<ObjcClass>> = Seq::empty();
        loop
            invariant
                self.wf(),
                self.fits(&map),
                loaded + classes@ == class_defs,
                self@ == declared.classes_loaded(loaded, map@.pairs),
            ensures
                self.wf(),
                self.fits(&map),
                self@ == declared.classes_loaded(class_defs, map@.pairs),
            decreases classes@.len(),
        {
            let ghost rest = classes@;
            match classes.next() {
                Some(class) => {
                    self.load_class(class, &map);
                    proof {
                        let next = loaded.push(class);
                        assert(next.drop_last() == loaded);
                        assert(next + rest.skip(1) == class_defs);
                        loaded = next;
                    }
                },
                None => {
                    assert(loaded == class_defs);
                    break ;
                },
            }
        }
        let ghost with_classes = self@;
        let ghost category_defs = symtab@.categories();
        let mut categories = symtab.iter_category();
        let ghost mut attached: Seq<Ptr<ObjcCategory>> = Seq::empty();
        loop
            invariant
                self.wf(),
                self.fits(&map),
                attached + categories@ == category_defs,
                self@ == with_classes.categories_loaded(attached),
            ensures
                self.wf(),
                self.fits(&map),
                self@ == with_classes.categories_loaded(category_defs),
            decreases categories@.len(),
        {
            let ghost rest = categories@;
            match categories.next() {
                Some(category) => {
                    self.attach_category(category);
                    proof {
                        let next = attached.push(category);
                        assert(next.drop_last() == attached);
                        assert(next + rest.skip(1) == category_defs);
                        attached = next;
                    }
                },
                None => {
                    assert(attached == category_defs);
                    break ;
                },
            }
        }
        self.resolve_orphan_classes();
        self.resolve_unattached_categories();
        self.resolve_unlinked_methods(&map);
    }

    /// Queues `method` of `class` for linking, behind all that is queued.
    /// Returns `false`, and queues nothing, where one of the two handles
    /// names no record.
    pub fn append_unresolved_methods(&mut self, class: Ptr<ObjcClass>, method: Ptr<ObjcMethod>) -> (queued:
        bool)
        requires
            old(self).wf(),
        ensures
            final(self).wf(),
            queued == (old(self)@.has_class(class) && old(self)@.has_method(method)),
            final(self)@ == if queued {
                ContextView {
                    unresolved_methods: old(self)@.unresolved_methods.push((class, method)),
                    ..old(self)@
                }
            } else {
                old(self)@
            },
    {
        if class.slot() >= self.classes.len() || method.slot() >= self.methods.len() {
            return false;
        }
        self.unresolved_methods.push((class, method));
        proof {
            let next = self@;
            old(self)@.lemma_frame_keeps_pairs(next);
            old(self)@.lemma_grown_keeps(next);
            assert forall|i: int| 0 <= i < next.unresolved_methods.len() implies next.has_class(
                (#[trigger] next.unresolved_methods[i]).0,
            ) && next.has_method(next.unresolved_methods[i].1) by {
                if i < old(self)@.unresolved_methods.len() {
                    assert(next.unresolved_methods[i] == old(self)@.unresolved_methods[i]);
                }
            }
        }
        true
    }

    /// Makes an instance of the class `class`: a block of the class's
    /// instance size and `extra_bytes` more, all zero, marked as belonging to
    /// the class. `None`, and no change, where `class` names no class or the
    /// two sizes together are more than a block can hold.
    pub fn create_instance(&mut self, class: Ptr<ObjcClass>, extra_bytes: usize) -> (r: Option<
        Ptr<ObjcObject>,
    >)
        requires
            old(self).wf(),
        ensures
            final(self).wf(),
            r.is_some() == old(self)@.can_make(class, extra_bytes),
            r matches Some(o) ==> o.index() == old(self)@.objects.len(),
            final(self)@ == old(self)@.instance_made(class, extra_bytes),
    {
        let size = match self.class(class) {
            Some(record) => record.get_instance_size(),
            None => {
                return None;
            },
        };
        let size = match size.checked_add(extra_bytes) {
            Some(size) => size,
            None => {
                return None;
            },
        };
        let object = ObjcObject::new(class, size);
        let ghost made = object@;
        self.objects.push(Some(object));
        let n = self.objects.len();
        proof {
            let next = self@;
            assert(next.objects =~= old(self)@.objects.push(Some(made)));
            old(self)@.lemma_grown_keeps(next);
            assert forall|i: int| 0 <= i < next.objects.len() implies ((
            #[trigger] next.objects[i]) matches Some(o) ==> next.has_class(o.class_pointer)) by {
                if i < n - 1 {
                    assert(next.objects[i] == old(self)@.objects[i]);
                }
            }
        }
        Some(Ptr::new(n))
    }

    /// Disposes of the instance `object`: its block is given up and its
    /// handle names no instance from now on. Returns whether there was such
    /// an instance; where there was none, nothing changes.
    pub fn dispose_instance(&mut self, object: Ptr<ObjcObject>) -> (disposed: bool)
        requires
            old(self).wf(),
        ensures
            final(self).wf(),
            disposed == old(self)@.has_object(object),
            final(self)@ == old(self)@.instance_disposed(object),
    {
        let i = object.slot();
        if i >= self.objects.len() {
            return false;
        }
        if self.objects[i].is_none() {
            return false;
        }
        self.objects[i] = None;
        proof {
            let next = self@;
            assert(next.objects =~= old(self)@.objects.update(object.index(), None));
            old(self)@.lemma_grown_keeps(next);
            assert forall|j: int| 0 <= j < next.objects.len() implies ((
            #[trigger] next.objects[j]) matches Some(o) ==> next.has_class(o.class_pointer)) by {
                if j != i {
                    assert(next.objects[j] == old(self)@.objects[j]);
                }
            }
        }
        true
    }

    /// The number of class records in the arena.
    pub fn class_count(&self) -> (n: usize)
        ensures
            n == self@.classes.len(),
    {
        self.classes.len()
    }

    /// A class record of the arena fits the arenas around it.
    pub proof fn lemma_class_wf(&self, p: Ptr<ObjcClass>)
        requires
            self.wf(),
            self@.has_class(p),
        ensures
            self@.class_wf(self@.class(p)),
    {
        assert(self@.class_wf(self@.classes[p.index()]));
    }
}

impl Ptr<ObjcClass> {
    /// The class record that the handle names in `ctx`, if it names one.
    pub fn as_ref<'a>(&self, ctx: &'a Context) -> (class: Option<&'a ObjcClass>)
        ensures
            match class {
                Some(c) => ctx@.has_class(*self) && c@ == ctx@.class(*self),
                None => !ctx@.has_class(*self),
            },
    {
        ctx.class(*self)
    }
}

impl Ptr<ObjcMethod> {
    /// The method record that the handle names in `ctx`, if it names one.
    pub fn as_ref<'a>(&self, ctx: &'a Context) -> (method: Option<&'a ObjcMethod>)
        ensures
            match method {
                Some(r) => ctx@.has_method(*self) && r@ == ctx@.method(*self),
                None => !ctx@.has_method(*self),
            },
    {
        ctx.method(*self)
    }
}

impl Ptr<ObjcCategory> {
    /// The category record that the handle names in `ctx`, if it names one.
    pub fn as_ref<'a>(&self, ctx: &'a Context) -> (category: Option<&'a ObjcCategory>)
        ensures
            match category {
                Some(r) => ctx@.has_category(*self) && r@ == ctx@.category(*self),
                None => !ctx@.has_category(*self),
            },
    {
        ctx.category(*self)
    }
}

impl Ptr<ObjcObject> {
    /// The instance that the handle names in `ctx`, if it names one.
    pub fn as_ref<'a>(&self, ctx: &'a Context) -> (object: Option<&'a ObjcObject>)
        ensures
            match object {
                Some(r) => ctx@.has_object(*self) && r@ == ctx@.object(*self),
                None => !ctx@.has_object(*self),
            },
    {
        ctx.object(*self)
    }
}

impl Ptr<ObjcSelector> {
    /// The selector record that the handle names in `ctx`, if it names one.
    pub fn as_ref<'a>(&self, ctx: &'a Context) -> (selector: Option<&'a ObjcSelector>)
        ensures
            match selector {
                Some(r) => ctx@.selectors.holds(*self) && r@ == ctx@.selectors.entries[self.index()],
                None => !ctx@.selectors.holds(*self),
            },
    {
        ctx.selectors().get(*self)
    }
}

} // verus!
