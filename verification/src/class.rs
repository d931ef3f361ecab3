//! Class records and what the loader does to one record at a time.

use crate::context::ClassTable;
use crate::context::ClassTableEntry;
use crate::context::Context;
use crate::ivar::IvarView;
use crate::ivar::ObjcIvarList;
use crate::method::chain_view;
use crate::method::method_views;
use crate::method::MethodView;
use crate::method::ObjcMethod;
use crate::method::ObjcMethodList;
use crate::module::found_in;
use crate::module::SelectorMap;
use crate::ptr::Ptr;
use crate::selector::KeyPolicy;
use crate::selector::SelectorView;
use crate::selector::ObjcSelector;
use crate::str_ptr::StrPtr;
use std::collections::HashMap;
use vstd::prelude::*;

verus! {

/// Bit of `info` that marks the record of a class.
pub const INFO_CLASS: u64 = 1;

/// Bit of `info` that marks the record of a metaclass.
pub const INFO_META: u64 = 2;

/// A class record, of a class or of a metaclass.
///
/// The compiler names the superclass; the loader finds it. So the record keeps
/// both: the name as emitted, and the handle once the superclass is loaded.
pub struct ObjcClass {
    class_pointer: Option<Ptr<ObjcClass>>,
    super_name: StrPtr,
    super_pointer: Option<Ptr<ObjcClass>>,
    name: StrPtr,
    version: i64,
    info: u64,
    instance_size: i64,
    ivars: Option<ObjcIvarList>,
    methods: Option<Box<ObjcMethodList>>,
    dtable: HashMap<usize, Ptr<ObjcMethod>>,
}

/// What a class record holds.
pub ghost struct ClassView {
    /// The metaclass of a class; a metaclass record has none.
    pub class_pointer: Option<Ptr<ObjcClass>>,
    /// The superclass as the compiler named it; `None` for a root.
    pub super_name: Option<Seq<char>>,
    /// The superclass, once found; `None` for a root and for an orphan.
    pub super_pointer: Option<Ptr<ObjcClass>>,
    pub name: Option<Seq<char>>,
    pub version: i64,
    pub info: u64,
    pub instance_size: i64,
    pub ivars: Option<Seq<IvarView>>,
    /// The methods of the record's chain of method lists, in order.
    pub methods: Seq<Ptr<ObjcMethod>>,
    /// The dispatch table: from the word of a selector to the method that
    /// this record itself answers it with.
    pub dtable: Map<usize, Ptr<ObjcMethod>>,
}

impl ClassView {
    /// Whether the record is marked as a class.
    pub open spec fn is_class(self) -> bool {
        self.info & INFO_CLASS != 0
    }

    /// Whether the record is marked as a metaclass.
    pub open spec fn is_meta(self) -> bool {
        self.info & INFO_META != 0
    }

    /// The size of an instance in bytes; zero where the record gives a size
    /// that no instance can have.
    pub open spec fn size(self) -> usize {
        if 0 <= self.instance_size <= usize::MAX {
            self.instance_size as usize
        } else {
            0
        }
    }

    /// Whether the superclass can be found in `table`: there is none to find,
    /// or the table holds its name.
    pub open spec fn linkable(self, table: Map<Seq<char>, ClassTableEntry>) -> bool {
        self.super_name matches Some(n) ==> table.contains_key(n)
    }

    /// The record after a try to find its superclass in `table`. A class gets
    /// the class of that name, a metaclass the metaclass.
    pub open spec fn linked(self, table: Map<Seq<char>, ClassTableEntry>) -> ClassView {
        match self.super_name {
            Some(n) => if table.contains_key(n) {
                ClassView {
                    super_pointer: Some(
                        if self.is_meta() {
                            table[n].meta_class()
                        } else {
                            table[n].class()
                        },
                    ),
                    ..self
                }
            } else {
                self
            },
            None => self,
        }
    }

    /// The method that this record itself answers `selector` with.
    pub open spec fn own_method(self, selector: Ptr<ObjcSelector>) -> Option<Ptr<ObjcMethod>> {
        if self.dtable.contains_key(selector@) {
            Some(self.dtable[selector@])
        } else {
            None
        }
    }
}

/// Each of `methods` paired with the class `this`, in order.
pub open spec fn paired_with(this: Ptr<ObjcClass>, methods: Seq<Ptr<ObjcMethod>>) -> Seq<
    (Ptr<ObjcClass>, Ptr<ObjcMethod>),
> {
    Seq::new(methods.len(), |i: int| (this, methods[i]))
}

/// What the builder of a dispatch table works on: the table, the method
/// records of the arena, and the queue of methods that are not linked.
pub ghost struct Built {
    pub dtable: Map<usize, Ptr<ObjcMethod>>,
    pub methods: Seq<MethodView>,
    pub queue: Seq<(Ptr<ObjcClass>, Ptr<ObjcMethod>)>,
}

/// What the builder makes of method `m` of class `this`: linked and entered
/// under the selector that the map holds for its name and type encoding, or
/// queued where the map holds none.
pub open spec fn entered(
    b: Built,
    this: Ptr<ObjcClass>,
    m: Ptr<ObjcMethod>,
    map: Seq<(SelectorView, Ptr<ObjcSelector>)>,
    policy: KeyPolicy,
) -> Built {
    match found_in(map, policy, b.methods[m.index()].raw_name, b.methods[m.index()].types) {
        Some(selector) => Built {
            dtable: b.dtable.insert(selector@, m),
            methods: b.methods.update(
                m.index(),
                MethodView { name: Some(selector), ..b.methods[m.index()] },
            ),
            queue: b.queue,
        },
        None => Built { queue: b.queue.push((this, m)), ..b },
    }
}

/// What the builder makes of the methods `chain` of class `this`, first to
/// last: a later method takes the place of an earlier one under the same
/// selector, and the methods without a selector are queued in their order.
pub open spec fn built(
    b: Built,
    this: Ptr<ObjcClass>,
    chain: Seq<Ptr<ObjcMethod>>,
    map: Seq<(SelectorView, Ptr<ObjcSelector>)>,
    policy: KeyPolicy,
) -> Built
    decreases chain.len(),
{
    if chain.len() == 0 {
        b
    } else {
        entered(built(b, this, chain.drop_last(), map, policy), this, chain.last(), map, policy)
    }
}

impl View for ObjcClass {
    type V = ClassView;

    closed spec fn view(&self) -> ClassView {
        ClassView {
            class_pointer: self.class_pointer,
            super_name: self.super_name@,
            super_pointer: self.super_pointer,
            name: self.name@,
            version: self.version,
            info: self.info,
            instance_size: self.instance_size,
            ivars: match self.ivars {
                Some(list) => Some(list@),
                None => None,
            },
            methods: chain_view(self.methods),
            dtable: self.dtable@,
        }
    }
}

impl ObjcClass {
    /// A record as the compiler emits it: the superclass named and not yet
    /// found, the dispatch table empty.
    pub fn new(
        class_pointer: Option<Ptr<ObjcClass>>,
        super_name: StrPtr,
        name: StrPtr,
        version: i64,
        info: u64,
        instance_size: i64,
        ivars: Option<ObjcIvarList>,
        methods: Option<ObjcMethodList>,
    ) -> (class: ObjcClass)
        ensures
            class@ == (ClassView {
                class_pointer,
                super_name: super_name@,
                super_pointer: None,
                name: name@,
                version,
                info,
                instance_size,
                ivars: match ivars {
                    Some(list) => Some(list@),
                    None => None,
                },
                methods: match methods {
                    Some(list) => list@,
                    None => Seq::empty(),
                },
                dtable: Map::empty(),
            }),
    {
        let methods = match methods {
            Some(list) => Some(Box::new(list)),
            None => None,
        };
        ObjcClass {
            class_pointer,
            super_name,
            super_pointer: None,
            name,
            version,
            info,
            instance_size,
            ivars,
            methods,
            dtable: HashMap::new(),
        }
    }

    /// Makes the record as the compiler emits it: no superclass found, the
    /// dispatch table empty.
    pub fn reset(&mut self)
        ensures
            final(self)@ == (ClassView {
                super_pointer: None,
                dtable: Map::empty(),
                ..old(self)@
            }),
    {
        self.super_pointer = None;
        self.dtable = HashMap::new();
    }

    /// The metaclass of a class; `None` in the record of a metaclass.
    pub fn class_pointer(&self) -> (isa: &Option<Ptr<ObjcClass>>)
        ensures
            *isa == self@.class_pointer,
    {
        &self.class_pointer
    }

    /// The metaclass of a class, for writing.
    pub fn class_pointer_mut(&mut self) -> (isa: &mut Option<Ptr<ObjcClass>>)
        ensures
            *isa == old(self)@.class_pointer,
            final(self)@ == (ClassView { class_pointer: *final(isa), ..old(self)@ }),
    {
        &mut self.class_pointer
    }

    /// The superclass, once it is found; `None` for a root and for an orphan.
    pub fn super_pointer(&self) -> (sup: &Option<Ptr<ObjcClass>>)
        ensures
            *sup == self@.super_pointer,
    {
        &self.super_pointer
    }

    /// The superclass as the compiler named it; null for a root.
    pub fn super_name(&self) -> (name: &StrPtr)
        ensures
            name@ == self@.super_name,
    {
        &self.super_name
    }

    /// The name of the class.
    pub fn get_name(&self) -> (name: &StrPtr)
        ensures
            name@ == self@.name,
    {
        &self.name
    }

    /// The version that the compiler recorded.
    pub fn version(&self) -> (v: i64)
        ensures
            v == self@.version,
    {
        self.version
    }

    /// The size of an instance in bytes; zero where the record gives a size
    /// that no instance can have.
    pub fn get_instance_size(&self) -> (size: usize)
        ensures
            size == self@.size(),
    {
        if self.instance_size < 0 {
            return 0;
        }
        if self.instance_size as u64 > usize::MAX as u64 {
            return 0;
        }
        self.instance_size as usize
    }

    /// Whether the record is marked as a class.
    pub fn is_class(&self) -> (b: bool)
        ensures
            b == self@.is_class(),
    {
        self.info & INFO_CLASS != 0
    }

    /// Whether the record is marked as a metaclass.
    pub fn is_meta(&self) -> (b: bool)
        ensures
            b == self@.is_meta(),
    {
        self.info & INFO_META != 0
    }

    /// The instance variables, if the class declares any.
    pub fn ivars(&self) -> (ivars: Option<&ObjcIvarList>)
        ensures
            match ivars {
                Some(list) => self@.ivars == Some(list@),
                None => self@.ivars.is_none(),
            },
    {
        self.ivars.as_ref()
    }

    /// The chain of method lists, if the record has one.
    pub fn methods(&self) -> (methods: Option<&ObjcMethodList>)
        ensures
            match methods {
                Some(list) => self@.methods == list@,
                None => self@.methods.len() == 0,
            },
    {
        match &self.methods {
            Some(list) => Some(&**list),
            None => None,
        }
    }

    /// The method that this record itself answers `selector` with; the
    /// superclass is not asked.
    pub fn own_method(&self, selector: Ptr<ObjcSelector>) -> (m: Option<Ptr<ObjcMethod>>)
        ensures
            m == self@.own_method(selector),
    {
        broadcast use vstd::std_specs::hash::group_hash_axioms;

        let key = selector.as_ptr();
        match self.dtable.get(&key) {
            Some(m) => Some(*m),
            None => None,
        }
    }

    /// The method that answers `selector` for this class: the one in the
    /// record's own dispatch table, or else the answer of the superclass,
    /// and so on up. `None` where the walk ends at a root without an answer.
    /// The walk visits at most as many records as the arena of `ctx` holds.
    pub fn resolve_method(&self, ctx: &Context, selector: Ptr<ObjcSelector>) -> (m: Option<
        Ptr<ObjcMethod>,
    >)
        requires
            ctx.wf(),
        ensures
            m == ctx@.resolve_method(self@, selector),
    {
        match self.own_method(selector) {
            Some(m) => {
                return Some(m);
            },
            None => {},
        }
        let mut fuel = ctx.class_count();
        let mut next = *self.super_pointer();
        loop
            invariant
                ctx.wf(),
                fuel <= ctx@.classes.len(),
                ctx@.resolve_method(self@, selector) == match next {
                    Some(s) => if fuel > 0 && ctx@.has_class(s) {
                        ctx@.resolved(ctx@.class(s), selector, (fuel - 1) as nat)
                    } else {
                        None
                    },
                    None => None,
                },
            decreases fuel,
        {
            let s = match next {
                Some(s) => s,
                None => {
                    return None;
                },
            };
            if fuel == 0 {
                return None;
            }
            let class = match ctx.class(s) {
                Some(class) => class,
                None => {
                    return None;
                },
            };
            match class.own_method(selector) {
                Some(m) => {
                    return Some(m);
                },
                None => {},
            }
            fuel = fuel - 1;
            next = *class.super_pointer();
        }
    }

    /// Tries to link method `m` through a module's selector map and to enter
    /// it in the dispatch table. Where the map holds the method's name and
    /// type encoding, the method record in `methods` is linked to that
    /// selector and the method stands under it in the table, in place of
    /// what stood there; where it does not, the method is queued behind
    /// `unresolved`, paired with `this`, the record's own handle.
    pub fn enter_method(
        &mut self,
        this: Ptr<ObjcClass>,
        m: Ptr<ObjcMethod>,
        map: &SelectorMap,
        methods: &mut Vec<ObjcMethod>,
        unresolved: &mut Vec<(Ptr<ObjcClass>, Ptr<ObjcMethod>)>,
    ) -> (linked: bool)
        requires
            m.within(old(methods)@.len()),
        ensures
            linked == map@.find(
                method_views(old(methods)@)[m.index()].raw_name,
                method_views(old(methods)@)[m.index()].types,
            ).is_some(),
            (Built {
                dtable: final(self)@.dtable,
                methods: method_views(final(methods)@),
                queue: final(unresolved)@,
            }) == entered(
                Built {
                    dtable: old(self)@.dtable,
                    methods: method_views(old(methods)@),
                    queue: old(unresolved)@,
                },
                this,
                m,
                map@.pairs,
                map@.policy,
            ),
            final(self)@ == (ClassView { dtable: final(self)@.dtable, ..old(self)@ }),
    {
        broadcast use vstd::std_specs::hash::group_hash_axioms;

        let i = m.slot();
        let found = map.get(methods[i].raw_name(), methods[i].types());
        match found {
            Some(selector) => {
                methods[i].link_to_selector(selector);
                self.dtable.insert(selector.as_ptr(), m);
                proof {
                    assert(method_views(methods@) =~= method_views(old(methods)@).update(
                        m.index(),
                        MethodView { name: Some(selector), ..method_views(old(methods)@)[m.index()] },
                    ));
                }
                true
            },
            None => {
                unresolved.push((this, m));
                false
            },
        }
    }

    /// Builds the dispatch table: empties it, walks the record's chain of
    /// method lists in order and enters each method under the selector that
    /// the module's map holds for it, a later method in place of an earlier
    /// one under the same selector. A method that the map holds no selector
    /// for is queued behind `unresolved`, paired with `this`, the record's
    /// own handle; the queue keeps the order of the chain. Nothing of the
    /// superclass enters the table.
    pub fn initialize(
        &mut self,
        this: Ptr<ObjcClass>,
        map: &SelectorMap,
        methods: &mut Vec<ObjcMethod>,
        unresolved: &mut Vec<(Ptr<ObjcClass>, Ptr<ObjcMethod>)>,
    )
        requires
            forall|k: int|
                0 <= k < old(self)@.methods.len() ==> (#[trigger] old(self)@.methods[k]).within(
                    old(methods)@.len(),
                ),
        ensures
            (Built {
                dtable: final(self)@.dtable,
                methods: method_views(final(methods)@),
                queue: final(unresolved)@,
            }) == built(
                Built {
                    dtable: Map::empty(),
                    methods: method_views(old(methods)@),
                    queue: old(unresolved)@,
                },
                this,
                old(self)@.methods,
                map@.pairs,
                map@.policy,
            ),
            final(self)@ == (ClassView { dtable: final(self)@.dtable, ..old(self)@ }),
    {
        self.initialize_dtable(this, map, methods, unresolved);
    }

    fn initialize_dtable(
        &mut self,
        this: Ptr<ObjcClass>,
        map: &SelectorMap,
        methods: &mut Vec<ObjcMethod>,
        unresolved: &mut Vec<(Ptr<ObjcClass>, Ptr<ObjcMethod>)>,
    )
        requires
            forall|k: int|
                0 <= k < old(self)@.methods.len() ==> (#[trigger] old(self)@.methods[k]).within(
                    old(methods)@.len(),
                ),
        ensures
            (Built {
                dtable: final(self)@.dtable,
                methods: method_views(final(methods)@),
                queue: final(unresolved)@,
            }) == built(
                Built {
                    dtable: Map::empty(),
                    methods: method_views(old(methods)@),
                    queue: old(unresolved)@,
                },
                this,
                old(self)@.methods,
                map@.pairs,
                map@.policy,
            ),
            final(self)@ == (ClassView { dtable: final(self)@.dtable, ..old(self)@ }),
    {
        self.dtable = HashMap::new();
        let chain = match &self.methods {
            Some(list) => list.to_vec(),
            None => Vec::new(),
        };
        let ghost start = Built {
            dtable: Map::empty(),
            methods: method_views(old(methods)@),
            queue: old(unresolved)@,
        };
        proof {
            assert(chain@.take(0) =~= Seq::empty());
        }
        let mut i: usize = 0;
        while i < chain.len()
            invariant
                i <= chain.len(),
                chain@ == old(self)@.methods,
                methods@.len() == old(methods)@.len(),
                forall|k: int| 0 <= k < chain.len() ==> (#[trigger] chain@[k]).within(methods@.len()),
                self@ == (ClassView { dtable: self@.dtable, ..old(self)@ }),
                (Built {
                    dtable: self@.dtable,
                    methods: method_views(methods@),
                    queue: unresolved@,
                }) == built(start, this, chain@.take(i as int), map@.pairs, map@.policy),
            decreases chain.len() - i,
        {
            self.enter_method(this, chain[i], map, methods, unresolved);
            proof {
                assert(chain@.take(i + 1).drop_last() == chain@.take(i as int));
                assert(method_views(methods@).len() == methods@.len());
            }
            i = i + 1;
        }
        proof {
            assert(chain@.take(i as int) == chain@);
        }
    }

    /// Tries to find the superclass in `table`, and says whether the record
    /// is now settled: `true` for a root and for a class whose superclass was
    /// found, `false` for an orphan, which is left as it was.
    pub fn initialize_super_pointer(&mut self, table: &ClassTable) -> (settled: bool)
        ensures
            settled == old(self)@.linkable(table@),
            final(self)@ == old(self)@.linked(table@),
    {
        let found = match self.super_name.as_ref() {
            None => {
                return true;
            },
            Some(name) => table.lookup(name),
        };
        match found {
            Some(entry) => {
                let p = if self.is_meta() {
                    entry.meta_class()
                } else {
                    entry.class()
                };
                self.super_pointer = Some(p);
                true
            },
            None => false,
        }
    }

    /// Enters `method` in the dispatch table under the selector `name`, in
    /// place of what was there, and hands back what was there.
    pub fn register_method(&mut self, name: Ptr<ObjcSelector>, method: Ptr<ObjcMethod>) -> (previous:
        Option<Ptr<ObjcMethod>>)
        ensures
            previous == old(self)@.own_method(name),
            final(self)@ == (ClassView {
                dtable: old(self)@.dtable.insert(name@, method),
                ..old(self)@
            }),
    {
        broadcast use vstd::std_specs::hash::group_hash_axioms;

        self.dtable.insert(name.as_ptr(), method)
    }

    /// Puts the chain `list` in front of the record's chain of method lists.
    pub fn prepend_methods(&mut self, list: ObjcMethodList)
        ensures
            final(self)@ == (ClassView { methods: list@ + old(self)@.methods, ..old(self)@ }),
    {
        let tail = self.methods.take();
        self.methods = Some(Box::new(list.prepend_to(tail)));
    }
}

} // verus!
