//! Categories: methods that a module adds to a class defined elsewhere.

use crate::class::paired_with;
use crate::class::ObjcClass;
use crate::context::ClassTable;
use crate::context::ClassTableEntry;
use crate::method::chain_view;
use crate::method::ObjcMethod;
use crate::method::ObjcMethodList;
use crate::ptr::Ptr;
use crate::str_ptr::StrPtr;
use vstd::prelude::*;

verus! {

/// A category record: its own name, the name of the class it extends, the
/// instance methods it adds to that class and the class methods it adds to
/// the metaclass.
pub struct ObjcCategory {
    category_name: StrPtr,
    class_name: StrPtr,
    instance_methods: Option<Box<ObjcMethodList>>,
    class_methods: Option<Box<ObjcMethodList>>,
}

/// What a category record holds.
pub ghost struct CategoryView {
    pub category_name: Option<Seq<char>>,
    pub class_name: Option<Seq<char>>,
    pub instance_methods: Seq<Ptr<ObjcMethod>>,
    pub class_methods: Seq<Ptr<ObjcMethod>>,
}

impl CategoryView {
    /// The entry of the class that the category extends, if `table` holds it.
    pub open spec fn target(self, table: Map<Seq<char>, ClassTableEntry>) -> Option<
        ClassTableEntry,
    > {
        match self.class_name {
            Some(n) => if table.contains_key(n) {
                Some(table[n])
            } else {
                None
            },
            None => None,
        }
    }

    /// What the category queues for linking once its class is `entry`: its
    /// instance methods for the class, then its class methods for the
    /// metaclass.
    pub open spec fn deferred(self, entry: ClassTableEntry) -> Seq<
        (Ptr<ObjcClass>, Ptr<ObjcMethod>),
    > {
        paired_with(entry.class(), self.instance_methods) + paired_with(
            entry.meta_class(),
            self.class_methods,
        )
    }
}

impl View for ObjcCategory {
    type V = CategoryView;

    closed spec fn view(&self) -> CategoryView {
        CategoryView {
            category_name: self.category_name@,
            class_name: self.class_name@,
            instance_methods: chain_view(self.instance_methods),
            class_methods: chain_view(self.class_methods),
        }
    }
}

fn queue_all(
    class: Ptr<ObjcClass>,
    methods: &Option<Box<ObjcMethodList>>,
    unresolved: &mut Vec<(Ptr<ObjcClass>, Ptr<ObjcMethod>)>,
)
    ensures
        final(unresolved)@ == old(unresolved)@ + paired_with(class, chain_view(*methods)),
{
    let methods = match methods {
        Some(list) => list.to_vec(),
        None => Vec::new(),
    };
    let mut i: usize = 0;
    while i < methods.len()
        invariant
            i <= methods.len(),
            unresolved@ == old(unresolved)@ + paired_with(class, methods@.take(i as int)),
        decreases methods.len() - i,
    {
        unresolved.push((class, methods[i]));
        proof {
            assert(paired_with(class, methods@.take(i + 1)) =~= paired_with(
                class,
                methods@.take(i as int),
            ).push((class, methods@[i as int])));
        }
        i = i + 1;
    }
    proof {
        assert(methods@.take(i as int) == methods@);
    }
}

impl ObjcCategory {
    /// A category called `category_name` on the class called `class_name`.
    pub fn new(
        category_name: StrPtr,
        class_name: StrPtr,
        instance_methods: Option<ObjcMethodList>,
        class_methods: Option<ObjcMethodList>,
    ) -> (category: ObjcCategory)
        ensures
            category@ == (CategoryView {
                category_name: category_name@,
                class_name: class_name@,
                instance_methods: match instance_methods {
                    Some(list) => list@,
                    None => Seq::empty(),
                },
                class_methods: match class_methods {
                    Some(list) => list@,
                    None => Seq::empty(),
                },
            }),
    {
        let instance_methods = match instance_methods {
            Some(list) => Some(Box::new(list)),
            None => None,
        };
        let class_methods = match class_methods {
            Some(list) => Some(Box::new(list)),
            None => None,
        };
        ObjcCategory { category_name, class_name, instance_methods, class_methods }
    }

    /// The category's own name.
    pub fn category_name(&self) -> (name: &StrPtr)
        ensures
            name@ == self@.category_name,
    {
        &self.category_name
    }

    /// The name of the class that the category extends.
    pub fn class_name(&self) -> (name: &StrPtr)
        ensures
            name@ == self@.class_name,
    {
        &self.class_name
    }

    /// The chain of instance methods, if the category has one.
    pub fn instance_methods(&self) -> (methods: Option<&ObjcMethodList>)
        ensures
            match methods {
                Some(list) => self@.instance_methods == list@,
                None => self@.instance_methods.len() == 0,
            },
    {
        match &self.instance_methods {
            Some(list) => Some(&**list),
            None => None,
        }
    }

    /// The chain of class methods, if the category has one.
    pub fn class_methods(&self) -> (methods: Option<&ObjcMethodList>)
        ensures
            match methods {
                Some(list) => self@.class_methods == list@,
                None => self@.class_methods.len() == 0,
            },
    {
        match &self.class_methods {
            Some(list) => Some(&**list),
            None => None,
        }
    }

    /// Prepares the category before its methods are merged. A category has
    /// nothing to prepare: the record is left as it is.
    pub fn initialize(&mut self)
        ensures
            *final(self) == *old(self),
    {
    }

    /// Queues the category's methods for linking, if `table` holds the class
    /// that the category extends: the instance methods paired with the class,
    /// then the class methods paired with the metaclass, behind `unresolved`.
    /// Returns `false`, and queues nothing, where the class is not registered.
    pub fn defer_resolving_methods(
        &self,
        table: &ClassTable,
        unresolved: &mut Vec<(Ptr<ObjcClass>, Ptr<ObjcMethod>)>,
    ) -> (attached: bool)
        ensures
            attached == self@.target(table@).is_some(),
            final(unresolved)@ == match self@.target(table@) {
                Some(entry) => old(unresolved)@ + self@.deferred(entry),
                None => old(unresolved)@,
            },
    {
        let entry = match self.class_name.as_ref() {
            Some(name) => table.lookup(name),
            None => None,
        };
        let (class, meta_class) = match entry {
            Some(entry) => (entry.class(), entry.meta_class()),
            None => {
                return false;
            },
        };
        queue_all(class, &self.instance_methods, unresolved);
        queue_all(meta_class, &self.class_methods, unresolved);
        true
    }
}

} // verus!
