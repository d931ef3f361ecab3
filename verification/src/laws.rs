//! What holds of every state of the runtime, proved from the invariant and
//! from the definitions of loading and dispatch.

use crate::category::ObjcCategory;
use crate::class::built;
use crate::class::paired_with;
use crate::class::Built;
use crate::class::ClassView;
use crate::class::ObjcClass;
use crate::context::ClassTableEntry;
use crate::state::ContextView;
use crate::method::ObjcMethod;
use crate::method::Procedure;
use crate::module::declared_under;
use crate::module::distinct_keys;
use crate::module::found_in;
use crate::module::lemma_declared_under_distinct;
use crate::module::lemma_declared_under_sound;
use crate::module::lemma_interned_all_knows;
use crate::module::lemma_sound_under_grows;
use crate::module::sound_under;
use crate::object::ObjcObject;
use crate::ptr::Ptr;
use crate::selector::ObjcSelector;
use crate::selector::SelectorTableView;
use crate::selector::SelectorView;
use vstd::prelude::*;

verus! {

/// A registered class is marked as a class, its own class is its metaclass,
/// which is marked as a metaclass, and the two are different records.
pub proof fn lemma_registered_class_has_metaclass(v: ContextView, name: Seq<char>)
    requires
        v.wf(),
        v.class_table.contains_key(name),
    ensures
        v.has_class(v.class_table[name].class()),
        v.has_class(v.class_table[name].meta_class()),
        v.class(v.class_table[name].class()).is_class(),
        v.class(v.class_table[name].class()).class_pointer == Some(
            v.class_table[name].meta_class(),
        ),
        v.class(v.class_table[name].meta_class()).is_meta(),
        v.class_table[name].class() != v.class_table[name].meta_class(),
        v.class(v.class_table[name].class()).name == Some(name),
{
    assert(v.pair_wf(name, v.class_table[name]));
}

/// A class and its superclass are of one kind: both metaclasses or neither.
pub proof fn lemma_superclass_of_same_kind(v: ContextView, class: Ptr<ObjcClass>)
    requires
        v.wf(),
        v.has_class(class),
        v.class(class).super_pointer.is_some(),
    ensures
        v.has_class(v.class(class).super_pointer.unwrap()),
        v.class(v.class(class).super_pointer.unwrap()).is_meta() == v.class(class).is_meta(),
{
    assert(v.class_wf(v.classes[class.index()]));
}

/// Of two classes registered under one name the registry keeps one entry,
/// that of the class registered last.
pub proof fn lemma_one_entry_per_name(v: ContextView, first: Ptr<ObjcClass>, second: Ptr<ObjcClass>)
    requires
        v.has_class(first),
        v.has_class(second),
        v.class(first).name.is_some(),
        v.class(first).name == v.class(second).name,
    ensures
        v.registered(first).registered(second).class_table == v.registered(second).class_table,
        v.registered(first).registered(second).class_table.dom() == v.class_table.dom().insert(
            v.class(first).name.unwrap(),
        ),
        v.registered(first).registered(second).class_table[v.class(first).name.unwrap()]
            == ClassTableEntry::new(second, v.class(second).class_pointer.unwrap()),
{
    assert(v.registered(first).registered(second).class_table =~= v.registered(
        second,
    ).class_table);
    assert(v.registered(second).class_table.dom() =~= v.class_table.dom().insert(
        v.class(first).name.unwrap(),
    ));
}

/// A method in a dispatch table is linked to the selector that it stands
/// under, and that selector is the identity that the selector table gives to
/// the method's name and type encoding.
pub proof fn lemma_dispatch_entry_is_canonical(
    v: ContextView,
    class: Ptr<ObjcClass>,
    selector: Ptr<ObjcSelector>,
)
    requires
        v.wf(),
        v.has_class(class),
        v.class(class).own_method(selector).is_some(),
    ensures
        v.has_method(v.class(class).own_method(selector).unwrap()),
        v.method(v.class(class).own_method(selector).unwrap()).name == Some(selector),
        v.selectors.knows(
            v.method(v.class(class).own_method(selector).unwrap()).raw_name,
            v.method(v.class(class).own_method(selector).unwrap()).types,
        ),
        v.selectors.identity(
            v.method(v.class(class).own_method(selector).unwrap()).raw_name,
            v.method(v.class(class).own_method(selector).unwrap()).types,
        ) == selector,
{
    let c = v.classes[class.index()];
    let m = c.dtable[selector@];
    assert(v.class_wf(c));
    assert(c.dtable.contains_key(selector@));
    assert(v.entry_wf(selector@, m));
    selector.lemma_at_index();
    v.selectors.lemma_one_position(selector.index(), v.method(m).raw_name, v.method(m).types);
}

/// A message to nil and a nil message are answered by the no-op procedure.
pub proof fn lemma_nil_is_answered_by_no_op(
    v: ContextView,
    receiver: Option<Ptr<ObjcObject>>,
    selector: Option<Ptr<ObjcSelector>>,
)
    ensures
        v.msg_lookup(None, selector) == Procedure::null_procedure(),
        v.msg_lookup(receiver, None) == Procedure::null_procedure(),
        forall|start: Ptr<ObjcClass>| #[trigger]
            v.msg_lookup_super(None, start, selector) == Procedure::null_procedure(),
        forall|start: Ptr<ObjcClass>| #[trigger]
            v.msg_lookup_super(receiver, start, None) == Procedure::null_procedure(),
{
}

/// The no-op procedure is the code of no method: where a class or one of its
/// superclasses has a method for the message, the answer is not the no-op
/// procedure, so a caller can tell a method that was found from a message
/// that nobody answers.
pub proof fn lemma_found_is_not_no_op(
    v: ContextView,
    receiver: Ptr<ObjcObject>,
    selector: Ptr<ObjcSelector>,
)
    requires
        v.wf(),
        v.has_object(receiver),
    ensures
        v.resolve_method(v.class(v.object(receiver).class_pointer), selector).is_some() <==> v.msg_lookup(
            Some(receiver),
            Some(selector),
        ) != Procedure::null_procedure(),
{
    let c = v.object(receiver).class_pointer;
    assert(v.objects[receiver.index()] == Some(v.object(receiver)));
    assert(v.class_wf(v.classes[c.index()]));
    v.lemma_resolved_has_method(v.class(c), selector, v.classes.len());
    match v.resolve_method(v.class(c), selector) {
        Some(m) => {
            assert(v.methods[m.index()].imp != Procedure::null_procedure());
        },
        None => {},
    }
}

/// A message to an instance that was disposed of is answered by the no-op
/// procedure.
pub proof fn lemma_disposed_is_answered_by_no_op(
    v: ContextView,
    receiver: Ptr<ObjcObject>,
    selector: Option<Ptr<ObjcSelector>>,
)
    ensures
        v.instance_disposed(receiver).msg_lookup(Some(receiver), selector)
            == Procedure::null_procedure(),
{
}

/// A message that neither the receiver's class nor any class up its chain
/// has a method for is answered by the no-op procedure.
pub proof fn lemma_unknown_is_answered_by_no_op(
    v: ContextView,
    receiver: Ptr<ObjcObject>,
    selector: Ptr<ObjcSelector>,
)
    requires
        v.has_object(receiver),
        v.has_class(v.object(receiver).class_pointer),
        v.resolve_method(v.class(v.object(receiver).class_pointer), selector).is_none(),
    ensures
        v.msg_lookup(Some(receiver), Some(selector)) == Procedure::null_procedure(),
{
}

/// A class that has no method of its own for a selector answers with the
/// method of its superclass; a message to `super` starts at the superclass
/// and finds the same method.
pub proof fn lemma_superclass_answers(
    v: ContextView,
    receiver: Ptr<ObjcObject>,
    selector: Ptr<ObjcSelector>,
)
    requires
        v.wf(),
        v.has_object(receiver),
        v.class(v.object(receiver).class_pointer).own_method(selector).is_none(),
        v.class(v.object(receiver).class_pointer).super_pointer.is_some(),
        v.class(v.class(v.object(receiver).class_pointer).super_pointer.unwrap()).own_method(
            selector,
        ).is_some(),
    ensures
        v.msg_lookup(Some(receiver), Some(selector)) == v.method(
            v.class(v.class(v.object(receiver).class_pointer).super_pointer.unwrap()).own_method(
                selector,
            ).unwrap(),
        ).imp,
        v.msg_lookup_super(
            Some(receiver),
            v.class(v.object(receiver).class_pointer).super_pointer.unwrap(),
            Some(selector),
        ) == v.msg_lookup(Some(receiver), Some(selector)),
{
    let c = v.object(receiver).class_pointer;
    assert(v.objects[receiver.index()] == Some(v.object(receiver)));
    assert(v.class_wf(v.classes[c.index()]));
    let s = v.class(c).super_pointer.unwrap();
    assert(v.has_class(s));
    assert(v.classes.len() > 0);
    let n = v.classes.len();
    assert(v.resolved(v.class(c), selector, n) == v.resolved(
        v.class(s),
        selector,
        (n - 1) as nat,
    ));
}

/// A class answers a selector that it has a method of its own for with that
/// method, whatever its superclasses hold.
pub proof fn lemma_own_method_answers(
    v: ContextView,
    receiver: Ptr<ObjcObject>,
    selector: Ptr<ObjcSelector>,
)
    requires
        v.wf(),
        v.has_object(receiver),
        v.class(v.object(receiver).class_pointer).own_method(selector).is_some(),
    ensures
        v.msg_lookup(Some(receiver), Some(selector)) == v.method(
            v.class(v.object(receiver).class_pointer).own_method(selector).unwrap(),
        ).imp,
{
    assert(v.objects[receiver.index()] == Some(v.object(receiver)));
}

/// Of the methods queued for one class that a module's map links to one
/// selector, the one queued last stands in the class's dispatch table after
/// the pass. A category is attached behind the class that it extends, so its
/// methods are queued behind the class's own and take their place.
pub proof fn lemma_last_queued_method_wins(
    v: ContextView,
    queue: Seq<(Ptr<ObjcClass>, Ptr<ObjcMethod>)>,
    map: Seq<(SelectorView, Ptr<ObjcSelector>)>,
    last: int,
    selector: Ptr<ObjcSelector>,
)
    requires
        v.wf(),
        sound_under(v.selectors, map),
        forall|k: int|
            0 <= k < queue.len() ==> v.has_class((#[trigger] queue[k]).0) && v.has_method(
                queue[k].1,
            ),
        0 <= last < queue.len(),
        found_in(
            map,
            v.selectors.policy,
            v.method(queue[last].1).raw_name,
            v.method(queue[last].1).types,
        ) == Some(selector),
        forall|k: int|
            last < k < queue.len() && (#[trigger] queue[k]).0 == queue[last].0 ==> found_in(
                map,
                v.selectors.policy,
                v.method(queue[k].1).raw_name,
                v.method(queue[k].1).types,
            ) != Some(selector),
    ensures
        v.methods_tried(queue, map).class(queue[last].0).own_method(selector) == Some(
            queue[last].1,
        ),
    decreases queue.len(),
{
    let front = queue.drop_last();
    assert forall|k: int| 0 <= k < front.len() implies v.has_class((#[trigger] front[k]).0)
        && v.has_method(front[k].1) by {
        assert(front[k] == queue[k]);
    }
    v.lemma_methods_tried_keeps(front, map);
    let mid = v.methods_tried(front, map);
    let (c, m) = queue.last();
    assert(queue[queue.len() - 1] == (c, m));
    let winner = queue[last];
    assert(mid.methods[m.index()].raw_name == v.methods[m.index()].raw_name);
    assert(mid.methods[m.index()].types == v.methods[m.index()].types);
    if last == queue.len() - 1 {
    } else {
        assert(front[last] == queue[last]);
        assert forall|k: int| last < k < front.len() && (#[trigger] front[k]).0
            == front[last].0 implies found_in(
            map,
            v.selectors.policy,
            v.method(front[k].1).raw_name,
            v.method(front[k].1).types,
        ) != Some(selector) by {
            assert(front[k] == queue[k]);
        }
        lemma_last_queued_method_wins(v, front, map, last, selector);
        let found = found_in(map, mid.selectors.policy, mid.method(m).raw_name, mid.method(m).types);
        if found.is_some() {
            let sel = found.unwrap();
            if c.index() == winner.0.index() {
                c.lemma_same_word(winner.0);
                assert(sel != selector);
                sel.lemma_same_word(selector);
            }
        }
    }
}

/// After a pass over the queue of unlinked methods, a message to an instance
/// of a class is answered by the code of the method that was queued last for
/// that class and that selector.
pub proof fn lemma_last_queued_method_answers(
    v: ContextView,
    map: Seq<(SelectorView, Ptr<ObjcSelector>)>,
    last: int,
    selector: Ptr<ObjcSelector>,
    receiver: Ptr<ObjcObject>,
)
    requires
        v.wf(),
        sound_under(v.selectors, map),
        0 <= last < v.unresolved_methods.len(),
        v.has_object(receiver),
        v.object(receiver).class_pointer == v.unresolved_methods[last].0,
        found_in(
            map,
            v.selectors.policy,
            v.method(v.unresolved_methods[last].1).raw_name,
            v.method(v.unresolved_methods[last].1).types,
        ) == Some(selector),
        forall|k: int|
            last < k < v.unresolved_methods.len() && (#[trigger] v.unresolved_methods[k]).0
                == v.unresolved_methods[last].0 ==> found_in(
                map,
                v.selectors.policy,
                v.method(v.unresolved_methods[k].1).raw_name,
                v.method(v.unresolved_methods[k].1).types,
            ) != Some(selector),
    ensures
        v.methods_pass(map).msg_lookup(Some(receiver), Some(selector)) == v.method(
            v.unresolved_methods[last].1,
        ).imp,
{
    let start = ContextView { unresolved_methods: Seq::empty(), ..v };
    let queue = v.unresolved_methods;
    v.lemma_without_methods_wf();
    assert forall|k: int| 0 <= k < queue.len() implies start.has_class((#[trigger] queue[k]).0)
        && start.has_method(queue[k].1) by {
        assert(v.has_class(v.unresolved_methods[k].0));
    }
    start.lemma_methods_tried_keeps(queue, map);
    lemma_last_queued_method_wins(start, queue, map, last, selector);
    let after = v.methods_pass(map);
    let m = queue[last].1;
    assert(after.methods[m.index()].imp == v.methods[m.index()].imp);
    lemma_own_method_answers(after, receiver, selector);
}

/// A category's method answers in place of whatever stood under its selector:
/// after a category is attached to its class and the queue of unlinked
/// methods is passed over, a message to an instance of the class is answered
/// by the code of the category's method, where the module's map holds the
/// method's selector and no later instance method of the category has the
/// same one.
pub proof fn lemma_attached_category_overrides(
    v: ContextView,
    category: Ptr<ObjcCategory>,
    at: int,
    map: Seq<(SelectorView, Ptr<ObjcSelector>)>,
    selector: Ptr<ObjcSelector>,
    receiver: Ptr<ObjcObject>,
)
    requires
        v.wf(),
        sound_under(v.selectors, map),
        v.has_category(category),
        v.category(category).target(v.class_table).is_some(),
        v.has_object(receiver),
        v.object(receiver).class_pointer == v.category(category).target(
            v.class_table,
        ).unwrap().class(),
        0 <= at < v.category(category).instance_methods.len(),
        found_in(
            map,
            v.selectors.policy,
            v.method(v.category(category).instance_methods[at]).raw_name,
            v.method(v.category(category).instance_methods[at]).types,
        ) == Some(selector),
        forall|j: int|
            at < j < v.category(category).instance_methods.len() ==> found_in(
                map,
                v.selectors.policy,
                v.method(#[trigger] v.category(category).instance_methods[j]).raw_name,
                v.method(v.category(category).instance_methods[j]).types,
            ) != Some(selector),
    ensures
        v.category_attached(category).methods_pass(map).msg_lookup(
            Some(receiver),
            Some(selector),
        ) == v.method(v.category(category).instance_methods[at]).imp,
{
    let k = v.category(category);
    let entry = k.target(v.class_table).unwrap();
    let attached = v.category_attached(category);
    v.lemma_attached_wf(category, entry);
    let name = k.class_name.unwrap();
    assert(v.pair_wf(name, v.class_table[name]));
    let before = v.unresolved_methods.len() as int;
    let last = before + at;
    let queue = attached.unresolved_methods;
    assert(queue[last] == (entry.class(), k.instance_methods[at]));
    assert forall|i: int|
        last < i < queue.len() && (#[trigger] queue[i]).0 == queue[last].0 implies found_in(
        map,
        attached.selectors.policy,
        attached.method(queue[i].1).raw_name,
        attached.method(queue[i].1).types,
    ) != Some(selector) by {
        let j = i - before;
        if j < k.instance_methods.len() {
            assert(queue[i] == (entry.class(), k.instance_methods[j]));
        } else {
            assert(queue[i] == (
                entry.meta_class(),
                k.class_methods[j - k.instance_methods.len()],
            ));
        }
    }
    lemma_last_queued_method_answers(attached, map, last, selector, receiver);
}

/// The drain of the orphan queue makes no more passes than the queue holds
/// classes.
pub proof fn lemma_orphan_passes_bounded(v: ContextView)
    ensures
        v.orphan_passes() <= v.orphan_classes.len(),
    decreases v.orphan_classes.len(),
{
    if v.orphan_classes.len() > 0 {
        let next = v.orphans_pass();
        if next.orphan_classes.len() < v.orphan_classes.len() {
            lemma_orphan_passes_bounded(next);
        }
    }
}

/// The drain of the category queue makes no more passes than the queue holds
/// categories.
pub proof fn lemma_category_passes_bounded(v: ContextView)
    ensures
        v.category_passes() <= v.unresolved_categories.len(),
    decreases v.unresolved_categories.len(),
{
    if v.unresolved_categories.len() > 0 {
        let next = v.categories_pass();
        if next.unresolved_categories.len() < v.unresolved_categories.len() {
            lemma_category_passes_bounded(next);
        }
    }
}

/// The drain of the method queue makes no more passes than the queue holds
/// methods.
pub proof fn lemma_method_passes_bounded(v: ContextView, map: Seq<(SelectorView, Ptr<ObjcSelector>)>)
    ensures
        v.method_passes(map) <= v.unresolved_methods.len(),
    decreases v.unresolved_methods.len(),
{
    if v.unresolved_methods.len() > 0 {
        let next = v.methods_pass(map);
        if next.unresolved_methods.len() < v.unresolved_methods.len() {
            lemma_method_passes_bounded(next, map);
        }
    }
}

/// The map that a module's selector references give is a map over the table
/// that they were interned into: each pair holds the identity that the table
/// gives to its selector. So what holds of every sound map holds of the map
/// that a load works with.
pub proof fn lemma_declared_map_is_sound(v: ContextView, refs: Seq<SelectorView>)
    requires
        v.wf(),
        v.selectors_declared(refs).selectors.entries.len() <= usize::MAX,
    ensures
        v.selectors_declared(refs).wf(),
        sound_under(
            v.selectors_declared(refs).selectors,
            declared_under(v.selectors_declared(refs).selectors, refs),
        ),
        distinct_keys(
            declared_under(v.selectors_declared(refs).selectors, refs),
            v.selectors.policy,
        ),
{
    let table = v.selectors_declared(refs).selectors;
    v.lemma_interned_wf(refs);
    assert forall|k: int|
        0 <= k < refs.len() && table.admits((#[trigger] refs[k]).id, refs[k].types) implies table.knows(
        refs[k].id,
        refs[k].types,
    ) by {
        lemma_interned_all_knows(v.selectors, refs, k);
    }
    lemma_declared_under_sound(table, refs);
    lemma_declared_under_distinct(table, refs);
}

/// A module's selector map stays a map over the selector table when later
/// modules declare their selectors: identities are never taken back.
pub proof fn lemma_map_stays_sound(
    v: ContextView,
    map: Seq<(SelectorView, Ptr<ObjcSelector>)>,
    refs: Seq<SelectorView>,
)
    requires
        v.wf(),
        sound_under(v.selectors, map),
    ensures
        sound_under(v.selectors_declared(refs).selectors, map),
        v.selectors_declared(refs).selectors.policy == v.selectors.policy,
{
    lemma_sound_under_grows(v.selectors, map, refs);
}

/// The dispatch table that is built for a class holds, under each selector
/// that the module's map finds for a method of the class's chain, the last
/// such method of the chain.
pub proof fn lemma_built_table_holds_last(
    v: ContextView,
    class: Ptr<ObjcClass>,
    map: Seq<(SelectorView, Ptr<ObjcSelector>)>,
    last: int,
    selector: Ptr<ObjcSelector>,
)
    requires
        v.wf(),
        v.has_class(class),
        sound_under(v.selectors, map),
        0 <= last < v.class(class).methods.len(),
        found_in(
            map,
            v.selectors.policy,
            v.method(v.class(class).methods[last]).raw_name,
            v.method(v.class(class).methods[last]).types,
        ) == Some(selector),
        forall|k: int|
            last < k < v.class(class).methods.len() ==> found_in(
                map,
                v.selectors.policy,
                v.method(#[trigger] v.class(class).methods[k]).raw_name,
                v.method(v.class(class).methods[k]).types,
            ) != Some(selector),
    ensures
        v.initialized(class, map).class(class).own_method(selector) == Some(
            v.class(class).methods[last],
        ),
{
    let chain = v.class(class).methods;
    let emptied = v.with_class(class, ClassView { dtable: Map::empty(), ..v.class(class) });
    let queue = paired_with(class, chain);
    v.lemma_initialized_wf(class, map);
    v.lemma_emptied_wf(class);
    assert(v.class_wf(v.classes[class.index()]));
    assert forall|k: int| 0 <= k < queue.len() implies emptied.has_class((#[trigger] queue[k]).0)
        && emptied.has_method(queue[k].1) by {
        assert(v.has_method(chain[k]));
    }
    assert(queue[last] == (class, chain[last]));
    assert forall|k: int| last < k < queue.len() && (#[trigger] queue[k]).0
        == queue[last].0 implies found_in(
        map,
        emptied.selectors.policy,
        emptied.method(queue[k].1).raw_name,
        emptied.method(queue[k].1).types,
    ) != Some(selector) by {
        assert(queue[k] == (class, chain[k]));
    }
    lemma_last_queued_method_wins(emptied, queue, map, last, selector);
}

/// The dispatch table that is built for a class holds nothing but methods of
/// the class's own chain: nothing of the superclass enters it.
pub proof fn lemma_built_table_holds_own(
    v: ContextView,
    class: Ptr<ObjcClass>,
    map: Seq<(SelectorView, Ptr<ObjcSelector>)>,
    chain: Seq<Ptr<ObjcMethod>>,
    word: usize,
)
    requires
        built(
            Built { dtable: Map::empty(), ..v.building(class) },
            class,
            chain,
            map,
            v.selectors.policy,
        ).dtable.contains_key(word),
    ensures
        chain.contains(
            built(
                Built { dtable: Map::empty(), ..v.building(class) },
                class,
                chain,
                map,
                v.selectors.policy,
            ).dtable[word],
        ),
    decreases chain.len(),
{
    if chain.len() > 0 {
        let start = Built { dtable: Map::empty(), ..v.building(class) };
        let front = built(start, class, chain.drop_last(), map, v.selectors.policy);
        let m = chain.last();
        let after = built(start, class, chain, map, v.selectors.policy);
        assert(chain[chain.len() - 1] == m);
        if front.dtable.contains_key(word) && after.dtable[word] == front.dtable[word] {
            lemma_built_table_holds_own(v, class, map, chain.drop_last(), word);
            let held = front.dtable[word];
            let i = choose|i: int| 0 <= i < chain.drop_last().len() && chain.drop_last()[i] == held;
            assert(chain[i] == held);
        }
    }
}

/// Interning a selector a second time changes nothing and gives the same
/// identity: two modules that declare one selector share it.
pub proof fn lemma_intern_twice(
    table: SelectorTableView,
    name: Option<Seq<char>>,
    types: Option<Seq<char>>,
)
    requires
        table.wf(),
        table.admits(name, types),
    ensures
        table.intern(name, types).intern(name, types) == table.intern(name, types),
        table.intern(name, types).knows(name, types),
{
    table.lemma_intern_knows(name, types);
}

} // verus!
