//! Modules: what the compiler emits for one translation unit, and the symbol
//! table through which the loader reaches its classes, categories and
//! selectors.

use crate::category::ObjcCategory;
use crate::class::ObjcClass;
use crate::ptr::Ptr;
use crate::selector::KeyPolicy;
use crate::selector::ObjcSelector;
use crate::selector::SelectorTable;
use crate::selector::SelectorTableView;
use crate::selector::SelectorView;
use crate::str_ptr::StrPtr;
use vstd::prelude::*;

verus! {

/// The selector references that a module declares: the records of `refs` in
/// front of the first one without a name. That record ends the array; it and
/// whatever follows it are not part of the declaration.
pub open spec fn declared(refs: Seq<SelectorView>) -> Seq<SelectorView>
    decreases refs.len(),
{
    if refs.len() == 0 || refs[0].id.is_none() {
        Seq::empty()
    } else {
        seq![refs[0]] + declared(refs.skip(1))
    }
}

/// The table after each of `refs` was interned, first to last.
pub open spec fn interned_all(table: SelectorTableView, refs: Seq<SelectorView>) -> SelectorTableView
    decreases refs.len(),
{
    if refs.len() == 0 {
        table
    } else {
        interned_all(table, refs.drop_last()).intern(refs.last().id, refs.last().types)
    }
}

/// A module's symbol table: the selector references, the counts of class and
/// category definitions, and the definitions themselves, classes first.
pub struct ObjcSymtab {
    refs: Vec<ObjcSelector>,
    cls_def_cnt: u16,
    cat_def_cnt: u16,
    defs: Vec<Ptr<()>>,
}

/// What a symbol table holds.
pub ghost struct SymtabView {
    /// The array of selector references, with its end mark if it has one.
    pub refs: Seq<SelectorView>,
    pub cls_def_cnt: u16,
    pub cat_def_cnt: u16,
    /// The definitions: `cls_def_cnt` classes, then `cat_def_cnt` categories.
    pub defs: Seq<Ptr<()>>,
}

impl SymtabView {
    /// The definitions are as many as the two counts say.
    pub open spec fn wf(self) -> bool {
        self.defs.len() == self.cls_def_cnt + self.cat_def_cnt
    }

    /// The table with definition `i` replaced by `def`.
    pub open spec fn with_def(self, i: int, def: Ptr<()>) -> SymtabView {
        SymtabView { defs: self.defs.update(i, def), ..self }
    }

    /// The class definitions, in order.
    pub open spec fn classes(self) -> Seq<Ptr<ObjcClass>> {
        Seq::new(self.cls_def_cnt as nat, |i: int| self.defs[i].cast::<ObjcClass>())
    }

    /// The category definitions, in order.
    pub open spec fn categories(self) -> Seq<Ptr<ObjcCategory>> {
        Seq::new(
            self.cat_def_cnt as nat,
            |j: int| self.defs[self.cls_def_cnt + j].cast::<ObjcCategory>(),
        )
    }

    /// The selector references that the module declares.
    pub open spec fn selectors(self) -> Seq<SelectorView> {
        declared(self.refs)
    }
}

impl View for ObjcSymtab {
    type V = SymtabView;

    closed spec fn view(&self) -> SymtabView {
        SymtabView {
            refs: self.refs@.map_values(|s: ObjcSelector| s@),
            cls_def_cnt: self.cls_def_cnt,
            cat_def_cnt: self.cat_def_cnt,
            defs: self.defs@,
        }
    }
}

impl ObjcSymtab {
    #[verifier::type_invariant]
    spec fn counted(self) -> bool {
        self.defs.len() == self.cls_def_cnt + self.cat_def_cnt
    }

    /// A symbol table. `None` where `defs` does not hold exactly
    /// `cls_def_cnt + cat_def_cnt` definitions.
    pub fn new(refs: Vec<ObjcSelector>, cls_def_cnt: u16, cat_def_cnt: u16, defs: Vec<Ptr<()>>) -> (symtab:
        Option<ObjcSymtab>)
        ensures
            match symtab {
                Some(t) => t@ == (SymtabView {
                    refs: refs@.map_values(|s: ObjcSelector| s@),
                    cls_def_cnt,
                    cat_def_cnt,
                    defs: defs@,
                }) && t@.wf(),
                None => defs@.len() != cls_def_cnt + cat_def_cnt,
            },
    {
        let cls: usize = cls_def_cnt as usize;
        let cat: usize = cat_def_cnt as usize;
        if defs.len() != cls + cat {
            return None;
        }
        Some(ObjcSymtab { refs, cls_def_cnt, cat_def_cnt, defs })
    }

    /// The number of class definitions.
    pub fn cls_def_cnt(&self) -> (count: usize)
        ensures
            count == self@.cls_def_cnt,
            count == self@.classes().len(),
    {
        self.cls_def_cnt as usize
    }

    /// The number of category definitions.
    pub fn cat_def_cnt(&self) -> (count: usize)
        ensures
            count == self@.cat_def_cnt,
            count == self@.categories().len(),
    {
        self.cat_def_cnt as usize
    }

    fn nth_def<T>(&self, i: usize) -> (def: Option<Ptr<T>>)
        ensures
            self@.wf(),
            def == if i < self@.defs.len() {
                Some(self@.defs[i as int].cast::<T>())
            } else {
                None
            },
    {
        proof {
            use_type_invariant(self);
        }
        let num_entries = self.cls_def_cnt() + self.cat_def_cnt();
        if i >= num_entries {
            return None;
        }
        Some(self.defs[i].cast())
    }

    /// The `i`-th class definition; `None` for an index at or past the count
    /// of classes.
    pub fn nth_class_ptr(&self, i: usize) -> (class: Option<Ptr<ObjcClass>>)
        ensures
            class == if i < self@.classes().len() {
                Some(self@.classes()[i as int])
            } else {
                None
            },
    {
        if i >= self.cls_def_cnt() {
            return None;
        }
        self.nth_def(i)
    }

    /// The `i`-th class definition, for writing; `None` for an index at or
    /// past the count of classes.
    pub fn nth_class_ptr_mut(&mut self, i: usize) -> (class: Option<&mut Ptr<()>>)
        ensures
            match class {
                Some(p) => i < old(self)@.cls_def_cnt && *p == old(self)@.defs[i as int]
                    && final(self)@ == old(self)@.with_def(i as int, *final(p)),
                None => i >= old(self)@.cls_def_cnt && final(self)@ == old(self)@,
            },
    {
        proof {
            use_type_invariant(&*self);
        }
        if i >= self.cls_def_cnt as usize {
            return None;
        }
        Some(&mut self.defs[i])
    }

    /// The `i`-th category definition, for writing; `None` for an index at or
    /// past the count of categories.
    pub fn nth_category_ptr_mut(&mut self, i: usize) -> (category: Option<&mut Ptr<()>>)
        ensures
            match category {
                Some(p) => i < old(self)@.cat_def_cnt && *p == old(self)@.defs[old(
                    self,
                )@.cls_def_cnt + i] && final(self)@ == old(self)@.with_def(
                    old(self)@.cls_def_cnt + i,
                    *final(p),
                ),
                None => i >= old(self)@.cat_def_cnt && final(self)@ == old(self)@,
            },
    {
        proof {
            use_type_invariant(&*self);
        }
        if i >= self.cat_def_cnt as usize {
            return None;
        }
        let at = self.cls_def_cnt as usize + i;
        Some(&mut self.defs[at])
    }

    /// The `i`-th category definition; `None` for an index at or past the
    /// count of categories.
    pub fn nth_category_ptr(&self, i: usize) -> (category: Option<Ptr<ObjcCategory>>)
        ensures
            category == if i < self@.categories().len() {
                Some(self@.categories()[i as int])
            } else {
                None
            },
    {
        if i >= self.cat_def_cnt() {
            return None;
        }
        self.nth_def(self.cls_def_cnt() + i)
    }

    /// A walk over the class definitions, in order.
    pub fn iter_class(&self) -> (it: ObjcClassIterator<'_>)
        ensures
            it@ == self@.classes(),
    {
        ObjcClassIterator { symtab: self, index: 0 }
    }

    /// A walk over the category definitions, in order.
    pub fn iter_category(&self) -> (it: ObjcCategoryIterator<'_>)
        ensures
            it@ == self@.categories(),
    {
        ObjcCategoryIterator { symtab: self, index: 0 }
    }

    /// A walk over the selector references that the module declares.
    pub fn iter_selector(&self) -> (it: ObjcSelectorIterator<'_>)
        ensures
            it@ == self@.selectors(),
    {
        assert(self@.refs.skip(0) == self@.refs);
        ObjcSelectorIterator { symtab: self, index: Some(0) }
    }

    /// Interns every selector reference that the module declares, first to
    /// last, and returns the module's own map from selector to identity. A
    /// reference that the table does not admit is passed over.
    pub fn create_selector_map(&self, table: &mut SelectorTable) -> (map: SelectorMap)
        requires
            old(table)@.wf(),
        ensures
            final(table)@ == interned_all(old(table)@, self@.selectors()),
            final(table)@.wf(),
            map@.pairs == declared_under(final(table)@, self@.selectors()),
            map@.policy == final(table)@.policy,
            map@.wf(),
            sound_under(final(table)@, map@.pairs),
    {
        let mut entries: Vec<(ObjcSelector, Ptr<ObjcSelector>)> = Vec::new();
        let mut it = self.iter_selector();
        let ghost all = self@.selectors();
        let ghost mut done: Seq<SelectorView> = Seq::empty();
        loop
            invariant
                all == self@.selectors(),
                done + it@ == all,
                table@ == interned_all(old(table)@, done),
                table@.wf(),
                table@.policy == old(table)@.policy,
                SelectorMap::pairs(entries@) == declared_under(table@, done),
                sound_under(table@, SelectorMap::pairs(entries@)),
                forall|k: int|
                    0 <= k < done.len() && table@.admits((#[trigger] done[k]).id, done[k].types)
                        ==> table@.knows(done[k].id, done[k].types),
            ensures
                done == all,
                table@ == interned_all(old(table)@, done),
                table@.wf(),
                table@.policy == old(table)@.policy,
                SelectorMap::pairs(entries@) == declared_under(table@, done),
                sound_under(table@, SelectorMap::pairs(entries@)),
            decreases it@.len(),
        {
            let ghost before = table@;
            let ghost rest = it@;
            let ghost pairs_before = SelectorMap::pairs(entries@);
            match it.next() {
                Some(selector) => {
                    let found = table.intern(selector.get_id(), selector.get_types());
                    proof {
                        let next = done.push(selector@);
                        assert(next.drop_last() == done);
                        assert(next + rest.skip(1) == all);
                        lemma_declared_under_keeps(before, done, selector@);
                        before.lemma_intern_wf(selector@.id, selector@.types);
                        assert forall|k: int|
                            0 <= k < next.len() && table@.admits(
                                (#[trigger] next[k]).id,
                                next[k].types,
                            ) implies table@.knows(next[k].id, next[k].types) by {
                            if k < done.len() {
                                assert(next[k] == done[k]);
                                before.lemma_intern_keeps(
                                    selector@.id,
                                    selector@.types,
                                    done[k].id,
                                    done[k].types,
                                );
                            } else {
                                before.lemma_intern_knows(selector@.id, selector@.types);
                            }
                        }
                        done = next;
                        assert(sound_under(table@, pairs_before)) by {
                            assert forall|k: int| 0 <= k < pairs_before.len() implies table@.names(
                                (#[trigger] pairs_before[k]).1,
                                pairs_before[k].0.id,
                                pairs_before[k].0.types,
                            ) by {
                                assert(before.names(
                                    pairs_before[k].1,
                                    pairs_before[k].0.id,
                                    pairs_before[k].0.types,
                                ));
                            }
                        }
                    }
                    let held = find_pair(
                        &entries,
                        table.policy(),
                        selector.get_id(),
                        selector.get_types(),
                    );
                    match (found, held) {
                        (Some(identity), None) => {
                            entries.push((selector.clone(), identity));
                            proof {
                                assert(SelectorMap::pairs(entries@) =~= declared_under(
                                    table@,
                                    done,
                                ));
                                assert(SelectorMap::pairs(entries@) =~= pairs_before.push(
                                    (selector@, identity),
                                ));
                            }
                        },
                        _ => {
                            assert(SelectorMap::pairs(entries@) =~= declared_under(table@, done));
                        },
                    }
                },
                None => {
                    assert(done == all);
                    break ;
                },
            }
        }
        proof {
            lemma_declared_under_distinct(table@, all);
        }
        SelectorMap { policy: table.policy(), entries }
    }
}

/// What a module's selector map holds after its references `refs` were
/// interned into `table`: each reference that the table admits, with the
/// identity that the table gives it, in the order of declaration. A reference
/// whose key the map holds already is passed over, so the map has one pair
/// for each selector that the module declares.
pub open spec fn declared_under(table: SelectorTableView, refs: Seq<SelectorView>) -> Seq<
    (SelectorView, Ptr<ObjcSelector>),
>
    decreases refs.len(),
{
    if refs.len() == 0 {
        Seq::empty()
    } else {
        let r = refs.last();
        let front = declared_under(table, refs.drop_last());
        if table.admits(r.id, r.types) && found_in(front, table.policy, r.id, r.types).is_none() {
            front.push((r, table.identity(r.id, r.types)))
        } else {
            front
        }
    }
}

/// Whether pair `e` stands under the key `(name, types)`.
pub open spec fn keyed(
    e: (SelectorView, Ptr<ObjcSelector>),
    policy: KeyPolicy,
    name: Option<Seq<char>>,
    types: Option<Seq<char>>,
) -> bool {
    e.0.id == name && (policy == KeyPolicy::NameAndTypes ==> e.0.types == types)
}

/// Whether no two pairs of `pairs` stand under one key.
pub open spec fn distinct_keys(pairs: Seq<(SelectorView, Ptr<ObjcSelector>)>, policy: KeyPolicy) -> bool {
    forall|i: int, j: int|
        0 <= i < j < pairs.len() ==> !keyed(
            #[trigger] pairs[i],
            policy,
            (#[trigger] pairs[j]).0.id,
            pairs[j].0.types,
        )
}

/// Where a map finds nothing for a key, none of its pairs stands under it.
pub proof fn lemma_found_in_none(
    pairs: Seq<(SelectorView, Ptr<ObjcSelector>)>,
    policy: KeyPolicy,
    name: Option<Seq<char>>,
    types: Option<Seq<char>>,
)
    requires
        found_in(pairs, policy, name, types).is_none(),
    ensures
        forall|k: int| 0 <= k < pairs.len() ==> !keyed(#[trigger] pairs[k], policy, name, types),
    decreases pairs.len(),
{
    if pairs.len() > 0 {
        lemma_found_in_none(pairs.skip(1), policy, name, types);
        assert forall|k: int| 0 <= k < pairs.len() implies !keyed(
            #[trigger] pairs[k],
            policy,
            name,
            types,
        ) by {
            if k > 0 {
                assert(pairs.skip(1)[k - 1] == pairs[k]);
            }
        }
    }
}

/// What the map holds has one pair for each key.
pub proof fn lemma_declared_under_distinct(table: SelectorTableView, refs: Seq<SelectorView>)
    ensures
        distinct_keys(declared_under(table, refs), table.policy),
    decreases refs.len(),
{
    if refs.len() > 0 {
        let r = refs.last();
        let front = declared_under(table, refs.drop_last());
        lemma_declared_under_distinct(table, refs.drop_last());
        if table.admits(r.id, r.types) && found_in(front, table.policy, r.id, r.types).is_none() {
            lemma_found_in_none(front, table.policy, r.id, r.types);
        }
    }
}

/// The table stays well formed while selectors are interned.
pub proof fn lemma_interned_all_wf(table: SelectorTableView, refs: Seq<SelectorView>)
    requires
        table.wf(),
    ensures
        interned_all(table, refs).wf(),
        interned_all(table, refs).policy == table.policy,
    decreases refs.len(),
{
    if refs.len() > 0 {
        lemma_interned_all_wf(table, refs.drop_last());
        interned_all(table, refs.drop_last()).lemma_intern_wf(refs.last().id, refs.last().types);
    }
}

/// Whether every pair of `pairs` holds the identity that `table` gives to the
/// pair's selector.
pub open spec fn sound_under(
    table: SelectorTableView,
    pairs: Seq<(SelectorView, Ptr<ObjcSelector>)>,
) -> bool {
    forall|k: int|
        0 <= k < pairs.len() ==> table.names(
            (#[trigger] pairs[k]).1,
            pairs[k].0.id,
            pairs[k].0.types,
        )
}

/// What a map finds for a key is the identity that the table gives to that
/// key, where the map is sound.
pub proof fn lemma_found_in_sound(
    table: SelectorTableView,
    pairs: Seq<(SelectorView, Ptr<ObjcSelector>)>,
    name: Option<Seq<char>>,
    types: Option<Seq<char>>,
)
    requires
        sound_under(table, pairs),
    ensures
        found_in(pairs, table.policy, name, types) matches Some(sel) ==> table.names(
            sel,
            name,
            types,
        ),
    decreases pairs.len(),
{
    if pairs.len() > 0 {
        assert(table.names(pairs[0].1, pairs[0].0.id, pairs[0].0.types));
        assert forall|k: int| 0 <= k < pairs.skip(1).len() implies table.names(
            (#[trigger] pairs.skip(1)[k]).1,
            pairs.skip(1)[k].0.id,
            pairs.skip(1)[k].0.types,
        ) by {
            assert(pairs.skip(1)[k] == pairs[k + 1]);
        }
        lemma_found_in_sound(table, pairs.skip(1), name, types);
    }
}

/// A map over a table is a map over the table after more selectors were
/// interned: what the table held keeps its place.
pub proof fn lemma_sound_under_grows(
    table: SelectorTableView,
    pairs: Seq<(SelectorView, Ptr<ObjcSelector>)>,
    refs: Seq<SelectorView>,
)
    requires
        table.wf(),
        sound_under(table, pairs),
    ensures
        sound_under(interned_all(table, refs), pairs),
        interned_all(table, refs).policy == table.policy,
    decreases refs.len(),
{
    if refs.len() > 0 {
        lemma_sound_under_grows(table, pairs, refs.drop_last());
        lemma_interned_all_wf(table, refs.drop_last());
        let mid = interned_all(table, refs.drop_last());
        let grown = interned_all(table, refs);
        mid.lemma_intern_wf(refs.last().id, refs.last().types);
        assert forall|k: int| 0 <= k < pairs.len() implies grown.names(
            (#[trigger] pairs[k]).1,
            pairs[k].0.id,
            pairs[k].0.types,
        ) by {
            assert(mid.names(pairs[k].1, pairs[k].0.id, pairs[k].0.types));
            assert(grown.entries[pairs[k].1.index()] == mid.entries[pairs[k].1.index()]);
        }
    }
}

/// After a run of selectors was interned the table holds each of them that it
/// admits.
pub proof fn lemma_interned_all_knows(table: SelectorTableView, refs: Seq<SelectorView>, k: int)
    requires
        table.wf(),
        0 <= k < refs.len(),
        table.admits(refs[k].id, refs[k].types),
    ensures
        interned_all(table, refs).knows(refs[k].id, refs[k].types),
    decreases refs.len(),
{
    let front = refs.drop_last();
    let last = refs.last();
    lemma_interned_all_wf(table, front);
    let mid = interned_all(table, front);
    if k == refs.len() - 1 {
        mid.lemma_intern_knows(last.id, last.types);
    } else {
        assert(front[k] == refs[k]);
        lemma_interned_all_knows(table, front, k);
        mid.lemma_intern_keeps(last.id, last.types, refs[k].id, refs[k].types);
    }
}

/// What the map holds is sound, where the table holds every one of `refs`
/// that it admits and every position of the table has a handle.
pub proof fn lemma_declared_under_sound(table: SelectorTableView, refs: Seq<SelectorView>)
    requires
        table.wf(),
        table.entries.len() <= usize::MAX,
        forall|k: int|
            0 <= k < refs.len() && table.admits((#[trigger] refs[k]).id, refs[k].types)
                ==> table.knows(refs[k].id, refs[k].types),
    ensures
        sound_under(table, declared_under(table, refs)),
    decreases refs.len(),
{
    if refs.len() > 0 {
        let r = refs.last();
        let front = refs.drop_last();
        assert forall|k: int|
            0 <= k < front.len() && table.admits(
                (#[trigger] front[k]).id,
                front[k].types,
            ) implies table.knows(front[k].id, front[k].types) by {
            assert(front[k] == refs[k]);
        }
        lemma_declared_under_sound(table, front);
        if table.admits(r.id, r.types) {
            assert(refs[refs.len() - 1] == r);
            let i = choose|i: int|
                0 <= i < table.entries.len() && i < table.entries.len() && table.same_key(
                    #[trigger] table.entries[i],
                    r.id,
                    r.types,
                );
            table.lemma_one_position(i, r.id, r.types);
            Ptr::<ObjcSelector>::lemma_at_word(i);
        }
    }
}

/// Interning `x` keeps what the map holds for `refs`, where the table holds
/// every one of `refs` that it admits.
pub proof fn lemma_declared_under_keeps(
    table: SelectorTableView,
    refs: Seq<SelectorView>,
    x: SelectorView,
)
    requires
        table.wf(),
        forall|k: int|
            0 <= k < refs.len() && table.admits((#[trigger] refs[k]).id, refs[k].types)
                ==> table.knows(refs[k].id, refs[k].types),
    ensures
        declared_under(table.intern(x.id, x.types), refs) == declared_under(table, refs),
    decreases refs.len(),
{
    if refs.len() > 0 {
        let r = refs.last();
        assert forall|k: int|
            0 <= k < refs.drop_last().len() && table.admits(
                (#[trigger] refs.drop_last()[k]).id,
                refs.drop_last()[k].types,
            ) implies table.knows(refs.drop_last()[k].id, refs.drop_last()[k].types) by {
            assert(refs.drop_last()[k] == refs[k]);
        }
        lemma_declared_under_keeps(table, refs.drop_last(), x);
        table.lemma_intern_wf(x.id, x.types);
        if table.admits(r.id, r.types) {
            assert(refs[refs.len() - 1] == r);
            table.lemma_intern_keeps(x.id, x.types, r.id, r.types);
        }
    }
}

/// A module's own map from selector to identity, made when the module's
/// selector references are interned.
pub struct SelectorMap {
    policy: KeyPolicy,
    entries: Vec<(ObjcSelector, Ptr<ObjcSelector>)>,
}

/// What a selector map holds.
pub ghost struct SelectorMapView {
    /// The policy by which the map tells selectors apart.
    pub policy: KeyPolicy,
    /// The selectors that the module declares, each with its identity, in
    /// the order of declaration.
    pub pairs: Seq<(SelectorView, Ptr<ObjcSelector>)>,
}

impl SelectorMapView {
    /// The identity that the map holds for the key `(name, types)`.
    pub open spec fn find(self, name: Option<Seq<char>>, types: Option<Seq<char>>) -> Option<
        Ptr<ObjcSelector>,
    > {
        found_in(self.pairs, self.policy, name, types)
    }

    /// Whether the map has one pair for each key.
    pub open spec fn wf(self) -> bool {
        distinct_keys(self.pairs, self.policy)
    }
}

impl View for SelectorMap {
    type V = SelectorMapView;

    closed spec fn view(&self) -> SelectorMapView {
        SelectorMapView { policy: self.policy, pairs: SelectorMap::pairs(self.entries@) }
    }
}

fn find_pair(
    entries: &Vec<(ObjcSelector, Ptr<ObjcSelector>)>,
    policy: KeyPolicy,
    name: &StrPtr,
    types: &StrPtr,
) -> (identity: Option<Ptr<ObjcSelector>>)
    ensures
        identity == found_in(SelectorMap::pairs(entries@), policy, name@, types@),
{
    let ghost all = SelectorMap::pairs(entries@);
    let mut i: usize = 0;
    assert(all.skip(0) == all);
    while i < entries.len()
        invariant
            i <= entries.len(),
            all == SelectorMap::pairs(entries@),
            found_in(all, policy, name@, types@) == found_in(
                all.skip(i as int),
                policy,
                name@,
                types@,
            ),
        decreases entries.len() - i,
    {
        let e = &entries[i].0;
        let same = if *e.get_id() == *name {
            match policy {
                KeyPolicy::NameAndTypes => *e.get_types() == *types,
                KeyPolicy::NameOnly => true,
            }
        } else {
            false
        };
        proof {
            assert(all.skip(i as int)[0] == all[i as int]);
            assert(all.skip(i as int).skip(1) == all.skip(i + 1));
        }
        if same {
            return Some(entries[i].1);
        }
        i = i + 1;
    }
    None
}

impl SelectorMap {
    /// The pairs of a map as plain values.
    pub open spec fn pairs(entries: Seq<(ObjcSelector, Ptr<ObjcSelector>)>) -> Seq<
        (SelectorView, Ptr<ObjcSelector>),
    > {
        Seq::new(entries.len(), |i: int| (entries[i].0@, entries[i].1))
    }

    #[verifier::type_invariant]
    spec fn one_pair_per_key(self) -> bool {
        distinct_keys(SelectorMap::pairs(self.entries@), self.policy)
    }

    /// The policy by which the map tells selectors apart.
    pub fn policy(&self) -> (p: KeyPolicy)
        ensures
            p == self@.policy,
    {
        self.policy
    }

    /// The number of selectors that the map holds.
    pub fn len(&self) -> (n: usize)
        ensures
            n == self@.pairs.len(),
            self@.wf(),
    {
        proof {
            use_type_invariant(self);
        }
        self.entries.len()
    }

    /// The identity that the module's map gives to the selector
    /// `(name, types)`; `None` where the module does not declare it.
    pub fn get(&self, name: &StrPtr, types: &StrPtr) -> (identity: Option<Ptr<ObjcSelector>>)
        ensures
            identity == self@.find(name@, types@),
    {
        find_pair(&self.entries, self.policy, name, types)
    }
}

/// The identity that the first pair of `pairs` with the key `(name, types)`
/// holds.
pub open spec fn found_in(
    pairs: Seq<(SelectorView, Ptr<ObjcSelector>)>,
    policy: KeyPolicy,
    name: Option<Seq<char>>,
    types: Option<Seq<char>>,
) -> Option<Ptr<ObjcSelector>>
    decreases pairs.len(),
{
    if pairs.len() == 0 {
        None
    } else if keyed(pairs[0], policy, name, types) {
        Some(pairs[0].1)
    } else {
        found_in(pairs.skip(1), policy, name, types)
    }
}

/// A walk over the class definitions of a symbol table.
pub struct ObjcClassIterator<'a> {
    symtab: &'a ObjcSymtab,
    index: usize,
}

impl<'a> View for ObjcClassIterator<'a> {
    type V = Seq<Ptr<ObjcClass>>;

    /// The definitions that the walk has yet to give, in order.
    closed spec fn view(&self) -> Seq<Ptr<ObjcClass>> {
        if self.index <= self.symtab@.classes().len() {
            self.symtab@.classes().skip(self.index as int)
        } else {
            Seq::empty()
        }
    }
}

impl<'a> ObjcClassIterator<'a> {
    /// The next class definition, or `None` when all were given.
    pub fn next(&mut self) -> (class: Option<Ptr<ObjcClass>>)
        ensures
            match class {
                Some(p) => old(self)@.len() > 0 && p == old(self)@[0] && final(self)@ == old(
                    self,
                )@.skip(1),
                None => old(self)@.len() == 0 && final(self)@.len() == 0,
            },
    {
        let symtab: &'a ObjcSymtab = self.symtab;
        let index = self.index;
        if index >= symtab.cls_def_cnt() {
            return None;
        }
        self.index = index + 1;
        assert(self@ == old(self)@.skip(1));
        symtab.nth_class_ptr(index)
    }
}

/// A walk over the category definitions of a symbol table.
pub struct ObjcCategoryIterator<'a> {
    symtab: &'a ObjcSymtab,
    index: usize,
}

impl<'a> View for ObjcCategoryIterator<'a> {
    type V = Seq<Ptr<ObjcCategory>>;

    /// The definitions that the walk has yet to give, in order.
    closed spec fn view(&self) -> Seq<Ptr<ObjcCategory>> {
        if self.index <= self.symtab@.categories().len() {
            self.symtab@.categories().skip(self.index as int)
        } else {
            Seq::empty()
        }
    }
}

impl<'a> ObjcCategoryIterator<'a> {
    /// The next category definition, or `None` when all were given.
    pub fn next(&mut self) -> (category: Option<Ptr<ObjcCategory>>)
        ensures
            match category {
                Some(p) => old(self)@.len() > 0 && p == old(self)@[0] && final(self)@ == old(
                    self,
                )@.skip(1),
                None => old(self)@.len() == 0 && final(self)@.len() == 0,
            },
    {
        let symtab: &'a ObjcSymtab = self.symtab;
        let index = self.index;
        if index >= symtab.cat_def_cnt() {
            return None;
        }
        self.index = index + 1;
        assert(self@ == old(self)@.skip(1));
        symtab.nth_category_ptr(index)
    }
}

/// A walk over the selector references that a module declares.
pub struct ObjcSelectorIterator<'a> {
    symtab: &'a ObjcSymtab,
    index: Option<usize>,
}

impl<'a> View for ObjcSelectorIterator<'a> {
    type V = Seq<SelectorView>;

    /// The references that the walk has yet to give, in order.
    closed spec fn view(&self) -> Seq<SelectorView> {
        match self.index {
            Some(i) => if i <= self.symtab@.refs.len() {
                declared(self.symtab@.refs.skip(i as int))
            } else {
                Seq::empty()
            },
            None => Seq::empty(),
        }
    }
}

impl<'a> ObjcSelectorIterator<'a> {
    /// The next selector reference, or `None` at the record without a name
    /// that ends the array, and ever after. The end is looked for before
    /// anything else of the record is read.
    pub fn next(&mut self) -> (selector: Option<&'a ObjcSelector>)
        ensures
            match selector {
                Some(s) => old(self)@.len() > 0 && s@ == old(self)@[0] && final(self)@ == old(
                    self,
                )@.skip(1),
                None => old(self)@.len() == 0 && final(self)@.len() == 0,
            },
    {
        let symtab: &'a ObjcSymtab = self.symtab;
        let index = match self.index {
            Some(i) => i,
            None => {
                return None;
            },
        };
        if index >= symtab.refs.len() {
            self.index = None;
            return None;
        }
        let selector = &symtab.refs[index];
        if selector.get_id().is_null() {
            assert(symtab@.refs.skip(index as int)[0] == selector@);
            self.index = None;
            return None;
        }
        proof {
            let rest = symtab@.refs.skip(index as int);
            assert(rest[0] == selector@);
            assert(rest.skip(1) == symtab@.refs.skip(index + 1));
            assert((seq![rest[0]] + declared(rest.skip(1))).skip(1) == declared(rest.skip(1)));
        }
        self.index = Some(index + 1);
        Some(selector)
    }
}

/// A module: the version of the interface it was compiled for, its size, the
/// name of its source, and its symbol table.
pub struct ObjcModule {
    version: u64,
    size: u64,
    name: StrPtr,
    symtab: ObjcSymtab,
}

/// What a module holds.
pub ghost struct ModuleView {
    pub version: u64,
    pub size: u64,
    pub name: Option<Seq<char>>,
    pub symtab: SymtabView,
}

impl View for ObjcModule {
    type V = ModuleView;

    closed spec fn view(&self) -> ModuleView {
        ModuleView {
            version: self.version,
            size: self.size,
            name: self.name@,
            symtab: self.symtab@,
        }
    }
}

impl ObjcModule {
    /// A module with the symbol table `symtab`.
    pub fn new(version: u64, size: u64, name: StrPtr, symtab: ObjcSymtab) -> (module: ObjcModule)
        ensures
            module@ == (ModuleView { version, size, name: name@, symtab: symtab@ }),
    {
        ObjcModule { version, size, name, symtab }
    }

    /// The version of the interface that the module was compiled for.
    pub fn version(&self) -> (v: u64)
        ensures
            v == self@.version,
    {
        self.version
    }

    /// The size of the module record in bytes, as the compiler gave it.
    pub fn size(&self) -> (s: u64)
        ensures
            s == self@.size,
    {
        self.size
    }

    /// The name of the module's source.
    pub fn name(&self) -> (name: &StrPtr)
        ensures
            name@ == self@.name,
    {
        &self.name
    }

    /// The module's symbol table, for writing.
    pub fn symtab_mut(&mut self) -> (symtab: &mut ObjcSymtab)
        ensures
            symtab@ == old(self)@.symtab,
            final(self)@ == (ModuleView { symtab: final(symtab)@, ..old(self)@ }),
    {
        &mut self.symtab
    }

    /// The module's symbol table.
    pub fn symtab(&self) -> (symtab: &ObjcSymtab)
        ensures
            symtab@ == self@.symtab,
    {
        &self.symtab
    }
}

} // verus!
