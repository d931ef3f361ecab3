//! Selectors and the table that gives each one a single identity.

use crate::ptr::Ptr;
use crate::str_ptr::StrPtr;
use vstd::prelude::*;

verus! {

/// A selector record: a message name and the encoding of its argument types.
pub struct ObjcSelector {
    sel_id: StrPtr,
    sel_types: StrPtr,
}

/// What a selector record holds.
pub ghost struct SelectorView {
    pub id: Option<Seq<char>>,
    pub types: Option<Seq<char>>,
}

impl View for ObjcSelector {
    type V = SelectorView;

    closed spec fn view(&self) -> SelectorView {
        SelectorView { id: self.sel_id@, types: self.sel_types@ }
    }
}

impl ObjcSelector {
    /// A record for the message `id` with the type encoding `types`.
    pub fn new(id: StrPtr, types: StrPtr) -> (s: ObjcSelector)
        ensures
            s@ == (SelectorView { id: id@, types: types@ }),
    {
        ObjcSelector { sel_id: id, sel_types: types }
    }

    /// The message name.
    pub fn get_id(&self) -> (id: &StrPtr)
        ensures
            id@ == self@.id,
    {
        &self.sel_id
    }

    /// The type encoding.
    pub fn get_types(&self) -> (types: &StrPtr)
        ensures
            types@ == self@.types,
    {
        &self.sel_types
    }
}

impl Clone for ObjcSelector {
    fn clone(&self) -> (s: Self)
        ensures
            s@ == self@,
    {
        ObjcSelector { sel_id: self.sel_id.clone(), sel_types: self.sel_types.clone() }
    }
}

/// Which part of a selector decides its identity.
#[derive(Clone, Copy, PartialEq, Eq, Structural, Debug)]
pub enum KeyPolicy {
    /// Name and type encoding both: two selectors with one name and different
    /// encodings are different selectors.
    NameAndTypes,
    /// The name alone; the encoding of the first record seen is kept.
    NameOnly,
}

/// What a selector table holds: its policy and its records in the order in
/// which they were interned. The identity of record `i` is the handle whose
/// index is `i`.
pub ghost struct SelectorTableView {
    pub policy: KeyPolicy,
    pub entries: Seq<SelectorView>,
}

impl SelectorTableView {
    /// Whether a record may be interned: it has a name and, where the type
    /// encoding is part of the key, an encoding.
    pub open spec fn admits(self, name: Option<Seq<char>>, types: Option<Seq<char>>) -> bool {
        name.is_some() && (self.policy == KeyPolicy::NameAndTypes ==> types.is_some())
    }

    /// Whether record `e` is the selector that `(name, types)` asks for.
    pub open spec fn same_key(
        self,
        e: SelectorView,
        name: Option<Seq<char>>,
        types: Option<Seq<char>>,
    ) -> bool {
        e.id == name && (self.policy == KeyPolicy::NameAndTypes ==> e.types == types)
    }

    /// Whether some record among the first `n` is the selector asked for.
    pub open spec fn known_before(
        self,
        n: int,
        name: Option<Seq<char>>,
        types: Option<Seq<char>>,
    ) -> bool {
        exists|i: int|
            0 <= i < n && i < self.entries.len() && self.same_key(
                #[trigger] self.entries[i],
                name,
                types,
            )
    }

    /// Whether the table holds the selector asked for.
    pub open spec fn knows(self, name: Option<Seq<char>>, types: Option<Seq<char>>) -> bool {
        self.known_before(self.entries.len() as int, name, types)
    }

    /// The position of the first record that is the selector asked for.
    pub open spec fn position(self, name: Option<Seq<char>>, types: Option<Seq<char>>) -> int {
        choose|i: int|
            0 <= i < self.entries.len() && self.same_key(#[trigger] self.entries[i], name, types)
                && !self.known_before(i, name, types)
    }

    /// Every record may be interned, and no two records are the same selector.
    pub open spec fn wf(self) -> bool {
        &&& forall|i: int|
            0 <= i < self.entries.len() ==> self.admits(
                (#[trigger] self.entries[i]).id,
                self.entries[i].types,
            )
        &&& forall|i: int, j: int|
            0 <= i < j < self.entries.len() ==> !self.same_key(
                #[trigger] self.entries[i],
                (#[trigger] self.entries[j]).id,
                self.entries[j].types,
            )
    }

    /// The table after `(name, types)` was interned.
    pub open spec fn intern(self, name: Option<Seq<char>>, types: Option<Seq<char>>) -> Self {
        if self.admits(name, types) && !self.knows(name, types) {
            SelectorTableView {
                policy: self.policy,
                entries: self.entries.push(SelectorView { id: name, types }),
            }
        } else {
            self
        }
    }

    /// Whether some record among the first `n` has the name `name`.
    pub open spec fn named_before(self, n: int, name: Option<Seq<char>>) -> bool {
        exists|i: int| 0 <= i < n && i < self.entries.len() && (#[trigger] self.entries[i]).id == name
    }

    /// Whether the table holds a selector called `name`, whatever its type
    /// encoding.
    pub open spec fn knows_name(self, name: Option<Seq<char>>) -> bool {
        self.named_before(self.entries.len() as int, name)
    }

    /// The position of the first record called `name`.
    pub open spec fn name_position(self, name: Option<Seq<char>>) -> int {
        choose|i: int|
            0 <= i < self.entries.len() && (#[trigger] self.entries[i]).id == name
                && !self.named_before(i, name)
    }

    /// The first selector called `name` that the table holds.
    pub open spec fn first_named(self, name: Option<Seq<char>>) -> Ptr<ObjcSelector> {
        Ptr::at(self.name_position(name))
    }

    /// Whether `sel` is the identity of a record of the table.
    pub open spec fn holds(self, sel: Ptr<ObjcSelector>) -> bool {
        sel.within(self.entries.len())
    }

    /// Whether `sel` is the identity that the table gives to `(name, types)`.
    pub open spec fn names(
        self,
        sel: Ptr<ObjcSelector>,
        name: Option<Seq<char>>,
        types: Option<Seq<char>>,
    ) -> bool {
        self.holds(sel) && self.same_key(self.entries[sel.index()], name, types)
    }

    /// The identity that the table gives to `(name, types)`.
    pub open spec fn identity(self, name: Option<Seq<char>>, types: Option<Seq<char>>) -> Ptr<
        ObjcSelector,
    > {
        Ptr::at(self.position(name, types))
    }

    /// Interning keeps the table well formed and its policy.
    pub proof fn lemma_intern_wf(self, name: Option<Seq<char>>, types: Option<Seq<char>>)
        requires
            self.wf(),
        ensures
            self.intern(name, types).wf(),
            self.intern(name, types).policy == self.policy,
            self.intern(name, types).entries.len() >= self.entries.len(),
            forall|i: int|
                0 <= i < self.entries.len() ==> self.intern(name, types).entries[i]
                    == self.entries[i],
    {
        let after = self.intern(name, types);
        if self.admits(name, types) && !self.knows(name, types) {
            assert forall|i: int, j: int| 0 <= i < j < after.entries.len() implies !after.same_key(
                #[trigger] after.entries[i],
                (#[trigger] after.entries[j]).id,
                after.entries[j].types,
            ) by {
                if j == after.entries.len() - 1 {
                    if after.same_key(after.entries[i], name, types) {
                        assert(self.same_key(self.entries[i], name, types));
                    }
                } else {
                    assert(self.same_key(
                        self.entries[i],
                        self.entries[j].id,
                        self.entries[j].types,
                    ) == after.same_key(
                        after.entries[i],
                        after.entries[j].id,
                        after.entries[j].types,
                    ));
                }
            }
        }
    }

    /// After `(name, types)` was interned the table holds it, if it admits it.
    pub proof fn lemma_intern_knows(self, name: Option<Seq<char>>, types: Option<Seq<char>>)
        requires
            self.wf(),
            self.admits(name, types),
        ensures
            self.intern(name, types).knows(name, types),
    {
        let after = self.intern(name, types);
        if !self.knows(name, types) {
            let n = self.entries.len() as int;
            assert(after.same_key(after.entries[n], name, types));
        } else {
            assert(after == self);
        }
    }

    /// Interning one selector does not change the identity of another that
    /// the table holds already.
    pub proof fn lemma_intern_keeps(
        self,
        name: Option<Seq<char>>,
        types: Option<Seq<char>>,
        held_name: Option<Seq<char>>,
        held_types: Option<Seq<char>>,
    )
        requires
            self.wf(),
            self.knows(held_name, held_types),
        ensures
            self.intern(name, types).knows(held_name, held_types),
            self.intern(name, types).position(held_name, held_types) == self.position(
                held_name,
                held_types,
            ),
            self.intern(name, types).identity(held_name, held_types) == self.identity(
                held_name,
                held_types,
            ),
    {
        let after = self.intern(name, types);
        self.lemma_intern_wf(name, types);
        let i = choose|i: int|
            0 <= i < self.entries.len() && i < self.entries.len() && self.same_key(
                #[trigger] self.entries[i],
                held_name,
                held_types,
            );
        self.lemma_one_position(i, held_name, held_types);
        assert(after.same_key(after.entries[i], held_name, held_types));
        after.lemma_one_position(i, held_name, held_types);
    }

    /// In a well-formed table a selector has one position.
    pub proof fn lemma_one_position(
        self,
        i: int,
        name: Option<Seq<char>>,
        types: Option<Seq<char>>,
    )
        requires
            self.wf(),
            0 <= i < self.entries.len(),
            self.same_key(self.entries[i], name, types),
        ensures
            self.knows(name, types),
            self.position(name, types) == i,
    {
        assert(self.known_before(self.entries.len() as int, name, types));
        assert forall|j: int|
            0 <= j < self.entries.len() && self.same_key(#[trigger] self.entries[j], name, types)
                && !self.known_before(j, name, types) implies j == i by {
            if j < i {
                assert(self.same_key(self.entries[j], self.entries[i].id, self.entries[i].types));
            } else if i < j {
                assert(self.same_key(self.entries[i], self.entries[j].id, self.entries[j].types));
            }
        }
        assert(!self.known_before(i, name, types)) by {
            if self.known_before(i, name, types) {
                let j = choose|j: int|
                    0 <= j < i && j < self.entries.len() && self.same_key(
                        #[trigger] self.entries[j],
                        name,
                        types,
                    );
                assert(self.same_key(self.entries[j], self.entries[i].id, self.entries[i].types));
            }
        }
    }
}

/// The selector table: every selector that any loaded module has declared,
/// each under one identity.
pub struct SelectorTable {
    policy: KeyPolicy,
    entries: Vec<ObjcSelector>,
}

impl View for SelectorTable {
    type V = SelectorTableView;

    closed spec fn view(&self) -> SelectorTableView {
        SelectorTableView {
            policy: self.policy,
            entries: self.entries@.map_values(|s: ObjcSelector| s@),
        }
    }
}

impl SelectorTable {
    /// An empty table that tells selectors apart by `policy`.
    pub fn new(policy: KeyPolicy) -> (t: SelectorTable)
        ensures
            t@ == (SelectorTableView { policy, entries: Seq::empty() }),
            t@.wf(),
    {
        let t = SelectorTable { policy, entries: Vec::new() };
        assert(t@.entries =~= Seq::empty());
        t
    }

    /// The policy that the table was made with.
    pub fn policy(&self) -> (p: KeyPolicy)
        ensures
            p == self@.policy,
    {
        self.policy
    }

    /// The number of selectors in the table.
    pub fn len(&self) -> (n: usize)
        ensures
            n == self@.entries.len(),
    {
        self.entries.len()
    }

    /// The record behind an identity; `None` for a handle that the table did
    /// not give out.
    pub fn get(&self, sel: Ptr<ObjcSelector>) -> (r: Option<&ObjcSelector>)
        ensures
            match r {
                Some(s) => self@.holds(sel) && s@ == self@.entries[sel.index()],
                None => !self@.holds(sel),
            },
    {
        let i = sel.slot();
        if i < self.entries.len() {
            Some(&self.entries[i])
        } else {
            None
        }
    }

    fn is_same_key(&self, i: usize, name: &StrPtr, types: &StrPtr) -> (b: bool)
        requires
            i < self@.entries.len(),
        ensures
            b == self@.same_key(self@.entries[i as int], name@, types@),
    {
        let e = &self.entries[i];
        if !(*e.get_id() == *name) {
            return false;
        }
        match self.policy {
            KeyPolicy::NameAndTypes => *e.get_types() == *types,
            KeyPolicy::NameOnly => true,
        }
    }

    /// The identity of the selector `(name, types)`, if the table holds it.
    /// The table is not changed.
    pub fn lookup(&self, name: &StrPtr, types: &StrPtr) -> (r: Option<Ptr<ObjcSelector>>)
        ensures
            match r {
                Some(sel) => self@.knows(name@, types@) && sel == self@.identity(name@, types@)
                    && self@.names(sel, name@, types@),
                None => !self@.knows(name@, types@),
            },
    {
        let mut i: usize = 0;
        while i < self.entries.len()
            invariant
                i <= self@.entries.len(),
                !self@.known_before(i as int, name@, types@),
            decreases self@.entries.len() - i,
        {
            if self.is_same_key(i, name, types) {
                let ghost pos = self@.position(name@, types@);
                proof {
                    assert(self@.known_before(self@.entries.len() as int, name@, types@));
                    // the first match is unique by definition of "first"
                    assert(0 <= pos < self@.entries.len() && self@.same_key(
                        self@.entries[pos],
                        name@,
                        types@,
                    ) && !self@.known_before(pos, name@, types@));
                    if pos < i {
                        assert(self@.known_before(i as int, name@, types@));
                    }
                    if i < pos {
                        assert(self@.known_before(pos, name@, types@));
                    }
                }
                let sel: Ptr<ObjcSelector> = Ptr::new(i + 1);
                proof {
                    sel.lemma_at_index();
                }
                return Some(sel);
            }
            i = i + 1;
        }
        None
    }

    /// The first selector called `name` that the table holds, whatever its
    /// type encoding; `None` where it holds none. The table is not changed.
    pub fn lookup_name(&self, name: &StrPtr) -> (r: Option<Ptr<ObjcSelector>>)
        ensures
            match r {
                Some(sel) => self@.knows_name(name@) && sel == self@.first_named(name@)
                    && self@.holds(sel) && self@.entries[sel.index()].id == name@,
                None => !self@.knows_name(name@),
            },
    {
        let mut i: usize = 0;
        while i < self.entries.len()
            invariant
                i <= self@.entries.len(),
                !self@.named_before(i as int, name@),
            decreases self@.entries.len() - i,
        {
            if *self.entries[i].get_id() == *name {
                let ghost pos = self@.name_position(name@);
                proof {
                    assert(self@.entries[i as int].id == name@);
                    assert(self@.named_before(self@.entries.len() as int, name@));
                    assert(0 <= pos < self@.entries.len() && self@.entries[pos].id == name@
                        && !self@.named_before(pos, name@));
                    if pos < i {
                        assert(self@.named_before(i as int, name@));
                    }
                    if i < pos {
                        assert(self@.named_before(pos, name@));
                    }
                }
                let sel: Ptr<ObjcSelector> = Ptr::new(i + 1);
                proof {
                    sel.lemma_at_index();
                }
                return Some(sel);
            }
            i = i + 1;
        }
        None
    }

    /// The identity of the selector `(name, types)`: the one the table already
    /// holds, or else a new one, recorded behind all others. `None`, and no
    /// change, for a record without a name or, where the encoding is part of
    /// the key, without an encoding.
    pub fn intern(&mut self, name: &StrPtr, types: &StrPtr) -> (r: Option<Ptr<ObjcSelector>>)
        requires
            old(self)@.wf(),
        ensures
            final(self)@ == old(self)@.intern(name@, types@),
            final(self)@.wf(),
            match r {
                Some(sel) => old(self)@.admits(name@, types@) && final(self)@.names(
                    sel,
                    name@,
                    types@,
                ) && sel == final(self)@.identity(name@, types@),
                None => !old(self)@.admits(name@, types@),
            },
    {
        if name.is_null() {
            return None;
        }
        match self.policy {
            KeyPolicy::NameAndTypes => {
                if types.is_null() {
                    return None;
                }
            },
            KeyPolicy::NameOnly => {},
        }
        match self.lookup(name, types) {
            Some(sel) => Some(sel),
            None => {
                let ghost before = self@;
                self.entries.push(ObjcSelector::new(name.clone(), types.clone()));
                let n = self.entries.len();
                proof {
                    let after = self@;
                    assert(after.entries =~= before.entries.push(
                        SelectorView { id: name@, types: types@ },
                    ));
                    before.lemma_intern_wf(name@, types@);
                    after.lemma_one_position(n - 1, name@, types@);
                }
                let sel: Ptr<ObjcSelector> = Ptr::new(n);
                proof {
                    sel.lemma_at_index();
                }
                Some(sel)
            },
        }
    }
}

} // verus!
