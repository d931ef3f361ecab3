//! Interned string handles: names as the compiler wrote them.

use vstd::prelude::*;

verus! {

/// A name supplied by the compiler, or null.
///
/// Two handles are equal when they spell the same text, wherever that text
/// lies: the same name reaches the runtime from many modules. The handle is one
/// word wide, like the pointer to a C string that it stands for.
#[derive(Debug, Hash)]
pub struct StrPtr(Option<Box<String>>);

impl View for StrPtr {
    type V = Option<Seq<char>>;

    /// The text, or `None` for null.
    closed spec fn view(&self) -> Option<Seq<char>> {
        match self.0 {
            Some(s) => Some(s@),
            None => None,
        }
    }
}

impl StrPtr {
    /// The null name.
    pub fn null() -> (p: StrPtr)
        ensures
            p@.is_none(),
    {
        StrPtr(None)
    }

    /// A handle to the text `s`.
    pub fn new(s: &str) -> (p: StrPtr)
        ensures
            p@ == Some(s@),
    {
        StrPtr(Some(Box::new(s.to_owned())))
    }

    /// The text, unless the handle is null.
    pub fn as_ref(&self) -> (s: Option<&str>)
        ensures
            match s {
                Some(t) => self@ == Some(t@),
                None => self@.is_none(),
            },
    {
        match &self.0 {
            Some(b) => Some(b.as_str()),
            None => None,
        }
    }

    /// Whether the handle is null.
    pub fn is_null(&self) -> (b: bool)
        ensures
            b == self@.is_none(),
    {
        self.0.is_none()
    }
}

impl Clone for StrPtr {
    fn clone(&self) -> (p: Self)
        ensures
            p@ == self@,
    {
        match &self.0 {
            Some(b) => StrPtr(Some(Box::new((**b).clone()))),
            None => StrPtr(None),
        }
    }
}

impl PartialEq for StrPtr {
    fn eq(&self, other: &Self) -> (b: bool) {
        match (&self.0, &other.0) {
            (Some(a), Some(b)) => **a == **b,
            (None, None) => true,
            _ => false,
        }
    }
}

impl Eq for StrPtr {

}

impl vstd::std_specs::cmp::PartialEqSpecImpl for StrPtr {
    open spec fn obeys_eq_spec() -> bool {
        true
    }

    open spec fn eq_spec(&self, other: &Self) -> bool {
        self@ == other@
    }
}

} // verus!
