//! A plain model of an XML element tree: tag name, attributes in document
//! order, and element children in document order.  Sprite sheet sidecars are
//! read through this model; the surrounding application converts parsed XML
//! into it.

use vstd::prelude::*;

verus! {

/// An XML element: its tag name, its attributes, and its element children.
#[derive(Debug)]
pub struct XmlElem {
    pub name: String,
    pub attrs: Vec<(String, String)>,
    pub children: Vec<XmlElem>,
}

/// The first child with the given tag name, if any.
pub open spec fn find_child(s: Seq<XmlElem>, name: Seq<char>, i: int) -> Option<int>
    decreases s.len() - i,
{
    if i < 0 || i >= s.len() {
        None
    } else if s[i].name@ == name {
        Some(i)
    } else {
        find_child(s, name, i + 1)
    }
}

/// The first attribute with the given key, if any.
pub open spec fn find_attr(s: Seq<(String, String)>, key: Seq<char>, i: int) -> Option<int>
    decreases s.len() - i,
{
    if i < 0 || i >= s.len() {
        None
    } else if s[i].0@ == key {
        Some(i)
    } else {
        find_attr(s, key, i + 1)
    }
}

impl XmlElem {
    /// Looks the first child with the given tag name up.
    pub fn child_named(&self, name: &str) -> (r: Option<&XmlElem>)
        ensures
            match r {
                Some(c) => find_child(self.children@, name@, 0) matches Some(i)
                    && *c == self.children@[i],
                None => find_child(self.children@, name@, 0) is None,
            },
    {
        let n = self.children.len();
        let mut i: usize = 0;
        while i < n
            invariant
                n == self.children@.len(),
                i <= n,
                find_child(self.children@, name@, 0) == find_child(self.children@, name@,
                    i as int),
            decreases n - i,
        {
            if crate::strutil::str_eq(self.children[i].name.as_str(), name) {
                return Some(&self.children[i]);
            }
            i = i + 1;
        }
        None
    }

    /// Looks the value of the first attribute with the given key up.
    pub fn attr(&self, key: &str) -> (r: Option<&String>)
        ensures
            match r {
                Some(v) => find_attr(self.attrs@, key@, 0) matches Some(i)
                    && v@ == self.attrs@[i].1@,
                None => find_attr(self.attrs@, key@, 0) is None,
            },
    {
        let n = self.attrs.len();
        let mut i: usize = 0;
        while i < n
            invariant
                n == self.attrs@.len(),
                i <= n,
                find_attr(self.attrs@, key@, 0) == find_attr(self.attrs@, key@, i as int),
            decreases n - i,
        {
            if crate::strutil::str_eq(self.attrs[i].0.as_str(), key) {
                return Some(&self.attrs[i].1);
            }
            i = i + 1;
        }
        None
    }
}

} // verus!
