//! Versioned properties of files and directories.
use vstd::prelude::*;
use crate::strmap::StrMap;

pub mod svn_props;

verus! {

/// A property value.
pub type PropertyValue = String;

/// The properties of one path.
#[derive(Debug, Clone)]
pub struct PropertySet {
    /// Property name → value.
    pub properties: StrMap<PropertyValue>,
}

impl PropertySet {
    /// The set's invariant: each name occurs once.
    pub open spec fn wf(&self) -> bool {
        self.properties.wf()
    }

    /// Name → value.
    pub open spec fn view(&self) -> Map<Seq<char>, PropertyValue> {
        self.properties.view()
    }

    /// An empty property set.
    pub fn new() -> (p: Self)
        ensures
            p.wf(),
            p.view() == Map::<Seq<char>, PropertyValue>::empty(),
    {
        PropertySet { properties: StrMap::new() }
    }

    /// The value of a property.
    pub fn get(&self, name: &str) -> (r: Option<&PropertyValue>)
        requires
            self.wf(),
        ensures
            match r {
                Some(v) => self.view().contains_key(name@) && self.view()[name@] == *v,
                None => !self.view().contains_key(name@),
            },
    {
        self.properties.get(name)
    }

    /// Sets a property.
    pub fn set(&mut self, name: String, value: PropertyValue)
        requires
            old(self).wf(),
        ensures
            final(self).wf(),
            final(self).view() == old(self).view().insert(name@, value),
    {
        self.properties.insert(name, value);
    }

    /// Removes a property, returning its value.
    pub fn remove(&mut self, name: &str) -> (r: Option<PropertyValue>)
        requires
            old(self).wf(),
        ensures
            final(self).wf(),
            final(self).view() == old(self).view().remove(name@),
            match r {
                Some(v) => old(self).view().contains_key(name@) && old(self).view()[name@] == v,
                None => !old(self).view().contains_key(name@),
            },
    {
        self.properties.remove(name)
    }

    /// The names of all properties, each once.
    pub fn list(&self) -> (r: Vec<String>)
        requires
            self.wf(),
        ensures
            r@.len() == self.view().dom().len(),
            forall|i: int| 0 <= i < r@.len() ==> self.view().contains_key(#[trigger] r@[i]@),
            forall|n: Seq<char>| #[trigger] self.view().contains_key(n) ==> exists|i: int|
                0 <= i < r@.len() && r@[i]@ == n,
    {
        let r = self.properties.keys();
        proof {
            crate::strmap::lemma_assoc_dom_len(self.properties.entries_view());
            let s = self.properties.entries_view();
            assert forall|i: int| 0 <= i < r@.len() implies self.view().contains_key(#[trigger] r@[i]@) by {
                assert(s[i].0@ == r@[i]@);
            }
            assert forall|n: Seq<char>| #[trigger] self.view().contains_key(n) implies exists|i: int|
                0 <= i < r@.len() && r@[i]@ == n by {
                let j = choose|j: int| 0 <= j < s.len() && #[trigger] s[j].0@ == n;
                assert(r@[j]@ == n);
            }
        }
        r
    }

    /// Whether a property is set.
    pub fn contains(&self, name: &str) -> (b: bool)
        requires
            self.wf(),
        ensures
            b == self.view().contains_key(name@),
    {
        self.properties.contains_key(name)
    }
}

impl Default for PropertySet {
    fn default() -> (p: Self)
        ensures
            p.wf(),
            p.view() == Map::<Seq<char>, PropertyValue>::empty(),
    {
        Self::new()
    }
}

/// Setting a property and reading it back gives the value written; other names keep
/// their values.
pub proof fn law_property_set_get(
    before: Map<Seq<char>, PropertyValue>,
    name: Seq<char>,
    value: PropertyValue,
    other: Seq<char>,
)
    requires
        other != name,
    ensures
        before.insert(name, value)[name] == value,
        before.insert(name, value).contains_key(other) == before.contains_key(other),
        before.contains_key(other) ==> before.insert(name, value)[other] == before[other],
{
}

} // verus!
