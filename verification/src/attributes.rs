//! The attributes of one declaration, by name.

use crate::attributes_fields::AttributeFields;
use vstd::hash_map::StringHashMap;
use vstd::prelude::*;

verus! {

/// A map from the name of an attribute to its parameter text.
pub struct Attributes {
    pub data: StringHashMap<AttributeFields>,
}

impl View for Attributes {
    type V = Map<Seq<char>, AttributeFields>;

    open spec fn view(&self) -> Map<Seq<char>, AttributeFields> {
        self.data@
    }
}

impl Attributes {
    /// No attributes.
    pub fn new() -> (r: Self)
        ensures
            r@ == Map::<Seq<char>, AttributeFields>::empty(),
    {
        Self { data: StringHashMap::new() }
    }

    /// Sets the parameter text of the attribute `key`, in place of the one
    /// it had, if any.
    pub fn add(&mut self, key: String, content: Option<Vec<u8>>)
        ensures
            final(self)@ == old(self)@.insert(key@, AttributeFields { content }),
    {
        self.data.insert(key, AttributeFields::new(content));
    }

    /// The attribute `name`, if there is one.
    pub fn try_get(&self, name: &str) -> (r: Option<&AttributeFields>)
        ensures
            match r {
                Some(fields) => self@.contains_key(name@) && *fields == self@[name@],
                None => !self@.contains_key(name@),
            },
    {
        self.data.get(name)
    }

    /// The attribute `name`, which must be there.
    pub fn get(&self, name: &str) -> (r: &AttributeFields)
        requires
            self@.contains_key(name@),
        ensures
            *r == self@[name@],
    {
        self.try_get(name).unwrap()
    }
}

} // verus!
