use vstd::prelude::*;
use crate::primitives::attribute::{
    attribute_views, clone_attributes, distinct_keys, find_attribute, first_match,
    lemma_put_keeps_distinct, lemma_remove_keeps_distinct, lookup_attribute, position_of,
    put_attribute, store_attribute, Attribute, AttributeView,
};

verus! {

/// The attributes of a frame or of an object, in the order in which they
/// were set. No key occurs twice: the list is a map from keys to attributes
/// that remembers the order of its keys.
#[derive(Debug, PartialEq)]
pub struct AttributeList {
    items: Vec<Attribute>,
}

impl View for AttributeList {
    type V = Seq<AttributeView>;

    closed spec fn view(&self) -> Seq<AttributeView> {
        attribute_views(self.items@)
    }
}

impl Clone for AttributeList {
    fn clone(&self) -> (r: Self)
        ensures
            r@ == self@,
    {
        proof {
            use_type_invariant(self);
        }
        AttributeList { items: clone_attributes(&self.items) }
    }
}

impl AttributeList {
    #[verifier::type_invariant]
    closed spec fn no_key_twice(self) -> bool {
        distinct_keys(attribute_views(self.items@))
    }

    /// Takes the attributes out and leaves none behind.
    fn take_items(&mut self) -> (r: Vec<Attribute>)
        ensures
            r == old(self).items,
            final(self).items@ == Seq::<Attribute>::empty(),
    {
        let mut items: Vec<Attribute> = Vec::new();
        assert(attribute_views(items@) =~= Seq::empty());
        std::mem::swap(&mut self.items, &mut items);
        items
    }

    /// A list without attributes.
    pub fn new() -> (r: Self)
        ensures
            r@ == Seq::<AttributeView>::empty(),
    {
        let items: Vec<Attribute> = Vec::new();
        assert(attribute_views(items@) =~= Seq::empty());
        AttributeList { items }
    }

    /// The number of attributes. No key occurs twice among them.
    pub fn len(&self) -> (r: usize)
        ensures
            r == self@.len(),
            distinct_keys(self@),
    {
        proof {
            use_type_invariant(self);
        }
        self.items.len()
    }

    /// A copy of the attribute under the key.
    pub fn get(&self, namespace: &str, name: &str) -> (r: Option<Attribute>)
        ensures
            match r {
                Some(a) => lookup_attribute(self@, (namespace@, name@)) == Some(a@),
                None => lookup_attribute(self@, (namespace@, name@)) is None,
            },
    {
        find_attribute(&self.items, namespace, name)
    }

    /// Sets the attribute, in the place of the one that has its key if there
    /// is one, and returns the one it replaced.
    pub fn set(&mut self, attribute: Attribute) -> (r: Option<Attribute>)
        ensures
            final(self)@ == put_attribute(old(self)@, attribute@),
            distinct_keys(final(self)@),
            match r {
                Some(a) => lookup_attribute(old(self)@, attribute@.key()) == Some(a@),
                None => lookup_attribute(old(self)@, attribute@.key()) is None,
            },
    {
        proof {
            use_type_invariant(&*self);
            lemma_put_keeps_distinct(self@, attribute@);
        }
        let mut items = self.take_items();
        let r = store_attribute(&mut items, attribute);
        self.items = items;
        r
    }

    /// Takes the attribute under the key out of the list.
    pub fn remove(&mut self, namespace: &str, name: &str) -> (r: Option<Attribute>)
        ensures
            distinct_keys(final(self)@),
            match r {
                Some(a) => lookup_attribute(old(self)@, (namespace@, name@)) == Some(a@) && final(self)@ == old(self)@.remove(first_match(old(self)@, (namespace@, name@), 0)),
                None => lookup_attribute(old(self)@, (namespace@, name@)) is None && final(self)@
                    == old(self)@,
            },
    {
        proof {
            use_type_invariant(&*self);
        }
        let at = position_of(&self.items, namespace, name);
        if at < self.items.len() {
            let ghost before = self.items@;
            proof {
                lemma_remove_keeps_distinct(attribute_views(before), at as int);
                assert(attribute_views(before.remove(at as int)) =~= attribute_views(before).remove(
                    at as int,
                ));
            }
            let mut items = self.take_items();
            let removed = items.remove(at);
            self.items = items;
            Some(removed)
        } else {
            None
        }
    }

    /// Takes every attribute out of the list.
    pub fn clear(&mut self)
        ensures
            final(self)@ == Seq::<AttributeView>::empty(),
    {
        let items: Vec<Attribute> = Vec::new();
        assert(attribute_views(items@) =~= Seq::empty());
        self.items = items;
    }

    /// The keys of the attributes, in the order in which they were set. No
    /// key comes twice.
    pub fn keys(&self) -> (r: Vec<(String, String)>)
        ensures
            r.len() == self@.len(),
            forall|i: int| 0 <= i < r.len() ==> ((#[trigger] r@[i]).0@, r@[i].1@) == self@[i].key(),
            distinct_keys(self@),
    {
        proof {
            use_type_invariant(self);
        }
        let mut out: Vec<(String, String)> = Vec::new();
        let mut i: usize = 0;
        while i < self.items.len()
            invariant
                i <= self.items.len(),
                out.len() == i,
                forall|k: int|
                    0 <= k < i ==> ((#[trigger] out@[k]).0@, out@[k].1@) == self@[k].key(),
            decreases self.items.len() - i,
        {
            out.push((self.items[i].namespace.clone(), self.items[i].name.clone()));
            i += 1;
        }
        out
    }

    /// Copies of the attributes, in the order in which they were set.
    pub fn to_vec(&self) -> (r: Vec<Attribute>)
        ensures
            attribute_views(r@) == self@,
    {
        clone_attributes(&self.items)
    }

    /// Puts the attributes in the place of those of the list. No key may
    /// occur twice among them.
    pub fn replace(&mut self, attributes: Vec<Attribute>)
        requires
            distinct_keys(attribute_views(attributes@)),
        ensures
            final(self)@ == attribute_views(attributes@),
    {
        self.items = attributes;
    }
}

} // verus!
