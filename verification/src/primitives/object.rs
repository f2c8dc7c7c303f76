use vstd::prelude::*;
use crate::primitives::attribute::{
    attribute_views, distinct_keys, first_match, lookup_attribute, put_attribute, Attribute,
    AttributeView,
};
use crate::primitives::attribute_list::AttributeList;

verus! {

/// The parent of a detected object, named by its id, creator and label.
#[derive(Debug, PartialEq)]
pub struct ParentObject {
    pub id: i64,
    pub creator: String,
    pub label: String,
}

impl Clone for ParentObject {
    fn clone(&self) -> (r: Self)
        ensures
            r == *self,
    {
        ParentObject { id: self.id, creator: self.creator.clone(), label: self.label.clone() }
    }
}

impl ParentObject {
    pub fn new(id: i64, creator: String, label: String) -> (r: Self)
        ensures
            r.id == id,
            r.creator == creator,
            r.label == label,
    {
        Self { id, creator, label }
    }
}

/// An object that was detected in a frame: its id within the frame, the
/// namespace and label that classify it, the ids of its parent object and of
/// its track, and the attributes that were attached to it.
#[derive(Debug, PartialEq)]
pub struct VideoObject {
    pub id: i64,
    pub namespace: String,
    pub label: String,
    pub parent_id: Option<i64>,
    pub track_id: Option<i64>,
    attributes: AttributeList,
}

/// What a [`VideoObject`] holds.
pub struct VideoObjectView {
    pub id: i64,
    pub namespace: Seq<char>,
    pub label: Seq<char>,
    pub parent_id: Option<i64>,
    pub track_id: Option<i64>,
    pub attributes: Seq<AttributeView>,
}

impl View for VideoObject {
    type V = VideoObjectView;

    closed spec fn view(&self) -> VideoObjectView {
        VideoObjectView {
            id: self.id,
            namespace: self.namespace@,
            label: self.label@,
            parent_id: self.parent_id,
            track_id: self.track_id,
            attributes: self.attributes@,
        }
    }
}

impl Clone for VideoObject {
    fn clone(&self) -> (r: Self)
        ensures
            r@ == self@,
    {
        VideoObject {
            id: self.id,
            namespace: self.namespace.clone(),
            label: self.label.clone(),
            parent_id: self.parent_id,
            track_id: self.track_id,
            attributes: self.attributes.clone(),
        }
    }
}

impl VideoObject {
    /// An object without attributes.
    pub fn new(
        id: i64,
        namespace: &str,
        label: &str,
        parent_id: Option<i64>,
        track_id: Option<i64>,
    ) -> (r: Self)
        ensures
            r@ == (VideoObjectView {
                id,
                namespace: namespace@,
                label: label@,
                parent_id,
                track_id,
                attributes: Seq::empty(),
            }),
    {
        let r = VideoObject {
            id,
            namespace: namespace.to_string(),
            label: label.to_string(),
            parent_id,
            track_id,
            attributes: AttributeList::new(),
        };
        r
    }

    pub fn get_id(&self) -> (r: i64)
        ensures
            r == self@.id,
    {
        self.id
    }

    pub fn get_namespace(&self) -> (r: &String)
        ensures
            r@ == self@.namespace,
    {
        &self.namespace
    }

    pub fn get_label(&self) -> (r: &String)
        ensures
            r@ == self@.label,
    {
        &self.label
    }

    pub fn get_parent_id(&self) -> (r: Option<i64>)
        ensures
            r == self@.parent_id,
    {
        self.parent_id
    }

    pub fn get_track_id(&self) -> (r: Option<i64>)
        ensures
            r == self@.track_id,
    {
        self.track_id
    }

    /// The number of attributes. No key occurs twice among them.
    pub fn attribute_count(&self) -> (r: usize)
        ensures
            r == self@.attributes.len(),
            distinct_keys(self@.attributes),
    {
        self.attributes.len()
    }

    /// A copy of the attribute under the key.
    pub fn get_attribute(&self, namespace: &str, name: &str) -> (r: Option<Attribute>)
        ensures
            match r {
                Some(a) => lookup_attribute(self@.attributes, (namespace@, name@)) == Some(a@),
                None => lookup_attribute(self@.attributes, (namespace@, name@)) is None,
            },
    {
        self.attributes.get(namespace, name)
    }

    /// Sets the attribute, in the place of the one that has its key if there
    /// is one, and returns the one it replaced.
    pub fn set_attribute(&mut self, attribute: Attribute) -> (r: Option<Attribute>)
        ensures
            final(self)@ == (VideoObjectView {
                attributes: put_attribute(old(self)@.attributes, attribute@),
                ..old(self)@
            }),
            distinct_keys(final(self)@.attributes),
            match r {
                Some(a) => lookup_attribute(old(self)@.attributes, attribute@.key()) == Some(a@),
                None => lookup_attribute(old(self)@.attributes, attribute@.key()) is None,
            },
    {
        self.attributes.set(attribute)
    }
}

/// The texts of a list of names.
pub open spec fn name_views(names: Seq<String>) -> Seq<Seq<char>> {
    names.map_values(|n: String| n@)
}

/// The text of an optional string.
pub open spec fn text_of(text: Option<String>) -> Option<Seq<char>> {
    match text {
        Some(t) => Some(t@),
        None => None,
    }
}

/// Whether the list has the name.
pub fn has_name(names: &Vec<String>, name: &String) -> (r: bool)
    ensures
        r == name_views(names@).contains(name@),
{
    let ghost views = name_views(names@);
    let mut i: usize = 0;
    while i < names.len()
        invariant
            i <= names.len(),
            views == name_views(names@),
            forall|k: int| 0 <= k < i ==> views[k] != name@,
        decreases names.len() - i,
    {
        if names[i] == *name {
            assert(views[i as int] == name@);
            return true;
        }
        i += 1;
    }
    false
}

/// Whether a namespace and a list of names pick the attribute out. With a
/// namespace, the attribute must have it, and its name must be in the list
/// unless the list is empty; without one, its name must be in the list.
pub open spec fn is_picked(
    attribute: AttributeView,
    namespace: Option<Seq<char>>,
    names: Seq<Seq<char>>,
) -> bool {
    match namespace {
        Some(ns) => (names.len() == 0 || names.contains(attribute.name)) && attribute.namespace
            == ns,
        None => names.contains(attribute.name),
    }
}

/// The attributes that stay when the picked ones are deleted or, with
/// `negated`, all but the picked ones, in their order.
pub open spec fn kept_attributes(
    attributes: Seq<AttributeView>,
    negated: bool,
    namespace: Option<Seq<char>>,
    names: Seq<Seq<char>>,
) -> Seq<AttributeView>
    decreases attributes.len(),
{
    if attributes.len() == 0 {
        Seq::empty()
    } else {
        let before = kept_attributes(attributes.drop_last(), negated, namespace, names);
        if is_picked(attributes.last(), namespace, names) == negated {
            before.push(attributes.last())
        } else {
            before
        }
    }
}

/// What stays of a list in which no key occurs twice is such a list again,
/// and holds nothing that the list did not hold.
pub proof fn lemma_kept_keeps_distinct(
    attributes: Seq<AttributeView>,
    negated: bool,
    namespace: Option<Seq<char>>,
    names: Seq<Seq<char>>,
)
    requires
        distinct_keys(attributes),
    ensures
        distinct_keys(kept_attributes(attributes, negated, namespace, names)),
        forall|i: int|
            0 <= i < kept_attributes(attributes, negated, namespace, names).len()
                ==> attributes.contains(
                #[trigger] kept_attributes(attributes, negated, namespace, names)[i],
            ),
    decreases attributes.len(),
{
    if attributes.len() > 0 {
        let prev = attributes.drop_last();
        assert(distinct_keys(prev)) by {
            assert forall|i: int, j: int| 0 <= i < j < prev.len() implies (#[trigger] prev[i]).key()
                != (#[trigger] prev[j]).key() by {
                assert(prev[i] == attributes[i] && prev[j] == attributes[j]);
            }
        }
        lemma_kept_keeps_distinct(prev, negated, namespace, names);
        let before = kept_attributes(prev, negated, namespace, names);
        let now = kept_attributes(attributes, negated, namespace, names);
        let last = attributes.len() - 1;
        assert forall|i: int| 0 <= i < now.len() implies attributes.contains(#[trigger] now[i]) by {
            if i < before.len() {
                assert(now[i] == before[i]);
                let k = choose|k: int| 0 <= k < prev.len() && prev[k] == before[i];
                assert(attributes[k] == now[i]);
            } else {
                assert(attributes[last] == now[i]);
            }
        }
        assert forall|i: int, j: int| 0 <= i < j < now.len() implies (#[trigger] now[i]).key() != (
        #[trigger] now[j]).key() by {
            if j < before.len() {
                assert(now[i] == before[i] && now[j] == before[j]);
            } else {
                assert(now[i] == before[i]);
                assert(now[j] == attributes[last]);
                let k = choose|k: int| 0 <= k < prev.len() && prev[k] == before[i];
                assert(attributes[k] == now[i]);
            }
        }
    }
}

impl VideoObject {
    /// The keys of the attributes, in the order in which they were set. No
    /// key comes twice.
    pub fn attributes(&self) -> (r: Vec<(String, String)>)
        ensures
            r.len() == self@.attributes.len(),
            forall|i: int|
                0 <= i < r.len() ==> ((#[trigger] r@[i]).0@, r@[i].1@) == self@.attributes[i].key(),
            distinct_keys(self@.attributes),
    {
        self.attributes.keys()
    }

    /// Takes the attribute under the key out of the object.
    pub fn delete_attribute(&mut self, namespace: &str, name: &str) -> (r: Option<Attribute>)
        ensures
            match r {
                Some(a) => lookup_attribute(old(self)@.attributes, (namespace@, name@)) == Some(a@)
                    && final(self)@ == (VideoObjectView {
                    attributes: old(self)@.attributes.remove(
                        first_match(old(self)@.attributes, (namespace@, name@), 0),
                    ),
                    ..old(self)@
                }),
                None => lookup_attribute(old(self)@.attributes, (namespace@, name@)) is None
                    && final(self)@ == old(self)@,
            },
    {
        self.attributes.remove(namespace, name)
    }

    /// Takes every attribute out of the object.
    pub fn clear_attributes(&mut self)
        ensures
            final(self)@ == (VideoObjectView { attributes: Seq::empty(), ..old(self)@ }),
    {
        self.attributes.clear();
    }

    /// Deletes the attributes that the namespace and the names pick out or,
    /// with `negated`, all the others.
    pub fn delete_attributes(&mut self, negated: bool, namespace: Option<String>, names: Vec<String>)
        ensures
            final(self)@ == (VideoObjectView {
                attributes: kept_attributes(
                    old(self)@.attributes,
                    negated,
                    text_of(namespace),
                    name_views(names@),
                ),
                ..old(self)@
            }),
            distinct_keys(final(self)@.attributes),
    {
        let items = self.attributes.to_vec();
        let _ = self.attributes.len();
        let ghost all = self@.attributes;
        let ghost ns = text_of(namespace);
        let ghost wanted = name_views(names@);
        let mut kept: Vec<Attribute> = Vec::new();
        let mut i: usize = 0;
        assert(attribute_views(kept@) =~= kept_attributes(all.take(0), negated, ns, wanted));
        while i < items.len()
            invariant
                i <= items.len(),
                all == attribute_views(items@),
                wanted == name_views(names@),
                ns == text_of(namespace),
                attribute_views(kept@) == kept_attributes(all.take(i as int), negated, ns, wanted),
            decreases items.len() - i,
        {
            proof {
                assert(all.take(i as int + 1).drop_last() =~= all.take(i as int));
                assert(all.take(i as int + 1).last() == items@[i as int]@);
            }
            let in_names = has_name(&names, &items[i].name);
            let picked = match &namespace {
                Some(ns) => (names.len() == 0 || in_names) && items[i].namespace == *ns,
                None => in_names,
            };
            if picked == negated {
                let ghost before = attribute_views(kept@);
                let copy = items[i].clone();
                kept.push(copy);
                assert(attribute_views(kept@) =~= before.push(copy@));
            }
            i += 1;
        }
        proof {
            assert(all.take(i as int) =~= all);
            lemma_kept_keeps_distinct(all, negated, ns, wanted);
        }
        self.attributes.replace(kept);
    }
}

/// The views of a sequence of objects, one for one.
pub open spec fn object_views(objects: Seq<VideoObject>) -> Seq<VideoObjectView> {
    objects.map_values(|o: VideoObject| o@)
}

/// Copies a list of objects.
pub fn clone_objects(objects: &Vec<VideoObject>) -> (r: Vec<VideoObject>)
    ensures
        object_views(r@) == object_views(objects@),
{
    let mut out: Vec<VideoObject> = Vec::new();
    let mut i: usize = 0;
    while i < objects.len()
        invariant
            i <= objects.len(),
            out.len() == i,
            forall|j: int| 0 <= j < i ==> out@[j]@ == objects@[j]@,
        decreases objects.len() - i,
    {
        out.push(objects[i].clone());
        i += 1;
    }
    assert(object_views(out@) =~= object_views(objects@));
    out
}

} // verus!
