use vstd::prelude::*;
use crate::primitives::attribute::{
    distinct_keys, lookup_attribute, put_attribute, Attribute, AttributeView,
};
use crate::primitives::attribute_list::AttributeList;

use crate::error::PipelineError;
use crate::match_query::{select_objects, selected_objects, MatchQuery};
use crate::primitives::object::{clone_objects, object_views, VideoObject, VideoObjectView};

verus! {

/// A video frame: where it comes from, when and how large it is, the
/// attributes that were attached to it, and the objects that were detected
/// in it, each under an id of its own.
#[derive(Debug, PartialEq)]
pub struct VideoFrame {
    pub source_id: String,
    pub framerate: String,
    pub pts: i64,
    pub width: i64,
    pub height: i64,
    attributes: AttributeList,
    objects: Vec<VideoObject>,
}

/// What a [`VideoFrame`] holds.
pub struct VideoFrameView {
    pub source_id: Seq<char>,
    pub framerate: Seq<char>,
    pub pts: i64,
    pub width: i64,
    pub height: i64,
    pub attributes: Seq<AttributeView>,
    pub objects: Seq<VideoObjectView>,
}

impl VideoFrameView {
    /// Whether the frame has an object of the id.
    pub open spec fn has_object(self, id: i64) -> bool {
        exists|i: int| 0 <= i < self.objects.len() && (#[trigger] self.objects[i]).id == id
    }
}

impl View for VideoFrame {
    type V = VideoFrameView;

    closed spec fn view(&self) -> VideoFrameView {
        VideoFrameView {
            source_id: self.source_id@,
            framerate: self.framerate@,
            pts: self.pts,
            width: self.width,
            height: self.height,
            attributes: self.attributes@,
            objects: object_views(self.objects@),
        }
    }
}

impl Clone for VideoFrame {
    fn clone(&self) -> (r: Self)
        ensures
            r@ == self@,
    {
        VideoFrame {
            source_id: self.source_id.clone(),
            framerate: self.framerate.clone(),
            pts: self.pts,
            width: self.width,
            height: self.height,
            attributes: self.attributes.clone(),
            objects: clone_objects(&self.objects),
        }
    }
}

impl VideoFrame {
    /// A frame without attributes.
    pub fn new(source_id: &str, framerate: &str, pts: i64, width: i64, height: i64) -> (r: Self)
        ensures
            r@ == (VideoFrameView {
                source_id: source_id@,
                framerate: framerate@,
                pts,
                width,
                height,
                attributes: Seq::empty(),
                objects: Seq::empty(),
            }),
    {
        let r = VideoFrame {
            source_id: source_id.to_string(),
            framerate: framerate.to_string(),
            pts,
            width,
            height,
            attributes: AttributeList::new(),
            objects: Vec::new(),
        };
        assert(object_views(r.objects@) =~= Seq::empty());
        r
    }

    /// The number of attributes. No key occurs twice among them.
    pub fn attribute_count(&self) -> (r: usize)
        ensures
            r == self@.attributes.len(),
            distinct_keys(self@.attributes),
    {
        self.attributes.len()
    }

    /// A copy of the attribute under the key.
    pub fn get_attribute(&self, namespace: &str, name: &str) -> (r: Option<Attribute>)
        ensures
            match r {
                Some(a) => lookup_attribute(self@.attributes, (namespace@, name@)) == Some(a@),
                None => lookup_attribute(self@.attributes, (namespace@, name@)) is None,
            },
    {
        self.attributes.get(namespace, name)
    }

    /// Sets the attribute, in the place of the one that has its key if there
    /// is one, and returns the one it replaced.
    pub fn set_attribute(&mut self, attribute: Attribute) -> (r: Option<Attribute>)
        ensures
            final(self)@ == (VideoFrameView {
                attributes: put_attribute(old(self)@.attributes, attribute@),
                ..old(self)@
            }),
            distinct_keys(final(self)@.attributes),
            match r {
                Some(a) => lookup_attribute(old(self)@.attributes, attribute@.key()) == Some(a@),
                None => lookup_attribute(old(self)@.attributes, attribute@.key()) is None,
            },
    {
        self.attributes.set(attribute)
    }

    /// The number of objects.
    pub fn object_count(&self) -> (r: usize)
        ensures
            r == self@.objects.len(),
    {
        self.objects.len()
    }

    /// Adds the object to the frame. Refused where the frame has an object
    /// of its id.
    pub fn add_object(&mut self, object: VideoObject) -> (r: Result<(), PipelineError>)
        ensures
            match r {
                Ok(_) => !old(self)@.has_object(object@.id) && final(self)@ == (VideoFrameView {
                    objects: old(self)@.objects.push(object@),
                    ..old(self)@
                }),
                Err(e) => e == PipelineError::DuplicateId && old(self)@.has_object(object@.id)
                    && final(self)@ == old(self)@,
            },
    {
        let ghost views = self@.objects;
        let mut i: usize = 0;
        while i < self.objects.len()
            invariant
                i <= self.objects.len(),
                *self == *old(self),
                views == object_views(self.objects@),
                forall|k: int| 0 <= k < i ==> (#[trigger] views[k]).id != object@.id,
            decreases self.objects.len() - i,
        {
            if self.objects[i].get_id() == object.get_id() {
                assert(views[i as int].id == object@.id);
                return Err(PipelineError::DuplicateId);
            }
            i += 1;
        }
        self.objects.push(object);
        assert(object_views(self.objects@) =~= views.push(object@));
        Ok(())
    }

    /// Copies of the objects of which the condition holds, in the order in
    /// which they were added.
    pub fn access_objects(&self, query: &MatchQuery) -> (r: Vec<VideoObject>)
        ensures
            object_views(r@) == selected_objects(self@.objects, *query),
    {
        select_objects(&self.objects, query)
    }
}

} // verus!
