//! Ready-made values for trying the library out.

use vstd::prelude::*;
use crate::primitives::attribute::{first_match, lookup_attribute, Attribute, AttributeValue};
use crate::primitives::frame::{VideoFrame, VideoFrameView};
use crate::primitives::object::VideoObject;

verus! {

/// An owned copy of the text.
#[inline(always)]
pub fn s(a: &str) -> (r: String)
    ensures
        r@ == a@,
{
    a.to_string()
}

/// A frame of source "test" without size and without attributes.
pub fn gen_empty_frame() -> (r: VideoFrame)
    ensures
        r@ == (VideoFrameView {
            source_id: "test"@,
            framerate: "test"@,
            pts: 0,
            width: 0,
            height: 0,
            attributes: Seq::empty(),
            objects: Seq::empty(),
        }),
{
    VideoFrame::new("test", "test", 0, 0, 0)
}

/// An object of namespace "peoplenet" and label "face" under the id, on
/// the track of the same id, with one attribute.
pub fn gen_object(id: i64) -> (r: VideoObject)
    ensures
        r@.id == id,
        r@.namespace == "peoplenet"@,
        r@.label == "face"@,
        r@.parent_id == None::<i64>,
        r@.track_id == Some(id),
        r@.attributes.len() == 1,
        r@.attributes[0].key() == ("some"@, "attribute"@),
{
    let mut o = VideoObject::new(id, s("peoplenet").as_str(), s("face").as_str(), None, Some(id));
    let attr = Attribute::persistent("some", "attribute", Vec::new(), &Some("hint"), false);
    let _ = o.set_attribute(attr);
    o
}

/// A frame of source "test", 1280 by 720, with four attributes and three
/// objects: one parent and its two children.
pub fn gen_frame() -> (r: VideoFrame)
    ensures
        r@.source_id == "test"@,
        r@.pts == 1000000,
        r@.width == 1280,
        r@.height == 720,
        r@.attributes.len() == 4,
        r@.objects.len() == 3,
        r@.objects[0].id == 0 && r@.objects[0].parent_id == None::<i64>,
        r@.objects[1].id == 1 && r@.objects[1].parent_id == Some(0i64),
        r@.objects[2].id == 2 && r@.objects[2].parent_id == Some(0i64),
        lookup_attribute(r@.attributes, ("system"@, "test"@)) is Some,
        lookup_attribute(r@.attributes, ("system2"@, "test2"@)) is Some,
        lookup_attribute(r@.attributes, ("system"@, "test2"@)) is Some,
        lookup_attribute(r@.attributes, ("test"@, "test"@)) is Some,
{
    let mut f = VideoFrame::new("test", "test", 1000000, 1280, 720);
    let parent = VideoObject::new(0, "test", "test2", None, None);
    let parent_id = parent.get_id();
    let c1 = VideoObject::new(1, "test2", "test", Some(parent_id), None);
    let c2 = VideoObject::new(2, "test2", "test2", Some(parent_id), None);
    let added = f.add_object(parent);
    assert(added is Ok);
    let added = f.add_object(c1);
    assert(added is Ok);
    let added = f.add_object(c2);
    assert(added is Ok);
    proof {
        reveal_strlit("system");
        reveal_strlit("system2");
        reveal_strlit("test");
        reveal_strlit("test2");
    }
    let mut one: Vec<AttributeValue> = Vec::new();
    one.push(AttributeValue::string("1"));
    let _ = f.set_attribute(Attribute::persistent("system", "test", one, &Some("test"), false));
    let mut two: Vec<AttributeValue> = Vec::new();
    two.push(AttributeValue::string("2"));
    let _ = f.set_attribute(Attribute::persistent("system2", "test2", two, &None, false));
    let mut three: Vec<AttributeValue> = Vec::new();
    three.push(AttributeValue::string("3"));
    let _ = f.set_attribute(Attribute::persistent("system", "test2", three, &Some("test"), false));
    let mut four: Vec<AttributeValue> = Vec::new();
    four.push(AttributeValue::Integer(0));
    four.push(AttributeValue::string("incoming"));
    let _ = f.set_attribute(Attribute::persistent("test", "test", four, &Some("hint"), false));
    proof {
        let a = f@.attributes;
        assert("system"@ != "system2"@) by {
            assert("system"@.len() == 6 && "system2"@.len() == 7);
        }
        assert("test"@ != "test2"@) by {
            assert("test"@.len() == 4 && "test2"@.len() == 5);
        }
        assert("system"@ != "test"@) by {
            assert("system"@.len() == 6 && "test"@.len() == 4);
        }
        assert("system2"@ != "test"@) by {
            assert("system2"@.len() == 7 && "test"@.len() == 4);
        }
        reveal_with_fuel(first_match, 6);
    }
    f
}

} // verus!
