use vstd::prelude::*;
use crate::primitives::attribute::{
    attribute_views, clone_attributes, put_attribute, Attribute, AttributeView,
};
use crate::primitives::frame::{VideoFrame, VideoFrameView};

verus! {

/// The attribute list after each attribute of `changes` was set on it, first
/// to last.
pub open spec fn put_attributes(
    attributes: Seq<AttributeView>,
    changes: Seq<AttributeView>,
) -> Seq<AttributeView>
    decreases changes.len(),
{
    if changes.len() == 0 {
        attributes
    } else {
        put_attribute(put_attributes(attributes, changes.drop_last()), changes.last())
    }
}

/// Changes to a frame that are recorded now and applied later.
#[derive(Debug, PartialEq)]
pub struct VideoFrameUpdate {
    frame_attributes: Vec<Attribute>,
}

/// What a [`VideoFrameUpdate`] holds.
pub struct VideoFrameUpdateView {
    pub frame_attributes: Seq<AttributeView>,
}

impl VideoFrameUpdateView {
    /// The frame after the update was applied to it.
    pub open spec fn applied_to(self, frame: VideoFrameView) -> VideoFrameView {
        VideoFrameView {
            attributes: put_attributes(frame.attributes, self.frame_attributes),
            ..frame
        }
    }
}

/// The frame after each update of the list was applied to it, first to last.
pub open spec fn apply_all(frame: VideoFrameView, updates: Seq<VideoFrameUpdateView>) -> VideoFrameView
    decreases updates.len(),
{
    if updates.len() == 0 {
        frame
    } else {
        updates.last().applied_to(apply_all(frame, updates.drop_last()))
    }
}

impl View for VideoFrameUpdate {
    type V = VideoFrameUpdateView;

    closed spec fn view(&self) -> VideoFrameUpdateView {
        VideoFrameUpdateView { frame_attributes: attribute_views(self.frame_attributes@) }
    }
}

impl Clone for VideoFrameUpdate {
    fn clone(&self) -> (r: Self)
        ensures
            r@ == self@,
    {
        VideoFrameUpdate { frame_attributes: clone_attributes(&self.frame_attributes) }
    }
}

impl Default for VideoFrameUpdate {
    fn default() -> (r: Self)
        ensures
            r@.frame_attributes == Seq::<AttributeView>::empty(),
    {
        let r = VideoFrameUpdate { frame_attributes: Vec::new() };
        assert(attribute_views(r.frame_attributes@) =~= Seq::empty());
        r
    }
}

impl VideoFrameUpdate {
    /// Records one more attribute to set on the frame.
    pub fn add_frame_attribute(&mut self, attribute: Attribute)
        ensures
            final(self)@.frame_attributes == old(self)@.frame_attributes.push(attribute@),
    {
        let ghost before = self.frame_attributes@;
        self.frame_attributes.push(attribute);
        assert(attribute_views(self.frame_attributes@) =~= attribute_views(before).push(
            attribute@,
        ));
    }

    /// Sets each recorded attribute on the frame, in the order of recording.
    pub fn apply_to(&self, frame: &mut VideoFrame)
        ensures
            final(frame)@ == self@.applied_to(old(frame)@),
    {
        let ghost changes = self@.frame_attributes;
        let ghost start = frame@;
        let mut i: usize = 0;
        while i < self.frame_attributes.len()
            invariant
                i <= self.frame_attributes.len(),
                changes == attribute_views(self.frame_attributes@),
                frame@ == (VideoFrameView {
                    attributes: put_attributes(start.attributes, changes.take(i as int)),
                    ..start
                }),
            decreases self.frame_attributes.len() - i,
        {
            let attribute = self.frame_attributes[i].clone();
            proof {
                assert(changes.take(i as int + 1).drop_last() =~= changes.take(i as int));
                assert(changes.take(i as int + 1).last() == attribute@);
            }
            let _ = frame.set_attribute(attribute);
            i += 1;
        }
        assert(changes.take(i as int) =~= changes);
    }
}

/// The views of a sequence of updates, one for one.
pub open spec fn update_views(updates: Seq<VideoFrameUpdate>) -> Seq<VideoFrameUpdateView> {
    updates.map_values(|u: VideoFrameUpdate| u@)
}

/// Applies each update of the list to the frame, first to last.
pub fn apply_updates_to(updates: &Vec<VideoFrameUpdate>, frame: &mut VideoFrame)
    ensures
        final(frame)@ == apply_all(old(frame)@, update_views(updates@)),
{
    let ghost all = update_views(updates@);
    let ghost start = frame@;
    let mut i: usize = 0;
    while i < updates.len()
        invariant
            i <= updates.len(),
            all == update_views(updates@),
            frame@ == apply_all(start, all.take(i as int)),
        decreases updates.len() - i,
    {
        proof {
            assert(all.take(i as int + 1).drop_last() =~= all.take(i as int));
            assert(all.take(i as int + 1).last() == updates@[i as int]@);
        }
        updates[i].apply_to(frame);
        i += 1;
    }
    assert(all.take(i as int) =~= all);
}

} // verus!
