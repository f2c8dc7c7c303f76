use vstd::prelude::*;
use crate::primitives::frame::{VideoFrame, VideoFrameView};
use crate::id_sets::lemma_take_push_set;

verus! {

/// A `hashbrown::HashMap` from member ids to frames. Verus does not look
/// inside: what it holds is `frame_entries`.
#[verifier::external_body]
pub struct FrameMap {
    inner: hashbrown::HashMap<i64, VideoFrame>,
}

/// The frames that the map holds, by id.
pub uninterp spec fn frame_entries(m: FrameMap) -> Map<i64, VideoFrame>;

/// `HashMap::new`: a map that holds nothing.
#[verifier::external_body]
fn frame_map_new() -> (r: FrameMap)
    ensures
        frame_entries(r) == (Map::<i64, VideoFrame>::empty()),
{
    FrameMap { inner: hashbrown::HashMap::new() }
}

/// `HashMap::get`: the frame under the id, if the map has the id.
#[verifier::external_body]
fn frame_map_get(m: &FrameMap, id: i64) -> (r: Option<&VideoFrame>)
    ensures
        match r {
            Some(frame) => frame_entries(*m).contains_key(id) && *frame == frame_entries(*m)[id],
            None => !frame_entries(*m).contains_key(id),
        },
{
    m.inner.get(&id)
}

/// `HashMap::insert`: the frame stands under the id afterwards, the other
/// entries are untouched, and the frame that stood there before comes back.
#[verifier::external_body]
fn frame_map_insert(m: &mut FrameMap, id: i64, frame: VideoFrame) -> (r: Option<VideoFrame>)
    ensures
        frame_entries(*final(m)) == frame_entries(*old(m)).insert(id, frame),
        match r {
            Some(before) => frame_entries(*old(m)).contains_key(id) && before == frame_entries(
                *old(m),
            )[id],
            None => !frame_entries(*old(m)).contains_key(id),
        },
{
    m.inner.insert(id, frame)
}

/// `HashMap::remove`: the id is gone afterwards, the other entries are
/// untouched, and the frame that stood under it comes back.
#[verifier::external_body]
fn frame_map_remove(m: &mut FrameMap, id: i64) -> (r: Option<VideoFrame>)
    ensures
        frame_entries(*final(m)) == frame_entries(*old(m)).remove(id),
        match r {
            Some(before) => frame_entries(*old(m)).contains_key(id) && before == frame_entries(
                *old(m),
            )[id],
            None => !frame_entries(*old(m)).contains_key(id),
        },
{
    m.inner.remove(&id)
}

/// `HashMap::keys`, collected: every id of the map once, in no stated order.
#[verifier::external_body]
fn frame_map_keys(m: &FrameMap) -> (r: Vec<i64>)
    ensures
        r@.no_duplicates() && r@.to_set() == frame_entries(*m).dom(),
{
    m.inner.keys().copied().collect()
}

/// Frames that travel together, each under the id that it had as an
/// independent frame.
pub struct VideoFrameBatch {
    frames: FrameMap,
}

impl View for VideoFrameBatch {
    type V = Map<i64, VideoFrameView>;

    closed spec fn view(&self) -> Map<i64, VideoFrameView> {
        frame_entries(self.frames).map_values(|f: VideoFrame| f@)
    }
}

impl VideoFrameBatch {
    /// A batch without frames.
    pub fn new() -> (r: Self)
        ensures
            r@ == Map::<i64, VideoFrameView>::empty(),
    {
        let r = VideoFrameBatch { frames: frame_map_new() };
        assert(r@ =~= Map::<i64, VideoFrameView>::empty());
        r
    }

    /// Puts the frame into the batch under the id, in the place of the frame
    /// that the id had before, if any.
    pub fn add(&mut self, id: i64, frame: VideoFrame)
        ensures
            final(self)@ == old(self)@.insert(id, frame@),
    {
        let _ = frame_map_insert(&mut self.frames, id, frame);
        assert(self@ =~= old(self)@.insert(id, frame@));
    }

    /// Takes the frame of the id out of the batch.
    pub fn take(&mut self, id: i64) -> (r: Option<VideoFrame>)
        ensures
            final(self)@ == old(self)@.remove(id),
            match r {
                Some(frame) => old(self)@.contains_key(id) && frame@ == old(self)@[id],
                None => !old(self)@.contains_key(id),
            },
    {
        let r = frame_map_remove(&mut self.frames, id);
        assert(self@ =~= old(self)@.remove(id));
        r
    }

    /// A copy of the frame of the id.
    pub fn get(&self, id: i64) -> (r: Option<VideoFrame>)
        ensures
            match r {
                Some(frame) => self@.contains_key(id) && frame@ == self@[id],
                None => !self@.contains_key(id),
            },
    {
        match frame_map_get(&self.frames, id) {
            Some(frame) => Some(frame.clone()),
            None => None,
        }
    }

    /// Whether the batch has a frame under the id.
    pub fn contains(&self, id: i64) -> (r: bool)
        ensures
            r == self@.contains_key(id),
    {
        frame_map_get(&self.frames, id).is_some()
    }

    /// The ids of the frames, each once, in no stated order.
    pub fn ids(&self) -> (r: Vec<i64>)
        ensures
            r@.no_duplicates(),
            r@.to_set() == self@.dom(),
    {
        let r = frame_map_keys(&self.frames);
        assert(self@.dom() =~= frame_entries(self.frames).dom());
        r
    }
}

impl Clone for VideoFrameBatch {
    fn clone(&self) -> (r: Self)
        ensures
            r@ == self@,
    {
        let ids = self.ids();
        let mut out = VideoFrameBatch::new();
        let mut i: usize = 0;
        while i < ids.len()
            invariant
                i <= ids.len(),
                ids@.to_set() == self@.dom(),
                out@.dom() == ids@.take(i as int).to_set(),
                forall|id: i64| #[trigger] out@.contains_key(id) ==> out@[id] == self@[id],
            decreases ids.len() - i,
        {
            let id = ids[i];
            assert(ids@.to_set().contains(id));
            proof {
                lemma_take_push_set(ids@, i as int);
            }
            match self.get(id) {
                Some(frame) => {
                    out.add(id, frame);
                },
                None => {},
            }
            assert(out@.dom() =~= ids@.take(i as int + 1).to_set());
            i += 1;
        }
        assert(ids@.take(i as int) =~= ids@);
        assert(out@ =~= self@);
        out
    }
}

} // verus!
