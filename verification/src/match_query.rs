//! Queries that pick objects out of a frame.

use vstd::prelude::*;
use crate::primitives::object::{object_views, VideoObject, VideoObjectView};

verus! {

/// A condition on an object.
#[derive(Debug, PartialEq)]
pub enum MatchQuery {
    /// Holds of every object.
    Idle,
    /// The object has the id.
    Id(i64),
    /// The object has the namespace.
    Namespace(String),
    /// The object has the label.
    Label(String),
    /// The object has a parent.
    ParentDefined,
    /// The object has the parent of the id.
    ParentId(i64),
    /// The object belongs to the track of the id.
    TrackId(i64),
    /// The condition does not hold.
    Not(Box<MatchQuery>),
    /// Both conditions hold.
    And(Box<MatchQuery>, Box<MatchQuery>),
    /// One of the conditions holds.
    Or(Box<MatchQuery>, Box<MatchQuery>),
}

impl MatchQuery {
    /// Whether the condition holds of the object.
    pub open spec fn selects(&self, object: VideoObjectView) -> bool
        decreases self,
    {
        match self {
            MatchQuery::Idle => true,
            MatchQuery::Id(id) => object.id == *id,
            MatchQuery::Namespace(namespace) => object.namespace == namespace@,
            MatchQuery::Label(label) => object.label == label@,
            MatchQuery::ParentDefined => object.parent_id is Some,
            MatchQuery::ParentId(id) => object.parent_id == Some(*id),
            MatchQuery::TrackId(id) => object.track_id == Some(*id),
            MatchQuery::Not(q) => !q.selects(object),
            MatchQuery::And(a, b) => a.selects(object) && b.selects(object),
            MatchQuery::Or(a, b) => a.selects(object) || b.selects(object),
        }
    }

    /// Whether the condition holds of the object.
    pub fn execute(&self, object: &VideoObject) -> (r: bool)
        ensures
            r == self.selects(object@),
        decreases self,
    {
        match self {
            MatchQuery::Idle => true,
            MatchQuery::Id(id) => object.get_id() == *id,
            MatchQuery::Namespace(namespace) => *object.get_namespace() == *namespace,
            MatchQuery::Label(label) => *object.get_label() == *label,
            MatchQuery::ParentDefined => object.get_parent_id().is_some(),
            MatchQuery::ParentId(id) => match object.get_parent_id() {
                Some(parent) => parent == *id,
                None => false,
            },
            MatchQuery::TrackId(id) => match object.get_track_id() {
                Some(track) => track == *id,
                None => false,
            },
            MatchQuery::Not(q) => !q.execute(object),
            MatchQuery::And(a, b) => a.execute(object) && b.execute(object),
            MatchQuery::Or(a, b) => a.execute(object) || b.execute(object),
        }
    }
}

/// The objects of the list of which the condition holds, in their order.
pub open spec fn selected_objects(objects: Seq<VideoObjectView>, query: MatchQuery) -> Seq<
    VideoObjectView,
>
    decreases objects.len(),
{
    if objects.len() == 0 {
        Seq::empty()
    } else {
        let before = selected_objects(objects.drop_last(), query);
        if query.selects(objects.last()) {
            before.push(objects.last())
        } else {
            before
        }
    }
}

/// Copies of the objects of the list of which the condition holds, in their
/// order.
pub fn select_objects(objects: &Vec<VideoObject>, query: &MatchQuery) -> (r: Vec<VideoObject>)
    ensures
        object_views(r@) == selected_objects(object_views(objects@), *query),
{
    let ghost all = object_views(objects@);
    let mut out: Vec<VideoObject> = Vec::new();
    let mut i: usize = 0;
    assert(object_views(out@) =~= selected_objects(all.take(0), *query));
    while i < objects.len()
        invariant
            i <= objects.len(),
            all == object_views(objects@),
            object_views(out@) == selected_objects(all.take(i as int), *query),
        decreases objects.len() - i,
    {
        proof {
            assert(all.take(i as int + 1).drop_last() =~= all.take(i as int));
            assert(all.take(i as int + 1).last() == objects@[i as int]@);
        }
        if query.execute(&objects[i]) {
            let ghost before = object_views(out@);
            let copy = objects[i].clone();
            out.push(copy);
            assert(object_views(out@) =~= before.push(copy@));
        }
        i += 1;
    }
    assert(all.take(i as int) =~= all);
    out
}

} // verus!
