use savant_core::error::PipelineError;
use savant_core::match_query::{select_objects, MatchQuery};
use savant_core::pipeline::{Pipeline, PipelineStagePayloadType};
use savant_core::primitives::attribute::{Attribute, AttributeValue};
use savant_core::primitives::object::{has_name, VideoObject};
use savant_core::test::{gen_frame, gen_object};

fn get_object() -> VideoObject {
    let mut o = VideoObject::new(1, "model", "label", None, None);
    for (creator, name, value) in [
        ("creator", "name", "value"),
        ("creator", "name2", "value2"),
        ("creator2", "name", "value"),
    ] {
        o.set_attribute(Attribute::persistent(
            creator,
            name,
            vec![AttributeValue::string(value)],
            &None,
            false,
        ));
    }
    o
}

#[test]
fn test_delete_attributes() {
    let mut t = get_object();
    t.delete_attributes(false, None, vec![]);
    assert_eq!(t.attributes().len(), 3);

    let mut t = get_object();
    t.delete_attributes(true, None, vec![]);
    assert!(t.attributes().is_empty());

    let mut t = get_object();
    t.delete_attributes(false, Some("creator".to_string()), vec![]);
    assert_eq!(t.attributes().len(), 1);

    let mut t = get_object();
    t.delete_attributes(true, Some("creator".to_string()), vec![]);
    assert_eq!(t.attributes().len(), 2);

    let mut t = get_object();
    t.delete_attributes(false, None, vec!["name".to_string()]);
    assert_eq!(t.attributes().len(), 1);

    let mut t = get_object();
    t.delete_attributes(true, None, vec!["name".to_string()]);
    assert_eq!(t.attributes().len(), 2);

    let mut t = get_object();
    t.delete_attributes(false, None, vec!["name".to_string(), "name2".to_string()]);
    assert_eq!(t.attributes().len(), 0);

    let mut t = get_object();
    t.delete_attributes(true, None, vec!["name".to_string(), "name2".to_string()]);
    assert_eq!(t.attributes().len(), 3);

    let mut t = get_object();
    t.delete_attributes(
        false,
        Some("creator".to_string()),
        vec!["name".to_string(), "name2".to_string()],
    );
    assert_eq!(t.attributes().len(), 1);

    assert_eq!(
        &t.get_attribute("creator2", "name").unwrap(),
        &Attribute::persistent(
            "creator2",
            "name",
            vec![AttributeValue::string("value")],
            &None,
            false
        )
    );

    let mut t = get_object();
    t.delete_attributes(
        true,
        Some("creator".to_string()),
        vec!["name".to_string(), "name2".to_string()],
    );
    assert_eq!(t.attributes().len(), 2);
}

#[test]
fn attributes_of_an_object_are_listed_deleted_and_cleared() {
    let mut o = get_object();
    assert_eq!(
        o.attributes(),
        vec![
            ("creator".to_string(), "name".to_string()),
            ("creator".to_string(), "name2".to_string()),
            ("creator2".to_string(), "name".to_string()),
        ]
    );
    assert_eq!(o.attribute_count(), 3);
    let removed = o.delete_attribute("creator", "name2").unwrap();
    assert_eq!(removed.values, vec![AttributeValue::string("value2")]);
    assert_eq!(o.delete_attribute("creator", "name2"), None);
    assert_eq!(
        o.attributes(),
        vec![
            ("creator".to_string(), "name".to_string()),
            ("creator2".to_string(), "name".to_string()),
        ]
    );
    o.clear_attributes();
    assert!(o.attributes().is_empty());
    assert_eq!(o.get_attribute("creator", "name"), None);
    assert!(has_name(&vec!["a".to_string(), "b".to_string()], &"b".to_string()));
    assert!(!has_name(&vec!["a".to_string()], &"b".to_string()));
}

#[test]
fn a_generated_object_has_its_fields() {
    let o = gen_object(12);
    assert_eq!(o.get_id(), 12);
    assert_eq!(o.get_namespace(), "peoplenet");
    assert_eq!(o.get_label(), "face");
    assert_eq!(o.get_parent_id(), None);
    assert_eq!(o.get_track_id(), Some(12));
    assert_eq!(o.attributes(), vec![("some".to_string(), "attribute".to_string())]);
    assert_eq!(o.get_attribute("some", "attribute").unwrap().hint, Some("hint".to_string()));
    assert_eq!(o.clone(), o);
}

#[test]
fn queries_pick_objects() {
    let frame = gen_frame();
    let ids = |q: &MatchQuery| -> Vec<i64> {
        frame.access_objects(q).iter().map(|o| o.get_id()).collect()
    };
    assert_eq!(frame.object_count(), 3);
    assert_eq!(ids(&MatchQuery::Idle), vec![0, 1, 2]);
    assert_eq!(ids(&MatchQuery::Id(1)), vec![1]);
    assert_eq!(ids(&MatchQuery::Id(7)), Vec::<i64>::new());
    assert_eq!(ids(&MatchQuery::Namespace("test2".to_string())), vec![1, 2]);
    assert_eq!(ids(&MatchQuery::Label("test2".to_string())), vec![0, 2]);
    assert_eq!(ids(&MatchQuery::ParentDefined), vec![1, 2]);
    assert_eq!(ids(&MatchQuery::ParentId(0)), vec![1, 2]);
    assert_eq!(ids(&MatchQuery::ParentId(1)), Vec::<i64>::new());
    assert_eq!(ids(&MatchQuery::TrackId(0)), Vec::<i64>::new());
    assert_eq!(ids(&MatchQuery::Not(Box::new(MatchQuery::ParentDefined))), vec![0]);
    assert_eq!(
        ids(&MatchQuery::And(
            Box::new(MatchQuery::Namespace("test2".to_string())),
            Box::new(MatchQuery::Label("test2".to_string()))
        )),
        vec![2]
    );
    assert_eq!(
        ids(&MatchQuery::Or(
            Box::new(MatchQuery::Id(0)),
            Box::new(MatchQuery::Label("test".to_string()))
        )),
        vec![0, 1]
    );
    let on_tracks = vec![gen_object(4), gen_object(5)];
    let found = select_objects(&on_tracks, &MatchQuery::TrackId(5));
    assert_eq!(found.len(), 1);
    assert_eq!(found[0].get_id(), 5);
}

#[test]
fn a_frame_takes_each_object_id_once() {
    let mut frame = gen_frame();
    assert_eq!(frame.add_object(gen_object(2)), Err(PipelineError::DuplicateId));
    assert_eq!(frame.object_count(), 3);
    assert_eq!(frame.add_object(gen_object(3)), Ok(()));
    assert_eq!(frame.object_count(), 4);
}

#[test]
fn the_pipeline_hands_out_objects_frame_by_frame() {
    let mut pipeline = Pipeline::new(vec![
        ("input".to_string(), PipelineStagePayloadType::Frame),
        ("proc".to_string(), PipelineStagePayloadType::Batch),
    ])
    .unwrap();
    let a = pipeline.add_frame("input", gen_frame()).unwrap();
    let b = pipeline.add_frame("input", gen_frame()).unwrap();
    let found = pipeline.access_objects(a, &MatchQuery::ParentDefined).unwrap();
    assert_eq!(found.len(), 1);
    assert_eq!(found[0].0, a);
    assert_eq!(found[0].1.iter().map(|o| o.get_id()).collect::<Vec<i64>>(), vec![1, 2]);
    assert_eq!(
        pipeline.access_objects(99, &MatchQuery::Idle).err(),
        Some(PipelineError::NotFound)
    );
    let batch = pipeline.move_and_pack_frames("proc", vec![a, b]).unwrap();
    let mut found = pipeline.access_objects(batch, &MatchQuery::Id(0)).unwrap();
    found.sort_by_key(|e| e.0);
    assert_eq!(found.len(), 2);
    assert_eq!((found[0].0, found[1].0), (a, b));
    assert_eq!(found[0].1.len(), 1);
    assert_eq!(found[1].1[0].get_id(), 0);
    assert_eq!(
        pipeline.access_objects(a, &MatchQuery::Idle).err(),
        Some(PipelineError::NotFound)
    );
}
