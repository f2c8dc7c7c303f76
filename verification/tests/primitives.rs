use savant_core::primitives::attribute::{clone_attributes, Attribute, AttributeValue};
use savant_core::primitives::attribute_list::AttributeList;
use savant_core::primitives::frame::VideoFrame;
use savant_core::primitives::frame_batch::VideoFrameBatch;
use savant_core::primitives::frame_update::{apply_updates_to, VideoFrameUpdate};
use savant_core::primitives::object::ParentObject;
use savant_core::test::{gen_empty_frame, gen_frame, s};

#[test]
fn s_copies_the_text() {
    assert_eq!(s("peoplenet"), "peoplenet".to_string());
    assert_eq!(s(""), String::new());
}

#[test]
fn a_parent_object_holds_what_it_was_made_of() {
    let p = ParentObject::new(7, s("model"), s("label"));
    assert_eq!(p.id, 7);
    assert_eq!(p.creator, "model");
    assert_eq!(p.label, "label");
    assert_eq!(p.clone(), p);
}

#[test]
fn attributes_are_made_persistent_or_temporary() {
    let a = Attribute::persistent("ns", "n", vec![AttributeValue::Integer(3)], &Some("hint"), true);
    assert_eq!(a.namespace, "ns");
    assert_eq!(a.name, "n");
    assert_eq!(a.values, vec![AttributeValue::Integer(3)]);
    assert_eq!(a.hint, Some("hint".to_string()));
    assert!(a.is_persistent);
    assert!(a.is_hidden);
    let t = Attribute::temporary("ns", "n", vec![], &None, false);
    assert!(!t.is_persistent);
    assert!(!t.is_hidden);
    assert_eq!(t.hint, None);
    assert!(a.has_key("ns", "n"));
    assert!(!a.has_key("ns", "m"));
    assert!(!a.has_key("n", "ns"));
    assert_eq!(a.clone(), a);
    assert_eq!(clone_attributes(&vec![a.clone(), t.clone()]), vec![a, t]);
}

#[test]
fn attribute_values_know_their_text() {
    assert_eq!(AttributeValue::string("x").as_string(), Some("x".to_string()));
    assert_eq!(AttributeValue::Integer(1).as_string(), None);
    assert_eq!(AttributeValue::Boolean(true).as_string(), None);
}

#[test]
fn generated_frames_have_their_fields() {
    let e = gen_empty_frame();
    assert_eq!(e.source_id, "test");
    assert_eq!((e.pts, e.width, e.height), (0, 0, 0));
    assert_eq!(e.attribute_count(), 0);
    let f = gen_frame();
    assert_eq!(f.source_id, "test");
    assert_eq!((f.pts, f.width, f.height), (1000000, 1280, 720));
    assert_eq!(f.attribute_count(), 4);
    let a = f.get_attribute("system", "test2").unwrap();
    assert_eq!(a.values, vec![AttributeValue::string("3")]);
    assert!(f.get_attribute("system2", "test").is_none());
    assert_eq!(f.clone(), f);
}

#[test]
fn setting_an_attribute_replaces_the_one_with_its_key() {
    let mut f = VideoFrame::new("src", "30/1", 1, 2, 3);
    let one = Attribute::persistent("a", "b", vec![AttributeValue::Integer(1)], &None, false);
    let two = Attribute::persistent("a", "c", vec![AttributeValue::Integer(2)], &None, false);
    let three = Attribute::persistent("a", "b", vec![AttributeValue::Integer(3)], &None, false);
    assert_eq!(f.set_attribute(one.clone()), None);
    assert_eq!(f.set_attribute(two.clone()), None);
    assert_eq!(f.set_attribute(three.clone()), Some(one));
    assert_eq!(f.attribute_count(), 2);
    assert_eq!(f.get_attribute("a", "b"), Some(three));
    assert_eq!(f.get_attribute("a", "c"), Some(two));
    assert_eq!(f.get_attribute("b", "a"), None);
}

#[test]
fn updates_are_applied_in_order() {
    let attr = |name: &str, v: i64| {
        Attribute::persistent("u", name, vec![AttributeValue::Integer(v)], &None, false)
    };
    let mut first = VideoFrameUpdate::default();
    first.add_frame_attribute(attr("x", 1));
    first.add_frame_attribute(attr("y", 1));
    first.add_frame_attribute(attr("x", 2));
    let mut second = VideoFrameUpdate::default();
    second.add_frame_attribute(attr("y", 5));
    let mut f = gen_empty_frame();
    first.apply_to(&mut f);
    assert_eq!(f.get_attribute("u", "x"), Some(attr("x", 2)));
    assert_eq!(f.get_attribute("u", "y"), Some(attr("y", 1)));
    let mut g = gen_empty_frame();
    apply_updates_to(&vec![first.clone(), second], &mut g);
    assert_eq!(g.get_attribute("u", "x"), Some(attr("x", 2)));
    assert_eq!(g.get_attribute("u", "y"), Some(attr("y", 5)));
    assert_eq!(g.attribute_count(), 2);
    assert_eq!(first.clone(), first);
}

#[test]
fn a_batch_holds_frames_by_id() {
    let mut batch = VideoFrameBatch::new();
    assert!(batch.ids().is_empty());
    batch.add(5, gen_frame());
    batch.add(3, gen_empty_frame());
    batch.add(5, gen_empty_frame());
    let mut ids = batch.ids();
    ids.sort();
    assert_eq!(ids, vec![3, 5]);
    assert!(batch.contains(3));
    assert!(!batch.contains(4));
    assert_eq!(batch.get(5), Some(gen_empty_frame()));
    assert_eq!(batch.get(4), None);
    let copy = batch.clone();
    assert_eq!(batch.take(3), Some(gen_empty_frame()));
    assert_eq!(batch.take(3), None);
    assert_eq!(batch.ids(), vec![5]);
    let mut copied = copy.ids();
    copied.sort();
    assert_eq!(copied, vec![3, 5]);
}

#[test]
fn an_attribute_list_keeps_each_key_once_and_in_order() {
    let attr = |ns: &str, name: &str, v: i64| {
        Attribute::persistent(ns, name, vec![AttributeValue::Integer(v)], &None, false)
    };
    let mut list = AttributeList::new();
    assert_eq!(list.len(), 0);
    assert_eq!(list.set(attr("a", "x", 1)), None);
    assert_eq!(list.set(attr("b", "x", 2)), None);
    assert_eq!(list.set(attr("a", "y", 3)), None);
    assert_eq!(list.set(attr("a", "x", 4)), Some(attr("a", "x", 1)));
    assert_eq!(list.len(), 3);
    let key = |ns: &str, name: &str| (ns.to_string(), name.to_string());
    assert_eq!(list.keys(), vec![key("a", "x"), key("b", "x"), key("a", "y")]);
    assert_eq!(list.get("a", "x"), Some(attr("a", "x", 4)));
    assert_eq!(list.get("x", "a"), None);
    assert_eq!(list.to_vec(), vec![attr("a", "x", 4), attr("b", "x", 2), attr("a", "y", 3)]);
    let copy = list.clone();
    assert_eq!(list.remove("b", "x"), Some(attr("b", "x", 2)));
    assert_eq!(list.remove("b", "x"), None);
    assert_eq!(list.keys(), vec![key("a", "x"), key("a", "y")]);
    assert_eq!(copy.len(), 3);
    list.replace(vec![attr("c", "z", 9)]);
    assert_eq!(list.keys(), vec![key("c", "z")]);
    list.clear();
    assert_eq!(list.len(), 0);
    assert_eq!(list, AttributeList::new());
}
