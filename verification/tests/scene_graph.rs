use scene_core::scene::{Scene, SceneObject};

#[test]
fn new_scene_has_a_parentless_root_named_for_the_scene() {
    let scene = Scene::new("Test Scene");
    let root = scene.root();
    assert_eq!(scene.name(), "Test Scene");
    assert_eq!(root.name(&scene), "Test Scene");
    assert!(!root.has_parent(&scene));
    assert_eq!(root.parent(&scene), None);
    assert_eq!(root.child_count(&scene), 0);
    assert_eq!(scene.object_count(), 1);
    assert_ne!(scene.id(), root.id(&scene));
}

#[test]
fn children_are_kept_in_the_order_they_were_added() {
    let mut scene = Scene::new("R");
    let r = scene.root();
    let a = SceneObject::new(&mut scene, "A");
    let b = SceneObject::new(&mut scene, "B");
    let c = SceneObject::new(&mut scene, "C");
    r.add_child(&mut scene, a);
    a.add_child(&mut scene, c);
    r.add_child(&mut scene, b);
    assert_eq!(r.children(&scene), vec![a, b]);
    assert_eq!(a.children(&scene), vec![c]);
    assert_eq!(a.parent(&scene), Some(r));
    assert_eq!(b.parent(&scene), Some(r));
    assert_eq!(c.parent(&scene), Some(a));
    assert_eq!(r.child_count(&scene), 2);
}

#[test]
fn adding_a_child_again_moves_it_to_the_end() {
    let mut scene = Scene::new("R");
    let r = scene.root();
    let a = SceneObject::new(&mut scene, "A");
    let b = SceneObject::new(&mut scene, "B");
    r.add_child(&mut scene, a);
    r.add_child(&mut scene, b);
    r.add_child(&mut scene, a);
    assert_eq!(r.children(&scene), vec![b, a]);
    assert_eq!(a.parent(&scene), Some(r));
}

#[test]
fn reparenting_removes_the_child_from_its_former_parent() {
    let mut scene = Scene::new("R");
    let r = scene.root();
    let a = SceneObject::new(&mut scene, "A");
    let b = SceneObject::new(&mut scene, "B");
    let c = SceneObject::new(&mut scene, "C");
    r.add_child(&mut scene, a);
    r.add_child(&mut scene, b);
    a.add_child(&mut scene, c);
    b.add_child(&mut scene, c);
    assert_eq!(a.children(&scene), Vec::<SceneObject>::new());
    assert_eq!(b.children(&scene), vec![c]);
    assert_eq!(c.parent(&scene), Some(b));
}

#[test]
fn remove_child_keeps_the_order_of_the_rest_and_clears_the_parent() {
    let mut scene = Scene::new("R");
    let r = scene.root();
    let a = SceneObject::new(&mut scene, "A");
    let b = SceneObject::new(&mut scene, "B");
    let c = SceneObject::new(&mut scene, "C");
    r.add_child(&mut scene, a);
    r.add_child(&mut scene, b);
    r.add_child(&mut scene, c);
    r.remove_child(&mut scene, b);
    assert_eq!(r.children(&scene), vec![a, c]);
    assert_eq!(b.parent(&scene), None);
}

#[test]
fn remove_child_of_a_stranger_changes_nothing() {
    let mut scene = Scene::new("R");
    let r = scene.root();
    let a = SceneObject::new(&mut scene, "A");
    let b = SceneObject::new(&mut scene, "B");
    r.add_child(&mut scene, a);
    r.remove_child(&mut scene, b);
    a.remove_child(&mut scene, r);
    assert_eq!(r.children(&scene), vec![a]);
    assert_eq!(a.parent(&scene), Some(r));
    assert_eq!(b.parent(&scene), None);
}

#[test]
fn stands_above_follows_the_parent_links() {
    let mut scene = Scene::new("R");
    let r = scene.root();
    let a = SceneObject::new(&mut scene, "A");
    let b = SceneObject::new(&mut scene, "B");
    let c = SceneObject::new(&mut scene, "C");
    r.add_child(&mut scene, a);
    r.add_child(&mut scene, b);
    a.add_child(&mut scene, c);
    assert!(r.stands_above(&scene, c));
    assert!(a.stands_above(&scene, c));
    assert!(c.stands_above(&scene, c));
    assert!(!b.stands_above(&scene, c));
    assert!(!c.stands_above(&scene, a));
}

#[test]
fn objects_carry_the_identity_they_were_given() {
    let mut scene = Scene::new("R");
    let a = SceneObject::with_id(&mut scene, "A", "id-a".to_string());
    assert_eq!(a.id(&scene), "id-a");
    assert_eq!(a.name(&scene), "A");
    a.set_name(&mut scene, "renamed");
    assert_eq!(a.name(&scene), "renamed");
    assert_eq!(a.id(&scene), "id-a");
}

#[test]
fn selection_is_kept_by_the_scene() {
    let mut scene = Scene::new("R");
    assert_eq!(scene.selected(), None);
    let id = scene.root().id(&scene);
    scene.select(Some(id.clone()));
    assert_eq!(scene.selected(), Some(id));
    scene.select(None);
    assert_eq!(scene.selected(), None);
}

#[test]
fn an_object_added_to_itself_is_its_own_parent_and_child() {
    let mut scene = Scene::new("R");
    let a = SceneObject::new(&mut scene, "A");
    a.add_child(&mut scene, a);
    assert_eq!(a.children(&scene), vec![a]);
    assert_eq!(a.parent(&scene), Some(a));
    a.remove_child(&mut scene, a);
    assert_eq!(a.children(&scene), Vec::<SceneObject>::new());
    assert_eq!(a.parent(&scene), None);
}

#[test]
fn the_root_of_a_scene_can_be_given_a_parent() {
    let mut scene = Scene::new("R");
    let r = scene.root();
    let above = SceneObject::new(&mut scene, "above");
    above.add_child(&mut scene, r);
    assert_eq!(scene.root(), r);
    assert_eq!(r.parent(&scene), Some(above));
    assert_eq!(scene.visit_order(r), vec![r]);
    assert_eq!(scene.find(&above.id(&scene)), None);
}
