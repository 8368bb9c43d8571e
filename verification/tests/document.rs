use scene_core::document::{ObjectDocument, SceneDocument};
use scene_core::mesh_filter::MeshFilter;
use scene_core::scene::{Scene, SceneObject};
use scene_core::transform::{Transform, Vector3};

fn names(document: &ObjectDocument, into: &mut Vec<String>) {
    into.push(document.name.clone());
    for child in &document.childs {
        names(child, into);
    }
}

#[test]
fn round_trip_keeps_names_identities_order_and_parents() {
    let mut scene = Scene::new("saved");
    let root = scene.root();
    let outer = SceneObject::new(&mut scene, "outer");
    let inner = SceneObject::new(&mut scene, "inner");
    let sibling = SceneObject::new(&mut scene, "sibling");
    root.add_child(&mut scene, outer);
    outer.add_child(&mut scene, inner);
    root.add_child(&mut scene, sibling);
    inner.add_component(&mut scene, MeshFilter::new());
    let mut moved = Transform::new();
    moved.position = Vector3 { x: 2.5f32.to_bits(), y: 0, z: 0 };
    outer.set_transform(&mut scene, moved);
    scene.select(Some(inner.id(&scene)));

    let document = scene.to_document();
    let restored = Scene::from_document(&document);

    assert_eq!(restored.name(), scene.name());
    assert_eq!(restored.id(), scene.id());
    assert_eq!(restored.selected(), None);
    let r = restored.root();
    assert_eq!(r.parent(&restored), None);
    assert_eq!(r.id(&restored), root.id(&scene));
    let order = restored.visit_order(r);
    let before = scene.visit_order(root);
    assert_eq!(order.len(), 4);
    for (new, old) in order.iter().zip(before.iter()) {
        assert_eq!(new.name(&restored), old.name(&scene));
        assert_eq!(new.id(&restored), old.id(&scene));
        assert_eq!(new.get_transform(&restored), old.get_transform(&scene));
        assert_eq!(new.child_count(&restored), old.child_count(&scene));
        assert_eq!(
            new.get_component(&restored, MeshFilter::IDENT).is_some(),
            old.get_component(&scene, MeshFilter::IDENT).is_some()
        );
    }
    let names_in_order: Vec<String> = order.iter().map(|o| o.name(&restored)).collect();
    assert_eq!(names_in_order, vec!["saved", "outer", "inner", "sibling"]);
    for object in &order[1..] {
        let parent = object.parent(&restored).unwrap();
        assert!(parent.children(&restored).contains(object));
    }
    let restored_inner = restored.find(&inner.id(&scene)).unwrap();
    let restored_outer = restored.find(&outer.id(&scene)).unwrap();
    assert_eq!(restored_inner.parent(&restored), Some(restored_outer));
    assert_eq!(restored_outer.parent(&restored), Some(r));
}

#[test]
fn to_document_writes_the_tree_without_parent_links() {
    let mut scene = Scene::new("saved");
    let root = scene.root();
    let a = SceneObject::with_id(&mut scene, "a", "id-a".to_string());
    let b = SceneObject::with_id(&mut scene, "b", "id-b".to_string());
    root.add_child(&mut scene, a);
    root.add_child(&mut scene, b);
    b.add_component(&mut scene, MeshFilter::new());
    let document = scene.to_document();
    assert_eq!(document.name, "saved");
    assert_eq!(document.uuid, scene.id());
    assert_eq!(document.root.name, "saved");
    assert_eq!(document.root.childs.len(), 2);
    assert_eq!(document.root.childs[0].uuid, "id-a");
    assert_eq!(document.root.childs[1].uuid, "id-b");
    assert!(!document.root.childs[0].mesh_filter);
    assert!(document.root.childs[1].mesh_filter);
    assert_eq!(document.root.childs[0].transform, Transform::new());
    let mut all = Vec::new();
    names(&document.root, &mut all);
    assert_eq!(all, vec!["saved", "a", "b"]);
}

#[test]
fn from_document_builds_what_the_document_says() {
    let leaf = |name: &str| ObjectDocument {
        name: name.to_string(),
        uuid: format!("id-{name}"),
        transform: Transform::new(),
        mesh_filter: name == "y",
        childs: vec![],
    };
    let document = SceneDocument {
        name: "doc".to_string(),
        uuid: "scene-id".to_string(),
        root: ObjectDocument {
            name: "top".to_string(),
            uuid: "id-top".to_string(),
            transform: Transform::new(),
            mesh_filter: false,
            childs: vec![
                ObjectDocument { childs: vec![leaf("x"), leaf("y")], ..leaf("left") },
                leaf("right"),
            ],
        },
    };
    let scene = Scene::from_document(&document);
    assert_eq!(scene.name(), "doc");
    assert_eq!(scene.id(), "scene-id");
    assert_eq!(scene.object_count(), 5);
    let order: Vec<String> =
        scene.visit_order(scene.root()).iter().map(|o| o.name(&scene)).collect();
    assert_eq!(order, vec!["top", "left", "x", "y", "right"]);
    let y = scene.find(&"id-y".to_string()).unwrap();
    let left = scene.find(&"id-left".to_string()).unwrap();
    assert_eq!(y.parent(&scene), Some(left));
    assert!(y.get_component(&scene, MeshFilter::IDENT).is_some());
    assert!(left.get_component(&scene, MeshFilter::IDENT).is_none());
    let again = scene.to_document();
    assert_eq!(again.root.childs[0].childs[1].uuid, "id-y");
    assert_eq!(again.root.childs.len(), 2);
}
