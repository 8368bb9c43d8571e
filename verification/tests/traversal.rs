use cgmath::{Deg, Euler, Matrix4, Quaternion, SquareMatrix, Vector4};
use scene_core::assets::{AssetDatabase, AssetLocation};
use scene_core::component::{Component, ComponentPacker};
use scene_core::mesh_filter::MeshFilter;
use scene_core::model::{Material, Mesh, Texture};
use scene_core::render::{render_scene, render_scene_obj};
use scene_core::scene::{Scene, SceneObject};
use scene_core::transform::{Transform, TransformStack, Vector3};

fn placed_at(x: f32, y: f32, z: f32) -> Transform {
    let mut transform = Transform::new();
    transform.position = Vector3 { x: x.to_bits(), y: y.to_bits(), z: z.to_bits() };
    transform
}

fn number(bits: u32) -> f32 {
    f32::from_bits(bits)
}

fn matrix_of(transform: &Transform) -> Matrix4<f32> {
    let (p, r, s) = (transform.position, transform.rotation, transform.scale);
    Matrix4::from_nonuniform_scale(number(s.x), number(s.y), number(s.z))
        * Matrix4::from(Quaternion::from(Euler::new(
            Deg(number(r.x)),
            Deg(number(r.y)),
            Deg(number(r.z)),
        )))
        * Matrix4::from_translation(cgmath::vec3(number(p.x), number(p.y), number(p.z)))
}

fn cube(database: &mut AssetDatabase) -> MeshFilter {
    let texture = database.load_texture(
        AssetLocation::Resource { path: "stone.png".to_string(), in_file_ident: None },
        Texture { label: "stone.png".to_string(), width: 1, height: 1 },
    );
    let material = database.load_material(
        AssetLocation::Resource {
            path: "cube.obj".to_string(),
            in_file_ident: Some("Stone".to_string()),
        },
        Material { name: "Stone".to_string(), diffuse_texture: texture },
    );
    let mesh = database.load_mesh(
        AssetLocation::Resource {
            path: "cube.obj".to_string(),
            in_file_ident: Some("Cube".to_string()),
        },
        Mesh { name: "cube.obj".to_string(), num_elements: 36, material: 0 },
    );
    MeshFilter::with_material(mesh, material)
}

#[test]
fn traversal_visits_each_object_before_its_children_in_their_order() {
    let mut scene = Scene::new("R");
    let r = scene.root();
    let a = SceneObject::new(&mut scene, "A");
    let b = SceneObject::new(&mut scene, "B");
    let c = SceneObject::new(&mut scene, "C");
    r.add_child(&mut scene, a);
    a.add_child(&mut scene, c);
    r.add_child(&mut scene, b);
    assert_eq!(scene.visit_order(r), vec![r, a, c, b]);
    assert_eq!(scene.visit_order(a), vec![a, c]);
    assert_eq!(scene.visit_order(b), vec![b]);
}

#[test]
fn find_returns_the_object_of_the_identity() {
    let mut scene = Scene::new("R");
    let r = scene.root();
    let a = SceneObject::new(&mut scene, "A");
    let b = SceneObject::new(&mut scene, "B");
    let c = SceneObject::new(&mut scene, "C");
    r.add_child(&mut scene, a);
    a.add_child(&mut scene, c);
    r.add_child(&mut scene, b);
    for object in [r, a, b, c] {
        assert_eq!(scene.find(&object.id(&scene)), Some(object));
    }
    assert_eq!(scene.find(&"no such identity".to_string()), None);
}

#[test]
fn find_does_not_see_objects_outside_the_root() {
    let mut scene = Scene::new("R");
    let loose = SceneObject::new(&mut scene, "loose");
    assert_eq!(scene.find(&loose.id(&scene)), None);
}

#[test]
fn find_returns_the_first_match_of_the_walk() {
    let mut scene = Scene::new("R");
    let r = scene.root();
    let a = SceneObject::with_id(&mut scene, "A", "a".to_string());
    let b = SceneObject::with_id(&mut scene, "B", "twin".to_string());
    let c = SceneObject::with_id(&mut scene, "C", "twin".to_string());
    r.add_child(&mut scene, a);
    a.add_child(&mut scene, c);
    r.add_child(&mut scene, b);
    assert_eq!(scene.find(&"twin".to_string()), Some(c));
}

#[test]
fn a_child_is_drawn_under_the_transform_of_its_parent_then_its_own() {
    let mut database = AssetDatabase::new();
    let mut scene = Scene::new("scene");
    let root = scene.root();
    let a = SceneObject::new(&mut scene, "A");
    let b = SceneObject::new(&mut scene, "B");
    root.add_child(&mut scene, a);
    a.add_child(&mut scene, b);
    let at_a = placed_at(1.0, 0.0, 0.0);
    let at_b = placed_at(0.0, 1.0, 0.0);
    a.set_transform(&mut scene, at_a);
    b.set_transform(&mut scene, at_b);
    b.add_component(&mut scene, cube(&mut database));
    let units = render_scene(&scene);
    assert_eq!(units.len(), 1);
    assert_eq!(units[0].transforms, vec![Transform::new(), at_a, at_b]);
    assert_eq!(units[0].label, "Render Bundle for: B");
    let world = units[0]
        .transforms
        .iter()
        .fold(Matrix4::identity(), |product, factor| product * matrix_of(factor))
        * Vector4::new(0.0, 0.0, 0.0, 1.0);
    let world = vec![world.x, world.y, world.z];
    assert_eq!(world, vec![1.0, 1.0, 0.0]);
}

#[test]
fn units_come_in_the_order_of_the_walk_and_the_stack_is_left_empty() {
    let mut database = AssetDatabase::new();
    let mut scene = Scene::new("R");
    let r = scene.root();
    let a = SceneObject::new(&mut scene, "A");
    let b = SceneObject::new(&mut scene, "B");
    let c = SceneObject::new(&mut scene, "C");
    r.add_child(&mut scene, a);
    a.add_child(&mut scene, c);
    r.add_child(&mut scene, b);
    for object in [r, a, b, c] {
        object.add_component(&mut scene, cube(&mut database));
    }
    let mut stack = TransformStack::new();
    let units = render_scene_obj(&scene, r, &mut stack);
    let labels: Vec<&str> = units.iter().map(|u| u.label.as_str()).collect();
    assert_eq!(
        labels,
        vec![
            "Render Bundle for: R",
            "Render Bundle for: A",
            "Render Bundle for: C",
            "Render Bundle for: B"
        ]
    );
    let depths: Vec<usize> = units.iter().map(|u| u.transforms.len()).collect();
    assert_eq!(depths, vec![1, 2, 3, 2]);
    assert_eq!(stack.depth(), 0);
    assert_eq!(stack.pop(), None);
}

#[test]
fn the_stack_is_left_as_it_was_found() {
    let mut scene = Scene::new("R");
    let r = scene.root();
    let a = SceneObject::new(&mut scene, "A");
    r.add_child(&mut scene, a);
    let outer = placed_at(5.0, 5.0, 5.0);
    let mut stack = TransformStack::new();
    stack.push(outer);
    let units = render_scene_obj(&scene, r, &mut stack);
    assert!(units.is_empty());
    assert_eq!(stack.eval(), vec![outer]);
}

#[test]
fn objects_without_a_mesh_draw_nothing_but_their_children_are_walked() {
    let mut database = AssetDatabase::new();
    let mut scene = Scene::new("R");
    let r = scene.root();
    let group = SceneObject::new(&mut scene, "group");
    let empty = SceneObject::new(&mut scene, "empty filter");
    let leaf = SceneObject::new(&mut scene, "leaf");
    r.add_child(&mut scene, group);
    group.add_child(&mut scene, empty);
    empty.add_child(&mut scene, leaf);
    empty.add_component(&mut scene, MeshFilter::new());
    leaf.add_component(&mut scene, cube(&mut database));
    let units = render_scene(&scene);
    assert_eq!(units.len(), 1);
    assert_eq!(units[0].label, "Render Bundle for: leaf");
    assert_eq!(units[0].transforms.len(), 4);
    assert!(units[0].material.is_some());
}

#[test]
fn a_mesh_without_material_is_drawn_without_one() {
    let mut database = AssetDatabase::new();
    let mesh = database.load_mesh(
        AssetLocation::Builtin { idnetifying_name: "quad" },
        Mesh { name: "quad".to_string(), num_elements: 6, material: 0 },
    );
    let mut scene = Scene::new("R");
    let r = scene.root();
    r.add_component(&mut scene, MeshFilter::with_mesh(mesh.clone()));
    let units = render_scene(&scene);
    assert_eq!(units.len(), 1);
    assert!(units[0].material.is_none());
    assert!(units[0].mesh.same(&mesh));
    assert_eq!(units[0].mesh.location().to_ident(), "builtin:quad");
}

#[test]
fn a_second_component_of_a_kind_replaces_the_first() {
    let mut database = AssetDatabase::new();
    let mut scene = Scene::new("R");
    let r = scene.root();
    assert!(r.get_component(&scene, MeshFilter::IDENT).is_none());
    r.add_component(&mut scene, MeshFilter::new());
    let first = r.get_component(&scene, MeshFilter::IDENT).unwrap();
    r.add_component(&mut scene, cube(&mut database).pack());
    let second = r.get_component(&scene, MeshFilter::IDENT).unwrap();
    assert_eq!(first, second);
    match second.get(&scene) {
        Component::MeshFilter(filter) => {
            assert!(filter.mesh().is_some());
            assert_eq!(filter.owner(), Some(r));
            assert_eq!(filter.mesh_text(), "res:cube.obj#Cube");
            assert_eq!(filter.material_text(), "res:cube.obj#Stone");
        }
    }
    assert_eq!(render_scene(&scene).len(), 1);
    assert!(r.get_component(&scene, "no such kind").is_none());
}

#[test]
fn a_mesh_filter_without_handles_shows_none() {
    let filter = MeshFilter::default();
    assert_eq!(filter.mesh_text(), "None");
    assert_eq!(filter.material_text(), "None");
    assert_eq!(filter.owner(), None);
    assert_eq!(MeshFilter::IDENT, "mesh_filter");
}
