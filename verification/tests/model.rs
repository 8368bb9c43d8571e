use scene_core::assets::{AssetDatabase, AssetLocation};
use scene_core::framebuffer::Framebuffer;
use scene_core::model::{
    register_material, register_mesh, register_model, MaterialDefinition, MeshDefinition, Texture,
};

fn material(name: &str, file: &str) -> MaterialDefinition {
    MaterialDefinition {
        name: name.to_string(),
        diffuse_texture: file.to_string(),
        texture: Texture { label: file.to_string(), width: 8, height: 4 },
    }
}

fn mesh(name: &str, num_elements: u32, material_id: Option<usize>) -> MeshDefinition {
    MeshDefinition { name: name.to_string(), num_elements, material_id }
}

fn part(path: &str, part: &str) -> AssetLocation {
    AssetLocation::Resource { path: path.to_string(), in_file_ident: Some(part.to_string()) }
}

#[test]
fn register_model_keeps_the_order_and_the_locations() {
    let mut database = AssetDatabase::new();
    let model = register_model(
        "cube.obj",
        &vec![material("Stone", "stone.png"), material("Wood", "wood.png")],
        &vec![mesh("Cube", 36, Some(1)), mesh("Lid", 6, None)],
        &mut database,
    );
    assert_eq!(model.materials.len(), 2);
    assert_eq!(model.meshes.len(), 2);
    assert_eq!(model.materials[0].location().to_ident(), "res:cube.obj#Stone");
    assert_eq!(model.materials[1].location().to_ident(), "res:cube.obj#Wood");
    assert_eq!(model.meshes[0].location().to_ident(), "res:cube.obj#Cube");
    assert_eq!(model.meshes[1].location().to_ident(), "res:cube.obj#Lid");
    let cube = database.meshes.borrow(&model.meshes[0]);
    assert_eq!(cube.name, "cube.obj");
    assert_eq!(cube.num_elements, 36);
    assert_eq!(cube.material, 1);
    let lid = database.meshes.borrow(&model.meshes[1]);
    assert_eq!(lid.num_elements, 6);
    assert_eq!(lid.material, 0);
    let wood = database.materials.borrow(&model.materials[1]);
    assert_eq!(wood.name, "Wood");
    assert_eq!(wood.diffuse_texture.location().to_ident(), "res:wood.png");
    assert_eq!(database.textures.borrow(&wood.diffuse_texture).label, "wood.png");
    assert!(database.mesh(part("cube.obj", "Cube")).unwrap().same(&model.meshes[0]));
    assert!(database.material(part("cube.obj", "Stone")).unwrap().same(&model.materials[0]));
}

#[test]
fn materials_that_name_one_texture_file_share_the_texture() {
    let mut database = AssetDatabase::new();
    let first = register_material(&mut database, "a.obj", &material("One", "shared.png"));
    let second = register_material(&mut database, "a.obj", &material("Two", "shared.png"));
    assert!(!first.same(&second));
    let one = database.materials.borrow(&first).diffuse_texture.clone();
    let two = database.materials.borrow(&second).diffuse_texture.clone();
    assert!(one.same(&two));
}

#[test]
fn registering_a_model_twice_hands_out_the_same_handles() {
    let mut database = AssetDatabase::new();
    let materials = vec![material("Stone", "stone.png")];
    let meshes = vec![mesh("Cube", 36, Some(0))];
    let first = register_model("cube.obj", &materials, &meshes, &mut database);
    let second = register_model("cube.obj", &materials, &meshes, &mut database);
    assert!(first.meshes[0].same(&second.meshes[0]));
    assert!(first.materials[0].same(&second.materials[0]));
    let other = register_mesh(&mut database, "other.obj", &mesh("Cube", 3, None));
    assert!(!other.same(&first.meshes[0]));
    assert_eq!(database.meshes.borrow(&first.meshes[0]).num_elements, 36);
}

#[test]
fn framebuffer_takes_only_a_different_size_that_is_not_empty() {
    let mut framebuffer = Framebuffer::create(800, 600, "Main");
    assert_eq!(framebuffer.diffuse_label(), "Framebuffer diffuse: Main");
    assert_eq!(framebuffer.depth_label(), "Framebuffer depth: Main");
    assert!(!framebuffer.resize(800, 600));
    assert!(!framebuffer.resize(0, 600));
    assert!(!framebuffer.resize(640, 0));
    assert_eq!((framebuffer.width(), framebuffer.height()), (800, 600));
    assert!(framebuffer.resize(640, 600));
    assert_eq!((framebuffer.width(), framebuffer.height()), (640, 600));
    assert!(framebuffer.resize(640, 480));
    assert_eq!((framebuffer.width(), framebuffer.height()), (640, 480));
}
