use scene_core::assets::{AssetDatabase, AssetLocation, AssetStore};
use scene_core::model::{Material, Mesh, Texture};

fn resource(path: &str, part: Option<&str>) -> AssetLocation {
    AssetLocation::Resource { path: path.to_string(), in_file_ident: part.map(|p| p.to_string()) }
}

fn mesh(name: &str, num_elements: u32) -> Mesh {
    Mesh { name: name.to_string(), num_elements, material: 0 }
}

#[test]
fn to_ident_of_a_builtin() {
    let location = AssetLocation::Builtin { idnetifying_name: "cube" };
    assert_eq!(location.to_ident(), "builtin:cube");
}

#[test]
fn to_ident_of_a_resource() {
    assert_eq!(resource("cube.obj", None).to_ident(), "res:cube.obj");
    assert_eq!(resource("cube.obj", Some("Material")).to_ident(), "res:cube.obj#Material");
    assert_eq!(resource("", Some("")).to_ident(), "res:#");
}

#[test]
fn locations_compare_by_what_they_hold() {
    assert_eq!(resource("a", None), resource("a", None));
    assert_ne!(resource("a", None), resource("a", Some("")));
    assert_ne!(resource("a", Some("x")), resource("a", Some("y")));
    assert_ne!(resource("a", None), resource("b", None));
    assert_ne!(resource("a", None), AssetLocation::Builtin { idnetifying_name: "a" });
    assert_eq!(
        AssetLocation::Builtin { idnetifying_name: "a" },
        AssetLocation::Builtin { idnetifying_name: "a" }
    );
    assert_eq!(resource("a", Some("x")).clone(), resource("a", Some("x")));
}

#[test]
fn loading_a_location_twice_shares_the_resource() {
    let mut store: AssetStore<Mesh> = AssetStore::new();
    let first = store.load(resource("cube.obj", Some("Cube")), mesh("first", 36));
    let second = store.load(resource("cube.obj", Some("Cube")), mesh("second", 12));
    assert!(first.same(&second));
    assert_eq!(store.borrow(&second).name, "first");
    store.replace(&first, mesh("changed", 3));
    assert_eq!(store.borrow(&second).name, "changed");
    assert_eq!(store.borrow(&second).num_elements, 3);
}

#[test]
fn distinct_locations_hold_independent_resources() {
    let mut store: AssetStore<Mesh> = AssetStore::new();
    let first = store.load(resource("a.obj", None), mesh("a", 1));
    let second = store.load(resource("b.obj", None), mesh("b", 2));
    assert!(!first.same(&second));
    store.replace(&first, mesh("changed", 9));
    assert_eq!(store.borrow(&second).name, "b");
    assert_eq!(store.borrow(&second).num_elements, 2);
    assert_eq!(store.borrow(&first).name, "changed");
}

#[test]
fn lookup_finds_only_what_was_loaded() {
    let mut database = AssetDatabase::new();
    assert!(database.mesh(resource("a.obj", None)).is_none());
    let loaded = database.load_mesh(resource("a.obj", None), mesh("a", 1));
    let found = database.mesh(resource("a.obj", None)).unwrap();
    assert!(found.same(&loaded));
    assert_eq!(found.location(), &resource("a.obj", None));
    assert!(database.mesh(resource("b.obj", None)).is_none());
    assert!(database.texture(resource("a.obj", None)).is_none());
    assert!(database.material(resource("a.obj", None)).is_none());
}

#[test]
fn materials_refer_to_cached_textures() {
    let mut database = AssetDatabase::new();
    let texture = database.load_texture(
        resource("stone.png", None),
        Texture { label: "stone.png".to_string(), width: 4, height: 2 },
    );
    let material = database.load_material(
        resource("cube.obj", Some("Stone")),
        Material { name: "Stone".to_string(), diffuse_texture: texture.clone() },
    );
    let again = database.texture(resource("stone.png", None)).unwrap();
    let kept = &database.materials.borrow(&material).diffuse_texture;
    assert!(kept.same(&again));
    assert_eq!(database.textures.borrow(kept).width, 4);
}
