//! What the cache holds of a loaded model: the plain description of its
//! meshes, materials and textures, and the registration of a model that
//! was read from a file.

use crate::assets::{AssetDatabase, AssetHandle, AssetLocation, DatabaseView, HandleView, LocationView};
use vstd::prelude::*;
use vstd::string::StringExecFns;

verus! {

/// A texture image, by its label and its size in pixels.
pub struct Texture {
    pub label: String,
    pub width: u32,
    pub height: u32,
}

/// A [`Texture`] as a mathematical value.
pub struct TextureView {
    pub label: Seq<char>,
    pub width: u32,
    pub height: u32,
}

impl View for Texture {
    type V = TextureView;

    open spec fn view(&self) -> TextureView {
        TextureView { label: self.label@, width: self.width, height: self.height }
    }
}

impl Clone for Texture {
    fn clone(&self) -> (copy: Texture)
        ensures
            copy@ == self@,
    {
        Texture { label: self.label.clone(), width: self.width, height: self.height }
    }
}

/// A material: its name and the texture that gives it its colour.
pub struct Material {
    pub name: String,
    pub diffuse_texture: AssetHandle<Texture>,
}

/// A [`Material`] as a mathematical value.
pub struct MaterialView {
    pub name: Seq<char>,
    pub diffuse_texture: HandleView,
}

impl View for Material {
    type V = MaterialView;

    open spec fn view(&self) -> MaterialView {
        MaterialView { name: self.name@, diffuse_texture: self.diffuse_texture@ }
    }
}

/// A mesh: its name, the number of indices to draw, and the index of its
/// material among the materials of its model.
pub struct Mesh {
    pub name: String,
    pub num_elements: u32,
    pub material: usize,
}

/// A [`Mesh`] as a mathematical value.
pub struct MeshView {
    pub name: Seq<char>,
    pub num_elements: u32,
    pub material: usize,
}

impl View for Mesh {
    type V = MeshView;

    open spec fn view(&self) -> MeshView {
        MeshView { name: self.name@, num_elements: self.num_elements, material: self.material }
    }
}

/// A loaded model: handles to its meshes and to its materials.
pub struct Model {
    pub meshes: Vec<AssetHandle<Mesh>>,
    pub materials: Vec<AssetHandle<Material>>,
}

/// A material as a model file defines it: its name, the file of its
/// texture, and the texture that was read from that file.
pub struct MaterialDefinition {
    pub name: String,
    pub diffuse_texture: String,
    pub texture: Texture,
}

/// A [`MaterialDefinition`] as a mathematical value.
pub struct MaterialDefinitionView {
    pub name: Seq<char>,
    pub diffuse_texture: Seq<char>,
    pub texture: TextureView,
}

impl View for MaterialDefinition {
    type V = MaterialDefinitionView;

    open spec fn view(&self) -> MaterialDefinitionView {
        MaterialDefinitionView {
            name: self.name@,
            diffuse_texture: self.diffuse_texture@,
            texture: self.texture@,
        }
    }
}

/// A mesh as a model file defines it: its name, the number of its indices,
/// and the index of its material, if it names one.
pub struct MeshDefinition {
    pub name: String,
    pub num_elements: u32,
    pub material_id: Option<usize>,
}

/// A [`MeshDefinition`] as a mathematical value.
pub struct MeshDefinitionView {
    pub name: Seq<char>,
    pub num_elements: u32,
    pub material_id: Option<usize>,
}

impl View for MeshDefinition {
    type V = MeshDefinitionView;

    open spec fn view(&self) -> MeshDefinitionView {
        MeshDefinitionView {
            name: self.name@,
            num_elements: self.num_elements,
            material_id: self.material_id,
        }
    }
}

/// The location of the part `part` of the file `path`, or of the whole
/// file.
pub open spec fn resource_location(path: Seq<char>, part: Option<Seq<char>>) -> LocationView {
    LocationView::Resource { path, in_file_ident: part }
}

/// The views of the material definitions of `definitions`.
pub open spec fn material_views(definitions: Seq<MaterialDefinition>) -> Seq<
    MaterialDefinitionView,
> {
    definitions.map(|i: int, definition: MaterialDefinition| definition@)
}

/// The views of the mesh definitions of `definitions`.
pub open spec fn mesh_views(definitions: Seq<MeshDefinition>) -> Seq<MeshDefinitionView> {
    definitions.map(|i: int, definition: MeshDefinition| definition@)
}

/// The views of the handles of `handles`.
pub open spec fn handle_views<T>(handles: Seq<AssetHandle<T>>) -> Seq<HandleView> {
    handles.map(|i: int, handle: AssetHandle<T>| handle@)
}

impl DatabaseView {
    /// The handle given out for a material of the file `file`.
    pub open spec fn material_handle(
        self,
        file: Seq<char>,
        definition: MaterialDefinitionView,
    ) -> HandleView {
        self.materials.handle_for(resource_location(file, Some(definition.name)))
    }

    /// The cache after a material of the file `file` was registered: its
    /// texture is loaded for the texture file, and the material, referring to
    /// the texture kept for that file, for its name in `file`.
    pub open spec fn with_material(
        self,
        file: Seq<char>,
        definition: MaterialDefinitionView,
    ) -> DatabaseView {
        let texture_location = resource_location(definition.diffuse_texture, None);
        DatabaseView {
            textures: self.textures.load(texture_location, definition.texture),
            materials: self.materials.load(
                resource_location(file, Some(definition.name)),
                MaterialView {
                    name: definition.name,
                    diffuse_texture: self.textures.handle_for(texture_location),
                },
            ),
            ..self
        }
    }

    /// The cache after the materials were registered one after another.
    pub open spec fn with_materials(
        self,
        file: Seq<char>,
        definitions: Seq<MaterialDefinitionView>,
    ) -> DatabaseView
        decreases definitions.len(),
    {
        if definitions.len() == 0 {
            self
        } else {
            self.with_materials(file, definitions.drop_last()).with_material(
                file,
                definitions.last(),
            )
        }
    }

    /// The handles given out while the materials were registered one after
    /// another.
    pub open spec fn material_handles(
        self,
        file: Seq<char>,
        definitions: Seq<MaterialDefinitionView>,
    ) -> Seq<HandleView>
        decreases definitions.len(),
    {
        if definitions.len() == 0 {
            Seq::empty()
        } else {
            self.material_handles(file, definitions.drop_last()).push(
                self.with_materials(file, definitions.drop_last()).material_handle(
                    file,
                    definitions.last(),
                ),
            )
        }
    }

    /// The handle given out for a mesh of the file `file`.
    pub open spec fn mesh_handle(self, file: Seq<char>, definition: MeshDefinitionView) -> HandleView {
        self.meshes.handle_for(resource_location(file, Some(definition.name)))
    }

    /// The cache after a mesh of the file `file` was registered for its name
    /// in `file`: a mesh named after the file, with the material of index 0
    /// when the definition names none.
    pub open spec fn with_mesh(self, file: Seq<char>, definition: MeshDefinitionView) -> DatabaseView {
        DatabaseView {
            meshes: self.meshes.load(
                resource_location(file, Some(definition.name)),
                MeshView {
                    name: file,
                    num_elements: definition.num_elements,
                    material: match definition.material_id {
                        Some(id) => id,
                        None => 0,
                    },
                },
            ),
            ..self
        }
    }

    /// The cache after the meshes were registered one after another.
    pub open spec fn with_meshes(
        self,
        file: Seq<char>,
        definitions: Seq<MeshDefinitionView>,
    ) -> DatabaseView
        decreases definitions.len(),
    {
        if definitions.len() == 0 {
            self
        } else {
            self.with_meshes(file, definitions.drop_last()).with_mesh(file, definitions.last())
        }
    }

    /// The handles given out while the meshes were registered one after
    /// another.
    pub open spec fn mesh_handles(
        self,
        file: Seq<char>,
        definitions: Seq<MeshDefinitionView>,
    ) -> Seq<HandleView>
        decreases definitions.len(),
    {
        if definitions.len() == 0 {
            Seq::empty()
        } else {
            self.mesh_handles(file, definitions.drop_last()).push(
                self.with_meshes(file, definitions.drop_last()).mesh_handle(
                    file,
                    definitions.last(),
                ),
            )
        }
    }
}

/// Registers one material of the model file `file_name` and its texture.
pub fn register_material(
    asset_database: &mut AssetDatabase,
    file_name: &str,
    definition: &MaterialDefinition,
) -> (handle: AssetHandle<Material>)
    requires
        old(asset_database)@.wf(),
    ensures
        final(asset_database)@ == old(asset_database)@.with_material(file_name@, definition@),
        handle@ == old(asset_database)@.material_handle(file_name@, definition@),
        final(asset_database)@.wf(),
        final(asset_database)@.materials.holds(handle@),
{
    let texture = asset_database.load_texture(
        AssetLocation::Resource { path: definition.diffuse_texture.clone(), in_file_ident: None },
        definition.texture.clone(),
    );
    asset_database.load_material(
        AssetLocation::Resource {
            path: String::from_str(file_name),
            in_file_ident: Some(definition.name.clone()),
        },
        Material { name: definition.name.clone(), diffuse_texture: texture },
    )
}

/// Registers one mesh of the model file `file_name`.
pub fn register_mesh(
    asset_database: &mut AssetDatabase,
    file_name: &str,
    definition: &MeshDefinition,
) -> (handle: AssetHandle<Mesh>)
    requires
        old(asset_database)@.wf(),
    ensures
        final(asset_database)@ == old(asset_database)@.with_mesh(file_name@, definition@),
        handle@ == old(asset_database)@.mesh_handle(file_name@, definition@),
        final(asset_database)@.wf(),
        final(asset_database)@.meshes.holds(handle@),
{
    asset_database.load_mesh(
        AssetLocation::Resource {
            path: String::from_str(file_name),
            in_file_ident: Some(definition.name.clone()),
        },
        Mesh {
            name: String::from_str(file_name),
            num_elements: definition.num_elements,
            material: match definition.material_id {
                Some(id) => id,
                None => 0,
            },
        },
    )
}

/// Registers what was read from the model file `file_name`: first its
/// materials with their textures, then its meshes, each in the order given.
/// The model holds the handles in the same order.
pub fn register_model(
    file_name: &str,
    materials: &Vec<MaterialDefinition>,
    meshes: &Vec<MeshDefinition>,
    asset_database: &mut AssetDatabase,
) -> (model: Model)
    requires
        old(asset_database)@.wf(),
    ensures
        final(asset_database)@ == old(asset_database)@.with_materials(
            file_name@,
            material_views(materials@),
        ).with_meshes(file_name@, mesh_views(meshes@)),
        handle_views(model.materials@) == old(asset_database)@.material_handles(
            file_name@,
            material_views(materials@),
        ),
        handle_views(model.meshes@) == old(asset_database)@.with_materials(
            file_name@,
            material_views(materials@),
        ).mesh_handles(file_name@, mesh_views(meshes@)),
        final(asset_database)@.wf(),
{
    let ghost start = asset_database@;
    let ghost all_materials = material_views(materials@);
    let mut material_handles: Vec<AssetHandle<Material>> = Vec::new();
    let mut i: usize = 0;
    proof {
        assert(all_materials.subrange(0, 0) =~= Seq::<MaterialDefinitionView>::empty());
        assert(handle_views(material_handles@) =~= Seq::<HandleView>::empty());
    }
    while i < materials.len()
        invariant
            i <= materials.len(),
            all_materials == material_views(materials@),
            asset_database@.wf(),
            asset_database@ == start.with_materials(file_name@, all_materials.subrange(0, i as int)),
            handle_views(material_handles@) == start.material_handles(
                file_name@,
                all_materials.subrange(0, i as int),
            ),
        decreases materials.len() - i,
    {
        let ghost before = handle_views(material_handles@);
        let handle = register_material(asset_database, file_name, &materials[i]);
        material_handles.push(handle);
        proof {
            let done = all_materials.subrange(0, i + 1);
            assert(done.drop_last() =~= all_materials.subrange(0, i as int));
            assert(done.last() == materials@[i as int]@);
            assert(handle_views(material_handles@) =~= before.push(handle@));
        }
        i = i + 1;
    }
    proof {
        assert(all_materials.subrange(0, materials.len() as int) =~= all_materials);
    }
    let ghost middle = asset_database@;
    let ghost all_meshes = mesh_views(meshes@);
    let mut mesh_handles: Vec<AssetHandle<Mesh>> = Vec::new();
    let mut j: usize = 0;
    proof {
        assert(all_meshes.subrange(0, 0) =~= Seq::<MeshDefinitionView>::empty());
        assert(handle_views(mesh_handles@) =~= Seq::<HandleView>::empty());
    }
    while j < meshes.len()
        invariant
            j <= meshes.len(),
            all_meshes == mesh_views(meshes@),
            asset_database@.wf(),
            asset_database@ == middle.with_meshes(file_name@, all_meshes.subrange(0, j as int)),
            handle_views(mesh_handles@) == middle.mesh_handles(
                file_name@,
                all_meshes.subrange(0, j as int),
            ),
        decreases meshes.len() - j,
    {
        let ghost before = handle_views(mesh_handles@);
        let handle = register_mesh(asset_database, file_name, &meshes[j]);
        mesh_handles.push(handle);
        proof {
            let done = all_meshes.subrange(0, j + 1);
            assert(done.drop_last() =~= all_meshes.subrange(0, j as int));
            assert(done.last() == meshes@[j as int]@);
            assert(handle_views(mesh_handles@) =~= before.push(handle@));
        }
        j = j + 1;
    }
    proof {
        assert(all_meshes.subrange(0, meshes.len() as int) =~= all_meshes);
    }
    Model { meshes: mesh_handles, materials: material_handles }
}

} // verus!
