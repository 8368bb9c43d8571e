//! The mesh filter: the component that names the mesh and the material with
//! which an object is drawn.

use crate::assets::{ident_text, AssetHandle, HandleView};
use crate::component::{Component, ComponentIdentifier, ComponentPacker, ComponentView};
use crate::model::{Material, Mesh};
use crate::scene::SceneObject;
use vstd::prelude::*;
use vstd::string::StringExecFns;

verus! {

/// A [`MeshFilter`] as a mathematical value.
pub struct MeshFilterView {
    pub mesh: Option<HandleView>,
    pub material: Option<HandleView>,
    pub owner: Option<SceneObject>,
}

/// Names the mesh and the material of an object. Either may be missing: an
/// object without a mesh is not drawn.
pub struct MeshFilter {
    mesh: Option<AssetHandle<Mesh>>,
    material: Option<AssetHandle<Material>>,
    object: Option<SceneObject>,
}

impl View for MeshFilter {
    type V = MeshFilterView;

    closed spec fn view(&self) -> MeshFilterView {
        MeshFilterView {
            mesh: match self.mesh {
                Some(handle) => Some(handle@),
                None => None,
            },
            material: match self.material {
                Some(handle) => Some(handle@),
                None => None,
            },
            owner: self.object,
        }
    }
}

/// The text shown for a handle that may be missing: the textual form of its
/// location, or `None`.
pub open spec fn handle_text(handle: Option<HandleView>) -> Seq<char> {
    match handle {
        Some(handle) => ident_text(handle.key),
        None => seq!['N', 'o', 'n', 'e'],
    }
}

impl MeshFilter {
    /// The kind identifier of mesh filters.
    pub const IDENT: ComponentIdentifier = "mesh_filter";

    /// A mesh filter without mesh and material, attached to no object.
    pub fn new() -> (filter: MeshFilter)
        ensures
            filter@ == (MeshFilterView { mesh: None, material: None, owner: None }),
    {
        MeshFilter { mesh: None, material: None, object: None }
    }

    /// A mesh filter with a mesh and no material, attached to no object.
    pub fn with_mesh(mesh: AssetHandle<Mesh>) -> (filter: MeshFilter)
        ensures
            filter@ == (MeshFilterView { mesh: Some(mesh@), material: None, owner: None }),
    {
        MeshFilter { mesh: Some(mesh), material: None, object: None }
    }

    /// A mesh filter with a mesh and a material, attached to no object.
    pub fn with_material(mesh: AssetHandle<Mesh>, material: AssetHandle<Material>) -> (filter:
        MeshFilter)
        ensures
            filter@ == (MeshFilterView {
                mesh: Some(mesh@),
                material: Some(material@),
                owner: None,
            }),
    {
        MeshFilter { mesh: Some(mesh), material: Some(material), object: None }
    }

    /// Makes `object` the owner of the mesh filter.
    pub fn attach(&mut self, object: SceneObject)
        ensures
            final(self)@ == (MeshFilterView { owner: Some(object), ..old(self)@ }),
    {
        self.object = Some(object);
    }

    /// The handle of the mesh, if one is set.
    pub fn mesh(&self) -> (mesh: Option<&AssetHandle<Mesh>>)
        ensures
            mesh is Some <==> self@.mesh is Some,
            mesh matches Some(handle) ==> Some(handle@) == self@.mesh,
    {
        self.mesh.as_ref()
    }

    /// The handle of the material, if one is set.
    pub fn material(&self) -> (material: Option<&AssetHandle<Material>>)
        ensures
            material is Some <==> self@.material is Some,
            material matches Some(handle) ==> Some(handle@) == self@.material,
    {
        self.material.as_ref()
    }

    /// The object that owns the mesh filter, once it is attached.
    pub fn owner(&self) -> (owner: Option<SceneObject>)
        ensures
            owner == self@.owner,
    {
        self.object
    }

    /// The text that an inspector shows for the mesh.
    pub fn mesh_text(&self) -> (text: String)
        ensures
            text@ == handle_text(self@.mesh),
    {
        match &self.mesh {
            Some(handle) => handle.location().to_ident(),
            None => {
                proof {
                    reveal_strlit("None");
                }
                let text = String::from_str("None");
                assert(text@ =~= handle_text(self@.mesh));
                text
            },
        }
    }

    /// The text that an inspector shows for the material.
    pub fn material_text(&self) -> (text: String)
        ensures
            text@ == handle_text(self@.material),
    {
        match &self.material {
            Some(handle) => handle.location().to_ident(),
            None => {
                proof {
                    reveal_strlit("None");
                }
                let text = String::from_str("None");
                assert(text@ =~= handle_text(self@.material));
                text
            },
        }
    }
}

impl Clone for MeshFilter {
    fn clone(&self) -> (copy: MeshFilter)
        ensures
            copy@ == self@,
    {
        MeshFilter {
            mesh: match &self.mesh {
                Some(handle) => Some(handle.clone()),
                None => None,
            },
            material: match &self.material {
                Some(handle) => Some(handle.clone()),
                None => None,
            },
            object: self.object,
        }
    }
}

impl Default for MeshFilter {
    fn default() -> (filter: MeshFilter)
        ensures
            filter@ == (MeshFilterView { mesh: None, material: None, owner: None }),
    {
        MeshFilter::new()
    }
}

impl ComponentPacker for MeshFilter {
    open spec fn packed(&self) -> ComponentView {
        ComponentView::MeshFilter(self@)
    }

    fn pack(self) -> (component: Component) {
        Component::MeshFilter(self)
    }
}

} // verus!
