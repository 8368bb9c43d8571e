//! The asset cache: loaded resources are kept once per location, and handles
//! to them are shared by everything that refers to the resource.

use crate::model::{Material, Mesh, Texture};
use crate::text::str_eq;
use core::marker::PhantomData;
use vstd::prelude::*;
use vstd::std_specs::cmp::PartialEqSpecImpl;
use vstd::string::StringExecFns;

verus! {

/// Where an asset comes from: built into the program, or a file with an
/// optional name of a part inside that file.
#[derive(Debug, Eq, Hash)]
pub enum AssetLocation {
    Builtin { idnetifying_name: &'static str },
    Resource { path: String, in_file_ident: Option<String> },
}

/// An [`AssetLocation`] as a mathematical value.
pub enum LocationView {
    Builtin { name: Seq<char> },
    Resource { path: Seq<char>, in_file_ident: Option<Seq<char>> },
}

impl View for AssetLocation {
    type V = LocationView;

    open spec fn view(&self) -> LocationView {
        match self {
            AssetLocation::Builtin { idnetifying_name } => LocationView::Builtin {
                name: idnetifying_name@,
            },
            AssetLocation::Resource { path, in_file_ident } => LocationView::Resource {
                path: path@,
                in_file_ident: match in_file_ident {
                    Some(ident) => Some(ident@),
                    None => None,
                },
            },
        }
    }
}

/// The textual form of a location: `builtin:<name>`, `res:<path>`, or
/// `res:<path>#<part>` when a part of the file is named.
pub open spec fn ident_text(location: LocationView) -> Seq<char> {
    match location {
        LocationView::Builtin { name } => seq!['b', 'u', 'i', 'l', 't', 'i', 'n', ':'] + name,
        LocationView::Resource { path, in_file_ident } => seq!['r', 'e', 's', ':'] + path + match in_file_ident {
            Some(ident) => seq!['#'] + ident,
            None => Seq::empty(),
        },
    }
}

/// Whether the textual form of the location can be read back: the path of
/// a resource holds no `#`.
pub open spec fn is_plain(location: LocationView) -> bool {
    match location {
        LocationView::Builtin { name } => true,
        LocationView::Resource { path, in_file_ident } => !path.contains('#'),
    }
}

/// Different locations have different textual forms, as long as no path
/// holds a `#`.
pub proof fn lemma_ident_text_is_unique(first: LocationView, second: LocationView)
    requires
        is_plain(first),
        is_plain(second),
        first != second,
    ensures
        ident_text(first) != ident_text(second),
{
    let a = ident_text(first);
    let b = ident_text(second);
    if a == b {
        match (first, second) {
            (LocationView::Builtin { name: name_a }, LocationView::Builtin { name: name_b }) => {
                assert(a.subrange(8, a.len() as int) =~= name_a);
                assert(b.subrange(8, b.len() as int) =~= name_b);
            },
            (LocationView::Builtin { .. }, LocationView::Resource { .. }) => {
                assert(a[0] == 'b' && b[0] == 'r');
            },
            (LocationView::Resource { .. }, LocationView::Builtin { .. }) => {
                assert(a[0] == 'r' && b[0] == 'b');
            },
            (
                LocationView::Resource { path: path_a, in_file_ident: part_a },
                LocationView::Resource { path: path_b, in_file_ident: part_b },
            ) => {
                let tail_a = match part_a {
                    Some(ident) => seq!['#'] + ident,
                    None => Seq::empty(),
                };
                let tail_b = match part_b {
                    Some(ident) => seq!['#'] + ident,
                    None => Seq::empty(),
                };
                let left = path_a + tail_a;
                let right = path_b + tail_b;
                assert(a.subrange(4, a.len() as int) =~= left);
                assert(b.subrange(4, b.len() as int) =~= right);
                assert(left == right);
                if path_a.len() < path_b.len() {
                    assert(right[path_a.len() as int] == path_b[path_a.len() as int]);
                    assert(path_b.contains(path_b[path_a.len() as int]));
                    if tail_a.len() > 0 {
                        assert(left[path_a.len() as int] == '#');
                    }
                } else if path_b.len() < path_a.len() {
                    assert(left[path_b.len() as int] == path_a[path_b.len() as int]);
                    assert(path_a.contains(path_a[path_b.len() as int]));
                    if tail_b.len() > 0 {
                        assert(right[path_b.len() as int] == '#');
                    }
                }
                assert(path_a.len() == path_b.len());
                assert(left.subrange(0, path_a.len() as int) =~= path_a);
                assert(right.subrange(0, path_b.len() as int) =~= path_b);
                assert(left.subrange(path_a.len() as int, left.len() as int) =~= tail_a);
                assert(right.subrange(path_b.len() as int, right.len() as int) =~= tail_b);
                assert(tail_a == tail_b);
                match (part_a, part_b) {
                    (Some(ident_a), Some(ident_b)) => {
                        assert(tail_a.subrange(1, tail_a.len() as int) =~= ident_a);
                        assert(tail_b.subrange(1, tail_b.len() as int) =~= ident_b);
                    },
                    (None, None) => {},
                    _ => {
                        assert(tail_a.len() != tail_b.len());
                    },
                }
            },
        }
    }
}

impl AssetLocation {
    /// The textual form of the location.
    pub fn to_ident(&self) -> (text: String)
        ensures
            text@ == ident_text(self@),
    {
        match self {
            AssetLocation::Builtin { idnetifying_name } => {
                proof {
                    reveal_strlit("builtin:");
                }
                let mut text = String::from_str("builtin:");
                text.append(idnetifying_name);
                assert(text@ =~= ident_text(self@));
                text
            },
            AssetLocation::Resource { path, in_file_ident } => {
                proof {
                    reveal_strlit("res:");
                    reveal_strlit("#");
                }
                let mut text = String::from_str("res:");
                text.append(path.as_str());
                match in_file_ident {
                    Some(ident) => {
                        text.append("#");
                        text.append(ident.as_str());
                    },
                    None => {},
                }
                assert(text@ =~= ident_text(self@));
                text
            },
        }
    }

    /// Whether two locations name the same asset.
    pub fn same(&self, other: &AssetLocation) -> (same: bool)
        ensures
            same == (self@ == other@),
    {
        match (self, other) {
            (
                AssetLocation::Builtin { idnetifying_name: a },
                AssetLocation::Builtin { idnetifying_name: b },
            ) => str_eq(a, b),
            (
                AssetLocation::Resource { path: path_a, in_file_ident: ident_a },
                AssetLocation::Resource { path: path_b, in_file_ident: ident_b },
            ) => {
                if !str_eq(path_a.as_str(), path_b.as_str()) {
                    false
                } else {
                    match (ident_a, ident_b) {
                        (Some(a), Some(b)) => str_eq(a.as_str(), b.as_str()),
                        (None, None) => true,
                        _ => false,
                    }
                }
            },
            _ => false,
        }
    }
}

impl Clone for AssetLocation {
    fn clone(&self) -> (copy: AssetLocation)
        ensures
            copy@ == self@,
    {
        match self {
            AssetLocation::Builtin { idnetifying_name } => AssetLocation::Builtin {
                idnetifying_name: *idnetifying_name,
            },
            AssetLocation::Resource { path, in_file_ident } => AssetLocation::Resource {
                path: path.clone(),
                in_file_ident: match in_file_ident {
                    Some(ident) => Some(ident.clone()),
                    None => None,
                },
            },
        }
    }
}

impl PartialEq for AssetLocation {
    fn eq(&self, other: &AssetLocation) -> (same: bool) {
        self.same(other)
    }
}

impl PartialEqSpecImpl for AssetLocation {
    open spec fn obeys_eq_spec() -> bool {
        true
    }

    open spec fn eq_spec(&self, other: &AssetLocation) -> bool {
        self@ == other@
    }
}

/// An [`AssetHandle`] as a mathematical value.
pub struct HandleView {
    /// The location that the handle was loaded for.
    pub key: LocationView,
    /// The place of the resource in its store.
    pub index: int,
}

/// A reference to a cached resource: the location it was loaded for and its
/// place in the store. Copies of a handle refer to the same resource.
#[derive(Debug)]
pub struct AssetHandle<T> {
    pub(crate) location: AssetLocation,
    pub(crate) slot: usize,
    pub(crate) kind: PhantomData<T>,
}

impl<T> View for AssetHandle<T> {
    type V = HandleView;

    closed spec fn view(&self) -> HandleView {
        HandleView { key: self.location@, index: self.slot as int }
    }
}

impl<T> AssetHandle<T> {
    /// The location that the handle was loaded for.
    pub fn location(&self) -> (location: &AssetLocation)
        ensures
            location@ == self@.key,
    {
        &self.location
    }

    /// The place of the resource in its store.
    pub fn slot(&self) -> (slot: usize)
        ensures
            slot == self@.index,
    {
        self.slot
    }

    /// Whether two handles refer to the same resource.
    pub fn same(&self, other: &AssetHandle<T>) -> (same: bool)
        ensures
            same == (self@.index == other@.index),
    {
        self.slot == other.slot
    }
}

impl<T> Clone for AssetHandle<T> {
    fn clone(&self) -> (copy: AssetHandle<T>)
        ensures
            copy@ == self@,
    {
        AssetHandle { location: self.location.clone(), slot: self.slot, kind: PhantomData }
    }
}

/// What a store holds, as a mathematical value: the locations in the order
/// in which they were first loaded, and for each the resource kept under it.
pub struct StoreView<V> {
    pub keys: Seq<LocationView>,
    pub assets: Seq<V>,
}

impl<V> StoreView<V> {
    /// Every location has one resource, and no location is held twice.
    pub open spec fn wf(self) -> bool {
        &&& self.keys.len() == self.assets.len()
        &&& self.keys.no_duplicates()
    }

    /// Whether the handle refers to a resource of this store.
    pub open spec fn holds(self, handle: HandleView) -> bool {
        &&& 0 <= handle.index < self.keys.len()
        &&& self.keys[handle.index] == handle.key
    }

    /// The resource that the handle refers to.
    pub open spec fn resource(self, handle: HandleView) -> V {
        self.assets[handle.index]
    }

    /// The handle that loading `location` hands out: to the place where the
    /// location is held, or to the next free place when it is not held yet.
    pub open spec fn handle_for(self, location: LocationView) -> HandleView {
        HandleView {
            key: location,
            index: if self.keys.contains(location) {
                self.keys.index_of(location)
            } else {
                self.keys.len() as int
            },
        }
    }

    /// The store after `object` was loaded for `location`: a location that
    /// is held keeps its resource; a new one is added with `object`.
    pub open spec fn load(self, location: LocationView, object: V) -> StoreView<V> {
        if self.keys.contains(location) {
            self
        } else {
            StoreView { keys: self.keys.push(location), assets: self.assets.push(object) }
        }
    }

    /// The store after `value` was put in the place of the resource that
    /// `handle` refers to.
    pub open spec fn replace(self, handle: HandleView, value: V) -> StoreView<V> {
        StoreView { keys: self.keys, assets: self.assets.update(handle.index, value) }
    }
}

/// The resources of one kind, each kept under the location it was loaded for.
pub struct AssetStore<T> {
    locations: Vec<AssetLocation>,
    assets: Vec<T>,
}

impl<T: View> View for AssetStore<T> {
    type V = StoreView<T::V>;

    closed spec fn view(&self) -> StoreView<T::V> {
        StoreView {
            keys: self.locations@.map(|i: int, location: AssetLocation| location@),
            assets: self.assets@.map(|i: int, asset: T| asset@),
        }
    }
}

impl<T: View> AssetStore<T> {
    /// A store that holds nothing.
    pub fn new() -> (store: AssetStore<T>)
        ensures
            store@.wf(),
            store@.keys == Seq::<LocationView>::empty(),
            store@.assets == Seq::<T::V>::empty(),
    {
        let store = AssetStore { locations: Vec::new(), assets: Vec::new() };
        assert(store@.keys =~= Seq::<LocationView>::empty());
        assert(store@.assets =~= Seq::<T::V>::empty());
        store
    }

    /// The place of `location` among the keys, if it is held.
    fn position(&self, location: &AssetLocation) -> (found: Option<usize>)
        ensures
            match found {
                Some(slot) => slot < self@.keys.len() && self@.keys[slot as int] == location@,
                None => !self@.keys.contains(location@),
            },
    {
        let mut i: usize = 0;
        while i < self.locations.len()
            invariant
                i <= self.locations.len(),
                forall|j: int| 0 <= j < i ==> self@.keys[j] != location@,
            decreases self.locations.len() - i,
        {
            if self.locations[i].same(location) {
                return Some(i);
            }
            i = i + 1;
        }
        None
    }

    /// Looks `location` up: a handle to the resource kept under it, or
    /// nothing when the location was never loaded.
    pub fn get(&self, location: &AssetLocation) -> (found: Option<AssetHandle<T>>)
        requires
            self@.wf(),
        ensures
            found is Some <==> self@.keys.contains(location@),
            found matches Some(handle) ==> handle@ == self@.handle_for(location@) && self@.holds(
                handle@,
            ),
    {
        match self.position(location) {
            Some(slot) => Some(AssetHandle { location: location.clone(), slot, kind: PhantomData }),
            None => None,
        }
    }

    /// Registers `object` under `location` and hands out a handle to it. A
    /// location that is already held keeps its resource: the handle refers to
    /// that one and `object` is dropped.
    pub fn load(&mut self, location: AssetLocation, object: T) -> (handle: AssetHandle<T>)
        requires
            old(self)@.wf(),
        ensures
            final(self)@ == old(self)@.load(location@, object@),
            handle@ == old(self)@.handle_for(location@),
            final(self)@.wf(),
            final(self)@.holds(handle@),
    {
        match self.position(&location) {
            Some(slot) => AssetHandle { location, slot, kind: PhantomData },
            None => {
                let slot = self.locations.len();
                let copy = location.clone();
                self.locations.push(location);
                self.assets.push(object);
                proof {
                    assert(self@.keys =~= old(self)@.keys.push(copy@));
                    assert(self@.assets =~= old(self)@.assets.push(object@));
                }
                AssetHandle { location: copy, slot, kind: PhantomData }
            },
        }
    }

    /// Borrows the resource that the handle refers to.
    pub fn borrow(&self, handle: &AssetHandle<T>) -> (resource: &T)
        requires
            self@.wf(),
            self@.holds(handle@),
        ensures
            resource@ == self@.resource(handle@),
    {
        &self.assets[handle.slot]
    }

    /// Puts `value` in the place of the resource that the handle refers to.
    /// Every handle to that resource sees the new value.
    pub fn replace(&mut self, handle: &AssetHandle<T>, value: T)
        requires
            old(self)@.wf(),
            old(self)@.holds(handle@),
        ensures
            final(self)@ == old(self)@.replace(handle@, value@),
            final(self)@.wf(),
    {
        self.assets[handle.slot] = value;
        proof {
            assert(self@.assets =~= old(self)@.assets.update(handle@.index, value@));
        }
    }
}

/// Two handles to one location refer to one resource: what is put in its
/// place through the first is what the second finds there.
pub proof fn lemma_same_location_shares_resource<V>(
    store: StoreView<V>,
    first: HandleView,
    second: HandleView,
    value: V,
)
    requires
        store.wf(),
        store.holds(first),
        store.holds(second),
        first.key == second.key,
    ensures
        first.index == second.index,
        store.resource(first) == store.resource(second),
        store.replace(first, value).resource(second) == value,
{
}

/// Handles to different locations refer to different resources: what is put
/// in the place of the first leaves the second as it was.
pub proof fn lemma_distinct_locations_are_independent<V>(
    store: StoreView<V>,
    first: HandleView,
    second: HandleView,
    value: V,
)
    requires
        store.wf(),
        store.holds(first),
        store.holds(second),
        first.key != second.key,
    ensures
        first.index != second.index,
        store.replace(first, value).resource(second) == store.resource(second),
{
}

/// Loading a location a second time hands out a handle to the resource of
/// the first load and changes nothing.
pub proof fn lemma_load_twice<V>(store: StoreView<V>, location: LocationView, first: V, second: V)
    requires
        store.wf(),
    ensures
        store.load(location, first).wf(),
        store.load(location, first).load(location, second) == store.load(location, first),
        store.load(location, first).handle_for(location) == store.handle_for(location),
        store.load(location, first).holds(store.handle_for(location)),
        !store.keys.contains(location) ==> store.load(location, first).resource(
            store.handle_for(location),
        ) == first,
{
    let loaded = store.load(location, first);
    if !store.keys.contains(location) {
        assert(loaded.keys[store.keys.len() as int] == location);
        assert(loaded.keys.contains(location));
        assert forall|i: int, j: int| 0 <= i < loaded.keys.len() && 0 <= j < loaded.keys.len() && i
            != j implies loaded.keys[i] != loaded.keys[j] by {
            if i < store.keys.len() {
                assert(store.keys.contains(store.keys[i]));
            }
            if j < store.keys.len() {
                assert(store.keys.contains(store.keys[j]));
            }
        }
        assert(loaded.keys.index_of(location) == store.keys.len());
    }
}

/// Loading keeps what was loaded before: a handle that the store held still
/// refers to the same resource.
pub proof fn lemma_load_keeps_handles<V>(
    store: StoreView<V>,
    location: LocationView,
    object: V,
    handle: HandleView,
)
    requires
        store.wf(),
        store.holds(handle),
    ensures
        store.load(location, object).holds(handle),
        store.load(location, object).resource(handle) == store.resource(handle),
{
}

/// What the cache holds, as a mathematical value.
pub struct DatabaseView {
    pub meshes: StoreView<<Mesh as View>::V>,
    pub textures: StoreView<<Texture as View>::V>,
    pub materials: StoreView<<Material as View>::V>,
}

impl DatabaseView {
    /// Each of the three stores is well formed.
    pub open spec fn wf(self) -> bool {
        &&& self.meshes.wf()
        &&& self.textures.wf()
        &&& self.materials.wf()
    }
}

/// The cache of all loaded assets, one store for each kind of resource.
pub struct AssetDatabase {
    pub meshes: AssetStore<Mesh>,
    pub textures: AssetStore<Texture>,
    pub materials: AssetStore<Material>,
}

impl View for AssetDatabase {
    type V = DatabaseView;

    open spec fn view(&self) -> DatabaseView {
        DatabaseView {
            meshes: self.meshes@,
            textures: self.textures@,
            materials: self.materials@,
        }
    }
}

impl AssetDatabase {
    /// A cache that holds nothing.
    pub fn new() -> (database: AssetDatabase)
        ensures
            database@.wf(),
            database@.meshes.keys.len() == 0,
            database@.textures.keys.len() == 0,
            database@.materials.keys.len() == 0,
    {
        AssetDatabase {
            meshes: AssetStore::new(),
            textures: AssetStore::new(),
            materials: AssetStore::new(),
        }
    }

    /// The mesh kept under `location`, if there is one.
    pub fn mesh(&self, location: AssetLocation) -> (found: Option<AssetHandle<Mesh>>)
        requires
            self@.wf(),
        ensures
            found is Some <==> self@.meshes.keys.contains(location@),
            found matches Some(handle) ==> handle@ == self@.meshes.handle_for(location@)
                && self@.meshes.holds(handle@),
    {
        self.meshes.get(&location)
    }

    /// Registers a mesh under `location`. A location that is already held
    /// keeps its mesh.
    pub fn load_mesh(&mut self, location: AssetLocation, object: Mesh) -> (handle: AssetHandle<Mesh>)
        requires
            old(self)@.wf(),
        ensures
            final(self)@ == (DatabaseView {
                meshes: old(self)@.meshes.load(location@, object@),
                ..old(self)@
            }),
            handle@ == old(self)@.meshes.handle_for(location@),
            final(self)@.wf(),
            final(self)@.meshes.holds(handle@),
    {
        self.meshes.load(location, object)
    }

    /// The texture kept under `location`, if there is one.
    pub fn texture(&self, location: AssetLocation) -> (found: Option<AssetHandle<Texture>>)
        requires
            self@.wf(),
        ensures
            found is Some <==> self@.textures.keys.contains(location@),
            found matches Some(handle) ==> handle@ == self@.textures.handle_for(location@)
                && self@.textures.holds(handle@),
    {
        self.textures.get(&location)
    }

    /// Registers a texture under `location`. A location that is already
    /// held keeps its texture.
    pub fn load_texture(&mut self, location: AssetLocation, object: Texture) -> (handle:
        AssetHandle<Texture>)
        requires
            old(self)@.wf(),
        ensures
            final(self)@ == (DatabaseView {
                textures: old(self)@.textures.load(location@, object@),
                ..old(self)@
            }),
            handle@ == old(self)@.textures.handle_for(location@),
            final(self)@.wf(),
            final(self)@.textures.holds(handle@),
    {
        self.textures.load(location, object)
    }

    /// The material kept under `location`, if there is one.
    pub fn material(&self, location: AssetLocation) -> (found: Option<AssetHandle<Material>>)
        requires
            self@.wf(),
        ensures
            found is Some <==> self@.materials.keys.contains(location@),
            found matches Some(handle) ==> handle@ == self@.materials.handle_for(location@)
                && self@.materials.holds(handle@),
    {
        self.materials.get(&location)
    }

    /// Registers a material under `location`. A location that is already
    /// held keeps its material.
    pub fn load_material(&mut self, location: AssetLocation, object: Material) -> (handle:
        AssetHandle<Material>)
        requires
            old(self)@.wf(),
        ensures
            final(self)@ == (DatabaseView {
                materials: old(self)@.materials.load(location@, object@),
                ..old(self)@
            }),
            handle@ == old(self)@.materials.handle_for(location@),
            final(self)@.wf(),
            final(self)@.materials.holds(handle@),
    {
        self.materials.load(location, object)
    }
}

} // verus!
