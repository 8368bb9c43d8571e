//! The size and the labels of an off-screen render target. The textures
//! themselves are kept by whoever talks to the graphics device.

use vstd::prelude::*;
use vstd::string::StringExecFns;

verus! {

/// An off-screen render target of a given size.
pub struct Framebuffer {
    width: u32,
    height: u32,
    name: String,
}

/// A [`Framebuffer`] as a mathematical value.
pub struct FramebufferView {
    pub width: u32,
    pub height: u32,
    pub name: Seq<char>,
}

impl View for Framebuffer {
    type V = FramebufferView;

    closed spec fn view(&self) -> FramebufferView {
        FramebufferView { width: self.width, height: self.height, name: self.name@ }
    }
}

/// Whether a target of the size `current` has to be built anew for the size
/// `wanted`: the size differs, and the new one is not empty.
pub open spec fn needs_rebuild(current: (u32, u32), wanted: (u32, u32)) -> bool {
    (current.0 != wanted.0 || current.1 != wanted.1) && wanted.0 > 0 && wanted.1 > 0
}

impl Framebuffer {
    /// A render target named `name` of the given size.
    pub fn create(width: u32, height: u32, name: &str) -> (framebuffer: Framebuffer)
        ensures
            framebuffer@ == (FramebufferView { width, height, name: name@ }),
    {
        Framebuffer { width, height, name: String::from_str(name) }
    }

    pub fn width(&self) -> (width: u32)
        ensures
            width == self@.width,
    {
        self.width
    }

    pub fn height(&self) -> (height: u32)
        ensures
            height == self@.height,
    {
        self.height
    }

    /// The label of the colour texture.
    pub fn diffuse_label(&self) -> (label: String)
        ensures
            label@ == "Framebuffer diffuse: "@ + self@.name,
    {
        let mut label = "Framebuffer diffuse: ".to_owned();
        label.append(self.name.as_str());
        label
    }

    /// The label of the depth texture.
    pub fn depth_label(&self) -> (label: String)
        ensures
            label@ == "Framebuffer depth: "@ + self@.name,
    {
        let mut label = "Framebuffer depth: ".to_owned();
        label.append(self.name.as_str());
        label
    }

    /// Takes the new size if it differs from the present one and is not
    /// empty, and says whether it did: the textures are then to be built
    /// anew.
    pub fn resize(&mut self, width: u32, height: u32) -> (changed: bool)
        ensures
            changed == needs_rebuild((old(self)@.width, old(self)@.height), (width, height)),
            changed ==> final(self)@ == (FramebufferView { width, height, ..old(self)@ }),
            !changed ==> final(self)@ == old(self)@,
    {
        if (self.width != width || self.height != height) && (width > 0 && height > 0) {
            self.width = width;
            self.height = height;
            true
        } else {
            false
        }
    }
}

} // verus!
