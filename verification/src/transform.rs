//! Local transforms of scene objects and the stack that a traversal keeps of
//! them. Coordinates are carried as the bit patterns of IEEE-754
//! single-precision numbers; no arithmetic is done on them here.

use vstd::prelude::*;

verus! {

/// The bit pattern of the single-precision number 0.
pub const ZERO_BITS: u32 = 0;

/// The bit pattern of the single-precision number 1.
pub const ONE_BITS: u32 = 0x3f80_0000;

/// Three coordinates, each the bit pattern of a single-precision number.
#[derive(Clone, Copy, Debug, PartialEq, Eq, Structural)]
pub struct Vector3 {
    pub x: u32,
    pub y: u32,
    pub z: u32,
}

/// Position, rotation (Euler angles in degrees) and scale of an object,
/// relative to its parent.
#[derive(Clone, Copy, Debug, PartialEq, Eq, Structural)]
pub struct Transform {
    pub position: Vector3,
    pub rotation: Vector3,
    pub scale: Vector3,
}

impl Transform {
    /// The transform that changes nothing: no offset, no rotation, scale one.
    pub open spec fn identity() -> Transform {
        Transform {
            position: Vector3 { x: ZERO_BITS, y: ZERO_BITS, z: ZERO_BITS },
            rotation: Vector3 { x: ZERO_BITS, y: ZERO_BITS, z: ZERO_BITS },
            scale: Vector3 { x: ONE_BITS, y: ONE_BITS, z: ONE_BITS },
        }
    }

    /// The identity transform.
    pub fn new() -> (transform: Transform)
        ensures
            transform == Transform::identity(),
    {
        Transform {
            position: Vector3 { x: ZERO_BITS, y: ZERO_BITS, z: ZERO_BITS },
            rotation: Vector3 { x: ZERO_BITS, y: ZERO_BITS, z: ZERO_BITS },
            scale: Vector3 { x: ONE_BITS, y: ONE_BITS, z: ONE_BITS },
        }
    }
}

impl Default for Transform {
    fn default() -> (transform: Transform)
        ensures
            transform == Transform::identity(),
    {
        Transform::new()
    }
}

/// The local transforms from the start of a traversal down to the object
/// being visited, outermost first.
pub struct TransformStack {
    stack: Vec<Transform>,
}

impl View for TransformStack {
    type V = Seq<Transform>;

    closed spec fn view(&self) -> Seq<Transform> {
        self.stack@
    }
}

impl TransformStack {
    /// An empty stack.
    pub fn new() -> (stack: TransformStack)
        ensures
            stack@ == Seq::<Transform>::empty(),
    {
        TransformStack { stack: Vec::new() }
    }

    /// Puts `transform` on top of the stack.
    pub fn push(&mut self, transform: Transform)
        ensures
            final(self)@ == old(self)@.push(transform),
    {
        self.stack.push(transform);
    }

    /// Takes the top of the stack off, if there is one.
    pub fn pop(&mut self) -> (top: Option<Transform>)
        ensures
            old(self)@.len() == 0 ==> top is None && final(self)@ == old(self)@,
            old(self)@.len() > 0 ==> top == Some(old(self)@.last()) && final(self)@ == old(
                self,
            )@.drop_last(),
    {
        self.stack.pop()
    }

    /// The number of transforms on the stack.
    pub fn depth(&self) -> (depth: usize)
        ensures
            depth == self@.len(),
    {
        self.stack.len()
    }

    /// The factors of the accumulated transform, outermost first: the world
    /// matrix of the object on top is the product of their matrices, taken
    /// from left to right.
    pub fn eval(&self) -> (factors: Vec<Transform>)
        ensures
            factors@ == self@,
    {
        self.stack.clone()
    }
}

/// A push followed by a pop gives the pushed transform back and leaves the
/// stack as it was.
pub proof fn lemma_push_then_pop(stack: Seq<Transform>, transform: Transform)
    ensures
        stack.push(transform).last() == transform,
        stack.push(transform).drop_last() == stack,
{
    assert(stack.push(transform).drop_last() =~= stack);
}

} // verus!
