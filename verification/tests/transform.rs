use scene_core::transform::{Transform, TransformStack, Vector3, ONE_BITS, ZERO_BITS};

fn placed_at(x: f32, y: f32, z: f32) -> Transform {
    let mut transform = Transform::new();
    transform.position = Vector3 { x: x.to_bits(), y: y.to_bits(), z: z.to_bits() };
    transform
}

#[test]
fn default_transform_is_the_identity() {
    let transform = Transform::default();
    assert_eq!(transform, Transform::new());
    assert_eq!(f32::from_bits(transform.position.x), 0.0);
    assert_eq!(f32::from_bits(transform.rotation.y), 0.0);
    assert_eq!(f32::from_bits(transform.scale.x), 1.0);
    assert_eq!(f32::from_bits(transform.scale.y), 1.0);
    assert_eq!(f32::from_bits(transform.scale.z), 1.0);
    assert_eq!(ONE_BITS, 1.0f32.to_bits());
    assert_eq!(ZERO_BITS, 0.0f32.to_bits());
}

#[test]
fn stack_gives_back_what_was_pushed_last() {
    let mut stack = TransformStack::new();
    assert_eq!(stack.pop(), None);
    let a = placed_at(1.0, 0.0, 0.0);
    let b = placed_at(0.0, 1.0, 0.0);
    stack.push(a);
    stack.push(b);
    assert_eq!(stack.depth(), 2);
    assert_eq!(stack.eval(), vec![a, b]);
    assert_eq!(stack.pop(), Some(b));
    assert_eq!(stack.eval(), vec![a]);
    assert_eq!(stack.pop(), Some(a));
    assert_eq!(stack.pop(), None);
    assert_eq!(stack.depth(), 0);
}
