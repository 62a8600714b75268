use aubrey::vector::BaseVector;
use aubrey::{Vector2i, Vector3i, Vector4i};

#[test]
fn constructors_and_accessors() {
    let a = Vector2i::new(1, 2);
    assert_eq!((a.x(), a.y()), (1, 2));
    let b = Vector3i::new(1, 2, 3);
    assert_eq!((b.x(), b.y(), b.z()), (1, 2, 3));
    let c = Vector4i::new(1, 2, 3, 4);
    assert_eq!((c.x(), c.y(), c.z(), c.w()), (1, 2, 3, 4));
    assert_eq!(Vector3i::from_array([7, 8, 9]), Vector3i::new(7, 8, 9));
    assert_eq!(Vector3i::splat(5).to_array(), [5, 5, 5]);
    assert_eq!(c.as_array(), &[1, 2, 3, 4]);
    assert_eq!(c.get(2), 3);
    assert_eq!(c[3], 4);
    assert_eq!(Vector2i::from([4, 5]), Vector2i::new(4, 5));
}

#[test]
fn setters_replace_one_component() {
    let mut a = Vector2i::new(1, 2);
    a.set_x(9);
    a.set_y(8);
    assert_eq!(a.to_array(), [9, 8]);
    let mut b = Vector3i::new(1, 2, 3);
    b.set_x(7);
    b.set_y(8);
    b.set_z(9);
    assert_eq!(b.to_array(), [7, 8, 9]);
    let mut c = Vector4i::new(1, 2, 3, 4);
    c.set_x(5);
    c.set_y(6);
    c.set_z(7);
    c.set_w(8);
    c.set(0, 50);
    assert_eq!(c.to_array(), [50, 6, 7, 8]);
}

#[test]
fn arithmetic_is_componentwise() {
    let a = Vector3i::new(1, -2, 3);
    let b = Vector3i::new(10, 20, 30);
    assert_eq!(a + b, Vector3i::new(11, 18, 33));
    assert_eq!(b - a, Vector3i::new(9, 22, 27));
    assert_eq!(-a, Vector3i::new(-1, 2, -3));
    assert_eq!(a * 4, Vector3i::new(4, -8, 12));
    assert_eq!(b / 5, Vector3i::new(2, 4, 6));
}

#[test]
fn dot_and_length_squared() {
    let a = Vector3i::new(1, -2, 3);
    let b = Vector3i::new(4, 5, -6);
    assert_eq!(a.dot(&b), 4 - 10 - 18);
    assert_eq!(a.length_squared(), 14);
    assert_eq!(Vector2i::new(3, 4).length_squared(), 25);
    assert_eq!(Vector4i::splat(0).length_squared(), 0);
    let u = BaseVector::<u64, 2, true>::new(2, 3);
    assert_eq!(u.dot(&u), 13);
}
