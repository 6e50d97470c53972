use vndf::vec::Vec2;

#[test]
fn it_should_add_two_vectors() {
    let a = Vec2 { x: 1.0, y: 2.0, z: 3.0 };
    let b = Vec2 { x: 3.0, y: 2.0, z: 1.0 };

    assert!(a + b == Vec2 { x: 4.0, y: 4.0, z: 4.0 });
}

#[test]
fn it_should_subtract_a_vector_from_another() {
    let a = Vec2 { x: 2.0, y: 4.0, z: 6.0 };
    let b = Vec2 { x: 1.0, y: 2.0, z: 3.0 };

    assert!(a - b == Vec2 { x: 1.0, y: 2.0, z: 3.0 });
}

#[test]
fn it_should_scale_a_vector() {
    let v = Vec2 { x: 1.0, y: 2.0, z: 3.0 };
    let s = 2.0;

    assert!(v * s == Vec2 { x: 2.0, y: 4.0, z: 6.0 });
}

#[test]
fn integer_vectors_share_the_operators() {
    let a = Vec2 { x: 1i64, y: 2, z: 3 };
    let b = Vec2 { x: 3i64, y: 2, z: 1 };

    assert!(a + b == Vec2 { x: 4, y: 4, z: 4 });
    assert!(b - a == Vec2 { x: 2, y: 0, z: -2 });
    assert!(a * 3 == Vec2 { x: 3, y: 6, z: 9 });
}
