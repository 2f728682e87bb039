use glam::Vec3;

#[test]
fn test_coordinate_system_sanity() {
    assert!((Vec3::Y.y - 1.0).abs() < f32::EPSILON);
    let x = Vec3::X;
    let y = Vec3::Y;
    let z = x.cross(y);
    assert!((z.z - 1.0).abs() < f32::EPSILON);
}
