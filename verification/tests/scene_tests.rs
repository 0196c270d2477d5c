use std::rc::Rc;
use tinyrender::geometry3::Vec3;
use tinyrender::scene::Scene;

#[test]
fn register_then_get_texture() {
    let mut s: Scene<u8, Rc<Vec<i32>>, String, i32> =
        Scene::new(8, 6, Rc::new(vec![0; 48]), Vec3 { dx: 0, dy: 0, dz: 0 });
    assert_eq!(s.get_texture(2), None);
    let a = s.register_resourse("first".to_string());
    let b = s.register_resourse("second".to_string());
    assert_eq!(a, 2);
    assert_eq!(b, 3);
    assert_eq!(s.get_texture(2).as_deref(), Some("first"));
    assert_eq!(s.get_texture(3).as_deref(), Some("second"));
    assert_eq!(s.get_texture(1), None);
    assert_eq!(s.get_texture(0), None);
}

#[test]
fn objects_in_order() {
    let mut s: Scene<u8, Rc<Vec<i32>>, String, i32> =
        Scene::new(1, 1, Rc::new(Vec::new()), Vec3 { dx: 0, dy: 0, dz: 0 });
    s.add_object(4);
    s.add_object(5);
    assert_eq!(s.get_objects().clone(), vec![4, 5]);
    s.get_objects()[0] = 9;
    assert_eq!(s.get_objects().as_slice(), &[9, 5]);
}

#[test]
fn zbuffer_is_shared() {
    let s: Scene<u8, Rc<Vec<i32>>, String, i32> =
        Scene::new(2, 1, Rc::new(vec![1, 2]), Vec3 { dx: 0, dy: 0, dz: 0 });
    let z1 = s.get_zbuffer();
    let z2 = s.get_zbuffer();
    assert!(Rc::ptr_eq(&z1, &z2));
    assert_eq!(*z1, vec![1, 2]);
}
