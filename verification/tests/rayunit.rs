use pathtracer::rayunit::{InterStruct, Refl, Roots, Scene, Sphere};
use pathtracer::scalar::{key, EPS, INF};
use pathtracer::vec3::Vec3;

fn kk(x: f64) -> i64 {
    key(x.to_bits())
}

fn roots(det: f64, near: f64, far: f64) -> Roots {
    Roots { det: kk(det), near: kk(near), far: kk(far) }
}

fn scene_of(n: usize) -> Scene {
    let mut scene = Scene::init();
    for i in 0..n {
        let c = Vec3::new(kk(0.25 * i as f64), kk(0.5), kk(0.125));
        scene.add(Sphere::new(kk(1.0 + i as f64), Vec3::zero(), Vec3::zero(), c, Refl::Diff));
    }
    scene
}

#[test]
fn sphere_keeps_its_fields() {
    let s = Sphere::new(kk(16.5), Vec3::new(1, 2, 3), Vec3::new(4, 5, 6), Vec3::new(7, 8, 9), Refl::Spec);
    assert_eq!(s.rad, kk(16.5));
    assert_eq!(s.p, Vec3::new(1, 2, 3));
    assert_eq!(s.e, Vec3::new(4, 5, 6));
    assert_eq!(s.c, Vec3::new(7, 8, 9));
    assert_eq!(s.refl, Refl::Spec);
}

#[test]
fn scene_keeps_the_order_of_its_spheres() {
    let scene = scene_of(4);
    assert_eq!(scene.objects.len(), 4);
    for i in 0..4 {
        assert_eq!(scene.objects[i].rad, kk(1.0 + i as f64));
    }
    assert_eq!(Scene::init().objects.len(), 0);
    assert_eq!(Scene::init().model_name, "");
}

#[test]
fn no_hit_below_zero_discriminant() {
    assert_eq!(Sphere::intersect(&roots(-1e-12, 5.0, 6.0)), None);
    assert_eq!(Sphere::intersect(&roots(-3.0, f64::NAN, f64::NAN)), None);
}

#[test]
fn tangent_ray_hits_once() {
    assert_eq!(Sphere::intersect(&roots(0.0, 5.0, 5.0)), Some(kk(5.0)));
    // a discriminant of negative zero is not below zero
    assert_eq!(Sphere::intersect(&roots(-0.0, 5.0, 5.0)), Some(kk(5.0)));
}

#[test]
fn near_root_wins_when_beyond_eps() {
    assert_eq!(Sphere::intersect(&roots(4.0, 3.0, 7.0)), Some(kk(3.0)));
    assert_eq!(Sphere::intersect(&roots(4.0, 2e-6, 7.0)), Some(kk(2e-6)));
}

#[test]
fn far_root_wins_from_inside() {
    assert_eq!(Sphere::intersect(&roots(4.0, -3.0, 1.0)), Some(kk(1.0)));
    assert_eq!(Sphere::intersect(&roots(4.0, 0.0, 4.0)), Some(kk(4.0)));
    // the ray starts on the surface: the near root is its own origin
    assert_eq!(Sphere::intersect(&roots(4.0, 1e-9, 4.0)), Some(kk(4.0)));
}

#[test]
fn both_roots_behind_give_no_hit() {
    assert_eq!(Sphere::intersect(&roots(4.0, -7.0, -3.0)), None);
    assert_eq!(Sphere::intersect(&roots(4.0, -7.0, 0.5e-6)), None);
}

#[test]
fn roots_at_eps_exactly() {
    // near root at EPS is not beyond it: the far root is taken
    assert_eq!(Sphere::intersect(&roots(4.0, 1e-6, 2.0)), Some(kk(2.0)));
    // far root at EPS is not below it: it is the hit
    assert_eq!(Sphere::intersect(&roots(4.0, -1.0, 1e-6)), Some(EPS));
}

#[test]
fn scan_of_no_hit() {
    let scene = scene_of(3);
    let miss = roots(-1.0, 0.0, 0.0);
    assert_eq!(scene.intersect(&vec![miss, miss, miss]), InterStruct { b: false, t: INF, id: 0 });
    assert_eq!(Scene::init().intersect(&vec![]), InterStruct { b: false, t: INF, id: 0 });
}

#[test]
fn scan_finds_the_least_distance() {
    let scene = scene_of(4);
    let r = vec![roots(1.0, 9.0, 10.0), roots(-1.0, 0.0, 0.0), roots(1.0, 4.0, 5.0), roots(1.0, 6.0, 7.0)];
    assert_eq!(scene.intersect(&r), InterStruct { b: true, t: kk(4.0), id: 2 });
}

#[test]
fn scan_takes_the_highest_index_among_equals() {
    let scene = scene_of(4);
    let r = vec![roots(1.0, 4.0, 5.0), roots(1.0, 4.0, 8.0), roots(1.0, 6.0, 7.0), roots(1.0, 4.0, 4.5)];
    assert_eq!(scene.intersect(&r), InterStruct { b: true, t: kk(4.0), id: 3 });
}

#[test]
fn scan_leaves_out_what_is_at_inf_or_beyond() {
    let scene = scene_of(2);
    let r = vec![roots(1.0, 1e20, 2e20), roots(1.0, 3e20, 4e20)];
    assert_eq!(scene.intersect(&r), InterStruct { b: false, t: INF, id: 0 });
    let r = vec![roots(1.0, 1e20, 2e20), roots(1.0, 9.9e19, 4e20)];
    assert_eq!(scene.intersect(&r), InterStruct { b: true, t: kk(9.9e19), id: 1 });
}
