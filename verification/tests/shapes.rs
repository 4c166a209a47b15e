use raytracer::bvh::BoundingBox;
use raytracer::color::Color;
use raytracer::intersect::{Hit, Intersect, Shape, Sphere, Triangle};
use raytracer::math::{tmax, tmin, Ray, Scalar, Vector};
use raytracer::scene::Material;

fn s(x: f64) -> Scalar {
    Scalar { raw: (x * 1e6).round() as i64 }
}

fn v(x: f64, y: f64, z: f64) -> Vector {
    Vector { x: s(x), y: s(y), z: s(z) }
}

fn ray(pos: Vector, dir: Vector) -> Ray {
    Ray { pos, dir }
}

fn unit_sphere() -> Sphere {
    Sphere { pos: v(0.0, 0.0, 0.0), r: s(1.0), mat: Material::new() }
}

fn corner_triangle() -> Triangle {
    Triangle { v1: v(0.0, 0.0, 0.0), v2: v(1.0, 0.0, 0.0), v3: v(0.0, 1.0, 0.0), mat: Material::new() }
}

fn down(x: f64, y: f64) -> Ray {
    ray(v(x, y, 1.0), v(0.0, 0.0, -1.0))
}

#[test]
fn bounds_of_the_parameter() {
    assert_eq!(tmin().raw, 1);
    assert_eq!(tmax().raw, 100_000_000_000);
}

#[test]
fn new_hit_reports_nothing() {
    let h = Hit::new();
    assert!(!h.hit);
    assert_eq!(h.shape, None);
    assert_eq!(h.t, tmax());
    assert_eq!(h.ray, Ray::new());
}

#[test]
fn hit_names_its_shape_only_when_it_is_one() {
    let mut h = Hit::new();
    assert_eq!(h.at(3).shape, None);
    h.hit = true;
    assert_eq!(h.at(3).shape, Some(3));
}

#[test]
fn fallback_material() {
    let m = Material::new();
    assert_eq!(m.amb, Color::new(s(1.0), s(0.0), s(0.0)));
    assert_eq!(m.dif, Color::new(s(1.0), s(0.0), s(0.0)));
    assert_eq!(m.spec, Color::new(s(1.0), s(1.0), s(1.0)));
    assert_eq!(m.ns, s(16.0));
    assert_eq!(m.trs, Color::new(s(1.0), s(1.0), s(1.0)));
    assert_eq!(m.ior, s(1.0));
}

#[test]
fn sphere_intersection_is_exact() {
    let sphere = unit_sphere();
    let r = ray(v(0.0, 0.0, 5.0), v(0.0, 0.0, -1.0));
    let h = sphere.get_ray_intersection(r);
    assert!(h.hit);
    assert_eq!(h.t, s(4.0));
    assert_eq!(h.ray, r);
    assert_eq!(h.shape, None);
    let point = r.find_point(h.t);
    assert_eq!(point, v(0.0, 0.0, 1.0));
    assert_eq!(sphere.surface_normal(point, v(0.0, 0.0, 1.0)), v(0.0, 0.0, 1.0));
}

#[test]
fn sphere_missed_beside() {
    let h = unit_sphere().get_ray_intersection(ray(v(0.0, 2.0, 5.0), v(0.0, 0.0, -1.0)));
    assert!(!h.hit);
    assert_eq!(h.t, tmax());
}

#[test]
fn sphere_behind_the_ray_is_missed() {
    let h = unit_sphere().get_ray_intersection(ray(v(0.0, 0.0, 5.0), v(0.0, 0.0, 1.0)));
    assert!(!h.hit);
}

#[test]
fn sphere_from_inside_gives_the_far_root() {
    let h = unit_sphere().get_ray_intersection(ray(v(0.0, 0.0, 0.0), v(0.0, 0.0, 1.0)));
    assert!(h.hit);
    assert_eq!(h.t, s(1.0));
}

#[test]
fn sphere_from_its_surface_outward_is_missed() {
    let h = unit_sphere().get_ray_intersection(ray(v(0.0, 0.0, 1.0), v(0.0, 0.0, 1.0)));
    assert!(!h.hit);
}

#[test]
fn sphere_with_a_direction_that_is_not_unit() {
    let r = ray(v(0.0, 0.0, 5.0), v(0.0, 0.0, -2.0));
    let h = unit_sphere().get_ray_intersection(r);
    assert!(h.hit);
    assert_eq!(h.t, s(2.0));
    assert_eq!(r.find_point(h.t), v(0.0, 0.0, 1.0));
}

#[test]
fn sphere_without_radius_is_never_met() {
    let point = Sphere { pos: v(0.0, 0.0, 0.0), r: s(0.0), mat: Material::new() };
    assert!(!point.get_ray_intersection(ray(v(0.0, 0.0, 5.0), v(0.0, 0.0, -1.0))).hit);
}

#[test]
fn ray_without_direction_meets_nothing() {
    assert!(!unit_sphere().get_ray_intersection(ray(v(0.0, 0.0, 0.0), v(0.0, 0.0, 0.0))).hit);
    assert!(!corner_triangle().get_ray_intersection(ray(v(0.2, 0.2, 0.0), v(0.0, 0.0, 0.0))).hit);
}

#[test]
fn sphere_beyond_the_upper_bound_is_missed() {
    let far = Sphere { pos: v(0.0, 0.0, -200_000.0), r: s(1.0), mat: Material::new() };
    assert!(!far.get_ray_intersection(ray(v(0.0, 0.0, 0.0), v(0.0, 0.0, -1.0))).hit);
    let near = Sphere { pos: v(0.0, 0.0, -50_000.0), r: s(1.0), mat: Material::new() };
    let h = near.get_ray_intersection(ray(v(0.0, 0.0, 0.0), v(0.0, 0.0, -1.0)));
    assert!(h.hit);
    assert_eq!(h.t, s(49_999.0));
}

#[test]
fn sphere_with_a_negative_radius_is_never_met() {
    let inside_out = Sphere { pos: v(0.0, 0.0, 0.0), r: s(-1.0), mat: Material::new() };
    assert!(!inside_out.get_ray_intersection(ray(v(0.0, 0.0, 5.0), v(0.0, 0.0, -1.0))).hit);
}

#[test]
fn sphere_parameter_solves_the_quadratic() {
    // a slanted ray: the parameter reported is a root within a few millionths
    let sphere = Sphere { pos: v(0.3, -0.2, 0.1), r: s(1.25), mat: Material::new() };
    let r = ray(v(0.0, 0.0, 5.0), v(0.1, 0.05, -1.0).normalized());
    let h = sphere.get_ray_intersection(r);
    assert!(h.hit);
    let p = r.find_point(h.t).sub(sphere.pos);
    let gap = p.dot(&p).sub(sphere.r.mul(sphere.r));
    assert!(gap.raw.abs() < 50);
}

#[test]
fn sphere_answers() {
    let sphere = Sphere { pos: v(1.0, 2.0, 3.0), r: s(0.5), mat: Material::new() };
    assert_eq!(sphere.center(), v(1.0, 2.0, 3.0));
    assert_eq!(sphere.get_material(), Material::new());
    assert_eq!(
        sphere.get_extents(),
        BoundingBox {
            x_min: s(0.5),
            x_max: s(1.5),
            y_min: s(1.5),
            y_max: s(2.5),
            z_min: s(2.5),
            z_max: s(3.5),
        }
    );
    assert_eq!(sphere.surface_normal(v(1.0, 2.5, 3.0), v(0.0, 1.0, 0.0)), v(0.0, 1.0, 0.0));
}

#[test]
fn triangle_met_inside() {
    let r = down(0.25, 0.25);
    let h = corner_triangle().get_ray_intersection(r);
    assert!(h.hit);
    assert_eq!(h.t, s(1.0));
    assert_eq!(h.ray, r);
}

#[test]
fn triangle_borders_are_part_of_it() {
    let t = corner_triangle();
    // on the side from v1 to v2, on the side from v1 to v3, on the long side
    assert!(t.get_ray_intersection(down(0.5, 0.0)).hit);
    assert!(t.get_ray_intersection(down(0.0, 0.5)).hit);
    assert!(t.get_ray_intersection(down(0.5, 0.5)).hit);
    // at the three corners
    assert!(t.get_ray_intersection(down(0.0, 0.0)).hit);
    assert!(t.get_ray_intersection(down(1.0, 0.0)).hit);
    assert!(t.get_ray_intersection(down(0.0, 1.0)).hit);
}

#[test]
fn triangle_missed_just_outside() {
    let t = corner_triangle();
    assert!(!t.get_ray_intersection(down(0.5, -0.000001)).hit);
    assert!(!t.get_ray_intersection(down(-0.000001, 0.5)).hit);
    assert!(!t.get_ray_intersection(down(0.5, 0.500001)).hit);
    assert!(!t.get_ray_intersection(down(0.6, 0.6)).hit);
    assert!(!t.get_ray_intersection(down(1.000001, 0.0)).hit);
}

#[test]
fn triangle_in_the_plane_of_the_ray_is_missed() {
    let h = corner_triangle().get_ray_intersection(ray(v(-1.0, 0.2, 0.0), v(1.0, 0.0, 0.0)));
    assert!(!h.hit);
}

#[test]
fn triangle_behind_the_ray_is_missed() {
    let h = corner_triangle().get_ray_intersection(ray(v(0.25, 0.25, 1.0), v(0.0, 0.0, 1.0)));
    assert!(!h.hit);
}

#[test]
fn triangle_without_area_is_never_met() {
    let m = Material::new();
    let a = Triangle { v1: v(0.0, 0.0, 0.0), v2: v(1.0, 0.0, 0.0), v3: v(1.0, 0.0, 0.0), mat: m };
    let b = Triangle { v1: v(0.0, 0.0, 0.0), v2: v(0.0, 0.0, 0.0), v3: v(0.0, 1.0, 0.0), mat: m };
    let c = Triangle { v1: v(0.0, 1.0, 0.0), v2: v(1.0, 0.0, 0.0), v3: v(0.0, 1.0, 0.0), mat: m };
    let d = Triangle { v1: v(0.0, 0.0, 0.0), v2: v(1.0, 1.0, 0.0), v3: v(2.0, 2.0, 0.0), mat: m };
    for t in [a, b, c, d] {
        assert!(!t.get_ray_intersection(down(0.0, 0.0)).hit);
        assert!(!t.get_ray_intersection(down(0.5, 0.5)).hit);
        assert!(!t.get_ray_intersection(down(1.0, 0.0)).hit);
    }
}

#[test]
fn triangle_normal_faces_the_viewer() {
    let t = corner_triangle();
    assert_eq!(t.surface_normal(v(0.2, 0.2, 0.0), v(0.0, 0.0, 1.0)), v(0.0, 0.0, 1.0));
    assert_eq!(t.surface_normal(v(0.2, 0.2, 0.0), v(0.0, 0.0, -1.0)), v(0.0, 0.0, -1.0));
    assert_eq!(t.surface_normal(v(0.2, 0.2, 0.0), v(0.3, 0.1, 0.5)), v(0.0, 0.0, 1.0));
}

#[test]
fn small_triangle_keeps_its_normal() {
    let t = Triangle {
        v1: v(0.0, 0.0, 0.0),
        v2: v(0.0005, 0.0, 0.0),
        v3: v(0.0, 0.0005, 0.0),
        mat: Material::new(),
    };
    assert_eq!(t.surface_normal(v(0.0001, 0.0001, 0.0), v(0.0, 0.0, 1.0)), v(0.0, 0.0, 1.0));
    assert_eq!(t.surface_normal(v(0.0001, 0.0001, 0.0), v(0.0, 0.0, -1.0)), v(0.0, 0.0, -1.0));
    let tiny = Triangle {
        v1: v(1.0, 1.0, 1.0),
        v2: v(1.000001, 1.0, 1.0),
        v3: v(1.0, 1.0, 1.000001),
        mat: Material::new(),
    };
    assert_eq!(tiny.surface_normal(v(1.0, 1.0, 1.0), v(0.0, -1.0, 0.0)), v(0.0, -1.0, 0.0));
}

#[test]
fn slanted_triangle_normal_is_unit_and_across_its_sides() {
    let t = Triangle {
        v1: v(1.0, 2.0, 3.0),
        v2: v(4.0, 2.5, 1.0),
        v3: v(0.5, 6.0, 2.0),
        mat: Material::new(),
    };
    let view = v(0.0, 0.0, 1.0);
    let n = t.surface_normal(v(1.0, 2.0, 3.0), view);
    let len2 = n.x.raw * n.x.raw + n.y.raw * n.y.raw + n.z.raw * n.z.raw;
    assert!(len2 > 1_000_000_000_000 - 6_000_003 && len2 <= 1_000_000_000_002);
    assert!(n.dot(&view).raw > 0);
    assert!(n.dot(&t.v2.sub(t.v1)).raw.abs() < 10);
    assert!(n.dot(&t.v3.sub(t.v1)).raw.abs() < 10);
    assert_eq!(t.surface_normal(v(1.0, 2.0, 3.0), view.neg()), n.neg());
}

#[test]
fn triangle_on_one_line_has_no_normal() {
    let t = Triangle {
        v1: v(0.0, 0.0, 0.0),
        v2: v(1.0, 1.0, 0.0),
        v3: v(2.0, 2.0, 0.0),
        mat: Material::new(),
    };
    assert_eq!(t.surface_normal(v(0.0, 0.0, 0.0), v(0.0, 0.0, 1.0)), Vector::new());
}

#[test]
fn triangle_answers() {
    let t = Triangle {
        v1: v(0.0, 0.0, 0.0),
        v2: v(3.0, 0.0, -1.0),
        v3: v(0.0, 3.0, 2.0),
        mat: Material::new(),
    };
    assert_eq!(t.center(), Vector { x: s(1.0), y: s(1.0), z: Scalar { raw: 333_333 } });
    assert_eq!(t.get_material(), Material::new());
    assert_eq!(
        t.get_extents(),
        BoundingBox {
            x_min: s(0.0),
            x_max: s(3.0),
            y_min: s(0.0),
            y_max: s(3.0),
            z_min: s(-1.0),
            z_max: s(2.0),
        }
    );
}

#[test]
fn shape_answers_as_its_variant() {
    let sphere = unit_sphere();
    let shape = Shape::Sphere(sphere);
    let r = ray(v(0.0, 0.0, 5.0), v(0.0, 0.0, -1.0));
    assert_eq!(shape.get_ray_intersection(r), sphere.get_ray_intersection(r));
    assert_eq!(shape.center(), sphere.center());
    assert_eq!(shape.get_extents(), sphere.get_extents());
    assert_eq!(shape.get_material(), sphere.get_material());
    let t = corner_triangle();
    let shape = Shape::Triangle(t);
    assert_eq!(shape.get_ray_intersection(down(0.2, 0.2)), t.get_ray_intersection(down(0.2, 0.2)));
    assert_eq!(shape.center(), t.center());
    assert_eq!(shape.get_extents(), t.get_extents());
    assert_eq!(
        shape.surface_normal(v(0.2, 0.2, 0.0), v(0.0, 0.0, 1.0)),
        t.surface_normal(v(0.2, 0.2, 0.0), v(0.0, 0.0, 1.0))
    );
}
