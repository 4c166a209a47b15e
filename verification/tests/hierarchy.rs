use raytracer::bvh::{linear_scan, Axis, BVHNode, BoundingBox, Child};
use raytracer::intersect::{Hit, Intersect, Shape, Sphere, Triangle};
use raytracer::math::{tmax, Ray, Scalar, Vector};
use raytracer::scene::Material;

fn s(x: f64) -> Scalar {
    Scalar { raw: (x * 1e6).round() as i64 }
}

fn v(x: f64, y: f64, z: f64) -> Vector {
    Vector { x: s(x), y: s(y), z: s(z) }
}

fn ray(pos: Vector, dir: Vector) -> Ray {
    Ray { pos, dir }
}

fn cube() -> BoundingBox {
    BoundingBox {
        x_min: s(-1.0),
        x_max: s(1.0),
        y_min: s(-1.0),
        y_max: s(1.0),
        z_min: s(-1.0),
        z_max: s(1.0),
    }
}

fn ball(x: f64, y: f64, z: f64, r: f64) -> Shape {
    Shape::Sphere(Sphere { pos: v(x, y, z), r: s(r), mat: Material::new() })
}

fn row_of_balls() -> Vec<Shape> {
    vec![ball(0.0, 0.0, 0.0, 1.0), ball(10.0, 0.0, 0.0, 1.0), ball(20.0, 0.0, 0.0, 1.0), ball(30.0, 0.0, 0.0, 1.0)]
}

fn within(inner: &BoundingBox, outer: &BoundingBox) -> bool {
    outer.x_min.raw <= inner.x_min.raw
        && inner.x_max.raw <= outer.x_max.raw
        && outer.y_min.raw <= inner.y_min.raw
        && inner.y_max.raw <= outer.y_max.raw
        && outer.z_min.raw <= inner.z_min.raw
        && inner.z_max.raw <= outer.z_max.raw
}

fn leaves(node: &BVHNode, out: &mut Vec<usize>) {
    for child in [&node.left, &node.right] {
        match child {
            None => {}
            Some(Child::Shape(i)) => out.push(*i),
            Some(Child::Node(n)) => leaves(n, out),
        }
    }
}

fn assert_boxes(node: &BVHNode, shapes: &Vec<Shape>) {
    let mut below = Vec::new();
    leaves(node, &mut below);
    for i in below {
        assert!(within(&shapes[i].get_extents(), &node.bbox));
    }
    let mut union = BoundingBox::empty();
    for child in [&node.left, &node.right] {
        match child {
            None => {}
            Some(Child::Shape(i)) => union = BoundingBox::combine(union, shapes[*i].get_extents()),
            Some(Child::Node(n)) => {
                union = BoundingBox::combine(union, n.bbox);
                assert_boxes(n, shapes);
            }
        }
    }
    assert_eq!(node.bbox, union);
}

fn mixed_scene() -> Vec<Shape> {
    let m = Material::new();
    let mut shapes = Vec::new();
    for i in 0..5 {
        for j in 0..4 {
            let x = i as f64 * 2.5 - 5.0;
            let y = j as f64 * 2.0 - 3.0;
            let z = ((i * 7 + j * 3) % 5) as f64 - 10.0;
            if (i + j) % 2 == 0 {
                shapes.push(ball(x, y, z, 0.5 + 0.1 * j as f64));
            } else {
                shapes.push(Shape::Triangle(Triangle {
                    v1: v(x, y, z),
                    v2: v(x + 1.5, y, z + 0.5),
                    v3: v(x, y + 1.5, z - 0.5),
                    mat: m,
                }));
            }
        }
    }
    shapes
}

#[test]
fn box_passed_through() {
    let h = cube().get_ray_intersection(ray(v(0.0, 0.0, 5.0), v(0.0, 0.0, -1.0)));
    assert!(h.hit);
    assert_eq!(h.t, tmax());
    assert_eq!(h.shape, None);
}

#[test]
fn box_missed_beside() {
    assert!(!cube().get_ray_intersection(ray(v(2.0, 0.0, 5.0), v(0.0, 0.0, -1.0))).hit);
    assert!(!cube().get_ray_intersection(ray(v(0.0, -1.000001, 5.0), v(0.0, 0.0, -1.0))).hit);
}

#[test]
fn box_touched_on_a_face_is_passed() {
    assert!(cube().get_ray_intersection(ray(v(1.0, 0.0, 5.0), v(0.0, 0.0, -1.0))).hit);
    assert!(cube().get_ray_intersection(ray(v(1.0, 1.0, 5.0), v(0.0, 0.0, -1.0))).hit);
}

#[test]
fn box_behind_the_ray_is_missed() {
    assert!(!cube().get_ray_intersection(ray(v(0.0, 0.0, 5.0), v(0.0, 0.0, 1.0))).hit);
}

#[test]
fn box_around_the_origin_of_the_ray_is_passed() {
    assert!(cube().get_ray_intersection(ray(v(0.0, 0.0, 0.0), v(1.0, 1.0, 1.0))).hit);
}

#[test]
fn box_whose_slabs_are_crossed_one_after_the_other_is_missed() {
    // inside the x slab for t in [2, 4], inside the y slab for t in [-1, 1]
    assert!(!cube().get_ray_intersection(ray(v(-3.0, 0.0, 0.0), v(1.0, 1.0, 0.0))).hit);
    // the y and z slabs are never crossed together, though each overlaps the x slab
    let b = BoundingBox {
        x_min: s(0.0),
        x_max: s(10.0),
        y_min: s(0.0),
        y_max: s(1.0),
        z_min: s(5.0),
        z_max: s(6.0),
    };
    assert!(!b.get_ray_intersection(ray(v(0.0, 0.0, 0.0), v(1.0, 1.0, 1.0))).hit);
}

#[test]
fn box_beyond_the_upper_bound_is_missed() {
    let far = BoundingBox {
        x_min: s(-1.0),
        x_max: s(1.0),
        y_min: s(-1.0),
        y_max: s(1.0),
        z_min: s(-200_001.0),
        z_max: s(-200_000.0),
    };
    assert!(!far.get_ray_intersection(ray(v(0.0, 0.0, 0.0), v(0.0, 0.0, -1.0))).hit);
}

#[test]
fn empty_box_is_always_missed() {
    let e = BoundingBox::empty();
    assert!(!e.get_ray_intersection(ray(v(0.0, 0.0, 0.0), v(0.0, 0.0, 1.0))).hit);
    assert!(!e.get_ray_intersection(ray(v(0.0, 0.0, 0.0), v(1.0, 1.0, 1.0))).hit);
    assert!(!e.get_ray_intersection(ray(v(0.0, 0.0, 0.0), v(0.0, 0.0, 0.0))).hit);
}

#[test]
fn box_union_and_centre() {
    let a = cube();
    let b = BoundingBox {
        x_min: s(0.0),
        x_max: s(3.0),
        y_min: s(-2.0),
        y_max: s(0.0),
        z_min: s(0.5),
        z_max: s(0.75),
    };
    let u = BoundingBox::combine(a, b);
    assert_eq!(
        u,
        BoundingBox {
            x_min: s(-1.0),
            x_max: s(3.0),
            y_min: s(-2.0),
            y_max: s(1.0),
            z_min: s(-1.0),
            z_max: s(1.0),
        }
    );
    assert_eq!(u.center(), v(1.0, -0.5, 0.0));
    assert_eq!(BoundingBox::combine(BoundingBox::empty(), b), b);
    assert_eq!(BoundingBox::combine(b, BoundingBox::empty()), b);
    assert_eq!(a.get_extents(), a);
    assert_eq!(a.get_material(), Material::new());
    assert_eq!(a.surface_normal(v(1.0, 0.0, 0.0), v(1.0, 0.0, 0.0)), Vector::new());
}

#[test]
fn axes_follow_each_other() {
    assert_eq!(Axis::XAxis.next(), Axis::YAxis);
    assert_eq!(Axis::YAxis.next(), Axis::ZAxis);
    assert_eq!(Axis::ZAxis.next(), Axis::XAxis);
    assert_eq!(Axis::XAxis.of(v(1.0, 2.0, 3.0)), s(1.0));
    assert_eq!(Axis::YAxis.of(v(1.0, 2.0, 3.0)), s(2.0));
    assert_eq!(Axis::ZAxis.of(v(1.0, 2.0, 3.0)), s(3.0));
}

#[test]
fn hierarchy_over_nothing() {
    let shapes: Vec<Shape> = Vec::new();
    let root = BVHNode::new(&shapes, Axis::XAxis);
    assert!(root.left.is_none());
    assert!(root.right.is_none());
    assert_eq!(root.bbox, BoundingBox::empty());
    assert!(!root.get_ray_intersection(&shapes, ray(v(0.0, 0.0, 5.0), v(0.0, 0.0, -1.0))).hit);
}

#[test]
fn hierarchy_over_one_shape() {
    let shapes = vec![ball(1.0, 2.0, 3.0, 1.0)];
    let root = BVHNode::new(&shapes, Axis::XAxis);
    assert!(matches!(root.left, Some(Child::Shape(0))));
    assert!(root.right.is_none());
    assert_eq!(root.bbox, shapes[0].get_extents());
    assert_eq!(root.get_extents(), root.bbox);
    assert_eq!(root.center(), v(1.0, 2.0, 3.0));
}

#[test]
fn hierarchy_over_two_shapes() {
    let shapes = vec![ball(5.0, 0.0, 0.0, 1.0), ball(-5.0, 0.0, 0.0, 2.0)];
    let root = BVHNode::new(&shapes, Axis::XAxis);
    assert!(matches!(root.left, Some(Child::Shape(0))));
    assert!(matches!(root.right, Some(Child::Shape(1))));
    assert_eq!(
        root.bbox,
        BoundingBox::combine(shapes[0].get_extents(), shapes[1].get_extents())
    );
}

#[test]
fn hierarchy_divides_by_the_mean_centroid() {
    let shapes = row_of_balls();
    let root = BVHNode::new(&shapes, Axis::XAxis);
    match (&root.left, &root.right) {
        (Some(Child::Node(l)), Some(Child::Node(r))) => {
            assert!(matches!(l.left, Some(Child::Shape(0))));
            assert!(matches!(l.right, Some(Child::Shape(1))));
            assert!(matches!(r.left, Some(Child::Shape(2))));
            assert!(matches!(r.right, Some(Child::Shape(3))));
        }
        _ => panic!("a node of four shapes has a node on each side"),
    }
    assert_eq!(
        root.bbox,
        BoundingBox {
            x_min: s(-1.0),
            x_max: s(31.0),
            y_min: s(-1.0),
            y_max: s(1.0),
            z_min: s(-1.0),
            z_max: s(1.0),
        }
    );
}

#[test]
fn hierarchy_divides_along_the_given_axis() {
    // on the Y axis the centroids are 0, 9, 0: the mean is 3
    let shapes = vec![ball(0.0, 0.0, 0.0, 1.0), ball(1.0, 9.0, 0.0, 1.0), ball(2.0, 0.0, 0.0, 1.0)];
    let root = BVHNode::new(&shapes, Axis::YAxis);
    match (&root.left, &root.right) {
        (Some(Child::Node(l)), Some(Child::Node(r))) => {
            assert!(matches!(l.left, Some(Child::Shape(0))));
            assert!(matches!(l.right, Some(Child::Shape(2))));
            assert!(matches!(r.left, Some(Child::Shape(1))));
            assert!(r.right.is_none());
        }
        _ => panic!("a node of three shapes has a node on each side"),
    }
}

#[test]
fn hierarchy_over_coincident_shapes_divides_by_halves() {
    let shapes = vec![ball(1.0, 1.0, 1.0, 1.0); 7];
    let root = BVHNode::new(&shapes, Axis::XAxis);
    let mut below = Vec::new();
    leaves(&root, &mut below);
    assert_eq!(below, vec![0, 1, 2, 3, 4, 5, 6]);
    match (&root.left, &root.right) {
        (Some(Child::Node(l)), Some(Child::Node(r))) => {
            let mut left = Vec::new();
            leaves(l, &mut left);
            assert_eq!(left, vec![0, 1, 2]);
            let mut right = Vec::new();
            leaves(r, &mut right);
            assert_eq!(right, vec![3, 4, 5, 6]);
        }
        _ => panic!("a node of seven shapes has a node on each side"),
    }
    assert_boxes(&root, &shapes);
    let h = root.get_ray_intersection(&shapes, ray(v(1.0, 1.0, 5.0), v(0.0, 0.0, -1.0)));
    assert!(h.hit);
    assert_eq!(h.t, s(3.0));
}

#[test]
fn hierarchy_holds_every_shape_once() {
    let shapes = mixed_scene();
    let root = BVHNode::new(&shapes, Axis::XAxis);
    let mut below = Vec::new();
    leaves(&root, &mut below);
    below.sort();
    assert_eq!(below, (0..shapes.len()).collect::<Vec<usize>>());
}

#[test]
fn boxes_hold_the_shapes_below_them() {
    let shapes = mixed_scene();
    assert_boxes(&BVHNode::new(&shapes, Axis::XAxis), &shapes);
    let shapes = row_of_balls();
    assert_boxes(&BVHNode::new(&shapes, Axis::ZAxis), &shapes);
}

#[test]
fn hierarchy_reports_the_nearest_shape() {
    let shapes = row_of_balls();
    let root = BVHNode::new(&shapes, Axis::XAxis);
    let r = ray(v(-5.0, 0.0, 0.0), v(1.0, 0.0, 0.0));
    let h = root.get_ray_intersection(&shapes, r);
    assert!(h.hit);
    assert_eq!(h.shape, Some(0));
    assert_eq!(h.t, s(4.0));
    assert_eq!(h.ray, r);
    let h = root.get_ray_intersection(&shapes, ray(v(50.0, 0.0, 0.0), v(-1.0, 0.0, 0.0)));
    assert_eq!(h.shape, Some(3));
    assert_eq!(h.t, s(19.0));
    let h = root.get_ray_intersection(&shapes, ray(v(20.0, 5.0, 0.0), v(0.0, -1.0, 0.0)));
    assert_eq!(h.shape, Some(2));
    assert_eq!(h.t, s(4.0));
    let h = root.get_ray_intersection(&shapes, ray(v(15.0, 5.0, 0.0), v(0.0, -1.0, 0.0)));
    assert!(!h.hit);
    assert_eq!(h.shape, None);
    assert_eq!(h.t, tmax());
}

#[test]
fn of_two_equally_near_shapes_the_later_is_reported() {
    let shapes = vec![ball(0.0, 0.0, 0.0, 1.0), ball(0.0, 0.0, 0.0, 1.0)];
    let root = BVHNode::new(&shapes, Axis::XAxis);
    let r = ray(v(0.0, 0.0, 5.0), v(0.0, 0.0, -1.0));
    assert_eq!(root.get_ray_intersection(&shapes, r).shape, Some(1));
    assert_eq!(linear_scan(&shapes, r).shape, Some(1));
}

#[test]
fn scan_reports_the_nearest_shape() {
    let shapes = row_of_balls();
    let h = linear_scan(&shapes, ray(v(-5.0, 0.0, 0.0), v(1.0, 0.0, 0.0)));
    assert_eq!((h.hit, h.shape, h.t), (true, Some(0), s(4.0)));
    let h = linear_scan(&shapes, ray(v(50.0, 0.0, 0.0), v(-1.0, 0.0, 0.0)));
    assert_eq!((h.hit, h.shape, h.t), (true, Some(3), s(19.0)));
    let h = linear_scan(&shapes, ray(v(15.0, 5.0, 0.0), v(0.0, -1.0, 0.0)));
    assert_eq!(h, Hit { hit: false, shape: None, ray: ray(v(15.0, 5.0, 0.0), v(0.0, -1.0, 0.0)), t: tmax() });
    assert!(!linear_scan(&Vec::new(), ray(v(0.0, 0.0, 0.0), v(0.0, 0.0, 1.0))).hit);
}

#[test]
fn hierarchy_agrees_with_a_scan() {
    let shapes = mixed_scene();
    for axis in [Axis::XAxis, Axis::YAxis, Axis::ZAxis] {
        let root = BVHNode::new(&shapes, axis);
        let mut met = 0;
        for i in -12..=12 {
            for j in -12..=12 {
                let origin = v(0.0, 0.0, 5.0);
                let dir = v(i as f64 * 0.05, j as f64 * 0.05, -1.0).normalized();
                let r = ray(origin, dir);
                let h = root.get_ray_intersection(&shapes, r);
                let l = linear_scan(&shapes, r);
                assert_eq!(h.hit, l.hit);
                assert_eq!(h.t, l.t);
                assert_eq!(h.ray, l.ray);
                if h.hit {
                    met += 1;
                    let i = h.shape.unwrap();
                    assert_eq!(shapes[i].get_ray_intersection(r).t, h.t);
                }
            }
        }
        assert!(met > 50);
    }
}

#[test]
fn a_ray_beside_a_tiny_sphere_meets_nothing() {
    // the ray passes 0.0014 from the centre of a sphere of radius 0.001;
    // the squares of both round down to one millionth, but the ray is
    // outside the sphere's box
    let shapes = vec![ball(0.0, 0.0, 0.0, 0.001)];
    let r = ray(v(-5.0, 0.0014, 0.0), v(1.0, 0.0, 0.0));
    assert!(!shapes[0].get_extents().get_ray_intersection(r).hit);
    assert!(!shapes[0].get_ray_intersection(r).hit);
    assert!(!linear_scan(&shapes, r).hit);
    assert!(!BVHNode::new(&shapes, Axis::XAxis).get_ray_intersection(&shapes, r).hit);
    let through = ray(v(-5.0, 0.0009, 0.0), v(1.0, 0.0, 0.0));
    let l = linear_scan(&shapes, through);
    let h = BVHNode::new(&shapes, Axis::XAxis).get_ray_intersection(&shapes, through);
    assert!(l.hit);
    assert_eq!(h, l);
}

#[test]
fn hierarchy_and_scan_agree_beside_a_tiny_sphere() {
    let r = ray(v(0.000101, 0.0, 5.0), v(0.0, 0.0, -1.0));
    let one = vec![ball(0.0, 0.0, 0.0, 0.0001)];
    assert!(!one[0].get_ray_intersection(r).hit);
    assert!(!linear_scan(&one, r).hit);
    assert!(!BVHNode::new(&one, Axis::XAxis).get_ray_intersection(&one, r).hit);
    let three = vec![ball(0.0, 0.0, 0.0, 0.0001), ball(0.0, 0.0, -10.0, 1.0), ball(0.0, 0.0, -20.0, 1.0)];
    let l = linear_scan(&three, r);
    let h = BVHNode::new(&three, Axis::XAxis).get_ray_intersection(&three, r);
    assert_eq!((l.hit, l.shape, l.t), (true, Some(1), s(14.0)));
    assert_eq!(h, l);
    let centred = ray(v(0.0001, 0.0, 5.0), v(0.0, 0.0, -1.0));
    let l = linear_scan(&three, centred);
    let h = BVHNode::new(&three, Axis::XAxis).get_ray_intersection(&three, centred);
    assert_eq!(l.shape, Some(0));
    assert_eq!(h, l);
}

#[test]
fn box_test_leaves_out_no_parameter_by_rounding() {
    // the ray is inside between the parameters 0.00000033 and 0.00000167
    let b = BoundingBox {
        x_min: Scalar { raw: 1 },
        x_max: Scalar { raw: 5 },
        y_min: s(-1.0),
        y_max: s(1.0),
        z_min: s(-1.0),
        z_max: s(1.0),
    };
    assert!(b.passes(ray(v(0.0, 0.0, 0.0), v(3.0, 0.0, 0.0))));
    assert!(b.get_ray_intersection(ray(v(0.0, 0.0, 0.0), v(3.0, 0.0, 0.0))).hit);
    assert!(!b.passes(ray(v(0.0, 0.0, 0.0), v(-3.0, 0.0, 0.0))));
    // the ray leaves at 0.0000005, before the lower bound
    assert!(!b.passes(ray(v(0.0, 0.0, 0.0), v(10.0, 0.0, 0.0))));
}
