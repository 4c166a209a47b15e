use raytracer::color::Color;
use raytracer::intersect::{Shape, Sphere, Triangle};
use raytracer::light::{mirrored, toward, DirectionalLight, Light, LightSource, PointLight};
use raytracer::math::{Scalar, Vector};
use raytracer::scene::Material;

fn s(x: f64) -> Scalar {
    Scalar { raw: (x * 1e6).round() as i64 }
}

fn v(x: f64, y: f64, z: f64) -> Vector {
    Vector { x: s(x), y: s(y), z: s(z) }
}

fn c(r: f64, g: f64, b: f64) -> Color {
    Color::new(s(r), s(g), s(b))
}

fn matte() -> Material {
    Material {
        amb: c(0.2, 0.2, 0.2),
        dif: c(0.5, 0.25, 1.0),
        spec: c(1.0, 0.5, 0.25),
        ns: s(2.0),
        trs: c(0.0, 0.0, 0.0),
        ior: s(1.0),
    }
}

fn ball() -> Shape {
    Shape::Sphere(Sphere { pos: v(0.0, 0.0, 0.0), r: s(1.0), mat: matte() })
}

fn top() -> Vector {
    v(0.0, 0.0, 1.0)
}

#[test]
fn point_light_stands_at_its_place() {
    let light = PointLight { pos: v(0.0, 0.0, 5.0), intensity: c(1.0, 1.0, 1.0) };
    assert_eq!(light.position(), v(0.0, 0.0, 5.0));
    assert_eq!(light.l(top()), v(0.0, 0.0, 1.0));
    assert_eq!(light.l(v(3.0, 0.0, 1.0)), v(-0.6, 0.0, 0.8));
    assert_eq!(light.distance(top()), Some(s(4.0)));
}

#[test]
fn directional_light_has_no_place() {
    let light = DirectionalLight { dir: v(0.0, 0.0, -2.0), intensity: c(1.0, 1.0, 1.0) };
    assert_eq!(light.position(), Vector::new());
    assert_eq!(light.l(top()), v(0.0, 0.0, 1.0));
    assert_eq!(light.l(v(100.0, -7.0, 3.0)), v(0.0, 0.0, 1.0));
    assert_eq!(light.distance(top()), None);
}

#[test]
fn view_normal_and_mirrored_direction() {
    let light = PointLight { pos: v(4.0, 0.0, 4.0), intensity: c(1.0, 1.0, 1.0) };
    assert_eq!(light.v(top(), v(0.0, 0.0, 5.0)), v(0.0, 0.0, 1.0));
    assert_eq!(toward(top(), v(0.0, 3.0, 5.0)), v(0.0, 0.6, 0.8));
    assert_eq!(light.n(top(), v(0.0, 0.0, 1.0), &ball()), v(0.0, 0.0, 1.0));
    // the light is at (0.8, 0, 0.6) from the top; mirrored about the normal
    assert_eq!(light.l(top()), v(0.8, 0.0, 0.6));
    assert_eq!(light.r(top(), v(0.0, 0.0, 1.0), &ball()), v(-0.8, 0.0, 0.6));
    assert_eq!(mirrored(v(0.8, 0.0, 0.6), top(), v(0.0, 0.0, 1.0), &ball()), v(-0.8, 0.0, 0.6));
}

#[test]
fn point_light_diffuse_fades_with_the_square_of_the_distance() {
    let light = PointLight { pos: v(0.0, 0.0, 5.0), intensity: c(1.0, 0.5, 0.5) };
    // cosine 1, distance 4: a sixteenth of diffuse times intensity
    let got = light.compute_diffuse_component(top(), v(0.0, 0.0, 1.0), &ball());
    // the green channel is 0.0078125, rounded toward zero
    assert_eq!(got, Color::new(s(0.03125), Scalar { raw: 7_812 }, s(0.03125)));
    let near = PointLight { pos: v(0.0, 0.0, 3.0), intensity: c(1.0, 0.5, 0.5) };
    let got = near.compute_diffuse_component(top(), v(0.0, 0.0, 1.0), &ball());
    assert_eq!(got, c(0.125, 0.03125, 0.125));
}

#[test]
fn point_light_diffuse_follows_the_cosine() {
    // from the top of the ball the light is at (0.6, 0, 0.8), distance 5
    let light = PointLight { pos: v(3.0, 0.0, 5.0), intensity: c(1.0, 1.0, 1.0) };
    let got = light.compute_diffuse_component(top(), v(0.0, 0.0, 1.0), &ball());
    // 0.8 / 25 = 0.032
    assert_eq!(got, c(0.016, 0.008, 0.032));
}

#[test]
fn light_behind_the_surface_adds_nothing_diffuse() {
    let light = PointLight { pos: v(0.0, 0.0, -5.0), intensity: c(1.0, 1.0, 1.0) };
    let got = light.compute_diffuse_component(top(), v(0.0, 0.0, 1.0), &ball());
    assert_eq!(got, c(0.0, 0.0, 0.0));
    let sun = DirectionalLight { dir: v(0.0, 0.0, 1.0), intensity: c(1.0, 1.0, 1.0) };
    let got = sun.compute_diffuse_component(top(), v(0.0, 0.0, 1.0), &ball());
    assert_eq!(got, c(0.0, 0.0, 0.0));
}

#[test]
fn light_at_the_point_itself_adds_nothing() {
    let light = PointLight { pos: top(), intensity: c(1.0, 1.0, 1.0) };
    assert_eq!(light.compute_diffuse_component(top(), v(0.0, 0.0, 1.0), &ball()), c(0.0, 0.0, 0.0));
    assert_eq!(
        light.compute_specular_component(top(), v(0.0, 0.0, 1.0), &ball(), v(0.0, 0.0, 5.0)),
        c(0.0, 0.0, 0.0)
    );
}

#[test]
fn point_light_specular() {
    let light = PointLight { pos: v(0.0, 0.0, 5.0), intensity: c(1.0, 1.0, 1.0) };
    // mirrored direction and view agree: 1^2 / 16
    let got = light.compute_specular_component(top(), v(0.0, 0.0, 1.0), &ball(), v(0.0, 0.0, 9.0));
    assert_eq!(got, c(0.0625, 0.03125, 0.015625));
    // the eye at (0.6, 0, 0.8) from the point: 0.8^2 / 16 = 0.04
    let got = light.compute_specular_component(top(), v(0.0, 0.0, 1.0), &ball(), v(3.0, 0.0, 5.0));
    assert_eq!(got, c(0.04, 0.02, 0.01));
}

#[test]
fn directional_light_does_not_fade() {
    let sun = DirectionalLight { dir: v(0.0, 0.0, -1.0), intensity: c(1.0, 0.5, 0.5) };
    let got = sun.compute_diffuse_component(top(), v(0.0, 0.0, 1.0), &ball());
    assert_eq!(got, c(0.5, 0.125, 0.5));
    let got = sun.compute_specular_component(top(), v(0.0, 0.0, 1.0), &ball(), v(3.0, 0.0, 5.0));
    // 0.8^2 = 0.64
    assert_eq!(got, c(0.64, 0.16, 0.08));
    let slanted = DirectionalLight { dir: v(-3.0, 0.0, -4.0), intensity: c(1.0, 1.0, 1.0) };
    let got = slanted.compute_diffuse_component(top(), v(0.0, 0.0, 1.0), &ball());
    assert_eq!(got, c(0.4, 0.2, 0.8));
}

#[test]
fn exponent_with_a_fraction() {
    let mut m = matte();
    m.ns = s(2.5);
    let shape = Shape::Sphere(Sphere { pos: v(0.0, 0.0, 0.0), r: s(1.0), mat: m });
    let sun = DirectionalLight { dir: v(0.0, 0.0, -1.0), intensity: c(1.0, 1.0, 1.0) };
    let got = sun.compute_specular_component(top(), v(0.0, 0.0, 1.0), &shape, v(3.0, 0.0, 5.0));
    // 0.8 to the power of 2.5 is 0.572433
    assert!((got.r.raw - 572_433).abs() < 10);
    assert!((got.g.raw - 286_216).abs() < 10);
    m.ns = s(0.0);
    let shape = Shape::Sphere(Sphere { pos: v(0.0, 0.0, 0.0), r: s(1.0), mat: m });
    let got = sun.compute_specular_component(top(), v(0.0, 0.0, 1.0), &shape, v(3.0, 0.0, 5.0));
    assert_eq!(got, c(1.0, 0.5, 0.25));
}

#[test]
fn light_on_a_triangle_uses_the_side_of_the_viewer() {
    let t = Shape::Triangle(Triangle {
        v1: v(0.0, 0.0, 0.0),
        v2: v(1.0, 0.0, 0.0),
        v3: v(0.0, 1.0, 0.0),
        mat: matte(),
    });
    let p = v(0.25, 0.25, 0.0);
    let above = DirectionalLight { dir: v(0.0, 0.0, -1.0), intensity: c(1.0, 1.0, 1.0) };
    assert_eq!(above.compute_diffuse_component(p, v(0.0, 0.0, 1.0), &t), c(0.5, 0.25, 1.0));
    assert_eq!(above.compute_diffuse_component(p, v(0.0, 0.0, -1.0), &t), c(0.0, 0.0, 0.0));
}

#[test]
fn light_source_answers_as_its_variant() {
    let p = PointLight { pos: v(3.0, 0.0, 5.0), intensity: c(1.0, 1.0, 1.0) };
    let d = DirectionalLight { dir: v(-3.0, 0.0, -4.0), intensity: c(1.0, 1.0, 1.0) };
    let eye = v(0.0, 0.0, 5.0);
    let n = v(0.0, 0.0, 1.0);
    let lp = LightSource::Point(p);
    let ld = LightSource::Directional(d);
    assert_eq!(lp.position(), p.position());
    assert_eq!(ld.position(), d.position());
    assert_eq!(lp.l(top()), p.l(top()));
    assert_eq!(ld.l(top()), d.l(top()));
    assert_eq!(lp.distance(top()), p.distance(top()));
    assert_eq!(ld.distance(top()), None);
    assert_eq!(lp.v(top(), eye), p.v(top(), eye));
    assert_eq!(lp.n(top(), n, &ball()), n);
    assert_eq!(lp.r(top(), n, &ball()), p.r(top(), n, &ball()));
    assert_eq!(ld.r(top(), n, &ball()), d.r(top(), n, &ball()));
    assert_eq!(
        lp.compute_diffuse_component(top(), n, &ball()),
        p.compute_diffuse_component(top(), n, &ball())
    );
    assert_eq!(
        ld.compute_diffuse_component(top(), n, &ball()),
        d.compute_diffuse_component(top(), n, &ball())
    );
    assert_eq!(
        lp.compute_specular_component(top(), n, &ball(), eye),
        p.compute_specular_component(top(), n, &ball(), eye)
    );
    assert_eq!(
        ld.compute_specular_component(top(), n, &ball(), eye),
        d.compute_specular_component(top(), n, &ball(), eye)
    );
}
