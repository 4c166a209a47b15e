use raytracer::color::Color;
use raytracer::intersect::{Shape, Sphere};
use raytracer::light::{LightSource, PointLight};
use raytracer::math::{Scalar, Vector};
use raytracer::picture::Picture;
use raytracer::raytracer::Raytracer;
use raytracer::reader::{count, line_end, next_word, number, spells};
use raytracer::run;
use raytracer::scene::{Draft, Material, Scene, SceneError};

fn s(x: f64) -> Scalar {
    Scalar { raw: (x * 1e6).round() as i64 }
}

fn v(x: f64, y: f64, z: f64) -> Vector {
    Vector { x: s(x), y: s(y), z: s(z) }
}

fn c(r: f64, g: f64, b: f64) -> Color {
    Color::new(s(r), s(g), s(b))
}

fn num(text: &str) -> Option<Scalar> {
    number(text.as_bytes(), 0, text.len())
}

fn cnt(text: &str) -> Option<u32> {
    count(text.as_bytes(), 0, text.len())
}

fn load(text: &str) -> Result<Scene, SceneError> {
    Scene::new(text.as_bytes())
}

fn refused(text: &str) -> SceneError {
    match load(text) {
        Ok(_) => panic!("the text is accepted"),
        Err(e) => e,
    }
}

const SMALL: &str = "resolution 4 2
filename out.png
background 0.1 0.2 0.3
camera 0 0 5 0 0 -1 0 1 0 45
max_depth 2
material 0.2 0.2 0.2 0.5 0.5 0.5 0 0 0 1 0 0 0 1
sphere 0 0 0 1
point_light 1 1 1 0 0 10
";

#[test]
fn numbers_are_read() {
    assert_eq!(num("1.5"), Some(s(1.5)));
    assert_eq!(num("-0.25"), Some(s(-0.25)));
    assert_eq!(num("+3"), Some(s(3.0)));
    assert_eq!(num("0"), Some(s(0.0)));
    assert_eq!(num("-0"), Some(s(0.0)));
    assert_eq!(num(".5"), Some(s(0.5)));
    assert_eq!(num("5."), Some(s(5.0)));
    assert_eq!(num("-.5"), Some(s(-0.5)));
    assert_eq!(num("007.250"), Some(s(7.25)));
    assert_eq!(num("0.000001"), Some(Scalar { raw: 1 }));
    assert_eq!(num("123456.654321"), Some(Scalar { raw: 123_456_654_321 }));
}

#[test]
fn digits_beyond_millionths_are_dropped() {
    assert_eq!(num("1.2345678"), Some(Scalar { raw: 1_234_567 }));
    assert_eq!(num("-1.9999999"), Some(Scalar { raw: -1_999_999 }));
    assert_eq!(num("0.0000009"), Some(Scalar { raw: 0 }));
    assert_eq!(num("0.00000099999999999999999999999999"), Some(Scalar { raw: 0 }));
}

#[test]
fn numbers_too_large_saturate() {
    assert_eq!(num("99999999999999999999"), Some(Scalar { raw: i64::MAX }));
    assert_eq!(num("-99999999999999999999"), Some(Scalar { raw: i64::MIN }));
    assert_eq!(num("9223372036854.775807"), Some(Scalar { raw: i64::MAX }));
    assert_eq!(num("9223372036854.775806"), Some(Scalar { raw: i64::MAX - 1 }));
    assert_eq!(num("9223372036854.775808"), Some(Scalar { raw: i64::MAX }));
    assert_eq!(num("-9223372036854.775808"), Some(Scalar { raw: i64::MIN }));
    assert_eq!(num("10000000000000"), Some(Scalar { raw: i64::MAX }));
    assert_eq!(num("9999999999999"), Some(Scalar { raw: i64::MAX }));
    assert_eq!(num("9223372036854"), Some(Scalar { raw: 9_223_372_036_854_000_000 }));
    assert_eq!(num("9223372036855"), Some(Scalar { raw: i64::MAX }));
    let long = "1".repeat(500);
    assert_eq!(num(&long), Some(Scalar { raw: i64::MAX }));
}

#[test]
fn words_that_are_no_numbers() {
    for w in ["", "-", "+", ".", "-.", "abc", "12a", "1.2.3", "1e5", "--1", "1-", "1,5", "0x10", "inf", "NaN", " 1"] {
        assert_eq!(num(w), None, "{:?}", w);
    }
}

#[test]
fn counts_are_read() {
    assert_eq!(cnt("0"), Some(0));
    assert_eq!(cnt("640"), Some(640));
    assert_eq!(cnt("+480"), Some(480));
    assert_eq!(cnt("0005"), Some(5));
    assert_eq!(cnt("4294967295"), Some(u32::MAX));
}

#[test]
fn words_that_are_no_counts() {
    for w in ["", "+", "-1", "1.5", "4294967296", "99999999999999999999999", "12a", "a"] {
        assert_eq!(cnt(w), None, "{:?}", w);
    }
}

#[test]
fn words_and_lines_are_found() {
    let text = b"  sphere\t1 2\r\nnext";
    assert_eq!(line_end(text, 0), 13);
    assert_eq!(line_end(text, 13), 13);
    assert_eq!(line_end(text, 14), 18);
    assert_eq!(line_end(text, 18), 18);
    assert_eq!(next_word(text, 0, 13), Some((2, 8)));
    assert_eq!(next_word(text, 8, 13), Some((9, 10)));
    assert_eq!(next_word(text, 10, 13), Some((11, 12)));
    assert_eq!(next_word(text, 12, 13), None);
    assert_eq!(next_word(text, 14, 18), Some((14, 18)));
    assert_eq!(next_word(text, 18, 18), None);
    assert!(spells(text, 2, 8, "sphere"));
    assert!(!spells(text, 2, 8, "sphere "));
    assert!(!spells(text, 2, 7, "sphere"));
    assert!(!spells(text, 2, 8, "sphera"));
    assert!(spells(text, 3, 3, ""));
}

#[test]
fn empty_text_gives_the_default_scene() {
    let scene = load("").unwrap();
    assert_eq!(scene.width, 640);
    assert_eq!(scene.height, 480);
    assert_eq!(scene.filename, "raytraced.png");
    assert_eq!(scene.background, c(0.0, 0.0, 0.0));
    assert_eq!(scene.camera.pos, v(0.0, 0.0, 0.0));
    assert_eq!(scene.camera.dir, v(0.0, 0.0, -1.0));
    assert_eq!(scene.camera.up, v(0.0, 1.0, 0.0));
    assert_eq!(scene.camera.right, v(1.0, 0.0, 0.0));
    assert_eq!(scene.camera.ha.raw, 785_398);
    assert_eq!(scene.ambient_light, c(0.25, 0.25, 0.25));
    assert!(scene.shapes.is_empty());
    assert!(scene.lights.is_empty());
    assert_eq!(scene.max_depth, 5);
    assert!(scene.bvhroot.left.is_none() && scene.bvhroot.right.is_none());
}

#[test]
fn every_command_is_read() {
    let scene = load(SMALL).unwrap();
    assert_eq!(scene.width, 4);
    assert_eq!(scene.height, 2);
    assert_eq!(scene.filename, "out.png");
    assert_eq!(scene.background, c(0.1, 0.2, 0.3));
    assert_eq!(scene.max_depth, 2);
    let mat = Material {
        amb: c(0.2, 0.2, 0.2),
        dif: c(0.5, 0.5, 0.5),
        spec: c(0.0, 0.0, 0.0),
        ns: s(1.0),
        trs: c(0.0, 0.0, 0.0),
        ior: s(1.0),
    };
    assert_eq!(scene.shapes, vec![Shape::Sphere(Sphere { pos: v(0.0, 0.0, 0.0), r: s(1.0), mat })]);
    assert_eq!(
        scene.lights,
        vec![LightSource::Point(PointLight { pos: v(0.0, 0.0, 10.0), intensity: c(1.0, 1.0, 1.0) })]
    );
    assert_eq!(scene.canvas.left, s(-2.0));
    assert_eq!(scene.canvas.bottom, s(-1.0));
    assert!((scene.canvas.depth.raw - 1_000_000).abs() < 10);
}

#[test]
fn camera_axes_are_made_orthogonal_and_unit() {
    let scene = load(SMALL).unwrap();
    assert_eq!(scene.camera.pos, v(0.0, 0.0, 5.0));
    assert_eq!(scene.camera.dir, v(0.0, 0.0, 1.0));
    assert_eq!(scene.camera.right, v(-1.0, 0.0, 0.0));
    assert_eq!(scene.camera.up, v(0.0, -1.0, 0.0));
    // 45 degrees in radians
    assert_eq!(scene.camera.ha.raw, 785_398);
    let tilted = load("camera 1 2 3 0 0 -2 0 3 4 30").unwrap();
    assert_eq!(tilted.camera.pos, v(1.0, 2.0, 3.0));
    assert_eq!(tilted.camera.dir, v(0.0, 0.0, 1.0));
    assert_eq!(tilted.camera.right, v(-1.0, 0.0, 0.0));
    assert_eq!(tilted.camera.up, v(0.0, -1.0, 0.0));
    assert_eq!(tilted.camera.ha.raw, 523_598);
}

#[test]
fn material_applies_to_the_shapes_after_it() {
    let scene = load(
        "sphere 0 0 0 1\nmaterial 0 0 0 0 0 0 0 0 0 7 0 0 0 2\nsphere 1 1 1 2\nsphere 2 2 2 3\nmaterial 1 1 1 1 1 1 1 1 1 8 1 1 1 3\nsphere 3 3 3 4",
    )
    .unwrap();
    assert_eq!(scene.shapes.len(), 4);
    let mats: Vec<Material> = scene
        .shapes
        .iter()
        .map(|shape| match shape {
            Shape::Sphere(sp) => sp.mat,
            Shape::Triangle(t) => t.mat,
        })
        .collect();
    assert_eq!(mats[0], Material::new());
    assert_eq!(mats[1].ns, s(7.0));
    assert_eq!(mats[1].ior, s(2.0));
    assert_eq!(mats[2], mats[1]);
    assert_eq!(mats[3].ns, s(8.0));
    assert_eq!(mats[3].amb, c(1.0, 1.0, 1.0));
}

#[test]
fn later_values_replace_earlier_ones() {
    let scene = load("resolution 1 2\nresolution 3 4\nfilename a\nfilename b.png\nmax_depth 1\nmax_depth 9").unwrap();
    assert_eq!((scene.width, scene.height), (3, 4));
    assert_eq!(scene.filename, "b.png");
    assert_eq!(scene.max_depth, 9);
}

#[test]
fn unknown_words_and_empty_lines_are_passed_over() {
    let scene = load("\n\n   \n# a remark\ntriangle 1 2 3\nSphere 0 0 0 1\nspheres 0 0 0 1\nresolution 7 9\n\t\n").unwrap();
    assert_eq!((scene.width, scene.height), (7, 9));
    assert!(scene.shapes.is_empty());
}

#[test]
fn words_beyond_the_values_are_not_read() {
    let scene = load("resolution 7 9 oops\nsphere 1 2 3 4 five six\nfilename a.png b.png").unwrap();
    assert_eq!((scene.width, scene.height), (7, 9));
    assert_eq!(scene.shapes.len(), 1);
    assert_eq!(scene.filename, "a.png");
}

#[test]
fn separators_of_every_kind() {
    let scene = load("  resolution\t7 \x0b 9\r\n\tmax_depth\x0c3\r\nsphere 1  2\t3 4").unwrap();
    assert_eq!((scene.width, scene.height), (7, 9));
    assert_eq!(scene.max_depth, 3);
    assert_eq!(scene.shapes.len(), 1);
}

#[test]
fn last_line_needs_no_line_feed() {
    assert_eq!(load("max_depth 3").unwrap().max_depth, 3);
    assert_eq!(load("max_depth 3\n").unwrap().max_depth, 3);
    assert_eq!(load("max_depth 3\n\n").unwrap().max_depth, 3);
}

#[test]
fn lines_that_end_too_early_are_refused() {
    for text in [
        "resolution",
        "resolution 640",
        "filename",
        "filename   ",
        "sphere 1 2 3",
        "background 1 1",
        "camera 0 0 5 0 0 -1 0 1 0",
        "max_depth",
        "material 0 0 0 0 0 0 0 0 0 1 0 0 0",
        "point_light 1 1 1 0 0",
        "sphere 1 2 3\n4",
    ] {
        assert_eq!(refused(text), SceneError::Incomplete, "{:?}", text);
    }
}

#[test]
fn words_that_are_no_numbers_are_refused() {
    for text in [
        "resolution 640 high",
        "resolution -1 5",
        "resolution 1.5 5",
        "resolution 4294967296 5",
        "sphere 1 2 x 4",
        "sphere 1e0 2 3 4",
        "background red green blue",
        "camera 0 0 5 0 0 -1 0 1 0 wide",
        "max_depth -1",
        "max_depth 99999999999",
        "material 0 0 0 0 0 0 0 0 0 1 0 0 0 glass",
        "point_light 1 1 1 0 0 .",
    ] {
        assert_eq!(refused(text), SceneError::Malformed, "{:?}", text);
    }
}

#[test]
fn the_first_fault_decides() {
    assert_eq!(refused("sphere x"), SceneError::Malformed);
    assert_eq!(refused("sphere 1 2 3\nsphere x 2 3 4"), SceneError::Incomplete);
    assert_eq!(refused("sphere x 2 3 4\nsphere 1 2 3"), SceneError::Malformed);
    assert_eq!(refused("resolution 1\nmax_depth x"), SceneError::Incomplete);
}

#[test]
fn file_name_that_is_not_utf8_is_read_with_replacements() {
    let scene = Scene::new(b"filename a\xffb.png").unwrap();
    assert_eq!(scene.filename, "a\u{fffd}b.png");
    let scene = Scene::new("filename bild\u{e4}.png".as_bytes()).unwrap();
    assert_eq!(scene.filename, "bild\u{e4}.png");
}

#[test]
fn draft_is_read_line_by_line() {
    let mut d = Draft::new();
    let text = b"max_depth 7\nbackground 1 1";
    assert_eq!(d.apply(text, 0, 11), Ok(()));
    assert_eq!(d.max_depth, 7);
    assert_eq!(d.apply(text, 12, text.len()), Err(SceneError::Incomplete));
    let d = Draft::load(b"resolution 3 5").unwrap();
    assert_eq!((d.width, d.height), (3, 5));
    assert_eq!(d.filename, b"raytraced.png".to_vec());
    assert_eq!(Draft::load(b"resolution 3").err(), Some(SceneError::Incomplete));
}

#[test]
fn renderer_of_a_text() {
    let rt = Raytracer::new(SMALL.as_bytes()).unwrap();
    assert_eq!(rt.scene.width, 4);
    assert_eq!(rt.scene.shapes.len(), 1);
    assert_eq!(Raytracer::new(b"sphere").err(), Some(SceneError::Incomplete));
    assert_eq!(Raytracer::new(b"sphere a b c d").err(), Some(SceneError::Malformed));
}

#[test]
fn picture_is_set_pixel_by_pixel() {
    let mut p = Picture::new(3, 2);
    p.set(0, 0, [1, 2, 3]);
    p.set(2, 0, [4, 5, 6]);
    p.set(1, 1, [7, 8, 9]);
    p.set(2, 1, [10, 11, 12]);
    p.set(1, 1, [70, 80, 90]);
    assert_eq!(
        p.into_bytes(),
        vec![1, 2, 3, 0, 0, 0, 4, 5, 6, 0, 0, 0, 70, 80, 90, 10, 11, 12]
    );
    assert_eq!(Picture::new(0, 5).into_bytes(), Vec::<u8>::new());
    assert_eq!(Picture::new(2, 1).into_bytes(), vec![0; 6]);
}

#[test]
fn empty_scene_renders_the_background() {
    let (rt, img) = match run(b"resolution 3 2\nbackground 0.1 0.2 0.3") {
        Ok(out) => out,
        Err(e) => panic!("{:?}", e),
    };
    assert_eq!((rt.scene.width, rt.scene.height), (3, 2));
    let bytes = img.into_bytes();
    assert_eq!(bytes.len(), 18);
    for pixel in bytes.chunks(3) {
        assert_eq!(pixel, [25, 51, 76]);
    }
}

#[test]
fn sphere_shows_in_the_middle_of_the_picture() {
    let text = "resolution 5 5
background 0 0 1
camera 0 0 5 0 0 -1 0 1 0 45
material 1 1 1 0 0 0 0 0 0 1 0 0 0 1
sphere 0 0 0 1
";
    let (rt, img) = match run(text.as_bytes()) {
        Ok(out) => out,
        Err(e) => panic!("{:?}", e),
    };
    let bytes = img.into_bytes();
    assert_eq!(bytes.len(), 75);
    let pixel = |x: usize, y: usize| [bytes[3 * (y * 5 + x)], bytes[3 * (y * 5 + x) + 1], bytes[3 * (y * 5 + x) + 2]];
    // ambient 1 * 0.25 in the middle, the background in the corners
    assert_eq!(pixel(2, 2), [63, 63, 63]);
    for (x, y) in [(0, 0), (4, 0), (0, 4), (4, 4)] {
        assert_eq!(pixel(x, y), [0, 0, 255]);
    }
    for y in 0..5u32 {
        for x in 0..5u32 {
            let colour = rt.get_color_for_pixel(Scalar::from_int(x as i64), Scalar::from_int(y as i64));
            assert_eq!(pixel(x as usize, y as usize), colour.to_u8_array());
        }
    }
    let again = rt.run().into_bytes();
    assert_eq!(again, bytes);
}

#[test]
fn lit_sphere_is_brighter_toward_the_light() {
    let text = "resolution 9 9
camera 0 0 5 0 0 -1 0 1 0 20
material 0.2 0.2 0.2 0.8 0.8 0.8 0 0 0 1 0 0 0 1
sphere 0 0 0 1
point_light 30 30 30 0 4 4
";
    let (_, img) = match run(text.as_bytes()) {
        Ok(out) => out,
        Err(e) => panic!("{:?}", e),
    };
    let bytes = img.into_bytes();
    let red = |x: usize, y: usize| bytes[3 * (y * 9 + x)];
    assert_eq!(red(0, 0), 0);
    assert!(red(4, 4) > 12);
    // row 0 is the top of the world, where the light is
    assert!(red(4, 2) > red(4, 6));
}

#[test]
fn refused_text_gives_no_picture() {
    assert_eq!(run(b"resolution 3").err(), Some(SceneError::Incomplete));
    assert_eq!(run(b"resolution 3 x").err(), Some(SceneError::Malformed));
}

#[test]
fn picture_too_large_for_memory_is_refused() {
    assert_eq!(run(b"resolution 4294967295 4294967295").err(), Some(SceneError::TooLarge));
}

#[test]
fn picture_without_pixels() {
    let (_, img) = match run(b"resolution 0 7") {
        Ok(out) => out,
        Err(e) => panic!("{:?}", e),
    };
    assert!(img.into_bytes().is_empty());
}

#[test]
fn scene_with_mirrors_and_glass_renders() {
    let text = "resolution 48 36
filename balls.png
background 0.2 0.3 0.5
camera 0 1 8 0 -0.1 -1 0 1 0 30
max_depth 4
material 0.3 0.1 0.1 0.7 0.2 0.2 0.5 0.5 0.5 16 0 0 0 1
sphere -2 0 0 1
material 0.1 0.3 0.1 0.2 0.7 0.2 0.8 0.8 0.8 32 0 0 0 1
sphere 0 0 -1 1
material 0.05 0.05 0.1 0.1 0.1 0.2 0.2 0.2 0.2 64 0.8 0.8 0.8 1.5
sphere 2 0 0 1
material 0.2 0.2 0.2 0.6 0.6 0.6 0.3 0.3 0.3 8 0 0 0 1
sphere 0 -1001 0 1000
point_light 60 60 60 5 8 5
point_light 20 20 30 -6 4 3
";
    let (rt, img) = match run(text.as_bytes()) {
        Ok(out) => out,
        Err(e) => panic!("{:?}", e),
    };
    assert_eq!(rt.scene.shapes.len(), 4);
    assert_eq!(rt.scene.lights.len(), 2);
    assert_eq!(rt.scene.filename, "balls.png");
    let bytes = img.into_bytes();
    assert_eq!(bytes.len(), 3 * 48 * 36);
    let pixel = |x: usize, y: usize| [bytes[3 * (y * 48 + x)], bytes[3 * (y * 48 + x) + 1], bytes[3 * (y * 48 + x) + 2]];
    // the sky in the upper corners, the ground along the lower border
    assert_eq!(pixel(0, 0), [51, 76, 127]);
    assert_eq!(pixel(47, 0), [51, 76, 127]);
    assert_ne!(pixel(24, 35), [51, 76, 127]);
    // the three balls across the middle differ from the sky and from each other
    let mut seen: Vec<[u8; 3]> = Vec::new();
    for p in bytes.chunks(3) {
        let p = [p[0], p[1], p[2]];
        if !seen.contains(&p) {
            seen.push(p);
        }
    }
    assert!(seen.len() > 100);
    assert_eq!(rt.run().into_bytes(), bytes);
}
