//! The scene: what is rendered, from where, and with what surfaces.
use crate::bvh::{all_places, lemma_hierarchy_matches_scan, scan, Axis, BVHNode};
use crate::color::Color;
use crate::intersect::{Shape, Sphere};
use crate::light::{LightSource, PointLight};
use crate::math::ray::Ray;
use crate::math::scalar::Scalar;
use crate::math::vector::Vector;
use crate::reader::{
    count, line_end, next_word, number, spec_count, spec_line_end, spec_next_word, spec_number,
    spells,
};
use vstd::prelude::*;
use vstd::string::StringSliceAdditionalSpecFns;

verus! {

/// From where the scene is seen: a position and three unit axes.
#[derive(Clone, Copy, Debug, PartialEq, Eq, Structural)]
pub struct Camera {
    pub pos: Vector,
    /// Points from the scene back to the eye.
    pub dir: Vector,
    pub up: Vector,
    pub right: Vector,
    /// Half the vertical opening angle, in radians.
    pub ha: Scalar,
}

/// The plane of pixels in front of the camera, in pixel units.
#[derive(Clone, Copy, Debug, PartialEq, Eq, Structural)]
pub struct Canvas {
    /// The coordinate of the left border along the camera's right axis.
    pub left: Scalar,
    /// The coordinate of the border of row 0 along the camera's up axis.
    pub bottom: Scalar,
    /// The distance from the eye to the plane.
    pub depth: Scalar,
}

/// Everything that a rendering reads.
#[derive(Debug)]
pub struct Scene {
    pub width: u32,
    pub height: u32,
    pub filename: String,
    pub background: Color,
    pub camera: Camera,
    pub canvas: Canvas,
    pub ambient_light: Color,
    pub shapes: Vec<Shape>,
    pub lights: Vec<LightSource>,
    pub max_depth: u32,
    pub bvhroot: BVHNode,
}

impl Scene {
    /// The hierarchy is the one that construction gives for the scene's
    /// shapes, divided first along the X axis.
    pub open spec fn wf(&self) -> bool {
        self.bvhroot.built_from(self.shapes@, all_places(self.shapes@.len()), Axis::XAxis)
    }

    /// In a well-formed scene the box of every node of the hierarchy is the
    /// union of its children's boxes, and the shapes below the root are
    /// exactly the shapes of the scene.
    pub proof fn lemma_wf(&self)
        requires
            self.wf(),
        ensures
            self.bvhroot.wf(self.shapes@),
            forall|j: usize| #![trigger self.bvhroot.holds(j)]
                self.bvhroot.holds(j) <==> j < self.shapes@.len(),
    {
        let places: Seq<usize> = all_places(self.shapes@.len());
        self.bvhroot.lemma_built_from(self.shapes@, places, Axis::XAxis);
        assert forall|j: usize| #![trigger self.bvhroot.holds(j)]
            self.bvhroot.holds(j) <==> j < self.shapes@.len() by {
            if j < self.shapes@.len() {
                assert(places[j as int] == j);
                assert(places.contains(j));
            }
        }
    }
}

impl Scene {
    /// The hierarchy of a well-formed scene answers every ray as a scan of
    /// the scene's shapes does: both meet a shape or neither does, and at the
    /// same parameter.
    pub proof fn lemma_answers_as_scan(&self, ray: Ray)
        requires
            self.wf(),
            self.shapes@.len() <= usize::MAX,
        ensures
            self.bvhroot.nearest(self.shapes@, ray).hit == scan(
                self.shapes@,
                ray,
                self.shapes@.len(),
            ).hit,
            self.bvhroot.nearest(self.shapes@, ray).t == scan(
                self.shapes@,
                ray,
                self.shapes@.len(),
            ).t,
    {
        lemma_hierarchy_matches_scan(self.bvhroot, self.shapes@, Axis::XAxis, ray);
    }
}

/// How a surface answers light.
#[derive(Clone, Copy, Debug, PartialEq, Eq, Structural)]
pub struct Material {
    /// Share of the ambient light that the surface returns.
    pub amb: Color,
    /// Share of a light's intensity that the surface scatters.
    pub dif: Color,
    /// Share that it mirrors.
    pub spec: Color,
    /// Exponent of the highlight.
    pub ns: Scalar,
    /// Share that passes through.
    pub trs: Color,
    /// Index of refraction.
    pub ior: Scalar,
}

impl Material {
    pub open spec fn spec_new() -> Material {
        Material {
            amb: Color { r: Scalar::one(), g: Scalar::zero(), b: Scalar::zero() },
            dif: Color { r: Scalar::one(), g: Scalar::zero(), b: Scalar::zero() },
            spec: Color { r: Scalar::one(), g: Scalar::one(), b: Scalar::one() },
            ns: Scalar::from_int(16),
            trs: Color { r: Scalar::one(), g: Scalar::one(), b: Scalar::one() },
            ior: Scalar::one(),
        }
    }

    /// The fallback material: red, fully mirroring and fully transparent,
    /// with exponent 16 and index of refraction 1.
    #[verifier::when_used_as_spec(spec_new)]
    pub fn new() -> (m: Material)
        ensures
            m == Material::spec_new(),
    {
        Material {
            amb: Color { r: Scalar::one(), g: Scalar::zero(), b: Scalar::zero() },
            dif: Color { r: Scalar::one(), g: Scalar::zero(), b: Scalar::zero() },
            spec: Color { r: Scalar::one(), g: Scalar::one(), b: Scalar::one() },
            ns: Scalar::from_int(16),
            trs: Color { r: Scalar::one(), g: Scalar::one(), b: Scalar::one() },
            ior: Scalar::one(),
        }
    }
}

/// Why a scene text is refused.
#[derive(Clone, Copy, Debug, PartialEq, Eq, Structural)]
pub enum SceneError {
    /// A line ends before all the values of its command were given.
    Incomplete,
    /// A word that should be a number is none.
    Malformed,
    /// The picture would have more bytes than memory can address.
    TooLarge,
}

/// The text that `bytes` spell, as `String::from_utf8_lossy` reads them.
pub uninterp spec fn lossy_text(bytes: Seq<u8>) -> Seq<char>;

/// `String::from_utf8_lossy`, made an owned string: the text that the bytes
/// spell in UTF-8, with a replacement character for what is not UTF-8.
#[verifier::external_body]
fn text_of(bytes: &[u8]) -> (r: String)
    ensures
        r@ == lossy_text(bytes@),
{
    String::from_utf8_lossy(bytes).into_owned()
}

/// What has been read of a scene text so far.
#[derive(Debug)]
pub struct Draft {
    pub width: u32,
    pub height: u32,
    pub filename: Vec<u8>,
    pub background: Color,
    pub camera: Camera,
    pub shapes: Vec<Shape>,
    pub lights: Vec<LightSource>,
    pub max_depth: u32,
    /// The material of the shapes that follow.
    pub material: Material,
}

/// A draft as a mathematical value.
pub struct DraftView {
    pub width: u32,
    pub height: u32,
    pub filename: Seq<u8>,
    pub background: Color,
    pub camera: Camera,
    pub shapes: Seq<Shape>,
    pub lights: Seq<LightSource>,
    pub max_depth: u32,
    pub material: Material,
}

impl View for Draft {
    type V = DraftView;

    open spec fn view(&self) -> DraftView {
        DraftView {
            width: self.width,
            height: self.height,
            filename: self.filename@,
            background: self.background,
            camera: self.camera,
            shapes: self.shapes@,
            lights: self.lights@,
            max_depth: self.max_depth,
            material: self.material,
        }
    }
}

/// The camera of a scene that names none: at the origin, with the axes of
/// space as its axes and half an opening of a quarter of pi.
pub open spec fn spec_default_camera() -> Camera {
    Camera {
        pos: Vector::new(),
        dir: Vector { x: Scalar::zero(), y: Scalar::zero(), z: Scalar::one().neg() },
        up: Vector { x: Scalar::zero(), y: Scalar::one(), z: Scalar::zero() },
        right: Vector { x: Scalar::one(), y: Scalar::zero(), z: Scalar::zero() },
        ha: Scalar { raw: 785_398 },
    }
}

/// The bytes of the name of the picture of a scene that names none.
pub open spec fn spec_default_filename() -> Seq<u8> {
    "raytraced.png".spec_bytes()
}

/// The draft before anything is read: 640 by 480 pixels, a black
/// background, the default camera, no shapes and no lights, a greatest depth
/// of 5 and the fallback material.
pub open spec fn spec_default_draft() -> DraftView {
    DraftView {
        width: 640,
        height: 480,
        filename: spec_default_filename(),
        background: Color::black(),
        camera: spec_default_camera(),
        shapes: Seq::empty(),
        lights: Seq::empty(),
        max_depth: 5,
        material: Material::new(),
    }
}

/// The next `n` words from `pos` on, read as numbers and added to `acc`. The
/// first word that is missing or is no number decides the error.
pub open spec fn spec_numbers(s: Seq<u8>, pos: int, end: int, n: nat, acc: Seq<Scalar>) -> Result<
    Seq<Scalar>,
    SceneError,
>
    decreases n,
{
    if n == 0 {
        Ok(acc)
    } else {
        match spec_next_word(s, pos, end) {
            None => Err(SceneError::Incomplete),
            Some((a, b)) => match spec_number(s.subrange(a, b)) {
                None => Err(SceneError::Malformed),
                Some(x) => spec_numbers(s, b, end, (n - 1) as nat, acc.push(x)),
            },
        }
    }
}

/// The next `n` words from `pos` on, read as counts and added to `acc`.
pub open spec fn spec_counts(s: Seq<u8>, pos: int, end: int, n: nat, acc: Seq<u32>) -> Result<
    Seq<u32>,
    SceneError,
>
    decreases n,
{
    if n == 0 {
        Ok(acc)
    } else {
        match spec_next_word(s, pos, end) {
            None => Err(SceneError::Incomplete),
            Some((a, b)) => match spec_count(s.subrange(a, b)) {
                None => Err(SceneError::Malformed),
                Some(x) => spec_counts(s, b, end, (n - 1) as nat, acc.push(x)),
            },
        }
    }
}

/// The vector of three numbers in a row, the first at place `i`.
pub open spec fn vector_at(v: Seq<Scalar>, i: int) -> Vector {
    Vector { x: v[i], y: v[i + 1], z: v[i + 2] }
}

/// The colour of three numbers in a row, the first at place `i`.
pub open spec fn color_at(v: Seq<Scalar>, i: int) -> Color {
    Color { r: v[i], g: v[i + 1], b: v[i + 2] }
}

/// The camera that ten numbers describe: a position, the direction of
/// sight, an upward direction, and half the opening angle in degrees. The
/// camera's axis `dir` points against the direction of sight; `right` is
/// across it and the upward direction, `up` across it and `right`; all three
/// are brought to unit length. The angle is kept in radians.
pub open spec fn spec_camera(v: Seq<Scalar>) -> Camera {
    let dir: Vector = vector_at(v, 3).neg();
    let right: Vector = dir.cross(&vector_at(v, 6));
    let up: Vector = dir.cross(&right);
    Camera {
        pos: vector_at(v, 0),
        dir: dir.normalized(),
        up: up.normalized(),
        right: right.normalized(),
        ha: v[9].mul(Scalar::pi()).div(Scalar::from_int(180)),
    }
}

/// Each axis of the camera that ten numbers describe has length one, within
/// a few millionths, unless the vector it is made of is the origin.
pub proof fn lemma_camera_axes(v: Seq<Scalar>)
    ensures
        ({
            let dir: Vector = vector_at(v, 3).neg();
            let right: Vector = dir.cross(&vector_at(v, 6));
            let up: Vector = dir.cross(&right);
            &&& dir.is_not_origin() ==> spec_camera(v).dir.is_unit()
            &&& right.is_not_origin() ==> spec_camera(v).right.is_unit()
            &&& up.is_not_origin() ==> spec_camera(v).up.is_unit()
        }),
{
    let dir: Vector = vector_at(v, 3).neg();
    let right: Vector = dir.cross(&vector_at(v, 6));
    let up: Vector = dir.cross(&right);
    if dir.is_not_origin() {
        dir.lemma_normalized_unit();
    }
    if right.is_not_origin() {
        right.lemma_normalized_unit();
    }
    if up.is_not_origin() {
        up.lemma_normalized_unit();
    }
}

/// The material that fourteen numbers describe: the ambient, diffuse and
/// specular colours, the exponent, the transmission colour and the index of
/// refraction.
pub open spec fn spec_material(v: Seq<Scalar>) -> Material {
    Material {
        amb: color_at(v, 0),
        dif: color_at(v, 3),
        spec: color_at(v, 6),
        ns: v[9],
        trs: color_at(v, 10),
        ior: v[13],
    }
}

/// The draft after the line from `pos` to `end`. The first word of the line
/// names a command, and the words after it are its values; words beyond
/// those are not read. A line without words, and a line whose first word is
/// no command, change nothing.
pub open spec fn spec_apply(d: DraftView, s: Seq<u8>, pos: int, end: int) -> Result<
    DraftView,
    SceneError,
> {
    match spec_next_word(s, pos, end) {
        None => Ok(d),
        Some((a, b)) => {
            let word: Seq<u8> = s.subrange(a, b);
            if word == "resolution".spec_bytes() {
                match spec_counts(s, b, end, 2, Seq::empty()) {
                    Ok(v) => Ok(DraftView { width: v[0], height: v[1], ..d }),
                    Err(e) => Err(e),
                }
            } else if word == "filename".spec_bytes() {
                match spec_next_word(s, b, end) {
                    Some((from, to)) => Ok(DraftView { filename: s.subrange(from, to), ..d }),
                    None => Err(SceneError::Incomplete),
                }
            } else if word == "sphere".spec_bytes() {
                match spec_numbers(s, b, end, 4, Seq::empty()) {
                    Ok(v) => Ok(
                        DraftView {
                            shapes: d.shapes.push(
                                Shape::Sphere(
                                    Sphere { pos: vector_at(v, 0), r: v[3], mat: d.material },
                                ),
                            ),
                            ..d
                        },
                    ),
                    Err(e) => Err(e),
                }
            } else if word == "background".spec_bytes() {
                match spec_numbers(s, b, end, 3, Seq::empty()) {
                    Ok(v) => Ok(DraftView { background: color_at(v, 0), ..d }),
                    Err(e) => Err(e),
                }
            } else if word == "camera".spec_bytes() {
                match spec_numbers(s, b, end, 10, Seq::empty()) {
                    Ok(v) => Ok(DraftView { camera: spec_camera(v), ..d }),
                    Err(e) => Err(e),
                }
            } else if word == "max_depth".spec_bytes() {
                match spec_counts(s, b, end, 1, Seq::empty()) {
                    Ok(v) => Ok(DraftView { max_depth: v[0], ..d }),
                    Err(e) => Err(e),
                }
            } else if word == "material".spec_bytes() {
                match spec_numbers(s, b, end, 14, Seq::empty()) {
                    Ok(v) => Ok(DraftView { material: spec_material(v), ..d }),
                    Err(e) => Err(e),
                }
            } else if word == "point_light".spec_bytes() {
                match spec_numbers(s, b, end, 6, Seq::empty()) {
                    Ok(v) => Ok(
                        DraftView {
                            lights: d.lights.push(
                                LightSource::Point(
                                    PointLight { pos: vector_at(v, 3), intensity: color_at(v, 0) },
                                ),
                            ),
                            ..d
                        },
                    ),
                    Err(e) => Err(e),
                }
            } else {
                Ok(d)
            }
        },
    }
}

/// The draft after all the lines from `pos` on, or the error of the first
/// line that has one.
pub open spec fn spec_load_from(d: DraftView, s: Seq<u8>, pos: int) -> Result<
    DraftView,
    SceneError,
>
    decreases s.len() - pos,
{
    if 0 <= pos < s.len() {
        let end: int = spec_line_end(s, pos);
        match spec_apply(d, s, pos, end) {
            Err(e) => Err(e),
            Ok(after) => if pos <= end < s.len() {
                spec_load_from(after, s, end + 1)
            } else {
                Ok(after)
            },
        }
    } else {
        Ok(d)
    }
}

/// What a scene text describes.
pub open spec fn spec_load(s: Seq<u8>) -> Result<DraftView, SceneError> {
    spec_load_from(spec_default_draft(), s, 0)
}

/// The plane of pixels for a picture of the given size and a camera of half
/// the opening `ha`: centred on the camera's axis, and so far from the eye
/// that the picture's height fills the opening.
pub open spec fn spec_canvas(width: u32, height: u32, ha: Scalar) -> Canvas {
    let two: Scalar = Scalar::from_int(2);
    Canvas {
        left: Scalar::from_int(width as i64).neg().div(two),
        bottom: Scalar::from_int(height as i64).neg().div(two),
        depth: Scalar::from_int(height as i64).div(two.mul(ha.tan())),
    }
}

/// The ambient light of a scene: a quarter in each channel.
pub open spec fn spec_ambient() -> Color {
    Color { r: Scalar { raw: 250_000 }, g: Scalar { raw: 250_000 }, b: Scalar { raw: 250_000 } }
}

fn numbers(s: &[u8], pos: usize, end: usize, n: usize) -> (r: Result<Vec<Scalar>, SceneError>)
    requires
        pos <= end <= s@.len(),
    ensures
        match r {
            Ok(v) => spec_numbers(s@, pos as int, end as int, n as nat, Seq::empty()) == Ok::<
                Seq<Scalar>,
                SceneError,
            >(v@) && v@.len() == n,
            Err(e) => spec_numbers(s@, pos as int, end as int, n as nat, Seq::empty()) == Err::<
                Seq<Scalar>,
                SceneError,
            >(e),
        },
{
    let mut out: Vec<Scalar> = Vec::new();
    let mut at: usize = pos;
    let mut k: usize = 0;
    while k < n
        invariant
            k <= n,
            pos <= at <= end <= s@.len(),
            out@.len() == k,
            spec_numbers(s@, pos as int, end as int, n as nat, Seq::empty()) == spec_numbers(
                s@,
                at as int,
                end as int,
                (n - k) as nat,
                out@,
            ),
        decreases n - k,
    {
        match next_word(s, at, end) {
            None => {
                return Err(SceneError::Incomplete);
            },
            Some((a, b)) => {
                match number(s, a, b) {
                    None => {
                        return Err(SceneError::Malformed);
                    },
                    Some(x) => {
                        out.push(x);
                        at = b;
                    },
                }
            },
        }
        k = k + 1;
    }
    Ok(out)
}

fn counts(s: &[u8], pos: usize, end: usize, n: usize) -> (r: Result<Vec<u32>, SceneError>)
    requires
        pos <= end <= s@.len(),
    ensures
        match r {
            Ok(v) => spec_counts(s@, pos as int, end as int, n as nat, Seq::empty()) == Ok::<
                Seq<u32>,
                SceneError,
            >(v@) && v@.len() == n,
            Err(e) => spec_counts(s@, pos as int, end as int, n as nat, Seq::empty()) == Err::<
                Seq<u32>,
                SceneError,
            >(e),
        },
{
    let mut out: Vec<u32> = Vec::new();
    let mut at: usize = pos;
    let mut k: usize = 0;
    while k < n
        invariant
            k <= n,
            pos <= at <= end <= s@.len(),
            out@.len() == k,
            spec_counts(s@, pos as int, end as int, n as nat, Seq::empty()) == spec_counts(
                s@,
                at as int,
                end as int,
                (n - k) as nat,
                out@,
            ),
        decreases n - k,
    {
        match next_word(s, at, end) {
            None => {
                return Err(SceneError::Incomplete);
            },
            Some((a, b)) => {
                match count(s, a, b) {
                    None => {
                        return Err(SceneError::Malformed);
                    },
                    Some(x) => {
                        out.push(x);
                        at = b;
                    },
                }
            },
        }
        k = k + 1;
    }
    Ok(out)
}

fn copy_bytes(s: &[u8], from: usize, to: usize) -> (r: Vec<u8>)
    requires
        from <= to <= s@.len(),
    ensures
        r@ == s@.subrange(from as int, to as int),
{
    let mut out: Vec<u8> = Vec::new();
    let mut k: usize = from;
    while k < to
        invariant
            from <= k <= to <= s@.len(),
            out@ == s@.subrange(from as int, k as int),
        decreases to - k,
    {
        out.push(s[k]);
        proof {
            assert(s@.subrange(from as int, k + 1) =~= s@.subrange(from as int, k as int).push(
                s@[k as int],
            ));
        }
        k = k + 1;
    }
    out
}

fn vector_from(v: &Vec<Scalar>, i: usize) -> (r: Vector)
    requires
        i < 100,
        i + 2 < v@.len(),
    ensures
        r == vector_at(v@, i as int),
{
    Vector { x: v[i], y: v[i + 1], z: v[i + 2] }
}

fn color_from(v: &Vec<Scalar>, i: usize) -> (r: Color)
    requires
        i < 100,
        i + 2 < v@.len(),
    ensures
        r == color_at(v@, i as int),
{
    Color { r: v[i], g: v[i + 1], b: v[i + 2] }
}

fn camera_from(v: &Vec<Scalar>) -> (r: Camera)
    requires
        v@.len() == 10,
    ensures
        r == spec_camera(v@),
{
    let pos: Vector = vector_from(v, 0);
    let mut dir: Vector = vector_from(v, 3).neg();
    let mut up: Vector = vector_from(v, 6);
    let mut right: Vector = dir.cross(&up);
    up = dir.cross(&right);
    dir.normalize();
    up.normalize();
    right.normalize();
    let ha: Scalar = v[9].mul(Scalar::pi()).div(Scalar::from_int(180));
    Camera { pos, dir, up, right, ha }
}

fn material_from(v: &Vec<Scalar>) -> (r: Material)
    requires
        v@.len() == 14,
    ensures
        r == spec_material(v@),
{
    Material {
        amb: color_from(v, 0),
        dif: color_from(v, 3),
        spec: color_from(v, 6),
        ns: v[9],
        trs: color_from(v, 10),
        ior: v[13],
    }
}

impl Draft {
    /// The draft before anything is read.
    pub fn new() -> (d: Draft)
        ensures
            d@ == spec_default_draft(),
    {
        Draft {
            width: 640,
            height: 480,
            filename: "raytraced.png".as_bytes_vec(),
            background: Color::new(Scalar::zero(), Scalar::zero(), Scalar::zero()),
            camera: Camera {
                pos: Vector::new(),
                dir: Vector { x: Scalar::zero(), y: Scalar::zero(), z: Scalar::one().neg() },
                up: Vector { x: Scalar::zero(), y: Scalar::one(), z: Scalar::zero() },
                right: Vector { x: Scalar::one(), y: Scalar::zero(), z: Scalar::zero() },
                ha: Scalar { raw: 785_398 },
            },
            shapes: Vec::new(),
            lights: Vec::new(),
            max_depth: 5,
            material: Material::new(),
        }
    }

    /// Reads the line from `pos` to `end` into the draft.
    pub fn apply(&mut self, s: &[u8], pos: usize, end: usize) -> (r: Result<(), SceneError>)
        requires
            pos <= end <= s@.len(),
        ensures
            match r {
                Ok(_) => spec_apply(old(self)@, s@, pos as int, end as int) == Ok::<
                    DraftView,
                    SceneError,
                >(final(self)@),
                Err(e) => spec_apply(old(self)@, s@, pos as int, end as int) == Err::<
                    DraftView,
                    SceneError,
                >(e),
            },
    {
        let (a, b) = match next_word(s, pos, end) {
            None => {
                return Ok(());
            },
            Some(word) => word,
        };
        if spells(s, a, b, "resolution") {
            let v: Vec<u32> = counts(s, b, end, 2)?;
            self.width = v[0];
            self.height = v[1];
        } else if spells(s, a, b, "filename") {
            match next_word(s, b, end) {
                Some((from, to)) => {
                    self.filename = copy_bytes(s, from, to);
                },
                None => {
                    return Err(SceneError::Incomplete);
                },
            }
        } else if spells(s, a, b, "sphere") {
            let v: Vec<Scalar> = numbers(s, b, end, 4)?;
            let sphere: Sphere = Sphere { pos: vector_from(&v, 0), r: v[3], mat: self.material };
            self.shapes.push(Shape::Sphere(sphere));
        } else if spells(s, a, b, "background") {
            let v: Vec<Scalar> = numbers(s, b, end, 3)?;
            self.background = color_from(&v, 0);
        } else if spells(s, a, b, "camera") {
            let v: Vec<Scalar> = numbers(s, b, end, 10)?;
            self.camera = camera_from(&v);
        } else if spells(s, a, b, "max_depth") {
            let v: Vec<u32> = counts(s, b, end, 1)?;
            self.max_depth = v[0];
        } else if spells(s, a, b, "material") {
            let v: Vec<Scalar> = numbers(s, b, end, 14)?;
            self.material = material_from(&v);
        } else if spells(s, a, b, "point_light") {
            let v: Vec<Scalar> = numbers(s, b, end, 6)?;
            let light: PointLight = PointLight {
                pos: vector_from(&v, 3),
                intensity: color_from(&v, 0),
            };
            self.lights.push(LightSource::Point(light));
        }
        Ok(())
    }

    /// Reads a scene text: what it describes, or why it is refused.
    pub fn load(s: &[u8]) -> (r: Result<Draft, SceneError>)
        ensures
            match r {
                Ok(d) => spec_load(s@) == Ok::<DraftView, SceneError>(d@),
                Err(e) => spec_load(s@) == Err::<DraftView, SceneError>(e),
            },
    {
        let mut draft: Draft = Draft::new();
        let mut pos: usize = 0;
        while pos < s.len()
            invariant
                pos <= s@.len(),
                spec_load(s@) == spec_load_from(draft@, s@, pos as int),
            decreases s@.len() - pos,
        {
            let end: usize = line_end(s, pos);
            match draft.apply(s, pos, end) {
                Err(e) => {
                    return Err(e);
                },
                Ok(_) => {},
            }
            if end == s.len() {
                return Ok(draft);
            }
            pos = end + 1;
        }
        Ok(draft)
    }
}

impl Scene {
    /// Whether the scene is the one that a draft describes: the draft's
    /// picture size, name, background, camera, shapes, lights and greatest
    /// depth, the canvas for that size and camera, and the default ambient
    /// light.
    pub open spec fn describes(&self, d: DraftView) -> bool {
        &&& self.width == d.width
        &&& self.height == d.height
        &&& self.filename@ == lossy_text(d.filename)
        &&& self.background == d.background
        &&& self.camera == d.camera
        &&& self.canvas == spec_canvas(d.width, d.height, d.camera.ha)
        &&& self.ambient_light == spec_ambient()
        &&& self.shapes@ == d.shapes
        &&& self.lights@ == d.lights
        &&& self.max_depth == d.max_depth
    }

    /// The scene that a draft describes, with the hierarchy over its shapes.
    pub fn from_draft(draft: Draft) -> (scene: Scene)
        ensures
            scene.describes(draft@),
            scene.wf(),
    {
        let two: Scalar = Scalar::from_int(2);
        let canvas: Canvas = Canvas {
            left: Scalar::from_int(draft.width as i64).neg().div(two),
            bottom: Scalar::from_int(draft.height as i64).neg().div(two),
            depth: Scalar::from_int(draft.height as i64).div(two.mul(draft.camera.ha.tan())),
        };
        let quarter: Scalar = Scalar { raw: 250_000 };
        let bvhroot: BVHNode = BVHNode::new(&draft.shapes, Axis::XAxis);
        Scene {
            width: draft.width,
            height: draft.height,
            filename: text_of(draft.filename.as_slice()),
            background: draft.background,
            camera: draft.camera,
            canvas,
            ambient_light: Color::new(quarter, quarter, quarter),
            shapes: draft.shapes,
            lights: draft.lights,
            max_depth: draft.max_depth,
            bvhroot,
        }
    }

    /// Reads a scene text and builds the scene that it describes, or says why
    /// the text is refused. A value is a decimal numeral with an optional
    /// sign and an optional fraction; a word with an exponent, `inf` or `nan`
    /// where a value should stand is refused as malformed. The hierarchy of
    /// the scene answers every ray as a scan of its shapes does.
    pub fn new(scene_text: &[u8]) -> (r: Result<Scene, SceneError>)
        ensures
            match r {
                Ok(scene) => spec_load(scene_text@) matches Ok(d) && scene.describes(d)
                    && scene.wf(),
                Err(e) => spec_load(scene_text@) == Err::<DraftView, SceneError>(e),
            },
    {
        match Draft::load(scene_text) {
            Ok(draft) => Ok(Scene::from_draft(draft)),
            Err(e) => Err(e),
        }
    }
}

} // verus!
