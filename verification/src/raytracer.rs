//! The recursive evaluation of rays: what colour arrives along each one.
use crate::bvh::{reports, scan};
use crate::color::{channel_byte, Color};
use crate::intersect::{Hit, Intersect, Shape};
use crate::light::{Light, LightSource};
use crate::math::ray::Ray;
use crate::math::scalar::Scalar;
use crate::math::vector::Vector;
use crate::picture::{picture_height, picture_width, spec_pixel_at, whole, Picture};
use crate::scene::{spec_load, DraftView, Material, Scene, SceneError};
use vstd::prelude::*;

verus! {

/// How many more levels of rays may be shaded at `depth`, the camera's rays
/// being at depth 0: `max_depth + 1 - depth`, and none beyond.
pub open spec fn budget(max_depth: u32, depth: nat) -> nat {
    if depth > max_depth {
        0
    } else {
        (max_depth + 1 - depth) as nat
    }
}

/// The direction of the ray that passes through a surface with normal `n`
/// and index of refraction `ior`, seen from the unit direction `v`, by
/// Snell's law; `None` where the ray is reflected totally. A ray on the side
/// of the normal enters the solid, from index 1 to `ior`; a ray on the other
/// side leaves it, from `ior` to 1, and the normal is turned.
pub open spec fn spec_refract(v: Vector, n: Vector, ior: Scalar) -> Option<Vector> {
    let d: Vector = v.neg();
    let entering: bool = v.dot(&n)@ > 0;
    let ior_i: Scalar = if entering {
        Scalar::one()
    } else {
        ior
    };
    let ior_r: Scalar = if entering {
        ior
    } else {
        Scalar::one()
    };
    let m: Vector = if entering {
        n
    } else {
        n.neg()
    };
    let cos: Scalar = d.dot(&m);
    let k: Scalar = Scalar::one().sub(
        ior_i.mul(ior_i).mul(Scalar::one().sub(cos.mul(cos))).div(ior_r.mul(ior_r)),
    );
    if k@ < 0 {
        None
    } else {
        Some(d.sub(m.mul(cos)).mul(ior_i).div(ior_r).sub(m.mul(k.sqrt())))
    }
}

/// The direction of the refracted ray, unless the ray is reflected totally.
pub fn refract(v: Vector, n: Vector, ior: Scalar) -> (r: Option<Vector>)
    ensures
        r == spec_refract(v, n, ior),
{
    let d: Vector = v.neg();
    let ior_i: Scalar;
    let ior_r: Scalar;
    let m: Vector;
    if v.dot(&n).raw > 0 {
        ior_i = Scalar::one();
        ior_r = ior;
        m = n;
    } else {
        ior_i = ior;
        ior_r = Scalar::one();
        m = n.neg();
    }
    let cos: Scalar = d.dot(&m);
    let k: Scalar = Scalar::one().sub(
        ior_i.mul(ior_i).mul(Scalar::one().sub(cos.mul(cos))).div(ior_r.mul(ior_r)),
    );
    if k.raw < 0 {
        None
    } else {
        Some(d.sub(m.mul(cos)).mul(ior_i).div(ior_r).sub(m.mul(k.sqrt())))
    }
}

/// Renders one scene.
#[derive(Debug)]
pub struct Raytracer {
    pub scene: Scene,
}

impl Raytracer {
    /// The scene is well formed.
    pub open spec fn wf(&self) -> bool {
        self.scene.wf()
    }

    /// The ray from the eye through the middle of the pixel in column `x` and
    /// row `y`.
    pub open spec fn spec_ray_through_canvas(&self, x: Scalar, y: Scalar) -> Ray {
        let half: Scalar = Scalar { raw: 500_000 };
        let u: Scalar = self.scene.canvas.left.add(x).add(half);
        let v: Scalar = self.scene.canvas.bottom.add(y).add(half);
        let dir: Vector = self.scene.camera.right.mul(u).add(self.scene.camera.up.mul(v)).sub(
            self.scene.camera.dir.mul(self.scene.canvas.depth),
        );
        Ray { pos: self.scene.camera.pos, dir: dir.normalized() }
    }

    /// What a query of the scene's hierarchy reports for `ray`.
    pub open spec fn spec_ray_intersection(&self, ray: Ray) -> Hit {
        self.scene.bvhroot.nearest(self.scene.shapes@, ray)
    }

    /// The colour of a ray that meets nothing or is too deep to be shaded:
    /// the background for a ray from the camera, black for every other.
    pub open spec fn lost(&self, depth: nat) -> Color {
        if depth == 0 {
            self.scene.background
        } else {
            Color::black()
        }
    }

    /// Whether something stands between `point_hit` and the light: the ray
    /// toward the light meets a shape, and meets it nearer than the light
    /// is. A light without a place is farther than every shape.
    pub open spec fn spec_shadowed(&self, light: LightSource, point_hit: Vector) -> bool {
        let shadow: Ray = Ray { pos: point_hit, dir: light.spec_l(point_hit) };
        let shadow_hit: Hit = self.spec_ray_intersection(shadow);
        shadow_hit.hit && match light.spec_distance(point_hit) {
            None => true,
            Some(d) => shadow.find_point(shadow_hit.t).sub(point_hit).magnitude()@ < d@,
        }
    }

    /// `base` and what the first `k` lights add to it at `point_hit` on
    /// `shape`: for each light that is not shadowed, its diffuse and its
    /// specular part.
    pub open spec fn lit(&self, base: Color, point_hit: Vector, v: Vector, shape: Shape, k: nat)
        -> Color
        decreases k,
    {
        if k == 0 {
            base
        } else {
            let before: Color = self.lit(base, point_hit, v, shape, (k - 1) as nat);
            let light: LightSource = self.scene.lights[k - 1];
            if self.spec_shadowed(light, point_hit) {
                before
            } else {
                before.add(
                    light.spec_diffuse(point_hit, v, &shape).add(
                        light.spec_specular(point_hit, v, &shape, self.scene.camera.pos),
                    ),
                )
            }
        }
    }

    /// The colour that arrives along `ray` at `depth`: that of the nearest
    /// surface it meets, as long as `depth` does not exceed the scene's
    /// greatest depth, and else that of a lost ray.
    pub open spec fn radiance(&self, ray: Ray, depth: nat) -> Color
        decreases budget(self.scene.max_depth, depth), 1nat,
    {
        let hit: Hit = self.spec_ray_intersection(ray);
        if depth <= self.scene.max_depth && hit.hit && hit.shape is Some && hit.shape.unwrap()
            < self.scene.shapes@.len() {
            self.shade(hit, depth + 1)
        } else {
            self.lost(depth)
        }
    }

    /// The colour of the surface that `hit` names: the ambient part, what the
    /// lights add, for a mirroring material the specular colour times what
    /// arrives along the ray in which the incoming direction leaves, and for a transparent material the
    /// transmission colour times what arrives along the refracted ray. The
    /// rays that leave the surface are at `depth`.
    pub open spec fn shade(&self, hit: Hit, depth: nat) -> Color
        decreases budget(self.scene.max_depth, depth) + 1, 0nat,
    {
        let shape: Shape = self.scene.shapes@[hit.shape.unwrap() as int];
        let mat: Material = shape.spec_material();
        let point_hit: Vector = hit.ray.find_point(hit.t);
        let v: Vector = hit.ray.pos.sub(point_hit).normalized();
        let n: Vector = shape.spec_normal(point_hit, v);
        let ambient: Color = Color::black().add(mat.amb.mul_color(self.scene.ambient_light));
        let local: Color = self.lit(ambient, point_hit, v, shape, self.scene.lights@.len());
        let mirrored: Color = if mat.spec.is_not_black() {
            local.add(
                mat.spec.mul_color(
                    self.radiance(Ray { pos: point_hit, dir: v.neg().reflect(&n) }, depth),
                ),
            )
        } else {
            local
        };
        if mat.trs.is_not_black() {
            match spec_refract(v, n, mat.ior) {
                Some(dir) => mirrored.add(
                    mat.trs.mul_color(self.radiance(Ray { pos: point_hit, dir }, depth)),
                ),
                None => mirrored,
            }
        } else {
            mirrored
        }
    }

    /// Reads a scene text and makes the renderer of the scene that it
    /// describes, or says why the text is refused.
    pub fn new(scene_text: &[u8]) -> (r: Result<Raytracer, SceneError>)
        ensures
            match r {
                Ok(rt) => spec_load(scene_text@) matches Ok(d) && rt.scene.describes(d) && rt.wf(),
                Err(e) => spec_load(scene_text@) == Err::<DraftView, SceneError>(e),
            },
    {
        match Scene::new(scene_text) {
            Ok(scene) => Ok(Raytracer { scene }),
            Err(e) => Err(e),
        }
    }

    /// No ray deeper than the scene's greatest depth is shaded: it brings
    /// black, whatever lies along it. With two mirrors face to face the
    /// rays between them end there.
    pub proof fn lemma_depth_limit(&self, ray: Ray, depth: nat)
        requires
            depth > self.scene.max_depth,
        ensures
            self.radiance(ray, depth) == Color::black(),
    {
    }

    /// A ray that meets nothing brings the background where it comes from
    /// the camera, and black everywhere else.
    pub proof fn lemma_lost(&self, ray: Ray, depth: nat)
        requires
            !self.spec_ray_intersection(ray).hit,
        ensures
            depth == 0 ==> self.radiance(ray, depth) == self.scene.background,
            depth > 0 ==> self.radiance(ray, depth) == Color::black(),
    {
    }

    /// A light that is shadowed at a point adds nothing there, and one that
    /// is not adds its diffuse and its specular part.
    pub proof fn lemma_shadow(&self, base: Color, point_hit: Vector, v: Vector, shape: Shape, k: nat)
        requires
            k < self.scene.lights@.len(),
        ensures
            self.spec_shadowed(self.scene.lights@[k as int], point_hit) ==> self.lit(
                base,
                point_hit,
                v,
                shape,
                k + 1,
            ) == self.lit(base, point_hit, v, shape, k),
            !self.spec_shadowed(self.scene.lights@[k as int], point_hit) ==> self.lit(
                base,
                point_hit,
                v,
                shape,
                k + 1,
            ) == self.lit(base, point_hit, v, shape, k).add(
                self.scene.lights@[k as int].spec_diffuse(point_hit, v, &shape).add(
                    self.scene.lights@[k as int].spec_specular(
                        point_hit,
                        v,
                        &shape,
                        self.scene.camera.pos,
                    ),
                ),
            ),
    {
    }

    /// A light that is not shadowed at a point makes the colour there
    /// brighter in every channel in which its diffuse and specular parts
    /// together are positive, unless the sum saturates. In millionths the
    /// parts of a distant or weak light can round to zero, and then it adds
    /// nothing.
    pub proof fn lemma_light_adds(
        &self,
        base: Color,
        point_hit: Vector,
        v: Vector,
        shape: Shape,
        k: nat,
    )
        requires
            k < self.scene.lights@.len(),
            !self.spec_shadowed(self.scene.lights@[k as int], point_hit),
        ensures
            ({
                let before: Color = self.lit(base, point_hit, v, shape, k);
                let after: Color = self.lit(base, point_hit, v, shape, k + 1);
                let light: LightSource = self.scene.lights@[k as int];
                let part: Color = light.spec_diffuse(point_hit, v, &shape).add(
                    light.spec_specular(point_hit, v, &shape, self.scene.camera.pos),
                );
                &&& after == before.add(part)
                &&& part.r@ > 0 && before.r.sum_fits(part.r) ==> after.r@ > before.r@
                &&& part.g@ > 0 && before.g.sum_fits(part.g) ==> after.g@ > before.g@
                &&& part.b@ > 0 && before.b.sum_fits(part.b) ==> after.b@ > before.b@
            }),
    {
    }

    /// The ray from the eye through the middle of the pixel in column `x` and
    /// row `y`.
    pub fn get_ray_through_canvas(&self, x: Scalar, y: Scalar) -> (ray: Ray)
        ensures
            ray == self.spec_ray_through_canvas(x, y),
    {
        let half: Scalar = Scalar { raw: 500_000 };
        let u: Scalar = self.scene.canvas.left.add(x).add(half);
        let v: Scalar = self.scene.canvas.bottom.add(y).add(half);
        let mut dir: Vector = self.scene.camera.right.mul(u).add(self.scene.camera.up.mul(v)).sub(
            self.scene.camera.dir.mul(self.scene.canvas.depth),
        );
        dir.normalize();
        Ray { pos: self.scene.camera.pos, dir }
    }

    /// The nearest intersection of `ray` with the scene: what the hierarchy
    /// reports. It is no intersection, or names a shape of the scene that the
    /// ray meets at the reported parameter, strictly between the two bounds.
    /// A scan of all the shapes reports the same: an intersection or none,
    /// and the same parameter.
    pub fn get_ray_intersection(&self, ray: Ray) -> (h: Hit)
        requires
            self.wf(),
        ensures
            h == self.spec_ray_intersection(ray),
            reports(h, self.scene.shapes@, ray),
            h.wf(),
            h.hit == scan(self.scene.shapes@, ray, self.scene.shapes@.len()).hit,
            h.t == scan(self.scene.shapes@, ray, self.scene.shapes@.len()).t,
    {
        let count: usize = self.scene.shapes.len();
        proof {
            self.scene.lemma_wf();
            crate::bvh::lemma_hierarchy_matches_scan(
                self.scene.bvhroot,
                self.scene.shapes@,
                crate::bvh::Axis::XAxis,
                ray,
            );
            self.scene.bvhroot.lemma_reports(self.scene.shapes@, ray);
        }
        self.scene.bvhroot.get_ray_intersection(&self.scene.shapes, ray)
    }

    /// Whether something stands between `point_hit` and `light`.
    pub fn shadowed(&self, light: &LightSource, point_hit: Vector) -> (r: bool)
        requires
            self.wf(),
        ensures
            r == self.spec_shadowed(*light, point_hit),
    {
        let l: Vector = light.l(point_hit);
        let shadow: Ray = Ray { pos: point_hit, dir: l };
        let shadow_hit: Hit = self.get_ray_intersection(shadow);
        if shadow_hit.hit {
            match light.distance(point_hit) {
                None => true,
                Some(d) => {
                    let p: Vector = shadow_hit.ray.find_point(shadow_hit.t);
                    p.sub(point_hit).magnitude().raw < d.raw
                },
            }
        } else {
            false
        }
    }

    /// The colour that arrives along `ray`, a ray at `current_depth`.
    pub fn evaluate_ray_tree(&self, ray: Ray, current_depth: u64) -> (c: Color)
        requires
            self.wf(),
        ensures
            c == self.radiance(ray, current_depth as nat),
        decreases budget(self.scene.max_depth, current_depth as nat), 1nat,
    {
        if current_depth > self.scene.max_depth as u64 {
            return if current_depth == 0 {
                self.scene.background
            } else {
                Color::new(Scalar::zero(), Scalar::zero(), Scalar::zero())
            };
        }
        let hit: Hit = self.get_ray_intersection(ray);
        if hit.hit {
            self.apply_lighting_model(hit, current_depth + 1)
        } else if current_depth == 0 {
            self.scene.background
        } else {
            Color::new(Scalar::zero(), Scalar::zero(), Scalar::zero())
        }
    }

    /// The colour of the surface that `hit` names; the rays that leave it
    /// are at `current_depth`.
    pub fn apply_lighting_model(&self, hit: Hit, current_depth: u64) -> (c: Color)
        requires
            self.wf(),
            hit.hit,
            hit.shape matches Some(i) && i < self.scene.shapes@.len(),
            current_depth <= u32::MAX as u64 + 1,
        ensures
            c == self.shade(hit, current_depth as nat),
        decreases budget(self.scene.max_depth, current_depth as nat) + 1, 0nat,
    {
        let mut color: Color = Color::new(Scalar::zero(), Scalar::zero(), Scalar::zero());
        let shape: &Shape = &self.scene.shapes[hit.shape.unwrap()];
        let mat: Material = shape.get_material();

        color.add_assign(mat.amb.mul_color(self.scene.ambient_light));

        let point_hit: Vector = hit.ray.find_point(hit.t);
        let v: Vector = hit.ray.pos.sub(point_hit).normalized();
        let n: Vector = shape.surface_normal(point_hit, v);

        let ghost ambient: Color = color;
        let mut k: usize = 0;
        while k < self.scene.lights.len()
            invariant
                self.wf(),
                k <= self.scene.lights@.len(),
                color == self.lit(ambient, point_hit, v, *shape, k as nat),
            decreases self.scene.lights@.len() - k,
        {
            let light: &LightSource = &self.scene.lights[k];
            k = k + 1;
            let diff: Color = light.compute_diffuse_component(point_hit, v, shape);
            let spec: Color = light.compute_specular_component(
                point_hit,
                v,
                shape,
                self.scene.camera.pos,
            );
            if self.shadowed(light, point_hit) {
                continue ;
            }
            color.add_assign(diff.add(spec));
        }

        if mat.spec.is_not_black() {
            let reflect: Ray = Ray { pos: point_hit, dir: v.neg().reflect(&n) };
            color.add_assign(mat.spec.mul_color(self.evaluate_ray_tree(reflect, current_depth)));
        }
        if mat.trs.is_not_black() {
            match refract(v, n, mat.ior) {
                Some(dir) => {
                    let refracted: Ray = Ray { pos: point_hit, dir };
                    color.add_assign(
                        mat.trs.mul_color(self.evaluate_ray_tree(refracted, current_depth)),
                    );
                },
                None => {},
            }
        }
        color
    }

    /// The bytes of the pixel in column `x` and row `y` of the rendering.
    pub open spec fn spec_pixel(&self, x: u32, y: u32) -> (u8, u8, u8) {
        let c: Color = self.radiance(
            self.spec_ray_through_canvas(Scalar::from_int(x as i64), Scalar::from_int(y as i64)),
            0,
        );
        (channel_byte(c.r), channel_byte(c.g), channel_byte(c.b))
    }

    /// Whether a buffer for the scene's width and height fits in memory.
    pub open spec fn fits(&self) -> bool {
        3 * self.scene.width * self.scene.height <= isize::MAX
    }

    /// Renders the scene: a picture of the scene's width and height in which
    /// each pixel holds the bytes of the colour that arrives along the ray
    /// through its middle.
    pub fn run(&self) -> (img: Picture)
        requires
            self.wf(),
            self.fits(),
        ensures
            picture_width(img) == self.scene.width,
            picture_height(img) == self.scene.height,
            whole(img),
            forall|x: u32, y: u32|
                #![trigger self.spec_pixel(x, y)]
                x < self.scene.width && y < self.scene.height ==> spec_pixel_at(
                    img,
                    x as int,
                    y as int,
                ) == self.spec_pixel(x, y),
    {
        let width: u32 = self.scene.width;
        let height: u32 = self.scene.height;
        let mut i: Picture = Picture::new(width, height);
        let mut y: u32 = 0;
        while y < height
            invariant
                self.wf(),
                width == self.scene.width,
                height == self.scene.height,
                y <= height,
                picture_width(i) == width,
                picture_height(i) == height,
                whole(i),
                forall|px: u32, py: u32|
                    #![trigger self.spec_pixel(px, py)]
                    px < width && py < y ==> spec_pixel_at(i, px as int, py as int)
                        == self.spec_pixel(px, py),
            decreases height - y,
        {
            let mut x: u32 = 0;
            while x < width
                invariant
                    self.wf(),
                    width == self.scene.width,
                    height == self.scene.height,
                    y < height,
                    x <= width,
                    picture_width(i) == width,
                    picture_height(i) == height,
                    whole(i),
                    forall|px: u32, py: u32|
                        #![trigger self.spec_pixel(px, py)]
                        px < width && py < y ==> spec_pixel_at(i, px as int, py as int)
                            == self.spec_pixel(px, py),
                    forall|px: u32|
                        #![trigger self.spec_pixel(px, y)]
                        px < x ==> spec_pixel_at(i, px as int, y as int) == self.spec_pixel(px, y),
                decreases width - x,
            {
                let color: Color = self.get_color_for_pixel(
                    Scalar::from_int(x as i64),
                    Scalar::from_int(y as i64),
                );
                let bytes: [u8; 3] = color.to_u8_array();
                let ghost before: Picture = i;
                i.set(x, y, bytes);
                proof {
                    assert forall|px: u32, py: u32|
                        #![trigger self.spec_pixel(px, py)]
                        px < width && py < y implies spec_pixel_at(i, px as int, py as int)
                        == self.spec_pixel(px, py) by {
                        assert(spec_pixel_at(before, px as int, py as int) == self.spec_pixel(
                            px,
                            py,
                        ));
                    }
                    assert forall|px: u32|
                        #![trigger self.spec_pixel(px, y)]
                        px < x + 1 implies spec_pixel_at(i, px as int, y as int)
                        == self.spec_pixel(px, y) by {
                        if px < x {
                            assert(spec_pixel_at(before, px as int, y as int) == self.spec_pixel(
                                px,
                                y,
                            ));
                        }
                    }
                }
                x = x + 1;
            }
            y = y + 1;
        }
        i
    }

    /// The colour of the pixel in column `x` and row `y`.
    pub fn get_color_for_pixel(&self, x: Scalar, y: Scalar) -> (c: Color)
        requires
            self.wf(),
        ensures
            c == self.radiance(self.spec_ray_through_canvas(x, y), 0),
    {
        let r: Ray = self.get_ray_through_canvas(x, y);
        self.evaluate_ray_tree(r, 0)
    }
}

/// Whether a picture of the given size has no more bytes than memory can
/// address.
pub fn picture_fits(width: u32, height: u32) -> (r: bool)
    ensures
        r == (3 * width * height <= isize::MAX),
{
    assert(0 <= width * height <= 0xffff_ffff * 0xffff_ffff) by (nonlinear_arith)
        requires
            0 <= width <= 0xffff_ffff,
            0 <= height <= 0xffff_ffff,
    ;
    let bytes: u128 = 3 * ((width as u128) * (height as u128));
    assert(3 * (width * height) == 3 * width * height) by (nonlinear_arith);
    bytes <= isize::MAX as u128
}

/// Renders the scene that a scene text describes. The result is the renderer
/// with its scene, and the picture: of the scene's width and height, each
/// pixel holding the bytes of the colour that arrives along the ray through
/// its middle. A text that is refused, and a picture too large for memory,
/// give an error and no picture.
pub fn run(scene_text: &[u8]) -> (r: Result<(Raytracer, Picture), SceneError>)
    ensures
        match r {
            Ok((rt, img)) => {
                &&& spec_load(scene_text@) matches Ok(d) && rt.scene.describes(d)
                &&& rt.wf()
                &&& rt.fits()
                &&& picture_width(img) == rt.scene.width
                &&& picture_height(img) == rt.scene.height
                &&& whole(img)
                &&& forall|x: u32, y: u32|
                    #![trigger rt.spec_pixel(x, y)]
                    x < rt.scene.width && y < rt.scene.height ==> spec_pixel_at(
                        img,
                        x as int,
                        y as int,
                    ) == rt.spec_pixel(x, y)
            },
            Err(e) => match spec_load(scene_text@) {
                Err(refused) => e == refused,
                Ok(d) => e == SceneError::TooLarge && 3 * d.width * d.height > isize::MAX,
            },
        },
{
    let rt: Raytracer = match Raytracer::new(scene_text) {
        Ok(rt) => rt,
        Err(e) => {
            return Err(e);
        },
    };
    if !picture_fits(rt.scene.width, rt.scene.height) {
        return Err(SceneError::TooLarge);
    }
    let img: Picture = rt.run();
    Ok((rt, img))
}

} // verus!
