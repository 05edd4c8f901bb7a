//! The camera: its raster, its sampling budget, what the integrator decides
//! for one ray, and how the finished colours become bytes.

use rand::Rng;
use vstd::prelude::*;
use crate::geometry::hittable::{nearest, Crossing, Sphere};
use crate::geometry::{HitRecord, Interval, Ray, Vec3};
use crate::material::{Material, Sample};
use crate::scalar::{Scalar, INFINITY_BITS, ONE_BITS};

verus! {

/// The pattern of `0.001`, below which a ray's parameter does not count: a
/// scattered ray would otherwise meet the surface that it has just left.
pub const SHADOW_GUARD_BITS: u64 = 0x3F50_624D_D2F1_A9FC;

/// The cells along one side of a pixel where no number is asked for.
pub const DEFAULT_BOXES: i32 = 5;

/// The largest number of cells along one side whose square is still an `i32`.
pub const MAX_BOXES: i32 = 46340;

/// The raster of an image and the budget of its rendering.
pub struct Camera {
    /// The columns of the image.
    pub image_width: i32,
    /// The rows of the image.
    pub image_height: i32,
    /// The rays that are traced through each pixel.
    pub samples_per_pixel: i32,
    /// The most bounces that a ray is followed through.
    pub max_depth: i32,
}

/// One cell of the grid that a pixel is divided into.
#[derive(Clone, Copy, Debug)]
pub struct Cell {
    /// The cell's place across, from 0.
    pub x: i32,
    /// The cell's place down, from 0.
    pub y: i32,
    /// The cells along one side.
    pub boxes: i32,
}

/// What becomes of a ray.
#[derive(Clone, Copy, Debug)]
pub enum Verdict {
    /// No light comes back along it.
    Black,
    /// It leaves the scene, and brings back the sky's colour for its direction.
    Sky,
    /// It goes on as `ray`, with `depth` bounces left, and brings back
    /// `attenuation` times what that ray brings.
    Bounce { ray: Ray, attenuation: Vec3, depth: i32 },
}

/// `nalgebra_glm::max2_scalar` on two `i32`: the one that is not less than
/// the other.
#[verifier::external_body]
fn max2_scalar(a: i32, b: i32) -> (r: i32)
    ensures
        r >= a,
        r >= b,
        r == a || r == b,
{
    nalgebra_glm::max2_scalar(a, b)
}

/// `rand::Rng::gen_range` on the thread's generator, with the range
/// `low..high`: some number of that range. Which one is not said, and two
/// calls may differ. An empty range is left out, as the call panics on it.
#[verifier::external_body]
fn gen_range(low: i32, high: i32) -> (r: i32)
    requires
        low < high,
    ensures
        low <= r < high,
{
    rand::thread_rng().gen_range(low..high)
}

/// The byte of one channel of a pixel; the fourth channel is opaque.
pub open spec fn channel(pixel: Vec3, c: int) -> int {
    if c == 0 {
        pixel.x.byte()
    } else if c == 1 {
        pixel.y.byte()
    } else if c == 2 {
        pixel.z.byte()
    } else {
        255
    }
}

/// The pixels as bytes: four to a pixel, red, green, blue and alpha.
pub open spec fn framed(pixels: Seq<Vec3>) -> Seq<u8> {
    Seq::new(4 * pixels.len(), |i: int| channel(pixels[i / 4], i % 4) as u8)
}

impl Camera {
    /// A raster of at least one pixel, sampled at least once, with a depth
    /// that is not negative.
    pub open spec fn wf(self) -> bool {
        &&& self.image_width >= 1
        &&& self.image_height >= 1
        &&& self.samples_per_pixel >= 1
        &&& self.max_depth >= 0
    }

    /// The cell that a draw picks from a grid of `boxes` by `boxes`.
    pub open spec fn picked(index: i32, boxes: i32) -> Cell {
        Cell { x: (index / boxes) as i32, y: (index % boxes) as i32, boxes }
    }

    /// What the integrator decides for a ray with `depth` bounces left, of
    /// which `hit` is the nearest meeting with the scene.
    pub open spec fn judged(depth: i32, hit: Option<HitRecord>, sample: Sample) -> Verdict {
        if depth <= 0 {
            Verdict::Black
        } else {
            match hit {
                None => Verdict::Sky,
                Some(rec) => match rec.material.scattered(rec, sample) {
                    None => Verdict::Black,
                    Some(out) => Verdict::Bounce {
                        ray: Ray { origin: rec.point, direction: out.0.direction },
                        attenuation: out.1,
                        depth: (depth - 1) as i32,
                    },
                },
            }
        }
    }

    /// The rows of an image: its width divided by its aspect ratio, brought
    /// to the nearest whole number, and one at the least.
    pub open spec fn rows(quotient: Scalar) -> int {
        if quotient.nearest_i32() >= 1 {
            quotient.nearest_i32()
        } else {
            1
        }
    }

    /// The height of an image whose width divided by its aspect ratio is
    /// `quotient`.
    pub fn image_height_for(quotient: Scalar) -> (r: i32)
        ensures
            r == Camera::rows(quotient),
            r >= 1,
    {
        max2_scalar(1, quotient.round_to_i32())
    }

    /// A camera for an image of `image_width` columns. `quotient` is that
    /// width divided by the aspect ratio.
    pub fn new(
        image_width: i32,
        quotient: Scalar,
        samples_per_pixel: i32,
        max_depth: i32,
    ) -> (camera: Camera)
        requires
            image_width >= 1,
            samples_per_pixel >= 1,
            max_depth >= 0,
        ensures
            camera.wf(),
            camera.image_width == image_width,
            camera.image_height == Camera::rows(quotient),
            camera.samples_per_pixel == samples_per_pixel,
            camera.max_depth == max_depth,
    {
        Camera {
            image_width,
            image_height: Camera::image_height_for(quotient),
            samples_per_pixel,
            max_depth,
        }
    }

    /// The cell with the given number in a grid of `boxes` by `boxes`, the
    /// cells counted down the first column, then down the second, and so on.
    pub fn cell_at(index: i32, boxes: i32) -> (cell: Cell)
        requires
            boxes >= 1,
            0 <= index,
        ensures
            cell == Camera::picked(index, boxes),
            index < boxes * boxes ==> 0 <= cell.x < boxes && 0 <= cell.y < boxes,
            index == cell.x * boxes + cell.y,
    {
        proof {
            assert(index < boxes * boxes ==> index / boxes < boxes) by (nonlinear_arith)
                requires
                    boxes >= 1,
                    0 <= index,
            {
            }
            assert(index == (index / boxes) * boxes + index % boxes && 0 <= index / boxes
                <= index) by (nonlinear_arith)
                requires
                    boxes >= 1,
                    0 <= index,
            {
            }
        }
        Cell { x: index / boxes, y: index % boxes, boxes }
    }

    /// Picks, at random, one cell of a pixel divided into `boxes` by `boxes`
    /// cells, or 5 by 5 where no number is given.
    pub fn sample_square_jitter(&self, boxes: Option<i32>) -> (cell: Cell)
        requires
            boxes matches Some(n) ==> 1 <= n <= MAX_BOXES,
        ensures
            cell.boxes == (match boxes {
                Some(n) => n,
                None => DEFAULT_BOXES,
            }),
            0 <= cell.x < cell.boxes,
            0 <= cell.y < cell.boxes,
    {
        let box_num: i32 = match boxes {
            Some(n) => n,
            None => DEFAULT_BOXES,
        };
        assert(1 <= box_num * box_num <= MAX_BOXES * MAX_BOXES) by (nonlinear_arith)
            requires
                1 <= box_num <= MAX_BOXES,
        {
        }
        let i_box: i32 = gen_range(0, box_num * box_num);
        Camera::cell_at(i_box, box_num)
    }

    /// The window of ray parameters in which a ray with `depth` bounces left
    /// is held against the scene: from `0.001` on, without end. A ray with
    /// none left is held against nothing.
    pub fn window(depth: i32) -> (r: Option<Interval>)
        ensures
            depth <= 0 ==> r is None,
            depth > 0 ==> (r matches Some(ray_t) && ray_t.min.bits == SHADOW_GUARD_BITS
                && ray_t.max.bits == INFINITY_BITS),
    {
        if depth <= 0 {
            None
        } else {
            Some(
                Interval {
                    min: Scalar::from_bits(SHADOW_GUARD_BITS),
                    max: Scalar::infinity(),
                },
            )
        }
    }

    /// Decides what becomes of a ray with `depth` bounces left. `hit` is its
    /// nearest meeting with the scene inside the window, and `sample` what
    /// the arithmetic has produced for the material met there. With no
    /// bounce left the ray is black, whatever it meets.
    pub fn ray_color(&self, depth: i32, hit: Option<HitRecord>, sample: &Sample) -> (r: Verdict)
        ensures
            r == Camera::judged(depth, hit, *sample),
            depth <= 0 ==> r is Black,
            depth > 0 && hit is None ==> r is Sky,
            r matches Verdict::Bounce { depth: left, .. } ==> 0 <= left < depth,
    {
        if depth <= 0 {
            return Verdict::Black;
        }
        match hit {
            None => Verdict::Sky,
            Some(rec) => match rec.material.scatter(&rec, sample) {
                None => Verdict::Black,
                Some(out) => Verdict::Bounce {
                    ray: Ray { origin: rec.point, direction: out.0.direction },
                    attenuation: out.1,
                    depth: depth - 1,
                },
            },
        }
    }

    /// The place of the pixel in row `i` and column `j` among the pixels of
    /// the image, counted row by row from the top.
    pub fn pixel_index(&self, i: i32, j: i32) -> (k: usize)
        requires
            0 <= i < self.image_height,
            0 <= j < self.image_width,
            self.image_width * self.image_height <= usize::MAX,
        ensures
            k == i * self.image_width + j,
            k < self.image_width * self.image_height,
    {
        proof {
            let w = self.image_width as int;
            let h = self.image_height as int;
            assert(0 <= i * w && i * w + w <= h * w && w * h == h * w) by (nonlinear_arith)
                requires
                    0 <= i < h,
                    0 < w,
            {
            }
        }
        (i as usize) * (self.image_width as usize) + (j as usize)
    }

    /// The range that a channel is brought into before it is scaled to a
    /// byte: from zero to one.
    pub fn intensity() -> (r: Interval)
        ensures
            r.min.bits == 0,
            r.max.bits == ONE_BITS,
    {
        Interval { min: Scalar::zero(), max: Scalar::one() }
    }

    /// The image as bytes. `pixels` holds the colour of every pixel, row by
    /// row from the top, each channel already brought into `intensity` and
    /// multiplied by `255.999`; each is cut to a byte, and every pixel is
    /// opaque.
    pub fn render(&self, pixels: &Vec<Vec3>) -> (data: Vec<u8>)
        requires
            pixels@.len() == self.image_width * self.image_height,
        ensures
            data@ == framed(pixels@),
            data@.len() == 4 * self.image_width * self.image_height,
            forall|k: int| 0 <= k < pixels@.len() ==> #[trigger] data@[4 * k + 3] == 255,
    {
        let mut data: Vec<u8> = Vec::new();
        let mut k: usize = 0;
        while k < pixels.len()
            invariant
                k <= pixels.len(),
                data@.len() == 4 * k,
                forall|i: int| 0 <= i < 4 * k ==> data@[i] == #[trigger] channel(
                    pixels@[i / 4],
                    i % 4,
                ),
            decreases pixels.len() - k,
        {
            let pixel = pixels[k];
            data.push(pixel.x.to_byte());
            data.push(pixel.y.to_byte());
            data.push(pixel.z.to_byte());
            data.push(255);
            k = k + 1;
        }
        assert(data@ =~= framed(pixels@));
        assert(4 * (self.image_width * self.image_height) == 4 * self.image_width
            * self.image_height) by (nonlinear_arith);
        data
    }
}

/// In a scene without a sphere no ray meets anything, and every ray that has
/// a bounce left sees the sky.
pub proof fn lemma_empty_scene_sees_the_sky(
    crossings: Seq<Crossing>,
    ray_t: Interval,
    depth: i32,
    sample: Sample,
)
    requires
        depth > 0,
    ensures
        nearest(Seq::<Sphere>::empty(), crossings, ray_t, 0) is None,
        Camera::judged(
            depth,
            nearest(Seq::<Sphere>::empty(), crossings, ray_t, 0),
            sample,
        ) == Verdict::Sky,
{
}

/// A ray is followed through no more bounces than its depth: each bounce
/// leaves one less, and with none left the ray is black.
pub proof fn lemma_depth_runs_out(depth: i32, hit: Option<HitRecord>, sample: Sample)
    ensures
        depth <= 0 ==> Camera::judged(depth, hit, sample) == Verdict::Black,
        Camera::judged(depth, hit, sample) matches Verdict::Bounce { depth: left, .. } ==> 0
            <= left < depth,
{
}

} // verus!
