//! The immutable parameters of a scene: frame size, sub-pixel resolution, and
//! the sizes and starting places of the light and the occluder.

use vstd::prelude::*;
use crate::geometry::{in_range, COORD_LIMIT};

verus! {

/// Parameters of a scene. Lengths and positions are in units, of which
/// `units_per_pixel` make one pixel; the frame is `width` by `height` pixels.
#[derive(Clone, Copy, Debug, PartialEq, Eq)]
pub struct Config {
    /// Frame width in pixels.
    pub width: u32,
    /// Frame height in pixels.
    pub height: u32,
    /// Units per pixel.
    pub units_per_pixel: u32,
    /// Starting centre of the light.
    pub light_x: i64,
    pub light_y: i64,
    /// Radius of the light's disc.
    pub light_radius: i64,
    /// Horizontal centre of the occluder, which never changes.
    pub occluder_x: i64,
    /// Starting vertical centre of the occluder.
    pub occluder_y: i64,
    /// Radius of the occluder.
    pub occluder_radius: i64,
    /// Starting vertical velocity of the occluder, in units per tick.
    pub occluder_velocity_y: i64,
}

impl Config {
    /// Height of the frame in units.
    pub open spec fn frame_height(self) -> int {
        self.height * self.units_per_pixel
    }

    /// Width of the frame in units.
    pub open spec fn frame_width(self) -> int {
        self.width * self.units_per_pixel
    }

    /// Number of pixels of the frame.
    pub open spec fn pixel_count(self) -> int {
        self.width * self.height
    }

    /// Number of bytes of the frame buffer: four for each pixel.
    pub open spec fn frame_len(self) -> int {
        4 * self.pixel_count()
    }

    /// Smallest vertical centre at which the occluder is inside the frame.
    pub open spec fn occluder_min_y(self) -> int {
        self.occluder_radius as int
    }

    /// Largest vertical centre at which the occluder is inside the frame.
    pub open spec fn occluder_max_y(self) -> int {
        self.frame_height() - self.occluder_radius
    }

    /// The parameters describe a scene: the frame is not empty and its buffer
    /// can be indexed, every position stays within the coordinate range
    /// whatever the occluder does, the radii are not negative, and the
    /// occluder fits into the frame's height and starts inside it.
    pub open spec fn wf(self) -> bool {
        &&& self.width > 0
        &&& self.height > 0
        &&& self.units_per_pixel > 0
        &&& self.frame_width() <= COORD_LIMIT
        &&& self.frame_height() <= COORD_LIMIT
        &&& self.frame_len() <= usize::MAX
        &&& in_range(self.light_x as int)
        &&& in_range(self.light_y as int)
        &&& 0 <= self.light_radius <= COORD_LIMIT
        &&& in_range(self.occluder_x as int)
        &&& 0 <= self.occluder_radius
        &&& self.occluder_min_y() <= self.occluder_y <= self.occluder_max_y()
        &&& self.frame_height() + self.occluder_velocity_y <= COORD_LIMIT
        &&& self.frame_height() - self.occluder_velocity_y <= COORD_LIMIT
    }

    /// The standard scene: a frame of 1280 by 720 pixels at five units per
    /// pixel, a light of radius 25 pixels at pixel (200, 360), an occluder of
    /// radius 150 pixels at pixel (850, 360) that moves a fifth of a pixel
    /// per tick.
    pub fn standard() -> (config: Config)
        ensures
            config.wf(),
            config == (Config {
                width: 1280,
                height: 720,
                units_per_pixel: 5,
                light_x: 1000,
                light_y: 1800,
                light_radius: 125,
                occluder_x: 4250,
                occluder_y: 1800,
                occluder_radius: 750,
                occluder_velocity_y: 1,
            }),
    {
        Config {
            width: 1280,
            height: 720,
            units_per_pixel: 5,
            light_x: 1000,
            light_y: 1800,
            light_radius: 125,
            occluder_x: 4250,
            occluder_y: 1800,
            occluder_radius: 750,
            occluder_velocity_y: 1,
        }
    }

    /// Decides whether the parameters describe a scene.
    pub fn is_valid(&self) -> (valid: bool)
        ensures
            valid == self.wf(),
    {
        if self.width == 0 || self.height == 0 || self.units_per_pixel == 0 {
            return false;
        }
        let w: u64 = self.width as u64;
        let h: u64 = self.height as u64;
        let s: u64 = self.units_per_pixel as u64;
        let limit: u64 = 268_435_456;
        proof {
            lemma_product_range(w as int, s as int);
            lemma_product_range(h as int, s as int);
            lemma_product_range(w as int, h as int);
        }
        let fw: u64 = w * s;
        let fh: u64 = h * s;
        if fw > limit || fh > limit {
            return false;
        }
        proof {
            lemma_factor_at_most(w as int, s as int);
            lemma_factor_at_most(h as int, s as int);
            lemma_product_bounded(w as int, h as int, limit as int, limit as int);
        }
        let bytes: u64 = 4 * (w * h);
        if bytes > usize::MAX as u64 {
            return false;
        }
        let fh: i64 = fh as i64;
        let lim: i64 = COORD_LIMIT;
        self.light_x >= -lim && self.light_x <= lim
            && self.light_y >= -lim && self.light_y <= lim
            && self.light_radius >= 0 && self.light_radius <= lim
            && self.occluder_x >= -lim && self.occluder_x <= lim
            && self.occluder_radius >= 0
            && self.occluder_radius <= self.occluder_y
            && self.occluder_radius <= fh
            && self.occluder_y <= fh - self.occluder_radius
            && self.occluder_velocity_y <= lim - fh
            && self.occluder_velocity_y >= fh - lim
    }
}

/// The product of two 32-bit magnitudes fits in 64 bits.
proof fn lemma_product_range(x: int, y: int)
    by (nonlinear_arith)
    requires
        0 <= x <= 0xffff_ffff,
        0 <= y <= 0xffff_ffff,
    ensures
        0 <= x * y <= 0xffff_ffff_ffff_ffff,
{
}

/// A factor is at most its product with a positive number.
proof fn lemma_factor_at_most(x: int, y: int)
    by (nonlinear_arith)
    requires
        0 <= x,
        1 <= y,
    ensures
        x <= x * y,
{
}

/// The product of bounded factors is bounded by the product of the bounds.
proof fn lemma_product_bounded(x: int, y: int, bx: int, by: int)
    by (nonlinear_arith)
    requires
        0 <= x <= bx,
        0 <= y <= by,
    ensures
        0 <= x * y <= bx * by,
{
}

} // verus!
