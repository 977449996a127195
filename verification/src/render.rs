//! Shading: what each pixel of the frame shows for a given scene, and the
//! filling of a frame buffer with it.

use vstd::prelude::*;
use crate::geometry::{dist_sq, is_occluded, is_within_radius, occluded, within_radius};
use crate::scene::Scene;

verus! {

/// What a pixel shows.
#[derive(Clone, Copy, Debug, PartialEq, Eq)]
pub enum Shade {
    /// The disc of the light itself.
    Light,
    /// The surface of the occluder.
    Occluder,
    /// Background that the occluder hides from the light.
    Shadow,
    /// Background that the light reaches.
    Background,
}

/// Opaque white, as red, green, blue, alpha.
pub open spec fn white() -> Seq<u8> {
    seq![0xff, 0xff, 0xff, 0xff]
}

/// Opaque black.
pub open spec fn black() -> Seq<u8> {
    seq![0x00, 0x00, 0x00, 0xff]
}

/// Opaque yellow.
pub open spec fn yellow() -> Seq<u8> {
    seq![0xff, 0xff, 0x00, 0xff]
}

impl Shade {
    /// The four bytes of the shade: the light and the occluder are white,
    /// shadow is black, lit background is yellow.
    pub open spec fn color(self) -> Seq<u8> {
        match self {
            Shade::Light => white(),
            Shade::Occluder => white(),
            Shade::Shadow => black(),
            Shade::Background => yellow(),
        }
    }

    /// The four bytes of the shade, as red, green, blue, alpha.
    pub fn rgba(self) -> (bytes: [u8; 4])
        ensures
            bytes@ == self.color(),
    {
        let bytes: [u8; 4] = match self {
            Shade::Light => [0xff, 0xff, 0xff, 0xff],
            Shade::Occluder => [0xff, 0xff, 0xff, 0xff],
            Shade::Shadow => [0x00, 0x00, 0x00, 0xff],
            Shade::Background => [0xff, 0xff, 0x00, 0xff],
        };
        assert(bytes@ =~= self.color());
        bytes
    }
}

impl Scene {
    /// The shade of the pixel in column `col` and row `row`. The first of
    /// these that holds decides: the pixel is within the light's radius; it is
    /// within the occluder's radius; the occluder blocks the light on its way
    /// to the pixel.
    pub open spec fn shade_at(self, col: int, row: int) -> Shade {
        let x = col * self.config.units_per_pixel;
        let y = row * self.config.units_per_pixel;
        if within_radius(
            x,
            y,
            self.light_x as int,
            self.light_y as int,
            self.config.light_radius as int,
        ) {
            Shade::Light
        } else if within_radius(
            x,
            y,
            self.config.occluder_x as int,
            self.occluder_y as int,
            self.config.occluder_radius as int,
        ) {
            Shade::Occluder
        } else if occluded(
            self.light_x as int,
            self.light_y as int,
            x,
            y,
            self.config.occluder_x as int,
            self.occluder_y as int,
            self.config.occluder_radius as int,
        ) {
            Shade::Shadow
        } else {
            Shade::Background
        }
    }

    /// The shade of the pixel with the given index, counting row by row from
    /// the top left.
    pub open spec fn pixel_shade(self, index: int) -> Shade {
        self.shade_at(index % (self.config.width as int), index / (self.config.width as int))
    }

    /// The whole frame: four bytes for each pixel, row by row.
    pub open spec fn frame(self) -> Seq<u8> {
        Seq::new(self.config.frame_len() as nat, |k: int| self.pixel_shade(k / 4).color()[k % 4])
    }

    /// Classifies the pixel in column `col` and row `row`.
    pub fn shade(&self, col: u32, row: u32) -> (shade: Shade)
        requires
            self.wf(),
            col < self.config.width,
            row < self.config.height,
        ensures
            shade == self.shade_at(col as int, row as int),
    {
        proof {
            lemma_scaled_below(
                col as int,
                self.config.width as int,
                self.config.units_per_pixel as int,
            );
            lemma_scaled_below(
                row as int,
                self.config.height as int,
                self.config.units_per_pixel as int,
            );
        }
        let x: i64 = (col as i64) * (self.config.units_per_pixel as i64);
        let y: i64 = (row as i64) * (self.config.units_per_pixel as i64);
        if is_within_radius(x, y, self.light_x, self.light_y, self.config.light_radius) {
            Shade::Light
        } else if is_within_radius(
            x,
            y,
            self.config.occluder_x,
            self.occluder_y,
            self.config.occluder_radius,
        ) {
            Shade::Occluder
        } else if is_occluded(
            self.light_x,
            self.light_y,
            x,
            y,
            self.config.occluder_x,
            self.occluder_y,
            self.config.occluder_radius,
        ) {
            Shade::Shadow
        } else {
            Shade::Background
        }
    }

    /// The four bytes of the pixel with the given index.
    pub fn shade_pixel(&self, index: usize) -> (bytes: [u8; 4])
        requires
            self.wf(),
            index < self.config.pixel_count(),
        ensures
            bytes@ == self.pixel_shade(index as int).color(),
    {
        let width: usize = self.config.width as usize;
        proof {
            lemma_row_below(index as int, self.config.width as int, self.config.height as int);
        }
        let col: u32 = (index % width) as u32;
        let row: u32 = (index / width) as u32;
        self.shade(col, row).rgba()
    }

    /// Overwrites the frame buffer with the frame of this scene.
    pub fn render(&self, frame: &mut [u8])
        requires
            self.wf(),
            old(frame)@.len() == self.config.frame_len(),
        ensures
            final(frame)@ == self.frame(),
    {
        let count: usize = frame.len() / 4;
        let mut i: usize = 0;
        while i < count
            invariant
                self.wf(),
                frame@.len() == self.config.frame_len(),
                count == self.config.pixel_count(),
                i <= count,
                forall|k: int| 0 <= k < 4 * i ==> frame@[k] == self.frame()[k],
            decreases count - i,
        {
            let bytes: [u8; 4] = self.shade_pixel(i);
            let base: usize = 4 * i;
            frame[base] = bytes[0];
            frame[base + 1] = bytes[1];
            frame[base + 2] = bytes[2];
            frame[base + 3] = bytes[3];
            i = i + 1;
        }
        assert(frame@ =~= self.frame());
    }
}

/// A multiple of `s` by less than `n` is below the same multiple of `n`.
proof fn lemma_scaled_below(k: int, n: int, s: int)
    by (nonlinear_arith)
    requires
        0 <= k < n,
        0 < s,
    ensures
        0 <= k * s <= n * s,
{
}

/// An index below `w * h` lies in a row below `h`.
proof fn lemma_row_below(index: int, w: int, h: int)
    by (nonlinear_arith)
    requires
        0 <= index < w * h,
        0 < w,
    ensures
        0 <= index / w < h,
        0 <= index % w < w,
{
}

/// Every shade is opaque: its fourth byte is 255.
pub proof fn law_shades_are_opaque(shade: Shade)
    ensures
        shade.color().len() == 4,
        shade.color()[3] == 0xff,
{
}

/// A pixel within the light's radius is white, wherever the occluder is.
pub proof fn law_light_disc_is_white(scene: Scene, col: int, row: int)
    requires
        within_radius(
            col * scene.config.units_per_pixel,
            row * scene.config.units_per_pixel,
            scene.light_x as int,
            scene.light_y as int,
            scene.config.light_radius as int,
        ),
    ensures
        scene.shade_at(col, row) == Shade::Light,
        scene.shade_at(col, row).color() == white(),
{
}

/// A pixel within the occluder's radius is white, wherever the light is and
/// whatever the shadow test says of the pixel.
pub proof fn law_occluder_disc_is_white(scene: Scene, col: int, row: int)
    requires
        within_radius(
            col * scene.config.units_per_pixel,
            row * scene.config.units_per_pixel,
            scene.config.occluder_x as int,
            scene.occluder_y as int,
            scene.config.occluder_radius as int,
        ),
    ensures
        scene.shade_at(col, row) == Shade::Light || scene.shade_at(col, row) == Shade::Occluder,
        scene.shade_at(col, row).color() == white(),
{
}

/// A point at exactly the distance `r` from a centre is within its radius.
pub proof fn law_rim_is_within_radius(px: int, py: int, cx: int, cy: int, r: int)
    requires
        r >= 0,
        dist_sq(cx, cy, px, py) == r * r,
    ensures
        within_radius(px, py, cx, cy, r),
{
}

/// A pixel at exactly the light's radius from the light, or at exactly the
/// occluder's radius from the occluder, is white.
pub proof fn law_rim_is_white(scene: Scene, col: int, row: int)
    requires
        scene.config.wf(),
        dist_sq(
            scene.light_x as int,
            scene.light_y as int,
            col * scene.config.units_per_pixel,
            row * scene.config.units_per_pixel,
        ) == scene.config.light_radius * scene.config.light_radius || dist_sq(
            scene.config.occluder_x as int,
            scene.occluder_y as int,
            col * scene.config.units_per_pixel,
            row * scene.config.units_per_pixel,
        ) == scene.config.occluder_radius * scene.config.occluder_radius,
    ensures
        scene.shade_at(col, row).color() == white(),
{
}

/// Each pixel of the frame depends on the scene and on its own place alone:
/// its four bytes are those of its shade.
pub proof fn law_frame_is_pixelwise(scene: Scene, index: int)
    requires
        0 <= index < scene.config.pixel_count(),
    ensures
        scene.frame().len() == 4 * scene.config.pixel_count(),
        scene.frame().subrange(4 * index, 4 * index + 4) == scene.pixel_shade(index).color(),
{
    let part = scene.frame().subrange(4 * index, 4 * index + 4);
    let color = scene.pixel_shade(index).color();
    assert(color.len() == 4);
    assert forall|j: int| 0 <= j < 4 implies part[j] == color[j] by {
        assert((4 * index + j) / 4 == index);
        assert((4 * index + j) % 4 == j);
    }
    assert(part =~= color);
}

} // verus!
