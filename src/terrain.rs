//! The depth-marching terrain rasterizer.
//!
//! Depth slices `z = 1, 2, ..` are visited nearest first. At each slice every
//! destination column samples the fields along a horizontal line of world width
//! `2 z`, projects the elevation to a screen row, and paints only the strip between
//! that row and the column's occlusion watermark: the highest row already painted
//! by a nearer slice.

use vstd::prelude::*;
use vstd::arithmetic::div_mod::lemma_fundamental_div_mod_converse;
use crate::heightmap::HeightMap;
use crate::image::{Image, Rgb, fill_model};

verus! {

/// Side of the square sample domain of the height and colour fields.
pub const FIELD_SIZE: i32 = 1024;

/// World coordinates are shifted by this amount to reach sample coordinates.
pub const FIELD_HALF: i32 = 512;

/// Camera pose and projection parameters of one rendered frame.
///
/// A sample byte `b` stands for the elevation `b / 255 * hmap_scale`; the slice at
/// depth `z` projects elevation `e` to the row `(z_cam - e) / z * zscale + horizon`,
/// rounded down. Slices `1 .. distance` are drawn.
#[derive(Clone, Copy, Debug)]
pub struct Camera {
    pub x: i32,
    pub y: i32,
    pub z: i32,
    pub hmap_scale: i32,
    pub horizon: i32,
    pub zscale: i32,
    pub distance: i32,
}

/// `v` limited to the range `lo ..= hi`.
pub open spec fn clamp(v: int, lo: int, hi: int) -> int {
    if v < lo {
        lo
    } else if v > hi {
        hi
    } else {
        v
    }
}

/// `n / d` for a positive `d`, truncated toward zero.
pub open spec fn trunc_div(n: int, d: int) -> int {
    if n >= 0 {
        n / d
    } else {
        -((-n) / d)
    }
}

impl Camera {
    /// Sample column seen by destination column `i` (of `w`) at depth `z`: the
    /// world point `x - z + i * 2z / w`, truncated toward zero, shifted into the
    /// field.
    pub open spec fn sample_x(self, w: int, z: int, i: int) -> int {
        trunc_div((self.x - z) * w + 2 * z * i, w) + FIELD_HALF
    }

    /// Sample row of every column at depth `z`.
    pub open spec fn sample_y(self, z: int) -> int {
        self.y - z + FIELD_HALF
    }

    /// Whether column `i` at depth `z` samples inside the fixed field square and
    /// inside both fields.
    pub open spec fn in_domain(self, hmap: HeightMap, cmap: Image, w: int, z: int, i: int) -> bool {
        let sx = self.sample_x(w, z, i);
        let sy = self.sample_y(z);
        &&& 0 <= sx < FIELD_SIZE
        &&& 0 <= sy < FIELD_SIZE
        &&& hmap.in_bounds(sx, sy)
        &&& cmap.in_bounds(sx, sy)
    }

    /// Screen row, rounded down, onto which elevation byte `b` projects at depth `z`.
    pub open spec fn project(self, b: int, z: int) -> int {
        ((self.z * 255 - b * self.hmap_scale) * self.zscale) / (255 * z) + self.horizon
    }

    /// The projected row of column `i` at depth `z`, clamped to `0 ..= h`.
    pub open spec fn row(self, hmap: HeightMap, w: int, h: int, z: int, i: int) -> int {
        let b = hmap.samples()[self.sample_y(z)][self.sample_x(w, z, i)];
        clamp(self.project(b as int, z), 0, h)
    }

    /// The colour of column `i` at depth `z`.
    pub open spec fn color(self, cmap: Image, w: int, z: int, i: int) -> Rgb {
        cmap.grid()[self.sample_y(z)][self.sample_x(w, z, i)]
    }

    /// The occlusion watermark of column `i` before slice `z` is drawn: `h` at the
    /// start, then the least row reached by any slice so far.
    pub open spec fn occlusion(self, hmap: HeightMap, cmap: Image, w: int, h: int, z: int, i: int) -> int
        decreases z,
    {
        if z <= 1 {
            h
        } else {
            let prev = self.occlusion(hmap, cmap, w, h, z - 1, i);
            if self.in_domain(hmap, cmap, w, z - 1, i) && self.row(hmap, w, h, z - 1, i) < prev {
                self.row(hmap, w, h, z - 1, i)
            } else {
                prev
            }
        }
    }

    /// Whether slice `z` paints row `r` of column `i`: the newly revealed strip
    /// between the projected row and the watermark.
    pub open spec fn painted(self, hmap: HeightMap, cmap: Image, w: int, h: int, z: int, i: int, r: int) -> bool {
        &&& self.in_domain(hmap, cmap, w, z, i)
        &&& self.row(hmap, w, h, z, i) <= r < self.occlusion(hmap, cmap, w, h, z, i)
    }

    /// The grid `g` with slice `z` drawn in columns `0 .. k`.
    pub open spec fn draw_slice(self, g: Seq<Seq<Rgb>>, hmap: HeightMap, cmap: Image, z: int, k: int) -> Seq<Seq<Rgb>> {
        let h = g.len() as int;
        let w = if h > 0 { g[0].len() as int } else { 0 };
        Seq::new(
            g.len(),
            |r: int|
                Seq::new(
                    g[r].len(),
                    |i: int|
                        if i < k && self.painted(hmap, cmap, w, h, z, i, r) {
                            self.color(cmap, w, z, i)
                        } else {
                            g[r][i]
                        },
                ),
        )
    }

    /// The grid `g` after slices `1 .. z` have been drawn onto it.
    pub open spec fn render(self, g: Seq<Seq<Rgb>>, hmap: HeightMap, cmap: Image, z: int) -> Seq<Seq<Rgb>>
        decreases z,
    {
        if z <= 1 {
            g
        } else {
            let w = if g.len() > 0 { g[0].len() as int } else { 0 };
            self.draw_slice(self.render(g, hmap, cmap, z - 1), hmap, cmap, z - 1, w)
        }
    }
}

impl Camera {
    /// The watermark never leaves the screen's rows `0 ..= h`.
    pub proof fn lemma_occlusion_range(self, hmap: HeightMap, cmap: Image, w: int, h: int, z: int, i: int)
        requires
            h >= 0,
        ensures
            0 <= self.occlusion(hmap, cmap, w, h, z, i) <= h,
        decreases z,
    {
        if z > 1 {
            self.lemma_occlusion_range(hmap, cmap, w, h, z - 1, i);
        }
    }
}

impl Camera {
    /// Within one frame the watermark of a column never moves down: a later slice
    /// sees a watermark at or above that of an earlier one.
    pub proof fn lemma_occlusion_monotone(
        self,
        hmap: HeightMap,
        cmap: Image,
        w: int,
        h: int,
        z1: int,
        z2: int,
        i: int,
    )
        requires
            z1 <= z2,
        ensures
            self.occlusion(hmap, cmap, w, h, z2, i) <= self.occlusion(hmap, cmap, w, h, z1, i),
        decreases z2 - z1,
    {
        if z1 < z2 {
            self.lemma_occlusion_monotone(hmap, cmap, w, h, z1, z2 - 1, i);
        }
    }

    /// Slice `z` paints exactly the rows between the watermark after it and the
    /// watermark before it.
    pub proof fn lemma_painted_strip(self, hmap: HeightMap, cmap: Image, w: int, h: int, z: int, i: int, r: int)
        requires
            z >= 1,
        ensures
            self.painted(hmap, cmap, w, h, z, i, r) <==> (self.occlusion(hmap, cmap, w, h, z + 1, i) <= r
                < self.occlusion(hmap, cmap, w, h, z, i)),
    {
    }

    /// No pixel is painted by two slices, and the pixels painted by slices
    /// `1 .. d` in a column are exactly the rows from the final watermark to the
    /// bottom of the screen.
    pub proof fn lemma_no_overdraw(self, hmap: HeightMap, cmap: Image, w: int, h: int, d: int, i: int, r: int)
        requires
            h >= 0,
            d >= 1,
            0 <= r < h,
        ensures
            forall|z1: int, z2: int|
                1 <= z1 && 1 <= z2 && #[trigger] self.painted(hmap, cmap, w, h, z1, i, r)
                    && #[trigger] self.painted(hmap, cmap, w, h, z2, i, r) ==> z1 == z2,
            (exists|z: int| 1 <= z < d && #[trigger] self.painted(hmap, cmap, w, h, z, i, r))
                <==> self.occlusion(hmap, cmap, w, h, d, i) <= r,
        decreases d,
    {
        assert forall|z1: int, z2: int|
            1 <= z1 && 1 <= z2 && #[trigger] self.painted(hmap, cmap, w, h, z1, i, r)
                && #[trigger] self.painted(hmap, cmap, w, h, z2, i, r) implies z1 == z2 by {
            self.lemma_painted_strip(hmap, cmap, w, h, z1, i, r);
            self.lemma_painted_strip(hmap, cmap, w, h, z2, i, r);
            if z1 < z2 {
                self.lemma_occlusion_monotone(hmap, cmap, w, h, z1 + 1, z2, i);
            } else if z2 < z1 {
                self.lemma_occlusion_monotone(hmap, cmap, w, h, z2 + 1, z1, i);
            }
        }
        if d > 1 {
            self.lemma_no_overdraw(hmap, cmap, w, h, d - 1, i, r);
            self.lemma_painted_strip(hmap, cmap, w, h, d - 1, i, r);
            if self.occlusion(hmap, cmap, w, h, d, i) <= r {
                if !self.painted(hmap, cmap, w, h, d - 1, i, r) {
                    assert(exists|z: int| 1 <= z < d - 1 && #[trigger] self.painted(hmap, cmap, w, h, z, i, r));
                }
            }
            if exists|z: int| 1 <= z < d && #[trigger] self.painted(hmap, cmap, w, h, z, i, r) {
                let z = choose|z: int| 1 <= z < d && #[trigger] self.painted(hmap, cmap, w, h, z, i, r);
                self.lemma_painted_strip(hmap, cmap, w, h, z, i, r);
                self.lemma_occlusion_monotone(hmap, cmap, w, h, z + 1, d, i);
            }
        }
    }

    /// Drawing slices keeps the grid's shape.
    pub proof fn lemma_render_shape(self, g: Seq<Seq<Rgb>>, hmap: HeightMap, cmap: Image, z: int)
        ensures
            self.render(g, hmap, cmap, z).len() == g.len(),
            forall|r: int| 0 <= r < g.len() ==> #[trigger] self.render(g, hmap, cmap, z)[r].len() == g[r].len(),
        decreases z,
    {
        if z > 1 {
            self.lemma_render_shape(g, hmap, cmap, z - 1);
        }
    }

    /// Once slices `1 .. d` are drawn, the pixels of a column above its final
    /// watermark are exactly those of the cleared grid: only the rows from the
    /// watermark down are ever painted.
    pub proof fn lemma_render_above_watermark(self, g: Seq<Seq<Rgb>>, hmap: HeightMap, cmap: Image, d: int, i: int, r: int)
        requires
            g.len() > 0,
            forall|b: int| 0 <= b < g.len() ==> #[trigger] g[b].len() == g[0].len(),
            0 <= r < g.len(),
            0 <= i < g[0].len(),
            r < self.occlusion(hmap, cmap, g[0].len() as int, g.len() as int, d, i),
        ensures
            self.render(g, hmap, cmap, d)[r][i] == g[r][i],
        decreases d,
    {
        if d > 1 {
            let w = g[0].len() as int;
            let h = g.len() as int;
            self.lemma_occlusion_monotone(hmap, cmap, w, h, d - 1, d, i);
            self.lemma_render_above_watermark(g, hmap, cmap, d - 1, i, r);
            self.lemma_render_shape(g, hmap, cmap, d - 1);
            self.lemma_painted_strip(hmap, cmap, w, h, d - 1, i, r);
        }
    }

    /// Once slices `1 .. d` are drawn, each pixel of a column from its final
    /// watermark down holds the colour of a slice that painted it.
    pub proof fn lemma_render_below_watermark(self, g: Seq<Seq<Rgb>>, hmap: HeightMap, cmap: Image, d: int, i: int, r: int)
        requires
            g.len() > 0,
            forall|b: int| 0 <= b < g.len() ==> #[trigger] g[b].len() == g[0].len(),
            0 <= r < g.len(),
            0 <= i < g[0].len(),
            self.occlusion(hmap, cmap, g[0].len() as int, g.len() as int, d, i) <= r,
        ensures
            exists|z: int|
                1 <= z < d && #[trigger] self.painted(hmap, cmap, g[0].len() as int, g.len() as int, z, i, r)
                    && self.render(g, hmap, cmap, d)[r][i] == self.color(cmap, g[0].len() as int, z, i),
        decreases d,
    {
        let w = g[0].len() as int;
        let h = g.len() as int;
        if d <= 1 {
            assert(self.occlusion(hmap, cmap, w, h, d, i) == h);
        } else {
            self.lemma_render_shape(g, hmap, cmap, d - 1);
            self.lemma_painted_strip(hmap, cmap, w, h, d - 1, i, r);
            if self.painted(hmap, cmap, w, h, d - 1, i, r) {
                assert(self.render(g, hmap, cmap, d)[r][i] == self.color(cmap, w, d - 1, i));
            } else {
                self.lemma_render_below_watermark(g, hmap, cmap, d - 1, i, r);
                let z = choose|z: int|
                    1 <= z < d - 1 && #[trigger] self.painted(hmap, cmap, w, h, z, i, r)
                        && self.render(g, hmap, cmap, d - 1)[r][i] == self.color(cmap, w, z, i);
                assert(self.render(g, hmap, cmap, d)[r][i] == self.render(g, hmap, cmap, d - 1)[r][i]);
            }
        }
    }

    /// Over a field of elevation zero seen from a camera at or above it, the
    /// projected row never rises from one slice to the next farther one.
    pub proof fn lemma_flat_rows_descend(self, hmap: HeightMap, w: int, h: int, z1: int, z2: int)
        requires
            self.z >= 0,
            self.zscale >= 0,
            h >= 0,
            1 <= z1 <= z2,
        ensures
            clamp(self.project(0, z2), 0, h) <= clamp(self.project(0, z1), 0, h),
            self.project(0, z2) >= self.horizon,
    {
        let a = (self.z * 255 - 0 * self.hmap_scale) * self.zscale;
        assert(a >= 0) by (nonlinear_arith)
            requires a == (self.z * 255 - 0 * self.hmap_scale) * self.zscale, self.z >= 0, self.zscale >= 0;
        vstd::arithmetic::div_mod::lemma_div_is_ordered_by_denominator(a, 255 * z1, 255 * z2);
        vstd::arithmetic::div_mod::lemma_div_pos_is_pos(a, 255 * z2);
        assert(self.project(0, z1) == a / (255 * z1) + self.horizon);
        assert(self.project(0, z2) == a / (255 * z2) + self.horizon);
    }

    /// The watermark over a flat field, where every sample of every slice lies in
    /// the field: after slices `1 .. z` it is the row of the farthest of them.
    pub proof fn lemma_flat_occlusion(self, hmap: HeightMap, cmap: Image, w: int, h: int, z: int, i: int)
        requires
            self.z >= 0,
            self.zscale >= 0,
            h >= 0,
            2 <= z,
            forall|k: int| 1 <= k < z ==> #[trigger] self.in_domain(hmap, cmap, w, k, i),
            forall|k: int|
                1 <= k < z ==> hmap.samples()[self.sample_y(k)][#[trigger] self.sample_x(w, k, i)] == 0,
        ensures
            self.occlusion(hmap, cmap, w, h, z, i) == clamp(self.project(0, z - 1), 0, h),
        decreases z,
    {
        assert(self.in_domain(hmap, cmap, w, z - 1, i));
        assert(hmap.samples()[self.sample_y(z - 1)][self.sample_x(w, z - 1, i)] == 0);
        assert(self.row(hmap, w, h, z - 1, i) == clamp(self.project(0, z - 1), 0, h));
        if z > 2 {
            self.lemma_flat_occlusion(hmap, cmap, w, h, z - 1, i);
            self.lemma_flat_rows_descend(hmap, w, h, z - 2, z - 1);
        } else {
            assert(self.occlusion(hmap, cmap, w, h, 1, i) == h);
        }
    }

    /// A flat field of elevation zero in a single colour `c`, seen from a camera
    /// at or above it with every sample inside the field, draws one horizontal
    /// band: in every column the rows from the farthest slice's row down hold
    /// `c`, all rows above keep their colour, and the band starts no higher than
    /// the horizon.
    pub proof fn lemma_flat_band(self, g: Seq<Seq<Rgb>>, hmap: HeightMap, cmap: Image, c: Rgb, i: int, r: int)
        requires
            self.z >= 0,
            self.zscale >= 0,
            self.distance >= 2,
            g.len() > 0,
            forall|b: int| 0 <= b < g.len() ==> #[trigger] g[b].len() == g[0].len(),
            0 <= r < g.len(),
            0 <= i < g[0].len(),
            forall|k: int, j: int|
                1 <= k < self.distance && 0 <= j < g[0].len() ==> #[trigger] self.in_domain(
                    hmap,
                    cmap,
                    g[0].len() as int,
                    k,
                    j,
                ),
            forall|a: int, b: int| hmap.in_bounds(a, b) ==> #[trigger] hmap.samples()[b][a] == 0,
            forall|a: int, b: int| cmap.in_bounds(a, b) ==> #[trigger] cmap.grid()[b][a] == c,
        ensures
            self.render(g, hmap, cmap, self.distance as int)[r][i] == if clamp(
                self.project(0, self.distance - 1),
                0,
                g.len() as int,
            ) <= r {
                c
            } else {
                g[r][i]
            },
            clamp(self.project(0, self.distance - 1), 0, g.len() as int) >= clamp(
                self.horizon as int,
                0,
                g.len() as int,
            ),
    {
        let w = g[0].len() as int;
        let h = g.len() as int;
        let d = self.distance as int;
        assert forall|k: int| 1 <= k < d implies #[trigger] self.in_domain(hmap, cmap, w, k, i) by {}
        assert forall|k: int| 1 <= k < d implies hmap.samples()[self.sample_y(k)][#[trigger] self.sample_x(
            w,
            k,
            i,
        )] == 0 by {
            assert(self.in_domain(hmap, cmap, w, k, i));
        }
        self.lemma_flat_occlusion(hmap, cmap, w, h, d, i);
        self.lemma_flat_rows_descend(hmap, w, h, d - 1, d - 1);
        if r < self.occlusion(hmap, cmap, w, h, d, i) {
            self.lemma_render_above_watermark(g, hmap, cmap, d, i, r);
        } else {
            self.lemma_render_below_watermark(g, hmap, cmap, d, i, r);
            let z = choose|z: int|
                1 <= z < d && #[trigger] self.painted(hmap, cmap, w, h, z, i, r) && self.render(g, hmap, cmap, d)[r][i]
                    == self.color(cmap, w, z, i);
            assert(self.in_domain(hmap, cmap, w, z, i));
        }
    }

    /// Column `i` at depth `z` samples within `z` columns of the camera.
    pub proof fn lemma_sample_x_near(self, w: int, z: int, i: int)
        requires
            w > 0,
            z >= 1,
            0 <= i < w,
        ensures
            self.x - z + FIELD_HALF <= self.sample_x(w, z, i) <= self.x + z + FIELD_HALF,
    {
        let n = (self.x - z) * w + 2 * z * i;
        assert((self.x - z) * w <= n <= (self.x + z) * w) by (nonlinear_arith)
            requires n == (self.x - z) * w + 2 * z * i, z >= 1, 0 <= i < w;
        lemma_trunc_div_between(n, w, self.x - z, self.x + z);
    }

    /// The flat band of `lemma_flat_band` for a camera that stands far enough
    /// inside fields of at least the fixed field size that every slice up to the
    /// view distance samples inside them.
    pub proof fn lemma_flat_band_in_field(self, g: Seq<Seq<Rgb>>, hmap: HeightMap, cmap: Image, c: Rgb, i: int, r: int)
        requires
            self.z >= 0,
            self.zscale >= 0,
            self.distance >= 2,
            self.x - (self.distance - 1) >= -FIELD_HALF,
            self.x + (self.distance - 1) < FIELD_HALF,
            self.y - (self.distance - 1) >= -FIELD_HALF,
            self.y - 1 < FIELD_HALF,
            hmap.width >= FIELD_SIZE && hmap.height >= FIELD_SIZE,
            cmap.width >= FIELD_SIZE && cmap.height >= FIELD_SIZE,
            g.len() > 0,
            forall|b: int| 0 <= b < g.len() ==> #[trigger] g[b].len() == g[0].len(),
            0 <= r < g.len(),
            0 <= i < g[0].len(),
            forall|a: int, b: int| hmap.in_bounds(a, b) ==> #[trigger] hmap.samples()[b][a] == 0,
            forall|a: int, b: int| cmap.in_bounds(a, b) ==> #[trigger] cmap.grid()[b][a] == c,
        ensures
            self.render(g, hmap, cmap, self.distance as int)[r][i] == if clamp(
                self.project(0, self.distance - 1),
                0,
                g.len() as int,
            ) <= r {
                c
            } else {
                g[r][i]
            },
            clamp(self.project(0, self.distance - 1), 0, g.len() as int) >= clamp(
                self.horizon as int,
                0,
                g.len() as int,
            ),
    {
        let w = g[0].len() as int;
        assert forall|k: int, j: int| 1 <= k < self.distance && 0 <= j < w implies #[trigger] self.in_domain(
            hmap,
            cmap,
            w,
            k,
            j,
        ) by {
            self.lemma_sample_x_near(w, k, j);
        }
        self.lemma_flat_band(g, hmap, cmap, c, i, r);
    }

    /// Whether column `i` sees the same thing in two pairs of fields at every slice
    /// before `d`: inside both or outside both, and where inside, the same row and
    /// colour.
    pub open spec fn same_column(
        self,
        hmap1: HeightMap,
        cmap1: Image,
        hmap2: HeightMap,
        cmap2: Image,
        w: int,
        h: int,
        d: int,
        i: int,
    ) -> bool {
        forall|z: int|
            1 <= z < d ==> {
                &&& #[trigger] self.in_domain(hmap1, cmap1, w, z, i) == self.in_domain(hmap2, cmap2, w, z, i)
                &&& self.in_domain(hmap1, cmap1, w, z, i) ==> self.row(hmap1, w, h, z, i) == self.row(
                    hmap2,
                    w,
                    h,
                    z,
                    i,
                ) && self.color(cmap1, w, z, i) == self.color(cmap2, w, z, i)
            }
    }

    /// Columns are drawn independently: a column's watermark and pixels depend
    /// only on what that column itself samples, so a sample outside the field in
    /// one column leaves every other column as it would be otherwise.
    pub proof fn lemma_column_local(
        self,
        g: Seq<Seq<Rgb>>,
        hmap1: HeightMap,
        cmap1: Image,
        hmap2: HeightMap,
        cmap2: Image,
        d: int,
        i: int,
        r: int,
    )
        requires
            g.len() > 0,
            forall|b: int| 0 <= b < g.len() ==> #[trigger] g[b].len() == g[0].len(),
            0 <= r < g.len(),
            0 <= i < g[0].len(),
            self.same_column(hmap1, cmap1, hmap2, cmap2, g[0].len() as int, g.len() as int, d, i),
        ensures
            self.occlusion(hmap1, cmap1, g[0].len() as int, g.len() as int, d, i) == self.occlusion(
                hmap2,
                cmap2,
                g[0].len() as int,
                g.len() as int,
                d,
                i,
            ),
            self.render(g, hmap1, cmap1, d)[r][i] == self.render(g, hmap2, cmap2, d)[r][i],
        decreases d,
    {
        let w = g[0].len() as int;
        let h = g.len() as int;
        if d > 1 {
            assert(self.same_column(hmap1, cmap1, hmap2, cmap2, w, h, d - 1, i));
            self.lemma_column_local(g, hmap1, cmap1, hmap2, cmap2, d - 1, i, r);
            self.lemma_render_shape(g, hmap1, cmap1, d - 1);
            self.lemma_render_shape(g, hmap2, cmap2, d - 1);
            assert(self.in_domain(hmap1, cmap1, w, d - 1, i) == self.in_domain(hmap2, cmap2, w, d - 1, i));
        }
    }

    /// A column whose sample falls outside the field at slice `z` paints nothing
    /// there and leaves its watermark where it was.
    pub proof fn lemma_void_sample(self, hmap: HeightMap, cmap: Image, w: int, h: int, z: int, i: int)
        requires
            z >= 1,
            !self.in_domain(hmap, cmap, w, z, i),
        ensures
            forall|r: int| !#[trigger] self.painted(hmap, cmap, w, h, z, i, r),
            self.occlusion(hmap, cmap, w, h, z + 1, i) == self.occlusion(hmap, cmap, w, h, z, i),
    {
    }
}

/// A quotient lies between the bounds that its dividend lies between, in
/// multiples of the divisor.
pub proof fn lemma_div_between(n: int, w: int, lo: int, hi: int)
    requires
        w > 0,
        lo * w <= n <= hi * w,
    ensures
        lo <= n / w <= hi,
{
    vstd::arithmetic::div_mod::lemma_div_is_ordered(lo * w, n, w);
    vstd::arithmetic::div_mod::lemma_div_is_ordered(n, hi * w, w);
    vstd::arithmetic::div_mod::lemma_div_multiples_vanish(lo, w);
    vstd::arithmetic::div_mod::lemma_div_multiples_vanish(hi, w);
    assert(lo * w == w * lo && hi * w == w * hi) by (nonlinear_arith);
}

/// The truncated quotient lies between the bounds that its dividend lies
/// between, in multiples of the divisor.
pub proof fn lemma_trunc_div_between(n: int, w: int, lo: int, hi: int)
    requires
        w > 0,
        lo * w <= n <= hi * w,
    ensures
        lo <= trunc_div(n, w) <= hi,
{
    if n >= 0 {
        lemma_div_between(n, w, lo, hi);
    } else {
        assert((-hi) * w <= -n <= (-lo) * w) by (nonlinear_arith)
            requires lo * w <= n <= hi * w;
        lemma_div_between(-n, w, -hi, -lo);
    }
}

/// `n / d` rounded down.
fn floor_div(n: i128, d: i128) -> (q: i128)
    requires
        d > 0,
        -0x1_0000_0000_0000_0000_0000 <= n <= 0x1_0000_0000_0000_0000_0000,
    ensures
        q == n / d,
        n >= 0 ==> 0 <= q <= n,
        n < 0 ==> n <= q < 0,
{
    if n >= 0 {
        let q = ((n as u128) / (d as u128)) as i128;
        q
    } else {
        let m = ((-n - 1) as u128) / (d as u128);
        proof {
            let mi = (-n - 1) / (d as int);
            let ri = (-n - 1) % (d as int);
            assert((d as int) * mi + ri == -n - 1) by {
                vstd::arithmetic::div_mod::lemma_fundamental_div_mod(-n - 1, d as int);
            }
            assert(n == (-mi - 1) * (d as int) + (d - ri - 1)) by (nonlinear_arith)
                requires (d as int) * mi + ri == -n - 1;
            lemma_fundamental_div_mod_converse(n as int, d as int, -mi - 1, d - ri - 1);
        }
        -(m as i128) - 1
    }
}

/// `n / d` truncated toward zero.
fn trunc_div_exec(n: i128, d: i128) -> (q: i128)
    requires
        d > 0,
        -0x1_0000_0000_0000_0000_0000 <= n <= 0x1_0000_0000_0000_0000_0000,
    ensures
        q == trunc_div(n as int, d as int),
{
    if n >= 0 {
        ((n as u128) / (d as u128)) as i128
    } else {
        -((((-n) as u128) / (d as u128)) as i128)
    }
}

/// The sample column of destination column `i` (of `w`) at depth `z`.
fn sample_column(cam: Camera, w: i32, z: i32, i: i32) -> (r: i128)
    requires
        w > 0,
        z >= 1,
        0 <= i < w,
    ensures
        r == cam.sample_x(w as int, z as int, i as int),
{
    let a: i128 = cam.x as i128 - z as i128;
    assert(-0x1_0000_0000_0000_0000 <= a * (w as i128) <= 0x1_0000_0000_0000_0000) by (nonlinear_arith)
        requires -0x1_0000_0000 <= a <= 0x1_0000_0000, 0 < w <= 0x8000_0000;
    assert(0 <= 2 * (z as i128) * (i as i128) <= 0x1_0000_0000_0000_0000) by (nonlinear_arith)
        requires 1 <= z <= 0x8000_0000, 0 <= i <= 0x8000_0000;
    let n: i128 = a * (w as i128) + 2 * (z as i128) * (i as i128);
    trunc_div_exec(n, w as i128) + FIELD_HALF as i128
}

/// The row onto which elevation byte `b` projects at depth `z`, clamped to `0 ..= h`.
fn screen_row(cam: Camera, b: u8, z: i32, h: i32) -> (r: i32)
    requires
        z >= 1,
        h > 0,
    ensures
        r == clamp(cam.project(b as int, z as int), 0, h as int),
{
    assert(-0x100_0000_0000 <= (b as i128) * (cam.hmap_scale as i128) <= 0x100_0000_0000) by (nonlinear_arith)
        requires 0 <= b <= 255, -0x8000_0000 <= cam.hmap_scale <= 0x8000_0000;
    let e: i128 = (cam.z as i128) * 255 - (b as i128) * (cam.hmap_scale as i128);
    assert(-0x1_0000_0000_0000_0000_0000 <= e * (cam.zscale as i128) <= 0x1_0000_0000_0000_0000_0000) by (nonlinear_arith)
        requires -0x1000_0000_0000 <= e <= 0x1000_0000_0000, -0x8000_0000 <= cam.zscale <= 0x8000_0000;
    let num: i128 = e * (cam.zscale as i128);
    let raw: i128 = floor_div(num, 255 * (z as i128)) + cam.horizon as i128;
    if raw < 0 {
        0
    } else if raw > h as i128 {
        h
    } else {
        raw as i32
    }
}

/// Draws one frame of terrain onto `dest`, which the caller has cleared.
///
/// Every pixel ends as `cam.render` describes: slices `1 .. cam.distance` are drawn
/// nearest first, each painting in each column only the strip it newly reveals;
/// columns whose sample lies outside the field contribute nothing at that slice.
pub fn draw_terrain(dest: &mut Image, hmap: &HeightMap, cmap: &Image, cam: Camera)
    requires
        old(dest).wf(),
        hmap.wf(),
        cmap.wf(),
    ensures
        final(dest).wf(),
        final(dest).width == old(dest).width,
        final(dest).height == old(dest).height,
        final(dest).grid() == cam.render(old(dest).grid(), *hmap, *cmap, cam.distance as int),
{
    let w = dest.width();
    let h = dest.height();
    let ghost g0 = dest.grid();
    let mut ybuf: Vec<i32> = Vec::new();
    let mut k: i32 = 0;
    while k < w
        invariant
            0 <= k <= w,
            ybuf@.len() == k,
            forall|j: int| 0 <= j < k ==> ybuf@[j] == h,
        decreases w - k,
    {
        ybuf.push(h);
        k = k + 1;
    }
    let mut z: i32 = 1;
    while z < cam.distance
        invariant
            dest.wf(),
            hmap.wf(),
            cmap.wf(),
            dest.width == w,
            dest.height == h,
            g0 == old(dest).grid(),
            g0.len() == h,
            g0[0].len() == w,
            1 <= z,
            z <= cam.distance || z == 1,
            ybuf@.len() == w,
            forall|j: int| 0 <= j < w ==> ybuf@[j] == cam.occlusion(*hmap, *cmap, w as int, h as int, z as int, j),
            dest.grid() == cam.render(g0, *hmap, *cmap, z as int),
        decreases cam.distance - z,
    {
        let ghost gz = dest.grid();
        assert(gz =~~= cam.draw_slice(gz, *hmap, *cmap, z as int, 0));
        let mut i: i32 = 0;
        while i < w
            invariant
                dest.wf(),
                hmap.wf(),
                cmap.wf(),
                dest.width == w,
                dest.height == h,
                1 <= z < cam.distance,
                0 <= i <= w,
                gz.len() == h,
                gz[0].len() == w,
                ybuf@.len() == w,
                forall|j: int| 0 <= j < i ==> ybuf@[j] == cam.occlusion(*hmap, *cmap, w as int, h as int, z + 1, j),
                forall|j: int| i <= j < w ==> ybuf@[j] == cam.occlusion(*hmap, *cmap, w as int, h as int, z as int, j),
                dest.grid() == cam.draw_slice(gz, *hmap, *cmap, z as int, i as int),
            decreases w - i,
        {
            let ghost gi = dest.grid();
            let sx = sample_column(cam, w, z, i);
            let sy: i128 = cam.y as i128 - z as i128 + FIELD_HALF as i128;
            if 0 <= sx && sx < FIELD_SIZE as i128 && 0 <= sy && sy < FIELD_SIZE as i128 {
                let hs = hmap.sample(sx as i32, sy as i32);
                let cs = cmap.sample(sx as i32, sy as i32);
                if let (Some(b), Some(c)) = (hs, cs) {
                    let row = screen_row(cam, b, z, h);
                    let occ = ybuf[i as usize];
                    proof {
                        cam.lemma_occlusion_range(*hmap, *cmap, w as int, h as int, z as int, i as int);
                    }
                    if row < occ {
                        dest.draw_vertical_line(i, row, occ, c);
                        ybuf.set(i as usize, row);
                    }
                }
            }
            assert(dest.grid() =~~= cam.draw_slice(gz, *hmap, *cmap, z as int, i + 1));
            i = i + 1;
        }
        assert(cam.render(g0, *hmap, *cmap, z + 1) == cam.draw_slice(gz, *hmap, *cmap, z as int, w as int));
        z = z + 1;
    }
}

} // verus!
