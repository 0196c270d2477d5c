use vstd::prelude::*;
use crate::array2d::{cell_index, Array2d};
use crate::geometry::{less, order_specified, Convert};

verus! {

/// The named colours.
#[derive(PartialEq, Eq, Structural, Hash, Copy, Clone)]
pub enum ColorE {
    Green,
    Yellow,
    White,
    Black,
    Blue,
    Red,
}

/// A colour packed as `0xAARRGGBB`.
#[derive(PartialEq, Eq, Structural, Hash, Copy, Clone)]
pub struct Color {
    pub c: u32,
}

/// The packed value of an opaque colour with channels `r`, `g` and `b`:
/// `0xff000000 | r << 16 | g << 8 | b`.
pub open spec fn rgb_value(r: u32, g: u32, b: u32) -> u32 {
    0xff000000u32 | (r << 16u32) | (g << 8u32) | b
}

/// The red, green and blue channels of a named colour.
pub open spec fn named_rgb(e: ColorE) -> (u32, u32, u32) {
    match e {
        ColorE::Green => (0, 255, 0),
        ColorE::Yellow => (255, 255, 0),
        ColorE::White => (255, 255, 255),
        ColorE::Black => (0, 0, 0),
        ColorE::Blue => (0, 0, 255),
        ColorE::Red => (255, 0, 0),
    }
}

impl Color {
    /// The opaque colour with channels `r`, `g` and `b`.
    pub fn from_rgb(r: u32, g: u32, b: u32) -> (res: Self)
        ensures
            res.c == rgb_value(r, g, b),
    {
        let color: u32 = 0xff000000u32 | r << 16u32 | g << 8u32 | b;
        Color { c: color }
    }
}

/// A named colour converts to the opaque colour of its channels.
impl Convert<Color> for ColorE {
    open spec fn converted(self) -> Color {
        Color { c: rgb_value(named_rgb(self).0, named_rgb(self).1, named_rgb(self).2) }
    }

    fn convert(self) -> (res: Color) {
        let color_array: [(ColorE, u32, u32, u32); 6] = [
            (ColorE::Green, 0, 255, 0),
            (ColorE::Yellow, 255, 255, 0),
            (ColorE::White, 255, 255, 255),
            (ColorE::Black, 0, 0, 0),
            (ColorE::Blue, 0, 0, 255),
            (ColorE::Red, 255, 0, 0),
        ];
        assert(forall|k: int| 0 <= k < 6 ==> {
            let e = #[trigger] color_array@[k];
            named_rgb(e.0) == (e.1, e.2, e.3)
        });
        let mut i: usize = 0;
        while i < 6
            invariant
                i <= 6,
                forall|k: int| 0 <= k < 6 ==> {
                    let e = #[trigger] color_array@[k];
                    named_rgb(e.0) == (e.1, e.2, e.3)
                },
                forall|k: int| 0 <= k < i ==> (#[trigger] color_array@[k]).0 != self,
                color_array@ == seq![
                    (ColorE::Green, 0u32, 255u32, 0u32),
                    (ColorE::Yellow, 255u32, 255u32, 0u32),
                    (ColorE::White, 255u32, 255u32, 255u32),
                    (ColorE::Black, 0u32, 0u32, 0u32),
                    (ColorE::Blue, 0u32, 0u32, 255u32),
                    (ColorE::Red, 255u32, 0u32, 0u32),
                ],
            decreases 6 - i,
        {
            let x = color_array[i];
            if x.0 == self {
                return Color::from_rgb(x.1, x.2, x.3);
            }
            i = i + 1;
        }
        assert(color_array@[0].0 != self);
        assert(color_array@[1].0 != self);
        assert(color_array@[2].0 != self);
        assert(color_array@[3].0 != self);
        assert(color_array@[4].0 != self);
        assert(color_array@[5].0 != self);
        Color::from_rgb(0, 0, 0)
    }
}

/// The packed value of an opaque colour keeps its channels: alpha is `0xff`, and each channel
/// below 256 can be read back from its byte.
pub proof fn lemma_rgb_value_channels(r: u32, g: u32, b: u32)
    requires
        r < 256,
        g < 256,
        b < 256,
    ensures
        rgb_value(r, g, b) >> 24u32 == 0xffu32,
        (rgb_value(r, g, b) >> 16u32) & 0xffu32 == r,
        (rgb_value(r, g, b) >> 8u32) & 0xffu32 == g,
        rgb_value(r, g, b) & 0xffu32 == b,
{
    assert((0xff000000u32 | (r << 16u32) | (g << 8u32) | b) >> 24u32 == 0xffu32
        && ((0xff000000u32 | (r << 16u32) | (g << 8u32) | b) >> 16u32) & 0xffu32 == r
        && ((0xff000000u32 | (r << 16u32) | (g << 8u32) | b) >> 8u32) & 0xffu32 == g
        && (0xff000000u32 | (r << 16u32) | (g << 8u32) | b) & 0xffu32 == b) by (bit_vector)
        requires
            r < 256,
            g < 256,
            b < 256,
    ;
}

/// How `as i32` reads a `u32`: unchanged up to `i32::MAX`, negative above it.
proof fn lemma_u32_as_i32(w: u32)
    ensures
        w <= 0x7fff_ffffu32 ==> (w as i32) as int == w as int,
        w > 0x7fff_ffffu32 ==> (w as i32) < 0i32,
        (w as i32) == i32::MIN <==> w == 0x8000_0000u32,
{
    assert(w <= 0x7fff_ffffu32 ==> (w as i32) as int == w as int) by (bit_vector);
    assert(w > 0x7fff_ffffu32 ==> (w as i32) < 0i32) by (bit_vector);
    assert((w as i32) == i32::MIN <==> w == 0x8000_0000u32) by (bit_vector);
}

/// A picture of `w × h` pixels, each a packed colour; `data` holds them row after row.
pub struct Image {
    pub data: Array2d<u32>,
    pub w: u32,
    pub h: u32,
}

/// What `draw_pixel` did.
#[derive(PartialEq, Eq, Structural, Copy, Clone, Debug)]
pub enum PixelOutcome {
    /// The position lies outside the picture (or on its bottom row, `y == 0`).
    Clipped,
    /// The picture or the depth buffer has no cell at the position.
    NoCell,
    /// The depth buffer holds a depth that is not below the new one.
    Hidden,
    /// The pixel and its depth were written.
    Drawn,
}

/// Pixel `(x, y)` passes the bounds test of `draw_pixel` for a `w × h` picture:
/// `0 <= x < w` and `0 < y < h`, with both sizes representable as `i32`.
pub open spec fn pixel_inside(w: u32, h: u32, x: i32, y: i32) -> bool {
    &&& w <= i32::MAX
    &&& h <= i32::MAX
    &&& 0 <= x < w
    &&& 0 < y < h
}

/// The row of the storage that holds pixel row `y` of a picture of height `h`: the storage
/// runs from the top row down.
pub open spec fn storage_row(h: u32, y: i32) -> int {
    h - y - 1
}

impl Image {
    /// A `w × h` picture filled with `color`.
    pub fn new<C>(w: u32, h: u32, color: C) -> (r: Self)
        where C: Convert<Color>
        requires
            w * h <= usize::MAX,
        ensures
            r.w == w,
            r.h == h,
            r.data.width() == w,
            r.data.height() == h,
            r.data.cells() == Seq::new((w * h) as nat, |i: int| color.converted().c),
    {
        let data = Array2d::new(color.convert().c, w as usize, h as usize);
        Image { data: data, w: w, h: h }
    }

    /// The picture of size `w × h` whose pixels are the cells of `array`.
    pub fn from_buffer(w: u32, h: u32, array: Array2d<u32>) -> (r: Self)
        ensures
            r.w == w,
            r.h == h,
            r.data == array,
    {
        Image { data: array, w: w, h: h }
    }

    /// Paints pixel `(x, y)` in `color` when it lies inside the picture and its depth `z`
    /// lies above the depth that `zbuffer` holds for it, and then records `z` there.
    /// Rows count from the bottom of the picture; the storage holds the top row first.
    pub fn draw_pixel<Z, C>(&mut self, x: i32, y: i32, z: Z, color: C, zbuffer: &mut Array2d<Z>) -> (r: PixelOutcome)
        where Z: Copy + Clone + PartialOrd, C: Convert<Color> + Copy
        requires
            x >= 0 ==> old(self).w != 0x8000_0000u32,
            x >= 0 && x < old(self).w && old(self).w <= i32::MAX && y > 0 ==> old(self).h != 0x8000_0000u32,
            pixel_inside(old(self).w, old(self).h, x, y) ==>
                storage_row(old(self).h, y) * old(self).data.width() + x <= usize::MAX,
            pixel_inside(old(self).w, old(self).h, x, y)
                && cell_index(old(self).data.width() as int, x as int, storage_row(old(self).h, y))
                    < old(self).data.cells().len() ==>
                storage_row(old(self).h, y) * old(zbuffer).width() + x <= usize::MAX,
        ensures
            ({
                let inside = pixel_inside(old(self).w, old(self).h, x, y);
                let row = storage_row(old(self).h, y);
                let di = cell_index(old(self).data.width() as int, x as int, row);
                let zi = cell_index(old(zbuffer).width() as int, x as int, row);
                let has_cells = di < old(self).data.cells().len() && zi < old(zbuffer).cells().len();
                &&& !inside ==> r == PixelOutcome::Clipped
                &&& inside && !has_cells ==> r == PixelOutcome::NoCell
                &&& inside && has_cells ==> (r == PixelOutcome::Drawn || r == PixelOutcome::Hidden)
                &&& final(self).w == old(self).w
                &&& final(self).h == old(self).h
                &&& final(self).data.width() == old(self).data.width()
                &&& final(self).data.height() == old(self).data.height()
                &&& final(zbuffer).width() == old(zbuffer).width()
                &&& final(zbuffer).height() == old(zbuffer).height()
                &&& r != PixelOutcome::Drawn ==> {
                    &&& final(self).data.cells() == old(self).data.cells()
                    &&& final(zbuffer).cells() == old(zbuffer).cells()
                }
                &&& r == PixelOutcome::Drawn ==> {
                    &&& final(self).data.cells() == old(self).data.cells().update(di, color.converted().c)
                    &&& final(zbuffer).cells() == old(zbuffer).cells().update(zi, z)
                }
                &&& inside && has_cells && order_specified::<Z>() ==>
                    (r == PixelOutcome::Drawn <==> less(old(zbuffer).cells()[zi], z))
            }),
            x < 0 || x >= old(self).w || y <= 0 || y >= old(self).h ==> r == PixelOutcome::Clipped,
            old(self).w <= i32::MAX && old(self).h <= i32::MAX && 0 <= x < old(self).w
                && 0 < y < old(self).h ==> r != PixelOutcome::Clipped,
            r == PixelOutcome::Drawn ==> {
                let i = (old(self).h - y - 1) * old(self).data.width() + x;
                let j = (old(self).h - y - 1) * old(zbuffer).width() + x;
                &&& 0 <= x < old(self).w
                &&& 0 < y < old(self).h
                &&& 0 <= i < final(self).data.cells().len()
                &&& final(self).data.cells()[i] == color.converted().c
                &&& 0 <= j < final(zbuffer).cells().len()
                &&& final(zbuffer).cells()[j] == z
            },
    {
        proof {
            lemma_u32_as_i32(self.w);
            lemma_u32_as_i32(self.h);
        }
        if x < 0 || x > self.w as i32 - 1 || y <= 0 || y > self.h as i32 - 1 {
            return PixelOutcome::Clipped;
        }
        let row: usize = self.h as usize - y as usize - 1;
        match self.data.get_mut(x, row) {
            Some(v) => {
                match zbuffer.get_mut(x, row) {
                    Some(zb) => {
                        if *zb < z {
                            *v = color.convert().c;
                            *zb = z;
                            PixelOutcome::Drawn
                        } else {
                            PixelOutcome::Hidden
                        }
                    },
                    None => PixelOutcome::NoCell,
                }
            },
            None => PixelOutcome::NoCell,
        }
    }
}

} // verus!
