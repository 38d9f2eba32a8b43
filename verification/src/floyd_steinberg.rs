//! Error diffusion after Floyd and Steinberg: every pixel becomes a colour of
//! the palette, and what it loses or gains by that goes to its neighbours to
//! the right and below.

use vstd::prelude::*;

use crate::ansi::{ImageBuffer, Luma};
use crate::dither::{indexed_image, quantizes};
use crate::palette::{AnsiColorMap, DistanceMethod, Palette, Rgb};

verus! {

/// `v` divided by 16, rounded towards zero.
pub open spec fn sixteenth(v: int) -> int {
    if v >= 0 {
        v / 16
    } else {
        -((-v) / 16)
    }
}

/// `v`, but at least 0 and at most 255.
pub open spec fn clamped(v: int) -> u8 {
    if v < 0 {
        0
    } else if v > 255 {
        255
    } else {
        v as u8
    }
}

/// The colour `c` after it took `factor` sixteenths of the error `err`.
pub open spec fn diffused(c: Seq<u8>, err: Seq<int>, factor: int) -> Seq<u8> {
    seq![
        clamped(c[0] + sixteenth(err[0] * factor)),
        clamped(c[1] + sixteenth(err[1] * factor)),
        clamped(c[2] + sixteenth(err[2] * factor)),
    ]
}

/// What a pixel lost by becoming the colour `new`, channel by channel.
pub open spec fn residual(old: Seq<u8>, new: Seq<u8>) -> Seq<int> {
    seq![old[0] - new[0], old[1] - new[1], old[2] - new[2]]
}

/// `pixels` with the error `err` given to the pixel at `x`, `y`, if there is
/// such a pixel.
pub open spec fn with_diffused(
    pixels: Seq<Seq<u8>>,
    w: int,
    h: int,
    x: int,
    y: int,
    err: Seq<int>,
    factor: int,
) -> Seq<Seq<u8>> {
    if 0 <= x < w && 0 <= y < h {
        pixels.update(y * w + x, diffused(pixels[y * w + x], err, factor))
    } else {
        pixels
    }
}

/// The image after the pixel at `x`, `y` became the colour `new`: seven
/// sixteenths of what it lost go to the pixel to its right, three to the one
/// below on the left, five to the one below, one to the one below on the
/// right.
pub open spec fn diffusion_step(
    pixels: Seq<Seq<u8>>,
    w: int,
    h: int,
    x: int,
    y: int,
    new: Seq<u8>,
) -> Seq<Seq<u8>> {
    let err = residual(pixels[y * w + x], new);
    let set = pixels.update(y * w + x, new);
    let east = with_diffused(set, w, h, x + 1, y, err, 7);
    let south_west = with_diffused(east, w, h, x - 1, y + 1, err, 3);
    let south = with_diffused(south_west, w, h, x, y + 1, err, 5);
    with_diffused(south, w, h, x + 1, y + 1, err, 1)
}

/// The image after its first `k` pixels, row after row, became the palette
/// colours at the indices `choices`.
pub open spec fn diffused_image(
    pixels: Seq<Seq<u8>>,
    w: int,
    h: int,
    palette: Palette,
    choices: Seq<int>,
    k: int,
) -> Seq<Seq<u8>>
    decreases k,
{
    if k <= 0 {
        pixels
    } else {
        diffusion_step(
            diffused_image(pixels, w, h, palette, choices, k - 1),
            w,
            h,
            (k - 1) % w,
            (k - 1) / w,
            palette.color(choices[k - 1]),
        )
    }
}

/// Whether each of the first `k` choices is an index that the pixel, as it
/// was when its turn came, may be mapped to.
pub open spec fn diffusion_choices(
    pixels: Seq<Seq<u8>>,
    w: int,
    h: int,
    palette: Palette,
    choices: Seq<int>,
    k: int,
) -> bool
    decreases k,
{
    k <= 0 || (diffusion_choices(pixels, w, h, palette, choices, k - 1) && quantizes(
        palette,
        diffused_image(pixels, w, h, palette, choices, k - 1)[k - 1],
        choices[k - 1],
    ))
}

/// The colours of the pixels.
pub open spec fn colors_of(pixels: Seq<Rgb>) -> Seq<Seq<u8>> {
    Seq::new(pixels.len(), |i: int| pixels[i].0@)
}

/// Whether `after` is what error diffusion makes of `before` when the
/// look-ups give the indices `choices`.
pub open spec fn diffuses(
    before: Seq<Seq<u8>>,
    w: int,
    h: int,
    palette: Palette,
    choices: Seq<int>,
    after: Seq<Seq<u8>>,
) -> bool {
    &&& choices.len() == before.len()
    &&& diffusion_choices(before, w, h, palette, choices, before.len() as int)
    &&& after == diffused_image(before, w, h, palette, choices, before.len() as int)
}

/// A step keeps the number of pixels.
pub proof fn lemma_diffusion_step_len(
    pixels: Seq<Seq<u8>>,
    w: int,
    h: int,
    x: int,
    y: int,
    new: Seq<u8>,
)
    requires
        pixels.len() == w * h,
        0 <= x < w,
        0 <= y < h,
    ensures
        diffusion_step(pixels, w, h, x, y, new).len() == pixels.len(),
        0 <= y * w + x < pixels.len(),
{
    lemma_pixel_index(w, h, x, y);
    if x + 1 < w {
        lemma_pixel_index(w, h, x + 1, y);
    }
    if y + 1 < h {
        lemma_pixel_index(w, h, x, y + 1);
        if x >= 1 {
            lemma_pixel_index(w, h, x - 1, y + 1);
        }
        if x + 1 < w {
            lemma_pixel_index(w, h, x + 1, y + 1);
        }
    }
}

/// The pixel at `x`, `y` lies in the image.
pub proof fn lemma_pixel_index(w: int, h: int, x: int, y: int)
    requires
        0 <= x < w,
        0 <= y < h,
    ensures
        0 <= y * w + x < w * h,
        (y * w + x) % w == x,
        (y * w + x) / w == y,
{
    assert(0 <= y * w + x < w * h) by (nonlinear_arith)
        requires
            0 <= x < w,
            0 <= y < h,
    ;
    vstd::arithmetic::div_mod::lemma_fundamental_div_mod_converse(y * w + x, w, y, x);
}

/// The image after `k` pixels depends on the first `k` choices alone, and
/// keeps its number of pixels.
pub proof fn lemma_diffused_prefix(
    pixels: Seq<Seq<u8>>,
    w: int,
    h: int,
    palette: Palette,
    a: Seq<int>,
    b: Seq<int>,
    k: int,
)
    requires
        0 <= k <= a.len(),
        k <= b.len(),
        forall|i: int| 0 <= i < k ==> a[i] == b[i],
        pixels.len() == w * h,
        k <= w * h,
        w >= 0,
        h >= 0,
    ensures
        diffused_image(pixels, w, h, palette, a, k) == diffused_image(pixels, w, h, palette, b, k),
        diffused_image(pixels, w, h, palette, a, k).len() == pixels.len(),
        diffusion_choices(pixels, w, h, palette, a, k) == diffusion_choices(
            pixels,
            w,
            h,
            palette,
            b,
            k,
        ),
    decreases k,
{
    if k > 0 {
        lemma_diffused_prefix(pixels, w, h, palette, a, b, k - 1);
        lemma_cell_of(w, h, k - 1);
        lemma_diffusion_step_len(
            diffused_image(pixels, w, h, palette, a, k - 1),
            w,
            h,
            (k - 1) % w,
            (k - 1) / w,
            palette.color(a[k - 1]),
        );
    }
}

/// The `i`-th pixel, row after row, is the one at `i % w`, `i / w`.
pub proof fn lemma_cell_of(w: int, h: int, i: int)
    requires
        0 <= i < w * h,
        w >= 0,
        h >= 0,
    ensures
        w > 0,
        0 <= i % w < w,
        0 <= i / w < h,
        (i / w) * w + i % w == i,
{
    assert(w > 0) by (nonlinear_arith)
        requires
            0 <= i < w * h,
            w >= 0,
    ;
    vstd::arithmetic::div_mod::lemma_fundamental_div_mod(i, w);
    assert(w * (i / w) == (i / w) * w) by (nonlinear_arith);
    assert(0 <= i / w < h) by (nonlinear_arith)
        requires
            0 <= i < w * h,
            w > 0,
            i == w * (i / w) + i % w,
            0 <= i % w < w,
    ;
}

/// One channel after it took `factor` sixteenths of the error `old - new`.
fn diffuse_channel(c: u8, old: u8, new: u8, factor: u16) -> (v: u8)
    requires
        factor <= 7,
    ensures
        v == clamped(c + sixteenth((old - new) * factor)),
{
    if old >= new {
        let d: u16 = (old - new) as u16;
        assert(d * factor <= 255 * 7) by (nonlinear_arith)
            requires
                d <= 255,
                factor <= 7,
        ;
        assert((old - new) * factor >= 0) by (nonlinear_arith)
            requires
                old >= new,
                factor >= 0,
        ;
        let gain: u16 = (d * factor) / 16;
        let sum: u16 = c as u16 + gain;
        if sum > 255 {
            255
        } else {
            sum as u8
        }
    } else {
        let d: u16 = (new - old) as u16;
        assert(d * factor <= 255 * 7) by (nonlinear_arith)
            requires
                d <= 255,
                factor <= 7,
        ;
        assert((old - new) * factor == -(d * factor)) by (nonlinear_arith)
            requires
                d == new - old,
        ;
        assert(d * factor >= 0) by (nonlinear_arith)
            requires
                d >= 0,
                factor >= 0,
        ;
        let loss: u16 = (d * factor) / 16;
        if loss > c as u16 {
            0
        } else {
            (c as u16 - loss) as u8
        }
    }
}

/// Gives the pixel at index `j` `factor` sixteenths of what a pixel lost by
/// becoming `new` when it was `old`.
fn diffuse_into(pixels: &mut Vec<Rgb>, j: usize, was: &[u8; 3], new: &[u8; 3], factor: u16)
    requires
        j < old(pixels)@.len(),
        factor <= 7,
    ensures
        colors_of(final(pixels)@) == colors_of(old(pixels)@).update(
            j as int,
            diffused(colors_of(old(pixels)@)[j as int], residual(was@, new@), factor as int),
        ),
{
    let c: [u8; 3] = pixels[j].0;
    let next: [u8; 3] = [
        diffuse_channel(c[0], was[0], new[0], factor),
        diffuse_channel(c[1], was[1], new[1], factor),
        diffuse_channel(c[2], was[2], new[2], factor),
    ];
    pixels.set(j, Rgb(next));
    proof {
        assert(colors_of(pixels@) =~= colors_of(old(pixels)@).update(
            j as int,
            diffused(colors_of(old(pixels)@)[j as int], residual(was@, new@), factor as int),
        ));
    }
}

/// Makes the pixel at `x`, `y` the colour `new` and gives what it lost to its
/// neighbours.
pub fn diffuse_step(pixels: &mut Vec<Rgb>, w: usize, h: usize, x: usize, y: usize, new: [u8; 3])
    requires
        old(pixels)@.len() == w * h,
        x < w,
        y < h,
    ensures
        colors_of(final(pixels)@) == diffusion_step(
            colors_of(old(pixels)@),
            w as int,
            h as int,
            x as int,
            y as int,
            new@,
        ),
        final(pixels)@.len() == old(pixels)@.len(),
{
    proof {
        lemma_diffusion_step_len(colors_of(pixels@), w as int, h as int, x as int, y as int, new@);
        lemma_pixel_index(w as int, h as int, x as int, y as int);
        if x + 1 < w {
            lemma_pixel_index(w as int, h as int, x + 1, y as int);
        }
        if y + 1 < h {
            lemma_pixel_index(w as int, h as int, x as int, y + 1);
            if x >= 1 {
                lemma_pixel_index(w as int, h as int, x - 1, y + 1);
            }
            if x + 1 < w {
                lemma_pixel_index(w as int, h as int, x + 1, y + 1);
            }
        }
        assert((y + 1) * w == y * w + w) by (nonlinear_arith);
    }
    let total: usize = pixels.len();
    let i: usize = y * w + x;
    let was: [u8; 3] = pixels[i].0;
    pixels.set(i, Rgb(new));
    proof {
        assert(colors_of(pixels@) =~= colors_of(old(pixels)@).update(i as int, new@));
    }
    if x + 1 < w {
        diffuse_into(pixels, i + 1, &was, &new, 7);
    }
    if y + 1 < h {
        if x >= 1 {
            diffuse_into(pixels, i + w - 1, &was, &new, 3);
        }
        diffuse_into(pixels, i + w, &was, &new, 5);
        if x + 1 < w {
            diffuse_into(pixels, i + w + 1, &was, &new, 1);
        }
    }
}

/// Makes every pixel of `image` a colour of the palette, from the top row
/// down and in every row from left to right, and diffuses the error.
pub fn floyd_steinberg<T: DistanceMethod>(
    image: ImageBuffer<Rgb>,
    color_map: &AnsiColorMap<T>,
) -> (r: ImageBuffer<Rgb>)
    ensures
        r.columns() == image.columns(),
        r.rows() == image.rows(),
        exists|choices: Seq<int>| #[trigger]
            diffuses(
                colors_of(image.pixels()),
                image.columns(),
                image.rows(),
                color_map.palette(),
                choices,
                colors_of(r.pixels()),
            ),
{
    let width: u32 = image.width();
    let height: u32 = image.height();
    let w: usize = width as usize;
    let h: usize = height as usize;
    let ghost before = colors_of(image.pixels());
    let ghost palette = color_map.palette();
    let mut pixels: Vec<Rgb> = image.into_vec();
    let total: usize = pixels.len();
    let ghost mut choices: Seq<int> = Seq::empty();
    let mut i: usize = 0;
    while i < total
        invariant
            i <= total,
            total == w * h,
            pixels@.len() == total,
            before.len() == total,
            palette == color_map.palette(),
            choices.len() == i,
            colors_of(pixels@) == diffused_image(before, w as int, h as int, palette, choices, i as int),
            diffusion_choices(before, w as int, h as int, palette, choices, i as int),
        decreases total - i,
    {
        proof {
            lemma_cell_of(w as int, h as int, i as int);
        }
        let x: usize = i % w;
        let y: usize = i / w;
        let current: Rgb = pixels[i];
        let chosen: usize = color_map.index_of(&current);
        let new: [u8; 3] = color_map.colors().get(chosen as u8);
        let ghost earlier = choices;
        proof {
            choices = choices.push(chosen as int);
            lemma_diffused_prefix(before, w as int, h as int, palette, choices, earlier, i as int);
            assert(colors_of(pixels@)[i as int] == current.0@);
        }
        diffuse_step(&mut pixels, w, h, x, y, new);
        i = i + 1;
    }
    proof {
        assert(diffuses(before, w as int, h as int, palette, choices, colors_of(pixels@)));
    }
    match ImageBuffer::from_vec(width, height, pixels) {
        Some(image) => image,
        None => {
            proof {
                assert(false);
            }
            vstd::pervasive::unreached()
        },
    }
}

/// A step makes its pixel the new colour and leaves the pixels before it as
/// they are.
pub proof fn lemma_step_keeps(
    pixels: Seq<Seq<u8>>,
    w: int,
    h: int,
    x: int,
    y: int,
    new: Seq<u8>,
    m: int,
)
    requires
        pixels.len() == w * h,
        0 <= x < w,
        0 <= y < h,
        0 <= m <= y * w + x,
    ensures
        diffusion_step(pixels, w, h, x, y, new)[m] == if m == y * w + x {
            new
        } else {
            pixels[m]
        },
{
    lemma_diffusion_step_len(pixels, w, h, x, y, new);
    assert((y + 1) * w == y * w + w) by (nonlinear_arith);
    if x + 1 < w {
        lemma_pixel_index(w, h, x + 1, y);
    }
    if y + 1 < h {
        lemma_pixel_index(w, h, x, y + 1);
        if x >= 1 {
            lemma_pixel_index(w, h, x - 1, y + 1);
        }
        if x + 1 < w {
            lemma_pixel_index(w, h, x + 1, y + 1);
        }
    }
}

/// Once a pixel has had its turn it keeps the palette colour it was given.
pub proof fn lemma_diffused_settled(
    pixels: Seq<Seq<u8>>,
    w: int,
    h: int,
    palette: Palette,
    choices: Seq<int>,
    k: int,
    i: int,
)
    requires
        pixels.len() == w * h,
        w >= 0,
        h >= 0,
        0 <= i < k <= w * h,
        k <= choices.len(),
    ensures
        diffused_image(pixels, w, h, palette, choices, k)[i] == palette.color(choices[i]),
    decreases k,
{
    let j = k - 1;
    lemma_cell_of(w, h, j);
    lemma_diffused_prefix(pixels, w, h, palette, choices, choices, j);
    let earlier = diffused_image(pixels, w, h, palette, choices, j);
    lemma_step_keeps(earlier, w, h, j % w, j / w, palette.color(choices[j]), i);
    if i < j {
        lemma_diffused_settled(pixels, w, h, palette, choices, j, i);
    }
}

/// The palette indices of the pixels of `image`: for every pixel the index
/// that its colour maps back to. `None` where the palette lacks the colour of
/// a pixel.
pub fn index_colors<T: DistanceMethod>(
    image: &ImageBuffer<Rgb>,
    color_map: &AnsiColorMap<T>,
) -> (r: Option<ImageBuffer<Luma>>)
    ensures
        match r {
            Some(indexed) => {
                &&& indexed.columns() == image.columns()
                &&& indexed.rows() == image.rows()
                &&& indexed.pixels().len() == image.pixels().len()
                &&& forall|i: int|
                    0 <= i < image.pixels().len() ==> color_map.palette().maps_back(
                        image.pixels()[i].0@,
                        (#[trigger] indexed.pixels()[i]).0@[0] as int,
                    )
            },
            None => exists|i: int|
                0 <= i < image.pixels().len() && !color_map.palette().has_color(
                    (#[trigger] image.pixels()[i]).0@,
                ),
        },
{
    let pixels: &[Rgb] = image.as_slice();
    let mut indices: Vec<u8> = Vec::new();
    let mut i: usize = 0;
    while i < pixels.len()
        invariant
            i <= pixels@.len(),
            pixels@ == image.pixels(),
            indices@.len() == i,
            forall|j: int|
                0 <= j < i ==> color_map.palette().maps_back(
                    pixels@[j].0@,
                    (#[trigger] indices@[j]) as int,
                ),
        decreases pixels@.len() - i,
    {
        match color_map.reverse_lookup(&pixels[i].0) {
            Some(index) => {
                indices.push(index);
            },
            None => {
                return None;
            },
        }
        i = i + 1;
    }
    Some(indexed_image(image.width(), image.height(), indices))
}

/// Every choice is an index of the palette.
pub proof fn lemma_diffusion_choices_range(
    pixels: Seq<Seq<u8>>,
    w: int,
    h: int,
    palette: Palette,
    choices: Seq<int>,
    k: int,
    j: int,
)
    requires
        diffusion_choices(pixels, w, h, palette, choices, k),
        0 <= j < k,
    ensures
        0 <= choices[j] < 256,
    decreases k,
{
    if j < k - 1 {
        lemma_diffusion_choices_range(pixels, w, h, palette, choices, k - 1, j);
    }
}

/// After error diffusion every pixel has a colour of the palette.
pub proof fn law_diffused_in_palette(
    before: Seq<Seq<u8>>,
    w: int,
    h: int,
    palette: Palette,
    choices: Seq<int>,
    after: Seq<Seq<u8>>,
    i: int,
)
    requires
        before.len() == w * h,
        w >= 0,
        h >= 0,
        diffuses(before, w, h, palette, choices, after),
        0 <= i < before.len(),
    ensures
        palette.has_color(after[i]),
        after[i] == palette.color(choices[i]),
{
    lemma_diffused_settled(before, w, h, palette, choices, before.len() as int, i);
    lemma_diffusion_choices_range(before, w, h, palette, choices, before.len() as int, i);
}

/// A step that gives a pixel the colour it has changes nothing.
proof fn lemma_step_of_own_color(pixels: Seq<Seq<u8>>, w: int, h: int, x: int, y: int)
    requires
        pixels.len() == w * h,
        0 <= x < w,
        0 <= y < h,
        forall|i: int| 0 <= i < pixels.len() ==> (#[trigger] pixels[i]).len() == 3,
    ensures
        diffusion_step(pixels, w, h, x, y, pixels[y * w + x]) == pixels,
{
    lemma_diffusion_step_len(pixels, w, h, x, y, pixels[y * w + x]);
    let own = pixels[y * w + x];
    let err = residual(own, own);
    assert forall|c: Seq<u8>, factor: int| c.len() == 3 implies #[trigger] diffused(
        c,
        err,
        factor,
    ) == c by {
        assert(err[0] * factor == 0 && err[1] * factor == 0 && err[2] * factor == 0)
            by (nonlinear_arith)
            requires
                err[0] == 0,
                err[1] == 0,
                err[2] == 0,
        ;
        assert(diffused(c, err, factor) =~= c);
    }
    if x + 1 < w {
        lemma_pixel_index(w, h, x + 1, y);
    }
    if y + 1 < h {
        lemma_pixel_index(w, h, x, y + 1);
        if x >= 1 {
            lemma_pixel_index(w, h, x - 1, y + 1);
        }
        if x + 1 < w {
            lemma_pixel_index(w, h, x + 1, y + 1);
        }
    }
    assert(diffusion_step(pixels, w, h, x, y, own) =~= pixels);
}

/// An image of palette colours stays as it is through its first `k` pixels,
/// and each of those pixels gets the index that its colour maps back to.
proof fn lemma_palette_image_stays(
    before: Seq<Seq<u8>>,
    w: int,
    h: int,
    palette: Palette,
    choices: Seq<int>,
    k: int,
)
    requires
        before.len() == w * h,
        w >= 0,
        h >= 0,
        0 <= k <= before.len(),
        k <= choices.len(),
        diffusion_choices(before, w, h, palette, choices, k),
        forall|i: int|
            0 <= i < before.len() ==> (#[trigger] before[i]).len() == 3 && palette.has_color(
                before[i],
            ),
    ensures
        diffused_image(before, w, h, palette, choices, k) == before,
        forall|j: int| 0 <= j < k ==> palette.maps_back(before[j], #[trigger] choices[j]),
    decreases k,
{
    if k > 0 {
        lemma_palette_image_stays(before, w, h, palette, choices, k - 1);
        lemma_cell_of(w, h, k - 1);
        let pixel = before[k - 1];
        assert(palette.has_color(pixel));
        let i = choose|i: int| 0 <= i < 256 && palette.color(i) == pixel;
        lemma_has_color_maps_back(palette, pixel, i, 255);
        let back = choose|b: int| palette.maps_back(pixel, b);
        assert(choices[k - 1] == back);
        lemma_step_of_own_color(before, w, h, (k - 1) % w, (k - 1) / w);
    }
}

/// A colour that the palette has at an index up to `from` maps back to some
/// index.
proof fn lemma_has_color_maps_back(palette: Palette, color: Seq<u8>, i: int, from: int)
    requires
        0 <= i <= from < 256,
        palette.color(i) == color,
        forall|j: int| from < j < 256 ==> palette.color(j) != color,
    ensures
        exists|b: int| palette.maps_back(color, b),
    decreases from - i,
{
    if palette.color(from) == color {
        assert(palette.maps_back(color, from));
    } else {
        lemma_has_color_maps_back(palette, color, i, from - 1);
    }
}

/// Error diffusion leaves an image as it is whose every pixel has a colour
/// of the palette, and gives every pixel the index that its colour maps
/// back to.
pub proof fn law_diffusion_keeps_palette_colors(
    before: Seq<Seq<u8>>,
    w: int,
    h: int,
    palette: Palette,
    choices: Seq<int>,
    after: Seq<Seq<u8>>,
)
    requires
        before.len() == w * h,
        w >= 0,
        h >= 0,
        diffuses(before, w, h, palette, choices, after),
        forall|i: int|
            0 <= i < before.len() ==> (#[trigger] before[i]).len() == 3 && palette.has_color(
                before[i],
            ),
    ensures
        after == before,
        forall|j: int| 0 <= j < before.len() ==> palette.maps_back(before[j], #[trigger] choices[j]),
{
    lemma_palette_image_stays(before, w, h, palette, choices, before.len() as int);
}

} // verus!
