//! The 256 colours: sixteen of the terminal's theme, a cube of 6 x 6 x 6
//! colours, and a ramp of 24 grays.

use std::marker::PhantomData;
use vstd::prelude::*;

verus! {

/// The `i`-th of the six levels of a channel in the colour cube.
pub open spec fn cube_level(i: int) -> int {
    if i == 0 {
        0
    } else {
        55 + 40 * i
    }
}

/// The colour at `idx` for an index from 16 on: up to 231 the cube, red
/// slowest and blue fastest, then the grays, which start at 8 and go up in
/// steps of 10.
pub open spec fn standard_color(idx: int) -> Seq<u8> {
    if idx < 232 {
        let c = idx - 16;
        seq![cube_level(c / 36) as u8, cube_level((c / 6) % 6) as u8, cube_level(c % 6) as u8]
    } else {
        let level = (8 + 10 * (idx - 232)) as u8;
        seq![level, level, level]
    }
}

/// The number of the cube level `v`, if it is one.
pub open spec fn level_index(v: u8) -> Option<int> {
    if v == 0 {
        Some(0)
    } else if v >= 95 && (v - 55) % 40 == 0 {
        Some((v - 55) / 40)
    } else {
        None
    }
}

/// The sixteen colours of the VGA text mode, the theme to fall back on.
pub fn vga_theme() -> (theme: [[u8; 3]; 16])
    ensures
        theme@[0]@ == seq![0u8, 0u8, 0u8],
        theme@[15]@ == seq![255u8, 255u8, 255u8],
{
    let theme: [[u8; 3]; 16] = [
        [0, 0, 0],
        [170, 0, 0],
        [0, 170, 0],
        [170, 85, 0],
        [0, 0, 170],
        [170, 0, 170],
        [0, 170, 170],
        [170, 170, 170],
        [85, 85, 85],
        [255, 85, 85],
        [85, 255, 85],
        [255, 255, 85],
        [85, 85, 255],
        [255, 85, 255],
        [85, 255, 255],
        [255, 255, 255],
    ];
    assert(theme@[0]@ =~= seq![0u8, 0u8, 0u8]);
    assert(theme@[15]@ =~= seq![255u8, 255u8, 255u8]);
    theme
}

/// The table from index to colour.
pub struct Palette {
    colors: Vec<[u8; 3]>,
}

impl Palette {
    #[verifier::type_invariant]
    spec fn well_formed(self) -> bool {
        &&& self.colors@.len() == 256
        &&& forall|i: int| 16 <= i < 256 ==> (#[trigger] self.colors@[i])@ == standard_color(i)
    }

    /// The colour at `idx`: red, green, blue.
    pub closed spec fn color(&self, idx: int) -> Seq<u8> {
        self.colors@[idx]@
    }

    /// Whether `i` is the index that the colour `color` maps back to: the
    /// last index with that colour.
    pub open spec fn maps_back(&self, color: Seq<u8>, i: int) -> bool {
        &&& 0 <= i < 256
        &&& self.color(i) == color
        &&& forall|j: int| i < j < 256 ==> self.color(j) != color
    }

    /// Whether some index has the colour `color`.
    pub open spec fn has_color(&self, color: Seq<u8>) -> bool {
        exists|i: int| 0 <= i < 256 && self.color(i) == color
    }

    /// The palette with the sixteen colours of `theme` at its start.
    pub fn new(theme: &[[u8; 3]; 16]) -> (p: Palette)
        ensures
            forall|i: int| 0 <= i < 16 ==> p.color(i) == (#[trigger] theme@[i])@,
            forall|i: int| 16 <= i < 256 ==> p.color(i) == standard_color(i),
    {
        let mut colors: Vec<[u8; 3]> = Vec::new();
        let mut idx: usize = 0;
        while idx < 16
            invariant
                idx <= 16,
                colors@.len() == idx,
                forall|i: int| 0 <= i < idx ==> (#[trigger] colors@[i])@ == theme@[i]@,
            decreases 16 - idx,
        {
            colors.push(theme[idx]);
            idx = idx + 1;
        }
        while idx < 232
            invariant
                16 <= idx <= 232,
                colors@.len() == idx,
                forall|i: int| 0 <= i < 16 ==> (#[trigger] colors@[i])@ == theme@[i]@,
                forall|i: int| 16 <= i < idx ==> (#[trigger] colors@[i])@ == standard_color(i),
            decreases 232 - idx,
        {
            let c: usize = idx - 16;
            let entry: [u8; 3] = [
                Self::level((c / 36) as u8),
                Self::level(((c / 6) % 6) as u8),
                Self::level((c % 6) as u8),
            ];
            proof {
                assert(entry@ =~= standard_color(idx as int));
            }
            colors.push(entry);
            idx = idx + 1;
        }
        while idx < 256
            invariant
                232 <= idx <= 256,
                colors@.len() == idx,
                forall|i: int| 0 <= i < 16 ==> (#[trigger] colors@[i])@ == theme@[i]@,
                forall|i: int| 16 <= i < idx ==> (#[trigger] colors@[i])@ == standard_color(i),
            decreases 256 - idx,
        {
            let level: u8 = (8 + 10 * (idx - 232)) as u8;
            let entry: [u8; 3] = [level, level, level];
            proof {
                assert(entry@ =~= standard_color(idx as int));
            }
            colors.push(entry);
            idx = idx + 1;
        }
        Palette { colors }
    }

    /// The palette with the VGA colours at its start.
    pub fn vga() -> (p: Palette)
        ensures
            p.color(0) == seq![0u8, 0u8, 0u8],
            p.color(15) == seq![255u8, 255u8, 255u8],
            forall|i: int| 16 <= i < 256 ==> p.color(i) == standard_color(i),
    {
        let theme: [[u8; 3]; 16] = vga_theme();
        Palette::new(&theme)
    }

    /// The `i`-th level of a channel in the cube.
    fn level(i: u8) -> (v: u8)
        requires
            i < 6,
        ensures
            v == cube_level(i as int),
    {
        if i == 0 {
            0
        } else {
            55 + 40 * i
        }
    }

    /// The number of the cube level `v`.
    fn level_number(v: u8) -> (r: Option<u8>)
        ensures
            match r {
                Some(i) => level_index(v) == Some(i as int) && i < 6 && cube_level(i as int) == v,
                None => level_index(v) is None && forall|i: int|
                    0 <= i < 6 ==> cube_level(i) != v,
            },
    {
        if v == 0 {
            Some(0)
        } else if v >= 95 && (v - 55) % 40 == 0 {
            Some((v - 55) / 40)
        } else {
            None
        }
    }

    /// The colour at `idx`.
    pub fn get(&self, idx: u8) -> (c: [u8; 3])
        ensures
            c@ == self.color(idx as int),
            self.is_standard(),
    {
        proof {
            use_type_invariant(self);
        }
        self.colors[idx as usize]
    }

    /// The index that `color` maps back to: the last index with that colour,
    /// or `None` where no index has it.
    pub fn reverse_lookup(&self, color: &[u8; 3]) -> (r: Option<u8>)
        ensures
            match r {
                Some(i) => self.maps_back(color@, i as int),
                None => !self.has_color(color@),
            },
    {
        proof {
            use_type_invariant(self);
        }
        match Self::standard_lookup(color) {
            Some(idx) => {
                proof {
                    lemma_standard_index(color@);
                    assert(self.colors@[idx as int]@ == standard_color(idx as int));
                    assert forall|j: int| idx < j < 256 implies self.color(j) != color@ by {
                        assert(self.colors@[j]@ == standard_color(j));
                        lemma_standard_index_of_color(j);
                    }
                }
                Some(idx)
            },
            None => {
                proof {
                    assert forall|j: int| 16 <= j < 256 implies self.color(j) != color@ by {
                        assert(self.colors@[j]@ == standard_color(j));
                        lemma_standard_index_of_color(j);
                    }
                }
                let mut i: usize = 16;
                while i > 0
                    invariant
                        i <= 16,
                        self.colors@.len() == 256,
                        forall|j: int| i <= j < 256 ==> self.color(j) != color@,
                    decreases i,
                {
                    let entry: [u8; 3] = self.colors[i - 1];
                    if entry[0] == color[0] && entry[1] == color[1] && entry[2] == color[2] {
                        proof {
                            assert(self.color(i - 1) =~= color@);
                        }
                        return Some((i - 1) as u8);
                    }
                    proof {
                        assert(self.color(i - 1) != color@);
                    }
                    i = i - 1;
                }
                None
            },
        }
    }

    /// The index from 16 on that has the colour `color`.
    fn standard_lookup(color: &[u8; 3]) -> (r: Option<u8>)
        ensures
            match r {
                Some(i) => standard_index(color@) == Some(i as int) && i >= 16,
                None => standard_index(color@) is None,
            },
    {
        let r: u8 = color[0];
        let g: u8 = color[1];
        let b: u8 = color[2];
        if r == g && g == b && r >= 8 && r <= 238 && (r - 8) % 10 == 0 {
            return Some(232 + (r - 8) / 10);
        }
        match (Self::level_number(r), Self::level_number(g), Self::level_number(b)) {
            (Some(ri), Some(gi), Some(bi)) => Some(16 + 36 * ri + 6 * gi + bi),
            _ => None,
        }
    }
}

/// The index from 16 on that has the colour `color`, if there is one.
pub open spec fn standard_index(color: Seq<u8>) -> Option<int> {
    if color[0] == color[1] && color[1] == color[2] && 8 <= color[0] <= 238 && (color[0] - 8) % 10
        == 0 {
        Some(232 + (color[0] - 8) / 10)
    } else {
        match (level_index(color[0]), level_index(color[1]), level_index(color[2])) {
            (Some(r), Some(g), Some(b)) => Some(16 + 36 * r + 6 * g + b),
            _ => None,
        }
    }
}

/// The index that `standard_index` gives has the colour.
pub proof fn lemma_standard_index(color: Seq<u8>)
    requires
        color.len() == 3,
    ensures
        standard_index(color) matches Some(i) ==> 16 <= i < 256 && standard_color(i) == color,
{
    match standard_index(color) {
        Some(i) => {
            if i >= 232 {
                assert(standard_color(i) =~= color);
            } else {
                let r = level_index(color[0])->0;
                let g = level_index(color[1])->0;
                let b = level_index(color[2])->0;
                let c = i - 16;
                assert(0 <= r < 6 && 0 <= g < 6 && 0 <= b < 6);
                assert(c == 36 * r + 6 * g + b);
                assert(c / 36 == r);
                assert(c % 6 == b);
                assert(c / 6 == 6 * r + g);
                assert((c / 6) % 6 == g);
                assert(standard_color(i) =~= color);
            }
        },
        None => {},
    }
}

/// The colour of an index from 16 on leads back to the index.
pub proof fn lemma_standard_index_of_color(j: int)
    requires
        16 <= j < 256,
    ensures
        standard_index(standard_color(j)) == Some(j),
{
    let color = standard_color(j);
    if j >= 232 {
        assert(color[0] == 8 + 10 * (j - 232));
    } else {
        let c = j - 16;
        let r = c / 36;
        let g = (c / 6) % 6;
        let b = c % 6;
        assert(0 <= r < 6 && 0 <= g < 6 && 0 <= b < 6);
        assert(color[0] == cube_level(r));
        assert(color[1] == cube_level(g));
        assert(color[2] == cube_level(b));
        assert(level_index(color[0]) == Some(r));
        assert(level_index(color[1]) == Some(g));
        assert(level_index(color[2]) == Some(b));
        assert(c == 36 * r + 6 * g + b);
    }
}

/// What the standard colours look like: in the cube every channel is a cube
/// level, among the grays all channels are the same and end in 8.
pub proof fn lemma_standard_color(j: int)
    requires
        16 <= j < 256,
    ensures
        standard_color(j).len() == 3,
        j < 232 ==> {
            let d = j - 16;
            &&& 0 <= d / 36 < 6
            &&& 0 <= (d / 6) % 6 < 6
            &&& 0 <= d % 6 < 6
            &&& standard_color(j)[0] == cube_level(d / 36)
            &&& standard_color(j)[1] == cube_level((d / 6) % 6)
            &&& standard_color(j)[2] == cube_level(d % 6)
            &&& d == 36 * (d / 36) + 6 * ((d / 6) % 6) + d % 6
        },
        j >= 232 ==> {
            &&& standard_color(j)[0] == 8 + 10 * (j - 232)
            &&& standard_color(j)[1] == 8 + 10 * (j - 232)
            &&& standard_color(j)[2] == 8 + 10 * (j - 232)
        },
{
}

impl Palette {
    /// Whether the colours from index 16 on are the standard ones, as they
    /// are in every palette that was made.
    pub open spec fn is_standard(&self) -> bool {
        forall|i: int| 16 <= i < 256 ==> self.color(i) == standard_color(i)
    }
}

/// No two indices from 16 on have the same colour.
pub proof fn lemma_standard_colors_differ(i: int, j: int)
    requires
        16 <= i < j < 256,
    ensures
        standard_color(i) != standard_color(j),
{
    lemma_standard_color(i);
    lemma_standard_color(j);
    if standard_color(i) == standard_color(j) {
        assert(standard_color(i)[0] == standard_color(j)[0]);
        assert(standard_color(i)[1] == standard_color(j)[1]);
        assert(standard_color(i)[2] == standard_color(j)[2]);
        if j < 232 {
            let a = i - 16;
            let b = j - 16;
            assert(a / 36 == b / 36);
            assert((a / 6) % 6 == (b / 6) % 6);
            assert(a % 6 == b % 6);
        }
    }
}

/// Looking up the colour of an index gives the index back, unless a later
/// index has the same colour. From index 16 on no later index has: only a
/// colour of the theme can come again.
pub proof fn law_reverse_lookup(p: Palette, i: int, r: int)
    requires
        p.is_standard(),
        0 <= i < 256,
        p.maps_back(p.color(i), r),
        i < 16 ==> forall|j: int| i < j < 256 ==> p.color(j) != p.color(i),
    ensures
        r == i,
{
    if r < i {
        assert(p.color(i) != p.color(i));
    }
    if r > i {
        if i >= 16 {
            lemma_standard_colors_differ(i, r);
        }
    }
}

/// Whatever the distance method, a colour of the palette is mapped to its own
/// index, unless a later index has the same colour: an index that
/// `AnsiColorMap::index_of` may give for the colour at `i` is `i`.
pub proof fn law_palette_color_keeps_its_index(p: Palette, i: int, idx: int)
    requires
        p.is_standard(),
        0 <= i < 256,
        i < 16 ==> forall|j: int| i < j < 256 ==> p.color(j) != p.color(i),
        forall|k: int| p.maps_back(p.color(i), k) ==> idx == k,
    ensures
        idx == i,
{
    assert(p.maps_back(p.color(i), i)) by {
        if i >= 16 {
            assert forall|j: int| i < j < 256 implies p.color(j) != p.color(i) by {
                lemma_standard_colors_differ(i, j);
            }
        }
    }
}

/// A way to find the palette colour nearest to a colour.
pub trait DistanceMethod: Send + Sync {
    /// The index of the palette colour nearest to `color`.
    fn closest(color: &[u8; 3]) -> (idx: usize)
        ensures
            idx < 256,
    ;
}

/// A colour with its red, green and blue.
#[derive(Clone, Copy, Debug)]
pub struct Rgb(pub [u8; 3]);

/// Maps colours to the palette by the distance method `T`.
pub struct AnsiColorMap<T: DistanceMethod> {
    palette: Palette,
    _spooky: PhantomData<T>,
}

impl<T: DistanceMethod> AnsiColorMap<T> {
    /// The palette that colours are mapped to.
    pub closed spec fn palette(&self) -> Palette {
        self.palette
    }

    /// A map to `palette`.
    pub fn new(palette: Palette) -> (m: AnsiColorMap<T>)
        ensures
            m.palette() == palette,
    {
        AnsiColorMap { palette, _spooky: PhantomData }
    }

    /// The palette that colours are mapped to.
    pub fn colors(&self) -> (p: &Palette)
        ensures
            *p == self.palette(),
    {
        &self.palette
    }

    /// The index that `color` maps back to, if the palette has the colour.
    pub fn reverse_lookup(&self, color: &[u8; 3]) -> (r: Option<u8>)
        ensures
            match r {
                Some(i) => self.palette().maps_back(color@, i as int),
                None => !self.palette().has_color(color@),
            },
    {
        self.palette.reverse_lookup(color)
    }

    /// The index of the palette colour for `color`: the index that the colour
    /// maps back to where the palette has it, else the nearest by `T`.
    pub fn index_of(&self, color: &Rgb) -> (idx: usize)
        ensures
            idx < 256,
            forall|i: int| self.palette().maps_back(color.0@, i) ==> idx == i,
            !self.palette().has_color(color.0@) || self.palette().maps_back(color.0@, idx as int),
    {
        match self.palette.reverse_lookup(&color.0) {
            Some(i) => i as usize,
            None => T::closest(&color.0),
        }
    }

    /// The colour at `idx`, if it is an index of the palette.
    pub fn lookup(&self, idx: usize) -> (r: Option<Rgb>)
        ensures
            match r {
                Some(c) => idx < 256 && c.0@ == self.palette().color(idx as int),
                None => idx >= 256,
            },
    {
        if idx < 256 {
            Some(Rgb(self.palette.get(idx as u8)))
        } else {
            None
        }
    }

    /// Whether `lookup` is there: it is.
    pub fn has_lookup(&self) -> (b: bool)
        ensures
            b,
    {
        true
    }

    /// Replaces `color` by the palette colour it maps to.
    pub fn map_color(&self, color: &mut Rgb)
        ensures
            exists|idx: int|
                0 <= idx < 256 && final(color).0@ == #[trigger] self.palette().color(idx),
            forall|i: int|
                self.palette().maps_back(old(color).0@, i) ==> final(color).0@ == old(color).0@,
    {
        let idx: usize = self.index_of(color);
        *color = Rgb(self.palette.get(idx as u8));
    }
}

} // verus!
