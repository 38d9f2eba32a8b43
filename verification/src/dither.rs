//! Ordered dithering after Thomas Knoll: for every pixel a handful of palette
//! colours whose mix comes near the pixel, one of which a Bayer matrix picks.

use vstd::prelude::*;

use crate::ansi::{ImageBuffer, Luma};
use crate::palette::{AnsiColorMap, DistanceMethod, Palette, Rgb};
use crate::bayer::MatrixSize;
use crate::candidates::{
    candidate_items, candidates_insert, candidates_new, candidates_slice, Candidates, Shade,
    MAX_CANDIDATES,
};

verus! {

/// How the 256 colours are reached.
#[derive(Clone, Copy, Debug, PartialEq, Eq, Structural)]
pub enum DitherMethod {
    FloydSteinberg,
    Pattern,
}

/// Whether the table of a gain leaves every channel as it is where the
/// error is 0.
pub open spec fn table_keeps_colors(table: Seq<u8>) -> bool {
    forall|color: int| 0 <= color < 256 ==> #[trigger] table[color * 256] == color
}

/// How the error that has gathered is added to a channel before the next
/// candidate is sought: for every value of a channel and every value of the
/// error, the value to look up. It stands for the channel plus the error
/// times a multiplier, kept within 0 and 255.
pub struct ErrorGain {
    table: Vec<u8>,
}

impl ErrorGain {
    #[verifier::type_invariant]
    spec fn well_formed(self) -> bool {
        self.table@.len() == 0x1_0000 && table_keeps_colors(self.table@)
    }

    /// Whether a channel stays as it is while no error has gathered. Every
    /// gain is so.
    pub open spec fn keeps_colors(&self) -> bool {
        forall|color: u8| self.boosted(color, 0) == color
    }

    /// The value to look up for the channel value `color` when the error
    /// gathered is `err`.
    pub closed spec fn boosted(&self, color: u8, err: u8) -> u8 {
        self.table@[color * 256 + err]
    }

    /// Whether the error is left out, as with a multiplier of zero.
    pub open spec fn is_identity(&self) -> bool {
        forall|color: u8, err: u8| self.boosted(color, err) == color
    }

    /// The gain of the multiplier zero: the error is left out.
    pub fn identity() -> (g: ErrorGain)
        ensures
            g.is_identity(),
            g.keeps_colors(),
    {
        let mut table: Vec<u8> = Vec::new();
        let mut i: usize = 0;
        while i < 0x1_0000
            invariant
                i <= 0x1_0000,
                table@.len() == i,
                forall|j: int| 0 <= j < i ==> (#[trigger] table@[j]) == j / 256,
            decreases 0x1_0000 - i,
        {
            table.push((i / 256) as u8);
            i = i + 1;
        }
        proof {
            assert forall|color: int| 0 <= color < 256 implies #[trigger] table@[color * 256]
                == color by {
                assert((color * 256) / 256 == color);
            }
        }
        let g = ErrorGain { table };
        proof {
            assert forall|color: u8, err: u8| g.boosted(color, err) == color by {
                assert((color * 256 + err) / 256 == color);
            }
        }
        g
    }

    /// The gain that `table` holds: at `256 * color + err` the value to look
    /// up. `None` where the table does not have 65536 entries, or changes a
    /// channel where the error is 0.
    pub fn from_table(table: Vec<u8>) -> (r: Option<ErrorGain>)
        ensures
            r is Some <==> table@.len() == 0x1_0000 && table_keeps_colors(table@),
            r matches Some(g) ==> g.keeps_colors() && forall|color: u8, err: u8|
                g.boosted(color, err) == table@[color * 256 + err],
    {
        if table.len() != 0x1_0000 {
            return None;
        }
        let mut color: usize = 0;
        while color < 256
            invariant
                color <= 256,
                table@.len() == 0x1_0000,
                forall|c: int| 0 <= c < color ==> #[trigger] table@[c * 256] == c,
            decreases 256 - color,
        {
            if table[color * 256] != color as u8 {
                return None;
            }
            color = color + 1;
        }
        let g = ErrorGain { table };
        proof {
            assert forall|c: u8| g.boosted(c, 0) == c by {
                assert(table@[c * 256] == c);
            }
        }
        Some(g)
    }

    /// The value to look up for the channel value `color` when the error
    /// gathered is `err`.
    pub fn boost(&self, color: u8, err: u8) -> (v: u8)
        ensures
            v == self.boosted(color, err),
            self.keeps_colors(),
    {
        proof {
            use_type_invariant(self);
            assert forall|c: u8| self.boosted(c, 0) == c by {
                assert(self.table@[c * 256] == c);
            }
        }
        self.table[(color as usize) * 256 + (err as usize)]
    }
}

/// `a + b`, but at most 255.
pub open spec fn sat_add(a: u8, b: u8) -> u8 {
    if a + b > 255 {
        255
    } else {
        (a + b) as u8
    }
}

/// `a - b`, but at least 0.
pub open spec fn sat_sub(a: u8, b: u8) -> u8 {
    if a < b {
        0
    } else {
        (a - b) as u8
    }
}

/// The brightness of a colour after BT.601, times 255000.
pub open spec fn luma(c: Seq<u8>) -> int {
    299 * c[0] + 587 * c[1] + 114 * c[2]
}

/// The error gathered in each channel after the first `k` candidates:
/// what the candidates so far lacked of the colour, channel by channel, every
/// sum and every difference kept within 0 and 255.
pub open spec fn errors_after(color: Seq<u8>, palette: Palette, choices: Seq<int>, k: int) -> Seq<
    u8,
>
    decreases k,
{
    if k <= 0 {
        seq![0u8, 0u8, 0u8]
    } else {
        let before = errors_after(color, palette, choices, k - 1);
        let chosen = palette.color(choices[k - 1]);
        seq![
            sat_add(before[0], sat_sub(color[0], chosen[0])),
            sat_add(before[1], sat_sub(color[1], chosen[1])),
            sat_add(before[2], sat_sub(color[2], chosen[2])),
        ]
    }
}

/// The colour that is looked up for the next candidate.
pub open spec fn mix_input(color: Seq<u8>, gain: ErrorGain, err: Seq<u8>) -> Seq<u8> {
    seq![
        gain.boosted(color[0], err[0]),
        gain.boosted(color[1], err[1]),
        gain.boosted(color[2], err[2]),
    ]
}

/// Whether `idx` may be the index that `input` is mapped to: any index of the
/// palette, but where the palette has the colour, the index that the colour
/// maps back to.
pub open spec fn quantizes(palette: Palette, input: Seq<u8>, idx: int) -> bool {
    &&& 0 <= idx < 256
    &&& forall|i: int| palette.maps_back(input, i) ==> idx == i
}

/// A candidate: the brightness of its colour and its index in the palette.
pub type Candidate = (int, int);

/// The candidates for the indices chosen, in the order in which they were
/// chosen.
pub open spec fn candidates_of(palette: Palette, choices: Seq<int>) -> Seq<Candidate> {
    Seq::new(choices.len(), |k: int| (luma(palette.color(choices[k])), choices[k]))
}

/// `sorted` with `e` put behind the last candidate that is not brighter.
pub open spec fn inserted(sorted: Seq<Candidate>, e: Candidate) -> Seq<Candidate>
    decreases sorted.len(),
{
    if sorted.len() == 0 {
        seq![e]
    } else if sorted.last().0 <= e.0 {
        sorted.push(e)
    } else {
        inserted(sorted.drop_last(), e).push(sorted.last())
    }
}

/// The candidates from dark to bright; of two that are equally bright the one
/// chosen earlier comes first.
pub open spec fn by_luma(candidates: Seq<Candidate>) -> Seq<Candidate>
    decreases candidates.len(),
{
    if candidates.len() == 0 {
        Seq::empty()
    } else {
        inserted(by_luma(candidates.drop_last()), candidates.last())
    }
}

/// Whether `r` is the index that mixing gives for a pixel of the colour
/// `color`, when the `n` look-ups gave the indices `choices`: each of them an
/// index that its input may be mapped to, and `r` the one at the place `pick`
/// among them from dark to bright.
pub open spec fn mixes(
    palette: Palette,
    gain: ErrorGain,
    color: Seq<u8>,
    n: int,
    pick: int,
    choices: Seq<int>,
    r: u8,
) -> bool {
    &&& choices.len() == n
    &&& forall|k: int|
        0 <= k < n ==> quantizes(
            palette,
            mix_input(color, gain, errors_after(color, palette, choices, k)),
            #[trigger] choices[k],
        )
    &&& r == by_luma(candidates_of(palette, choices))[pick].1
}

/// The error after `k` candidates depends on the first `k` choices alone.
pub proof fn lemma_errors_prefix(
    color: Seq<u8>,
    palette: Palette,
    a: Seq<int>,
    b: Seq<int>,
    k: int,
)
    requires
        0 <= k <= a.len(),
        k <= b.len(),
        forall|i: int| 0 <= i < k ==> a[i] == b[i],
    ensures
        errors_after(color, palette, a, k) == errors_after(color, palette, b, k),
    decreases k,
{
    if k > 0 {
        lemma_errors_prefix(color, palette, a, b, k - 1);
    }
}

/// Putting a candidate in leaves as many candidates and one more.
pub proof fn lemma_inserted_len(sorted: Seq<Candidate>, e: Candidate)
    ensures
        inserted(sorted, e).len() == sorted.len() + 1,
    decreases sorted.len(),
{
    if sorted.len() > 0 && sorted.last().0 > e.0 {
        lemma_inserted_len(sorted.drop_last(), e);
    }
}

/// Ordering keeps the number of candidates.
pub proof fn lemma_by_luma_len(candidates: Seq<Candidate>)
    ensures
        by_luma(candidates).len() == candidates.len(),
    decreases candidates.len(),
{
    if candidates.len() > 0 {
        lemma_by_luma_len(candidates.drop_last());
        lemma_inserted_len(by_luma(candidates.drop_last()), candidates.last());
    }
}

/// Putting `e` in at `p` is what `inserted` does, where the candidates from
/// `p` on are brighter than `e` and the one before `p` is not.
pub proof fn lemma_inserted_at(sorted: Seq<Candidate>, e: Candidate, p: int)
    requires
        0 <= p <= sorted.len(),
        forall|i: int| p <= i < sorted.len() ==> (#[trigger] sorted[i]).0 > e.0,
        p > 0 ==> sorted[p - 1].0 <= e.0,
    ensures
        inserted(sorted, e) == sorted.insert(p, e),
    decreases sorted.len() - p,
{
    if sorted.len() == 0 {
        assert(sorted.insert(p, e) =~= seq![e]);
    } else if p == sorted.len() {
        assert(sorted.insert(p, e) =~= sorted.push(e));
    } else {
        let front = sorted.drop_last();
        assert(sorted.last().0 > e.0);
        assert forall|i: int| p <= i < front.len() implies (#[trigger] front[i]).0 > e.0 by {
            assert(front[i] == sorted[i]);
        }
        if p > 0 {
            assert(front[p - 1] == sorted[p - 1]);
        }
        lemma_inserted_at(front, e, p);
        assert(front.insert(p, e).push(sorted.last()) =~= sorted.insert(p, e));
    }
}

/// Every candidate of the result of `inserted` is `e` or was there before.
pub proof fn lemma_inserted_members(sorted: Seq<Candidate>, e: Candidate, j: int)
    requires
        0 <= j < inserted(sorted, e).len(),
    ensures
        inserted(sorted, e)[j] == e || exists|i: int|
            0 <= i < sorted.len() && #[trigger] sorted[i] == inserted(sorted, e)[j],
    decreases sorted.len(),
{
    lemma_inserted_len(sorted, e);
    if sorted.len() == 0 {
    } else if sorted.last().0 <= e.0 {
        if j < sorted.len() {
            assert(sorted[j] == inserted(sorted, e)[j]);
        }
    } else {
        let front = sorted.drop_last();
        lemma_inserted_len(front, e);
        if j < sorted.len() {
            lemma_inserted_members(front, e, j);
            if inserted(front, e)[j] != e {
                let i = choose|i: int|
                    0 <= i < front.len() && #[trigger] front[i] == inserted(front, e)[j];
                assert(sorted[i] == inserted(sorted, e)[j]);
            }
        } else {
            assert(sorted[sorted.len() - 1] == inserted(sorted, e)[j]);
        }
    }
}

/// Every candidate of the ordered sequence is one of the candidates.
pub proof fn lemma_by_luma_members(candidates: Seq<Candidate>, j: int)
    requires
        0 <= j < candidates.len(),
    ensures
        by_luma(candidates).len() == candidates.len(),
        exists|i: int|
            0 <= i < candidates.len() && #[trigger] candidates[i] == by_luma(candidates)[j],
    decreases candidates.len(),
{
    lemma_by_luma_len(candidates);
    let front = candidates.drop_last();
    lemma_by_luma_len(front);
    lemma_inserted_members(by_luma(front), candidates.last(), j);
    if by_luma(candidates)[j] == candidates.last() {
        assert(candidates[candidates.len() - 1] == by_luma(candidates)[j]);
    } else {
        let m = choose|m: int|
            0 <= m < by_luma(front).len() && #[trigger] by_luma(front)[m] == by_luma(
                candidates,
            )[j];
        lemma_by_luma_members(front, m);
        let i = choose|i: int| 0 <= i < front.len() && #[trigger] front[i] == by_luma(front)[m];
        assert(candidates[i] == by_luma(candidates)[j]);
    }
}

/// The candidates that a vector holds.
pub open spec fn candidate_views(v: Seq<Shade>) -> Seq<Candidate> {
    Seq::new(v.len(), |i: int| (v[i].0 as int, v[i].1 as int))
}

/// The brightness of `c` after BT.601, times 255000.
fn luma_of(c: &[u8; 3]) -> (l: u32)
    ensures
        l == luma(c@),
{
    299 * (c[0] as u32) + 587 * (c[1] as u32) + 114 * (c[2] as u32)
}

/// Puts the candidate `(key, idx)` behind the last candidate of `sorted` that
/// is not brighter.
fn insert_candidate(sorted: &mut Candidates, key: u32, idx: u8)
    requires
        candidate_items(*old(sorted)).len() < MAX_CANDIDATES,
    ensures
        candidate_views(candidate_items(*final(sorted))) == inserted(
            candidate_views(candidate_items(*old(sorted))),
            (key as int, idx as int),
        ),
        candidate_items(*final(sorted)).len() == candidate_items(*old(sorted)).len() + 1,
{
    let ghost items = candidate_items(*sorted);
    let held: &[Shade] = candidates_slice(sorted);
    let mut p: usize = held.len();
    while p > 0 && held[p - 1].0 > key
        invariant
            p <= held@.len(),
            held@ == items,
            forall|i: int| p <= i < held@.len() ==> (#[trigger] held@[i]).0 > key,
        decreases p,
    {
        p = p - 1;
    }
    let ghost before = candidate_views(items);
    proof {
        assert forall|i: int| p <= i < before.len() implies (#[trigger] before[i]).0 > key by {
            assert(items[i].0 > key);
        }
        lemma_inserted_at(before, (key as int, idx as int), p as int);
    }
    candidates_insert(sorted, p, (key, idx));
    proof {
        assert(candidate_views(candidate_items(*sorted)) =~= before.insert(
            p as int,
            (key as int, idx as int),
        ));
    }
}

/// Whether each of the first `k` choices is an index that its input may be
/// mapped to.
spec fn choices_quantize(
    palette: Palette,
    gain: ErrorGain,
    color: Seq<u8>,
    choices: Seq<int>,
    k: int,
) -> bool
    decreases k,
{
    k <= 0 || (choices_quantize(palette, gain, color, choices, k - 1) && quantizes(
        palette,
        mix_input(color, gain, errors_after(color, palette, choices, k - 1)),
        choices[k - 1],
    ))
}

/// Whether the first `k` choices quantize depends on those choices alone.
proof fn lemma_choices_prefix(
    palette: Palette,
    gain: ErrorGain,
    color: Seq<u8>,
    a: Seq<int>,
    b: Seq<int>,
    k: int,
)
    requires
        0 <= k <= a.len(),
        k <= b.len(),
        forall|i: int| 0 <= i < k ==> a[i] == b[i],
    ensures
        choices_quantize(palette, gain, color, a, k) == choices_quantize(
            palette,
            gain,
            color,
            b,
            k,
        ),
    decreases k,
{
    if k > 0 {
        lemma_choices_prefix(palette, gain, color, a, b, k - 1);
        lemma_errors_prefix(color, palette, a, b, k - 1);
    }
}

/// What `choices_quantize` says of each choice.
proof fn lemma_choices_each(
    palette: Palette,
    gain: ErrorGain,
    color: Seq<u8>,
    choices: Seq<int>,
    k: int,
    j: int,
)
    requires
        choices_quantize(palette, gain, color, choices, k),
        0 <= j < k,
    ensures
        quantizes(
            palette,
            mix_input(color, gain, errors_after(color, palette, choices, j)),
            choices[j],
        ),
    decreases k,
{
    if j < k - 1 {
        lemma_choices_each(palette, gain, color, choices, k - 1, j);
    }
}

/// The colour that is looked up for the next candidate: the colour of the
/// pixel with the error that has gathered added in.
pub fn next_input(color: &[u8; 3], gain: &ErrorGain, errors: &[u8; 3]) -> (input: [u8; 3])
    ensures
        input@ == mix_input(color@, *gain, errors@),
{
    let input: [u8; 3] = [
        gain.boost(color[0], errors[0]),
        gain.boost(color[1], errors[1]),
        gain.boost(color[2], errors[2]),
    ];
    proof {
        assert(input@ =~= mix_input(color@, *gain, errors@));
    }
    input
}

/// The error that has gathered once a candidate of the colour `chosen` was
/// taken for a pixel of the colour `color`.
pub fn next_errors(color: &[u8; 3], chosen: &[u8; 3], errors: &[u8; 3]) -> (next: [u8; 3])
    ensures
        next@ == seq![
            sat_add(errors@[0], sat_sub(color@[0], chosen@[0])),
            sat_add(errors@[1], sat_sub(color@[1], chosen@[1])),
            sat_add(errors@[2], sat_sub(color@[2], chosen@[2])),
        ],
{
    let next: [u8; 3] = [
        errors[0].saturating_add(color[0].saturating_sub(chosen[0])),
        errors[1].saturating_add(color[1].saturating_sub(chosen[1])),
        errors[2].saturating_add(color[2].saturating_sub(chosen[2])),
    ];
    proof {
        assert(next@ =~= seq![
            sat_add(errors@[0], sat_sub(color@[0], chosen@[0])),
            sat_add(errors@[1], sat_sub(color@[1], chosen@[1])),
            sat_add(errors@[2], sat_sub(color@[2], chosen@[2])),
        ]);
    }
    next
}

/// The indices as integers.
pub open spec fn indices_of(choices: Seq<u8>) -> Seq<int> {
    Seq::new(choices.len(), |k: int| choices[k] as int)
}

/// Of the candidates at the palette indices `choices`, from dark to bright,
/// the index of the one at the place `pick_idx`; of two that are equally
/// bright the one that stands earlier in `choices` comes first.
pub fn pick_by_luma(palette: &Palette, choices: &[u8], pick_idx: usize) -> (r: u8)
    requires
        pick_idx < choices@.len() <= MAX_CANDIDATES,
    ensures
        r == by_luma(candidates_of(*palette, indices_of(choices@)))[pick_idx as int].1,
{
    let mut sorted: Candidates = candidates_new();
    let mut k: usize = 0;
    proof {
        assert(candidate_views(candidate_items(sorted)) =~= by_luma(
            candidates_of(*palette, indices_of(choices@).take(0)),
        ));
    }
    while k < choices.len()
        invariant
            k <= choices@.len() <= MAX_CANDIDATES,
            candidate_items(sorted).len() == k,
            candidate_views(candidate_items(sorted)) == by_luma(
                candidates_of(*palette, indices_of(choices@).take(k as int)),
            ),
        decreases choices@.len() - k,
    {
        let chosen: u8 = choices[k];
        let color: [u8; 3] = palette.get(chosen);
        let key: u32 = luma_of(&color);
        proof {
            let now = candidates_of(*palette, indices_of(choices@).take(k + 1));
            assert(now.drop_last() =~= candidates_of(
                *palette,
                indices_of(choices@).take(k as int),
            ));
            assert(now.last() == (key as int, chosen as int));
        }
        insert_candidate(&mut sorted, key, chosen);
        k = k + 1;
    }
    proof {
        assert(indices_of(choices@).take(k as int) =~= indices_of(choices@));
        lemma_by_luma_len(candidates_of(*palette, indices_of(choices@)));
    }
    candidates_slice(&sorted)[pick_idx].1
}

/// The index for a pixel of the colour `color`: `n` candidates are looked up,
/// each for the colour with the error of those before it added in, and of
/// them, from dark to bright, the one at `pick_idx` is taken.
pub fn mix<T: DistanceMethod>(
    color: [u8; 3],
    gain: &ErrorGain,
    color_map: &AnsiColorMap<T>,
    n: usize,
    pick_idx: usize,
) -> (r: u8)
    requires
        pick_idx < n <= MAX_CANDIDATES,
    ensures
        exists|choices: Seq<int>| #[trigger]
            mixes(color_map.palette(), *gain, color@, n as int, pick_idx as int, choices, r),
{
    let ghost palette = color_map.palette();
    let mut errors: [u8; 3] = [0, 0, 0];
    let mut choices: Vec<u8> = Vec::new();
    let mut k: usize = 0;
    proof {
        assert(errors@ =~= errors_after(color@, palette, indices_of(choices@), 0));
    }
    while k < n
        invariant
            k <= n <= MAX_CANDIDATES,
            palette == color_map.palette(),
            choices@.len() == k,
            errors@ == errors_after(color@, palette, indices_of(choices@), k as int),
            choices_quantize(palette, *gain, color@, indices_of(choices@), k as int),
        decreases n - k,
    {
        let input = Rgb(next_input(&color, gain, &errors));
        let chosen: usize = color_map.index_of(&input);
        let chosen_c: [u8; 3] = color_map.colors().get(chosen as u8);
        let ghost before = indices_of(choices@);
        choices.push(chosen as u8);
        proof {
            let now = indices_of(choices@);
            assert(now =~= before.push(chosen as int));
            lemma_errors_prefix(color@, palette, now, before, k as int);
            lemma_choices_prefix(palette, *gain, color@, now, before, k as int);
        }
        errors = next_errors(&color, &chosen_c, &errors);
        proof {
            assert(errors@ =~= errors_after(color@, palette, indices_of(choices@), k + 1));
        }
        k = k + 1;
    }
    let r: u8 = pick_by_luma(color_map.colors(), choices.as_slice(), pick_idx);
    proof {
        let all = indices_of(choices@);
        assert forall|j: int| 0 <= j < n implies quantizes(
            palette,
            mix_input(color@, *gain, errors_after(color@, palette, all, j)),
            #[trigger] all[j],
        ) by {
            lemma_choices_each(palette, *gain, color@, all, n as int, j);
        }
        assert(mixes(palette, *gain, color@, n as int, pick_idx as int, all, r));
    }
    r
}

/// The index for a pixel with the matrix of 2 by 2: one of four candidates.
pub fn mix_2x2<T: DistanceMethod>(
    color: [u8; 3],
    gain: &ErrorGain,
    color_map: &AnsiColorMap<T>,
    pick_idx: usize,
) -> (r: u8)
    requires
        pick_idx < 4,
    ensures
        exists|choices: Seq<int>| #[trigger]
            mixes(color_map.palette(), *gain, color@, 4, pick_idx as int, choices, r),
{
    mix(color, gain, color_map, 4, pick_idx)
}

/// The index for a pixel with the matrix of 4 by 4: one of sixteen candidates.
pub fn mix_4x4<T: DistanceMethod>(
    color: [u8; 3],
    gain: &ErrorGain,
    color_map: &AnsiColorMap<T>,
    pick_idx: usize,
) -> (r: u8)
    requires
        pick_idx < 16,
    ensures
        exists|choices: Seq<int>| #[trigger]
            mixes(color_map.palette(), *gain, color@, 16, pick_idx as int, choices, r),
{
    mix(color, gain, color_map, 16, pick_idx)
}

/// The index for a pixel with the matrix of 8 by 8: one of 64 candidates.
pub fn mix_8x8<T: DistanceMethod>(
    color: [u8; 3],
    gain: &ErrorGain,
    color_map: &AnsiColorMap<T>,
    pick_idx: usize,
) -> (r: u8)
    requires
        pick_idx < 64,
    ensures
        exists|choices: Seq<int>| #[trigger]
            mixes(color_map.palette(), *gain, color@, 64, pick_idx as int, choices, r),
{
    mix(color, gain, color_map, 64, pick_idx)
}

/// Whether `r` is an index that dithering may give to the pixel at `x`, `y`
/// of the colour `color`.
#[verifier::opaque]
pub open spec fn dithers(
    palette: Palette,
    gain: ErrorGain,
    matrix_size: MatrixSize,
    x: int,
    y: int,
    color: Seq<u8>,
    r: u8,
) -> bool {
    exists|choices: Seq<int>| #[trigger]
        mixes(
            palette,
            gain,
            color,
            matrix_size.side() * matrix_size.side(),
            matrix_size.threshold(x, y),
            choices,
            r,
        )
}

/// The palette index of every pixel of `image`, row after row: for the pixel
/// at `x`, `y` the candidate that the Bayer matrix picks at `x`, `y`.
pub fn dither<T: DistanceMethod>(
    image: &ImageBuffer<Rgb>,
    matrix_size: MatrixSize,
    gain: &ErrorGain,
    color_map: &AnsiColorMap<T>,
) -> (out: Vec<u8>)
    ensures
        out@.len() == image.pixels().len(),
        out@.len() == image.columns() * image.rows(),
        forall|i: int|
            0 <= i < out@.len() ==> dithers(
                color_map.palette(),
                *gain,
                matrix_size,
                i % image.columns(),
                i / image.columns(),
                image.pixels()[i].0@,
                #[trigger] out@[i],
            ),
{
    let width: usize = image.width() as usize;
    let pixels: &[Rgb] = image.as_slice();
    let n: usize = matrix_size.candidates();
    let mut out: Vec<u8> = Vec::new();
    let mut i: usize = 0;
    while i < pixels.len()
        invariant
            i <= pixels@.len(),
            out@.len() == i,
            pixels@ == image.pixels(),
            width == image.columns(),
            pixels@.len() == image.columns() * image.rows(),
            n == matrix_size.side() * matrix_size.side(),
            n <= MAX_CANDIDATES,
            forall|j: int|
                0 <= j < i ==> dithers(
                    color_map.palette(),
                    *gain,
                    matrix_size,
                    j % image.columns(),
                    j / image.columns(),
                    pixels@[j].0@,
                    #[trigger] out@[j],
                ),
        decreases pixels@.len() - i,
    {
        proof {
            if width == 0 {
                assert(image.columns() * image.rows() == 0) by (nonlinear_arith)
                    requires
                        image.columns() == 0,
                ;
            }
        }
        let x: usize = i % width;
        let y: usize = i / width;
        let index: u8 = mix(pixels[i].0, gain, color_map, n, matrix_size.pick(x, y));
        proof {
            reveal(dithers);
            assert(dithers(
                color_map.palette(),
                *gain,
                matrix_size,
                x as int,
                y as int,
                pixels@[i as int].0@,
                index,
            ));
        }
        out.push(index);
        i = i + 1;
    }
    out
}

/// Images that can be dithered.
pub trait PatternDither {
    /// The image of the palette indices that dithering gives to the pixels.
    fn pattern_dither<T: DistanceMethod>(
        &self,
        matrix_size: MatrixSize,
        gain: &ErrorGain,
        color_map: &AnsiColorMap<T>,
    ) -> (r: ImageBuffer<Luma>);
}

impl PatternDither for ImageBuffer<Rgb> {
    fn pattern_dither<T: DistanceMethod>(
        &self,
        matrix_size: MatrixSize,
        gain: &ErrorGain,
        color_map: &AnsiColorMap<T>,
    ) -> (r: ImageBuffer<Luma>)
        ensures
            r.columns() == self.columns(),
            r.rows() == self.rows(),
            r.pixels().len() == self.pixels().len(),
            forall|i: int|
                0 <= i < r.pixels().len() ==> dithers(
                    color_map.palette(),
                    *gain,
                    matrix_size,
                    i % self.columns(),
                    i / self.columns(),
                    self.pixels()[i].0@,
                    (#[trigger] r.pixels()[i]).0@[0],
                ),
    {
        let dithered: Vec<u8> = dither(self, matrix_size, gain, color_map);
        indexed_image(self.width(), self.height(), dithered)
    }
}

/// The image of `width` by `height` pixels with the palette indices
/// `indices`.
pub fn indexed_image(width: u32, height: u32, indices: Vec<u8>) -> (r: ImageBuffer<Luma>)
    requires
        indices@.len() == width * height,
    ensures
        r.columns() == width,
        r.rows() == height,
        r.pixels().len() == indices@.len(),
        forall|i: int| 0 <= i < indices@.len() ==> (#[trigger] r.pixels()[i]).0@[0] == indices@[i],
{
    let mut pixels: Vec<Luma> = Vec::new();
    let mut i: usize = 0;
    while i < indices.len()
        invariant
            i <= indices@.len(),
            pixels@.len() == i,
            forall|j: int| 0 <= j < i ==> (#[trigger] pixels@[j]).0@[0] == indices@[j],
        decreases indices@.len() - i,
    {
        pixels.push(Luma([indices[i]]));
        i = i + 1;
    }
    match ImageBuffer::from_vec(width, height, pixels) {
        Some(image) => image,
        None => {
            proof {
                assert(false);
            }
            vstd::pervasive::unreached()
        },
    }
}

/// For a pixel whose colour the palette has, no error gathers: every look-up
/// is of the colour itself and gives the index that the colour maps back to.
pub proof fn lemma_palette_color_gathers_no_error(
    palette: Palette,
    gain: ErrorGain,
    color: Seq<u8>,
    choices: Seq<int>,
    i: int,
    k: int,
)
    requires
        gain.keeps_colors(),
        color.len() == 3,
        palette.maps_back(color, i),
        0 <= k <= choices.len(),
        forall|j: int|
            0 <= j < k ==> quantizes(
                palette,
                mix_input(color, gain, errors_after(color, palette, choices, j)),
                #[trigger] choices[j],
            ),
    ensures
        errors_after(color, palette, choices, k) == seq![0u8, 0u8, 0u8],
        forall|j: int| 0 <= j < k ==> #[trigger] choices[j] == i,
    decreases k,
{
    if k > 0 {
        lemma_palette_color_gathers_no_error(palette, gain, color, choices, i, k - 1);
        let before = errors_after(color, palette, choices, k - 1);
        assert(mix_input(color, gain, before) =~= color);
        assert(quantizes(palette, mix_input(color, gain, before), choices[k - 1]));
        assert(choices[k - 1] == i);
        assert(errors_after(color, palette, choices, k) =~= seq![0u8, 0u8, 0u8]);
    }
}

/// For a pixel whose colour the palette has, mixing gives the index that the
/// colour maps back to, whatever the gain and whatever the matrix picks: a
/// plain area of a palette colour stays plain.
pub proof fn law_mix_of_palette_color(
    palette: Palette,
    gain: ErrorGain,
    color: Seq<u8>,
    n: int,
    pick: int,
    choices: Seq<int>,
    r: u8,
    i: int,
)
    requires
        gain.keeps_colors(),
        color.len() == 3,
        0 <= pick < n,
        palette.maps_back(color, i),
        mixes(palette, gain, color, n, pick, choices, r),
    ensures
        r == i,
{
    let candidates = candidates_of(palette, choices);
    lemma_palette_color_gathers_no_error(palette, gain, color, choices, i, n);
    lemma_by_luma_members(candidates, pick);
    let m = choose|m: int|
        0 <= m < candidates.len() && #[trigger] candidates[m] == by_luma(candidates)[pick];
    assert(candidates[m].1 == choices[m]);
}

/// Without error every look-up is of the pixel's own colour; and where all
/// look-ups gave one index, mixing gives that index, whatever the matrix
/// picks: a plain area stays plain.
pub proof fn law_mix_without_error(
    palette: Palette,
    gain: ErrorGain,
    color: Seq<u8>,
    n: int,
    pick: int,
    choices: Seq<int>,
    r: u8,
    c: int,
)
    requires
        gain.is_identity(),
        color.len() == 3,
        0 <= pick < n,
        mixes(palette, gain, color, n, pick, choices, r),
    ensures
        forall|k: int|
            0 <= k < n ==> #[trigger] mix_input(
                color,
                gain,
                errors_after(color, palette, choices, k),
            ) == color,
        (forall|k: int| 0 <= k < n ==> #[trigger] choices[k] == c) ==> r == c,
{
    assert forall|k: int| 0 <= k < n implies #[trigger] mix_input(
        color,
        gain,
        errors_after(color, palette, choices, k),
    ) == color by {
        assert(mix_input(color, gain, errors_after(color, palette, choices, k)) =~= color);
    }
    if forall|k: int| 0 <= k < n ==> #[trigger] choices[k] == c {
        let candidates = candidates_of(palette, choices);
        lemma_by_luma_members(candidates, pick);
        let m = choose|m: int|
            0 <= m < candidates.len() && #[trigger] candidates[m] == by_luma(candidates)[pick];
        assert(candidates[m].1 == choices[m]);
    }
}

} // verus!
