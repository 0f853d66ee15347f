//! The pieces shared by the encoder and the decoder: the interpolation
//! predicate, the neighbour coefficients, the weighted-average predictors,
//! the gradient quantiser, and the per-line processing schedule.
use crate::bits::pow2n;
use crate::colored::Colored;
use crate::Color;
use vstd::prelude::*;

verus! {

/// Sentinel marking a slot not yet filled; samples are 14-bit, so this can
/// never be a legitimate value.
pub const UNSET: u16 = 0xFFFF;

/// The exclusive upper bound of legitimate 14-bit sensor samples.
pub const SAMPLE_LIMIT: u16 = 16384;

/// Every value of the row is a legitimate sample.
pub open spec fn all_samples(s: Seq<u16>) -> bool {
    forall|i: int| 0 <= i < s.len() ==> #[trigger] s[i] < SAMPLE_LIMIT
}

/// Which (colour, row-within-line, index) slots the remapper never fills
/// from the sensor, and the codec therefore always interpolates and never
/// codes.  This table is part of the wire format.
pub open spec fn interpolated_spec(color: Color, row: int, idx: int) -> bool {
    if idx % 2 == 1 {
        false
    } else {
        match color {
            Color::Red => row == 0 || (row == 1 && idx % 4 == 0) || (row == 2 && idx % 4 == 2),
            Color::Green => row == 2 || row == 5,
            Color::Blue => row == 0 || (row == 1 && idx % 4 == 2) || (row == 2 && idx % 4 == 0),
        }
    }
}

pub fn is_interpolated(color: Color, row: usize, idx: usize) -> (r: bool)
    ensures
        r == interpolated_spec(color, row as int, idx as int),
{
    if idx % 2 == 1 {
        // Odd indices are never interpolated.
        false
    } else {
        match color {
            Color::Red => (row == 0) || (row == 1 && idx % 4 == 0) || (row == 2 && idx % 4 == 2),
            Color::Green => (row == 2) || (row == 5),
            Color::Blue => (row == 0) || (row == 1 && idx % 4 == 2) || (row == 2 && idx % 4 == 0),
        }
    }
}

/// The absolute value of a signed quantity.
pub open spec fn iabs(x: int) -> int {
    if x >= 0 {
        x
    } else {
        -x
    }
}

/// The absolute difference of two values.
pub open spec fn dist(v: int, n: int) -> int {
    if v >= n {
        v - n
    } else {
        n - v
    }
}

/// The neighbours an even-indexed slot is predicted from.
#[derive(Debug, Clone, Copy, PartialEq, Eq, Structural)]
pub struct EvenCoefficients {
    pub north: u16,
    pub northwest: u16,
    pub northeast: u16,
    pub very_north: u16,
}

pub open spec fn even_coefficients_wf(ec: EvenCoefficients) -> bool {
    &&& ec.north < SAMPLE_LIMIT
    &&& ec.northwest < SAMPLE_LIMIT
    &&& ec.northeast < SAMPLE_LIMIT
    &&& ec.very_north < SAMPLE_LIMIT
}

/// The even predictor: of the three outer neighbours, the two closest to
/// `north` are averaged with twice `north`; when `northwest` and `northeast`
/// are equidistant from `north` those two are always the pair taken,
/// whatever `very_north` looks like.
pub open spec fn wavg_even_spec(ec: EvenCoefficients) -> int {
    let n = ec.north as int;
    let nw = ec.northwest as int;
    let ne = ec.northeast as int;
    let vn = ec.very_north as int;
    let pair = if dist(nw, n) > dist(vn, n) && dist(nw, n) > dist(ne, n) {
        (vn, ne)
    } else if dist(ne, n) > dist(nw, n) && dist(ne, n) > dist(vn, n) {
        (nw, vn)
    } else {
        (nw, ne)
    };
    (pair.0 + pair.1 + 2 * n) / 4
}

pub fn compute_weighted_average_even(ec: EvenCoefficients) -> (r: u16)
    requires
        even_coefficients_wf(ec),
    ensures
        r == wavg_even_spec(ec),
        r < SAMPLE_LIMIT,
{
    let n = ec.north as u32;
    let d_nw = dist_exec(ec.northwest, ec.north);
    let d_ne = dist_exec(ec.northeast, ec.north);
    let d_vn = dist_exec(ec.very_north, ec.north);
    let (a, b) = if d_nw > d_vn && d_nw > d_ne {
        (ec.very_north as u32, ec.northeast as u32)
    } else if d_ne > d_nw && d_ne > d_vn {
        (ec.northwest as u32, ec.very_north as u32)
    } else {
        (ec.northwest as u32, ec.northeast as u32)
    };
    ((a + b + 2 * n) / 4) as u16
}

/// The absolute difference of two samples.
fn dist_exec(v: u16, n: u16) -> (r: u16)
    ensures
        r == dist(v as int, n as int),
{
    if v >= n {
        v - n
    } else {
        n - v
    }
}

/// The neighbours an odd-indexed slot is predicted from.
#[derive(Debug, Clone, Copy, PartialEq, Eq, Structural)]
pub struct OddCoefficients {
    pub west: u16,
    pub north: u16,
    pub north_west: u16,
    pub north_east: u16,
    pub east: u16,
}

pub open spec fn odd_coefficients_wf(oc: OddCoefficients) -> bool {
    &&& oc.west < SAMPLE_LIMIT
    &&& oc.north < SAMPLE_LIMIT
    &&& oc.north_west < SAMPLE_LIMIT
    &&& oc.north_east < SAMPLE_LIMIT
    &&& oc.east < SAMPLE_LIMIT
}

/// The odd predictor: when `north` is a local extremum against its
/// neighbours in the row above, it joins the average of `east` and `west`;
/// otherwise only `east` and `west` are averaged.
pub open spec fn wavg_odd_spec(oc: OddCoefficients) -> int {
    let w = oc.west as int;
    let n = oc.north as int;
    let nw = oc.north_west as int;
    let ne = oc.north_east as int;
    let e = oc.east as int;
    if (n > nw && n > ne) || (n < nw && n < ne) {
        (e + w + 2 * n) / 4
    } else {
        (w + e) / 2
    }
}

pub fn compute_weighted_average_odd(oc: OddCoefficients) -> (r: u16)
    requires
        odd_coefficients_wf(oc),
    ensures
        r == wavg_odd_spec(oc),
        r < SAMPLE_LIMIT,
{
    if (oc.north > oc.north_west && oc.north > oc.north_east) || (oc.north < oc.north_west
        && oc.north < oc.north_east) {
        ((oc.east as u32 + oc.west as u32 + 2 * (oc.north as u32)) / 4) as u16
    } else {
        ((oc.west as u32 + oc.east as u32) / 2) as u16
    }
}

/// What `load_even_coefficients` gathers, as a function of the two previous
/// rows.
pub open spec fn even_coefficients_of(rprev: Seq<u16>, rprevprev: Seq<u16>, idx: int) -> EvenCoefficients {
    EvenCoefficients {
        north: rprev[idx],
        northwest: if idx == 0 {
            rprevprev[0]
        } else {
            rprev[idx - 1]
        },
        northeast: rprev[idx + 1],
        very_north: rprevprev[idx],
    }
}

pub fn load_even_coefficients(rprev: &Vec<u16>, rprevprev: &Vec<u16>, idx: usize) -> (r:
    EvenCoefficients)
    requires
        rprev@.len() % 2 == 0,
        rprev@.len() == rprevprev@.len(),
        idx % 2 == 0,
        idx < rprev@.len(),
    ensures
        r == even_coefficients_of(rprev@, rprevprev@, idx as int),
{
    let leftmost_other = if idx == 0 {
        rprevprev[0]
    } else {
        rprev[idx - 1]
    };
    EvenCoefficients {
        north: rprev[idx],
        northwest: leftmost_other,
        // The row width is even, so an even index always has a successor.
        northeast: rprev[idx + 1],
        very_north: rprevprev[idx],
    }
}

/// What `load_odd_coefficients` gathers; at the last column the east pair
/// falls back to the rightmost values of the rows above.
pub open spec fn odd_coefficients_of(
    rprevprev: Seq<u16>,
    rprev: Seq<u16>,
    rthis: Seq<u16>,
    idx: int,
) -> OddCoefficients {
    let last = rprev.len() - 1;
    OddCoefficients {
        west: rthis[idx - 1],
        north: rprev[idx],
        north_west: rprev[idx - 1],
        north_east: if idx == last {
            rprevprev[last]
        } else {
            rprev[idx + 1]
        },
        east: if idx == last {
            rprev[last]
        } else {
            rthis[idx + 1]
        },
    }
}

pub fn load_odd_coefficients(
    rprevprev: &Vec<u16>,
    rprev: &Vec<u16>,
    rthis: &Vec<u16>,
    idx: usize,
) -> (r: OddCoefficients)
    requires
        rprev@.len() % 2 == 0,
        rprev@.len() == rprevprev@.len(),
        rprev@.len() == rthis@.len(),
        idx % 2 == 1,
        idx < rprev@.len(),
    ensures
        r == odd_coefficients_of(rprevprev@, rprev@, rthis@, idx as int),
{
    let last_idx = rprev.len() - 1;
    let (rightmost_rprev, rightmost_rthis) = if idx == last_idx {
        (rprevprev[rprevprev.len() - 1], rprev[rprev.len() - 1])
    } else {
        (rprev[idx + 1], rthis[idx + 1])
    };
    OddCoefficients {
        west: rthis[idx - 1],
        north: rprev[idx],
        north_west: rprev[idx - 1],
        north_east: rightmost_rprev,
        east: rightmost_rthis,
    }
}

/// The quantiser that maps a signed difference to one of nine buckets, with
/// fixed thresholds at magnitudes 0x12, 0x43 and 0x114.
pub open spec fn q_value_spec(v: int) -> int {
    if v <= -0x114 {
        -4
    } else if v <= -0x43 {
        -3
    } else if v <= -0x12 {
        -2
    } else if v < 0 {
        -1
    } else if v == 0 {
        0
    } else if v < 0x12 {
        1
    } else if v < 0x43 {
        2
    } else if v < 0x114 {
        3
    } else {
        4
    }
}

pub fn q_value(v: i32) -> (r: i32)
    ensures
        r == q_value_spec(v as int),
        -4 <= r <= 4,
{
    if v <= -0x114 {
        -4
    } else if v <= -0x43 {
        -3
    } else if v <= -0x12 {
        -2
    } else if v < 0 {
        -1
    } else if v == 0 {
        0
    } else if v < 0x12 {
        1
    } else if v < 0x43 {
        2
    } else if v < 0x114 {
        3
    } else {
        4
    }
}

/// The gradient context index an even slot selects: nine times the
/// quantised north/very-north difference plus the quantised
/// northwest/north difference.
pub open spec fn even_grad_spec(ec: EvenCoefficients) -> int {
    9 * q_value_spec(ec.north - ec.very_north) + q_value_spec(ec.northwest - ec.north)
}

/// The even predictor and context index for one slot.
pub fn grad_and_weighted_avg_even(idx: usize, rprevprev: &Vec<u16>, rprev: &Vec<u16>) -> (r: (
    u16,
    i32,
))
    requires
        rprev@.len() % 2 == 0,
        rprev@.len() == rprevprev@.len(),
        idx % 2 == 0,
        idx < rprev@.len(),
        all_samples(rprev@),
        all_samples(rprevprev@),
    ensures
        r.0 == wavg_even_spec(even_coefficients_of(rprev@, rprevprev@, idx as int)),
        r.0 < SAMPLE_LIMIT,
        r.1 == even_grad_spec(even_coefficients_of(rprev@, rprevprev@, idx as int)),
        -40 <= r.1 <= 40,
    {
    let ec = load_even_coefficients(rprev, rprevprev, idx);
    let weighted_average = compute_weighted_average_even(ec);
    let which_grad = 9 * q_value(ec.north as i32 - ec.very_north as i32) + q_value(
        ec.northwest as i32 - ec.north as i32,
    );
    (weighted_average, which_grad)
}

/// The gradient context index an odd slot selects.
pub open spec fn odd_grad_spec(oc: OddCoefficients) -> int {
    9 * q_value_spec(oc.north - oc.north_west) + q_value_spec(oc.north_west - oc.west)
}

/// The odd predictor and context index for one slot.
pub fn grad_and_weighted_avg_odd(
    idx: usize,
    rprevprev: &Vec<u16>,
    rprev: &Vec<u16>,
    rthis: &Vec<u16>,
) -> (r: (u16, i32))
    requires
        rprev@.len() % 2 == 0,
        rprev@.len() == rprevprev@.len(),
        rprev@.len() == rthis@.len(),
        idx % 2 == 1,
        idx < rprev@.len(),
        all_samples(rprev@),
        all_samples(rprevprev@),
        rthis@[idx - 1] < SAMPLE_LIMIT,
        idx + 1 < rthis@.len() ==> rthis@[idx + 1] < SAMPLE_LIMIT,
    ensures
        r.0 == wavg_odd_spec(odd_coefficients_of(rprevprev@, rprev@, rthis@, idx as int)),
        r.0 < SAMPLE_LIMIT,
        r.1 == odd_grad_spec(odd_coefficients_of(rprevprev@, rprev@, rthis@, idx as int)),
        -40 <= r.1 <= 40,
    {
    let oc = load_odd_coefficients(rprevprev, rprev, rthis, idx);
    let weighted_average = compute_weighted_average_odd(oc);
    let which_grad = 9 * q_value(oc.north as i32 - oc.north_west as i32) + q_value(
        oc.north_west as i32 - oc.west as i32,
    );
    (weighted_average, which_grad)
}

/// Splits `value` at `bit`: for the result `(a, b)`, `value` is
/// `a * 2^bit + b` with `b < 2^bit`.
pub fn split_at(value: u16, bit: u8) -> (r: (u16, u16))
    requires
        bit <= 15,
    ensures
        r.0 == value as int / pow2n(bit as nat) as int,
        r.1 == value as int % pow2n(bit as nat) as int,
        value == r.0 * pow2n(bit as nat) + r.1,
        r.1 < pow2n(bit as nat),
{
    let p = crate::bits::pow2_exec(bit as usize);
    proof {
        crate::bits::lemma_pow2n_pos(bit as nat);
        crate::bits::lemma_pow2n_le(bit as nat, 15);
        reveal_with_fuel(pow2n, 17);
        assert(pow2n(15) == 0x8000);
    }
    let upper = (value as u32 / p) as u16;
    let lower = (value as u32 % p) as u16;
    proof {
        let v = value as int;
        let w = pow2n(bit as nat) as int;
        vstd::arithmetic::div_mod::lemma_fundamental_div_mod(v, w);
        assert(v == w * (v / w) + v % w);
        assert(upper == v / w && lower == v % w);
        assert(w * (v / w) == (v / w) * w) by (nonlinear_arith);
        assert(upper * w == (v / w) * w);
    }
    (upper, lower)
}

/// One entry of the fixed per-line schedule: two (colour, row) streams
/// processed in lock-step, and the gradient set they share.
pub open spec fn schedule_spec(i: int) -> ((Color, int), (Color, int), int) {
    if i == 0 {
        ((Color::Red, 0), (Color::Green, 0), 0)
    } else if i == 1 {
        ((Color::Green, 1), (Color::Blue, 0), 1)
    } else if i == 2 {
        ((Color::Red, 1), (Color::Green, 2), 2)
    } else if i == 3 {
        ((Color::Green, 3), (Color::Blue, 1), 0)
    } else if i == 4 {
        ((Color::Red, 2), (Color::Green, 4), 1)
    } else {
        ((Color::Green, 5), (Color::Blue, 2), 2)
    }
}

/// The fixed six-entry schedule in which the codec walks a line: samples
/// are made interleaving two colour rows at a time.
pub fn process_entry(i: usize) -> (r: ((Color, usize), (Color, usize), usize))
    requires
        i < 6,
    ensures
        ((r.0.0, r.0.1 as int), (r.1.0, r.1.1 as int), r.2 as int) == schedule_spec(i as int),
        r.0.1 < color_rows(r.0.0) && r.1.1 < color_rows(r.1.0) && r.2 < 3,
{
    if i == 0 {
        ((Color::Red, 0), (Color::Green, 0), 0)
    } else if i == 1 {
        ((Color::Green, 1), (Color::Blue, 0), 1)
    } else if i == 2 {
        ((Color::Red, 1), (Color::Green, 2), 2)
    } else if i == 3 {
        ((Color::Green, 3), (Color::Blue, 1), 0)
    } else if i == 4 {
        ((Color::Red, 2), (Color::Green, 4), 1)
    } else {
        ((Color::Green, 5), (Color::Blue, 2), 2)
    }
}

/// Splits an option of a pair into a pair of options.
pub fn flatten<A, B>(opt: Option<(A, B)>) -> (r: (Option<A>, Option<B>))
    ensures
        opt matches Some(p) ==> r.0 == Some(p.0) && r.1 == Some(p.1),
        opt is None ==> r.0 is None && r.1 is None,
{
    match opt {
        Some((a, b)) => (Some(a), Some(b)),
        None => (None, None),
    }
}

/// A fresh copy of one row.
pub fn copy_row(v: &Vec<u16>) -> (r: Vec<u16>)
    ensures
        r@ == v@,
{
    let mut out: Vec<u16> = Vec::new();
    let mut i: usize = 0;
    while i < v.len()
        invariant
            i <= v@.len(),
            out@ == v@.subrange(0, i as int),
        decreases v@.len() - i,
    {
        out.push(v[i]);
        proof {
            assert(out@ =~= v@.subrange(0, i + 1));
        }
        i = i + 1;
    }
    proof {
        assert(out@ =~= v@);
    }
    out
}

/// A value that is either a legitimate sample or the fill sentinel.
pub open spec fn sample_or_unset(x: u16) -> bool {
    x < SAMPLE_LIMIT || x == UNSET
}

pub open spec fn row_flexible(s: Seq<u16>) -> bool {
    forall|i: int| 0 <= i < s.len() ==> sample_or_unset(#[trigger] s[i])
}

/// The squashed index: where column `p` of a native sensor row lands in its
/// colour's flat buffer.  Produces the pattern 0,1,1,2,3,3,4,5,5,...
pub open spec fn sq(p: int) -> int {
    if p <= 0 {
        0
    } else {
        ((p - 1) * 2) / 3 + 1
    }
}

pub fn squashed_index(pos: usize) -> (r: usize)
    requires
        pos < 0x1000_0000,
    ensures
        r == sq(pos as int),
{
    if pos == 0 {
        0
    } else {
        ((pos - 1) * 2) / 3 + 1
    }
}

/// Consecutive columns move the squashed index by one, except the second
/// column of each three-column group, which shares its predecessor's slot.
pub proof fn lemma_sq_step(p: int)
    requires
        p >= 0,
    ensures
        sq(p + 1) == sq(p) + (if p % 3 == 1 {
            0int
        } else {
            1int
        }),
{
    if p == 0 {
    } else {
        let q = p - 1;
        vstd::arithmetic::div_mod::lemma_fundamental_div_mod(q, 3);
        let k = q / 3;
        let t = q % 3;
        assert(q == 3 * k + t && 0 <= t < 3);
        vstd::arithmetic::div_mod::lemma_hoist_over_denominator(2 * t, 2 * k, 3);
        vstd::arithmetic::div_mod::lemma_hoist_over_denominator(2 * t + 2, 2 * k, 3);
        assert(2 * q == 2 * t + 2 * k * 3 && 2 * q + 2 == 2 * t + 2 + 2 * k * 3);
        vstd::arithmetic::div_mod::lemma_mod_multiples_vanish(k, t + 1, 3);
        assert(p % 3 == (t + 1) % 3);
    }
}

pub proof fn lemma_sq_mono(q: int, p: int)
    requires
        0 <= q <= p,
    ensures
        sq(q) <= sq(p),
    decreases p - q,
{
    if q < p {
        lemma_sq_step(p - 1);
        lemma_sq_mono(q, p - 1);
    }
}

/// Two distinct columns share a squashed slot only as the neighbouring pair
/// of a three-column group.
pub proof fn lemma_sq_collision(q: int, p: int)
    requires
        0 <= q < p,
        sq(q) == sq(p),
    ensures
        p == q + 1 && q % 3 == 1,
    decreases p - q,
{
    lemma_sq_step(q);
    if p == q + 1 {
        if q % 3 != 1 {
            assert(sq(q + 1) == sq(q) + 1);
        }
    } else {
        lemma_sq_step(q + 1);
        lemma_sq_mono(q + 2, p);
        assert((q % 3 == 1) ==> (q + 1) % 3 != 1);
    }
}

/// Picks one of three per-colour rows by colour.
pub open spec fn sel3(red: Seq<u16>, green: Seq<u16>, blue: Seq<u16>, c: Color) -> Seq<u16> {
    match c {
        Color::Red => red,
        Color::Green => green,
        Color::Blue => blue,
    }
}

/// The colour of column `p` under a six-periodic row of colours.
pub open spec fn row_color(colors: Seq<Color>, p: int) -> Color {
    colors[p % 6]
}

/// The colours of a row pattern never make two columns of one colour share
/// a squashed slot: the second and third columns of each half differ.
pub open spec fn no_color_collision(colors: Seq<Color>) -> bool {
    colors[1] != colors[2] && colors[4] != colors[5]
}

/// Whether any column of the row lands in slot `j` of colour `c`'s
/// buffer.
pub open spec fn slot_targeted(colors: Seq<Color>, c: Color, j: int, width: int) -> bool {
    exists|p: int| 0 <= p < width && row_color(colors, p) == c && #[trigger] sq(p) == j
}

/// What the forward remapper guarantees of the three flat buffers.
pub open spec fn remap_written(
    row: Seq<u16>,
    colors: Seq<Color>,
    red: Seq<u16>,
    green: Seq<u16>,
    blue: Seq<u16>,
) -> bool {
    forall|p: int|
        0 <= p < row.len() ==> sel3(red, green, blue, row_color(colors, p))[sq(p)] == #[trigger] row[p]
}

/// What the inverse remapper computes for each column of a native row.
pub open spec fn unremap_read(
    colors: Seq<Color>,
    red: Seq<u16>,
    green: Seq<u16>,
    blue: Seq<u16>,
    out: Seq<u16>,
) -> bool {
    forall|p: int|
        0 <= p < out.len() ==> #[trigger] out[p] == sel3(red, green, blue, row_color(colors, p))[sq(
            p,
        )]
}

/// What the gap filler leaves behind: sentinel slots take the even
/// predictor of the rows above, everything else stays.
pub open spec fn fill_post(
    row: Seq<u16>,
    rprev: Seq<u16>,
    rprevprev: Seq<u16>,
    out: Seq<u16>,
) -> bool {
    &&& out.len() == row.len()
    &&& forall|i: int|
        0 <= i < row.len() ==> #[trigger] out[i] == (if row[i] == UNSET {
            wavg_even_spec(even_coefficients_of(rprev, rprevprev, i)) as u16
        } else {
            row[i]
        })
}

/// The rows of a buffer stack as plain sequences.
pub open spec fn rows_views(v: Seq<Vec<u16>>) -> Seq<Seq<u16>> {
    Seq::new(v.len(), |i: int| v[i]@)
}

/// One flat row after gap filling: sentinel slots take the even predictor
/// over the two rows above, everything else stays.
pub open spec fn fill_row_spec(row: Seq<u16>, rprev: Seq<u16>, rprevprev: Seq<u16>) -> Seq<u16> {
    Seq::new(
        row.len(),
        |i: int|
            if row[i] == UNSET {
                wavg_even_spec(even_coefficients_of(rprev, rprevprev, i)) as u16
            } else {
                row[i]
            },
    )
}

/// One colour's first `k` rows after gap filling in order: each row is
/// filled against the two filled rows above it, the first two against the
/// carry record.
pub open spec fn filled_rows_spec(
    orig: Seq<Seq<u16>>,
    carry0: Seq<u16>,
    carry1: Seq<u16>,
    k: int,
) -> Seq<Seq<u16>>
    decreases k,
{
    if k <= 0 {
        Seq::empty()
    } else {
        let done = filled_rows_spec(orig, carry0, carry1, k - 1);
        let pr = if k - 1 == 0 {
            (carry0, carry1)
        } else if k - 1 == 1 {
            (carry1, done[0])
        } else {
            (done[k - 3], done[k - 2])
        };
        done.push(fill_row_spec(orig[k - 1], pr.1, pr.0))
    }
}

pub proof fn lemma_filled_len(orig: Seq<Seq<u16>>, c0: Seq<u16>, c1: Seq<u16>, k: int)
    ensures
        filled_rows_spec(orig, c0, c1, k).len() == (if k <= 0 {
            0int
        } else {
            k
        }),
    decreases k,
{
    if k > 0 {
        lemma_filled_len(orig, c0, c1, k - 1);
    }
}

/// Gap filling only writes sentinel slots: every value already present
/// survives the whole fill chain.
pub proof fn lemma_filled_keeps_values(
    orig: Seq<Seq<u16>>,
    c0: Seq<u16>,
    c1: Seq<u16>,
    k: int,
    i: int,
    j: int,
)
    requires
        0 <= i < k,
        k <= orig.len(),
        0 <= j < orig[i].len(),
        orig[i][j] != UNSET,
    ensures
        filled_rows_spec(orig, c0, c1, k)[i][j] == orig[i][j],
    decreases k,
{
    lemma_filled_len(orig, c0, c1, k - 1);
    if i < k - 1 {
        lemma_filled_keeps_values(orig, c0, c1, k - 1, i, j);
    }
}

/// No row of the stack holds the sentinel in an odd slot.
pub open spec fn no_odd_sentinel(orig: Seq<Seq<u16>>) -> bool {
    forall|i: int, j: int|
        0 <= i < orig.len() && 0 <= j < orig[i].len() && j % 2 == 1 ==> #[trigger] orig[i][j]
            != UNSET
}

/// How many flat buffer rows one line holds for each colour: green is too
/// dense to share, red and blue stack two sensor rows a buffer row.
pub open spec fn color_rows(c: Color) -> int {
    match c {
        Color::Red => 3,
        Color::Green => 6,
        Color::Blue => 3,
    }
}

/// A stack of per-colour rows with the given shape.
pub open spec fn rows_wf(v: Seq<Vec<u16>>, rows: int, width: int) -> bool {
    &&& v.len() == rows
    &&& forall|i: int| 0 <= i < rows ==> #[trigger] v[i]@.len() == width
}

/// Every row holds legitimate samples only.
pub open spec fn rows_samples(v: Seq<Vec<u16>>) -> bool {
    forall|i: int| 0 <= i < v.len() ==> all_samples(#[trigger] v[i]@)
}

/// The carry record: two fully-filled rows per colour.
pub open spec fn carry_wf(c: &Colored<Vec<Vec<u16>>>, width: int) -> bool {
    &&& rows_wf(c.red@, 2, width)
    &&& rows_wf(c.green@, 2, width)
    &&& rows_wf(c.blue@, 2, width)
    &&& rows_samples(c.red@)
    &&& rows_samples(c.green@)
    &&& rows_samples(c.blue@)
}

/// The per-line buffers: three rows of red and blue, six of green.
pub open spec fn line_bufs_wf(c: &Colored<Vec<Vec<u16>>>, width: int) -> bool {
    &&& rows_wf(c.red@, 3, width)
    &&& rows_wf(c.green@, 6, width)
    &&& rows_wf(c.blue@, 3, width)
}

/// Every slot of every line buffer holds a sample or the sentinel.
pub open spec fn line_bufs_flexible(c: &Colored<Vec<Vec<u16>>>) -> bool {
    &&& forall|i: int| 0 <= i < c.red@.len() ==> row_flexible(#[trigger] c.red@[i]@)
    &&& forall|i: int| 0 <= i < c.green@.len() ==> row_flexible(#[trigger] c.green@[i]@)
    &&& forall|i: int| 0 <= i < c.blue@.len() ==> row_flexible(#[trigger] c.blue@[i]@)
}

/// Every slot of every line buffer holds a legitimate sample.
pub open spec fn line_bufs_samples(c: &Colored<Vec<Vec<u16>>>) -> bool {
    &&& rows_samples(c.red@)
    &&& rows_samples(c.green@)
    &&& rows_samples(c.blue@)
}

/// The last two rows of each colour's buffer, copied forward as the
/// north/north-north context for the next line.
pub fn collect_carry_lines(results: &Colored<Vec<Vec<u16>>>) -> (r: Colored<Vec<Vec<u16>>>)
    requires
        results.red@.len() >= 2,
        results.green@.len() >= 2,
        results.blue@.len() >= 2,
    ensures
        r.red@.len() == 2 && r.green@.len() == 2 && r.blue@.len() == 2,
        r.red@[0]@ == results.red@[results.red@.len() - 2]@,
        r.red@[1]@ == results.red@[results.red@.len() - 1]@,
        r.green@[0]@ == results.green@[results.green@.len() - 2]@,
        r.green@[1]@ == results.green@[results.green@.len() - 1]@,
        r.blue@[0]@ == results.blue@[results.blue@.len() - 2]@,
        r.blue@[1]@ == results.blue@[results.blue@.len() - 1]@,
{
    Colored::new(last_two(&results.red), last_two(&results.green), last_two(&results.blue))
}

/// The last two rows of one colour's buffer.
fn last_two(v: &Vec<Vec<u16>>) -> (r: Vec<Vec<u16>>)
    requires
        v@.len() >= 2,
    ensures
        r@.len() == 2,
        r@[0]@ == v@[v@.len() - 2]@,
        r@[1]@ == v@[v@.len() - 1]@,
{
    let mut out: Vec<Vec<u16>> = Vec::new();
    out.push(copy_row(&v[v.len() - 2]));
    out.push(copy_row(&v[v.len() - 1]));
    out
}

} // verus!
