//! The encoder: remaps native sensor rows into per-colour flat buffers,
//! fills the layout gaps with the shared predictor, encodes every coded
//! slot as a sample against the adaptive gradient model, and writes the
//! samples to the bit sink.
use crate::bits::field_bits;
use crate::bits::pow2n;
use crate::bits::zero_bits;
use crate::bitwriter::pad_to_byte;
use crate::bitwriter::sink_bits;
use crate::bitwriter::sink_bytes;
use crate::bitwriter::sink_len;
use crate::bitwriter::sink_new;
use crate::bitwriter::write_bit;
use crate::bitwriter::write_bits;
use crate::bitwriter::write_byte;
use crate::bitwriter::BitSink;
use crate::colored::Colored;
use crate::datagrid::DataGrid;
use crate::datagrid::Position;
use crate::datagrid::Size;
use crate::process_common::all_samples;
use crate::process_common::even_coefficients_of;
use crate::process_common::fill_post;
use crate::process_common::is_interpolated;
use crate::process_common::load_even_coefficients;
use crate::process_common::no_color_collision;
use crate::process_common::remap_written;
use crate::process_common::row_color;
use crate::process_common::row_flexible;
use crate::process_common::sel3;
use crate::process_common::slot_targeted;
use crate::process_common::sq;
use crate::process_common::squashed_index;
use crate::process_common::wavg_even_spec;
use crate::process_common::compute_weighted_average_even;
use crate::process_common::split_at;
use crate::process_common::SAMPLE_LIMIT;
use crate::process_common::UNSET;
use crate::process_common::carry_wf;
use crate::process_common::collect_carry_lines;
use crate::process_common::color_rows;
use crate::process_common::copy_row;
use crate::process_common::even_grad_spec;
use crate::process_common::grad_and_weighted_avg_even;
use crate::process_common::grad_and_weighted_avg_odd;
use crate::process_common::iabs;
use crate::process_common::line_bufs_flexible;
use crate::process_common::line_bufs_samples;
use crate::process_common::line_bufs_wf;
use crate::process_common::odd_coefficients_of;
use crate::process_common::odd_grad_spec;
use crate::process_common::process_entry;
use crate::process_common::rows_samples;
use crate::process_common::rows_views;
use crate::process_common::fill_row_spec;
use crate::process_common::filled_rows_spec;
use crate::process_common::no_odd_sentinel;
use crate::process_common::rows_wf;
use crate::process_common::wavg_odd_spec;
use crate::sample::bit_diff_spec;
use crate::sample::grad_updated;
use crate::sample::Grad;
use crate::sample::Gradients;
use crate::sample::Sample;
use crate::zip_with_offset::zip_with_offset;
use crate::CodecError;
use crate::Color;
use vstd::prelude::*;

verus! {

/// The fixed width of one vertical stripe.
pub const STRIPE_WIDTH: usize = 768;

/// Slots per flat buffer row: no colour ever needs more than 4 of every 6
/// columns, so 6 sensor rows fit in buffers of two thirds the width.
pub const REQUIRED_CAPACITY: usize = STRIPE_WIDTH * 4 / 6;

/// Scatters one native sensor row into the three per-colour flat buffers
/// at the squashed indices.  When the colour pattern never lets two
/// columns of one colour share a slot, every sample of the row is
/// recoverable from the buffers.
pub fn map_xtrans_to_contiguous_colors(
    red_row: &mut Vec<u16>,
    green_row: &mut Vec<u16>,
    blue_row: &mut Vec<u16>,
    row: &Vec<u16>,
    row_map: &DataGrid<Color>,
)
    requires
        old(red_row)@.len() == REQUIRED_CAPACITY,
        old(green_row)@.len() == REQUIRED_CAPACITY,
        old(blue_row)@.len() == REQUIRED_CAPACITY,
        row@.len() == STRIPE_WIDTH,
        all_samples(row@),
        row_flexible(old(red_row)@),
        row_flexible(old(green_row)@),
        row_flexible(old(blue_row)@),
        row_map.wf(),
        row_map.spec_size().0 == 6,
        row_map.spec_size().1 == 1,
    ensures
        final(red_row)@.len() == REQUIRED_CAPACITY,
        final(green_row)@.len() == REQUIRED_CAPACITY,
        final(blue_row)@.len() == REQUIRED_CAPACITY,
        row_flexible(final(red_row)@),
        row_flexible(final(green_row)@),
        row_flexible(final(blue_row)@),
        ({
            let colors = Seq::new(6, |i: int| row_map.cell(0, i));
            no_color_collision(colors) ==> remap_written(
                row@,
                colors,
                final(red_row)@,
                final(green_row)@,
                final(blue_row)@,
            )
        }),
        ({
            let colors = Seq::new(6, |i: int| row_map.cell(0, i));
            &&& (forall|j: int|
                0 <= j < REQUIRED_CAPACITY && !slot_targeted(colors, Color::Red, j, 768)
                    ==> #[trigger] final(red_row)@[j] == old(red_row)@[j])
            &&& (forall|j: int|
                0 <= j < REQUIRED_CAPACITY && !slot_targeted(colors, Color::Green, j, 768)
                    ==> #[trigger] final(green_row)@[j] == old(green_row)@[j])
            &&& (forall|j: int|
                0 <= j < REQUIRED_CAPACITY && !slot_targeted(colors, Color::Blue, j, 768)
                    ==> #[trigger] final(blue_row)@[j] == old(blue_row)@[j])
        }),
{
    let ghost colors = Seq::new(6, |i: int| row_map.cell(0, i));
    let mut pos: usize = 0;
    while pos < STRIPE_WIDTH
        invariant
            pos <= STRIPE_WIDTH,
            red_row@.len() == REQUIRED_CAPACITY,
            green_row@.len() == REQUIRED_CAPACITY,
            blue_row@.len() == REQUIRED_CAPACITY,
            row@.len() == STRIPE_WIDTH,
            all_samples(row@),
            row_flexible(red_row@),
            row_flexible(green_row@),
            row_flexible(blue_row@),
            row_map.wf(),
            row_map.spec_size().0 == 6,
            row_map.spec_size().1 == 1,
            colors == Seq::new(6, |i: int| row_map.cell(0, i)),
            no_color_collision(colors) ==> forall|q: int|
                0 <= q < pos ==> sel3(red_row@, green_row@, blue_row@, row_color(colors, q))[sq(q)]
                    == #[trigger] row@[q],
            forall|j: int|
                0 <= j < REQUIRED_CAPACITY && !slot_targeted(colors, Color::Red, j, 768)
                    ==> #[trigger] red_row@[j] == old(red_row)@[j],
            forall|j: int|
                0 <= j < REQUIRED_CAPACITY && !slot_targeted(colors, Color::Green, j, 768)
                    ==> #[trigger] green_row@[j] == old(green_row)@[j],
            forall|j: int|
                0 <= j < REQUIRED_CAPACITY && !slot_targeted(colors, Color::Blue, j, 768)
                    ==> #[trigger] blue_row@[j] == old(blue_row)@[j],
        decreases STRIPE_WIDTH - pos,
    {
        let squashed_idx = squashed_index(pos);
        proof {
            crate::process_common::lemma_sq_mono(pos as int, 767);
            assert(sq(767) == 511);
        }
        let color = row_map.at(Position(pos, 0));
        let ghost old_red = red_row@;
        let ghost old_green = green_row@;
        let ghost old_blue = blue_row@;
        match color {
            Color::Red => {
                red_row[squashed_idx] = row[pos];
            },
            Color::Green => {
                green_row[squashed_idx] = row[pos];
            },
            Color::Blue => {
                blue_row[squashed_idx] = row[pos];
            },
        }
        proof {
            assert(colors[pos as int % 6] == color);
            assert(slot_targeted(colors, color, sq(pos as int), 768)) by {
                assert(0 <= pos < 768 && row_color(colors, pos as int) == color && sq(pos as int)
                    == sq(pos as int));
            }
            if no_color_collision(colors) {
                assert forall|q: int|
                    0 <= q < pos + 1 implies sel3(
                    red_row@,
                    green_row@,
                    blue_row@,
                    row_color(colors, q),
                )[sq(q)] == #[trigger] row@[q] by {
                    if q < pos {
                        lemma_no_clobber(colors, q, pos as int);
                        assert(sel3(old_red, old_green, old_blue, row_color(colors, q))[sq(q)]
                            == row@[q]);
                    }
                }
            }
        }
        pos = pos + 1;
    }
}

/// Under a collision-free pattern, writing column `p`'s sample cannot
/// disturb the slot that holds column `q`'s.
proof fn lemma_no_clobber(colors: Seq<Color>, q: int, p: int)
    requires
        colors.len() == 6,
        no_color_collision(colors),
        0 <= q < p,
    ensures
        row_color(colors, q) != row_color(colors, p) || sq(q) != sq(p),
{
    if sq(q) == sq(p) {
        crate::process_common::lemma_sq_collision(q, p);
        vstd::arithmetic::div_mod::lemma_fundamental_div_mod(q, 6);
        let a = q / 6;
        let b = q % 6;
        assert(q == 6 * a + b && 0 <= b < 6);
        vstd::arithmetic::div_mod::lemma_mod_mod(q, 3, 2);
        assert(b % 3 == 1);
        assert(b == 1 || b == 4);
        vstd::arithmetic::div_mod::lemma_mod_multiples_vanish(a, b + 1, 6);
        assert(p % 6 == b + 1);
    }
}

/// Fills every sentinel slot of one flat row with the even predictor over
/// the two rows above it.  A sentinel in an odd slot means the layout did
/// not cover the row and is reported as an invariant violation, with the
/// row left untouched.
pub fn fill_blanks_in_row(row: &mut Vec<u16>, rprev: &Vec<u16>, rprevprev: &Vec<u16>) -> (r: Result<
    (),
    CodecError,
>)
    requires
        old(row)@.len() % 2 == 0,
        old(row)@.len() > 0,
        rprev@.len() == old(row)@.len(),
        rprevprev@.len() == old(row)@.len(),
        all_samples(rprev@),
        all_samples(rprevprev@),
        row_flexible(old(row)@),
    ensures
        r is Ok <==> (forall|i: int|
            0 <= i < old(row)@.len() && i % 2 == 1 ==> #[trigger] old(row)@[i] != UNSET),
        r is Ok ==> fill_post(old(row)@, rprev@, rprevprev@, final(row)@) && all_samples(
            final(row)@,
        ),
        r is Err ==> final(row)@ == old(row)@ && r == Err::<(), CodecError>(
            CodecError::InvariantViolation,
        ),
{
    let n = row.len();
    let mut i: usize = 1;
    while i < n
        invariant
            n == row@.len(),
            i % 2 == 1,
            i <= n + 1,
            row_flexible(row@),
            forall|j: int| 0 <= j < i && j % 2 == 1 ==> #[trigger] row@[j] != UNSET,
        decreases n + 2 - i,
    {
        if row[i] == UNSET {
            return Err(CodecError::InvariantViolation);
        }
        i = i + 2;
    }
    let mut idx: usize = 0;
    while idx < n
        invariant
            n == row@.len(),
            n == old(row)@.len(),
            n == rprev@.len(),
            n == rprevprev@.len(),
            n % 2 == 0,
            n > 0,
            idx <= n,
            all_samples(rprev@),
            all_samples(rprevprev@),
            row_flexible(row@),
            forall|j: int| idx <= j < n ==> #[trigger] row@[j] == old(row)@[j],
            forall|j: int|
                0 <= j < idx ==> #[trigger] row@[j] == (if old(row)@[j] == UNSET {
                    wavg_even_spec(even_coefficients_of(rprev@, rprevprev@, j)) as u16
                } else {
                    old(row)@[j]
                }),
            forall|j: int| 0 <= j < idx ==> #[trigger] row@[j] < SAMPLE_LIMIT,
            forall|j: int| 0 <= j < n && j % 2 == 1 ==> #[trigger] old(row)@[j] != UNSET,
        decreases n - idx,
    {
        if row[idx] == UNSET {
            let wa = compute_weighted_average_even(load_even_coefficients(rprev, rprevprev, idx));
            row[idx] = wa;
        } else {
            proof {
                assert(old(row)@[idx as int] < SAMPLE_LIMIT || old(row)@[idx as int] == UNSET);
            }
        }
        idx = idx + 1;
    }
    Ok(())
}

/// The delta the codec puts on the wire: congruent to `actual - wa`
/// modulo the 14-bit domain, reduced so its magnitude never exceeds 8192.
/// The decoder's reconstruction wraps at the same boundary, so the reduced
/// delta rebuilds the same value, and the escape literal always fits its
/// 13 bits.
pub open spec fn coded_delta(wa: int, actual: int) -> int {
    let d = actual - wa;
    if d > 8192 {
        d - 16384
    } else if d < -8192 {
        d + 16384
    } else {
        d
    }
}

/// How one sample is encoded against a prediction, a code length `d`, and
/// the gradient's sign: the shape chosen and every field of it.
pub open spec fn encode_sample_spec(wa: int, actual: int, d: int, gneg: bool) -> Result<
    Sample,
    CodecError,
> {
    let delta = coded_delta(wa, actual);
    let abs = iabs(delta);
    let m = if d == 0 {
        0int
    } else {
        d - 1
    };
    let p = pow2n(m as nat) as int;
    let upper = abs / p;
    let lower = abs % p;
    if upper > 40 {
        Ok(Sample::EntireDelta((abs - 1) as u16, (delta < 0) == gneg))
    } else if d == 0 {
        if delta == 0 {
            Ok(Sample::Zero)
        } else {
            Err(CodecError::InvariantViolation)
        }
    } else if delta == 0 || (delta < 0) == gneg {
        Ok(
            Sample::SplitDelta {
                upper: upper as u16,
                lower: lower as u16,
                lower_bits: m as usize,
                invert: false,
            },
        )
    } else {
        Ok(
            Sample::SplitDelta {
                upper: ((abs - 1) / p) as u16,
                lower: ((abs - 1) % p) as u16,
                lower_bits: m as usize,
                invert: true,
            },
        )
    }
}

/// Encodes one sample: the delta between the actual value and the
/// prediction, reduced modulo the 14-bit domain and split at the
/// gradient's code length, with the escape shape for deltas whose unary
/// part would pass forty.  A nonzero delta under a zero code length cannot
/// be represented and is an invariant violation.
pub fn compute_sample(
    weighted_average: u16,
    actual_value: u16,
    grad: &Grad,
    grad_instructs_subtraction: bool,
) -> (r: Result<Sample, CodecError>)
    requires
        weighted_average < SAMPLE_LIMIT,
        actual_value < SAMPLE_LIMIT,
        0 <= grad.0 <= 0x0100_0000,
        0 <= grad.1 <= 0x0100_0000,
    ensures
        r == encode_sample_spec(
            weighted_average as int,
            actual_value as int,
            bit_diff_spec(grad.0 as int, grad.1 as int),
            grad_instructs_subtraction,
        ),
{
    let raw_delta: i32 = actual_value as i32 - weighted_average as i32;
    let delta: i32 = if raw_delta > 8192 {
        raw_delta - 16384
    } else if raw_delta < -8192 {
        raw_delta + 16384
    } else {
        raw_delta
    };
    let abs_delta: u16 = if delta >= 0 {
        delta as u16
    } else {
        (-delta) as u16
    };
    let dec_bits = grad.bit_diff();
    let mask_dec_bits: usize = if dec_bits == 0 {
        0
    } else {
        dec_bits - 1
    };
    let (upper, lower) = split_at(abs_delta, mask_dec_bits as u8);
    if upper > 40 {
        proof {
            crate::bits::lemma_pow2n_pos(mask_dec_bits as nat);
            vstd::arithmetic::div_mod::lemma_div_nonincreasing(
                abs_delta as int,
                pow2n(mask_dec_bits as nat) as int,
            );
        }
        Ok(Sample::EntireDelta(abs_delta - 1, (delta < 0) == grad_instructs_subtraction))
    } else if dec_bits == 0 {
        if delta == 0 {
            Ok(Sample::Zero)
        } else {
            Err(CodecError::InvariantViolation)
        }
    } else if delta == 0 || (delta < 0) == grad_instructs_subtraction {
        Ok(
            Sample::SplitDelta {
                upper,
                lower,
                lower_bits: mask_dec_bits,
                invert: false,
            },
        )
    } else {
        // The delta is nonzero here, so subtract one and re-split.
        let abs_delta = abs_delta - 1;
        let (upper, lower) = split_at(abs_delta, mask_dec_bits as u8);
        Ok(
            Sample::SplitDelta {
                upper,
                lower,
                lower_bits: mask_dec_bits,
                invert: true,
            },
        )
    }
}

/// Which rows serve as the two-rows-above context for a slot: the first
/// two rows of a line borrow them from the carry record.
pub open spec fn prev_rows_spec(cdata: Seq<Seq<u16>>, carry: Seq<Seq<u16>>, row_idx: int) -> (
    Seq<u16>,
    Seq<u16>,
) {
    if row_idx == 0 {
        (carry[0], carry[1])
    } else if row_idx == 1 {
        (carry[1], cdata[0])
    } else {
        (cdata[row_idx - 2], cdata[row_idx - 1])
    }
}

/// The prediction and gradient context index of one slot: the pair
/// `(weighted average, signed context)` from the even or odd coefficients.
pub open spec fn slot_wa_grad(cdata: Seq<Seq<u16>>, carry: Seq<Seq<u16>>, row_idx: int, idx: int) -> (
    int,
    int,
) {
    let pr = prev_rows_spec(cdata, carry, row_idx);
    if idx % 2 == 0 {
        let ec = even_coefficients_of(pr.1, pr.0, idx);
        (wavg_even_spec(ec), even_grad_spec(ec))
    } else {
        let oc = odd_coefficients_of(pr.0, pr.1, cdata[row_idx], idx);
        (wavg_odd_spec(oc), odd_grad_spec(oc))
    }
}

/// Encodes the slot against the gradient of context `|which_grad|` in set
/// `grad_set`, then folds the absolute delta back into that gradient.
fn sample_with_gradients(
    g: &mut Gradients,
    grad_set: usize,
    which_grad: i32,
    wa: u16,
    actual: u16,
) -> (r: Result<Sample, CodecError>)
    requires
        old(g).wf(),
        grad_set < 3,
        -40 <= which_grad <= 40,
        wa < SAMPLE_LIMIT,
        actual < SAMPLE_LIMIT,
    ensures
        final(g).wf(),
        ({
            let ctx = grad_set * 41 + iabs(which_grad as int);
            let gr = old(g)@[ctx];
            &&& r == encode_sample_spec(
                wa as int,
                actual as int,
                bit_diff_spec(gr.0 as int, gr.1 as int),
                which_grad < 0,
            )
            &&& (r is Ok ==> final(g)@ == old(g)@.update(
                ctx,
                grad_updated(gr, iabs(coded_delta(wa as int, actual as int))),
            ))
            &&& (r is Err ==> final(g)@ == old(g)@)
        }),
{
    let ctx: usize = if which_grad < 0 {
        (-which_grad) as usize
    } else {
        which_grad as usize
    };
    let gr = g.at(grad_set, ctx);
    let sample = match compute_sample(wa, actual, &gr, which_grad < 0) {
        Ok(s) => s,
        Err(e) => {
            return Err(e);
        },
    };
    let raw: i32 = actual as i32 - wa as i32;
    let v: i32 = if raw > 8192 {
        raw - 16384
    } else if raw < -8192 {
        raw + 16384
    } else {
        raw
    };
    let av: i32 = if v >= 0 {
        v
    } else {
        -v
    };
    let mut gr2 = gr;
    gr2.update_from_value(av);
    g.put(grad_set, ctx, gr2);
    Ok(sample)
}

/// Makes the sample for one coded slot `(colour, row, idx)` of the line:
/// gathers the neighbour context, encodes the slot's value against the
/// selected gradient, and updates that gradient with the absolute delta.
pub fn make_sample(
    colors: &Colored<Vec<Vec<u16>>>,
    gradients: &mut (Gradients, Gradients),
    carry_results: &Colored<Vec<Vec<u16>>>,
    row_idx: usize,
    color: Color,
    idx: usize,
    grad_set: usize,
) -> (r: Result<Sample, CodecError>)
    requires
        line_bufs_wf(colors, REQUIRED_CAPACITY as int),
        line_bufs_samples(colors),
        carry_wf(carry_results, REQUIRED_CAPACITY as int),
        row_idx < color_rows(color),
        idx < REQUIRED_CAPACITY,
        grad_set < 3,
        old(gradients).0.wf(),
        old(gradients).1.wf(),
    ensures
        final(gradients).0.wf(),
        final(gradients).1.wf(),
        idx % 2 == 0 ==> final(gradients).1 == old(gradients).1,
        idx % 2 == 1 ==> final(gradients).0 == old(gradients).0,
        ({
            let cdata = rows_views(colors.sel(color)@);
            let carry = rows_views(carry_results.sel(color)@);
            let wg = slot_wa_grad(cdata, carry, row_idx as int, idx as int);
            let gsel = if idx % 2 == 0 {
                old(gradients).0
            } else {
                old(gradients).1
            };
            let gfin = if idx % 2 == 0 {
                final(gradients).0
            } else {
                final(gradients).1
            };
            let ctx = grad_set * 41 + iabs(wg.1);
            let gr = gsel@[ctx];
            let actual = cdata[row_idx as int][idx as int] as int;
            &&& r == encode_sample_spec(
                wg.0,
                actual,
                bit_diff_spec(gr.0 as int, gr.1 as int),
                wg.1 < 0,
            )
            &&& (r is Ok ==> gfin@ == gsel@.update(
                ctx,
                grad_updated(gr, iabs(coded_delta(wg.0, actual))),
            ))
            &&& (r is Err ==> gfin@ == gsel@)
        }),
{
    let carry = carry_results.get(color);
    let cdata = colors.get(color);
    let (rprevprev, rprev): (Vec<u16>, Vec<u16>) = if row_idx == 0 {
        (copy_row(&carry[0]), copy_row(&carry[1]))
    } else if row_idx == 1 {
        (copy_row(&carry[1]), copy_row(&cdata[0]))
    } else {
        (copy_row(&cdata[row_idx - 2]), copy_row(&cdata[row_idx - 1]))
    };
    let actual_value = cdata[row_idx][idx];
    if idx % 2 == 0 {
        let (weighted_average, which_grad) = grad_and_weighted_avg_even(idx, &rprevprev, &rprev);
        sample_with_gradients(&mut gradients.0, grad_set, which_grad, weighted_average, actual_value)
    } else {
        let (weighted_average, which_grad) = grad_and_weighted_avg_odd(
            idx,
            &rprevprev,
            &rprev,
            &cdata[row_idx],
        );
        sample_with_gradients(&mut gradients.1, grad_set, which_grad, weighted_average, actual_value)
    }
}

/// The exact bits one sample puts on the wire: a unary run of zeros, the
/// terminating one, the fixed-width remainder, and the invert flag.
pub open spec fn sample_bits(s: Sample) -> Seq<bool> {
    match s {
        Sample::Zero => seq![true],
        Sample::EntireDelta(v, inv) => zero_bits(41) + seq![true] + field_bits(v as u32, 13) + seq![
            inv,
        ],
        Sample::SplitDelta { upper, lower, lower_bits, invert } => zero_bits(upper as nat) + seq![
            true,
        ] + field_bits(lower as u32, lower_bits as nat) + seq![invert],
    }
}

/// A sample whose fields fit the wire shapes.
pub open spec fn sample_write_wf(s: Sample) -> bool {
    match s {
        Sample::SplitDelta { upper, lower, lower_bits, invert } => lower_bits <= 12,
        _ => true,
    }
}

/// A bit sink that takes whole samples.
pub struct BitOutputSampleTarget {
    writer: BitSink,
}

impl BitOutputSampleTarget {
    /// Every bit this target has emitted.
    pub closed spec fn bits(&self) -> Seq<bool> {
        sink_bits(self.writer)
    }

    /// A fresh target over an empty sink.
    pub fn wrap() -> (r: Self)
        ensures
            r.bits() == Seq::<bool>::empty(),
    {
        BitOutputSampleTarget { writer: sink_new() }
    }

    /// A unary run: `num_zeros` zeros closed by a one.
    fn write_zeros_and_one(&mut self, num_zeros: usize)
        ensures
            final(self).bits() == old(self).bits() + zero_bits(num_zeros as nat) + seq![true],
    {
        let mut i: usize = 0;
        while i < num_zeros
            invariant
                i <= num_zeros,
                self.bits() == old(self).bits() + zero_bits(i as nat),
            decreases num_zeros - i,
        {
            write_bit(&mut self.writer, false);
            proof {
                assert((old(self).bits() + zero_bits(i as nat)).push(false) =~= old(self).bits()
                    + zero_bits((i + 1) as nat));
            }
            i = i + 1;
        }
        write_bit(&mut self.writer, true);
        proof {
            assert((old(self).bits() + zero_bits(num_zeros as nat)).push(true) =~= old(self).bits()
                + zero_bits(num_zeros as nat) + seq![true]);
        }
    }

    /// Puts one sample on the wire.
    pub fn write(&mut self, sample: Sample)
        requires
            sample_write_wf(sample),
        ensures
            final(self).bits() == old(self).bits() + sample_bits(sample),
    {
        match sample {
            Sample::Zero => {
                write_bit(&mut self.writer, true);
                proof {
                    assert(old(self).bits().push(true) =~= old(self).bits() + seq![true]);
                }
            },
            Sample::EntireDelta(val, invert) => {
                self.write_zeros_and_one(41);
                write_bits(&mut self.writer, val as u32, 13);
                write_bit(&mut self.writer, invert);
                proof {
                    assert((old(self).bits() + zero_bits(41) + seq![true] + field_bits(
                        val as u32,
                        13,
                    )).push(invert) =~= old(self).bits() + sample_bits(sample));
                }
            },
            Sample::SplitDelta { upper, lower, lower_bits, invert } => {
                self.write_zeros_and_one(upper as usize);
                if lower_bits != 0 {
                    write_bits(&mut self.writer, lower as u32, lower_bits);
                } else {
                    proof {
                        assert(field_bits(lower as u32, 0) =~= Seq::<bool>::empty());
                    }
                }
                write_bit(&mut self.writer, invert);
                proof {
                    assert((old(self).bits() + zero_bits(upper as nat) + seq![true] + field_bits(
                        lower as u32,
                        lower_bits as nat,
                    )).push(invert) =~= old(self).bits() + sample_bits(sample));
                }
            },
        }
    }

    /// Closes a block: pads to a byte, then pads with zero bytes to the
    /// next multiple of eight bytes (a full eight when already aligned).
    pub fn finalize_block(&mut self)
        ensures
            final(self).bits().len() % 64 == 0,
            old(self).bits().len() < final(self).bits().len() <= old(self).bits().len() + 71,
            final(self).bits().take(old(self).bits().len() as int) == old(self).bits(),
            forall|i: int|
                old(self).bits().len() <= i < final(self).bits().len()
                    ==> !(#[trigger] final(self).bits()[i]),
    {
        pad_to_byte(&mut self.writer);
        let ghost padded = sink_bits(self.writer);
        proof {
            assert(padded.len() % 8 == 0) by {
                vstd::arithmetic::div_mod::lemma_fundamental_div_mod(
                    old(self).bits().len() as int,
                    8,
                );
            }
        }
        let counter = sink_len(&mut self.writer);
        let pad_bytes = 8 - counter % 8;
        let mut i: usize = 0;
        while i < pad_bytes
            invariant
                i <= pad_bytes,
                pad_bytes == 8 - (padded.len() / 8) % 8,
                padded.len() % 8 == 0,
                sink_bits(self.writer) == padded + zero_bits((8 * i) as nat),
            decreases pad_bytes - i,
        {
            write_byte(&mut self.writer, 0);
            proof {
                lemma_zero_field(8);
                assert(padded + zero_bits((8 * i) as nat) + field_bits(0, 8) =~= padded + zero_bits(
                    (8 * (i + 1)) as nat,
                ));
            }
            i = i + 1;
        }
        proof {
            let b0 = old(self).bits().len() as int;
            let p = padded.len() as int;
            let bytes = p / 8;
            vstd::arithmetic::div_mod::lemma_fundamental_div_mod(p, 8);
            let f = p + 8 * (8 - bytes % 8);
            assert(sink_bits(self.writer).len() == f);
            vstd::arithmetic::div_mod::lemma_fundamental_div_mod(bytes, 8);
            assert(bytes % 8 == bytes - 8 * (bytes / 8));
            assert(f == 8 * bytes + 64 - 8 * (bytes - 8 * (bytes / 8)));
            assert(f == 64 * (bytes / 8) + 64);
            assert(f % 64 == 0) by {
                vstd::arithmetic::div_mod::lemma_mod_multiples_vanish(bytes / 8 + 1, 0, 64);
            }
            assert(final(self).bits().take(b0) =~= old(self).bits());
        }
    }

    /// The completed bytes of everything written so far.
    pub fn into_bytes(&mut self) -> (r: Vec<u8>)
        ensures
            final(self).bits() == old(self).bits(),
            r@ == crate::bits::bytes_of_bits(old(self).bits()),
    {
        sink_bytes(&mut self.writer)
    }
}

/// Every cell of the grid is a legitimate sample.
pub open spec fn grid_samples(g: &DataGrid<u16>) -> bool {
    forall|y: int, x: int|
        0 <= y < g.spec_size().1 && 0 <= x < g.spec_size().0 ==> #[trigger] g.cell(y, x)
            < SAMPLE_LIMIT
}

/// Rows of sentinel slots, ready to take a line's samples.
fn unset_rows(nrows: usize) -> (r: Vec<Vec<u16>>)
    ensures
        rows_wf(r@, nrows as int, REQUIRED_CAPACITY as int),
        forall|i: int| 0 <= i < nrows ==> row_flexible(#[trigger] r@[i]@),
{
    let mut out: Vec<Vec<u16>> = Vec::new();
    let mut i: usize = 0;
    while i < nrows
        invariant
            i <= nrows,
            rows_wf(out@, i as int, REQUIRED_CAPACITY as int),
            forall|j: int| 0 <= j < i ==> row_flexible(#[trigger] out@[j]@),
        decreases nrows - i,
    {
        let row: Vec<u16> = vec![UNSET; REQUIRED_CAPACITY];
        out.push(row);
        i = i + 1;
    }
    out
}

/// Two rows of zero samples: the carry record at the top of a stripe.
fn zero_rows() -> (r: Vec<Vec<u16>>)
    ensures
        rows_wf(r@, 2, REQUIRED_CAPACITY as int),
        rows_samples(r@),
{
    let mut out: Vec<Vec<u16>> = Vec::new();
    let row: Vec<u16> = vec![0u16; REQUIRED_CAPACITY];
    let row2: Vec<u16> = vec![0u16; REQUIRED_CAPACITY];
    out.push(row);
    out.push(row2);
    out
}

/// Fills the gaps of every row of one colour, each row predicted from the
/// two rows above it (the first two from the carry record).
fn fill_color(bufs: &mut Vec<Vec<u16>>, prev_lines: &Vec<Vec<u16>>) -> (r: Result<(), CodecError>)
    requires
        rows_wf(old(bufs)@, old(bufs)@.len() as int, REQUIRED_CAPACITY as int),
        forall|i: int| 0 <= i < old(bufs)@.len() ==> row_flexible(#[trigger] old(bufs)@[i]@),
        rows_wf(prev_lines@, 2, REQUIRED_CAPACITY as int),
        rows_samples(prev_lines@),
    ensures
        rows_wf(final(bufs)@, old(bufs)@.len() as int, REQUIRED_CAPACITY as int),
        r is Ok ==> rows_samples(final(bufs)@),
        r is Ok <==> no_odd_sentinel(rows_views(old(bufs)@)),
        r is Ok ==> rows_views(final(bufs)@) == filled_rows_spec(
            rows_views(old(bufs)@),
            prev_lines@[0]@,
            prev_lines@[1]@,
            old(bufs)@.len() as int,
        ),
        r is Err ==> r == Err::<(), CodecError>(CodecError::InvariantViolation),
{
    let n = bufs.len();
    let mut idx: usize = 0;
    while idx < n
        invariant
            idx <= n,
            n == bufs@.len(),
            n == old(bufs)@.len(),
            rows_wf(bufs@, n as int, REQUIRED_CAPACITY as int),
            rows_wf(prev_lines@, 2, REQUIRED_CAPACITY as int),
            rows_samples(prev_lines@),
            forall|j: int| 0 <= j < idx ==> all_samples(#[trigger] bufs@[j]@),
            forall|j: int| idx <= j < n ==> #[trigger] bufs@[j]@ == old(bufs)@[j]@,
            forall|j: int| idx <= j < n ==> row_flexible(#[trigger] bufs@[j]@),
            rows_views(bufs@).subrange(0, idx as int) == filled_rows_spec(
                rows_views(old(bufs)@),
                prev_lines@[0]@,
                prev_lines@[1]@,
                idx as int,
            ),
            forall|i: int, j: int|
                0 <= i < idx && 0 <= j < REQUIRED_CAPACITY && j % 2 == 1 ==> #[trigger] old(
                    bufs,
                )@[i]@[j] != UNSET,
        decreases n - idx,
    {
        let (rprevprev, rprev): (Vec<u16>, Vec<u16>) = if idx == 0 {
            (copy_row(&prev_lines[0]), copy_row(&prev_lines[1]))
        } else if idx == 1 {
            (copy_row(&prev_lines[1]), copy_row(&bufs[0]))
        } else {
            (copy_row(&bufs[idx - 2]), copy_row(&bufs[idx - 1]))
        };
        proof {
            let done = filled_rows_spec(
                rows_views(old(bufs)@),
                prev_lines@[0]@,
                prev_lines@[1]@,
                idx as int,
            );
            if idx >= 1 {
                assert(done[0] == rows_views(bufs@).subrange(0, idx as int)[0]);
            }
            if idx >= 2 {
                assert(done[idx - 2] == rows_views(bufs@).subrange(0, idx as int)[idx - 2]);
                assert(done[idx - 1] == rows_views(bufs@).subrange(0, idx as int)[idx - 1]);
            }
        }
        let ghost pre = bufs@;
        match fill_blanks_in_row(&mut bufs[idx], &rprev, &rprevprev) {
            Ok(u) => u,
            Err(e) => {
                proof {
                    assert forall|j: int| 0 <= j < n implies #[trigger] bufs@[j]@.len()
                        == REQUIRED_CAPACITY by {
                        assert(pre[j]@.len() == REQUIRED_CAPACITY);
                    }
                    let orig_row = old(bufs)@[idx as int]@;
                    assert(pre[idx as int]@ == orig_row);
                    assert(exists|jj: int|
                        0 <= jj < orig_row.len() && jj % 2 == 1 && #[trigger] orig_row[jj]
                            == UNSET);
                    let jj = choose|jj: int|
                        0 <= jj < orig_row.len() && jj % 2 == 1 && #[trigger] orig_row[jj]
                            == UNSET;
                    assert(rows_views(old(bufs)@)[idx as int][jj] == UNSET);
                    assert(!no_odd_sentinel(rows_views(old(bufs)@)));
                }
                return Err(CodecError::InvariantViolation);
            },
        };
        proof {
            assert(bufs@[idx as int]@ =~= fill_row_spec(old(bufs)@[idx as int]@, rprev@, rprevprev@));
            assert(rows_views(bufs@).subrange(0, idx + 1) =~= rows_views(bufs@).subrange(
                0,
                idx as int,
            ).push(bufs@[idx as int]@));
            assert(rows_views(bufs@).subrange(0, idx as int) =~= filled_rows_spec(
                rows_views(old(bufs)@),
                prev_lines@[0]@,
                prev_lines@[1]@,
                idx as int,
            ));
        }
        idx = idx + 1;
    }
    proof {
        assert(rows_views(bufs@).subrange(0, n as int) =~= rows_views(bufs@));
    }
    Ok(())
}

/// Fills the layout gaps of a whole line, colour by colour: the filled
/// buffers are exactly the fill chain of each colour's rows over its
/// carry record.
pub fn fill_blanks_in_line(
    carry_results: &Colored<Vec<Vec<u16>>>,
    colors: &mut Colored<Vec<Vec<u16>>>,
) -> (r: Result<(), CodecError>)
    requires
        carry_wf(carry_results, REQUIRED_CAPACITY as int),
        line_bufs_wf(old(colors), REQUIRED_CAPACITY as int),
        line_bufs_flexible(old(colors)),
    ensures
        line_bufs_wf(final(colors), REQUIRED_CAPACITY as int),
        r is Ok ==> line_bufs_samples(final(colors)),
        r is Ok <==> no_odd_sentinel(rows_views(old(colors).red@)) && no_odd_sentinel(
            rows_views(old(colors).green@),
        ) && no_odd_sentinel(rows_views(old(colors).blue@)),
        r is Ok ==> rows_views(final(colors).red@) == filled_rows_spec(
            rows_views(old(colors).red@),
            carry_results.red@[0]@,
            carry_results.red@[1]@,
            3,
        ) && rows_views(final(colors).green@) == filled_rows_spec(
            rows_views(old(colors).green@),
            carry_results.green@[0]@,
            carry_results.green@[1]@,
            6,
        ) && rows_views(final(colors).blue@) == filled_rows_spec(
            rows_views(old(colors).blue@),
            carry_results.blue@[0]@,
            carry_results.blue@[1]@,
            3,
        ),
        r is Err ==> r == Err::<(), CodecError>(CodecError::InvariantViolation),
{
    match fill_color(&mut colors.red, &carry_results.red) {
        Ok(u) => u,
        Err(e) => {
            return Err(e);
        },
    };
    match fill_color(&mut colors.green, &carry_results.green) {
        Ok(u) => u,
        Err(e) => {
            return Err(e);
        },
    };
    match fill_color(&mut colors.blue, &carry_results.blue) {
        Ok(u) => u,
        Err(e) => {
            return Err(e);
        },
    };
    Ok(())
}

/// The whole encoding state of one line walk: the two gradient tables by
/// parity and the bits emitted so far.
pub struct EncState {
    pub even: Seq<Grad>,
    pub odd: Seq<Grad>,
    pub bits: Seq<bool>,
}

/// One step of the line encode: what encoding slot `(color, row, idx)`
/// against gradient set `gset` appends and updates, or how it fails.
/// Interpolated slots are never coded and change nothing.
pub open spec fn encode_slot_spec(
    colors: &Colored<Vec<Vec<u16>>>,
    carry_results: &Colored<Vec<Vec<u16>>>,
    st: EncState,
    color: Color,
    row: int,
    idx: int,
    gset: int,
) -> Result<EncState, CodecError> {
    if crate::process_common::interpolated_spec(color, row, idx) {
        Ok(st)
    } else {
        let cdata = rows_views(colors.sel(color)@);
        let carry = rows_views(carry_results.sel(color)@);
        let wg = slot_wa_grad(cdata, carry, row, idx);
        let gsel = if idx % 2 == 0 {
            st.even
        } else {
            st.odd
        };
        let ctx = gset * 41 + iabs(wg.1);
        let gr = gsel[ctx];
        let actual = cdata[row][idx] as int;
        let enc = encode_sample_spec(
            wg.0,
            actual,
            bit_diff_spec(gr.0 as int, gr.1 as int),
            wg.1 < 0,
        );
        if enc is Err {
            Err(enc->Err_0)
        } else {
            let g2 = gsel.update(ctx, grad_updated(gr, iabs(coded_delta(wg.0, actual))));
            Ok(
                EncState {
                    even: if idx % 2 == 0 {
                        g2
                    } else {
                        st.even
                    },
                    odd: if idx % 2 == 1 {
                        g2
                    } else {
                        st.odd
                    },
                    bits: st.bits + sample_bits(enc->Ok_0),
                },
            )
        }
    }
}

/// The line encode folded `t` schedule sub-steps in.
pub open spec fn enc_fold(
    colors: &Colored<Vec<Vec<u16>>>,
    carry_results: &Colored<Vec<Vec<u16>>>,
    st0: EncState,
    t: int,
) -> Result<EncState, CodecError>
    decreases t,
{
    if t <= 0 {
        Ok(st0)
    } else {
        let prev = enc_fold(colors, carry_results, st0, t - 1);
        if prev is Err {
            prev
        } else {
            let u = t - 1;
            let pi = u / 1040;
            let k = (u / 4) % 260;
            let sub = u % 4;
            match crate::inflate::schedule_item(pi, k, sub) {
                None => prev,
                Some(it) => encode_slot_spec(
                    colors,
                    carry_results,
                    prev->Ok_0,
                    it.0.0,
                    it.0.1,
                    it.1,
                    crate::process_common::schedule_spec(pi).2,
                ),
            }
        }
    }
}

/// A failed encode fold stays failed.
proof fn lemma_enc_fold_err_sticky(
    colors: &Colored<Vec<Vec<u16>>>,
    carry_results: &Colored<Vec<Vec<u16>>>,
    st0: EncState,
    t1: int,
    t2: int,
)
    requires
        0 <= t1 <= t2,
        enc_fold(colors, carry_results, st0, t1) is Err,
    ensures
        enc_fold(colors, carry_results, st0, t2) is Err,
    decreases t2 - t1,
{
    if t1 < t2 {
        lemma_enc_fold_err_sticky(colors, carry_results, st0, t1, t2 - 1);
    }
}

/// Writes the sample for one schedule step, skipping interpolated slots
/// and absent steps.
fn emit_slot(
    colors: &Colored<Vec<Vec<u16>>>,
    gradients: &mut (Gradients, Gradients),
    carry_results: &Colored<Vec<Vec<u16>>>,
    item: Option<((Color, usize), usize)>,
    grad_set: usize,
    output: &mut BitOutputSampleTarget,
) -> (r: Result<(), CodecError>)
    requires
        line_bufs_wf(colors, REQUIRED_CAPACITY as int),
        line_bufs_samples(colors),
        carry_wf(carry_results, REQUIRED_CAPACITY as int),
        old(gradients).0.wf(),
        old(gradients).1.wf(),
        grad_set < 3,
        item matches Some(it) ==> it.1 < REQUIRED_CAPACITY && it.0.1 < color_rows(it.0.0),
    ensures
        final(gradients).0.wf(),
        final(gradients).1.wf(),
        r is Err ==> r == Err::<(), CodecError>(CodecError::InvariantViolation),
        ({
            let pre = EncState {
                even: old(gradients).0@,
                odd: old(gradients).1@,
                bits: old(output).bits(),
            };
            let step = match item {
                None => Ok::<EncState, CodecError>(pre),
                Some(it) => encode_slot_spec(
                    colors,
                    carry_results,
                    pre,
                    it.0.0,
                    it.0.1 as int,
                    it.1 as int,
                    grad_set as int,
                ),
            };
            &&& (r is Ok <==> step is Ok)
            &&& (r is Ok ==> (step matches Ok(st) && final(gradients).0@ == st.even
                && final(gradients).1@ == st.odd && final(output).bits() == st.bits))
        }),
        ({
            match item {
                None => final(output).bits() == old(output).bits() && *final(gradients) == *old(
                    gradients,
                ),
                Some(it) => {
                    let color = it.0.0;
                    let rw = it.0.1;
                    let ix = it.1;
                    if crate::process_common::interpolated_spec(color, rw as int, ix as int) {
                        final(output).bits() == old(output).bits() && *final(gradients) == *old(
                            gradients,
                        )
                    } else {
                        let cdata = rows_views(colors.sel(color)@);
                        let carry = rows_views(carry_results.sel(color)@);
                        let wg = slot_wa_grad(cdata, carry, rw as int, ix as int);
                        let gsel = if ix % 2 == 0 {
                            old(gradients).0
                        } else {
                            old(gradients).1
                        };
                        let gfin = if ix % 2 == 0 {
                            final(gradients).0
                        } else {
                            final(gradients).1
                        };
                        let ctx = grad_set * 41 + iabs(wg.1);
                        let gr = gsel@[ctx];
                        let actual = cdata[rw as int][ix as int] as int;
                        let enc = encode_sample_spec(
                            wg.0,
                            actual,
                            bit_diff_spec(gr.0 as int, gr.1 as int),
                            wg.1 < 0,
                        );
                        &&& (r is Ok <==> enc is Ok)
                        &&& (enc matches Ok(smp) ==> final(output).bits() == old(output).bits()
                            + sample_bits(smp) && gfin@ == gsel@.update(
                            ctx,
                            grad_updated(gr, iabs(coded_delta(wg.0, actual))),
                        ))
                    }
                },
            }
        }),
{
    if let Some(((color, row), idx)) = item {
        if !is_interpolated(color, row, idx) {
            let ghost g0 = *gradients;
            let sample = match make_sample(
                colors,
                gradients,
                carry_results,
                row,
                color,
                idx,
                grad_set,
            ) {
                Ok(s) => s,
                Err(e) => {
                    return Err(CodecError::InvariantViolation);
                },
            };
            proof {
                let cdata = rows_views(colors.sel(color)@);
                let carry = rows_views(carry_results.sel(color)@);
                let wg = slot_wa_grad(cdata, carry, row as int, idx as int);
                let gsel = if idx % 2 == 0 {
                    g0.0
                } else {
                    g0.1
                };
                let ctx = grad_set * 41 + iabs(wg.1);
                let gr = gsel@[ctx];
                crate::sample::lemma_bit_diff_spec_range(gr.0 as int, gr.1 as int);
                assert(sample_write_wf(sample));
            }
            output.write(sample);
        }
    }
    Ok(())
}

/// Whether the encode fold at step `t` lands exactly on the given state.
pub open spec fn enc_matches(
    colors: &Colored<Vec<Vec<u16>>>,
    carry_results: &Colored<Vec<Vec<u16>>>,
    st0: EncState,
    t: int,
    even: Seq<Grad>,
    odd: Seq<Grad>,
    bits: Seq<bool>,
) -> bool {
    enc_fold(colors, carry_results, st0, t) == Ok::<EncState, CodecError>(
        EncState { even: even, odd: odd, bits: bits },
    )
}

/// Runs one schedule sub-step of the line encode and advances the fold.
fn enc_substep(
    colors: &Colored<Vec<Vec<u16>>>,
    gradients: &mut (Gradients, Gradients),
    carry_results: &Colored<Vec<Vec<u16>>>,
    output: &mut BitOutputSampleTarget,
    item: Option<((Color, usize), usize)>,
    grad_set: usize,
    Ghost(st0): Ghost<EncState>,
    Ghost(pi): Ghost<int>,
    Ghost(kk): Ghost<int>,
    Ghost(sub): Ghost<int>,
) -> (r: Result<(), CodecError>)
    requires
        line_bufs_wf(colors, REQUIRED_CAPACITY as int),
        line_bufs_samples(colors),
        carry_wf(carry_results, REQUIRED_CAPACITY as int),
        old(gradients).0.wf(),
        old(gradients).1.wf(),
        grad_set < 3,
        item matches Some(it) ==> it.1 < REQUIRED_CAPACITY && it.0.1 < color_rows(it.0.0),
        0 <= pi < 6,
        0 <= kk < 260,
        0 <= sub < 4,
        crate::inflate::item_matches(item, crate::inflate::schedule_item(pi, kk, sub)),
        grad_set as int == crate::process_common::schedule_spec(pi).2,
        enc_matches(
            colors,
            carry_results,
            st0,
            pi * 1040 + 4 * kk + sub,
            old(gradients).0@,
            old(gradients).1@,
            old(output).bits(),
        ),
    ensures
        final(gradients).0.wf(),
        final(gradients).1.wf(),
        r is Ok ==> enc_matches(
            colors,
            carry_results,
            st0,
            pi * 1040 + 4 * kk + sub + 1,
            final(gradients).0@,
            final(gradients).1@,
            final(output).bits(),
        ),
        r is Err ==> enc_fold(colors, carry_results, st0, crate::inflate::line_steps()) is Err,
        r is Err ==> r == Err::<(), CodecError>(CodecError::InvariantViolation),
{
    let ghost t = pi * 1040 + 4 * kk + sub;
    proof {
        crate::inflate::lemma_step_index(pi, kk, sub);
    }
    let r = emit_slot(colors, gradients, carry_results, item, grad_set, output);
    proof {
        let cur = enc_fold(colors, carry_results, st0, t)->Ok_0;
        let pre = EncState {
            even: old(gradients).0@,
            odd: old(gradients).1@,
            bits: old(output).bits(),
        };
        assert(pre == cur);
        let step = match item {
            None => Ok::<EncState, CodecError>(pre),
            Some(it) => encode_slot_spec(
                colors,
                carry_results,
                pre,
                it.0.0,
                it.0.1 as int,
                it.1 as int,
                grad_set as int,
            ),
        };
        assert(enc_fold(colors, carry_results, st0, t + 1) == step);
        if r is Ok {
            assert(enc_matches(
                colors,
                carry_results,
                st0,
                t + 1,
                gradients.0@,
                gradients.1@,
                output.bits(),
            ));
        } else {
            lemma_enc_fold_err_sticky(
                colors,
                carry_results,
                st0,
                t + 1,
                crate::inflate::line_steps(),
            );
        }
    }
    r
}

/// Runs the four sub-steps of one schedule step of the encode.
#[verifier::rlimit(100)]
#[verifier::spinoff_prover]
fn enc_step4(
    colors: &Colored<Vec<Vec<u16>>>,
    gradients: &mut (Gradients, Gradients),
    carry_results: &Colored<Vec<Vec<u16>>>,
    output: &mut BitOutputSampleTarget,
    even_pair: Option<(((Color, usize), usize), ((Color, usize), usize))>,
    odd_pair: Option<(((Color, usize), usize), ((Color, usize), usize))>,
    grad_set: usize,
    Ghost(st0): Ghost<EncState>,
    Ghost(pi): Ghost<int>,
    Ghost(kk): Ghost<int>,
    Ghost(ca): Ghost<(Color, usize)>,
    Ghost(cb): Ghost<(Color, usize)>,
) -> (r: Result<(), CodecError>)
    requires
        line_bufs_wf(colors, REQUIRED_CAPACITY as int),
        line_bufs_samples(colors),
        carry_wf(carry_results, REQUIRED_CAPACITY as int),
        old(gradients).0.wf(),
        old(gradients).1.wf(),
        grad_set < 3,
        0 <= pi < 6,
        0 <= kk < 260,
        ((ca.0, ca.1 as int), (cb.0, cb.1 as int), grad_set as int)
            == crate::process_common::schedule_spec(pi),
        ca.1 < color_rows(ca.0),
        cb.1 < color_rows(cb.0),
        even_pair == (if 0 <= kk < 256 {
            Some((((ca, (2 * kk) as usize)), ((cb, (2 * kk) as usize))))
        } else {
            None
        }),
        odd_pair == (if 4 <= kk < 260 {
            Some((((ca, (2 * (kk - 4) + 1) as usize)), ((cb, (2 * (kk - 4) + 1) as usize))))
        } else {
            None
        }),
        enc_matches(
            colors,
            carry_results,
            st0,
            pi * 1040 + 4 * kk,
            old(gradients).0@,
            old(gradients).1@,
            old(output).bits(),
        ),
    ensures
        final(gradients).0.wf(),
        final(gradients).1.wf(),
        r is Ok ==> enc_matches(
            colors,
            carry_results,
            st0,
            pi * 1040 + 4 * kk + 4,
            final(gradients).0@,
            final(gradients).1@,
            final(output).bits(),
        ),
        r is Err ==> enc_fold(colors, carry_results, st0, crate::inflate::line_steps()) is Err,
        r is Err ==> r == Err::<(), CodecError>(CodecError::InvariantViolation),
{
    let (ca_even, cb_even) = crate::process_common::flatten(even_pair);
    let (ca_odd, cb_odd) = crate::process_common::flatten(odd_pair);
    proof {
        assert(crate::inflate::item_matches(ca_even, crate::inflate::schedule_item(pi, kk, 0)));
        assert(crate::inflate::item_matches(cb_even, crate::inflate::schedule_item(pi, kk, 1)));
        assert(crate::inflate::item_matches(ca_odd, crate::inflate::schedule_item(pi, kk, 2)));
        assert(crate::inflate::item_matches(cb_odd, crate::inflate::schedule_item(pi, kk, 3)));
    }
    match enc_substep(
        colors,
        gradients,
        carry_results,
        output,
        ca_even,
        grad_set,
        Ghost(st0),
        Ghost(pi),
        Ghost(kk),
        Ghost(0),
    ) {
        Ok(u) => u,
        Err(e) => {
            return Err(e);
        },
    };
    match enc_substep(
        colors,
        gradients,
        carry_results,
        output,
        cb_even,
        grad_set,
        Ghost(st0),
        Ghost(pi),
        Ghost(kk),
        Ghost(1),
    ) {
        Ok(u) => u,
        Err(e) => {
            return Err(e);
        },
    };
    match enc_substep(
        colors,
        gradients,
        carry_results,
        output,
        ca_odd,
        grad_set,
        Ghost(st0),
        Ghost(pi),
        Ghost(kk),
        Ghost(2),
    ) {
        Ok(u) => u,
        Err(e) => {
            return Err(e);
        },
    };
    match enc_substep(
        colors,
        gradients,
        carry_results,
        output,
        cb_odd,
        grad_set,
        Ghost(st0),
        Ghost(pi),
        Ghost(kk),
        Ghost(3),
    ) {
        Ok(u) => u,
        Err(e) => {
            return Err(e);
        },
    };
    Ok(())
}

/// Walks the fixed schedule over one line and writes a sample for every
/// coded slot: the first four even slots of both colour rows in lock-step,
/// then even and odd slots of both interleaved.
pub fn make_samples_for_line(
    colors: &Colored<Vec<Vec<u16>>>,
    gradients: &mut (Gradients, Gradients),
    carry_results: &Colored<Vec<Vec<u16>>>,
    output: &mut BitOutputSampleTarget,
) -> (r: Result<(), CodecError>)
    requires
        line_bufs_wf(colors, REQUIRED_CAPACITY as int),
        line_bufs_samples(colors),
        carry_wf(carry_results, REQUIRED_CAPACITY as int),
        old(gradients).0.wf(),
        old(gradients).1.wf(),
    ensures
        final(gradients).0.wf(),
        final(gradients).1.wf(),
        r is Err ==> r == Err::<(), CodecError>(CodecError::InvariantViolation),
        ({
            let st0 = EncState {
                even: old(gradients).0@,
                odd: old(gradients).1@,
                bits: old(output).bits(),
            };
            let fold = enc_fold(colors, carry_results, st0, crate::inflate::line_steps());
            &&& (r is Ok <==> fold is Ok)
            &&& (r is Ok ==> (fold matches Ok(st) && final(gradients).0@ == st.even
                && final(gradients).1@ == st.odd && final(output).bits() == st.bits))
        }),
{
    let ghost st0 = EncState {
        even: old(gradients).0@,
        odd: old(gradients).1@,
        bits: old(output).bits(),
    };
    proof {
        assert(enc_fold(colors, carry_results, st0, 0) == Ok::<EncState, CodecError>(st0));
    }
    let mut pi: usize = 0;
    while pi < 6
        invariant
            pi <= 6,
            line_bufs_wf(colors, REQUIRED_CAPACITY as int),
            line_bufs_samples(colors),
            carry_wf(carry_results, REQUIRED_CAPACITY as int),
            gradients.0.wf(),
            gradients.1.wf(),
            st0 == (EncState {
                even: old(gradients).0@,
                odd: old(gradients).1@,
                bits: old(output).bits(),
            }),
            enc_matches(
                colors,
                carry_results,
                st0,
                (pi * 1040) as int,
                gradients.0@,
                gradients.1@,
                output.bits(),
            ),
        decreases 6 - pi,
    {
        let (color_a, color_b, grad_set_idx) = process_entry(pi);
        let mut evens: Vec<(((Color, usize), usize), ((Color, usize), usize))> = Vec::new();
        let mut odds: Vec<(((Color, usize), usize), ((Color, usize), usize))> = Vec::new();
        let mut j: usize = 0;
        while j < REQUIRED_CAPACITY / 2
            invariant
                j <= REQUIRED_CAPACITY / 2,
                evens@.len() == j,
                odds@.len() == j,
                forall|k: int|
                    0 <= k < j ==> (#[trigger] evens@[k]) == (
                        (color_a, (2 * k) as usize),
                        (color_b, (2 * k) as usize),
                    ),
                forall|k: int|
                    0 <= k < j ==> (#[trigger] odds@[k]) == (
                        (color_a, (2 * k + 1) as usize),
                        (color_b, (2 * k + 1) as usize),
                    ),
            decreases REQUIRED_CAPACITY / 2 - j,
        {
            evens.push(((color_a, 2 * j), (color_b, 2 * j)));
            odds.push(((color_a, 2 * j + 1), (color_b, 2 * j + 1)));
            j = j + 1;
        }
        let zipped = zip_with_offset(&evens, 0, &odds, 4);
        let mut k: usize = 0;
        while k < zipped.len()
            invariant
                k <= zipped@.len(),
                zipped@.len() == 260,
                line_bufs_wf(colors, REQUIRED_CAPACITY as int),
                line_bufs_samples(colors),
                carry_wf(carry_results, REQUIRED_CAPACITY as int),
                gradients.0.wf(),
                gradients.1.wf(),
                pi < 6,
                color_a.1 < color_rows(color_a.0),
                color_b.1 < color_rows(color_b.0),
                grad_set_idx < 3,
                ((color_a.0, color_a.1 as int), (color_b.0, color_b.1 as int), grad_set_idx as int)
                    == crate::process_common::schedule_spec(pi as int),
                st0 == (EncState {
                    even: old(gradients).0@,
                    odd: old(gradients).1@,
                    bits: old(output).bits(),
                }),
                enc_matches(
                    colors,
                    carry_results,
                    st0,
                    (pi * 1040 + 4 * k) as int,
                    gradients.0@,
                    gradients.1@,
                    output.bits(),
                ),
                evens@.len() == REQUIRED_CAPACITY / 2,
                odds@.len() == REQUIRED_CAPACITY / 2,
                forall|q: int|
                    0 <= q < evens@.len() ==> (#[trigger] evens@[q]) == (
                        (color_a, (2 * q) as usize),
                        (color_b, (2 * q) as usize),
                    ),
                forall|q: int|
                    0 <= q < odds@.len() ==> (#[trigger] odds@[q]) == (
                        (color_a, (2 * q + 1) as usize),
                        (color_b, (2 * q + 1) as usize),
                    ),
                forall|q: int|
                    0 <= q < zipped@.len() ==> (#[trigger] zipped@[q]) == (
                        crate::zip_with_offset::delayed_at(evens@, 0, q),
                        crate::zip_with_offset::delayed_at(odds@, 4, q),
                    ),
            decreases zipped@.len() - k,
        {
            let (even_pair, odd_pair) = zipped[k];
            proof {
                assert(even_pair == (if 0 <= k < 256 {
                    Some((((color_a, (2 * (k as int)) as usize)), ((color_b, (2 * (k as int)) as usize))))
                } else {
                    None
                }));
                assert(odd_pair == (if 4 <= k < 260 {
                    Some((((color_a, (2 * (k as int - 4) + 1) as usize)), ((color_b, (2 * (k as int
                        - 4) + 1) as usize))))
                } else {
                    None
                }));
            }
            match enc_step4(
                colors,
                gradients,
                carry_results,
                output,
                even_pair,
                odd_pair,
                grad_set_idx,
                Ghost(st0),
                Ghost(pi as int),
                Ghost(k as int),
                Ghost(color_a),
                Ghost(color_b),
            ) {
                Ok(u) => u,
                Err(e) => {
                    return Err(e);
                },
            };
            k = k + 1;
        }
        pi = pi + 1;
    }
    proof {
        assert(enc_matches(
            colors,
            carry_results,
            st0,
            crate::inflate::line_steps(),
            gradients.0@,
            gradients.1@,
            output.bits(),
        ));
    }
    Ok(())
}

/// The colours of sensor row `r` of the map, as the remapper reads them.
pub open spec fn map_row_colors(cm: &DataGrid<Color>, r: int) -> Seq<Color> {
    Seq::new(6, |i: int| cm.cell(r, i))
}

/// What lets six sensor rows share the flat buffers losslessly: each row
/// is collision-free on its own, and the two sensor rows stacked into one
/// red or blue buffer row never target the same slot.
pub open spec fn map_layout_ok(cm: &DataGrid<Color>) -> bool {
    &&& (forall|r: int| 0 <= r < 6 ==> no_color_collision(#[trigger] map_row_colors(cm, r)))
    &&& (forall|k: int, j: int|
        #![trigger slot_targeted(map_row_colors(cm, 2 * k + 1), Color::Red, j, STRIPE_WIDTH as int)]
        0 <= k < 3 && 0 <= j < REQUIRED_CAPACITY ==> !(slot_targeted(
            map_row_colors(cm, 2 * k),
            Color::Red,
            j,
            STRIPE_WIDTH as int,
        ) && slot_targeted(map_row_colors(cm, 2 * k + 1), Color::Red, j, STRIPE_WIDTH as int)))
    &&& (forall|k: int, j: int|
        #![trigger slot_targeted(map_row_colors(cm, 2 * k + 1), Color::Blue, j, STRIPE_WIDTH as int)]
        0 <= k < 3 && 0 <= j < REQUIRED_CAPACITY ==> !(slot_targeted(
            map_row_colors(cm, 2 * k),
            Color::Blue,
            j,
            STRIPE_WIDTH as int,
        ) && slot_targeted(map_row_colors(cm, 2 * k + 1), Color::Blue, j, STRIPE_WIDTH as int)))
}

/// The buffer slot native cell `(r, x)` of a line lands in, read back.
pub open spec fn line_slot_of(results: &Colored<Vec<Vec<u16>>>, cm: &DataGrid<Color>, r: int, x: int) -> u16 {
    sel3(
        results.red@[r / 2]@,
        results.green@[r]@,
        results.blue@[r / 2]@,
        cm.cell(r, x % 6),
    )[sq(x)]
}

/// Processes one line: remaps the six native rows into per-colour flat
/// buffers, fills the layout gaps with the shared predictor, then encodes
/// every coded slot.  Returns the filled buffers for the carry record.
/// Under a lossless layout, every native sample of the line sits in its
/// slot of the returned buffers.
pub fn process_line(
    line: &DataGrid<u16>,
    color_map: &DataGrid<Color>,
    gradients: &mut (Gradients, Gradients),
    carry_results: &Colored<Vec<Vec<u16>>>,
    output: &mut BitOutputSampleTarget,
) -> (r: Result<Colored<Vec<Vec<u16>>>, CodecError>)
    requires
        line.wf(),
        line.spec_size().0 == STRIPE_WIDTH,
        line.spec_size().1 == 6,
        grid_samples(line),
        color_map.wf(),
        color_map.spec_size().0 == 6,
        color_map.spec_size().1 == 6,
        carry_wf(carry_results, REQUIRED_CAPACITY as int),
        old(gradients).0.wf(),
        old(gradients).1.wf(),
    ensures
        final(gradients).0.wf(),
        final(gradients).1.wf(),
        r matches Ok(res) ==> line_bufs_wf(&res, REQUIRED_CAPACITY as int) && line_bufs_samples(
            &res,
        ),
        r matches Ok(res) ==> map_layout_ok(color_map) ==> forall|rr: int, p: int|
            0 <= rr < 6 && 0 <= p < STRIPE_WIDTH ==> #[trigger] line_slot_of(&res, color_map, rr, p)
                == line.cell(rr, p),
        r matches Ok(res) ==> ({
            let st0 = EncState {
                even: old(gradients).0@,
                odd: old(gradients).1@,
                bits: old(output).bits(),
            };
            let fold = enc_fold(&res, carry_results, st0, crate::inflate::line_steps());
            &&& fold is Ok
            &&& final(output).bits() == fold->Ok_0.bits
            &&& final(gradients).0@ == fold->Ok_0.even
            &&& final(gradients).1@ == fold->Ok_0.odd
        }),
        r is Err ==> r == Err::<Colored<Vec<Vec<u16>>>, CodecError>(CodecError::InvariantViolation),
{
    let mut colors = Colored::new(unset_rows(3), unset_rows(6), unset_rows(3));
    let mut row_idx: usize = 0;
    while row_idx < 6
        invariant
            row_idx <= 6,
            line.wf(),
            line.spec_size().0 == STRIPE_WIDTH,
            line.spec_size().1 == 6,
            grid_samples(line),
            color_map.wf(),
            color_map.spec_size().0 == 6,
            color_map.spec_size().1 == 6,
            line_bufs_wf(&colors, REQUIRED_CAPACITY as int),
            line_bufs_flexible(&colors),
            map_layout_ok(color_map) ==> forall|rr: int, p: int|
                0 <= rr < row_idx && 0 <= p < STRIPE_WIDTH ==> #[trigger] line_slot_of(
                    &colors,
                    color_map,
                    rr,
                    p,
                ) == line.cell(rr, p),
        decreases 6 - row_idx,
    {
        let row = line.row(row_idx);
        proof {
            assert forall|x: int| 0 <= x < row@.len() implies #[trigger] row@[x]
                < SAMPLE_LIMIT by {
                assert(row@[x] == line.cell(row_idx as int, x));
            }
        }
        let row_map = color_map.subgrid(Position(0, row_idx), Size(6, 1));
        let ghost pre = colors;
        let (r_bufs, g_bufs, b_bufs) = colors.split_mut();
        map_xtrans_to_contiguous_colors(
            &mut r_bufs[row_idx / 2],
            &mut g_bufs[row_idx],
            &mut b_bufs[row_idx / 2],
            &row,
            &row_map,
        );
        proof {
            let rcs = map_row_colors(color_map, row_idx as int);
            assert(Seq::new(6, |i: int| row_map.cell(0, i)) =~= rcs);
            if map_layout_ok(color_map) {
                assert forall|rr: int, p: int|
                    0 <= rr < row_idx + 1 && 0 <= p < STRIPE_WIDTH implies #[trigger] line_slot_of(
                    &colors,
                    color_map,
                    rr,
                    p,
                ) == line.cell(rr, p) by {
                    crate::process_common::lemma_sq_mono(p, 767);
                    assert(sq(767) == 511);
                    let c = color_map.cell(rr, p % 6);
                    assert(c == row_color(map_row_colors(color_map, rr), p));
                    if rr == row_idx {
                        assert(no_color_collision(rcs));
                        assert(sel3(
                            colors.red@[rr / 2]@,
                            colors.green@[rr]@,
                            colors.blue@[rr / 2]@,
                            row_color(rcs, p),
                        )[sq(p)] == row@[p]);
                        assert(row@[p] == line.cell(rr, p));
                    } else {
                        let prev_rcs = map_row_colors(color_map, rr);
                        assert(line_slot_of(&pre, color_map, rr, p) == line.cell(rr, p));
                        match c {
                            Color::Green => {
                                assert(colors.green@[rr]@ == pre.green@[rr]@);
                            },
                            Color::Red => {
                                if rr / 2 == row_idx as int / 2 {
                                    assert(row_idx == rr + 1 && rr % 2 == 0);
                                    assert(slot_targeted(prev_rcs, Color::Red, sq(p), 768)) by {
                                        assert(0 <= p < 768 && row_color(prev_rcs, p) == Color::Red
                                            && sq(p) == sq(p));
                                    }
                                    let k = rr / 2;
                                    assert(2 * k == rr && 2 * k + 1 == row_idx);
                                    assert(!slot_targeted(rcs, Color::Red, sq(p), 768));
                                    assert(colors.red@[rr / 2]@[sq(p)] == pre.red@[rr / 2]@[sq(p)]);
                                } else {
                                    assert(colors.red@[rr / 2]@ == pre.red@[rr / 2]@);
                                }
                            },
                            Color::Blue => {
                                if rr / 2 == row_idx as int / 2 {
                                    assert(row_idx == rr + 1 && rr % 2 == 0);
                                    assert(slot_targeted(prev_rcs, Color::Blue, sq(p), 768)) by {
                                        assert(0 <= p < 768 && row_color(prev_rcs, p) == Color::Blue
                                            && sq(p) == sq(p));
                                    }
                                    let k = rr / 2;
                                    assert(2 * k == rr && 2 * k + 1 == row_idx);
                                    assert(!slot_targeted(rcs, Color::Blue, sq(p), 768));
                                    assert(colors.blue@[rr / 2]@[sq(p)] == pre.blue@[rr / 2]@[sq(
                                        p,
                                    )]);
                                } else {
                                    assert(colors.blue@[rr / 2]@ == pre.blue@[rr / 2]@);
                                }
                            },
                        }
                    }
                }
            }
        }
        row_idx = row_idx + 1;
    }
    let ghost prefill = colors;
    match fill_blanks_in_line(carry_results, &mut colors) {
        Ok(u) => u,
        Err(e) => {
            return Err(CodecError::InvariantViolation);
        },
    };
    proof {
        if map_layout_ok(color_map) {
            assert forall|rr: int, p: int|
                0 <= rr < 6 && 0 <= p < STRIPE_WIDTH implies #[trigger] line_slot_of(
                &colors,
                color_map,
                rr,
                p,
            ) == line.cell(rr, p) by {
                crate::process_common::lemma_sq_mono(p, 767);
                assert(sq(767) == 511);
                assert(line_slot_of(&prefill, color_map, rr, p) == line.cell(rr, p));
                assert(line.cell(rr, p) < SAMPLE_LIMIT);
                let c = color_map.cell(rr, p % 6);
                match c {
                    Color::Red => {
                        crate::process_common::lemma_filled_keeps_values(
                            rows_views(prefill.red@),
                            carry_results.red@[0]@,
                            carry_results.red@[1]@,
                            3,
                            rr / 2,
                            sq(p),
                        );
                        assert(rows_views(colors.red@)[rr / 2] == colors.red@[rr / 2]@);
                    },
                    Color::Green => {
                        crate::process_common::lemma_filled_keeps_values(
                            rows_views(prefill.green@),
                            carry_results.green@[0]@,
                            carry_results.green@[1]@,
                            6,
                            rr,
                            sq(p),
                        );
                        assert(rows_views(colors.green@)[rr] == colors.green@[rr]@);
                    },
                    Color::Blue => {
                        crate::process_common::lemma_filled_keeps_values(
                            rows_views(prefill.blue@),
                            carry_results.blue@[0]@,
                            carry_results.blue@[1]@,
                            3,
                            rr / 2,
                            sq(p),
                        );
                        assert(rows_views(colors.blue@)[rr / 2] == colors.blue@[rr / 2]@);
                    },
                }
            }
        }
    }
    match make_samples_for_line(&colors, gradients, carry_results, output) {
        Ok(u) => u,
        Err(e) => {
            return Err(CodecError::InvariantViolation);
        },
    };
    Ok(colors)
}

/// Encodes one whole stripe: fresh gradients and a zero carry record, then
/// every full six-row line in order, each line's buffers carried forward.
pub fn process_stripe(
    stripe: &DataGrid<u16>,
    color_map: &DataGrid<Color>,
    output: &mut BitOutputSampleTarget,
) -> (r: Result<(), CodecError>)
    requires
        stripe.wf(),
        stripe.spec_size().0 == STRIPE_WIDTH,
        grid_samples(stripe),
        color_map.wf(),
        color_map.spec_size().0 == 6,
        color_map.spec_size().1 == 6,
    ensures
        r is Err ==> r == Err::<(), CodecError>(CodecError::InvariantViolation),
{
    let mut prev_lines = Colored::new(zero_rows(), zero_rows(), zero_rows());
    let mut gradients = (Gradients::fresh(), Gradients::fresh());
    let height = stripe.size().1;
    let num_lines = height / 6;
    let mut line_no: usize = 0;
    while line_no < num_lines
        invariant
            line_no <= num_lines,
            num_lines == stripe.spec_size().1 as int / 6,
            stripe.wf(),
            stripe.spec_size().0 == STRIPE_WIDTH,
            grid_samples(stripe),
            color_map.wf(),
            color_map.spec_size().0 == 6,
            color_map.spec_size().1 == 6,
            carry_wf(&prev_lines, REQUIRED_CAPACITY as int),
            gradients.0.wf(),
            gradients.1.wf(),
        decreases num_lines - line_no,
    {
        proof {
            vstd::arithmetic::div_mod::lemma_fundamental_div_mod(stripe.spec_size().1 as int, 6);
        }
        let line = stripe.subgrid(Position(0, 6 * line_no), Size(STRIPE_WIDTH, 6));
        proof {
            assert forall|y: int, x: int|
                0 <= y < 6 && 0 <= x < STRIPE_WIDTH implies #[trigger] line.cell(y, x)
                < SAMPLE_LIMIT by {
                assert(line.cell(y, x) == stripe.cell(y + 6 * line_no, x));
            }
        }
        let results = match process_line(&line, color_map, &mut gradients, &prev_lines, output) {
            Ok(res) => res,
            Err(e) => {
                return Err(CodecError::InvariantViolation);
            },
        };
        prev_lines = collect_carry_lines(&results);
        line_no = line_no + 1;
    }
    Ok(())
}

/// Encodes the leftmost stripe of the grid into one compressed block:
/// all the samples, padded to a byte and then with zero bytes to the next
/// multiple of eight bytes.
pub fn compress(img_grid: &DataGrid<u16>, cm: &DataGrid<Color>) -> (r: Result<Vec<u8>, CodecError>)
    requires
        img_grid.wf(),
        img_grid.spec_size().0 >= STRIPE_WIDTH,
        img_grid.spec_size().1 >= 1,
        grid_samples(img_grid),
        cm.wf(),
        cm.spec_size().0 == 6,
        cm.spec_size().1 == 6,
    ensures
        r matches Ok(bytes) ==> bytes@.len() % 8 == 0 && bytes@.len() >= 8,
        r is Err ==> r == Err::<Vec<u8>, CodecError>(CodecError::InvariantViolation),
{
    let height = img_grid.size().1;
    let stripe = img_grid.subgrid(Position(0, 0), Size(STRIPE_WIDTH, height));
    proof {
        assert forall|y: int, x: int|
            0 <= y < stripe.spec_size().1 && 0 <= x < stripe.spec_size().0 implies #[trigger] stripe
            .cell(y, x) < SAMPLE_LIMIT by {
            assert(stripe.cell(y, x) == img_grid.cell(y, x));
        }
    }
    let mut output = BitOutputSampleTarget::wrap();
    match process_stripe(&stripe, cm, &mut output) {
        Ok(u) => u,
        Err(e) => {
            return Err(CodecError::InvariantViolation);
        },
    };
    output.finalize_block();
    let bytes = output.into_bytes();
    proof {
        let n = bytes@.len() as int;
        let l = output.bits().len() as int;
        assert(n == l / 8);
        vstd::arithmetic::div_mod::lemma_fundamental_div_mod(l, 64);
        let m = l / 64;
        assert(l == 64 * m);
        assert((64 * m) / 8 == 8 * m) by (nonlinear_arith);
        vstd::arithmetic::div_mod::lemma_mod_multiples_vanish(m, 0, 8);
        assert((8 * m) % 8 == 0);
    }
    Ok(bytes)
}

/// A zero field is a run of zero bits.
proof fn lemma_zero_field(n: nat)
    ensures
        field_bits(0, n) =~= zero_bits(n),
{
    assert forall|i: int| 0 <= i < n implies !(field_bits(0, n)[i]) by {
        let sh = ((n - 1 - i) as u32);
        assert((0u32 >> sh) & 1 == 0) by (bit_vector);
    }
}

} // verus!
