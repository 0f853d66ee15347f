//! The decoder: reads samples out of a stripe's bitstream against the same
//! adaptive gradient model the encoder keeps, interpolates the layout gaps
//! with the shared predictor, and scatters the per-colour flat buffers back
//! into the native sensor layout.
use crate::bitreader::zeros_run;
use crate::bitreader::BitReader;
use crate::colored::Colored;
use crate::compress::REQUIRED_CAPACITY;
use crate::compress::STRIPE_WIDTH;
use crate::datagrid::DataGrid;
use crate::datagrid::Position;
use crate::datagrid::Size;
use crate::process_common::all_samples;
use crate::process_common::carry_wf;
use crate::process_common::collect_carry_lines;
use crate::process_common::color_rows;
use crate::process_common::copy_row;
use crate::process_common::flatten;
use crate::process_common::grad_and_weighted_avg_even;
use crate::process_common::grad_and_weighted_avg_odd;
use crate::process_common::is_interpolated;
use crate::process_common::line_bufs_samples;
use crate::process_common::line_bufs_wf;
use crate::process_common::process_entry;
use crate::process_common::row_color;
use crate::process_common::rows_samples;
use crate::process_common::rows_views;
use crate::process_common::rows_wf;
use crate::process_common::sel3;
use crate::process_common::sq;
use crate::process_common::squashed_index;
use crate::process_common::unremap_read;
use crate::process_common::SAMPLE_LIMIT;
use crate::process_common::UNSET;
use crate::sample::Gradients;
use crate::sample::Sample;
use crate::sample::GRAD_VALUE_LIMIT;
use crate::zip_with_offset::zip_with_offset;
use crate::CodecError;
use crate::Color;
use vstd::prelude::*;

verus! {

/// The standard X-Trans colour at `(row, col)` of the 6x6 pattern.
pub open spec fn xtrans_pattern_spec(row: int, col: int) -> Color {
    if row == 0 || row == 4 {
        if col == 2 {
            Color::Red
        } else if col == 5 {
            Color::Blue
        } else {
            Color::Green
        }
    } else if row == 1 || row == 3 {
        if col == 2 {
            Color::Blue
        } else if col == 5 {
            Color::Red
        } else {
            Color::Green
        }
    } else if row == 2 {
        if col == 0 || col == 4 {
            Color::Blue
        } else if col == 1 || col == 3 {
            Color::Red
        } else {
            Color::Green
        }
    } else {
        if col == 0 || col == 4 {
            Color::Red
        } else if col == 1 || col == 3 {
            Color::Blue
        } else {
            Color::Green
        }
    }
}

/// The standard 6x6 X-Trans colour pattern, cell for cell.
pub fn make_color_map() -> (r: DataGrid<Color>)
    ensures
        r.wf(),
        r.spec_size().0 == 6,
        r.spec_size().1 == 6,
        forall|y: int, x: int|
            0 <= y < 6 && 0 <= x < 6 ==> #[trigger] r.cell(y, x) == xtrans_pattern_spec(y, x),
{
    let mut cells: Vec<Color> = Vec::new();
    let mut i: usize = 0;
    while i < 36
        invariant
            i <= 36,
            cells@.len() == i,
            forall|j: int| 0 <= j < i ==> #[trigger] cells@[j] == xtrans_pattern_spec(j / 6, j % 6),
        decreases 36 - i,
    {
        cells.push(standard_pattern_cell(i));
        i = i + 1;
    }
    let r = DataGrid::wrap(cells, Size(6, 6));
    proof {
        assert forall|y: int, x: int| 0 <= y < 6 && 0 <= x < 6 implies #[trigger] r.cell(y, x)
            == xtrans_pattern_spec(y, x) by {
            vstd::arithmetic::div_mod::lemma_div_multiples_vanish_fancy(y, x, 6);
            vstd::arithmetic::div_mod::lemma_mod_multiples_vanish(y, x, 6);
            assert((y * 6 + x) == (6 * y + x));
        }
    }
    r
}

/// The cell of the standard pattern at flat index `i`, row-major.
fn standard_pattern_cell(i: usize) -> (r: Color)
    requires
        i < 36,
    ensures
        r == xtrans_pattern_spec(i as int / 6, i as int % 6),
{
    let row = i / 6;
    let col = i % 6;
    if row == 0 || row == 4 {
        if col == 2 {
            Color::Red
        } else if col == 5 {
            Color::Blue
        } else {
            Color::Green
        }
    } else if row == 1 || row == 3 {
        if col == 2 {
            Color::Blue
        } else if col == 5 {
            Color::Red
        } else {
            Color::Green
        }
    } else if row == 2 {
        if col == 0 || col == 4 {
            Color::Blue
        } else if col == 1 || col == 3 {
            Color::Red
        } else {
            Color::Green
        }
    } else {
        if col == 0 || col == 4 {
            Color::Red
        } else if col == 1 || col == 3 {
            Color::Blue
        } else {
            Color::Green
        }
    }
}

/// The signed, gradient-directed delta one sample carries.
pub open spec fn sample_delta_spec(s: Sample) -> int {
    match s {
        Sample::Zero => 0,
        Sample::EntireDelta(v, invert) => if invert {
            v + 1
        } else {
            -(v + 1)
        },
        Sample::SplitDelta { upper, lower, lower_bits, invert } => {
            let val = upper * crate::bits::pow2n(lower_bits as nat) + lower;
            if invert {
                -(val + 1)
            } else {
                val
            }
        },
    }
}

/// How a decoded value is rebuilt from the prediction and the signed
/// delta: added or subtracted as the gradient's sign directs, wrapped at
/// the 14-bit boundary.
pub open spec fn reconstruct_spec(wa: int, gneg: bool, delta: int) -> int {
    (if gneg {
        wa - delta
    } else {
        wa + delta
    }) % 16384
}

/// A sample whose fields are within what `read_sample` can produce.
pub open spec fn sample_read_wf(s: Sample) -> bool {
    match s {
        Sample::Zero => true,
        Sample::EntireDelta(v, invert) => v < 0x2000,
        Sample::SplitDelta { upper, lower, lower_bits, invert } => upper <= 40 && lower_bits <= 12
            && lower < crate::bits::pow2n(lower_bits as nat),
    }
}

/// Turns a decoded sample back into its signed delta.
pub fn sample_to_delta(sample: Sample) -> (r: i32)
    requires
        sample_read_wf(sample),
    ensures
        r == sample_delta_spec(sample),
        crate::process_common::iabs(r as int) <= GRAD_VALUE_LIMIT,
{
    match sample {
        Sample::Zero => 0,
        Sample::EntireDelta(val, invert) => {
            let mag = val as i32 + 1;
            if invert {
                mag
            } else {
                -mag
            }
        },
        Sample::SplitDelta { upper, lower, lower_bits, invert } => {
            let p = crate::bits::pow2_exec(lower_bits);
            proof {
                crate::bits::lemma_pow2n_le(lower_bits as nat, 12);
                reveal_with_fuel(crate::bits::pow2n, 14);
                assert(crate::bits::pow2n(12) == 4096);
                assert(upper as int * p as int <= 40 * 4096) by (nonlinear_arith)
                    requires
                        0 <= upper <= 40 && 0 <= p <= 4096,
                ;
            }
            let val = (upper as u32) * p + lower as u32;
            if invert {
                -(val as i32 + 1)
            } else {
                val as i32
            }
        },
    }
}

/// What `read_sample` finds at the cursor: the unary run selects the
/// shape, and each field is the value of the bits that follow.
pub open spec fn read_sample_spec(bits: Seq<bool>, c: nat, dec_bits: int) -> Result<
    Sample,
    CodecError,
> {
    let run = zeros_run(bits, c);
    let c1 = c + run + 1;
    if c + run >= bits.len() {
        Err(CodecError::UnexpectedEndOfInput)
    } else if run > 40 {
        if c1 + 14 <= bits.len() {
            Ok(
                Sample::EntireDelta(
                    crate::bits::bits_val(bits.subrange(c1 as int, c1 as int + 13)) as u16,
                    bits[c1 as int + 13],
                ),
            )
        } else {
            Err(CodecError::UnexpectedEndOfInput)
        }
    } else if dec_bits == 0 {
        if run == 0 {
            Ok(Sample::Zero)
        } else {
            Err(CodecError::InvariantViolation)
        }
    } else {
        if c1 + dec_bits <= bits.len() {
            Ok(
                Sample::SplitDelta {
                    upper: run as u16,
                    lower: crate::bits::bits_val(
                        bits.subrange(c1 as int, c1 as int + dec_bits - 1),
                    ) as u16,
                    lower_bits: (dec_bits - 1) as usize,
                    invert: bits[c1 as int + dec_bits - 1],
                },
            )
        } else {
            Err(CodecError::UnexpectedEndOfInput)
        }
    }
}

/// How many bits `read_sample` consumes when it succeeds.
pub open spec fn read_sample_len(bits: Seq<bool>, c: nat, dec_bits: int) -> int {
    let run = zeros_run(bits, c);
    run + 1 + (if run > 40 {
        14int
    } else if dec_bits == 0 {
        0int
    } else {
        dec_bits
    })
}

/// Reads one sample off the bitstream: the unary run, then either the
/// 13-bit escape literal or the fixed-width remainder, then the invert
/// flag.  A run past forty selects the escape shape; a nonzero run under a
/// zero code length is an invariant violation.
pub fn read_sample(reader: &mut BitReader, lower_bits: usize) -> (r: Result<Sample, CodecError>)
    requires
        old(reader).wf(),
        lower_bits <= 13,
    ensures
        final(reader).wf(),
        final(reader).bits() == old(reader).bits(),
        r matches Ok(s) ==> sample_read_wf(s),
        r == read_sample_spec(old(reader).bits(), old(reader).cursor(), lower_bits as int),
        r is Ok ==> final(reader).cursor() == old(reader).cursor() + read_sample_len(
            old(reader).bits(),
            old(reader).cursor(),
            lower_bits as int,
        ),
{
    let upper = match reader.count_continuous_0s() {
        Ok(u) => u,
        Err(e) => {
            return Err(e);
        },
    };
    if upper > 40 {
        let ghost mid = *reader;
        let value = match reader.read_bits(13) {
            Ok(v) => v,
            Err(e) => {
                return Err(e);
            },
        };
        let inv = match reader.read_bits(1) {
            Ok(v) => v,
            Err(e) => {
                return Err(e);
            },
        };
        proof {
            crate::bits::lemma_bits_val_bound(
                mid.bits().subrange(mid.cursor() as int, mid.cursor() as int + 13),
            );
            reveal_with_fuel(crate::bits::pow2n, 15);
            assert(crate::bits::pow2n(13) == 0x2000);
            crate::bits::lemma_bits_val_single(mid.bits(), mid.cursor() as int + 13);
        }
        Ok(Sample::EntireDelta(value as u16, inv == 1))
    } else if lower_bits == 0 {
        if upper == 0 {
            Ok(Sample::Zero)
        } else {
            Err(CodecError::InvariantViolation)
        }
    } else {
        let ghost mid = *reader;
        let lower = match reader.read_bits(lower_bits - 1) {
            Ok(v) => v,
            Err(e) => {
                return Err(e);
            },
        };
        let inv = match reader.read_bits(1) {
            Ok(v) => v,
            Err(e) => {
                return Err(e);
            },
        };
        proof {
            if lower_bits >= 2 {
                crate::bits::lemma_bits_val_bound(
                    mid.bits().subrange(
                        mid.cursor() as int,
                        mid.cursor() as int + (lower_bits - 1),
                    ),
                );
            }
            crate::bits::lemma_bits_val_single(mid.bits(), mid.cursor() as int + (lower_bits - 1));
        }
        Ok(
            Sample::SplitDelta {
                upper: upper as u16,
                lower: lower as u16,
                lower_bits: lower_bits - 1,
                invert: inv == 1,
            },
        )
    }
}

/// Every slot of the row holds a legitimate sample.
fn check_samples(v: &Vec<u16>) -> (r: bool)
    ensures
        r == all_samples(v@),
{
    let mut i: usize = 0;
    while i < v.len()
        invariant
            i <= v@.len(),
            forall|j: int| 0 <= j < i ==> #[trigger] v@[j] < SAMPLE_LIMIT,
        decreases v@.len() - i,
    {
        if v[i] >= SAMPLE_LIMIT {
            return false;
        }
        i = i + 1;
    }
    true
}

/// The two rows above a slot, copied out of the carry record or the line
/// buffers, checked to hold legitimate samples.
fn gather_prev_rows(
    cdata: &Vec<Vec<u16>>,
    carry: &Vec<Vec<u16>>,
    row_idx: usize,
) -> (r: Result<(Vec<u16>, Vec<u16>), CodecError>)
    requires
        rows_wf(carry@, 2, REQUIRED_CAPACITY as int),
        rows_wf(cdata@, cdata@.len() as int, REQUIRED_CAPACITY as int),
        row_idx < cdata@.len(),
    ensures
        r matches Ok(rows) ==> rows.0@.len() == REQUIRED_CAPACITY && rows.1@.len()
            == REQUIRED_CAPACITY && all_samples(rows.0@) && all_samples(rows.1@),
        r matches Ok(rows) ==> rows.0@ == crate::compress::prev_rows_spec(
            rows_views(cdata@),
            rows_views(carry@),
            row_idx as int,
        ).0 && rows.1@ == crate::compress::prev_rows_spec(
            rows_views(cdata@),
            rows_views(carry@),
            row_idx as int,
        ).1,
        r is Ok <==> all_samples(
            crate::compress::prev_rows_spec(rows_views(cdata@), rows_views(carry@), row_idx as int).0,
        ) && all_samples(
            crate::compress::prev_rows_spec(rows_views(cdata@), rows_views(carry@), row_idx as int).1,
        ),
        r is Err ==> r == Err::<(Vec<u16>, Vec<u16>), CodecError>(CodecError::InvariantViolation),
{
    let (rprevprev, rprev): (Vec<u16>, Vec<u16>) = if row_idx == 0 {
        (copy_row(&carry[0]), copy_row(&carry[1]))
    } else if row_idx == 1 {
        (copy_row(&carry[1]), copy_row(&cdata[0]))
    } else {
        (copy_row(&cdata[row_idx - 2]), copy_row(&cdata[row_idx - 1]))
    };
    if !check_samples(&rprevprev) || !check_samples(&rprev) {
        return Err(CodecError::InvariantViolation);
    }
    Ok((rprevprev, rprev))
}

/// The value of an interpolated slot: the even predictor over the two rows
/// above it, never coded on the wire.
pub fn interpolate_value(
    colors: &Colored<Vec<Vec<u16>>>,
    carry_results: &Colored<Vec<Vec<u16>>>,
    row_idx: usize,
    color: Color,
    idx: usize,
) -> (r: Result<u16, CodecError>)
    requires
        line_bufs_wf(colors, REQUIRED_CAPACITY as int),
        carry_wf(carry_results, REQUIRED_CAPACITY as int),
        row_idx < color_rows(color),
        idx < REQUIRED_CAPACITY,
        idx % 2 == 0,
    ensures
        r matches Ok(v) ==> v < SAMPLE_LIMIT,
        r matches Ok(v) ==> ({
            let pr = crate::compress::prev_rows_spec(
                rows_views(colors.sel(color)@),
                rows_views(carry_results.sel(color)@),
                row_idx as int,
            );
            v == crate::process_common::wavg_even_spec(
                crate::process_common::even_coefficients_of(pr.1, pr.0, idx as int),
            )
        }),
        r is Ok <==> ({
            let pr = crate::compress::prev_rows_spec(
                rows_views(colors.sel(color)@),
                rows_views(carry_results.sel(color)@),
                row_idx as int,
            );
            all_samples(pr.0) && all_samples(pr.1)
        }),
        r is Err ==> r == Err::<u16, CodecError>(CodecError::InvariantViolation),
{
    let carry = carry_results.get(color);
    let cdata = colors.get(color);
    let (rprevprev, rprev) = match gather_prev_rows(cdata, carry, row_idx) {
        Ok(p) => p,
        Err(e) => {
            return Err(e);
        },
    };
    let (weighted_average, _which_grad) = grad_and_weighted_avg_even(idx, &rprevprev, &rprev);
    Ok(weighted_average)
}

/// Decodes one coded slot: picks the gradient by the quantised context,
/// reads a sample of that gradient's code length, reconstructs the value
/// from the prediction modulo the 14-bit domain, and updates the gradient
/// with the absolute delta.
pub fn compute_value_and_update_gradients(
    reader: &mut BitReader,
    colors: &Colored<Vec<Vec<u16>>>,
    gradients: &mut (Gradients, Gradients),
    carry_results: &Colored<Vec<Vec<u16>>>,
    row_idx: usize,
    color: Color,
    idx: usize,
    grad_set: usize,
) -> (r: Result<u16, CodecError>)
    requires
        old(reader).wf(),
        line_bufs_wf(colors, REQUIRED_CAPACITY as int),
        carry_wf(carry_results, REQUIRED_CAPACITY as int),
        row_idx < color_rows(color),
        idx < REQUIRED_CAPACITY,
        grad_set < 3,
        old(gradients).0.wf(),
        old(gradients).1.wf(),
    ensures
        final(reader).wf(),
        final(reader).bits() == old(reader).bits(),
        final(gradients).0.wf(),
        final(gradients).1.wf(),
        r matches Ok(v) ==> v < SAMPLE_LIMIT,
        idx % 2 == 0 ==> final(gradients).1 == old(gradients).1,
        idx % 2 == 1 ==> final(gradients).0 == old(gradients).0,
        ({
            let cdata = rows_views(colors.sel(color)@);
            let carry = rows_views(carry_results.sel(color)@);
            let wg = crate::compress::slot_wa_grad(cdata, carry, row_idx as int, idx as int);
            let gsel = if idx % 2 == 0 {
                old(gradients).0
            } else {
                old(gradients).1
            };
            let gfin = if idx % 2 == 0 {
                final(gradients).0
            } else {
                final(gradients).1
            };
            let ctx = grad_set * 41 + crate::process_common::iabs(wg.1);
            let gr = gsel@[ctx];
            let d = crate::sample::bit_diff_spec(gr.0 as int, gr.1 as int);
            let rs = read_sample_spec(old(reader).bits(), old(reader).cursor(), d);
            let pr = crate::compress::prev_rows_spec(cdata, carry, row_idx as int);
            let slots_ok = all_samples(pr.0) && all_samples(pr.1) && (idx % 2 == 1
                ==> cdata[row_idx as int][idx - 1] < SAMPLE_LIMIT && (idx + 1 < REQUIRED_CAPACITY
                ==> cdata[row_idx as int][idx + 1] < SAMPLE_LIMIT));
            &&& (r is Ok <==> slots_ok && rs is Ok)
            &&& (r is Err ==> r->Err_0 == (if !slots_ok {
                CodecError::InvariantViolation
            } else {
                rs->Err_0
            }))
            &&& (r is Ok ==> {
                &&& rs is Ok
                &&& r == Ok::<u16, CodecError>(
                    reconstruct_spec(wg.0, wg.1 < 0, sample_delta_spec(rs->Ok_0)) as u16,
                )
                &&& gfin@ == gsel@.update(
                    ctx,
                    crate::sample::grad_updated(
                        gr,
                        crate::process_common::iabs(sample_delta_spec(rs->Ok_0)),
                    ),
                )
                &&& final(reader).cursor() == old(reader).cursor() + read_sample_len(
                    old(reader).bits(),
                    old(reader).cursor(),
                    d,
                )
            })
        }),
{
    let carry = carry_results.get(color);
    let cdata = colors.get(color);
    let (rprevprev, rprev) = match gather_prev_rows(cdata, carry, row_idx) {
        Ok(p) => p,
        Err(e) => {
            return Err(e);
        },
    };
    let (weighted_average, which_grad) = if idx % 2 == 0 {
        grad_and_weighted_avg_even(idx, &rprevprev, &rprev)
    } else {
        let rthis = &cdata[row_idx];
        if rthis[idx - 1] >= SAMPLE_LIMIT {
            return Err(CodecError::InvariantViolation);
        }
        if idx + 1 < REQUIRED_CAPACITY && rthis[idx + 1] >= SAMPLE_LIMIT {
            return Err(CodecError::InvariantViolation);
        }
        grad_and_weighted_avg_odd(idx, &rprevprev, &rprev, rthis)
    };
    if idx % 2 == 0 {
        decode_with_gradients(reader, &mut gradients.0, grad_set, which_grad, weighted_average)
    } else {
        decode_with_gradients(reader, &mut gradients.1, grad_set, which_grad, weighted_average)
    }
}

/// Reads one sample under the selected gradient's code length, rebuilds
/// the value from the prediction modulo the 14-bit domain, and folds the
/// absolute delta back into the gradient.
fn decode_with_gradients(
    reader: &mut BitReader,
    g: &mut Gradients,
    grad_set: usize,
    which_grad: i32,
    weighted_average: u16,
) -> (r: Result<u16, CodecError>)
    requires
        old(reader).wf(),
        old(g).wf(),
        grad_set < 3,
        -40 <= which_grad <= 40,
        weighted_average < SAMPLE_LIMIT,
    ensures
        final(reader).wf(),
        final(reader).bits() == old(reader).bits(),
        final(g).wf(),
        r matches Ok(v) ==> v < SAMPLE_LIMIT,
        ({
            let ctx = grad_set * 41 + crate::process_common::iabs(which_grad as int);
            let gr = old(g)@[ctx];
            let d = crate::sample::bit_diff_spec(gr.0 as int, gr.1 as int);
            let rs = read_sample_spec(old(reader).bits(), old(reader).cursor(), d);
            &&& (r is Ok <==> rs is Ok)
            &&& (r is Err ==> r->Err_0 == rs->Err_0 && final(g)@ == old(g)@)
            &&& (rs matches Ok(smp) ==> r == Ok::<u16, CodecError>(
                reconstruct_spec(
                    weighted_average as int,
                    which_grad < 0,
                    sample_delta_spec(smp),
                ) as u16,
            ) && final(g)@ == old(g)@.update(
                ctx,
                crate::sample::grad_updated(
                    gr,
                    crate::process_common::iabs(sample_delta_spec(smp)),
                ),
            ) && final(reader).cursor() == old(reader).cursor() + read_sample_len(
                old(reader).bits(),
                old(reader).cursor(),
                d,
            ))
        }),
{
    let ctx: usize = if which_grad < 0 {
        (-which_grad) as usize
    } else {
        which_grad as usize
    };
    let grad_is_negative = which_grad < 0;
    let gr = g.at(grad_set, ctx);
    let dec_bits = gr.bit_diff();
    let sample = match read_sample(reader, dec_bits) {
        Ok(s) => s,
        Err(e) => {
            return Err(e);
        },
    };
    let delta = sample_to_delta(sample);
    let signed: i32 = if grad_is_negative {
        weighted_average as i32 - delta
    } else {
        weighted_average as i32 + delta
    };
    let av: i32 = if delta >= 0 {
        delta
    } else {
        -delta
    };
    let mut gr2 = gr;
    gr2.update_from_value(av);
    g.put(grad_set, ctx, gr2);
    // Reconstruction wraps at the 14-bit boundary; bias by a multiple of
    // the domain so the remainder is taken of a non-negative value.
    let biased: i32 = signed + 32 * 16384;
    proof {
        vstd::arithmetic::div_mod::lemma_mod_multiples_vanish(32, signed as int, 16384);
    }
    let value = ((biased as u32) % 16384u32) as u16;
    Ok(value)
}

/// Writes one decoded value into its line buffer slot.
fn store_slot(colors: &mut Colored<Vec<Vec<u16>>>, color: Color, row_idx: usize, idx: usize, value: u16)
    requires
        line_bufs_wf(old(colors), REQUIRED_CAPACITY as int),
        row_idx < color_rows(color),
        idx < REQUIRED_CAPACITY,
    ensures
        line_bufs_wf(final(colors), REQUIRED_CAPACITY as int),
        final(colors).sel(color)@[row_idx as int]@ == old(colors).sel(color)@[row_idx as int]@
            .update(idx as int, value),
        forall|c: Color, rw: int|
            !(c == color && rw == row_idx) && 0 <= rw < color_rows(c)
                ==> #[trigger] final(colors).sel(c)@[rw]@ == old(colors).sel(c)@[rw]@,
{
    match color {
        Color::Red => {
            let mut row = copy_row(&colors.red[row_idx]);
            row[idx] = value;
            colors.red[row_idx] = row;
        },
        Color::Green => {
            let mut row = copy_row(&colors.green[row_idx]);
            row[idx] = value;
            colors.green[row_idx] = row;
        },
        Color::Blue => {
            let mut row = copy_row(&colors.blue[row_idx]);
            row[idx] = value;
            colors.blue[row_idx] = row;
        },
    }
}

/// The slot the schedule visits at entry `pi`, step `k`, sub-step `sub`:
/// the two colour rows' even slots in lock-step and, four steps behind,
/// their odd slots, interleaved in this fixed order.
pub open spec fn schedule_item(pi: int, k: int, sub: int) -> Option<((Color, int), int)> {
    let e = crate::process_common::schedule_spec(pi);
    let who = if sub == 0 || sub == 2 {
        e.0
    } else {
        e.1
    };
    if sub < 2 {
        if 0 <= k < 256 {
            Some((who, 2 * k))
        } else {
            None
        }
    } else {
        if 4 <= k < 260 {
            Some((who, 2 * (k - 4) + 1))
        } else {
            None
        }
    }
}

/// The line decode folded `t` schedule sub-steps in: each sub-step is one
/// `decode_slot_spec` application, and the first failure sticks.
pub open spec fn line_fold(
    bits: Seq<bool>,
    cv: CarryViews,
    st0: LineState,
    t: int,
) -> Result<LineState, CodecError>
    decreases t,
{
    if t <= 0 {
        Ok(st0)
    } else {
        let prev = line_fold(bits, cv, st0, t - 1);
        if prev is Err {
            prev
        } else {
            let u = t - 1;
            let pi = u / 1040;
            let k = (u / 4) % 260;
            let sub = u % 4;
            match schedule_item(pi, k, sub) {
                None => prev,
                Some(it) => decode_slot_spec(
                    bits,
                    cv,
                    prev->Ok_0,
                    it.0.0,
                    it.0.1,
                    it.1,
                    crate::process_common::schedule_spec(pi).2,
                ),
            }
        }
    }
}

/// How many schedule sub-steps one line holds.
pub open spec fn line_steps() -> int {
    6int * 260 * 4
}

/// The state a line decode starts from: sentinel buffers, the carried-in
/// gradients and cursor.
pub open spec fn initial_line_state(even: Seq<crate::sample::Grad>, odd: Seq<crate::sample::Grad>, cursor: nat) -> LineState {
    LineState {
        red: Seq::new(3, |i: int| Seq::new(REQUIRED_CAPACITY as nat, |j: int| UNSET)),
        green: Seq::new(6, |i: int| Seq::new(REQUIRED_CAPACITY as nat, |j: int| UNSET)),
        blue: Seq::new(3, |i: int| Seq::new(REQUIRED_CAPACITY as nat, |j: int| UNSET)),
        even: even,
        odd: odd,
        cursor: cursor,
    }
}

/// Every buffer slot of the state holds a legitimate sample.
pub open spec fn state_bufs_samples(st: LineState) -> bool {
    &&& (forall|i: int| 0 <= i < st.red.len() ==> all_samples(#[trigger] st.red[i]))
    &&& (forall|i: int| 0 <= i < st.green.len() ==> all_samples(#[trigger] st.green[i]))
    &&& (forall|i: int| 0 <= i < st.blue.len() ==> all_samples(#[trigger] st.blue[i]))
}

/// A failed fold stays failed.
proof fn lemma_fold_err_sticky(bits: Seq<bool>, cv: CarryViews, st0: LineState, t1: int, t2: int)
    requires
        0 <= t1 <= t2,
        line_fold(bits, cv, st0, t1) is Err,
    ensures
        line_fold(bits, cv, st0, t2) is Err,
    decreases t2 - t1,
{
    if t1 < t2 {
        lemma_fold_err_sticky(bits, cv, st0, t1, t2 - 1);
    }
}

/// Decomposes a flat schedule position into its entry, step and sub-step.
pub proof fn lemma_step_index(pi: int, k: int, sub: int)
    requires
        0 <= pi < 6,
        0 <= k < 260,
        0 <= sub < 4,
    ensures
        ({
            let u = pi * 1040 + 4 * k + sub;
            &&& u / 1040 == pi
            &&& (u / 4) % 260 == k
            &&& u % 4 == sub
            &&& 0 <= u < 6240
        }),
{
    let u = pi * 1040 + 4 * k + sub;
    assert(u == 1040 * pi + (4 * k + sub));
    vstd::arithmetic::div_mod::lemma_div_multiples_vanish_fancy(pi, 4 * k + sub, 1040);
    assert(u == 4 * (260 * pi + k) + sub);
    vstd::arithmetic::div_mod::lemma_div_multiples_vanish_fancy(260 * pi + k, sub, 4);
    vstd::arithmetic::div_mod::lemma_mod_multiples_vanish(pi, k, 260);
    vstd::arithmetic::div_mod::lemma_small_mod(k as nat, 260);
    vstd::arithmetic::div_mod::lemma_mod_multiples_vanish(260 * pi + k, sub, 4);
    vstd::arithmetic::div_mod::lemma_small_mod(sub as nat, 4);
}

/// Runs the four sub-steps of one schedule step: the even slots of both
/// colour rows, then, four steps behind, their odd slots.
#[verifier::rlimit(100)]
#[verifier::spinoff_prover]
fn line_step4(
    reader: &mut BitReader,
    colors: &mut Colored<Vec<Vec<u16>>>,
    gradients: &mut (Gradients, Gradients),
    carry_results: &Colored<Vec<Vec<u16>>>,
    even_pair: Option<(((Color, usize), usize), ((Color, usize), usize))>,
    odd_pair: Option<(((Color, usize), usize), ((Color, usize), usize))>,
    grad_set: usize,
    Ghost(st0): Ghost<LineState>,
    Ghost(pi): Ghost<int>,
    Ghost(kk): Ghost<int>,
    Ghost(ca): Ghost<(Color, usize)>,
    Ghost(cb): Ghost<(Color, usize)>,
) -> (r: Result<(), CodecError>)
    requires
        old(reader).wf(),
        line_bufs_wf(old(colors), REQUIRED_CAPACITY as int),
        carry_wf(carry_results, REQUIRED_CAPACITY as int),
        old(gradients).0.wf(),
        old(gradients).1.wf(),
        grad_set < 3,
        0 <= pi < 6,
        0 <= kk < 260,
        ((ca.0, ca.1 as int), (cb.0, cb.1 as int), grad_set as int)
            == crate::process_common::schedule_spec(pi),
        ca.1 < color_rows(ca.0),
        cb.1 < color_rows(cb.0),
        even_pair == (if 0 <= kk < 256 {
            Some((((ca, (2 * kk) as usize)), ((cb, (2 * kk) as usize))))
        } else {
            None
        }),
        odd_pair == (if 4 <= kk < 260 {
            Some((((ca, (2 * (kk - 4) + 1) as usize)), ((cb, (2 * (kk - 4) + 1) as usize))))
        } else {
            None
        }),
        fold_matches(
            old(reader).bits(),
            carry_views(carry_results),
            st0,
            pi * 1040 + 4 * kk,
            old(colors),
            old(gradients).0@,
            old(gradients).1@,
            old(reader).cursor(),
        ),
    ensures
        final(reader).wf(),
        final(reader).bits() == old(reader).bits(),
        line_bufs_wf(final(colors), REQUIRED_CAPACITY as int),
        final(gradients).0.wf(),
        final(gradients).1.wf(),
        r is Ok ==> fold_matches(
            old(reader).bits(),
            carry_views(carry_results),
            st0,
            pi * 1040 + 4 * kk + 4,
            final(colors),
            final(gradients).0@,
            final(gradients).1@,
            final(reader).cursor(),
        ),
        r is Err ==> line_fold(old(reader).bits(), carry_views(carry_results), st0, line_steps())
            is Err,
{
    let (ca_even, cb_even) = flatten(even_pair);
    let (ca_odd, cb_odd) = flatten(odd_pair);
    proof {
        assert(item_matches(ca_even, schedule_item(pi, kk, 0)));
        assert(item_matches(cb_even, schedule_item(pi, kk, 1)));
        assert(item_matches(ca_odd, schedule_item(pi, kk, 2)));
        assert(item_matches(cb_odd, schedule_item(pi, kk, 3)));
    }
    match line_substep(
        reader,
        colors,
        gradients,
        carry_results,
        ca_even,
        grad_set,
        Ghost(st0),
        Ghost(pi),
        Ghost(kk),
        Ghost(0),
    ) {
        Ok(u) => u,
        Err(e) => {
            return Err(e);
        },
    };
    match line_substep(
        reader,
        colors,
        gradients,
        carry_results,
        cb_even,
        grad_set,
        Ghost(st0),
        Ghost(pi),
        Ghost(kk),
        Ghost(1),
    ) {
        Ok(u) => u,
        Err(e) => {
            return Err(e);
        },
    };
    match line_substep(
        reader,
        colors,
        gradients,
        carry_results,
        ca_odd,
        grad_set,
        Ghost(st0),
        Ghost(pi),
        Ghost(kk),
        Ghost(2),
    ) {
        Ok(u) => u,
        Err(e) => {
            return Err(e);
        },
    };
    match line_substep(
        reader,
        colors,
        gradients,
        carry_results,
        cb_odd,
        grad_set,
        Ghost(st0),
        Ghost(pi),
        Ghost(kk),
        Ghost(3),
    ) {
        Ok(u) => u,
        Err(e) => {
            return Err(e);
        },
    };
    Ok(())
}

/// Decodes one whole line into fresh per-colour buffers, walking the same
/// fixed schedule as the encoder: interpolated slots take the predictor,
/// coded slots are read from the stream.
#[verifier::rlimit(60)]
#[verifier::spinoff_prover]
pub fn inflate_line(
    reader: &mut BitReader,
    gradients: &mut (Gradients, Gradients),
    carry_results: &Colored<Vec<Vec<u16>>>,
) -> (r: Result<Colored<Vec<Vec<u16>>>, CodecError>)
    requires
        old(reader).wf(),
        carry_wf(carry_results, REQUIRED_CAPACITY as int),
        old(gradients).0.wf(),
        old(gradients).1.wf(),
    ensures
        final(reader).wf(),
        final(reader).bits() == old(reader).bits(),
        final(gradients).0.wf(),
        final(gradients).1.wf(),
        r matches Ok(res) ==> line_bufs_wf(&res, REQUIRED_CAPACITY as int) && line_bufs_samples(
            &res,
        ),
        ({
            let st0 = initial_line_state(
                old(gradients).0@,
                old(gradients).1@,
                old(reader).cursor(),
            );
            let fold = line_fold(
                old(reader).bits(),
                carry_views(carry_results),
                st0,
                line_steps(),
            );
            &&& (r is Ok <==> (fold matches Ok(st) && state_bufs_samples(st)))
            &&& (r matches Ok(res) ==> (fold matches Ok(st) && rows_views(res.red@) == st.red
                && rows_views(res.green@) == st.green && rows_views(res.blue@) == st.blue
                && final(gradients).0@ == st.even && final(gradients).1@ == st.odd
                && final(reader).cursor() == st.cursor))
        }),
{
    let mut colors = Colored::new(unset_line_rows(3), unset_line_rows(6), unset_line_rows(3));
    let ghost st0 = initial_line_state(old(gradients).0@, old(gradients).1@, old(reader).cursor());
    proof {
        assert forall|i: int| 0 <= i < 3 implies #[trigger] rows_views(colors.red@)[i]
            =~= st0.red[i] by {}
        assert(rows_views(colors.red@) =~~= st0.red);
        assert forall|i: int| 0 <= i < 6 implies #[trigger] rows_views(colors.green@)[i]
            =~= st0.green[i] by {}
        assert(rows_views(colors.green@) =~~= st0.green);
        assert forall|i: int| 0 <= i < 3 implies #[trigger] rows_views(colors.blue@)[i]
            =~= st0.blue[i] by {}
        assert(rows_views(colors.blue@) =~~= st0.blue);
        assert(line_fold(old(reader).bits(), carry_views(carry_results), st0, 0) == Ok::<
            LineState,
            CodecError,
        >(st0));
    }
    let mut pi: usize = 0;
    while pi < 6
        invariant
            pi <= 6,
            reader.wf(),
            reader.bits() == old(reader).bits(),
            carry_wf(carry_results, REQUIRED_CAPACITY as int),
            gradients.0.wf(),
            gradients.1.wf(),
            line_bufs_wf(&colors, REQUIRED_CAPACITY as int),
            st0 == initial_line_state(old(gradients).0@, old(gradients).1@, old(reader).cursor()),
            fold_matches(
                old(reader).bits(),
                carry_views(carry_results),
                st0,
                (pi * 1040) as int,
                &colors,
                gradients.0@,
                gradients.1@,
                reader.cursor(),
            ),
        decreases 6 - pi,
    {
        let (color_a, color_b, grad_set_idx) = process_entry(pi);
        let mut evens: Vec<(((Color, usize), usize), ((Color, usize), usize))> = Vec::new();
        let mut odds: Vec<(((Color, usize), usize), ((Color, usize), usize))> = Vec::new();
        let mut j: usize = 0;
        while j < REQUIRED_CAPACITY / 2
            invariant
                j <= REQUIRED_CAPACITY / 2,
                evens@.len() == j,
                odds@.len() == j,
                forall|k: int|
                    0 <= k < j ==> (#[trigger] evens@[k]) == (
                        (color_a, (2 * k) as usize),
                        (color_b, (2 * k) as usize),
                    ),
                forall|k: int|
                    0 <= k < j ==> (#[trigger] odds@[k]) == (
                        (color_a, (2 * k + 1) as usize),
                        (color_b, (2 * k + 1) as usize),
                    ),
            decreases REQUIRED_CAPACITY / 2 - j,
        {
            evens.push(((color_a, 2 * j), (color_b, 2 * j)));
            odds.push(((color_a, 2 * j + 1), (color_b, 2 * j + 1)));
            j = j + 1;
        }
        let zipped = zip_with_offset(&evens, 0, &odds, 4);
        let mut k: usize = 0;
        while k < zipped.len()
            invariant
                k <= zipped@.len(),
                zipped@.len() == 260,
                reader.wf(),
                reader.bits() == old(reader).bits(),
                carry_wf(carry_results, REQUIRED_CAPACITY as int),
                gradients.0.wf(),
                gradients.1.wf(),
                line_bufs_wf(&colors, REQUIRED_CAPACITY as int),
                pi < 6,
                color_a.1 < color_rows(color_a.0),
                color_b.1 < color_rows(color_b.0),
                grad_set_idx < 3,
                ((color_a.0, color_a.1 as int), (color_b.0, color_b.1 as int), grad_set_idx as int)
                    == crate::process_common::schedule_spec(pi as int),
                evens@.len() == REQUIRED_CAPACITY / 2,
                odds@.len() == REQUIRED_CAPACITY / 2,
                forall|q: int|
                    0 <= q < evens@.len() ==> (#[trigger] evens@[q]) == (
                        (color_a, (2 * q) as usize),
                        (color_b, (2 * q) as usize),
                    ),
                forall|q: int|
                    0 <= q < odds@.len() ==> (#[trigger] odds@[q]) == (
                        (color_a, (2 * q + 1) as usize),
                        (color_b, (2 * q + 1) as usize),
                    ),
                forall|q: int|
                    0 <= q < zipped@.len() ==> (#[trigger] zipped@[q]) == (
                        crate::zip_with_offset::delayed_at(evens@, 0, q),
                        crate::zip_with_offset::delayed_at(odds@, 4, q),
                    ),
                st0 == initial_line_state(
                    old(gradients).0@,
                    old(gradients).1@,
                    old(reader).cursor(),
                ),
                fold_matches(
                    old(reader).bits(),
                    carry_views(carry_results),
                    st0,
                    (pi * 1040 + 4 * k) as int,
                    &colors,
                    gradients.0@,
                    gradients.1@,
                    reader.cursor(),
                ),
            decreases zipped@.len() - k,
        {
            let (even_pair, odd_pair) = zipped[k];
            proof {
                assert(even_pair == (if 0 <= k < 256 {
                    Some((((color_a, (2 * (k as int)) as usize)), ((color_b, (2 * (k as int)) as usize))))
                } else {
                    None
                }));
                assert(odd_pair == (if 4 <= k < 260 {
                    Some((((color_a, (2 * (k as int - 4) + 1) as usize)), ((color_b, (2 * (k as int
                        - 4) + 1) as usize))))
                } else {
                    None
                }));
            }
            match line_step4(
                reader,
                &mut colors,
                gradients,
                carry_results,
                even_pair,
                odd_pair,
                grad_set_idx,
                Ghost(st0),
                Ghost(pi as int),
                Ghost(k as int),
                Ghost(color_a),
                Ghost(color_b),
            ) {
                Ok(u) => u,
                Err(e) => {
                    return Err(e);
                },
            };
            k = k + 1;
        }
        pi = pi + 1;
    }
    // Every slot of every buffer was visited by the schedule; check the
    // decoded line holds nothing but legitimate samples.
    proof {
        assert(fold_matches(
            old(reader).bits(),
            carry_views(carry_results),
            st0,
            line_steps(),
            &colors,
            gradients.0@,
            gradients.1@,
            reader.cursor(),
        ));
    }
    let red_ok = check_samples_rows(&colors.red);
    let green_ok = check_samples_rows(&colors.green);
    let blue_ok = check_samples_rows(&colors.blue);
    if !red_ok || !green_ok || !blue_ok {
        proof {
            let st = line_fold(old(reader).bits(), carry_views(carry_results), st0, line_steps())->Ok_0;
            assert(st.red == rows_views(colors.red@) && st.green == rows_views(colors.green@)
                && st.blue == rows_views(colors.blue@));
            if !red_ok {
                let i = choose|i: int|
                    0 <= i < colors.red@.len() && !all_samples(#[trigger] colors.red@[i]@);
                assert(st.red[i] == colors.red@[i]@);
                assert(!state_bufs_samples(st));
            } else if !green_ok {
                let i = choose|i: int|
                    0 <= i < colors.green@.len() && !all_samples(#[trigger] colors.green@[i]@);
                assert(st.green[i] == colors.green@[i]@);
                assert(!state_bufs_samples(st));
            } else {
                let i = choose|i: int|
                    0 <= i < colors.blue@.len() && !all_samples(#[trigger] colors.blue@[i]@);
                assert(st.blue[i] == colors.blue@[i]@);
                assert(!state_bufs_samples(st));
            }
        }
        return Err(CodecError::InvariantViolation);
    }
    proof {
        let st = line_fold(old(reader).bits(), carry_views(carry_results), st0, line_steps())->Ok_0;
        assert(st.red == rows_views(colors.red@) && st.green == rows_views(colors.green@)
            && st.blue == rows_views(colors.blue@));
        assert forall|i: int| 0 <= i < st.red.len() implies all_samples(#[trigger] st.red[i]) by {
            assert(st.red[i] == colors.red@[i]@);
        }
        assert forall|i: int| 0 <= i < st.green.len() implies all_samples(
            #[trigger] st.green[i],
        ) by {
            assert(st.green[i] == colors.green@[i]@);
        }
        assert forall|i: int| 0 <= i < st.blue.len() implies all_samples(#[trigger] st.blue[i]) by {
            assert(st.blue[i] == colors.blue@[i]@);
        }
        assert(state_bufs_samples(st));
    }
    Ok(colors)
}

/// The whole decoding state of one line: the three per-colour buffer
/// stacks, the two gradient tables by parity, and the bit cursor.
pub struct LineState {
    pub red: Seq<Seq<u16>>,
    pub green: Seq<Seq<u16>>,
    pub blue: Seq<Seq<u16>>,
    pub even: Seq<crate::sample::Grad>,
    pub odd: Seq<crate::sample::Grad>,
    pub cursor: nat,
}

/// The carry record as plain sequences, one two-row stack per colour.
pub struct CarryViews {
    pub red: Seq<Seq<u16>>,
    pub green: Seq<Seq<u16>>,
    pub blue: Seq<Seq<u16>>,
}

/// The carry record an exec carry holds.
pub open spec fn carry_views(c: &Colored<Vec<Vec<u16>>>) -> CarryViews {
    CarryViews { red: rows_views(c.red@), green: rows_views(c.green@), blue: rows_views(c.blue@) }
}

/// One colour's stack of the carry record.
pub open spec fn cv_sel(cv: CarryViews, c: Color) -> Seq<Seq<u16>> {
    match c {
        Color::Red => cv.red,
        Color::Green => cv.green,
        Color::Blue => cv.blue,
    }
}

/// The buffers of one colour in the state.
pub open spec fn state_sel(st: LineState, c: Color) -> Seq<Seq<u16>> {
    match c {
        Color::Red => st.red,
        Color::Green => st.green,
        Color::Blue => st.blue,
    }
}

/// The state with one slot of one colour's buffers replaced.
pub open spec fn state_store(st: LineState, c: Color, row: int, idx: int, v: u16) -> LineState {
    match c {
        Color::Red => LineState { red: st.red.update(row, st.red[row].update(idx, v)), ..st },
        Color::Green => LineState {
            green: st.green.update(row, st.green[row].update(idx, v)),
            ..st
        },
        Color::Blue => LineState { blue: st.blue.update(row, st.blue[row].update(idx, v)), ..st },
    }
}

/// One step of the line decode: what decoding slot `(color, row, idx)`
/// against gradient set `gset` does to the state, or how it fails.  An
/// interpolated slot takes the even predictor and touches nothing else; a
/// coded slot reads one sample at the cursor under the selected gradient's
/// code length, stores the reconstruction, and updates that gradient.
pub open spec fn decode_slot_spec(
    bits: Seq<bool>,
    cv: CarryViews,
    st: LineState,
    color: Color,
    row: int,
    idx: int,
    gset: int,
) -> Result<LineState, CodecError> {
    let cdata = state_sel(st, color);
    let carry = cv_sel(cv, color);
    let pr = crate::compress::prev_rows_spec(cdata, carry, row);
    if crate::process_common::interpolated_spec(color, row, idx) {
        if all_samples(pr.0) && all_samples(pr.1) {
            Ok(
                state_store(
                    st,
                    color,
                    row,
                    idx,
                    crate::process_common::wavg_even_spec(
                        crate::process_common::even_coefficients_of(pr.1, pr.0, idx),
                    ) as u16,
                ),
            )
        } else {
            Err(CodecError::InvariantViolation)
        }
    } else {
        let wg = crate::compress::slot_wa_grad(cdata, carry, row, idx);
        let gsel = if idx % 2 == 0 {
            st.even
        } else {
            st.odd
        };
        let ctx = gset * 41 + crate::process_common::iabs(wg.1);
        let gr = gsel[ctx];
        let d = crate::sample::bit_diff_spec(gr.0 as int, gr.1 as int);
        let rs = read_sample_spec(bits, st.cursor, d);
        let slots_ok = all_samples(pr.0) && all_samples(pr.1) && (idx % 2 == 1 ==> cdata[row][idx
            - 1] < SAMPLE_LIMIT && (idx + 1 < REQUIRED_CAPACITY ==> cdata[row][idx + 1]
            < SAMPLE_LIMIT));
        if !slots_ok {
            Err(CodecError::InvariantViolation)
        } else if rs is Err {
            Err(rs->Err_0)
        } else {
            let delta = sample_delta_spec(rs->Ok_0);
            let st2 = state_store(
                st,
                color,
                row,
                idx,
                reconstruct_spec(wg.0, wg.1 < 0, delta) as u16,
            );
            let g2 = gsel.update(
                ctx,
                crate::sample::grad_updated(gr, crate::process_common::iabs(delta)),
            );
            Ok(
                LineState {
                    red: st2.red,
                    green: st2.green,
                    blue: st2.blue,
                    even: if idx % 2 == 0 {
                        g2
                    } else {
                        st.even
                    },
                    odd: if idx % 2 == 1 {
                        g2
                    } else {
                        st.odd
                    },
                    cursor: (st.cursor + read_sample_len(bits, st.cursor, d)) as nat,
                },
            )
        }
    }
}

/// The line-decode state an exec triple (buffers, gradients, cursor) holds.
pub open spec fn state_of(
    colors: &Colored<Vec<Vec<u16>>>,
    gradients: &(Gradients, Gradients),
    cursor: nat,
) -> LineState {
    LineState {
        red: rows_views(colors.red@),
        green: rows_views(colors.green@),
        blue: rows_views(colors.blue@),
        even: gradients.0@,
        odd: gradients.1@,
        cursor: cursor,
    }
}

/// Decodes one schedule step into its slot, skipping absent steps.
fn decode_slot(
    reader: &mut BitReader,
    colors: &mut Colored<Vec<Vec<u16>>>,
    gradients: &mut (Gradients, Gradients),
    carry_results: &Colored<Vec<Vec<u16>>>,
    item: Option<((Color, usize), usize)>,
    grad_set: usize,
) -> (r: Result<(), CodecError>)
    requires
        old(reader).wf(),
        line_bufs_wf(old(colors), REQUIRED_CAPACITY as int),
        carry_wf(carry_results, REQUIRED_CAPACITY as int),
        old(gradients).0.wf(),
        old(gradients).1.wf(),
        grad_set < 3,
        item matches Some(it) ==> it.1 < REQUIRED_CAPACITY && it.0.1 < color_rows(it.0.0),
    ensures
        final(reader).wf(),
        final(reader).bits() == old(reader).bits(),
        line_bufs_wf(final(colors), REQUIRED_CAPACITY as int),
        final(gradients).0.wf(),
        final(gradients).1.wf(),
        item is None ==> *final(colors) == *old(colors) && *final(gradients) == *old(gradients)
            && final(reader).cursor() == old(reader).cursor() && r is Ok,
        ({
            let pre = state_of(old(colors), old(gradients), old(reader).cursor());
            let step = match item {
                None => Ok::<LineState, CodecError>(pre),
                Some(it) => decode_slot_spec(
                    old(reader).bits(),
                    carry_views(carry_results),
                    pre,
                    it.0.0,
                    it.0.1 as int,
                    it.1 as int,
                    grad_set as int,
                ),
            };
            &&& (r is Ok <==> step is Ok)
            &&& (r is Ok ==> (step matches Ok(st) && state_of(
                final(colors),
                final(gradients),
                final(reader).cursor(),
            ) == st))
        }),
        ({
            match item {
                None => true,
                Some(it) => {
                    let color = it.0.0;
                    let rw = it.0.1 as int;
                    let ix = it.1 as int;
                    let cdata = rows_views(old(colors).sel(color)@);
                    let carry = rows_views(carry_results.sel(color)@);
                    let pr = crate::compress::prev_rows_spec(cdata, carry, rw);
                    if crate::process_common::interpolated_spec(color, rw, ix) {
                        &&& (r is Ok <==> all_samples(pr.0) && all_samples(pr.1))
                        &&& *final(gradients) == *old(gradients)
                        &&& final(reader).cursor() == old(reader).cursor()
                        &&& (r is Ok ==> final(colors).sel(color)@[rw]@ == cdata[rw].update(
                            ix,
                            crate::process_common::wavg_even_spec(
                                crate::process_common::even_coefficients_of(pr.1, pr.0, ix),
                            ) as u16,
                        ) && (forall|c: Color, r2: int|
                            !(c == color && r2 == rw) && 0 <= r2 < color_rows(c)
                                ==> #[trigger] final(colors).sel(c)@[r2]@ == old(colors).sel(
                                c,
                            )@[r2]@))
                        &&& (r is Err ==> *final(colors) == *old(colors))
                    } else {
                        let wg = crate::compress::slot_wa_grad(cdata, carry, rw, ix);
                        let gsel = if ix % 2 == 0 {
                            old(gradients).0
                        } else {
                            old(gradients).1
                        };
                        let gfin = if ix % 2 == 0 {
                            final(gradients).0
                        } else {
                            final(gradients).1
                        };
                        let ctx = grad_set * 41 + crate::process_common::iabs(wg.1);
                        let gr = gsel@[ctx];
                        let d = crate::sample::bit_diff_spec(gr.0 as int, gr.1 as int);
                        let rs = read_sample_spec(old(reader).bits(), old(reader).cursor(), d);
                        let slots_ok = all_samples(pr.0) && all_samples(pr.1) && (ix % 2 == 1
                            ==> cdata[rw][ix - 1] < SAMPLE_LIMIT && (ix + 1 < REQUIRED_CAPACITY
                            ==> cdata[rw][ix + 1] < SAMPLE_LIMIT));
                        &&& (r is Ok <==> slots_ok && rs is Ok)
                        &&& (r is Ok ==> {
                            &&& final(colors).sel(color)@[rw]@ == cdata[rw].update(
                                ix,
                                reconstruct_spec(wg.0, wg.1 < 0, sample_delta_spec(rs->Ok_0)) as u16,
                            )
                            &&& (forall|c: Color, r2: int|
                                !(c == color && r2 == rw) && 0 <= r2 < color_rows(c)
                                    ==> #[trigger] final(colors).sel(c)@[r2]@ == old(colors).sel(
                                    c,
                                )@[r2]@)
                            &&& gfin@ == gsel@.update(
                                ctx,
                                crate::sample::grad_updated(
                                    gr,
                                    crate::process_common::iabs(sample_delta_spec(rs->Ok_0)),
                                ),
                            )
                            &&& (ix % 2 == 0 ==> final(gradients).1 == old(gradients).1)
                            &&& (ix % 2 == 1 ==> final(gradients).0 == old(gradients).0)
                            &&& final(reader).cursor() == old(reader).cursor() + read_sample_len(
                                old(reader).bits(),
                                old(reader).cursor(),
                                d,
                            )
                        })
                        &&& (r is Err ==> *final(colors) == *old(colors))
                    }
                },
            }
        }),
{
    if let Some(((color, row), idx)) = item {
        let value = if is_interpolated(color, row, idx) {
            match interpolate_value(colors, carry_results, row, color, idx) {
                Ok(v) => v,
                Err(e) => {
                    return Err(e);
                },
            }
        } else {
            match compute_value_and_update_gradients(
                reader,
                colors,
                gradients,
                carry_results,
                row,
                color,
                idx,
                grad_set,
            ) {
                Ok(v) => v,
                Err(e) => {
                    return Err(e);
                },
            }
        };
        store_slot(colors, color, row, idx, value);
        proof {
            let pre = state_of(old(colors), old(gradients), old(reader).cursor());
            let step = decode_slot_spec(
                old(reader).bits(),
                carry_views(carry_results),
                pre,
                color,
                row as int,
                idx as int,
                grad_set as int,
            );
            assert(step is Ok);
            let st = step->Ok_0;
            assert(state_sel(st, color)[row as int] == state_sel(pre, color)[row as int].update(
                idx as int,
                value,
            ));
            assert forall|r2: int| 0 <= r2 < colors.red@.len() implies #[trigger] rows_views(
                colors.red@,
            )[r2] == st.red[r2] by {
                if color == Color::Red && r2 == row {
                    assert(colors.sel(Color::Red)@[r2]@ == rows_views(
                        old(colors).sel(Color::Red)@,
                    )[r2].update(idx as int, value));
                } else {
                    assert(colors.sel(Color::Red)@[r2]@ == old(colors).sel(Color::Red)@[r2]@);
                }
            }
            assert(rows_views(colors.red@) =~~= st.red);
            assert forall|r2: int| 0 <= r2 < colors.green@.len() implies #[trigger] rows_views(
                colors.green@,
            )[r2] == st.green[r2] by {
                if color == Color::Green && r2 == row {
                    assert(colors.sel(Color::Green)@[r2]@ == rows_views(
                        old(colors).sel(Color::Green)@,
                    )[r2].update(idx as int, value));
                } else {
                    assert(colors.sel(Color::Green)@[r2]@ == old(colors).sel(Color::Green)@[r2]@);
                }
            }
            assert(rows_views(colors.green@) =~~= st.green);
            assert forall|r2: int| 0 <= r2 < colors.blue@.len() implies #[trigger] rows_views(
                colors.blue@,
            )[r2] == st.blue[r2] by {
                if color == Color::Blue && r2 == row {
                    assert(colors.sel(Color::Blue)@[r2]@ == rows_views(
                        old(colors).sel(Color::Blue)@,
                    )[r2].update(idx as int, value));
                } else {
                    assert(colors.sel(Color::Blue)@[r2]@ == old(colors).sel(Color::Blue)@[r2]@);
                }
            }
            assert(rows_views(colors.blue@) =~~= st.blue);
            assert(state_of(colors, gradients, reader.cursor()) == st);
        }
    }
    Ok(())
}

/// Rows of sentinel slots for a line about to be decoded.
fn unset_line_rows(nrows: usize) -> (r: Vec<Vec<u16>>)
    ensures
        rows_wf(r@, nrows as int, REQUIRED_CAPACITY as int),
        forall|i: int, j: int|
            0 <= i < nrows && 0 <= j < REQUIRED_CAPACITY ==> #[trigger] r@[i]@[j] == UNSET,
{
    let mut out: Vec<Vec<u16>> = Vec::new();
    let mut i: usize = 0;
    while i < nrows
        invariant
            i <= nrows,
            rows_wf(out@, i as int, REQUIRED_CAPACITY as int),
            forall|i2: int, j: int|
                0 <= i2 < out@.len() && 0 <= j < REQUIRED_CAPACITY ==> #[trigger] out@[i2]@[j]
                    == UNSET,
        decreases nrows - i,
    {
        let row: Vec<u16> = vec![UNSET; REQUIRED_CAPACITY];
        out.push(row);
        i = i + 1;
    }
    out
}

/// Whether an exec schedule item is the given spec schedule slot.
pub open spec fn item_matches(
    item: Option<((Color, usize), usize)>,
    spec_item: Option<((Color, int), int)>,
) -> bool {
    match (item, spec_item) {
        (None, None) => true,
        (Some(a), Some(b)) => a.0.0 == b.0.0 && a.0.1 == b.0.1 && a.1 == b.1,
        _ => false,
    }
}

/// Whether the line fold at step `t` lands exactly on the given exec state.
pub open spec fn fold_matches(
    bits: Seq<bool>,
    cv: CarryViews,
    st0: LineState,
    t: int,
    colors: &Colored<Vec<Vec<u16>>>,
    even: Seq<crate::sample::Grad>,
    odd: Seq<crate::sample::Grad>,
    cursor: nat,
) -> bool {
    line_fold(bits, cv, st0, t) == Ok::<LineState, CodecError>(
        LineState {
            red: rows_views(colors.red@),
            green: rows_views(colors.green@),
            blue: rows_views(colors.blue@),
            even: even,
            odd: odd,
            cursor: cursor,
        },
    )
}

/// Runs one schedule sub-step of the line decode and advances the fold.
fn line_substep(
    reader: &mut BitReader,
    colors: &mut Colored<Vec<Vec<u16>>>,
    gradients: &mut (Gradients, Gradients),
    carry_results: &Colored<Vec<Vec<u16>>>,
    item: Option<((Color, usize), usize)>,
    grad_set: usize,
    Ghost(st0): Ghost<LineState>,
    Ghost(pi): Ghost<int>,
    Ghost(kk): Ghost<int>,
    Ghost(sub): Ghost<int>,
) -> (r: Result<(), CodecError>)
    requires
        old(reader).wf(),
        line_bufs_wf(old(colors), REQUIRED_CAPACITY as int),
        carry_wf(carry_results, REQUIRED_CAPACITY as int),
        old(gradients).0.wf(),
        old(gradients).1.wf(),
        grad_set < 3,
        item matches Some(it) ==> it.1 < REQUIRED_CAPACITY && it.0.1 < color_rows(it.0.0),
        0 <= pi < 6,
        0 <= kk < 260,
        0 <= sub < 4,
        item_matches(item, schedule_item(pi, kk, sub)),
        grad_set as int == crate::process_common::schedule_spec(pi).2,
        fold_matches(
            old(reader).bits(),
            carry_views(carry_results),
            st0,
            pi * 1040 + 4 * kk + sub,
            old(colors),
            old(gradients).0@,
            old(gradients).1@,
            old(reader).cursor(),
        ),
    ensures
        final(reader).wf(),
        final(reader).bits() == old(reader).bits(),
        line_bufs_wf(final(colors), REQUIRED_CAPACITY as int),
        final(gradients).0.wf(),
        final(gradients).1.wf(),
        r is Ok ==> fold_matches(
            old(reader).bits(),
            carry_views(carry_results),
            st0,
            pi * 1040 + 4 * kk + sub + 1,
            final(colors),
            final(gradients).0@,
            final(gradients).1@,
            final(reader).cursor(),
        ),
        r is Err ==> line_fold(old(reader).bits(), carry_views(carry_results), st0, line_steps())
            is Err,
{
    let ghost t = pi * 1040 + 4 * kk + sub;
    proof {
        lemma_step_index(pi, kk, sub);
    }
    let r = decode_slot(reader, colors, gradients, carry_results, item, grad_set);
    proof {
        let bits = old(reader).bits();
        let cv = carry_views(carry_results);
        let cur = line_fold(bits, cv, st0, t)->Ok_0;
        let pre = state_of(old(colors), old(gradients), old(reader).cursor());
        assert(pre == cur);
        let step = match item {
            None => Ok::<LineState, CodecError>(pre),
            Some(it) => decode_slot_spec(
                bits,
                cv,
                pre,
                it.0.0,
                it.0.1 as int,
                it.1 as int,
                grad_set as int,
            ),
        };
        assert(line_fold(bits, cv, st0, t + 1) == step);
        if r is Ok {
            assert(state_of(colors, gradients, reader.cursor()) == step->Ok_0);
            assert(fold_matches(
                bits,
                cv,
                st0,
                t + 1,
                colors,
                gradients.0@,
                gradients.1@,
                reader.cursor(),
            ));
        } else {
            lemma_fold_err_sticky(bits, cv, st0, t + 1, line_steps());
        }
    }
    match r {
        Ok(u) => Ok(()),
        Err(e) => Err(e),
    }
}

/// Every row of the stack holds legitimate samples only.
fn check_samples_rows(v: &Vec<Vec<u16>>) -> (r: bool)
    ensures
        r == rows_samples(v@),
{
    let mut i: usize = 0;
    while i < v.len()
        invariant
            i <= v@.len(),
            forall|j: int| 0 <= j < i ==> all_samples(#[trigger] v@[j]@),
        decreases v@.len() - i,
    {
        if !check_samples(&v[i]) {
            return false;
        }
        i = i + 1;
    }
    true
}

/// Reconstructs one native sensor row from the three flat buffers through
/// the same squashed-index arithmetic the forward remapper uses.
pub fn map_contiguous_colors_to_xtrans(
    output_row: &mut Vec<u16>,
    red_row: &Vec<u16>,
    green_row: &Vec<u16>,
    blue_row: &Vec<u16>,
    row_color_map: &DataGrid<Color>,
)
    requires
        old(output_row)@.len() <= STRIPE_WIDTH,
        red_row@.len() == REQUIRED_CAPACITY,
        green_row@.len() == REQUIRED_CAPACITY,
        blue_row@.len() == REQUIRED_CAPACITY,
        row_color_map.wf(),
        row_color_map.spec_size().0 == 6,
        row_color_map.spec_size().1 == 1,
    ensures
        final(output_row)@.len() == old(output_row)@.len(),
        ({
            let colors = Seq::new(6, |i: int| row_color_map.cell(0, i));
            unremap_read(colors, red_row@, green_row@, blue_row@, final(output_row)@)
        }),
        all_samples(red_row@) && all_samples(green_row@) && all_samples(blue_row@) ==> all_samples(
            final(output_row)@,
        ),
{
    let ghost colors = Seq::new(6, |i: int| row_color_map.cell(0, i));
    let n = output_row.len();
    let mut pos: usize = 0;
    while pos < n
        invariant
            pos <= n,
            n <= STRIPE_WIDTH,
            output_row@.len() == n,
            red_row@.len() == REQUIRED_CAPACITY,
            green_row@.len() == REQUIRED_CAPACITY,
            blue_row@.len() == REQUIRED_CAPACITY,
            row_color_map.wf(),
            row_color_map.spec_size().0 == 6,
            row_color_map.spec_size().1 == 1,
            colors == Seq::new(6, |i: int| row_color_map.cell(0, i)),
            forall|p: int|
                0 <= p < pos ==> #[trigger] output_row@[p] == sel3(
                    red_row@,
                    green_row@,
                    blue_row@,
                    row_color(colors, p),
                )[sq(p)],
            all_samples(red_row@) && all_samples(green_row@) && all_samples(blue_row@) ==> (
            forall|p: int| 0 <= p < pos ==> #[trigger] output_row@[p] < SAMPLE_LIMIT),
        decreases n - pos,
    {
        let squashed_idx = squashed_index(pos);
        proof {
            crate::process_common::lemma_sq_mono(pos as int, 767);
            assert(sq(767) == 511);
        }
        let color = row_color_map.at(Position(pos, 0));
        let value = match color {
            Color::Red => red_row[squashed_idx],
            Color::Green => green_row[squashed_idx],
            Color::Blue => blue_row[squashed_idx],
        };
        output_row[pos] = value;
        proof {
            assert(colors[pos as int % 6] == color);
        }
        pos = pos + 1;
    }
}

/// Scatters one decoded line back into six native rows of the stripe
/// image, each row through the inverse remapper.
/// The native value of column `x` in sensor row `r` of a decoded line:
/// the owning colour's flat buffer slot at the squashed index.  Red and
/// blue stack two sensor rows a buffer row; green has one each.
pub open spec fn line_native_spec(
    cm: &DataGrid<Color>,
    results: &Colored<Vec<Vec<u16>>>,
    r: int,
    x: int,
) -> u16 {
    sel3(
        results.red@[r / 2]@,
        results.green@[r]@,
        results.blue@[r / 2]@,
        cm.cell(r, x % 6),
    )[sq(x)]
}

pub fn copy_line_to_xtrans(
    color_map: &DataGrid<Color>,
    out: &mut Vec<u16>,
    out_width: usize,
    line_no: usize,
    results: &Colored<Vec<Vec<u16>>>,
)
    requires
        color_map.wf(),
        color_map.spec_size().0 == 6,
        color_map.spec_size().1 == 6,
        line_bufs_wf(results, REQUIRED_CAPACITY as int),
        line_bufs_samples(results),
        out_width >= 1,
        out_width <= STRIPE_WIDTH,
        (line_no + 1) * 6 * out_width <= old(out)@.len(),
    ensures
        final(out)@.len() == old(out)@.len(),
        forall|j: int|
            0 <= j < old(out)@.len() ==> #[trigger] final(out)@[j] < SAMPLE_LIMIT
                || final(out)@[j] == old(out)@[j],
        forall|r: int, x: int|
            0 <= r < 6 && 0 <= x < out_width
                ==> #[trigger] final(out)@[(line_no * 6 + r) * out_width + x] == line_native_spec(
                color_map,
                results,
                r,
                x,
            ),
        forall|j: int|
            0 <= j < old(out)@.len() && !(line_no * 6 * out_width <= j < (line_no + 1) * 6
                * out_width) ==> #[trigger] final(out)@[j] == old(out)@[j],
{
    proof {
        assert(line_no * 6 * out_width == (line_no * 6) * out_width) by (nonlinear_arith);
        assert((line_no + 1) * 6 * out_width == (line_no * 6 + 6) * out_width) by (nonlinear_arith);
    }
    let mut row_idx: usize = 0;
    while row_idx < 6
        invariant
            row_idx <= 6,
            color_map.wf(),
            color_map.spec_size().0 == 6,
            color_map.spec_size().1 == 6,
            line_bufs_wf(results, REQUIRED_CAPACITY as int),
            out_width >= 1,
            out_width <= STRIPE_WIDTH,
            (line_no + 1) * 6 * out_width <= out@.len(),
            (line_no + 1) * 6 * out_width == (line_no * 6 + 6) * out_width,
            line_no * 6 * out_width == (line_no * 6) * out_width,
            out@.len() == old(out)@.len(),
            line_bufs_samples(results),
            forall|j: int|
                0 <= j < out@.len() ==> #[trigger] out@[j] < SAMPLE_LIMIT || out@[j] == old(
                    out,
                )@[j],
            forall|r: int, x: int|
                0 <= r < row_idx && 0 <= x < out_width
                    ==> #[trigger] out@[(line_no * 6 + r) * out_width + x] == line_native_spec(
                    color_map,
                    results,
                    r,
                    x,
                ),
            forall|j: int|
                0 <= j < out@.len() && !((line_no * 6) * out_width <= j < (line_no * 6 + row_idx)
                    * out_width) ==> #[trigger] out@[j] == old(out)@[j],
        decreases 6 - row_idx,
    {
        let mut native: Vec<u16> = vec![0u16; out_width];
        let row_map = color_map.subgrid(Position(0, row_idx), Size(6, 1));
        let (r_bufs, g_bufs, b_bufs) = results.split();
        map_contiguous_colors_to_xtrans(
            &mut native,
            &r_bufs[row_idx / 2],
            &g_bufs[row_idx],
            &b_bufs[row_idx / 2],
            &row_map,
        );
        proof {
            let colors = Seq::new(6, |i: int| row_map.cell(0, i));
            assert forall|p: int| 0 <= p < out_width implies #[trigger] native@[p]
                == line_native_spec(color_map, results, row_idx as int, p) by {
                assert(colors[p % 6] == color_map.cell(row_idx as int, p % 6));
            }
        }
        let n_out = out.len();
        proof {
            assert((line_no * 6 + row_idx + 1) * out_width <= (line_no + 1) * 6 * out_width)
                by (nonlinear_arith)
                requires
                    row_idx < 6 && out_width >= 1 && line_no >= 0,
            ;
            assert((line_no * 6 + row_idx) * out_width + out_width == (line_no * 6 + row_idx + 1)
                * out_width) by (nonlinear_arith);
            assert(0 <= (line_no * 6 + row_idx) * out_width) by (nonlinear_arith)
                requires
                    line_no >= 0 && row_idx >= 0 && out_width >= 1,
            ;
            assert(6 * (line_no + 1) <= (line_no + 1) * 6 * out_width) by (nonlinear_arith)
                requires
                    out_width >= 1 && line_no >= 0,
            ;
            assert((line_no * 6) * out_width <= (line_no * 6 + row_idx) * out_width)
                by (nonlinear_arith)
                requires
                    row_idx >= 0 && out_width >= 1 && line_no >= 0,
            ;
        }
        let base = (line_no * 6 + row_idx) * out_width;
        let mut x: usize = 0;
        while x < out_width
            invariant
                x <= out_width,
                native@.len() == out_width,
                all_samples(native@),
                out_width >= 1,
                row_idx < 6,
                base == (line_no * 6 + row_idx) * out_width,
                base + out_width <= out@.len(),
                (line_no * 6) * out_width <= base,
                out@.len() == old(out)@.len(),
                n_out == out@.len(),
                forall|p: int|
                    0 <= p < out_width ==> #[trigger] native@[p] == line_native_spec(
                        color_map,
                        results,
                        row_idx as int,
                        p,
                    ),
                forall|j: int|
                    0 <= j < out@.len() ==> #[trigger] out@[j] < SAMPLE_LIMIT || out@[j] == old(
                        out,
                    )@[j],
                forall|r: int, xx: int|
                    0 <= r < row_idx && 0 <= xx < out_width
                        ==> #[trigger] out@[(line_no * 6 + r) * out_width + xx]
                        == line_native_spec(color_map, results, r, xx),
                forall|xx: int|
                    0 <= xx < x ==> #[trigger] out@[base + xx] == line_native_spec(
                        color_map,
                        results,
                        row_idx as int,
                        xx,
                    ),
                forall|j: int|
                    0 <= j < out@.len() && !((line_no * 6) * out_width <= j < base + x)
                        ==> #[trigger] out@[j] == old(out)@[j],
            decreases out_width - x,
        {
            out[base + x] = native[x];
            proof {
                assert forall|r: int, xx: int|
                    0 <= r < row_idx && 0 <= xx < out_width implies #[trigger] out@[(line_no * 6
                    + r) * out_width + xx] == line_native_spec(color_map, results, r, xx) by {
                    assert((line_no * 6 + r) * out_width + out_width <= (line_no * 6 + row_idx)
                        * out_width) by (nonlinear_arith)
                        requires
                            0 <= r && r + 1 <= row_idx && out_width >= 1 && line_no >= 0,
                    ;
                }
            }
            x = x + 1;
        }
        proof {
            assert forall|r: int, xx: int|
                0 <= r < row_idx + 1 && 0 <= xx < out_width implies #[trigger] out@[(line_no * 6
                + r) * out_width + xx] == line_native_spec(color_map, results, r, xx) by {
                if r == row_idx {
                    assert(out@[base + xx] == line_native_spec(
                        color_map,
                        results,
                        row_idx as int,
                        xx,
                    ));
                }
            }
        }
        row_idx = row_idx + 1;
    }
}

/// The native value of `(r, x)` over a decoded line state: the owning
/// colour's buffer slot at the squashed index.
pub open spec fn state_native(cm: &DataGrid<Color>, ls: LineState, r: int, x: int) -> u16 {
    sel3(ls.red[r / 2], ls.green[r], ls.blue[r / 2], cm.cell(r, x % 6))[sq(x)]
}

/// The pixels after scattering decoded line `l` into its six-row band.
pub open spec fn scatter_line(
    cm: &DataGrid<Color>,
    px: Seq<u16>,
    width: int,
    l: int,
    ls: LineState,
) -> Seq<u16> {
    Seq::new(
        px.len(),
        |j: int|
            if l * 6 * width <= j < (l + 1) * 6 * width {
                state_native(cm, ls, j / width - 6 * l, j % width)
            } else {
                px[j]
            },
    )
}

/// The whole decoding state of one stripe: the carry record, the gradient
/// tables, the bit cursor, and the pixels written so far.
pub struct StripeState {
    pub carry: CarryViews,
    pub even: Seq<crate::sample::Grad>,
    pub odd: Seq<crate::sample::Grad>,
    pub cursor: nat,
    pub px: Seq<u16>,
}

/// The state a stripe decode starts from: a zero carry record, fresh
/// gradients, the cursor at the head, and zero pixels.
pub open spec fn initial_stripe_state(width: int, height: int) -> StripeState {
    StripeState {
        carry: CarryViews {
            red: Seq::new(2, |i: int| Seq::new(REQUIRED_CAPACITY as nat, |j: int| 0u16)),
            green: Seq::new(2, |i: int| Seq::new(REQUIRED_CAPACITY as nat, |j: int| 0u16)),
            blue: Seq::new(2, |i: int| Seq::new(REQUIRED_CAPACITY as nat, |j: int| 0u16)),
        },
        even: Seq::new(123, |i: int| crate::sample::Grad(256, 1)),
        odd: Seq::new(123, |i: int| crate::sample::Grad(256, 1)),
        cursor: 0,
        px: Seq::new((width * height) as nat, |j: int| 0u16),
    }
}

/// The stripe decode folded `l` lines in: each line is decoded by the line
/// fold against the running carry, checked to hold samples, scattered into
/// its band, and its last two rows per colour carried forward.
pub open spec fn stripe_fold(
    bits: Seq<bool>,
    cm: &DataGrid<Color>,
    width: int,
    st0: StripeState,
    l: int,
) -> Result<StripeState, CodecError>
    decreases l,
{
    if l <= 0 {
        Ok(st0)
    } else {
        let prev = stripe_fold(bits, cm, width, st0, l - 1);
        if prev is Err {
            prev
        } else {
            let ss = prev->Ok_0;
            let lf = line_fold(
                bits,
                ss.carry,
                initial_line_state(ss.even, ss.odd, ss.cursor),
                line_steps(),
            );
            if lf is Err {
                Err(lf->Err_0)
            } else {
                let ls = lf->Ok_0;
                if !state_bufs_samples(ls) {
                    Err(CodecError::InvariantViolation)
                } else {
                    Ok(
                        StripeState {
                            carry: CarryViews {
                                red: ls.red.subrange(1, 3),
                                green: ls.green.subrange(4, 6),
                                blue: ls.blue.subrange(1, 3),
                            },
                            even: ls.even,
                            odd: ls.odd,
                            cursor: ls.cursor,
                            px: scatter_line(cm, ss.px, width, l - 1, ls),
                        },
                    )
                }
            }
        }
    }
}

/// Pixels written by the line scatter are exactly `scatter_line` of the
/// decoded state.
proof fn lemma_scatter_matches(
    cm: &DataGrid<Color>,
    pre_px: Seq<u16>,
    w: int,
    l: int,
    ls: LineState,
    results: &Colored<Vec<Vec<u16>>>,
    post_px: Seq<u16>,
)
    requires
        w >= 1,
        l >= 0,
        line_bufs_wf(results, REQUIRED_CAPACITY as int),
        ls.red == rows_views(results.red@),
        ls.green == rows_views(results.green@),
        ls.blue == rows_views(results.blue@),
        post_px.len() == pre_px.len(),
        (l + 1) * 6 * w <= pre_px.len(),
        forall|r: int, x: int|
            0 <= r < 6 && 0 <= x < w ==> #[trigger] post_px[(l * 6 + r) * w + x]
                == line_native_spec(cm, results, r, x),
        forall|j: int|
            0 <= j < pre_px.len() && !(l * 6 * w <= j < (l + 1) * 6 * w) ==> #[trigger] post_px[j]
                == pre_px[j],
    ensures
        post_px == scatter_line(cm, pre_px, w, l, ls),
{
    assert forall|j: int| 0 <= j < post_px.len() implies #[trigger] post_px[j] == scatter_line(
        cm,
        pre_px,
        w,
        l,
        ls,
    )[j] by {
        if l * 6 * w <= j < (l + 1) * 6 * w {
            vstd::arithmetic::div_mod::lemma_fundamental_div_mod(j, w);
            let y = j / w;
            let x = j % w;
            assert(l * 6 * w == (l * 6) * w && (l + 1) * 6 * w == (l * 6 + 6) * w)
                by (nonlinear_arith);
            assert(6 * l <= y < 6 * l + 6) by (nonlinear_arith)
                requires
                    (l * 6) * w <= j < (l * 6 + 6) * w && w >= 1 && j == w * y + x && 0 <= x < w
                        && l >= 0,
            ;
            let rr = y - 6 * l;
            assert((l * 6 + rr) * w + x == j) by (nonlinear_arith)
                requires
                    j == w * y + x && rr == y - 6 * l,
            ;
            assert(post_px[(l * 6 + rr) * w + x] == line_native_spec(cm, results, rr, x));
            assert(line_native_spec(cm, results, rr, x) == state_native(cm, ls, rr, x));
        }
    }
    assert(post_px =~= scatter_line(cm, pre_px, w, l, ls));
}

/// A failed stripe fold stays failed.
proof fn lemma_stripe_fold_err_sticky(
    bits: Seq<bool>,
    cm: &DataGrid<Color>,
    width: int,
    st0: StripeState,
    l1: int,
    l2: int,
)
    requires
        0 <= l1 <= l2,
        stripe_fold(bits, cm, width, st0, l1) is Err,
    ensures
        stripe_fold(bits, cm, width, st0, l2) is Err,
    decreases l2 - l1,
{
    if l1 < l2 {
        lemma_stripe_fold_err_sticky(bits, cm, width, st0, l1, l2 - 1);
    }
}

/// Decodes one compressed stripe block into an `out_width` by `height`
/// pixel buffer.  The stream is always laid out for a full-width stripe;
/// a narrower final stripe keeps only its leftmost columns.
#[verifier::rlimit(100)]
#[verifier::spinoff_prover]
pub fn inflate_stripe(
    data: &Vec<u8>,
    color_map: &DataGrid<Color>,
    stripe_width: usize,
    out_width: usize,
    height: usize,
) -> (r: Result<Vec<u16>, CodecError>)
    requires
        data@.len() < 0x0800_0000,
        color_map.wf(),
        color_map.spec_size().0 == 6,
        color_map.spec_size().1 == 6,
        stripe_width == STRIPE_WIDTH,
        1 <= out_width <= stripe_width,
        height <= 0x10000,
    ensures
        r matches Ok(px) ==> px@.len() == out_width * height && all_samples(px@),
        ({
            let fold = stripe_fold(
                crate::bits::bits_of_bytes(data@),
                color_map,
                out_width as int,
                initial_stripe_state(out_width as int, height as int),
                height as int / 6,
            );
            &&& (r is Ok <==> fold is Ok)
            &&& (r matches Ok(px) ==> px@ == fold->Ok_0.px)
        }),
{
    let mut reader = BitReader::new(copy_bytes(data));
    let mut prev_lines = Colored::new(zero_carry_rows(), zero_carry_rows(), zero_carry_rows());
    let mut gradients = (Gradients::fresh(), Gradients::fresh());
    let num_lines = height / 6;
    proof {
        assert(out_width * height <= 768 * 0x10000) by (nonlinear_arith)
            requires
                0 <= out_width <= 768 && 0 <= height <= 0x10000,
        ;
    }
    let mut out: Vec<u16> = vec![0u16; out_width * height];
    let ghost bits = crate::bits::bits_of_bytes(data@);
    let ghost ss0 = initial_stripe_state(out_width as int, height as int);
    proof {
        assert forall|i: int| 0 <= i < 2 implies #[trigger] carry_views(&prev_lines).red[i]
            =~= ss0.carry.red[i] by {}
        assert forall|i: int| 0 <= i < 2 implies #[trigger] carry_views(&prev_lines).green[i]
            =~= ss0.carry.green[i] by {}
        assert forall|i: int| 0 <= i < 2 implies #[trigger] carry_views(&prev_lines).blue[i]
            =~= ss0.carry.blue[i] by {}
        assert(carry_views(&prev_lines).red =~~= ss0.carry.red);
        assert(carry_views(&prev_lines).green =~~= ss0.carry.green);
        assert(carry_views(&prev_lines).blue =~~= ss0.carry.blue);
        assert(gradients.0@ =~= ss0.even);
        assert(gradients.1@ =~= ss0.odd);
        assert(out@ =~= ss0.px);
    }
    let mut line_no: usize = 0;
    while line_no < num_lines
        invariant
            line_no <= num_lines,
            num_lines == height as int / 6,
            height <= 0x10000,
            out_width >= 1,
            out_width <= STRIPE_WIDTH,
            out@.len() == out_width * height,
            all_samples(out@),
            reader.wf(),
            reader.bits() == bits,
            bits == crate::bits::bits_of_bytes(data@),
            ss0 == initial_stripe_state(out_width as int, height as int),
            carry_wf(&prev_lines, REQUIRED_CAPACITY as int),
            gradients.0.wf(),
            gradients.1.wf(),
            color_map.wf(),
            color_map.spec_size().0 == 6,
            color_map.spec_size().1 == 6,
            stripe_fold(bits, color_map, out_width as int, ss0, line_no as int) == Ok::<
                StripeState,
                CodecError,
            >(
                StripeState {
                    carry: carry_views(&prev_lines),
                    even: gradients.0@,
                    odd: gradients.1@,
                    cursor: reader.cursor(),
                    px: out@,
                },
            ),
        decreases num_lines - line_no,
    {
        let ghost ss = stripe_fold(bits, color_map, out_width as int, ss0, line_no as int)->Ok_0;
        let results = match inflate_line(&mut reader, &mut gradients, &prev_lines) {
            Ok(res) => res,
            Err(e) => {
                proof {
                    lemma_stripe_fold_err_sticky(
                        bits,
                        color_map,
                        out_width as int,
                        ss0,
                        line_no + 1,
                        num_lines as int,
                    );
                }
                return Err(e);
            },
        };
        let ghost ls = line_fold(
            bits,
            ss.carry,
            initial_line_state(ss.even, ss.odd, ss.cursor),
            line_steps(),
        )->Ok_0;
        proof {
            assert(ls.red == rows_views(results.red@) && ls.green == rows_views(results.green@)
                && ls.blue == rows_views(results.blue@));
        }
        prev_lines = collect_carry_lines(&results);
        proof {
            assert forall|i: int| 0 <= i < 2 implies #[trigger] carry_views(&prev_lines).red[i]
                =~= ls.red.subrange(1, 3)[i] by {}
            assert forall|i: int| 0 <= i < 2 implies #[trigger] carry_views(&prev_lines).green[i]
                =~= ls.green.subrange(4, 6)[i] by {}
            assert forall|i: int| 0 <= i < 2 implies #[trigger] carry_views(&prev_lines).blue[i]
                =~= ls.blue.subrange(1, 3)[i] by {}
            assert(carry_views(&prev_lines).red =~~= ls.red.subrange(1, 3));
            assert(carry_views(&prev_lines).green =~~= ls.green.subrange(4, 6));
            assert(carry_views(&prev_lines).blue =~~= ls.blue.subrange(1, 3));
        }
        proof {
            vstd::arithmetic::div_mod::lemma_fundamental_div_mod(height as int, 6);
            assert((line_no + 1) * 6 * out_width <= height * out_width) by (nonlinear_arith)
                requires
                    line_no + 1 <= height as int / 6 && height as int / 6 * 6 <= height && out_width
                        >= 1,
            ;
            assert(height * out_width == out_width * height) by (nonlinear_arith);
        }
        let ghost pre_px = out@;
        copy_line_to_xtrans(color_map, &mut out, out_width, line_no, &results);
        proof {
            lemma_scatter_matches(
                color_map,
                pre_px,
                out_width as int,
                line_no as int,
                ls,
                &results,
                out@,
            );
        }
        line_no = line_no + 1;
    }
    proof {
        assert(stripe_fold(bits, color_map, out_width as int, ss0, num_lines as int) == Ok::<
            StripeState,
            CodecError,
        >(
            StripeState {
                carry: carry_views(&prev_lines),
                even: gradients.0@,
                odd: gradients.1@,
                cursor: reader.cursor(),
                px: out@,
            },
        ));
    }
    Ok(out)
}

/// A fresh copy of a byte buffer.
fn copy_bytes(v: &Vec<u8>) -> (r: Vec<u8>)
    ensures
        r@ == v@,
{
    let mut out: Vec<u8> = Vec::new();
    let mut i: usize = 0;
    while i < v.len()
        invariant
            i <= v@.len(),
            out@ == v@.subrange(0, i as int),
        decreases v@.len() - i,
    {
        out.push(v[i]);
        proof {
            assert(out@ =~= v@.subrange(0, i + 1));
        }
        i = i + 1;
    }
    proof {
        assert(out@ =~= v@);
    }
    out
}

/// Two rows of zero samples: the carry record at the top of a stripe.
fn zero_carry_rows() -> (r: Vec<Vec<u16>>)
    ensures
        rows_wf(r@, 2, REQUIRED_CAPACITY as int),
        rows_samples(r@),
        forall|i: int, j: int|
            0 <= i < 2 && 0 <= j < REQUIRED_CAPACITY ==> #[trigger] r@[i]@[j] == 0,
{
    let mut out: Vec<Vec<u16>> = Vec::new();
    let row: Vec<u16> = vec![0u16; REQUIRED_CAPACITY];
    let row2: Vec<u16> = vec![0u16; REQUIRED_CAPACITY];
    out.push(row);
    out.push(row2);
    out
}

/// Decodes a whole image from its per-stripe blocks: each block decoded
/// independently at its own column count, the stripes joined side by side.
/// How many pixel columns stripe `i` of `n` holds for a `width`-column
/// image: full width for all but the last, which takes what is left.
pub open spec fn stripe_col_width(width: int, n: int, i: int) -> int {
    if i + 1 < n {
        STRIPE_WIDTH as int
    } else {
        width - i * STRIPE_WIDTH
    }
}

/// What one stripe block decodes to on its own: the stripe fold over the
/// block's bits from a fresh stripe state.
pub open spec fn block_decode(block: Seq<u8>, cm: &DataGrid<Color>, w: int, height: int) -> Result<
    StripeState,
    CodecError,
> {
    stripe_fold(
        crate::bits::bits_of_bytes(block),
        cm,
        w,
        initial_stripe_state(w, height),
        height / 6,
    )
}

pub fn inflate(
    img_size: Size,
    stripe_width: usize,
    blocks: &Vec<Vec<u8>>,
    color_map: &DataGrid<Color>,
) -> (r: Result<Vec<u16>, CodecError>)
    requires
        stripe_width == STRIPE_WIDTH,
        1 <= img_size.0 <= 0x10000,
        img_size.1 <= 0x10000,
        blocks@.len() <= 255,
        crate::container::stripe_widths_ok(img_size.0 as int, blocks@.len() as int),
        forall|j: int| 0 <= j < blocks@.len() ==> (#[trigger] blocks@[j])@.len() < 0x0800_0000,
        color_map.wf(),
        color_map.spec_size().0 == 6,
        color_map.spec_size().1 == 6,
    ensures
        r matches Ok(px) ==> px@.len() == img_size.0 * img_size.1
            && crate::process_common::all_samples(px@),
        r is Ok <==> (forall|i: int|
            0 <= i < blocks@.len() ==> (#[trigger] block_decode(
                blocks@[i]@,
                color_map,
                stripe_col_width(img_size.0 as int, blocks@.len() as int, i),
                img_size.1 as int,
            )) is Ok),
        r matches Ok(px) ==> forall|i: int, y: int, x: int|
            0 <= i < blocks@.len() && 0 <= y < img_size.1 && 0 <= x < stripe_col_width(
                img_size.0 as int,
                blocks@.len() as int,
                i,
            ) ==> #[trigger] px@[y * img_size.0 + i * STRIPE_WIDTH + x] == block_decode(
                blocks@[i]@,
                color_map,
                stripe_col_width(img_size.0 as int, blocks@.len() as int, i),
                img_size.1 as int,
            )->Ok_0.px[y * stripe_col_width(img_size.0 as int, blocks@.len() as int, i) + x],
{
    let width = img_size.0;
    let height = img_size.1;
    let num_blocks = blocks.len();
    let mut strips: Vec<Vec<u16>> = Vec::new();
    let mut widths: Vec<usize> = Vec::new();
    let mut i: usize = 0;
    while i < num_blocks
        invariant
            i <= num_blocks,
            num_blocks == blocks@.len(),
            num_blocks <= 255,
            1 <= width <= 0x10000,
            height <= 0x10000,
            width == img_size.0,
            height == img_size.1,
            (num_blocks - 1) * STRIPE_WIDTH < width <= num_blocks * STRIPE_WIDTH,
            forall|j: int| 0 <= j < num_blocks ==> (#[trigger] blocks@[j])@.len() < 0x0800_0000,
            color_map.wf(),
            color_map.spec_size().0 == 6,
            color_map.spec_size().1 == 6,
            strips@.len() == i,
            widths@.len() == i,
            forall|j: int| 0 <= j < i ==> 1 <= #[trigger] widths@[j] <= STRIPE_WIDTH,
            forall|j: int|
                0 <= j < i ==> (#[trigger] strips@[j])@.len() == widths@[j] * height,
            forall|j: int|
                0 <= j < i ==> crate::process_common::all_samples((#[trigger] strips@[j])@),
            forall|j: int|
                0 <= j < i ==> #[trigger] widths@[j] == stripe_col_width(
                    width as int,
                    num_blocks as int,
                    j,
                ),
            forall|j: int|
                0 <= j < i ==> (#[trigger] block_decode(
                    blocks@[j]@,
                    color_map,
                    widths@[j] as int,
                    height as int,
                )) is Ok && strips@[j]@ == block_decode(
                    blocks@[j]@,
                    color_map,
                    widths@[j] as int,
                    height as int,
                )->Ok_0.px,
            forall|j: int|
                0 <= j <= i ==> #[trigger] crate::container::total_width(widths@.subrange(0, j))
                    == (if j < num_blocks {
                    j * STRIPE_WIDTH as int
                } else {
                    width as int
                }),
            crate::container::total_width(widths@) == if i < num_blocks {
                (i as int) * STRIPE_WIDTH
            } else {
                width as int
            },
        decreases num_blocks - i,
    {
        let chunk_w: usize = if i + 1 < num_blocks {
            STRIPE_WIDTH
        } else {
            proof {
                assert((num_blocks - 1) * STRIPE_WIDTH == i as int * STRIPE_WIDTH);
            }
            width - i * STRIPE_WIDTH
        };
        let px = match crate::container::decode_block(&blocks[i], color_map, chunk_w, height) {
            Ok(p) => p,
            Err(e) => {
                proof {
                    assert(chunk_w as int == stripe_col_width(
                        width as int,
                        num_blocks as int,
                        i as int,
                    ));
                    assert(!(block_decode(
                        blocks@[i as int]@,
                        color_map,
                        stripe_col_width(width as int, num_blocks as int, i as int),
                        height as int,
                    ) is Ok));
                }
                return Err(e);
            },
        };
        let ghost pre_widths = widths@;
        proof {
            assert(chunk_w as int == stripe_col_width(width as int, num_blocks as int, i as int));
        }
        strips.push(px);
        widths.push(chunk_w);
        proof {
            assert(widths@.drop_last() =~= pre_widths);
            crate::container::lemma_total_width_step_push(widths@, chunk_w as usize);
            assert((i as int) * STRIPE_WIDTH + STRIPE_WIDTH == (i + 1) * STRIPE_WIDTH)
                by (nonlinear_arith);
            assert forall|j: int|
                0 <= j <= i + 1 implies #[trigger] crate::container::total_width(
                widths@.subrange(0, j),
            ) == (if j < num_blocks {
                j * STRIPE_WIDTH as int
            } else {
                width as int
            }) by {
                if j <= i {
                    assert(widths@.subrange(0, j) =~= pre_widths.subrange(0, j));
                } else {
                    assert(widths@.subrange(0, j) =~= widths@);
                }
            }
        }
        i = i + 1;
    }
    let out = crate::container::join_blocks(&strips, &widths, height);
    proof {
        assert(crate::container::total_width(widths@) == width as int);
        assert forall|j: int|
            0 <= j < num_blocks implies (#[trigger] block_decode(
            blocks@[j]@,
            color_map,
            stripe_col_width(width as int, num_blocks as int, j),
            height as int,
        )) is Ok by {
            assert(block_decode(blocks@[j]@, color_map, widths@[j] as int, height as int) is Ok);
        }
        assert forall|bi: int, y: int, x: int|
            0 <= bi < blocks@.len() && 0 <= y < height && 0 <= x < stripe_col_width(
                width as int,
                num_blocks as int,
                bi,
            ) implies #[trigger] out@[y * width + bi * STRIPE_WIDTH + x] == block_decode(
            blocks@[bi]@,
            color_map,
            stripe_col_width(width as int, num_blocks as int, bi),
            height as int,
        )->Ok_0.px[y * stripe_col_width(width as int, num_blocks as int, bi) + x] by {
            assert(crate::container::total_width(widths@.subrange(0, bi)) == bi * STRIPE_WIDTH
                as int);
            assert(crate::container::joined_at(widths@, y, bi, x) == y * width + bi * STRIPE_WIDTH
                + x);
            assert(out@[crate::container::joined_at(widths@, y, bi, x)] == strips@[bi]@[y
                * widths@[bi] + x]);
            assert(strips@[bi]@ == block_decode(
                blocks@[bi]@,
                color_map,
                widths@[bi] as int,
                height as int,
            )->Ok_0.px);
        }
    }
    Ok(out)
}

} // verus!
