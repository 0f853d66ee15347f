//! The general laws the codec states of itself, proved over the same spec
//! functions its executable contracts use.
use crate::compress::encode_sample_spec;
use crate::inflate::reconstruct_spec;
use crate::inflate::sample_delta_spec;
use crate::process_common::fill_post;
use crate::process_common::remap_written;
use crate::process_common::unremap_read;
use crate::sample::grad_updated;
use crate::sample::grad_wf;
use crate::sample::Grad;
use crate::sample::Sample;
use crate::sample::GRADIENT_MAX_COUNT;
use crate::sample::GRAD_VALUE_LIMIT;
use crate::bits::pow2n;
use crate::Color;
use vstd::prelude::*;

verus! {

/// Remapper inverse law: a native row scattered into the per-colour flat
/// buffers and read back through the same squashed-index arithmetic is
/// recovered exactly.
pub proof fn lemma_remap_round_trip(
    row: Seq<u16>,
    colors: Seq<Color>,
    red: Seq<u16>,
    green: Seq<u16>,
    blue: Seq<u16>,
    out: Seq<u16>,
)
    requires
        remap_written(row, colors, red, green, blue),
        unremap_read(colors, red, green, blue, out),
        out.len() == row.len(),
    ensures
        out == row,
{
    assert(out =~= row);
}

/// Gap filler determinism: the filled row is a function of the row and the
/// two rows above it alone, so two fillings of the same inputs agree.
pub proof fn lemma_fill_gaps_deterministic(
    row: Seq<u16>,
    rprev: Seq<u16>,
    rprevprev: Seq<u16>,
    out1: Seq<u16>,
    out2: Seq<u16>,
)
    requires
        fill_post(row, rprev, rprevprev, out1),
        fill_post(row, rprev, rprevprev, out2),
    ensures
        out1 == out2,
{
    assert(out1 =~= out2);
}

/// Gradient halving invariant: an update never lifts the count past its
/// ceiling, and an update that fires the halving leaves exactly the floor
/// of half the pre-halving sum and count.
pub proof fn lemma_gradient_halving(g: Grad, v: int)
    requires
        grad_wf(g),
        0 <= v <= GRAD_VALUE_LIMIT,
    ensures
        grad_wf(grad_updated(g, v)),
        grad_updated(g, v).1 <= GRADIENT_MAX_COUNT,
        g.1 == GRADIENT_MAX_COUNT ==> grad_updated(g, v).0 == (g.0 + v) / 2 && grad_updated(
            g,
            v,
        ).1 == GRADIENT_MAX_COUNT / 2 + 1,
{
}

/// A whole run of updates folded into a gradient, oldest first.
pub open spec fn apply_updates(g: Grad, vs: Seq<int>) -> Grad
    decreases vs.len(),
{
    if vs.len() == 0 {
        g
    } else {
        grad_updated(apply_updates(g, vs.drop_last()), vs.last())
    }
}

/// Over any sequence of in-range updates, a well-formed gradient stays
/// well-formed and its count never exceeds the ceiling.
pub proof fn lemma_gradient_count_bounded(g: Grad, vs: Seq<int>)
    requires
        grad_wf(g),
        forall|i: int| 0 <= i < vs.len() ==> 0 <= #[trigger] vs[i] <= GRAD_VALUE_LIMIT,
    ensures
        grad_wf(apply_updates(g, vs)),
        apply_updates(g, vs).1 <= GRADIENT_MAX_COUNT,
    decreases vs.len(),
{
    if vs.len() > 0 {
        lemma_gradient_count_bounded(g, vs.drop_last());
        lemma_gradient_halving(apply_updates(g, vs.drop_last()), vs.last());
    }
}

/// Sample round trip: whenever the encoder can represent a value against a
/// prediction and a code length, decoding the sample's delta and applying
/// it back to the same prediction returns the value exactly.
pub proof fn lemma_sample_round_trip(wa: int, actual: int, d: int, gneg: bool)
    requires
        0 <= wa < 16384,
        0 <= actual < 16384,
        0 <= d <= 13,
        encode_sample_spec(wa, actual, d, gneg) is Ok,
    ensures
        reconstruct_spec(
            wa,
            gneg,
            sample_delta_spec(encode_sample_spec(wa, actual, d, gneg)->Ok_0),
        ) == actual,
{
    let delta = crate::compress::coded_delta(wa, actual);
    let abs = crate::process_common::iabs(delta);
    let m = if d == 0 {
        0int
    } else {
        d - 1
    };
    let p = pow2n(m as nat) as int;
    crate::bits::lemma_pow2n_pos(m as nat);
    vstd::arithmetic::div_mod::lemma_fundamental_div_mod(abs, p);
    vstd::arithmetic::div_mod::lemma_fundamental_div_mod(abs - 1, p);
    let upper = abs / p;
    let lower = abs % p;
    assert(0 <= lower < p && 0 <= upper <= abs) by {
        vstd::arithmetic::div_mod::lemma_div_nonincreasing(abs, p);
        vstd::arithmetic::div_mod::lemma_div_pos_is_pos(abs, p);
    }
    assert(0 <= (abs - 1) % p < p && 0 <= (abs - 1) / p <= abs - 1 || abs == 0) by {
        if abs >= 1 {
            vstd::arithmetic::div_mod::lemma_div_nonincreasing(abs - 1, p);
            vstd::arithmetic::div_mod::lemma_div_pos_is_pos(abs - 1, p);
        }
    }
    let s = encode_sample_spec(wa, actual, d, gneg)->Ok_0;
    let dd = sample_delta_spec(s);
    if upper > 40 {
        assert(dd == if (delta < 0) == gneg {
            abs
        } else {
            -abs
        });
    } else if d == 0 {
        assert(dd == 0);
    } else if delta == 0 || (delta < 0) == gneg {
        assert(upper * p + lower == abs);
        assert(dd == abs);
    } else {
        assert(((abs - 1) / p) * p + (abs - 1) % p == abs - 1);
        assert(dd == -abs);
    }
    let raw = if gneg {
        wa - dd
    } else {
        wa + dd
    };
    assert(raw == wa + delta || raw == wa - delta && gneg || raw == actual);
    // The coded delta is congruent to the true delta modulo the domain, so
    // the wrapped reconstruction lands on the value itself.
    assert(raw == actual || raw == actual - 16384 || raw == actual + 16384);
    assert(actual % 16384 == actual) by {
        vstd::arithmetic::div_mod::lemma_small_mod(actual as nat, 16384);
    }
    vstd::arithmetic::div_mod::lemma_mod_multiples_vanish(-1, actual, 16384);
    vstd::arithmetic::div_mod::lemma_mod_multiples_vanish(1, actual, 16384);
    assert((actual - 16384) % 16384 == actual);
    assert((actual + 16384) % 16384 == actual);
}

/// Wire round trip: a sample put on the wire under a given code length is
/// read back as exactly that sample, whatever bits surround it, and the
/// reader consumes exactly the bits the writer emitted.
pub proof fn lemma_sample_wire_round_trip(
    prefix: Seq<bool>,
    s: Sample,
    rest: Seq<bool>,
    dec_bits: int,
)
    requires
        0 <= dec_bits <= 13,
        match s {
            Sample::Zero => dec_bits == 0,
            Sample::EntireDelta(v, inv) => v < 0x2000,
            Sample::SplitDelta { upper, lower, lower_bits, invert } => dec_bits >= 1 && lower_bits
                == dec_bits - 1 && upper <= 40 && lower < pow2n(lower_bits as nat),
        },
    ensures
        ({
            let stream = prefix + crate::compress::sample_bits(s) + rest;
            &&& crate::inflate::read_sample_spec(stream, prefix.len(), dec_bits) == Ok::<
                Sample,
                crate::CodecError,
            >(s)
            &&& crate::inflate::read_sample_len(stream, prefix.len(), dec_bits)
                == crate::compress::sample_bits(s).len()
        }),
{
    let sb = crate::compress::sample_bits(s);
    let stream = prefix + sb + rest;
    let c = prefix.len();
    assert(forall|i: int| 0 <= i < sb.len() ==> stream[c + i] == sb[i]);
    match s {
        Sample::Zero => {
            assert(stream[c as int]);
            crate::bitreader::lemma_zeros_run_exact(stream, c, 0);
        },
        Sample::EntireDelta(v, inv) => {
            assert forall|k: int| c <= k < c + 41 implies !(#[trigger] stream[k]) by {
                assert(sb[k - c] == crate::bits::zero_bits(41)[k - c]);
            }
            assert(stream[c as int + 41] == sb[41]);
            crate::bitreader::lemma_zeros_run_exact(stream, c, 41);
            let c1 = c + 42;
            assert(stream.subrange(c1 as int, c1 as int + 13) =~= crate::bits::field_bits(
                v as u32,
                13,
            ));
            reveal_with_fuel(pow2n, 15);
            assert(pow2n(13) == 0x2000);
            crate::bits::lemma_field_bits_val(v as u32, 13);
            assert(stream[c1 as int + 13] == sb[55]);
            assert(sb[55] == inv);
        },
        Sample::SplitDelta { upper, lower, lower_bits, invert } => {
            assert forall|k: int| c <= k < c + upper implies !(#[trigger] stream[k]) by {
                assert(sb[k - c] == crate::bits::zero_bits(upper as nat)[k - c]);
            }
            assert(stream[c as int + upper as int] == sb[upper as int]);
            crate::bitreader::lemma_zeros_run_exact(stream, c, upper as nat);
            let c1 = c + upper + 1;
            assert(stream.subrange(c1 as int, c1 as int + lower_bits) =~= crate::bits::field_bits(
                lower as u32,
                lower_bits as nat,
            ));
            crate::bits::lemma_field_bits_val(lower as u32, lower_bits as nat);
            crate::bits::lemma_pow2n_le(lower_bits as nat, 12);
            reveal_with_fuel(pow2n, 14);
            assert(pow2n(12) == 0x1000);
            assert(stream[c1 as int + lower_bits] == sb[upper + 1 + lower_bits]);
            assert(sb[upper + 1 + lower_bits] == invert);
        },
    }
}

/// The codec round trip for one sample, end to end: a value the encoder
/// can represent, put on the wire and read back under the same code
/// length, reconstructs to exactly that value.  The coded delta is
/// reduced modulo the 14-bit domain, so the escape literal always fits
/// its 13 bits, whatever the value and the prediction.
pub proof fn lemma_sample_codec_round_trip(
    prefix: Seq<bool>,
    rest: Seq<bool>,
    wa: int,
    actual: int,
    d: int,
    gneg: bool,
)
    requires
        0 <= wa < 16384,
        0 <= actual < 16384,
        0 <= d <= 13,
        encode_sample_spec(wa, actual, d, gneg) is Ok,
    ensures
        ({
            let s = encode_sample_spec(wa, actual, d, gneg)->Ok_0;
            let stream = prefix + crate::compress::sample_bits(s) + rest;
            &&& crate::inflate::read_sample_spec(stream, prefix.len(), d) == Ok::<
                Sample,
                crate::CodecError,
            >(s)
            &&& reconstruct_spec(wa, gneg, sample_delta_spec(s)) == actual
        }),
{
    let s = encode_sample_spec(wa, actual, d, gneg)->Ok_0;
    let abs = crate::process_common::iabs(crate::compress::coded_delta(wa, actual));
    assert(abs <= 8192);
    let m = if d == 0 {
        0int
    } else {
        d - 1
    };
    let p = pow2n(m as nat) as int;
    crate::bits::lemma_pow2n_pos(m as nat);
    match s {
        Sample::Zero => {},
        Sample::EntireDelta(v, inv) => {
            assert(v == (abs - 1) as u16 && abs >= 1);
            assert(v < 0x2000);
        },
        Sample::SplitDelta { upper, lower, lower_bits, invert } => {
            vstd::arithmetic::div_mod::lemma_fundamental_div_mod(abs, p);
            vstd::arithmetic::div_mod::lemma_fundamental_div_mod(abs - 1, p);
            assert(abs / p <= 40);
            if invert {
                vstd::arithmetic::div_mod::lemma_div_is_ordered(abs - 1, abs, p);
            }
            assert(lower < pow2n(lower_bits as nat)) by {
                vstd::arithmetic::div_mod::lemma_mod_division_less_than_divisor(
                    if invert {
                        abs - 1
                    } else {
                        abs
                    },
                    p,
                );
            }
        },
    }
    lemma_sample_wire_round_trip(prefix, s, rest, d);
    lemma_sample_round_trip(wa, actual, d, gneg);
}

} // verus!
