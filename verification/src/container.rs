//! The outer container of a compressed image: a big-endian header, a table
//! of per-block byte sizes, and the concatenated per-stripe blocks, each
//! independently decodable.
use crate::compress::STRIPE_WIDTH;
use crate::datagrid::DataGrid;
use crate::datagrid::Position;
use crate::datagrid::Size;
use crate::inflate::inflate_stripe;
use crate::CodecError;
use crate::Color;
use vstd::prelude::*;

verus! {

/// The two magic bytes that open a compressed block.
pub const MAGIC_0: u8 = 0x49;

pub const MAGIC_1: u8 = 0x53;

/// The fixed byte size of the header.
pub const HEADER_LEN: usize = 16;

/// A big-endian 16-bit quantity.
pub open spec fn be16(a: u8, b: u8) -> int {
    a * 256 + b
}

/// A big-endian 32-bit quantity.
pub open spec fn be32(a: u8, b: u8, c: u8, d: u8) -> int {
    ((a * 256 + b) * 256 + c) * 256 + d
}

/// The header of one compressed image: dimensions and block layout, all
/// fields stored big-endian after the two magic bytes.
#[derive(Debug, Clone, Copy, PartialEq, Eq, Structural)]
pub struct FujiCompressedHeader {
    pub version: u8,
    pub raw_type: u8,
    pub raw_bits: u8,
    pub raw_height: u16,
    pub raw_rounded_width: u16,
    pub raw_width: u16,
    pub block_width: u16,
    pub num_blocks: u8,
    pub total_lines: u16,
}

/// Whether a byte buffer opens with a well-formed header.
pub open spec fn header_shape_ok(s: Seq<u8>) -> bool {
    s.len() >= HEADER_LEN && s[0] == MAGIC_0 && s[1] == MAGIC_1
}

/// The header a well-shaped buffer holds.
pub open spec fn header_of(s: Seq<u8>) -> FujiCompressedHeader {
    FujiCompressedHeader {
        version: s[2],
        raw_type: s[3],
        raw_bits: s[4],
        raw_height: be16(s[5], s[6]) as u16,
        raw_rounded_width: be16(s[7], s[8]) as u16,
        raw_width: be16(s[9], s[10]) as u16,
        block_width: be16(s[11], s[12]) as u16,
        num_blocks: s[13],
        total_lines: be16(s[14], s[15]) as u16,
    }
}

/// One big-endian 16-bit field.
fn read_be16(input: &Vec<u8>, at: usize) -> (r: u16)
    requires
        at + 2 <= input@.len(),
    ensures
        r == be16(input@[at as int], input@[at as int + 1]),
{
    let n = input.len();
    (input[at] as u16) * 256 + input[at + 1] as u16
}

/// Parses the fixed container header: the magic pair, then the version,
/// type and bit-depth bytes, then the five dimension fields.  A short
/// buffer or a wrong magic is a malformed header.
pub fn parse_fuji_header(input: &Vec<u8>) -> (r: Result<FujiCompressedHeader, CodecError>)
    ensures
        r is Ok <==> header_shape_ok(input@),
        r matches Ok(h) ==> h == header_of(input@),
        r is Err ==> r == Err::<FujiCompressedHeader, CodecError>(CodecError::MalformedHeader),
{
    if input.len() < HEADER_LEN {
        return Err(CodecError::MalformedHeader);
    }
    if input[0] != MAGIC_0 || input[1] != MAGIC_1 {
        return Err(CodecError::MalformedHeader);
    }
    Ok(
        FujiCompressedHeader {
            version: input[2],
            raw_type: input[3],
            raw_bits: input[4],
            raw_height: read_be16(input, 5),
            raw_rounded_width: read_be16(input, 7),
            raw_width: read_be16(input, 9),
            block_width: read_be16(input, 11),
            num_blocks: input[13],
            total_lines: read_be16(input, 14),
        },
    )
}

/// Reads the table of per-block byte lengths that follows the header.
pub fn block_sizes(input: &Vec<u8>, num_blocks: usize) -> (r: Result<Vec<u32>, CodecError>)
    requires
        num_blocks <= 255,
    ensures
        r is Ok <==> HEADER_LEN + 4 * num_blocks <= input@.len(),
        r matches Ok(sizes) ==> sizes@.len() == num_blocks && forall|i: int|
            0 <= i < num_blocks ==> #[trigger] sizes@[i] == be32(
                input@[HEADER_LEN + 4 * i],
                input@[HEADER_LEN + 4 * i + 1],
                input@[HEADER_LEN + 4 * i + 2],
                input@[HEADER_LEN + 4 * i + 3],
            ),
        r is Err ==> r == Err::<Vec<u32>, CodecError>(CodecError::MalformedHeader),
{
    if input.len() < HEADER_LEN || input.len() - HEADER_LEN < 4 * num_blocks {
        return Err(CodecError::MalformedHeader);
    }
    let mut sizes: Vec<u32> = Vec::new();
    let mut i: usize = 0;
    while i < num_blocks
        invariant
            i <= num_blocks,
            num_blocks <= 255,
            HEADER_LEN + 4 * num_blocks <= input@.len(),
            sizes@.len() == i,
            forall|j: int|
                0 <= j < i ==> #[trigger] sizes@[j] == be32(
                    input@[HEADER_LEN + 4 * j],
                    input@[HEADER_LEN + 4 * j + 1],
                    input@[HEADER_LEN + 4 * j + 2],
                    input@[HEADER_LEN + 4 * j + 3],
                ),
        decreases num_blocks - i,
    {
        let at = HEADER_LEN + 4 * i;
        let v: u32 = ((input[at] as u32) << 24) | ((input[at + 1] as u32) << 16) | ((input[at + 2]
            as u32) << 8) | (input[at + 3] as u32);
        proof {
            let a = input@[at as int];
            let b = input@[at as int + 1];
            let c = input@[at as int + 2];
            let d = input@[at as int + 3];
            assert(((a as u32) << 24) | ((b as u32) << 16) | ((c as u32) << 8) | (d as u32) == (((a
                * 256 + b) * 256 + c) * 256 + d) as u32) by (bit_vector);
        }
        sizes.push(v);
        i = i + 1;
    }
    Ok(sizes)
}

/// The bytes the first `k` blocks of the table cover together.
pub open spec fn sizes_total(sizes: Seq<u32>, k: int) -> int
    decreases k,
{
    if k <= 0 {
        0
    } else {
        sizes_total(sizes, k - 1) + sizes[k - 1]
    }
}

proof fn lemma_sizes_total_mono(sizes: Seq<u32>, a: int, b: int)
    requires
        0 <= a <= b <= sizes.len(),
    ensures
        sizes_total(sizes, a) <= sizes_total(sizes, b),
    decreases b - a,
{
    if a < b {
        lemma_sizes_total_mono(sizes, a + 1, b);
    }
}

/// Slices the contiguous blocks out of the buffer, each of its tabled
/// length, starting right after the size table: block `i` is exactly the
/// input bytes at the running offset.  A table that points past the end of
/// the buffer is a malformed header.
pub fn read_blocks(input: &Vec<u8>, num_blocks: usize, sizes: &Vec<u32>) -> (r: Result<
    Vec<Vec<u8>>,
    CodecError,
>)
    requires
        num_blocks <= 255,
        sizes@.len() == num_blocks,
        HEADER_LEN + 4 * num_blocks <= input@.len(),
    ensures
        r is Ok <==> HEADER_LEN + 4 * num_blocks + sizes_total(sizes@, num_blocks as int)
            <= input@.len(),
        r matches Ok(blocks) ==> blocks@.len() == num_blocks && forall|i: int|
            0 <= i < num_blocks ==> (#[trigger] blocks@[i])@ == input@.subrange(
                HEADER_LEN + 4 * num_blocks + sizes_total(sizes@, i),
                HEADER_LEN + 4 * num_blocks + sizes_total(sizes@, i) + sizes@[i],
            ),
        r matches Ok(blocks) ==> forall|i: int|
            0 <= i < num_blocks ==> (#[trigger] blocks@[i])@.len() == sizes@[i] && blocks@[i]@.len()
                <= input@.len(),
        r is Err ==> r == Err::<Vec<Vec<u8>>, CodecError>(CodecError::MalformedHeader),
{
    let base: usize = HEADER_LEN + 4 * num_blocks;
    let mut offset: usize = base;
    let mut blocks: Vec<Vec<u8>> = Vec::new();
    let mut i: usize = 0;
    while i < num_blocks
        invariant
            i <= num_blocks,
            num_blocks <= 255,
            sizes@.len() == num_blocks,
            base == HEADER_LEN + 4 * num_blocks,
            base <= input@.len(),
            offset == base + sizes_total(sizes@, i as int),
            i > 0 ==> offset <= input@.len(),
            blocks@.len() == i,
            forall|j: int|
                0 <= j < i ==> (#[trigger] blocks@[j])@ == input@.subrange(
                    base + sizes_total(sizes@, j),
                    base + sizes_total(sizes@, j) + sizes@[j],
                ),
        decreases num_blocks - i,
    {
        let size = sizes[i] as usize;
        if input.len() < offset || input.len() - offset < size {
            proof {
                lemma_sizes_total_mono(sizes@, i + 1, num_blocks as int);
            }
            return Err(CodecError::MalformedHeader);
        }
        let n = input.len();
        let mut block: Vec<u8> = Vec::new();
        let mut k: usize = 0;
        while k < size
            invariant
                k <= size,
                offset + size <= input@.len(),
                n == input@.len(),
                block@ == input@.subrange(offset as int, offset + k),
            decreases size - k,
        {
            block.push(input[offset + k]);
            proof {
                assert(block@ =~= input@.subrange(offset as int, offset + k + 1));
            }
            k = k + 1;
        }
        blocks.push(block);
        offset = offset + size;
        i = i + 1;
    }
    proof {
        assert forall|j: int| 0 <= j < num_blocks implies (#[trigger] blocks@[j])@.len()
            == sizes@[j] && blocks@[j]@.len() <= input@.len() by {
            lemma_sizes_total_mono(sizes@, 0, j);
            lemma_sizes_total_mono(sizes@, j + 1, num_blocks as int);
        }
    }
    Ok(blocks)
}

/// Decodes one stripe block into its pixel columns.
pub fn decode_block(
    block: &Vec<u8>,
    color_map: &DataGrid<Color>,
    out_width: usize,
    height: usize,
) -> (r: Result<Vec<u16>, CodecError>)
    requires
        block@.len() < 0x0800_0000,
        color_map.wf(),
        color_map.spec_size().0 == 6,
        color_map.spec_size().1 == 6,
        1 <= out_width <= STRIPE_WIDTH,
        height <= 0x10000,
    ensures
        r matches Ok(px) ==> px@.len() == out_width * height && crate::process_common::all_samples(
            px@,
        ),
        ({
            let fold = crate::inflate::stripe_fold(
                crate::bits::bits_of_bytes(block@),
                color_map,
                out_width as int,
                crate::inflate::initial_stripe_state(out_width as int, height as int),
                height as int / 6,
            );
            &&& (r is Ok <==> fold is Ok)
            &&& (r matches Ok(px) ==> px@ == fold->Ok_0.px)
        }),
{
    inflate_stripe(block, color_map, STRIPE_WIDTH, out_width, height)
}

/// How many pixel columns each of `n` stripes holds for a `width`-column
/// image: all full-width but the last, which takes what is left.
pub open spec fn stripe_widths_ok(width: int, n: int) -> bool {
    n >= 1 && (n - 1) * STRIPE_WIDTH < width <= n * STRIPE_WIDTH
}

/// Joins per-stripe pixel buffers side by side into one image.
pub fn join_blocks(strips: &Vec<Vec<u16>>, widths: &Vec<usize>, height: usize) -> (r: Vec<u16>)
    requires
        strips@.len() == widths@.len(),
        height <= 0x10000,
        forall|i: int| 0 <= i < widths@.len() ==> 1 <= #[trigger] widths@[i] <= STRIPE_WIDTH,
        forall|i: int|
            0 <= i < strips@.len() ==> (#[trigger] strips@[i])@.len() == widths@[i] * height,
        widths@.len() <= 255,
        forall|i: int|
            0 <= i < strips@.len() ==> crate::process_common::all_samples((#[trigger] strips@[i])@),
    ensures
        r@.len() == total_width(widths@) * height,
        crate::process_common::all_samples(r@),
        forall|yy: int, ii: int, xx: int|
            0 <= yy < height && 0 <= ii < strips@.len() && 0 <= xx < widths@[ii]
                ==> #[trigger] r@[joined_at(widths@, yy, ii, xx)] == strips@[ii]@[yy * widths@[ii]
                + xx],
{
    let mut out: Vec<u16> = Vec::new();
    let mut y: usize = 0;
    while y < height
        invariant
            y <= height,
            height <= 0x10000,
            strips@.len() == widths@.len(),
            widths@.len() <= 255,
            forall|i: int| 0 <= i < widths@.len() ==> 1 <= #[trigger] widths@[i] <= STRIPE_WIDTH,
            forall|i: int|
                0 <= i < strips@.len() ==> (#[trigger] strips@[i])@.len() == widths@[i] * height,
            forall|i: int|
                0 <= i < strips@.len() ==> crate::process_common::all_samples(
                    (#[trigger] strips@[i])@,
                ),
            out@.len() == y * total_width(widths@),
            crate::process_common::all_samples(out@),
            forall|yy: int, ii: int, xx: int|
                0 <= yy < y && 0 <= ii < strips@.len() && 0 <= xx < widths@[ii]
                    ==> #[trigger] out@[joined_at(widths@, yy, ii, xx)] == strips@[ii]@[yy
                    * widths@[ii] + xx],
        decreases height - y,
    {
        let mut i: usize = 0;
        while i < strips.len()
            invariant
                i <= strips@.len(),
                y < height,
                height <= 0x10000,
                strips@.len() == widths@.len(),
                widths@.len() <= 255,
                forall|k: int|
                    0 <= k < widths@.len() ==> 1 <= #[trigger] widths@[k] <= STRIPE_WIDTH,
                forall|k: int|
                    0 <= k < strips@.len() ==> (#[trigger] strips@[k])@.len() == widths@[k]
                        * height,
                forall|k: int|
                    0 <= k < strips@.len() ==> crate::process_common::all_samples(
                        (#[trigger] strips@[k])@,
                    ),
                out@.len() == y * total_width(widths@) + total_width(widths@.subrange(0, i as int)),
                crate::process_common::all_samples(out@),
                0 <= y < height,
                forall|yy: int, ii: int, xx: int|
                    0 <= yy < height && 0 <= ii < strips@.len() && 0 <= xx < widths@[ii] && (yy < y
                        || (yy == y && ii < i))
                        ==> #[trigger] out@[joined_at(widths@, yy, ii, xx)] == strips@[ii]@[yy
                        * widths@[ii] + xx],
            decreases strips@.len() - i,
        {
            let w = widths[i];
            let strip = &strips[i];
            let sn = strip.len();
            proof {
                assert((y + 1) * w <= height * w && y * w >= 0) by (nonlinear_arith)
                    requires
                        0 <= y < height && w >= 1,
                ;
                assert(height * w == w * height) by (nonlinear_arith);
                assert(y * w + w == (y + 1) * w) by (nonlinear_arith);
                lemma_total_width_bound(widths@);
                lemma_total_width_step(widths@, i as int);
                lemma_total_width_prefix_bound(widths@, i as int);
            }
            let mut x: usize = 0;
            while x < w
                invariant
                    x <= w,
                    w == widths@[i as int],
                    i < strips@.len(),
                    strips@.len() == widths@.len(),
                    strip@ == strips@[i as int]@,
                    strip@.len() == widths@[i as int] * height,
                    y * w + w <= strip@.len(),
                    y * w >= 0,
                    sn == strip@.len(),
                    out@.len() == y * total_width(widths@) + total_width(
                        widths@.subrange(0, i as int),
                    ) + x,
                    crate::process_common::all_samples(out@),
                    crate::process_common::all_samples(strip@),
                    0 <= y < height,
                    height <= 0x10000,
                    widths@.len() <= 255,
                    forall|k: int|
                        0 <= k < widths@.len() ==> 1 <= #[trigger] widths@[k] <= STRIPE_WIDTH,
                    forall|k: int|
                        0 <= k < strips@.len() ==> (#[trigger] strips@[k])@.len() == widths@[k]
                            * height,
                    forall|yy: int, ii: int, xx: int|
                        0 <= yy < height && 0 <= ii < strips@.len() && 0 <= xx < widths@[ii] && (yy
                            < y || (yy == y && (ii < i || (ii == i && xx < x))))
                            ==> #[trigger] out@[joined_at(widths@, yy, ii, xx)] == strips@[ii]@[yy
                            * widths@[ii] + xx],
                decreases w - x,
            {
                let ghost pre = out@;
                out.push(strip[y * w + x]);
                proof {
                    assert(pre.len() == joined_at(widths@, y as int, i as int, x as int));
                    assert forall|yy: int, ii: int, xx: int|
                        0 <= yy < height && 0 <= ii < strips@.len() && 0 <= xx < widths@[ii] && (yy
                            < y || (yy == y && (ii < i || (ii == i && xx < x + 1)))) implies #[trigger] out@[joined_at(
                        widths@,
                        yy,
                        ii,
                        xx,
                    )] == strips@[ii]@[yy * widths@[ii] + xx] by {
                        if yy == y && ii == i && xx == x {
                        } else {
                            lemma_joined_at_lt(
                                widths@,
                                height as int,
                                yy,
                                ii,
                                xx,
                                y as int,
                                i as int,
                                x as int,
                            );
                            assert(out@[joined_at(widths@, yy, ii, xx)] == pre[joined_at(
                                widths@,
                                yy,
                                ii,
                                xx,
                            )]);
                        }
                    }
                }
                x = x + 1;
            }
            proof {
                lemma_total_width_step(widths@, i as int);
            }
            i = i + 1;
        }
        proof {
            assert(widths@.subrange(0, widths@.len() as int) =~= widths@);
            assert((y + 1) * total_width(widths@) == y * total_width(widths@) + total_width(
                widths@,
            )) by (nonlinear_arith);
        }
        y = y + 1;
    }
    proof {
        assert(height * total_width(widths@) == total_width(widths@) * height) by (
        nonlinear_arith);
    }
    out
}

/// Where stripe `i`'s pixel `(x, y)` lands in the joined image.
pub open spec fn joined_at(widths: Seq<usize>, y: int, i: int, x: int) -> int {
    y * total_width(widths) + total_width(widths.subrange(0, i)) + x
}

/// Prefixes of the width table cover no fewer columns as they grow.
proof fn lemma_prefix_mono(w: Seq<usize>, a: int, b: int)
    requires
        0 <= a <= b <= w.len(),
    ensures
        total_width(w.subrange(0, a)) <= total_width(w.subrange(0, b)),
    decreases b - a,
{
    if a < b {
        lemma_total_width_step(w, a);
        lemma_prefix_mono(w, a + 1, b);
    }
}

/// Joined positions respect the walk order: a lexicographically earlier
/// `(row, stripe, column)` lands strictly earlier in the image.
proof fn lemma_joined_at_lt(
    w: Seq<usize>,
    height: int,
    y1: int,
    i1: int,
    x1: int,
    y2: int,
    i2: int,
    x2: int,
)
    requires
        forall|k: int| 0 <= k < w.len() ==> 1 <= #[trigger] w[k] <= STRIPE_WIDTH,
        0 <= y1 < height,
        0 <= i1 < w.len(),
        0 <= x1 < w[i1],
        0 <= y2 < height,
        0 <= i2 < w.len(),
        0 <= x2 < w[i2],
        y1 < y2 || (y1 == y2 && (i1 < i2 || (i1 == i2 && x1 < x2))),
    ensures
        0 <= joined_at(w, y1, i1, x1) < joined_at(w, y2, i2, x2),
{
    let big = total_width(w);
    lemma_total_width_bound(w);
    assert(y1 * big >= 0 && y2 * big >= 0) by (nonlinear_arith)
        requires
            y1 >= 0 && y2 >= 0 && big >= 0,
    ;
    lemma_total_width_prefix_bound(w, i1);
    lemma_total_width_prefix_bound(w, i2);
    lemma_total_width_bound(w.subrange(0, i1));
    lemma_total_width_bound(w.subrange(0, i2));
    lemma_total_width_step(w, i1);
    if y1 < y2 {
        assert((y1 + 1) * big == y1 * big + big) by (nonlinear_arith);
        assert(total_width(w.subrange(0, i1)) + x1 < big);
        assert(joined_at(w, y1, i1, x1) < (y1 + 1) * big);
        assert((y1 + 1) * big <= y2 * big) by (nonlinear_arith)
            requires
                y1 + 1 <= y2 && big >= 0,
        ;
    } else if i1 < i2 {
        lemma_prefix_mono(w, i1 + 1, i2);
    }
}

/// The pixel columns all the stripes hold together.
pub open spec fn total_width(w: Seq<usize>) -> int
    decreases w.len(),
{
    if w.len() == 0 {
        0
    } else {
        total_width(w.drop_last()) + w.last()
    }
}

proof fn lemma_total_width_step(w: Seq<usize>, i: int)
    requires
        0 <= i < w.len(),
    ensures
        total_width(w.subrange(0, i + 1)) == total_width(w.subrange(0, i)) + w[i],
{
    assert(w.subrange(0, i + 1).drop_last() =~= w.subrange(0, i));
    assert(w.subrange(0, i + 1).last() == w[i]);
}

proof fn lemma_total_width_bound(w: Seq<usize>)
    requires
        forall|i: int| 0 <= i < w.len() ==> #[trigger] w[i] <= STRIPE_WIDTH,
    ensures
        0 <= total_width(w) <= w.len() * STRIPE_WIDTH,
    decreases w.len(),
{
    if w.len() > 0 {
        lemma_total_width_bound(w.drop_last());
        assert((w.len() - 1) * STRIPE_WIDTH + STRIPE_WIDTH == w.len() * STRIPE_WIDTH)
            by (nonlinear_arith);
    }
}

proof fn lemma_total_width_prefix_bound(w: Seq<usize>, i: int)
    requires
        0 <= i < w.len(),
        forall|k: int| 0 <= k < w.len() ==> #[trigger] w[k] <= STRIPE_WIDTH,
    ensures
        0 <= total_width(w.subrange(0, i)) && total_width(w.subrange(0, i)) + w[i] <= total_width(
            w,
        ),
    decreases w.len() - i,
{
    lemma_total_width_step(w, i);
    if i + 1 == w.len() {
        assert(w.subrange(0, i + 1) =~= w);
        lemma_total_width_bound(w.subrange(0, i));
    } else {
        lemma_total_width_prefix_bound(w, i + 1);
        lemma_total_width_bound(w.subrange(0, i));
    }
}

/// The block-size table a well-shaped buffer holds.
pub open spec fn parsed_sizes(s: Seq<u8>) -> Seq<u32> {
    Seq::new(
        header_of(s).num_blocks as nat,
        |i: int|
            be32(
                s[HEADER_LEN + 4 * i],
                s[HEADER_LEN + 4 * i + 1],
                s[HEADER_LEN + 4 * i + 2],
                s[HEADER_LEN + 4 * i + 3],
            ) as u32,
    )
}

/// The bytes of stripe block `i` inside a compressed image buffer.
pub open spec fn block_bytes(s: Seq<u8>, i: int) -> Seq<u8> {
    let nb = header_of(s).num_blocks as int;
    let off = HEADER_LEN + 4 * nb + sizes_total(parsed_sizes(s), i);
    s.subrange(off, off + parsed_sizes(s)[i])
}

/// Decodes a whole compressed image: parses the header and block table,
/// splits the buffer into per-stripe blocks, decodes each independently at
/// its own column count, and joins the stripes side by side.
pub fn load_fuji_compressed(input: &Vec<u8>, color_map: &DataGrid<Color>) -> (r: Result<
    Vec<u16>,
    CodecError,
>)
    requires
        input@.len() < 0x0800_0000,
        color_map.wf(),
        color_map.spec_size().0 == 6,
        color_map.spec_size().1 == 6,
    ensures
        r matches Ok(px) ==> header_shape_ok(input@) && px@.len() == header_of(input@).raw_width
            * header_of(input@).raw_height && crate::process_common::all_samples(px@),
        r matches Ok(px) ==> ({
            let h = header_of(input@);
            &&& h.block_width == STRIPE_WIDTH
            &&& stripe_widths_ok(h.raw_width as int, h.num_blocks as int)
            &&& HEADER_LEN + 4 * h.num_blocks <= input@.len()
        }),
        r matches Ok(px) ==> ({
            let h = header_of(input@);
            let nb = h.num_blocks as int;
            forall|i: int, y: int, x: int|
                0 <= i < nb && 0 <= y < h.raw_height && 0 <= x < crate::inflate::stripe_col_width(
                    h.raw_width as int,
                    nb,
                    i,
                ) ==> #[trigger] px@[y * h.raw_width + i * STRIPE_WIDTH + x]
                    == crate::inflate::block_decode(
                    block_bytes(input@, i),
                    color_map,
                    crate::inflate::stripe_col_width(h.raw_width as int, nb, i),
                    h.raw_height as int,
                )->Ok_0.px[y * crate::inflate::stripe_col_width(h.raw_width as int, nb, i) + x]
        }),
{
    let header = match parse_fuji_header(input) {
        Ok(h) => h,
        Err(e) => {
            return Err(e);
        },
    };
    let width = header.raw_width as usize;
    let height = header.raw_height as usize;
    let num_blocks = header.num_blocks as usize;
    if header.block_width as usize != STRIPE_WIDTH {
        return Err(CodecError::MalformedHeader);
    }
    if num_blocks < 1 || width < 1 {
        return Err(CodecError::MalformedHeader);
    }
    if (num_blocks - 1) * STRIPE_WIDTH >= width || width > num_blocks * STRIPE_WIDTH {
        return Err(CodecError::MalformedHeader);
    }
    let sizes = match block_sizes(input, num_blocks) {
        Ok(s) => s,
        Err(e) => {
            return Err(e);
        },
    };
    let blocks = match read_blocks(input, num_blocks, &sizes) {
        Ok(b) => b,
        Err(e) => {
            return Err(e);
        },
    };
    let r = crate::inflate::inflate(
        crate::datagrid::Size(width, height),
        STRIPE_WIDTH,
        &blocks,
        color_map,
    );
    proof {
        assert(sizes@ =~= parsed_sizes(input@));
        if r is Ok {
            assert forall|i: int|
                0 <= i < num_blocks implies #[trigger] blocks@[i]@ == block_bytes(input@, i) by {}
        }
    }
    r
}

pub proof fn lemma_total_width_step_push(w: Seq<usize>, last: usize)
    requires
        w.len() >= 1,
        w.last() == last,
    ensures
        total_width(w) == total_width(w.drop_last()) + last,
{
}

/// Appends one big-endian 16-bit field.
fn push_be16(data: &mut Vec<u8>, v: u16)
    ensures
        final(data)@.len() == old(data)@.len() + 2,
        forall|j: int| 0 <= j < old(data)@.len() ==> #[trigger] final(data)@[j] == old(data)@[j],
        be16(
            final(data)@[old(data)@.len() as int],
            final(data)@[old(data)@.len() as int + 1],
        ) == v,
{
    let hi: u8 = (v >> 8) as u8;
    let lo: u8 = (v & 0xFF) as u8;
    proof {
        assert(((v >> 8) as u8) * 256 + ((v & 0xFF) as u8) == v) by (bit_vector);
    }
    data.push(hi);
    data.push(lo);
}

/// Appends one big-endian 32-bit field.
fn push_be32(data: &mut Vec<u8>, v: u32)
    ensures
        final(data)@.len() == old(data)@.len() + 4,
        forall|j: int| 0 <= j < old(data)@.len() ==> #[trigger] final(data)@[j] == old(data)@[j],
        be32(
            final(data)@[old(data)@.len() as int],
            final(data)@[old(data)@.len() as int + 1],
            final(data)@[old(data)@.len() as int + 2],
            final(data)@[old(data)@.len() as int + 3],
        ) == v,
{
    let b0: u8 = (v >> 24) as u8;
    let b1: u8 = ((v >> 16) & 0xFF) as u8;
    let b2: u8 = ((v >> 8) & 0xFF) as u8;
    let b3: u8 = (v & 0xFF) as u8;
    proof {
        assert((((((v >> 24) as u8) * 256 + (((v >> 16) & 0xFF) as u8)) * 256 + (((v >> 8) & 0xFF)
            as u8)) * 256 + ((v & 0xFF) as u8)) == v) by (bit_vector);
    }
    data.push(b0);
    data.push(b1);
    data.push(b2);
    data.push(b3);
}

/// Encodes a whole image as one compressed container: the header, the
/// per-block byte-size table, and one independently encoded block per
/// full-width stripe, per the outer wire format.
pub fn store_fuji_compressed(img_grid: &DataGrid<u16>, cm: &DataGrid<Color>) -> (r: Result<
    Vec<u8>,
    CodecError,
>)
    requires
        img_grid.wf(),
        img_grid.spec_size().0 as int % STRIPE_WIDTH as int == 0,
        STRIPE_WIDTH <= img_grid.spec_size().0 <= 0xFFFF,
        1 <= img_grid.spec_size().1 <= 0xFFFF,
        crate::compress::grid_samples(img_grid),
        cm.wf(),
        cm.spec_size().0 == 6,
        cm.spec_size().1 == 6,
    ensures
        r matches Ok(bytes) ==> header_shape_ok(bytes@) && ({
            let h = header_of(bytes@);
            &&& h.raw_width == img_grid.spec_size().0
            &&& h.raw_rounded_width == img_grid.spec_size().0
            &&& h.raw_height == img_grid.spec_size().1
            &&& h.block_width == STRIPE_WIDTH
            &&& h.num_blocks == img_grid.spec_size().0 as int / STRIPE_WIDTH as int
            &&& h.total_lines == img_grid.spec_size().1 as int / 6
            &&& h.raw_bits == 14
        }),
        r is Err ==> r == Err::<Vec<u8>, CodecError>(CodecError::InvariantViolation),
{
    let width = img_grid.size().0;
    let height = img_grid.size().1;
    let num_blocks = width / STRIPE_WIDTH;
    proof {
        vstd::arithmetic::div_mod::lemma_fundamental_div_mod(width as int, STRIPE_WIDTH as int);
    }
    let mut blocks: Vec<Vec<u8>> = Vec::new();
    let mut i: usize = 0;
    while i < num_blocks
        invariant
            i <= num_blocks,
            num_blocks == img_grid.spec_size().0 as int / STRIPE_WIDTH as int,
            num_blocks * STRIPE_WIDTH == img_grid.spec_size().0,
            img_grid.wf(),
            STRIPE_WIDTH <= img_grid.spec_size().0 <= 0xFFFF,
            1 <= img_grid.spec_size().1 <= 0xFFFF,
            height == img_grid.spec_size().1,
            crate::compress::grid_samples(img_grid),
            cm.wf(),
            cm.spec_size().0 == 6,
            cm.spec_size().1 == 6,
            blocks@.len() == i,
            forall|j: int| 0 <= j < i ==> (#[trigger] blocks@[j])@.len() <= u32::MAX,
        decreases num_blocks - i,
    {
        proof {
            assert((i + 1) * STRIPE_WIDTH <= num_blocks * STRIPE_WIDTH && 0 <= i * STRIPE_WIDTH
                && i * STRIPE_WIDTH + STRIPE_WIDTH == (i + 1) * STRIPE_WIDTH) by (nonlinear_arith)
                requires
                    0 <= i && i + 1 <= num_blocks && STRIPE_WIDTH >= 1,
            ;
        }
        let stripe = img_grid.subgrid(Position(i * STRIPE_WIDTH, 0), Size(STRIPE_WIDTH, height));
        proof {
            assert forall|y: int, x: int|
                0 <= y < stripe.spec_size().1 && 0 <= x < stripe.spec_size().0 implies #[trigger] stripe.cell(y, x)
                < crate::process_common::SAMPLE_LIMIT by {
                assert(stripe.cell(y, x) == img_grid.cell(y, x + i * STRIPE_WIDTH));
            }
        }
        let block = match crate::compress::compress(&stripe, cm) {
            Ok(b) => b,
            Err(e) => {
                return Err(CodecError::InvariantViolation);
            },
        };
        if block.len() > 0xFFFF_FFFFusize {
            return Err(CodecError::InvariantViolation);
        }
        blocks.push(block);
        i = i + 1;
    }
    let mut data: Vec<u8> = Vec::new();
    data.push(MAGIC_0);
    data.push(MAGIC_1);
    data.push(1);  // version
    data.push(0);  // raw type
    data.push(14);  // bits per pixel
    push_be16(&mut data, height as u16);
    push_be16(&mut data, width as u16);  // rounded width
    push_be16(&mut data, width as u16);
    push_be16(&mut data, STRIPE_WIDTH as u16);
    data.push(num_blocks as u8);
    push_be16(&mut data, (height / 6) as u16);
    let ghost hdr = data@;
    proof {
        assert(hdr.len() == HEADER_LEN);
        assert(header_shape_ok(hdr));
        assert(num_blocks <= 0xFFFFint / STRIPE_WIDTH as int) by {
            vstd::arithmetic::div_mod::lemma_div_is_ordered(
                width as int,
                0xFFFF,
                STRIPE_WIDTH as int,
            );
        }
    }
    let mut k: usize = 0;
    while k < blocks.len()
        invariant
            k <= blocks@.len(),
            forall|j: int| 0 <= j < blocks@.len() ==> (#[trigger] blocks@[j])@.len() <= u32::MAX,
            hdr.len() == HEADER_LEN <= data@.len(),
            forall|j: int| 0 <= j < HEADER_LEN ==> #[trigger] data@[j] == hdr[j],
        decreases blocks@.len() - k,
    {
        push_be32(&mut data, blocks[k].len() as u32);
        k = k + 1;
    }
    let mut k2: usize = 0;
    while k2 < blocks.len()
        invariant
            k2 <= blocks@.len(),
            hdr.len() == HEADER_LEN <= data@.len(),
            forall|j: int| 0 <= j < HEADER_LEN ==> #[trigger] data@[j] == hdr[j],
        decreases blocks@.len() - k2,
    {
        let block = &blocks[k2];
        let mut b: usize = 0;
        while b < block.len()
            invariant
                b <= block@.len(),
                hdr.len() == HEADER_LEN <= data@.len(),
                forall|j: int| 0 <= j < HEADER_LEN ==> #[trigger] data@[j] == hdr[j],
            decreases block@.len() - b,
        {
            data.push(block[b]);
            b = b + 1;
        }
        k2 = k2 + 1;
    }
    proof {
        assert(header_shape_ok(data@));
        assert(header_of(data@) == header_of(hdr));
    }
    Ok(data)
}

} // verus!

