//! The mathematical model of bitstreams: a stream is a sequence of booleans,
//! most significant bit of each byte first.  Both the reader and the trusted
//! writer wrappers state their contracts over these functions.
use vstd::prelude::*;

verus! {

/// Bit `k` (0 = most significant) of one byte.
pub open spec fn byte_bit(b: u8, k: int) -> bool {
    (b >> ((7 - k) as u8)) & 1 == 1
}

/// The bits of a byte sequence, most significant bit of each byte first.
pub open spec fn bits_of_bytes(s: Seq<u8>) -> Seq<bool> {
    Seq::new(s.len() * 8, |i: int| byte_bit(s[i / 8], i % 8))
}

/// The value of a bit string read most-significant-bit first.
pub open spec fn bits_val(s: Seq<bool>) -> nat
    decreases s.len(),
{
    if s.len() == 0 {
        0
    } else {
        bits_val(s.drop_last()) * 2 + (if s.last() {
            1nat
        } else {
            0nat
        })
    }
}

/// The low `n` bits of `v` as a bit string, most significant of the field
/// first: exactly what a most-significant-bit-first writer emits for an
/// `n`-bit field.
pub open spec fn field_bits(v: u32, n: nat) -> Seq<bool> {
    Seq::new(n, |i: int| (v >> ((n - 1 - i) as u32)) & 1 == 1)
}

/// A run of `n` zero bits.
pub open spec fn zero_bits(n: nat) -> Seq<bool> {
    Seq::new(n, |i: int| false)
}

/// The value of one 8-bit string as a byte.
pub open spec fn byte_of_bits(s: Seq<bool>) -> u8 {
    bits_val(s) as u8
}

/// Packs a bit string into bytes, eight bits a byte, most significant first;
/// trailing bits that do not fill a byte are dropped.
pub open spec fn bytes_of_bits(s: Seq<bool>) -> Seq<u8> {
    Seq::new(s.len() / 8, |j: int| byte_of_bits(s.subrange(8 * j, 8 * j + 8)))
}

/// Two raised to a small power.
pub open spec fn pow2n(n: nat) -> nat
    decreases n,
{
    if n == 0 {
        1
    } else {
        2 * pow2n((n - 1) as nat)
    }
}

pub proof fn lemma_pow2n_31()
    ensures
        pow2n(31) == 0x8000_0000,
{
    reveal_with_fuel(pow2n, 33);
}

pub proof fn lemma_pow2n_pos(n: nat)
    ensures
        pow2n(n) >= 1,
    decreases n,
{
    if n > 0 {
        lemma_pow2n_pos((n - 1) as nat);
    }
}

/// Two raised to a small power, as a run-time value.
pub fn pow2_exec(e: usize) -> (r: u32)
    requires
        e <= 31,
    ensures
        r == pow2n(e as nat),
{
    let mut r: u32 = 1;
    let mut i: usize = 0;
    while i < e
        invariant
            i <= e,
            e <= 31,
            r == pow2n(i as nat),
        decreases e - i,
    {
        proof {
            lemma_pow2n_le(i as nat + 1, 31);
            lemma_pow2n_31();
        }
        r = r * 2;
        i = i + 1;
    }
    r
}

pub proof fn lemma_pow2n_le(a: nat, b: nat)
    requires
        a <= b,
    ensures
        pow2n(a) <= pow2n(b),
    decreases b,
{
    if a < b {
        lemma_pow2n_le(a, (b - 1) as nat);
    }
}

pub proof fn lemma_bits_val_push(s: Seq<bool>, b: bool)
    ensures
        bits_val(s.push(b)) == bits_val(s) * 2 + (if b {
            1nat
        } else {
            0nat
        }),
{
    assert(s.push(b).drop_last() =~= s);
    assert(s.push(b).last() == b);
}

/// Reading a written field back, most significant bit first, returns the
/// field's value.
pub proof fn lemma_field_bits_val(v: u32, n: nat)
    requires
        n <= 32,
        v < pow2n(n),
    ensures
        bits_val(field_bits(v, n)) == v,
    decreases n,
{
    if n == 0 {
        assert(field_bits(v, 0) =~= Seq::<bool>::empty());
    } else {
        let m = (n - 1) as nat;
        let h = v >> 1u32;
        assert forall|i: int| 0 <= i < m implies field_bits(v, n).drop_last()[i] == field_bits(
            h,
            m,
        )[i] by {
            let sh = ((m - 1 - i) as u32);
            let sh2 = ((n - 1 - i) as u32);
            assert(((v >> 1u32) >> sh) & 1 == (v >> sh2) & 1) by (bit_vector)
                requires
                    sh2 == sh + 1 && sh <= 31,
            ;
        }
        assert(field_bits(v, n).drop_last() =~= field_bits(h, m));
        assert(field_bits(v, n).last() == ((v >> 0u32) & 1 == 1));
        lemma_pow2n_pos(m);
        lemma_pow2n_le(m, 31);
        lemma_pow2n_31();
        let pm: u32 = pow2n(m) as u32;
        assert(h < pm && v == h * 2 + ((v >> 0u32) & 1) && ((v >> 0u32) & 1) < 2) by (bit_vector)
            requires
                v < 2 * pm && h == v >> 1u32 && pm >= 1,
        ;
        lemma_field_bits_val(h, m);
    }
}

/// Bit `k` of a bit string's value, counted most significant first, is
/// the bit itself.
proof fn lemma_bits_val_bit(s: Seq<bool>, k: int)
    requires
        s.len() <= 8,
        0 <= k < s.len(),
    ensures
        ((((bits_val(s) as u32) >> ((s.len() - 1 - k) as u32)) & 1) == 1) == s[k],
    decreases s.len(),
{
    lemma_bits_val_bound(s);
    reveal_with_fuel(pow2n, 10);
    assert(pow2n(8) == 256);
    lemma_pow2n_le(s.len(), 8);
    let v = bits_val(s) as u32;
    let d = bits_val(s.drop_last()) as u32;
    let b: u32 = if s.last() {
        1
    } else {
        0
    };
    lemma_bits_val_bound(s.drop_last());
    lemma_pow2n_le(s.drop_last().len(), 8);
    assert(v == d * 2 + b);
    if k == s.len() - 1 {
        assert((((v >> 0u32) & 1) == 1) == (b == 1)) by (bit_vector)
            requires
                v == d * 2 + b && b <= 1 && d < 256,
        ;
    } else {
        lemma_bits_val_bit(s.drop_last(), k);
        let sh = ((s.len() - 2 - k) as u32);
        let sh2 = ((s.len() - 1 - k) as u32);
        assert(((v >> sh2) & 1) == ((d >> sh) & 1)) by (bit_vector)
            requires
                v == d * 2 + b && b <= 1 && d < 256 && sh2 == sh + 1 && sh <= 7,
        ;
    }
}

/// Packing a byte-aligned bit string into bytes and reading the bytes
/// back, most significant bit first, returns the bit string: what a
/// finalized block's bytes hold is exactly what the writer was handed.
pub proof fn lemma_unpack_pack(w: Seq<bool>)
    requires
        w.len() % 8 == 0,
    ensures
        bits_of_bytes(bytes_of_bits(w)) == w,
{
    let bytes = bytes_of_bits(w);
    assert forall|i: int| 0 <= i < w.len() implies bits_of_bytes(bytes)[i] == w[i] by {
        let j = i / 8;
        let k = i % 8;
        vstd::arithmetic::div_mod::lemma_fundamental_div_mod(i, 8);
        let chunk = w.subrange(8 * j, 8 * j + 8);
        lemma_bits_val_bound(chunk);
        reveal_with_fuel(pow2n, 10);
        assert(pow2n(8) == 256);
        lemma_bits_val_bit(chunk, k);
        let v = bits_val(chunk) as u32;
        let b8 = bytes[j];
        assert(b8 == bits_val(chunk) as u8);
        let shu8: u8 = ((7 - k) as u8);
        let sh: u32 = shu8 as u32;
        assert((((b8 >> shu8) & 1) == 1) == (((v >> sh) & 1) == 1)) by (bit_vector)
            requires
                b8 == v as u8 && v < 256 && sh == shu8 as u32 && shu8 <= 7,
        ;
        assert(chunk[k] == w[i]);
    }
    assert(bits_of_bytes(bytes) =~= w);
}

pub proof fn lemma_bits_val_single(s: Seq<bool>, x: int)
    requires
        0 <= x < s.len(),
    ensures
        bits_val(s.subrange(x, x + 1)) == (if s[x] {
            1nat
        } else {
            0nat
        }),
{
    let sub = s.subrange(x, x + 1);
    assert(sub.last() == s[x]);
    assert(sub.drop_last() =~= Seq::<bool>::empty());
    assert(bits_val(Seq::<bool>::empty()) == 0);
}

pub proof fn lemma_bits_val_bound(s: Seq<bool>)
    ensures
        bits_val(s) < pow2n(s.len()),
    decreases s.len(),
{
    if s.len() > 0 {
        lemma_bits_val_bound(s.drop_last());
    }
}

} // verus!
