//! Binarization of samples and their packing into the display's row format.
use vstd::prelude::*;
use vstd::arithmetic::div_mod::{lemma_fundamental_div_mod, lemma_fundamental_div_mod_converse};

verus! {

/// Samples packed into one data byte.
pub const BITS_PER_BYTE: usize = 8;

/// Data bytes in one row unit.
pub const BYTES_PER_ROW: usize = 8;

/// Samples in one row unit.
pub const SAMPLES_PER_ROW: usize = 64;

/// Bytes of one row unit on the wire: the data bytes and one pad byte.
pub const ROW_UNIT_LEN: usize = 9;

/// The value of the pad byte that closes each row unit.
pub const PAD_BYTE: u8 = 0;

/// Whether a sample is "on": above mid-scale, flipped when `invert` is set.
pub open spec fn threshold_spec(sample: u8, invert: bool) -> bool {
    (sample > 127) != invert
}

/// 1 for a set bit, 0 for a clear one.
pub open spec fn bit_value(b: bool) -> nat {
    if b {
        1
    } else {
        0
    }
}

/// The number whose bits, least significant first, are `bits`.
pub open spec fn pack_bits(bits: Seq<bool>) -> nat
    decreases bits.len(),
{
    if bits.len() == 0 {
        0
    } else {
        bit_value(bits[0]) + 2 * pack_bits(bits.drop_first())
    }
}

/// The thresholded bits of `samples`, in order.
pub open spec fn sample_bits(samples: Seq<u8>, invert: bool) -> Seq<bool> {
    samples.map_values(|s: u8| threshold_spec(s, invert))
}

/// The data byte packed from the eight samples that start at `start`.
pub open spec fn packed_at(samples: Seq<u8>, invert: bool, start: int) -> nat {
    pack_bits(sample_bits(samples.subrange(start, start + 8), invert))
}

/// The number of complete row units in a buffer of `len` samples; the samples
/// of a trailing partial row are dropped.
pub open spec fn row_count(len: nat) -> nat {
    len / 64
}

/// Byte `i` of the row units for `samples`: in each unit of nine bytes, eight
/// data bytes and then the pad byte.
pub open spec fn row_byte(samples: Seq<u8>, invert: bool, i: int) -> int {
    if i % 9 == 8 {
        PAD_BYTE as int
    } else {
        packed_at(samples, invert, (i / 9) * 64 + (i % 9) * 8) as int
    }
}

/// Thresholds one sample.
pub fn threshold(sample: u8, invert: bool) -> (r: bool)
    ensures
        r == threshold_spec(sample, invert),
{
    (sample > u8::MAX / 2) ^ invert
}

/// Packs the eight samples of `samples` that start at `start` into one byte,
/// the first sample in the least significant bit.
pub fn pack_byte(samples: &Vec<u8>, start: usize, invert: bool) -> (r: u8)
    requires
        start + 8 <= samples@.len(),
    ensures
        r as nat == packed_at(samples@, invert, start as int),
{
    let ghost bits = sample_bits(samples@.subrange(start as int, start + 8), invert);
    let n = samples.len();
    let mut acc: u32 = 0;
    let mut j: usize = BITS_PER_BYTE;
    proof {
        reveal_with_fuel(bit_weight, 9);
    }
    while j > 0
        invariant
            j <= 8,
            n == samples@.len(),
            start + 8 <= n,
            bit_weight(8) == 256,
            bits == sample_bits(samples@.subrange(start as int, start + 8), invert),
            acc as nat == pack_bits(bits.subrange(j as int, 8)),
            acc < bit_weight((8 - j) as nat),
        decreases j,
    {
        j = j - 1;
        let bit: u32 = if threshold(samples[start + j], invert) {
            1
        } else {
            0
        };
        proof {
            assert(bits.subrange(j as int, 8).drop_first() =~= bits.subrange(j + 1, 8));
            assert(bits[j as int] == threshold_spec(samples@[start + j], invert));
        }
        proof {
            lemma_bit_weight_monotonic((8 - j) as nat, 8);
        }
        acc = bit + 2 * acc;
    }
    assert(bits.subrange(0, 8) =~= bits);
    acc as u8
}

/// Weights grow with the bit position.
proof fn lemma_bit_weight_monotonic(a: nat, b: nat)
    requires
        a <= b,
    ensures
        bit_weight(a) <= bit_weight(b),
    decreases b,
{
    if a < b {
        lemma_bit_weight_monotonic(a, (b - 1) as nat);
    }
}

/// `2^n` for the weights of a byte.
pub open spec fn bit_weight(n: nat) -> nat
    decreases n,
{
    if n == 0 {
        1
    } else {
        2 * bit_weight((n - 1) as nat)
    }
}

/// Eight bits taken in emission order pack to
/// `b0 + 2 b1 + 4 b2 + 8 b3 + 16 b4 + 32 b5 + 64 b6 + 128 b7`.
pub proof fn lemma_packing_law(bits: Seq<bool>)
    requires
        bits.len() == 8,
    ensures
        pack_bits(bits) == bit_value(bits[0]) + 2 * bit_value(bits[1]) + 4 * bit_value(bits[2]) + 8
            * bit_value(bits[3]) + 16 * bit_value(bits[4]) + 32 * bit_value(bits[5]) + 64 * bit_value(
            bits[6],
        ) + 128 * bit_value(bits[7]),
{
    reveal_with_fuel(pack_bits, 9);
    let s1 = bits.drop_first();
    let s2 = s1.drop_first();
    let s3 = s2.drop_first();
    let s4 = s3.drop_first();
    let s5 = s4.drop_first();
    let s6 = s5.drop_first();
    let s7 = s6.drop_first();
    let s8 = s7.drop_first();
    assert(s8.len() == 0);
    assert(pack_bits(s7) == bit_value(bits[7]));
    assert(pack_bits(s6) == bit_value(bits[6]) + 2 * pack_bits(s7));
    assert(pack_bits(s5) == bit_value(bits[5]) + 2 * pack_bits(s6));
    assert(pack_bits(s4) == bit_value(bits[4]) + 2 * pack_bits(s5));
    assert(pack_bits(s3) == bit_value(bits[3]) + 2 * pack_bits(s4));
    assert(pack_bits(s2) == bit_value(bits[2]) + 2 * pack_bits(s3));
    assert(pack_bits(s1) == bit_value(bits[1]) + 2 * pack_bits(s2));
}

/// Packs `samples` into row units: for each complete row of 64 samples, eight
/// data bytes and then one pad byte. A trailing partial row is dropped.
pub fn pack_rows(samples: &Vec<u8>, invert: bool) -> (r: Vec<u8>)
    ensures
        r@.len() == row_count(samples@.len()) * 9,
        forall|i: int| 0 <= i < r@.len() ==> r@[i] as int == #[trigger] row_byte(samples@, invert, i),
{
    let n = samples.len();
    let rows: usize = n / SAMPLES_PER_ROW;
    let mut out: Vec<u8> = Vec::new();
    let mut row: usize = 0;
    while row < rows
        invariant
            n == samples@.len(),
            rows == row_count(samples@.len()),
            row <= rows,
            out@.len() == row * 9,
            forall|i: int| 0 <= i < out@.len() ==> out@[i] as int == #[trigger] row_byte(samples@, invert, i),
        decreases rows - row,
    {
        let mut j: usize = 0;
        while j < BYTES_PER_ROW
            invariant
                n == samples@.len(),
                rows == row_count(samples@.len()),
                row < rows,
                j <= 8,
                out@.len() == row * 9 + j,
                forall|i: int| 0 <= i < out@.len() ==> out@[i] as int == #[trigger] row_byte(samples@, invert, i),
            decreases 8 - j,
        {
            proof {
                lemma_fundamental_div_mod(n as int, 64);
                assert(row * 64 + j * 8 + 8 <= n) by (nonlinear_arith)
                    requires
                        row < rows,
                        rows == n / 64,
                        n == 64 * (n / 64) + n % 64,
                        n % 64 >= 0,
                        j < 8,
                ;
            }
            let start = row * SAMPLES_PER_ROW + j * BITS_PER_BYTE;
            let b = pack_byte(samples, start, invert);
            proof {
                lemma_fundamental_div_mod_converse(row * 9 + j, 9, row as int, j as int);
            }
            out.push(b);
            j = j + 1;
        }
        proof {
            lemma_fundamental_div_mod_converse(row * 9 + 8, 9, row as int, 8);
        }
        out.push(PAD_BYTE);
        row = row + 1;
    }
    out
}

} // verus!
