//! The outcome encoder: packing raw per-shot register words, or sampled
//! integers, into the canonical byte-packed outcome record.
//!
//! The canonical bit ordering takes the least-significant bit of each
//! register word (or of each sampled integer, least-significant bit
//! first) as the logical bit sequence, and re-packs that sequence
//! most-significant-bit-first into bytes: logical bit 0 lands in the
//! most-significant bit of byte 0. Padding bits past the declared width
//! are zero.

use vstd::arithmetic::div_mod::{
    lemma_basic_div, lemma_div_denominator, lemma_div_is_ordered,
    lemma_div_multiples_vanish_fancy, lemma_fundamental_div_mod, lemma_hoist_over_denominator,
    lemma_mod_multiples_vanish,
};
use vstd::arithmetic::mul::lemma_mul_is_commutative;
use vstd::arithmetic::power2::{
    lemma2_to64, lemma_pow2_adds, lemma_pow2_pos, lemma_pow2_strictly_increases,
    lemma_pow2_unfold, pow2,
};
use vstd::math::min;
use vstd::prelude::*;

use crate::circuit::UnitLabel;

verus! {

/// A packed outcome record: `width` classical bits per shot, and one
/// packed byte array per shot. In a well-formed record every byte array
/// has `ceil(width / 8)` bytes and the padding bits past `width` are
/// zero.
#[derive(Clone, Debug, PartialEq, Eq, PartialOrd, Ord, Hash)]
pub struct OutcomeArray {
    pub width: usize,
    pub array: Vec<Vec<u8>>,
}

/// A packed outcome together with how many shots produced it.
#[derive(Clone, Debug, PartialEq, Eq, Hash)]
pub struct Count {
    pub outcome: OutcomeArray,
    pub count: i32,
}

/// The result of running one circuit: the circuit's qubit and
/// classical-bit labels, carried through unchanged, and the packed
/// per-shot outcomes.
#[derive(Clone, Debug, PartialEq, Eq, Hash)]
pub struct BackendResult {
    pub qubits: Vec<UnitLabel>,
    pub bits: Vec<UnitLabel>,
    pub shots: OutcomeArray,
}

/// How many bytes hold `n_bits` bits: `ceil(n_bits / 8)`.
pub open spec fn byte_count(n_bits: nat) -> nat {
    (n_bits + 7) / 8
}

/// The logical bit a register word carries: its least-significant bit.
pub open spec fn word_bit(w: u64) -> bool {
    w % 2 == 1
}

/// The logical bit sequence of one per-shot register read-back: one bit
/// per machine word.
pub open spec fn shot_bits(words: Seq<u64>) -> Seq<bool> {
    Seq::new(words.len(), |i: int| word_bit(words[i]))
}

/// The 64 bits of one sampled integer, least-significant bit first.
pub open spec fn sample_bits(sample: u64) -> Seq<bool> {
    Seq::new(64, |i: int| (sample as nat / pow2(i as nat)) % 2 == 1)
}

/// The value of the byte that holds `bs` most-significant-bit first:
/// `bs[0]` has weight `2^(len-1)`, the last bit has weight 1.
pub open spec fn bits_to_byte(bs: Seq<bool>) -> nat
    decreases bs.len(),
{
    if bs.len() == 0 {
        0
    } else {
        (if bs[0] {
            pow2((bs.len() - 1) as nat)
        } else {
            0
        }) + bits_to_byte(bs.skip(1))
    }
}

/// Bits `8*j .. 8*j + 8` of a bit sequence, zero-padded past its end.
pub open spec fn chunk_bits(bits: Seq<bool>, j: int) -> Seq<bool> {
    Seq::new(8, |k: int| 8 * j + k < bits.len() && bits[8 * j + k])
}

/// The canonical packing of a logical bit sequence into bytes,
/// most-significant-bit-first within each byte, zero-padded to a byte
/// boundary.
pub open spec fn pack_bits(bits: Seq<bool>) -> Seq<u8> {
    Seq::new(byte_count(bits.len()), |j: int| bits_to_byte(chunk_bits(bits, j)) as u8)
}

/// Logical bit `i` of a packed byte sequence: bit `7 - i % 8` of byte
/// `i / 8`.
pub open spec fn packed_bit(bytes: Seq<u8>, i: int) -> bool {
    (bytes[i / 8] as nat / pow2((7 - i % 8) as nat)) % 2 == 1
}

/// The first `n` logical bits of a packed byte sequence.
pub open spec fn unpack_bits(bytes: Seq<u8>, n: nat) -> Seq<bool> {
    Seq::new(n, |i: int| packed_bit(bytes, i))
}

/// A byte assembled from `len` bits is below `2^len`.
pub proof fn lemma_bits_to_byte_bound(bs: Seq<bool>)
    ensures
        bits_to_byte(bs) < pow2(bs.len()),
    decreases bs.len(),
{
    if bs.len() == 0 {
        lemma2_to64();
    } else {
        lemma_bits_to_byte_bound(bs.skip(1));
        lemma_pow2_unfold(bs.len());
    }
}

/// Appending one bit doubles the assembled value and adds the new bit.
pub proof fn lemma_bits_to_byte_push(bs: Seq<bool>, b: bool)
    ensures
        bits_to_byte(bs.push(b)) == 2 * bits_to_byte(bs) + (if b {
            1nat
        } else {
            0nat
        }),
    decreases bs.len(),
{
    if bs.len() == 0 {
        assert(bs.push(b).skip(1) =~= Seq::<bool>::empty());
        assert(bits_to_byte(Seq::<bool>::empty()) == 0);
        assert(bs.push(b)[0] == b);
        lemma2_to64();
    } else {
        assert(bs.push(b).skip(1) =~= bs.skip(1).push(b));
        assert(bs.push(b)[0] == bs[0]);
        lemma_bits_to_byte_push(bs.skip(1), b);
        lemma_pow2_unfold(bs.len());
    }
}

/// Bit `k` (most-significant-bit first) of an assembled byte is the bit
/// it was assembled from.
pub proof fn lemma_bits_to_byte_extract(bs: Seq<bool>, k: int)
    requires
        0 <= k < bs.len(),
    ensures
        (bits_to_byte(bs) / pow2((bs.len() - 1 - k) as nat)) % 2 == (if bs[k] {
            1nat
        } else {
            0nat
        }),
    decreases k,
{
    let l1 = (bs.len() - 1) as nat;
    let rest = bits_to_byte(bs.skip(1));
    lemma_bits_to_byte_bound(bs.skip(1));
    if k == 0 {
        if bs[0] {
            lemma_div_multiples_vanish_fancy(1, rest as int, pow2(l1) as int);
            assert(pow2(l1) as int * 1 + rest as int == bits_to_byte(bs) as int);
            assert(bits_to_byte(bs) as int / pow2(l1) as int == 1);
        } else {
            lemma_basic_div(rest as int, pow2(l1) as int);
        }
    } else {
        let q = pow2((l1 - k) as nat);
        lemma_bits_to_byte_extract(bs.skip(1), k - 1);
        assert((rest as int / q as int) % 2 == (if bs[k] {
            1int
        } else {
            0int
        }));
        if bs[0] {
            lemma_pow2_adds((l1 - k) as nat, k as nat);
            assert(pow2(l1) == q * pow2(k as nat));
            lemma_mul_is_commutative(q as int, pow2(k as nat) as int);
            assert(bits_to_byte(bs) as int == rest as int + pow2(k as nat) as int * q as int);
            lemma_hoist_over_denominator(rest as int, pow2(k as nat) as int, q);
            assert(bits_to_byte(bs) as int / q as int == rest as int / q as int + pow2(
                k as nat,
            ) as int);
            lemma_pow2_unfold(k as nat);
            lemma_mod_multiples_vanish(
                pow2((k - 1) as nat) as int,
                rest as int / q as int,
                2,
            );
            assert((rest as int / q as int + 2 * pow2((k - 1) as nat)) % 2 == (rest as int
                / q as int) % 2);
        }
    }
}

/// `ceil(n / 8) * 8` covers `n` bits: splitting the byte count.
pub proof fn lemma_byte_count_cover(n: nat)
    ensures
        8 * byte_count(n) >= n,
        byte_count(n) == n / 8 + (if n % 8 > 0 {
            1nat
        } else {
            0nat
        }),
{
    lemma_fundamental_div_mod(n as int, 8);
    if n % 8 == 0 {
        lemma_div_multiples_vanish_fancy(n as int / 8, 7, 8);
        assert(8 * (n as int / 8) + 7 == n + 7);
    } else {
        lemma_div_multiples_vanish_fancy(n as int / 8 + 1, n % 8 - 1, 8);
        assert(8 * (n as int / 8 + 1) + (n % 8 - 1) == n + 7);
    }
}

/// Which logical bit each packed bit is: bit `i` of the packing of
/// `bits` is `bits[i]` below the width and zero above it.
pub proof fn lemma_packed_bit_of_pack(bits: Seq<bool>, i: int)
    requires
        0 <= i < 8 * pack_bits(bits).len(),
    ensures
        packed_bit(pack_bits(bits), i) == (i < bits.len() && bits[i]),
{
    let j = i / 8;
    let k = i % 8;
    lemma_fundamental_div_mod(i, 8);
    assert(0 <= k < 8);
    let chunk = chunk_bits(bits, j);
    assert(0 <= j < pack_bits(bits).len()) by {
        if j >= pack_bits(bits).len() {
            assert(8 * j >= 8 * pack_bits(bits).len()) by (nonlinear_arith)
                requires
                    j >= pack_bits(bits).len(),
            ;
        }
    }
    lemma_bits_to_byte_bound(chunk);
    lemma2_to64();
    assert(pack_bits(bits)[j] as nat == bits_to_byte(chunk));
    lemma_bits_to_byte_extract(chunk, k);
    assert(chunk[k] == (8 * j + k < bits.len() && bits[8 * j + k]));
}

/// Packing then logically unpacking `n` bits recovers the original bit
/// sequence.
pub proof fn lemma_pack_bits_round_trip(bits: Seq<bool>)
    ensures
        unpack_bits(pack_bits(bits), bits.len()) == bits,
{
    lemma_byte_count_cover(bits.len());
    assert forall|i: int| 0 <= i < bits.len() implies packed_bit(pack_bits(bits), i) == bits[i] by {
        lemma_packed_bit_of_pack(bits, i);
    }
    assert(unpack_bits(pack_bits(bits), bits.len()) =~= bits);
}

/// Packing a per-shot register and logically unpacking its word count
/// of bits recovers the register's bit sequence.
pub proof fn lemma_shot_round_trip(words: Seq<u64>)
    ensures
        unpack_bits(pack_bits(shot_bits(words)), words.len()) == shot_bits(words),
{
    lemma_pack_bits_round_trip(shot_bits(words));
}

/// Every padding bit past the declared width of a packing is zero.
pub proof fn lemma_pack_bits_padding_zero(bits: Seq<bool>, i: int)
    requires
        bits.len() <= i < 8 * pack_bits(bits).len(),
    ensures
        !packed_bit(pack_bits(bits), i),
{
    lemma_packed_bit_of_pack(bits, i);
}

/// Pack one per-shot register read-back into bytes: the
/// least-significant bit of each word, re-packed
/// most-significant-bit-first.
pub fn convert_shot(shot: &Vec<u64>) -> (r: Vec<u8>)
    requires
        shot@.len() + 8 <= usize::MAX,
    ensures
        r@ == pack_bits(shot_bits(shot@)),
{
    let ghost bits = shot_bits(shot@);
    let n = shot.len();
    let n_bytes = n / 8 + (if n % 8 > 0 {
        1
    } else {
        0
    });
    proof {
        lemma_byte_count_cover(n as nat);
    }
    let mut out: Vec<u8> = Vec::new();
    let mut i: usize = 0;
    let mut j: usize = 0;
    while j < n_bytes
        invariant
            n == shot@.len(),
            n + 8 <= usize::MAX,
            n_bytes == byte_count(n as nat),
            8 * n_bytes <= n + 7,
            bits == shot_bits(shot@),
            j <= n_bytes,
            i == 8 * j,
            out@.len() == j,
            forall|m: int| 0 <= m < j ==> out@[m] as nat == bits_to_byte(chunk_bits(bits, m)),
        decreases n_bytes - j,
    {
        let ghost chunk = chunk_bits(bits, j as int);
        proof {
            lemma2_to64();
            assert(chunk.take(0) =~= Seq::<bool>::empty());
            assert(bits_to_byte(Seq::<bool>::empty()) == 0);
        }
        let mut byte: u8 = 0;
        let mut k: usize = 0;
        while k < 8
            invariant
                n == shot@.len(),
                n + 8 <= usize::MAX,
                8 * n_bytes <= n + 7,
                bits == shot_bits(shot@),
                j < n_bytes,
                k <= 8,
                i == 8 * j + k,
                chunk == chunk_bits(bits, j as int),
                byte as nat == bits_to_byte(chunk.take(k as int)),
                (byte as nat) < pow2(k as nat),
            decreases 8 - k,
        {
            let b = if i < n {
                shot[i] % 2 == 1
            } else {
                false
            };
            proof {
                assert(chunk.take(k as int).push(chunk[k as int]) =~= chunk.take(k + 1 as int));
                lemma_bits_to_byte_push(chunk.take(k as int), chunk[k as int]);
                assert(chunk[k as int] == b);
                lemma2_to64();
                assert(pow2(k as nat) <= pow2(7)) by {
                    if k < 7 {
                        lemma_pow2_strictly_increases(k as nat, 7);
                    }
                }
                lemma_pow2_unfold((k + 1) as nat);
            }
            byte = byte * 2 + (if b {
                1
            } else {
                0
            });
            k += 1;
            i += 1;
        }
        proof {
            assert(chunk.take(8) =~= chunk);
        }
        out.push(byte);
        j += 1;
    }
    proof {
        assert forall|m: int| 0 <= m < n_bytes implies out@[m] == pack_bits(bits)[m] by {
            lemma_bits_to_byte_bound(chunk_bits(bits, m));
            lemma2_to64();
        }
        assert(out@ =~= pack_bits(bits));
    }
    out
}

/// Pack the shots of one per-shot run into the canonical outcome
/// record. The record's width is the first shot's word count; every
/// shot is assumed to agree, as the simulator produces them from one
/// register.
pub fn convert_shots(shots: Vec<Vec<u64>>) -> (r: OutcomeArray)
    requires
        shots@.len() > 0,
        forall|i: int| 0 <= i < shots@.len() ==> #[trigger] shots@[i]@.len() == shots@[0]@.len(),
        shots@[0]@.len() + 8 <= usize::MAX,
    ensures
        r.width == shots@[0]@.len(),
        r.array@.len() == shots@.len(),
        forall|i: int|
            0 <= i < shots@.len() ==> #[trigger] r.array@[i]@ == pack_bits(shot_bits(shots@[i]@)),
        r.is_well_formed(),
{
    let width = shots[0].len();
    let mut array: Vec<Vec<u8>> = Vec::new();
    let mut idx: usize = 0;
    while idx < shots.len()
        invariant
            shots@.len() > 0,
            forall|i: int| 0 <= i < shots@.len() ==> #[trigger] shots@[i]@.len() == shots@[0]@.len(),
            shots@[0]@.len() + 8 <= usize::MAX,
            width == shots@[0]@.len(),
            idx <= shots@.len(),
            array@.len() == idx,
            forall|i: int|
                0 <= i < idx ==> #[trigger] array@[i]@ == pack_bits(shot_bits(shots@[i]@)),
        decreases shots@.len() - idx,
    {
        let row = convert_shot(&shots[idx]);
        array.push(row);
        idx += 1;
    }
    let r = OutcomeArray { width, array };
    proof {
        assert forall|i: int| 0 <= i < r.array@.len() implies #[trigger] r.array@[i]@.len()
            == byte_count(r.width as nat) && (forall|b: int|
            r.width <= b < 8 * r.array@[i]@.len() ==> !packed_bit(r.array@[i]@, b)) by {
            let bits = shot_bits(shots@[i]@);
            assert(r.array@[i]@ == pack_bits(bits));
            assert forall|b: int| r.width <= b < 8 * r.array@[i]@.len() implies !packed_bit(
                r.array@[i]@,
                b,
            ) by {
                lemma_pack_bits_padding_zero(bits, b);
            }
        }
    }
    r
}

/// Pack one sampled integer: its 64 bits, least-significant bit first,
/// re-packed most-significant-bit-first, then truncated to `trunc`
/// bytes (extra low-order bytes are dropped).
pub fn convert_sample(trunc: usize, sample: u64) -> (r: Vec<u8>)
    ensures
        r@ == pack_bits(sample_bits(sample)).take(min(trunc as int, 8)),
{
    let ghost bits = sample_bits(sample);
    proof {
        lemma_byte_count_cover(64);
        assert(pack_bits(bits).len() == 8);
    }
    let mut out: Vec<u8> = Vec::new();
    let mut w: u64 = sample;
    proof {
        lemma2_to64();
        assert(sample as nat / pow2(0) == sample as nat);
    }
    let mut i: usize = 0;
    let mut j: usize = 0;
    while j < 8
        invariant
            bits == sample_bits(sample),
            j <= 8,
            i == 8 * j,
            w as nat == sample as nat / pow2(i as nat),
            out@.len() == j,
            forall|m: int| 0 <= m < j ==> out@[m] as nat == bits_to_byte(chunk_bits(bits, m)),
        decreases 8 - j,
    {
        let ghost chunk = chunk_bits(bits, j as int);
        proof {
            lemma2_to64();
            assert(chunk.take(0) =~= Seq::<bool>::empty());
            assert(bits_to_byte(Seq::<bool>::empty()) == 0);
        }
        let mut byte: u8 = 0;
        let mut k: usize = 0;
        while k < 8
            invariant
                bits == sample_bits(sample),
                j < 8,
                k <= 8,
                i == 8 * j + k,
                w as nat == sample as nat / pow2(i as nat),
                chunk == chunk_bits(bits, j as int),
                byte as nat == bits_to_byte(chunk.take(k as int)),
                (byte as nat) < pow2(k as nat),
            decreases 8 - k,
        {
            let b = w % 2 == 1;
            proof {
                assert(chunk.take(k as int).push(chunk[k as int]) =~= chunk.take(k + 1 as int));
                lemma_bits_to_byte_push(chunk.take(k as int), chunk[k as int]);
                assert(8 * j + k < 64);
                assert(chunk[k as int] == bits[i as int]);
                assert(chunk[k as int] == b);
                lemma2_to64();
                assert(pow2(k as nat) <= pow2(7)) by {
                    if k < 7 {
                        lemma_pow2_strictly_increases(k as nat, 7);
                    }
                }
                lemma_pow2_unfold((k + 1) as nat);
                lemma_pow2_pos(i as nat);
                lemma_div_denominator(sample as int, pow2(i as nat) as int, 2);
                lemma_pow2_unfold((i + 1) as nat);
                assert(pow2(i as nat) * 2 == pow2((i + 1) as nat));
            }
            byte = byte * 2 + (if b {
                1
            } else {
                0
            });
            w = w / 2;
            k += 1;
            i += 1;
        }
        proof {
            assert(chunk.take(8) =~= chunk);
        }
        out.push(byte);
        j += 1;
    }
    proof {
        assert forall|m: int| 0 <= m < 8 implies out@[m] == pack_bits(bits)[m] by {
            lemma_bits_to_byte_bound(chunk_bits(bits, m));
            lemma2_to64();
        }
        assert(out@ =~= pack_bits(bits));
    }
    out.truncate(trunc);
    proof {
        assert(out@ =~= pack_bits(bits).take(min(trunc as int, 8)));
    }
    out
}

/// Pack bulk-sampled integers into the canonical outcome record for the
/// declared classical-register width: each sample is truncated to
/// `ceil(width / 8)` bytes.
pub fn convert_samples(width: usize, samples: Vec<u64>) -> (r: OutcomeArray)
    ensures
        r.width == width,
        r.array@.len() == samples@.len(),
        forall|i: int|
            0 <= i < samples@.len() ==> #[trigger] r.array@[i]@ == pack_bits(
                sample_bits(samples@[i]),
            ).take(min(byte_count(width as nat) as int, 8)),
{
    let trunc = width / 8 + (if width % 8 > 0 {
        1
    } else {
        0
    });
    proof {
        lemma_byte_count_cover(width as nat);
    }
    let mut array: Vec<Vec<u8>> = Vec::new();
    let mut idx: usize = 0;
    while idx < samples.len()
        invariant
            trunc == byte_count(width as nat),
            idx <= samples@.len(),
            array@.len() == idx,
            forall|i: int|
                0 <= i < idx ==> #[trigger] array@[i]@ == pack_bits(sample_bits(samples@[i])).take(
                    min(byte_count(width as nat) as int, 8),
                ),
        decreases samples@.len() - idx,
    {
        let row = convert_sample(trunc, samples[idx]);
        array.push(row);
        idx += 1;
    }
    OutcomeArray { width, array }
}

impl OutcomeArray {
    /// Every shot's byte array has exactly `ceil(width / 8)` bytes and
    /// every padding bit past `width` is zero.
    pub open spec fn is_well_formed(&self) -> bool {
        forall|i: int|
            0 <= i < self.array@.len() ==> #[trigger] self.array@[i]@.len() == byte_count(
                self.width as nat,
            ) && (forall|b: int|
                self.width <= b < 8 * self.array@[i]@.len() ==> !packed_bit(self.array@[i]@, b))
    }
}

/// A bit of a sampled integer at or above a width the sample fits in is
/// zero.
pub proof fn lemma_sample_bit_high_zero(sample: u64, w: nat, i: int)
    requires
        (sample as nat) < pow2(w),
        w <= i < 64,
    ensures
        !sample_bits(sample)[i],
{
    if w < i {
        lemma_pow2_strictly_increases(w, i as nat);
    }
    lemma_basic_div(sample as int, pow2(i as nat) as int);
}

/// In the bulk path the packed row of a sample is well formed whenever
/// the declared width fits one sampled word and the sample is below
/// `2^width`: the row has `ceil(width / 8)` bytes and its padding bits
/// past `width` are zero.
pub proof fn lemma_bulk_row_well_formed(width: nat, sample: u64)
    requires
        width <= 64,
        (sample as nat) < pow2(width),
    ensures
        ({
            let row = pack_bits(sample_bits(sample)).take(min(byte_count(width) as int, 8));
            &&& row.len() == byte_count(width)
            &&& forall|b: int| width <= b < 8 * row.len() ==> !packed_bit(row, b)
        }),
{
    let bits = sample_bits(sample);
    lemma_byte_count_cover(64);
    lemma_byte_count_cover(width);
    assert(byte_count(width) <= 8) by {
        lemma_div_is_ordered(width as int + 7, 71, 8);
    }
    let row = pack_bits(bits).take(min(byte_count(width) as int, 8));
    assert forall|b: int| width <= b < 8 * row.len() implies !packed_bit(row, b) by {
        assert(b < 64);
        assert(row[b / 8] == pack_bits(bits)[b / 8]);
        lemma_packed_bit_of_pack(bits, b);
        lemma_sample_bit_high_zero(sample, width, b);
    }
}

} // verus!
