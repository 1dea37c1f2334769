//! ALAC packets of a progressive MP4: the bit reader, the scan of a
//! packet's channel elements down to where its audio body ends, and the
//! patch that writes the end tag after a body that lacks one.
use vstd::prelude::*;
use vstd::arithmetic::power2::pow2;
use vstd::wrapping::u32_specs;
use crate::error::BotError;
use crate::mp4::{
    Mp4Box, be_value, find_child_spec, find_rec_spec, read_box_spec, find_box_recursive,
    find_child_box, read_mp4_box, read_be32, custom,
};

verus! {

/// Bit `i` of the bytes, counted from the most significant bit of the
/// first byte.
pub open spec fn bit_at(b: Seq<u8>, i: int) -> u8 {
    (b[i / 8] >> ((7 - i % 8) as u8)) & 1u8
}

/// The number of bits in the bytes.
pub open spec fn total_bits(b: Seq<u8>) -> int {
    (b.len() * 8) as int
}

/// The `n` bits from `pos` read as an unsigned number, first bit most
/// significant.
pub open spec fn bits_val(b: Seq<u8>, pos: int, n: nat) -> nat
    decreases n,
{
    if n == 0 {
        0
    } else {
        bits_val(b, pos, (n - 1) as nat) * 2 + bit_at(b, pos + n - 1) as nat
    }
}

/// Reading `n` bits at `pos`: nothing when they run past the end, else
/// their value and the position after them.
pub open spec fn read_spec(b: Seq<u8>, pos: int, n: nat) -> Option<(nat, int)> {
    if pos + n > total_bits(b) {
        None
    } else {
        Some((bits_val(b, pos, n), pos + n))
    }
}

pub proof fn lemma_bit_le_one(b: Seq<u8>, i: int)
    ensures
        bit_at(b, i) <= 1,
{
    let x = b[i / 8];
    let s = ((7 - i % 8) as u8);
    assert((x >> s) & 1u8 <= 1u8) by (bit_vector);
}

pub proof fn lemma_bits_val_bound(b: Seq<u8>, pos: int, n: nat)
    ensures
        bits_val(b, pos, n) < pow2(n),
    decreases n,
{
    if n > 0 {
        lemma_bits_val_bound(b, pos, (n - 1) as nat);
        lemma_bit_le_one(b, pos + n - 1);
        vstd::arithmetic::power2::lemma_pow2_unfold(n);
    } else {
        vstd::arithmetic::power2::lemma2_to64();
    }
}

/// A reader of the bits of a packet, most significant bit first.
pub struct AlacBitReader<'a> {
    pub buf: &'a [u8],
    pub pos: usize,
}

impl<'a> AlacBitReader<'a> {
    /// The reader's position lies within the bits of its bytes, whose count
    /// fits a `usize`.
    pub open spec fn wf(&self) -> bool {
        &&& total_bits(self.buf@) <= usize::MAX
        &&& self.pos <= total_bits(self.buf@)
    }

    pub fn new(buf: &'a [u8]) -> (r: Self)
        requires
            total_bits(buf@) <= usize::MAX,
        ensures
            r.wf(),
            r.buf@ == buf@,
            r.pos == 0,
    {
        AlacBitReader { buf, pos: 0 }
    }

    /// The bits not read yet.
    pub fn left(&self) -> (r: usize)
        requires
            self.wf(),
        ensures
            r == total_bits(self.buf@) - self.pos,
    {
        self.buf.len() * 8 - self.pos
    }

    fn bit(&self, i: usize) -> (r: u32)
        requires
            self.wf(),
            i < total_bits(self.buf@),
        ensures
            r == bit_at(self.buf@, i as int),
    {
        let byte = self.buf[i / 8];
        let shift: u8 = (7 - i % 8) as u8;
        ((byte >> shift) & 1u8) as u32
    }

    /// `n` bits, at most 32, as a number; nothing, and the position kept,
    /// when they run past the end.
    pub fn read(&mut self, n: usize) -> (r: Option<u32>)
        requires
            old(self).wf(),
            n <= 32,
        ensures
            final(self).wf(),
            final(self).buf@ == old(self).buf@,
            match read_spec(old(self).buf@, old(self).pos as int, n as nat) {
                None => r is None && final(self).pos == old(self).pos,
                Some((v, p)) => r == Some(v as u32) && final(self).pos == p && v < pow2(n as nat)
                    && v <= u32::MAX,
            },
    {
        proof {
            lemma_bits_val_bound(old(self).buf@, old(self).pos as int, n as nat);
            if n < 32 {
                vstd::arithmetic::power2::lemma_pow2_strictly_increases(n as nat, 32);
            }
            vstd::arithmetic::power2::lemma2_to64();
        }
        if n > self.buf.len() * 8 - self.pos {
            return None;
        }
        let start = self.pos;
        let mut value: u32 = 0;
        let mut k: usize = 0;
        while k < n
            invariant
                self.wf(),
                self.buf@ == old(self).buf@,
                start == old(self).pos,
                k <= n <= 32,
                start + n <= total_bits(self.buf@),
                self.pos == start + k,
                value == bits_val(self.buf@, start as int, k as nat),
            decreases n - k,
        {
            proof {
                lemma_bits_val_bound(self.buf@, start as int, k as nat);
                vstd::arithmetic::power2::lemma_pow2_strictly_increases(k as nat, 32);
                vstd::arithmetic::power2::lemma2_to64();
                lemma_bit_le_one(self.buf@, start + k);
            }
            let bit = self.bit(self.pos);
            value = value * 2 + bit;
            self.pos = self.pos + 1;
            k = k + 1;
        }
        Some(value)
    }

    /// `n` bits, at most 32, without moving on.
    pub fn show(&mut self, n: usize) -> (r: Option<u32>)
        requires
            old(self).wf(),
            n <= 32,
        ensures
            final(self).wf(),
            final(self).buf@ == old(self).buf@,
            final(self).pos == old(self).pos,
            match read_spec(old(self).buf@, old(self).pos as int, n as nat) {
                None => r is None,
                Some((v, p)) => r == Some(v as u32) && v < pow2(n as nat) && v <= u32::MAX,
            },
    {
        let save = self.pos;
        let value = self.read(n);
        self.pos = save;
        value
    }

    /// Moves on `n` bits when there are that many left; `false`, and the
    /// position kept, when there are not.
    pub fn skip(&mut self, n: usize) -> (r: bool)
        requires
            old(self).wf(),
        ensures
            final(self).wf(),
            final(self).buf@ == old(self).buf@,
            r == (old(self).pos + n <= total_bits(old(self).buf@)),
            final(self).pos == if r {
                old(self).pos + n
            } else {
                old(self).pos as int
            },
    {
        if n > self.buf.len() * 8 - self.pos {
            return false;
        }
        self.pos = self.pos + n;
        true
    }

    /// `n` bits, 1 to 32, read as a two's complement number.
    pub fn read_signed(&mut self, n: usize) -> (r: Option<i32>)
        requires
            old(self).wf(),
            1 <= n <= 32,
        ensures
            final(self).wf(),
            final(self).buf@ == old(self).buf@,
            match read_spec(old(self).buf@, old(self).pos as int, n as nat) {
                None => r is None && final(self).pos == old(self).pos,
                Some((v, p)) => final(self).pos == p && r == Some(
                    (if v >= pow2((n - 1) as nat) {
                        v - pow2(n as nat)
                    } else {
                        v as int
                    }) as i32,
                ),
            },
    {
        let value = match self.read(n) {
            Some(v) => v,
            None => return None,
        };
        proof {
            lemma_bits_val_bound(old(self).buf@, old(self).pos as int, n as nat);
            vstd::arithmetic::power2::lemma_pow2_unfold(n as nat);
            if n < 32 {
                vstd::arithmetic::power2::lemma_pow2_strictly_increases(n as nat, 32);
            }
            vstd::arithmetic::power2::lemma2_to64();
        }
        let half: u64 = pow2_u64(n - 1);
        let full: u64 = pow2_u64(n);
        if value as u64 >= half {
            Some((value as u64 as i64 - full as i64) as i32)
        } else {
            Some(value as i32)
        }
    }

    /// The count of one bits before a zero, up to nine; the zero is read
    /// too. Nothing when the bits end first.
    pub fn unary09(&mut self) -> (r: Option<u32>)
        requires
            old(self).wf(),
        ensures
            final(self).wf(),
            final(self).buf@ == old(self).buf@,
            match unary_spec(old(self).buf@, old(self).pos as int, 0) {
                None => r is None,
                Some((v, p)) => r == Some(v as u32) && final(self).pos == p,
            },
    {
        let mut count: u32 = 0;
        while count < 9
            invariant
                self.wf(),
                self.buf@ == old(self).buf@,
                count <= 9,
                unary_spec(self.buf@, self.pos as int, count as nat) == unary_spec(
                    old(self).buf@,
                    old(self).pos as int,
                    0,
                ),
            decreases 9 - count,
        {
            let b = match self.read(1) {
                Some(b) => b,
                None => return None,
            };
            proof {
                reveal_with_fuel(bits_val, 2);
            }
            if b == 0 {
                return Some(count);
            }
            count = count + 1;
        }
        Some(9)
    }
}

/// The ones before a zero, from `count` on and up to nine, and the
/// position after the zero (or after the ninth one).
pub open spec fn unary_spec(b: Seq<u8>, pos: int, count: nat) -> Option<(nat, int)>
    decreases 9 - count,
{
    if count >= 9 {
        Some((9, pos))
    } else if pos + 1 > total_bits(b) {
        None
    } else if bit_at(b, pos) == 0 {
        Some((count, pos + 1))
    } else {
        unary_spec(b, pos + 1, count + 1)
    }
}

/// `2^n` for `n` up to 32.
fn pow2_u64(n: usize) -> (r: u64)
    requires
        n <= 32,
    ensures
        r == pow2(n as nat),
{
    let mut r: u64 = 1;
    let mut k: usize = 0;
    proof {
        vstd::arithmetic::power2::lemma2_to64();
    }
    while k < n
        invariant
            k <= n <= 32,
            r == pow2(k as nat),
        decreases n - k,
    {
        proof {
            vstd::arithmetic::power2::lemma_pow2_unfold((k + 1) as nat);
            vstd::arithmetic::power2::lemma_pow2_strictly_increases(k as nat, 32);
            vstd::arithmetic::power2::lemma2_to64();
        }
        r = r * 2;
        k = k + 1;
    }
    proof {
        vstd::arithmetic::power2::lemma2_to64();
    }
    r
}


/// The stream parameters from a track's ALAC configuration box.
#[derive(Clone, Copy, Debug, PartialEq, Eq)]
pub struct AlacParams {
    pub max_samples_per_frame: u32,
    pub sample_size: u8,
    pub rice_history_mult: u8,
    pub rice_initial_history: u8,
    pub rice_limit: u8,
    pub channels: u8,
}

/// The floor of the base-2 logarithm, 0 for 0 and 1.
pub open spec fn log2_floor(v: nat) -> nat
    decreases v,
{
    if v > 1 {
        1 + log2_floor(v / 2)
    } else {
        0
    }
}

pub proof fn lemma_log2_below(v: nat, n: nat)
    requires
        n >= 1,
        v < pow2(n),
    ensures
        log2_floor(v) < n,
    decreases v,
{
    if v > 1 {
        vstd::arithmetic::power2::lemma_pow2_unfold(n);
        if n == 1 {
            vstd::arithmetic::power2::lemma2_to64();
        } else {
            lemma_log2_below(v / 2, (n - 1) as nat);
        }
    }
}

pub fn alac_log2(value: u32) -> (r: usize)
    ensures
        r == log2_floor(value as nat),
{
    let mut v = value;
    let mut result: usize = 0;
    proof {
        vstd::arithmetic::power2::lemma2_to64();
    }
    while v > 1
        invariant
            result + log2_floor(v as nat) == log2_floor(value as nat),
            result <= 32,
            v < pow2((32 - result) as nat),
        decreases v,
    {
        proof {
            vstd::arithmetic::power2::lemma2_to64();
            if result == 0 {
                assert(v < pow2(32));
            }
            vstd::arithmetic::power2::lemma_pow2_unfold((32 - result) as nat);
            if 32 - result <= 1 {
                assert(pow2(1) == 2);
                assert(pow2(0) == 1);
            }
        }
        v = v / 2;
        result = result + 1;
    }
    result
}

/// One Rice-coded value with parameter `k`: a unary prefix; past eight
/// ones the value is the next `bps` bits; else `k` more bits refine it.
/// With `k` zero (a Rice limit of zero) nothing is read past the prefix:
/// the step back of one bit that would follow cannot be taken.
pub open spec fn scalar_spec(b: Seq<u8>, pos: int, k: nat, bps: nat) -> Option<(nat, int)> {
    match unary_spec(b, pos, 0) {
        None => None,
        Some((x, p)) => if x > 8 {
            read_spec(b, p, bps)
        } else if k == 0 {
            None
        } else if k != 1 {
            match read_spec(b, p, k) {
                None => None,
                Some((extra, _)) => if extra > 1 {
                    Some(((x * pow2(k) - x + extra - 1) as nat, p + k))
                } else {
                    Some(((x * pow2(k) - x) as nat, p + k - 1))
                },
            }
        } else {
            Some((x, p))
        },
    }
}

proof fn lemma_unary_bound(b: Seq<u8>, pos: int, count: nat)
    requires
        count <= 9,
    ensures
        unary_spec(b, pos, count) matches Some((v, p)) ==> v <= 9 && pos < p <= pos + 9 - count
            || (count == 9 && v == 9 && p == pos),
    decreases 9 - count,
{
    if count < 9 && pos + 1 <= total_bits(b) && bit_at(b, pos) != 0 {
        lemma_unary_bound(b, pos + 1, count + 1);
    }
}

pub fn alac_decode_scalar(reader: &mut AlacBitReader<'_>, k: usize, bps: usize) -> (r: Option<u32>)
    requires
        old(reader).wf(),
        k <= 23,
        1 <= bps <= 32,
    ensures
        final(reader).wf(),
        final(reader).buf@ == old(reader).buf@,
        match scalar_spec(old(reader).buf@, old(reader).pos as int, k as nat, bps as nat) {
            None => r is None,
            Some((v, p)) => r == Some(v as u32) && final(reader).pos == p && v <= u32::MAX,
        },
{
    proof {
        lemma_unary_bound(old(reader).buf@, old(reader).pos as int, 0);
    }
    let mut x = match reader.unary09() {
        Some(x) => x,
        None => return None,
    };
    if x > 8 {
        proof {
            lemma_bits_val_bound(reader.buf@, reader.pos as int, bps as nat);
            if bps < 32 {
                vstd::arithmetic::power2::lemma_pow2_strictly_increases(bps as nat, 32);
            }
            vstd::arithmetic::power2::lemma2_to64();
        }
        return reader.read(bps);
    }
    if k == 0 {
        return None;
    }
    if k != 1 {
        let extra_bits = match reader.show(k) {
            Some(e) => e,
            None => return None,
        };
        proof {
            lemma_bits_val_bound(reader.buf@, reader.pos as int, k as nat);
            vstd::arithmetic::power2::lemma_pow2_strictly_increases(k as nat, 24);
            vstd::arithmetic::power2::lemma2_to64();
            assert(x * pow2(k as nat) <= 8 * pow2(k as nat)) by (nonlinear_arith)
                requires
                    x <= 8,
            ;
        }
        let m64 = pow2_u64(k);
        let m = m64 as u32;
        assert(x * m <= 8 * 0x100_0000);
        assert(x * m >= x) by (nonlinear_arith)
            requires
                m >= 1,
        ;
        x = x * m - x;
        if extra_bits > 1 {
            x = x + extra_bits - 1;
            let _ = reader.skip(k);
        } else {
            let _ = reader.skip(k - 1);
        }
    }
    proof {
        vstd::arithmetic::power2::lemma2_to64();
    }
    Some(x)
}


/// The adaptive history after a value `x`: history + x·m − (history·m / 512),
/// in unsigned 32-bit arithmetic that wraps, as in the reference decoder.
pub open spec fn next_history(h: u32, x: u32, m: u32) -> u32 {
    u32_specs::wrapping_sub(
        u32_specs::wrapping_add(h, (x * m) as u32),
        u32_specs::wrapping_mul(h, m) / 512,
    )
}

/// The smaller of two numbers.
pub open spec fn min_nat(a: nat, b: nat) -> nat {
    if a <= b {
        a
    } else {
        b
    }
}

/// The Rice parameter for a value: from the history, capped by the limit.
pub open spec fn rice_k(h: u32, limit: nat) -> nat {
    min_nat(log2_floor((h / 512 + 3) as nat), limit)
}

/// The Rice parameter for the length of a run of zeros after a small
/// history.
pub open spec fn zero_run_k(h: u32, limit: nat) -> nat {
    min_nat((7 - log2_floor(h as nat) + (h + 16) / 64) as nat, limit)
}

/// One step of the Rice decoder at sample `i`: the position after it, the
/// next sample index, history and sign carry. A history that falls under
/// 128 is followed by the length of a run of zero samples, which are
/// skipped.
pub open spec fn rice_step(
    b: Seq<u8>,
    pos: int,
    i: nat,
    history: u32,
    sign_mod: u32,
    nb: nat,
    bps: nat,
    m: u32,
    limit: nat,
) -> Option<(int, nat, u32, u32)> {
    match scalar_spec(b, pos, rice_k(history, limit), bps) {
        None => None,
        Some((x0, p1)) => {
            let x1 = u32_specs::wrapping_add(x0 as u32, sign_mod);
            let x: u32 = if x1 > 0xffff {
                0xffff
            } else {
                x1
            };
            let h1 = next_history(history, x, m);
            if h1 < 128 && i + 1 < nb {
                match scalar_spec(b, p1, zero_run_k(h1, limit), 16) {
                    None => None,
                    Some((block, p2)) => {
                        let skip: nat = if block > 0 {
                            min_nat(block, (nb - i - 1) as nat)
                        } else {
                            0
                        };
                        let sm: u32 = if block <= 0xffff {
                            1
                        } else {
                            0
                        };
                        Some((p2, i + skip + 1, 0u32, sm))
                    },
                }
            } else {
                Some((p1, i + 1, h1, 0u32))
            }
        },
    }
}

/// The position after `nb` Rice-coded samples of one channel, from sample
/// `i` on with the given history, sign carry and iteration count; nothing
/// when the bits end, a value does not decode, or the iterations run past
/// four per sample and a hundred.
pub open spec fn rice_from(
    b: Seq<u8>,
    pos: int,
    i: nat,
    history: u32,
    sign_mod: u32,
    iters: nat,
    nb: nat,
    bps: nat,
    m: u32,
    limit: nat,
) -> Option<int>
    decreases nb * 4 + 101 - iters,
{
    if i >= nb {
        Some(pos)
    } else if iters + 1 > nb * 4 + 100 || pos >= total_bits(b) {
        None
    } else {
        match rice_step(b, pos, i, history, sign_mod, nb, bps, m, limit) {
            None => None,
            Some((p, i2, h, sm)) => rice_from(b, p, i2, h, sm, iters + 1, nb, bps, m, limit),
        }
    }
}

/// The position after the Rice-coded samples of one channel, decoded from
/// the configured initial history.
#[verifier::opaque]
pub open spec fn rice_spec(b: Seq<u8>, pos: int, nb: nat, bps: nat, m: u32, p: AlacParams) -> Option<
    int,
> {
    rice_from(b, pos, 0, p.rice_initial_history as u32, 0, 0, nb, bps, m, p.rice_limit as nat)
}

proof fn lemma_rice_k_bound(h: u32, limit: nat)
    ensures
        rice_k(h, limit) <= 23,
        limit >= 1 ==> 1 <= rice_k(h, limit),
{
    vstd::arithmetic::power2::lemma2_to64();
    lemma_log2_below((h / 512 + 3) as nat, 24);
    reveal_with_fuel(log2_floor, 2);
    assert(log2_floor((h / 512 + 3) as nat) >= 1) by {
        assert((h / 512 + 3) as nat / 2 >= 1);
    }
}

proof fn lemma_zero_run_k_bound(h: u32, limit: nat)
    requires
        h < 128,
    ensures
        zero_run_k(h, limit) <= 9,
        limit >= 1 ==> 1 <= zero_run_k(h, limit),
        log2_floor(h as nat) <= 6,
{
    vstd::arithmetic::power2::lemma2_to64();
    if h >= 1 {
        lemma_log2_below(h as nat, 7);
    } else {
        assert(log2_floor(h as nat) == 0);
    }
}

fn rice_step_exec(
    reader: &mut AlacBitReader<'_>,
    i: usize,
    history: u32,
    sign_mod: u32,
    nb_samples: usize,
    bps: usize,
    rhm_eff: u32,
    limit: usize,
) -> (r: Option<(usize, u32, u32)>)
    requires
        old(reader).wf(),
        1 <= bps <= 32,
        rhm_eff <= 446,
        i < nb_samples,
    ensures
        final(reader).wf(),
        final(reader).buf@ == old(reader).buf@,
        match rice_step(
            old(reader).buf@,
            old(reader).pos as int,
            i as nat,
            history,
            sign_mod,
            nb_samples as nat,
            bps as nat,
            rhm_eff,
            limit as nat,
        ) {
            None => r is None,
            Some((p, i2, h, sm)) => r == Some((i2 as usize, h, sm)) && final(reader).pos == p
                && i2 <= nb_samples && sm <= 1,
        },
{
    let k0 = alac_log2(history / 512 + 3);
    proof {
        lemma_rice_k_bound(history, limit as nat);
    }
    let k = if k0 > limit {
        limit
    } else {
        k0
    };
    let x0 = match alac_decode_scalar(reader, k, bps) {
        Some(v) => v,
        None => return None,
    };
    let ghost p1 = reader.pos as int;
    assert(rice_k(history, limit as nat) == k as nat);
    assert(scalar_spec(old(reader).buf@, old(reader).pos as int, k as nat, bps as nat) == Some((x0 as nat, p1)));
    let mut x = x0.wrapping_add(sign_mod);
    if x > 0xffff {
        x = 0xffff;
    }
    assert(x * rhm_eff <= 0xffff * 446) by (nonlinear_arith)
        requires
            x <= 0xffff,
            rhm_eff <= 446,
    ;
    let h1 = history.wrapping_add(x * rhm_eff).wrapping_sub(history.wrapping_mul(rhm_eff) / 512);
    assert(h1 == next_history(history, x, rhm_eff));
    if h1 < 128 && i + 1 < nb_samples {
        proof {
            lemma_zero_run_k_bound(h1, limit as nat);
        }
        let lg = alac_log2(h1);
        let k20: usize = (7 - lg) + ((h1 + 16) / 64) as usize;
        let k2 = if k20 > limit {
            limit
        } else {
            k20
        };
        let block_size = match alac_decode_scalar(reader, k2, 16) {
            Some(v) => v,
            None => return None,
        };
        let mut next = i;
        if block_size > 0 {
            let room = nb_samples - i - 1;
            let step: usize = if (block_size as usize) < room {
                block_size as usize
            } else {
                room
            };
            next = i + step;
        }
        let mut sm: u32 = 0;
        if block_size <= 0xffff {
            sm = 1;
        }
        Some((next + 1, 0, sm))
    } else {
        Some((i + 1, h1, 0))
    }
}

pub fn alac_rice_decompress(
    reader: &mut AlacBitReader<'_>,
    nb_samples: usize,
    bps: usize,
    rhm_eff: u32,
    params: &AlacParams,
) -> (r: Option<()>)
    requires
        old(reader).wf(),
        1 <= bps <= 32,
        rhm_eff <= 446,
        nb_samples <= u32::MAX,
    ensures
        final(reader).wf(),
        final(reader).buf@ == old(reader).buf@,
        match rice_spec(
            old(reader).buf@,
            old(reader).pos as int,
            nb_samples as nat,
            bps as nat,
            rhm_eff,
            *params,
        ) {
            None => r is None,
            Some(p) => r is Some && final(reader).pos == p,
        },
{
    proof {
        reveal(rice_spec);
    }
    let mut history: u32 = params.rice_initial_history as u32;
    let mut sign_mod: u32 = 0;
    let limit: usize = params.rice_limit as usize;
    let mut i: usize = 0;
    let mut iters: u64 = 0;
    let cap: u64 = nb_samples as u64 * 4 + 100;
    while i < nb_samples
        invariant
            reader.wf(),
            reader.buf@ == old(reader).buf@,
            1 <= bps <= 32,
            rhm_eff <= 446,
            limit == params.rice_limit as nat,
            nb_samples <= u32::MAX,
            cap == nb_samples * 4 + 100,
            iters <= cap,
            i <= nb_samples,
            rice_from(
                reader.buf@,
                reader.pos as int,
                i as nat,
                history,
                sign_mod,
                iters as nat,
                nb_samples as nat,
                bps as nat,
                rhm_eff,
                limit as nat,
            ) == rice_spec(
                old(reader).buf@,
                old(reader).pos as int,
                nb_samples as nat,
                bps as nat,
                rhm_eff,
                *params,
            ),
        decreases cap - iters,
    {
        iters = iters + 1;
        if iters > cap || reader.left() == 0 {
            return None;
        }
        match rice_step_exec(reader, i, history, sign_mod, nb_samples, bps, rhm_eff, limit) {
            None => return None,
            Some((i2, h, sm)) => {
                i = i2;
                history = h;
                sign_mod = sm;
            },
        }
    }
    Some(())
}

/// The headers of `n` channels of a compressed element from `pos`: each
/// has a mode (4 bits), a prediction shift (4), a Rice history modifier (3)
/// and a predictor order (5), then that many 16-bit coefficients. Gives the
/// modifiers in order and the position after the last header; nothing when
/// the bits end, the order reaches the frame length or the shift is zero.
pub open spec fn chan_headers(b: Seq<u8>, pos: int, n: nat, max_spf: nat) -> Option<
    (Seq<u32>, int),
>
    decreases n,
{
    if n == 0 {
        Some((Seq::empty(), pos))
    } else if pos + 16 > total_bits(b) {
        None
    } else {
        let quant = bits_val(b, pos + 4, 4);
        let rhm = bits_val(b, pos + 8, 3);
        let order = bits_val(b, pos + 11, 5);
        if order >= max_spf || quant == 0 {
            None
        } else if pos + 16 + 16 * order > total_bits(b) {
            None
        } else {
            match chan_headers(b, pos + 16 + 16 * order, (n - 1) as nat, max_spf) {
                None => None,
                Some((rest, p)) => Some((seq![rhm as u32] + rest, p)),
            }
        }
    }
}

/// The Rice-coded samples of each channel in turn, each with its history
/// modifier scaled by the configured multiplier.
pub open spec fn rice_all(b: Seq<u8>, pos: int, rhms: Seq<u32>, out: nat, bps: nat, p: AlacParams) -> Option<
    int,
>
    decreases rhms.len(),
{
    if rhms.len() == 0 {
        Some(pos)
    } else {
        let m = (rhms[0] * p.rice_history_mult / 4) as u32;
        match rice_spec(b, pos, out, bps, m, p) {
            None => None,
            Some(q) => rice_all(b, q, rhms.drop_first(), out, bps, p),
        }
    }
}

/// The header of an audio element of `ch` channels, from just after its
/// tag: 16 bits of element instance and unused bits, a size flag, the count
/// of uncompressed low bytes, a flag that is 1 for uncompressed audio, and
/// the sample count when the size flag is set. Gives the low bits per
/// sample, the bits per coded sample (1 to 32), whether the audio is
/// compressed, the sample count (1 to the frame length) and the position
/// after the header.
pub open spec fn header_spec(b: Seq<u8>, pos: int, ch: nat, p: AlacParams) -> Option<
    (nat, nat, bool, nat, int),
> {
    let t = total_bits(b);
    if pos + 20 > t {
        None
    } else {
        let has_size = bits_val(b, pos + 16, 1);
        let extra_bits = bits_val(b, pos + 17, 2) * 8;
        let bps = p.sample_size - extra_bits + ch - 1;
        if bps < 1 || bps > 32 {
            None
        } else {
            let compressed = bits_val(b, pos + 19, 1) == 0;
            let q = if has_size != 0 {
                pos + 52
            } else {
                pos + 20
            };
            let out: nat = if has_size != 0 {
                bits_val(b, pos + 20, 32)
            } else {
                p.max_samples_per_frame as nat
            };
            if q > t {
                None
            } else if out == 0 || out > p.max_samples_per_frame {
                None
            } else {
                Some((extra_bits, bps as nat, compressed, out, q))
            }
        }
    }
}

/// The audio of an element after its header: for compressed audio 16 bits
/// of mixing parameters, the channel headers, the uncompressed low bits of
/// every sample, then each channel's Rice-coded samples; else every sample
/// at full size. Gives the position after it.
pub open spec fn body_spec(
    b: Seq<u8>,
    q: int,
    ch: nat,
    extra_bits: nat,
    bps: nat,
    compressed: bool,
    out: nat,
    p: AlacParams,
) -> Option<int> {
    let t = total_bits(b);
    if compressed {
        if q + 16 > t {
            None
        } else {
            match chan_headers(b, q + 16, ch, p.max_samples_per_frame as nat) {
                None => None,
                Some((rhms, q2)) => {
                    let q3 = q2 + out * ch * extra_bits;
                    if q3 > t {
                        None
                    } else {
                        rice_all(b, q3, rhms, out, bps, p)
                    }
                },
            }
        }
    } else {
        let q2 = q + out * ch * p.sample_size;
        if q2 > t {
            None
        } else {
            Some(q2)
        }
    }
}

/// One element of a packet from `pos`: its channel count, whether it is the
/// end tag, and the position after it. Single-channel (0) and
/// channel-pair (1) elements carry audio, tag 7 ends the packet, any other
/// tag does not scan.
pub open spec fn scan_spec(b: Seq<u8>, pos: int, p: AlacParams) -> Option<(nat, bool, int)> {
    if pos + 3 > total_bits(b) {
        None
    } else {
        let elem = bits_val(b, pos, 3);
        if elem == 7 {
            Some((0, true, pos + 3))
        } else if elem > 1 && elem != 3 {
            None
        } else {
            let ch: nat = if elem == 1 {
                2
            } else {
                1
            };
            match header_spec(b, pos + 3, ch, p) {
                None => None,
                Some((eb, bps, compressed, out, q)) => match body_spec(
                    b,
                    q,
                    ch,
                    eb,
                    bps,
                    compressed,
                    out,
                    p,
                ) {
                    None => None,
                    Some(q4) => Some((ch, false, q4)),
                },
            }
        }
    }
}

/// Moves on `n` bits, a count that may not fit a `usize`, when there are
/// that many left.
fn skip_wide(reader: &mut AlacBitReader<'_>, n: u64) -> (r: bool)
    requires
        old(reader).wf(),
    ensures
        final(reader).wf(),
        final(reader).buf@ == old(reader).buf@,
        r == (old(reader).pos + n <= total_bits(old(reader).buf@)),
        r ==> final(reader).pos == old(reader).pos + n,
{
    let left = reader.left();
    if n > left as u64 {
        return false;
    }
    reader.skip(n as usize)
}

proof fn lemma_bits_split(b: Seq<u8>, pos: int, n: nat, m: nat)
    ensures
        bits_val(b, pos, n + m) == bits_val(b, pos, n) * pow2(m) + bits_val(b, pos + n, m),
    decreases m,
{
    if m == 0 {
        vstd::arithmetic::power2::lemma2_to64();
    } else {
        lemma_bits_split(b, pos, n, (m - 1) as nat);
        vstd::arithmetic::power2::lemma_pow2_unfold(m);
        assert(bits_val(b, pos, n) * pow2(m) == bits_val(b, pos, n) * pow2((m - 1) as nat) * 2)
            by (nonlinear_arith)
            requires
                pow2(m) == 2 * pow2((m - 1) as nat),
        ;
    }
}

fn channel_headers(
    reader: &mut AlacBitReader<'_>,
    channels: usize,
    max_spf: u32,
) -> (r: Option<Vec<u32>>)
    requires
        old(reader).wf(),
    ensures
        final(reader).wf(),
        final(reader).buf@ == old(reader).buf@,
        match chan_headers(old(reader).buf@, old(reader).pos as int, channels as nat, max_spf as nat) {
            None => r is None,
            Some((rhms, p)) => r matches Some(v) && v@ == rhms && final(reader).pos == p,
        },
{
    let mut rhms: Vec<u32> = Vec::new();
    let mut c: usize = 0;
    while c < channels
        invariant
            reader.wf(),
            reader.buf@ == old(reader).buf@,
            c <= channels,
            chan_headers(old(reader).buf@, old(reader).pos as int, channels as nat, max_spf as nat)
                == match chan_headers(
                reader.buf@,
                reader.pos as int,
                (channels - c) as nat,
                max_spf as nat,
            ) {
                None => None,
                Some((rest, p)) => Some((rhms@ + rest, p)),
            },
        decreases channels - c,
    {
        let ghost p0 = reader.pos as int;
        let ghost b = reader.buf@;
        let ghost n = (channels - c) as nat;
        if reader.left() < 16 {
            return None;
        }
        let _mode = reader.read(4);
        let lpc_quant = match reader.read(4) {
            Some(v) => v,
            None => return None,
        };
        let rhm = match reader.read(3) {
            Some(v) => v,
            None => return None,
        };
        let lpc_order = match reader.read(5) {
            Some(v) => v,
            None => return None,
        };
        assert(lpc_quant == bits_val(b, p0 + 4, 4));
        assert(rhm == bits_val(b, p0 + 8, 3));
        assert(lpc_order == bits_val(b, p0 + 11, 5));
        if lpc_order >= max_spf || lpc_quant == 0 {
            assert(chan_headers(b, p0, n, max_spf as nat) is None);
            return None;
        }
        let mut j: u32 = 0;
        while j < lpc_order
            invariant
                reader.wf(),
                reader.buf@ == b,
                b == old(reader).buf@,
                j <= lpc_order,
                reader.pos == p0 + 16 + 16 * j,
                n > 0,
                p0 + 16 <= total_bits(b),
                lpc_order == bits_val(b, p0 + 11, 5),
                (p0 + 16 + 16 * lpc_order > total_bits(b)) ==> chan_headers(b, p0, n, max_spf as nat) is None,
                chan_headers(old(reader).buf@, old(reader).pos as int, channels as nat, max_spf as nat)
                    == match chan_headers(b, p0, n, max_spf as nat) {
                    None => None,
                    Some((rest, p)) => Some((rhms@ + rest, p)),
                },
            decreases lpc_order - j,
        {
            match reader.read_signed(16) {
                Some(_) => {},
                None => {
                    assert(p0 + 16 + 16 * lpc_order > total_bits(b));
                    return None;
                },
            }
            j = j + 1;
        }
        proof {
            assert(p0 + 16 + 16 * lpc_order <= total_bits(b));
            let rest = chan_headers(b, p0 + 16 + 16 * lpc_order, (n - 1) as nat, max_spf as nat);
            assert(chan_headers(b, p0, n, max_spf as nat) == match rest {
                None => None,
                Some((r2, q)) => Some((seq![rhm] + r2, q)),
            });
            match rest {
                Some((r2, q)) => {
                    assert(rhms@.push(rhm) + r2 =~= rhms@ + (seq![rhm] + r2));
                },
                None => {},
            }
        }
        rhms.push(rhm);
        c = c + 1;
    }
    proof {
        assert(rhms@ + Seq::<u32>::empty() =~= rhms@);
    }
    Some(rhms)
}

fn rice_channels(
    reader: &mut AlacBitReader<'_>,
    rhms: &Vec<u32>,
    out: usize,
    bps: usize,
    params: &AlacParams,
) -> (r: Option<()>)
    requires
        old(reader).wf(),
        1 <= bps <= 32,
        out <= u32::MAX,
        forall|i: int| 0 <= i < rhms@.len() ==> rhms@[i] < 8,
    ensures
        final(reader).wf(),
        final(reader).buf@ == old(reader).buf@,
        match rice_all(old(reader).buf@, old(reader).pos as int, rhms@, out as nat, bps as nat, *params) {
            None => r is None,
            Some(q) => r is Some && final(reader).pos == q,
        },
{
    let mut j: usize = 0;
    proof {
        assert(rhms@.skip(0) =~= rhms@);
    }
    while j < rhms.len()
        invariant
            reader.wf(),
            reader.buf@ == old(reader).buf@,
            1 <= bps <= 32,
                out <= u32::MAX,
            j <= rhms@.len(),
            forall|i: int| 0 <= i < rhms@.len() ==> rhms@[i] < 8,
            rice_all(reader.buf@, reader.pos as int, rhms@.skip(j as int), out as nat, bps as nat, *params)
                == rice_all(old(reader).buf@, old(reader).pos as int, rhms@, out as nat, bps as nat, *params),
        decreases rhms.len() - j,
    {
        let rhm = rhms[j];
        assert(rhm * params.rice_history_mult as u32 <= 7 * 255) by (nonlinear_arith)
            requires
                rhm < 8,
        ;
        let rhm_eff: u32 = (rhm * params.rice_history_mult as u32) / 4;
        proof {
            assert(rhms@.skip(j as int)[0] == rhm);
            assert(rhms@.skip(j as int).drop_first() =~= rhms@.skip(j + 1));
        }
        match alac_rice_decompress(reader, out, bps, rhm_eff, params) {
            None => return None,
            Some(_) => {},
        }
        j = j + 1;
    }
    proof {
        assert(rhms@.skip(j as int).len() == 0);
    }
    Some(())
}

proof fn lemma_chan_headers_small(b: Seq<u8>, pos: int, n: nat, max_spf: nat)
    ensures
        chan_headers(b, pos, n, max_spf) matches Some((rhms, _)) ==> forall|i: int|
            0 <= i < rhms.len() ==> rhms[i] < 8,
    decreases n,
{
    if n > 0 && pos + 16 <= total_bits(b) {
        let order = bits_val(b, pos + 11, 5);
        lemma_chan_headers_small(b, pos + 16 + 16 * order, (n - 1) as nat, max_spf);
        lemma_bits_val_bound(b, pos + 8, 3);
        vstd::arithmetic::power2::lemma2_to64();
    }
}

fn element_header(reader: &mut AlacBitReader<'_>, channels: usize, params: &AlacParams) -> (r:
    Option<(usize, usize, bool, u32)>)
    requires
        old(reader).wf(),
        1 <= channels <= 2,
    ensures
        final(reader).wf(),
        final(reader).buf@ == old(reader).buf@,
        match header_spec(old(reader).buf@, old(reader).pos as int, channels as nat, *params) {
            None => r is None,
            Some((eb, bps, c, out, q)) => r == Some((eb as usize, bps as usize, c, out as u32))
                && final(reader).pos == q && eb <= 24 && out <= u32::MAX,
        },
{
    let ghost b = old(reader).buf@;
    let ghost pos = old(reader).pos as int;
    if !reader.skip(4) {
        return None;
    }
    if !reader.skip(12) {
        return None;
    }
    let has_size = match reader.read(1) {
        Some(v) => v,
        None => return None,
    };
    let eb = match reader.read(2) {
        Some(v) => v,
        None => return None,
    };
    proof {
        vstd::arithmetic::power2::lemma2_to64();
    }
    let extra_bits: usize = eb as usize * 8;
    let bps: i64 = params.sample_size as i64 - extra_bits as i64 + channels as i64 - 1;
    if !(1 <= bps && bps <= 32) {
        return None;
    }
    let flag = match reader.read(1) {
        Some(v) => v,
        None => return None,
    };
    let output_samples: u32 = if has_size != 0 {
        match reader.read(32) {
            Some(v) => v,
            None => return None,
        }
    } else {
        params.max_samples_per_frame
    };
    if output_samples == 0 || output_samples > params.max_samples_per_frame {
        return None;
    }
    Some((extra_bits, bps as usize, flag == 0, output_samples))
}

fn element_body(
    reader: &mut AlacBitReader<'_>,
    channels: usize,
    extra_bits: usize,
    bps: usize,
    is_compressed: bool,
    output_samples: u32,
    params: &AlacParams,
) -> (r: Option<()>)
    requires
        old(reader).wf(),
        1 <= channels <= 2,
        extra_bits <= 24,
        1 <= bps <= 32,
    ensures
        final(reader).wf(),
        final(reader).buf@ == old(reader).buf@,
        match body_spec(
            old(reader).buf@,
            old(reader).pos as int,
            channels as nat,
            extra_bits as nat,
            bps as nat,
            is_compressed,
            output_samples as nat,
            *params,
        ) {
            None => r is None,
            Some(q) => r is Some && final(reader).pos == q,
        },
{
    let ghost b = old(reader).buf@;
    if is_compressed {
        if reader.read(8).is_none() {
            return None;
        }
        if reader.read(8).is_none() {
            return None;
        }
        let ghost q1 = reader.pos as int;
        let rhms = match channel_headers(reader, channels, params.max_samples_per_frame) {
            Some(v) => v,
            None => return None,
        };
        proof {
            lemma_chan_headers_small(b, q1, channels as nat, params.max_samples_per_frame as nat);
        }
        let ghost q2 = reader.pos as int;
        if extra_bits != 0 {
            assert(output_samples as u64 * channels as u64 <= 0xffff_ffff * 2 && output_samples as u64
                * channels as u64 * extra_bits as u64 <= 0xffff_ffff * 2 * 24) by (nonlinear_arith)
                requires
                    channels <= 2,
                    extra_bits <= 24,
            ;
            if !skip_wide(reader, output_samples as u64 * channels as u64 * extra_bits as u64) {
                return None;
            }
        } else {
            assert(output_samples as nat * channels as nat * extra_bits as nat == 0)
                by (nonlinear_arith)
                requires
                    extra_bits == 0,
            ;
        }
        assert(reader.pos == q2 + output_samples as nat * channels as nat * extra_bits as nat);
        rice_channels(reader, &rhms, output_samples as usize, bps, params)
    } else {
        assert(output_samples as u64 * channels as u64 <= 0xffff_ffff * 2 && output_samples as u64
            * channels as u64 * params.sample_size as u64 <= 0xffff_ffff * 2 * 255)
            by (nonlinear_arith)
            requires
                channels <= 2,
        ;
        if !skip_wide(reader, output_samples as u64 * channels as u64 * params.sample_size as u64) {
            return None;
        }
        Some(())
    }
}

pub fn alac_scan_one_element(reader: &mut AlacBitReader<'_>, params: &AlacParams) -> (r: Option<
    (usize, bool),
>)
    requires
        old(reader).wf(),
    ensures
        final(reader).wf(),
        final(reader).buf@ == old(reader).buf@,
        match scan_spec(old(reader).buf@, old(reader).pos as int, *params) {
            None => r is None,
            Some((ch, end, q)) => r == Some((ch as usize, end)) && final(reader).pos == q,
        },
{
    let elem = match reader.read(3) {
        Some(v) => v,
        None => return None,
    };
    if elem == 7 {
        return Some((0, true));
    }
    if elem > 1 && elem != 3 {
        return None;
    }
    let channels: usize = if elem == 1 {
        2
    } else {
        1
    };
    let (extra_bits, bps, is_compressed, output_samples) = match element_header(
        reader,
        channels,
        params,
    ) {
        Some(h) => h,
        None => return None,
    };
    match element_body(reader, channels, extra_bits, bps, is_compressed, output_samples, params) {
        Some(_) => Some((channels, false)),
        None => None,
    }
}

proof fn lemma_scalar_advances(b: Seq<u8>, pos: int, k: nat, bps: nat)
    ensures
        scalar_spec(b, pos, k, bps) matches Some((_, q)) ==> q >= pos,
{
    lemma_unary_bound(b, pos, 0);
}

proof fn lemma_rice_from_advances(
    b: Seq<u8>,
    pos: int,
    i: nat,
    history: u32,
    sign_mod: u32,
    iters: nat,
    nb: nat,
    bps: nat,
    m: u32,
    limit: nat,
)
    ensures
        rice_from(b, pos, i, history, sign_mod, iters, nb, bps, m, limit) matches Some(q) ==> q
            >= pos,
    decreases nb * 4 + 101 - iters,
{
    if i < nb && iters + 1 <= nb * 4 + 100 && pos < total_bits(b) {
        lemma_scalar_advances(b, pos, rice_k(history, limit), bps);
        match scalar_spec(b, pos, rice_k(history, limit), bps) {
            Some((x0, p1)) => {
                let x1 = u32_specs::wrapping_add(x0 as u32, sign_mod);
                let x: u32 = if x1 > 0xffff {
                    0xffff
                } else {
                    x1
                };
                let h1 = next_history(history, x, m);
                lemma_scalar_advances(b, p1, zero_run_k(h1, limit), 16);
                match rice_step(b, pos, i, history, sign_mod, nb, bps, m, limit) {
                    Some((p, i2, h, sm)) => {
                        lemma_rice_from_advances(b, p, i2, h, sm, iters + 1, nb, bps, m, limit);
                    },
                    None => {},
                }
            },
            None => {},
        }
    }
}

proof fn lemma_rice_all_advances(b: Seq<u8>, pos: int, rhms: Seq<u32>, out: nat, bps: nat, p: AlacParams)
    ensures
        rice_all(b, pos, rhms, out, bps, p) matches Some(q) ==> q >= pos,
    decreases rhms.len(),
{
    if rhms.len() > 0 {
        let m = (rhms[0] * p.rice_history_mult / 4) as u32;
        reveal(rice_spec);
        lemma_rice_from_advances(b, pos, 0, p.rice_initial_history as u32, 0, 0, out, bps, m, p.rice_limit as nat);
        match rice_spec(b, pos, out, bps, m, p) {
            Some(q) => lemma_rice_all_advances(b, q, rhms.drop_first(), out, bps, p),
            None => {},
        }
    }
}

proof fn lemma_chan_headers_advances(b: Seq<u8>, pos: int, n: nat, max_spf: nat)
    ensures
        chan_headers(b, pos, n, max_spf) matches Some((_, q)) ==> q >= pos,
    decreases n,
{
    if n > 0 && pos + 16 <= total_bits(b) {
        let order = bits_val(b, pos + 11, 5);
        lemma_chan_headers_advances(b, pos + 16 + 16 * order, (n - 1) as nat, max_spf);
    }
}

/// A scanned element moves on by at least its three tag bits.
proof fn lemma_scan_advances(b: Seq<u8>, pos: int, p: AlacParams)
    ensures
        scan_spec(b, pos, p) matches Some((_, _, q)) ==> q >= pos + 3,
{
    if pos + 3 <= total_bits(b) {
        let elem = bits_val(b, pos, 3);
        let ch: nat = if elem == 1 {
            2
        } else {
            1
        };
        match header_spec(b, pos + 3, ch, p) {
            Some((eb, bps, compressed, out, q)) => {
                if compressed && q + 16 <= total_bits(b) {
                    lemma_chan_headers_advances(b, q + 16, ch, p.max_samples_per_frame as nat);
                    match chan_headers(b, q + 16, ch, p.max_samples_per_frame as nat) {
                        Some((rhms, q2)) => {
                            assert(out * ch * eb >= 0) by (nonlinear_arith);
                            lemma_rice_all_advances(b, q2 + out * ch * eb, rhms, out, bps, p);
                        },
                        None => {},
                    }
                } else {
                    assert(out * ch * p.sample_size >= 0) by (nonlinear_arith);
                }
            },
            None => {},
        }
    }
}

/// Where the audio body of a packet ends, scanning elements from `pos`
/// with `used` channels seen and `last` the end of the last audio element:
/// at the end tag, after the element that completes the configured channel
/// count, or at the last element when fewer than three bits remain; -1
/// when an element does not scan.
pub open spec fn body_end_from(b: Seq<u8>, pos: int, used: nat, last: int, p: AlacParams) -> int
    decreases total_bits(b) - pos,
{
    if pos < 0 || total_bits(b) - pos < 3 {
        last
    } else {
        match scan_spec(b, pos, p) {
            None => -1,
            Some((ch, is_end, q)) => if is_end {
                q
            } else if used + ch >= p.channels {
                q
            } else if q <= pos || q > total_bits(b) {
                -1
            } else {
                body_end_from(b, q, used + ch, q, p)
            },
        }
    }
}

/// The bit where a packet's audio body ends, from its start.
pub open spec fn body_end_spec(b: Seq<u8>, p: AlacParams) -> int {
    body_end_from(b, 0, 0, -1, p)
}

pub fn alac_find_body_end_bit(packet: &[u8], params: &AlacParams) -> (r: isize)
    requires
        total_bits(packet@) <= isize::MAX,
    ensures
        r == body_end_spec(packet@, *params),
{
    let mut reader = AlacBitReader::new(packet);
    let mut channels_used: usize = 0;
    let mut last_end: isize = -1;
    while reader.left() >= 3
        invariant
            reader.wf(),
            reader.buf@ == packet@,
            total_bits(packet@) <= isize::MAX,
                channels_used < 256,
            body_end_from(packet@, reader.pos as int, channels_used as nat, last_end as int, *params)
                == body_end_spec(packet@, *params),
        decreases total_bits(packet@) - reader.pos,
    {
        let ghost before = reader.pos as int;
        proof {
            lemma_scan_advances(packet@, before, *params);
        }
        let (channels, is_end) = match alac_scan_one_element(&mut reader, params) {
            Some(v) => v,
            None => return -1,
        };
        if is_end {
            return reader.pos as isize;
        }
        last_end = reader.pos as isize;
        channels_used = channels_used + channels;
        if channels_used >= params.channels as usize {
            return last_end;
        }
    }
    last_end
}

/// Bit `q` of a packet once its end tag is written at bit `be`: bits
/// before it kept, the three tag bits set, every later bit cleared.
pub open spec fn patched_bit(old_bit: u8, q: int, be: int) -> u8 {
    if q < be {
        old_bit
    } else if q < be + 3 {
        1
    } else {
        0
    }
}

/// `new` is `old` with the packet of `size` bytes at `offset` patched at
/// bit `be`, and every other byte kept.
pub open spec fn is_patched(old: Seq<u8>, new: Seq<u8>, offset: int, size: int, be: int) -> bool {
    &&& new.len() == old.len()
    &&& forall|i: int|
        0 <= i < old.len() && !(offset <= i < offset + size) ==> #[trigger] new[i] == old[i]
    &&& forall|q: int|
        0 <= q < size * 8 ==> #[trigger] bit_at(new, offset * 8 + q) == patched_bit(
            bit_at(old, offset * 8 + q),
            q,
            be,
        )
}

/// The byte whose bits, most significant first, are `f(0)` to `f(7)`.
pub open spec fn byte_of_bits(f: spec_fn(int) -> u8) -> u8 {
    (f(0) * 128 + f(1) * 64 + f(2) * 32 + f(3) * 16 + f(4) * 8 + f(5) * 4 + f(6) * 2 + f(7)) as u8
}

/// The bytes with the packet of `size` bytes at `offset` patched at bit
/// `be`.
pub open spec fn patch_spec(d: Seq<u8>, offset: int, size: int, be: int) -> Seq<u8> {
    Seq::new(
        d.len(),
        |i: int|
            if offset <= i < offset + size {
                byte_of_bits(|t: int| patched_bit(bit_at(d, i * 8 + t), (i - offset) * 8 + t, be))
            } else {
                d[i]
            },
    )
}

proof fn lemma_byte_from_bits(x: u8)
    ensures
        x == (((x >> 7u8) & 1u8) * 128 + ((x >> 6u8) & 1u8) * 64 + ((x >> 5u8) & 1u8) * 32 + ((x
            >> 4u8) & 1u8) * 16 + ((x >> 3u8) & 1u8) * 8 + ((x >> 2u8) & 1u8) * 4 + ((x >> 1u8)
            & 1u8) * 2 + ((x >> 0u8) & 1u8)) as u8,
{
    assert(x == (((x >> 7u8) & 1u8) * 128 + ((x >> 6u8) & 1u8) * 64 + ((x >> 5u8) & 1u8) * 32 + ((x
        >> 4u8) & 1u8) * 16 + ((x >> 3u8) & 1u8) * 8 + ((x >> 2u8) & 1u8) * 4 + ((x >> 1u8)
        & 1u8) * 2 + ((x >> 0u8) & 1u8)) as u8) by (bit_vector);
}

proof fn lemma_patched_byte_bit(
    old: Seq<u8>,
    new: Seq<u8>,
    offset: int,
    size: int,
    be: int,
    i: int,
    t: int,
)
    requires
        is_patched(old, new, offset, size, be),
        0 <= offset <= i < offset + size,
        0 <= t < 8,
    ensures
        (new[i] >> ((7 - t) as u8)) & 1u8 == patched_bit(bit_at(old, i * 8 + t), (i - offset) * 8 + t, be),
{
    let q = (i - offset) * 8 + t;
    assert(offset * 8 + q == i * 8 + t);
    assert((i * 8 + t) / 8 == i);
    assert((i * 8 + t) % 8 == t);
    assert(bit_at(new, offset * 8 + q) == patched_bit(bit_at(old, offset * 8 + q), q, be));
}

/// Bytes that agree outside a patched packet and whose packet bits are
/// the patched ones are the patched bytes.
proof fn lemma_patched_is_patch_spec(old: Seq<u8>, new: Seq<u8>, offset: int, size: int, be: int)
    requires
        is_patched(old, new, offset, size, be),
        0 <= offset,
        offset + size <= old.len(),
    ensures
        new == patch_spec(old, offset, size, be),
{
    let p = patch_spec(old, offset, size, be);
    assert forall|i: int| 0 <= i < new.len() implies new[i] == p[i] by {
        if offset <= i < offset + size {
            let x = new[i];
            lemma_byte_from_bits(x);
            lemma_patched_byte_bit(old, new, offset, size, be, i, 0);
            lemma_patched_byte_bit(old, new, offset, size, be, i, 1);
            lemma_patched_byte_bit(old, new, offset, size, be, i, 2);
            lemma_patched_byte_bit(old, new, offset, size, be, i, 3);
            lemma_patched_byte_bit(old, new, offset, size, be, i, 4);
            lemma_patched_byte_bit(old, new, offset, size, be, i, 5);
            lemma_patched_byte_bit(old, new, offset, size, be, i, 6);
            lemma_patched_byte_bit(old, new, offset, size, be, i, 7);
        }
    }
    assert(new =~= p);
}

proof fn lemma_or_bit(x: u8, s: u8, t: u8)
    requires
        s < 8,
        t < 8,
    ensures
        ((x | (1u8 << (7 - s) as u8)) >> (7 - t) as u8) & 1u8 == if s == t {
            1u8
        } else {
            (x >> (7 - t) as u8) & 1u8
        },
{
    assert(((x | (1u8 << (7 - s) as u8)) >> (7 - t) as u8) & 1u8 == if s == t {
        1u8
    } else {
        (x >> (7 - t) as u8) & 1u8
    }) by (bit_vector)
        requires
            s < 8,
            t < 8,
    ;
}

proof fn lemma_keep_bit(x: u8, n: u8, t: u8)
    requires
        1 <= n < 8,
        t < 8,
    ensures
        ((x & (0xffu8 << (8 - n) as u8)) >> (7 - t) as u8) & 1u8 == if t < n {
            (x >> (7 - t) as u8) & 1u8
        } else {
            0u8
        },
{
    assert(((x & (0xffu8 << (8 - n) as u8)) >> (7 - t) as u8) & 1u8 == if t < n {
        (x >> (7 - t) as u8) & 1u8
    } else {
        0u8
    }) by (bit_vector)
        requires
            1 <= n < 8,
            t < 8,
    ;
}

proof fn lemma_zero_bit(t: u8)
    requires
        t < 8,
    ensures
        (0u8 >> (7 - t) as u8) & 1u8 == 0u8,
{
    assert((0u8 >> (7 - t) as u8) & 1u8 == 0u8) by (bit_vector);
}

/// Bit `p` set: that bit becomes one, every other bit stays.
proof fn lemma_set_bit(a: Seq<u8>, p: int, i: int)
    requires
        0 <= p,
        0 <= i,
        p / 8 < a.len(),
        i / 8 < a.len(),
    ensures
        bit_at(a.update(p / 8, a[p / 8] | (1u8 << (7 - p % 8) as u8)), i) == if i == p {
            1u8
        } else {
            bit_at(a, i)
        },
{
    if i / 8 == p / 8 {
        lemma_or_bit(a[p / 8], (p % 8) as u8, (i % 8) as u8);
        assert(i == p <==> i % 8 == p % 8);
    }
}

/// The byte `j` masked to its first `n` bits: its later bits become zero,
/// every other bit stays.
proof fn lemma_keep_bits(a: Seq<u8>, j: int, n: u8, i: int)
    requires
        0 <= j < a.len(),
        1 <= n < 8,
        0 <= i,
        i / 8 < a.len(),
    ensures
        bit_at(a.update(j, a[j] & (0xffu8 << (8 - n) as u8)), i) == if i / 8 == j && i % 8 >= n {
            0u8
        } else {
            bit_at(a, i)
        },
{
    if i / 8 == j {
        lemma_keep_bit(a[j], n, (i % 8) as u8);
    }
}

/// Byte `j` cleared: its bits become zero, every other bit stays.
proof fn lemma_clear_byte(a: Seq<u8>, j: int, i: int)
    requires
        0 <= j < a.len(),
        0 <= i,
        i / 8 < a.len(),
    ensures
        bit_at(a.update(j, 0u8), i) == if i / 8 == j {
            0u8
        } else {
            bit_at(a, i)
        },
{
    if i / 8 == j {
        lemma_zero_bit((i % 8) as u8);
    }
}

/// Writes the three bits of the end tag at bit `body_end_bit` of the
/// packet of `size` bytes at `offset` and clears the bits after it; false,
/// with nothing written, when the tag does not fit the packet or the packet
/// the data.
pub fn alac_patch_in_place(data: &mut Vec<u8>, offset: usize, size: usize, body_end_bit: usize) -> (r:
    bool)
    requires
        total_bits(old(data)@) <= usize::MAX,
    ensures
        r == (body_end_bit + 3 <= size * 8 && offset + size <= old(data)@.len()),
        r ==> is_patched(old(data)@, final(data)@, offset as int, size as int, body_end_bit as int),
        !r ==> final(data)@ == old(data)@,
{
    let ghost d0 = data@;
    if size > data.len() || offset > data.len() - size {
        return false;
    }
    let packet_bits = size * 8;
    if packet_bits < 3 || body_end_bit > packet_bits - 3 {
        return false;
    }
    let ghost be = body_end_bit as int;
    let ghost base = offset * 8;
    let mut i: usize = 0;
    while i < 3
        invariant
            offset + size <= d0.len(),
            base == offset * 8,
            be == body_end_bit,
            packet_bits == size * 8,
            body_end_bit + 3 <= packet_bits,
            i <= 3,
            data@.len() == d0.len(),
            forall|k: int| 0 <= k < d0.len() && !(offset <= k < offset + size) ==> #[trigger] data@[k] == d0[k],
            forall|q: int|
                0 <= q < size * 8 ==> #[trigger] bit_at(data@, base + q) == if be <= q < be + i {
                    1u8
                } else {
                    bit_at(d0, base + q)
                },
        decreases 3 - i,
    {
        let bit_pos = body_end_bit + i;
        let ghost p = base + bit_pos;
        assert(p / 8 == offset + bit_pos / 8 && p % 8 == bit_pos % 8) by (nonlinear_arith)
            requires
                p == offset * 8 + bit_pos,
        ;
        assert(bit_pos / 8 < size) by (nonlinear_arith)
            requires
                bit_pos < size * 8,
        ;
        assert(bit_pos < size * 8);
        assert(offset + size <= data.len());
        let byte_index = offset + bit_pos / 8;
        let s: u8 = (bit_pos % 8) as u8;
        let mask: u8 = 1u8 << (7 - s);
        let ghost before = data@;
        let v = data[byte_index] | mask;
        data.set(byte_index, v);
        proof {
            assert(data@ == before.update(p / 8, before[p / 8] | (1u8 << (7 - p % 8) as u8)));
            assert forall|q: int| 0 <= q < size * 8 implies #[trigger] bit_at(data@, base + q)
                == if be <= q < be + i + 1 {
                1u8
            } else {
                bit_at(d0, base + q)
            } by {
                assert((base + q) / 8 < d0.len()) by (nonlinear_arith)
                    requires
                        base == offset * 8,
                        q < size * 8,
                        offset + size <= d0.len(),
                ;
                lemma_set_bit(before, p, base + q);
                assert(bit_at(before, base + q) == if be <= q < be + i {
                    1u8
                } else {
                    bit_at(d0, base + q)
                });
                assert(base + q == p <==> q == be + i);
            }
        }
        i = i + 1;
    }
    let pad_start = body_end_bit + 3;
    let ghost ps = base + pad_start;
    assert(ps / 8 == offset + pad_start / 8 && ps % 8 == pad_start % 8) by (nonlinear_arith)
        requires
            ps == offset * 8 + pad_start,
    ;
    let mut byte_index = offset + pad_start / 8;
    let bit_in_byte = pad_start % 8;
    if bit_in_byte != 0 {
        assert(pad_start / 8 < size) by (nonlinear_arith)
            requires
                pad_start <= size * 8,
                pad_start % 8 != 0,
        ;
        let n: u8 = bit_in_byte as u8;
        let keep: u8 = 0xffu8 << (8 - n);
        let ghost before = data@;
        let v = data[byte_index] & keep;
        data.set(byte_index, v);
        proof {
            assert forall|q: int| 0 <= q < size * 8 implies #[trigger] bit_at(data@, base + q)
                == if q < (byte_index + 1 - offset) * 8 {
                patched_bit(bit_at(d0, base + q), q, be)
            } else {
                bit_at(d0, base + q)
            } by {
                assert((base + q) / 8 < d0.len() && (base + q) / 8 == offset + q / 8 && (base + q)
                    % 8 == q % 8) by (nonlinear_arith)
                    requires
                        base == offset * 8,
                        0 <= q < size * 8,
                        offset + size <= d0.len(),
                ;
                lemma_keep_bits(before, byte_index as int, n, base + q);
                assert(q < (byte_index + 1 - offset) * 8 <==> q / 8 <= pad_start / 8) by (
                nonlinear_arith)
                    requires
                        byte_index == offset + pad_start / 8,
                        q >= 0,
                ;
                assert(q / 8 == pad_start / 8 ==> (q % 8 >= n <==> q >= pad_start)) by (
                nonlinear_arith)
                    requires
                        n == pad_start % 8,
                        q >= 0,
                ;
            }
        }
        byte_index = byte_index + 1;
    } else {
        proof {
            assert forall|q: int| 0 <= q < size * 8 implies #[trigger] bit_at(data@, base + q)
                == if q < (byte_index - offset) * 8 {
                patched_bit(bit_at(d0, base + q), q, be)
            } else {
                bit_at(d0, base + q)
            } by {
                assert((byte_index - offset) * 8 == pad_start) by (nonlinear_arith)
                    requires
                        byte_index == offset + pad_start / 8,
                        pad_start % 8 == 0,
                ;
            }
        }
    }
    let end = offset + size;
    assert((byte_index - offset) * 8 <= size * 8) by (nonlinear_arith)
        requires
            byte_index <= offset + size || (bit_in_byte == 0 && byte_index == offset + pad_start / 8
                && pad_start <= size * 8),
    ;
    while byte_index < end
        invariant
            offset + size <= d0.len(),
            base == offset * 8,
            be == body_end_bit,
            end == offset + size,
            body_end_bit + 3 <= size * 8,
            offset <= byte_index,
            pad_start == body_end_bit + 3,
            pad_start <= (byte_index - offset) * 8,
            data@.len() == d0.len(),
            forall|k: int| 0 <= k < d0.len() && !(offset <= k < offset + size) ==> #[trigger] data@[k] == d0[k],
            forall|q: int|
                0 <= q < size * 8 ==> #[trigger] bit_at(data@, base + q) == if q < (byte_index
                    - offset) * 8 {
                    patched_bit(bit_at(d0, base + q), q, be)
                } else {
                    bit_at(d0, base + q)
                },
        decreases end - byte_index,
    {
        let ghost before = data@;
        data.set(byte_index, 0u8);
        proof {
            assert forall|q: int| 0 <= q < size * 8 implies #[trigger] bit_at(data@, base + q)
                == if q < (byte_index + 1 - offset) * 8 {
                patched_bit(bit_at(d0, base + q), q, be)
            } else {
                bit_at(d0, base + q)
            } by {
                assert((base + q) / 8 < d0.len() && (base + q) / 8 == offset + q / 8) by (
                nonlinear_arith)
                    requires
                        base == offset * 8,
                        0 <= q < size * 8,
                        offset + size <= d0.len(),
                ;
                lemma_clear_byte(before, byte_index as int, base + q);
                assert(q / 8 == byte_index - offset <==> (byte_index - offset) * 8 <= q < (
                byte_index + 1 - offset) * 8) by (nonlinear_arith)
                    requires
                        q >= 0,
                ;
            }
        }
        byte_index = byte_index + 1;
    }
    true
}

/// The box types the packet search looks for.
pub open spec fn stsd_type() -> Seq<u8> {
    seq![115u8, 116, 115, 100]
}

pub open spec fn alac_type() -> Seq<u8> {
    seq![97u8, 108, 97, 99]
}

pub open spec fn stsz_type() -> Seq<u8> {
    seq![115u8, 116, 115, 122]
}

pub open spec fn stco_type() -> Seq<u8> {
    seq![115u8, 116, 99, 111]
}

/// The parameters of a configuration box body of at least 24 bytes: the
/// frame length at 4, then the sample size, history multiplier, initial
/// history, Rice limit and channel count at 9 to 13.
pub open spec fn params_of(body: Seq<u8>) -> AlacParams {
    AlacParams {
        max_samples_per_frame: be_value(body, 4, 4) as u32,
        sample_size: body[9],
        rice_history_mult: body[10],
        rice_initial_history: body[11],
        rice_limit: body[12],
        channels: body[13],
    }
}

/// The ALAC parameters of a file: none when it has no sample description,
/// the first entry is not `alac`, or that entry holds no `alac`
/// configuration box after its 28 fixed bytes; an error where the entry's
/// header does not read or the configuration is shorter than 24 bytes.
pub open spec fn alac_params_spec(data: Seq<u8>) -> Result<Option<AlacParams>, Seq<char>> {
    match find_rec_spec(data, 0, data.len() as int, stsd_type()) {
        None => Ok(None),
        Some(stsd) => if stsd.start + stsd.header_size + 16 > stsd.start + stsd.size {
            Ok(None)
        } else {
            match read_box_spec(data, stsd.start + stsd.header_size + 8) {
                Err(e) => Err(e),
                Ok(None) => Ok(None),
                Ok(Some(entry)) => if entry.typ@ != alac_type() {
                    Ok(None)
                } else {
                    match find_child_spec(
                        data,
                        entry.start + entry.header_size + 28,
                        entry.start + entry.size,
                        alac_type(),
                    ) {
                        None => Ok(None),
                        Some(config) => {
                            let body = data.subrange(
                                config.start + config.header_size,
                                config.start + config.size,
                            );
                            if body.len() < 24 {
                                Err("ALAC config too short"@)
                            } else {
                                Ok(Some(params_of(body)))
                            }
                        },
                    }
                },
            }
        },
    }
}

fn type_bytes(a: u8, b: u8, c: u8, d: u8) -> (r: [u8; 4])
    ensures
        r@ == seq![a, b, c, d],
{
    let r = [a, b, c, d];
    assert(r@ =~= seq![a, b, c, d]);
    r
}

pub fn find_alac_params(data: &[u8]) -> (r: Result<Option<AlacParams>, BotError>)
    ensures
        match alac_params_spec(data@) {
            Ok(v) => r == Ok::<Option<AlacParams>, BotError>(v),
            Err(m) => r matches Err(BotError::Custom(e)) && e@ == m,
        },
{
    let stsd_t = type_bytes(115, 116, 115, 100);
    let alac_t = type_bytes(97, 108, 97, 99);
    let stsd = match find_box_recursive(data, 0, data.len(), &stsd_t) {
        Some(b) => b,
        None => return Ok(None),
    };
    proof {
        crate::mp4::lemma_found_box_bounds(data@, 0, data@.len() as int, stsd_type());
    }
    let ps = stsd.payload_start();
    let se = stsd.end();
    if se - ps < 16 {
        return Ok(None);
    }
    let entry = match read_mp4_box(data, ps + 8) {
        Ok(Some(e)) => e,
        Ok(None) => return Ok(None),
        Err(e) => return Err(e),
    };
    proof {
        crate::mp4::lemma_read_box_bounds(data@, ps + 8);
    }
    if !(entry.typ[0] == 97 && entry.typ[1] == 108 && entry.typ[2] == 97 && entry.typ[3] == 99) {
        proof {
            if entry.typ@ == alac_type() {
                assert(entry.typ@[0] == 97);
                assert(entry.typ@[1] == 108);
                assert(entry.typ@[2] == 97);
                assert(entry.typ@[3] == 99);
            }
        }
        return Ok(None);
    }
    proof {
        assert(entry.typ@ =~= alac_type());
    }
    let eps = entry.payload_start();
    let ee = entry.end();
    if ee - eps < 36 {
        return Ok(None);
    }
    let config = match find_child_box(data, eps + 28, ee, &alac_t) {
        Some(c) => c,
        None => return Ok(None),
    };
    proof {
        crate::mp4::lemma_child_box_bounds(data@, eps + 28, ee as int, alac_type());
    }
    let body = &data[config.payload_start()..config.end()];
    if body.len() < 24 {
        return Err(custom("ALAC config too short"));
    }
    Ok(
        Some(
            AlacParams {
                max_samples_per_frame: read_be32(body, 4),
                sample_size: body[9],
                rice_history_mult: body[10],
                rice_initial_history: body[11],
                rice_limit: body[12],
                channels: body[13],
            },
        ),
    )
}

/// Where one packet of the progressive file lies. Offsets are counted in
/// 64 bits: a sample table can describe more than a 32-bit `usize` holds.
#[derive(Clone, Copy, Debug, PartialEq, Eq)]
pub struct AlacPacketLoc {
    pub offset: u64,
    pub size: u64,
}

/// The size of sample `k` of a sample size table body: the default size
/// when it is not zero, else the `k`-th entry.
pub open spec fn sample_size_at(body: Seq<u8>, k: int) -> nat {
    if be_value(body, 4, 4) == 0 {
        be_value(body, 12 + 4 * k, 4)
    } else {
        be_value(body, 4, 4)
    }
}

/// The sizes of the first `k` samples added up.
pub open spec fn size_sum(body: Seq<u8>, k: nat) -> nat
    decreases k,
{
    if k == 0 {
        0
    } else {
        size_sum(body, (k - 1) as nat) + sample_size_at(body, k - 1)
    }
}

/// The packets of a progressive file, one per sample, back to back from
/// the first chunk offset; an error where the sample size or chunk offset
/// table is missing or too short.
pub open spec fn packet_locs_spec(data: Seq<u8>) -> Result<Seq<AlacPacketLoc>, Seq<char>> {
    match find_rec_spec(data, 0, data.len() as int, stsz_type()) {
        None => Err("progressive MP4 缺少 stsz"@),
        Some(stsz) => match find_rec_spec(data, 0, data.len() as int, stco_type()) {
            None => Err("progressive MP4 缺少 stco"@),
            Some(stco) => {
                let sb = data.subrange(stsz.start + stsz.header_size, stsz.start + stsz.size);
                if sb.len() < 12 {
                    Err("progressive MP4 stsz truncated"@)
                } else {
                    let count = be_value(sb, 8, 4);
                    if be_value(sb, 4, 4) == 0 && sb.len() < 12 + 4 * count {
                        Err("progressive MP4 stsz sizes truncated"@)
                    } else {
                        let cb = data.subrange(stco.start + stco.header_size, stco.start + stco.size);
                        if cb.len() < 12 {
                            Err("progressive MP4 stco truncated"@)
                        } else {
                            let chunk = be_value(cb, 8, 4);
                            Ok(
                                Seq::new(
                                    count,
                                    |k: int|
                                        AlacPacketLoc {
                                            offset: (chunk + size_sum(sb, k as nat)) as u64,
                                            size: sample_size_at(sb, k) as u64,
                                        },
                                ),
                            )
                        }
                    }
                }
            },
        },
    }
}

pub fn find_progressive_packet_locations(data: &[u8]) -> (r: Result<Vec<AlacPacketLoc>, BotError>)
    ensures
        match packet_locs_spec(data@) {
            Ok(v) => r matches Ok(locs) && locs@ == v,
            Err(m) => r matches Err(BotError::Custom(e)) && e@ == m,
        },
{
    let stsz_t = type_bytes(115, 116, 115, 122);
    let stco_t = type_bytes(115, 116, 99, 111);
    let stsz = match find_box_recursive(data, 0, data.len(), &stsz_t) {
        Some(b) => b,
        None => return Err(custom("progressive MP4 缺少 stsz")),
    };
    let stco = match find_box_recursive(data, 0, data.len(), &stco_t) {
        Some(b) => b,
        None => return Err(custom("progressive MP4 缺少 stco")),
    };
    proof {
        crate::mp4::lemma_found_box_bounds(data@, 0, data@.len() as int, stsz_type());
        crate::mp4::lemma_found_box_bounds(data@, 0, data@.len() as int, stco_type());
    }
    let sb = &data[stsz.payload_start()..stsz.end()];
    if sb.len() < 12 {
        return Err(custom("progressive MP4 stsz truncated"));
    }
    let default_size = read_be32(sb, 4);
    let sample_count = read_be32(sb, 8);
    if default_size == 0 && (sb.len() - 12) / 4 < sample_count as usize {
        assert(sb@.len() < 12 + 4 * sample_count) by (nonlinear_arith)
            requires
                (sb@.len() - 12) / 4 < sample_count,
                sb@.len() >= 12,
        ;
        return Err(custom("progressive MP4 stsz sizes truncated"));
    }
    proof {
        if default_size == 0 {
            assert(sb@.len() >= 12 + 4 * sample_count) by (nonlinear_arith)
                requires
                    (sb@.len() - 12) / 4 >= sample_count,
                    sb@.len() >= 12,
            ;
        }
    }
    let cb = &data[stco.payload_start()..stco.end()];
    if cb.len() < 12 {
        return Err(custom("progressive MP4 stco truncated"));
    }
    let chunk_offset = read_be32(cb, 8);
    let mut locs: Vec<AlacPacketLoc> = Vec::new();
    let mut offset: u64 = chunk_offset as u64;
    let mut k: u32 = 0;
    while k < sample_count
        invariant
            sb@.len() >= 12,
            default_size == be_value(sb@, 4, 4),
            sample_count == be_value(sb@, 8, 4),
            default_size == 0 ==> sb@.len() >= 12 + 4 * sample_count,
            k <= sample_count,
            offset == chunk_offset + size_sum(sb@, k as nat),
            offset <= chunk_offset + k * 0xffff_ffff,
            locs@.len() == k,
            forall|j: int|
                0 <= j < k ==> #[trigger] locs@[j] == (AlacPacketLoc {
                    offset: (chunk_offset + size_sum(sb@, j as nat)) as u64,
                    size: sample_size_at(sb@, j) as u64,
                }),
        decreases sample_count - k,
    {
        let size: u32 = if default_size == 0 {
            assert(12 + 4 * k + 4 <= sb@.len()) by (nonlinear_arith)
                requires
                    k < sample_count,
                    sb@.len() >= 12 + 4 * sample_count,
            ;
            let kk = k as usize;
            assert(12 + 4 * kk + 4 <= sb.len());
            read_be32(sb, 12 + 4 * kk)
        } else {
            default_size
        };
        assert(chunk_offset + k * 0xffff_ffff + 0xffff_ffff <= 0xffff_ffff + 0xffff_ffff
            * 0xffff_ffff) by (nonlinear_arith)
            requires
                k < sample_count,
                sample_count <= 0xffff_ffff,
                chunk_offset <= 0xffff_ffff,
        ;
        assert((k + 1) * 0xffff_ffff == k * 0xffff_ffff + 0xffff_ffff) by (nonlinear_arith);
        locs.push(AlacPacketLoc { offset, size: size as u64 });
        offset = offset + size as u64;
        k = k + 1;
    }
    proof {
        let cbs = data@.subrange(
            stco.start + stco.header_size,
            stco.start + stco.size,
        );
        assert(cb@ == cbs);
        let target = Seq::new(
            sample_count as nat,
            |j: int|
                AlacPacketLoc {
                    offset: (chunk_offset + size_sum(sb@, j as nat)) as u64,
                    size: sample_size_at(sb@, j) as u64,
                },
        );
        assert(locs@ =~= target);
    }
    Ok(locs)
}

/// The packets from the `k`-th on checked and patched in turn: a packet
/// that lies within the data, whose audio body scans to an end with room
/// for three more bits, and that is not already followed by the end tag,
/// gets the tag written there and the rest of its bits cleared.
pub open spec fn fix_from(d: Seq<u8>, locs: Seq<AlacPacketLoc>, k: nat, p: AlacParams) -> Seq<u8>
    decreases locs.len() - k,
{
    if k >= locs.len() {
        d
    } else {
        let loc = locs[k as int];
        let next = if loc.offset + loc.size > d.len() {
            d
        } else {
            let packet = d.subrange(loc.offset as int, loc.offset + loc.size);
            let be = body_end_spec(packet, p);
            if be < 0 || be + 3 > loc.size * 8 {
                d
            } else if bits_val(packet, be, 3) == 7 {
                d
            } else {
                patch_spec(d, loc.offset as int, loc.size as int, be)
            }
        };
        fix_from(next, locs, k + 1, p)
    }
}

/// A progressive file with each ALAC packet that lacks its end tag
/// patched; unchanged when the file has no ALAC configuration.
pub open spec fn fix_spec(data: Seq<u8>) -> Result<Seq<u8>, Seq<char>> {
    match alac_params_spec(data) {
        Err(e) => Err(e),
        Ok(None) => Ok(data),
        Ok(Some(p)) => match packet_locs_spec(data) {
            Err(e) => Err(e),
            Ok(locs) => Ok(fix_from(data, locs, 0, p)),
        },
    }
}

pub fn fix_alac_packets_in_progressive(data: &mut Vec<u8>) -> (r: Result<(), BotError>)
    requires
        total_bits(old(data)@) <= isize::MAX,
    ensures
        match fix_spec(old(data)@) {
            Ok(d) => r is Ok && final(data)@ == d,
            Err(m) => r matches Err(BotError::Custom(e)) && e@ == m,
        },
{
    let params = match find_alac_params(data.as_slice()) {
        Ok(Some(p)) => p,
        Ok(None) => return Ok(()),
        Err(e) => return Err(e),
    };
    let locs = match find_progressive_packet_locations(data.as_slice()) {
        Ok(l) => l,
        Err(e) => return Err(e),
    };
    let ghost d0 = data@;
    let mut k: usize = 0;
    while k < locs.len()
        invariant
                total_bits(data@) <= isize::MAX,
            data@.len() == d0.len(),
            k <= locs@.len(),
            fix_from(data@, locs@, k as nat, params) == fix_from(d0, locs@, 0, params),
        decreases locs.len() - k,
    {
        let loc = locs[k];
        let len = data.len() as u64;
        if loc.offset > len || loc.size > len - loc.offset {
            k = k + 1;
            continue;
        }
        let off = loc.offset as usize;
        let size = loc.size as usize;
        let ghost packet = data@.subrange(off as int, off + size);
        let body_end = alac_find_body_end_bit(&data.as_slice()[off..off + size], &params);
        if body_end < 0 || body_end as usize > size * 8 || size * 8 - (body_end as usize) < 3 {
            k = k + 1;
            continue;
        }
        let be = body_end as usize;
        let mut reader = AlacBitReader::new(&data.as_slice()[off..off + size]);
        let _ = reader.skip(be);
        if reader.left() >= 3 && reader.show(3) == Some(7u32) {
            k = k + 1;
            continue;
        }
        let ghost before = data@;
        let _ = alac_patch_in_place(data, off, size, be);
        proof {
            lemma_patched_is_patch_spec(before, data@, off as int, size as int, be as int);
        }
        k = k + 1;
    }
    Ok(())
}

} // verus!
