//! Byte-level decoding of raw little-endian sample captures, and the
//! matching encoding used to export the visible window.
//!
//! A real capture is a flat sequence of 32-bit floats, four little-endian
//! bytes each; a complex capture interleaves in-phase and quadrature
//! components, eight bytes per sample. Decoding yields the bit patterns the
//! rest of the library works on, together with the number of trailing bytes
//! that did not fill a whole sample — a misaligned buffer is truncated, but
//! the dropped count is reported rather than silently discarded.
use vstd::prelude::*;

use crate::sample::IqSample;
use vstd::arithmetic::div_mod::lemma_div_by_multiple;
use vstd::arithmetic::div_mod::lemma_fundamental_div_mod;
use vstd::arithmetic::div_mod::lemma_mod_multiples_basic;

verus! {

/// The 32-bit value stored little-endian in four bytes.
pub open spec fn spec_u32_le(b0: u8, b1: u8, b2: u8, b3: u8) -> u32 {
    (b0 as int + b1 as int * 0x100 + b2 as int * 0x1_0000 + b3 as int * 0x100_0000) as u32
}

/// Byte `k` of the little-endian encoding of `x`.
pub open spec fn spec_le_byte(x: u32, k: int) -> u8 {
    if k == 0 {
        (x as int % 0x100) as u8
    } else if k == 1 {
        (x as int / 0x100 % 0x100) as u8
    } else if k == 2 {
        (x as int / 0x1_0000 % 0x100) as u8
    } else {
        (x as int / 0x100_0000 % 0x100) as u8
    }
}

/// The four little-endian bytes of a 32-bit value recover it.
pub proof fn lemma_u32_le_of_bytes(x: u32)
    ensures
        spec_u32_le(spec_le_byte(x, 0), spec_le_byte(x, 1), spec_le_byte(x, 2), spec_le_byte(x, 3))
            == x,
{
    let y = x as int;
    assert(y % 0x100 + y / 0x100 % 0x100 * 0x100 + y / 0x1_0000 % 0x100 * 0x1_0000 + y / 0x100_0000
        % 0x100 * 0x100_0000 == y) by (nonlinear_arith)
        requires
            0 <= y < 0x1_0000_0000,
    ;
}

/// Encoding a value assembled from four bytes hands the bytes back.
pub proof fn lemma_le_bytes_of_u32(b0: u8, b1: u8, b2: u8, b3: u8)
    ensures
        spec_le_byte(spec_u32_le(b0, b1, b2, b3), 0) == b0,
        spec_le_byte(spec_u32_le(b0, b1, b2, b3), 1) == b1,
        spec_le_byte(spec_u32_le(b0, b1, b2, b3), 2) == b2,
        spec_le_byte(spec_u32_le(b0, b1, b2, b3), 3) == b3,
{
    let v = b0 as int + b1 as int * 0x100 + b2 as int * 0x1_0000 + b3 as int * 0x100_0000;
    assert(v % 0x100 == b0 as int && v / 0x100 % 0x100 == b1 as int && v / 0x1_0000 % 0x100
        == b2 as int && v / 0x100_0000 % 0x100 == b3 as int) by (nonlinear_arith)
        requires
            v == b0 as int + b1 as int * 0x100 + b2 as int * 0x1_0000 + b3 as int * 0x100_0000,
            (b0 as int) < 0x100 && (b1 as int) < 0x100 && (b2 as int) < 0x100 && (b3 as int)
                < 0x100,
            (b0 as int) >= 0 && (b1 as int) >= 0 && (b2 as int) >= 0 && (b3 as int) >= 0,
    ;
}

/// Export then reload is the identity: a byte sequence that encodes some
/// real samples, decoded again, yields exactly those samples and no dropped
/// tail.
pub proof fn lemma_real_codec_round_trip(samples: Seq<u32>, bytes: Seq<u8>, decoded: Seq<u32>)
    requires
        bytes.len() == 4 * samples.len(),
        forall|i: int, k: int|
            0 <= i < samples.len() && 0 <= k < 4 ==> bytes[4 * i + k] == spec_le_byte(
                samples[i],
                k,
            ),
        decoded.len() == bytes.len() as int / 4,
        forall|i: int|
            0 <= i < decoded.len() ==> decoded[i] == spec_u32_le(
                bytes[4 * i],
                bytes[4 * i + 1],
                bytes[4 * i + 2],
                bytes[4 * i + 3],
            ),
    ensures
        bytes.len() as int % 4 == 0,
        decoded == samples,
{
    lemma_div_by_multiple(samples.len() as int, 4);
    lemma_mod_multiples_basic(samples.len() as int, 4);
    assert(decoded.len() == samples.len());
    assert forall|i: int| 0 <= i < samples.len() implies decoded[i] == samples[i] by {
        lemma_u32_le_of_bytes(samples[i]);
    }
    assert(decoded =~= samples);
}

/// Decodes a raw real capture: each whole group of four bytes becomes one
/// sample encoding, and the count of leftover bytes is reported.
pub fn decode_real(bytes: &[u8]) -> (r: (Vec<u32>, usize))
    ensures
        r.0@.len() == bytes@.len() as int / 4,
        r.1 == bytes@.len() as int % 4,
        forall|i: int|
            0 <= i < r.0@.len() ==> r.0@[i] == spec_u32_le(
                bytes@[4 * i],
                bytes@[4 * i + 1],
                bytes@[4 * i + 2],
                bytes@[4 * i + 3],
            ),
{
    let len = bytes.len();
    let n = len / 4;
    proof {
        lemma_fundamental_div_mod(len as int, 4);
    }
    let mut out: Vec<u32> = Vec::new();
    let mut i: usize = 0;
    while i < n
        invariant
            n == bytes@.len() as int / 4,
            4 * n <= bytes@.len(),
            bytes@.len() <= usize::MAX,
            i <= n,
            out@.len() == i,
            forall|j: int|
                0 <= j < i ==> out@[j] == spec_u32_le(
                    bytes@[4 * j],
                    bytes@[4 * j + 1],
                    bytes@[4 * j + 2],
                    bytes@[4 * j + 3],
                ),
        decreases n - i,
    {
        let base = 4 * i;
        let v = bytes[base] as u32 + (bytes[base + 1] as u32) * 0x100 + (bytes[base + 2] as u32)
            * 0x1_0000 + (bytes[base + 3] as u32) * 0x100_0000;
        out.push(v);
        i = i + 1;
    }
    (out, len % 4)
}

/// Decodes a raw complex capture: each whole group of eight bytes becomes
/// one I/Q sample encoding, in-phase first, and the count of leftover bytes
/// is reported.
pub fn decode_complex(bytes: &[u8]) -> (r: (Vec<IqSample>, usize))
    ensures
        r.0@.len() == bytes@.len() as int / 8,
        r.1 == bytes@.len() as int % 8,
        forall|i: int|
            0 <= i < r.0@.len() ==> r.0@[i] == (IqSample {
                re: spec_u32_le(
                    bytes@[8 * i],
                    bytes@[8 * i + 1],
                    bytes@[8 * i + 2],
                    bytes@[8 * i + 3],
                ),
                im: spec_u32_le(
                    bytes@[8 * i + 4],
                    bytes@[8 * i + 5],
                    bytes@[8 * i + 6],
                    bytes@[8 * i + 7],
                ),
            }),
{
    let len = bytes.len();
    let n = len / 8;
    proof {
        lemma_fundamental_div_mod(len as int, 8);
    }
    let mut out: Vec<IqSample> = Vec::new();
    let mut i: usize = 0;
    while i < n
        invariant
            n == bytes@.len() as int / 8,
            8 * n <= bytes@.len(),
            bytes@.len() <= usize::MAX,
            i <= n,
            out@.len() == i,
            forall|j: int|
                0 <= j < i ==> out@[j] == (IqSample {
                    re: spec_u32_le(
                        bytes@[8 * j],
                        bytes@[8 * j + 1],
                        bytes@[8 * j + 2],
                        bytes@[8 * j + 3],
                    ),
                    im: spec_u32_le(
                        bytes@[8 * j + 4],
                        bytes@[8 * j + 5],
                        bytes@[8 * j + 6],
                        bytes@[8 * j + 7],
                    ),
                }),
        decreases n - i,
    {
        let base = 8 * i;
        let re = bytes[base] as u32 + (bytes[base + 1] as u32) * 0x100 + (bytes[base + 2] as u32)
            * 0x1_0000 + (bytes[base + 3] as u32) * 0x100_0000;
        let im = bytes[base + 4] as u32 + (bytes[base + 5] as u32) * 0x100 + (bytes[base
            + 6] as u32) * 0x1_0000 + (bytes[base + 7] as u32) * 0x100_0000;
        out.push(IqSample { re, im });
        i = i + 1;
    }
    (out, len % 8)
}

/// Encodes real sample encodings back to little-endian bytes, four per
/// sample, for export.
pub fn encode_real(samples: &[u32]) -> (r: Vec<u8>)
    requires
        samples@.len() <= usize::MAX as int / 4,
    ensures
        r@.len() == 4 * samples@.len(),
        forall|i: int, k: int|
            0 <= i < samples@.len() && 0 <= k < 4 ==> r@[4 * i + k] == spec_le_byte(
                samples@[i],
                k,
            ),
{
    let n = samples.len();
    let mut r: Vec<u8> = Vec::new();
    let mut i: usize = 0;
    while i < n
        invariant
            n == samples@.len(),
            n <= usize::MAX as int / 4,
            i <= n,
            r@.len() == 4 * i,
            forall|j: int, k: int|
                0 <= j < i && 0 <= k < 4 ==> r@[4 * j + k] == spec_le_byte(samples@[j], k),
        decreases n - i,
    {
        let x = samples[i];
        r.push((x % 0x100) as u8);
        r.push((x / 0x100 % 0x100) as u8);
        r.push((x / 0x1_0000 % 0x100) as u8);
        r.push((x / 0x100_0000 % 0x100) as u8);
        i = i + 1;
    }
    r
}

/// Encodes I/Q sample encodings back to interleaved little-endian bytes,
/// in-phase then quadrature, eight per sample, for export.
pub fn encode_complex(samples: &[IqSample]) -> (r: Vec<u8>)
    requires
        samples@.len() <= usize::MAX as int / 8,
    ensures
        r@.len() == 8 * samples@.len(),
        forall|i: int, k: int|
            0 <= i < samples@.len() && 0 <= k < 4 ==> r@[8 * i + k] == spec_le_byte(
                samples@[i].re,
                k,
            ),
        forall|i: int, k: int|
            0 <= i < samples@.len() && 0 <= k < 4 ==> r@[8 * i + 4 + k] == spec_le_byte(
                samples@[i].im,
                k,
            ),
{
    let n = samples.len();
    let mut r: Vec<u8> = Vec::new();
    let mut i: usize = 0;
    while i < n
        invariant
            n == samples@.len(),
            n <= usize::MAX as int / 8,
            i <= n,
            r@.len() == 8 * i,
            forall|j: int, k: int|
                0 <= j < i && 0 <= k < 4 ==> r@[8 * j + k] == spec_le_byte(samples@[j].re, k),
            forall|j: int, k: int|
                0 <= j < i && 0 <= k < 4 ==> r@[8 * j + 4 + k] == spec_le_byte(samples@[j].im, k),
        decreases n - i,
    {
        let x = samples[i].re;
        let y = samples[i].im;
        r.push((x % 0x100) as u8);
        r.push((x / 0x100 % 0x100) as u8);
        r.push((x / 0x1_0000 % 0x100) as u8);
        r.push((x / 0x100_0000 % 0x100) as u8);
        r.push((y % 0x100) as u8);
        r.push((y / 0x100 % 0x100) as u8);
        r.push((y / 0x1_0000 % 0x100) as u8);
        r.push((y / 0x100_0000 % 0x100) as u8);
        i = i + 1;
    }
    r
}

} // verus!
