//! The index-level plan of a Welch power-spectral-density estimate.
//!
//! The floating-point work of the estimate — windowing, the transform
//! itself, magnitudes, averaging, the decibel conversion — is the caller's;
//! this module pins down everything the estimate decides with integers: how
//! a capture is zero-padded and cut into overlapping segments, how many
//! segments the average divides by, how the two-sided frequency axis is laid
//! out, and the fftshift reordering that centers it on DC.
use vstd::prelude::*;

use vstd::arithmetic::div_mod::lemma_fundamental_div_mod_converse;

verus! {

/// How many segments of length `nfft`, at stride `step`, fit in `len`
/// samples: one at every multiple of `step` while a full segment remains.
/// This is also the count the averaged spectrum is divided by.
pub open spec fn spec_segment_count(len: int, nfft: int, step: int) -> int {
    (len - nfft) / step + 1
}

/// The start offsets of the overlapping segments: `i * (nfft - noverlap)`
/// for every `i` while a full segment of `nfft` samples still fits.
pub fn segment_starts(len: usize, nfft: usize, noverlap: usize) -> (starts: Vec<usize>)
    requires
        1 <= nfft <= len,
        noverlap < nfft,
    ensures
        starts@.len() == spec_segment_count(len as int, nfft as int, (nfft - noverlap) as int),
        forall|i: int| 0 <= i < starts@.len() ==> starts@[i] == i * (nfft - noverlap),
        forall|i: int| 0 <= i < starts@.len() ==> starts@[i] + nfft <= len,
{
    let step = nfft - noverlap;
    let mut starts: Vec<usize> = Vec::new();
    let mut s: usize = 0;
    proof {
        assert(starts@.len() == 0);
        assert(0int * step as int == 0) by (nonlinear_arith);
    }
    while s <= len - nfft
        invariant
            1 <= nfft <= len,
            1 <= step <= nfft,
            s as int == starts@.len() as int * step as int,
            forall|i: int| 0 <= i < starts@.len() ==> starts@[i] == i * step,
            forall|i: int| 0 <= i < starts@.len() ==> starts@[i] + nfft <= len,
            starts@.len() > 0 ==> (starts@.len() - 1) * step <= len - nfft,
        decreases len - s,
    {
        let ghost n = starts@.len() as int;
        starts.push(s);
        s = s + step;
        proof {
            assert((n + 1) * step as int == n * step as int + step as int) by (nonlinear_arith);
        }
    }
    proof {
        let n = starts@.len() as int;
        assert(n >= 1);
        let r = (len - nfft) - (n - 1) * step;
        assert(n * step > len - nfft);
        assert(r < step) by (nonlinear_arith)
            requires
                n * step > len - nfft,
                r == (len - nfft) - (n - 1) * step,
                step >= 1,
        ;
        lemma_fundamental_div_mod_converse((len - nfft) as int, step as int, n - 1, r);
        assert((len - nfft) / (step as int) == n - 1);
    }
    starts
}

/// Copies `v` and extends it with `fill` to at least `n` elements; a PSD
/// input shorter than one segment is padded this way with zero samples.
pub fn pad_to<T: Copy>(v: &Vec<T>, n: usize, fill: T) -> (r: Vec<T>)
    ensures
        r@.len() == if v@.len() >= n {
            v@.len() as int
        } else {
            n as int
        },
        forall|i: int| 0 <= i < v@.len() ==> r@[i] == v@[i],
        forall|i: int| v@.len() <= i < r@.len() ==> r@[i] == fill,
{
    let mut r: Vec<T> = Vec::new();
    let mut i: usize = 0;
    while i < v.len()
        invariant
            i <= v@.len(),
            r@.len() == i,
            forall|j: int| 0 <= j < i ==> r@[j] == v@[j],
        decreases v@.len() - i,
    {
        r.push(v[i]);
        i = i + 1;
    }
    while r.len() < n
        invariant
            r@.len() >= v@.len(),
            forall|j: int| 0 <= j < v@.len() ==> r@[j] == v@[j],
            forall|j: int| v@.len() <= j < r@.len() ==> r@[j] == fill,
            r@.len() > v@.len() ==> r@.len() <= n,
        decreases n - r@.len(),
    {
        r.push(fill);
    }
    r
}

/// The circular half-rotation that moves the upper (negative-frequency)
/// half of a spectrum in front of the lower half, yielding an axis centered
/// on DC.
pub fn fftshift<T: Copy>(v: &Vec<T>) -> (r: Vec<T>)
    ensures
        r@.len() == v@.len(),
        r@ == v@.subrange(v@.len() as int / 2, v@.len() as int) + v@.subrange(
            0,
            v@.len() as int / 2,
        ),
        forall|j: int|
            0 <= j < v@.len() - v@.len() as int / 2 ==> r@[j] == v@[j + v@.len() as int / 2],
        forall|j: int|
            v@.len() - v@.len() as int / 2 <= j < v@.len() ==> r@[j] == v@[j - (v@.len()
                - v@.len() as int / 2)],
{
    let half = v.len() / 2;
    let mut r: Vec<T> = Vec::new();
    let mut i: usize = half;
    while i < v.len()
        invariant
            half == v@.len() as int / 2,
            half <= i <= v@.len(),
            r@.len() == i - half,
            forall|j: int| 0 <= j < i - half ==> r@[j] == v@[j + half],
        decreases v@.len() - i,
    {
        r.push(v[i]);
        i = i + 1;
    }
    let mut k: usize = 0;
    while k < half
        invariant
            half == v@.len() as int / 2,
            k <= half <= v@.len(),
            r@.len() == v@.len() - half + k,
            forall|j: int| 0 <= j < v@.len() - half ==> r@[j] == v@[j + half],
            forall|j: int| v@.len() - half <= j < r@.len() ==> r@[j] == v@[j - (v@.len() - half)],
        decreases half - k,
    {
        r.push(v[k]);
        k = k + 1;
    }
    proof {
        assert(r@ =~= v@.subrange(v@.len() as int / 2, v@.len() as int) + v@.subrange(
            0,
            v@.len() as int / 2,
        ));
    }
    r
}

/// The frequency of unshifted FFT bin `i`, in units of `rate / nfft`: bins
/// from `nfft / 2` up wrap around to negative frequencies.
pub open spec fn spec_freq_numerator(i: int, nfft: int) -> int {
    if i < nfft / 2 {
        i
    } else {
        i - nfft
    }
}

/// The already-shifted frequency axis, in units of `rate / nfft`: entry `j`
/// is the numerator of the frequency of shifted bin `j`. The axis ascends by
/// one from `-(nfft - nfft / 2)`; multiplying by `rate / nfft` gives the
/// axis in hertz, centered on DC.
pub fn shifted_freq_numerators(nfft: usize) -> (r: Vec<i64>)
    requires
        nfft <= 0x7fff_ffff_ffff_ffff,
    ensures
        r@.len() == nfft,
        forall|j: int| 0 <= j < nfft ==> r@[j] == j - (nfft - nfft as int / 2),
        forall|j: int|
            0 <= j < nfft ==> r@[j] == spec_freq_numerator(
                (j + nfft as int / 2) % (nfft as int),
                nfft as int,
            ),
{
    let half = nfft / 2;
    let tail = nfft - half;
    let mut r: Vec<i64> = Vec::new();
    let mut j: usize = 0;
    while j < nfft
        invariant
            half == nfft as int / 2,
            tail == nfft - half,
            nfft <= 0x7fff_ffff_ffff_ffff,
            j <= nfft,
            r@.len() == j,
            forall|i: int| 0 <= i < j ==> r@[i] == i - (nfft - nfft as int / 2),
        decreases nfft - j,
    {
        let v: i64 = (j as i64) - (tail as i64);
        r.push(v);
        j = j + 1;
    }
    proof {
        let n = nfft as int;
        let h = n / 2;
        assert forall|i: int| 0 <= i < n implies r@[i] == spec_freq_numerator(
            (i + h) % n,
            n,
        ) by {
            if i < n - h {
                lemma_fundamental_div_mod_converse(i + h, n, 0, i + h);
                assert((i + h) % n == i + h);
            } else {
                lemma_fundamental_div_mod_converse(i + h, n, 1, i + h - n);
                assert((i + h) % n == i + h - n);
            }
        }
    }
    r
}

} // verus!
