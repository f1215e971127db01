//! Guessing a capture's sample layout from its file name.
use vstd::prelude::*;

use vstd::string::StringSliceAdditionalSpecFns;

verus! {

/// The two sample layouts a capture file can hold.
#[derive(PartialEq, Eq, Clone, Copy, Structural, Debug)]
pub enum SignalType {
    Float32,
    Complex64,
}

/// `s` ends with `suffix`.
pub open spec fn spec_ends_with(s: Seq<u8>, suffix: Seq<u8>) -> bool {
    s.len() >= suffix.len() && s.subrange(s.len() - suffix.len(), s.len() as int) == suffix
}

/// The bytes of the extension `.cf32`, the conventional name for interleaved
/// complex 32-bit float captures.
pub open spec fn spec_cf32_suffix() -> Seq<u8> {
    seq![46u8, 99u8, 102u8, 51u8, 50u8]
}

/// The bytes of the extension `.f32`, the conventional name for real 32-bit
/// float captures.
pub open spec fn spec_f32_suffix() -> Seq<u8> {
    seq![46u8, 102u8, 51u8, 50u8]
}

/// Guesses the sample layout from the file name's extension: `.cf32` means
/// complex, `.f32` means real, anything else is unknown.
pub fn guess_signal_type(filename: &str) -> (t: Option<SignalType>)
    ensures
        t == if spec_ends_with(filename.spec_bytes(), spec_cf32_suffix()) {
            Some(SignalType::Complex64)
        } else if spec_ends_with(filename.spec_bytes(), spec_f32_suffix()) {
            Some(SignalType::Float32)
        } else {
            None::<SignalType>
        },
{
    let b = filename.as_bytes();
    let n = b.len();
    let ghost bs = filename.spec_bytes();
    // the bytes of ".cf32" and ".f32", checked from the end of the name
    if n >= 5 && b[n - 5] == 46 && b[n - 4] == 99 && b[n - 3] == 102 && b[n - 2] == 51 && b[n - 1]
        == 50 {
        proof {
            assert(bs.subrange(bs.len() - 5, bs.len() as int) =~= spec_cf32_suffix());
        }
        Some(SignalType::Complex64)
    } else if n >= 4 && b[n - 4] == 46 && b[n - 3] == 102 && b[n - 2] == 51 && b[n - 1] == 50 {
        proof {
            if spec_ends_with(bs, spec_cf32_suffix()) {
                assert(bs[bs.len() - 5] == spec_cf32_suffix()[0]);
                assert(bs[bs.len() - 4] == spec_cf32_suffix()[1]);
            }
            assert(bs.subrange(bs.len() - 4, bs.len() as int) =~= spec_f32_suffix());
        }
        Some(SignalType::Float32)
    } else {
        proof {
            if spec_ends_with(bs, spec_cf32_suffix()) {
                assert(bs[bs.len() - 5] == spec_cf32_suffix()[0]);
                assert(bs[bs.len() - 4] == spec_cf32_suffix()[1]);
                assert(bs[bs.len() - 3] == spec_cf32_suffix()[2]);
                assert(bs[bs.len() - 2] == spec_cf32_suffix()[3]);
                assert(bs[bs.len() - 1] == spec_cf32_suffix()[4]);
            }
            if spec_ends_with(bs, spec_f32_suffix()) {
                assert(bs[bs.len() - 4] == spec_f32_suffix()[0]);
                assert(bs[bs.len() - 3] == spec_f32_suffix()[1]);
                assert(bs[bs.len() - 2] == spec_f32_suffix()[2]);
                assert(bs[bs.len() - 1] == spec_f32_suffix()[3]);
            }
        }
        None
    }
}

} // verus!
