//! The multi-resolution min/max decimation pyramid.
//!
//! Level 0 holds the original samples. Each further level halves the previous
//! one: the previous level is walked in chunks of four elements, and every
//! chunk is replaced by two elements, the componentwise envelope maximum and
//! minimum of the chunk. Element `i` of level `k` therefore summarizes the
//! samples around original index `i * 2^k`, and the pair `(2j, 2j + 1)` of
//! level `k` bounds every original sample in its source span — the
//! envelope-preservation invariant proved in `lemma_envelope`.
//!
//! An odd tail is kept, not dropped: a final partial chunk still produces its
//! max/min pair, so every level past the first has an even length,
//! `round_up_to_even(ceil(previous / 2))`.
use vstd::prelude::*;

use crate::sample::Downconvert;
use vstd::arithmetic::div_mod::lemma_div_denominator;
use vstd::arithmetic::div_mod::lemma_div_is_ordered;
use vstd::arithmetic::div_mod::lemma_fundamental_div_mod;
use vstd::arithmetic::div_mod::lemma_fundamental_div_mod_converse;
use vstd::arithmetic::div_mod::lemma_mod_bound;
use vstd::arithmetic::power2::lemma2_to64;
use vstd::arithmetic::power2::lemma_pow2_adds;
use vstd::arithmetic::power2::lemma_pow2_pos;
use vstd::arithmetic::power2::lemma_pow2_strictly_increases;
use vstd::arithmetic::power2::lemma_pow2_unfold;
use vstd::arithmetic::power2::pow2;

verus! {

/// Length of one decimation step applied to a level of length `l`:
/// two output elements per chunk of four input elements, a partial final
/// chunk included.
pub open spec fn dc_len(l: int) -> int {
    2 * ((l + 3) / 4)
}

/// The smaller of two integers.
pub open spec fn spec_min(a: int, b: int) -> int {
    if a <= b {
        a
    } else {
        b
    }
}

/// Floor of the base-two logarithm; the exact exponent when `n` is a power
/// of two.
pub open spec fn spec_lg(n: int) -> nat
    decreases n,
{
    if n <= 1 {
        0
    } else {
        (1 + spec_lg(n / 2)) as nat
    }
}

/// `n` is an exact power of two.
pub open spec fn spec_is_pow2(n: int) -> bool {
    n >= 1 && pow2(spec_lg(n)) == n
}

/// `x` rounded up to an even number.
pub open spec fn round_up_to_even(x: int) -> int {
    if x % 2 == 0 {
        x
    } else {
        x + 1
    }
}

/// Envelope maximum of a non-empty sequence: the fold of the componentwise
/// join over its elements.
pub open spec fn chunk_join<T: Downconvert>(s: Seq<T>) -> T
    recommends
        s.len() >= 1,
    decreases s.len(),
{
    if s.len() <= 1 {
        s[0]
    } else {
        chunk_join(s.drop_last()).spec_join(s.last())
    }
}

/// Envelope minimum of a non-empty sequence.
pub open spec fn chunk_meet<T: Downconvert>(s: Seq<T>) -> T
    recommends
        s.len() >= 1,
    decreases s.len(),
{
    if s.len() <= 1 {
        s[0]
    } else {
        chunk_meet(s.drop_last()).spec_meet(s.last())
    }
}

/// One decimation step: element `2j` is the envelope maximum and element
/// `2j + 1` the envelope minimum of the chunk `s[4j .. min(4j + 4, len)]`.
pub open spec fn spec_downconvert<T: Downconvert>(s: Seq<T>) -> Seq<T> {
    Seq::new(
        dc_len(s.len() as int) as nat,
        |i: int|
            {
                let lo = 4 * (i / 2);
                let hi = if lo + 4 <= s.len() {
                    lo + 4
                } else {
                    s.len() as int
                };
                if i % 2 == 0 {
                    chunk_join(s.subrange(lo, hi))
                } else {
                    chunk_meet(s.subrange(lo, hi))
                }
            },
    )
}

/// Every element of a non-empty sequence is at or below its envelope maximum
/// and at or above its envelope minimum.
pub proof fn lemma_chunk_bounds<T: Downconvert>(s: Seq<T>, i: int)
    requires
        0 <= i < s.len(),
    ensures
        s[i].le(chunk_join(s)),
        chunk_meet(s).le(s[i]),
    decreases s.len(),
{
    if s.len() <= 1 {
        T::lemma_le_refl(s[0]);
    } else {
        if i == s.len() - 1 {
            T::lemma_join_bound(chunk_join(s.drop_last()), s.last());
            T::lemma_meet_bound(chunk_meet(s.drop_last()), s.last());
        } else {
            lemma_chunk_bounds(s.drop_last(), i);
            T::lemma_join_bound(chunk_join(s.drop_last()), s.last());
            T::lemma_le_trans(s[i], chunk_join(s.drop_last()), chunk_join(s));
            T::lemma_meet_bound(chunk_meet(s.drop_last()), s.last());
            T::lemma_le_trans(chunk_meet(s), chunk_meet(s.drop_last()), s[i]);
        }
    }
}

/// For real samples the envelope order is total and the fold picks one of
/// its arguments, so a level's max and min entries are not only bounds on
/// their chunk — they are themselves samples of it.
pub proof fn lemma_real_chunk_extrema_attained(s: Seq<u32>)
    requires
        s.len() >= 1,
    ensures
        s.contains(chunk_join(s)),
        s.contains(chunk_meet(s)),
    decreases s.len(),
{
    if s.len() <= 1 {
        assert(s[0] == s[0]);
        assert(s.contains(s[0]));
    } else {
        let head = s.drop_last();
        lemma_real_chunk_extrema_attained(head);
        assert(s.contains(s.last()));
        if chunk_join(s) != s.last() {
            let i = choose|i: int| 0 <= i < head.len() && head[i] == chunk_join(head);
            assert(s[i] == chunk_join(s));
            assert(s.contains(chunk_join(s)));
        }
        if chunk_meet(s) != s.last() {
            let i = choose|i: int| 0 <= i < head.len() && head[i] == chunk_meet(head);
            assert(s[i] == chunk_meet(s));
            assert(s.contains(chunk_meet(s)));
        }
    }
}

/// Appending one element to a non-empty prefix extends the fold by one join
/// or meet.
proof fn lemma_chunk_extend<T: Downconvert>(s: Seq<T>, lo: int, k: int)
    requires
        0 <= lo < k < s.len(),
    ensures
        chunk_join(s.subrange(lo, k + 1)) == chunk_join(s.subrange(lo, k)).spec_join(s[k]),
        chunk_meet(s.subrange(lo, k + 1)) == chunk_meet(s.subrange(lo, k)).spec_meet(s[k]),
{
    let ext = s.subrange(lo, k + 1);
    assert(ext.drop_last() =~= s.subrange(lo, k));
    assert(ext.last() == s[k]);
}

/// A decimated level keeps at least half the length of its source, in the
/// sense of integer division.
proof fn lemma_dc_len_lower(l: int)
    requires
        l >= 0,
    ensures
        dc_len(l) >= l / 2,
        dc_len(l) >= 0,
{
    assert(l == 4 * (l / 4) + l % 4) by {
        lemma_fundamental_div_mod(l, 4);
    }
    assert(l == 2 * (l / 2) + l % 2) by {
        lemma_fundamental_div_mod(l, 2);
    }
    assert(2 * ((l + 3) / 4) >= l / 2) by (nonlinear_arith)
        requires
            l >= 0,
    ;
}

/// One decimation step over a full level: chunks of four are folded into
/// max/min pairs, a partial final chunk included.
pub fn minmax_downconvert<T: Downconvert>(src: &Vec<T>) -> (dst: Vec<T>)
    ensures
        dst@ == spec_downconvert(src@),
{
    let len = src.len();
    let n_chunks: usize = len / 4 + if len % 4 == 0 {
        0
    } else {
        1
    };
    proof {
        lemma_fundamental_div_mod(len as int, 4);
    }
    let mut dst: Vec<T> = Vec::new();
    let mut c: usize = 0;
    while c < n_chunks
        invariant
            c <= n_chunks,
            len == src@.len(),
            n_chunks == (len as int + 3) / 4,
            dst@.len() == 2 * c,
            forall|j: int| 0 <= j < 2 * c ==> dst@[j] == spec_downconvert(src@)[j],
        decreases n_chunks - c,
    {
        proof {
            lemma_fundamental_div_mod(len as int, 4);
        }
        let lo = 4 * c;
        let hi = if len - lo >= 4 {
            lo + 4
        } else {
            len
        };
        let mut mx = src[lo];
        let mut mn = src[lo];
        proof {
            assert(src@.subrange(lo as int, lo as int + 1) =~= seq![src@[lo as int]]);
        }
        let mut k = lo + 1;
        while k < hi
            invariant
                lo < k <= hi <= len,
                len == src@.len(),
                mx == chunk_join(src@.subrange(lo as int, k as int)),
                mn == chunk_meet(src@.subrange(lo as int, k as int)),
            decreases hi - k,
        {
            mx = mx.join(src[k]);
            mn = mn.meet(src[k]);
            proof {
                lemma_chunk_extend(src@, lo as int, k as int);
            }
            k = k + 1;
        }
        dst.push(mx);
        dst.push(mn);
        proof {
            let d = spec_downconvert(src@);
            assert((2 * c as int) / 2 == c as int);
            assert((2 * c as int + 1) / 2 == c as int);
            assert((2 * c as int) % 2 == 0);
            assert((2 * c as int + 1) % 2 == 1);
            assert(d[2 * c as int] == chunk_join(src@.subrange(lo as int, hi as int)));
            assert(d[2 * c as int + 1] == chunk_meet(src@.subrange(lo as int, hi as int)));
        }
        c = c + 1;
    }
    proof {
        assert(dst@ =~= spec_downconvert(src@));
    }
    dst
}

/// A power of two strictly below twice another power of two is at most the
/// latter: there is no power of two strictly between `p` and `2 * p`.
pub proof fn lemma_pow2_no_between(r: int, p: int)
    requires
        spec_is_pow2(r),
        spec_is_pow2(p),
        r < 2 * p,
    ensures
        r <= p,
{
    let a = spec_lg(r);
    let b = spec_lg(p);
    if a > b {
        lemma_pow2_adds(b, 1);
        lemma2_to64();
        if a > b + 1 {
            lemma_pow2_strictly_increases((b + 1) as nat, a);
        }
        assert(false);
    } else if a < b {
        lemma_pow2_strictly_increases(a, b);
    }
}

/// `spec_lg` recovers the exponent of an exact power of two.
pub proof fn lemma_lg_pow2(m: nat)
    ensures
        spec_lg(pow2(m) as int) == m,
        spec_is_pow2(pow2(m) as int),
    decreases m,
{
    if m == 0 {
        lemma2_to64();
    } else {
        lemma_lg_pow2((m - 1) as nat);
        lemma_pow2_unfold(m);
        lemma_pow2_pos((m - 1) as nat);
        assert(pow2(m) as int / 2 == pow2((m - 1) as nat) as int);
    }
}

/// Every natural number is below two to its own power.
proof fn lemma_k_lt_pow2(k: nat)
    ensures
        k < pow2(k),
    decreases k,
{
    if k == 0 {
        lemma2_to64();
    } else {
        lemma_k_lt_pow2((k - 1) as nat);
        lemma_pow2_unfold(k);
    }
}

pub struct MultiResolutionSeries<T> {
    data: Vec<Vec<T>>,
}

impl<T: Downconvert> MultiResolutionSeries<T> {
    /// Number of levels, the original samples counting as one.
    pub closed spec fn num_levels(self) -> int {
        self.data@.len() as int
    }

    /// The sequence of elements stored at level `k`.
    pub closed spec fn level(self, k: int) -> Seq<T> {
        self.data@[k]@
    }

    /// The original samples.
    pub open spec fn samples(self) -> Seq<T> {
        self.level(0)
    }

    /// Well-formedness: at least one level, every level past the first is the
    /// decimation of its predecessor, and the deepest reduction ratio does
    /// not exceed the sample count.
    pub closed spec fn wf(self) -> bool {
        &&& self.data@.len() >= 1
        &&& forall|k: int|
            1 <= k < self.data@.len() ==> #[trigger] self.data@[k]@ == spec_downconvert(
                self.data@[k - 1]@,
            )
        &&& (self.data@.len() >= 2 ==> pow2((self.data@.len() - 1) as nat) <= self.data@[0]@.len())
    }

    /// Length of the original sample buffer.
    pub fn len(&self) -> (n: usize)
        requires
            self.wf(),
        ensures
            n == self.samples().len(),
    {
        self.data[0].len()
    }

    /// Builds the pyramid over `data`. Levels are added while the next one
    /// would still hold more than `min_len` elements; empty input yields a
    /// single empty level. Deterministic and pure.
    pub fn build(data: &[T], min_len: usize) -> (s: Self)
        ensures
            s.wf(),
            s.samples() == data@,
            forall|k: int|
                1 <= k < s.num_levels() ==> data@.len() as int / #[trigger] pow2(k as nat) as int
                    > min_len,
            data@.len() as int / pow2(s.num_levels() as nat) as int <= min_len,
    {
        let mut levels: Vec<Vec<T>> = Vec::new();
        levels.push(vstd::slice::slice_to_vec(data));
        let mut cur: usize = data.len();
        proof {
            lemma2_to64();
            assert(data@.len() as int / pow2(0) as int == data@.len() as int);
        }
        loop
            invariant
                levels@.len() >= 1,
                levels@[0]@ == data@,
                forall|k: int|
                    1 <= k < levels@.len() ==> #[trigger] levels@[k]@ == spec_downconvert(
                        levels@[k - 1]@,
                    ),
                cur == data@.len() as int / pow2((levels@.len() - 1) as nat) as int,
                forall|k: int|
                    1 <= k < levels@.len() ==> data@.len() as int / #[trigger] pow2(
                        k as nat,
                    ) as int > min_len,
                levels@.len() >= 2 ==> pow2((levels@.len() - 1) as nat) <= data@.len(),
            ensures
                data@.len() as int / pow2(levels@.len() as nat) as int <= min_len,
            decreases cur,
        {
            let ghost l = levels@.len() as int;
            let ghost len0 = data@.len() as int;
            proof {
                lemma_pow2_pos((l - 1) as nat);
                lemma_pow2_pos(l as nat);
                lemma_pow2_adds((l - 1) as nat, 1);
                lemma2_to64();
                assert(pow2(l as nat) == pow2((l - 1) as nat) * 2);
                lemma_div_denominator(len0, pow2((l - 1) as nat) as int, 2);
                assert(cur as int / 2 == len0 / pow2(l as nat) as int);
            }
            let nxt = cur / 2;
            if nxt <= min_len {
                break ;
            }
            proof {
                lemma_fundamental_div_mod(len0, pow2(l as nat) as int);
                lemma_mod_bound(len0, pow2(l as nat) as int);
                assert(pow2(l as nat) <= len0) by (nonlinear_arith)
                    requires
                        len0 == pow2(l as nat) * (len0 / pow2(l as nat) as int) + len0 % pow2(
                            l as nat,
                        ) as int,
                        len0 % pow2(l as nat) as int >= 0,
                        len0 / pow2(l as nat) as int >= 1,
                        pow2(l as nat) >= 1,
                ;
            }
            let last = &levels[levels.len() - 1];
            let down = minmax_downconvert(last);
            levels.push(down);
            cur = nxt;
            proof {
                assert(levels@.len() == l + 1);
                assert(levels@[l]@ == spec_downconvert(levels@[l - 1]@));
                assert(forall|k: int|
                    1 <= k < l + 1 ==> #[trigger] levels@[k]@ == spec_downconvert(
                        levels@[k - 1]@,
                    ));
            }
        }
        MultiResolutionSeries { data: levels }
    }

    /// The sub-slice of the level whose reduction factor is `ratio`, covering
    /// `start / ratio .. min(end / ratio, len / ratio)`. The caller turns a
    /// returned position `i` back into an original-sample index as
    /// `start / ratio * ratio + i * ratio`. Requesting a ratio that is not a
    /// power of two, or one deeper than `max_ratio`, is a caller error and is
    /// excluded here rather than detected at run time.
    #[verifier::rlimit(60)]
    pub fn get(&self, start: usize, end: usize, ratio: usize) -> (out: Vec<T>)
        requires
            self.wf(),
            spec_is_pow2(ratio as int),
            spec_lg(ratio as int) < self.num_levels(),
            start <= end,
            start <= self.samples().len(),
        ensures
            out@ == self.level(spec_lg(ratio as int) as int).subrange(
                start as int / ratio as int,
                spec_min(end as int / ratio as int, self.samples().len() as int / ratio as int),
            ),
    {
        let mut r = ratio;
        let mut k: usize = 0;
        proof {
            lemma2_to64();
        }
        while r > 1
            invariant
                r >= 1,
                spec_lg(ratio as int) == k + spec_lg(r as int),
                r as int == ratio as int / pow2(k as nat) as int,
                pow2(k as nat) <= ratio,
            decreases r,
        {
            proof {
                lemma_pow2_pos(k as nat);
                lemma_pow2_adds(k as nat, 1);
                lemma2_to64();
                lemma_div_denominator(ratio as int, pow2(k as nat) as int, 2);
                lemma_fundamental_div_mod(ratio as int, pow2(k as nat) as int);
                lemma_mod_bound(ratio as int, pow2(k as nat) as int);
                assert(pow2((k + 1) as nat) <= ratio) by (nonlinear_arith)
                    requires
                        ratio as int == pow2(k as nat) * (ratio as int / pow2(k as nat) as int)
                            + ratio as int % pow2(k as nat) as int,
                        ratio as int % pow2(k as nat) as int >= 0,
                        ratio as int / pow2(k as nat) as int >= 2,
                        pow2((k + 1) as nat) == 2 * pow2(k as nat),
                ;
                assert(k < pow2(k as nat)) by {
                    lemma_k_lt_pow2(k as nat);
                }
            }
            r = r / 2;
            k = k + 1;
        }
        proof {
            assert(spec_lg(1int) == 0);
            assert(k == spec_lg(ratio as int));
            lemma_level_len_lower(*self, k as int);
            lemma_div_is_ordered(start as int, end as int, ratio as int);
            lemma_div_is_ordered(start as int, self.samples().len() as int, ratio as int);
        }
        let s_idx = start / ratio;
        let len0 = self.data[0].len();
        let cap = len0 / ratio;
        let e0 = end / ratio;
        let e_idx = if e0 < cap {
            e0
        } else {
            cap
        };
        let lvl = &self.data[k];
        let mut out: Vec<T> = Vec::new();
        let mut i = s_idx;
        while i < e_idx
            invariant
                s_idx <= i <= e_idx <= lvl@.len(),
                out@.len() == i - s_idx,
                forall|j: int| 0 <= j < i - s_idx ==> out@[j] == lvl@[s_idx + j],
            decreases e_idx - i,
        {
            out.push(lvl[i]);
            i = i + 1;
        }
        proof {
            assert(out@ =~= lvl@.subrange(
                s_idx as int,
                spec_min(end as int / ratio as int, self.samples().len() as int / ratio as int),
            ));
        }
        out
    }

    /// The deepest available reduction ratio, `2^(levels - 1)`.
    pub fn max_ratio(&self) -> (r: usize)
        requires
            self.wf(),
        ensures
            r == pow2((self.num_levels() - 1) as nat),
    {
        let n = self.data.len();
        let len0 = self.data[0].len();
        let mut r: usize = 1;
        let mut i: usize = 1;
        proof {
            lemma2_to64();
        }
        while i < n
            invariant
                1 <= i <= n,
                n == self.num_levels(),
                r == pow2((i - 1) as nat),
                n >= 2 ==> pow2((n - 1) as nat) <= len0,
                len0 <= usize::MAX,
            decreases n - i,
        {
            proof {
                if (i as int) < n - 1 {
                    lemma_pow2_strictly_increases(i as nat, (n - 1) as nat);
                }
                lemma_pow2_unfold(i as nat);
            }
            r = r * 2;
            i = i + 1;
        }
        r
    }
}

/// Each level holds at least `len / 2^k` elements, so a range query at ratio
/// `2^k` never runs past the level it reads.
proof fn lemma_level_len_lower<T: Downconvert>(p: MultiResolutionSeries<T>, k: int)
    requires
        p.wf(),
        0 <= k < p.num_levels(),
    ensures
        p.level(k).len() >= p.samples().len() as int / pow2(k as nat) as int,
    decreases k,
{
    let len0 = p.samples().len() as int;
    if k == 0 {
        lemma2_to64();
    } else {
        lemma_level_len_lower(p, k - 1);
        let lp = p.level(k - 1).len() as int;
        assert(p.level(k) == spec_downconvert(p.level(k - 1)));
        assert(p.level(k).len() == dc_len(lp));
        lemma_dc_len_lower(lp);
        lemma_pow2_pos((k - 1) as nat);
        lemma_div_is_ordered(len0 / pow2((k - 1) as nat) as int, lp, 2);
        lemma_pow2_adds((k - 1) as nat, 1);
        lemma2_to64();
        lemma_div_denominator(len0, pow2((k - 1) as nat) as int, 2);
    }
}

/// Pyramid length relation: every level past the first holds the ceiling of
/// half its predecessor's length, rounded up to an even count, all the way to
/// the stop condition.
pub proof fn lemma_level_length_relation<T: Downconvert>(p: MultiResolutionSeries<T>, k: int)
    requires
        p.wf(),
        1 <= k < p.num_levels(),
    ensures
        p.level(k).len() == round_up_to_even((p.level(k - 1).len() as int + 1) / 2),
{
    let l = p.level(k - 1).len() as int;
    assert(p.level(k) == spec_downconvert(p.level(k - 1)));
    assert(p.level(k).len() == dc_len(l));
    lemma_fundamental_div_mod(l, 4);
    lemma_mod_bound(l, 4);
    lemma_fundamental_div_mod(l + 3, 4);
    lemma_mod_bound(l + 3, 4);
    lemma_fundamental_div_mod(l + 1, 2);
    lemma_mod_bound(l + 1, 2);
    lemma_fundamental_div_mod((l + 1) / 2, 2);
    lemma_mod_bound((l + 1) / 2, 2);
    assert(dc_len(l) == round_up_to_even((l + 1) / 2)) by (nonlinear_arith)
        requires
            l >= 0,
    ;
}

/// One decimation step bounds each of its source elements: element `i` of
/// the source is covered by the output pair `(2j, 2j + 1)` with `j = i / 4`.
proof fn lemma_downconvert_pair_bounds<T: Downconvert>(s: Seq<T>, i: int)
    requires
        0 <= i < s.len(),
    ensures
        ({
            let j = i / 4;
            &&& 0 <= j
            &&& 2 * j + 1 < spec_downconvert(s).len()
            &&& s[i].le(spec_downconvert(s)[2 * j])
            &&& spec_downconvert(s)[2 * j + 1].le(s[i])
        }),
{
    let j = i / 4;
    let l = s.len() as int;
    lemma_fundamental_div_mod(i, 4);
    lemma_mod_bound(i, 4);
    assert(4 * j <= i < 4 * j + 4);
    lemma_fundamental_div_mod(l + 3, 4);
    lemma_mod_bound(l + 3, 4);
    assert(4 * ((l + 3) / 4) >= l);
    assert(j < (l + 3) / 4);
    let lo = 4 * j;
    let hi = if lo + 4 <= l {
        lo + 4
    } else {
        l
    };
    let chunk = s.subrange(lo, hi);
    assert((2 * j) / 2 == j && (2 * j) % 2 == 0);
    assert((2 * j + 1) / 2 == j && (2 * j + 1) % 2 == 1);
    assert(spec_downconvert(s).len() == dc_len(l));
    assert(2 * j + 1 < dc_len(l));
    assert(spec_downconvert(s)[2 * j] == chunk_join(chunk));
    assert(spec_downconvert(s)[2 * j + 1] == chunk_meet(chunk));
    assert(chunk[i - lo] == s[i]);
    lemma_chunk_bounds(chunk, i - lo);
}

/// Envelope preservation: at every level `k >= 1`, the max/min pair
/// `(2j, 2j + 1)` with `j = t / 2^(k+1)` bounds the original sample at
/// index `t` from above and below, so no excursion of the signal ever
/// disappears from a decimated view.
#[verifier::rlimit(100)]
pub proof fn lemma_envelope<T: Downconvert>(p: MultiResolutionSeries<T>, k: int, t: int)
    requires
        p.wf(),
        1 <= k < p.num_levels(),
        0 <= t < p.samples().len(),
    ensures
        ({
            let j = t / (2 * pow2(k as nat) as int);
            &&& 0 <= j
            &&& 2 * j + 1 < p.level(k).len()
            &&& p.samples()[t].le(p.level(k)[2 * j])
            &&& p.level(k)[2 * j + 1].le(p.samples()[t])
        }),
    decreases k,
{
    let prev = p.level(k - 1);
    assert(p.level(k) == spec_downconvert(prev));
    lemma_pow2_pos(k as nat);
    lemma2_to64();
    let j = t / (2 * pow2(k as nat) as int);
    if k == 1 {
        assert(2 * pow2(1) as int == 4);
        lemma_downconvert_pair_bounds(prev, t);
        assert(j == t / 4);
    } else {
        lemma_envelope(p, k - 1, t);
        let jp = t / (2 * pow2((k - 1) as nat) as int);
        lemma_downconvert_pair_bounds(prev, 2 * jp);
        lemma_downconvert_pair_bounds(prev, 2 * jp + 1);
        let q = jp / 2;
        lemma_fundamental_div_mod(jp, 2);
        lemma_mod_bound(jp, 2);
        lemma_fundamental_div_mod_converse(2 * jp, 4, q, 2 * (jp % 2));
        lemma_fundamental_div_mod_converse(2 * jp + 1, 4, q, 2 * (jp % 2) + 1);
        assert((2 * jp) / 4 == q && (2 * jp + 1) / 4 == q);
        lemma_pow2_adds((k - 1) as nat, 1);
        assert(2 * pow2((k - 1) as nat) == pow2(k as nat));
        lemma_div_denominator(t, pow2(k as nat) as int, 2);
        assert(j == q);
        T::lemma_le_trans(
            p.samples()[t],
            prev[2 * jp],
            spec_downconvert(prev)[2 * q],
        );
        T::lemma_le_trans(
            spec_downconvert(prev)[2 * q + 1],
            prev[2 * jp + 1],
            p.samples()[t],
        );
    }
}

} // verus!
