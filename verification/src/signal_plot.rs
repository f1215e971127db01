//! The viewport, level-of-detail and measurement state machine.
//!
//! Plot coordinates are 64-bit float encodings carried as `u64` bit patterns
//! (what `f64::to_bits` returns); the state machine never does float
//! arithmetic on them, it only stores, compares (by the order-preserving
//! `spec_key64`) and hands them back. The caller samples the input devices
//! once per frame into a [`FrameInput`], calls [`SignalPlot::frame_begin`]
//! for the state transition, converts the resulting visible x-range to
//! integer sample indices, and calls [`SignalPlot::frame_query`] for the
//! range and decimation ratio to fetch from the pyramid.
use vstd::prelude::*;

use crate::sample::IqSample;
use crate::sample::key64;
use crate::sample::spec_key64;
use crate::series::MultiResolutionSeries;
use crate::series::lemma_lg_pow2;
use crate::series::lemma_pow2_no_between;
use crate::series::spec_is_pow2;
use crate::series::spec_lg;
use crate::series::spec_min;
use vstd::arithmetic::power2::lemma2_to64;
use vstd::arithmetic::power2::lemma_pow2_adds;
use vstd::arithmetic::power2::lemma_pow2_pos;
use vstd::arithmetic::power2::pow2;

verus! {

/// Bit pattern of the 64-bit float `0.0`: the left edge of a reset view.
pub const X_MIN_DEFAULT_BITS: u64 = 0x0000_0000_0000_0000;

/// Bit pattern of `1000.0`: the right edge of the view before any signal is
/// loaded.
pub const X_MAX_DEFAULT_BITS: u64 = 0x408F_4000_0000_0000;

/// Bit pattern of `-0.99`: the lower vertical margin of a reset view, one
/// unit less a small epsilon so full-scale signals are not clipped.
pub const Y_MIN_DEFAULT_BITS: u64 = 0xBFEF_AE14_7AE1_47AE;

/// Bit pattern of `1.0`: the upper vertical margin of a reset view.
pub const Y_MAX_DEFAULT_BITS: u64 = 0x3FF0_0000_0000_0000;

/// Bit pattern of `-9999999.0`: the lower clamp of the vertical range,
/// guarding against numeric blow-up from runaway zoom-out gestures.
pub const Y_LIMIT_MIN_BITS: u64 = 0xC163_12CF_E000_0000;

/// Bit pattern of `9999999.0`: the upper clamp of the vertical range.
pub const Y_LIMIT_MAX_BITS: u64 = 0x4163_12CF_E000_0000;

/// A plot viewport in sample-index (x) and amplitude (y) units, each bound a
/// 64-bit float encoding.
#[derive(Clone, Copy, PartialEq, Eq, Structural, Debug)]
pub struct PlotBounds {
    pub min_x: u64,
    pub max_x: u64,
    pub min_y: u64,
    pub max_y: u64,
}

/// The default view shown before any signal is loaded.
pub open spec fn spec_default_bounds() -> PlotBounds {
    PlotBounds {
        min_x: X_MIN_DEFAULT_BITS,
        max_x: X_MAX_DEFAULT_BITS,
        min_y: Y_MIN_DEFAULT_BITS,
        max_y: Y_MAX_DEFAULT_BITS,
    }
}

/// The full-range view over a signal whose length, encoded as a 64-bit
/// float, is `len_bits`.
pub open spec fn spec_full_bounds(len_bits: u64) -> PlotBounds {
    PlotBounds {
        min_x: X_MIN_DEFAULT_BITS,
        max_x: len_bits,
        min_y: Y_MIN_DEFAULT_BITS,
        max_y: Y_MAX_DEFAULT_BITS,
    }
}

/// Vertical bounds clamped to the finite symmetric limit: first the lower
/// bound is raised if it sank below the negative limit, then the upper bound
/// is lowered if it rose above the positive one.
pub open spec fn spec_clamp_y(b: PlotBounds) -> PlotBounds {
    let b1 = if spec_key64(b.min_y) < spec_key64(Y_LIMIT_MIN_BITS) {
        PlotBounds { min_y: Y_LIMIT_MIN_BITS, ..b }
    } else {
        b
    };
    if spec_key64(b1.max_y) > spec_key64(Y_LIMIT_MAX_BITS) {
        PlotBounds { max_y: Y_LIMIT_MAX_BITS, ..b1 }
    } else {
        b1
    }
}

/// Executable form of `spec_clamp_y`.
pub fn clamp_bounds_y(b: PlotBounds) -> (r: PlotBounds)
    ensures
        r == spec_clamp_y(b),
{
    let mut r = b;
    if key64(r.min_y) < key64(Y_LIMIT_MIN_BITS) {
        r.min_y = Y_LIMIT_MIN_BITS;
    }
    if key64(r.max_y) > key64(Y_LIMIT_MAX_BITS) {
        r.max_y = Y_LIMIT_MAX_BITS;
    }
    r
}

/// A loaded signal: one pyramid of real samples, or one of I/Q samples.
pub enum Signal {
    Real(MultiResolutionSeries<u32>),
    Complex(MultiResolutionSeries<IqSample>),
}

impl Signal {
    /// Both variants expose a well-formed pyramid.
    pub open spec fn wf(self) -> bool {
        match self {
            Signal::Real(s) => s.wf(),
            Signal::Complex(s) => s.wf(),
        }
    }

    /// Number of original samples.
    pub open spec fn spec_len(self) -> int {
        match self {
            Signal::Real(s) => s.samples().len() as int,
            Signal::Complex(s) => s.samples().len() as int,
        }
    }

    /// Number of pyramid levels.
    pub open spec fn spec_num_levels(self) -> int {
        match self {
            Signal::Real(s) => s.num_levels(),
            Signal::Complex(s) => s.num_levels(),
        }
    }

    /// Length of the original sample buffer.
    pub fn len(&self) -> (n: usize)
        requires
            self.wf(),
        ensures
            n == self.spec_len(),
    {
        match self {
            Signal::Real(s) => s.len(),
            Signal::Complex(s) => s.len(),
        }
    }

    /// The deepest reduction ratio either pyramid serves.
    pub fn max_ratio(&self) -> (r: usize)
        requires
            self.wf(),
        ensures
            r == pow2((self.spec_num_levels() - 1) as nat),
    {
        match self {
            Signal::Real(s) => s.max_ratio(),
            Signal::Complex(s) => s.max_ratio(),
        }
    }
}

/// The level-of-detail choice: the smallest power-of-two ratio that brings
/// `nsamples` at or under the pixel budget `max_points`, capped at
/// `max_ratio` when no such ratio is available.
pub fn auto_ratio(max_points: usize, max_ratio: usize, nsamples: usize) -> (ratio: usize)
    requires
        spec_is_pow2(max_ratio as int),
    ensures
        spec_is_pow2(ratio as int),
        ratio <= max_ratio,
        nsamples as int / ratio as int <= max_points || ratio == max_ratio,
        forall|r: int| spec_is_pow2(r) && r < ratio ==> nsamples as int / r > max_points,
{
    let mut ratio: usize = 1;
    proof {
        lemma2_to64();
        assert(spec_is_pow2(1int));
        lemma_pow2_pos(spec_lg(max_ratio as int));
    }
    while nsamples / ratio > max_points
        invariant_except_break
            spec_is_pow2(ratio as int),
            1 <= ratio <= max_ratio,
            spec_is_pow2(max_ratio as int),
            forall|r: int| spec_is_pow2(r) && r < ratio ==> nsamples as int / r > max_points,
        ensures
            spec_is_pow2(ratio as int),
            ratio <= max_ratio,
            nsamples as int / ratio as int <= max_points || ratio == max_ratio,
            forall|r: int| spec_is_pow2(r) && r < ratio ==> nsamples as int / r > max_points,
        decreases max_ratio - ratio,
    {
        if max_ratio / 2 < ratio {
            proof {
                // `ratio` is a power of two above `max_ratio / 2`, so it can
                // only be `max_ratio` itself.
                let b = spec_lg(max_ratio as int);
                if (ratio as int) < max_ratio {
                    assert(spec_is_pow2(2 * ratio as int)) by {
                        lemma_pow2_adds(spec_lg(ratio as int), 1);
                        lemma2_to64();
                        assert(pow2(spec_lg(ratio as int) + 1) == 2 * ratio);
                        assert(spec_lg(2 * ratio as int) == 1 + spec_lg(ratio as int));
                    }
                    lemma_pow2_no_between(2 * ratio as int, max_ratio as int);
                    assert(2 * ratio <= max_ratio);
                    assert(ratio <= max_ratio / 2);
                    assert(false);
                }
            }
            break ;
        }
        proof {
            // Every power of two below the doubled ratio is at most the old
            // one, and the old one was just seen to be too fine.
            assert forall|r: int| spec_is_pow2(r) && r < 2 * ratio as int implies nsamples as int
                / r > max_points by {
                lemma_pow2_no_between(r, ratio as int);
            }
            lemma_pow2_adds(spec_lg(ratio as int), 1);
            lemma2_to64();
            assert(pow2(spec_lg(ratio as int) + 1) == 2 * ratio);
            assert(spec_lg(2 * ratio as int) == 1 + spec_lg(ratio as int));
        }
        ratio = ratio * 2;
    }
    ratio
}

/// Turns a visible index range — already floored, clamped at zero and
/// ceiled to integers by the caller — and a pixel budget into the query the
/// renderer should make: the index range clamped one past the signal's end,
/// and the smallest power-of-two ratio that brings the range under the
/// budget, capped at the pyramid's deepest ratio `max_ratio`. A zero-width
/// window yields no query: nothing to render is not an error.
pub fn compute_query(
    x_start: usize,
    x_end: usize,
    len: usize,
    max_ratio: usize,
    target_pixels: usize,
) -> (q: Option<((usize, usize), usize)>)
    requires
        spec_is_pow2(max_ratio as int),
        len <= usize::MAX - 2,
    ensures
        ({
            let ie = spec_min(x_end as int, len as int) + 1;
            if ie <= x_start {
                q.is_none()
            } else {
                &&& q.is_some()
                &&& q.unwrap().0 == (x_start, ie as usize)
                &&& spec_is_pow2(q.unwrap().1 as int)
                &&& q.unwrap().1 <= max_ratio
                &&& ((ie - x_start) / q.unwrap().1 as int <= target_pixels || q.unwrap().1
                    == max_ratio)
                &&& forall|r: int|
                    spec_is_pow2(r) && r < q.unwrap().1 ==> (ie - x_start) / r > target_pixels
            }
        }),
{
    let e0 = if x_end < len {
        x_end
    } else {
        len
    };
    let ie = e0 + 1;
    if ie <= x_start {
        return None;
    }
    let ratio = auto_ratio(target_pixels, max_ratio, ie - x_start);
    Some(((x_start, ie), ratio))
}

/// The raw input sample a frame is driven by, taken once per frame so the
/// state machine is level-triggered: modifier keys as they are held now,
/// drag-start / drag-stop / click edges, the pointer's plot x-coordinate and
/// the bounds the plot currently shows. `len_bits` is the loaded signal's
/// sample count encoded as a 64-bit float by the caller; it is only used to
/// build the full-range view on a reset.
#[derive(Clone, Copy, PartialEq, Eq, Structural, Debug)]
pub struct FrameInput {
    pub z_down: bool,
    pub r_down: bool,
    pub space_down: bool,
    pub clicked: bool,
    pub drag_started: bool,
    pub drag_stopped: bool,
    pub pointer_x: Option<u64>,
    pub bounds: PlotBounds,
    pub len_bits: u64,
}

/// How the plot widget should react to drags and scrolls this frame, derived
/// from the modifier keys alone: `z` redirects zoom to the vertical axis,
/// space turns a drag into a pan, and `r` reserves the drag for measuring.
#[derive(Clone, Copy, PartialEq, Eq, Structural, Debug)]
pub struct InteractionConfig {
    pub allow_zoom_x: bool,
    pub allow_zoom_y: bool,
    pub allow_drag: bool,
    pub allow_boxed_zoom: bool,
}

/// The interaction mode for a frame's key state.
pub fn plot_interaction(z_down: bool, r_down: bool, space_down: bool) -> (c: InteractionConfig)
    ensures
        c.allow_zoom_x == !z_down,
        c.allow_zoom_y == z_down,
        c.allow_drag == (space_down && !r_down),
        c.allow_boxed_zoom == (!space_down && !r_down),
{
    InteractionConfig {
        allow_zoom_x: !z_down,
        allow_zoom_y: z_down,
        allow_drag: space_down && !r_down,
        allow_boxed_zoom: !space_down && !r_down,
    }
}

/// The measurement state after one frame of input: a click with the measure
/// key clears both cursors, releasing the drag ends the measurement,
/// starting a drag with the measure key begins one at the pointer, and an
/// active measurement keeps its second cursor on the pointer.
pub open spec fn spec_measure_next(
    active: bool,
    x1: Option<u64>,
    x2: Option<u64>,
    input: FrameInput,
) -> (bool, Option<u64>, Option<u64>) {
    let (a1, x1_1, x2_1) = if input.clicked && input.r_down {
        (false, None::<u64>, None::<u64>)
    } else {
        (active, x1, x2)
    };
    let a2 = if input.drag_stopped && input.r_down {
        false
    } else {
        a1
    };
    let (a3, x1_3) = if input.drag_started && input.r_down {
        (true, input.pointer_x)
    } else {
        (a2, x1_1)
    };
    let x2_3 = if a3 && x1_3.is_some() {
        input.pointer_x
    } else {
        x2_1
    };
    (a3, x1_3, x2_3)
}

/// The bounds the plot ends the frame with: a pending reset wins, then a
/// pending return to the previous view, otherwise the clamped incoming
/// bounds stand.
pub open spec fn spec_frame_bounds(s: SignalPlot, input: FrameInput, clamped: PlotBounds) -> PlotBounds {
    if s.reset_view_pending {
        if s.signal.is_some() {
            spec_full_bounds(input.len_bits)
        } else {
            spec_default_bounds()
        }
    } else if s.reset_to_last_pending && s.zoom_history@.len() > 0 {
        s.zoom_history@.last()
    } else {
        clamped
    }
}

/// The zoom history after one frame: a taken "return to previous view" pops
/// one entry, and a starting drag then records the pre-drag (clamped, but
/// not yet reset) bounds.
pub open spec fn spec_frame_history(
    s: SignalPlot,
    input: FrameInput,
    clamped: PlotBounds,
) -> Seq<PlotBounds> {
    let h1 = if !s.reset_view_pending && s.reset_to_last_pending && s.zoom_history@.len() > 0 {
        s.zoom_history@.drop_last()
    } else {
        s.zoom_history@
    };
    if input.drag_started {
        h1.push(clamped)
    } else {
        h1
    }
}

/// What a LIFO pop yields: the remaining stack and the removed entry.
pub open spec fn spec_pop(h: Seq<PlotBounds>) -> (Seq<PlotBounds>, Option<PlotBounds>) {
    if h.len() > 0 {
        (h.drop_last(), Some(h.last()))
    } else {
        (h, None)
    }
}

/// Zoom history round trip: a push followed by a pop, with nothing in
/// between, returns exactly the pushed bounds and restores the stack.
pub proof fn lemma_zoom_history_round_trip(h: Seq<PlotBounds>, b: PlotBounds)
    ensures
        spec_pop(h.push(b)).1 == Some(b),
        spec_pop(h.push(b)).0 == h,
{
    assert(h.push(b).drop_last() =~= h);
}

/// What to draw from a query: the real series, the I/Q pair, or the
/// precomputed magnitude companion.
#[derive(Clone, Copy, PartialEq, Eq, Structural, Debug)]
pub enum RenderMode {
    Real,
    Iq,
    Magnitude,
}

/// One frame's request to the pyramid: fetch `start .. end` at `ratio` and
/// draw it as `mode` says.
#[derive(Clone, Copy, PartialEq, Eq, Structural, Debug)]
pub struct QueryPlan {
    pub start: usize,
    pub end: usize,
    pub ratio: usize,
    pub mode: RenderMode,
}

/// The viewport, zoom-history and measurement state of the signal plot.
pub struct SignalPlot {
    pub signal: Option<Signal>,
    pub signal_mag: Option<Signal>,
    pub range_start: usize,
    pub range_end: usize,
    pub first_render: bool,
    pub reset_view_pending: bool,
    pub reset_to_last_pending: bool,
    pub x_axis_time: bool,
    pub sample_rate: u32,
    pub zoom_history: Vec<PlotBounds>,
    pub bounds: PlotBounds,
    pub magnitude_visible: bool,
    pub measure_active: bool,
    pub measure_x1: Option<u64>,
    pub measure_x2: Option<u64>,
}

impl SignalPlot {
    /// Structural invariant: any loaded signal is a well-formed pyramid
    /// whose length leaves room for the one-past-the-end query index, a
    /// complex signal always carries a real magnitude companion of the same
    /// shape, and the displayed range is within machine bounds.
    pub open spec fn wf(self) -> bool {
        &&& match self.signal {
            Some(s) => s.wf() && s.spec_len() <= usize::MAX - 2,
            None => true,
        }
        &&& match (self.signal, self.signal_mag) {
            (Some(Signal::Complex(c)), Some(Signal::Real(m))) => m.wf() && m.samples().len()
                == c.samples().len() && m.num_levels() == c.num_levels(),
            (Some(Signal::Complex(c)), _) => false,
            (Some(Signal::Real(r)), m) => m.is_none(),
            (None, m) => m.is_none(),
        }
        &&& self.range_start <= self.range_end
        &&& self.range_end <= usize::MAX - 1
    }

    /// A fresh plot: no signal, empty history, the default view pending its
    /// first render.
    pub fn new() -> (s: Self)
        ensures
            s.wf(),
            s.signal.is_none(),
            s.signal_mag.is_none(),
            s.range_start == 0,
            s.range_end == 0,
            s.first_render,
            !s.reset_view_pending,
            !s.reset_to_last_pending,
            s.x_axis_time,
            s.sample_rate == 1,
            s.zoom_history@ =~= Seq::<PlotBounds>::empty(),
            s.bounds == (PlotBounds { min_x: 0u64, max_x: 0u64, min_y: 0u64, max_y: 0u64 }),
            !s.magnitude_visible,
            !s.measure_active,
            s.measure_x1.is_none(),
            s.measure_x2.is_none(),
    {
        SignalPlot {
            signal: None,
            signal_mag: None,
            range_start: 0,
            range_end: 0,
            first_render: true,
            reset_view_pending: false,
            reset_to_last_pending: false,
            x_axis_time: true,
            sample_rate: 1,
            zoom_history: Vec::new(),
            bounds: PlotBounds { min_x: 0u64, max_x: 0u64, min_y: 0u64, max_y: 0u64 },
            magnitude_visible: false,
            measure_active: false,
            measure_x1: None,
            measure_x2: None,
        }
    }

    /// Installs a freshly decoded signal, discarding the previous one
    /// wholesale: measurement cursors and zoom history are cleared, nothing
    /// else changes. A complex signal must come with its real magnitude
    /// companion of the same shape; a real one comes alone.
    pub fn set_signal(&mut self, signal: Signal, signal_mag: Option<Signal>)
        requires
            old(self).wf(),
            signal.wf(),
            signal.spec_len() <= usize::MAX - 2,
            match (signal, signal_mag) {
                (Signal::Complex(c), Some(Signal::Real(m))) => m.wf() && m.samples().len()
                    == c.samples().len() && m.num_levels() == c.num_levels(),
                (Signal::Complex(c), _) => false,
                (Signal::Real(r), m) => m.is_none(),
            },
        ensures
            final(self).wf(),
            final(self).signal == Some(signal),
            final(self).signal_mag == signal_mag,
            final(self).measure_x1.is_none(),
            final(self).measure_x2.is_none(),
            final(self).zoom_history@ =~= Seq::<PlotBounds>::empty(),
            final(self).range_start == old(self).range_start,
            final(self).range_end == old(self).range_end,
            final(self).first_render == old(self).first_render,
            final(self).reset_view_pending == old(self).reset_view_pending,
            final(self).reset_to_last_pending == old(self).reset_to_last_pending,
            final(self).x_axis_time == old(self).x_axis_time,
            final(self).sample_rate == old(self).sample_rate,
            final(self).bounds == old(self).bounds,
            final(self).magnitude_visible == old(self).magnitude_visible,
            final(self).measure_active == old(self).measure_active,
    {
        self.measure_x1 = None;
        self.measure_x2 = None;
        self.zoom_history.clear();
        self.signal = Some(signal);
        self.signal_mag = signal_mag;
    }

    /// Whether a signal is loaded.
    pub fn have_signal(&self) -> (b: bool)
        ensures
            b == self.signal.is_some(),
    {
        self.signal.is_some()
    }

    /// The loaded signal; calling this without one is a caller error.
    pub fn signal(&self) -> (s: &Signal)
        requires
            self.signal.is_some(),
        ensures
            *s == self.signal.unwrap(),
    {
        self.signal.as_ref().unwrap()
    }

    /// The index range that was last handed to the renderer.
    pub fn range(&self) -> (r: (usize, usize))
        ensures
            r.0 == self.range_start,
            r.1 == self.range_end,
    {
        (self.range_start, self.range_end)
    }

    /// Asks the next frame to reset to the full-range view.
    pub fn reset_view(&mut self)
        ensures
            *final(self) == (SignalPlot { reset_view_pending: true, ..*old(self) }),
    {
        self.reset_view_pending = true;
    }

    /// Asks the next frame to return to the previously recorded view.
    pub fn return_last_view(&mut self)
        ensures
            *final(self) == (SignalPlot { reset_to_last_pending: true, ..*old(self) }),
    {
        self.reset_to_last_pending = true;
    }

    /// Sets the sample rate used for time conversions.
    pub fn set_sample_rate(&mut self, sample_rate: u32)
        ensures
            *final(self) == (SignalPlot { sample_rate, ..*old(self) }),
    {
        self.sample_rate = sample_rate;
    }

    /// Switches a complex signal's display between I/Q and magnitude.
    pub fn toggle_magnitude(&mut self)
        ensures
            *final(self) == (
            SignalPlot { magnitude_visible: !old(self).magnitude_visible, ..*old(self) }),
    {
        self.magnitude_visible = !self.magnitude_visible;
    }

    /// Records the current bounds in the zoom history.
    pub fn push_zoom(&mut self, b: PlotBounds)
        ensures
            final(self).zoom_history@ == old(self).zoom_history@.push(b),
            *final(self) == (SignalPlot { zoom_history: final(self).zoom_history, ..*old(self) }),
    {
        self.zoom_history.push(b);
    }

    /// Removes and returns the most recently recorded bounds, if any.
    pub fn pop_zoom(&mut self) -> (r: Option<PlotBounds>)
        ensures
            (final(self).zoom_history@, r) == spec_pop(old(self).zoom_history@),
            *final(self) == (SignalPlot { zoom_history: final(self).zoom_history, ..*old(self) }),
    {
        let ghost h0 = self.zoom_history@;
        let r = self.zoom_history.pop();
        proof {
            if h0.len() > 0 {
                assert(self.zoom_history@ =~= h0.drop_last());
            }
        }
        r
    }

    /// One frame of the state machine, run before rendering: resolves the
    /// first-render default view, the vertical clamp, a pending reset or
    /// return, the zoom-history edges and the measurement transition for
    /// this frame's input. Returns the bounds the caller must install on the
    /// plot, when they differ from what the plot already shows.
    pub fn frame_begin(&mut self, input: &FrameInput) -> (set_bounds: Option<PlotBounds>)
        requires
            old(self).wf(),
        ensures
            final(self).wf(),
            ({
                let s0 = *old(self);
                let b0 = if s0.first_render {
                    spec_default_bounds()
                } else {
                    input.bounds
                };
                let clamped = spec_clamp_y(b0);
                let bnow = spec_frame_bounds(s0, *input, clamped);
                let needs_set = s0.first_render || clamped != b0 || s0.reset_view_pending || (
                s0.reset_to_last_pending && s0.zoom_history@.len() > 0);
                &&& final(self).bounds == bnow
                &&& set_bounds == if needs_set {
                    Some(bnow)
                } else {
                    None::<PlotBounds>
                }
                &&& final(self).zoom_history@ == spec_frame_history(s0, *input, clamped)
                &&& (final(self).measure_active, final(self).measure_x1, final(self).measure_x2)
                    == spec_measure_next(s0.measure_active, s0.measure_x1, s0.measure_x2, *input)
                &&& final(self).first_render == false
                &&& final(self).reset_view_pending == false
                &&& final(self).reset_to_last_pending == (s0.reset_view_pending
                    && s0.reset_to_last_pending)
                &&& final(self).signal == s0.signal
                &&& final(self).signal_mag == s0.signal_mag
                &&& final(self).range_start == s0.range_start
                &&& final(self).range_end == s0.range_end
                &&& final(self).x_axis_time == s0.x_axis_time
                &&& final(self).sample_rate == s0.sample_rate
                &&& final(self).magnitude_visible == s0.magnitude_visible
            }),
    {
        let was_first = self.first_render;
        let b0 = if was_first {
            default_bounds()
        } else {
            input.bounds
        };
        self.first_render = false;
        let clamped = clamp_bounds_y(b0);
        let mut bnow = clamped;
        let mut needs = was_first || clamped != b0;
        if self.reset_view_pending {
            if self.signal.is_some() {
                bnow = full_bounds(input.len_bits);
            } else {
                bnow = default_bounds();
            }
            needs = true;
            self.reset_view_pending = false;
        } else if self.reset_to_last_pending {
            if let Some(b) = self.pop_zoom() {
                bnow = b;
                needs = true;
            }
            self.reset_to_last_pending = false;
        }
        if input.clicked && input.r_down {
            self.measure_active = false;
            self.measure_x1 = None;
            self.measure_x2 = None;
        }
        if input.drag_stopped && input.r_down {
            self.measure_active = false;
        }
        if input.drag_started {
            self.push_zoom(clamped);
            if input.r_down {
                self.measure_active = true;
                self.measure_x1 = input.pointer_x;
            }
        }
        if self.measure_active && self.measure_x1.is_some() {
            self.measure_x2 = input.pointer_x;
        }
        self.bounds = bnow;
        if needs {
            Some(bnow)
        } else {
            None
        }
    }

    /// Turns this frame's visible x-range — already floored, clamped at
    /// zero and ceiled to integers by the caller — into the query the
    /// renderer should make: the displayed index range and the smallest
    /// power-of-two ratio that fits the pixel budget, capped at the
    /// pyramid's deepest level. A zero-width window means there is nothing
    /// to render, not an error.
    pub fn frame_query(&mut self, x_start: usize, x_end: usize, max_points: usize) -> (plan: Option<
        QueryPlan,
    >)
        requires
            old(self).wf(),
        ensures
            final(self).wf(),
            old(self).signal.is_none() ==> plan.is_none() && *final(self) == *old(self),
            ({
                let s0 = *old(self);
                match s0.signal {
                    Some(sig) => {
                        let len = sig.spec_len();
                        let ie = spec_min(x_end as int, len) + 1;
                        let mr = pow2((sig.spec_num_levels() - 1) as nat) as int;
                        if ie <= x_start {
                            plan.is_none() && *final(self) == *old(self)
                        } else {
                            &&& *final(self) == (SignalPlot {
                                range_start: x_start,
                                range_end: ie as usize,
                                ..s0
                            })
                            &&& plan.is_some()
                            &&& ({
                                let p = plan.unwrap();
                                &&& p.start == x_start
                                &&& p.end == ie
                                &&& p.mode == match sig {
                                    Signal::Real(_) => RenderMode::Real,
                                    Signal::Complex(_) => if s0.magnitude_visible {
                                        RenderMode::Magnitude
                                    } else {
                                        RenderMode::Iq
                                    },
                                }
                                &&& spec_is_pow2(p.ratio as int)
                                &&& p.ratio as int <= mr
                                &&& ((ie - x_start) / p.ratio as int <= max_points || p.ratio as int
                                    == mr)
                                &&& forall|r: int|
                                    spec_is_pow2(r) && r < p.ratio ==> (ie - x_start) / r
                                        > max_points
                            })
                        }
                    },
                    None => true,
                }
            }),
    {
        if self.signal.is_none() {
            return None;
        }
        let sig = self.signal.as_ref().unwrap();
        let len = sig.len();
        let mr = sig.max_ratio();
        proof {
            lemma_lg_pow2((self.signal.unwrap().spec_num_levels() - 1) as nat);
        }
        let q = compute_query(x_start, x_end, len, mr, max_points);
        if q.is_none() {
            return None;
        }
        let ((start, ie), ratio) = q.unwrap();
        let mode = match sig {
            Signal::Real(_) => RenderMode::Real,
            Signal::Complex(_) => if self.magnitude_visible {
                RenderMode::Magnitude
            } else {
                RenderMode::Iq
            },
        };
        self.range_start = start;
        self.range_end = ie;
        Some(QueryPlan { start, end: ie, ratio, mode })
    }

    /// The number of samples in the active window `x1 ..= x2`, clamped to
    /// the last displayed index range so fencepost errors at floating-point
    /// bound edges never report a negative or out-of-range count.
    pub fn window_samples(&self, x1: usize, x2: usize) -> (n: usize)
        requires
            self.wf(),
        ensures
            self.signal.is_none() ==> n == 0,
            self.signal.is_some() ==> ({
                let s = if self.range_start >= x1 {
                    self.range_start as int
                } else {
                    x1 as int
                };
                let e = spec_min(self.range_end as int, x2 as int);
                n == if e < s {
                    0int
                } else {
                    e + 1 - s
                }
            }),
    {
        if self.signal.is_none() {
            return 0;
        }
        let s = if self.range_start >= x1 {
            self.range_start
        } else {
            x1
        };
        let e = if self.range_end <= x2 {
            self.range_end
        } else {
            x2
        };
        if e < s {
            0
        } else {
            (e - s) + 1
        }
    }

    /// The measurement cursor pair, ordered low-to-high in the float order,
    /// when both cursors are set; the caller derives time span and frequency
    /// from it instead of from the plot bounds.
    pub fn measurement_window(&self) -> (w: Option<(u64, u64)>)
        ensures
            match (self.measure_x1, self.measure_x2) {
                (Some(a), Some(b)) => w == Some(
                    if spec_key64(a) <= spec_key64(b) {
                        (a, b)
                    } else {
                        (b, a)
                    },
                ),
                _ => w.is_none(),
            },
    {
        match (self.measure_x1, self.measure_x2) {
            (Some(a), Some(b)) => if key64(a) <= key64(b) {
                Some((a, b))
            } else {
                Some((b, a))
            },
            _ => None,
        }
    }

    /// Whether both measurement cursors are set, so measured metrics replace
    /// the viewport-derived ones.
    pub fn measuring(&self) -> (b: bool)
        ensures
            b == (self.measure_x1.is_some() && self.measure_x2.is_some()),
    {
        self.measure_x1.is_some() && self.measure_x2.is_some()
    }
}

/// The default view, executable form.
pub fn default_bounds() -> (b: PlotBounds)
    ensures
        b == spec_default_bounds(),
{
    PlotBounds {
        min_x: X_MIN_DEFAULT_BITS,
        max_x: X_MAX_DEFAULT_BITS,
        min_y: Y_MIN_DEFAULT_BITS,
        max_y: Y_MAX_DEFAULT_BITS,
    }
}

/// The full-range view, executable form.
pub fn full_bounds(len_bits: u64) -> (b: PlotBounds)
    ensures
        b == spec_full_bounds(len_bits),
{
    PlotBounds {
        min_x: X_MIN_DEFAULT_BITS,
        max_x: len_bits,
        min_y: Y_MIN_DEFAULT_BITS,
        max_y: Y_MAX_DEFAULT_BITS,
    }
}

} // verus!
