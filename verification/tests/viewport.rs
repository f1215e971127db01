use esig::sample::IqSample;
use esig::series::MultiResolutionSeries;
use esig::signal_plot::auto_ratio;
use esig::signal_plot::compute_query;
use esig::signal_plot::default_bounds;
use esig::signal_plot::plot_interaction;
use esig::signal_plot::FrameInput;
use esig::signal_plot::PlotBounds;
use esig::signal_plot::RenderMode;
use esig::signal_plot::Signal;
use esig::signal_plot::SignalPlot;
use esig::signal_plot::X_MAX_DEFAULT_BITS;
use esig::signal_plot::X_MIN_DEFAULT_BITS;
use esig::signal_plot::Y_LIMIT_MAX_BITS;
use esig::signal_plot::Y_LIMIT_MIN_BITS;
use esig::signal_plot::Y_MAX_DEFAULT_BITS;
use esig::signal_plot::Y_MIN_DEFAULT_BITS;

fn quiet_input(bounds: PlotBounds) -> FrameInput {
    FrameInput {
        z_down: false,
        r_down: false,
        space_down: false,
        clicked: false,
        drag_started: false,
        drag_stopped: false,
        pointer_x: None,
        bounds,
        len_bits: 0,
    }
}

fn some_bounds(x0: f64, x1: f64, y0: f64, y1: f64) -> PlotBounds {
    PlotBounds {
        min_x: x0.to_bits(),
        max_x: x1.to_bits(),
        min_y: y0.to_bits(),
        max_y: y1.to_bits(),
    }
}

fn real_signal(n: u32, min_points: usize) -> Signal {
    let data: Vec<u32> = (0..n).map(|i| (i as f32).to_bits()).collect();
    Signal::Real(MultiResolutionSeries::<u32>::build(&data, min_points))
}

#[test]
fn bounds_constants_encode_the_documented_floats() {
    assert_eq!(f64::from_bits(X_MIN_DEFAULT_BITS), 0.0);
    assert_eq!(f64::from_bits(X_MAX_DEFAULT_BITS), 1000.0);
    assert_eq!(f64::from_bits(Y_MIN_DEFAULT_BITS), -0.99);
    assert_eq!(f64::from_bits(Y_MAX_DEFAULT_BITS), 1.0);
    assert_eq!(f64::from_bits(Y_LIMIT_MIN_BITS), -9999999.0);
    assert_eq!(f64::from_bits(Y_LIMIT_MAX_BITS), 9999999.0);
}

#[test]
fn auto_ratio_picks_smallest_fitting_power_of_two() {
    assert_eq!(auto_ratio(100, 16, 1000), 16);
    assert_eq!(auto_ratio(100, 32, 1000), 16);
    assert_eq!(auto_ratio(100, 8, 1000), 8); // capped at the pyramid's depth
    assert_eq!(auto_ratio(100, 8, 50), 1);
    assert_eq!(auto_ratio(100, 8, 101), 2);
    assert_eq!(auto_ratio(0, 4, 0), 1);
}

#[test]
fn compute_query_clamps_the_range_and_caps_the_ratio() {
    // the end is clamped one past the signal, the ratio picked for the budget
    assert_eq!(compute_query(0, 100000, 4096, 32, 100), Some(((0, 4097), 32)));
    assert_eq!(compute_query(0, 150, 4096, 32, 100), Some(((0, 151), 2)));
    // a window past the data, or inverted, yields no query
    assert_eq!(compute_query(200, 50, 4096, 32, 100), None);
    assert_eq!(compute_query(101, 100, 4096, 32, 100), None);
}

#[test]
fn interaction_modes_follow_the_modifier_keys() {
    let normal = plot_interaction(false, false, false);
    assert!(normal.allow_zoom_x && !normal.allow_zoom_y);
    assert!(!normal.allow_drag && normal.allow_boxed_zoom);
    let vertical = plot_interaction(true, false, false);
    assert!(!vertical.allow_zoom_x && vertical.allow_zoom_y);
    let pan = plot_interaction(false, false, true);
    assert!(pan.allow_drag && !pan.allow_boxed_zoom);
    let measure = plot_interaction(false, true, false);
    assert!(!measure.allow_drag && !measure.allow_boxed_zoom);
}

#[test]
fn zoom_history_round_trip() {
    let mut plot = SignalPlot::new();
    let b1 = some_bounds(0.0, 10.0, -1.0, 1.0);
    let b2 = some_bounds(2.0, 4.0, -0.5, 0.5);
    plot.push_zoom(b1);
    plot.push_zoom(b2);
    assert_eq!(plot.pop_zoom(), Some(b2));
    assert_eq!(plot.pop_zoom(), Some(b1));
    assert_eq!(plot.pop_zoom(), None);
}

#[test]
fn first_frame_installs_the_default_view() {
    let mut plot = SignalPlot::new();
    let cmd = plot.frame_begin(&quiet_input(some_bounds(5.0, 6.0, -1.0, 1.0)));
    assert_eq!(cmd, Some(default_bounds()));
    // a later quiet frame with sane bounds has nothing to install
    let cmd2 = plot.frame_begin(&quiet_input(some_bounds(5.0, 6.0, -1.0, 1.0)));
    assert_eq!(cmd2, None);
}

#[test]
fn runaway_vertical_bounds_are_clamped() {
    let mut plot = SignalPlot::new();
    plot.frame_begin(&quiet_input(default_bounds()));
    let wild = some_bounds(0.0, 10.0, -1.0e12, 3.0e10);
    let cmd = plot.frame_begin(&quiet_input(wild));
    let fixed = cmd.expect("clamped bounds must be installed");
    assert_eq!(f64::from_bits(fixed.min_y), -9999999.0);
    assert_eq!(f64::from_bits(fixed.max_y), 9999999.0);
    assert_eq!(fixed.min_x, 0.0f64.to_bits());
    assert_eq!(fixed.max_x, 10.0f64.to_bits());
}

#[test]
fn drag_records_pre_drag_view_and_return_restores_it() {
    let mut plot = SignalPlot::new();
    plot.frame_begin(&quiet_input(default_bounds()));
    // a drag starts while the old view is showing: it is pushed
    let pre_drag = some_bounds(0.0, 100.0, -1.0, 1.0);
    let mut input = quiet_input(pre_drag);
    input.drag_started = true;
    plot.frame_begin(&input);
    // the user has zoomed somewhere else; "return" must restore the view
    plot.return_last_view();
    let cmd = plot.frame_begin(&quiet_input(some_bounds(40.0, 60.0, -1.0, 1.0)));
    assert_eq!(cmd, Some(pre_drag));
}

#[test]
fn return_with_empty_history_installs_nothing() {
    let mut plot = SignalPlot::new();
    plot.frame_begin(&quiet_input(default_bounds()));
    plot.return_last_view();
    let cmd = plot.frame_begin(&quiet_input(default_bounds()));
    assert_eq!(cmd, None);
}

#[test]
fn reset_outranks_return_which_stays_pending() {
    let mut plot = SignalPlot::new();
    plot.frame_begin(&quiet_input(default_bounds()));
    let remembered = some_bounds(1.0, 9.0, -1.0, 1.0);
    plot.push_zoom(remembered);
    plot.reset_view();
    plot.return_last_view();
    // the reset wins this frame and the return is still owed
    let cmd = plot.frame_begin(&quiet_input(default_bounds()));
    assert_eq!(cmd, Some(default_bounds()));
    let cmd2 = plot.frame_begin(&quiet_input(default_bounds()));
    assert_eq!(cmd2, Some(remembered));
}

#[test]
fn reset_view_spans_the_loaded_signal() {
    let mut plot = SignalPlot::new();
    plot.set_signal(real_signal(500, 2048), None);
    plot.reset_view();
    let mut input = quiet_input(some_bounds(1.0, 2.0, -1.0, 1.0));
    input.len_bits = 500.0f64.to_bits();
    let cmd = plot.frame_begin(&input).expect("reset must install bounds");
    assert_eq!(f64::from_bits(cmd.min_x), 0.0);
    assert_eq!(f64::from_bits(cmd.max_x), 500.0);
    assert_eq!(f64::from_bits(cmd.min_y), -0.99);
    assert_eq!(f64::from_bits(cmd.max_y), 1.0);
}

#[test]
fn measurement_cursors_follow_the_drag_and_clear_on_click() {
    let mut plot = SignalPlot::new();
    plot.frame_begin(&quiet_input(default_bounds()));
    let mut start = quiet_input(default_bounds());
    start.r_down = true;
    start.drag_started = true;
    start.pointer_x = Some(30.0f64.to_bits());
    plot.frame_begin(&start);
    let mut mv = quiet_input(default_bounds());
    mv.r_down = true;
    mv.pointer_x = Some(10.0f64.to_bits());
    plot.frame_begin(&mv);
    assert!(plot.measuring());
    // the window comes out ordered even though the drag went leftwards
    let (lo, hi) = plot.measurement_window().expect("both cursors set");
    assert_eq!(f64::from_bits(lo), 10.0);
    assert_eq!(f64::from_bits(hi), 30.0);
    // a plain click with the measure key held clears the cursors
    let mut clear = quiet_input(default_bounds());
    clear.r_down = true;
    clear.clicked = true;
    plot.frame_begin(&clear);
    assert!(!plot.measuring());
    assert_eq!(plot.measurement_window(), None);
}

#[test]
fn frame_query_clamps_and_chooses_the_ratio() {
    let mut plot = SignalPlot::new();
    plot.set_signal(real_signal(4096, 64), None);
    // 4096/2 .. 4096/32 all exceed 64; 4096/64 == 64 stops level building
    let plan = plot
        .frame_query(0, 100000, 100)
        .expect("a visible window over a signal yields a plan");
    assert_eq!(plan.start, 0);
    assert_eq!(plan.end, 4097);
    // 4097 samples at ratio 32 gives 128 > 100; ratio 64 would fit but the
    // pyramid tops out at 32
    assert_eq!(plan.ratio, 32);
    assert_eq!(plan.mode, RenderMode::Real);
    assert_eq!(plot.range(), (0, 4097));
}

#[test]
fn complex_signal_draws_iq_until_magnitude_is_toggled() {
    let n = 300u32;
    let iq: Vec<IqSample> = (0..n)
        .map(|i| IqSample { re: (i as f32).to_bits(), im: (-(i as f32)).to_bits() })
        .collect();
    let mags: Vec<u32> = iq
        .iter()
        .map(|s| {
            let re = f32::from_bits(s.re);
            let im = f32::from_bits(s.im);
            (re * re + im * im).sqrt().to_bits()
        })
        .collect();
    let sig = Signal::Complex(MultiResolutionSeries::build(&iq, 2048));
    let mag = Signal::Real(MultiResolutionSeries::build(&mags, 2048));
    let mut plot = SignalPlot::new();
    plot.set_signal(sig, Some(mag));
    let plan = plot.frame_query(0, 300, 4000).expect("plan");
    assert_eq!(plan.mode, RenderMode::Iq);
    plot.toggle_magnitude();
    let plan2 = plot.frame_query(0, 300, 4000).expect("plan");
    assert_eq!(plan2.mode, RenderMode::Magnitude);
    match plot.signal() {
        Signal::Complex(s) => {
            let data = s.get(plan2.start, plan2.end, plan2.ratio);
            assert_eq!(data.len(), 300);
        }
        _ => panic!("complex signal expected"),
    }
}

#[test]
fn frame_query_empty_window_renders_nothing() {
    let mut plot = SignalPlot::new();
    plot.set_signal(real_signal(100, 2048), None);
    assert!(plot.frame_query(50, 30, 100).is_none());
    assert!(SignalPlot::new().frame_query(0, 10, 100).is_none());
}

#[test]
fn window_samples_clamps_to_the_displayed_range() {
    let mut plot = SignalPlot::new();
    plot.set_signal(real_signal(1000, 2048), None);
    plot.frame_query(10, 500, 4000);
    assert_eq!(plot.range(), (10, 501));
    // both edges inside the range
    assert_eq!(plot.window_samples(20, 400), 381);
    // edges outside are pulled back to the displayed range
    assert_eq!(plot.window_samples(0, 10000), 492);
    // an inverted window reports zero, not a negative count
    assert_eq!(plot.window_samples(600, 700), 0);
    assert_eq!(SignalPlot::new().window_samples(0, 100), 0);
}
