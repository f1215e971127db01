use esig::sample::IqSample;
use esig::series::minmax_downconvert;
use esig::series::MultiResolutionSeries;

fn bits(v: &[f32]) -> Vec<u32> {
    v.iter().map(|x| x.to_bits()).collect()
}

fn floats(v: &[u32]) -> Vec<f32> {
    v.iter().map(|x| f32::from_bits(*x)).collect()
}

#[test]
fn build_four_samples_level_one_is_max_min() {
    // the documented scenario: one chunk of four collapses to its max and min
    let data = bits(&[1.0, 5.0, 2.0, -3.0]);
    let p = MultiResolutionSeries::<u32>::build(&data, 1);
    assert_eq!(p.len(), 4);
    assert_eq!(p.max_ratio(), 2);
    let level1 = p.get(0, 4, 2);
    assert_eq!(floats(&level1), vec![5.0, -3.0]);
}

#[test]
fn build_empty_input_gives_one_empty_level() {
    let data: Vec<u32> = Vec::new();
    let p = MultiResolutionSeries::<u32>::build(&data, 2048);
    assert_eq!(p.len(), 0);
    assert_eq!(p.max_ratio(), 1);
    assert_eq!(p.get(0, 0, 1), Vec::<u32>::new());
}

#[test]
fn get_at_ratio_one_returns_raw_samples() {
    let data = bits(&[0.5, -0.25, 3.0, 7.5, -8.0, 0.0]);
    let p = MultiResolutionSeries::<u32>::build(&data, 2);
    assert_eq!(p.get(0, 6, 1), data);
    assert_eq!(p.get(2, 5, 1), data[2..5].to_vec());
    // an end past the signal is clamped
    assert_eq!(p.get(4, 100, 1), data[4..6].to_vec());
}

#[test]
fn envelope_pairs_are_chunk_extrema() {
    // sixteen samples, three levels; every max/min pair at level k must be
    // exactly the extrema of its chunk of 2^(k+1) original samples
    let raw: Vec<f32> = vec![
        0.1, -4.0, 2.5, 2.5, 9.0, -0.5, 0.0, 1.25, -7.5, 3.5, 3.0, -1.0, 0.75, 6.0, -2.0, 0.25,
    ];
    let data = bits(&raw);
    let p = MultiResolutionSeries::<u32>::build(&data, 1);
    assert_eq!(p.max_ratio(), 8);
    for k in 1..=3u32 {
        let ratio = 1usize << k;
        let level = floats(&p.get(0, raw.len(), ratio));
        let chunk = 2 * ratio;
        for j in 0..raw.len() / chunk {
            let src = &raw[j * chunk..(j + 1) * chunk];
            let mx = src.iter().cloned().fold(f32::NEG_INFINITY, f32::max);
            let mn = src.iter().cloned().fold(f32::INFINITY, f32::min);
            assert_eq!(level[2 * j], mx, "level {} pair {} max", k, j);
            assert_eq!(level[2 * j + 1], mn, "level {} pair {} min", k, j);
        }
    }
}

#[test]
fn downconvert_length_is_even_rounded_half() {
    // ceil(len / 2) rounded up to even, for every small length
    for len in 0..33usize {
        let data: Vec<u32> = (0..len as u32).collect();
        let down = minmax_downconvert(&data);
        let half_up = (len + 1) / 2;
        let expected = if half_up % 2 == 0 { half_up } else { half_up + 1 };
        assert_eq!(down.len(), expected, "source length {}", len);
    }
}

#[test]
fn downconvert_odd_tail_keeps_last_sample() {
    // a final partial chunk still yields its own max/min pair
    let data = bits(&[1.0, 5.0, 2.0, -3.0, 0.5]);
    let down = floats(&minmax_downconvert(&data));
    assert_eq!(down, vec![5.0, -3.0, 0.5, 0.5]);
}

#[test]
fn complex_pyramid_reduces_components_independently() {
    // the envelope of I/Q samples takes each component's extrema across the
    // chunk, so the reduced elements need not be any input sample
    let data = vec![
        IqSample { re: 1.0f32.to_bits(), im: (-2.0f32).to_bits() },
        IqSample { re: (-3.0f32).to_bits(), im: 4.0f32.to_bits() },
        IqSample { re: 2.0f32.to_bits(), im: 0.5f32.to_bits() },
        IqSample { re: 0.0f32.to_bits(), im: (-1.5f32).to_bits() },
    ];
    let p = MultiResolutionSeries::<IqSample>::build(&data, 1);
    let level1 = p.get(0, 4, 2);
    assert_eq!(level1.len(), 2);
    assert_eq!(f32::from_bits(level1[0].re), 2.0);
    assert_eq!(f32::from_bits(level1[0].im), 4.0);
    assert_eq!(f32::from_bits(level1[1].re), -3.0);
    assert_eq!(f32::from_bits(level1[1].im), -2.0);
}

#[test]
fn build_respects_min_display_points_floor() {
    // levels stop once the next one would hold no more than the floor
    let data: Vec<u32> = (0..64u32).collect();
    let p = MultiResolutionSeries::<u32>::build(&data, 8);
    // 64/2 = 32 > 8, 64/4 = 16 > 8, 64/8 = 8 <= 8: levels 0, 1, 2
    assert_eq!(p.max_ratio(), 4);
    let p2 = MultiResolutionSeries::<u32>::build(&data, 64);
    assert_eq!(p2.max_ratio(), 1);
}

#[test]
fn negative_zero_orders_below_positive_zero() {
    // the sign-magnitude order distinguishes the two zero encodings
    let data = bits(&[-0.0, 0.0]);
    let down = minmax_downconvert(&data);
    assert_eq!(down[0], 0.0f32.to_bits());
    assert_eq!(down[1], (-0.0f32).to_bits());
}
