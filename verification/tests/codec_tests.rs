use esig::codec::decode_complex;
use esig::codec::decode_real;
use esig::codec::encode_complex;
use esig::codec::encode_real;
use esig::sample::IqSample;
use esig::utils::guess_signal_type;
use esig::utils::SignalType;

#[test]
fn decode_real_reads_little_endian_floats() {
    let mut bytes = Vec::new();
    bytes.extend_from_slice(&1.5f32.to_le_bytes());
    bytes.extend_from_slice(&(-2.25f32).to_le_bytes());
    let (samples, dropped) = decode_real(&bytes);
    assert_eq!(dropped, 0);
    assert_eq!(samples.len(), 2);
    assert_eq!(f32::from_bits(samples[0]), 1.5);
    assert_eq!(f32::from_bits(samples[1]), -2.25);
}

#[test]
fn decode_real_reports_misaligned_tail() {
    let mut bytes = vec![0u8; 4];
    bytes.extend_from_slice(&[1, 2, 3]);
    let (samples, dropped) = decode_real(&bytes);
    assert_eq!(samples.len(), 1);
    assert_eq!(dropped, 3);
    let (none, short) = decode_real(&[9, 9]);
    assert_eq!(none.len(), 0);
    assert_eq!(short, 2);
}

#[test]
fn decode_complex_pairs_in_phase_then_quadrature() {
    let mut bytes = Vec::new();
    bytes.extend_from_slice(&0.5f32.to_le_bytes());
    bytes.extend_from_slice(&(-1.0f32).to_le_bytes());
    bytes.extend_from_slice(&3.0f32.to_le_bytes());
    bytes.extend_from_slice(&4.0f32.to_le_bytes());
    bytes.push(0xAA); // a dangling byte
    let (samples, dropped) = decode_complex(&bytes);
    assert_eq!(dropped, 1);
    assert_eq!(samples.len(), 2);
    assert_eq!(f32::from_bits(samples[0].re), 0.5);
    assert_eq!(f32::from_bits(samples[0].im), -1.0);
    assert_eq!(f32::from_bits(samples[1].re), 3.0);
    assert_eq!(f32::from_bits(samples[1].im), 4.0);
}

#[test]
fn encode_real_round_trips() {
    let samples: Vec<u32> = vec![1.0f32, -0.125, 3.5e7, 0.0]
        .into_iter()
        .map(f32::to_bits)
        .collect();
    let bytes = encode_real(&samples);
    assert_eq!(bytes.len(), 16);
    assert_eq!(&bytes[0..4], &1.0f32.to_le_bytes());
    let (back, dropped) = decode_real(&bytes);
    assert_eq!(dropped, 0);
    assert_eq!(back, samples);
}

#[test]
fn encode_complex_interleaves_components() {
    let samples = vec![
        IqSample { re: 2.0f32.to_bits(), im: (-3.0f32).to_bits() },
        IqSample { re: 0.25f32.to_bits(), im: 8.0f32.to_bits() },
    ];
    let bytes = encode_complex(&samples);
    assert_eq!(bytes.len(), 16);
    assert_eq!(&bytes[0..4], &2.0f32.to_le_bytes());
    assert_eq!(&bytes[4..8], &(-3.0f32).to_le_bytes());
    assert_eq!(&bytes[8..12], &0.25f32.to_le_bytes());
    let (back, dropped) = decode_complex(&bytes);
    assert_eq!(dropped, 0);
    assert_eq!(back, samples);
}

#[test]
fn guessing_the_signal_type_from_the_extension() {
    assert_eq!(guess_signal_type("capture.cf32"), Some(SignalType::Complex64));
    assert_eq!(guess_signal_type("capture.f32"), Some(SignalType::Float32));
    assert_eq!(guess_signal_type(".cf32"), Some(SignalType::Complex64));
    assert_eq!(guess_signal_type(".f32"), Some(SignalType::Float32));
    assert_eq!(guess_signal_type("capture.f32.bak"), None);
    assert_eq!(guess_signal_type("f32"), None);
    assert_eq!(guess_signal_type(""), None);
    assert_eq!(guess_signal_type("notes.txt"), None);
}
