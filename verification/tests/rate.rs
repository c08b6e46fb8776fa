use audio_stream::rate::{RateConverter, RateError};

fn converter(source: u32, target: u32, channels: u16) -> RateConverter {
    match RateConverter::new(source, target, channels) {
        Ok(c) => c,
        Err(e) => panic!("refused: {:?}", e),
    }
}

#[test]
fn equal_rates_return_the_input() {
    let input: Vec<i16> = vec![3, -7, 1200, i16::MAX, i16::MIN, 0, 42];
    let c = converter(44100, 44100, 1);
    assert_eq!(c.convert(&input), Ok(input.clone()));
}

#[test]
fn equal_rates_keep_an_unfinished_frame() {
    let input: Vec<i16> = vec![1, 2, 3, 4, 5];
    let c = converter(48000, 48000, 2);
    assert_eq!(c.convert(&input), Ok(input.clone()));
}

#[test]
fn equal_rates_on_empty_input() {
    let c = converter(8000, 8000, 2);
    assert_eq!(c.convert(&[]), Ok(Vec::new()));
}

#[test]
fn zero_source_rate_is_invalid() {
    assert!(matches!(RateConverter::new(0, 48000, 2), Err(RateError::InvalidRate)));
}

#[test]
fn zero_target_rate_is_invalid() {
    assert!(matches!(RateConverter::new(44100, 0, 2), Err(RateError::InvalidRate)));
}

#[test]
fn zero_rates_come_before_zero_channels() {
    assert!(matches!(RateConverter::new(0, 0, 0), Err(RateError::InvalidRate)));
}

#[test]
fn zero_channels_are_invalid() {
    assert!(matches!(RateConverter::new(44100, 48000, 0), Err(RateError::InvalidChannels)));
}

#[test]
fn converter_reports_its_settings() {
    let c = converter(44100, 48000, 2);
    assert_eq!(c.source_rate(), 44100);
    assert_eq!(c.target_rate(), 48000);
    assert_eq!(c.channels(), 2);
}

#[test]
fn doubling_the_rate_interpolates_half_way() {
    let c = converter(1, 2, 1);
    assert_eq!(c.convert(&[0, 100]), Ok(vec![0, 50, 100, 100]));
}

#[test]
fn interpolation_rounds_towards_the_earlier_sample() {
    let c = converter(1, 2, 1);
    assert_eq!(c.convert(&[0, 5]), Ok(vec![0, 2, 5, 5]));
    assert_eq!(c.convert(&[5, 0]), Ok(vec![5, 3, 0, 0]));
    assert_eq!(c.convert(&[-5, 0]), Ok(vec![-5, -3, 0, 0]));
}

#[test]
fn interpolation_spans_the_full_range() {
    let c = converter(1, 2, 1);
    assert_eq!(
        c.convert(&[i16::MIN, i16::MAX]),
        Ok(vec![i16::MIN, -1, i16::MAX, i16::MAX])
    );
}

#[test]
fn halving_the_rate_keeps_every_other_frame() {
    let c = converter(2, 1, 1);
    assert_eq!(c.convert(&[0, 10, 20, 30]), Ok(vec![0, 20]));
    assert_eq!(c.convert(&[0, 10, 20, 30, 40]), Ok(vec![0, 20, 40]));
}

#[test]
fn three_to_two_interpolates_between_frames() {
    let c = converter(3, 2, 1);
    // positions 0, 1.5, 3, 4.5
    assert_eq!(c.convert(&[0, 10, 20, 30, 40, 50]), Ok(vec![0, 15, 30, 45]));
}

#[test]
fn channels_are_interpolated_apart() {
    let c = converter(1, 2, 2);
    assert_eq!(
        c.convert(&[0, 100, 10, 200]),
        Ok(vec![0, 100, 5, 150, 10, 200, 10, 200])
    );
}

#[test]
fn an_unfinished_frame_is_left_out_when_resampling() {
    let c = converter(1, 2, 2);
    assert_eq!(
        c.convert(&[0, 100, 10, 200, 77]),
        Ok(vec![0, 100, 5, 150, 10, 200, 10, 200])
    );
}

#[test]
fn resampling_nothing_gives_nothing() {
    let c = converter(44100, 48000, 2);
    assert_eq!(c.convert(&[]), Ok(Vec::new()));
    assert_eq!(c.convert(&[5]), Ok(Vec::new()));
}

#[test]
fn output_length_follows_the_ratio_upwards() {
    let c = converter(44100, 48000, 1);
    let input: Vec<i16> = (0..441).map(|i| i as i16).collect();
    let out = c.convert(&input).unwrap();
    assert_eq!(out.len(), 480);
    let input: Vec<i16> = (0..100).map(|i| i as i16).collect();
    let out = c.convert(&input).unwrap();
    // 100 * 48000 / 44100 = 108.84...
    assert_eq!(out.len(), 109);
}

#[test]
fn output_length_follows_the_ratio_downwards() {
    let c = converter(48000, 44100, 1);
    let input: Vec<i16> = (0..100).map(|i| i as i16).collect();
    let out = c.convert(&input).unwrap();
    // 100 * 44100 / 48000 = 91.875
    assert_eq!(out.len(), 92);
    let c = converter(48000, 8000, 2);
    let input: Vec<i16> = (0..1200).map(|i| i as i16).collect();
    assert_eq!(c.convert(&input).unwrap().len(), 200);
}

#[test]
fn output_length_is_within_one_sample_of_the_exact_ratio() {
    let rates: [(u32, u32); 6] =
        [(44100, 48000), (48000, 44100), (8000, 96000), (96000, 8000), (22050, 44100), (7, 3)];
    for (from, to) in rates {
        let c = converter(from, to, 1);
        for len in [0usize, 1, 2, 3, 10, 99, 100, 101, 1000] {
            let input: Vec<i16> = vec![1; len];
            let out = c.convert(&input).unwrap();
            let exact = len as f64 * to as f64 / from as f64;
            assert!((out.len() as f64 - exact).abs() < 1.0, "{} {} {}", from, to, len);
            assert!(out.len() as f64 >= exact);
        }
    }
}

#[test]
fn constant_signal_stays_constant() {
    let c = converter(44100, 48000, 1);
    let input: Vec<i16> = vec![1000; 100];
    let out = c.convert(&input).unwrap();
    assert_eq!(out.len(), 109);
    assert!(out.iter().all(|s| *s == 1000));
}

#[test]
fn constant_stereo_signal_stays_constant() {
    let c = converter(48000, 44100, 2);
    let mut input: Vec<i16> = Vec::new();
    for _ in 0..50 {
        input.push(-300);
        input.push(700);
    }
    let out = c.convert(&input).unwrap();
    assert_eq!(out.len(), 92);
    for frame in out.chunks(2) {
        assert_eq!(frame, &[-300, 700]);
    }
}

#[test]
fn output_stays_between_its_neighbours() {
    let c = converter(44100, 48000, 1);
    let input: Vec<i16> = (0..200).map(|i| (i * 37 % 1000) as i16 - 500).collect();
    let out = c.convert(&input).unwrap();
    for (j, s) in out.iter().enumerate() {
        let p = j * 44100 / 48000;
        let q = if p + 1 < input.len() { p + 1 } else { p };
        let low = input[p].min(input[q]);
        let high = input[p].max(input[q]);
        assert!(low <= *s && *s <= high);
    }
}
