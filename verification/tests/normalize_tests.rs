use virgil::normalize::resample_to_16k;
use virgil::normalize::stereo_to_mono;

#[test]
fn downmix_stereo_mean() {
    let samples = vec![2, 4, 6, 8];
    let mono = stereo_to_mono(&samples, 2);
    assert_eq!(mono, vec![3, 7]);
}

#[test]
fn downmix_mono_passthrough() {
    let samples = vec![5, -7, 0, 123];
    let mono = stereo_to_mono(&samples, 1);
    assert_eq!(mono, samples);
}

#[test]
fn downmix_negative_rounds_toward_zero() {
    let samples = vec![-3, -4];
    let mono = stereo_to_mono(&samples, 2);
    assert_eq!(mono, vec![-3]);
}

#[test]
fn downmix_drops_incomplete_trailing_frame() {
    let samples = vec![1, 3, 7];
    let mono = stereo_to_mono(&samples, 2);
    assert_eq!(mono, vec![2]);
}

#[test]
fn downmix_four_channels() {
    let samples = vec![1, 2, 3, 6, 10, 20, 30, 60];
    let mono = stereo_to_mono(&samples, 4);
    assert_eq!(mono, vec![3, 30]);
}

#[test]
fn downmix_empty_input() {
    let samples: Vec<i32> = Vec::new();
    assert_eq!(stereo_to_mono(&samples, 2), Vec::<i32>::new());
}

#[test]
fn resample_equal_rate_is_identity() {
    let input = vec![1, -2, 3, -4];
    let out = resample_to_16k(&input, 16000).unwrap();
    assert_eq!(out, input);
}

#[test]
fn resample_other_rate_needs_converter() {
    let input = vec![1, -2, 3, -4];
    assert!(resample_to_16k(&input, 44100).is_none());
}
