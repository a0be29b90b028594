use keel::perception::{resample_to_16k, ChangeGate, FrameGate, Microphone, ScreenCapture};

#[test]
fn dhash_distance_is_hamming_and_gates() {
    assert_eq!(ChangeGate::dhash_distance(0, 0), 0);
    assert_eq!(ChangeGate::dhash_distance(0b1011, 0b0000), 3);
    let gate = ChangeGate::default();
    assert!(!gate.frame_changed(ChangeGate::dhash_distance(42, 42)));
    assert!(gate.frame_changed(ChangeGate::dhash_distance(0, u64::MAX)));
    assert!(!ChangeGate::audio_voiced(0));
    assert!(ChangeGate::audio_voiced(120));
}

#[test]
fn dhash_of_a_uniform_frame_is_zero() {
    let flat = vec![128u8; 100 * 80];
    assert_eq!(ChangeGate::dhash(&flat, 100, 80), 0);
    assert_eq!(ChangeGate::dhash(&flat, 0, 80), 0);
    assert_eq!(ChangeGate::dhash(&[], 100, 80), 0);
}

#[test]
fn dhash_distinguishes_a_gradient_from_flat() {
    let (w, h) = (90usize, 80usize);
    let mut grad = vec![0u8; w * h];
    for y in 0..h {
        for x in 0..w {
            grad[y * w + x] = (x * 255 / (w - 1)) as u8;
        }
    }
    let gh = ChangeGate::dhash(&grad, w, h);
    let fh = ChangeGate::dhash(&vec![128u8; w * h], w, h);
    assert_ne!(gh, 0, "a gradient sets bits");
    assert!(ChangeGate::dhash_distance(gh, fh) > 4, "gradient vs flat is a real change");
}

#[test]
fn dhash_rgba_matches_its_luma() {
    let (w, h) = (90usize, 80usize);
    let mut luma = vec![0u8; w * h];
    let mut rgba = vec![0u8; w * h * 4];
    for y in 0..h {
        for x in 0..w {
            let v = (x * 255 / (w - 1)) as u8;
            luma[y * w + x] = v;
            let i = (y * w + x) * 4;
            rgba[i] = v;
            rgba[i + 1] = v;
            rgba[i + 2] = v;
            rgba[i + 3] = 255;
        }
    }
    assert_eq!(ChangeGate::dhash_rgba(&rgba, w, h), ChangeGate::dhash(&luma, w, h));
}

#[test]
fn frame_gate_emits_on_change_skips_static() {
    let (w, h) = (90usize, 80usize);
    let flat = ChangeGate::dhash(&vec![100u8; w * h], w, h);
    let mut grad = vec![0u8; w * h];
    for y in 0..h {
        for x in 0..w {
            grad[y * w + x] = (x * 255 / (w - 1)) as u8;
        }
    }
    let grad_h = ChangeGate::dhash(&grad, w, h);
    let mut g = FrameGate::default();
    assert!(g.changed(flat), "first frame is the baseline -> emits");
    assert!(!g.changed(flat), "identical frame -> gated (free)");
    assert!(g.changed(grad_h), "a big change -> emits");
    assert!(!g.changed(grad_h), "same again -> gated");
}

#[test]
fn resample_to_16k_passes_through_and_downsamples() {
    let s = vec![1i16, 2, 3, 4, 5];
    assert_eq!(resample_to_16k(&s, 16_000), s);
    let loud = vec![5000i16; 48_000];
    let out = resample_to_16k(&loud, 48_000);
    assert!((15_900..=16_000).contains(&out.len()), "48k 1s -> ~16000 samples, got {}", out.len());
    assert!(out.iter().all(|&v| (4900..=5100).contains(&v)), "constant preserved");
    assert_eq!(resample_to_16k(&vec![3i16; 8_000], 8_000).len(), 16_000);
    assert!(resample_to_16k(&[], 48_000).is_empty());
    assert!(resample_to_16k(&loud, 0).is_empty());
}

#[test]
fn first_channel_downmixes_interleaved_frames() {
    assert_eq!(Microphone::first_channel(&vec![1, 2, 3, 4, 5, 6], 2), vec![1, 3, 5]);
    assert_eq!(Microphone::first_channel(&vec![1, 2, 3, 4, 5], 2), vec![1, 3, 5], "a short last frame still counts");
    assert_eq!(Microphone::first_channel(&vec![7, 8, 9], 1), vec![7, 8, 9]);
    assert!(Microphone::first_channel(&vec![], 3).is_empty());
}

#[test]
fn the_primary_monitor_is_captured_else_the_first() {
    assert_eq!(ScreenCapture::pick_monitor(&vec![false, true, true]).unwrap(), 1);
    assert_eq!(ScreenCapture::pick_monitor(&vec![false, false]).unwrap(), 0);
    assert!(ScreenCapture::pick_monitor(&vec![]).is_err());
}
