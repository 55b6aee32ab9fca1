use piper_speechd::prosody::{pitch_factor, rate_factor, volume_factor};

#[test]
fn rate_endpoints() {
    assert_eq!(rate_factor(0), 1000);
    assert_eq!(rate_factor(100), 4500);
    assert_eq!(rate_factor(-100), 500);
}

#[test]
fn pitch_endpoints() {
    assert_eq!(pitch_factor(0), 1000);
    assert_eq!(pitch_factor(100), 2000);
    assert_eq!(pitch_factor(-100), 500);
}

#[test]
fn mappings_rise_monotonically() {
    let mut prev_rate = rate_factor(-100);
    let mut prev_pitch = pitch_factor(-100);
    let mut p: i64 = -99;
    while p <= 100 {
        let r = rate_factor(p);
        let q = pitch_factor(p);
        assert!(r >= prev_rate);
        assert!(q >= prev_pitch);
        prev_rate = r;
        prev_pitch = q;
        p += 1;
    }
}

#[test]
fn volume_converts_directly() {
    assert_eq!(volume_factor(100), 1000);
    assert_eq!(volume_factor(0), 0);
    assert_eq!(volume_factor(-50), -500);
}
