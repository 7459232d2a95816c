use pictd::pixels::{fingerprint, FingerprintTracker, RawImage};

fn image(w: u32, h: u32, seed: u8) -> RawImage {
    let n = (w * h * 4) as usize;
    RawImage { width: w, height: h, pixels: (0..n).map(|i| (i as u8).wrapping_mul(seed)).collect() }
}

#[test]
fn clipboard_report_consistent() {
    let img = RawImage::from_clipboard(2, 1, vec![1, 2, 3, 4, 5, 6, 7, 8, 9]);
    assert_eq!(img.width, 2);
    assert_eq!(img.height, 1);
    assert_eq!(img.pixels, vec![1, 2, 3, 4, 5, 6, 7, 8]);
}

#[test]
fn clipboard_report_inconsistent() {
    let img = RawImage::from_clipboard(3, 3, vec![0; 8]);
    assert_eq!(img.width, 1);
    assert_eq!(img.height, 1);
    assert_eq!(img.pixels, vec![0, 0, 0, 0]);
}

#[test]
fn fingerprint_repeatable() {
    let a = image(40, 30, 7);
    let b = image(40, 30, 7);
    assert_eq!(fingerprint(&a), fingerprint(&a));
    assert_eq!(fingerprint(&a), fingerprint(&b));
    let big = image(100, 100, 3);
    assert_eq!(fingerprint(&big), fingerprint(&image(100, 100, 3)));
}

#[test]
fn fingerprint_sees_dimensions() {
    let a = RawImage { width: 2, height: 1, pixels: vec![0; 8] };
    let b = RawImage { width: 1, height: 2, pixels: vec![0; 8] };
    assert_ne!(fingerprint(&a), fingerprint(&b));
}

#[test]
fn tracker_reports_once() {
    let mut t = FingerprintTracker::new();
    let a = image(4, 4, 5);
    assert!(t.is_new(&a));
    assert!(!t.is_new(&a));
    assert!(!t.is_new(&image(4, 4, 5)));
    let b = image(4, 4, 9);
    assert!(t.is_new(&b));
    assert!(t.is_new(&a));
}
