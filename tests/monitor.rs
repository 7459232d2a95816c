use pictd::clipboard::ClipboardMonitor;
use pictd::pixels::RawImage;

fn image(seed: u8) -> RawImage {
    RawImage { width: 2, height: 2, pixels: vec![seed; 16] }
}

#[test]
fn starting_twice_gives_one_worker() {
    let mut m = ClipboardMonitor::new();
    assert!(!m.is_running());
    let first = m.start("/save");
    assert!(first.is_some());
    assert!(m.is_running());
    assert!(m.start("/other").is_none());
    assert!(m.is_running());
    let w = first.unwrap();
    assert_eq!(w.save_dir, "/save");
    assert!(m.should_continue(&w));
}

#[test]
fn stop_and_restart_retire_old_worker() {
    let mut m = ClipboardMonitor::new();
    let old = m.start("/a").unwrap();
    m.stop();
    assert!(!m.is_running());
    assert!(!m.should_continue(&old));
    let new = m.start("/b").unwrap();
    assert!(!m.should_continue(&old));
    assert!(m.should_continue(&new));
    assert_eq!(new.save_dir, "/b");
}

#[test]
fn worker_saves_each_image_once() {
    let mut m = ClipboardMonitor::new();
    let mut w = m.start("/a").unwrap();
    assert!(w.poll(None).is_none());
    assert!(w.poll(Some(image(1))).is_some());
    assert!(w.poll(Some(image(1))).is_none());
    assert!(w.poll(None).is_none());
    assert!(w.poll(Some(image(2))).is_some());
}
