use pictd::app::App;
use pictd::markdown::parse_markdown;
use pictd::pixels::RawImage;
use pictd::storage::ImageInfo;

fn session(present: &[&str]) -> Result<App, String> {
    let content = "![a](a.png)\n![b](b.png)\n![c](c.png)";
    let parsed = parse_markdown(content, "/doc", |p: &String| present.iter().any(|s| p.ends_with(s)));
    App::new("/doc/readme.md", parsed)
}

fn image(w: u32, h: u32, seed: u8) -> RawImage {
    let n = (w * h * 4) as usize;
    RawImage { width: w, height: h, pixels: vec![seed; n] }
}

fn written(name: &str) -> ImageInfo {
    ImageInfo {
        path: format!("/doc/{}", name),
        filename: name.to_string(),
        timestamp: "t".to_string(),
        width: 1,
        height: 1,
        thumbnail: String::new(),
    }
}

#[test]
fn no_unfilled_targets_is_an_error() {
    assert!(session(&["a.png", "b.png", "c.png"]).is_err());
    let app = session(&["b.png"]).unwrap();
    assert_eq!(app.remaining_count(), 2);
    assert_eq!(app.selected_index, 0);
    assert_eq!(app.status_message, "Waiting for clipboard image...");
}

#[test]
fn selection_wraps() {
    let mut app = session(&[]).unwrap();
    app.select_prev();
    assert_eq!(app.selected_index, 2);
    app.select_next();
    assert_eq!(app.selected_index, 0);
    app.select_next();
    assert_eq!(app.selected_index, 1);
}

#[test]
fn clipboard_image_becomes_pending_once() {
    let mut app = session(&[]).unwrap();
    app.check_clipboard(None);
    assert!(app.clipboard_image.is_none());
    app.check_clipboard(Some(image(12, 34, 1)));
    assert_eq!(app.clipboard_dimensions, Some((12, 34)));
    assert_eq!(app.status_message, "Image ready: 12x34 - Press Enter to save");
    app.status_message = String::from("other");
    app.check_clipboard(Some(image(12, 34, 1)));
    assert_eq!(app.status_message, "other");
}

#[test]
fn save_without_image() {
    let mut app = session(&[]).unwrap();
    assert!(app.save_to_selected("t").is_none());
    assert_eq!(app.status_message, "No image in clipboard!");
    assert_eq!(app.remaining_count(), 3);
}

#[test]
fn successful_commit_removes_target() {
    let mut app = session(&[]).unwrap();
    app.check_clipboard(Some(image(2, 2, 7)));
    app.select_prev();
    let prepared = app.save_to_selected("2024-01-01_00-00-00").unwrap();
    assert_eq!(prepared.info.filename, "c.png");
    assert_eq!(prepared.info.path, app.placeholders[2].absolute_path);
    assert_eq!(app.remaining_count(), 3);
    app.finish_save(Ok(prepared.info));
    assert_eq!(app.remaining_count(), 2);
    assert_eq!(app.selected_index, 1);
    assert!(app.clipboard_image.is_none());
    assert_eq!(app.status_message, "Saved: c.png");
    assert!(app.placeholders.iter().all(|p| p.relative_path != "c.png"));
}

#[test]
fn failed_commit_keeps_image() {
    let mut app = session(&[]).unwrap();
    app.check_clipboard(Some(image(2, 2, 7)));
    let prepared = app.save_to_selected("t").unwrap();
    app.finish_save(Err("permission denied".to_string()));
    assert_eq!(app.remaining_count(), 3);
    assert_eq!(app.status_message, "Error saving: permission denied");
    assert!(app.clipboard_image.is_some());
    let again = app.save_to_selected("t").unwrap();
    assert_eq!(again.png, prepared.png);
    app.finish_save(Ok(again.info));
    assert_eq!(app.remaining_count(), 2);
}

#[test]
fn filling_everything() {
    let mut app = session(&["a.png", "b.png"]).unwrap();
    app.check_clipboard(Some(image(1, 1, 2)));
    let p = app.save_to_selected("t").unwrap();
    app.finish_save(Ok(p.info));
    assert!(app.all_done());
    assert_eq!(app.status_message, "All placeholders filled! Press q to quit.");
    app.check_clipboard(Some(image(1, 1, 3)));
    assert!(app.save_to_selected("t").is_none());
    assert_eq!(app.status_message, "No more placeholders!");
    assert!(app.clipboard_image.is_some());
    app.finish_save(Ok(written("x.png")));
    assert!(app.all_done());
}

#[test]
fn moving_selection_keeps_the_rest() {
    let mut app = session(&[]).unwrap();
    app.check_clipboard(Some(image(3, 3, 4)));
    let hash = app.last_image_hash;
    let status = app.status_message.clone();
    app.select_prev();
    app.select_next();
    app.select_next();
    assert_eq!(app.selected_index, 1);
    assert_eq!(app.last_image_hash, hash);
    assert_eq!(app.status_message, status);
    assert_eq!(app.markdown_path, "/doc/readme.md");
    assert!(!app.should_quit);
    assert_eq!(app.clipboard_dimensions, Some((3, 3)));
    app.check_clipboard(Some(image(3, 3, 4)));
    assert_eq!(app.status_message, status);
}
