use base64::engine::general_purpose::STANDARD;
use base64::Engine;
use pictd::pixels::RawImage;
use pictd::storage::{
    generate_thumbnail, list_saved_images, save_image, save_image_to_path, unique_filename, StoredFile,
};
use std::path::Path;

fn image(w: u32, h: u32, seed: u8) -> RawImage {
    let n = (w * h * 4) as usize;
    RawImage { width: w, height: h, pixels: (0..n).map(|i| (i as u8).wrapping_add(seed)).collect() }
}

fn names(v: &[&str]) -> Vec<String> {
    v.iter().map(|s| s.to_string()).collect()
}

#[test]
fn first_free_name() {
    let ts = "2024-05-06_07-08-09";
    assert_eq!(unique_filename(ts, &vec![]), "2024-05-06_07-08-09.png");
    assert_eq!(unique_filename(ts, &names(&["2024-05-06_07-08-09.png"])), "2024-05-06_07-08-09_1.png");
    assert_eq!(
        unique_filename(ts, &names(&["2024-05-06_07-08-09_1.png", "2024-05-06_07-08-09.png", "x.png"])),
        "2024-05-06_07-08-09_2.png"
    );
    assert_eq!(unique_filename(ts, &names(&["2024-05-06_07-08-09_1.png"])), "2024-05-06_07-08-09.png");
}

#[test]
fn first_free_name_past_ten() {
    let ts = "t";
    let mut existing = names(&["t.png"]);
    for i in 1..=10 {
        existing.push(format!("t_{}.png", i));
    }
    assert_eq!(unique_filename(ts, &existing), "t_11.png");
}

#[test]
fn two_saves_in_one_second() {
    let ts = "2024-01-02_03-04-05";
    let img = image(3, 2, 1);
    let first = save_image(&img, "/save", ts, &vec![]).unwrap();
    assert_eq!(first.info.filename, "2024-01-02_03-04-05.png");
    let existing = vec![first.info.filename.clone()];
    let second = save_image(&img, "/save", ts, &existing).unwrap();
    assert_eq!(second.info.filename, "2024-01-02_03-04-05_1.png");
    assert_ne!(first.info.path, second.info.path);
    assert_eq!(
        second.info.path,
        Path::new("/save").join("2024-01-02_03-04-05_1.png").to_string_lossy()
    );
    assert_eq!(second.info.timestamp, ts);
    assert_eq!((second.info.width, second.info.height), (3, 2));
}

#[test]
fn saved_png_round_trips() {
    let img = image(5, 4, 9);
    let saved = save_image_to_path(&img, "/doc/x/3.png", "2024-01-01_00-00-00").unwrap();
    assert_eq!(saved.info.filename, "3.png");
    assert_eq!(saved.info.path, "/doc/x/3.png");
    let back = image::load_from_memory(&saved.png).unwrap().into_rgba8();
    assert_eq!(back.dimensions(), (5, 4));
    assert_eq!(back.into_raw(), img.pixels);
}

#[test]
fn thumbnail_is_base64_png_of_fixed_size() {
    let img = image(300, 200, 4);
    let t = generate_thumbnail(&img).unwrap();
    let bytes = STANDARD.decode(t.as_bytes()).unwrap();
    let thumb = image::load_from_memory(&bytes).unwrap();
    assert_eq!((thumb.width(), thumb.height()), (150, 150));
    let tiny = generate_thumbnail(&image(1, 1, 0)).unwrap();
    let thumb = image::load_from_memory(&STANDARD.decode(tiny.as_bytes()).unwrap()).unwrap();
    assert_eq!((thumb.width(), thumb.height()), (150, 150));
}

fn stored(name: &str, bytes: Vec<u8>) -> StoredFile {
    StoredFile { path: format!("/dir/{}", name), filename: name.to_string(), bytes }
}

#[test]
fn listing_filters_and_orders() {
    let png = save_image(&image(2, 2, 3), "/dir", "a", &vec![]).unwrap().png;
    let files = vec![
        stored("2024-01-01_00-00-01.png", png.clone()),
        stored("notes.txt", png.clone()),
        stored("broken.png", vec![1, 2, 3]),
        stored("2024-01-01_00-00-03.png", png.clone()),
        stored(".png", png.clone()),
        stored("2024-01-01_00-00-02_1.png", png.clone()),
    ];
    let list = list_saved_images(&files);
    let got: Vec<&str> = list.iter().map(|i| i.filename.as_str()).collect();
    assert_eq!(got, vec!["2024-01-01_00-00-03.png", "2024-01-01_00-00-02_1.png", "2024-01-01_00-00-01.png"]);
    assert_eq!(list[1].timestamp, "2024-01-01_00-00-02_1");
    assert_eq!(list[0].path, "/dir/2024-01-01_00-00-03.png");
    assert_eq!((list[0].width, list[0].height), (2, 2));
    assert!(!list[0].thumbnail.is_empty());
}

#[test]
fn listing_of_nothing() {
    assert!(list_saved_images(&vec![]).is_empty());
}

#[test]
fn thumbnail_text_length_is_padded_base64() {
    let t = generate_thumbnail(&image(7, 5, 1)).unwrap();
    assert_eq!(t.len() % 4, 0);
    assert!(t.len() > 0);
}
