use crabkit::imaging::{convert_to_png, ImageError};
use crabkit::server::{handle_payload, Dispatch};
use crabkit::store::{join_path, make_unique_name, FileStore, ImageStore};
use crabkit::wire::{encode, Message};

#[test]
fn unique_name_puts_timestamp_before_extension() {
    assert_eq!(make_unique_name("a.txt", 1700000000), "a_1700000000.txt");
    assert_eq!(make_unique_name("archive.tar.gz", 7), "archive.tar_7.gz");
    assert_eq!(make_unique_name("noext", 5), "noext_5");
    // A leading dot does not start an extension.
    assert_eq!(make_unique_name(".hidden", 12), ".hidden_12");
}

#[test]
fn join_path_inserts_one_separator() {
    assert_eq!(join_path("files", "a.txt"), "files/a.txt");
    assert_eq!(join_path("files/", "a.txt"), "files/a.txt");
    assert_eq!(join_path("", "a.txt"), "a.txt");
}

#[test]
fn file_store_plans_candidate_then_renames() {
    let store = FileStore::new("files".to_string());
    assert_eq!(store.plan_path("a.txt", false, 99), "files/a.txt");
    assert_eq!(store.plan_path("a.txt", true, 99), "files/a_99.txt");
}

#[test]
fn image_store_always_timestamps() {
    let store = ImageStore::new("images".to_string());
    assert_eq!(store.plan_path("mri.jpg", 1700000001), "images/mri.jpg_1700000001.png");
}

#[test]
fn stored_file_keeps_its_bytes() {
    // A File frame's payload reaches the disk byte for byte.
    let rt = tokio::runtime::Runtime::new().unwrap();
    let dir = "/tmp/it_filestore_integrity";
    let _ = rt.block_on(tokio::fs::remove_dir_all(dir));
    rt.block_on(tokio::fs::create_dir_all(dir)).unwrap();

    let payload = encode(&Message::File("blob.bin".to_string(), vec![0, 155, 7, 42, 0]));
    let (name, data) = match handle_payload(&payload).unwrap() {
        Dispatch::StoreFile(name, data) => (name, data),
        other => panic!("a file frame must route to the file store, got {:?}", other),
    };
    let store = FileStore::new(dir.to_string());
    let candidate = store.candidate_path(&name);
    let taken = rt.block_on(tokio::fs::metadata(&candidate)).is_ok();
    let path = store.plan_path(&name, taken, 1);
    rt.block_on(tokio::fs::write(&path, &data)).unwrap();

    let back = rt.block_on(tokio::fs::read(&path)).unwrap();
    assert_eq!(back.len(), 5);
    assert_eq!(back, vec![0, 155, 7, 42, 0]);

    rt.block_on(tokio::fs::remove_dir_all(dir)).unwrap();
}

#[test]
fn colliding_puts_make_two_files() {
    // Two puts of "a.txt" more than a second apart leave two distinct,
    // readable files, each with its own bytes.
    let rt = tokio::runtime::Runtime::new().unwrap();
    let dir = "/tmp/it_filestore_collision";
    let _ = rt.block_on(tokio::fs::remove_dir_all(dir));
    rt.block_on(tokio::fs::create_dir_all(dir)).unwrap();
    let store = FileStore::new(dir.to_string());

    let first_taken = rt.block_on(tokio::fs::metadata(store.candidate_path("a.txt"))).is_ok();
    let first = store.plan_path("a.txt", first_taken, 1700000000);
    rt.block_on(tokio::fs::write(&first, b"first contents".to_vec())).unwrap();

    let second_taken = rt.block_on(tokio::fs::metadata(store.candidate_path("a.txt"))).is_ok();
    assert!(second_taken);
    let second = store.plan_path("a.txt", second_taken, 1700000002);
    rt.block_on(tokio::fs::write(&second, b"second contents".to_vec())).unwrap();

    assert_ne!(first, second);
    assert_eq!(rt.block_on(tokio::fs::read(&first)).unwrap(), b"first contents");
    assert_eq!(rt.block_on(tokio::fs::read(&second)).unwrap(), b"second contents");

    rt.block_on(tokio::fs::remove_dir_all(dir)).unwrap();
}

#[test]
fn file_put_lands_on_plain_path_in_empty_store() {
    // A frame encoding File("note.txt", b"abc") sent to an empty file store
    // ends up at files/note.txt with content abc.
    let rt = tokio::runtime::Runtime::new().unwrap();
    let dir = "/tmp/it_empty_store/files";
    let _ = rt.block_on(tokio::fs::remove_dir_all(dir));
    rt.block_on(tokio::fs::create_dir_all(dir)).unwrap();

    let payload = encode(&Message::File("note.txt".to_string(), b"abc".to_vec()));
    let (name, data) = match handle_payload(&payload).unwrap() {
        Dispatch::StoreFile(name, data) => (name, data),
        other => panic!("a file frame must route to the file store, got {:?}", other),
    };
    let store = FileStore::new(dir.to_string());
    let taken = rt.block_on(tokio::fs::metadata(store.candidate_path(&name))).is_ok();
    let path = store.plan_path(&name, taken, 1700000000);
    assert_eq!(path, format!("{}/note.txt", dir));
    assert!(path.ends_with("files/note.txt"));
    rt.block_on(tokio::fs::write(&path, &data)).unwrap();
    assert_eq!(rt.block_on(tokio::fs::read(&path)).unwrap(), b"abc");

    rt.block_on(tokio::fs::remove_dir_all(dir)).unwrap();
}

#[test]
fn jpeg_converts_to_png_with_same_dimensions() {
    // Build a small JPEG in memory.
    let mut img = image::RgbImage::new(8, 6);
    for (x, y, px) in img.enumerate_pixels_mut() {
        *px = image::Rgb([(x * 30) as u8, (y * 40) as u8, 120]);
    }
    let mut jpeg: Vec<u8> = Vec::new();
    image::DynamicImage::ImageRgb8(img)
        .write_to(&mut std::io::Cursor::new(&mut jpeg), image::ImageFormat::Jpeg)
        .unwrap();

    let png = convert_to_png(&jpeg).unwrap();
    let reloaded = image::load_from_memory(&png).unwrap();
    assert_eq!(image::guess_format(&png).unwrap(), image::ImageFormat::Png);
    assert_eq!(reloaded.width(), 8);
    assert_eq!(reloaded.height(), 6);
}

#[test]
fn garbage_is_not_an_image() {
    assert_eq!(convert_to_png(&[1, 2, 3, 4, 5]), Err(ImageError::DecodeFailed));
}

#[test]
fn png_conversion_is_idempotent_in_size() {
    // Converting an already-PNG payload yields a PNG of the same dimensions.
    let img = image::RgbImage::new(3, 5);
    let mut png_in: Vec<u8> = Vec::new();
    image::DynamicImage::ImageRgb8(img)
        .write_to(&mut std::io::Cursor::new(&mut png_in), image::ImageFormat::Png)
        .unwrap();
    let png_out = convert_to_png(&png_in).unwrap();
    let reloaded = image::load_from_memory(&png_out).unwrap();
    assert_eq!((reloaded.width(), reloaded.height()), (3, 5));
}
