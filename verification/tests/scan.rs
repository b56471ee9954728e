use wene::order::FileInfo;
use wene::path::FilePath;
use wene::scan::{is_animated_ext, is_hidden, is_image, Found, Scan, Visit, SCAN_BATCH};

fn found(path: &str, folder: bool) -> Found {
    Found {
        info: FileInfo {
            path: FilePath::new(path),
            size: 1,
            modified: 2,
            taken: None,
            added: None,
        },
        folder,
    }
}

fn mirror(all: &mut Vec<String>, inserts: Vec<(usize, FileInfo)>) {
    for (index, info) in inserts {
        all.insert(index, info.path.file_name().unwrap());
    }
}

#[test]
fn image_extensions() {
    for e in
        ["jpg", "jpeg", "png", "gif", "heic", "heif", "webp", "tif", "tiff", "bmp", "avif", "jxl"]
    {
        assert!(is_image(&FilePath::new(&format!("/a/x.{e}"))));
        assert!(is_image(&FilePath::new(&format!("/a/x.{}", e.to_uppercase()))));
    }
    for name in ["x.txt", "jpg", ".jpg", "x.jpgx", "x.", "x"] {
        assert!(!is_image(&FilePath::new(name)), "{name}");
    }
}

#[test]
fn animated_extensions() {
    assert!(is_animated_ext(&FilePath::new("/a/x.GIF")));
    assert!(is_animated_ext(&FilePath::new("/a/x.webp")));
    assert!(!is_animated_ext(&FilePath::new("/a/x.png")));
    assert!(!is_animated_ext(&FilePath::new("/a/gif")));
}

#[test]
fn hidden_names() {
    assert!(is_hidden(&FilePath::new("/a/.x.jpg")));
    assert!(!is_hidden(&FilePath::new("/.a/x.jpg")));
    assert!(is_hidden(&FilePath::new("/a/..")));
}

#[test]
fn batches_stream_out_in_sorted_order() {
    let mut scan = Scan::new(FilePath::new("/p"), true);
    assert_eq!(scan.next_folder().unwrap().as_text(), "/p");
    assert!(scan.next_folder().is_none());
    let mut all: Vec<String> = Vec::new();
    // Every seventh number, so that the files come out of order.
    let count = SCAN_BATCH + 36;
    for i in 0..count {
        let number = i * 7 % count;
        match scan.visit(found(&format!("/p/img{number}.jpg"), false)) {
            Visit::Waiting => assert_ne!((i + 1) % SCAN_BATCH, 0),
            Visit::Batch(inserts) => {
                assert_eq!(i + 1, SCAN_BATCH);
                assert_eq!(inserts.len(), SCAN_BATCH);
                mirror(&mut all, inserts);
            }
            _ => panic!("an image is kept"),
        }
    }
    let (rest, total) = scan.finish();
    assert_eq!(rest.len(), 36);
    assert_eq!(total, count);
    mirror(&mut all, rest);
    let expected: Vec<String> = (0..count).map(|i| format!("img{i}.jpg")).collect();
    assert_eq!(all, expected);
}

#[test]
fn folders_are_walked_when_recursive() {
    let mut deep = Scan::new(FilePath::new("/p"), true);
    deep.next_folder();
    assert!(matches!(deep.visit(found("/p/sub", true)), Visit::Folder));
    assert!(matches!(deep.visit(found("/p/sub2", true)), Visit::Folder));
    assert!(matches!(deep.visit(found("/p/.git", true)), Visit::Skipped));
    assert_eq!(deep.next_folder().unwrap().as_text(), "/p/sub2");
    assert_eq!(deep.next_folder().unwrap().as_text(), "/p/sub");
    assert!(deep.next_folder().is_none());

    let mut flat = Scan::new(FilePath::new("/p"), false);
    flat.next_folder();
    assert!(matches!(flat.visit(found("/p/sub", true)), Visit::Skipped));
    assert!(flat.next_folder().is_none());
}

#[test]
fn other_files_are_skipped() {
    let mut scan = Scan::new(FilePath::new("/p"), true);
    assert!(matches!(scan.visit(found("/p/notes.txt", false)), Visit::Skipped));
    assert!(matches!(scan.visit(found("/p/.x.jpg", false)), Visit::Skipped));
    // A folder with the name of an image is a folder.
    assert!(matches!(scan.visit(found("/p/album.jpg", true)), Visit::Folder));
    let (rest, total) = scan.finish();
    assert!(rest.is_empty());
    assert_eq!(total, 0);
}

#[test]
fn long_numbers_are_sorted_as_long_as_they_fit() {
    let mut scan = Scan::new(FilePath::new("/p"), true);
    for name in [
        "18446744073709551615.jpg",
        "12345678901234567890.jpg",
        "b99999999999999999999.jpg",
        "a99999999999999999999.jpg",
    ] {
        assert!(matches!(scan.visit(found(&format!("/p/{name}"), false)), Visit::Waiting));
    }
    let (rest, total) = scan.finish();
    assert_eq!(total, 4);
    let mut all = Vec::new();
    mirror(&mut all, rest);
    assert_eq!(
        all,
        [
            "12345678901234567890.jpg",
            "18446744073709551615.jpg",
            "a99999999999999999999.jpg",
            "b99999999999999999999.jpg",
        ]
    );
}

#[test]
fn a_second_number_that_does_not_fit_cannot_be_sorted() {
    let mut scan = Scan::new(FilePath::new("/p"), true);
    let one = "/p/18446744073709551616.jpg";
    let two = "/p/99999999999999999999.jpg";
    assert!(matches!(scan.visit(found(one, false)), Visit::Waiting));
    assert!(matches!(scan.visit(found(two, false)), Visit::Unsortable));
    assert!(matches!(scan.visit(found("/p/7.jpg", false)), Visit::Waiting));
    assert_eq!(scan.finish().1, 2);
}
