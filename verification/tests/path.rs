use std::path::Path;

use wene::path::{extension, find_path, split, stem, FilePath, PathMap, PathSet};
use wene::text::{contains, ends_with, same_but_for_capitals, same_text};

const PATHS: [&str; 16] = [
    "",
    "/",
    "a",
    ".",
    "..",
    "./a",
    "a/.",
    "a/./b",
    "/a//b/",
    "//a",
    "/a/..",
    "/a/../b.jpg",
    "x/.hidden",
    "/photos/IMG_1.HEIC",
    "/a b/c.d.e",
    "dir/ü.png",
];

#[test]
fn components_agree_with_the_standard_library() {
    for text in PATHS {
        let expected: Vec<String> = Path::new(text)
            .components()
            .map(|c| c.as_os_str().to_string_lossy().into_owned())
            .collect();
        assert_eq!(split(text), expected, "{text}");
    }
}

#[test]
fn file_names_agree_with_the_standard_library() {
    for text in PATHS {
        let expected =
            Path::new(text).file_name().map(|n| n.to_string_lossy().into_owned());
        assert_eq!(FilePath::new(text).file_name(), expected, "{text}");
    }
}

#[test]
fn stems_and_extensions_agree_with_the_standard_library() {
    for name in ["a.jpg", "a", ".hidden", ".hidden.jpg", "a.", "a.b.c", "..a", "a..b"] {
        let path = Path::new(name);
        assert_eq!(Some(stem(name)), path.file_stem().map(|s| s.to_string_lossy().into_owned()));
        assert_eq!(
            extension(name),
            path.extension().map(|e| e.to_string_lossy().into_owned()),
            "{name}"
        );
    }
}

#[test]
fn joins_agree_with_the_standard_library() {
    for folder in PATHS {
        for name in ["b.jpg", "", "/x", "c/d"] {
            let expected = Path::new(folder).join(name).to_string_lossy().into_owned();
            assert_eq!(FilePath::new(folder).join(name).as_text(), expected);
        }
    }
}

#[test]
fn parents_agree_with_the_standard_library() {
    for text in PATHS {
        for folder in PATHS {
            let expected = Path::new(text).parent() == Some(Path::new(folder));
            assert_eq!(
                FilePath::new(text).lies_in(&FilePath::new(folder)),
                expected,
                "{text} in {folder}"
            );
        }
    }
}

#[test]
fn paths_are_the_same_by_their_components() {
    for a in PATHS {
        for b in PATHS {
            let expected = Path::new(a) == Path::new(b);
            assert_eq!(FilePath::new(a).same(&FilePath::new(b)), expected, "{a} and {b}");
        }
    }
}

#[test]
fn the_first_of_equal_paths_is_found() {
    let paths = vec![FilePath::new("/a"), FilePath::new("/b"), FilePath::new("/b/.")];
    assert_eq!(find_path(&paths, &FilePath::new("//b")), Some(1));
    assert_eq!(find_path(&paths, &FilePath::new("/c")), None);
}

#[test]
fn a_set_of_paths() {
    let mut set = PathSet::new();
    assert!(set.insert(FilePath::new("/a/b")));
    assert!(!set.insert(FilePath::new("/a//b")));
    assert!(set.insert(FilePath::new("/a/c")));
    assert!(set.contains(&FilePath::new("/a/b/")));
    set.remove(&FilePath::new("/a/./b"));
    assert!(!set.contains(&FilePath::new("/a/b")));
    assert!(set.contains(&FilePath::new("/a/c")));
    set.clear();
    assert!(!set.contains(&FilePath::new("/a/c")));
}

#[test]
fn a_map_of_paths() {
    let mut map: PathMap<u32> = PathMap::new();
    map.insert(FilePath::new("/a"), 1);
    map.insert(FilePath::new("/b"), 2);
    map.insert(FilePath::new("/a/."), 3);
    assert_eq!(map.get(&FilePath::new("/a")), Some(3));
    assert_eq!(map.get(&FilePath::new("/b")), Some(2));
    map.remove(&FilePath::new("/a"));
    assert_eq!(map.get(&FilePath::new("/a")), None);
}

#[test]
fn texts_are_compared_and_searched() {
    assert!(same_text("é", "é"));
    assert!(!same_text("a", "ab"));
    assert!(same_but_for_capitals("JpG", "jpg"));
    assert!(!same_but_for_capitals("jpg", "JPG"));
    assert!(contains("12 images", "2 im"));
    assert!(contains("abc", ""));
    assert!(!contains("abc", "abcd"));
    assert!(contains("aab", "ab"));
    assert!(ends_with("/a/photos", "photos"));
    assert!(ends_with("x", ""));
    assert!(!ends_with("s", "photos"));
    assert!(!ends_with("photos/", "photos"));
}
