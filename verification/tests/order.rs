use wene::order::{
    are_short, can_compare, can_compare_forms, can_sort, file_info_order, file_order,
    has_short_numbers, insert_sorted, natural_str_order, settled_rank, sort_files, FileInfo, SortOrder,
};
use wene::path::FilePath;
use wene::scan::is_image;

fn info(path: &str) -> FileInfo {
    FileInfo { path: FilePath::new(path), size: 0, modified: 0, taken: None, added: None }
}

fn names(files: &[FileInfo]) -> Vec<String> {
    files.iter().map(|f| f.path.file_name().unwrap()).collect()
}

#[test]
fn natural_order_and_sorted_insert() {
    let mut sorted: Vec<FileInfo> = Vec::new();
    let list = ["img10.jpg", "img2.jpg", "b.png", "img1.jpg"];
    for n in list {
        insert_sorted(&mut sorted, info(&format!("/x/{n}")), SortOrder::Name, false);
    }
    assert_eq!(names(&sorted), ["b.png", "img1.jpg", "img2.jpg", "img10.jpg"]);
    assert!(is_image(&FilePath::new("/a/x.HEIC")));
    assert!(!is_image(&FilePath::new("/a/x.txt")));
}

#[test]
fn natural_comparison_of_texts() {
    assert_eq!(natural_str_order("img2", "img10"), Some(-1));
    assert_eq!(natural_str_order("img10", "img2"), Some(1));
    assert_eq!(natural_str_order("a", "a"), Some(0));
    // Only the same characters are equal.
    assert_ne!(natural_str_order("A", "a"), Some(0));
    assert_eq!(natural_str_order("a", "B"), Some(-1));
    assert_eq!(natural_str_order("ä", "b"), Some(-1));
}

#[test]
fn numbers_that_do_not_fit_cannot_be_compared() {
    let long = "18446744073709551616";
    let longer = "999999999999999999999";
    assert!(has_short_numbers("1234567890123456789"));
    assert!(!has_short_numbers(long));
    assert!(has_short_numbers("1234567890 1234567890"));
    assert_eq!(natural_str_order(long, longer), None);
    assert_eq!(natural_str_order(long, "18446744073709551615"), None);
    assert_eq!(natural_str_order(long, "7"), Some(1));
    // Digits of other scripts count too.
    assert!(!has_short_numbers("1234567890123456789½"));
}

#[test]
fn long_numbers_that_fit_are_compared() {
    assert_eq!(natural_str_order("12345678901234567890", "12345678901234567891"), Some(-1));
    assert_eq!(natural_str_order("18446744073709551615", "18446744073709551614"), Some(1));
    // Leading zeros count as digits, and take no room.
    let (one, two) = ("000000000000000000000001", "000000000000000000000002");
    assert_eq!(natural_str_order(one, two), Some(-1));
    // Only the digits that both have are read.
    assert_eq!(natural_str_order("12345678901234567890", "123456789012345678901"), Some(-1));
    // The comparison ends before the numbers.
    assert_eq!(natural_str_order("a99999999999999999999", "b99999999999999999999"), Some(-1));
    // It goes on behind the same number.
    assert_eq!(natural_str_order("1a99999999999999999999", "1b99999999999999999999"), Some(-1));
    assert_eq!(natural_str_order("1a99999999999999999999", "1a99999999999999999999"), None);
}

#[test]
fn forms_are_read_in_step() {
    let fits = |a: &str, b: &str| {
        can_compare_forms(&a.chars().collect(), &b.chars().collect())
    };
    assert!(fits("", "99999999999999999999"));
    assert!(fits("18446744073709551615", "18446744073709551615"));
    assert!(!fits("18446744073709551616", "18446744073709551615"));
    assert!(!fits("18446744073709551615", "18446744073709551616"));
    assert!(fits("1x99999999999999999999", "2x99999999999999999999"));
    assert!(fits("01x99999999999999999999", "1x99999999999999999999"));
    assert!(!fits("1x99999999999999999999", "1x99999999999999999999"));
}

#[test]
fn equal_names_go_by_path() {
    assert_eq!(file_order(&FilePath::new("/b/1.jpg"), &FilePath::new("/a/2.jpg")), -1);
    assert_eq!(file_order(&FilePath::new("/b/1.jpg"), &FilePath::new("/a/1.jpg")), 1);
    assert_eq!(file_order(&FilePath::new("/a/1.jpg"), &FilePath::new("/a/1.jpg")), 0);
}

#[test]
fn sorting_by_numbers_breaks_ties_by_name() {
    let mut big = info("/x/a.jpg");
    big.size = 9;
    big.modified = 5;
    let mut small = info("/x/b.jpg");
    small.size = 1;
    small.modified = 5;
    small.taken = Some(3);
    small.added = Some(8);
    assert_eq!(file_info_order(&big, &small, SortOrder::Size, false), 1);
    assert_eq!(file_info_order(&big, &small, SortOrder::Size, true), -1);
    assert_eq!(file_info_order(&big, &small, SortOrder::Modified, false), -1);
    // A missing date falls back to the date modified.
    assert_eq!(file_info_order(&big, &small, SortOrder::ExifDate, false), 1);
    assert_eq!(file_info_order(&big, &small, SortOrder::Added, false), -1);
    assert_eq!(file_info_order(&big, &small, SortOrder::Path, false), -1);
    assert_eq!(file_info_order(&big, &small, SortOrder::Name, false), -1);
}

#[test]
fn a_sort_is_the_same_files_in_order() {
    let mut files: Vec<FileInfo> = Vec::new();
    for (i, n) in ["d.jpg", "a.jpg", "c10.jpg", "c9.jpg"].iter().enumerate() {
        let mut f = info(&format!("/x/{n}"));
        f.size = (i as u64) % 2;
        files.push(f);
    }
    assert!(can_sort(&files, SortOrder::Size));
    let by_size = sort_files(files, SortOrder::Size, true);
    assert_eq!(names(&by_size), ["c9.jpg", "a.jpg", "d.jpg", "c10.jpg"]);
    let by_name = sort_files(by_size, SortOrder::Name, false);
    assert_eq!(names(&by_name), ["a.jpg", "c9.jpg", "c10.jpg", "d.jpg"]);
}

#[test]
fn numbers_that_do_not_fit_stop_a_sort() {
    let a = info("/x/18446744073709551616.jpg");
    let b = info("/x/99999999999999999999.jpg");
    assert!(!can_compare(&a, &b, SortOrder::Name));
    let mut c = b.clone();
    c.size = 1;
    assert!(can_compare(&a, &c, SortOrder::Size));
    assert!(!can_sort(&vec![a, info("/x/1.jpg"), b], SortOrder::Name));
}

#[test]
fn numbers_of_twenty_digits_are_long() {
    let characters = |text: &str| text.chars().collect::<Vec<char>>();
    assert!(are_short(&characters("")));
    assert!(are_short(&characters("1234567890123456789a1234567890123456789")));
    assert!(!are_short(&characters("a12345678901234567890")));
}

#[test]
fn ties_are_settled_last() {
    assert_eq!(settled_rank(1, 2, 1, false), -1);
    assert_eq!(settled_rank(2, 1, -1, false), 1);
    assert_eq!(settled_rank(1, 1, -1, false), -1);
    assert_eq!(settled_rank(1, 2, 0, true), 1);
    assert_eq!(settled_rank(1, 1, -1, true), 1);
}

#[test]
fn equal_files_keep_their_order() {
    let sized = |path: &str, size: u64| FileInfo { size, ..info(path) };
    let files = vec![sized("/b", 3), sized("/a", 9), sized("/b", 1), sized("/b", 2), sized("/a", 4)];
    for descending in [false, true] {
        let sorted = sort_files(files.clone(), SortOrder::Name, descending);
        let sizes: Vec<u64> = sorted.iter().map(|f| f.size).collect();
        let expected = if descending { [3, 1, 2, 9, 4] } else { [9, 4, 3, 1, 2] };
        assert_eq!(sizes, expected);
    }
    assert_eq!(file_info_order(&files[0], &files[2], SortOrder::Name, true), 0);
    assert_eq!(file_info_order(&files[0], &files[2], SortOrder::Size, false), 1);
    assert_eq!(file_info_order(&sized("/a/b", 1), &sized("/a//b", 1), SortOrder::Size, false).abs(), 1);
}
