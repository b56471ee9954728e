use wene::grid::{cell_place, name_matches, Cell, GridKey, GridView};
use wene::order::{FileInfo, SortOrder};
use wene::path::FilePath;

fn info(name: &str, size: u64) -> FileInfo {
    FileInfo {
        path: FilePath::new(&format!("/p/{name}")),
        size,
        modified: 0,
        taken: None,
        added: None,
    }
}

fn path(name: &str) -> FilePath {
    FilePath::new(&format!("/p/{name}"))
}

fn grid(names: &[&str]) -> GridView<u32> {
    let mut grid = GridView::new();
    let inserts = names.iter().enumerate().map(|(i, n)| (i, info(n, i as u64))).collect();
    grid.insert_files(inserts);
    grid
}

fn shown(grid: &GridView<u32>) -> Vec<String> {
    grid.paths().iter().map(|p| p.file_name().unwrap()).collect()
}

fn selected(grid: &GridView<u32>) -> Vec<String> {
    grid.selected_paths().iter().map(|p| p.file_name().unwrap()).collect()
}

#[test]
fn inserts_are_mirrored() {
    let mut grid: GridView<u32> = GridView::new();
    grid.insert_files(vec![(0, info("b", 1)), (0, info("a", 1)), (2, info("d", 1))]);
    grid.insert_files(vec![(2, info("c", 1)), (99, info("e", 1))]);
    assert_eq!(shown(&grid), ["a", "b", "c", "d", "e"]);
    assert_eq!(grid.counts(), (5, 5));
}

#[test]
fn a_filter_narrows_the_grid() {
    let mut grid = grid(&["Apple.jpg", "banana.jpg", "PINEAPPLE.png"]);
    grid.set_filter("aPPle");
    assert!(grid.filtering());
    assert_eq!(shown(&grid), ["Apple.jpg", "PINEAPPLE.png"]);
    assert_eq!(grid.counts(), (2, 3));
    grid.set_filter("");
    assert!(!grid.filtering());
    assert_eq!(grid.counts(), (3, 3));
}

#[test]
fn a_filter_lasts_until_the_next_one() {
    let mut grid = grid(&["a1", "b1", "a2"]);
    grid.set_filter("A");
    grid.insert_files(vec![(0, info("a3", 0)), (0, info("b2", 0))]);
    assert!(grid.remove_paths(&vec![path("a1")]));
    assert!(grid.resort(SortOrder::Name, true));
    grid.select_all();
    assert!(grid.filtering());
    assert_eq!(shown(&grid), ["a3", "a2"]);
    assert_eq!(grid.counts(), (2, 4));
    grid.reset();
    assert!(!grid.filtering());
}

#[test]
fn removing_the_tail_selects_the_last_that_is_left() {
    let mut grid = grid(&["a", "b", "c", "d"]);
    grid.remove_and_advance(&vec![path("d"), path("b"), path("c")]);
    assert_eq!(selected(&grid), ["a"]);
    grid.remove_and_advance(&vec![path("a")]);
    assert!(selected(&grid).is_empty());
    assert_eq!(grid.focused(), None);
}

#[test]
fn filters_ignore_case_beyond_ascii() {
    let mut grid = grid(&["ÄRGER.jpg", "b.jpg"]);
    grid.set_filter("Ärg");
    assert_eq!(shown(&grid), ["ÄRGER.jpg"]);
}

#[test]
fn names_hold_the_filter() {
    assert!(name_matches("img_1.jpg", "_1"));
    assert!(name_matches("img_1.jpg", ""));
    assert!(!name_matches("img_1.jpg", "_2"));
}

#[test]
fn the_selection_stays_on_its_files() {
    let mut grid = grid(&["a1.jpg", "b1.jpg", "a2.jpg", "b2.jpg"]);
    grid.e2e_set_selected(&vec![1, 2]);
    grid.set_filter("a");
    assert_eq!(selected(&grid), ["a2.jpg"]);
    grid.set_filter("");
    // A file that was filtered out is no longer selected.
    assert_eq!(selected(&grid), ["a2.jpg"]);
    assert!(grid.resort(SortOrder::Size, true));
    assert_eq!(shown(&grid), ["b2.jpg", "a2.jpg", "b1.jpg", "a1.jpg"]);
    assert_eq!(selected(&grid), ["a2.jpg"]);
}

#[test]
fn unsortable_files_leave_the_grid_alone() {
    let mut grid = grid(&["18446744073709551616.jpg", "a.jpg", "99999999999999999999.jpg"]);
    assert!(!grid.resort(SortOrder::Name, false));
    assert_eq!(shown(&grid)[1], "a.jpg");
    assert!(grid.resort(SortOrder::Size, true));
    assert_eq!(shown(&grid)[0], "99999999999999999999.jpg");
}

#[test]
fn long_numbers_that_are_not_read_sort() {
    let mut grid = grid(&["b99999999999999999999.jpg", "a99999999999999999999.jpg"]);
    assert!(grid.resort(SortOrder::Name, false));
    assert_eq!(shown(&grid)[0], "a99999999999999999999.jpg");
}

#[test]
fn one_selected_plays_everything_from_there() {
    let mut grid = grid(&["a", "b", "c"]);
    let (files, start) = grid.slideshow_request();
    assert_eq!((files.len(), start), (3, 0));
    grid.mouse_down(Some(2), false, false);
    let (files, start) = grid.slideshow_request();
    assert_eq!((files.len(), start), (3, 2));
}

#[test]
fn one_selected_starts_there_wherever_the_focus_is() {
    let mut grid = grid(&["a", "b", "c"]);
    grid.mouse_down(Some(0), false, false);
    grid.mouse_down(Some(1), true, false);
    grid.mouse_down(Some(1), true, false);
    assert_eq!(selected(&grid), ["a"]);
    assert_eq!(grid.focused(), Some(1));
    let (files, start) = grid.slideshow_request();
    assert_eq!((files.len(), start), (3, 0));
    // With nothing selected it starts at the focus.
    grid.mouse_down(Some(0), true, false);
    grid.mouse_down(Some(2), true, false);
    grid.mouse_down(Some(2), true, false);
    let (files, start) = grid.slideshow_request();
    assert_eq!((files.len(), start), (3, 2));
}

#[test]
fn several_selected_play_just_those() {
    let mut grid = grid(&["a", "b", "c", "d"]);
    grid.mouse_down(Some(0), false, false);
    grid.mouse_down(Some(3), true, false);
    grid.mouse_down(Some(1), true, false);
    let (files, start) = grid.slideshow_request();
    let names: Vec<_> = files.iter().map(|p| p.file_name().unwrap()).collect();
    assert_eq!(names, ["a", "b", "d"]);
    assert_eq!(start, 1);
}

#[test]
fn clicks_select() {
    let mut grid = grid(&["a", "b", "c", "d", "e"]);
    grid.mouse_down(Some(3), false, false);
    grid.mouse_down(Some(1), false, true);
    assert_eq!(selected(&grid), ["b", "c", "d"]);
    assert!(grid.is_selected(2));
    assert!(!grid.is_selected(0));
    assert!(!grid.is_selected(9));
    assert_eq!(grid.focused(), Some(1));
    // The anchor stays for the next range.
    grid.mouse_down(Some(4), false, true);
    assert_eq!(selected(&grid), ["d", "e"]);
    grid.mouse_down(Some(4), true, false);
    assert_eq!(selected(&grid), ["d"]);
    grid.mouse_down(None, true, false);
    assert_eq!(selected(&grid), ["d"]);
    grid.mouse_down(None, false, false);
    assert!(selected(&grid).is_empty());
    assert!(!grid.any_selected());
}

#[test]
fn the_rubber_band_selects_what_it_touches() {
    let mut grid = grid(&["a", "b", "c"]);
    grid.select_band(vec![true, false, true]);
    assert_eq!(selected(&grid), ["a", "c"]);
}

#[test]
fn keys_move_the_focus() {
    let mut grid = grid(&["a", "b", "c", "d", "e"]);
    assert_eq!(grid.key_down(36, 2), GridKey::Nothing);
    assert_eq!(grid.key_down(124, 2), GridKey::Moved);
    assert_eq!(selected(&grid), ["a"]);
    assert_eq!(grid.key_down(125, 2), GridKey::Moved);
    assert_eq!(selected(&grid), ["c"]);
    grid.key_down(125, 2);
    grid.key_down(125, 2);
    assert_eq!(selected(&grid), ["e"]);
    grid.key_down(126, 2);
    grid.key_down(123, 2);
    assert_eq!(selected(&grid), ["b"]);
    grid.key_down(126, 2);
    assert_eq!(selected(&grid), ["a"]);
    assert_eq!(grid.key_down(36, 2), GridKey::Activate);
    assert_eq!(grid.key_down(53, 2), GridKey::Escape);
    assert_eq!(grid.key_down(0, 2), GridKey::Unknown);
    let mut empty: GridView<u32> = GridView::new();
    assert_eq!(empty.key_down(124, 1), GridKey::Nothing);
}

#[test]
fn removing_works_through_a_run() {
    let mut grid = grid(&["a", "b", "c", "d"]);
    grid.mouse_down(Some(1), false, false);
    for (next, left) in [("c", 3), ("d", 2), ("a", 1)] {
        let paths = grid.selected_paths();
        grid.remove_and_advance(&paths);
        assert_eq!(selected(&grid), [next]);
        assert_eq!(grid.counts(), (left, left));
    }
    let paths = grid.selected_paths();
    grid.remove_and_advance(&paths);
    assert!(selected(&grid).is_empty());
    assert_eq!(grid.counts(), (0, 0));
}

#[test]
fn removing_several_selects_behind_the_last() {
    let mut grid = grid(&["a", "b", "c", "d", "e"]);
    grid.e2e_set_selected(&vec![0, 2]);
    let paths = grid.selected_paths();
    grid.remove_and_advance(&paths);
    assert_eq!(selected(&grid), ["d"]);
}

#[test]
fn removals_from_disk_keep_the_focus_in_place() {
    let mut grid = grid(&["a", "b", "c"]);
    grid.mouse_down(Some(1), false, false);
    assert!(grid.remove_paths(&vec![path("b")]));
    assert!(selected(&grid).is_empty());
    // The focus is on what slid into its place.
    assert_eq!(grid.slideshow_request().1, 1);
    assert!(!grid.remove_paths(&vec![path("b")]));
    assert!(grid.remove_paths(&vec![path("c")]));
    assert_eq!(grid.slideshow_request().1, 0);
}

#[test]
fn selecting_everything_and_by_path() {
    let mut grid = grid(&["a", "b", "c"]);
    grid.select_all();
    assert_eq!(selected(&grid), ["a", "b", "c"]);
    assert!(grid.holds_all(&vec![path("c"), path("a")]));
    assert!(!grid.holds_all(&vec![path("c"), path("x")]));
    grid.select_paths(&vec![path("c"), path("x"), path("a")]);
    assert_eq!(selected(&grid), ["a", "c"]);
    assert_eq!(grid.slideshow_request().1, 1);
    grid.select_paths(&vec![path("x")]);
    assert!(selected(&grid).is_empty());
    assert_eq!(grid.selection_info().0, 3);
}

#[test]
fn thumbnails_are_asked_for_once() {
    let mut grid = grid(&["a", "b"]);
    assert!(matches!(grid.draw_cell(0), Cell::Request(p) if p.file_name().unwrap() == "a"));
    assert!(matches!(grid.draw_cell(0), Cell::Waiting));
    assert!(grid.has_room(&path("a"), 100));
    grid.set_thumb(path("a"), 7, 100);
    assert!(matches!(grid.draw_cell(0), Cell::Image(7)));
    grid.invalidate_thumb(&path("a"));
    assert!(matches!(grid.draw_cell(0), Cell::Request(_)));
}

#[test]
fn evicted_thumbnails_are_asked_for_again() {
    let mut grid = grid(&["a", "b"]);
    assert!(matches!(grid.draw_cell(0), Cell::Request(_)));
    assert!(matches!(grid.draw_cell(1), Cell::Request(_)));
    let half = 200 * 1024 * 1024;
    grid.set_thumb(path("a"), 1, half);
    grid.set_thumb(path("b"), 2, half);
    assert!(matches!(grid.draw_cell(1), Cell::Image(2)));
    assert!(matches!(grid.draw_cell(0), Cell::Request(_)));
}

#[test]
fn a_reset_keeps_only_the_labels() {
    let mut grid = grid(&["a", "b"]);
    grid.set_labels(true);
    grid.set_filter("a");
    grid.select_all();
    grid.reset();
    assert!(grid.labels_visible());
    assert!(!grid.filtering());
    assert!(!grid.any_selected());
    assert_eq!(grid.counts(), (0, 0));
    assert!(grid.files().is_empty());
}

#[test]
fn cells_lie_in_rows_and_columns() {
    let grid = grid(&["a", "b", "c", "d", "e"]);
    assert_eq!(cell_place(4, 3), (1, 1));
    assert_eq!(grid.row_count(3), 2);
    assert_eq!(grid.row_count(5), 1);
    assert_eq!(GridView::<u32>::new().row_count(4), 1);
    assert_eq!(grid.index_at(1, 1, 3), Some(4));
    assert_eq!(grid.index_at(1, 2, 3), None);
    assert_eq!(grid.index_at(0, 3, 3), None);
    assert_eq!(grid.index_at(usize::MAX, 1, 3), None);
    assert_eq!(grid.cells_in_rows(1, 7, 2), (2, 5));
    assert_eq!(grid.cells_in_rows(0, 0, 2), (0, 2));
    assert_eq!(grid.cells_in_rows(9, usize::MAX, 2), (5, 5));
}
