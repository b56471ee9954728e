use wene::browse::{trash_message, Prefs};
use wene::delegate::{AppDelegate, Effect};
use wene::engine::Event;
use wene::events::{image_cost, launch_folder, stored_folder};
use wene::menu::{pace_choices, Action, MenuItem, MenuLine};
use wene::order::{FileInfo, SortOrder};
use wene::path::FilePath;
use wene::slideshow::{Fit, SlideChange, SlideKey};

const FIT: Fit = Fit { reached: 5, passed: 4 };

fn path(name: &str) -> FilePath {
    FilePath::new(&format!("/p/{name}"))
}

fn info(name: &str, size: u64) -> FileInfo {
    FileInfo { path: path(name), size, modified: 0, taken: None, added: None }
}

fn app(names: &[&str]) -> AppDelegate<u32> {
    let mut app = AppDelegate::new(Vec::new(), false);
    let inserts =
        names.iter().enumerate().map(|(i, n)| (i, info(n, 10 * (i as u64 + 1)))).collect();
    app.handle_event(Event::FilesInserted(inserts), 0);
    app
}

/// What was listed to be done outside, one word each.
fn done(app: &mut AppDelegate<u32>) -> Vec<String> {
    let name = |p: FilePath| p.file_name().unwrap_or_default();
    app.take_effects()
        .into_iter()
        .map(|effect| match effect {
            Effect::Scan(p, deep) => format!("scan {} {deep}", p.as_text()),
            Effect::Reveal(p) => format!("reveal {}", p.as_text()),
            Effect::SaveFolder(p) => format!("remember {}", p.as_text()),
            Effect::SavePrefs => "save".to_string(),
            Effect::RequestThumb(p) => format!("thumb {}", name(p)),
            Effect::RequestSlide(p) => format!("slide {}", name(p)),
            Effect::OpenShow(windowed) => format!("open {windowed}"),
            Effect::CloseShow => "close".to_string(),
            Effect::ShowSlide(p) => format!("show {}", name(p)),
            Effect::PlayFrames(frames) => format!("play {}", frames.len()),
            Effect::StartTimer(tenths) => format!("timer {tenths}"),
            Effect::StopTimer => "no timer".to_string(),
            Effect::StartFlash => "flash".to_string(),
            Effect::StopFlash => "no flash".to_string(),
            Effect::ReportScan(total) => format!("scanned {total}"),
            Effect::ReportFailure(p) => format!("failed {}", name(p)),
            Effect::StartHarness => "harness".to_string(),
            Effect::OpenPrefs => "prefs".to_string(),
            Effect::ClosePrefs => "no prefs".to_string(),
            Effect::ToggleSidebar => "sidebar".to_string(),
            Effect::Checked(step, ok, what) => format!("{step} {ok} {what}"),
        })
        .collect()
}

fn current(app: &AppDelegate<u32>) -> String {
    app.show.as_ref().unwrap().current().unwrap().file_name().unwrap()
}

fn first(app: &AppDelegate<u32>) -> String {
    app.grid.files()[0].path.file_name().unwrap()
}

#[test]
fn scanning_starts_over() {
    let mut app = app(&["a.jpg"]);
    app.scan_root(FilePath::new("/q/deep"), true);
    assert_eq!(done(&mut app), ["reveal /q/deep", "remember /q/deep", "scan /q/deep true"]);
    assert_eq!(app.grid.counts(), (0, 0));
    assert_eq!(app.window_title(), "wene — deep");
    assert_eq!(app.status_text(None, ""), "0 images");
    assert!(matches!(app.current_scan(), Some((p, true)) if p.as_text() == "/q/deep"));
    // The launch fallback is not remembered, nor is anything in a harness run.
    app.scan_root_inner(FilePath::new("/"), false, false);
    assert_eq!(done(&mut app), ["reveal /", "scan / false"]);
    assert_eq!(app.window_title(), "wene — ");
    let mut harness: AppDelegate<u32> = AppDelegate::new(Vec::new(), true);
    assert_eq!(harness.window_title(), "wene");
    harness.scan_root(FilePath::new("/q"), false);
    assert_eq!(done(&mut harness), ["reveal /q", "scan /q false"]);
}

#[test]
fn the_folder_to_open_at_launch() {
    let f = |text: &str| Some(FilePath::new(text));
    let pick = |a, b, c, d| {
        launch_folder(a, b, c, d).map(|f| (f.root.as_text().to_string(), f.deep, f.remember))
    };
    assert_eq!(pick(f("/a"), f("/b"), f("/c"), f("/d")), Some(("/a".to_string(), true, true)));
    assert_eq!(pick(None, f("/b"), f("/c"), f("/d")), Some(("/b".to_string(), false, true)));
    assert_eq!(pick(None, None, f("/c"), f("/d")), Some(("/c".to_string(), false, false)));
    assert_eq!(pick(None, None, None, f("/d")), Some(("/d".to_string(), false, false)));
    assert_eq!(pick(None, None, None, None), None);
    assert_eq!(stored_folder(Some("/x".to_string()), false).unwrap().as_text(), "/x");
    assert!(stored_folder(Some("/x".to_string()), true).is_none());
    assert!(stored_folder(Some(String::new()), false).is_none());
    assert!(stored_folder(None, false).is_none());
}

#[test]
fn the_status_bar_describes_the_selection() {
    let mut app = app(&["a.jpg", "b.jpg", "c.jpg"]);
    assert_eq!(app.status_text(None, "0 B"), "3 images");
    app.e2e_select(&vec![1]);
    assert_eq!(app.selected_bytes(), Some(20));
    assert_eq!(app.status_text(Some((640, 480)), "20 B"), "b.jpg — 640×480 — 20 B · 3 images");
    assert_eq!(app.status_text(None, "20 B"), "b.jpg — 20 B · 3 images");
    app.e2e_select(&vec![0, 2]);
    assert_eq!(app.selected_bytes(), Some(40));
    assert_eq!(app.status_text(None, "40 B"), "2 of 3 selected — 40 B");
    let fresh: AppDelegate<u32> = AppDelegate::new(Vec::new(), false);
    assert_eq!(fresh.status_text(None, ""), "");
}

#[test]
fn sizes_past_counting() {
    let mut app: AppDelegate<u32> = AppDelegate::new(Vec::new(), false);
    let inserts = vec![(0, info("a.jpg", u64::MAX)), (1, info("b.jpg", 1))];
    app.handle_event(Event::FilesInserted(inserts), 0);
    app.e2e_select(&vec![0]);
    assert_eq!(app.selected_bytes(), Some(u64::MAX));
    app.e2e_select(&vec![0, 1]);
    assert_eq!(app.selected_bytes(), None);
}

#[test]
fn picking_an_order_again_reverses_it() {
    let mut app = app(&["a.jpg", "b.jpg"]);
    assert_eq!(app.sort_tag(), 1);
    assert!(app.sort_is_default());
    app.set_sort_menu(3);
    assert_eq!((app.sort_tag(), first(&app)), (3, "a.jpg".to_string()));
    app.set_sort_menu(3);
    assert_eq!(first(&app), "b.jpg");
    app.set_sort_menu(3);
    assert_eq!(first(&app), "a.jpg");
    // Dates start newest first, and so do files that come in meanwhile.
    app.set_sort_menu(2);
    assert!(app.descending);
    let mut newer = info("z.jpg", 1);
    newer.modified = 9;
    app.handle_event(Event::FilesInserted(vec![(2, newer)]), 0);
    assert_eq!(first(&app), "z.jpg");
    for (tag, order) in [
        (4, SortOrder::Path),
        (5, SortOrder::ExifDate),
        (6, SortOrder::Added),
        (99, SortOrder::Name),
    ] {
        app.set_sort_menu(tag);
        assert_eq!(app.sort, order);
        assert_eq!(app.descending, tag == 5 || tag == 6);
    }
}

#[test]
fn a_show_asks_for_its_slides() {
    let mut app = app(&["a.jpg", "b.jpg", "c.jpg"]);
    app.start_slideshow(1, true);
    assert_eq!(done(&mut app), ["open true", "slide a.jpg", "slide b.jpg", "slide c.jpg"]);
    app.handle_event(Event::SlideReady { path: path("b.jpg"), image: 7 }, 100);
    assert_eq!(done(&mut app), ["show b.jpg"]);
    app.handle_event(Event::SlideReady { path: path("c.jpg"), image: 8 }, 100);
    assert!(done(&mut app).is_empty());
    app.step_slideshow(1);
    assert_eq!(done(&mut app), ["show c.jpg"]);
    app.step_slideshow(1);
    assert!(done(&mut app).is_empty());
    app.jump_slideshow_start();
    assert_eq!(current(&app), "a.jpg");
    app.jump_slideshow_end();
    assert_eq!(current(&app), "c.jpg");
    app.step_slideshow_original(-1);
    assert_eq!(current(&app), "b.jpg");
    done(&mut app);
    app.end_slideshow();
    assert_eq!(done(&mut app), ["close"]);
    assert!(app.show.is_none());
    app.end_slideshow();
    assert!(done(&mut app).is_empty());
}

#[test]
fn an_empty_show_does_not_start() {
    let mut app = app(&[]);
    app.activate(false);
    app.start_from_grid(true);
    assert!(app.show.is_none());
    assert!(done(&mut app).is_empty());
    app.space_pressed();
    app.advance_slide();
    app.clear_flash();
    assert!(!app.overlay_visible());
}

#[test]
fn the_option_key_inverts_the_mode() {
    let mut app = app(&["a.jpg"]);
    for (windowed, option) in [(false, false), (false, true), (true, false), (true, true)] {
        app.e2e_set_default_windowed(windowed);
        assert_eq!(app.default_windowed(), windowed);
        app.activate(option);
        assert_eq!(app.e2e_show_is_windowed(), Some(windowed != option));
        app.end_slideshow();
    }
}

#[test]
fn the_pace_stays_for_the_next_show() {
    let mut app = app(&["a.jpg", "b.jpg"]);
    app.set_auto_advance_menu(30);
    assert!(done(&mut app).is_empty());
    app.start_slideshow(0, false);
    assert_eq!(done(&mut app)[..3], ["open false", "timer 30", "save"]);
    app.set_auto_advance(Some(5));
    assert_eq!(done(&mut app), ["no timer", "timer 5", "save"]);
    app.window_will_close();
    assert_eq!(done(&mut app), ["no timer"]);
    app.start_slideshow(0, false);
    assert_eq!(app.show.as_ref().unwrap().interval(), Some(5));
    app.set_auto_advance_menu(0);
    assert_eq!(app.pace, None);
    assert_eq!(app.show.as_ref().unwrap().interval(), None);
}

#[test]
fn space_pauses_and_goes_on() {
    let mut app = app(&["a.jpg", "b.jpg"]);
    app.start_slideshow(0, false);
    app.space_pressed();
    assert_eq!(current(&app), "b.jpg");
    app.set_auto_advance(Some(10));
    done(&mut app);
    app.space_pressed();
    assert_eq!(done(&mut app), ["no timer"]);
    assert_eq!(app.e2e_overlay_text().unwrap(), "2/2  b.jpg  [paused]");
    app.space_pressed();
    assert_eq!(done(&mut app), ["timer 10"]);
    assert_eq!(app.e2e_overlay_text().unwrap(), "2/2  b.jpg  [1s]");
}

#[test]
fn advancing_stops_at_the_end() {
    let mut app = app(&["a.jpg", "b.jpg"]);
    app.start_slideshow(0, false);
    app.set_auto_advance(Some(10));
    app.advance_slide();
    assert_eq!(current(&app), "b.jpg");
    done(&mut app);
    app.advance_slide();
    assert_eq!(done(&mut app), ["no timer", "save"]);
    assert_eq!(app.pace, None);
    app.toggle_loop();
    app.advance_slide();
    assert_eq!(current(&app), "a.jpg");
}

#[test]
fn settings_come_back_at_the_next_launch() {
    let mut app = app(&["a.jpg"]);
    app.toggle_loop();
    app.toggle_shuffle();
    app.toggle_labels();
    app.prefs_toggle_windowed();
    app.set_auto_advance_menu(15);
    assert_eq!(done(&mut app), ["save", "save", "save", "save"]);
    let saved: Prefs = app.prefs();
    assert_eq!(saved.tenths, 15);
    let mut next: AppDelegate<u32> = AppDelegate::new(Vec::new(), false);
    next.load_prefs(saved);
    assert!(next.looping && next.shuffling && next.windowed && next.grid.labels_visible());
    assert_eq!(next.pace, Some(15));
    let mut harness: AppDelegate<u32> = AppDelegate::new(Vec::new(), true);
    harness.load_prefs(saved);
    assert!(!harness.looping && harness.pace.is_none());
    harness.toggle_loop();
    assert!(done(&mut harness).is_empty());
    next.load_prefs(Prefs { tenths: -3, ..saved });
    assert_eq!(next.pace, None);
    next.load_prefs(Prefs { tenths: i64::MAX, ..saved });
    assert_eq!(next.pace, Some(i64::MAX as u64));
    next.set_auto_advance(Some(u64::MAX));
    assert_eq!(next.prefs().tenths, i64::MAX);
}

#[test]
fn toggles_reach_a_running_show() {
    let mut app = app(&["a.jpg", "b.jpg", "c.jpg"]);
    app.start_slideshow(2, false);
    app.toggle_loop();
    app.toggle_shuffle();
    assert_eq!(app.e2e_overlay_text().unwrap(), "3/3  c.jpg  [shuffle]  [loop]");
    app.toggle_shuffle();
    assert_eq!(app.e2e_overlay_text().unwrap(), "3/3  c.jpg  [loop]");
    assert!(!app.overlay_visible());
    app.toggle_overlay();
    assert!(app.overlay_visible());
}

#[test]
fn the_trash_takes_the_selection_and_goes_on() {
    let mut app = app(&["a.jpg", "b.jpg", "c.jpg"]);
    assert!(!app.menu_item_enabled(true, false));
    assert!(app.menu_item_enabled(false, false));
    assert!(app.trash_selection().is_empty());
    app.after_trash(&Vec::new(), &Vec::new());
    assert_eq!(app.status_text(None, ""), "3 images");
    app.e2e_select(&vec![0, 1]);
    assert!(app.menu_item_enabled(true, false));
    assert!(!app.menu_item_enabled(true, true));
    let paths = app.e2e_trash_selection();
    assert_eq!(paths.len(), 2);
    app.after_trash(&paths, &vec![path("b.jpg")]);
    let line = "Moved to trash: a.jpg — 1 of 2 could not be moved to trash";
    assert_eq!(app.status_text(None, ""), line);
    assert_eq!(app.grid.counts(), (2, 2));
    assert_eq!(app.e2e_selected_name().unwrap(), "b.jpg");
    // The disk reports it a moment later: nothing changes.
    app.handle_event(Event::FilesRemoved(vec![path("a.jpg")]), 0);
    assert_eq!(app.status_text(None, ""), line);
    assert_eq!(app.e2e_selected_name().unwrap(), "b.jpg");
    app.selection_changed();
    assert_eq!(app.status_text(None, "20 B"), "b.jpg — 20 B · 2 images");
}

#[test]
fn the_trash_takes_the_slide_on_screen() {
    let mut app = app(&["a.jpg", "b.jpg"]);
    app.start_slideshow(0, false);
    assert!(app.menu_item_enabled(true, false));
    done(&mut app);
    let paths = app.trash_selection();
    assert_eq!(paths[0].as_text(), "/p/a.jpg");
    app.after_trash(&paths, &Vec::new());
    assert_eq!(done(&mut app), ["slide b.jpg", "flash"]);
    assert_eq!(current(&app), "b.jpg");
    assert!(app.overlay_visible());
    assert_eq!(app.e2e_overlay_text().unwrap(), "Moved to trash: a.jpg");
    app.clear_flash();
    assert!(!app.overlay_visible());
    let paths = app.trash_selection();
    app.after_trash(&paths, &Vec::new());
    assert_eq!(done(&mut app), ["close"]);
    assert!(app.show.is_none());
    assert_eq!(app.status_text(None, ""), "Moved to trash: b.jpg");
}

#[test]
fn a_new_slide_takes_the_flash_away() {
    let mut app = app(&["a.jpg", "b.jpg", "c.jpg"]);
    app.start_slideshow(0, false);
    let paths = app.trash_selection();
    app.after_trash(&paths, &Vec::new());
    done(&mut app);
    app.step_slideshow(1);
    assert_eq!(done(&mut app)[0], "no flash");
    assert!(!app.overlay_visible());
}

#[test]
fn lines_about_the_trash() {
    let paths = |names: &[&str]| names.iter().map(|n| path(n)).collect::<Vec<_>>();
    assert_eq!(trash_message(&paths(&[]), 2), "2 of 2 could not be moved to trash");
    assert_eq!(trash_message(&paths(&["a"]), 0), "Moved to trash: a");
    assert_eq!(trash_message(&paths(&["a", "b", "c"]), 0), "Moved to trash: a, b, c");
    assert_eq!(
        trash_message(&paths(&["a", "b", "c", "d", "e"]), 1),
        "Moved to trash: a, b, c and 2 more — 1 of 6 could not be moved to trash"
    );
}

#[test]
fn gone_files_leave_the_grid_and_the_show() {
    let mut app = app(&["a.jpg", "b.jpg", "c.jpg"]);
    app.start_slideshow(1, false);
    done(&mut app);
    app.handle_event(Event::FilesRemoved(vec![path("b.jpg")]), 0);
    assert_eq!(app.grid.counts(), (2, 2));
    assert_eq!(current(&app), "c.jpg");
    done(&mut app);
    app.handle_event(Event::FilesRemoved(vec![path("x.jpg")]), 0);
    assert!(done(&mut app).is_empty());
    app.handle_event(Event::FilesRemoved(vec![path("a.jpg"), path("c.jpg")]), 0);
    assert_eq!(done(&mut app), ["close"]);
}

#[test]
fn changed_files_come_again() {
    let mut app = app(&["a.jpg", "b.jpg"]);
    app.handle_event(Event::ThumbReady { path: path("a.jpg"), image: 1 }, 10);
    app.start_slideshow(0, false);
    app.handle_event(Event::SlideReady { path: path("a.jpg"), image: 2 }, 10);
    app.handle_event(Event::SlideReady { path: path("b.jpg"), image: 3 }, 10);
    done(&mut app);
    app.handle_event(Event::FileChanged(info("b.jpg", 5)), 0);
    assert!(done(&mut app).is_empty());
    app.handle_event(Event::FileChanged(info("a.jpg", 5)), 0);
    assert_eq!(done(&mut app), ["slide a.jpg", "slide b.jpg"]);
}

#[test]
fn scans_and_failures_are_reported() {
    let mut app = app(&["a.jpg"]);
    app.handle_event(Event::ScanDone { total: 1 }, 0);
    app.handle_event(Event::DecodeFailed { path: path("a.jpg") }, 0);
    app.request_thumb(path("a.jpg"));
    assert_eq!(done(&mut app), ["scanned 1", "failed a.jpg", "thumb a.jpg"]);
}

#[test]
fn frames_play_for_the_slide_on_screen() {
    let mut app = app(&["a.gif", "b.jpg"]);
    app.handle_event(Event::SlideFramesReady { path: path("a.gif"), frames: vec![(1, 2)] }, 0);
    app.start_slideshow(0, false);
    done(&mut app);
    app.handle_event(Event::SlideFramesReady { path: path("b.jpg"), frames: vec![(1, 2)] }, 0);
    assert!(done(&mut app).is_empty());
    let frames = vec![(1, 100_000), (2, 100_000)];
    app.handle_event(Event::SlideFramesReady { path: path("a.gif"), frames }, 0);
    assert_eq!(done(&mut app), ["play 2"]);
    assert!(app.e2e_slide_animating());
}

#[test]
fn images_past_counting_are_not_taken() {
    assert_eq!(image_cost(4000, 3000), Some(48_000_000));
    assert_eq!(image_cost(usize::MAX, 2), None);
    assert_eq!(image_cost(usize::MAX / 2, 1), None);
    let mut app = app(&["a.jpg", "b.jpg"]);
    app.start_slideshow(0, false);
    let slide = Event::SlideReady { path: path("a.jpg"), image: 1 };
    assert!(app.can_take(&slide, usize::MAX));
    app.handle_event(slide, usize::MAX);
    let other = Event::SlideReady { path: path("b.jpg"), image: 1 };
    assert!(!app.can_take(&other, 1));
    let thumb = Event::ThumbReady { path: path("a.jpg"), image: 1 };
    assert!(app.can_take(&thumb, usize::MAX));
    app.end_slideshow();
    assert!(app.can_take(&other, 1));
}

#[test]
fn keys_drive_the_show() {
    let mut app = app(&["a.jpg", "b.jpg", "c.jpg"]);
    app.start_slideshow(0, false);
    for name in ["a.jpg", "b.jpg", "c.jpg"] {
        app.handle_event(Event::SlideReady { path: path(name), image: 1 }, 1);
    }
    let mut press = |key| app.slide_key_down(key, FIT);
    assert!(press(SlideKey::TurnRight));
    assert!(press(SlideKey::Flip));
    assert!(press(SlideKey::ZoomIn));
    assert!(!press(SlideKey::Unknown));
    assert_eq!(app.e2e_overlay_text().unwrap(), "1/3  a.jpg  [90°]  [flipped]  [75%]");
    app.slide_key_down(SlideKey::Next, FIT);
    assert_eq!(app.e2e_overlay_text().unwrap(), "2/3  b.jpg");
    app.slide_key_down(SlideKey::Previous, FIT);
    assert_eq!(app.e2e_overlay_text().unwrap(), "1/3  a.jpg  [90°]  [flipped]  [75%]");
    app.slide_key_down(SlideKey::ActualPixels, FIT);
    app.slide_key_down(SlideKey::ZoomOut, FIT);
    app.slide_key_down(SlideKey::TurnLeft, FIT);
    assert_eq!(app.e2e_overlay_text().unwrap(), "1/3  a.jpg  [flipped]  [75%]");
    app.slide_key_down(SlideKey::Reset, FIT);
    assert_eq!(app.e2e_overlay_text().unwrap(), "1/3  a.jpg");
    app.change_slide(SlideChange::Pan(1, 2));
    app.slide_state_changed();
    assert_eq!(app.e2e_slide_view().unwrap().state().offset, (1, 2));
    app.slide_key_down(SlideKey::Last, FIT);
    app.slide_key_down(SlideKey::PreviousOriginal, FIT);
    assert_eq!(app.e2e_current_index(), Some(1));
    app.slide_key_down(SlideKey::NextOriginal, FIT);
    app.slide_key_down(SlideKey::First, FIT);
    app.slide_key_down(SlideKey::Space, FIT);
    assert_eq!(app.e2e_current_index(), Some(1));
    app.slide_key_down(SlideKey::Pace(15), FIT);
    assert_eq!(app.pace, Some(15));
    app.slide_key_down(SlideKey::Stop, FIT);
    assert_eq!(app.pace, None);
    app.slide_key_down(SlideKey::Overlay, FIT);
    assert!(app.overlay);
    app.slide_key_down(SlideKey::End, FIT);
    assert!(!app.e2e_show_active());
}

#[test]
fn escape_shows_the_whole_folder() {
    let mut app = app(&["a.jpg", "b.jpg"]);
    app.grid.set_filter("a");
    assert_eq!(app.grid.counts(), (1, 2));
    app.escape_pressed();
    assert_eq!(app.grid.counts(), (2, 2));
    app.escape_pressed();
    assert_eq!(app.grid.counts(), (2, 2));
}

#[test]
fn the_sidebar_and_the_preferences_come_and_go() {
    let mut app = app(&[]);
    app.toggle_sidebar();
    assert!(app.e2e_sidebar_hidden());
    app.show_prefs();
    assert!(app.e2e_prefs_visible());
    app.e2e_close_prefs();
    app.e2e_close_prefs();
    assert_eq!(done(&mut app), ["sidebar", "prefs", "no prefs"]);
    app.e2e_toggle_labels();
    assert!(app.grid.labels_visible());
    assert!(done(&mut app).is_empty());
}

fn items(app: &AppDelegate<u32>) -> Vec<MenuItem> {
    let mut items = Vec::new();
    for menu in app.menu_bar() {
        for line in menu.lines {
            match line {
                MenuLine::Item(item) => items.push(item),
                MenuLine::Separator => {}
                MenuLine::Submenu(_, more) => items.extend(more),
            }
        }
    }
    items
}

fn marks(app: &AppDelegate<u32>) -> Vec<&'static str> {
    items(app).iter().filter(|i| i.marked).map(|i| i.title).collect()
}

#[test]
fn the_menu_bar_at_launch() {
    let app: AppDelegate<u32> = AppDelegate::new(Vec::new(), false);
    let bar = app.menu_bar();
    let titles: Vec<_> = bar.iter().map(|m| m.title).collect();
    assert_eq!(titles, ["", "File", "Slideshow", "View"]);
    let counts: Vec<_> = bar.iter().map(|m| m.lines.len()).collect();
    assert_eq!(counts, [3, 3, 7, 12]);
    assert!(matches!(bar[2].lines[6], MenuLine::Submenu("Auto-advance", _)));
    assert_eq!(marks(&app), ["Off", "Sort by name", "Show sidebar"]);
    let keys: Vec<_> = items(&app)
        .iter()
        .filter(|i| !i.key.is_empty())
        .map(|i| (i.action, i.key, i.option, i.control))
        .collect();
    assert_eq!(keys[0], (Action::ShowPrefs, ",", false, false));
    assert_eq!(keys[3], (Action::MoveToTrash, "\u{8}", false, false));
    assert_eq!(keys[5], (Action::StartWindowed, "y", true, false));
    assert_eq!(keys[7], (Action::ToggleShuffle, "r", true, false));
    assert_eq!(keys[8], (Action::Sort, "1", false, true));
}

#[test]
fn marks_follow_the_state() {
    let mut app = app(&[]);
    app.toggle_loop();
    app.toggle_shuffle();
    app.set_auto_advance_menu(30);
    app.set_sort_menu(5);
    app.toggle_sidebar();
    app.toggle_labels();
    assert_eq!(
        marks(&app),
        ["Loop", "Shuffle", "Every 3 seconds", "Sort by EXIF date", "Show filenames"]
    );
    // A pace of the keys has no item.
    assert!(pace_choices(15).iter().all(|i| !i.marked));
}

#[test]
fn the_preferences_show_the_settings() {
    let mut app = app(&[]);
    app.toggle_shuffle();
    app.set_auto_advance_menu(100);
    let panel = app.prefs_panel(None);
    assert!(panel.shuffling && !panel.looping && !panel.windowed && !panel.labels);
    assert_eq!((panel.pace, panel.startup.as_str()), (100, "Ask at launch"));
    assert_eq!(app.prefs_panel(Some("/x")).startup, "/x");
}

#[test]
fn the_sidebar_starts_with_two_empty_sections() {
    let app: AppDelegate<u32> = AppDelegate::new(vec![FilePath::new("/x")], false);
    assert_eq!(app.sidebar.child_count(None), 2);
    assert_eq!(app.sidebar.child_count(Some(0)), 0);
    assert_eq!(app.sidebar.name_of(0), "Favorites");
    assert_eq!(app.sidebar.name_of(1), "Local");
    assert_eq!(app.sidebar.name_of(2), "");
}
