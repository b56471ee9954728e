use wene::delegate::{AppDelegate, Effect};
use wene::e2e::{
    enabled, next_step, ready, report_outside, run_step, sidebar_shows, Outside, LAST_STEP,
};
use wene::engine::Event;
use wene::order::FileInfo;
use wene::path::FilePath;
use wene::sidebar::FAVORITES_ROOT;

const FILES: [(&str, u64); 4] =
    [("apple.heic", 10), ("img1.heic", 20), ("img2.heic", 30), ("img10.heic", 40)];

fn root() -> FilePath {
    FilePath::new("/x/photos")
}

fn info(name: &str, size: u64) -> FileInfo {
    FileInfo { path: root().join(name), size, modified: 0, taken: None, added: None }
}

fn started() -> AppDelegate<u32> {
    let mut app = AppDelegate::new(vec![FilePath::new("/x")], true);
    let inserts = FILES.iter().enumerate().map(|(i, (n, s))| (i, info(n, *s))).collect();
    app.handle_event(Event::FilesInserted(inserts), 0);
    app.handle_event(Event::ScanDone { total: 4 }, 0);
    app
}

/// Do what a step lists, as far as there is anything to do without windows.
fn serve(app: &mut AppDelegate<u32>, report: &mut Vec<String>) {
    loop {
        let effects = app.take_effects();
        if effects.is_empty() {
            return;
        }
        for effect in effects {
            match effect {
                Effect::RequestSlide(path) => {
                    let animated = path.as_text().ends_with(".gif");
                    let event = if animated {
                        Event::SlideFramesReady { path, frames: vec![(1, 1), (2, 1)] }
                    } else {
                        Event::SlideReady { path, image: 1 }
                    };
                    app.handle_event(event, 4);
                }
                Effect::Scan(path, _) if path.same(&root()) => {
                    let inserts =
                        FILES.iter().enumerate().map(|(i, (n, s))| (i, info(n, *s))).collect();
                    app.handle_event(Event::FilesInserted(inserts), 0);
                }
                Effect::StartTimer(_) => {
                    app.advance_slide();
                    app.advance_slide();
                }
                Effect::Checked(step, ok, what) => report.push(format!("{step} {ok} {what}")),
                _ => {}
            }
        }
    }
}

fn run(app: &mut AppDelegate<u32>, outside_works: bool) -> Vec<String> {
    let mut report = Vec::new();
    loop {
        let step = app.e2e_state().step;
        assert!(ready(app));
        let outside = run_step(app, &root(), Some((8, 6)), "20 B");
        let mut ok = outside_works;
        match outside {
            Some(Outside::CopyFile) => {
                app.handle_event(Event::FilesInserted(vec![(4, info("zzz.heic", 1))]), 0)
            }
            Some(Outside::RemoveCopy) => {
                app.handle_event(Event::FilesRemoved(vec![root().join("zzz.heic")]), 0)
            }
            Some(Outside::WriteAnimation) => {
                app.handle_event(Event::FilesInserted(vec![(4, info("zzz.gif", 1))]), 0)
            }
            Some(Outside::RemoveAnimation) => {
                app.handle_event(Event::FilesRemoved(vec![root().join("zzz.gif")]), 0)
            }
            Some(Outside::FireMenu(item)) => app.start_from_grid(item == 1),
            Some(Outside::ClickSidebar) => {
                app.sidebar.load_children(FAVORITES_ROOT, Vec::new());
                let parent = app.sidebar.child_at(Some(FAVORITES_ROOT), 0);
                app.sidebar.load_children(parent, vec![(root(), None)]);
                let slot = app.sidebar.child_at(Some(parent), 0);
                assert!(!sidebar_shows(app, &root()));
                app.e2e_sidebar_click(Some(slot));
                assert_eq!(app.e2e_sidebar_path(), "/x/photos");
                ok = ok && sidebar_shows(app, &root());
            }
            Some(Outside::Finish) => {
                assert_eq!(step, LAST_STEP + 1);
                return report;
            }
            _ => {}
        }
        if let Some(outside) = outside {
            report_outside(app, outside, ok);
        }
        serve(app, &mut report);
        next_step(app);
    }
}

#[test]
fn the_harness_is_asked_for_by_its_variable() {
    assert!(enabled(Some("1")));
    assert!(enabled(Some("yes")));
    assert!(!enabled(Some("0")));
    assert!(!enabled(Some("")));
    assert!(!enabled(None));
}

#[test]
fn the_harness_starts_after_the_first_scan() {
    let mut app = started();
    let starts = |app: &mut AppDelegate<u32>| {
        app.take_effects().iter().filter(|e| matches!(e, Effect::StartHarness)).count()
    };
    assert_eq!(starts(&mut app), 1);
    assert!(app.e2e_state().started);
    app.handle_event(Event::ScanDone { total: 4 }, 0);
    assert_eq!(starts(&mut app), 0);
}

#[test]
fn every_step_holds() {
    let mut app = started();
    app.take_effects();
    let report = run(&mut app, true);
    assert!(report.iter().all(|line| !line.contains(" false ")));
    assert_eq!(report.len(), 53);
    assert_eq!(report[0], "0 true scan found 3+ files");
    assert_eq!(report[52], "34 true prefs window closes");
    assert!(app.e2e_state().failures.is_empty());
}

#[test]
fn what_fails_outside_is_noted() {
    let mut app = started();
    app.take_effects();
    let report = run(&mut app, false);
    let failed = report.iter().filter(|line| line.contains(" false ")).count();
    assert_eq!(failed, app.e2e_state().failures.len());
    assert!(app.e2e_state().failures.contains(&"step 3: slide snapshot written".to_string()));
    assert!(app
        .e2e_state()
        .failures
        .contains(&"step 20: menu item 'Start slideshow in window' fired".to_string()));
    assert!(app
        .e2e_state()
        .failures
        .contains(&"step 22: menu item 'Start slideshow' fired".to_string()));
}

#[test]
fn a_folder_with_too_little_fails() {
    let mut app: AppDelegate<u32> = AppDelegate::new(Vec::new(), true);
    assert_eq!(run_step(&mut app, &root(), None, ""), None);
    assert_eq!(app.e2e_state().failures, ["step 0: scan found 3+ files"]);
    assert_eq!(app.e2e_file_count(), 0);
    assert_eq!(app.e2e_first_file(), None);
    assert_eq!(app.e2e_current_index(), None);
    assert_eq!(app.e2e_overlay_text(), None);
    assert_eq!(app.e2e_playlist_len(), None);
    assert_eq!(app.e2e_show_is_windowed(), None);
    assert!(!app.e2e_slide_has_image());
    for _ in 0..10 {
        assert!(ready(&app));
        next_step(&mut app);
    }
    assert!(!ready(&app));
}

#[test]
fn favorites_of_the_harness() {
    let mut app: AppDelegate<u32> = AppDelegate::new(Vec::new(), true);
    assert_eq!(app.e2e_favorite_count(), 0);
    app.e2e_add_favorite(&root());
    app.e2e_add_favorite(&root());
    assert_eq!(app.e2e_favorite_count(), 1);
    app.e2e_remove_favorite(&root());
    assert_eq!(app.e2e_favorite_count(), 0);
    assert_eq!(app.e2e_status_text(None, ""), "");
}
