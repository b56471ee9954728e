use wene::path::FilePath;
use wene::show::{Show, SLIDE_CACHE_BYTES};
use wene::slideshow::{Fit, SlideChange};

fn path(name: &str) -> FilePath {
    FilePath::new(&format!("/p/{name}"))
}

fn show(names: &[&str], index: usize) -> Show<u32> {
    Show::new(names.iter().map(|n| path(n)).collect(), index, false, false, false)
}

fn asked(requests: Vec<FilePath>) -> Vec<String> {
    requests.iter().map(|p| p.file_name().unwrap()).collect()
}

#[test]
fn a_slide_and_its_neighbours_are_asked_for() {
    let mut show = show(&["a.jpg", "b.jpg", "c.jpg", "d.jpg"], 1);
    assert_eq!(asked(show.refresh()), ["a.jpg", "b.jpg", "c.jpg"]);
    assert!(show.slide_ready(path("b.jpg"), 2, 10));
    assert!(!show.slide_ready(path("c.jpg"), 3, 10));
    assert_eq!(show.image(&path("c.jpg")), Some(&3));
    assert!(show.step(1));
    assert_eq!(asked(show.refresh()), ["d.jpg"]);
    assert!(show.slide_view().has_image());
}

#[test]
fn animated_neighbours_wait_for_their_turn() {
    let mut show = show(&["a.jpg", "b.gif"], 0);
    assert_eq!(asked(show.refresh()), ["a.jpg"]);
    show.step(1);
    assert_eq!(asked(show.refresh()), ["a.jpg", "b.gif"]);
    assert!(show.frames_ready(path("b.gif")));
    assert!(show.slide_view().is_animating());
    // Frames are not kept.
    assert_eq!(asked(show.refresh()), ["a.jpg", "b.gif"]);
    assert!(!show.frames_ready(path("a.jpg")));
}

#[test]
fn a_looping_show_of_two_asks_once_for_each() {
    let mut show = show(&["a.jpg", "b.jpg"], 0);
    show.set_looping(true);
    assert_eq!(asked(show.refresh()), ["b.jpg", "a.jpg"]);
}

#[test]
fn what_was_done_to_a_slide_is_remembered() {
    let mut show = show(&["a.jpg", "b.jpg"], 0);
    show.slide_ready(path("a.jpg"), 1, 10);
    show.slide_ready(path("b.jpg"), 2, 10);
    assert!(show.change_view(SlideChange::Turn(90)));
    assert!(show.change_view(SlideChange::Flip));
    show.step(1);
    show.refresh();
    assert!(show.slide_view().state().is_default());
    show.step(-1);
    show.refresh();
    assert_eq!(show.slide_view().state().rotation, 90);
    assert!(show.slide_view().state().flipped);
    // An untouched slide needs no memory.
    assert!(show.change_view(SlideChange::Reset));
    show.step(1);
    show.step(-1);
    show.refresh();
    assert!(show.slide_view().state().is_default());
}

#[test]
fn the_line_over_the_slide() {
    let mut show = show(&["a.jpg", "b.jpg", "c.jpg"], 1);
    assert_eq!(show.overlay_text(), "2/3  b.jpg");
    assert_eq!(show.title(), "b.jpg");
    show.set_looping(true);
    show.set_pace(Some(15));
    assert_eq!(show.overlay_text(), "2/3  b.jpg  [loop]  [1.5s]");
    show.set_ticking(false);
    assert_eq!(show.overlay_text(), "2/3  b.jpg  [loop]  [paused]");
    show.set_pace(Some(100));
    assert_eq!(show.overlay_text(), "2/3  b.jpg  [loop]  [10s]");
    show.set_pace(None);
    show.slide_ready(path("b.jpg"), 1, 1);
    show.change_view(SlideChange::Turn(-90));
    show.change_view(SlideChange::Flip);
    show.change_view(SlideChange::ZoomIn(Fit { reached: 3, passed: 2 }));
    assert_eq!(show.overlay_text(), "2/3  b.jpg  [loop]  [270°]  [flipped]  [38%]");
    show.set_shuffled(true);
    assert_eq!(show.overlay_text(), "2/3  b.jpg  [shuffle]  [loop]  [270°]  [flipped]  [38%]");
    show.set_flash("gone".to_string());
    assert!(show.has_flash());
    assert_eq!(show.overlay_text(), "gone");
    show.refresh();
    assert!(!show.has_flash());
}

#[test]
fn half_seconds_are_shown_as_floats_are() {
    for tenths in [5u64, 10, 15, 20, 4, 90] {
        let mut show = show(&["a"], 0);
        show.set_pace(Some(tenths));
        let seconds = tenths as f64 / 10.0;
        assert_eq!(show.overlay_text(), format!("1/1  a  [{seconds}s]"));
    }
}

#[test]
fn gone_files_leave_nothing_behind() {
    let mut show = show(&["a.jpg", "b.jpg", "c.jpg"], 1);
    show.slide_ready(path("b.jpg"), 2, 10);
    show.change_view(SlideChange::Turn(90));
    assert_eq!(show.drop_paths(&vec![path("b.jpg"), path("x.jpg")]), (false, true));
    assert!(show.image(&path("b.jpg")).is_none());
    assert_eq!(show.current().unwrap().file_name().unwrap(), "c.jpg");
    assert_eq!(show.len(), 2);
    assert_eq!(show.drop_paths(&vec![path("b.jpg")]), (false, false));
    assert_eq!(show.drop_paths(&vec![path("a.jpg"), path("c.jpg")]), (true, true));
}

#[test]
fn a_changed_file_is_decoded_again() {
    let mut show = show(&["a.jpg", "b.jpg"], 0);
    show.slide_ready(path("a.jpg"), 1, 10);
    show.slide_ready(path("b.jpg"), 2, 10);
    assert!(!show.forget(&path("b.jpg")));
    assert!(show.forget(&path("a.jpg")));
    assert_eq!(asked(show.refresh()), ["a.jpg", "b.jpg"]);
}

#[test]
fn slides_past_the_budget_leave() {
    let mut show = show(&["a.jpg", "b.jpg"], 0);
    show.slide_ready(path("a.jpg"), 1, SLIDE_CACHE_BYTES);
    assert!(show.has_room(&path("b.jpg"), 1));
    show.slide_ready(path("b.jpg"), 2, 1);
    assert!(show.image(&path("a.jpg")).is_none());
    assert!(show.image(&path("b.jpg")).is_some());
}

#[test]
fn jumps_and_steps() {
    let mut show = Show::<u32>::new(
        vec![path("a"), path("b"), path("c")],
        9,
        true,
        false,
        false,
    );
    assert!(show.is_windowed());
    assert_eq!(show.current_index(), 2);
    assert!(!show.step(1));
    show.jump_first();
    assert_eq!(show.current_index(), 0);
    assert!(show.step_original(1));
    show.jump_last();
    assert_eq!(show.current_index(), 2);
    assert_eq!(show.interval(), None);
    assert!(!show.is_ticking());
    show.set_flash("x".to_string());
    show.clear_flash();
    assert!(!show.has_flash());
}
