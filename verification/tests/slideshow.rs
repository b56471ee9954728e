use wene::path::FilePath;
use wene::slideshow::{
    ladder, slide_key, zoom_percent, Fit, SlideChange, SlideKey, SlideState, SlideView,
    ACTUAL_PIXELS, RUNGS,
};

const LADDER: [f64; 15] = [
    0.125, 0.1875, 0.25, 0.375, 0.5, 0.75, 1.0, 1.5, 2.0, 3.0, 4.0, 6.0, 8.0, 12.0, 16.0,
];

fn view() -> SlideView {
    let mut view = SlideView::new();
    view.show_image(FilePath::new("/a.jpg"));
    view
}

#[test]
fn the_ladder_in_sixteenths_and_percent() {
    assert_eq!(RUNGS, LADDER.len());
    for (rung, zoom) in LADDER.iter().enumerate() {
        assert_eq!(ladder(rung) as f64 / 16.0, *zoom);
        assert_eq!(zoom_percent(rung).to_string(), format!("{:.0}", zoom * 100.0));
    }
    assert_eq!(LADDER[ACTUAL_PIXELS], 1.0);
}

#[test]
fn rotation_wraps() {
    let mut view = view();
    view.rotate(90);
    assert_eq!(view.state().rotation, 90);
    assert!(view.sideways());
    view.rotate(-90);
    view.rotate(-90);
    assert_eq!(view.state().rotation, 270);
    assert!(view.sideways());
    view.rotate(270);
    assert_eq!(view.state().rotation, 180);
    assert!(!view.sideways());
    view.rotate(i32::MAX);
    assert_eq!(view.state().rotation as i64, (180 + i32::MAX as i64).rem_euclid(360));
}

#[test]
fn zoom_steps_climb_the_ladder() {
    let fit = Fit { reached: 5, passed: 4 };
    let mut view = view();
    assert!(view.zoom_step(1, fit));
    assert_eq!(view.state().zoom, Some(5));
    assert!(view.zoom_step(1, fit));
    assert_eq!(view.state().zoom, Some(6));
    view.zoom_step(-1, fit);
    view.zoom_step(-1, fit);
    assert_eq!(view.state().zoom, Some(4));
    view.set_zoom(None);
    view.zoom_step(-1, fit);
    assert_eq!(view.state().zoom, Some(3));
    view.set_zoom(Some(14));
    view.zoom_step(1, fit);
    assert_eq!(view.state().zoom, Some(14));
    view.set_zoom(Some(0));
    view.zoom_step(-1, fit);
    assert_eq!(view.state().zoom, Some(0));
    let mut small = SlideView::new();
    assert!(!small.zoom_step(1, fit));
    assert_eq!(small.state().zoom, None);
}

#[test]
fn zoom_steps_agree_with_the_scale_that_fits() {
    for scale in [0.01, 0.125, 0.2, 0.5, 0.999, 1.0] {
        let fit = Fit {
            reached: LADDER.iter().filter(|z| **z <= scale * 1.001).count(),
            passed: LADDER.iter().filter(|z| **z < scale * 0.999).count(),
        };
        let up = LADDER.iter().find(|z| **z > scale * 1.001).unwrap_or(&16.0);
        let down = LADDER.iter().rev().find(|z| **z < scale * 0.999).unwrap_or(&0.125);
        let mut higher = view();
        higher.zoom_step(1, fit);
        assert_eq!(LADDER[higher.state().zoom.unwrap()], *up);
        let mut lower = view();
        lower.zoom_step(-1, fit);
        assert_eq!(LADDER[lower.state().zoom.unwrap()], *down);
    }
}

#[test]
fn fitting_puts_the_slide_in_its_place() {
    let mut view = view();
    view.pan((3, 4));
    view.set_zoom(Some(8));
    assert_eq!(view.state().offset, (3, 4));
    view.set_zoom(None);
    assert_eq!(view.state().offset, (0, 0));
}

#[test]
fn a_new_slide_starts_untouched() {
    let mut view = view();
    assert!(view.state().is_default());
    view.flip();
    assert!(!view.state().is_default());
    view.show_frames(FilePath::new("/b.gif"));
    assert!(view.is_animating());
    assert!(view.has_image());
    assert!(view.state().is_default());
    view.show_image(FilePath::new("/c.jpg"));
    assert!(!view.is_animating());
    assert!(SlideState::default().is_default());
    view.apply_state(SlideState { zoom: Some(2), rotation: 90, flipped: true, offset: (1, 1) });
    assert_eq!(view.state().zoom, Some(2));
    assert!(view.change(SlideChange::Reset));
    assert!(view.state().is_default());
}

#[test]
fn keys_by_code_and_by_what_they_type() {
    assert_eq!(slide_key(53, false, "q"), SlideKey::End);
    assert_eq!(slide_key(123, false, ""), SlideKey::Previous);
    assert_eq!(slide_key(126, true, ""), SlideKey::PreviousOriginal);
    assert_eq!(slide_key(124, true, ""), SlideKey::NextOriginal);
    assert_eq!(slide_key(125, false, ""), SlideKey::Next);
    assert_eq!(slide_key(115, false, ""), SlideKey::First);
    assert_eq!(slide_key(119, true, ""), SlideKey::Last);
    let typed = [
        ("q", SlideKey::End),
        (" ", SlideKey::Space),
        ("j", SlideKey::Previous),
        ("l", SlideKey::Next),
        ("r", SlideKey::TurnRight),
        ("R", SlideKey::TurnLeft),
        ("f", SlideKey::Flip),
        ("i", SlideKey::Overlay),
        ("0", SlideKey::Stop),
        ("!", SlideKey::Pace(5)),
        ("@", SlideKey::Pace(15)),
        ("1", SlideKey::Pace(10)),
        ("9", SlideKey::Pace(90)),
        ("+", SlideKey::ZoomIn),
        ("-", SlideKey::ZoomOut),
        ("=", SlideKey::ActualPixels),
        ("*", SlideKey::Reset),
        ("x", SlideKey::Unknown),
        ("", SlideKey::Unknown),
        ("qq", SlideKey::Unknown),
    ];
    for (text, key) in typed {
        assert!(slide_key(0, false, text) == key, "{text}");
    }
}
