use wene::engine::{preview_suffices, report, wants_frames, Engine, Event, ImageDecoder, Job};
use wene::path::FilePath;

struct Sizes;

impl ImageDecoder for Sizes {
    type Image = i32;

    fn decode(&self, path: &FilePath, max_px: i32) -> Option<i32> {
        if path.as_text().contains("bad") {
            None
        } else {
            Some(max_px)
        }
    }
}

#[test]
fn slides_do_not_wait_behind_thumbnails() {
    let mut engine: Engine<i32> = Engine::start(320, 4096);
    engine.request_thumb(FilePath::new("/a.jpg"));
    engine.request_thumb(FilePath::new("/b.jpg"));
    engine.request_slide(FilePath::new("/c.jpg"));
    assert_eq!(engine.max_thumb_px(), 320);
    let slide = engine.next_slide().unwrap();
    assert_eq!(engine.job_px(&slide), 4096);
    assert!(matches!(
        engine.decode_job(&Sizes, slide),
        Event::SlideReady { path, image: 4096 } if path.as_text() == "/c.jpg"
    ));
    assert!(engine.next_slide().is_none());
    let first = engine.next_thumb().unwrap();
    assert!(matches!(
        engine.decode_job(&Sizes, first),
        Event::ThumbReady { path, image: 320 } if path.as_text() == "/a.jpg"
    ));
    assert!(matches!(engine.next_thumb(), Some(Job::Thumb(p)) if p.as_text() == "/b.jpg"));
    assert!(engine.next_thumb().is_none());
}

#[test]
fn failures_are_reported() {
    let engine: Engine<i32> = Engine::start(320, 4096);
    assert!(matches!(
        engine.decode_job(&Sizes, Job::Thumb(FilePath::new("/bad.jpg"))),
        Event::DecodeFailed { path } if path.as_text() == "/bad.jpg"
    ));
    assert!(matches!(
        report::<i32>(Job::Slide(FilePath::new("/x.jpg")), None),
        Event::DecodeFailed { .. }
    ));
}

#[test]
fn events_come_in_order() {
    let mut engine: Engine<i32> = Engine::start(1, 2);
    engine.post(Event::ScanDone { total: 3 });
    engine.post(Event::FilesRemoved(Vec::new()));
    assert!(matches!(engine.next_event(), Some(Event::ScanDone { total: 3 })));
    assert!(matches!(engine.next_event(), Some(Event::FilesRemoved(_))));
    assert!(engine.next_event().is_none());
}

#[test]
fn small_previews_do_not_suffice() {
    assert!(preview_suffices(160, 120, 320));
    assert!(!preview_suffices(159, 120, 320));
    assert!(preview_suffices(10, 160, 320));
    assert!(preview_suffices(0, 0, 0));
    assert!(!preview_suffices(4000, 3000, -1));
}

#[test]
fn only_animated_slides_are_tried_as_frames() {
    assert!(wants_frames(&Job::Slide(FilePath::new("/a.GIF"))));
    assert!(wants_frames(&Job::Slide(FilePath::new("/a.webp"))));
    assert!(!wants_frames(&Job::Slide(FilePath::new("/a.jpg"))));
    assert!(!wants_frames(&Job::Thumb(FilePath::new("/a.gif"))));
}
