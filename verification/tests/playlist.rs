use wene::path::FilePath;
use wene::playlist::{Playlist, XorShift};

fn playlist(n: usize) -> Playlist {
    Playlist::new((0..n).map(|i| FilePath::new(&format!("/f/{i}.jpg"))).collect(), 0)
}

fn name(p: &FilePath) -> String {
    p.file_name().unwrap()
}

#[test]
fn stepping_and_edges() {
    let mut pl = playlist(3);
    assert_eq!(name(pl.current().unwrap()), "0.jpg");
    assert!(pl.step(1));
    assert!(pl.step(1));
    assert_eq!(name(pl.current().unwrap()), "2.jpg");
    assert!(!pl.step(1)); // edge, no loop
    pl.looping = true;
    assert!(pl.step(1)); // wraps
    assert_eq!(name(pl.current().unwrap()), "0.jpg");
    assert!(pl.step(-1));
    assert_eq!(name(pl.current().unwrap()), "2.jpg");
}

#[test]
fn peek_respects_loop() {
    let mut pl = playlist(3);
    pl.jump_last();
    assert!(pl.peek(1).is_none());
    pl.looping = true;
    assert_eq!(name(pl.peek(1).unwrap()), "0.jpg");
}

#[test]
fn shuffle_keeps_current_and_covers_all() {
    let mut pl = playlist(10);
    pl.step(1);
    pl.step(1); // current = 2.jpg
    pl.set_shuffled(true);
    assert_eq!(name(pl.current().unwrap()), "2.jpg"); // plays first
    let mut seen = vec![false; 10];
    seen[pl.current_index()] = true;
    while pl.step(1) {
        seen[pl.current_index()] = true;
    }
    assert!(seen.iter().all(|&s| s)); // every file exactly reachable
}

#[test]
fn unshuffle_keeps_current() {
    let mut pl = playlist(10);
    pl.set_shuffled(true);
    pl.step(1);
    let current = name(pl.current().unwrap());
    pl.set_shuffled(false);
    assert_eq!(name(pl.current().unwrap()), current);
}

#[test]
fn step_original_while_shuffled() {
    let mut pl = playlist(5);
    pl.step(1); // current = 1.jpg
    pl.set_shuffled(true);
    assert!(pl.step_original(1));
    assert_eq!(name(pl.current().unwrap()), "2.jpg");
    assert!(pl.step_original(-1));
    assert!(pl.step_original(-1));
    assert_eq!(name(pl.current().unwrap()), "0.jpg");
    assert!(!pl.step_original(-1)); // edge, no loop
}

#[test]
fn a_start_beyond_the_end_is_the_last_file() {
    let pl = Playlist::new(vec![FilePath::new("/a.jpg"), FilePath::new("/b.jpg")], 9);
    assert_eq!(pl.current_index(), 1);
    assert_eq!(pl.len(), 2);
    assert!(!pl.shuffled());
}

#[test]
fn an_empty_show_goes_nowhere() {
    let mut pl = playlist(0);
    assert!(pl.is_empty());
    assert!(pl.current().is_none());
    assert!(pl.peek(0).is_none());
    assert!(!pl.step(1));
    pl.set_looping(true);
    assert!(!pl.step(1));
    pl.set_shuffled(true);
    assert!(!pl.shuffled());
    pl.jump_last();
    assert_eq!(pl.current_index(), 0);
}

#[test]
fn looping_wraps_long_steps_both_ways() {
    let mut pl = playlist(5);
    pl.set_looping(true);
    assert!(pl.step(13));
    assert_eq!(pl.current_index(), 3);
    assert!(pl.step(-9));
    assert_eq!(pl.current_index(), 4);
}

#[test]
fn a_step_back_undoes_a_step() {
    let mut pl = playlist(7);
    pl.set_looping(true);
    pl.set_shuffled_with(true, XorShift::seeded(42));
    let start = pl.current_index();
    assert!(pl.step(5));
    assert!(pl.step(-5));
    assert_eq!(pl.current_index(), start);
}

#[test]
fn one_seed_gives_one_order() {
    let order = |seed: u64| {
        let mut pl = playlist(20);
        pl.set_shuffled_with(true, XorShift::seeded(seed));
        let mut seen = vec![pl.current_index()];
        while pl.step(1) {
            seen.push(pl.current_index());
        }
        seen
    };
    assert_eq!(order(7), order(7));
    assert_ne!(order(7), order(8));
    assert_eq!(order(7)[0], 0);
}

#[test]
fn the_generator_follows_its_formula() {
    let mut rng = XorShift::seeded(1);
    // 1 ^ 1 << 13 = 8193; 8193 ^ 8193 >> 7 = 8257; 8257 ^ 8257 << 17.
    assert_eq!(rng.next_below(usize::MAX), (8257u64 ^ (8257u64 << 17)) as usize % usize::MAX);
    let mut fresh = XorShift::new();
    assert!(fresh.next_below(3) < 3);
}

#[test]
fn removing_the_current_file_plays_the_next_one() {
    let mut pl = playlist(4);
    pl.step(1);
    assert!(pl.remove(&FilePath::new("/f/1.jpg")));
    assert_eq!(name(pl.current().unwrap()), "2.jpg");
    assert_eq!(pl.len(), 3);
    assert!(!pl.remove(&FilePath::new("/f/1.jpg")));
}

#[test]
fn removing_another_file_keeps_the_current_one() {
    let mut pl = playlist(6);
    pl.step(3);
    pl.set_shuffled(true);
    pl.step(2);
    let current = name(pl.current().unwrap());
    for i in 0..6 {
        let path = format!("{i}.jpg");
        if path != current {
            assert!(pl.remove(&FilePath::new(&format!("/f/{path}"))));
            assert_eq!(name(pl.current().unwrap()), current);
        }
    }
    assert_eq!(pl.len(), 1);
    assert!(pl.remove(&FilePath::new(&format!("/f/{current}"))));
    assert!(pl.is_empty());
}

#[test]
fn removing_the_last_file_in_play_order_steps_back() {
    let mut pl = playlist(3);
    pl.jump_last();
    assert!(pl.remove(&FilePath::new("/f/2.jpg")));
    assert_eq!(name(pl.current().unwrap()), "1.jpg");
}

#[test]
fn a_seeded_generator_draws() {
    assert_eq!(XorShift::seeded(0).next_below(1000), 761);
    assert_eq!(XorShift::seeded(1).next_below(1000), 761);
}
