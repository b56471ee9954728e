//! What the keys do to a slideshow.

use vstd::prelude::*;

use crate::delegate::{AppState, Effect};
use crate::playlist::{
    played, sorted_steps_follow_the_files, sorted_steps_land, step_back_undoes_step,
    steps_follow_the_show,
};
use crate::slideshow::{key_meaning, sixteenths, Fit, SlideKey, SlideState};

verus! {

proof fn arrows_are_steps<I>(app: AppState<I>, typed: Seq<char>, fit: Fit)
    ensures
        app.keyed(key_meaning(124, false, typed), fit) == app.stepped(1),
        app.keyed(key_meaning(125, false, typed), fit) == app.stepped(1),
        app.keyed(key_meaning(123, false, typed), fit) == app.stepped(-1),
        app.keyed(key_meaning(126, false, typed), fit) == app.stepped(-1),
        app.keyed(key_meaning(124, true, typed), fit) == app.stepped_original(1),
        app.keyed(key_meaning(125, true, typed), fit) == app.stepped_original(1),
        app.keyed(key_meaning(123, true, typed), fit) == app.stepped_original(-1),
        app.keyed(key_meaning(126, true, typed), fit) == app.stepped_original(-1),
{
}

proof fn steps_move_the_playlist<I>(app: AppState<I>, delta: int)
    requires
        app.show is Some,
    ensures
        app.stepped(delta).show is Some,
        app.stepped(delta).show->0.playlist == app.show->0.playlist.stepped(delta),
        app.show->0.playlist.target(delta) is None ==> app.stepped(delta) == app,
        app.stepped_original(delta).show is Some,
        app.stepped_original(delta).show->0.playlist == app.show->0.playlist.stepped_original(
            delta,
        ),
        !app.show->0.playlist.can_step_original(delta) ==> app.stepped_original(delta) == app,
{
}

/// The right arrow shows the next slide, and so does the one down. Past the
/// last slide the show goes on with the first where it loops, and stays where
/// it does not.
pub proof fn right_shows_the_next_slide<I>(app: AppState<I>, typed: Seq<char>, fit: Fit)
    requires
        app.show is Some,
        app.show->0.playlist.valid(),
        app.show->0.playlist.files.len() > 0,
    ensures
        ({
            let list = app.show->0.playlist;
            let right = app.keyed(key_meaning(124, false, typed), fit);
            &&& app.keyed(key_meaning(125, false, typed), fit) == right
            &&& right.show is Some
            &&& list.position + 1 < list.files.len() ==> right.show->0.playlist.current() == Some(
                played(list)[list.position + 1],
            )
            &&& list.position + 1 == list.files.len() && list.loops
                ==> right.show->0.playlist.current() == Some(played(list)[0])
            &&& list.position + 1 == list.files.len() && !list.loops ==> right == app
        }),
{
    arrows_are_steps(app, typed, fit);
    steps_move_the_playlist(app, 1);
    steps_follow_the_show(app.show->0.playlist, 1);
}

/// The left arrow shows the slide before, and so does the one up. Before the
/// first slide the show goes on with the last where it loops, and stays where
/// it does not.
pub proof fn left_shows_the_slide_before<I>(app: AppState<I>, typed: Seq<char>, fit: Fit)
    requires
        app.show is Some,
        app.show->0.playlist.valid(),
        app.show->0.playlist.files.len() > 0,
    ensures
        ({
            let list = app.show->0.playlist;
            let left = app.keyed(key_meaning(123, false, typed), fit);
            &&& app.keyed(key_meaning(126, false, typed), fit) == left
            &&& left.show is Some
            &&& list.position > 0 ==> left.show->0.playlist.current() == Some(
                played(list)[list.position - 1],
            )
            &&& list.position == 0 && list.loops ==> left.show->0.playlist.current() == Some(
                played(list).last(),
            )
            &&& list.position == 0 && !list.loops ==> left == app
        }),
{
    arrows_are_steps(app, typed, fit);
    steps_move_the_playlist(app, -1);
    steps_follow_the_show(app.show->0.playlist, -1);
}

/// With the option key the arrows go along the sorted files, shuffled or not:
/// right and down to the next one.
pub proof fn option_right_shows_the_next_file<I>(app: AppState<I>, typed: Seq<char>, fit: Fit)
    requires
        app.show is Some,
        app.show->0.playlist.valid(),
        app.show->0.playlist.files.len() > 0,
    ensures
        ({
            let list = app.show->0.playlist;
            let index = list.file_at(list.position);
            let right = app.keyed(key_meaning(124, true, typed), fit);
            &&& list.current() == Some(list.files[index])
            &&& app.keyed(key_meaning(125, true, typed), fit) == right
            &&& right.show is Some
            &&& index + 1 < list.files.len() ==> right.show->0.playlist.current() == Some(
                list.files[index + 1],
            )
            &&& index + 1 == list.files.len() && list.loops ==> right.show->0.playlist.current()
                == Some(list.files[0])
            &&& index + 1 == list.files.len() && !list.loops ==> right == app
        }),
{
    arrows_are_steps(app, typed, fit);
    steps_move_the_playlist(app, 1);
    sorted_steps_follow_the_files(app.show->0.playlist, 1);
}

/// With the option key the arrows go along the sorted files, shuffled or not:
/// left and up to the one before.
pub proof fn option_left_shows_the_file_before<I>(app: AppState<I>, typed: Seq<char>, fit: Fit)
    requires
        app.show is Some,
        app.show->0.playlist.valid(),
        app.show->0.playlist.files.len() > 0,
    ensures
        ({
            let list = app.show->0.playlist;
            let index = list.file_at(list.position);
            let left = app.keyed(key_meaning(123, true, typed), fit);
            &&& app.keyed(key_meaning(126, true, typed), fit) == left
            &&& left.show is Some
            &&& index > 0 ==> left.show->0.playlist.current() == Some(list.files[index - 1])
            &&& index == 0 && list.loops ==> left.show->0.playlist.current() == Some(
                list.files.last(),
            )
            &&& index == 0 && !list.loops ==> left == app
        }),
{
    arrows_are_steps(app, typed, fit);
    steps_move_the_playlist(app, -1);
    sorted_steps_follow_the_files(app.show->0.playlist, -1);
}

/// One arrow undoes the other, away from the ends, and round the ends too
/// where the show loops.
pub proof fn arrows_are_opposites<I>(app: AppState<I>, typed: Seq<char>, other: Seq<char>, fit: Fit)
    requires
        app.show is Some,
        app.show->0.playlist.valid(),
        app.show->0.playlist.files.len() > 0,
    ensures
        ({
            let list = app.show->0.playlist;
            let right = app.keyed(key_meaning(124, false, typed), fit);
            list.loops || list.position + 1 < list.files.len() ==> right.keyed(
                key_meaning(123, false, other),
                fit,
            ).show->0.playlist == list
        }),
        ({
            let list = app.show->0.playlist;
            let left = app.keyed(key_meaning(123, false, typed), fit);
            list.loops || list.position > 0 ==> left.keyed(
                key_meaning(124, false, other),
                fit,
            ).show->0.playlist == list
        }),
{
    let list = app.show->0.playlist;
    steps_undo_each_other(app, typed, other, fit, 1);
    steps_undo_each_other(app, typed, other, fit, -1);
}

#[verifier::spinoff_prover]
proof fn steps_undo_each_other<I>(
    app: AppState<I>,
    typed: Seq<char>,
    other: Seq<char>,
    fit: Fit,
    delta: int,
)
    requires
        app.show is Some,
        app.show->0.playlist.valid(),
        app.show->0.playlist.files.len() > 0,
        delta == 1 || delta == -1,
    ensures
        app.show->0.playlist.loops || 0 <= app.show->0.playlist.position + delta
            < app.show->0.playlist.files.len() ==> app.stepped(delta).stepped(
            -delta,
        ).show->0.playlist == app.show->0.playlist,
        delta == 1 ==> app.keyed(key_meaning(124, false, typed), fit) == app.stepped(1)
            && app.stepped(1).keyed(key_meaning(123, false, other), fit) == app.stepped(1).stepped(
            -1,
        ),
        delta == -1 ==> app.keyed(key_meaning(123, false, typed), fit) == app.stepped(-1)
            && app.stepped(-1).keyed(key_meaning(124, false, other), fit) == app.stepped(
            -1,
        ).stepped(1),
{
    let list = app.show->0.playlist;
    arrows_are_steps(app, typed, fit);
    arrows_are_steps(app.stepped(delta), other, fit);
    steps_move_the_playlist(app, delta);
    steps_move_the_playlist(app.stepped(delta), -delta);
    if list.loops || 0 <= list.position + delta < list.files.len() {
        step_back_undoes_step(list, delta);
    }
}

/// With the option key one arrow undoes the other in the sorted order, away
/// from its ends.
pub proof fn option_arrows_are_opposites<I>(
    app: AppState<I>,
    typed: Seq<char>,
    other: Seq<char>,
    fit: Fit,
)
    requires
        app.show is Some,
        app.show->0.playlist.valid(),
        app.show->0.playlist.files.len() > 0,
    ensures
        ({
            let list = app.show->0.playlist;
            let next = app.keyed(key_meaning(124, true, typed), fit);
            list.file_at(list.position) + 1 < list.files.len() ==> next.keyed(
                key_meaning(123, true, other),
                fit,
            ).show->0.playlist.current() == list.current()
        }),
        ({
            let list = app.show->0.playlist;
            let before = app.keyed(key_meaning(123, true, typed), fit);
            list.file_at(list.position) > 0 ==> before.keyed(
                key_meaning(124, true, other),
                fit,
            ).show->0.playlist.current() == list.current()
        }),
{
    sorted_steps_undo_each_other(app, typed, other, fit, 1);
    sorted_steps_undo_each_other(app, typed, other, fit, -1);
}

#[verifier::spinoff_prover]
proof fn sorted_steps_undo_each_other<I>(
    app: AppState<I>,
    typed: Seq<char>,
    other: Seq<char>,
    fit: Fit,
    delta: int,
)
    requires
        app.show is Some,
        app.show->0.playlist.valid(),
        app.show->0.playlist.files.len() > 0,
        delta == 1 || delta == -1,
    ensures
        0 <= app.show->0.playlist.file_at(app.show->0.playlist.position) + delta
            < app.show->0.playlist.files.len() ==> app.stepped_original(delta).stepped_original(
            -delta,
        ).show->0.playlist.current() == app.show->0.playlist.current(),
        0 <= app.show->0.playlist.file_at(app.show->0.playlist.position)
            < app.show->0.playlist.files.len(),
        delta == 1 ==> app.keyed(key_meaning(124, true, typed), fit) == app.stepped_original(1)
            && app.stepped_original(1).keyed(key_meaning(123, true, other), fit)
            == app.stepped_original(1).stepped_original(-1),
        delta == -1 ==> app.keyed(key_meaning(123, true, typed), fit) == app.stepped_original(-1)
            && app.stepped_original(-1).keyed(key_meaning(124, true, other), fit)
            == app.stepped_original(-1).stepped_original(1),
{
    let list = app.show->0.playlist;
    arrows_are_steps(app, typed, fit);
    arrows_are_steps(app.stepped_original(delta), other, fit);
    steps_move_the_playlist(app, delta);
    steps_move_the_playlist(app.stepped_original(delta), -delta);
    sorted_steps_follow_the_files(list, delta);
    if 0 <= list.file_at(list.position) + delta < list.files.len() {
        sorted_steps_land(list, delta);
        sorted_steps_follow_the_files(list.stepped_original(delta), -delta);
    }
}

/// Whether a key code leaves it to the characters to say what a key means: it
/// is none of Esc, the arrows, home and end.
pub open spec fn types(code: u16) -> bool {
    code != 53 && code != 115 && code != 119 && code != 123 && code != 124 && code != 125 && code
        != 126
}

/// Home shows the first slide and end the last, in the order that plays.
pub proof fn home_and_end_show_the_ends<I>(
    app: AppState<I>,
    option: bool,
    typed: Seq<char>,
    fit: Fit,
)
    requires
        app.show is Some,
        app.show->0.playlist.valid(),
        app.show->0.playlist.files.len() > 0,
    ensures
        ({
            let list = app.show->0.playlist;
            let home = app.keyed(key_meaning(115, option, typed), fit);
            let end = app.keyed(key_meaning(119, option, typed), fit);
            &&& home.show is Some && home.show->0.playlist.current() == Some(played(list)[0])
            &&& end.show is Some && end.show->0.playlist.current() == Some(played(list).last())
        }),
{
    steps_follow_the_show(app.show->0.playlist, 0);
}

/// Esc and "q" end the show: its window closes, and the timer stops.
pub proof fn escape_and_q_end_the_show<I>(
    app: AppState<I>,
    option: bool,
    typed: Seq<char>,
    code: u16,
    fit: Fit,
)
    requires
        app.show is Some,
        types(code),
    ensures
        ({
            let after = app.keyed(key_meaning(53, option, typed), fit);
            &&& app.keyed(key_meaning(code, option, seq!['q']), fit) == after
            &&& after.show is None
            &&& after.effects.len() > 0 && after.effects.last() == Effect::<I>::CloseShow
            &&& app.show->0.ticking ==> after.effects.contains(Effect::<I>::StopTimer)
            &&& after.grid == app.grid
        }),
{
    let after = app.keyed(key_meaning(53, option, typed), fit);
    if app.show->0.ticking {
        let at = app.effects.len() as int;
        assert(after.effects[at] == Effect::<I>::StopTimer);
    }
}

/// The letter "l" does what the right arrow does, and "j" what the left one
/// does. The space bar goes on to the next slide, or pauses and resumes a show
/// that advances on its own.
pub proof fn letters_step_as_the_arrows_do<I>(
    app: AppState<I>,
    option: bool,
    typed: Seq<char>,
    code: u16,
    fit: Fit,
)
    requires
        types(code),
    ensures
        app.keyed(key_meaning(code, option, seq!['l']), fit) == app.keyed(
            key_meaning(124, false, typed),
            fit,
        ),
        app.keyed(key_meaning(code, option, seq!['j']), fit) == app.keyed(
            key_meaning(123, false, typed),
            fit,
        ),
        app.show is Some && app.show->0.interval is None ==> app.keyed(
            key_meaning(code, option, seq![' ']),
            fit,
        ) == app.keyed(key_meaning(124, false, typed), fit),
        app.show is Some && app.show->0.interval is Some ==> ({
            let after = app.keyed(key_meaning(code, option, seq![' ']), fit);
            &&& after.show is Some
            &&& after.show->0.ticking == !app.show->0.ticking
            &&& after.show->0.interval == app.show->0.interval
            &&& after.show->0.playlist == app.show->0.playlist
            &&& after.effects.last() == (if app.show->0.ticking {
                Effect::<I>::StopTimer
            } else {
                Effect::<I>::StartTimer(app.show->0.interval->0)
            })
        }),
        app.show is None ==> app.keyed(key_meaning(code, option, seq![' ']), fit) == app,
{
}

/// "r" turns the slide clockwise by a quarter and "R" back, and "f" flips it.
pub proof fn letters_turn_and_flip<I>(app: AppState<I>, option: bool, code: u16, fit: Fit)
    requires
        types(code),
        app.show is Some,
        app.show->0.view.well_formed(),
    ensures
        ({
            let state = app.show->0.view.state;
            let right = app.keyed(key_meaning(code, option, seq!['r']), fit);
            let left = app.keyed(key_meaning(code, option, seq!['R']), fit);
            let flip = app.keyed(key_meaning(code, option, seq!['f']), fit);
            &&& right.show is Some && left.show is Some && flip.show is Some
            &&& right.show->0.view.state == (SlideState {
                rotation: (if state.rotation < 270 {
                    state.rotation + 90
                } else {
                    state.rotation - 270
                }) as i32,
                ..state
            })
            &&& left.show->0.view.state == (SlideState {
                rotation: (if state.rotation >= 90 {
                    state.rotation - 90
                } else {
                    state.rotation + 270
                }) as i32,
                ..state
            })
            &&& flip.show->0.view.state == (SlideState { flipped: !state.flipped, ..state })
            &&& right.show->0.playlist == app.show->0.playlist
            &&& left.show->0.playlist == app.show->0.playlist
            &&& flip.show->0.playlist == app.show->0.playlist
        }),
{
}

/// Plus zooms in by a rung and minus out, the equals key shows actual pixels,
/// and the asterisk brings the slide back as it came.
pub proof fn signs_zoom<I>(app: AppState<I>, option: bool, code: u16, fit: Fit)
    requires
        types(code),
        app.show is Some,
        app.show->0.view.well_formed(),
    ensures
        ({
            let view = app.show->0.view;
            let closer = app.keyed(key_meaning(code, option, seq!['+']), fit);
            let further = app.keyed(key_meaning(code, option, seq!['-']), fit);
            let actual = app.keyed(key_meaning(code, option, seq!['=']), fit);
            let reset = app.keyed(key_meaning(code, option, seq!['*']), fit);
            &&& closer.show is Some && further.show is Some && actual.show is Some && reset.show
                is Some
            &&& view.image is None ==> closer == app && further == app
            &&& view.image is Some && view.state.zoom is Some ==> {
                let rung = view.state.zoom->0;
                &&& closer.show->0.view.state.zoom == Some(
                    (if rung < 14 { rung + 1 } else { 14 }) as usize,
                )
                &&& further.show->0.view.state.zoom == Some(
                    (if rung > 0 { rung - 1 } else { 0 }) as usize,
                )
            }
            &&& actual.show->0.view.state.zoom is Some && sixteenths(
                actual.show->0.view.state.zoom->0 as int,
            ) == 16
            &&& actual.show->0.view.state.rotation == view.state.rotation
            &&& actual.show->0.view.state.flipped == view.state.flipped
            &&& reset.show->0.view.state == (SlideState {
                zoom: None,
                rotation: 0,
                flipped: false,
                offset: (0, 0),
            })
        }),
{
}

/// A digit makes a show advance after as many seconds, the exclamation mark
/// after half a second and the at sign after one and a half, and a zero stops
/// it. The pace stays for later shows.
pub proof fn digits_set_the_pace<I>(app: AppState<I>, option: bool, code: u16, digit: char, fit: Fit)
    requires
        types(code),
        app.show is Some,
        '1' <= digit && digit <= '9',
    ensures
        ({
            let seconds = digit as int - '0' as int;
            let after = app.keyed(key_meaning(code, option, seq![digit]), fit);
            &&& after.show is Some
            &&& after.pace is Some && after.pace->0 == 10 * seconds
            &&& after.show->0.interval == after.pace && after.show->0.ticking
            &&& after.effects.contains(Effect::<I>::StartTimer(after.pace->0))
        }),
        ({
            let half = app.keyed(key_meaning(code, option, seq!['!']), fit);
            let more = app.keyed(key_meaning(code, option, seq!['@']), fit);
            let stop = app.keyed(key_meaning(code, option, seq!['0']), fit);
            &&& half.pace == Some(5u64) && half.show->0.interval == half.pace
                && half.show->0.ticking
            &&& more.pace == Some(15u64) && more.show->0.interval == more.pace
                && more.show->0.ticking
            &&& stop.pace is None && stop.show->0.interval is None && !stop.show->0.ticking
            &&& app.show->0.ticking ==> stop.effects.contains(Effect::<I>::StopTimer)
        }),
{
    let after = app.keyed(key_meaning(code, option, seq![digit]), fit);
    let at = app.effects.len() + (if app.show->0.ticking { 1int } else { 0 });
    assert(after.effects[at] == Effect::<I>::StartTimer(after.pace->0));
    let stop = app.keyed(key_meaning(code, option, seq!['0']), fit);
    if app.show->0.ticking {
        assert(stop.effects[app.effects.len() as int] == Effect::<I>::StopTimer);
    }
}

/// "i" shows or hides the line over the slide, and a key that types nothing,
/// more than one character or one without a meaning does nothing.
pub proof fn other_keys_do_nothing<I>(
    app: AppState<I>,
    option: bool,
    code: u16,
    typed: Seq<char>,
    fit: Fit,
)
    requires
        types(code),
    ensures
        app.keyed(key_meaning(code, option, seq!['i']), fit) == (AppState {
            overlay: !app.overlay,
            ..app
        }),
        typed.len() != 1 ==> app.keyed(key_meaning(code, option, typed), fit) == app,
        typed.len() == 1 && !('0' <= typed[0] && typed[0] <= '9') && typed[0] != 'q' && typed[0]
            != ' ' && typed[0] != 'j' && typed[0] != 'l' && typed[0] != 'r' && typed[0] != 'R'
            && typed[0] != 'f' && typed[0] != 'i' && typed[0] != '!' && typed[0] != '@' && typed[0]
            != '+' && typed[0] != '-' && typed[0] != '=' && typed[0] != '*' ==> app.keyed(
            key_meaning(code, option, typed),
            fit,
        ) == app && key_meaning(code, option, typed) == SlideKey::Unknown,
{
}

} // verus!
