//! The slide view of a slideshow: zoom ladder, rotation, flip and pan of the
//! slide on screen, and what its keys mean.

use vstd::prelude::*;

use crate::path::FilePath;

verus! {

/// How many rungs the zoom ladder has.
pub const RUNGS: usize = 15;

/// The rung of actual pixels.
pub const ACTUAL_PIXELS: usize = 6;

/// The zoom at a rung of the ladder, in sixteenths: half powers of two from
/// an eighth to sixteen.
pub open spec fn sixteenths(rung: int) -> int {
    seq![2int, 3, 4, 6, 8, 12, 16, 24, 32, 48, 64, 96, 128, 192, 256][rung]
}

/// The zoom at a rung, in sixteenths.
pub fn ladder(rung: usize) -> (zoom: u32)
    requires
        rung < RUNGS,
    ensures
        zoom == sixteenths(rung as int),
{
    match rung {
        0 => 2,
        1 => 3,
        2 => 4,
        3 => 6,
        4 => 8,
        5 => 12,
        6 => 16,
        7 => 24,
        8 => 32,
        9 => 48,
        10 => 64,
        11 => 96,
        12 => 128,
        13 => 192,
        _ => 256,
    }
}

/// A number of sixteenths as a whole percentage; halves go to the even side.
pub open spec fn percent(sixteenths: int) -> int {
    let whole = sixteenths * 100 / 16;
    let rest = sixteenths * 100 % 16;
    if rest > 8 || (rest == 8 && whole % 2 == 1) {
        whole + 1
    } else {
        whole
    }
}

/// The zoom at a rung as a whole percentage.
pub fn zoom_percent(rung: usize) -> (text: u32)
    requires
        rung < RUNGS,
    ensures
        text == percent(sixteenths(rung as int)),
{
    let hundredfold = ladder(rung) * 100;
    let whole = hundredfold / 16;
    let rest = hundredfold % 16;
    if rest > 8 || (rest == 8 && whole % 2 == 1) {
        whole + 1
    } else {
        whole
    }
}

/// Per-file view state, remembered for the session while a slideshow runs.
#[derive(Clone, Copy)]
pub struct SlideState {
    /// A rung of the zoom ladder. None = fit to window (never scaling up past
    /// actual pixels).
    pub zoom: Option<usize>,
    /// Clockwise degrees, from 0 to 359.
    pub rotation: i32,
    pub flipped: bool,
    /// How far the slide was dragged: the bits of the two coordinates, zero
    /// for a slide in its place.
    pub offset: (u64, u64),
}

impl SlideState {
    /// What every operation keeps.
    pub open spec fn well_formed(self) -> bool {
        &&& self.zoom is Some ==> self.zoom->0 < RUNGS
        &&& 0 <= self.rotation < 360
    }

    /// A slide that nothing was done to.
    pub open spec fn untouched() -> SlideState {
        SlideState { zoom: None, rotation: 0, flipped: false, offset: (0, 0) }
    }

    /// Whether nothing was done to the slide.
    pub fn is_default(&self) -> (default: bool)
        ensures
            default == (*self == SlideState::untouched()),
    {
        self.zoom.is_none() && self.rotation == 0 && !self.flipped && self.offset.0 == 0
            && self.offset.1 == 0
    }
}

impl Default for SlideState {
    fn default() -> (state: SlideState)
        ensures
            state == SlideState::untouched(),
    {
        SlideState { zoom: None, rotation: 0, flipped: false, offset: (0, 0) }
    }
}

/// Where the scale that fits a slide to its window stands on the zoom
/// ladder.
#[derive(Clone, Copy)]
pub struct Fit {
    /// How many rungs are not above it, by a thousandth.
    pub reached: usize,
    /// How many rungs are below it, by a thousandth.
    pub passed: usize,
}

/// The rung that a zoom step leads to. A step past an end stays there.
pub open spec fn next_rung(zoom: Option<usize>, fit: Fit, up: bool) -> int {
    let target = match (zoom, up) {
        (Some(rung), true) => rung + 1,
        (Some(rung), false) => rung - 1,
        (None, true) => fit.reached as int,
        (None, false) => fit.passed - 1,
    };
    if target < 0 {
        0
    } else if target >= RUNGS {
        RUNGS - 1
    } else {
        target
    }
}

/// The slide on screen.
pub struct SlideView {
    /// The file whose image is shown.
    pub image: Option<FilePath>,
    /// Whether its frames are playing.
    pub animating: bool,
    pub state: SlideState,
}

impl SlideView {
    /// What every operation keeps.
    pub open spec fn well_formed(self) -> bool {
        self.state.well_formed()
    }

    /// The slide turned clockwise.
    pub open spec fn turned(self, degrees: int) -> SlideView {
        SlideView {
            state: SlideState {
                rotation: ((self.state.rotation + degrees) % 360) as i32,
                ..self.state
            },
            ..self
        }
    }

    /// The slide flipped over.
    pub open spec fn mirrored(self) -> SlideView {
        SlideView { state: SlideState { flipped: !self.state.flipped, ..self.state }, ..self }
    }

    /// The slide dragged to a place.
    pub open spec fn panned(self, offset: (u64, u64)) -> SlideView {
        SlideView { state: SlideState { offset, ..self.state }, ..self }
    }

    /// The slide at a rung of the ladder, or fitted to the window, in its
    /// place.
    pub open spec fn zoomed(self, zoom: Option<usize>) -> SlideView {
        SlideView {
            state: SlideState {
                zoom,
                offset: if zoom is None {
                    (0, 0)
                } else {
                    self.state.offset
                },
                ..self.state
            },
            ..self
        }
    }

    /// The slide one rung up or down, if there is one.
    pub open spec fn zoom_stepped(self, up: bool, fit: Fit) -> SlideView {
        if self.image is Some {
            SlideView {
                state: SlideState {
                    zoom: Some(next_rung(self.state.zoom, fit, up) as usize),
                    ..self.state
                },
                ..self
            }
        } else {
            self
        }
    }

    /// The slide as it came.
    pub open spec fn reset(self) -> SlideView {
        SlideView { state: SlideState::untouched(), ..self }
    }

    pub fn new() -> (view: Self)
        ensures
            view.well_formed(),
            view == (SlideView {
                image: None,
                animating: false,
                state: SlideState::untouched(),
            }),
    {
        SlideView {
            image: None,
            animating: false,
            state: SlideState { zoom: None, rotation: 0, flipped: false, offset: (0, 0) },
        }
    }

    /// Turn the slide clockwise.
    pub fn rotate(&mut self, delta_degrees: i32)
        requires
            old(self).well_formed(),
        ensures
            final(self).well_formed(),
            *final(self) == old(self).turned(delta_degrees as int),
    {
        let turned = self.state.rotation as i64 + delta_degrees as i64;
        let ghost sum = turned as int;
        // The remainder of a negative angle is negative.
        let rest = turned % 360;
        let next: i64 = if rest < 0 {
            rest + 360
        } else {
            rest
        };
        proof {
            assert(next == sum % 360);
        }
        self.state.rotation = next as i32;
    }

    pub fn flip(&mut self)
        requires
            old(self).well_formed(),
        ensures
            final(self).well_formed(),
            *final(self) == old(self).mirrored(),
    {
        self.state.flipped = !self.state.flipped;
    }

    pub fn state(&self) -> (state: SlideState)
        ensures
            state == self.state,
    {
        self.state
    }

    pub fn apply_state(&mut self, state: SlideState)
        requires
            state.well_formed(),
        ensures
            final(self).well_formed(),
            *final(self) == (SlideView { state, ..*old(self) }),
    {
        self.state = state;
    }

    /// Drag the slide to a place.
    pub fn pan(&mut self, offset: (u64, u64))
        requires
            old(self).well_formed(),
        ensures
            final(self).well_formed(),
            *final(self) == old(self).panned(offset),
    {
        self.state.offset = offset;
    }

    /// Zoom to a rung, or fit the slide to the window and put it in its
    /// place.
    pub fn set_zoom(&mut self, zoom: Option<usize>)
        requires
            old(self).well_formed(),
            zoom is Some ==> zoom->0 < RUNGS,
        ensures
            final(self).well_formed(),
            *final(self) == old(self).zoomed(zoom),
    {
        self.state.zoom = zoom;
        if zoom.is_none() {
            self.state.offset = (0, 0);
        }
    }

    /// One rung up or down from the scale that is shown. Says whether there
    /// is a slide to zoom.
    pub fn zoom_step(&mut self, direction: i32, fit: Fit) -> (zoomed: bool)
        requires
            old(self).well_formed(),
        ensures
            final(self).well_formed(),
            zoomed == (old(self).image is Some),
            *final(self) == old(self).zoom_stepped(direction > 0, fit),
    {
        if self.image.is_none() {
            return false;
        }
        let up = direction > 0;
        let next: usize = match self.state.zoom {
            Some(rung) => if up {
                rung + 1
            } else if rung > 0 {
                rung - 1
            } else {
                0
            },
            None => if up {
                fit.reached
            } else if fit.passed > 0 {
                fit.passed - 1
            } else {
                0
            },
        };
        self.state.zoom = Some(
            if next < RUNGS {
                next
            } else {
                RUNGS - 1
            },
        );
        true
    }

    /// Whether the slide lies on its side, so that it fits by its swapped
    /// dimensions.
    pub fn sideways(&self) -> (sideways: bool)
        requires
            self.well_formed(),
        ensures
            sideways == (self.state.rotation % 180 == 90),
    {
        self.state.rotation % 180 == 90
    }

    pub fn has_image(&self) -> (shown: bool)
        ensures
            shown == (self.image is Some),
    {
        self.image.is_some()
    }

    pub fn is_animating(&self) -> (animating: bool)
        ensures
            animating == self.animating,
    {
        self.animating
    }

    /// New slide: reset to defaults. Remembered per-file state is applied
    /// again afterwards.
    pub fn show_image(&mut self, path: FilePath)
        ensures
            final(self).well_formed(),
            *final(self) == (SlideView {
                image: Some(path),
                animating: false,
                state: SlideState::untouched(),
            }),
    {
        self.image = Some(path);
        self.animating = false;
        self.state = SlideState { zoom: None, rotation: 0, flipped: false, offset: (0, 0) };
    }

    /// New animated slide: its frames play.
    pub fn show_frames(&mut self, path: FilePath)
        ensures
            final(self).well_formed(),
            *final(self) == (SlideView {
                image: Some(path),
                animating: true,
                state: SlideState::untouched(),
            }),
    {
        self.show_image(path);
        self.animating = true;
    }
}

/// Something done to the slide on screen.
#[derive(Clone, Copy)]
pub enum SlideChange {
    /// Clockwise degrees.
    Turn(i32),
    Flip,
    Pan(u64, u64),
    Zoom(Option<usize>),
    ZoomIn(Fit),
    ZoomOut(Fit),
    Reset,
}

impl SlideChange {
    /// A zoom leads to a rung of the ladder.
    pub open spec fn well_formed(self) -> bool {
        self matches SlideChange::Zoom(Some(rung)) ==> rung < RUNGS
    }
}

impl SlideView {
    /// The slide once something was done to it.
    pub open spec fn changed(self, change: SlideChange) -> SlideView {
        match change {
            SlideChange::Turn(degrees) => self.turned(degrees as int),
            SlideChange::Flip => self.mirrored(),
            SlideChange::Pan(x, y) => self.panned((x, y)),
            SlideChange::Zoom(zoom) => self.zoomed(zoom),
            SlideChange::ZoomIn(fit) => self.zoom_stepped(true, fit),
            SlideChange::ZoomOut(fit) => self.zoom_stepped(false, fit),
            SlideChange::Reset => self.reset(),
        }
    }

    /// Whether something can be done: only a slide that is there can be
    /// zoomed by a rung.
    pub open spec fn takes(self, change: SlideChange) -> bool {
        (change is ZoomIn || change is ZoomOut) ==> self.image is Some
    }

    /// Do something to the slide, and say whether it could be done.
    pub fn change(&mut self, change: SlideChange) -> (done: bool)
        requires
            old(self).well_formed(),
            change.well_formed(),
        ensures
            final(self).well_formed(),
            *final(self) == old(self).changed(change),
            done == old(self).takes(change),
    {
        match change {
            SlideChange::Turn(degrees) => self.rotate(degrees),
            SlideChange::Flip => self.flip(),
            SlideChange::Pan(x, y) => self.pan((x, y)),
            SlideChange::Zoom(zoom) => self.set_zoom(zoom),
            SlideChange::ZoomIn(fit) => {
                return self.zoom_step(1, fit);
            },
            SlideChange::ZoomOut(fit) => {
                return self.zoom_step(-1, fit);
            },
            SlideChange::Reset => self.apply_state(
                SlideState { zoom: None, rotation: 0, flipped: false, offset: (0, 0) },
            ),
        }
        true
    }
}

/// What a key means to a slideshow.
#[derive(Clone, Copy, Debug, PartialEq, Eq, Structural)]
pub enum SlideKey {
    End,
    Next,
    Previous,
    /// The next slide in the sorted order, while shuffled.
    NextOriginal,
    PreviousOriginal,
    First,
    Last,
    Space,
    TurnRight,
    TurnLeft,
    Flip,
    Overlay,
    /// Stop advancing.
    Stop,
    /// Advance on its own, every so many tenths of a second.
    Pace(u64),
    ZoomIn,
    ZoomOut,
    ActualPixels,
    Reset,
    Unknown,
}

/// What a key code means, whatever the key types.
pub open spec fn code_meaning(code: u16, option: bool) -> SlideKey {
    if code == 53 {
        SlideKey::End
    } else if code == 123 || code == 126 {
        if option {
            SlideKey::PreviousOriginal
        } else {
            SlideKey::Previous
        }
    } else if code == 124 || code == 125 {
        if option {
            SlideKey::NextOriginal
        } else {
            SlideKey::Next
        }
    } else if code == 115 {
        SlideKey::First
    } else if code == 119 {
        SlideKey::Last
    } else {
        SlideKey::Unknown
    }
}

/// What a typed character means.
pub open spec fn char_meaning(c: char) -> SlideKey {
    if c == 'q' {
        SlideKey::End
    } else if c == ' ' {
        SlideKey::Space
    } else if c == 'j' {
        SlideKey::Previous
    } else if c == 'l' {
        SlideKey::Next
    } else if c == 'r' {
        SlideKey::TurnRight
    } else if c == 'R' {
        SlideKey::TurnLeft
    } else if c == 'f' {
        SlideKey::Flip
    } else if c == 'i' {
        SlideKey::Overlay
    } else if c == '0' {
        SlideKey::Stop
    } else if c == '!' {
        SlideKey::Pace(5)
    } else if c == '@' {
        SlideKey::Pace(15)
    } else if '1' <= c && c <= '9' {
        SlideKey::Pace((10 * (c as int - '0' as int)) as u64)
    } else if c == '+' {
        SlideKey::ZoomIn
    } else if c == '-' {
        SlideKey::ZoomOut
    } else if c == '=' {
        SlideKey::ActualPixels
    } else if c == '*' {
        SlideKey::Reset
    } else {
        SlideKey::Unknown
    }
}

/// What a key press means: its code first, then what it types.
pub open spec fn key_meaning(code: u16, option: bool, typed: Seq<char>) -> SlideKey {
    if code_meaning(code, option) != SlideKey::Unknown {
        code_meaning(code, option)
    } else if typed.len() == 1 {
        char_meaning(typed[0])
    } else {
        SlideKey::Unknown
    }
}

fn char_key(c: char) -> (key: SlideKey)
    ensures
        key == char_meaning(c),
{
    match c {
        'q' => SlideKey::End,
        ' ' => SlideKey::Space,
        'j' => SlideKey::Previous,
        'l' => SlideKey::Next,
        'r' => SlideKey::TurnRight,
        'R' => SlideKey::TurnLeft,
        'f' => SlideKey::Flip,
        'i' => SlideKey::Overlay,
        '0' => SlideKey::Stop,
        '!' => SlideKey::Pace(5),
        '@' => SlideKey::Pace(15),
        '+' => SlideKey::ZoomIn,
        '-' => SlideKey::ZoomOut,
        '=' => SlideKey::ActualPixels,
        '*' => SlideKey::Reset,
        _ => if '1' <= c && c <= '9' {
            SlideKey::Pace((c as u64 - '0' as u64) * 10)
        } else {
            SlideKey::Unknown
        },
    }
}

/// What a key press means to a slideshow.
pub fn slide_key(code: u16, option: bool, typed: &str) -> (key: SlideKey)
    ensures
        key == key_meaning(code, option, typed@),
{
    match code {
        53 => SlideKey::End,
        123 | 126 => if option {
            SlideKey::PreviousOriginal
        } else {
            SlideKey::Previous
        },
        124 | 125 => if option {
            SlideKey::NextOriginal
        } else {
            SlideKey::Next
        },
        115 => SlideKey::First,
        119 => SlideKey::Last,
        _ => if typed.unicode_len() == 1 {
            char_key(typed.get_char(0))
        } else {
            SlideKey::Unknown
        },
    }
}

/// A rung is above another, by more than a thousandth, if and only if it
/// comes later: a step up from a rung leads to the first rung above its zoom,
/// and a step down to the last one below it.
pub proof fn ladder_climbs(a: int, b: int)
    requires
        0 <= a < RUNGS,
        0 <= b < RUNGS,
    ensures
        1000 * sixteenths(b) > 1001 * sixteenths(a) <==> a < b,
        1000 * sixteenths(a) < 999 * sixteenths(b) <==> a < b,
{
}

/// Four quarter turns, a turn one way and back, and two flips leave a slide
/// as it was.
pub proof fn turns_come_round(view: SlideView)
    requires
        view.well_formed(),
    ensures
        view.turned(90).turned(90).turned(90).turned(90) == view,
        view.turned(90).turned(-90) == view,
        view.mirrored().mirrored() == view,
{
}

/// A step up the ladder and a step down lead back, but at its upper end.
pub proof fn zoom_out_undoes_zoom_in(view: SlideView, fit: Fit)
    requires
        view.well_formed(),
        view.image is Some,
        view.state.zoom is Some,
        view.state.zoom->0 + 1 < RUNGS,
    ensures
        view.zoom_stepped(true, fit).zoom_stepped(false, fit) == view,
{
}

/// Every second rung of the zoom ladder doubles the zoom, from an eighth to
/// sixteen, with one rung between, and the rung of actual pixels is one.
pub proof fn the_ladder_doubles_every_second_rung(rung: int)
    ensures
        RUNGS == 15,
        sixteenths(0) == 2,
        sixteenths(14) == 256,
        sixteenths(ACTUAL_PIXELS as int) == 16,
        0 <= rung < 13 ==> sixteenths(rung + 2) == 2 * sixteenths(rung),
        0 <= rung < 14 ==> sixteenths(rung) < sixteenths(rung + 1),
{
}

/// A percentage is the nearest whole one, and the even one of two that are as
/// near.
pub proof fn percentages_are_the_nearest(amount: int)
    requires
        amount >= 0,
    ensures
        -8 <= 16 * percent(amount) - 100 * amount <= 8,
        16 * percent(amount) - 100 * amount == 8 || 16 * percent(amount) - 100 * amount == -8
            ==> percent(amount) % 2 == 0,
{
}

/// A zoom step goes to the next rung and not past the ends. From the fit it
/// goes to the first rung that is not reached, or to the last one that is
/// passed. Nothing else of the slide changes, and without a slide nothing at
/// all.
pub proof fn zoom_steps_go_by_one_rung(view: SlideView, fit: Fit)
    requires
        view.well_formed(),
        fit.reached <= 15,
        fit.passed <= 15,
    ensures
        ({
            let closer = view.zoom_stepped(true, fit);
            let further = view.zoom_stepped(false, fit);
            &&& view.image is None ==> closer == view && further == view
            &&& view.image is Some ==> closer.state == (SlideState {
                zoom: closer.state.zoom,
                ..view.state
            }) && further.state == (SlideState { zoom: further.state.zoom, ..view.state })
            &&& closer.image == view.image && further.image == view.image
            &&& closer.animating == view.animating && further.animating == view.animating
            &&& view.image is Some && view.state.zoom is Some ==> {
                let rung = view.state.zoom->0;
                &&& closer.state.zoom == Some((if rung < 14 { rung + 1 } else { 14 }) as usize)
                &&& further.state.zoom == Some((if rung > 0 { rung - 1 } else { 0 }) as usize)
            }
            &&& view.image is Some && view.state.zoom is None ==> {
                &&& closer.state.zoom == Some(if fit.reached < 15 { fit.reached } else { 14 })
                &&& further.state.zoom == Some(
                    (if fit.passed > 0 { fit.passed - 1 } else { 0 }) as usize,
                )
            }
        }),
{
}

/// A turn adds to the rotation, round the full circle, and a turn back undoes
/// it. Nothing else of the slide changes.
pub proof fn turns_add_up(view: SlideView, degrees: i32)
    requires
        view.well_formed(),
    ensures
        ({
            let after = view.turned(degrees as int);
            &&& 0 <= after.state.rotation < 360
            &&& (after.state.rotation - view.state.rotation - degrees) % 360 == 0
            &&& after.state == (SlideState { rotation: after.state.rotation, ..view.state })
            &&& after.image == view.image && after.animating == view.animating
            &&& after.turned(-degrees) == view
        }),
{
}

/// A flip, a drag, a zoom and a reset do to the slide what they say, and leave
/// the rest of it alone. A slide that is fitted to the window goes back to its
/// place, and a reset slide is fitted, upright, not flipped and in its place.
pub proof fn changes_do_what_they_say(
    view: SlideView,
    offset: (u64, u64),
    x: u64,
    y: u64,
    rung: usize,
)
    ensures
        view.mirrored().state == (SlideState { flipped: !view.state.flipped, ..view.state }),
        view.panned(offset).state == (SlideState { offset, ..view.state }),
        view.zoomed(Some(rung)).state == (SlideState { zoom: Some(rung), ..view.state }),
        view.zoomed(None).state == (SlideState { zoom: None, offset: (0, 0), ..view.state }),
        view.reset().state == (SlideState {
            zoom: None,
            rotation: 0,
            flipped: false,
            offset: (0, 0),
        }),
        view.changed(SlideChange::Pan(x, y)).state == (SlideState {
            offset: (x, y),
            ..view.state
        }),
        view.changed(SlideChange::Flip) == view.mirrored(),
        view.changed(SlideChange::Zoom(Some(rung))) == view.zoomed(Some(rung)),
        view.changed(SlideChange::Zoom(None)) == view.zoomed(None),
        view.changed(SlideChange::Reset) == view.reset(),
        view.mirrored().image == view.image,
        view.panned(offset).image == view.image,
        view.zoomed(Some(rung)).image == view.image,
        view.zoomed(None).image == view.image,
        view.reset().image == view.image,
{
}

} // verus!
