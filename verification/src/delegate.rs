//! What the app does: the state behind its windows, and how menus, keys,
//! timers and events change it.
//!
//! The windows, the disk and the decoder are reached through [`Effect`]s: an
//! operation lists what is to be done there, and the caller does it. What the
//! windows show is derived from the state.

use vstd::prelude::*;

use crate::cache::holds;
use crate::e2e::{E2eState, HarnessState};
use crate::grid::{GridState, GridView};
use crate::order::SortOrder;
use crate::path::FilePath;
use crate::show::{starting, Show, ShowState};
use crate::sidebar::{section_row, Sidebar, SidebarState};

verus! {

/// Something to be done outside.
pub enum Effect<I> {
    /// Scan a folder, deep or not.
    Scan(FilePath, bool),
    /// Highlight a folder in the sidebar.
    Reveal(FilePath),
    /// Remember the folder for the next launch.
    SaveFolder(FilePath),
    SavePrefs,
    RequestThumb(FilePath),
    RequestSlide(FilePath),
    /// Open the slideshow window, with a title bar or fullscreen.
    OpenShow(bool),
    CloseShow,
    /// Put the slide of a file on screen.
    ShowSlide(FilePath),
    /// Play frames, each for so many microseconds.
    PlayFrames(Vec<(I, u64)>),
    /// Fire every so many tenths of a second.
    StartTimer(u64),
    StopTimer,
    /// Clear the flash in a moment.
    StartFlash,
    StopFlash,
    ReportScan(usize),
    ReportFailure(FilePath),
    /// Start the end-to-end harness.
    StartHarness,
    OpenPrefs,
    ClosePrefs,
    ToggleSidebar,
    /// The harness checked a claim, in a step.
    Checked(usize, bool, &'static str),
}

/// What the status bar shows.
pub enum Status {
    Blank,
    /// The count of images and the selection.
    Line,
    Message(String),
}

/// What the status bar shows.
pub enum StatusState {
    Blank,
    Line,
    Message(Seq<char>),
}

impl View for Status {
    type V = StatusState;

    open spec fn view(&self) -> StatusState {
        match *self {
            Status::Blank => StatusState::Blank,
            Status::Line => StatusState::Line,
            Status::Message(text) => StatusState::Message(text@),
        }
    }
}

/// The app.
pub struct AppDelegate<I> {
    pub grid: GridView<I>,
    pub sidebar: Sidebar,
    /// The highlighted row of the sidebar.
    pub slot: Option<usize>,
    pub sidebar_hidden: bool,
    /// The folder the grid shows and whether it was scanned deep.
    pub scan: Option<(FilePath, bool)>,
    /// Default slideshow mode from the preferences.
    pub windowed: bool,
    pub show: Option<Show<I>>,
    pub looping: bool,
    pub shuffling: bool,
    pub overlay: bool,
    pub status: Status,
    pub sort: SortOrder,
    pub descending: bool,
    /// Pace applied to new slideshows, in tenths of a second.
    pub pace: Option<u64>,
    pub prefs_open: bool,
    pub e2e: E2eState,
    /// Whether the end-to-end harness runs, which leaves the preferences
    /// alone.
    pub harness: bool,
    /// What is to be done outside, in order.
    pub effects: Vec<Effect<I>>,
}

/// Everything there is to say of the app.
#[verifier::ext_equal]
pub struct AppState<I> {
    pub grid: GridState<I>,
    pub sidebar: SidebarState,
    pub slot: Option<usize>,
    pub sidebar_hidden: bool,
    pub scan: Option<(FilePath, bool)>,
    pub windowed: bool,
    pub show: Option<ShowState<I>>,
    pub looping: bool,
    pub shuffling: bool,
    pub overlay: bool,
    pub status: StatusState,
    pub sort: SortOrder,
    pub descending: bool,
    pub pace: Option<u64>,
    pub prefs_open: bool,
    pub e2e: HarnessState,
    pub harness: bool,
    pub effects: Seq<Effect<I>>,
}

/// What can be said of a show that may run.
pub open spec fn show_state<I>(show: Option<Show<I>>) -> Option<ShowState<I>> {
    match show {
        Some(s) => Some(s@),
        None => None,
    }
}

impl<I> View for AppDelegate<I> {
    type V = AppState<I>;

    open spec fn view(&self) -> AppState<I> {
        AppState {
            grid: self.grid@,
            sidebar: self.sidebar@,
            slot: self.slot,
            sidebar_hidden: self.sidebar_hidden,
            scan: self.scan,
            windowed: self.windowed,
            show: show_state(self.show),
            looping: self.looping,
            shuffling: self.shuffling,
            overlay: self.overlay,
            status: self.status@,
            sort: self.sort,
            descending: self.descending,
            pace: self.pace,
            prefs_open: self.prefs_open,
            e2e: self.e2e@,
            harness: self.harness,
            effects: self.effects@,
        }
    }
}

/// One thing to do, on a condition.
pub open spec fn effect_if<I>(condition: bool, effect: Effect<I>) -> Seq<Effect<I>> {
    if condition {
        seq![effect]
    } else {
        Seq::empty()
    }
}

/// Requests for slides.
pub open spec fn slide_requests<I>(paths: Seq<FilePath>) -> Seq<Effect<I>> {
    paths.map_values(|p: FilePath| Effect::RequestSlide(p))
}

/// What bringing the current slide on screen from those at hand calls for.
pub open spec fn screen_effects<I>(show: ShowState<I>) -> Seq<Effect<I>> {
    effect_if::<I>(show.flash is Some, Effect::StopFlash) + (match show.playlist.current() {
        Some(current) => effect_if::<I>(holds(show.cache, current), Effect::ShowSlide(current)),
        None => Seq::empty(),
    })
}

/// What bringing the current slide on screen calls for.
pub open spec fn show_effects<I>(show: ShowState<I>) -> Seq<Effect<I>> {
    screen_effects(show) + slide_requests(show.refreshed().requests())
}

/// List what bringing the current slide on screen from those at hand calls
/// for.
fn announce<I>(effects: &mut Vec<Effect<I>>, show: &Show<I>)
    requires
        show.well_formed(),
    ensures
        final(effects)@ == old(effects)@ + screen_effects(show@),
{
    if show.has_flash() {
        effects.push(Effect::StopFlash);
    }
    if let Some(current) = show.current() {
        if show.image(current).is_some() {
            effects.push(Effect::ShowSlide(current.clone()));
        }
    }
    assert(effects@ =~= old(effects)@ + screen_effects(show@));
}

impl<I> AppState<I> {
    /// The app with more to do outside.
    pub open spec fn then_do(self, effects: Seq<Effect<I>>) -> AppState<I> {
        AppState { effects: self.effects + effects, ..self }
    }

    /// The app with the preferences to save, unless the harness runs.
    pub open spec fn then_save(self) -> AppState<I> {
        self.then_do(effect_if::<I>(!self.harness, Effect::SavePrefs))
    }

    /// The app with another state of its show.
    pub open spec fn with_show(self, show: ShowState<I>) -> AppState<I> {
        AppState { show: Some(show), ..self }
    }

    /// The app once the current slide is on screen, as far as it is at hand.
    pub open spec fn shown(self) -> AppState<I> {
        match self.show {
            Some(show) => self.with_show(show.refreshed()).then_do(show_effects(show)),
            None => self,
        }
    }

    /// The app once the pace is set, for the show and for later ones.
    pub open spec fn paced(self, pace: Option<u64>) -> AppState<I> {
        let base = AppState { pace, ..self };
        match self.show {
            Some(show) => base.with_show(
                ShowState { interval: pace, ticking: pace is Some, ..show },
            ).then_do(effect_if::<I>(show.ticking, Effect::StopTimer)).then_do(
                match pace {
                    Some(tenths) => seq![Effect::StartTimer(tenths)],
                    None => Seq::empty(),
                },
            ).then_save(),
            None => base,
        }
    }

    /// The app once a show of some files has started, given the number that
    /// the shuffle draws from.
    pub open spec fn started(
        self,
        files: Seq<FilePath>,
        index: int,
        windowed: bool,
        state: u64,
    ) -> AppState<I> {
        if files.len() == 0 {
            self
        } else {
            let playlist = starting(files, index, self.looping).reshuffled(self.shuffling, state);
            let open = self.with_show(ShowState::opened(windowed, playlist)).then_do(
                seq![Effect::OpenShow(windowed)],
            );
            // The remembered pace applies.
            let paced = match self.pace {
                Some(tenths) => open.paced(Some(tenths)),
                None => open,
            };
            paced.shown()
        }
    }

    /// The app once the show's window has gone.
    pub open spec fn closed(self) -> AppState<I> {
        match self.show {
            Some(show) => (AppState { show: None, ..self }).then_do(
                effect_if::<I>(show.ticking, Effect::StopTimer),
            ),
            None => self,
        }
    }

    /// The app once the show was ended.
    pub open spec fn ended(self) -> AppState<I> {
        match self.show {
            Some(_) => self.closed().then_do(seq![Effect::CloseShow]),
            None => self,
        }
    }

    /// The app after a step of the show, where there is one.
    pub open spec fn stepped(self, delta: int) -> AppState<I> {
        match self.show {
            Some(show) if show.playlist.target(delta) is Some => self.with_show(
                ShowState { playlist: show.playlist.stepped(delta), ..show },
            ).shown(),
            _ => self,
        }
    }

    /// The app after a step in the sorted order, where there is one.
    pub open spec fn stepped_original(self, delta: int) -> AppState<I> {
        match self.show {
            Some(show) if show.playlist.can_step_original(delta) => self.with_show(
                ShowState { playlist: show.playlist.stepped_original(delta), ..show },
            ).shown(),
            _ => self,
        }
    }

    /// The app with its show at another position.
    pub open spec fn jumped(self, last: bool) -> AppState<I> {
        match self.show {
            Some(show) => self.with_show(
                ShowState {
                    playlist: show.playlist.at(
                        if last {
                            show.playlist.last()
                        } else {
                            0
                        },
                    ),
                    ..show
                },
            ).shown(),
            None => self,
        }
    }

    /// The app after the space bar: pause or go on while advancing, the next
    /// slide otherwise.
    pub open spec fn spaced(self) -> AppState<I> {
        match self.show {
            Some(show) => match show.interval {
                Some(tenths) => self.with_show(
                    ShowState { ticking: !show.ticking, ..show },
                ).then_do(
                    seq![
                        if show.ticking {
                            Effect::StopTimer
                        } else {
                            Effect::StartTimer(tenths)
                        },
                    ],
                ),
                None => self.stepped(1),
            },
            None => self,
        }
    }

    /// The app after the timer fired: the next slide, or no more advancing at
    /// the end of a show that is not looped.
    pub open spec fn ticked(self) -> AppState<I> {
        match self.show {
            Some(show) => if show.playlist.target(1) is Some {
                self.stepped(1)
            } else {
                self.paced(None)
            },
            None => self,
        }
    }

    /// The app once gone files have left its show. A show that this empties
    /// ends.
    pub open spec fn dropped(self, paths: Seq<FilePath>) -> AppState<I> {
        match self.show {
            Some(show) => {
                let rest = show.dropped(paths);
                if rest.playlist.files.len() == 0 {
                    self.with_show(rest).ended()
                } else if rest.playlist.files.len() != show.playlist.files.len() {
                    self.with_show(rest).shown()
                } else {
                    self.with_show(rest)
                }
            },
            None => self,
        }
    }
}

impl<I> AppDelegate<I> {
    /// What every operation keeps.
    pub open spec fn well_formed(self) -> bool {
        &&& self.grid.well_formed()
        &&& self.sidebar@.valid()
        &&& self.show is Some ==> self.show->0.well_formed()
    }

    /// The app at launch, with nothing read yet.
    pub fn new(favorites: Vec<FilePath>, harness: bool) -> (app: Self)
        ensures
            app.well_formed(),
            app@.grid == GridState::<I>::blank(false),
            app@.sidebar == (SidebarState {
                rows: seq![section_row("Favorites"@), section_row("Local"@)],
                favorites: favorites@,
            }),
            app@.slot is None && !app@.sidebar_hidden && app@.scan is None && !app@.windowed
                && app@.show is None && !app@.looping && !app@.shuffling && !app@.overlay,
            app@.status == StatusState::Blank,
            app@.sort == SortOrder::Name && !app@.descending,
            app@.pace is None && !app@.prefs_open && app@.harness == harness,
            app@.e2e == (HarnessState { step: 0, failures: Seq::empty(), started: false }),
            app@.effects == Seq::<Effect<I>>::empty(),
    {
        let app = AppDelegate {
            grid: GridView::new(),
            sidebar: Sidebar::new(favorites),
            slot: None,
            sidebar_hidden: false,
            scan: None,
            windowed: false,
            show: None,
            looping: false,
            shuffling: false,
            overlay: false,
            status: Status::Blank,
            sort: SortOrder::Name,
            descending: false,
            pace: None,
            prefs_open: false,
            e2e: E2eState { step: 0, failures: Vec::new(), started: false },
            harness,
            effects: Vec::new(),
        };
        assert(app@.e2e.failures =~= Seq::empty());
        app
    }

    /// What is to be done outside, in order. The list starts anew.
    pub fn take_effects(&mut self) -> (effects: Vec<Effect<I>>)
        requires
            old(self).well_formed(),
        ensures
            final(self).well_formed(),
            effects@ == old(self)@.effects,
            final(self)@ == (AppState { effects: Seq::empty(), ..old(self)@ }),
    {
        let mut effects: Vec<Effect<I>> = Vec::new();
        std::mem::swap(&mut effects, &mut self.effects);
        assert(self@ =~= (AppState { effects: Seq::empty(), ..old(self)@ }));
        effects
    }

    pub(crate) fn save_prefs(&mut self)
        requires
            old(self).well_formed(),
        ensures
            final(self).well_formed(),
            final(self)@ == old(self)@.then_save(),
    {
        if !self.harness {
            self.effects.push(Effect::SavePrefs);
        }
        assert(self@ =~= old(self)@.then_save());
    }

    /// Ask for slides.
    fn request_slides(&mut self, paths: &Vec<FilePath>)
        requires
            old(self).well_formed(),
        ensures
            final(self).well_formed(),
            final(self)@ == old(self)@.then_do(slide_requests(paths@)),
    {
        let ghost start = self@;
        let ghost all = slide_requests::<I>(paths@);
        let mut k: usize = 0;
        assert(self@ =~= start.then_do(all.take(0)));
        while k < paths.len()
            invariant
                k <= paths.len(),
                all == slide_requests::<I>(paths@),
                self.well_formed(),
                self@ == start.then_do(all.take(k as int)),
            decreases paths.len() - k,
        {
            self.effects.push(Effect::RequestSlide(paths[k].clone()));
            k += 1;
            assert(self.effects@ =~= start.effects + all.take(k as int));
        }
        assert(all.take(k as int) =~= all);
    }

    /// Put a show on the screen of the app.
    fn set_show(&mut self, show: Show<I>)
        requires
            old(self).grid.well_formed(),
            old(self).sidebar@.valid(),
            show.well_formed(),
        ensures
            final(self).well_formed(),
            final(self)@ == old(self)@.with_show(show@),
    {
        self.show = Some(show);
    }

    /// Bring the current slide on screen from those at hand or ask for it,
    /// and for its neighbours.
    pub(crate) fn show_current(&mut self)
        requires
            old(self).well_formed(),
        ensures
            final(self).well_formed(),
            final(self)@ == old(self)@.shown(),
    {
        let ghost start = self@;
        if let Some(mut show) = self.show.take() {
            let ghost before = show@;
            announce(&mut self.effects, &show);
            let requests = show.refresh();
            self.set_show(show);
            self.request_slides(&requests);
            assert(self.effects@ =~= start.effects + show_effects(before));
        }
    }

    /// Set the pace, or stop advancing. Also becomes the default for the next
    /// show.
    pub fn set_auto_advance(&mut self, pace: Option<u64>)
        requires
            old(self).well_formed(),
        ensures
            final(self).well_formed(),
            final(self)@ == old(self)@.paced(pace),
    {
        let ghost start = self@;
        self.pace = pace;
        if let Some(mut show) = self.show.take() {
            if show.is_ticking() {
                self.effects.push(Effect::StopTimer);
            }
            show.set_pace(pace);
            self.show = Some(show);
            if let Some(tenths) = pace {
                self.effects.push(Effect::StartTimer(tenths));
            }
            self.save_prefs();
        }
        assert(self@ =~= start.paced(pace));
    }

    /// Start with an explicit file set.
    pub fn start_slideshow_files(&mut self, files: Vec<FilePath>, index: usize, windowed: bool)
        requires
            old(self).well_formed(),
        ensures
            final(self).well_formed(),
            exists|state: u64|
                state % 2 == 1 && final(self)@ == #[trigger] old(self)@.started(
                    files@,
                    index as int,
                    windowed,
                    state,
                ),
    {
        let ghost start = self@;
        if files.len() == 0 {
            assert(self@ == start.started(files@, index as int, windowed, 1));
            return;
        }
        let show: Show<I> = Show::new(files, index, windowed, self.looping, self.shuffling);
        let ghost playlist = show@.playlist;
        self.set_show(show);
        self.effects.push(Effect::OpenShow(windowed));
        let ghost open = start.with_show(ShowState::opened(windowed, playlist)).then_do(
            seq![Effect::OpenShow(windowed)],
        );
        assert(self.effects@ =~= open.effects);
        assert(self@ == open);
        if let Some(tenths) = self.pace {
            self.set_auto_advance(Some(tenths));
        }
        self.show_current();
        proof {
            let state = choose|state: u64|
                state % 2 == 1 && playlist == #[trigger] starting(
                    files@,
                    index as int,
                    start.looping,
                ).reshuffled(
                    start.shuffling,
                    state,
                );
            assert(self@ == start.started(files@, index as int, windowed, state));
        }
    }

    /// The show's window went, by its close button.
    pub fn window_will_close(&mut self)
        requires
            old(self).well_formed(),
        ensures
            final(self).well_formed(),
            final(self)@ == old(self)@.closed(),
    {
        let ghost start = self@;
        if let Some(show) = self.show.take() {
            if show.is_ticking() {
                self.effects.push(Effect::StopTimer);
            }
        }
        assert(self@ =~= start.closed());
    }

    pub fn end_slideshow(&mut self)
        requires
            old(self).well_formed(),
        ensures
            final(self).well_formed(),
            final(self)@ == old(self)@.ended(),
    {
        let ghost start = self@;
        if self.show.is_some() {
            self.window_will_close();
            self.effects.push(Effect::CloseShow);
        }
        assert(self@ =~= start.ended());
    }

    pub fn step_slideshow(&mut self, delta: i64)
        requires
            old(self).well_formed(),
        ensures
            final(self).well_formed(),
            final(self)@ == old(self)@.stepped(delta as int),
    {
        let ghost start = self@;
        if let Some(mut show) = self.show.take() {
            let stepped = show.step(delta);
            self.show = Some(show);
            if stepped {
                self.show_current();
            }
        }
        assert(self@ =~= start.stepped(delta as int));
    }

    /// Step in the sorted order while shuffled.
    pub fn step_slideshow_original(&mut self, delta: i64)
        requires
            old(self).well_formed(),
        ensures
            final(self).well_formed(),
            final(self)@ == old(self)@.stepped_original(delta as int),
    {
        let ghost start = self@;
        if let Some(mut show) = self.show.take() {
            let stepped = show.step_original(delta);
            self.show = Some(show);
            if stepped {
                self.show_current();
            }
        }
        assert(self@ =~= start.stepped_original(delta as int));
    }

    pub fn jump_slideshow_start(&mut self)
        requires
            old(self).well_formed(),
        ensures
            final(self).well_formed(),
            final(self)@ == old(self)@.jumped(false),
    {
        if let Some(mut show) = self.show.take() {
            show.jump_first();
            self.show = Some(show);
        }
        self.show_current();
    }

    pub fn jump_slideshow_end(&mut self)
        requires
            old(self).well_formed(),
        ensures
            final(self).well_formed(),
            final(self)@ == old(self)@.jumped(true),
    {
        if let Some(mut show) = self.show.take() {
            show.jump_last();
            self.show = Some(show);
        }
        self.show_current();
    }

    /// Space: toggle pause while auto-advancing, plain next otherwise.
    pub fn space_pressed(&mut self)
        requires
            old(self).well_formed(),
        ensures
            final(self).well_formed(),
            final(self)@ == old(self)@.spaced(),
    {
        let ghost start = self@;
        let interval = match &self.show {
            Some(show) => show.interval(),
            None => {
                return;
            },
        };
        match interval {
            None => {
                self.step_slideshow(1);
            },
            Some(tenths) => {
                if let Some(mut show) = self.show.take() {
                    let ticking = show.is_ticking();
                    show.set_ticking(!ticking);
                    self.show = Some(show);
                    self.effects.push(
                        if ticking {
                            Effect::StopTimer
                        } else {
                            Effect::StartTimer(tenths)
                        },
                    );
                }
            },
        }
        assert(self@ =~= start.spaced());
    }

    /// The timer fired.
    pub fn advance_slide(&mut self)
        requires
            old(self).well_formed(),
        ensures
            final(self).well_formed(),
            final(self)@ == old(self)@.ticked(),
    {
        let ghost start = self@;
        if let Some(mut show) = self.show.take() {
            let stepped = show.step(1);
            self.show = Some(show);
            if stepped {
                self.show_current();
            } else {
                // Reached the end without loop: stop advancing.
                self.set_auto_advance(None);
            }
        }
        assert(self@ =~= start.ticked());
    }

    /// Take gone files out of a running show, wherever the removal came from,
    /// and end the show if that empties it.
    pub fn drop_from_slideshow(&mut self, paths: &Vec<FilePath>)
        requires
            old(self).well_formed(),
        ensures
            final(self).well_formed(),
            final(self)@ == old(self)@.dropped(paths@),
    {
        let ghost start = self@;
        if let Some(mut show) = self.show.take() {
            let (emptied, changed) = show.drop_paths(paths);
            self.show = Some(show);
            if emptied {
                self.end_slideshow();
            } else if changed {
                self.show_current();
            }
        }
        assert(self@ =~= start.dropped(paths@));
    }
}

} // verus!
