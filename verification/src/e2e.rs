//! The in-app end-to-end harness: it drives the app step by step, and notes
//! what does not hold. Each step lists what is to be done outside the app
//! afterwards; a report on that counts toward the same step.

use vstd::prelude::*;

use crate::delegate::{AppDelegate, AppState, Effect, StatusState};
use crate::grid::{paths_of, GridState};
use crate::order::SortOrder;
use crate::path::{file_name, FilePath};
use crate::slideshow::{SlideChange, SlideView};
use crate::text::{
    contains, decimal, ends_with, is_ending, occurs_in, push_decimal, same_text,
};

verus! {

/// How far the harness has come, and what failed.
pub struct E2eState {
    pub step: usize,
    pub failures: Vec<String>,
    pub started: bool,
}

/// Everything there is to say of the harness.
#[verifier::ext_equal]
pub struct HarnessState {
    pub step: usize,
    pub failures: Seq<Seq<char>>,
    pub started: bool,
}

impl View for E2eState {
    type V = HarnessState;

    open spec fn view(&self) -> HarnessState {
        HarnessState {
            step: self.step,
            failures: self.failures.deep_view(),
            started: self.started,
        }
    }
}

impl Default for E2eState {
    fn default() -> (state: E2eState)
        ensures
            state@ == (HarnessState { step: 0, failures: Seq::empty(), started: false }),
    {
        let state = E2eState { step: 0, failures: Vec::new(), started: false };
        assert(state@.failures =~= Seq::empty());
        state
    }
}

/// Whether the harness is asked for, by the value of its variable.
pub fn enabled(value: Option<&str>) -> (enabled: bool)
    ensures
        enabled == (match value {
            Some(text) => text@.len() > 0 && text@ != "0"@,
            None => false,
        }),
{
    match value {
        Some(text) => !text.is_empty() && !same_text(text, "0"),
        None => false,
    }
}

/// What a failure is noted as.
pub open spec fn failure_line(step: usize, what: Seq<char>) -> Seq<char> {
    "step "@ + decimal(step as nat) + ": "@ + what
}

/// Something that a step leaves to be done outside.
#[derive(Clone, Copy, Debug, PartialEq, Eq, Structural)]
pub enum Outside {
    /// Save a picture of the slide on screen.
    Snapshot,
    /// Make the cells bigger, compare the height of the grid, and go back.
    CompareCells,
    /// Copy a file into the folder.
    CopyFile,
    /// Remove that copy.
    RemoveCopy,
    /// Fire an item of the Slideshow menu.
    FireMenu(usize),
    /// Turn labels on, compare the height of the grid, and go back.
    CompareLabels,
    /// Write an animated image into the folder.
    WriteAnimation,
    /// Remove that image.
    RemoveAnimation,
    /// Click the folder in the sidebar.
    ClickSidebar,
    /// Report what failed, and exit.
    Finish,
}

/// The number of the last step that does something.
pub const LAST_STEP: usize = 34;

impl<I> AppState<I> {
    /// The app once a claim was checked.
    pub open spec fn checked(self, ok: bool, what: &'static str) -> AppState<I> {
        (AppState {
            e2e: HarnessState {
                failures: if ok {
                    self.e2e.failures
                } else {
                    self.e2e.failures.push(failure_line(self.e2e.step, what@))
                },
                ..self.e2e
            },
            ..self
        }).then_do(seq![Effect::Checked(self.e2e.step, ok, what)])
    }

    /// The app with another selection.
    pub open spec fn selecting(self, indices: Seq<usize>) -> AppState<I> {
        let first = if indices.len() > 0 {
            Some(indices[0] as int)
        } else {
            None
        };
        AppState {
            grid: GridState {
                selected: Set::new(
                    |p: int| exists|k: int| 0 <= k < indices.len() && #[trigger] indices[k] == p,
                ),
                focus: first,
                anchor: first,
                ..self.grid
            },
            status: StatusState::Line,
            ..self
        }
    }

    /// The app with another order to sort by.
    pub open spec fn ordering(self, order: SortOrder, descending: bool) -> AppState<I> {
        AppState { sort: order, descending, ..self }
    }

    /// The index of the slide on screen.
    pub open spec fn slide_index(self) -> Option<int> {
        match self.show {
            Some(show) => Some(show.playlist.file_at(show.playlist.position)),
            None => None,
        }
    }

    /// Whether the slide on screen has its image.
    pub open spec fn has_slide(self) -> bool {
        self.show is Some && self.show->0.view.image is Some
    }

    /// The name of the first file in the grid, where it has one.
    pub open spec fn first_name(self) -> Option<Seq<char>> {
        if self.grid.files.len() > 0 {
            file_name(self.grid.files[0].path@)
        } else {
            None
        }
    }

    /// The row of the sidebar is clicked: its folder is scanned.
    pub open spec fn clicking(self, slot: Option<usize>, path: FilePath) -> AppState<I> {
        (AppState { slot, ..self }).scanning(path, false, true)
    }
}

impl<I> AppDelegate<I> {
    pub fn e2e_state(&self) -> (state: &E2eState)
        ensures
            *state == self.e2e,
    {
        &self.e2e
    }

    pub fn e2e_file_count(&self) -> (count: usize)
        ensures
            count == self@.grid.files.len(),
    {
        self.grid.files().len()
    }

    pub fn e2e_show_active(&self) -> (active: bool)
        ensures
            active == (self@.show is Some),
    {
        self.show.is_some()
    }

    pub fn e2e_current_index(&self) -> (index: Option<usize>)
        requires
            self.well_formed(),
        ensures
            match index {
                Some(i) => self@.slide_index() == Some(i as int),
                None => self@.slide_index() is None,
            },
    {
        match &self.show {
            Some(show) => Some(show.current_index()),
            None => None,
        }
    }

    pub fn e2e_slide_has_image(&self) -> (shown: bool)
        ensures
            shown == self@.has_slide(),
    {
        match &self.show {
            Some(show) => show.slide_view().has_image(),
            None => false,
        }
    }

    pub fn e2e_slide_view(&self) -> (view: Option<&SlideView>)
        ensures
            match view {
                Some(v) => self@.show is Some && *v == self@.show->0.view,
                None => self@.show is None,
            },
    {
        match &self.show {
            Some(show) => Some(show.slide_view()),
            None => None,
        }
    }

    pub fn e2e_overlay_text(&self) -> (text: Option<String>)
        requires
            self.well_formed(),
        ensures
            match text {
                Some(t) => self@.show is Some && t@ == self@.show->0.overlay(),
                None => self@.show is None,
            },
    {
        match &self.show {
            Some(show) => Some(show.overlay_text()),
            None => None,
        }
    }

    pub fn e2e_sort(&mut self, order: SortOrder, descending: bool)
        requires
            old(self).well_formed(),
        ensures
            final(self).well_formed(),
            old(self)@.ordering(order, descending).sorts_to(final(self)@),
    {
        self.sort = order;
        self.descending = descending;
        self.apply_sort();
    }

    pub fn e2e_first_file(&self) -> (name: Option<String>)
        ensures
            match name {
                Some(n) => self@.first_name() == Some(n@),
                None => self@.first_name() is None,
            },
    {
        let files = self.grid.files();
        if files.len() > 0 {
            files[0].path.file_name()
        } else {
            None
        }
    }

    pub fn e2e_select(&mut self, indices: &Vec<usize>)
        requires
            old(self).well_formed(),
            forall|k: int|
                0 <= k < indices@.len() ==> #[trigger] indices@[k] < old(self)@.grid.files.len(),
        ensures
            final(self).well_formed(),
            final(self)@ == old(self)@.selecting(indices@),
    {
        self.grid.e2e_set_selected(indices);
        self.selection_changed();
        assert(self@ =~= old(self)@.selecting(indices@));
    }

    pub fn e2e_start_from_selection(&mut self)
        requires
            old(self).well_formed(),
        ensures
            final(self).well_formed(),
            exists|state: u64|
                state % 2 == 1 && final(self)@ == #[trigger] old(self)@.started(
                    old(self)@.grid.request().0,
                    old(self)@.grid.request().1,
                    false,
                    state,
                ),
    {
        self.start_from_grid(false);
    }

    pub fn e2e_show_is_windowed(&self) -> (windowed: Option<bool>)
        ensures
            windowed == (match self@.show {
                Some(show) => Some(show.windowed),
                None => None,
            }),
    {
        match &self.show {
            Some(show) => Some(show.is_windowed()),
            None => None,
        }
    }

    pub fn e2e_playlist_len(&self) -> (count: Option<usize>)
        ensures
            match count {
                Some(n) => self@.show is Some && n == self@.show->0.playlist.files.len(),
                None => self@.show is None,
            },
    {
        match &self.show {
            Some(show) => Some(show.len()),
            None => None,
        }
    }

    pub fn e2e_status_text(&self, dimensions: Option<(u64, u64)>, size: &str) -> (text: String)
        requires
            self.well_formed(),
        ensures
            text@ == self@.status_text(dimensions, size@),
    {
        self.status_text(dimensions, size)
    }

    /// A click on the row that a walk down the sidebar ended at.
    pub fn e2e_sidebar_click(&mut self, slot: Option<usize>)
        requires
            old(self).well_formed(),
        ensures
            final(self).well_formed(),
            match old(self)@.sidebar.openable(slot) {
                Some(text) => exists|path: FilePath|
                    path@ == text && final(self)@ == #[trigger] old(self)@.clicking(slot, path),
                None => final(self)@ == (AppState { slot, ..old(self)@ }),
            },
    {
        self.slot = slot;
        if let Some(path) = self.sidebar.e2e_click(slot) {
            let ghost chosen = path;
            self.scan_root(path, false);
            assert(self@ == old(self)@.clicking(slot, chosen));
        }
    }

    /// The path of the highlighted row, or nothing.
    pub fn e2e_sidebar_path(&self) -> (text: String)
        ensures
            text@ == (match self@.sidebar.openable(self@.slot) {
                Some(path) => path,
                None => Seq::empty(),
            }),
    {
        match self.sidebar.selected_path(self.slot) {
            Some(path) => path.as_text().to_owned(),
            None => {
                let text = String::new();
                assert(text@ =~= Seq::empty());
                text
            },
        }
    }

    pub fn e2e_sidebar_hidden(&self) -> (hidden: bool)
        ensures
            hidden == self@.sidebar_hidden,
    {
        self.sidebar_hidden
    }

    pub fn e2e_toggle_sidebar(&mut self)
        requires
            old(self).well_formed(),
        ensures
            final(self).well_formed(),
            final(self)@ == old(self)@.sidebar_toggled(),
    {
        self.toggle_sidebar();
    }

    pub fn e2e_add_favorite(&mut self, path: &FilePath)
        requires
            old(self).well_formed(),
        ensures
            final(self).well_formed(),
            final(self)@ == (AppState {
                sidebar: old(self)@.sidebar.favorite_added(*path),
                ..old(self)@
            }),
    {
        let _ = self.sidebar.add_favorite(path);
    }

    pub fn e2e_remove_favorite(&mut self, path: &FilePath)
        requires
            old(self).well_formed(),
        ensures
            final(self).well_formed(),
            final(self)@ == (AppState {
                sidebar: old(self)@.sidebar.favorite_removed(*path),
                ..old(self)@
            }),
    {
        self.sidebar.remove_favorite(path);
    }

    pub fn e2e_favorite_count(&self) -> (count: usize)
        ensures
            count == self@.sidebar.favorites.len(),
    {
        self.sidebar.e2e_favorites().len()
    }

    /// The name of the first selected image, for selection checks.
    pub fn e2e_selected_name(&self) -> (name: Option<String>)
        requires
            self.well_formed(),
        ensures
            match name {
                Some(n) => self@.grid.picked_files().len() > 0 && file_name(
                    self@.grid.picked_files()[0].path@,
                ) == Some(n@),
                None => self@.grid.picked_files().len() == 0 || file_name(
                    self@.grid.picked_files()[0].path@,
                ) is None,
            },
    {
        let (_, picked) = self.grid.selection_info();
        if picked.len() > 0 {
            picked[0].path.file_name()
        } else {
            None
        }
    }

    /// What to move to the trash.
    pub fn e2e_trash_selection(&self) -> (paths: Vec<FilePath>)
        requires
            self.well_formed(),
        ensures
            paths@ == self@.trash_targets(),
    {
        self.trash_selection()
    }

    pub fn e2e_prefs_visible(&self) -> (visible: bool)
        ensures
            visible == self@.prefs_open,
    {
        self.prefs_open
    }

    pub fn e2e_set_default_windowed(&mut self, windowed: bool)
        requires
            old(self).well_formed(),
        ensures
            final(self).well_formed(),
            final(self)@ == (AppState { windowed, ..old(self)@ }),
    {
        self.windowed = windowed;
    }

    pub fn e2e_close_prefs(&mut self)
        requires
            old(self).well_formed(),
        ensures
            final(self).well_formed(),
            final(self)@ == old(self)@.prefs_closed(),
    {
        if self.prefs_open {
            self.prefs_open = false;
            self.effects.push(Effect::ClosePrefs);
        }
        assert(self.effects@ =~= old(self)@.prefs_closed().effects);
    }

    pub fn e2e_slide_animating(&self) -> (animating: bool)
        ensures
            animating == (self@.show is Some && self@.show->0.view.animating),
    {
        match &self.show {
            Some(show) => show.slide_view().is_animating(),
            None => false,
        }
    }

    pub fn e2e_toggle_labels(&mut self)
        requires
            old(self).well_formed(),
        ensures
            final(self).well_formed(),
            final(self)@ == (AppState {
                grid: GridState { labels: !old(self)@.grid.labels, ..old(self)@.grid },
                ..old(self)@
            }),
    {
        let visible = !self.grid.labels_visible();
        self.grid.set_labels(visible);
    }
}

/// Note whether a claim holds.
pub fn check<I>(app: &mut AppDelegate<I>, ok: bool, what: &'static str)
    requires
        old(app).well_formed(),
    ensures
        final(app).well_formed(),
        final(app)@ == old(app)@.checked(ok, what),
{
    let ghost start = app@;
    let step = app.e2e.step;
    if !ok {
        let mut line = "step ".to_owned();
        push_decimal(&mut line, step as u64);
        line.append(": ");
        line.append(what);
        assert(line@ =~= failure_line(step, what@));
        let ghost before = app.e2e.failures.deep_view();
        app.e2e.failures.push(line);
        assert(app.e2e.failures.deep_view() =~= before.push(line@));
    }
    app.effects.push(Effect::Checked(step, ok, what));
    assert(app.effects@ =~= start.checked(ok, what).effects);
    assert(app@ =~= start.checked(ok, what));
}

impl<I> AppState<I> {
    /// A show of everything in the grid.
    pub open spec fn playing(self, index: int, windowed: bool, state: u64) -> AppState<I> {
        self.started(paths_of(self.grid.files), index, windowed, state)
    }

    /// Whether the slideshow has a window, and one with a title bar or not.
    pub open spec fn show_windowed(self, windowed: bool) -> bool {
        self.show is Some && self.show->0.windowed == windowed
    }

    /// How far the slide on screen is turned.
    pub open spec fn rotation(self) -> int {
        self.show->0.view.state.rotation as int
    }

    /// The steps that play a show from the start, step by step, and end it.
    pub open spec fn opening_steps(self, step: usize, state: u64) -> AppState<I> {
        if step == 0 {
            self.checked(self.grid.files.len() >= 3, "scan found 3+ files").playing(
                0,
                false,
                state,
            )
        } else if step == 1 {
            self.checked(self.show is Some, "slideshow window active").checked(
                self.slide_index() == Some(0int),
                "starts at index 0",
            ).checked(self.has_slide(), "first slide decoded and shown")
        } else if step == 2 {
            let on = self.stepped(1);
            on.checked(on.slide_index() == Some(1int), "arrow step to index 1")
        } else if step == 3 {
            self.checked(self.has_slide(), "second slide shown")
        } else if step == 4 {
            self.paced(Some(4))
        } else if step == 6 {
            let on = self.checked(
                self.slide_index() is Some && self.slide_index()->0 >= 2,
                "auto-advance moved past index 1",
            ).paced(None);
            AppState { overlay: !on.overlay, ..on }
        } else if step == 7 {
            self.checked(
                self.show is Some && self.show->0.overlay().len() > 0,
                "overlay has text",
            ).ended()
        } else {
            self
        }
    }

    /// The steps on the selection and on files that come and go.
    pub open spec fn folder_steps(self, step: usize, state: u64) -> AppState<I> {
        if step == 10 {
            let picked = self.selecting(seq![1usize, 3usize]);
            let on = picked.started(
                picked.grid.request().0,
                picked.grid.request().1,
                false,
                state,
            );
            on.checked(
                on.show is Some && on.show->0.playlist.files.len() == 2,
                "selection of 2 plays exactly 2",
            ).ended()
        } else if step == 12 {
            self.checked(self.grid.files.len() == 5, "watcher picked up the new file")
        } else if step == 13 {
            self.checked(self.grid.files.len() == 4, "watcher removed the deleted file")
        } else {
            self
        }
    }

    /// The steps that turn a slide, and come back to it.
    pub open spec fn turning_steps(self, step: usize, state: u64) -> AppState<I> {
        if step == 14 {
            self.playing(0, false, state)
        } else if step == 15 {
            (if self.show is Some {
                let turned = self.touched(SlideChange::Turn(90));
                turned.checked(turned.rotation() == 90, "rotate key turns 90")
            } else {
                self
            }).stepped(1)
        } else if step == 16 {
            (if self.show is Some {
                self.checked(self.rotation() == 0, "next slide starts unrotated")
            } else {
                self
            }).stepped(-1)
        } else if step == 17 {
            (if self.show is Some {
                self.checked(self.rotation() == 90, "rotation remembered per file")
            } else {
                self
            }).ended()
        } else {
            self
        }
    }

    /// The steps that play a show in a window, and from the menu.
    pub open spec fn window_steps(self, step: usize, state: u64) -> AppState<I> {
        if step == 18 {
            self.checked(self.show is None, "fullscreen show closed").playing(0, true, state)
        } else if step == 19 {
            self.checked(self.show is Some, "windowed slideshow active").checked(
                self.show_windowed(true),
                "window has a title bar",
            ).checked(self.has_slide(), "windowed slide shown").ended()
        } else if step == 20 {
            self.checked(self.show is None, "windowed show closed")
        } else if step == 21 {
            self.checked(self.show is Some, "menu started windowed show").checked(
                self.show_windowed(true),
                "menu picked windowed mode",
            ).ended()
        } else if step == 23 {
            self.checked(self.show is Some, "menu started fullscreen show").checked(
                self.show_windowed(false),
                "menu picked fullscreen mode",
            ).ended()
        } else if step == 24 {
            self.checked(self.show is None, "menu-started show closed")
        } else {
            self
        }
    }

    /// The step on the status bar.
    pub open spec fn status_step(
        self,
        dimensions: Option<(u64, u64)>,
        size: Seq<char>,
    ) -> AppState<I> {
        let none = self.selecting(Seq::empty());
        let counted = none.checked(
            occurs_in(none.status_text(dimensions, size), "4 images"@),
            "status shows the image count",
        );
        let two = counted.selecting(seq![1usize, 3usize]);
        let selected = two.checked(
            occurs_in(two.status_text(dimensions, size), "2 of 4 selected"@),
            "status shows the selection",
        );
        let one = selected.selecting(seq![1usize]);
        let text = one.status_text(dimensions, size);
        one.checked(
            occurs_in(text, "×"@) && occurs_in(text, "B"@),
            "single selection shows dimensions and size",
        ).selecting(Seq::empty())
    }

    /// The steps that play an animated image.
    pub open spec fn animation_steps(self, step: usize, state: u64) -> AppState<I> {
        if step == 29 {
            self.checked(self.grid.files.len() == 5, "watcher picked up the gif").playing(
                4,
                false,
                state,
            )
        } else if step == 30 {
            self.checked(self.show is Some, "gif slideshow active").checked(
                self.show is Some && self.show->0.view.animating,
                "gif frames are playing",
            ).ended()
        } else if step == 31 {
            self.checked(self.grid.files.len() == 4, "gif removed after the test")
        } else {
            self
        }
    }

    /// The checks on hiding the sidebar.
    pub open spec fn sidebar_hides(self) -> AppState<I> {
        let hidden = self.checked(
            self.grid.files.len() == 4,
            "sidebar click rescanned the folder",
        ).sidebar_toggled();
        let back = hidden.checked(hidden.sidebar_hidden, "sidebar collapses").sidebar_toggled();
        back.checked(!back.sidebar_hidden, "sidebar shows again")
    }

    /// The check on a folder that joins the favorites.
    pub open spec fn favorite_joins(self, root: FilePath) -> AppState<I> {
        let more = AppState { sidebar: self.sidebar.favorite_added(root), ..self };
        more.checked(
            more.sidebar.favorites.len() == self.sidebar.favorites.len() + 1,
            "folder joins the favorites",
        )
    }

    /// The check on a favorite that goes, out of `before` and itself.
    pub open spec fn favorite_goes(self, root: FilePath, before: nat) -> AppState<I> {
        let fewer = AppState { sidebar: self.sidebar.favorite_removed(root), ..self };
        fewer.checked(fewer.sidebar.favorites.len() == before, "favorite goes away again")
    }

    /// The step on the sidebar and its favorites.
    pub open spec fn sidebar_step(self, root: FilePath) -> AppState<I> {
        let before = self.sidebar.favorites.len();
        self.sidebar_hides().favorite_joins(root).favorite_goes(root, before)
    }

    /// The step on the preferences.
    pub open spec fn prefs_step(self) -> AppState<I> {
        let open = self.prefs_opened();
        let windowed = AppState {
            windowed: true,
            ..open.checked(open.prefs_open, "prefs window opens")
        };
        let closed = (AppState {
            windowed: false,
            ..windowed.checked(windowed.windowed, "default slideshow mode switches to windowed")
        }).prefs_closed();
        closed.checked(!closed.prefs_open, "prefs window closes")
    }

    /// On the way to the size order.
    pub open spec fn to_size(self) -> AppState<I> {
        self.checked(self.show is None, "slideshow closed").ordering(SortOrder::Size, true)
    }

    /// On the way back from the size order.
    pub open spec fn from_size(self) -> AppState<I> {
        self.checked(
            self.first_name() == Some("img10.heic"@),
            "size-descending puts biggest first",
        ).ordering(SortOrder::Name, false)
    }

    /// Whether a round trip through the size order may make the app another.
    pub open spec fn size_round_trip(self, after: AppState<I>) -> bool {
        exists|by_size: AppState<I>, by_name: AppState<I>|
            {
                &&& #[trigger] self.to_size().sorts_to(by_size)
                &&& #[trigger] by_size.from_size().sorts_to(by_name)
                &&& after == by_name.checked(
                    by_name.first_name() == Some("apple.heic"@),
                    "name order restored",
                )
            }
    }

    /// On the way from one date order to the other.
    pub open spec fn to_added(self) -> AppState<I> {
        self.checked(self.grid.files.len() == 4, "EXIF date sort keeps all files").ordering(
            SortOrder::Added,
            true,
        )
    }

    /// On the way back from the date orders.
    pub open spec fn from_added(self) -> AppState<I> {
        self.checked(self.grid.files.len() == 4, "date added sort keeps all files").ordering(
            SortOrder::Name,
            false,
        )
    }

    /// Whether a round trip through the date orders may make the app another.
    pub open spec fn date_round_trip(self, after: AppState<I>) -> bool {
        exists|by_date: AppState<I>, by_added: AppState<I>, by_name: AppState<I>|
            {
                &&& #[trigger] self.ordering(SortOrder::ExifDate, true).sorts_to(by_date)
                &&& #[trigger] by_date.to_added().sorts_to(by_added)
                &&& #[trigger] by_added.from_added().sorts_to(by_name)
                &&& after == by_name.checked(
                    by_name.first_name() == Some("apple.heic"@),
                    "name order restored after date sorts",
                )
            }
    }

    /// Whether a step of the harness may make the app another.
    pub open spec fn harness_step(
        self,
        root: FilePath,
        dimensions: Option<(u64, u64)>,
        size: Seq<char>,
        after: AppState<I>,
    ) -> bool {
        let step = self.e2e.step;
        if step < 8 {
            exists|state: u64|
                state % 2 == 1 && after == #[trigger] self.opening_steps(step, state)
        } else if step == 8 {
            self.size_round_trip(after)
        } else if step < 14 {
            exists|state: u64|
                state % 2 == 1 && after == #[trigger] self.folder_steps(step, state)
        } else if step < 18 {
            exists|state: u64|
                state % 2 == 1 && after == #[trigger] self.turning_steps(step, state)
        } else if step < 25 {
            exists|state: u64|
                state % 2 == 1 && after == #[trigger] self.window_steps(step, state)
        } else if step == 25 {
            after == self.status_step(dimensions, size)
        } else if step == 27 {
            self.date_round_trip(after)
        } else if step < 33 {
            exists|state: u64|
                state % 2 == 1 && after == #[trigger] self.animation_steps(step, state)
        } else if step == 33 {
            after == self.sidebar_step(root)
        } else if step == 34 {
            after == self.prefs_step()
        } else {
            after == self
        }
    }

    /// What a step leaves to be done outside.
    pub open spec fn left_outside(self) -> Option<Outside> {
        let step = self.e2e.step;
        if step == 3 && self.show is Some {
            Some(Outside::Snapshot)
        } else if step == 9 {
            Some(Outside::CompareCells)
        } else if step == 11 {
            Some(Outside::CopyFile)
        } else if step == 12 {
            Some(Outside::RemoveCopy)
        } else if step == 20 {
            Some(Outside::FireMenu(1))
        } else if step == 22 {
            Some(Outside::FireMenu(0))
        } else if step == 26 {
            Some(Outside::CompareLabels)
        } else if step == 28 {
            Some(Outside::WriteAnimation)
        } else if step == 30 {
            Some(Outside::RemoveAnimation)
        } else if step == 32 {
            Some(Outside::ClickSidebar)
        } else if step > LAST_STEP {
            Some(Outside::Finish)
        } else {
            None
        }
    }

    /// Whether the app has what a step works on: enough files to select some.
    pub open spec fn ready_for_step(self) -> bool {
        self.e2e.step == 10 || self.e2e.step == 25 ==> self.grid.files.len() > 3
    }
}

fn two_indices(a: usize, b: usize) -> (indices: Vec<usize>)
    ensures
        indices@ == seq![a, b],
{
    let mut indices: Vec<usize> = Vec::new();
    indices.push(a);
    indices.push(b);
    assert(indices@ =~= seq![a, b]);
    indices
}

fn name_is(name: &Option<String>, wanted: &str) -> (same: bool)
    ensures
        same == (match *name {
            Some(n) => n@ == wanted@,
            None => false,
        }),
{
    match name {
        Some(n) => same_text(n.as_str(), wanted),
        None => false,
    }
}

fn opening_step<I>(app: &mut AppDelegate<I>, step: usize)
    requires
        old(app).well_formed(),
    ensures
        final(app).well_formed(),
        exists|state: u64|
            state % 2 == 1 && final(app)@ == #[trigger] old(app)@.opening_steps(step, state),
{
    let ghost start = app@;
    let ghost mut drawn: u64 = 1;
    match step {
        0 => {
            let enough = app.e2e_file_count() >= 3;
            check(app, enough, "scan found 3+ files");
            let ghost before = app@;
            app.start_slideshow(0, false);
            proof {
                drawn = choose|state: u64|
                    state % 2 == 1 && app@ == #[trigger] before.started(
                        paths_of(before.grid.files),
                        0,
                        false,
                        state,
                    );
            }
        },
        1 => {
            let active = app.e2e_show_active();
            let first = app.e2e_current_index() == Some(0usize);
            let shown = app.e2e_slide_has_image();
            check(app, active, "slideshow window active");
            check(app, first, "starts at index 0");
            check(app, shown, "first slide decoded and shown");
        },
        2 => {
            app.step_slideshow(1);
            let second = app.e2e_current_index() == Some(1usize);
            check(app, second, "arrow step to index 1");
        },
        3 => {
            let shown = app.e2e_slide_has_image();
            check(app, shown, "second slide shown");
        },
        4 => {
            app.set_auto_advance(Some(4));
        },
        6 => {
            let moved = match app.e2e_current_index() {
                Some(index) => index >= 2,
                None => false,
            };
            check(app, moved, "auto-advance moved past index 1");
            app.set_auto_advance(None);
            app.toggle_overlay();
        },
        7 => {
            let has_text = match app.e2e_overlay_text() {
                Some(text) => !text.as_str().is_empty(),
                None => false,
            };
            check(app, has_text, "overlay has text");
            app.end_slideshow();
        },
        _ => {},
    }
    assert(app@ == start.opening_steps(step, drawn));
}

fn folder_step<I>(app: &mut AppDelegate<I>, step: usize)
    requires
        old(app).well_formed(),
        step == 10 ==> old(app)@.grid.files.len() > 3,
    ensures
        final(app).well_formed(),
        exists|state: u64|
            state % 2 == 1 && final(app)@ == #[trigger] old(app)@.folder_steps(step, state),
{
    let ghost start = app@;
    let ghost mut drawn: u64 = 1;
    match step {
        10 => {
            app.e2e_select(&two_indices(1, 3));
            let ghost before = app@;
            app.e2e_start_from_selection();
            proof {
                drawn = choose|state: u64|
                    state % 2 == 1 && app@ == #[trigger] before.started(
                        before.grid.request().0,
                        before.grid.request().1,
                        false,
                        state,
                    );
            }
            let two = app.e2e_playlist_len() == Some(2usize);
            check(app, two, "selection of 2 plays exactly 2");
            app.end_slideshow();
        },
        12 => {
            let five = app.e2e_file_count() == 5;
            check(app, five, "watcher picked up the new file");
        },
        13 => {
            let four = app.e2e_file_count() == 4;
            check(app, four, "watcher removed the deleted file");
        },
        _ => {},
    }
    assert(app@ == start.folder_steps(step, drawn));
}

fn slide_rotation<I>(app: &AppDelegate<I>) -> (rotation: Option<i32>)
    ensures
        match rotation {
            Some(r) => app@.show is Some && r == app@.rotation(),
            None => app@.show is None,
        },
{
    match app.e2e_slide_view() {
        Some(view) => Some(view.state().rotation),
        None => None,
    }
}

fn turning_step<I>(app: &mut AppDelegate<I>, step: usize)
    requires
        old(app).well_formed(),
    ensures
        final(app).well_formed(),
        exists|state: u64|
            state % 2 == 1 && final(app)@ == #[trigger] old(app)@.turning_steps(step, state),
{
    let ghost start = app@;
    let ghost mut drawn: u64 = 1;
    match step {
        14 => {
            app.start_slideshow(0, false);
            proof {
                drawn = choose|state: u64|
                    state % 2 == 1 && app@ == #[trigger] start.started(
                        paths_of(start.grid.files),
                        0,
                        false,
                        state,
                    );
            }
        },
        15 => {
            if app.e2e_show_active() {
                app.change_slide(SlideChange::Turn(90));
                let turned = slide_rotation(app) == Some(90i32);
                check(app, turned, "rotate key turns 90");
            }
            app.step_slideshow(1);
        },
        16 => {
            if let Some(rotation) = slide_rotation(app) {
                check(app, rotation == 0, "next slide starts unrotated");
            }
            app.step_slideshow(-1);
        },
        17 => {
            if let Some(rotation) = slide_rotation(app) {
                check(app, rotation == 90, "rotation remembered per file");
            }
            app.end_slideshow();
        },
        _ => {},
    }
    assert(app@ == start.turning_steps(step, drawn));
}

fn window_step<I>(app: &mut AppDelegate<I>, step: usize)
    requires
        old(app).well_formed(),
    ensures
        final(app).well_formed(),
        exists|state: u64|
            state % 2 == 1 && final(app)@ == #[trigger] old(app)@.window_steps(step, state),
{
    let ghost start = app@;
    let ghost mut drawn: u64 = 1;
    let active = app.e2e_show_active();
    let windowed = app.e2e_show_is_windowed();
    let shown = app.e2e_slide_has_image();
    match step {
        18 => {
            check(app, !active, "fullscreen show closed");
            let ghost before = app@;
            app.start_slideshow(0, true);
            proof {
                drawn = choose|state: u64|
                    state % 2 == 1 && app@ == #[trigger] before.started(
                        paths_of(before.grid.files),
                        0,
                        true,
                        state,
                    );
            }
        },
        19 => {
            check(app, active, "windowed slideshow active");
            check(app, windowed == Some(true), "window has a title bar");
            check(app, shown, "windowed slide shown");
            app.end_slideshow();
        },
        20 => {
            check(app, !active, "windowed show closed");
        },
        21 => {
            check(app, active, "menu started windowed show");
            check(app, windowed == Some(true), "menu picked windowed mode");
            app.end_slideshow();
        },
        23 => {
            check(app, active, "menu started fullscreen show");
            check(app, windowed == Some(false), "menu picked fullscreen mode");
            app.end_slideshow();
        },
        24 => {
            check(app, !active, "menu-started show closed");
        },
        _ => {},
    }
    assert(app@ == start.window_steps(step, drawn));
}

fn check_status<I>(app: &mut AppDelegate<I>, dimensions: Option<(u64, u64)>, size: &str)
    requires
        old(app).well_formed(),
        old(app)@.grid.files.len() > 3,
    ensures
        final(app).well_formed(),
        final(app)@ == old(app)@.status_step(dimensions, size@),
{
    let none: Vec<usize> = Vec::new();
    assert(none@ =~= Seq::empty());
    app.e2e_select(&none);
    let text = app.e2e_status_text(dimensions, size);
    check(app, contains(text.as_str(), "4 images"), "status shows the image count");
    app.e2e_select(&two_indices(1, 3));
    let text = app.e2e_status_text(dimensions, size);
    check(app, contains(text.as_str(), "2 of 4 selected"), "status shows the selection");
    let mut one: Vec<usize> = Vec::new();
    one.push(1);
    assert(one@ =~= seq![1usize]);
    app.e2e_select(&one);
    let text = app.e2e_status_text(dimensions, size);
    let described = contains(text.as_str(), "×") && contains(text.as_str(), "B");
    check(app, described, "single selection shows dimensions and size");
    app.e2e_select(&none);
}

fn animation_step<I>(app: &mut AppDelegate<I>, step: usize)
    requires
        old(app).well_formed(),
    ensures
        final(app).well_formed(),
        exists|state: u64|
            state % 2 == 1 && final(app)@ == #[trigger] old(app)@.animation_steps(step, state),
{
    let ghost start = app@;
    let ghost mut drawn: u64 = 1;
    let count = app.e2e_file_count();
    match step {
        29 => {
            check(app, count == 5, "watcher picked up the gif");
            let ghost before = app@;
            // Name order puts the animated image last.
            app.start_slideshow(4, false);
            proof {
                drawn = choose|state: u64|
                    state % 2 == 1 && app@ == #[trigger] before.started(
                        paths_of(before.grid.files),
                        4,
                        false,
                        state,
                    );
            }
        },
        30 => {
            let active = app.e2e_show_active();
            let animating = app.e2e_slide_animating();
            check(app, active, "gif slideshow active");
            check(app, animating, "gif frames are playing");
            app.end_slideshow();
        },
        31 => {
            check(app, count == 4, "gif removed after the test");
        },
        _ => {},
    }
    assert(app@ == start.animation_steps(step, drawn));
}

fn check_hiding<I>(app: &mut AppDelegate<I>)
    requires
        old(app).well_formed(),
    ensures
        final(app).well_formed(),
        final(app)@ == old(app)@.sidebar_hides(),
{
    let rescanned = app.e2e_file_count() == 4;
    check(app, rescanned, "sidebar click rescanned the folder");
    app.e2e_toggle_sidebar();
    let hidden = app.e2e_sidebar_hidden();
    check(app, hidden, "sidebar collapses");
    app.e2e_toggle_sidebar();
    let hidden = app.e2e_sidebar_hidden();
    check(app, !hidden, "sidebar shows again");
}

fn check_joining<I>(app: &mut AppDelegate<I>, root: &FilePath)
    requires
        old(app).well_formed(),
    ensures
        final(app).well_formed(),
        final(app)@ == old(app)@.favorite_joins(*root),
        final(app)@.sidebar == old(app)@.sidebar.favorite_added(*root),
{
    let before = app.e2e_favorite_count();
    app.e2e_add_favorite(root);
    let count = app.e2e_favorite_count();
    let joined = count > 0 && count - 1 == before;
    check(app, joined, "folder joins the favorites");
}

fn check_going<I>(app: &mut AppDelegate<I>, root: &FilePath, before: usize)
    requires
        old(app).well_formed(),
    ensures
        final(app).well_formed(),
        final(app)@ == old(app)@.favorite_goes(*root, before as nat),
{
    app.e2e_remove_favorite(root);
    let left = app.e2e_favorite_count() == before;
    check(app, left, "favorite goes away again");
}

fn check_sidebar<I>(app: &mut AppDelegate<I>, root: &FilePath)
    requires
        old(app).well_formed(),
    ensures
        final(app).well_formed(),
        final(app)@ == old(app)@.sidebar_step(*root),
{
    let before = app.e2e_favorite_count();
    check_hiding(app);
    assert(app@.sidebar == old(app)@.sidebar);
    check_joining(app, root);
    check_going(app, root, before);
}

fn check_prefs<I>(app: &mut AppDelegate<I>)
    requires
        old(app).well_formed(),
    ensures
        final(app).well_formed(),
        final(app)@ == old(app)@.prefs_step(),
{
    app.show_prefs();
    let visible = app.e2e_prefs_visible();
    check(app, visible, "prefs window opens");
    app.e2e_set_default_windowed(true);
    let windowed = app.default_windowed();
    check(app, windowed, "default slideshow mode switches to windowed");
    app.e2e_set_default_windowed(false);
    app.e2e_close_prefs();
    let visible = app.e2e_prefs_visible();
    check(app, !visible, "prefs window closes");
}

fn size_sort_step<I>(app: &mut AppDelegate<I>)
    requires
        old(app).well_formed(),
    ensures
        final(app).well_formed(),
        old(app)@.size_round_trip(final(app)@),
{
    let active = app.e2e_show_active();
    check(app, !active, "slideshow closed");
    app.e2e_sort(SortOrder::Size, true);
    let ghost by_size = app@;
    let biggest = name_is(&app.e2e_first_file(), "img10.heic");
    check(app, biggest, "size-descending puts biggest first");
    app.e2e_sort(SortOrder::Name, false);
    let ghost by_name = app@;
    let first = name_is(&app.e2e_first_file(), "apple.heic");
    check(app, first, "name order restored");
    assert(old(app)@.to_size().sorts_to(by_size));
    assert(by_size.from_size().sorts_to(by_name));
}

fn date_sort_step<I>(app: &mut AppDelegate<I>)
    requires
        old(app).well_formed(),
    ensures
        final(app).well_formed(),
        old(app)@.date_round_trip(final(app)@),
{
    app.e2e_sort(SortOrder::ExifDate, true);
    let ghost by_date = app@;
    let all = app.e2e_file_count() == 4;
    check(app, all, "EXIF date sort keeps all files");
    app.e2e_sort(SortOrder::Added, true);
    let ghost by_added = app@;
    let all = app.e2e_file_count() == 4;
    check(app, all, "date added sort keeps all files");
    app.e2e_sort(SortOrder::Name, false);
    let ghost by_name = app@;
    let first = name_is(&app.e2e_first_file(), "apple.heic");
    check(app, first, "name order restored after date sorts");
    assert(old(app)@.ordering(SortOrder::ExifDate, true).sorts_to(by_date));
    assert(by_date.to_added().sorts_to(by_added));
    assert(by_added.from_added().sorts_to(by_name));
}

/// Whether the app has what the next step works on.
pub fn ready<I>(app: &AppDelegate<I>) -> (ready: bool)
    ensures
        ready == app@.ready_for_step(),
{
    let step = app.e2e.step;
    if step == 10 || step == 25 {
        app.e2e_file_count() > 3
    } else {
        true
    }
}

/// Run one step, and say what is left to be done outside before the next
/// one. `root` is the folder that the harness runs on; `dimensions` and `size`
/// describe its second file.
pub fn run_step<I>(
    app: &mut AppDelegate<I>,
    root: &FilePath,
    dimensions: Option<(u64, u64)>,
    size: &str,
) -> (outside: Option<Outside>)
    requires
        old(app).well_formed(),
        old(app)@.ready_for_step(),
    ensures
        final(app).well_formed(),
        old(app)@.harness_step(*root, dimensions, size@, final(app)@),
        outside == old(app)@.left_outside(),
{
    let step = app.e2e.step;
    let active = app.e2e_show_active();
    if step < 8 {
        opening_step(app, step);
    } else if step == 8 {
        size_sort_step(app);
    } else if step < 14 {
        folder_step(app, step);
    } else if step < 18 {
        turning_step(app, step);
    } else if step < 25 {
        window_step(app, step);
    } else if step == 25 {
        check_status(app, dimensions, size);
    } else if step == 27 {
        date_sort_step(app);
    } else if step < 33 {
        animation_step(app, step);
    } else if step == 33 {
        check_sidebar(app, root);
    } else if step == 34 {
        check_prefs(app);
    }
    match step {
        3 => if active {
            Some(Outside::Snapshot)
        } else {
            None
        },
        9 => Some(Outside::CompareCells),
        11 => Some(Outside::CopyFile),
        12 => Some(Outside::RemoveCopy),
        20 => Some(Outside::FireMenu(1)),
        22 => Some(Outside::FireMenu(0)),
        26 => Some(Outside::CompareLabels),
        28 => Some(Outside::WriteAnimation),
        30 => Some(Outside::RemoveAnimation),
        32 => Some(Outside::ClickSidebar),
        _ => if step > LAST_STEP {
            Some(Outside::Finish)
        } else {
            None
        },
    }
}

/// What is claimed of something done outside.
pub open spec fn outside_claim(outside: Outside) -> Option<&'static str> {
    match outside {
        Outside::Snapshot => Some("slide snapshot written"),
        Outside::CompareCells => Some("bigger cells grow the grid"),
        Outside::CopyFile => Some("test file copied"),
        Outside::RemoveCopy => None,
        Outside::FireMenu(item) => if item == 1 {
            Some("menu item 'Start slideshow in window' fired")
        } else {
            Some("menu item 'Start slideshow' fired")
        },
        Outside::CompareLabels => Some("labels add row height"),
        Outside::WriteAnimation => Some("animated gif written"),
        Outside::RemoveAnimation => None,
        Outside::ClickSidebar => Some("sidebar highlights the folder it opened"),
        Outside::Finish => None,
    }
}

/// Note how something done outside went.
pub fn report_outside<I>(app: &mut AppDelegate<I>, outside: Outside, ok: bool)
    requires
        old(app).well_formed(),
    ensures
        final(app).well_formed(),
        final(app)@ == (match outside_claim(outside) {
            Some(claim) => old(app)@.checked(ok, claim),
            None => old(app)@,
        }),
{
    let claim: Option<&'static str> = match outside {
        Outside::Snapshot => Some("slide snapshot written"),
        Outside::CompareCells => Some("bigger cells grow the grid"),
        Outside::CopyFile => Some("test file copied"),
        Outside::RemoveCopy => None,
        Outside::FireMenu(item) => if item == 1 {
            Some("menu item 'Start slideshow in window' fired")
        } else {
            Some("menu item 'Start slideshow' fired")
        },
        Outside::CompareLabels => Some("labels add row height"),
        Outside::WriteAnimation => Some("animated gif written"),
        Outside::RemoveAnimation => None,
        Outside::ClickSidebar => Some("sidebar highlights the folder it opened"),
        Outside::Finish => None,
    };
    if let Some(what) = claim {
        check(app, ok, what);
    }
}

/// Whether the sidebar highlights a folder, by the end of its path.
pub fn sidebar_shows<I>(app: &AppDelegate<I>, root: &FilePath) -> (shows: bool)
    ensures
        shows == (match file_name(root@) {
            Some(name) => is_ending(
                match app@.sidebar.openable(app@.slot) {
                    Some(path) => path,
                    None => Seq::empty(),
                },
                name,
            ),
            None => false,
        }),
{
    match root.file_name() {
        Some(name) => ends_with(app.e2e_sidebar_path().as_str(), name.as_str()),
        None => false,
    }
}

/// Go on to the next step.
pub fn next_step<I>(app: &mut AppDelegate<I>)
    requires
        old(app).well_formed(),
        old(app)@.e2e.step < usize::MAX,
    ensures
        final(app).well_formed(),
        final(app)@ == (AppState {
            e2e: HarnessState { step: (old(app)@.e2e.step + 1) as usize, ..old(app)@.e2e },
            ..old(app)@
        }),
{
    app.e2e.step = app.e2e.step + 1;
}

} // verus!
