//! The browse window of the app: scanning, sorting, the status bar, the
//! trash, the preferences, and the events that the engine reports.

use vstd::prelude::*;

use crate::delegate::{effect_if, AppDelegate, AppState, Effect, Status, StatusState};
use crate::grid::{filter_of, paths_of, GridState};
use crate::order::{all_comparable, is_sorted, keeps_equals, FileInfo, SortOrder};
use crate::path::{components, find_path, first_same_is_first, lists, FilePath};
use crate::playlist::PlaylistState;
use crate::show::{name_text, ShowState};
use crate::slideshow::{Fit, SlideChange, SlideKey, ACTUAL_PIXELS};
use crate::text::{decimal, push_decimal};

verus! {

/// The order behind an item of the sort menu.
pub open spec fn menu_order(tag: int) -> SortOrder {
    if tag == 2 {
        SortOrder::Modified
    } else if tag == 3 {
        SortOrder::Size
    } else if tag == 4 {
        SortOrder::Path
    } else if tag == 5 {
        SortOrder::ExifDate
    } else if tag == 6 {
        SortOrder::Added
    } else {
        SortOrder::Name
    }
}

/// The item of the sort menu for an order.
pub open spec fn order_tag(order: SortOrder) -> int {
    match order {
        SortOrder::Name => 1,
        SortOrder::Modified => 2,
        SortOrder::Size => 3,
        SortOrder::Path => 4,
        SortOrder::ExifDate => 5,
        SortOrder::Added => 6,
    }
}

/// Whether an order sorts by a date. Dates start newest first.
pub open spec fn by_date(order: SortOrder) -> bool {
    order == SortOrder::Modified || order == SortOrder::ExifDate || order == SortOrder::Added
}

/// Whether sorting a grid may give another. Nothing happens where two files
/// cannot be compared.
pub open spec fn sorts_into<I>(
    before: GridState<I>,
    after: GridState<I>,
    order: SortOrder,
    descending: bool,
) -> bool {
    if all_comparable(before.all, order) {
        &&& is_sorted(after.all, order, descending)
        &&& after.all.to_multiset() == before.all.to_multiset()
        &&& after.all.len() == before.all.len()
        &&& keeps_equals(before.all, after.all, order)
        &&& after == (GridState { all: after.all, ..before }).rebuilt()
    } else {
        after == before
    }
}

/// The settings that outlive the app.
#[derive(Clone, Copy)]
pub struct Prefs {
    pub looping: bool,
    pub shuffling: bool,
    pub windowed: bool,
    /// The pace in tenths of a second; nothing above zero is no pace.
    pub tenths: i64,
    pub labels: bool,
}

/// The pace that a number of tenths stands for.
pub open spec fn pace_of(tenths: i64) -> Option<u64> {
    if tenths > 0 {
        Some(tenths as u64)
    } else {
        None
    }
}

/// The tenths that a pace is stored as, as far as they can be counted.
pub open spec fn tenths_of(pace: Option<u64>) -> i64 {
    match pace {
        Some(tenths) => if tenths <= i64::MAX {
            tenths as i64
        } else {
            i64::MAX
        },
        None => 0,
    }
}

/// The sizes of files, added up.
pub open spec fn size_sum(files: Seq<FileInfo>) -> nat
    decreases files.len(),
{
    if files.len() == 0 {
        0
    } else {
        size_sum(files.drop_last()) + files.last().size as nat
    }
}

/// The dimensions of an image, where they are known.
pub open spec fn dimension_text(dimensions: Option<(u64, u64)>) -> Seq<char> {
    match dimensions {
        Some((w, h)) => " — "@ + decimal(w as nat) + "×"@ + decimal(h as nat),
        None => Seq::empty(),
    }
}

/// The count of images, plus name, dimensions and size of the selection.
pub open spec fn status_line<I>(
    grid: GridState<I>,
    dimensions: Option<(u64, u64)>,
    size: Seq<char>,
) -> Seq<char> {
    let picked = grid.picked_files();
    let total = decimal(grid.files.len());
    if picked.len() == 0 {
        total + " images"@
    } else if picked.len() == 1 {
        name_text(Some(picked[0].path)) + dimension_text(dimensions) + " — "@ + size + " · "@
            + total + " images"@
    } else {
        decimal(picked.len()) + " of "@ + total + " selected — "@ + size
    }
}

/// Names in a row, with commas between them.
pub open spec fn joined_names(paths: Seq<FilePath>) -> Seq<char>
    decreases paths.len(),
{
    if paths.len() == 0 {
        Seq::empty()
    } else if paths.len() == 1 {
        name_text(Some(paths[0]))
    } else {
        joined_names(paths.drop_last()) + ", "@ + name_text(Some(paths.last()))
    }
}

/// How many files could not be moved.
pub open spec fn failure_text(failed: nat, total: nat) -> Seq<char> {
    decimal(failed) + " of "@ + decimal(total) + " could not be moved to trash"@
}

/// What the status bar and the slide say after a delete. The line is the only
/// record of what went, so it names files, not just a count.
pub open spec fn trash_text(moved: Seq<FilePath>, failed: nat) -> Seq<char> {
    let total = moved.len() + failed;
    if moved.len() == 0 {
        failure_text(failed, total)
    } else {
        let named = if moved.len() > 3 {
            moved.take(3)
        } else {
            moved
        };
        let went = "Moved to trash: "@ + joined_names(named) + (if moved.len() > 3 {
            " and "@ + decimal((moved.len() - 3) as nat) + " more"@
        } else {
            Seq::empty()
        });
        if failed == 0 {
            went
        } else {
            went + " — "@ + failure_text(failed, total)
        }
    }
}

/// The paths that are none of `failed`.
pub open spec fn not_among(paths: Seq<FilePath>, failed: Seq<FilePath>) -> Seq<FilePath> {
    paths.filter(|p: FilePath| !lists(failed, components(p@)))
}

impl<I> AppState<I> {
    /// The app once a folder is scanned. A folder the user never picked is
    /// not remembered.
    pub open spec fn scanning(self, root: FilePath, deep: bool, remember: bool) -> AppState<I> {
        (AppState {
            grid: GridState::blank(self.grid.labels),
            status: StatusState::Line,
            scan: Some((root, deep)),
            ..self
        }).then_do(seq![Effect::Reveal(root)]).then_do(
            effect_if::<I>(remember && !self.harness, Effect::SaveFolder(root)),
        ).then_do(seq![Effect::Scan(root, deep)])
    }

    /// The app once an order was picked from the menu. Picking the current
    /// order again reverses it; a new order starts ascending, but dates start
    /// newest first.
    pub open spec fn sort_picked(self, order: SortOrder) -> AppState<I> {
        AppState {
            sort: order,
            descending: if self.sort == order {
                !self.descending
            } else {
                by_date(order)
            },
            ..self
        }
    }

    /// Whether the app may become another by sorting the grid.
    pub open spec fn sorts_to(self, after: AppState<I>) -> bool {
        &&& sorts_into(self.grid, after.grid, self.sort, self.descending)
        &&& after == (AppState {
            grid: after.grid,
            status: if all_comparable(self.grid.all, self.sort) {
                StatusState::Line
            } else {
                self.status
            },
            ..self
        })
    }

    /// The app with its sidebar hidden or shown again.
    pub open spec fn sidebar_toggled(self) -> AppState<I> {
        (AppState { sidebar_hidden: !self.sidebar_hidden, ..self }).then_do(
            seq![Effect::ToggleSidebar],
        )
    }

    /// The app with its preferences in front.
    pub open spec fn prefs_opened(self) -> AppState<I> {
        (AppState { prefs_open: true, ..self }).then_do(seq![Effect::OpenPrefs])
    }

    /// The app without its preferences.
    pub open spec fn prefs_closed(self) -> AppState<I> {
        (AppState { prefs_open: false, ..self }).then_do(
            effect_if::<I>(self.prefs_open, Effect::ClosePrefs),
        )
    }

    /// What the status bar says.
    pub open spec fn status_text(
        self,
        dimensions: Option<(u64, u64)>,
        size: Seq<char>,
    ) -> Seq<char> {
        match self.status {
            StatusState::Blank => Seq::empty(),
            StatusState::Line => status_line(self.grid, dimensions, size),
            StatusState::Message(text) => text,
        }
    }

    /// What the trash works on: the slide on screen, or the selection.
    pub open spec fn trash_targets(self) -> Seq<FilePath> {
        match self.show {
            Some(show) if show.playlist.current() is Some => seq![show.playlist.current()->0],
            _ => paths_of(self.grid.picked_files()),
        }
    }

    /// The app with its whole folder in the grid.
    pub open spec fn unfiltered(self) -> AppState<I> {
        if self.grid.filter.len() > 0 {
            AppState {
                grid: (GridState { filter: Seq::empty(), ..self.grid }).rebuilt(),
                status: StatusState::Line,
                ..self
            }
        } else {
            self
        }
    }

    /// The app with a line in the status bar, and over the slide for a
    /// moment.
    pub open spec fn told(self, text: Seq<char>) -> AppState<I> {
        let base = AppState { status: StatusState::Message(text), ..self };
        match self.show {
            Some(show) => base.with_show(ShowState { flash: Some(text), ..show }).then_do(
                seq![Effect::StartFlash],
            ),
            None => base,
        }
    }

    /// The app once some files went to the trash and others could not.
    pub open spec fn trashed(self, paths: Seq<FilePath>, failed: Seq<FilePath>) -> AppState<I> {
        if paths.len() == 0 {
            self
        } else {
            let moved = not_among(paths, failed);
            (AppState {
                grid: self.grid.advanced(moved),
                status: StatusState::Line,
                ..self
            }).dropped(moved).told(trash_text(moved, failed.len()))
        }
    }

    /// The app once something was done to the slide on screen.
    pub open spec fn touched(self, change: SlideChange) -> AppState<I> {
        match self.show {
            Some(show) => self.with_show(show.touched(change)),
            None => self,
        }
    }

    /// The settings of the app.
    pub open spec fn settings(self) -> Prefs {
        Prefs {
            looping: self.looping,
            shuffling: self.shuffling,
            windowed: self.windowed,
            tenths: tenths_of(self.pace),
            labels: self.grid.labels,
        }
    }

    /// The app with other settings.
    pub open spec fn with_prefs(self, prefs: Prefs) -> AppState<I> {
        AppState {
            looping: prefs.looping || self.looping,
            shuffling: prefs.shuffling || self.shuffling,
            windowed: prefs.windowed,
            pace: pace_of(prefs.tenths),
            grid: if prefs.labels {
                GridState { labels: true, ..self.grid }
            } else {
                self.grid
            },
            ..self
        }
    }

    /// The app after a key press in the slideshow.
    pub open spec fn keyed(self, key: SlideKey, fit: Fit) -> AppState<I> {
        match key {
            SlideKey::End => self.ended(),
            SlideKey::Next => self.stepped(1),
            SlideKey::Previous => self.stepped(-1),
            SlideKey::NextOriginal => self.stepped_original(1),
            SlideKey::PreviousOriginal => self.stepped_original(-1),
            SlideKey::First => self.jumped(false),
            SlideKey::Last => self.jumped(true),
            SlideKey::Space => self.spaced(),
            SlideKey::TurnRight => self.touched(SlideChange::Turn(90)),
            SlideKey::TurnLeft => self.touched(SlideChange::Turn((-90) as i32)),
            SlideKey::Flip => self.touched(SlideChange::Flip),
            SlideKey::Overlay => AppState { overlay: !self.overlay, ..self },
            SlideKey::Stop => self.paced(None),
            SlideKey::Pace(tenths) => self.paced(Some(tenths)),
            SlideKey::ZoomIn => self.touched(SlideChange::ZoomIn(fit)),
            SlideKey::ZoomOut => self.touched(SlideChange::ZoomOut(fit)),
            SlideKey::ActualPixels => self.touched(SlideChange::Zoom(Some(ACTUAL_PIXELS))),
            SlideKey::Reset => self.touched(SlideChange::Reset),
            SlideKey::Unknown => self,
        }
    }
}

impl<I> AppDelegate<I> {
    pub fn scan_root(&mut self, root: FilePath, recursive: bool)
        requires
            old(self).well_formed(),
        ensures
            final(self).well_formed(),
            final(self)@ == old(self)@.scanning(root, recursive, true),
    {
        self.scan_root_inner(root, recursive, true);
    }

    /// `remember` is false only for the launch fallback: a folder the user
    /// never picked must not overwrite the saved one.
    pub fn scan_root_inner(&mut self, root: FilePath, recursive: bool, remember: bool)
        requires
            old(self).well_formed(),
        ensures
            final(self).well_formed(),
            final(self)@ == old(self)@.scanning(root, recursive, remember),
    {
        let ghost start = self@;
        self.grid.reset();
        self.status = Status::Line;
        self.effects.push(Effect::Reveal(root.clone()));
        if remember && !self.harness {
            self.effects.push(Effect::SaveFolder(root.clone()));
        }
        self.scan = Some((root.clone(), recursive));
        self.effects.push(Effect::Scan(root, recursive));
        assert(self.effects@ =~= start.scanning(root, recursive, remember).effects);
        assert(self@ =~= start.scanning(root, recursive, remember));
    }

    /// The folder the grid shows and how deep, so a repeat of the same
    /// request skips the scan.
    pub fn current_scan(&self) -> (scan: Option<(FilePath, bool)>)
        ensures
            scan == self@.scan,
    {
        match &self.scan {
            Some((root, deep)) => Some((root.clone(), *deep)),
            None => None,
        }
    }

    pub fn request_thumb(&mut self, path: FilePath)
        requires
            old(self).well_formed(),
        ensures
            final(self).well_formed(),
            final(self)@ == old(self)@.then_do(seq![Effect::RequestThumb(path)]),
    {
        self.effects.push(Effect::RequestThumb(path));
        assert(self.effects@ =~= old(self)@.effects + seq![Effect::RequestThumb(path)]);
    }

    /// Sort the grid by the current order.
    pub fn apply_sort(&mut self)
        requires
            old(self).well_formed(),
        ensures
            final(self).well_formed(),
            old(self)@.sorts_to(final(self)@),
    {
        if self.grid.resort(self.sort, self.descending) {
            self.status = Status::Line;
        }
    }

    /// An item of the sort menu was picked.
    pub fn set_sort_menu(&mut self, tag: i64)
        requires
            old(self).well_formed(),
        ensures
            final(self).well_formed(),
            old(self)@.sort_picked(menu_order(tag as int)).sorts_to(final(self)@),
    {
        let order = match tag {
            2 => SortOrder::Modified,
            3 => SortOrder::Size,
            4 => SortOrder::Path,
            5 => SortOrder::ExifDate,
            6 => SortOrder::Added,
            _ => SortOrder::Name,
        };
        if self.sort == order {
            self.descending = !self.descending;
        } else {
            self.sort = order;
            self.descending = match order {
                SortOrder::Modified | SortOrder::ExifDate | SortOrder::Added => true,
                _ => false,
            };
        }
        assert(self@ =~= old(self)@.sort_picked(menu_order(tag as int)));
        self.apply_sort();
    }

    /// The item of the sort menu to mark.
    pub fn sort_tag(&self) -> (tag: i64)
        ensures
            tag == order_tag(self@.sort),
    {
        match self.sort {
            SortOrder::Name => 1,
            SortOrder::Modified => 2,
            SortOrder::Size => 3,
            SortOrder::Path => 4,
            SortOrder::ExifDate => 5,
            SortOrder::Added => 6,
        }
    }

    /// Whether the grid shows the order that scans come in.
    pub fn sort_is_default(&self) -> (default: bool)
        ensures
            default == (self@.sort == SortOrder::Name && !self@.descending),
    {
        self.sort == SortOrder::Name && !self.descending
    }

    /// The settings to save.
    pub fn prefs(&self) -> (prefs: Prefs)
        ensures
            prefs == self@.settings(),
    {
        Prefs {
            looping: self.looping,
            shuffling: self.shuffling,
            windowed: self.windowed,
            tenths: match self.pace {
                Some(tenths) => if tenths <= i64::MAX as u64 {
                    tenths as i64
                } else {
                    i64::MAX
                },
                None => 0,
            },
            labels: self.grid.labels_visible(),
        }
    }

    /// Apply saved settings at launch. The harness starts from a known state
    /// instead.
    pub fn load_prefs(&mut self, prefs: Prefs)
        requires
            old(self).well_formed(),
        ensures
            final(self).well_formed(),
            final(self)@ == (if old(self)@.harness {
                old(self)@
            } else {
                old(self)@.with_prefs(prefs)
            }),
    {
        if self.harness {
            return;
        }
        let ghost start = self@;
        if prefs.looping {
            self.looping = true;
        }
        if prefs.shuffling {
            self.shuffling = true;
        }
        self.windowed = prefs.windowed;
        self.pace = if prefs.tenths > 0 {
            Some(prefs.tenths as u64)
        } else {
            None
        };
        if prefs.labels {
            self.grid.set_labels(true);
        }
        assert(self@ =~= start.with_prefs(prefs));
    }

    /// A pace was picked, by its tag: tenths of a second, nothing above zero
    /// for off.
    pub fn set_auto_advance_menu(&mut self, tag: i64)
        requires
            old(self).well_formed(),
        ensures
            final(self).well_formed(),
            final(self)@ == old(self)@.paced(pace_of(tag)),
    {
        let pace = if tag > 0 {
            Some(tag as u64)
        } else {
            None
        };
        self.set_auto_advance(pace);
    }

    pub fn default_windowed(&self) -> (windowed: bool)
        ensures
            windowed == self@.windowed,
    {
        self.windowed
    }

    pub fn show_prefs(&mut self)
        requires
            old(self).well_formed(),
        ensures
            final(self).well_formed(),
            final(self)@ == old(self)@.prefs_opened(),
    {
        self.prefs_open = true;
        self.effects.push(Effect::OpenPrefs);
        assert(self.effects@ =~= old(self)@.effects + seq![Effect::OpenPrefs]);
    }

    /// Whether a menu item is enabled. Only the trash needs a rule: it works
    /// on the slideshow's slide or the grid's selection, so with neither, and
    /// with the preferences window in front, the item goes grey.
    pub fn menu_item_enabled(&self, trash: bool, prefs_in_front: bool) -> (enabled: bool)
        requires
            self.well_formed(),
        ensures
            enabled == (!trash || ((self@.show is Some || self@.grid.picked_files().len() > 0)
                && !prefs_in_front)),
    {
        if !trash {
            return true;
        }
        (self.show.is_some() || self.grid.selected_paths().len() > 0) && !prefs_in_front
    }

    /// What to move to the trash: the slideshow's current slide, or the
    /// grid's selection.
    pub fn trash_selection(&self) -> (paths: Vec<FilePath>)
        requires
            self.well_formed(),
        ensures
            paths@ == self@.trash_targets(),
    {
        if let Some(show) = &self.show {
            if let Some(current) = show.current() {
                let mut paths: Vec<FilePath> = Vec::new();
                paths.push(current.clone());
                assert(paths@ =~= self@.trash_targets());
                return paths;
            }
        }
        self.grid.selected_paths()
    }

    /// Some files went to the trash, and others could not. The app's delete
    /// is the authority: the rows go now.
    pub fn after_trash(&mut self, paths: &Vec<FilePath>, failed: &Vec<FilePath>)
        requires
            old(self).well_formed(),
            paths@.len() + failed@.len() <= usize::MAX,
        ensures
            final(self).well_formed(),
            final(self)@ == old(self)@.trashed(paths@, failed@),
    {
        if paths.len() == 0 {
            return;
        }
        let moved = remaining(paths, failed);
        self.drop_rows(&moved);
        self.drop_from_slideshow(&moved);
        let message = trash_message(&moved, failed.len());
        self.tell(message);
    }

    /// Drop rows that the app itself removed, and select what follows them.
    fn drop_rows(&mut self, moved: &Vec<FilePath>)
        requires
            old(self).well_formed(),
        ensures
            final(self).well_formed(),
            final(self)@ == (AppState {
                grid: old(self)@.grid.advanced(moved@),
                status: StatusState::Line,
                ..old(self)@
            }),
    {
        self.grid.remove_and_advance(moved);
        self.status = Status::Line;
    }

    /// Put a line in the status bar, and over the slide for a moment.
    fn tell(&mut self, text: String)
        requires
            old(self).well_formed(),
        ensures
            final(self).well_formed(),
            final(self)@ == old(self)@.told(text@),
    {
        let ghost start = self@;
        if let Some(mut show) = self.show.take() {
            show.set_flash(text.clone());
            self.show = Some(show);
            self.effects.push(Effect::StartFlash);
        }
        self.status = Status::Message(text);
        assert(self.effects@ =~= start.told(text@).effects);
        assert(self@ =~= start.told(text@));
    }

    /// The moment of a flash is over.
    pub fn clear_flash(&mut self)
        requires
            old(self).well_formed(),
        ensures
            final(self).well_formed(),
            final(self)@ == (match old(self)@.show {
                Some(show) => old(self)@.with_show(ShowState { flash: None, ..show }),
                None => old(self)@,
            }),
    {
        if let Some(mut show) = self.show.take() {
            show.clear_flash();
            self.show = Some(show);
        }
    }

    /// Whether the line over the slide is visible: a flash is, even when the
    /// overlay is off.
    pub fn overlay_visible(&self) -> (visible: bool)
        ensures
            visible == (match self@.show {
                Some(show) => self@.overlay || show.flash is Some,
                None => false,
            }),
    {
        match &self.show {
            Some(show) => self.overlay || show.has_flash(),
            None => false,
        }
    }

    /// Escape in the grid: it shows the whole folder again.
    pub fn escape_pressed(&mut self)
        requires
            old(self).well_formed(),
        ensures
            final(self).well_formed(),
            final(self)@ == old(self)@.unfiltered(),
    {
        if self.grid.filtering() {
            proof {
                reveal_strlit("");
                assert(filter_of(""@) =~= Seq::empty());
            }
            self.grid.set_filter("");
            self.status = Status::Line;
        }
    }

    /// The selection or the file list changed: the status bar describes it.
    pub fn selection_changed(&mut self)
        requires
            old(self).well_formed(),
        ensures
            final(self).well_formed(),
            final(self)@ == (AppState { status: StatusState::Line, ..old(self)@ }),
    {
        self.status = Status::Line;
    }

    /// The size of the selection, where it can be counted.
    pub fn selected_bytes(&self) -> (bytes: Option<u64>)
        requires
            self.well_formed(),
        ensures
            match bytes {
                Some(b) => b == size_sum(self@.grid.picked_files()),
                None => size_sum(self@.grid.picked_files()) > u64::MAX,
            },
    {
        let (_, picked) = self.grid.selection_info();
        let mut sum: u128 = 0;
        let mut i: usize = 0;
        assert(picked@.take(0) =~= Seq::empty());
        while i < picked.len()
            invariant
                i <= picked.len(),
                sum == size_sum(picked@.take(i as int)),
                sum <= i * 0xffff_ffff_ffff_ffff,
            decreases picked.len() - i,
        {
            assert(picked@.take(i + 1).drop_last() =~= picked@.take(i as int));
            assert(sum + 0xffff_ffff_ffff_ffff <= u128::MAX) by (nonlinear_arith)
                requires
                    sum <= i * 0xffff_ffff_ffff_ffff,
                    i < 0x1_0000_0000_0000_0000,
            ;
            sum = sum + picked[i].size as u128;
            i += 1;
        }
        assert(picked@.take(i as int) =~= picked@);
        if sum <= u64::MAX as u128 {
            Some(sum as u64)
        } else {
            None
        }
    }

    /// What the status bar says, given the dimensions of a single selected
    /// image and the size of the selection in words.
    pub fn status_text(&self, dimensions: Option<(u64, u64)>, size: &str) -> (text: String)
        requires
            self.well_formed(),
        ensures
            text@ == self@.status_text(dimensions, size@),
    {
        match &self.status {
            Status::Blank => {
                let text = String::new();
                assert(text@ =~= Seq::empty());
                text
            },
            Status::Message(text) => text.clone(),
            Status::Line => self.selection_line(dimensions, size),
        }
    }

    fn selection_line(&self, dimensions: Option<(u64, u64)>, size: &str) -> (text: String)
        requires
            self.well_formed(),
        ensures
            text@ == status_line(self@.grid, dimensions, size@),
    {
        let (total, picked) = self.grid.selection_info();
        let mut text = String::new();
        if picked.len() == 0 {
            push_decimal(&mut text, total as u64);
            text.append(" images");
            assert(text@ =~= decimal(total as nat) + " images"@);
        } else if picked.len() == 1 {
            text.append(display_name(&picked[0].path).as_str());
            let ghost name = text@;
            assert(name =~= name_text(Some(picked@[0].path)));
            if let Some((w, h)) = dimensions {
                text.append(" — ");
                push_decimal(&mut text, w);
                text.append("×");
                push_decimal(&mut text, h);
            }
            let ghost sized = text@;
            assert(sized =~= name + dimension_text(dimensions));
            text.append(" — ");
            text.append(size);
            text.append(" · ");
            push_decimal(&mut text, total as u64);
            text.append(" images");
            assert(text@ =~= sized + " — "@ + size@ + " · "@ + decimal(total as nat) + " images"@);
        } else {
            push_decimal(&mut text, picked.len() as u64);
            text.append(" of ");
            push_decimal(&mut text, total as u64);
            text.append(" selected — ");
            text.append(size);
            assert(text@ =~= decimal(picked@.len()) + " of "@ + decimal(total as nat)
                + " selected — "@ + size@);
        }
        text
    }

    /// The title of the browse window.
    pub fn window_title(&self) -> (title: String)
        ensures
            title@ == (match self@.scan {
                Some((root, _)) => "wene — "@ + name_text(Some(root)),
                None => "wene"@,
            }),
    {
        match &self.scan {
            Some((root, _)) => {
                let mut title = "wene — ".to_owned();
                title.append(display_name(root).as_str());
                title
            },
            None => "wene".to_owned(),
        }
    }

    /// Start with everything in the grid.
    pub fn start_slideshow(&mut self, index: usize, windowed: bool)
        requires
            old(self).well_formed(),
        ensures
            final(self).well_formed(),
            exists|state: u64|
                state % 2 == 1 && final(self)@ == #[trigger] old(self)@.started(
                    paths_of(old(self)@.grid.files),
                    index as int,
                    windowed,
                    state,
                ),
    {
        let files = self.grid.paths();
        self.start_slideshow_files(files, index, windowed);
    }

    /// Menu path: use the grid's selection semantics.
    pub fn start_from_grid(&mut self, windowed: bool)
        requires
            old(self).well_formed(),
        ensures
            final(self).well_formed(),
            exists|state: u64|
                state % 2 == 1 && final(self)@ == #[trigger] old(self)@.started(
                    old(self)@.grid.request().0,
                    old(self)@.grid.request().1,
                    windowed,
                    state,
                ),
    {
        let (files, start) = self.grid.slideshow_request();
        self.start_slideshow_files(files, start, windowed);
    }

    /// Start a slideshow in the preferred mode; the option key held inverts
    /// it.
    pub fn activate(&mut self, option: bool)
        requires
            old(self).well_formed(),
        ensures
            final(self).well_formed(),
            exists|state: u64|
                state % 2 == 1 && final(self)@ == #[trigger] old(self)@.activated(option, state),
    {
        let windowed = self.windowed != option;
        self.start_from_grid(windowed);
        proof {
            let state = choose|state: u64|
                state % 2 == 1 && self@ == #[trigger] old(self)@.started(
                    old(self)@.grid.request().0,
                    old(self)@.grid.request().1,
                    windowed,
                    state,
                );
            assert(self@ == old(self)@.activated(option, state));
        }
    }

    /// Something was done to the slide on screen: remember it for the current
    /// file.
    pub fn slide_state_changed(&mut self)
        requires
            old(self).well_formed(),
        ensures
            final(self).well_formed(),
            final(self)@ == (match old(self)@.show {
                Some(show) => old(self)@.with_show(show.noted()),
                None => old(self)@,
            }),
    {
        if let Some(mut show) = self.show.take() {
            show.note_state();
            self.show = Some(show);
        }
    }

    /// Do something to the slide on screen, and remember it.
    pub fn change_slide(&mut self, change: SlideChange)
        requires
            old(self).well_formed(),
            change.well_formed(),
        ensures
            final(self).well_formed(),
            final(self)@ == old(self)@.touched(change),
    {
        if let Some(mut show) = self.show.take() {
            let _ = show.change_view(change);
            self.show = Some(show);
        }
    }

    pub fn toggle_overlay(&mut self)
        requires
            old(self).well_formed(),
        ensures
            final(self).well_formed(),
            final(self)@ == (AppState { overlay: !old(self)@.overlay, ..old(self)@ }),
    {
        self.overlay = !self.overlay;
    }

    pub fn toggle_loop(&mut self)
        requires
            old(self).well_formed(),
        ensures
            final(self).well_formed(),
            ({
                let on = !old(self)@.looping;
                let base = AppState { looping: on, ..old(self)@ };
                final(self)@ == (match old(self)@.show {
                    Some(show) => base.with_show(
                        ShowState {
                            playlist: PlaylistState { loops: on, ..show.playlist },
                            ..show
                        },
                    ),
                    None => base,
                }).then_save()
            }),
    {
        let on = !self.looping;
        self.looping = on;
        if let Some(mut show) = self.show.take() {
            show.set_looping(on);
            self.show = Some(show);
        }
        self.save_prefs();
    }

    /// Turn shuffle on or off, for the show and for later ones. The order
    /// comes from a generator that the clock seeds.
    pub fn toggle_shuffle(&mut self)
        requires
            old(self).well_formed(),
        ensures
            final(self).well_formed(),
            exists|state: u64|
                state % 2 == 1 && final(self)@ == #[trigger] old(self)@.shuffle_toggled(state),
    {
        let ghost start = self@;
        let on = !self.shuffling;
        self.shuffling = on;
        if let Some(mut show) = self.show.take() {
            let ghost before = show@;
            show.set_shuffled(on);
            self.show = Some(show);
            self.save_prefs();
            proof {
                let state = choose|state: u64|
                    state % 2 == 1 && show@.playlist == #[trigger] before.playlist.reshuffled(
                        on,
                        state,
                    );
                assert(self@ == start.shuffle_toggled(state));
            }
        } else {
            self.save_prefs();
            assert(self@ == start.shuffle_toggled(1));
        }
    }

    pub fn toggle_labels(&mut self)
        requires
            old(self).well_formed(),
        ensures
            final(self).well_formed(),
            final(self)@ == (AppState {
                grid: GridState { labels: !old(self)@.grid.labels, ..old(self)@.grid },
                ..old(self)@
            }).then_save(),
    {
        let visible = !self.grid.labels_visible();
        self.grid.set_labels(visible);
        self.save_prefs();
    }

    /// The preference for the default slideshow mode was flipped.
    pub fn prefs_toggle_windowed(&mut self)
        requires
            old(self).well_formed(),
        ensures
            final(self).well_formed(),
            final(self)@ == (AppState { windowed: !old(self)@.windowed, ..old(self)@ }).then_save(),
    {
        self.windowed = !self.windowed;
        self.save_prefs();
    }

    pub fn toggle_sidebar(&mut self)
        requires
            old(self).well_formed(),
        ensures
            final(self).well_formed(),
            final(self)@ == old(self)@.sidebar_toggled(),
    {
        self.sidebar_hidden = !self.sidebar_hidden;
        self.effects.push(Effect::ToggleSidebar);
        assert(self.effects@ =~= old(self)@.effects + seq![Effect::ToggleSidebar]);
    }

    /// A key press in the slideshow. Says whether the key means anything.
    pub fn slide_key_down(&mut self, key: SlideKey, fit: Fit) -> (known: bool)
        requires
            old(self).well_formed(),
        ensures
            final(self).well_formed(),
            known == (key != SlideKey::Unknown),
            final(self)@ == old(self)@.keyed(key, fit),
    {
        match key {
            SlideKey::End => self.end_slideshow(),
            SlideKey::Next => self.step_slideshow(1),
            SlideKey::Previous => self.step_slideshow(-1),
            SlideKey::NextOriginal => self.step_slideshow_original(1),
            SlideKey::PreviousOriginal => self.step_slideshow_original(-1),
            SlideKey::First => self.jump_slideshow_start(),
            SlideKey::Last => self.jump_slideshow_end(),
            SlideKey::Space => self.space_pressed(),
            SlideKey::TurnRight => self.change_slide(SlideChange::Turn(90)),
            SlideKey::TurnLeft => self.change_slide(SlideChange::Turn(-90)),
            SlideKey::Flip => self.change_slide(SlideChange::Flip),
            SlideKey::Overlay => self.toggle_overlay(),
            SlideKey::Stop => self.set_auto_advance(None),
            SlideKey::Pace(tenths) => self.set_auto_advance(Some(tenths)),
            SlideKey::ZoomIn => self.change_slide(SlideChange::ZoomIn(fit)),
            SlideKey::ZoomOut => self.change_slide(SlideChange::ZoomOut(fit)),
            SlideKey::ActualPixels => self.change_slide(SlideChange::Zoom(Some(ACTUAL_PIXELS))),
            SlideKey::Reset => self.change_slide(SlideChange::Reset),
            SlideKey::Unknown => {
                return false;
            },
        }
        true
    }
}

impl<I> AppState<I> {
    /// The app once a show of the grid has started in the preferred mode, or
    /// in the other one.
    pub open spec fn activated(self, inverted: bool, state: u64) -> AppState<I> {
        let (files, start) = self.grid.request();
        self.started(files, start, self.windowed != inverted, state)
    }

    /// The app once shuffle was turned on or off, given the number that the
    /// shuffle draws from.
    pub open spec fn shuffle_toggled(self, state: u64) -> AppState<I> {
        let on = !self.shuffling;
        let base = AppState { shuffling: on, ..self };
        (match self.show {
            Some(show) => base.with_show(
                ShowState { playlist: show.playlist.reshuffled(on, state), ..show },
            ),
            None => base,
        }).then_save()
    }
}

/// The name of a file, or nothing.
fn display_name(path: &FilePath) -> (name: String)
    ensures
        name@ == name_text(Some(*path)),
{
    match path.file_name() {
        Some(name) => name,
        None => {
            let name = String::new();
            assert(name@ =~= Seq::empty());
            name
        },
    }
}

/// The paths that are none of `failed`.
fn remaining(paths: &Vec<FilePath>, failed: &Vec<FilePath>) -> (moved: Vec<FilePath>)
    ensures
        moved@ == not_among(paths@, failed@),
        moved@.len() <= paths@.len(),
{
    let mut moved: Vec<FilePath> = Vec::new();
    let mut i: usize = 0;
    assert(paths@.take(0) =~= Seq::empty());
    reveal(Seq::filter);
    while i < paths.len()
        invariant
            i <= paths.len(),
            moved@ == not_among(paths@.take(i as int), failed@),
            moved@.len() <= i,
        decreases paths.len() - i,
    {
        reveal(Seq::filter);
        assert(paths@.take(i + 1).drop_last() =~= paths@.take(i as int));
        proof {
            first_same_is_first(failed@, paths@[i as int]);
        }
        match find_path(failed, &paths[i]) {
            Some(k) => {
                assert(components(failed@[k as int]@) == components(paths@[i as int]@));
                assert(lists(failed@, components(paths@[i as int]@)));
            },
            None => {
                moved.push(paths[i].clone());
            },
        }
        i += 1;
    }
    assert(paths@.take(i as int) =~= paths@);
    moved
}

fn push_failures(text: &mut String, failed: usize, total: usize)
    ensures
        final(text)@ == old(text)@ + failure_text(failed as nat, total as nat),
{
    push_decimal(text, failed as u64);
    text.append(" of ");
    push_decimal(text, total as u64);
    text.append(" could not be moved to trash");
    assert(text@ =~= old(text)@ + failure_text(failed as nat, total as nat));
}

/// What the status bar and the slide overlay say after a delete.
pub fn trash_message(moved: &Vec<FilePath>, failed: usize) -> (text: String)
    requires
        moved@.len() + failed <= usize::MAX,
    ensures
        text@ == trash_text(moved@, failed as nat),
{
    let total = moved.len() + failed;
    let mut text = String::new();
    assert(text@ =~= Seq::empty());
    if moved.len() == 0 {
        push_failures(&mut text, failed, total);
        assert(text@ =~= trash_text(moved@, failed as nat));
        return text;
    }
    let shown: usize = if moved.len() > 3 {
        3
    } else {
        moved.len()
    };
    let ghost named = if moved@.len() > 3 {
        moved@.take(3)
    } else {
        moved@
    };
    assert(named =~= moved@.take(shown as int));
    text.append("Moved to trash: ");
    assert(text@ =~= "Moved to trash: "@);
    assert(joined_names(moved@.take(0)) =~= Seq::empty());
    let mut k: usize = 0;
    while k < shown
        invariant
            k <= shown <= moved.len(),
            text@ =~= "Moved to trash: "@ + joined_names(moved@.take(k as int)),
        decreases shown - k,
    {
        assert(moved@.take(k + 1).drop_last() =~= moved@.take(k as int));
        assert(moved@.take(k + 1).last() == moved@[k as int]);
        if k > 0 {
            text.append(", ");
        }
        text.append(display_name(&moved[k]).as_str());
        k += 1;
    }
    let ghost head = text@;
    assert(head =~= "Moved to trash: "@ + joined_names(named));
    if moved.len() > shown {
        text.append(" and ");
        push_decimal(&mut text, (moved.len() - shown) as u64);
        text.append(" more");
        assert(text@ =~= head + (" and "@ + decimal((moved@.len() - 3) as nat) + " more"@));
    } else {
        assert(text@ =~= head + Seq::empty());
    }
    if failed > 0 {
        let ghost went = text@;
        text.append(" — ");
        push_failures(&mut text, failed, total);
        assert(text@ =~= went + " — "@ + failure_text(failed as nat, total as nat));
    }
    text
}

} // verus!
