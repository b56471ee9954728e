//! How the app takes in what the engine reports, and which folder it opens at
//! launch.

use vstd::prelude::*;

use crate::cache::{total_cost, without};
use crate::delegate::{effect_if, AppDelegate, AppState, Effect, Status, StatusState};
use crate::e2e::HarnessState;
use crate::engine::Event;
use crate::grid::{mirrored, GridState};
use crate::order::{FileInfo, SortOrder};
use crate::path::{components, FilePath};
use crate::show::ShowState;

verus! {

impl<I> AppState<I> {
    /// The app with more files in its folder, in the order of a scan.
    pub open spec fn files_inserted(self, inserts: Seq<(usize, FileInfo)>) -> AppState<I> {
        AppState {
            grid: (GridState {
                all: mirrored(self.grid.all, inserts),
                ..self.grid
            }).rebuilt(),
            status: StatusState::Line,
            ..self
        }
    }

    /// The app without files that are gone from the disk. Files that it
    /// removed itself are gone already, and leave the status bar alone.
    pub open spec fn files_removed(self, paths: Seq<FilePath>) -> AppState<I> {
        (AppState {
            grid: self.grid.removed(paths),
            status: if self.grid.dropped(paths).all.len() != self.grid.all.len() {
                StatusState::Line
            } else {
                self.status
            },
            ..self
        }).dropped(paths)
    }

    /// The app once a file changed on disk: nothing at hand for it counts any
    /// more, and its slide comes again if it is on screen.
    pub open spec fn file_changed(self, path: FilePath) -> AppState<I> {
        let base = AppState {
            grid: GridState {
                thumbs: without(self.grid.thumbs, path),
                requested: self.grid.requested.remove(components(path@)),
                ..self.grid
            },
            ..self
        };
        match self.show {
            Some(show) => {
                let forgotten = base.with_show(
                    ShowState { cache: without(show.cache, path), ..show },
                );
                if show.is_current(path) {
                    forgotten.shown()
                } else {
                    forgotten
                }
            },
            None => base,
        }
    }

    /// The app once a scan is done. The harness starts after the first one.
    pub open spec fn scan_done(self, total: usize) -> AppState<I> {
        let starts = self.harness && !self.e2e.started;
        (AppState {
            status: StatusState::Line,
            e2e: if starts {
                HarnessState { started: true, ..self.e2e }
            } else {
                self.e2e
            },
            ..self
        }).then_do(seq![Effect::ReportScan(total)]).then_do(
            effect_if::<I>(starts, Effect::StartHarness),
        )
    }

    /// The app with a decoded slide.
    pub open spec fn slide_ready(self, path: FilePath, image: I, cost: usize) -> AppState<I> {
        match self.show {
            Some(show) => self.with_show(show.with_slide(path, image, cost)).then_do(
                effect_if::<I>(show.is_current(path), Effect::ShowSlide(path)),
            ),
            None => self,
        }
    }

    /// The app with the frames of an animated slide.
    pub open spec fn frames_ready(self, path: FilePath, frames: Vec<(I, u64)>) -> AppState<I> {
        match self.show {
            Some(show) => self.with_show(show.with_frames(path)).then_do(
                effect_if::<I>(show.is_current(path), Effect::PlayFrames(frames)),
            ),
            None => self,
        }
    }

    /// Whether an event can make the app another. `cost` is what a decoded
    /// image takes up.
    pub open spec fn reacts(self, event: Event<I>, cost: usize, after: AppState<I>) -> bool {
        match event {
            Event::FilesInserted(inserts) => if self.sort == SortOrder::Name && !self.descending {
                after == self.files_inserted(inserts@)
            } else {
                self.files_inserted(inserts@).sorts_to(after)
            },
            Event::FilesRemoved(paths) => after == self.files_removed(paths@),
            Event::FileChanged(info) => after == self.file_changed(info.path),
            Event::ScanDone { total } => after == self.scan_done(total),
            Event::ThumbReady { path, image } => after == (AppState {
                grid: self.grid.with_thumb(path, image, cost),
                ..self
            }),
            Event::SlideReady { path, image } => after == self.slide_ready(path, image, cost),
            Event::SlideFramesReady { path, frames } => after == self.frames_ready(path, frames),
            Event::DecodeFailed { path } => after == self.then_do(
                seq![Effect::ReportFailure(path)],
            ),
        }
    }

    /// Whether the memory budget can count an image that an event brings.
    pub open spec fn takes(self, event: Event<I>, cost: usize) -> bool {
        match event {
            Event::ThumbReady { path, .. } => total_cost(without(self.grid.thumbs, path)) + cost
                <= usize::MAX,
            Event::SlideReady { path, .. } => match self.show {
                Some(show) => total_cost(without(show.cache, path)) + cost <= usize::MAX,
                None => true,
            },
            _ => true,
        }
    }
}

/// Estimated decoded footprint for the memory budgets: pixels times four
/// bytes, where that can be counted.
pub fn image_cost(width: usize, height: usize) -> (cost: Option<usize>)
    ensures
        match cost {
            Some(c) => c == width * height * 4,
            None => width * height * 4 > usize::MAX,
        },
{
    match width.checked_mul(height) {
        Some(pixels) => pixels.checked_mul(4),
        None => None,
    }
}

impl<I> AppDelegate<I> {
    /// Whether the memory budget can count an image that an event brings.
    pub fn can_take(&self, event: &Event<I>, cost: usize) -> (fine: bool)
        requires
            self.well_formed(),
        ensures
            fine == self@.takes(*event, cost),
    {
        match event {
            Event::ThumbReady { path, .. } => self.grid.has_room(path, cost),
            Event::SlideReady { path, .. } => match &self.show {
                Some(show) => show.has_room(path, cost),
                None => true,
            },
            _ => true,
        }
    }

    /// Take in an event. `cost` is what a decoded image takes up.
    pub fn handle_event(&mut self, event: Event<I>, cost: usize)
        requires
            old(self).well_formed(),
            old(self)@.takes(event, cost),
        ensures
            final(self).well_formed(),
            old(self)@.reacts(event, cost, final(self)@),
    {
        match event {
            Event::FilesInserted(inserts) => self.insert_files(inserts),
            Event::FilesRemoved(paths) => self.remove_files(&paths),
            Event::FileChanged(info) => self.change_file(&info.path),
            Event::ScanDone { total } => self.finish_scan(total),
            Event::ThumbReady { path, image } => self.grid.set_thumb(path, image, cost),
            Event::SlideReady { path, image } => self.take_slide(path, image, cost),
            Event::SlideFramesReady { path, frames } => self.take_frames(path, frames),
            Event::DecodeFailed { path } => {
                self.effects.push(Effect::ReportFailure(path));
                assert(self.effects@ =~= old(self)@.effects + seq![Effect::ReportFailure(path)]);
            },
        }
    }

    /// Scans come in name order; the active order applies to the batch.
    fn insert_files(&mut self, inserts: Vec<(usize, FileInfo)>)
        requires
            old(self).well_formed(),
        ensures
            final(self).well_formed(),
            if old(self)@.sort == SortOrder::Name && !old(self)@.descending {
                final(self)@ == old(self)@.files_inserted(inserts@)
            } else {
                old(self)@.files_inserted(inserts@).sorts_to(final(self)@)
            },
    {
        self.grid.insert_files(inserts);
        self.status = Status::Line;
        if !self.sort_is_default() {
            self.apply_sort();
        }
    }

    fn remove_files(&mut self, paths: &Vec<FilePath>)
        requires
            old(self).well_formed(),
        ensures
            final(self).well_formed(),
            final(self)@ == old(self)@.files_removed(paths@),
    {
        if self.grid.remove_paths(paths) {
            self.status = Status::Line;
        }
        self.drop_from_slideshow(paths);
    }

    fn change_file(&mut self, path: &FilePath)
        requires
            old(self).well_formed(),
        ensures
            final(self).well_formed(),
            final(self)@ == old(self)@.file_changed(*path),
    {
        self.grid.invalidate_thumb(path);
        if let Some(mut show) = self.show.take() {
            let current = show.forget(path);
            self.show = Some(show);
            if current {
                self.show_current();
            }
        }
    }

    fn finish_scan(&mut self, total: usize)
        requires
            old(self).well_formed(),
        ensures
            final(self).well_formed(),
            final(self)@ == old(self)@.scan_done(total),
    {
        self.status = Status::Line;
        self.effects.push(Effect::ReportScan(total));
        if self.harness && !self.e2e.started {
            self.e2e.started = true;
            self.effects.push(Effect::StartHarness);
        }
        assert(self.effects@ =~= old(self)@.scan_done(total).effects);
    }

    fn take_slide(&mut self, path: FilePath, image: I, cost: usize)
        requires
            old(self).well_formed(),
            old(self)@.takes(Event::SlideReady { path, image }, cost),
        ensures
            final(self).well_formed(),
            final(self)@ == old(self)@.slide_ready(path, image, cost),
    {
        if let Some(mut show) = self.show.take() {
            let shown = path.clone();
            let current = show.slide_ready(path, image, cost);
            self.show = Some(show);
            if current {
                self.effects.push(Effect::ShowSlide(shown));
            }
        }
        assert(self.effects@ =~= old(self)@.slide_ready(path, image, cost).effects);
    }

    fn take_frames(&mut self, path: FilePath, frames: Vec<(I, u64)>)
        requires
            old(self).well_formed(),
        ensures
            final(self).well_formed(),
            final(self)@ == old(self)@.frames_ready(path, frames),
    {
        if let Some(mut show) = self.show.take() {
            let current = show.frames_ready(path);
            self.show = Some(show);
            if current {
                self.effects.push(Effect::PlayFrames(frames));
            }
        }
        assert(self.effects@ =~= old(self)@.frames_ready(path, frames).effects);
    }
}

/// A folder from the preferences. An empty text is none, and the harness
/// starts without.
pub fn stored_folder(value: Option<String>, harness: bool) -> (folder: Option<FilePath>)
    ensures
        match folder {
            Some(path) => !harness && value is Some && value->0@.len() > 0 && path@
                == value->0@,
            None => harness || value is None || value->0@.len() == 0,
        },
{
    match value {
        Some(text) => if harness || text.as_str().is_empty() {
            None
        } else {
            Some(FilePath::new(text.as_str()))
        },
        None => None,
    }
}

/// A folder to open at launch.
pub struct LaunchFolder {
    pub root: FilePath,
    /// Whether to scan everything under it.
    pub deep: bool,
    /// Whether to remember it for the next launch.
    pub remember: bool,
}

/// The folder to open at launch, of those that can be read: one given on the
/// command line skips everything else, then comes the last folder, then the
/// startup folder of the preferences, then Pictures. With none of them the
/// grid stays empty.
pub fn launch_folder(
    argument: Option<FilePath>,
    last: Option<FilePath>,
    startup: Option<FilePath>,
    pictures: Option<FilePath>,
) -> (folder: Option<LaunchFolder>)
    ensures
        folder == (match (argument, last, startup, pictures) {
            (Some(root), _, _, _) => Some(LaunchFolder { root, deep: true, remember: true }),
            (None, Some(root), _, _) => Some(LaunchFolder { root, deep: false, remember: true }),
            (None, None, Some(root), _) => Some(
                LaunchFolder { root, deep: false, remember: false },
            ),
            (None, None, None, Some(root)) => Some(
                LaunchFolder { root, deep: false, remember: false },
            ),
            (None, None, None, None) => None,
        }),
{
    if let Some(root) = argument {
        return Some(LaunchFolder { root, deep: true, remember: true });
    }
    if let Some(root) = last {
        return Some(LaunchFolder { root, deep: false, remember: true });
    }
    match startup {
        Some(root) => Some(LaunchFolder { root, deep: false, remember: false }),
        None => match pictures {
            Some(root) => Some(LaunchFolder { root, deep: false, remember: false }),
            None => None,
        },
    }
}

} // verus!
