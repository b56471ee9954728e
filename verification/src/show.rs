//! A running slideshow: its playlist, the slides at hand, what was done to
//! each, and the line over the slide.

use vstd::prelude::*;

use crate::cache::{
    distinct, evictions, holds, insert_is_read_back, is_at, place, total_cost,
    use_keeps_every_entry, used, without, without_forgets, Entry, LruCache,
};
use crate::path::{
    all_different, components, file_name, find_path, first_same_is_first, lists, optional_text,
    same_path, FilePath, PathMap,
};
use crate::playlist::{Playlist, PlaylistState};
use crate::scan::{animated_path, is_animated_ext};
use crate::slideshow::{
    percent, sixteenths, zoom_percent, SlideChange, SlideState, SlideView,
};
use crate::text::{decimal, digit, push_decimal};

verus! {

/// Slide memory budget: roughly 15 retina-screen slides, so stepping back
/// through recent history never decodes again.
pub const SLIDE_CACHE_BYTES: usize = 536870912;

/// Everything there is to say of a slideshow.
#[verifier::ext_equal]
pub struct ShowState<I> {
    pub windowed: bool,
    pub view: SlideView,
    pub playlist: PlaylistState,
    /// The slides at hand, the least recently used first.
    pub cache: Seq<Entry<FilePath, I>>,
    /// Remembered zoom, rotation, flip and pan per file for this session.
    pub view_states: Map<Seq<Seq<char>>, SlideState>,
    /// Auto-advance tenths of a second; None = off.
    pub interval: Option<u64>,
    /// Whether the show advances now (paused = interval set, not ticking).
    pub ticking: bool,
    /// A message shown over the slide for a moment, in place of the usual
    /// line.
    pub flash: Option<Seq<char>>,
}

/// A list with one more path, unless it holds that path.
pub open spec fn with_new(list: Seq<FilePath>, path: Option<FilePath>) -> Seq<FilePath> {
    match path {
        Some(p) => if lists(list, components(p@)) {
            list
        } else {
            list.push(p)
        },
        None => list,
    }
}

/// The current slide and its neighbours, each once.
pub open spec fn wanted(playlist: PlaylistState) -> Seq<FilePath> {
    with_new(
        with_new(with_new(Seq::empty(), playlist.ahead(-1)), playlist.ahead(0)),
        playlist.ahead(1),
    )
}

/// A number of tenths, without a fraction where it is whole.
pub open spec fn tenths_text(tenths: nat) -> Seq<char> {
    if tenths % 10 == 0 {
        decimal(tenths / 10)
    } else {
        decimal(tenths / 10) + "."@ + seq![digit(tenths % 10)]
    }
}

/// The name of a file, or nothing.
pub open spec fn name_text(path: Option<FilePath>) -> Seq<char> {
    match path {
        Some(p) => match file_name(p@) {
            Some(name) => name,
            None => Seq::empty(),
        },
        None => Seq::empty(),
    }
}

/// A text, on a condition.
pub open spec fn only_if(condition: bool, text: Seq<char>) -> Seq<char> {
    if condition {
        text
    } else {
        Seq::empty()
    }
}

/// A playlist of some files in their sorted order, at an index or at the last
/// one.
pub open spec fn starting(files: Seq<FilePath>, index: int, loops: bool) -> PlaylistState {
    PlaylistState {
        files,
        order: Seq::empty(),
        position: if index < files.len() {
            index
        } else if files.len() > 0 {
            files.len() - 1
        } else {
            0
        },
        loops,
    }
}

impl<I> ShowState<I> {
    /// A show that was just opened, with nothing on screen yet.
    pub open spec fn opened(windowed: bool, playlist: PlaylistState) -> ShowState<I> {
        ShowState {
            windowed,
            view: SlideView { image: None, animating: false, state: SlideState::untouched() },
            playlist,
            cache: Seq::empty(),
            view_states: Map::empty(),
            interval: None,
            ticking: false,
            flash: None,
        }
    }

    /// What every operation keeps.
    pub open spec fn valid(self) -> bool {
        &&& self.playlist.valid()
        &&& self.view.well_formed()
        &&& distinct(self.cache)
        &&& self.interval is None ==> !self.ticking
        &&& forall|parts: Seq<Seq<char>>| #[trigger]
            self.view_states.dom().contains(parts) ==> self.view_states[parts].well_formed()
    }

    /// Whether a path is the file on screen.
    pub open spec fn is_current(self, path: FilePath) -> bool {
        match self.playlist.current() {
            Some(current) => same_path(current@, path@),
            None => false,
        }
    }

    /// What is remembered of a file, or a slide that nothing was done to.
    pub open spec fn remembered(self, path: FilePath) -> SlideState {
        if self.view_states.dom().contains(components(path@)) {
            self.view_states[components(path@)]
        } else {
            SlideState::untouched()
        }
    }

    /// The show with the slide of a file on screen.
    pub open spec fn showing(self, path: FilePath, animating: bool) -> ShowState<I> {
        ShowState {
            view: SlideView { image: Some(path), animating, state: self.remembered(path) },
            ..self
        }
    }

    /// The show with the current slide on screen, where it is at hand. A
    /// flash is about the slide that just left, so it goes.
    pub open spec fn refreshed(self) -> ShowState<I> {
        let calm = ShowState { flash: None, ..self };
        match self.playlist.current() {
            Some(current) if holds(self.cache, current) => ShowState {
                cache: used(self.cache, current),
                ..calm.showing(current, false)
            },
            _ => calm,
        }
    }

    /// Whether a slide has to be decoded: it is not at hand, and it is not an
    /// animated neighbour, which would never be kept.
    pub open spec fn needs(self, path: FilePath) -> bool {
        !holds(self.cache, path) && (self.is_current(path) || !animated_path(path@))
    }

    /// The slides to decode: the current one and its neighbours, as far as
    /// they are needed.
    pub open spec fn requests(self) -> Seq<FilePath> {
        wanted(self.playlist).filter(|p: FilePath| self.needs(p))
    }

    /// Which slide of how many, and its name.
    pub open spec fn count_part(self) -> Seq<char> {
        decimal((self.playlist.file_at(self.playlist.position) + 1) as nat) + "/"@ + decimal(
            self.playlist.files.len(),
        ) + "  "@ + name_text(self.playlist.current())
    }

    /// How the show plays.
    pub open spec fn mode_part(self) -> Seq<char> {
        only_if(self.playlist.order.len() > 0, "  [shuffle]"@) + only_if(
            self.playlist.loops,
            "  [loop]"@,
        )
    }

    /// The pace of the show.
    pub open spec fn pace_part(self) -> Seq<char> {
        match self.interval {
            Some(tenths) => if self.ticking {
                "  ["@ + tenths_text(tenths as nat) + "s]"@
            } else {
                "  [paused]"@
            },
            None => Seq::empty(),
        }
    }

    /// What was done to the slide.
    pub open spec fn view_part(self) -> Seq<char> {
        let state = self.view.state;
        only_if(state.rotation != 0, "  ["@ + decimal(state.rotation as nat) + "°]"@) + only_if(
            state.flipped,
            "  [flipped]"@,
        ) + (match state.zoom {
            Some(rung) => "  ["@ + decimal(percent(sixteenths(rung as int)) as nat) + "%]"@,
            None => Seq::empty(),
        })
    }

    /// The line over the slide.
    pub open spec fn overlay(self) -> Seq<char> {
        match self.flash {
            Some(text) => text,
            None => self.count_part() + self.mode_part() + self.pace_part() + self.view_part(),
        }
    }

    /// The show after what was done to the slide on screen is remembered for
    /// its file. An untouched slide needs no memory.
    pub open spec fn noted(self) -> ShowState<I> {
        match self.playlist.current() {
            Some(current) => ShowState {
                view_states: if self.view.state == SlideState::untouched() {
                    self.view_states.remove(components(current@))
                } else {
                    self.view_states.insert(components(current@), self.view.state)
                },
                ..self
            },
            None => self,
        }
    }

    /// The show once something was done to the slide on screen.
    pub open spec fn touched(self, change: SlideChange) -> ShowState<I> {
        if self.view.takes(change) {
            (ShowState { view: self.view.changed(change), ..self }).noted()
        } else {
            self
        }
    }

    /// The show without some files, nor anything at hand for them.
    pub open spec fn dropped(self, paths: Seq<FilePath>) -> ShowState<I>
        decreases paths.len(),
    {
        if paths.len() == 0 {
            self
        } else {
            let rest = self.dropped(paths.drop_last());
            let path = paths.last();
            ShowState {
                playlist: rest.playlist.without_path(path),
                cache: without(rest.cache, path),
                view_states: rest.view_states.remove(components(path@)),
                ..rest
            }
        }
    }

    /// The show with a decoded slide at hand, on screen if it is current.
    pub open spec fn with_slide(self, path: FilePath, image: I, cost: usize) -> ShowState<I> {
        let full = without(self.cache, path).push(Entry { key: path, value: image, cost });
        let kept = ShowState {
            cache: full.skip(evictions(full, SLIDE_CACHE_BYTES as nat) as int),
            ..self
        };
        if self.is_current(path) {
            kept.showing(path, false)
        } else {
            kept
        }
    }

    /// The show with an animated slide on screen, if it is current. Frames
    /// are big, so they are not kept.
    pub open spec fn with_frames(self, path: FilePath) -> ShowState<I> {
        if self.is_current(path) {
            self.showing(path, true)
        } else {
            self
        }
    }
}

/// A running slideshow.
pub struct Show<I> {
    windowed: bool,
    view: SlideView,
    playlist: Playlist,
    cache: LruCache<FilePath, I>,
    view_states: PathMap<SlideState>,
    interval: Option<u64>,
    ticking: bool,
    flash: Option<String>,
}

impl<I> View for Show<I> {
    type V = ShowState<I>;

    closed spec fn view(&self) -> ShowState<I> {
        ShowState {
            windowed: self.windowed,
            view: self.view,
            playlist: self.playlist@,
            cache: self.cache@,
            view_states: self.view_states@,
            interval: self.interval,
            ticking: self.ticking,
            flash: optional_text(self.flash),
        }
    }
}

/// Whether one of the paths is the same as `path`.
fn is_listed(paths: &Vec<FilePath>, path: &FilePath) -> (listed: bool)
    ensures
        listed == lists(paths@, components(path@)),
{
    proof {
        first_same_is_first(paths@, *path);
    }
    match find_path(paths, path) {
        Some(i) => {
            assert(components(paths@[i as int]@) == components(path@));
            true
        },
        None => false,
    }
}

/// Add a path to a list, unless it holds that path.
fn push_new(list: &mut Vec<FilePath>, path: Option<&FilePath>)
    ensures
        final(list)@ == with_new(
            old(list)@,
            match path {
                Some(p) => Some(*p),
                None => None,
            },
        ),
{
    if let Some(p) = path {
        if !is_listed(list, p) {
            list.push(p.clone());
        }
    }
}

/// Append a number of tenths.
fn push_tenths(out: &mut String, tenths: u64)
    ensures
        final(out)@ == old(out)@ + tenths_text(tenths as nat),
{
    push_decimal(out, tenths / 10);
    if tenths % 10 != 0 {
        out.append(".");
        push_decimal(out, tenths % 10);
    }
    assert(out@ =~= old(out)@ + tenths_text(tenths as nat));
}

impl<I> Show<I> {
    /// What the fields keep among themselves.
    pub closed spec fn sound(self) -> bool {
        &&& self.cache.well_formed()
        &&& self.cache.limit() == SLIDE_CACHE_BYTES
    }

    /// What every operation keeps.
    pub open spec fn well_formed(self) -> bool {
        self@.valid() && self.sound()
    }

    /// A show of some files, from the one at an index on, with nothing on
    /// screen yet.
    pub fn new(files: Vec<FilePath>, index: usize, windowed: bool, looping: bool, shuffled: bool)
        -> (show: Self)
        ensures
            show.well_formed(),
            show@ == ShowState::<I>::opened(windowed, show@.playlist),
            exists|state: u64|
                state % 2 == 1 && show@.playlist == #[trigger] starting(
                    files@,
                    index as int,
                    looping,
                ).reshuffled(shuffled, state),
    {
        let mut playlist = Playlist::new(files, index);
        playlist.set_looping(looping);
        let ghost sorted = playlist@;
        assert(sorted =~= starting(files@, index as int, looping));
        playlist.set_shuffled(shuffled);
        assert(exists|state: u64|
            state % 2 == 1 && playlist@ == #[trigger] sorted.reshuffled(shuffled, state));
        Show {
            windowed,
            view: SlideView::new(),
            playlist,
            cache: LruCache::new(SLIDE_CACHE_BYTES),
            view_states: PathMap::new(),
            interval: None,
            ticking: false,
            flash: None,
        }
    }

    /// Bring the current slide on screen from those at hand, and say which
    /// slides to decode: it, and its neighbours.
    pub fn refresh(&mut self) -> (requests: Vec<FilePath>)
        requires
            old(self).well_formed(),
        ensures
            final(self).well_formed(),
            final(self)@ == old(self)@.refreshed(),
            requests@ == old(self)@.refreshed().requests(),
    {
        let ghost start = self@;
        self.flash = None;
        let current = match self.playlist.current() {
            Some(path) => Some(path.clone()),
            None => None,
        };
        if let Some(path) = &current {
            if self.cache.contains(path) {
                let _ = self.cache.get(path);
                proof {
                    use_keeps_every_entry(start.cache, *path);
                }
                self.put_on_screen(path.clone());
            }
        }
        assert(self@ =~= start.refreshed());
        let mut wanted_paths: Vec<FilePath> = Vec::new();
        push_new(&mut wanted_paths, self.playlist.peek(-1));
        push_new(&mut wanted_paths, self.playlist.peek(0));
        push_new(&mut wanted_paths, self.playlist.peek(1));
        assert(wanted_paths@ == wanted(self@.playlist));
        let mut requests: Vec<FilePath> = Vec::new();
        let mut k: usize = 0;
        reveal(Seq::filter);
        assert(wanted_paths@.take(0) =~= Seq::empty());
        while k < wanted_paths.len()
            invariant
                k <= wanted_paths.len(),
                self.well_formed(),
                current == self@.playlist.current(),
                requests@ == wanted_paths@.take(k as int).filter(|p: FilePath| self@.needs(p)),
            decreases wanted_paths.len() - k,
        {
            reveal(Seq::filter);
            assert(wanted_paths@.take(k + 1).drop_last() =~= wanted_paths@.take(k as int));
            let path = &wanted_paths[k];
            let is_current = match &current {
                Some(c) => c.same(path),
                None => false,
            };
            if (is_current || !is_animated_ext(path)) && !self.cache.contains(path) {
                requests.push(path.clone());
            }
            k += 1;
        }
        assert(wanted_paths@.take(k as int) =~= wanted_paths@);
        requests
    }

    /// Put a still slide on screen, with what is remembered of its file.
    fn put_on_screen(&mut self, path: FilePath)
        requires
            old(self).well_formed(),
        ensures
            final(self).well_formed(),
            final(self)@ == old(self)@.showing(path, false),
    {
        let state = self.view_states.get(&path);
        self.view.show_image(path);
        if let Some(state) = state {
            self.view.apply_state(state);
        }
        assert(self@ =~= old(self)@.showing(path, false));
    }

    fn push_count(&self, text: &mut String)
        requires
            self.well_formed(),
        ensures
            final(text)@ == old(text)@ + self@.count_part(),
    {
        push_decimal(text, self.playlist.current_index() as u64 + 1);
        text.append("/");
        push_decimal(text, self.playlist.len() as u64);
        text.append("  ");
        text.append(self.title().as_str());
        assert(text@ =~= old(text)@ + self@.count_part());
    }

    fn push_mode(&self, text: &mut String)
        ensures
            final(text)@ == old(text)@ + self@.mode_part(),
    {
        if self.playlist.shuffled() {
            text.append("  [shuffle]");
        }
        if self.playlist.loops() {
            text.append("  [loop]");
        }
        assert(text@ =~= old(text)@ + self@.mode_part());
    }

    fn push_pace(&self, text: &mut String)
        ensures
            final(text)@ == old(text)@ + self@.pace_part(),
    {
        if let Some(tenths) = self.interval {
            if self.ticking {
                text.append("  [");
                push_tenths(text, tenths);
                text.append("s]");
            } else {
                text.append("  [paused]");
            }
        }
        assert(text@ =~= old(text)@ + self@.pace_part());
    }

    fn push_view(&self, text: &mut String)
        requires
            self.well_formed(),
        ensures
            final(text)@ == old(text)@ + self@.view_part(),
    {
        let state = self.view.state();
        if state.rotation != 0 {
            text.append("  [");
            push_decimal(text, state.rotation as u64);
            text.append("°]");
        }
        let ghost turned = text@;
        assert(turned =~= old(text)@ + only_if(
            state.rotation != 0,
            "  ["@ + decimal(state.rotation as nat) + "°]"@,
        ));
        if state.flipped {
            text.append("  [flipped]");
        }
        let ghost flipped = text@;
        assert(flipped =~= turned + only_if(state.flipped, "  [flipped]"@));
        if let Some(rung) = state.zoom {
            text.append("  [");
            push_decimal(text, zoom_percent(rung) as u64);
            text.append("%]");
            assert(text@ =~= flipped + ("  ["@ + decimal(percent(sixteenths(rung as int)) as nat)
                + "%]"@));
        }
        assert(text@ =~= old(text)@ + self@.view_part());
    }

    /// The line over the slide.
    pub fn overlay_text(&self) -> (text: String)
        requires
            self.well_formed(),
        ensures
            text@ == self@.overlay(),
    {
        if let Some(flash) = &self.flash {
            return flash.clone();
        }
        let mut text = String::new();
        assert(text@ =~= Seq::empty());
        self.push_count(&mut text);
        assert(text@ =~= self@.count_part());
        self.push_mode(&mut text);
        self.push_pace(&mut text);
        self.push_view(&mut text);
        text
    }

    /// The name of the current file, which titles the window.
    pub fn title(&self) -> (name: String)
        requires
            self.well_formed(),
        ensures
            name@ == name_text(self@.playlist.current()),
    {
        match self.playlist.current() {
            Some(path) => match path.file_name() {
                Some(name) => name,
                None => {
                    let name = String::new();
                    assert(name@ =~= Seq::empty());
                    name
                },
            },
            None => {
                let name = String::new();
                assert(name@ =~= Seq::empty());
                name
            },
        }
    }

    /// Remember what was done to the slide on screen for the current file.
    pub fn note_state(&mut self)
        requires
            old(self).well_formed(),
        ensures
            final(self).well_formed(),
            final(self)@ == old(self)@.noted(),
    {
        let current = match self.playlist.current() {
            Some(path) => path.clone(),
            None => {
                return;
            },
        };
        let state = self.view.state();
        if state.is_default() {
            self.view_states.remove(&current);
        } else {
            self.view_states.insert(current, state);
        }
        assert(self@ =~= old(self)@.noted());
    }

    /// Take gone files out of the show. Says whether that emptied it, and
    /// whether it changed what plays.
    pub fn drop_paths(&mut self, paths: &Vec<FilePath>) -> (result: (bool, bool))
        requires
            old(self).well_formed(),
        ensures
            final(self).well_formed(),
            final(self)@ == old(self)@.dropped(paths@),
            result.0 == (final(self)@.playlist.files.len() == 0),
            result.1 == (final(self)@.playlist.files.len() != old(self)@.playlist.files.len()),
    {
        let ghost start = self@;
        let before = self.playlist.len();
        let mut k: usize = 0;
        assert(paths@.take(0) =~= Seq::empty());
        while k < paths.len()
            invariant
                k <= paths.len(),
                self.well_formed(),
                self@ == start.dropped(paths@.take(k as int)),
            decreases paths.len() - k,
        {
            let ghost at = self@;
            assert(paths@.take(k + 1).drop_last() =~= paths@.take(k as int));
            assert(paths@.take(k + 1).last() == paths@[k as int]);
            let _ = self.playlist.remove(&paths[k]);
            let _ = self.cache.remove(&paths[k]);
            self.view_states.remove(&paths[k]);
            proof {
                without_forgets(at.cache, paths@[k as int]);
            }
            assert(self@ =~= start.dropped(paths@.take(k + 1)));
            k += 1;
        }
        assert(paths@.take(k as int) =~= paths@);
        (self.playlist.is_empty(), self.playlist.len() != before)
    }

    /// Whether a path is the file on screen.
    fn on_screen(&self, path: &FilePath) -> (current: bool)
        requires
            self.well_formed(),
        ensures
            current == self@.is_current(*path),
    {
        match self.playlist.current() {
            Some(current) => current.same(path),
            None => false,
        }
    }

    /// Whether a slide of this cost can come in.
    pub fn has_room(&self, path: &FilePath, cost: usize) -> (room: bool)
        requires
            self.well_formed(),
        ensures
            room == (total_cost(without(self@.cache, *path)) + cost <= usize::MAX),
    {
        self.cache.has_room(path, cost)
    }

    /// A decoded slide came in. Says whether it is the one on screen.
    pub fn slide_ready(&mut self, path: FilePath, image: I, cost: usize) -> (current: bool)
        requires
            old(self).well_formed(),
            total_cost(without(old(self)@.cache, path)) + cost <= usize::MAX,
        ensures
            final(self).well_formed(),
            final(self)@ == old(self)@.with_slide(path, image, cost),
            current == old(self)@.is_current(path),
    {
        let ghost start = self@;
        let current = self.on_screen(&path);
        let shown = path.clone();
        let _ = self.cache.insert(path, image, cost);
        proof {
            crate::cache::insert_is_read_back(
                start.cache,
                Entry { key: path, value: image, cost },
                SLIDE_CACHE_BYTES as nat,
            );
        }
        if current {
            self.put_on_screen(shown);
        }
        assert(self@ =~= start.with_slide(path, image, cost));
        current
    }

    /// The frames of an animated slide came in. Says whether it is the one on
    /// screen.
    pub fn frames_ready(&mut self, path: FilePath) -> (current: bool)
        requires
            old(self).well_formed(),
        ensures
            final(self).well_formed(),
            final(self)@ == old(self)@.with_frames(path),
            current == old(self)@.is_current(path),
    {
        let current = self.on_screen(&path);
        if current {
            let state = self.view_states.get(&path);
            self.view.show_frames(path);
            if let Some(state) = state {
                self.view.apply_state(state);
            }
        }
        assert(self@ =~= old(self)@.with_frames(path));
        current
    }

    /// A file changed on disk: forget its slide. Says whether it is the one
    /// on screen.
    pub fn forget(&mut self, path: &FilePath) -> (current: bool)
        requires
            old(self).well_formed(),
        ensures
            final(self).well_formed(),
            final(self)@ == (ShowState { cache: without(old(self)@.cache, *path), ..old(self)@ }),
            current == old(self)@.is_current(*path),
    {
        proof {
            without_forgets(self@.cache, *path);
        }
        let _ = self.cache.remove(path);
        self.on_screen(path)
    }

    /// Step in play order. False at an edge that is not looped.
    pub fn step(&mut self, delta: i64) -> (stepped: bool)
        requires
            old(self).well_formed(),
        ensures
            final(self).well_formed(),
            stepped == (old(self)@.playlist.target(delta as int) is Some),
            final(self)@ == (ShowState {
                playlist: old(self)@.playlist.stepped(delta as int),
                ..old(self)@
            }),
    {
        self.playlist.step(delta)
    }

    /// Step in the sorted order, while shuffled.
    pub fn step_original(&mut self, delta: i64) -> (stepped: bool)
        requires
            old(self).well_formed(),
        ensures
            final(self).well_formed(),
            stepped == old(self)@.playlist.can_step_original(delta as int),
            final(self)@ == (ShowState {
                playlist: old(self)@.playlist.stepped_original(delta as int),
                ..old(self)@
            }),
    {
        self.playlist.step_original(delta)
    }

    pub fn jump_first(&mut self)
        requires
            old(self).well_formed(),
        ensures
            final(self).well_formed(),
            final(self)@ == (ShowState { playlist: old(self)@.playlist.at(0), ..old(self)@ }),
    {
        self.playlist.jump_first();
    }

    pub fn jump_last(&mut self)
        requires
            old(self).well_formed(),
        ensures
            final(self).well_formed(),
            final(self)@ == (ShowState {
                playlist: old(self)@.playlist.at(old(self)@.playlist.last()),
                ..old(self)@
            }),
    {
        self.playlist.jump_last();
    }

    pub fn set_looping(&mut self, looping: bool)
        requires
            old(self).well_formed(),
        ensures
            final(self).well_formed(),
            final(self)@ == (ShowState {
                playlist: PlaylistState { loops: looping, ..old(self)@.playlist },
                ..old(self)@
            }),
    {
        self.playlist.set_looping(looping);
    }

    /// Turn shuffle on or off, in an order that the clock seeds.
    pub fn set_shuffled(&mut self, shuffled: bool)
        requires
            old(self).well_formed(),
        ensures
            final(self).well_formed(),
            exists|state: u64|
                state % 2 == 1 && final(self)@.playlist == #[trigger] old(
                    self,
                )@.playlist.reshuffled(shuffled, state),
            final(self)@ == (ShowState { playlist: final(self)@.playlist, ..old(self)@ }),
    {
        self.playlist.set_shuffled(shuffled);
    }

    /// Advance on its own from now on, every so many tenths, or stop.
    pub fn set_pace(&mut self, pace: Option<u64>)
        requires
            old(self).well_formed(),
        ensures
            final(self).well_formed(),
            final(self)@ == (ShowState { interval: pace, ticking: pace is Some, ..old(self)@ }),
    {
        self.interval = pace;
        self.ticking = pace.is_some();
    }

    /// Pause, or go on.
    pub fn set_ticking(&mut self, ticking: bool)
        requires
            old(self).well_formed(),
            old(self)@.interval is Some,
        ensures
            final(self).well_formed(),
            final(self)@ == (ShowState { ticking, ..old(self)@ }),
    {
        self.ticking = ticking;
    }

    pub fn set_flash(&mut self, text: String)
        requires
            old(self).well_formed(),
        ensures
            final(self).well_formed(),
            final(self)@ == (ShowState { flash: Some(text@), ..old(self)@ }),
    {
        self.flash = Some(text);
    }

    pub fn clear_flash(&mut self)
        requires
            old(self).well_formed(),
        ensures
            final(self).well_formed(),
            final(self)@ == (ShowState { flash: None, ..old(self)@ }),
    {
        self.flash = None;
    }

    /// Do something to the slide on screen, and remember it for its file.
    /// Says whether it could be done.
    pub fn change_view(&mut self, change: SlideChange) -> (done: bool)
        requires
            old(self).well_formed(),
            change.well_formed(),
        ensures
            final(self).well_formed(),
            done == old(self)@.view.takes(change),
            final(self)@ == old(self)@.touched(change),
    {
        if self.view.change(change) {
            self.note_state();
            true
        } else {
            false
        }
    }

    pub fn is_windowed(&self) -> (windowed: bool)
        ensures
            windowed == self@.windowed,
    {
        self.windowed
    }

    pub fn interval(&self) -> (interval: Option<u64>)
        ensures
            interval == self@.interval,
    {
        self.interval
    }

    pub fn is_ticking(&self) -> (ticking: bool)
        ensures
            ticking == self@.ticking,
    {
        self.ticking
    }

    pub fn has_flash(&self) -> (flashing: bool)
        ensures
            flashing == (self@.flash is Some),
    {
        self.flash.is_some()
    }

    /// The slide on screen.
    pub fn slide_view(&self) -> (view: &SlideView)
        ensures
            *view == self@.view,
    {
        &self.view
    }

    /// The image of a slide at hand.
    pub fn image(&self, path: &FilePath) -> (image: Option<&I>)
        requires
            self.well_formed(),
        ensures
            match image {
                Some(i) => holds(self@.cache, *path) && *i == self@.cache[place(
                    self@.cache,
                    *path,
                )].value,
                None => !holds(self@.cache, *path),
            },
    {
        self.cache.peek(path)
    }

    /// The file that plays.
    pub fn current(&self) -> (path: Option<&FilePath>)
        requires
            self.well_formed(),
        ensures
            match path {
                Some(p) => self@.playlist.current() == Some(*p),
                None => self@.playlist.current() is None,
            },
    {
        self.playlist.current()
    }

    /// The index of the file that plays, in the sorted order.
    pub fn current_index(&self) -> (index: usize)
        requires
            self.well_formed(),
        ensures
            index == self@.playlist.file_at(self@.playlist.position),
    {
        self.playlist.current_index()
    }

    pub fn len(&self) -> (count: usize)
        ensures
            count == self@.playlist.files.len(),
    {
        self.playlist.len()
    }
}

/// What was done to a slide is remembered for its file: whenever that file is
/// on screen again, its slide looks as it was left. A file that nothing was
/// done to starts untouched.
pub proof fn slides_are_remembered<I>(show: ShowState<I>, later: ShowState<I>, path: FilePath)
    requires
        show.valid(),
        show.is_current(path),
        later.view_states == show.noted().view_states,
        later.is_current(path),
        holds(later.cache, later.playlist.current()->0),
    ensures
        later.refreshed().view.state == show.view.state,
        later.refreshed().view.image == later.playlist.current(),
        forall|other: FilePath|
            !same_path(other@, path@) ==> #[trigger] show.noted().remembered(other)
                == show.remembered(other),
{
}

/// No slide is asked for twice, and none that is at hand.
pub proof fn requests_are_few<I>(show: ShowState<I>)
    ensures
        forall|i: int, j: int|
            0 <= i < j < show.requests().len() ==> !same_path(
                (#[trigger] show.requests()[i])@,
                (#[trigger] show.requests()[j])@,
            ),
        forall|i: int|
            0 <= i < show.requests().len() ==> !holds(show.cache, #[trigger] show.requests()[i]),
        show.requests().len() <= 3,
{
    let a = with_new(Seq::empty(), show.playlist.ahead(-1));
    let b = with_new(a, show.playlist.ahead(0));
    let c = with_new(b, show.playlist.ahead(1));
    pushing_new_keeps_apart(Seq::empty(), show.playlist.ahead(-1));
    pushing_new_keeps_apart(a, show.playlist.ahead(0));
    pushing_new_keeps_apart(b, show.playlist.ahead(1));
    filtering_keeps_apart(c, |p: FilePath| show.needs(p));
}

proof fn pushing_new_keeps_apart(list: Seq<FilePath>, path: Option<FilePath>)
    requires
        all_different(list),
    ensures
        all_different(with_new(list, path)),
        with_new(list, path).len() <= list.len() + 1,
{
    if path is Some && !lists(list, components(path->0@)) {
        assert forall|i: int| 0 <= i < list.len() implies !same_path(
            (#[trigger] list[i])@,
            path->0@,
        ) by {
            if same_path(list[i]@, path->0@) {
                assert(lists(list, components(path->0@)));
            }
        }
    }
}

proof fn filtering_keeps_apart(paths: Seq<FilePath>, keep: spec_fn(FilePath) -> bool)
    requires
        all_different(paths),
    ensures
        all_different(paths.filter(keep)),
        paths.filter(keep).len() <= paths.len(),
        forall|i: int|
            0 <= i < paths.filter(keep).len() ==> keep(#[trigger] paths.filter(keep)[i]),
        forall|i: int|
            0 <= i < paths.filter(keep).len() ==> paths.contains(#[trigger] paths.filter(keep)[i]),
    decreases paths.len(),
{
    reveal(Seq::filter);
    if paths.len() > 0 {
        let front = paths.drop_last();
        let last = paths.last();
        assert forall|i: int, j: int| 0 <= i < j < front.len() implies !same_path(
            (#[trigger] front[i])@,
            (#[trigger] front[j])@,
        ) by {
            assert(front[i] == paths[i] && front[j] == paths[j]);
        }
        filtering_keeps_apart(front, keep);
        let kept = front.filter(keep);
        let whole = paths.filter(keep);
        assert forall|i: int| 0 <= i < kept.len() implies paths.contains(#[trigger] kept[i])
            && !same_path(kept[i]@, last@) by {
            assert(front.contains(kept[i]));
            let k = choose|k: int| 0 <= k < front.len() && front[k] == kept[i];
            assert(paths[k] == kept[i]);
            assert(paths[paths.len() - 1] == last);
        }
        assert forall|i: int, j: int| 0 <= i < j < whole.len() implies !same_path(
            (#[trigger] whole[i])@,
            (#[trigger] whole[j])@,
        ) by {
            assert(whole[i] == kept[i]);
            if j < kept.len() {
                assert(whole[j] == kept[j]);
            }
        }
        assert forall|i: int| 0 <= i < whole.len() implies paths.contains(#[trigger] whole[i])
            && keep(whole[i]) by {
            if i < kept.len() {
                assert(whole[i] == kept[i]);
            } else {
                assert(paths[paths.len() - 1] == whole[i]);
            }
        }
    }
}

/// The current slide comes on screen: from those at hand, as it was left, or
/// by asking for it. A message over the slide before goes.
pub proof fn the_current_slide_comes_on_screen<I>(show: ShowState<I>)
    requires
        show.valid(),
        show.playlist.current() is Some,
    ensures
        ({
            let current = show.playlist.current()->0;
            let after = show.refreshed();
            &&& after.flash is None
            &&& after.playlist == show.playlist
            &&& holds(show.cache, current) ==> after.view.image == Some(current)
                && !after.view.animating && after.view.state == show.remembered(current)
            &&& !holds(show.cache, current) ==> after.view == show.view && lists(
                after.requests(),
                components(current@),
            )
        }),
{
    let current = show.playlist.current()->0;
    assert(0 <= show.playlist.position < show.playlist.files.len());
    assert(show.playlist.ahead(0) == Some(current));
    let after = show.refreshed();
    if !holds(show.cache, current) {
        wanted_lists(show.playlist, 0);
        needed_is_requested(after, current);
    }
}

/// The slides before and behind the current one are asked for ahead of time,
/// unless they are at hand or may be animated.
pub proof fn neighbours_are_asked_for<I>(show: ShowState<I>, delta: int)
    requires
        show.valid(),
        delta == 1 || delta == -1,
        show.playlist.ahead(delta) is Some,
        !holds(show.cache, show.playlist.ahead(delta)->0),
        !animated_path(show.playlist.ahead(delta)->0@),
    ensures
        lists(show.requests(), components(show.playlist.ahead(delta)->0@)),
{
    wanted_lists(show.playlist, delta);
    needed_is_requested(show, show.playlist.ahead(delta)->0);
}

proof fn new_is_listed(list: Seq<FilePath>, path: Option<FilePath>)
    ensures
        path is Some ==> lists(with_new(list, path), components(path->0@)),
        forall|parts: Seq<Seq<char>>| #[trigger]
            lists(list, parts) ==> lists(with_new(list, path), parts),
{
    let after = with_new(list, path);
    if path is Some && !lists(list, components(path->0@)) {
        assert(after[list.len() as int] == path->0);
    }
    assert forall|parts: Seq<Seq<char>>| #[trigger] lists(list, parts) implies lists(
        after,
        parts,
    ) by {
        let k = choose|k: int| 0 <= k < list.len() && components((#[trigger] list[k])@) == parts;
        assert(after[k] == list[k]);
    }
}

proof fn wanted_lists(playlist: PlaylistState, delta: int)
    requires
        delta == -1 || delta == 0 || delta == 1,
        playlist.ahead(delta) is Some,
    ensures
        lists(wanted(playlist), components(playlist.ahead(delta)->0@)),
{
    let none = Seq::<FilePath>::empty();
    let a = with_new(none, playlist.ahead(-1));
    let b = with_new(a, playlist.ahead(0));
    new_is_listed(none, playlist.ahead(-1));
    new_is_listed(a, playlist.ahead(0));
    new_is_listed(b, playlist.ahead(1));
}

proof fn needed_is_requested<I>(show: ShowState<I>, path: FilePath)
    requires
        lists(wanted(show.playlist), components(path@)),
        show.needs(path),
    ensures
        lists(show.requests(), components(path@)),
{
    let all = wanted(show.playlist);
    let k = choose|k: int|
        0 <= k < all.len() && components((#[trigger] all[k])@) == components(path@);
    let twin = all[k];
    assert(file_name(twin@) == file_name(path@));
    if holds(show.cache, twin) {
        let i = choose|i: int| is_at(show.cache, twin, i);
        assert(is_at(show.cache, path, i));
    }
    assert(show.needs(twin));
    kept_by_filter(all, |p: FilePath| show.needs(p), k);
    let kept = show.requests();
    let m = choose|m: int| 0 <= m < kept.len() && kept[m] == twin;
    assert(components(kept[m]@) == components(path@));
}

proof fn kept_by_filter(all: Seq<FilePath>, keep: spec_fn(FilePath) -> bool, k: int)
    requires
        0 <= k < all.len(),
        keep(all[k]),
    ensures
        all.filter(keep).contains(all[k]),
    decreases all.len(),
{
    reveal(Seq::filter);
    let front = all.drop_last();
    let whole = all.filter(keep);
    if k < front.len() {
        kept_by_filter(front, keep, k);
        let m = choose|m: int|
            0 <= m < front.filter(keep).len() && front.filter(keep)[m] == front[k];
        assert(whole[m] == all[k]);
    } else {
        assert(whole[front.filter(keep).len() as int] == all[k]);
    }
}

/// A slide that was decoded is at hand, and comes on screen, as it was left,
/// if it is the current one. Frames come on screen and play if they are those
/// of the current slide, and are not kept.
pub proof fn decoded_slides_are_at_hand<I>(show: ShowState<I>, path: FilePath, image: I, cost: usize)
    requires
        show.valid(),
    ensures
        ({
            let after = show.with_slide(path, image, cost);
            let frames = show.with_frames(path);
            &&& holds(after.cache, path) && after.cache[place(after.cache, path)].value == image
            &&& after.playlist == show.playlist
            &&& show.is_current(path) ==> after.view.image == Some(path) && !after.view.animating
                && after.view.state == show.remembered(path)
            &&& !show.is_current(path) ==> after.view == show.view
            &&& frames.cache == show.cache && frames.playlist == show.playlist
            &&& show.is_current(path) ==> frames.view.image == Some(path) && frames.view.animating
                && frames.view.state == show.remembered(path)
            &&& !show.is_current(path) ==> frames == show
        }),
{
    insert_is_read_back(
        show.cache,
        Entry { key: path, value: image, cost },
        SLIDE_CACHE_BYTES as nat,
    );
}

/// The line over the slide counts the files from one, names the current one,
/// and tells in brackets how the show plays and what was done to the slide. A
/// message takes its place.
pub proof fn the_line_tells_what_is_shown<I>(show: ShowState<I>)
    requires
        show.valid(),
        show.playlist.files.len() > 0,
    ensures
        ({
            let list = show.playlist;
            let index = list.file_at(list.position);
            let state = show.view.state;
            let front = decimal((index + 1) as nat) + "/"@ + decimal(list.files.len()) + "  "@ + (
            match file_name(list.files[index]@) {
                Some(name) => name,
                None => Seq::empty(),
            });
            let line = show.overlay();
            &&& show.flash is Some ==> line == show.flash->0
            &&& show.flash is None ==> {
                &&& front.len() <= line.len() && line.take(front.len() as int) == front
                &&& list.order.len() == 0 && !list.loops && show.interval is None && state
                    == SlideState::untouched() ==> line == front
                &&& list.order.len() > 0 && !list.loops && show.interval is None && state
                    == SlideState::untouched() ==> line == front + "  [shuffle]"@
                &&& list.order.len() == 0 && list.loops && show.interval is None && state
                    == SlideState::untouched() ==> line == front + "  [loop]"@
                &&& list.order.len() == 0 && !list.loops && show.interval is Some && show.ticking
                    && state == SlideState::untouched() ==> line == front + "  ["@ + tenths_text(
                    show.interval->0 as nat,
                ) + "s]"@
                &&& list.order.len() == 0 && !list.loops && show.interval is Some && !show.ticking
                    && state == SlideState::untouched() ==> line == front + "  [paused]"@
                &&& list.order.len() == 0 && !list.loops && show.interval is None
                    && state.rotation != 0 && !state.flipped && state.zoom is None ==> line
                    == front + "  ["@ + decimal(state.rotation as nat) + "°]"@
                &&& list.order.len() == 0 && !list.loops && show.interval is None
                    && state.rotation == 0 && state.flipped && state.zoom is None ==> line == front
                    + "  [flipped]"@
                &&& list.order.len() == 0 && !list.loops && show.interval is None
                    && state.rotation == 0 && !state.flipped && state.zoom is Some ==> line
                    == front + "  ["@ + decimal(
                    percent(sixteenths(state.zoom->0 as int)) as nat,
                ) + "%]"@
                &&& list.order.len() > 0 && list.loops && show.interval is None && state
                    == SlideState::untouched() ==> line == front + "  [shuffle]"@ + "  [loop]"@
                &&& line == front + show.mode_part() + show.pace_part() + show.view_part()
            }
        }),
{
    let list = show.playlist;
    let index = list.file_at(list.position);
    let front = decimal((index + 1) as nat) + "/"@ + decimal(list.files.len()) + "  "@ + (
    match file_name(list.files[index]@) {
        Some(name) => name,
        None => Seq::empty(),
    });
    let line = show.overlay();
    let none = Seq::<char>::empty();
    if show.flash is None {
        assert(line =~= front + show.mode_part() + show.pace_part() + show.view_part());
        assert(line.take(front.len() as int) =~= front);
        let state = show.view.state;
        if list.order.len() == 0 && !list.loops {
            assert(show.mode_part() =~= none);
        }
        if list.order.len() > 0 && !list.loops {
            assert(show.mode_part() =~= "  [shuffle]"@);
        }
        if list.order.len() == 0 && list.loops {
            assert(show.mode_part() =~= "  [loop]"@);
        }
        if list.order.len() > 0 && list.loops {
            assert(front + show.mode_part() =~= front + "  [shuffle]"@ + "  [loop]"@);
        }
        if state.rotation == 0 && !state.flipped && state.zoom is None {
            assert(show.view_part() =~= none);
        }
        if state.rotation != 0 && !state.flipped && state.zoom is None {
            assert(show.view_part() =~= "  ["@ + decimal(state.rotation as nat) + "°]"@);
        }
        if state.rotation == 0 && state.flipped && state.zoom is None {
            assert(show.view_part() =~= "  [flipped]"@);
        }
        assert(front + none + none + none =~= front);
        if state.rotation == 0 && !state.flipped && state.zoom is Some {
            assert(show.view_part() =~= "  ["@ + decimal(
                percent(sixteenths(state.zoom->0 as int)) as nat,
            ) + "%]"@);
        }
        assert(front + show.mode_part() + none + none =~= front + show.mode_part());
        assert(front + none + show.pace_part() + none =~= front + show.pace_part());
        assert(front + none + none + show.view_part() =~= front + show.view_part());
        if show.interval is Some && show.ticking {
            assert(front + show.pace_part() =~= front + "  ["@ + tenths_text(
                show.interval->0 as nat,
            ) + "s]"@);
        }
        if state.rotation != 0 && !state.flipped && state.zoom is None {
            assert(front + show.view_part() =~= front + "  ["@ + decimal(state.rotation as nat)
                + "°]"@);
        }
        if state.rotation == 0 && !state.flipped && state.zoom is Some {
            assert(front + show.view_part() =~= front + "  ["@ + decimal(
                percent(sixteenths(state.zoom->0 as int)) as nat,
            ) + "%]"@);
        }
    }
}

/// Whole seconds are written without a fraction, and others with one digit.
pub proof fn tenths_are_written_short(seconds: nat, tenths: nat)
    requires
        tenths < 10,
    ensures
        tenths_text(10 * seconds) == decimal(seconds),
        tenths > 0 ==> tenths_text(10 * seconds + tenths) == decimal(seconds) + "."@ + decimal(
            tenths,
        ),
{
}

/// A slide that may be animated is asked for only when it is on screen, and
/// nothing is asked for but the current slide and those before and behind it.
pub proof fn only_what_comes_next_is_asked_for<I>(show: ShowState<I>, k: int)
    requires
        show.valid(),
        0 <= k < show.requests().len(),
    ensures
        ({
            let path = show.requests()[k];
            &&& animated_path(path@) ==> show.is_current(path)
            &&& show.playlist.ahead(-1) == Some(path) || show.playlist.ahead(0) == Some(path)
                || show.playlist.ahead(1) == Some(path)
            &&& !holds(show.cache, path)
        }),
{
    let none = Seq::<FilePath>::empty();
    let a = with_new(none, show.playlist.ahead(-1));
    let b = with_new(a, show.playlist.ahead(0));
    let c = with_new(b, show.playlist.ahead(1));
    pushing_new_keeps_apart(none, show.playlist.ahead(-1));
    pushing_new_keeps_apart(a, show.playlist.ahead(0));
    pushing_new_keeps_apart(b, show.playlist.ahead(1));
    filtering_keeps_apart(c, |p: FilePath| show.needs(p));
    let path = show.requests()[k];
    assert(c.contains(path));
    let i = choose|i: int| 0 <= i < c.len() && c[i] == path;
    if i < b.len() {
        assert(b[i] == path);
        if i < a.len() {
            assert(a[i] == path);
        }
    }
}

/// The marks of the line follow each other: how the show plays, its pace, and
/// how the slide is turned, flipped and zoomed, each only where there is
/// something to tell.
pub proof fn marks_follow_each_other<I>(show: ShowState<I>)
    requires
        show.flash is None,
    ensures
        ({
            let none = Seq::<char>::empty();
            let list = show.playlist;
            let state = show.view.state;
            let shuffle = if list.order.len() > 0 {
                "  [shuffle]"@
            } else {
                none
            };
            let looped = if list.loops {
                "  [loop]"@
            } else {
                none
            };
            let pace = if show.interval is Some && show.ticking {
                "  ["@ + tenths_text(show.interval->0 as nat) + "s]"@
            } else if show.interval is Some {
                "  [paused]"@
            } else {
                none
            };
            let turned = if state.rotation != 0 {
                "  ["@ + decimal(state.rotation as nat) + "°]"@
            } else {
                none
            };
            let flipped = if state.flipped {
                "  [flipped]"@
            } else {
                none
            };
            let zoomed = if state.zoom is Some {
                "  ["@ + decimal(percent(sixteenths(state.zoom->0 as int)) as nat) + "%]"@
            } else {
                none
            };
            show.overlay() == show.count_part() + (shuffle + looped) + pace + (turned + flipped
                + zoomed)
        }),
{
}

} // verus!
