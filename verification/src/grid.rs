//! The thumbnail grid: what it shows of a folder, what is selected, and which
//! thumbnails are at hand. Where the cells lie on screen is up to the view
//! that draws them.

use vstd::prelude::*;

use crate::cache::{
    distinct, evictions, holds, place, total_cost, used, without, Entry, LruCache,
};
use crate::order::{
    all_comparable, can_sort, is_sorted, keeps_equals, sort_files, FileInfo, SortOrder,
};
use crate::path::{components, file_name, first_same, first_same_in_front, lists, FilePath, PathSet};
use crate::text::{contains, occurs_in};

verus! {

/// Thumbnail memory budget. Evicted cells ask again on their next draw.
pub const THUMB_CACHE_BYTES: usize = 268435456;

/// The lower case of a text.
pub uninterp spec fn lowercase(text: Seq<char>) -> Seq<char>;

/// `str::to_lowercase`. The contract claims that the result depends on
/// nothing but the text, and that something of a text is left in lower case:
/// a character becomes one or more.
#[verifier::external_body]
fn to_lowercase(text: &str) -> (out: String)
    ensures
        out@ == lowercase(text@),
        text@.len() > 0 ==> out@.len() > 0,
{
    text.to_lowercase()
}

/// The paths of files, in order.
pub open spec fn paths_of(files: Seq<FileInfo>) -> Seq<FilePath> {
    files.map_values(|f: FileInfo| f.path)
}

/// Where a file first stands in a list, by its path.
pub open spec fn place_of(files: Seq<FileInfo>, path: FilePath) -> Option<int> {
    first_same(paths_of(files), path)
}

/// What a filter is made of a text: nothing of nothing, the lower case
/// otherwise.
pub open spec fn filter_of(text: Seq<char>) -> Seq<char> {
    if text.len() == 0 {
        Seq::empty()
    } else {
        lowercase(text)
    }
}

/// Whether a filter lets a name through: the name, in lower case, holds the
/// filter. An empty filter lets everything through.
pub open spec fn name_passes(lower: Seq<char>, filter: Seq<char>) -> bool {
    filter.len() == 0 || occurs_in(lower, filter)
}

/// Whether a filter lets a file through, by its name.
pub open spec fn passes(info: FileInfo, filter: Seq<char>) -> bool {
    match file_name(info.path@) {
        Some(name) => name_passes(lowercase(name), filter),
        None => filter.len() == 0,
    }
}

/// The files that a filter lets through.
pub open spec fn visible(all: Seq<FileInfo>, filter: Seq<char>) -> Seq<FileInfo> {
    all.filter(|info: FileInfo| passes(info, filter))
}

/// The chosen ones among the first `count` numbers, ascending.
pub open spec fn ascending(chosen: Set<int>, count: nat) -> Seq<int>
    decreases count,
{
    if count == 0 {
        Seq::empty()
    } else {
        let front = ascending(chosen, (count - 1) as nat);
        if chosen.contains(count - 1) {
            front.push(count - 1)
        } else {
            front
        }
    }
}

/// The lesser of two numbers.
pub open spec fn lesser(a: int, b: int) -> int {
    if a < b {
        a
    } else {
        b
    }
}

/// A place in a list as a mathematical number.
pub open spec fn as_place(slot: Option<usize>) -> Option<int> {
    match slot {
        Some(i) => Some(i as int),
        None => None,
    }
}

/// Everything there is to say of a grid.
#[verifier::ext_equal]
pub struct GridState<I> {
    /// Every image in the folder, in sort order.
    pub all: Seq<FileInfo>,
    /// What the grid shows.
    pub files: Seq<FileInfo>,
    pub filter: Seq<char>,
    pub labels: bool,
    /// The thumbnails at hand, the least recently used first.
    pub thumbs: Seq<Entry<FilePath, I>>,
    /// The files whose thumbnail was asked for.
    pub requested: Set<Seq<Seq<char>>>,
    /// Places in `files`.
    pub selected: Set<int>,
    pub focus: Option<int>,
    pub anchor: Option<int>,
}

impl<I> GridState<I> {
    /// What every operation keeps: the grid shows what the filter lets
    /// through, and the selection, the focus and the anchor lie in it.
    pub open spec fn valid(self) -> bool {
        &&& self.files == visible(self.all, self.filter)
        &&& forall|i: int| #[trigger] self.selected.contains(i) ==> 0 <= i < self.files.len()
        &&& self.focus is Some ==> 0 <= self.focus->0 < self.files.len()
        &&& self.anchor is Some ==> 0 <= self.anchor->0 < self.files.len()
    }

    /// A grid of no folder.
    pub open spec fn blank(labels: bool) -> GridState<I> {
        GridState {
            all: Seq::empty(),
            files: Seq::empty(),
            filter: Seq::empty(),
            labels,
            thumbs: Seq::empty(),
            requested: Set::empty(),
            selected: Set::empty(),
            focus: None,
            anchor: None,
        }
    }

    /// The places of the selection, ascending.
    pub open spec fn picked(self) -> Seq<int> {
        ascending(self.selected, self.files.len())
    }

    /// The selected files, in the order of the grid.
    pub open spec fn picked_files(self) -> Seq<FileInfo> {
        self.picked().map_values(|i: int| self.files[i])
    }

    /// Where the file at a place of this grid stands in another list.
    pub open spec fn follow(self, slot: Option<int>, shown: Seq<FileInfo>) -> Option<int> {
        match slot {
            Some(i) => place_of(shown, self.files[i].path),
            None => None,
        }
    }

    /// The selection, on the same files in another list.
    pub open spec fn follow_all(self, shown: Seq<FileInfo>) -> Set<int> {
        Set::new(
            |p: int|
                exists|i: int| #[trigger]
                    self.selected.contains(i) && self.follow(Some(i), shown) == Some(p),
        )
    }

    /// The grid once it shows what it should, with the selection, the focus
    /// and the anchor on the same files. An anchor whose file is gone goes to
    /// the focus.
    pub open spec fn rebuilt(self) -> GridState<I> {
        let shown = visible(self.all, self.filter);
        let focus = self.follow(self.focus, shown);
        GridState {
            files: shown,
            selected: self.follow_all(shown),
            focus,
            anchor: match self.follow(self.anchor, shown) {
                Some(i) => Some(i),
                None => focus,
            },
            ..self
        }
    }
}

/// A list after inserts, each at its index, or at the end where the index
/// lies beyond it.
pub open spec fn mirrored(all: Seq<FileInfo>, inserts: Seq<(usize, FileInfo)>) -> Seq<FileInfo>
    decreases inserts.len(),
{
    if inserts.len() == 0 {
        all
    } else {
        let front = mirrored(all, inserts.drop_last());
        front.insert(lesser(inserts.last().0 as int, front.len() as int), inserts.last().1)
    }
}

/// Where those of `paths` that a list holds stand in it.
pub open spec fn places_of(files: Seq<FileInfo>, paths: Seq<FilePath>) -> Seq<int>
    decreases paths.len(),
{
    if paths.len() == 0 {
        Seq::empty()
    } else {
        let front = places_of(files, paths.drop_last());
        match place_of(files, paths.last()) {
            Some(i) => front.push(i),
            None => front,
        }
    }
}

/// The greatest of some places, or -1 where there are none.
pub open spec fn greatest(places: Seq<int>) -> int
    decreases places.len(),
{
    if places.len() == 0 {
        -1
    } else if greatest(places.drop_last()) > places.last() {
        greatest(places.drop_last())
    } else {
        places.last()
    }
}

impl<I> GridState<I> {
    /// One place selected, focused and anchored.
    pub open spec fn on(self, i: int) -> GridState<I> {
        GridState { selected: set![i], focus: Some(i), anchor: Some(i), ..self }
    }

    /// The folder without `paths`, nor anything at hand for those that were
    /// in it.
    pub open spec fn dropped(self, paths: Seq<FilePath>) -> GridState<I>
        decreases paths.len(),
    {
        if paths.len() == 0 {
            self
        } else {
            let rest = self.dropped(paths.drop_last());
            let path = paths.last();
            match place_of(rest.all, path) {
                Some(i) => GridState {
                    all: rest.all.remove(i),
                    thumbs: without(rest.thumbs, path),
                    requested: rest.requested.remove(components(path@)),
                    ..rest
                },
                None => rest,
            }
        }
    }

    /// The grid without `paths`. Where the focused file goes, the focus stays
    /// in its place, on whatever slid into it.
    pub open spec fn removed(self, paths: Seq<FilePath>) -> GridState<I> {
        let dropped = self.dropped(paths);
        if dropped.all.len() == self.all.len() {
            self
        } else {
            let rebuilt = dropped.rebuilt();
            let count = rebuilt.files.len();
            if rebuilt.focus is None && self.focus is Some && count > 0 {
                let slot = Some(lesser(self.focus->0, count - 1));
                GridState { focus: slot, anchor: slot, ..rebuilt }
            } else {
                rebuilt
            }
        }
    }

    /// The place that the image behind the last of `paths` slides into.
    pub open spec fn follower(self, paths: Seq<FilePath>) -> Option<int> {
        let places = places_of(self.files, paths);
        if places.len() == 0 {
            None
        } else if greatest(places) + 1 < places.len() {
            Some(0)
        } else {
            Some(greatest(places) + 1 - places.len())
        }
    }

    /// The grid without `paths`, with the image behind the last of them
    /// selected, or the last image where there is none behind.
    pub open spec fn advanced(self, paths: Seq<FilePath>) -> GridState<I> {
        let rest = self.removed(paths);
        let count = rest.files.len() as int;
        match self.follower(paths) {
            Some(follower) if count > 0 => rest.on(lesser(follower, count - 1)),
            _ => rest,
        }
    }

    /// What a slideshow of the grid plays, and where it starts: none or one
    /// selected plays everything, from the selection on, or from the focus
    /// where nothing is selected; several selected play just those, from the
    /// focused one on.
    pub open spec fn request(self) -> (Seq<FilePath>, int) {
        let picked = self.picked();
        if picked.len() >= 2 {
            (
                paths_of(self.picked_files()),
                match self.focus {
                    Some(f) if picked.contains(f) => picked.index_of(f),
                    _ => 0,
                },
            )
        } else {
            (
                paths_of(self.files),
                if picked.len() == 1 {
                    picked[0]
                } else {
                    match self.focus {
                        Some(f) => f,
                        None => 0,
                    }
                },
            )
        }
    }

    /// A click on a cell, or on empty space.
    pub open spec fn clicked(self, hit: Option<int>, cmd: bool, shift: bool) -> GridState<I> {
        match hit {
            None => if cmd {
                self
            } else {
                GridState { selected: Set::empty(), ..self }
            },
            Some(i) => if shift {
                let from = match self.anchor {
                    Some(a) => a,
                    None => i,
                };
                GridState {
                    selected: Set::new(|p: int| from <= p <= i || i <= p <= from),
                    focus: Some(i),
                    ..self
                }
            } else if cmd {
                GridState {
                    selected: if self.selected.contains(i) {
                        self.selected.remove(i)
                    } else {
                        self.selected.insert(i)
                    },
                    focus: Some(i),
                    anchor: Some(i),
                    ..self
                }
            } else {
                self.on(i)
            },
        }
    }

    /// Where the focus goes when it moves by `delta`: within the grid, and to
    /// its first file where there was none.
    pub open spec fn stepped(self, delta: int) -> int {
        match self.focus {
            Some(f) => if f + delta < 0 {
                0
            } else {
                lesser(f + delta, self.files.len() - 1)
            },
            None => 0,
        }
    }
}

/// What to draw in a cell.
pub enum Cell<'a, I> {
    Image(&'a I),
    /// A thumbnail that was asked for before.
    Waiting,
    /// A thumbnail to ask for.
    Request(FilePath),
}

/// What a key press comes to.
#[derive(Clone, Copy, Debug, PartialEq, Eq, Structural)]
pub enum GridKey {
    /// Start a slideshow.
    Activate,
    Escape,
    /// The selection moved.
    Moved,
    /// The key is known and does nothing now.
    Nothing,
    /// The key means nothing to the grid.
    Unknown,
}

/// By how much an arrow key moves the focus in a grid of `columns`.
pub open spec fn key_delta(code: u16, columns: int) -> Option<int> {
    if code == 123 {
        Some(-1)
    } else if code == 124 {
        Some(1)
    } else if code == 126 {
        Some(-columns)
    } else if code == 125 {
        Some(columns)
    } else {
        None
    }
}

impl<I> GridState<I> {
    /// What a key press comes to.
    pub open spec fn key(self, code: u16, columns: int) -> GridKey {
        if code == 36 {
            if self.focus is Some || self.selected != Set::<int>::empty() {
                GridKey::Activate
            } else {
                GridKey::Nothing
            }
        } else if code == 53 {
            GridKey::Escape
        } else if key_delta(code, columns) is None {
            GridKey::Unknown
        } else if self.files.len() == 0 {
            GridKey::Nothing
        } else {
            GridKey::Moved
        }
    }

    /// The grid with a thumbnail that came in. Evicted thumbnails count as
    /// not asked for.
    pub open spec fn with_thumb(self, path: FilePath, image: I, cost: usize) -> GridState<I> {
        let full = without(self.thumbs, path).push(Entry { key: path, value: image, cost });
        let gone = evictions(full, THUMB_CACHE_BYTES as nat) as int;
        let evicted = full.take(gone).map_values(|e: Entry<FilePath, I>| e.key);
        GridState {
            thumbs: full.skip(gone),
            requested: Set::new(
                |parts: Seq<Seq<char>>| self.requested.contains(parts) && !lists(evicted, parts),
            ),
            ..self
        }
    }

    /// The grid after it drew the cell at a place.
    pub open spec fn drawn(self, i: int) -> GridState<I> {
        let path = self.files[i].path;
        if holds(self.thumbs, path) {
            GridState { thumbs: used(self.thumbs, path), ..self }
        } else {
            GridState { requested: self.requested.insert(components(path@)), ..self }
        }
    }
}

/// How many rows some cells take up; an empty grid has one.
pub open spec fn rows_for(count: int, columns: int) -> int {
    if count == 0 {
        1
    } else if count % columns == 0 {
        count / columns
    } else {
        count / columns + 1
    }
}

/// The row and the column of the cell at a place.
pub fn cell_place(index: usize, columns: usize) -> (place: (usize, usize))
    requires
        columns > 0,
    ensures
        place.0 * columns + place.1 == index,
        place.1 < columns,
{
    proof {
        vstd::arithmetic::div_mod::lemma_fundamental_div_mod(index as int, columns as int);
        assert(columns * (index / columns) == (index / columns) * columns) by (nonlinear_arith);
    }
    (index / columns, index % columns)
}

/// The thumbnail grid.
pub struct GridView<I> {
    all: Vec<FileInfo>,
    files: Vec<FileInfo>,
    filter: String,
    labels: bool,
    thumbs: LruCache<FilePath, I>,
    requested: PathSet,
    /// For each file that is shown, whether it is selected.
    selected: Vec<bool>,
    focus: Option<usize>,
    anchor: Option<usize>,
}

/// The places that are marked.
pub open spec fn marked(marks: Seq<bool>) -> Set<int> {
    Set::new(|i: int| 0 <= i < marks.len() && marks[i])
}

impl<I> View for GridView<I> {
    type V = GridState<I>;

    closed spec fn view(&self) -> GridState<I> {
        GridState {
            all: self.all@,
            files: self.files@,
            filter: self.filter@,
            labels: self.labels,
            thumbs: self.thumbs@,
            requested: self.requested@,
            selected: marked(self.selected@),
            focus: as_place(self.focus),
            anchor: as_place(self.anchor),
        }
    }
}

/// Whether a filter lets a name through, given its lower case.
pub fn name_matches(lower: &str, filter: &str) -> (fine: bool)
    ensures
        fine == name_passes(lower@, filter@),
{
    filter.is_empty() || contains(lower, filter)
}

/// Whether a filter lets a file through.
fn matches_filter(info: &FileInfo, filter: &str) -> (fine: bool)
    ensures
        fine == passes(*info, filter@),
{
    match info.path.file_name() {
        Some(name) => name_matches(to_lowercase(name.as_str()).as_str(), filter),
        None => filter.is_empty(),
    }
}

/// Where a file first stands in a list.
fn find_file(files: &Vec<FileInfo>, path: &FilePath) -> (found: Option<usize>)
    ensures
        as_place(found) == place_of(files@, *path),
        found is Some ==> found->0 < files.len(),
{
    let ghost paths = paths_of(files@);
    let mut i: usize = 0;
    while i < files.len()
        invariant
            i <= files.len(),
            paths == paths_of(files@),
            first_same(paths.take(i as int), *path) is None,
        decreases files.len() - i,
    {
        assert(paths.take(i + 1).drop_last() =~= paths.take(i as int));
        assert(paths[i as int] == files@[i as int].path);
        if files[i].path.same(path) {
            proof {
                first_same_in_front(paths, i + 1, *path);
            }
            return Some(i);
        }
        i += 1;
    }
    assert(paths.take(i as int) =~= paths);
    None
}

/// No marks for `count` files.
fn unmarked(count: usize) -> (marks: Vec<bool>)
    ensures
        marks.len() == count,
        marked(marks@) == Set::<int>::empty(),
{
    let mut marks: Vec<bool> = Vec::new();
    while marks.len() < count
        invariant
            marks.len() <= count,
            forall|i: int| 0 <= i < marks@.len() ==> !marks@[i],
        decreases count - marks.len(),
    {
        marks.push(false);
    }
    assert(marked(marks@) =~= Set::empty());
    marks
}

/// The files that a filter lets through.
fn filtered(all: &Vec<FileInfo>, filter: &str) -> (shown: Vec<FileInfo>)
    ensures
        shown@ == visible(all@, filter@),
{
    let mut shown: Vec<FileInfo> = Vec::new();
    let mut i: usize = 0;
    assert(all@.take(0) =~= Seq::empty());
    reveal(Seq::filter);
    while i < all.len()
        invariant
            i <= all.len(),
            shown@ == visible(all@.take(i as int), filter@),
        decreases all.len() - i,
    {
        reveal(Seq::filter);
        assert(all@.take(i + 1).drop_last() =~= all@.take(i as int));
        if matches_filter(&all[i], filter) {
            shown.push(all[i].clone());
        }
        i += 1;
    }
    assert(all@.take(i as int) =~= all@);
    shown
}

impl<I> GridView<I> {
    /// What the fields keep among themselves.
    pub closed spec fn sound(self) -> bool {
        &&& self.thumbs.well_formed()
        &&& self.thumbs.limit() == THUMB_CACHE_BYTES
        &&& self.selected.len() == self.files.len()
    }

    /// What every operation keeps.
    pub open spec fn well_formed(self) -> bool {
        self@.valid() && self.sound()
    }

    /// No file has two thumbnails.
    pub proof fn thumbs_are_distinct(&self)
        requires
            self.well_formed(),
        ensures
            distinct(self@.thumbs),
    {
        self.thumbs.keys_are_distinct();
    }

    pub fn new() -> (grid: Self)
        ensures
            grid.well_formed(),
            grid@ == GridState::<I>::blank(false),
    {
        let grid = GridView {
            all: Vec::new(),
            files: Vec::new(),
            filter: String::new(),
            labels: false,
            thumbs: LruCache::new(THUMB_CACHE_BYTES),
            requested: PathSet::new(),
            selected: Vec::new(),
            focus: None,
            anchor: None,
        };
        reveal(Seq::filter);
        assert(grid@.selected =~= Set::empty());
        assert(grid@.all =~= Seq::empty());
        grid
    }

    /// Where the file at a place stands among `shown`.
    fn followed(&self, slot: Option<usize>, shown: &Vec<FileInfo>) -> (found: Option<usize>)
        requires
            slot is Some ==> slot->0 < self.files.len(),
        ensures
            as_place(found) == self@.follow(as_place(slot), shown@),
            found is Some ==> found->0 < shown.len(),
    {
        match slot {
            Some(i) => find_file(shown, &self.files[i].path),
            None => None,
        }
    }

    /// Work out what the grid shows, keeping the selection, the focus and
    /// the anchor on the same files. Every change to the folder or the filter
    /// ends here.
    fn rebuild_visible(&mut self)
        requires
            old(self).sound(),
            old(self)@.focus is Some ==> 0 <= old(self)@.focus->0 < old(self)@.files.len(),
            old(self)@.anchor is Some ==> 0 <= old(self)@.anchor->0 < old(self)@.files.len(),
        ensures
            final(self).well_formed(),
            final(self)@ == old(self)@.rebuilt(),
    {
        let ghost start = self@;
        let shown = filtered(&self.all, self.filter.as_str());
        let mut selected = unmarked(shown.len());
        let mut i: usize = 0;
        while i < self.selected.len()
            invariant
                i <= self.selected.len() == self.files.len(),
                selected.len() == shown.len(),
                self@ == start,
                forall|p: int| #[trigger]
                    marked(selected@).contains(p) <==> exists|k: int|
                        k < i && #[trigger] start.selected.contains(k) && start.follow(
                            Some(k),
                            shown@,
                        ) == Some(p),
            decreases self.selected.len() - i,
        {
            let ghost before = selected@;
            if self.selected[i] {
                assert(start.selected.contains(i as int));
                match find_file(&shown, &self.files[i].path) {
                    Some(p) => {
                        selected.set(p, true);
                        assert(start.follow(Some(i as int), shown@) == Some(p as int));
                        assert(marked(selected@) =~= marked(before).insert(p as int));
                    },
                    None => {},
                }
            } else {
                assert(!start.selected.contains(i as int));
            }
            i += 1;
        }
        assert(marked(selected@) =~= start.follow_all(shown@));
        let focus = self.followed(self.focus, &shown);
        let anchor = match self.followed(self.anchor, &shown) {
            Some(i) => Some(i),
            // An anchor keeps its own file while it can.
            None => focus,
        };
        self.focus = focus;
        self.anchor = anchor;
        self.selected = selected;
        self.files = shown;
        assert(self@ =~= start.rebuilt());
    }

    pub fn labels_visible(&self) -> (visible: bool)
        ensures
            visible == self@.labels,
    {
        self.labels
    }

    pub fn set_labels(&mut self, visible: bool)
        requires
            old(self).well_formed(),
        ensures
            final(self).well_formed(),
            final(self)@ == (GridState { labels: visible, ..old(self)@ }),
    {
        self.labels = visible;
    }

    /// What the grid shows.
    pub fn files(&self) -> (files: &Vec<FileInfo>)
        ensures
            files@ == self@.files,
    {
        &self.files
    }

    /// Current sorted paths, for building a slideshow playlist.
    pub fn paths(&self) -> (paths: Vec<FilePath>)
        ensures
            paths@ == paths_of(self@.files),
    {
        let mut paths: Vec<FilePath> = Vec::new();
        let mut i: usize = 0;
        while i < self.files.len()
            invariant
                i <= self.files.len(),
                paths@ == paths_of(self@.files).take(i as int),
            decreases self.files.len() - i,
        {
            paths.push(self.files[i].path.clone());
            i += 1;
        }
        assert(paths_of(self@.files).take(i as int) =~= paths_of(self@.files));
        paths
    }

    /// Re-sort the whole grid, keeping the selection on the same files and
    /// equal files in their order.
    /// Nothing happens where two files cannot be compared.
    pub fn resort(&mut self, order: SortOrder, descending: bool) -> (sorted: bool)
        requires
            old(self).well_formed(),
        ensures
            final(self).well_formed(),
            sorted == all_comparable(old(self)@.all, order),
            sorted ==> {
                &&& is_sorted(final(self)@.all, order, descending)
                &&& final(self)@.all.to_multiset() == old(self)@.all.to_multiset()
                &&& final(self)@.all.len() == old(self)@.all.len()
                &&& keeps_equals(old(self)@.all, final(self)@.all, order)
                &&& final(self)@ == (GridState { all: final(self)@.all, ..old(self)@ }).rebuilt()
            },
            !sorted ==> final(self)@ == old(self)@,
    {
        if !can_sort(&self.all, order) {
            return false;
        }
        let mut all: Vec<FileInfo> = Vec::new();
        std::mem::swap(&mut all, &mut self.all);
        self.all = sort_files(all, order, descending);
        self.rebuild_visible();
        true
    }

    /// Narrow the grid to filenames holding `text`, case ignored. An empty
    /// text shows the whole folder again.
    pub fn set_filter(&mut self, text: &str)
        requires
            old(self).well_formed(),
        ensures
            final(self).well_formed(),
            final(self)@ == (GridState { filter: filter_of(text@), ..old(self)@ }).rebuilt(),
            final(self)@.filter.len() > 0 <==> text@.len() > 0,
    {
        self.filter = if text.is_empty() {
            String::new()
        } else {
            to_lowercase(text)
        };
        assert(self.filter@ =~= filter_of(text@));
        self.rebuild_visible();
    }

    pub fn filtering(&self) -> (filtering: bool)
        ensures
            filtering == (self@.filter.len() > 0),
    {
        !self.filter.as_str().is_empty()
    }

    /// (shown, in the folder). They differ while a filter is on.
    pub fn counts(&self) -> (counts: (usize, usize))
        ensures
            counts.0 == self@.files.len(),
            counts.1 == self@.all.len(),
    {
        (self.files.len(), self.all.len())
    }

    /// The places of the selection, ascending.
    fn picked(&self) -> (places: Vec<usize>)
        requires
            self.well_formed(),
        ensures
            places.len() == self@.picked().len(),
            forall|k: int|
                0 <= k < places@.len() ==> #[trigger] places@[k] < self.files.len() && places@[k]
                    == self@.picked()[k],
    {
        let mut places: Vec<usize> = Vec::new();
        let mut i: usize = 0;
        while i < self.selected.len()
            invariant
                i <= self.selected.len() == self.files.len(),
                places.len() == ascending(self@.selected, i as nat).len(),
                forall|k: int|
                    0 <= k < places@.len() ==> #[trigger] places@[k] < i && places@[k]
                        == ascending(self@.selected, i as nat)[k],
            decreases self.selected.len() - i,
        {
            assert(self@.selected.contains(i as int) == self.selected@[i as int]);
            if self.selected[i] {
                places.push(i);
            }
            i += 1;
        }
        places
    }

    /// Total file count plus the selected files' info, for the status bar.
    pub fn selection_info(&self) -> (info: (usize, Vec<FileInfo>))
        requires
            self.well_formed(),
        ensures
            info.0 == self@.files.len(),
            info.1@ == self@.picked_files(),
    {
        let places = self.picked();
        let mut infos: Vec<FileInfo> = Vec::new();
        let mut k: usize = 0;
        while k < places.len()
            invariant
                k <= places.len() == self@.picked().len(),
                infos@ == self@.picked_files().take(k as int),
                forall|k: int|
                    0 <= k < places@.len() ==> #[trigger] places@[k] < self.files.len()
                        && places@[k] == self@.picked()[k],
            decreases places.len() - k,
        {
            assert(places@[k as int] < self.files.len());
            infos.push(self.files[places[k]].clone());
            k += 1;
        }
        assert(self@.picked_files().take(k as int) =~= self@.picked_files());
        (self.files.len(), infos)
    }

    /// The files the user picked, for an action that works on them.
    pub fn selected_paths(&self) -> (paths: Vec<FilePath>)
        requires
            self.well_formed(),
        ensures
            paths@ == paths_of(self@.picked_files()),
    {
        let (_, infos) = self.selection_info();
        let mut paths: Vec<FilePath> = Vec::new();
        let mut i: usize = 0;
        while i < infos.len()
            invariant
                i <= infos.len(),
                paths@ == paths_of(infos@).take(i as int),
            decreases infos.len() - i,
        {
            paths.push(infos[i].path.clone());
            i += 1;
        }
        assert(paths_of(infos@).take(i as int) =~= paths_of(infos@));
        paths
    }

    /// What a slideshow of the grid plays, and where it starts.
    pub fn slideshow_request(&self) -> (request: (Vec<FilePath>, usize))
        requires
            self.well_formed(),
        ensures
            request.0@ == self@.request().0,
            request.1 == self@.request().1,
    {
        let places = self.picked();
        if places.len() >= 2 {
            let paths = self.selected_paths();
            let start: usize = match self.focus {
                Some(focus) => {
                    let mut k: usize = 0;
                    while k < places.len() && places[k] != focus
                        invariant
                            k <= places.len() == self@.picked().len(),
                            forall|j: int| 0 <= j < k ==> self@.picked()[j] != focus,
                            forall|j: int|
                                0 <= j < places@.len() ==> #[trigger] places@[j]
                                    == self@.picked()[j],
                        decreases places.len() - k,
                    {
                        k += 1;
                    }
                    let ghost picked = self@.picked();
                    if k < places.len() {
                        proof {
                            assert(picked[k as int] == focus);
                            assert(picked.contains(focus as int));
                            ascending_climbs(self@.selected, self@.files.len());
                            let at = picked.index_of(focus as int);
                            assert(picked[at] == focus);
                        }
                        k
                    } else {
                        assert(!picked.contains(focus as int));
                        0
                    }
                },
                None => 0,
            };
            (paths, start)
        } else {
            let start: usize = if places.len() == 1 {
                places[0]
            } else {
                match self.focus {
                    Some(focus) => focus,
                    None => 0,
                }
            };
            (self.paths(), start)
        }
    }

    /// Mirror the sorted-by-name inserts of a scan. Indices are valid when
    /// applied in order.
    pub fn insert_files(&mut self, inserts: Vec<(usize, FileInfo)>)
        requires
            old(self).well_formed(),
        ensures
            final(self).well_formed(),
            final(self)@ == (GridState {
                all: mirrored(old(self)@.all, inserts@),
                ..old(self)@
            }).rebuilt(),
    {
        let ghost start = self@;
        let mut k: usize = 0;
        assert(inserts@.take(0) =~= Seq::empty());
        while k < inserts.len()
            invariant
                k <= inserts.len(),
                self.sound(),
                self@ == (GridState { all: mirrored(start.all, inserts@.take(k as int)), ..start }),
            decreases inserts.len() - k,
        {
            assert(inserts@.take(k + 1).drop_last() =~= inserts@.take(k as int));
            let (index, info) = &inserts[k];
            let at = if *index < self.all.len() {
                *index
            } else {
                self.all.len()
            };
            self.all.insert(at, info.clone());
            k += 1;
            assert(self@ =~= (GridState {
                all: mirrored(start.all, inserts@.take(k as int)),
                ..start
            }));
        }
        assert(inserts@.take(k as int) =~= inserts@);
        self.rebuild_visible();
    }

    /// Files that are gone from the disk leave the folder, and the selection
    /// and the focus follow the survivors. Says whether anything changed: a
    /// removal that was already applied changes nothing.
    pub fn remove_paths(&mut self, paths: &Vec<FilePath>) -> (changed: bool)
        requires
            old(self).well_formed(),
        ensures
            final(self).well_formed(),
            final(self)@ == old(self)@.removed(paths@),
            changed == (old(self)@.dropped(paths@).all.len() != old(self)@.all.len()),
            !changed ==> final(self)@ == old(self)@,
    {
        let ghost start = self@;
        // Where the focus was, in case the focused file is one of the ones
        // going.
        let focus_index = self.focus;
        let mut changed = false;
        let mut k: usize = 0;
        assert(paths@.take(0) =~= Seq::empty());
        while k < paths.len()
            invariant
                k <= paths.len(),
                self.sound(),
                self@ == start.dropped(paths@.take(k as int)),
                self@.files == start.files && self@.selected == start.selected && self@.focus
                    == start.focus && self@.anchor == start.anchor,
                changed == (self@.all.len() != start.all.len()),
                self@.all.len() <= start.all.len(),
                !changed ==> self@ == start,
            decreases paths.len() - k,
        {
            assert(paths@.take(k + 1).drop_last() =~= paths@.take(k as int));
            assert(paths@.take(k + 1).last() == paths@[k as int]);
            match find_file(&self.all, &paths[k]) {
                Some(i) => {
                    let ghost before = self@;
                    self.all.remove(i);
                    self.thumbs.remove(&paths[k]);
                    self.requested.remove(&paths[k]);
                    changed = true;
                    assert(self@ =~= start.dropped(paths@.take(k + 1)));
                },
                None => {},
            }
            k += 1;
        }
        assert(paths@.take(k as int) =~= paths@);
        if !changed {
            return false;
        }
        let ghost dropped = self@;
        self.rebuild_visible();
        let count = self.files.len();
        if self.focus.is_none() && count > 0 {
            if let Some(index) = focus_index {
                let index = if index < count {
                    index
                } else {
                    count - 1
                };
                self.focus = Some(index);
                self.anchor = Some(index);
            }
        }
        assert(self@ =~= start.removed(paths@));
        true
    }

    /// Drop rows the app itself removed (trashed or moved away) and select
    /// the image that slid into the last one's place, so holding the keys
    /// works through a run. Removing the last image steps back instead.
    pub fn remove_and_advance(&mut self, paths: &Vec<FilePath>)
        requires
            old(self).well_formed(),
        ensures
            final(self).well_formed(),
            final(self)@ == old(self)@.advanced(paths@),
    {
        let ghost start = self@;
        let mut found: usize = 0;
        let mut last: usize = 0;
        let mut k: usize = 0;
        assert(paths@.take(0) =~= Seq::empty());
        while k < paths.len()
            invariant
                k <= paths.len(),
                self@ == start,
                self.well_formed(),
                found <= k,
                found == places_of(start.files, paths@.take(k as int)).len(),
                found == 0 ==> last == 0,
                found > 0 ==> last == greatest(places_of(start.files, paths@.take(k as int))),
                found > 0 ==> last < self.files.len(),
            decreases paths.len() - k,
        {
            let ghost before = places_of(start.files, paths@.take(k as int));
            assert(paths@.take(k + 1).drop_last() =~= paths@.take(k as int));
            assert(paths@.take(k + 1).last() == paths@[k as int]);
            match find_file(&self.files, &paths[k]) {
                Some(i) => {
                    assert(before.push(i as int).drop_last() =~= before);
                    assert(before.push(i as int).last() == i);
                    assert(found == 0 ==> greatest(before) == -1);
                    assert(greatest(before.push(i as int)) == (if greatest(before) > i {
                        greatest(before)
                    } else {
                        i as int
                    }));
                    assert(places_of(start.files, paths@.take(k + 1)) == before.push(i as int));
                    found += 1;
                    if i >= last {
                        last = i;
                    }
                },
                None => {},
            }
            k += 1;
        }
        assert(paths@.take(k as int) =~= paths@);
        let follower: usize = if last < found {
            0
        } else {
            last + 1 - found
        };
        self.remove_paths(paths);
        let count = self.files.len();
        if found > 0 && count > 0 {
            let index = if follower < count {
                follower
            } else {
                count - 1
            };
            self.select_only(index);
        }
        assert(self@ =~= start.advanced(paths@));
    }

    /// Select, focus and anchor one place.
    fn select_only(&mut self, index: usize)
        requires
            old(self).well_formed(),
            index < old(self)@.files.len(),
        ensures
            final(self).well_formed(),
            final(self)@ == old(self)@.on(index as int),
    {
        let mut marks = unmarked(self.files.len());
        let ghost none = marks@;
        marks.set(index, true);
        assert(marked(marks@) =~= marked(none).insert(index as int));
        self.selected = marks;
        self.focus = Some(index);
        self.anchor = Some(index);
        assert(self@ =~= old(self)@.on(index as int));
    }

    /// Everything the grid shows, which with a filter on is only the matches.
    pub fn select_all(&mut self)
        requires
            old(self).well_formed(),
        ensures
            final(self).well_formed(),
            final(self)@ == (if old(self)@.files.len() == 0 {
                old(self)@
            } else {
                GridState {
                    selected: Set::new(|i: int| 0 <= i < old(self)@.files.len()),
                    focus: Some(0),
                    anchor: Some(0),
                    ..old(self)@
                }
            }),
    {
        if self.files.len() == 0 {
            return;
        }
        self.mark_range(0, self.files.len() - 1);
        self.focus = Some(0);
        self.anchor = Some(0);
        assert(self@.selected =~= Set::new(|i: int| 0 <= i < old(self)@.files.len()));
    }

    /// Select the places from `low` to `high`.
    fn mark_range(&mut self, low: usize, high: usize)
        requires
            old(self).well_formed(),
            low <= high < old(self)@.files.len(),
        ensures
            final(self).well_formed(),
            final(self)@ == (GridState {
                selected: Set::new(|p: int| low <= p <= high),
                ..old(self)@
            }),
    {
        let mut marks: Vec<bool> = Vec::new();
        while marks.len() < self.files.len()
            invariant
                marks.len() <= self.files.len(),
                forall|i: int| 0 <= i < marks@.len() ==> marks@[i] == (low <= i <= high),
            decreases self.files.len() - marks.len(),
        {
            let i = marks.len();
            marks.push(low <= i && i <= high);
        }
        self.selected = marks;
        assert(self@.selected =~= Set::new(|p: int| low <= p <= high));
    }

    /// Whether every one of these files is in the grid right now.
    pub fn holds_all(&self, paths: &Vec<FilePath>) -> (all: bool)
        ensures
            all == (forall|k: int|
                0 <= k < paths@.len() ==> place_of(self@.files, #[trigger] paths@[k]) is Some),
    {
        let mut k: usize = 0;
        while k < paths.len()
            invariant
                k <= paths.len(),
                forall|j: int|
                    0 <= j < k ==> place_of(self@.files, #[trigger] paths@[j]) is Some,
            decreases paths.len() - k,
        {
            if find_file(&self.files, &paths[k]).is_none() {
                assert(place_of(self@.files, paths@[k as int]) is None);
                return false;
            }
            k += 1;
        }
        true
    }

    /// Select exactly these files, as far as the grid holds them, and put the
    /// focus on the first one it found.
    pub fn select_paths(&mut self, paths: &Vec<FilePath>)
        requires
            old(self).well_formed(),
        ensures
            final(self).well_formed(),
            ({
                let places = places_of(old(self)@.files, paths@);
                let first = if places.len() > 0 {
                    Some(places[0])
                } else {
                    None
                };
                final(self)@ == (GridState {
                    selected: places.to_set(),
                    focus: first,
                    anchor: first,
                    ..old(self)@
                })
            }),
    {
        let mut marks = unmarked(self.files.len());
        let mut first: Option<usize> = None;
        let mut k: usize = 0;
        assert(paths@.take(0) =~= Seq::empty());
        assert(marked(marks@) =~= Seq::<int>::empty().to_set());
        while k < paths.len()
            invariant
                k <= paths.len(),
                self@ == old(self)@,
                self.well_formed(),
                marks.len() == self.files.len(),
                marked(marks@) == places_of(self@.files, paths@.take(k as int)).to_set(),
                first is Some ==> first->0 < self.files.len(),
                as_place(first) == (if places_of(self@.files, paths@.take(k as int)).len() > 0 {
                    Some(places_of(self@.files, paths@.take(k as int))[0])
                } else {
                    None
                }),
            decreases paths.len() - k,
        {
            let ghost before = places_of(self@.files, paths@.take(k as int));
            let ghost marked_before = marks@;
            assert(paths@.take(k + 1).drop_last() =~= paths@.take(k as int));
            assert(paths@.take(k + 1).last() == paths@[k as int]);
            match find_file(&self.files, &paths[k]) {
                Some(i) => {
                    marks.set(i, true);
                    if first.is_none() {
                        first = Some(i);
                    }
                    proof {
                        set_of_push(before, i as int);
                        assert(marked(marks@) =~= marked(marked_before).insert(i as int));
                    }
                },
                None => {},
            }
            k += 1;
        }
        assert(paths@.take(k as int) =~= paths@);
        self.selected = marks;
        self.focus = first;
        self.anchor = first;
    }

    /// Set the selection directly.
    pub fn e2e_set_selected(&mut self, indices: &Vec<usize>)
        requires
            old(self).well_formed(),
            forall|k: int|
                0 <= k < indices@.len() ==> #[trigger] indices@[k] < old(self)@.files.len(),
        ensures
            final(self).well_formed(),
            ({
                let first = if indices@.len() > 0 {
                    Some(indices@[0] as int)
                } else {
                    None
                };
                final(self)@ == (GridState {
                    selected: Set::new(
                        |p: int|
                            exists|k: int| 0 <= k < indices@.len() && #[trigger] indices@[k] == p,
                    ),
                    focus: first,
                    anchor: first,
                    ..old(self)@
                })
            }),
    {
        let mut marks = unmarked(self.files.len());
        let mut k: usize = 0;
        while k < indices.len()
            invariant
                k <= indices.len(),
                marks.len() == self.files.len(),
                self@ == old(self)@,
                self.well_formed(),
                forall|j: int|
                    0 <= j < indices@.len() ==> #[trigger] indices@[j] < self@.files.len(),
                forall|p: int| #[trigger]
                    marked(marks@).contains(p) <==> exists|j: int|
                        0 <= j < k && #[trigger] indices@[j] == p,
            decreases indices.len() - k,
        {
            let ghost before = marks@;
            marks.set(indices[k], true);
            assert(marked(marks@) =~= marked(before).insert(indices@[k as int] as int));
            k += 1;
        }
        let first: Option<usize> = if indices.len() > 0 {
            Some(indices[0])
        } else {
            None
        };
        self.selected = marks;
        self.focus = first;
        self.anchor = first;
        assert(self@.selected =~= Set::new(
            |p: int| exists|k: int| 0 <= k < indices@.len() && #[trigger] indices@[k] == p,
        ));
    }

    /// A file changed on disk: forget its thumbnail so the next draw asks
    /// again.
    pub fn invalidate_thumb(&mut self, path: &FilePath)
        requires
            old(self).well_formed(),
        ensures
            final(self).well_formed(),
            final(self)@ == (GridState {
                thumbs: without(old(self)@.thumbs, *path),
                requested: old(self)@.requested.remove(components(path@)),
                ..old(self)@
            }),
    {
        self.thumbs.remove(path);
        self.requested.remove(path);
    }

    /// Whether a thumbnail of this cost can come in.
    pub fn has_room(&self, path: &FilePath, cost: usize) -> (room: bool)
        requires
            self.well_formed(),
        ensures
            room == (total_cost(without(self@.thumbs, *path)) + cost <= usize::MAX),
    {
        self.thumbs.has_room(path, cost)
    }

    pub fn set_thumb(&mut self, path: FilePath, image: I, cost: usize)
        requires
            old(self).well_formed(),
            total_cost(without(old(self)@.thumbs, path)) + cost <= usize::MAX,
        ensures
            final(self).well_formed(),
            final(self)@ == old(self)@.with_thumb(path, image, cost),
    {
        let ghost start = self@;
        let evicted = self.thumbs.insert(path, image, cost);
        // Evicted cells must ask again when they scroll back in.
        let mut k: usize = 0;
        while k < evicted.len()
            invariant
                k <= evicted.len(),
                self.sound(),
                self@ == (GridState { thumbs: self@.thumbs, requested: self@.requested, ..start }),
                self@.thumbs == start.with_thumb(path, image, cost).thumbs,
                forall|parts: Seq<Seq<char>>| #[trigger]
                    self@.requested.contains(parts) <==> start.requested.contains(parts) && !lists(
                        evicted@.take(k as int),
                        parts,
                    ),
            decreases evicted.len() - k,
        {
            self.requested.remove(&evicted[k]);
            proof {
                let front = evicted@.take(k as int);
                let next = evicted@.take(k + 1);
                let item = evicted@[k as int];
                assert forall|parts: Seq<Seq<char>>| lists(next, parts) <==> lists(front, parts)
                    || components(item@) == parts by {
                    if lists(front, parts) {
                        let j = choose|j: int|
                            0 <= j < front.len() && components((#[trigger] front[j])@) == parts;
                        assert(next[j] == front[j]);
                    }
                    assert(next[k as int] == item);
                    if lists(next, parts) {
                        let j = choose|j: int|
                            0 <= j < next.len() && components((#[trigger] next[j])@) == parts;
                        if j < k {
                            assert(next[j] == front[j]);
                        }
                    }
                }
            }
            k += 1;
        }
        assert(evicted@.take(k as int) =~= evicted@);
        assert(self@ =~= start.with_thumb(path, image, cost));
    }

    /// Draw the cell at a place: its thumbnail is used now, or asked for the
    /// first time it is drawn without one.
    pub fn draw_cell(&mut self, index: usize) -> (cell: Cell<'_, I>)
        requires
            old(self).well_formed(),
            index < old(self)@.files.len(),
        ensures
            final(self).well_formed(),
            final(self)@ == old(self)@.drawn(index as int),
            ({
                let before = old(self)@;
                let path = before.files[index as int].path;
                match cell {
                    Cell::Image(image) => holds(before.thumbs, path) && *image
                        == before.thumbs[place(before.thumbs, path)].value,
                    Cell::Waiting => !holds(before.thumbs, path) && before.requested.contains(
                        components(path@),
                    ),
                    Cell::Request(asked) => !holds(before.thumbs, path)
                        && !before.requested.contains(components(path@)) && asked == path,
                }
            }),
    {
        let ghost start = self@;
        let path = self.files[index].path.clone();
        if self.thumbs.contains(&path) {
            match self.thumbs.get(&path) {
                Some(image) => Cell::Image(image),
                None => Cell::Waiting,
            }
        } else {
            let asked = path.clone();
            let new = self.requested.insert(path);
            assert(self@ =~= start.drawn(index as int));
            if new {
                Cell::Request(asked)
            } else {
                Cell::Waiting
            }
        }
    }

    /// How many rows the cells take up; an empty grid has one.
    pub fn row_count(&self, columns: usize) -> (rows: usize)
        requires
            columns > 0,
        ensures
            rows == rows_for(self@.files.len() as int, columns as int),
    {
        let count = self.files.len();
        if count == 0 {
            return 1;
        }
        let whole = count / columns;
        let rest = count % columns;
        if rest == 0 {
            whole
        } else {
            proof {
                vstd::arithmetic::div_mod::lemma_fundamental_div_mod(count as int, columns as int);
                assert(whole < count) by (nonlinear_arith)
                    requires
                        count == columns * whole + rest,
                        rest > 0,
                        columns > 0,
                        whole >= 0,
                ;
            }
            whole + 1
        }
    }

    /// The cells in some rows, as the first place and the place behind the
    /// last.
    pub fn cells_in_rows(&self, first: usize, last: usize, columns: usize) -> (cells: (
        usize,
        usize,
    ))
        ensures
            cells.0 == lesser(first * columns, self@.files.len() as int),
            cells.1 == lesser((last + 1) * columns, self@.files.len() as int),
    {
        let count = self.files.len();
        let start = match first.checked_mul(columns) {
            Some(i) => if i < count {
                i
            } else {
                count
            },
            None => count,
        };
        let end = match last.checked_add(1) {
            Some(rows) => match rows.checked_mul(columns) {
                Some(i) => if i < count {
                    i
                } else {
                    count
                },
                None => count,
            },
            None => if columns == 0 {
                0
            } else {
                proof {
                    assert((last + 1) * columns >= last + 1) by (nonlinear_arith)
                        requires
                            columns >= 1,
                    ;
                }
                count
            },
        };
        (start, end)
    }

    /// The place of the cell in a row and a column, if there is one.
    pub fn index_at(&self, row: usize, column: usize, columns: usize) -> (index: Option<usize>)
        ensures
            match index {
                Some(i) => column < columns && i == row * columns + column && i
                    < self@.files.len(),
                None => column >= columns || row * columns + column >= self@.files.len(),
            },
    {
        if column >= columns {
            return None;
        }
        assert(row * columns >= 0) by (nonlinear_arith);
        let count = self.files.len();
        match row.checked_mul(columns) {
            Some(first) => if first < count && column < count - first {
                Some(first + column)
            } else {
                None
            },
            None => None,
        }
    }

    /// A click on a cell, or on empty space, where a rubber band starts.
    pub fn mouse_down(&mut self, hit: Option<usize>, cmd: bool, shift: bool)
        requires
            old(self).well_formed(),
            hit is Some ==> hit->0 < old(self)@.files.len(),
        ensures
            final(self).well_formed(),
            final(self)@ == old(self)@.clicked(as_place(hit), cmd, shift),
    {
        let ghost start = self@;
        match hit {
            None => {
                // A command click keeps the selection as a base.
                if !cmd {
                    self.selected = unmarked(self.files.len());
                }
            },
            Some(index) => {
                if shift {
                    let from = match self.anchor {
                        Some(anchor) => anchor,
                        None => index,
                    };
                    if from <= index {
                        self.mark_range(from, index);
                    } else {
                        self.mark_range(index, from);
                    }
                    self.focus = Some(index);
                    assert(self@.selected =~= start.clicked(as_place(hit), cmd, shift).selected);
                } else if cmd {
                    let ghost before = self.selected@;
                    let on = !self.selected[index];
                    self.selected.set(index, on);
                    proof {
                        if on {
                            assert(marked(self.selected@) =~= marked(before).insert(index as int));
                        } else {
                            assert(marked(self.selected@) =~= marked(before).remove(index as int));
                        }
                    }
                    self.focus = Some(index);
                    self.anchor = Some(index);
                } else {
                    self.select_only(index);
                }
            },
        }
        assert(self@ =~= start.clicked(as_place(hit), cmd, shift));
    }

    /// Select every cell that the rubber band touches.
    pub fn select_band(&mut self, touched: Vec<bool>)
        requires
            old(self).well_formed(),
            touched@.len() == old(self)@.files.len(),
        ensures
            final(self).well_formed(),
            final(self)@ == (GridState { selected: marked(touched@), ..old(self)@ }),
    {
        self.selected = touched;
    }

    /// A key press, in a grid of `columns`. An arrow moves the focus, and the
    /// selection goes with it.
    pub fn key_down(&mut self, code: u16, columns: usize) -> (key: GridKey)
        requires
            old(self).well_formed(),
        ensures
            final(self).well_formed(),
            key == old(self)@.key(code, columns as int),
            final(self)@ == (if key == GridKey::Moved {
                old(self)@.on(old(self)@.stepped(key_delta(code, columns as int)->0))
            } else {
                old(self)@
            }),
    {
        let delta: i128 = match code {
            36 => {
                if self.focus.is_some() || self.any_selected() {
                    return GridKey::Activate;
                }
                return GridKey::Nothing;
            },
            53 => {
                return GridKey::Escape;
            },
            123 => -1,
            124 => 1,
            126 => -(columns as i128),
            125 => columns as i128,
            _ => {
                return GridKey::Unknown;
            },
        };
        let count = self.files.len();
        if count == 0 {
            return GridKey::Nothing;
        }
        let next: usize = match self.focus {
            Some(focus) => {
                let moved = focus as i128 + delta;
                if moved < 0 {
                    0
                } else if moved > count as i128 - 1 {
                    count - 1
                } else {
                    moved as usize
                }
            },
            None => 0,
        };
        self.select_only(next);
        GridKey::Moved
    }

    /// Whether the file at a place is selected.
    pub fn is_selected(&self, index: usize) -> (selected: bool)
        requires
            self.well_formed(),
        ensures
            selected == self@.selected.contains(index as int),
    {
        index < self.selected.len() && self.selected[index]
    }

    /// The place of the keyboard focus.
    pub fn focused(&self) -> (focus: Option<usize>)
        ensures
            as_place(focus) == self@.focus,
    {
        self.focus
    }

    /// Whether anything is selected.
    pub fn any_selected(&self) -> (any: bool)
        ensures
            any == (self@.selected != Set::<int>::empty()),
    {
        let mut i: usize = 0;
        while i < self.selected.len()
            invariant
                i <= self.selected.len(),
                forall|j: int| 0 <= j < i ==> !self.selected@[j],
            decreases self.selected.len() - i,
        {
            if self.selected[i] {
                assert(self@.selected.contains(i as int));
                return true;
            }
            i += 1;
        }
        assert(self@.selected =~= Set::empty());
        false
    }

    /// Clear everything before a new scan.
    pub fn reset(&mut self)
        requires
            old(self).well_formed(),
        ensures
            final(self).well_formed(),
            final(self)@ == GridState::<I>::blank(old(self)@.labels),
    {
        self.files.clear();
        self.all.clear();
        self.filter = String::new();
        self.thumbs.clear();
        self.requested.clear();
        self.selected.clear();
        self.focus = None;
        self.anchor = None;
        reveal(Seq::filter);
        assert(self@ =~= GridState::<I>::blank(old(self)@.labels));
    }
}

/// A pushed element joins the set of the others.
proof fn set_of_push(s: Seq<int>, x: int)
    ensures
        s.push(x).to_set() == s.to_set().insert(x),
{
    let longer = s.push(x);
    assert forall|y: int| longer.to_set().contains(y) <==> s.to_set().insert(x).contains(y) by {
        if s.contains(y) {
            let k = choose|k: int| 0 <= k < s.len() && s[k] == y;
            assert(longer[k] == y);
        }
        if y == x {
            assert(longer[s.len() as int] == y);
        }
        if longer.contains(y) {
            let k = choose|k: int| 0 <= k < longer.len() && longer[k] == y;
            if k < s.len() {
                assert(s[k] == y);
            }
        }
    }
    assert(longer.to_set() =~= s.to_set().insert(x));
}

/// Ascending numbers climb, and stay below the count.
pub proof fn ascending_climbs(chosen: Set<int>, count: nat)
    ensures
        forall|i: int|
            0 <= i < ascending(chosen, count).len() ==> 0 <= #[trigger] ascending(chosen, count)[i]
                < count && chosen.contains(ascending(chosen, count)[i]),
        forall|i: int, j: int|
            0 <= i < j < ascending(chosen, count).len() ==> #[trigger] ascending(chosen, count)[i]
                < #[trigger] ascending(chosen, count)[j],
    decreases count,
{
    if count > 0 {
        let front = ascending(chosen, (count - 1) as nat);
        ascending_climbs(chosen, (count - 1) as nat);
        let whole = ascending(chosen, count);
        assert forall|i: int| 0 <= i < whole.len() implies 0 <= #[trigger] whole[i] < count
            && chosen.contains(whole[i]) by {
            if i < front.len() {
                assert(whole[i] == front[i]);
            }
        }
        assert forall|i: int, j: int| 0 <= i < j < whole.len() implies #[trigger] whole[i]
            < #[trigger] whole[j] by {
            assert(whole[i] == front[i]);
            if j < front.len() {
                assert(whole[j] == front[j]);
            }
        }
    }
}

} // verus!
