//! What holds of the grid's operations together.

use vstd::prelude::*;

use crate::cache::{
    distinct, eviction_is_enough_and_no_more, evictions, holds, insert_is_read_back, inserted, is_at,
    place, without, without_forgets, CacheKey, Entry,
};
use crate::grid::{
    ascending, ascending_climbs, filter_of, greatest, key_delta, lowercase, mirrored, passes,
    paths_of, place_of, places_of, rows_for, visible, GridKey, GridState, THUMB_CACHE_BYTES,
};
use crate::order::FileInfo;
use crate::path::{
    all_different, components, file_name, first_same_by_components, first_same_is_first, lists,
    same_path, FilePath,
};
use crate::scan::{replay, replays};
use crate::text::{occurs_at, occurs_in};

verus! {

/// Whether no two files have the same path.
pub open spec fn apart(files: Seq<FileInfo>) -> bool {
    forall|i: int, j: int|
        0 <= i < files.len() && 0 <= j < files.len() && i != j ==> !same_path(
            (#[trigger] files[i]).path@,
            (#[trigger] files[j]).path@,
        )
}

/// Whether a file is none of `paths`.
pub open spec fn survives(info: FileInfo, paths: Seq<FilePath>) -> bool {
    !lists(paths, components(info.path@))
}

/// Where paths are told apart, a file has one place.
proof fn place_by_path(files: Seq<FileInfo>, path: FilePath, p: int)
    requires
        apart(files),
    ensures
        place_of(files, path) == Some(p) <==> 0 <= p < files.len() && same_path(
            files[p].path@,
            path@,
        ),
        place_of(files, path) is Some ==> 0 <= place_of(files, path)->0 < files.len(),
{
    let paths = paths_of(files);
    first_same_is_first(paths, path);
    assert forall|k: int| 0 <= k < files.len() implies #[trigger] paths[k] == files[k].path by {}
    if 0 <= p < files.len() && same_path(files[p].path@, path@) {
        assert(same_path(paths[p]@, path@));
        let q = place_of(files, path)->0;
        assert(paths[q] == files[q].path);
        assert(q == p);
    }
}

proof fn apart_in_front(files: Seq<FileInfo>)
    requires
        apart(files),
        files.len() > 0,
    ensures
        apart(files.drop_last()),
        forall|i: int|
            0 <= i < files.len() - 1 ==> !same_path(
                (#[trigger] files.drop_last()[i]).path@,
                files.last().path@,
            ),
{
    let front = files.drop_last();
    assert forall|i: int, j: int|
        0 <= i < front.len() && 0 <= j < front.len() && i != j implies !same_path(
        (#[trigger] front[i]).path@,
        (#[trigger] front[j]).path@,
    ) by {
        assert(front[i] == files[i] && front[j] == files[j]);
    }
    assert forall|i: int| 0 <= i < front.len() implies !same_path(
        (#[trigger] front[i]).path@,
        files.last().path@,
    ) by {
        assert(front[i] == files[i] && files.last() == files[files.len() - 1]);
    }
}

proof fn filter_keeps(s: Seq<FileInfo>, keep: spec_fn(FileInfo) -> bool)
    ensures
        forall|i: int| 0 <= i < s.filter(keep).len() ==> s.contains(#[trigger] s.filter(keep)[i]),
        apart(s) ==> apart(s.filter(keep)),
    decreases s.len(),
{
    reveal(Seq::filter);
    if s.len() > 0 {
        let front = s.drop_last();
        filter_keeps(front, keep);
        let kept = front.filter(keep);
        let whole = s.filter(keep);
        assert forall|i: int| 0 <= i < whole.len() implies s.contains(#[trigger] whole[i]) by {
            if i < kept.len() {
                assert(front.contains(kept[i]));
                let k = choose|k: int| 0 <= k < front.len() && front[k] == kept[i];
                assert(s[k] == whole[i]);
            } else {
                assert(s[s.len() - 1] == whole[i]);
            }
        }
        if apart(s) {
            apart_in_front(s);
            assert forall|i: int| 0 <= i < kept.len() implies !same_path(
                (#[trigger] kept[i]).path@,
                s.last().path@,
            ) by {
                assert(front.contains(kept[i]));
                let k = choose|k: int| 0 <= k < front.len() && front[k] == kept[i];
                assert(!same_path(front[k].path@, s.last().path@));
            }
            assert forall|i: int, j: int|
                0 <= i < whole.len() && 0 <= j < whole.len() && i != j implies !same_path(
                (#[trigger] whole[i]).path@,
                (#[trigger] whole[j]).path@,
            ) by {
                if i < kept.len() {
                    assert(whole[i] == kept[i]);
                }
                if j < kept.len() {
                    assert(whole[j] == kept[j]);
                }
            }
        }
    }
}

proof fn filter_twice(
    s: Seq<FileInfo>,
    p: spec_fn(FileInfo) -> bool,
    q: spec_fn(FileInfo) -> bool,
    both: spec_fn(FileInfo) -> bool,
)
    requires
        forall|f: FileInfo| #[trigger] both(f) == (p(f) && q(f)),
    ensures
        s.filter(p).filter(q) == s.filter(both),
    decreases s.len(),
{
    reveal(Seq::filter);
    if s.len() > 0 {
        let front = s.drop_last();
        filter_twice(front, p, q, both);
        assert(both(s.last()) == (p(s.last()) && q(s.last())));
        if p(s.last()) {
            assert(s.filter(p).drop_last() =~= front.filter(p));
        }
    } else {
        assert(s.filter(p) =~= Seq::empty());
    }
}

proof fn filter_is_exact(s: Seq<FileInfo>, keep: spec_fn(FileInfo) -> bool)
    ensures
        forall|i: int| 0 <= i < s.filter(keep).len() ==> keep(#[trigger] s.filter(keep)[i]),
        forall|f: FileInfo| #[trigger] s.contains(f) && keep(f) ==> s.filter(keep).contains(f),
        (forall|f: FileInfo| #[trigger] keep(f)) ==> s.filter(keep) == s,
    decreases s.len(),
{
    reveal(Seq::filter);
    if s.len() > 0 {
        let front = s.drop_last();
        filter_is_exact(front, keep);
        let whole = s.filter(keep);
        let kept = front.filter(keep);
        assert forall|f: FileInfo| #[trigger] s.contains(f) && keep(f) implies whole.contains(
            f,
        ) by {
            let k = choose|k: int| 0 <= k < s.len() && s[k] == f;
            if k < front.len() {
                assert(front[k] == f);
                assert(front.contains(f));
                let m = choose|m: int| 0 <= m < kept.len() && kept[m] == f;
                assert(whole[m] == f);
            } else {
                assert(whole[kept.len() as int] == f);
            }
        }
        assert forall|i: int| 0 <= i < whole.len() implies keep(#[trigger] whole[i]) by {
            if i < kept.len() {
                assert(whole[i] == kept[i]);
            }
        }
        if forall|f: FileInfo| #[trigger] keep(f) {
            assert(keep(s.last()));
            assert(front.push(s.last()) =~= s);
        }
    } else {
        assert(s.filter(keep) =~= s);
    }
}

/// Filtering out what stands at one place removes it.
proof fn filter_out_place(files: Seq<FileInfo>, place: Option<int>, keep: spec_fn(FileInfo) -> bool)
    requires
        place is Some ==> 0 <= place->0 < files.len(),
        forall|j: int| 0 <= j < files.len() ==> keep(#[trigger] files[j]) == (place != Some(j)),
    ensures
        files.filter(keep) == (match place {
            Some(i) => files.remove(i),
            None => files,
        }),
    decreases files.len(),
{
    reveal(Seq::filter);
    if files.len() > 0 {
        let front = files.drop_last();
        let last = files.last();
        let n = files.len() - 1;
        assert(last == files[n]);
        let in_front = if place == Some(n) {
            None
        } else {
            place
        };
        assert forall|j: int| 0 <= j < front.len() implies keep(#[trigger] front[j]) == (in_front
            != Some(j)) by {
            assert(front[j] == files[j]);
        }
        filter_out_place(front, in_front, keep);
        if place == Some(n) {
            assert(files.remove(n) =~= front);
        } else if place is Some {
            assert(files.remove(place->0) =~= front.remove(place->0).push(last));
        } else {
            assert(front.push(last) =~= files);
        }
    } else {
        assert(files.filter(keep) =~= files);
    }
}

/// Where paths are told apart, filtering a path out removes its one place.
proof fn filter_out_one(files: Seq<FileInfo>, path: FilePath, keep: spec_fn(FileInfo) -> bool)
    requires
        apart(files),
        forall|j: int|
            0 <= j < files.len() ==> keep(#[trigger] files[j]) == !same_path(
                files[j].path@,
                path@,
            ),
    ensures
        files.filter(keep) == (match place_of(files, path) {
            Some(i) => files.remove(i),
            None => files,
        }),
{
    let place = place_of(files, path);
    place_by_path(files, path, 0);
    assert forall|j: int| 0 <= j < files.len() implies keep(#[trigger] files[j]) == (place
        != Some(j)) by {
        place_by_path(files, path, j);
    }
    filter_out_place(files, place, keep);
}

proof fn all_survive(files: Seq<FileInfo>, paths: Seq<FilePath>)
    requires
        forall|f: FileInfo| files.contains(f) ==> #[trigger] survives(f, paths),
    ensures
        files.filter(|f: FileInfo| survives(f, paths)) == files,
    decreases files.len(),
{
    reveal(Seq::filter);
    let keep = |f: FileInfo| survives(f, paths);
    if files.len() > 0 {
        let front = files.drop_last();
        assert forall|f: FileInfo| front.contains(f) implies #[trigger] survives(f, paths) by {
            let k = choose|k: int| 0 <= k < front.len() && front[k] == f;
            assert(files[k] == f);
        }
        all_survive(front, paths);
        assert(files[files.len() - 1] == files.last());
        assert(files.contains(files.last()));
        assert(survives(files.last(), paths));
        assert(front.push(files.last()) =~= files);
    } else {
        assert(files.filter(keep) =~= files);
    }
}

/// A file is none of some paths where it is none of all but the last, nor
/// the last.
proof fn survives_by_parts(info: FileInfo, paths: Seq<FilePath>)
    requires
        paths.len() > 0,
    ensures
        survives(info, paths) == (survives(info, paths.drop_last()) && !same_path(
            info.path@,
            paths.last()@,
        )),
{
    let fewer = paths.drop_last();
    let parts = components(info.path@);
    if lists(fewer, parts) {
        let k = choose|k: int|
            0 <= k < fewer.len() && components((#[trigger] fewer[k])@) == parts;
        assert(paths[k] == fewer[k]);
    }
    assert(paths[paths.len() - 1] == paths.last());
    if lists(paths, parts) {
        let k = choose|k: int|
            0 <= k < paths.len() && components((#[trigger] paths[k])@) == parts;
        if k < fewer.len() {
            assert(paths[k] == fewer[k]);
        }
    }
}

/// Removing files leaves exactly the others, in their order.
pub proof fn removal_leaves_the_others<I>(grid: GridState<I>, paths: Seq<FilePath>)
    requires
        apart(grid.all),
    ensures
        grid.dropped(paths).all == grid.all.filter(|f: FileInfo| survives(f, paths)),
        apart(grid.dropped(paths).all),
    decreases paths.len(),
{
    let keep = |f: FileInfo| survives(f, paths);
    if paths.len() == 0 {
        all_survive(grid.all, paths);
    } else {
        let fewer = paths.drop_last();
        let path = paths.last();
        removal_leaves_the_others(grid, fewer);
        let rest = grid.dropped(fewer).all;
        let other = |f: FileInfo| !same_path(f.path@, path@);
        let before = |f: FileInfo| survives(f, fewer);
        filter_out_one(rest, path, other);
        assert forall|f: FileInfo| #[trigger] keep(f) == (before(f) && other(f)) by {
            survives_by_parts(f, paths);
        }
        filter_twice(grid.all, before, other, keep);
        filter_keeps(rest, other);
    }
    filter_keeps(grid.all, keep);
}

/// Dropping paths never makes a folder longer, and where it stays as long it
/// stays the same.
proof fn shorter_or_same<I>(grid: GridState<I>, paths: Seq<FilePath>)
    ensures
        grid.dropped(paths).all.len() <= grid.all.len(),
        grid.dropped(paths).all.len() == grid.all.len() ==> grid.dropped(paths) == grid,
    decreases paths.len(),
{
    if paths.len() > 0 {
        let rest = grid.dropped(paths.drop_last());
        shorter_or_same(grid, paths.drop_last());
        first_same_is_first(paths_of(rest.all), paths.last());
    }
}

/// A removal that was applied already changes nothing: what the disk reports
/// of the app's own removals has no effect.
pub proof fn removal_happens_once<I>(grid: GridState<I>, paths: Seq<FilePath>)
    requires
        grid.valid(),
        apart(grid.all),
    ensures
        grid.removed(paths).removed(paths) == grid.removed(paths),
{
    let once = grid.removed(paths);
    let keep = |f: FileInfo| survives(f, paths);
    removal_leaves_the_others(grid, paths);
    shorter_or_same(grid, paths);
    assert(once.all == grid.dropped(paths).all);
    removal_leaves_the_others(once, paths);
    filter_twice(grid.all, keep, keep, keep);
    assert(once.dropped(paths).all == once.all);
}

/// Whatever changes, the selection, the focus and the anchor stay on their
/// files: a file that is shown afterwards is selected if and only if it was.
pub proof fn rebuilding_keeps_the_selection<I>(grid: GridState<I>, p: int)
    requires
        apart(visible(grid.all, grid.filter)),
        0 <= p < grid.rebuilt().files.len(),
    ensures
        ({
            let after = grid.rebuilt();
            let path = after.files[p].path@;
            &&& after.selected.contains(p) <==> exists|i: int| #[trigger]
                grid.selected.contains(i) && same_path(grid.files[i].path@, path)
            &&& after.focus == Some(p) <==> grid.focus is Some && same_path(
                grid.files[grid.focus->0].path@,
                path,
            )
            &&& grid.anchor is Some && same_path(grid.files[grid.anchor->0].path@, path)
                ==> after.anchor == Some(p)
            &&& grid.anchor is None ==> after.anchor == after.focus
            &&& grid.anchor is Some && (forall|k: int|
                0 <= k < after.files.len() ==> !same_path(
                    (#[trigger] after.files[k]).path@,
                    grid.files[grid.anchor->0].path@,
                )) ==> after.anchor == after.focus
        }),
{
    let shown = visible(grid.all, grid.filter);
    assert forall|i: int| #[trigger]
        grid.selected.contains(i) implies (grid.follow(Some(i), shown) == Some(p) <==> same_path(
        grid.files[i].path@,
        shown[p].path@,
    )) by {
        place_by_path(shown, grid.files[i].path, p);
    }
    if grid.focus is Some {
        place_by_path(shown, grid.files[grid.focus->0].path, p);
    }
    if grid.anchor is Some {
        let path = grid.files[grid.anchor->0].path;
        place_by_path(shown, path, p);
        if place_of(shown, path) is Some {
            place_by_path(shown, path, place_of(shown, path)->0);
        }
    }
}

/// An empty filter shows the whole folder, and any filter shows part of it,
/// in its order.
pub proof fn filters_narrow<I>(grid: GridState<I>)
    requires
        grid.valid(),
    ensures
        grid.filter.len() == 0 ==> grid.files == grid.all,
        forall|i: int| 0 <= i < grid.files.len() ==> grid.all.contains(#[trigger] grid.files[i]),
        forall|i: int|
            0 <= i < grid.files.len() ==> passes(#[trigger] grid.files[i], grid.filter),
        forall|f: FileInfo|
            grid.all.contains(f) && #[trigger] passes(f, grid.filter) ==> grid.files.contains(f),
{
    filter_is_exact(grid.all, |f: FileInfo| passes(f, grid.filter));
    filter_keeps(grid.all, |f: FileInfo| passes(f, grid.filter));
}

/// A grid that mirrors the inserts of a scan has the files of the scan, in
/// its order.
pub proof fn mirror_follows_the_scan(all: Seq<FileInfo>, inserts: Seq<(usize, FileInfo)>)
    requires
        replays(all, inserts),
    ensures
        mirrored(all, inserts) == replay(all, inserts),
        mirrored(all, inserts).len() == all.len() + inserts.len(),
    decreases inserts.len(),
{
    if inserts.len() > 0 {
        let front = inserts.drop_last();
        assert forall|k: int| 0 <= k < front.len() implies (#[trigger] front[k]).0 <= all.len()
            + k by {
            assert(front[k] == inserts[k]);
        }
        mirror_follows_the_scan(all, front);
        assert(inserts[inserts.len() - 1] == inserts.last());
    }
}

/// Dropping paths changes only the folder and what is at hand for it.
proof fn drop_keeps_filter<I>(grid: GridState<I>, paths: Seq<FilePath>)
    ensures
        ({
            let dropped = grid.dropped(paths);
            dropped == (GridState {
                all: dropped.all,
                thumbs: dropped.thumbs,
                requested: dropped.requested,
                ..grid
            })
        }),
    decreases paths.len(),
{
    if paths.len() > 0 {
        drop_keeps_filter(grid, paths.drop_last());
    }
}

/// Each of some different paths takes away the one file it has.
proof fn removal_counts(files: Seq<FileInfo>, paths: Seq<FilePath>)
    requires
        apart(files),
        all_different(paths),
    ensures
        files.filter(|f: FileInfo| survives(f, paths)).len() == files.len() - places_of(
            files,
            paths,
        ).len(),
    decreases paths.len(),
{
    let keep = |f: FileInfo| survives(f, paths);
    if paths.len() == 0 {
        all_survive(files, paths);
    } else {
        let fewer = paths.drop_last();
        let path = paths.last();
        let other = |f: FileInfo| !same_path(f.path@, path@);
        let before = |f: FileInfo| survives(f, fewer);
        let rest = files.filter(before);
        assert forall|i: int, j: int| 0 <= i < j < fewer.len() implies !same_path(
            (#[trigger] fewer[i])@,
            (#[trigger] fewer[j])@,
        ) by {
            assert(fewer[i] == paths[i] && fewer[j] == paths[j]);
        }
        removal_counts(files, fewer);
        assert forall|f: FileInfo| #[trigger] keep(f) == (before(f) && other(f)) by {
            survives_by_parts(f, paths);
        }
        filter_twice(files, before, other, keep);
        filter_keeps(files, before);
        filter_is_exact(files, before);
        filter_out_one(rest, path, other);
        place_by_path(files, path, 0);
        place_by_path(rest, path, 0);
        if place_of(files, path) is Some {
            let p = place_of(files, path)->0;
            place_by_path(files, path, p);
            if lists(fewer, components(files[p].path@)) {
                let k = choose|k: int|
                    0 <= k < fewer.len() && components((#[trigger] fewer[k])@) == components(
                        files[p].path@,
                    );
                assert(!same_path(paths[k]@, paths[paths.len() - 1]@));
            }
            assert(files.contains(files[p]) && before(files[p]));
            let q = choose|q: int| 0 <= q < rest.len() && rest[q] == files[p];
            place_by_path(rest, path, q);
        }
        if place_of(rest, path) is Some {
            let q = place_of(rest, path)->0;
            place_by_path(rest, path, q);
            assert(files.contains(rest[q]));
            let p = choose|p: int| 0 <= p < files.len() && files[p] == rest[q];
            place_by_path(files, path, p);
        }
    }
}

/// The greatest place of some paths is that of the last file that is removed
/// with them.
proof fn greatest_is_the_last(files: Seq<FileInfo>, paths: Seq<FilePath>)
    requires
        apart(files),
    ensures
        ({
            let places = places_of(files, paths);
            &&& -1 <= greatest(places) < files.len()
            &&& greatest(places) >= 0 ==> !survives(files[greatest(places)], paths)
            &&& forall|j: int|
                0 <= j < files.len() && j > greatest(places) ==> survives(
                    #[trigger] files[j],
                    paths,
                )
        }),
    decreases paths.len(),
{
    if paths.len() > 0 {
        let fewer = paths.drop_last();
        let path = paths.last();
        let front = places_of(files, fewer);
        let places = places_of(files, paths);
        greatest_is_the_last(files, fewer);
        place_by_path(files, path, 0);
        match place_of(files, path) {
            Some(i) => {
                assert(front.push(i).drop_last() =~= front);
                place_by_path(files, path, i);
                survives_by_parts(files[i], paths);
            },
            None => {},
        }
        let last = greatest(places);
        if last >= 0 {
            survives_by_parts(files[last], paths);
        }
        assert forall|j: int| 0 <= j < files.len() && j > last implies survives(
            #[trigger] files[j],
            paths,
        ) by {
            survives_by_parts(files[j], paths);
            place_by_path(files, path, j);
        }
    }
}

/// Removing images selects the one behind the last of them, so a run of
/// images can be worked through. Where there is none behind, the last image
/// that is left is selected.
pub proof fn removal_advances<I>(grid: GridState<I>, paths: Seq<FilePath>, last: int)
    requires
        grid.valid(),
        apart(grid.all),
        all_different(paths),
        0 <= last < grid.files.len(),
        !survives(grid.files[last], paths),
        forall|j: int| last < j < grid.files.len() ==> survives(#[trigger] grid.files[j], paths),
    ensures
        ({
            let after = grid.advanced(paths);
            let count = after.files.len() as int;
            &&& after.files == grid.files.filter(|f: FileInfo| survives(f, paths))
            &&& count == 0 ==> after.selected == Set::<int>::empty() && after.focus is None
            &&& count > 0 ==> {
                &&& after.focus is Some
                &&& 0 <= after.focus->0 < count
                &&& after.selected == set![after.focus->0]
                &&& after.anchor == after.focus
                &&& if last + 1 < grid.files.len() {
                    after.files[after.focus->0] == grid.files[last + 1]
                } else {
                    after.focus->0 == count - 1
                }
            }
        }),
{
    let files = grid.files;
    let shows = |f: FileInfo| passes(f, grid.filter);
    let keep = |f: FileInfo| survives(f, paths);
    let both = |f: FileInfo| shows(f) && keep(f);
    let places = places_of(files, paths);
    filter_keeps(grid.all, shows);
    greatest_is_the_last(files, paths);
    assert(greatest(places) == last);
    removal_counts(files, paths);
    removal_leaves_the_others(grid, paths);
    let dropped = grid.dropped(paths);
    filter_twice(grid.all, shows, keep, both);
    filter_twice(grid.all, keep, shows, both);
    drop_keeps_filter(grid, paths);
    shorter_or_same(grid, paths);
    let kept = files.filter(keep);
    assert(visible(dropped.all, grid.filter) == kept);
    let rest = grid.removed(paths);
    assert(rest.files == kept);
    let front = files.take(last + 1);
    let back = files.skip(last + 1);
    assert(files =~= front + back);
    Seq::filter_distributes_over_add(front, back, keep);
    assert forall|f: FileInfo| back.contains(f) implies #[trigger] survives(f, paths) by {
        let k = choose|k: int| 0 <= k < back.len() && back[k] == f;
        assert(files[last + 1 + k] == f);
    }
    all_survive(back, paths);
    assert(kept == front.filter(keep) + back);
    if kept.len() == 0 {
        assert forall|k: int| grid.follow(Some(k), rest.files) is None by {
            assert(paths_of(rest.files) =~= Seq::empty());
        }
        assert(rest.selected =~= Set::empty());
    } else if last + 1 < files.len() {
        assert(kept[front.filter(keep).len() as int] == back[0]);
    }
}

/// What happens to a grid between one filter and the next.
pub enum GridChange<I> {
    /// Files came in, or the folder was sorted anew.
    Folder(Seq<FileInfo>),
    Removed(Seq<FilePath>),
    Advanced(Seq<FilePath>),
    /// The selection, the focus and the anchor were set.
    Selected(Set<int>, Option<int>, Option<int>),
    Clicked(Option<int>, bool, bool),
    Labels(bool),
    Thumb(FilePath, I, usize),
    Invalidated(FilePath),
    Drawn(int),
}

impl<I> GridState<I> {
    pub open spec fn changed(self, change: GridChange<I>) -> GridState<I> {
        match change {
            GridChange::Folder(all) => (GridState { all, ..self }).rebuilt(),
            GridChange::Removed(paths) => self.removed(paths),
            GridChange::Advanced(paths) => self.advanced(paths),
            GridChange::Selected(selected, focus, anchor) => GridState {
                selected,
                focus,
                anchor,
                ..self
            },
            GridChange::Clicked(hit, cmd, shift) => self.clicked(hit, cmd, shift),
            GridChange::Labels(labels) => GridState { labels, ..self },
            GridChange::Thumb(path, image, cost) => self.with_thumb(path, image, cost),
            GridChange::Invalidated(path) => GridState {
                thumbs: without(self.thumbs, path),
                requested: self.requested.remove(components(path@)),
                ..self
            },
            GridChange::Drawn(i) => self.drawn(i),
        }
    }

    /// The grid after some changes, one by one.
    pub open spec fn after(self, changes: Seq<GridChange<I>>) -> GridState<I>
        decreases changes.len(),
    {
        if changes.len() == 0 {
            self
        } else {
            self.after(changes.drop_last()).changed(changes.last())
        }
    }
}

/// A filter stays as it was set, whatever comes in, goes away, is sorted or
/// is selected.
pub proof fn filters_last<I>(grid: GridState<I>, changes: Seq<GridChange<I>>)
    ensures
        grid.after(changes).filter == grid.filter,
    decreases changes.len(),
{
    if changes.len() > 0 {
        let before = grid.after(changes.drop_last());
        filters_last(grid, changes.drop_last());
        match changes.last() {
            GridChange::Removed(paths) => {
                drop_keeps_filter(before, paths);
            },
            GridChange::Advanced(paths) => {
                drop_keeps_filter(before, paths);
            },
            _ => {},
        }
    }
}

/// What dropping paths leaves of a folder depends on the folder alone.
pub proof fn dropping_looks_at_the_folder<I>(
    a: GridState<I>,
    b: GridState<I>,
    paths: Seq<FilePath>,
)
    requires
        a.all == b.all,
    ensures
        a.dropped(paths).all == b.dropped(paths).all,
    decreases paths.len(),
{
    if paths.len() > 0 {
        dropping_looks_at_the_folder(a, b, paths.drop_last());
    }
}

/// Once files were removed there is nothing of them left to drop.
pub proof fn removal_is_complete<I>(grid: GridState<I>, paths: Seq<FilePath>)
    requires
        grid.valid(),
        apart(grid.all),
    ensures
        grid.removed(paths).all == grid.dropped(paths).all,
        grid.removed(paths).dropped(paths).all == grid.removed(paths).all,
{
    let once = grid.removed(paths);
    let keep = |f: FileInfo| survives(f, paths);
    removal_leaves_the_others(grid, paths);
    shorter_or_same(grid, paths);
    assert(once.all == grid.dropped(paths).all);
    removal_leaves_the_others(once, paths);
    filter_twice(grid.all, keep, keep, keep);
}

/// A filter shows exactly the files whose name holds the text, in the order
/// of the folder: the whole name, with its extension, and capitals count as
/// small letters on both sides. Without a text the whole folder is shown.
pub proof fn filters_show_names_that_hold_the_text<I>(grid: GridState<I>, text: Seq<char>)
    ensures
        (GridState { filter: filter_of(text), ..grid }).rebuilt().files == grid.all.filter(
            |f: FileInfo|
                text.len() == 0 || lowercase(text).len() == 0 || (file_name(f.path@) is Some
                    && occurs_in(lowercase(file_name(f.path@)->0), lowercase(text))),
        ),
        forall|f: FileInfo| #[trigger]
            grid.all.contains(f) && file_name(f.path@) is Some ==> ((GridState {
                filter: filter_of(text),
                ..grid
            }).rebuilt().files.contains(f) <==> text.len() == 0 || occurs_in(
                lowercase(file_name(f.path@)->0),
                lowercase(text),
            )),
{
    let after = (GridState { filter: filter_of(text), ..grid }).rebuilt();
    let shows = |f: FileInfo| passes(f, filter_of(text));
    let holds_text = |f: FileInfo|
        text.len() == 0 || lowercase(text).len() == 0 || (file_name(f.path@) is Some && occurs_in(
            lowercase(file_name(f.path@)->0),
            lowercase(text),
        ));
    assert(shows =~= holds_text);
    filter_is_exact(grid.all, shows);
    filter_keeps(grid.all, shows);
    assert forall|f: FileInfo| #[trigger]
        grid.all.contains(f) && file_name(f.path@) is Some implies (after.files.contains(f)
        <==> text.len() == 0 || occurs_in(lowercase(file_name(f.path@)->0), lowercase(text))) by {
        let lower = lowercase(file_name(f.path@)->0);
        if lowercase(text).len() == 0 {
            assert(lower.subrange(0, 0) =~= lowercase(text));
            assert(occurs_at(lower, lowercase(text), 0));
        }
        if after.files.contains(f) {
            let k = choose|k: int| 0 <= k < after.files.len() && after.files[k] == f;
            assert(shows(after.files[k]));
        }
        assert(shows(f) == holds_text(f));
    }
}

/// What the selection is taken for are the selected files, each once, in the
/// order of the grid.
pub proof fn picked_files_are_the_selected_ones<I>(grid: GridState<I>)
    requires
        grid.valid(),
    ensures
        forall|i: int| grid.picked().contains(i) <==> #[trigger] grid.selected.contains(i),
        forall|k: int, m: int|
            0 <= k < m < grid.picked().len() ==> #[trigger] grid.picked()[k]
                < #[trigger] grid.picked()[m],
        grid.picked_files().len() == grid.picked().len(),
        forall|k: int|
            0 <= k < grid.picked().len() ==> 0 <= grid.picked()[k] < grid.files.len()
                && #[trigger] grid.picked_files()[k] == grid.files[grid.picked()[k]],
{
    let count = grid.files.len();
    ascending_climbs(grid.selected, count);
    assert forall|i: int| grid.picked().contains(i) <==> #[trigger] grid.selected.contains(i) by {
        ascending_holds(grid.selected, count, i);
        if grid.picked().contains(i) {
            let k = choose|k: int| 0 <= k < grid.picked().len() && grid.picked()[k] == i;
            assert(grid.selected.contains(ascending(grid.selected, count)[k]));
        }
    }
}

proof fn ascending_holds(chosen: Set<int>, count: nat, i: int)
    ensures
        chosen.contains(i) && 0 <= i < count ==> ascending(chosen, count).contains(i),
    decreases count,
{
    if count > 0 {
        let front = ascending(chosen, (count - 1) as nat);
        let whole = ascending(chosen, count);
        ascending_holds(chosen, (count - 1) as nat, i);
        if chosen.contains(i) && 0 <= i < count - 1 {
            let k = choose|k: int| 0 <= k < front.len() && front[k] == i;
            assert(whole[k] == i);
        } else if chosen.contains(i) && i == count - 1 {
            assert(whole[front.len() as int] == i);
        }
    }
}

/// A click selects one file alone; with the command key it takes that file in
/// or out and leaves the others; with the shift key it selects everything
/// between the anchor and the file. A click beside the files selects nothing,
/// unless the command key is held.
pub proof fn clicks_select<I>(grid: GridState<I>, i: int, p: int)
    ensures
        ({
            let after = grid.clicked(Some(i), false, false);
            &&& after.selected.contains(p) <==> p == i
            &&& after.focus == Some(i) && after.anchor == Some(i)
        }),
        ({
            let after = grid.clicked(Some(i), true, false);
            &&& p != i ==> after.selected.contains(p) == grid.selected.contains(p)
            &&& after.selected.contains(i) == !grid.selected.contains(i)
            &&& after.focus == Some(i) && after.anchor == Some(i)
            &&& after.clicked(Some(i), true, false).selected == grid.selected
        }),
        ({
            let after = grid.clicked(Some(i), false, true);
            &&& after.selected.contains(i)
            &&& grid.anchor is Some && grid.anchor->0 <= i ==> (after.selected.contains(p)
                <==> grid.anchor->0 <= p <= i)
            &&& grid.anchor is Some && grid.anchor->0 >= i ==> (after.selected.contains(p)
                <==> i <= p <= grid.anchor->0)
            &&& grid.anchor is None ==> (after.selected.contains(p) <==> p == i)
            &&& after.focus == Some(i) && after.anchor == grid.anchor
        }),
        !grid.clicked(None, false, false).selected.contains(p),
        grid.clicked(None, true, false) == grid,
        grid.clicked(None, true, true) == grid,
        grid.clicked(None, false, true) == grid.clicked(None, false, false),
        grid.clicked(Some(i), true, true) == grid.clicked(Some(i), false, true),
        grid.clicked(None, false, false).files == grid.files,
        grid.clicked(Some(i), true, false).files == grid.files,
        grid.clicked(Some(i), false, true).files == grid.files,
        grid.clicked(Some(i), false, false).files == grid.files,
{
    let after = grid.clicked(Some(i), true, false);
    assert(after.clicked(Some(i), true, false).selected =~= grid.selected);
}

/// The arrow keys move the focus by one file or by one row, never past the
/// first or the last file, and select the file that it comes to. The other
/// way leads back where there was room. Without a focus they start at the
/// first file. Return starts a show where there is something to show, Esc
/// leaves the filter, and no other key means anything.
pub proof fn arrows_move_the_focus<I>(grid: GridState<I>, columns: int, code: u16)
    requires
        grid.valid(),
        columns > 0,
    ensures
        ({
            let moved = |code: u16| grid.on(grid.stepped(key_delta(code, columns)->0));
            let count = grid.files.len() as int;
            let arrow = code == 123 || code == 124 || code == 125 || code == 126;
            &&& grid.key(code, columns) == GridKey::Moved <==> arrow && count > 0
            &&& grid.key(code, columns) == GridKey::Activate <==> code == 36 && (grid.focus is Some
                || exists|i: int| grid.selected.contains(i))
            &&& grid.key(code, columns) == GridKey::Escape <==> code == 53
            &&& grid.key(code, columns) == GridKey::Unknown <==> !arrow && code != 36 && code != 53
            &&& count > 0 && arrow ==> {
                &&& moved(code).focus is Some
                &&& 0 <= moved(code).focus->0 < count
                &&& moved(code).selected == set![moved(code).focus->0]
                &&& moved(code).anchor == moved(code).focus
                &&& grid.focus is None ==> moved(code).focus == Some(0int)
            }
            &&& count > 0 && grid.focus is Some ==> {
                let f = grid.focus->0;
                &&& moved(123).focus == Some(if f >= 1 { f - 1 } else { 0 })
                &&& moved(124).focus == Some(if f + 1 < count { f + 1 } else { count - 1 })
                &&& moved(126).focus == Some(if f >= columns { f - columns } else { 0 })
                &&& moved(125).focus == Some(
                    if f + columns < count {
                        f + columns
                    } else {
                        count - 1
                    },
                )
                &&& f + 1 < count ==> moved(124).on(
                    moved(124).stepped(key_delta(123, columns)->0),
                ).focus == grid.focus
                &&& f + columns < count ==> moved(125).on(
                    moved(125).stepped(key_delta(126, columns)->0),
                ).focus == grid.focus
            }
        }),
{
    if grid.selected == Set::<int>::empty() {
        assert forall|i: int| !grid.selected.contains(i) by {}
    } else {
        assert(exists|i: int| grid.selected.contains(i)) by {
            if forall|i: int| !grid.selected.contains(i) {
                assert(grid.selected =~= Set::<int>::empty());
            }
        }
    }
}

/// The rows of a grid are just enough for its cells.
pub proof fn rows_are_just_enough(count: int, columns: int)
    requires
        count >= 0,
        columns > 0,
    ensures
        rows_for(count, columns) >= 1,
        count <= rows_for(count, columns) * columns,
        count > 0 ==> (rows_for(count, columns) - 1) * columns < count,
        count == 0 ==> rows_for(count, columns) == 1,
{
    vstd::arithmetic::div_mod::lemma_fundamental_div_mod(count, columns);
    vstd::arithmetic::div_mod::lemma_mod_bound(count, columns);
    let q = count / columns;
    let r = count % columns;
    assert(columns * q == q * columns) by (nonlinear_arith);
    assert((q + 1) * columns == q * columns + columns) by (nonlinear_arith);
    assert((q - 1) * columns == q * columns - columns) by (nonlinear_arith);
    if count > 0 {
        assert(q >= 0) by (nonlinear_arith)
            requires
                count == columns * q + r,
                0 <= r < columns,
                count > 0,
        ;
        if r == 0 {
            assert(q >= 1) by (nonlinear_arith)
                requires
                    count == columns * q,
                    count > 0,
                    columns > 0,
            ;
        }
    }
}

/// A slideshow of the grid plays the selection, in the order of the grid and
/// from the focused file on where that is selected, if several files are
/// selected. Otherwise it plays everything: from the selected file on, or
/// from the focused one, or from the first.
pub proof fn shows_start_on_the_selection<I>(grid: GridState<I>)
    requires
        grid.valid(),
    ensures
        ({
            let (paths, start) = grid.request();
            let picked = grid.picked();
            &&& picked.len() >= 2 ==> {
                &&& paths.len() == picked.len()
                &&& forall|k: int|
                    0 <= k < picked.len() ==> #[trigger] paths[k] == grid.files[picked[k]].path
                &&& grid.focus is Some && grid.selected.contains(grid.focus->0) ==> 0 <= start
                    < paths.len() && paths[start] == grid.files[grid.focus->0].path
                    && picked[start] == grid.focus->0
                &&& !(grid.focus is Some && grid.selected.contains(grid.focus->0)) ==> start == 0
            }
            &&& picked.len() < 2 ==> {
                &&& paths.len() == grid.files.len()
                &&& forall|k: int|
                    0 <= k < grid.files.len() ==> #[trigger] paths[k] == grid.files[k].path
                &&& picked.len() == 1 ==> grid.selected.contains(start)
                &&& picked.len() == 0 && grid.focus is Some ==> start == grid.focus->0
                &&& picked.len() == 0 && grid.focus is None ==> start == 0
            }
        }),
{
    picked_files_are_the_selected_ones(grid);
    let picked = grid.picked();
    if picked.len() >= 2 && grid.focus is Some && grid.selected.contains(grid.focus->0) {
        let f = grid.focus->0;
        assert(picked.contains(f));
        let at = picked.index_of(f);
        let k = choose|k: int| 0 <= k < picked.len() && picked[k] == f;
        assert(0 <= at < picked.len() && picked[at] == f);
        assert(paths_of(grid.picked_files())[at] == grid.picked_files()[at].path);
    }
    if picked.len() == 1 {
        assert(picked.contains(picked[0]));
    }
}

/// Paths select the files that they lead to.
pub proof fn paths_select_their_files(files: Seq<FileInfo>, paths: Seq<FilePath>, p: int)
    requires
        apart(files),
    ensures
        places_of(files, paths).contains(p) <==> 0 <= p < files.len() && exists|k: int|
            0 <= k < paths.len() && same_path((#[trigger] paths[k])@, files[p].path@),
    decreases paths.len(),
{
    let places = places_of(files, paths);
    if paths.len() == 0 {
        assert(!places.contains(p));
    } else {
        let fewer = paths.drop_last();
        let path = paths.last();
        let front = places_of(files, fewer);
        paths_select_their_files(files, fewer, p);
        place_by_path(files, path, p);
        assert(paths[paths.len() - 1] == path);
        assert forall|k: int| 0 <= k < fewer.len() implies fewer[k] == #[trigger] paths[k] by {}
        if front.contains(p) {
            let k = choose|k: int| 0 <= k < front.len() && front[k] == p;
            assert(places[k] == p);
            let m = choose|m: int|
                0 <= m < fewer.len() && same_path((#[trigger] fewer[m])@, files[p].path@);
            assert(same_path(paths[m]@, files[p].path@));
        }
        if place_of(files, path) == Some(p) {
            assert(places[front.len() as int] == p);
        }
        if places.contains(p) && !front.contains(p) {
            let k = choose|k: int| 0 <= k < places.len() && places[k] == p;
            if k < front.len() {
                assert(front[k] == p);
            }
            assert(place_of(files, path) == Some(p));
        }
        if 0 <= p < files.len() && (exists|k: int|
            0 <= k < paths.len() && same_path((#[trigger] paths[k])@, files[p].path@)) {
            let k = choose|k: int|
                0 <= k < paths.len() && same_path((#[trigger] paths[k])@, files[p].path@);
            if k < fewer.len() {
                assert(same_path(fewer[k]@, files[p].path@));
            }
        }
    }
}

/// Inserts happen one after another, each at its index, or at the end where
/// the list is not as long.
pub proof fn inserts_happen_in_turn(
    all: Seq<FileInfo>,
    inserts: Seq<(usize, FileInfo)>,
    index: usize,
    info: FileInfo,
)
    ensures
        mirrored(all, Seq::empty()) == all,
        replay(all, Seq::empty()) == all,
        ({
            let before = mirrored(all, inserts);
            let after = mirrored(all, inserts.push((index, info)));
            &&& index <= before.len() ==> after == before.insert(index as int, info)
            &&& index > before.len() ==> after == before.push(info)
        }),
        replay(all, inserts.push((index, info))) == replay(all, inserts).insert(
            index as int,
            info,
        ),
{
    let more = inserts.push((index, info));
    assert(more.drop_last() =~= inserts);
    let before = mirrored(all, inserts);
    if index >= before.len() {
        assert(before.insert(before.len() as int, info) =~= before.push(info));
    }
}

/// A focus stays on its file as long as that is shown. Where its file is
/// removed, the focus stays at its place, or goes to the last file.
pub proof fn the_focus_stays_in_place<I>(grid: GridState<I>, paths: Seq<FilePath>)
    requires
        grid.valid(),
        apart(grid.all),
        grid.focus is Some,
        grid.removed(paths).files.len() > 0,
    ensures
        ({
            let after = grid.removed(paths);
            let file = grid.files[grid.focus->0];
            let count = after.files.len() as int;
            &&& after.focus is Some
            &&& 0 <= after.focus->0 < count
            &&& survives(file, paths) ==> same_path(after.files[after.focus->0].path@, file.path@)
            &&& !survives(file, paths) ==> after.focus == Some(
                if grid.focus->0 < count {
                    grid.focus->0
                } else {
                    count - 1
                },
            )
        }),
{
    let f = grid.focus->0;
    let file = grid.files[f];
    let shows = |f: FileInfo| passes(f, grid.filter);
    let keep = |f: FileInfo| survives(f, paths);
    let both = |f: FileInfo| shows(f) && keep(f);
    filter_keeps(grid.all, shows);
    filter_is_exact(grid.all, shows);
    removal_leaves_the_others(grid, paths);
    filter_twice(grid.all, shows, keep, both);
    filter_twice(grid.all, keep, shows, both);
    drop_keeps_filter(grid, paths);
    shorter_or_same(grid, paths);
    let dropped = grid.dropped(paths);
    let kept = grid.files.filter(keep);
    assert(visible(dropped.all, grid.filter) == kept);
    filter_keeps(grid.files, keep);
    filter_is_exact(grid.files, keep);
    let rest = grid.removed(paths);
    assert(rest.files == kept);
    place_by_path(kept, file.path, 0);
    assert(grid.files.contains(file));
    if keep(file) {
        let k = choose|k: int| 0 <= k < kept.len() && kept[k] == file;
        place_by_path(kept, file.path, k);
    } else {
        if dropped.all.len() == grid.all.len() {
            assert(kept == grid.files);
            assert(keep(kept[f]));
        }
        if place_of(kept, file.path) is Some {
            let q = place_of(kept, file.path)->0;
            place_by_path(kept, file.path, q);
            assert(keep(kept[q]));
            assert(components(kept[q].path@) == components(file.path@));
        }
    }
}

/// A thumbnail that came in is at hand. One that had to go for it is asked for
/// again, and what was asked for before stays so.
pub proof fn evicted_thumbs_are_asked_for_again<I>(
    grid: GridState<I>,
    path: FilePath,
    image: I,
    cost: usize,
    other: FilePath,
)
    requires
        distinct(grid.thumbs),
    ensures
        ({
            let after = grid.with_thumb(path, image, cost);
            &&& holds(after.thumbs, path) && after.thumbs[place(after.thumbs, path)].value == image
            &&& holds(grid.thumbs, other) && !holds(after.thumbs, other)
                ==> !after.requested.contains(components(other@))
            &&& holds(after.thumbs, other) && grid.requested.contains(components(other@))
                ==> after.requested.contains(components(other@))
            &&& after.requested.contains(components(other@)) ==> grid.requested.contains(
                components(other@),
            )
            &&& after.files == grid.files && after.selected == grid.selected
        }),
{
    let entry = Entry { key: path, value: image, cost };
    let base = without(grid.thumbs, path);
    let full = base.push(entry);
    let gone = evictions(full, THUMB_CACHE_BYTES as nat) as int;
    let after = grid.with_thumb(path, image, cost);
    let evicted = full.take(gone).map_values(|e: Entry<FilePath, I>| e.key);
    insert_is_read_back(grid.thumbs, entry, THUMB_CACHE_BYTES as nat);
    without_forgets(grid.thumbs, path);
    eviction_is_enough_and_no_more(full, THUMB_CACHE_BYTES as nat);
    assert(after.thumbs == inserted(grid.thumbs, entry, THUMB_CACHE_BYTES as nat));
    let parts = components(other@);
    if holds(grid.thumbs, other) && !holds(after.thumbs, other) {
        if same_path(other@, path@) {
            let i = place(after.thumbs, path);
            assert(is_at(after.thumbs, path, i));
            assert(is_at(after.thumbs, other, i));
            assert(false);
        }
        assert(holds(base, other));
        let i = choose|i: int| is_at(base, other, i);
        assert(full[i] == base[i]);
        if i >= gone {
            assert(after.thumbs[i - gone] == full[i]);
            assert(is_at(after.thumbs, other, i - gone));
        }
        assert(evicted[i] == full[i].key);
        assert(lists(evicted, parts));
    }
    if holds(after.thumbs, other) && lists(evicted, parts) {
        let i = choose|i: int| is_at(after.thumbs, other, i);
        let k = choose|k: int|
            0 <= k < evicted.len() && components((#[trigger] evicted[k])@) == parts;
        assert(evicted[k] == full[k].key);
        assert(after.thumbs[i] == full[i + gone]);
        full_is_distinct(grid.thumbs, entry);
        assert(full[k].key.matches_spec(&full[i + gone].key));
        assert(false);
    }
}

proof fn full_is_distinct<I>(entries: Seq<Entry<FilePath, I>>, entry: Entry<FilePath, I>)
    requires
        distinct(entries),
    ensures
        distinct(without(entries, entry.key).push(entry)),
{
    let base = without(entries, entry.key);
    let full = base.push(entry);
    without_forgets(entries, entry.key);
    assert forall|i: int, j: int|
        0 <= i < full.len() && 0 <= j < full.len() && i != j implies !#[trigger] full[
        i].key.matches_spec(&#[trigger] full[j].key) by {
        if i < base.len() && j < base.len() {
            assert(full[i] == base[i] && full[j] == base[j]);
        } else {
            let k = if i < base.len() { i } else { j };
            assert(full[k] == base[k]);
            assert(!is_at(base, entry.key, k));
        }
    }
}

/// Nothing is at hand any more for files that were removed.
pub proof fn removed_files_have_no_thumbs<I>(grid: GridState<I>, paths: Seq<FilePath>, k: int)
    requires
        apart(grid.all),
        distinct(grid.thumbs),
        0 <= k < paths.len(),
        place_of(grid.all, paths[k]) is Some,
    ensures
        !holds(grid.dropped(paths).thumbs, paths[k]),
        !grid.dropped(paths).requested.contains(components(paths[k]@)),
        distinct(grid.dropped(paths).thumbs),
    decreases paths.len(),
{
    let fewer = paths.drop_last();
    let last = paths.last();
    let rest = grid.dropped(fewer);
    dropping_keeps_distinct(grid, fewer);
    removal_leaves_the_others(grid, fewer);
    without_forgets(rest.thumbs, last);
    if k < fewer.len() {
        assert(fewer[k] == paths[k]);
        removed_files_have_no_thumbs(grid, fewer, k);
        if holds(without(rest.thumbs, last), paths[k]) {
            let i = choose|i: int| is_at(without(rest.thumbs, last), paths[k], i);
            if holds(rest.thumbs, last) {
                let p = place(rest.thumbs, last);
                let j = if i < p { i } else { i + 1 };
                assert(is_at(rest.thumbs, paths[k], j));
            } else {
                assert(is_at(rest.thumbs, paths[k], i));
            }
        }
    } else {
        assert(paths[k] == last);
        if place_of(rest.all, last) is None {
            // One of the others is the same path, and took everything along.
            place_by_path(grid.all, last, 0);
            let p = place_of(grid.all, last)->0;
            place_by_path(grid.all, last, p);
            let info = grid.all[p];
            let keep = |f: FileInfo| survives(f, fewer);
            filter_is_exact(grid.all, keep);
            assert(grid.all.contains(info));
            if keep(info) {
                let q = choose|q: int| 0 <= q < rest.all.len() && rest.all[q] == info;
                place_by_path(rest.all, last, q);
            }
            let m = choose|m: int|
                0 <= m < fewer.len() && components((#[trigger] fewer[m])@) == components(
                    info.path@,
                );
            first_same_by_components(paths_of(grid.all), fewer[m], last);
            removed_files_have_no_thumbs(grid, fewer, m);
            if holds(rest.thumbs, last) {
                let i = choose|i: int| is_at(rest.thumbs, last, i);
                assert(is_at(rest.thumbs, fewer[m], i));
            }
        }
    }
}

proof fn dropping_keeps_distinct<I>(grid: GridState<I>, paths: Seq<FilePath>)
    requires
        distinct(grid.thumbs),
    ensures
        distinct(grid.dropped(paths).thumbs),
    decreases paths.len(),
{
    if paths.len() > 0 {
        let rest = grid.dropped(paths.drop_last());
        dropping_keeps_distinct(grid, paths.drop_last());
        without_forgets(rest.thumbs, paths.last());
    }
}

} // verus!
