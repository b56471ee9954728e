//! What holds of the app's operations together.

use vstd::prelude::*;

use crate::browse::{
    joined_names, not_among, pace_of, size_sum, status_line, tenths_of, trash_text,
};
use crate::cache::{distinct, holds, is_at, without, without_forgets};
use crate::delegate::{screen_effects, AppState, Effect, StatusState};
use crate::grid::{ascending, visible, GridState};
use crate::grid_laws::{
    apart, filters_last, filters_narrow, picked_files_are_the_selected_ones, removal_happens_once,
    removal_is_complete, removal_leaves_the_others, shows_start_on_the_selection, survives,
    GridChange,
};
use crate::order::{FileInfo, SortOrder};
use crate::path::{
    all_different, components, file_name, first_same, first_same_is_first, lists, same_path,
    FilePath,
};
use crate::playlist::{played, shuffling_keeps_the_show, steps_follow_the_show};
use crate::show::{name_text, starting, the_current_slide_comes_on_screen, ShowState};
use crate::text::decimal;

verus! {

/// The settings that one run saves are those that the next one starts with.
pub proof fn settings_come_back<I>(app: AppState<I>, fresh: AppState<I>)
    requires
        app.pace is Some ==> 0 < app.pace->0 <= i64::MAX,
        !fresh.looping && !fresh.shuffling && !fresh.grid.labels,
    ensures
        fresh.with_prefs(app.settings()).settings() == app.settings(),
        fresh.with_prefs(app.settings()).pace == app.pace,
{
}

/// Picking the current order again reverses it, and once more brings it back.
pub proof fn picking_again_reverses<I>(app: AppState<I>, order: SortOrder)
    requires
        app.sort == order,
    ensures
        app.sort_picked(order).descending != app.descending,
        app.sort_picked(order).sort_picked(order) == app,
{
}

/// A new show has the loop and shuffle settings and the pace of the app,
/// starts on the file that was asked for, and advances if there is a pace.
pub proof fn shows_start_as_set<I>(
    app: AppState<I>,
    files: Seq<FilePath>,
    index: int,
    windowed: bool,
    state: u64,
)
    requires
        0 <= index < files.len() <= usize::MAX,
    ensures
        ({
            let after = app.started(files, index, windowed, state);
            let show = after.show->0;
            &&& after.show is Some
            &&& show.windowed == windowed
            &&& show.playlist.files == files
            &&& show.playlist.loops == app.looping
            &&& show.playlist.order.len() > 0 <==> app.shuffling
            &&& show.playlist.current() == Some(files[index])
            &&& show.interval == app.pace
            &&& show.ticking == (app.pace is Some)
        }),
{
    shuffling_keeps_the_show(starting(files, index, app.looping), app.shuffling, state);
}

/// The pace of a show is the pace of the next one.
pub proof fn the_pace_stays<I>(
    app: AppState<I>,
    pace: Option<u64>,
    files: Seq<FilePath>,
    index: int,
    windowed: bool,
    state: u64,
)
    requires
        0 <= index < files.len() <= usize::MAX,
    ensures
        app.paced(pace).ended().started(files, index, windowed, state).show->0.interval == pace,
{
    shows_start_as_set(app.paced(pace).ended(), files, index, windowed, state);
}

/// Pausing and going on leaves a show as it was.
pub proof fn space_undoes_space<I>(app: AppState<I>)
    requires
        app.show is Some,
        app.show->0.interval is Some,
    ensures
        app.spaced().spaced().show == app.show,
{
}

/// Escape shows the whole folder, whatever the filter was.
pub proof fn escape_shows_the_whole_folder<I>(app: AppState<I>)
    requires
        app.grid.valid(),
    ensures
        app.unfiltered().grid.all == app.grid.all,
        app.unfiltered().grid.files == app.grid.all,
{
    if app.grid.filter.len() > 0 {
        filters_narrow(
            GridState {
                files: visible(app.grid.all, Seq::empty()),
                filter: Seq::empty(),
                selected: Set::empty(),
                focus: None,
                anchor: None,
                ..app.grid
            },
        );
    } else {
        filters_narrow(app.grid);
    }
}

/// Whether nothing of some files is left in a show.
pub open spec fn free_of<I>(show: ShowState<I>, paths: Seq<FilePath>) -> bool {
    forall|k: int|
        0 <= k < paths.len() ==> first_same(show.playlist.files, #[trigger] paths[k]) is None
            && !holds(show.cache, paths[k]) && !show.view_states.dom().contains(
            components(paths[k]@),
        )
}

proof fn removal_keeps_different(files: Seq<FilePath>, i: int)
    requires
        all_different(files),
        0 <= i < files.len(),
    ensures
        all_different(files.remove(i)),
        forall|p: FilePath|
            #![trigger first_same(files.remove(i), p)]
            first_same(files, p) is None || same_path(files[i]@, p@) ==> first_same(
                files.remove(i),
                p,
            ) is None,
{
    let rest = files.remove(i);
    assert forall|a: int| 0 <= a < rest.len() implies #[trigger] rest[a] == files[if a < i {
        a
    } else {
        a + 1
    }] by {}
    assert forall|a: int, b: int| 0 <= a < b < rest.len() implies !same_path(
        (#[trigger] rest[a])@,
        (#[trigger] rest[b])@,
    ) by {
        let x = if a < i {
            a
        } else {
            a + 1
        };
        let y = if b < i {
            b
        } else {
            b + 1
        };
        assert(rest[a] == files[x] && rest[b] == files[y]);
    }
    assert forall|p: FilePath|
        #![trigger first_same(rest, p)]
        first_same(files, p) is None || same_path(files[i]@, p@) implies first_same(rest, p) is None
        by {
        first_same_is_first(files, p);
        first_same_is_first(rest, p);
        if first_same(rest, p) is Some {
            let a = first_same(rest, p)->0;
            let x = if a < i {
                a
            } else {
                a + 1
            };
            assert(rest[a] == files[x]);
            assert(same_path(files[x]@, p@));
            if x < i {
                assert(!same_path(files[x]@, files[i]@));
            } else {
                assert(!same_path(files[i]@, files[x]@));
            }
        }
    }
}

proof fn without_keeps_absent<I>(
    entries: Seq<crate::cache::Entry<FilePath, I>>,
    path: FilePath,
    other: FilePath,
)
    requires
        !holds(entries, other),
    ensures
        !holds(without(entries, path), other),
{
    if holds(entries, path) {
        let p = crate::cache::place(entries, path);
        assert(is_at(entries, path, p));
        if holds(without(entries, path), other) {
            let j = crate::cache::place(without(entries, path), other);
            assert(is_at(without(entries, path), other, j));
            assert(is_at(
                entries,
                other,
                if j < p {
                    j
                } else {
                    j + 1
                },
            ));
        }
    }
}

/// Files that were taken out of a show are nowhere in it: they do not play,
/// and nothing is kept for them.
pub proof fn dropped_files_leave_the_show<I>(show: ShowState<I>, paths: Seq<FilePath>)
    requires
        distinct(show.cache),
        all_different(show.playlist.files),
    ensures
        free_of(show.dropped(paths), paths),
        distinct(show.dropped(paths).cache),
        all_different(show.dropped(paths).playlist.files),
    decreases paths.len(),
{
    if paths.len() > 0 {
        let front = paths.drop_last();
        let path = paths.last();
        dropped_files_leave_the_show(show, front);
        let rest = show.dropped(front);
        let after = show.dropped(paths);
        first_same_is_first(rest.playlist.files, path);
        if first_same(rest.playlist.files, path) is Some {
            removal_keeps_different(
                rest.playlist.files,
                first_same(rest.playlist.files, path)->0,
            );
        }
        without_forgets(rest.cache, path);
        assert forall|k: int| 0 <= k < paths.len() implies first_same(
            after.playlist.files,
            #[trigger] paths[k],
        ) is None && !holds(after.cache, paths[k]) && !after.view_states.dom().contains(
            components(paths[k]@),
        ) by {
            if k < front.len() {
                assert(front[k] == paths[k]);
                without_keeps_absent(rest.cache, path, paths[k]);
            } else {
                assert(paths[k] == path);
            }
        }
    }
}

/// Taking files out of a show that has none of them changes nothing.
proof fn nothing_to_drop<I>(show: ShowState<I>, paths: Seq<FilePath>)
    requires
        free_of(show, paths),
    ensures
        show.dropped(paths) == show,
    decreases paths.len(),
{
    if paths.len() > 0 {
        let front = paths.drop_last();
        assert(paths[paths.len() - 1] == paths.last());
        assert forall|k: int| 0 <= k < front.len() implies first_same(
            show.playlist.files,
            #[trigger] front[k],
        ) is None && !holds(show.cache, front[k]) && !show.view_states.dom().contains(
            components(front[k]@),
        ) by {
            assert(front[k] == paths[k]);
        }
        nothing_to_drop(show, front);
        assert(show.view_states.remove(components(paths.last()@)) =~= show.view_states);
    }
}

/// The app's delete is the authority: when the disk reports a moment later
/// that the files are gone, nothing changes, and the status bar still says
/// what the app did.
pub proof fn echo_of_the_trash_changes_nothing<I>(
    app: AppState<I>,
    paths: Seq<FilePath>,
    failed: Seq<FilePath>,
)
    requires
        app.grid.valid(),
        apart(app.grid.all),
        app.show is Some ==> app.show->0.valid() && all_different(app.show->0.playlist.files),
        paths.len() > 0,
    ensures
        app.trashed(paths, failed).files_removed(not_among(paths, failed)) == app.trashed(
            paths,
            failed,
        ),
        app.trashed(paths, failed).status is Message,
{
    let moved = not_among(paths, failed);
    let base = AppState {
        grid: app.grid.advanced(moved),
        status: StatusState::Line,
        ..app
    };
    let after = app.trashed(paths, failed);
    advanced_is_settled(app.grid, moved);
    dropping_settles_the_show(base, moved);
    echo_after_telling(base.dropped(moved), moved, trash_text(moved, failed.len()));
}

/// Once files were dropped the grid is as it was, and a show that is left
/// plays something, but none of them.
proof fn dropping_settles_the_show<I>(app: AppState<I>, paths: Seq<FilePath>)
    requires
        app.show is Some ==> app.show->0.valid() && all_different(app.show->0.playlist.files),
    ensures
        app.dropped(paths).grid == app.grid,
        app.dropped(paths).show is Some ==> {
            let show = app.dropped(paths).show->0;
            free_of(show, paths) && show.playlist.files.len() > 0
        },
{
    if app.show is Some {
        let show = app.show->0;
        let rest = show.dropped(paths);
        dropped_files_leave_the_show(show, paths);
        refreshing_frees_nothing(rest, paths);
    }
}

/// A line about files that are gone already stays when they are reported
/// gone.
proof fn echo_after_telling<I>(app: AppState<I>, paths: Seq<FilePath>, text: Seq<char>)
    requires
        app.grid.removed(paths) == app.grid,
        app.grid.dropped(paths).all.len() == app.grid.all.len(),
        app.show is Some ==> free_of(app.show->0, paths) && app.show->0.playlist.files.len() > 0,
    ensures
        app.told(text).files_removed(paths) == app.told(text),
        app.told(text).status is Message,
{
    let told = app.told(text);
    assert(told.grid == app.grid);
    if told.show is Some {
        nothing_to_drop(told.show->0, paths);
    }
    assert(told.dropped(paths) == told);
}

/// Bringing a slide on screen puts no file back into a show.
proof fn refreshing_frees_nothing<I>(show: ShowState<I>, paths: Seq<FilePath>)
    requires
        free_of(show, paths),
        distinct(show.cache),
    ensures
        free_of(show.refreshed(), paths),
{
    let after = show.refreshed();
    assert forall|k: int| 0 <= k < paths.len() implies !holds(after.cache, #[trigger] paths[k]) by {
        if show.playlist.current() is Some && holds(show.cache, show.playlist.current()->0) {
            let current = show.playlist.current()->0;
            let p = crate::cache::place(show.cache, current);
            assert(is_at(show.cache, current, p));
            if holds(after.cache, paths[k]) {
                let j = crate::cache::place(after.cache, paths[k]);
                assert(is_at(after.cache, paths[k], j));
                let from = if j == after.cache.len() - 1 {
                    p
                } else if j < p {
                    j
                } else {
                    j + 1
                };
                assert(is_at(show.cache, paths[k], from));
            }
        }
    }
}

/// A grid without some files has nothing more to remove.
proof fn advanced_is_settled<I>(grid: GridState<I>, paths: Seq<FilePath>)
    requires
        grid.valid(),
        apart(grid.all),
    ensures
        grid.advanced(paths).removed(paths) == grid.advanced(paths),
        grid.advanced(paths).dropped(paths).all.len() == grid.advanced(paths).all.len(),
{
    let rest = grid.removed(paths);
    removal_happens_once(grid, paths);
    let after = grid.advanced(paths);
    crate::grid_laws::dropping_looks_at_the_folder(rest, after, paths);
    crate::grid_laws::removal_is_complete(grid, paths);
}

/// A tick of the timer shows the next slide, round the end of a looped show,
/// and stops a show that is at its end.
pub proof fn ticks_advance_the_show<I>(app: AppState<I>)
    requires
        app.show is Some,
        app.show->0.playlist.valid(),
        app.show->0.playlist.files.len() > 0,
    ensures
        ({
            let list = app.show->0.playlist;
            let after = app.ticked();
            let last = list.position + 1 == list.files.len();
            &&& after.show is Some
            &&& !last ==> after.show->0.playlist.current() == Some(
                played(list)[list.position + 1],
            ) && after.show->0.interval == app.show->0.interval && after.pace == app.pace
            &&& last && list.loops ==> after.show->0.playlist.current() == Some(played(list)[0])
            &&& last && !list.loops ==> after.show->0.playlist == list && after.show->0.interval
                is None && !after.show->0.ticking
        }),
{
    steps_follow_the_show(app.show->0.playlist, 1);
}

/// An order that is picked anew starts with the smallest, or with the newest
/// where it goes by a date.
pub proof fn new_orders_start_as_expected<I>(app: AppState<I>, order: SortOrder)
    requires
        app.sort != order,
    ensures
        app.sort_picked(order).sort == order,
        order == SortOrder::Name || order == SortOrder::Size || order == SortOrder::Path
            ==> !app.sort_picked(order).descending,
        order == SortOrder::Modified || order == SortOrder::ExifDate || order == SortOrder::Added
            ==> app.sort_picked(order).descending,
        app.sort_picked(order).grid == app.grid,
{
}

/// The trash works on the slide on screen, or on the selected files where no
/// show runs.
pub proof fn the_trash_takes_the_slide_or_the_selection<I>(app: AppState<I>)
    requires
        app.grid.valid(),
    ensures
        app.show is Some && app.show->0.playlist.current() is Some ==> app.trash_targets().len() == 1
            && app.trash_targets()[0] == app.show->0.playlist.current()->0,
        app.show is None ==> app.trash_targets().len() == app.grid.picked().len() && forall|k: int|
            0 <= k < app.grid.picked().len() ==> #[trigger] app.trash_targets()[k]
                == app.grid.files[app.grid.picked()[k]].path,
{
    picked_files_are_the_selected_ones(app.grid);
}

/// What went to the trash leaves the folder, and everything else stays: a file
/// that could not be moved too.
pub proof fn only_what_was_trashed_goes<I>(
    app: AppState<I>,
    paths: Seq<FilePath>,
    failed: Seq<FilePath>,
    info: FileInfo,
)
    requires
        app.grid.valid(),
        apart(app.grid.all),
        app.grid.all.contains(info),
        paths.len() > 0,
    ensures
        app.trashed(paths, failed).grid.all.contains(info) <==> !(lists(
            paths,
            components(info.path@),
        ) && !lists(failed, components(info.path@))),
{
    let moved = not_among(paths, failed);
    let keep = |f: FileInfo| survives(f, moved);
    let after = app.trashed(paths, failed);
    removal_is_complete(app.grid, moved);
    removal_leaves_the_others(app.grid, moved);
    assert(after.grid.all == app.grid.all.filter(keep));
    moved_is_listed(paths, failed, components(info.path@));
    filtered_contains(app.grid.all, keep, info);
}

proof fn filtered_contains(all: Seq<FileInfo>, keep: spec_fn(FileInfo) -> bool, info: FileInfo)
    ensures
        all.filter(keep).contains(info) <==> all.contains(info) && keep(info),
    decreases all.len(),
{
    reveal(Seq::filter);
    if all.len() == 0 {
        assert(all.filter(keep) =~= all);
    } else {
        let front = all.drop_last();
        let kept = front.filter(keep);
        let whole = all.filter(keep);
        filtered_contains(front, keep, info);
        if kept.contains(info) {
            let k = choose|k: int| 0 <= k < kept.len() && kept[k] == info;
            assert(whole[k] == info);
        }
        if front.contains(info) {
            let k = choose|k: int| 0 <= k < front.len() && front[k] == info;
            assert(all[k] == info);
        }
        if all.contains(info) && !front.contains(info) {
            let k = choose|k: int| 0 <= k < all.len() && all[k] == info;
            if k < front.len() {
                assert(front[k] == info);
            }
            assert(all.last() == info);
            if keep(info) {
                assert(whole[kept.len() as int] == info);
            }
        }
        if whole.contains(info) && !kept.contains(info) {
            let k = choose|k: int| 0 <= k < whole.len() && whole[k] == info;
            if k < kept.len() {
                assert(kept[k] == info);
            }
            assert(all[all.len() - 1] == info);
        }
    }
}

proof fn moved_is_listed(paths: Seq<FilePath>, failed: Seq<FilePath>, parts: Seq<Seq<char>>)
    ensures
        lists(not_among(paths, failed), parts) <==> lists(paths, parts) && !lists(failed, parts),
    decreases paths.len(),
{
    reveal(Seq::filter);
    let moved = not_among(paths, failed);
    if paths.len() == 0 {
        assert(moved =~= paths);
    } else {
        let front = paths.drop_last();
        let last = paths.last();
        let kept = not_among(front, failed);
        moved_is_listed(front, failed, parts);
        assert(paths[paths.len() - 1] == last);
        if lists(front, parts) {
            let k = choose|k: int|
                0 <= k < front.len() && components((#[trigger] front[k])@) == parts;
            assert(paths[k] == front[k]);
        }
        if lists(paths, parts) {
            let k = choose|k: int|
                0 <= k < paths.len() && components((#[trigger] paths[k])@) == parts;
            if k < front.len() {
                assert(front[k] == paths[k]);
            }
        }
        if lists(kept, parts) {
            let k = choose|k: int| 0 <= k < kept.len() && components((#[trigger] kept[k])@) == parts;
            assert(moved[k] == kept[k]);
        }
        if lists(moved, parts) {
            let k = choose|k: int|
                0 <= k < moved.len() && components((#[trigger] moved[k])@) == parts;
            if k < kept.len() {
                assert(kept[k] == moved[k]);
            }
        }
        if components(last@) == parts && !lists(failed, parts) {
            assert(moved[kept.len() as int] == last);
        }
    }
}

/// The line after a delete names the first three files that went and counts
/// the others, and says how many could not be moved.
pub proof fn the_trash_line_names_what_went(
    moved: Seq<FilePath>,
    a: FilePath,
    b: FilePath,
    c: FilePath,
    failed: nat,
)
    ensures
        trash_text(seq![a], 0) == "Moved to trash: "@ + name_text(Some(a)),
        trash_text(seq![a, b], 0) == "Moved to trash: "@ + name_text(Some(a)) + ", "@ + name_text(
            Some(b),
        ),
        trash_text(seq![a, b, c], 0) == "Moved to trash: "@ + name_text(Some(a)) + ", "@
            + name_text(Some(b)) + ", "@ + name_text(Some(c)),
        moved.len() > 3 ==> trash_text(moved, 0) == trash_text(moved.take(3), 0) + " and "@
            + decimal((moved.len() - 3) as nat) + " more"@,
        moved.len() > 0 && failed > 0 ==> trash_text(moved, failed) == trash_text(moved, 0)
            + " — "@ + decimal(failed) + " of "@ + decimal(moved.len() + failed)
            + " could not be moved to trash"@,
        trash_text(Seq::empty(), failed) == decimal(failed) + " of "@ + decimal(failed)
            + " could not be moved to trash"@,
        name_text(Some(a)) == (match file_name(a@) {
            Some(name) => name,
            None => Seq::empty(),
        }),
{
    let one = seq![a];
    let two = seq![a, b];
    let three = seq![a, b, c];
    assert(two.drop_last() =~= one);
    assert(three.drop_last() =~= two);
    assert(joined_names(one) == name_text(Some(a)));
    assert(joined_names(two) == name_text(Some(a)) + ", "@ + name_text(Some(b)));
    assert(joined_names(three) == joined_names(two) + ", "@ + name_text(Some(c)));
    let none = Seq::<char>::empty();
    assert(trash_text(one, 0) =~= "Moved to trash: "@ + name_text(Some(a)));
    assert(trash_text(two, 0) =~= "Moved to trash: "@ + name_text(Some(a)) + ", "@ + name_text(
        Some(b),
    ));
    assert(trash_text(three, 0) =~= "Moved to trash: "@ + name_text(Some(a)) + ", "@ + name_text(
        Some(b),
    ) + ", "@ + name_text(Some(c)));
    if moved.len() > 3 {
        let named = moved.take(3);
        assert(trash_text(moved, 0) =~= trash_text(named, 0) + " and "@ + decimal(
            (moved.len() - 3) as nat,
        ) + " more"@);
    }
    if moved.len() > 0 && failed > 0 {
        assert(trash_text(moved, failed) =~= trash_text(moved, 0) + " — "@ + decimal(failed)
            + " of "@ + decimal(moved.len() + failed) + " could not be moved to trash"@);
    }
    assert(0 + failed == failed);
}

/// The status bar counts what the grid shows, and describes the selection: one
/// file by its name, dimensions and size, several by their number and size.
pub proof fn the_status_bar_counts_and_describes<I>(
    grid: GridState<I>,
    dimensions: Option<(u64, u64)>,
    size: Seq<char>,
)
    ensures
        ({
            let line = status_line(grid, dimensions, size);
            let count = grid.picked_files().len();
            let total = decimal(grid.files.len());
            &&& count == 0 ==> line == total + " images"@
            &&& count == 1 ==> {
                let name = match file_name(grid.picked_files()[0].path@) {
                    Some(name) => name,
                    None => Seq::empty(),
                };
                match dimensions {
                    None => line == name + " — "@ + size + " · "@ + total + " images"@,
                    Some((width, height)) => line == name + " — "@ + decimal(width as nat) + "×"@
                        + decimal(height as nat) + " — "@ + size + " · "@ + total + " images"@,
                }
            }
            &&& count > 1 ==> line == decimal(count) + " of "@ + total + " selected — "@ + size
        }),
{
    let line = status_line(grid, dimensions, size);
    let total = decimal(grid.files.len());
    if grid.picked_files().len() == 1 {
        let name = name_text(Some(grid.picked_files()[0].path));
        match dimensions {
            None => {
                assert(line =~= name + " — "@ + size + " · "@ + total + " images"@);
            },
            Some((width, height)) => {
                assert(line =~= name + " — "@ + decimal(width as nat) + "×"@ + decimal(
                    height as nat,
                ) + " — "@ + size + " · "@ + total + " images"@);
            },
        }
    }
}

/// The size of a selection is the sum of the sizes of its files.
pub proof fn sizes_add_up(files: Seq<FileInfo>, info: FileInfo)
    ensures
        size_sum(Seq::empty()) == 0,
        size_sum(files.push(info)) == size_sum(files) + info.size,
{
    assert(files.push(info).drop_last() =~= files);
}

/// A scan starts with an empty grid, on the folder and as deep as asked, shows
/// the folder in the sidebar, and remembers it where the user picked it.
pub proof fn scans_start_afresh<I>(app: AppState<I>, root: FilePath, deep: bool, remember: bool)
    ensures
        ({
            let after = app.scanning(root, deep, remember);
            &&& after.grid.all.len() == 0 && after.grid.files.len() == 0 && after.grid.filter.len()
                == 0
            &&& after.grid.thumbs.len() == 0 && after.grid.focus is None && forall|i: int|
                !#[trigger] after.grid.selected.contains(i)
            &&& after.grid.labels == app.grid.labels
            &&& after.scan == Some((root, deep))
            &&& after.show == app.show
            &&& after.effects.last() == Effect::<I>::Scan(root, deep)
            &&& after.effects.contains(Effect::<I>::Reveal(root))
            &&& remember && !app.harness ==> after.effects.contains(Effect::<I>::SaveFolder(root))
            &&& !remember && !app.effects.contains(Effect::<I>::SaveFolder(root))
                ==> !after.effects.contains(Effect::<I>::SaveFolder(root))
        }),
{
    let after = app.scanning(root, deep, remember);
    let n = app.effects.len() as int;
    assert(after.effects[n] == Effect::<I>::Reveal(root));
    if remember && !app.harness {
        assert(after.effects[n + 1] == Effect::<I>::SaveFolder(root));
    }
    if !remember && !app.effects.contains(Effect::<I>::SaveFolder(root)) {
        assert forall|k: int| 0 <= k < after.effects.len() implies #[trigger] after.effects[k]
            != Effect::<I>::SaveFolder(root) by {
            if k < n {
                assert(after.effects[k] == app.effects[k]);
                assert(app.effects.contains(app.effects[k]));
            }
        }
    }
}

/// A file that changed on disk is decoded anew: nothing at hand for it counts
/// any more, in the grid and in the show, and its slide is asked for again if
/// it is on screen.
pub proof fn changed_files_are_decoded_anew<I>(app: AppState<I>, path: FilePath)
    requires
        distinct(app.grid.thumbs),
        app.show is Some ==> app.show->0.valid(),
    ensures
        ({
            let after = app.file_changed(path);
            &&& !holds(after.grid.thumbs, path)
            &&& !after.grid.requested.contains(components(path@))
            &&& after.grid.files == app.grid.files && after.grid.all == app.grid.all
            &&& app.show is Some ==> after.show is Some && !holds(after.show->0.cache, path)
                && after.show->0.playlist == app.show->0.playlist
            &&& app.show is Some && app.show->0.is_current(path) ==> lists(
                after.show->0.requests(),
                components(path@),
            )
        }),
{
    without_forgets(app.grid.thumbs, path);
    if app.show is Some {
        let show = app.show->0;
        without_forgets(show.cache, path);
        let forgotten = ShowState { cache: without(show.cache, path), ..show };
        if show.is_current(path) {
            let current = show.playlist.current()->0;
            if holds(forgotten.cache, current) {
                let i = choose|i: int| is_at(forgotten.cache, current, i);
                assert(is_at(forgotten.cache, path, i));
            }
            the_current_slide_comes_on_screen(forgotten);
        }
    }
}

/// Loop and shuffle are turned on and off for the show that runs and for later
/// ones, and settings are saved unless the harness runs.
pub proof fn shuffle_is_turned_on_and_off<I>(app: AppState<I>, state: u64)
    requires
        app.show is Some ==> app.show->0.playlist.valid(),
    ensures
        ({
            let after = app.shuffle_toggled(state);
            &&& after.shuffling == !app.shuffling
            &&& app.show is Some ==> after.show is Some && after.show->0.playlist.current()
                == app.show->0.playlist.current() && after.show->0.playlist.files
                == app.show->0.playlist.files && (app.show->0.playlist.files.len() > 0 ==> (
            after.show->0.playlist.order.len() > 0 <==> after.shuffling))
            &&& app.show is None ==> after.show is None
            &&& !app.harness ==> after.effects == app.effects.push(Effect::<I>::SavePrefs)
            &&& app.harness ==> after.effects == app.effects
        }),
{
    if app.show is Some {
        shuffling_keeps_the_show(app.show->0.playlist, !app.shuffling, state);
    }
    let after = app.shuffle_toggled(state);
    if app.harness {
        assert(after.effects =~= app.effects);
    } else {
        assert(after.effects =~= app.effects.push(Effect::<I>::SavePrefs));
    }
}

/// A show starts in the preferred mode, or in the other one with the option
/// key, with what the grid asks for.
pub proof fn the_option_key_picks_the_other_mode<I>(app: AppState<I>, option: bool, state: u64)
    requires
        app.grid.valid(),
        app.grid.files.len() > 0,
        app.grid.files.len() <= usize::MAX,
    ensures
        ({
            let after = app.activated(option, state);
            let (paths, start) = app.grid.request();
            &&& after.show is Some
            &&& option ==> after.show->0.windowed == !app.windowed
            &&& !option ==> after.show->0.windowed == app.windowed
            &&& 0 <= start < paths.len()
            &&& after.show->0.playlist.files == paths
            &&& after.show->0.playlist.current() == Some(paths[start])
        }),
{
    shows_start_on_the_selection(app.grid);
    picked_files_are_the_selected_ones(app.grid);
    let (paths, start) = app.grid.request();
    let picked = app.grid.picked();
    if picked.len() == 1 {
        assert(app.grid.selected.contains(start));
    }
    picked_are_few(app.grid);
    shows_start_as_set(app, paths, start, app.windowed != option, state);
}

proof fn picked_are_few<I>(grid: GridState<I>)
    requires
        grid.valid(),
    ensures
        grid.picked().len() <= grid.files.len(),
{
    ascending_is_short(grid.selected, grid.files.len());
}

proof fn ascending_is_short(chosen: Set<int>, count: nat)
    ensures
        ascending(chosen, count).len() <= count,
    decreases count,
{
    if count > 0 {
        ascending_is_short(chosen, (count - 1) as nat);
    }
}

/// A pace is stored as its tenths and read back, and no pace as none.
pub proof fn paces_are_read_back(pace: Option<u64>)
    requires
        pace is Some ==> 0 < pace->0 <= i64::MAX,
    ensures
        pace_of(tenths_of(pace)) == pace,
        pace is Some ==> tenths_of(pace) == pace->0,
{
}

/// Bringing the current slide on screen puts it there where it is at hand, and
/// asks for every slide that is needed.
pub proof fn slides_are_shown_or_asked_for<I>(app: AppState<I>, k: int)
    requires
        app.show is Some,
        app.show->0.playlist.current() is Some,
    ensures
        ({
            let show = app.show->0;
            let current = show.playlist.current()->0;
            let after = app.shown();
            &&& holds(show.cache, current) ==> after.effects.contains(
                Effect::<I>::ShowSlide(current),
            )
            &&& 0 <= k < show.refreshed().requests().len() ==> after.effects.contains(
                Effect::<I>::RequestSlide(show.refreshed().requests()[k]),
            )
            &&& after.show == Some(show.refreshed())
        }),
{
    let show = app.show->0;
    let current = show.playlist.current()->0;
    let after = app.shown();
    let at = app.effects.len() + (if show.flash is Some { 1int } else { 0 });
    if holds(show.cache, current) {
        assert(after.effects[at] == Effect::<I>::ShowSlide(current));
    }
    if 0 <= k < show.refreshed().requests().len() {
        let place = app.effects.len() + screen_effects(show).len() + k;
        assert(after.effects[place as int] == Effect::<I>::RequestSlide(
            show.refreshed().requests()[k],
        ));
    }
}

/// A decoded slide goes on screen if it is the current one, and only then.
pub proof fn decoded_slides_go_on_screen<I>(app: AppState<I>, path: FilePath, image: I, cost: usize)
    requires
        app.show is Some,
        app.show->0.playlist.current() is Some,
    ensures
        ({
            let current = app.show->0.playlist.current()->0;
            let after = app.slide_ready(path, image, cost);
            &&& after.show is Some
            &&& same_path(current@, path@) ==> after.effects == app.effects.push(
                Effect::<I>::ShowSlide(path),
            ) && after.show->0.view.image == Some(path)
            &&& !same_path(current@, path@) ==> after.effects == app.effects
                && after.show->0.view == app.show->0.view
            &&& after.grid == app.grid
        }),
{
    let current = app.show->0.playlist.current()->0;
    let after = app.slide_ready(path, image, cost);
    if same_path(current@, path@) {
        assert(after.effects =~= app.effects.push(Effect::<I>::ShowSlide(path)));
    } else {
        assert(after.effects =~= app.effects);
    }
}

/// What vanished from the disk leaves the folder and the show, and everything
/// else stays in the folder.
pub proof fn vanished_files_leave<I>(app: AppState<I>, paths: Seq<FilePath>, info: FileInfo)
    requires
        app.grid.valid(),
        apart(app.grid.all),
        app.grid.all.contains(info),
    ensures
        app.files_removed(paths).grid.all.contains(info) <==> !lists(
            paths,
            components(info.path@),
        ),
        app.files_removed(paths).grid.filter == app.grid.filter,
{
    let keep = |f: FileInfo| survives(f, paths);
    removal_is_complete(app.grid, paths);
    removal_leaves_the_others(app.grid, paths);
    filtered_contains(app.grid.all, keep, info);
    filters_last(app.grid, seq![GridChange::Removed(paths)]);
    let one = seq![GridChange::<I>::Removed(paths)];
    assert(one.drop_last() =~= Seq::empty());
    reveal_with_fuel(GridState::after, 2);
}

/// A show without an index among its files starts on the last one.
pub proof fn shows_start_within_their_files<I>(
    app: AppState<I>,
    files: Seq<FilePath>,
    index: int,
    windowed: bool,
    state: u64,
)
    requires
        0 < files.len() <= index,
        files.len() <= usize::MAX,
    ensures
        app.started(files, index, windowed, state).show is Some,
        app.started(files, index, windowed, state).show->0.playlist.current() == Some(files.last()),
        app.started(Seq::empty(), index, windowed, state) == app,
{
    shuffling_keeps_the_show(starting(files, index, app.looping), app.shuffling, state);
}

/// The status bar is blank at first, describes the grid, or keeps a message.
pub proof fn the_status_bar_says_what_is_set<I>(
    app: AppState<I>,
    dimensions: Option<(u64, u64)>,
    size: Seq<char>,
    text: Seq<char>,
)
    ensures
        app.status == StatusState::Blank ==> app.status_text(dimensions, size).len() == 0,
        app.status == StatusState::Line ==> app.status_text(dimensions, size) == status_line(
            app.grid,
            dimensions,
            size,
        ),
        app.told(text).status_text(dimensions, size) == text,
        app.show is Some ==> app.told(text).show->0.flash == Some(text),
{
}

/// A scan that is done is reported, and the first one starts the harness where
/// that runs.
pub proof fn scans_are_reported<I>(app: AppState<I>, total: usize)
    ensures
        ({
            let after = app.scan_done(total);
            &&& after.effects.contains(Effect::<I>::ReportScan(total))
            &&& after.status == StatusState::Line
            &&& after.grid == app.grid && after.show == app.show
            &&& app.harness && !app.e2e.started ==> after.effects.last()
                == Effect::<I>::StartHarness && after.e2e.started
            &&& !(app.harness && !app.e2e.started) ==> after.effects == app.effects.push(
                Effect::<I>::ReportScan(total),
            ) && after.e2e == app.e2e
        }),
{
    let after = app.scan_done(total);
    assert(after.effects[app.effects.len() as int] == Effect::<I>::ReportScan(total));
    if !(app.harness && !app.e2e.started) {
        assert(after.effects =~= app.effects.push(Effect::<I>::ReportScan(total)));
    }
}

/// A claim of the harness is noted, and one that does not hold counts as a
/// failure, with its step and its words.
pub proof fn claims_are_noted<I>(app: AppState<I>, ok: bool, what: &'static str)
    ensures
        app.checked(ok, what).effects == app.effects.push(
            Effect::<I>::Checked(app.e2e.step, ok, what),
        ),
        ok ==> app.checked(ok, what).e2e == app.e2e,
        !ok ==> app.checked(ok, what).e2e.failures == app.e2e.failures.push(
            "step "@ + decimal(app.e2e.step as nat) + ": "@ + what@,
        ),
        app.checked(ok, what).e2e.step == app.e2e.step,
        app.checked(ok, what).grid == app.grid,
        app.checked(ok, what).show == app.show,
{
    assert(app.checked(ok, what).effects =~= app.effects.push(
        Effect::<I>::Checked(app.e2e.step, ok, what),
    ));
}

} // verus!
