//! What the menu bar and the preferences window hold, with their marks.

use vstd::prelude::*;

use crate::browse::{menu_order, order_tag, pace_of, tenths_of};
use crate::delegate::{AppDelegate, AppState};
use crate::order::SortOrder;

verus! {

/// What a menu item does.
#[derive(Clone, Copy, Debug, PartialEq, Eq, Structural)]
pub enum Action {
    ShowPrefs,
    Quit,
    OpenFolder,
    MoveToTrash,
    StartSlideshow,
    StartWindowed,
    ToggleLoop,
    ToggleShuffle,
    /// Set the pace: the tag is tenths of a second, 0 = off.
    AutoAdvance,
    /// Sort the grid: the tag is the order.
    Sort,
    BiggerThumbs,
    SmallerThumbs,
    ToggleSidebar,
    ToggleLabels,
}

/// One menu item. Its key goes with the command key, and with others where it
/// says so.
#[derive(Clone, Copy)]
pub struct MenuItem {
    pub title: &'static str,
    pub action: Action,
    pub key: &'static str,
    pub tag: i64,
    pub option: bool,
    pub control: bool,
    pub marked: bool,
}

/// One line of a menu.
pub enum MenuLine {
    Item(MenuItem),
    Separator,
    Submenu(&'static str, Vec<MenuItem>),
}

/// One menu of the menu bar.
pub struct Menu {
    pub title: &'static str,
    pub lines: Vec<MenuLine>,
}

/// Everything there is to say of a line.
#[verifier::ext_equal]
pub enum LineState {
    Item(MenuItem),
    Separator,
    Submenu(&'static str, Seq<MenuItem>),
}

impl View for MenuLine {
    type V = LineState;

    open spec fn view(&self) -> LineState {
        match *self {
            MenuLine::Item(item) => LineState::Item(item),
            MenuLine::Separator => LineState::Separator,
            MenuLine::Submenu(title, items) => LineState::Submenu(title, items@),
        }
    }
}

/// The lines of a menu.
pub open spec fn lines_of(lines: Seq<MenuLine>) -> Seq<LineState> {
    lines.map_values(|l: MenuLine| l@)
}

/// An item with a key, and nothing else.
pub open spec fn plain_item(title: &'static str, action: Action, key: &'static str) -> MenuItem {
    MenuItem { title, action, key, tag: 0, option: false, control: false, marked: false }
}

/// An item of the auto-advance menu.
pub open spec fn pace_item(title: &'static str, tag: i64, pace: int) -> MenuItem {
    MenuItem { tag, marked: tag == pace, ..plain_item(title, Action::AutoAdvance, "") }
}

/// An item of the sort orders.
pub open spec fn sort_item(
    title: &'static str,
    tag: i64,
    key: &'static str,
    current: int,
) -> MenuItem {
    MenuItem { tag, control: true, marked: tag == current, ..plain_item(title, Action::Sort, key) }
}

/// The menu of the app itself.
pub open spec fn app_lines() -> Seq<LineState> {
    seq![
        LineState::Item(plain_item("Preferences…", Action::ShowPrefs, ",")),
        LineState::Separator,
        LineState::Item(plain_item("Quit wene", Action::Quit, "q")),
    ]
}

/// The File menu.
pub open spec fn file_lines() -> Seq<LineState> {
    seq![
        LineState::Item(plain_item("Open folder…", Action::OpenFolder, "o")),
        LineState::Separator,
        LineState::Item(plain_item("Move to trash", Action::MoveToTrash, "\u{8}")),
    ]
}

/// The paces to pick from; the current one is marked.
pub open spec fn pace_items(pace: int) -> Seq<MenuItem> {
    seq![
        pace_item("Off", 0, pace),
        pace_item("Every second", 10, pace),
        pace_item("Every 3 seconds", 30, pace),
        pace_item("Every 5 seconds", 50, pace),
        pace_item("Every 10 seconds", 100, pace),
    ]
}

/// The Slideshow menu.
pub open spec fn show_lines(looping: bool, shuffling: bool, pace: int) -> Seq<LineState> {
    seq![
        LineState::Item(plain_item("Start slideshow", Action::StartSlideshow, "y")),
        LineState::Item(
            MenuItem {
                option: true,
                ..plain_item("Start slideshow in window", Action::StartWindowed, "y")
            },
        ),
        LineState::Separator,
        LineState::Item(
            MenuItem { marked: looping, ..plain_item("Loop", Action::ToggleLoop, "l") },
        ),
        LineState::Item(
            MenuItem {
                option: true,
                marked: shuffling,
                ..plain_item("Shuffle", Action::ToggleShuffle, "r")
            },
        ),
        LineState::Separator,
        LineState::Submenu("Auto-advance", pace_items(pace)),
    ]
}

/// The View menu.
pub open spec fn view_lines(current: int, sidebar: bool, labels: bool) -> Seq<LineState> {
    seq![
        LineState::Item(sort_item("Sort by name", 1, "1", current)),
        LineState::Item(sort_item("Sort by date modified", 2, "2", current)),
        LineState::Item(sort_item("Sort by size", 3, "3", current)),
        LineState::Item(sort_item("Sort by file path", 4, "4", current)),
        LineState::Item(sort_item("Sort by EXIF date", 5, "5", current)),
        LineState::Item(sort_item("Sort by date added", 6, "6", current)),
        LineState::Separator,
        LineState::Item(plain_item("Bigger thumbnails", Action::BiggerThumbs, "+")),
        LineState::Item(plain_item("Smaller thumbnails", Action::SmallerThumbs, "-")),
        LineState::Separator,
        LineState::Item(
            MenuItem {
                control: true,
                marked: sidebar,
                ..plain_item("Show sidebar", Action::ToggleSidebar, "s")
            },
        ),
        LineState::Item(
            MenuItem { marked: labels, ..plain_item("Show filenames", Action::ToggleLabels, "") },
        ),
    ]
}

/// The titles and the lines of the menu bar.
pub open spec fn bar_of<I>(app: AppState<I>) -> Seq<(&'static str, Seq<LineState>)> {
    seq![
        ("", app_lines()),
        ("File", file_lines()),
        ("Slideshow", show_lines(app.looping, app.shuffling, tenths_of(app.pace) as int)),
        ("View", view_lines(order_tag(app.sort), !app.sidebar_hidden, app.grid.labels)),
    ]
}

/// The titles and the lines of some menus.
pub open spec fn menus_of(menus: Seq<Menu>) -> Seq<(&'static str, Seq<LineState>)> {
    menus.map_values(|m: Menu| (m.title, lines_of(m.lines@)))
}

fn plain(title: &'static str, action: Action, key: &'static str) -> (item: MenuItem)
    ensures
        item == plain_item(title, action, key),
{
    MenuItem { title, action, key, tag: 0, option: false, control: false, marked: false }
}

fn app_menu() -> (menu: Menu)
    ensures
        menu.title == "",
        lines_of(menu.lines@) == app_lines(),
{
    let mut lines: Vec<MenuLine> = Vec::new();
    lines.push(MenuLine::Item(plain("Preferences…", Action::ShowPrefs, ",")));
    lines.push(MenuLine::Separator);
    lines.push(MenuLine::Item(plain("Quit wene", Action::Quit, "q")));
    assert(lines_of(lines@) =~= app_lines());
    Menu { title: "", lines }
}

fn file_menu() -> (menu: Menu)
    ensures
        menu.title == "File",
        lines_of(menu.lines@) == file_lines(),
{
    let mut lines: Vec<MenuLine> = Vec::new();
    lines.push(MenuLine::Item(plain("Open folder…", Action::OpenFolder, "o")));
    lines.push(MenuLine::Separator);
    // The backspace key, in the grid and the slideshow.
    lines.push(MenuLine::Item(plain("Move to trash", Action::MoveToTrash, "\u{8}")));
    assert(lines_of(lines@) =~= file_lines());
    Menu { title: "File", lines }
}

fn pace_choice(title: &'static str, tag: i64, pace: i64) -> (item: MenuItem)
    ensures
        item == pace_item(title, tag, pace as int),
{
    let mut item = plain(title, Action::AutoAdvance, "");
    item.tag = tag;
    item.marked = tag == pace;
    item
}

/// The paces to pick from, in the menu and in the preferences; the current
/// one is marked.
pub fn pace_choices(pace: i64) -> (items: Vec<MenuItem>)
    ensures
        items@ == pace_items(pace as int),
{
    let mut items: Vec<MenuItem> = Vec::new();
    items.push(pace_choice("Off", 0, pace));
    items.push(pace_choice("Every second", 10, pace));
    items.push(pace_choice("Every 3 seconds", 30, pace));
    items.push(pace_choice("Every 5 seconds", 50, pace));
    items.push(pace_choice("Every 10 seconds", 100, pace));
    assert(items@ =~= pace_items(pace as int));
    items
}

fn show_menu(looping: bool, shuffling: bool, pace: i64) -> (menu: Menu)
    ensures
        menu.title == "Slideshow",
        lines_of(menu.lines@) == show_lines(looping, shuffling, pace as int),
{
    let mut lines: Vec<MenuLine> = Vec::new();
    lines.push(MenuLine::Item(plain("Start slideshow", Action::StartSlideshow, "y")));
    let mut windowed = plain("Start slideshow in window", Action::StartWindowed, "y");
    windowed.option = true;
    lines.push(MenuLine::Item(windowed));
    lines.push(MenuLine::Separator);
    let mut item = plain("Loop", Action::ToggleLoop, "l");
    item.marked = looping;
    lines.push(MenuLine::Item(item));
    let mut item = plain("Shuffle", Action::ToggleShuffle, "r");
    item.option = true;
    item.marked = shuffling;
    lines.push(MenuLine::Item(item));
    lines.push(MenuLine::Separator);
    lines.push(MenuLine::Submenu("Auto-advance", pace_choices(pace)));
    assert(lines_of(lines@) =~= show_lines(looping, shuffling, pace as int));
    Menu { title: "Slideshow", lines }
}

fn sort_choice(title: &'static str, tag: i64, key: &'static str, current: i64) -> (line: MenuLine)
    ensures
        line@ == LineState::Item(sort_item(title, tag, key, current as int)),
{
    let mut item = plain(title, Action::Sort, key);
    item.tag = tag;
    item.control = true;
    item.marked = tag == current;
    MenuLine::Item(item)
}

fn view_menu(current: i64, sidebar: bool, labels: bool) -> (menu: Menu)
    ensures
        menu.title == "View",
        lines_of(menu.lines@) == view_lines(current as int, sidebar, labels),
{
    let mut lines: Vec<MenuLine> = Vec::new();
    lines.push(sort_choice("Sort by name", 1, "1", current));
    lines.push(sort_choice("Sort by date modified", 2, "2", current));
    lines.push(sort_choice("Sort by size", 3, "3", current));
    lines.push(sort_choice("Sort by file path", 4, "4", current));
    lines.push(sort_choice("Sort by EXIF date", 5, "5", current));
    lines.push(sort_choice("Sort by date added", 6, "6", current));
    lines.push(MenuLine::Separator);
    lines.push(MenuLine::Item(plain("Bigger thumbnails", Action::BiggerThumbs, "+")));
    lines.push(MenuLine::Item(plain("Smaller thumbnails", Action::SmallerThumbs, "-")));
    lines.push(MenuLine::Separator);
    let mut item = plain("Show sidebar", Action::ToggleSidebar, "s");
    item.control = true;
    item.marked = sidebar;
    lines.push(MenuLine::Item(item));
    let mut item = plain("Show filenames", Action::ToggleLabels, "");
    item.marked = labels;
    lines.push(MenuLine::Item(item));
    assert(lines_of(lines@) =~= view_lines(current as int, sidebar, labels));
    Menu { title: "View", lines }
}

/// What the controls of the preferences window show.
pub struct PrefsPanel {
    pub windowed: bool,
    pub looping: bool,
    pub shuffling: bool,
    pub labels: bool,
    /// The pace that is picked, by its tag.
    pub pace: i64,
    /// The startup folder.
    pub startup: String,
}

impl<I> AppDelegate<I> {
    /// The menu bar, with its marks.
    pub fn menu_bar(&self) -> (menus: Vec<Menu>)
        ensures
            menus_of(menus@) == bar_of(self@),
    {
        let mut menus: Vec<Menu> = Vec::new();
        menus.push(app_menu());
        menus.push(file_menu());
        menus.push(show_menu(self.looping, self.shuffling, self.prefs().tenths));
        menus.push(
            view_menu(self.sort_tag(), !self.sidebar_hidden, self.grid.labels_visible()),
        );
        assert(menus_of(menus@) =~= bar_of(self@));
        menus
    }

    /// What the controls of the preferences window show. Without a startup
    /// folder the app asks at launch.
    pub fn prefs_panel(&self, startup: Option<&str>) -> (panel: PrefsPanel)
        ensures
            panel.windowed == self@.windowed,
            panel.looping == self@.looping,
            panel.shuffling == self@.shuffling,
            panel.labels == self@.grid.labels,
            panel.pace == tenths_of(self@.pace),
            panel.startup@ == (match startup {
                Some(folder) => folder@,
                None => "Ask at launch"@,
            }),
    {
        let prefs = self.prefs();
        PrefsPanel {
            windowed: prefs.windowed,
            looping: prefs.looping,
            shuffling: prefs.shuffling,
            labels: prefs.labels,
            pace: prefs.tenths,
            startup: match startup {
                Some(folder) => folder.to_owned(),
                None => "Ask at launch".to_owned(),
            },
        }
    }
}

/// Each item of the sort menu sorts by what it says, and the current order is
/// marked, and no other.
pub proof fn sort_items_sort_by_what_they_say<I>(app: AppState<I>)
    ensures
        ({
            let lines = view_lines(order_tag(app.sort), !app.sidebar_hidden, app.grid.labels);
            let item = |k: int| lines[k]->Item_0;
            &&& lines.len() >= 6
            &&& forall|k: int|
                0 <= k < 6 ==> (#[trigger] lines[k]) is Item && item(k).action == Action::Sort && (
                item(k).marked <==> menu_order(item(k).tag as int) == app.sort)
            &&& item(0).title == "Sort by name" && menu_order(item(0).tag as int)
                == SortOrder::Name
            &&& item(1).title == "Sort by date modified" && menu_order(item(1).tag as int)
                == SortOrder::Modified
            &&& item(2).title == "Sort by size" && menu_order(item(2).tag as int)
                == SortOrder::Size
            &&& item(3).title == "Sort by file path" && menu_order(item(3).tag as int)
                == SortOrder::Path
            &&& item(4).title == "Sort by EXIF date" && menu_order(item(4).tag as int)
                == SortOrder::ExifDate
            &&& item(5).title == "Sort by date added" && menu_order(item(5).tag as int)
                == SortOrder::Added
        }),
        menu_order(order_tag(app.sort)) == app.sort,
{
    let lines = view_lines(order_tag(app.sort), !app.sidebar_hidden, app.grid.labels);
    assert(lines[0] is Item && lines[1] is Item && lines[2] is Item);
    assert(lines[3] is Item && lines[4] is Item && lines[5] is Item);
    assert forall|k: int| 0 <= k < 6 implies (#[trigger] lines[k]) is Item
        && lines[k]->Item_0.action == Action::Sort && (lines[k]->Item_0.marked <==> menu_order(
        lines[k]->Item_0.tag as int,
    ) == app.sort) by {
        assert(k == 0 || k == 1 || k == 2 || k == 3 || k == 4 || k == 5);
    }
}

/// Each item of the auto-advance menu sets the pace it names, in tenths of a
/// second, and the current one is marked, and no other.
pub proof fn pace_items_set_the_pace_they_name(pace: int)
    ensures
        ({
            let items = pace_items(pace);
            &&& items.len() == 5
            &&& forall|k: int|
                0 <= k < 5 ==> (#[trigger] items[k]).action == Action::AutoAdvance && (
                items[k].marked <==> items[k].tag == pace)
            &&& items[0].title == "Off" && pace_of(items[0].tag) is None
            &&& items[1].title == "Every second" && pace_of(items[1].tag) == Some(10u64)
            &&& items[2].title == "Every 3 seconds" && pace_of(items[2].tag) == Some(30u64)
            &&& items[3].title == "Every 5 seconds" && pace_of(items[3].tag) == Some(50u64)
            &&& items[4].title == "Every 10 seconds" && pace_of(items[4].tag) == Some(100u64)
        }),
{
    let items = pace_items(pace);
    assert forall|k: int| 0 <= k < 5 implies (#[trigger] items[k]).action == Action::AutoAdvance
        && (items[k].marked <==> items[k].tag == pace) by {
        assert(k == 0 || k == 1 || k == 2 || k == 3 || k == 4);
    }
}

/// The marks of the menus show what is on: loop, shuffle, the sidebar and the
/// names under the thumbnails.
pub proof fn marks_show_what_is_on<I>(app: AppState<I>)
    ensures
        ({
            let show = bar_of(app)[2].1;
            let view = bar_of(app)[3].1;
            &&& forall|k: int|
                0 <= k < show.len() && #[trigger] show[k] is Item ==> {
                    let item = show[k]->Item_0;
                    item.marked <==> (item.action == Action::ToggleLoop && app.looping) || (
                    item.action == Action::ToggleShuffle && app.shuffling)
                }
            &&& exists|k: int|
                0 <= k < show.len() && #[trigger] show[k] is Item && show[k]->Item_0.action
                    == Action::ToggleLoop
            &&& exists|k: int|
                0 <= k < show.len() && #[trigger] show[k] is Item && show[k]->Item_0.action
                    == Action::ToggleShuffle
            &&& forall|k: int|
                0 <= k < view.len() && #[trigger] view[k] is Item && view[k]->Item_0.action
                    == Action::ToggleSidebar ==> view[k]->Item_0.marked == !app.sidebar_hidden
            &&& forall|k: int|
                0 <= k < view.len() && #[trigger] view[k] is Item && view[k]->Item_0.action
                    == Action::ToggleLabels ==> view[k]->Item_0.marked == app.grid.labels
        }),
{
    let show = bar_of(app)[2].1;
    let view = bar_of(app)[3].1;
    assert(show[3] is Item && show[3]->Item_0.action == Action::ToggleLoop);
    assert(show[4] is Item && show[4]->Item_0.action == Action::ToggleShuffle);
}

} // verus!
