use wene::path::FilePath;
use wene::sidebar::{
    best_root, has_subfolder, load_favorites, subfolders, volumes, FavoriteEntry, FolderEntry,
    Reading, Sidebar, VolumeEntry, Walk, FAVORITES_ROOT, LOCAL_ROOT,
};

fn path(text: &str) -> FilePath {
    FilePath::new(text)
}

fn folder(text: &str) -> FolderEntry {
    FolderEntry { path: path(text), is_dir: true, package: false }
}

fn texts(paths: &[FilePath]) -> Vec<&str> {
    paths.iter().map(|p| p.as_text()).collect()
}

#[test]
fn two_sections_come_first() {
    let sidebar = Sidebar::new(vec![path("/home/Pictures")]);
    assert_eq!(sidebar.child_count(None), 2);
    assert_eq!(sidebar.child_at(None, 0), FAVORITES_ROOT);
    assert_eq!(sidebar.child_at(None, 1), LOCAL_ROOT);
    assert_eq!(sidebar.name_of(FAVORITES_ROOT), "Favorites");
    assert_eq!(sidebar.name_of(LOCAL_ROOT), "Local");
    assert!(sidebar.is_section(LOCAL_ROOT));
    assert!(matches!(sidebar.reading(FAVORITES_ROOT), Reading::Favorites));
    assert!(matches!(sidebar.reading(LOCAL_ROOT), Reading::Volumes));
}

#[test]
fn rows_are_read_once() {
    let mut sidebar = Sidebar::new(vec![path("/home/Pictures")]);
    sidebar.load_children(FAVORITES_ROOT, Vec::new());
    assert_eq!(sidebar.child_count(Some(FAVORITES_ROOT)), 1);
    let pictures = sidebar.child_at(Some(FAVORITES_ROOT), 0);
    assert_eq!(sidebar.name_of(pictures), "Pictures");
    assert_eq!(sidebar.path_of(pictures).as_text(), "/home/Pictures");
    assert!(matches!(sidebar.reading(pictures), Reading::Folder(p) if p.as_text() == "/home/Pictures"));
    sidebar.load_children(pictures, vec![(path("/home/Pictures/a"), None)]);
    sidebar.load_children(pictures, vec![(path("/x"), None), (path("/y"), None)]);
    assert_eq!(sidebar.child_count(Some(pictures)), 1);
    assert!(matches!(sidebar.reading(pictures), Reading::Nothing));
    // No such row, and a slot that was never handed out.
    assert_eq!(sidebar.child_at(Some(pictures), 1), usize::MAX);
    assert_eq!(sidebar.name_of(usize::MAX), "");
    assert_eq!(sidebar.path_of(99).as_text(), "");
    assert_eq!(sidebar.child_count(Some(99)), 0);
}

#[test]
fn slots_are_never_reused() {
    let mut sidebar = Sidebar::new(Vec::new());
    sidebar.load_children(LOCAL_ROOT, vec![(path("/"), Some("Disk".to_string()))]);
    let old = sidebar.child_at(Some(LOCAL_ROOT), 0);
    assert_eq!(sidebar.name_of(old), "Disk");
    sidebar.reload_section(LOCAL_ROOT, vec![(path("/Volumes/usb"), None)]);
    let new = sidebar.child_at(Some(LOCAL_ROOT), 0);
    assert_ne!(old, new);
    assert_eq!(sidebar.name_of(old), "Disk");
    assert_eq!(sidebar.name_of(new), "usb");
}

#[test]
fn triangles_are_looked_up_once() {
    let mut sidebar = Sidebar::new(vec![path("/a")]);
    sidebar.load_children(FAVORITES_ROOT, Vec::new());
    let slot = sidebar.child_at(Some(FAVORITES_ROOT), 0);
    assert!(sidebar.expandable(FAVORITES_ROOT, false));
    assert_eq!(sidebar.known_expandable(slot), None);
    assert!(!sidebar.expandable(slot, false));
    assert!(!sidebar.expandable(slot, true));
    assert_eq!(sidebar.known_expandable(slot), Some(false));
    assert_eq!(sidebar.known_expandable(77), None);
    // A slot that was never handed out remembers nothing.
    assert!(sidebar.expandable(77, true));
    assert!(!sidebar.expandable(77, false));
    sidebar.load_children(77, vec![(path("/z"), None)]);
    assert_eq!(sidebar.child_count(Some(77)), 0);
}

#[test]
fn favorites_come_and_go() {
    let mut sidebar = Sidebar::new(vec![path("/a"), path("/b")]);
    assert!(!sidebar.add_favorite(&path("/a/.")));
    assert!(sidebar.add_favorite(&path("/c")));
    assert!(!sidebar.add_favorite(&path("/c")));
    assert_eq!(texts(&sidebar.e2e_favorites()), ["/a", "/b", "/c"]);
    assert_eq!(sidebar.child_count(Some(FAVORITES_ROOT)), 3);
    let slot = sidebar.child_at(Some(FAVORITES_ROOT), 2);
    assert_eq!(sidebar.menu_entry(slot), Some(FavoriteEntry::Remove));
    sidebar.remove_favorite(&path("/c"));
    assert_eq!(texts(&sidebar.e2e_favorites()), ["/a", "/b"]);
    assert_eq!(sidebar.menu_entry(slot), Some(FavoriteEntry::Add));
    assert_eq!(sidebar.menu_entry(LOCAL_ROOT), None);
}

#[test]
fn a_click_opens_a_folder_unless_it_is_shown() {
    let mut sidebar = Sidebar::new(vec![path("/a")]);
    sidebar.load_children(FAVORITES_ROOT, Vec::new());
    let slot = Some(sidebar.child_at(Some(FAVORITES_ROOT), 0));
    assert_eq!(sidebar.selected_path(slot).unwrap().as_text(), "/a");
    assert!(sidebar.selected_path(None).is_none());
    assert!(sidebar.selected_path(Some(LOCAL_ROOT)).is_none());
    assert!(sidebar.open_selected(slot, &None).is_some());
    assert!(sidebar.open_selected(slot, &Some((path("/a"), false))).is_none());
    // A deep scan narrows to one level.
    assert!(sidebar.open_selected(slot, &Some((path("/a"), true))).is_some());
    assert!(sidebar.open_selected(slot, &Some((path("/b"), false))).is_some());
    assert_eq!(sidebar.e2e_click(slot).unwrap().as_text(), "/a");
}

#[test]
fn the_deepest_root_is_walked_from() {
    let roots = vec![
        (2, path("/home/me")),
        (3, path("/home/me/Pictures")),
        (4, path("/")),
        (5, path("/home/me/Pictures/.")),
        (6, path("/other")),
    ];
    assert_eq!(best_root(&roots, &path("/home/me/Pictures/2024")), Some(1));
    assert_eq!(best_root(&roots, &path("/home/me/Picturesque")), Some(0));
    assert_eq!(best_root(&roots, &path("/etc")), Some(2));
    assert_eq!(best_root(&roots[4..].iter().map(|(s, p)| (*s, p.clone())).collect(), &path("/x")), None);
}

#[test]
fn a_walk_goes_down_row_by_row() {
    let mut sidebar = Sidebar::new(vec![path("/home")]);
    sidebar.load_children(FAVORITES_ROOT, Vec::new());
    let home = sidebar.child_at(Some(FAVORITES_ROOT), 0);
    let mut walk = Walk::start(home, &path("/home"), &path("/home/a/b"));
    assert_eq!(walk.next_row(), Some(home));
    sidebar.load_children(home, vec![(path("/home/x"), None), (path("/home/a"), None)]);
    assert!(walk.step(&sidebar));
    let a = walk.row();
    assert_eq!(sidebar.path_of(a).as_text(), "/home/a");
    assert_eq!(walk.next_row(), Some(a));
    sidebar.load_children(a, vec![(path("/home/a/c"), None)]);
    // The tree has no row for it.
    assert!(!walk.step(&sidebar));
    assert_eq!(walk.row(), a);
    let there = Walk::start(a, &path("/home/a"), &path("/home/a"));
    assert_eq!(there.next_row(), None);
}

#[test]
fn first_run_favorites() {
    let home = path("/home/me");
    assert_eq!(
        texts(&load_favorites(&home, None)),
        ["/home/me/Pictures", "/home/me/Desktop", "/home/me"]
    );
    assert!(load_favorites(&home, Some(Vec::new())).is_empty());
    assert_eq!(texts(&load_favorites(&home, Some(vec![path("/x")]))), ["/x"]);
}

#[test]
fn subfolders_are_shown_in_natural_order() {
    let mut entries = vec![folder("/p/b10"), folder("/p/b9"), folder("/p/.git"), folder("/p/A")];
    entries.push(FolderEntry { path: path("/p/Library.app"), is_dir: true, package: true });
    entries.push(FolderEntry { path: path("/p/x.jpg"), is_dir: false, package: false });
    assert_eq!(texts(&subfolders(&entries).unwrap()), ["/p/A", "/p/b9", "/p/b10"]);
    assert!(has_subfolder(&entries));
    assert!(!has_subfolder(&entries.split_off(4)));
    let long = vec![folder("/p/18446744073709551616"), folder("/p/99999999999999999999")];
    assert!(subfolders(&long).is_none());
}

#[test]
fn the_startup_disk_keeps_the_root() {
    let entry = |name: &str, is_dir: bool, startup: bool| VolumeEntry {
        name: name.to_string(),
        is_dir,
        startup,
    };
    let rows = |list: Option<Vec<VolumeEntry>>| -> Vec<(String, String)> {
        volumes(list)
            .unwrap()
            .into_iter()
            .map(|(p, n)| (p.as_text().to_string(), n.unwrap()))
            .collect()
    };
    let pair = |a: &str, b: &str| (a.to_string(), b.to_string());
    assert_eq!(rows(None), [pair("/", "Macintosh HD")]);
    assert_eq!(
        rows(Some(vec![
            entry("usb 10", true, false),
            entry("usb 9", true, false),
            entry(".hidden", true, false),
            entry("note", false, false),
            entry("Main", true, true),
        ])),
        [pair("/", "Main"), pair("/Volumes/usb 9", "usb 9"), pair("/Volumes/usb 10", "usb 10")]
    );
    assert_eq!(
        rows(Some(vec![entry("usb", true, false)])),
        [pair("/", "Macintosh HD"), pair("/Volumes/usb", "usb")]
    );
    let long = vec![
        entry("18446744073709551616", true, false),
        entry("99999999999999999999", true, false),
    ];
    assert!(volumes(Some(long)).is_none());
}

#[test]
fn rows_lie_in_the_folder_of_their_row() {
    let mut sidebar = Sidebar::new(vec![path("/home")]);
    assert!(sidebar.can_load(LOCAL_ROOT, &vec![(path("/Volumes/usb"), None)]));
    sidebar.load_children(FAVORITES_ROOT, Vec::new());
    let home = sidebar.child_at(Some(FAVORITES_ROOT), 0);
    let inside = vec![(path("/home/a"), None)];
    assert!(sidebar.can_load(home, &inside));
    assert!(!sidebar.can_load(home, &vec![(path("/home/a/b"), None)]));
    assert!(!sidebar.can_load(home, &vec![(path("/home"), None)]));
    sidebar.load_children(home, inside);
    assert!(sidebar.can_load(home, &vec![(path("/elsewhere"), None)]));
}

#[test]
fn a_walk_ends_on_its_target() {
    let mut sidebar = Sidebar::new(vec![path("/link")]);
    sidebar.load_children(FAVORITES_ROOT, Vec::new());
    let root = sidebar.child_at(Some(FAVORITES_ROOT), 0);
    sidebar.load_children(root, vec![(path("/link/a"), None)]);
    // The row stands for a folder that really is elsewhere.
    let mut walk = Walk::start(root, &path("/data/photos"), &path("/data/photos/a/b"));
    assert!(walk.step(&sidebar));
    sidebar.load_children(walk.row(), vec![(path("/link/a/b"), None)]);
    assert!(walk.step(&sidebar));
    assert_eq!(walk.next_row(), None);
    assert_eq!(sidebar.path_of(walk.row()).as_text(), "/link/a/b");
}

#[test]
fn namesakes_stay_in_the_order_they_were_read() {
    let entries = vec![folder("/x/b"), folder("/y/a"), folder("/x/a")];
    assert_eq!(texts(&subfolders(&entries).unwrap()), ["/y/a", "/x/a", "/x/b"]);
}
