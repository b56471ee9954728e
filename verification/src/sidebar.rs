//! The folder tree at the side of the browse window. Two sections, Favorites
//! and Local.
//!
//! Folders live in a flat arena. Slots are never reused, so a stale index can
//! never point at the wrong folder. What is on the disk is read by the
//! caller, and handed in.

use vstd::prelude::*;

use crate::order::{
    comparable, keeps_namesakes, named, names_comparable, names_sorted, natural_rank, order_name,
    sort_by_name,
};
use crate::path::{
    all_different, components, file_name, find_path, first_same_is_first, join_adds_one_component,
    joined, lists, names_are_found_in_their_folder, optional_text, parent, plain, same_path,
    FilePath,
};
use crate::text::same_text;

verus! {

/// One row of the tree: a section header or a folder.
pub struct Node {
    pub path: FilePath,
    pub name: String,
    pub section: bool,
    /// Sub-folders, read the first time the row needs them.
    pub children: Option<Vec<usize>>,
    /// Whether the folder really holds a sub-folder, so rows without one never
    /// grow a triangle.
    pub expandable: Option<bool>,
}

/// Everything there is to say of a row.
#[verifier::ext_equal]
pub struct Row {
    pub path: Seq<char>,
    pub name: Seq<char>,
    pub section: bool,
    pub children: Option<Seq<usize>>,
    pub expandable: Option<bool>,
}

impl View for Node {
    type V = Row;

    open spec fn view(&self) -> Row {
        Row {
            path: self.path@,
            name: self.name@,
            section: self.section,
            children: match self.children {
                Some(c) => Some(c@),
                None => None,
            },
            expandable: self.expandable,
        }
    }
}

/// The row of a section.
pub open spec fn section_row(name: Seq<char>) -> Row {
    Row {
        path: Seq::empty(),
        name,
        section: true,
        children: None,
        expandable: Some(true),
    }
}

/// The row of a folder. Without a name of its own it shows the name of the
/// folder, or the whole path where that has none.
pub open spec fn folder_row(path: Seq<char>, display: Option<Seq<char>>) -> Row {
    Row {
        path,
        name: match display {
            Some(name) => name,
            None => match file_name(path) {
                Some(name) => name,
                None => path,
            },
        },
        section: false,
        children: None,
        expandable: None,
    }
}

fn section_node(name: &str) -> (node: Node)
    ensures
        node@ == section_row(name@),
{
    let path = FilePath::new("");
    proof {
        reveal_strlit("");
    }
    assert(path@ =~= Seq::empty());
    Node { path, name: name.to_owned(), section: true, children: None, expandable: Some(true) }
}

/// `display` overrides the folder's own name, which the startup disk needs:
/// its path is `/` but its name is the volume's.
fn folder_node(path: FilePath, display: Option<String>) -> (node: Node)
    ensures
        node@ == folder_row(path@, optional_text(display)),
        node.path == path,
{
    let name = match display {
        Some(name) => name,
        None => match path.file_name() {
            Some(name) => name,
            None => path.as_text().to_owned(),
        },
    };
    Node { path, name, section: false, children: None, expandable: None }
}

/// The slot of the Favorites section.
pub const FAVORITES_ROOT: usize = 0;

/// The slot of the Local section.
pub const LOCAL_ROOT: usize = 1;

/// What has to be read before a row has its sub-rows.
pub enum Reading {
    /// Nothing: the sub-rows are there.
    Nothing,
    /// Nothing: they are the favorites.
    Favorites,
    /// The mounted volumes.
    Volumes,
    /// The sub-folders of a folder.
    Folder(FilePath),
}

/// What the right-click menu of a row offers.
#[derive(Clone, Copy, Debug, PartialEq, Eq, Structural)]
pub enum FavoriteEntry {
    Add,
    Remove,
}

/// Everything there is to say of a sidebar.
#[verifier::ext_equal]
pub struct SidebarState {
    pub rows: Seq<Row>,
    pub favorites: Seq<FilePath>,
}

/// The rows to come under a row, as read from the disk or the favorites.
pub open spec fn new_rows(read: Seq<(FilePath, Option<String>)>) -> Seq<Row> {
    read.map_values(|r: (FilePath, Option<String>)| folder_row(r.0@, optional_text(r.1)))
}

/// `count` slots from `first` on.
pub open spec fn slots_from(first: int, count: nat) -> Seq<usize> {
    Seq::new(count, |k: int| (first + k) as usize)
}

impl SidebarState {
    /// What every operation keeps: the two sections come first, no other row
    /// is a section, the rows under a row come behind it and are no sections,
    /// and the rows under a folder lie in that folder.
    pub open spec fn valid(self) -> bool {
        &&& self.rows.len() >= 2
        &&& forall|i: int|
            0 <= i < self.rows.len() ==> (#[trigger] self.rows[i]).section == (i == FAVORITES_ROOT
                || i == LOCAL_ROOT)
        &&& forall|i: int, k: int|
            0 <= i < self.rows.len() && self.rows[i].children is Some && 0 <= k
                < self.rows[i].children->0.len() ==> i < #[trigger] self.rows[i].children->0[k]
                < self.rows.len() && LOCAL_ROOT < self.rows[i].children->0[k]
        &&& forall|i: int, k: int|
            0 <= i < self.rows.len() && self.rows[i].children is Some && 0 <= k
                < self.rows[i].children->0.len() && !self.rows[i].section ==> parent(
                self.rows[#[trigger] self.rows[i].children->0[k] as int].path,
            ) == Some(components(self.rows[i].path))
    }

    /// Whether what was read may come under a row: in a folder lie its own
    /// sub-folders. A section takes anything.
    pub open spec fn fits_under(self, slot: int, read: Seq<(FilePath, Option<String>)>) -> bool {
        slot >= self.rows.len() || self.rows[slot].section || forall|k: int|
            0 <= k < read.len() ==> parent((#[trigger] read[k]).0@) == Some(
                components(self.rows[slot].path),
            )
    }

    /// The row at a slot. A slot that was never handed out reads as an empty
    /// row.
    pub open spec fn row(self, slot: int) -> Row {
        if 0 <= slot < self.rows.len() {
            self.rows[slot]
        } else {
            folder_row(Seq::empty(), Some(Seq::empty()))
        }
    }

    /// The tree with new rows under a row.
    pub open spec fn grown(self, slot: int, new: Seq<Row>) -> SidebarState {
        let children = slots_from(self.rows.len() as int, new.len());
        SidebarState {
            rows: self.rows.update(
                slot,
                Row { children: Some(children), ..self.rows[slot] },
            ) + new,
            ..self
        }
    }

    /// What comes under a row: the favorites under theirs, what was read
    /// otherwise.
    pub open spec fn rows_under(self, slot: int, read: Seq<(FilePath, Option<String>)>) -> Seq<
        Row,
    > {
        if slot == FAVORITES_ROOT {
            self.favorites.map_values(|p: FilePath| folder_row(p@, None))
        } else {
            new_rows(read)
        }
    }

    /// The tree once a row has its sub-rows. They are read once, and kept. A
    /// slot that was never handed out gets none.
    pub open spec fn loaded(self, slot: int, read: Seq<(FilePath, Option<String>)>) -> SidebarState {
        if slot >= self.rows.len() || self.rows[slot].children is Some {
            self
        } else {
            self.grown(slot, self.rows_under(slot, read))
        }
    }

    /// The tree once a section was read again.
    pub open spec fn reloaded(
        self,
        slot: int,
        read: Seq<(FilePath, Option<String>)>,
    ) -> SidebarState {
        self.grown(slot, self.rows_under(slot, read))
    }

    /// The path of a row that can be opened: no section can.
    pub open spec fn openable(self, slot: Option<usize>) -> Option<Seq<char>> {
        match slot {
            Some(i) if !self.row(i as int).section => Some(self.row(i as int).path),
            _ => None,
        }
    }

    /// The tree with one more favorite, unless it is one.
    pub open spec fn favorite_added(self, path: FilePath) -> SidebarState {
        if lists(self.favorites, components(path@)) {
            self
        } else {
            (SidebarState { favorites: self.favorites.push(path), ..self }).reloaded(
                FAVORITES_ROOT as int,
                Seq::empty(),
            )
        }
    }

    /// The tree without a favorite.
    pub open spec fn favorite_removed(self, path: FilePath) -> SidebarState {
        (SidebarState { favorites: others(self.favorites, path), ..self }).reloaded(
            FAVORITES_ROOT as int,
            Seq::empty(),
        )
    }

    /// Whether no slot has come to stand for another folder.
    pub open spec fn keeps_slots_of(self, before: SidebarState) -> bool {
        &&& self.rows.len() >= before.rows.len()
        &&& forall|i: int|
            0 <= i < before.rows.len() ==> (#[trigger] self.rows[i]).path == before.rows[i].path
                && self.rows[i].name == before.rows[i].name && self.rows[i].section
                == before.rows[i].section
    }
}

/// The paths other than one.
pub open spec fn others(paths: Seq<FilePath>, path: FilePath) -> Seq<FilePath> {
    paths.filter(|p: FilePath| !same_path(p@, path@))
}

/// The text of an optional path.
pub open spec fn path_text(path: Option<FilePath>) -> Option<Seq<char>> {
    match path {
        Some(p) => Some(p@),
        None => None,
    }
}

/// The folder tree.
pub struct Sidebar {
    nodes: Vec<Node>,
    favorites: Vec<FilePath>,
}

impl View for Sidebar {
    type V = SidebarState;

    closed spec fn view(&self) -> SidebarState {
        SidebarState {
            rows: self.nodes@.map_values(|n: Node| n@),
            favorites: self.favorites@,
        }
    }
}

impl Sidebar {
    /// A tree of the two sections, with nothing read yet.
    pub fn new(favorites: Vec<FilePath>) -> (sidebar: Self)
        ensures
            sidebar@.valid(),
            sidebar@ == (SidebarState {
                rows: seq![section_row("Favorites"@), section_row("Local"@)],
                favorites: favorites@,
            }),
    {
        let mut nodes: Vec<Node> = Vec::new();
        nodes.push(section_node("Favorites"));
        nodes.push(section_node("Local"));
        let sidebar = Sidebar { nodes, favorites };
        assert(sidebar@.rows =~= seq![section_row("Favorites"@), section_row("Local"@)]);
        sidebar
    }

    /// The path of a row.
    pub fn path_of(&self, slot: usize) -> (path: FilePath)
        ensures
            path@ == self@.row(slot as int).path,
    {
        if slot < self.nodes.len() {
            self.nodes[slot].path.clone()
        } else {
            proof {
                reveal_strlit("");
            }
            assert(""@ =~= Seq::empty());
            FilePath::new("")
        }
    }

    /// The name that a row shows.
    pub fn name_of(&self, slot: usize) -> (name: String)
        ensures
            name@ == self@.row(slot as int).name,
    {
        if slot < self.nodes.len() {
            self.nodes[slot].name.clone()
        } else {
            let name = String::new();
            assert(name@ =~= Seq::empty());
            name
        }
    }

    /// Whether a row is a section header, which cannot be selected.
    pub fn is_section(&self, slot: usize) -> (section: bool)
        ensures
            section == self@.row(slot as int).section,
    {
        slot < self.nodes.len() && self.nodes[slot].section
    }

    /// How many rows there are under a row, or at the top.
    pub fn child_count(&self, parent: Option<usize>) -> (count: usize)
        ensures
            count == (match parent {
                None => 2,
                Some(slot) => match self@.row(slot as int).children {
                    Some(children) => children.len() as int,
                    None => 0,
                },
            }),
    {
        match parent {
            None => 2,
            Some(slot) => if slot < self.nodes.len() {
                match &self.nodes[slot].children {
                    Some(children) => children.len(),
                    None => 0,
                }
            } else {
                0
            },
        }
    }

    /// The slot of a row under another, or at the top. Where there is no such
    /// row, a slot that is never handed out: the parent would nest it inside
    /// itself.
    pub fn child_at(&self, parent: Option<usize>, index: usize) -> (slot: usize)
        ensures
            slot == (match parent {
                None => if index == 0 {
                    FAVORITES_ROOT
                } else {
                    LOCAL_ROOT
                },
                Some(p) => match self@.row(p as int).children {
                    Some(children) if index < children.len() => children[index as int],
                    _ => usize::MAX,
                },
            }),
    {
        match parent {
            None => if index == 0 {
                FAVORITES_ROOT
            } else {
                LOCAL_ROOT
            },
            Some(p) => {
                if p < self.nodes.len() {
                    if let Some(children) = &self.nodes[p].children {
                        if index < children.len() {
                            return children[index];
                        }
                    }
                }
                usize::MAX
            },
        }
    }

    /// What has to be read before a row has its sub-rows.
    pub fn reading(&self, slot: usize) -> (reading: Reading)
        requires
            self@.valid(),
        ensures
            match reading {
                Reading::Nothing => self@.row(slot as int).children is Some,
                Reading::Favorites => self@.row(slot as int).children is None && slot
                    == FAVORITES_ROOT,
                Reading::Volumes => self@.row(slot as int).children is None && slot == LOCAL_ROOT,
                Reading::Folder(path) => self@.row(slot as int).children is None && !self@.row(
                    slot as int,
                ).section && path@ == self@.row(slot as int).path,
            },
    {
        if slot < self.nodes.len() {
            assert(self@.rows[slot as int] == self.nodes@[slot as int]@);
            if self.nodes[slot].children.is_some() {
                return Reading::Nothing;
            }
            if slot == FAVORITES_ROOT {
                return Reading::Favorites;
            }
            if slot == LOCAL_ROOT {
                return Reading::Volumes;
            }
        }
        Reading::Folder(self.path_of(slot))
    }

    /// Whether a row has its sub-rows, or may get those that were read.
    pub fn can_load(&self, slot: usize, read: &Vec<(FilePath, Option<String>)>) -> (fine: bool)
        ensures
            fine == (self@.row(slot as int).children is Some || self@.fits_under(
                slot as int,
                read@,
            )),
    {
        if slot >= self.nodes.len() {
            return true;
        }
        let node = &self.nodes[slot];
        assert(self@.rows[slot as int] == node@);
        if node.section || node.children.is_some() {
            return true;
        }
        let mut k: usize = 0;
        while k < read.len()
            invariant
                k <= read.len(),
                slot < self@.rows.len(),
                node@ == self@.rows[slot as int],
                !node@.section && node@.children is None,
                forall|j: int|
                    0 <= j < k ==> parent((#[trigger] read@[j]).0@) == Some(
                        components(node.path@),
                    ),
            decreases read.len() - k,
        {
            if !read[k].0.lies_in(&node.path) {
                return false;
            }
            k += 1;
        }
        true
    }

    /// Put new rows under a row.
    fn grow(&mut self, slot: usize, read: Vec<(FilePath, Option<String>)>)
        requires
            old(self)@.valid(),
            slot < old(self)@.rows.len(),
            old(self)@.fits_under(slot as int, read@),
        ensures
            final(self)@.valid(),
            final(self)@ == old(self)@.grown(
                slot as int,
                old(self)@.rows_under(slot as int, read@),
            ),
            final(self)@.keeps_slots_of(old(self)@),
    {
        let ghost start = self@;
        let ghost under = start.rows_under(slot as int, read@);
        let first = self.nodes.len();
        let mut children: Vec<usize> = Vec::new();
        let favorites = slot == FAVORITES_ROOT;
        let count = if favorites {
            self.favorites.len()
        } else {
            read.len()
        };
        let mut k: usize = 0;
        while k < count
            invariant
                k <= count,
                count == under.len(),
                favorites == (slot == FAVORITES_ROOT),
                favorites ==> count == self.favorites.len(),
                !favorites ==> count == read.len(),
                under == start.rows_under(slot as int, read@),
                self.favorites@ == start.favorites,
                first == start.rows.len(),
                self@.rows =~= start.rows + under.take(k as int),
                children@ =~= slots_from(first as int, k as nat),
            decreases count - k,
        {
            let node = if favorites {
                folder_node(self.favorites[k].clone(), None)
            } else {
                let (path, name) = &read[k];
                folder_node(
                    path.clone(),
                    match name {
                        Some(text) => Some(text.clone()),
                        None => None,
                    },
                )
            };
            assert(node@ == under[k as int]);
            children.push(self.nodes.len());
            let ghost before = self@.rows;
            self.nodes.push(node);
            assert(self@.rows =~= before.push(under[k as int]));
            k += 1;
        }
        assert(under.take(k as int) =~= under);
        let ghost before = self@.rows;
        assert(self@.rows[slot as int] == start.rows[slot as int]);
        let node = &self.nodes[slot];
        let changed = Node {
            path: node.path.clone(),
            name: node.name.clone(),
            section: node.section,
            children: Some(children),
            expandable: node.expandable,
        };
        self.nodes.set(slot, changed);
        assert(self@.rows =~= before.update(slot as int, changed@));
        assert(self@.rows =~= start.grown(slot as int, under).rows);
        assert(self@ =~= start.grown(slot as int, under));
        proof {
            let rows = self@.rows;
            assert(rows.len() == self.nodes.len());
            assert forall|i: int, j: int|
                0 <= i < rows.len() && rows[i].children is Some && 0 <= j
                    < rows[i].children->0.len() implies i < #[trigger] rows[i].children->0[j]
                < rows.len() && LOCAL_ROOT < rows[i].children->0[j] by {
                if i == slot {
                    assert(rows[i].children->0 == slots_from(first as int, under.len()));
                } else if i < first {
                    assert(rows[i] == start.rows[i]);
                    assert(i < start.rows[i].children->0[j] < start.rows.len());
                }
            }
            assert forall|i: int, j: int|
                0 <= i < rows.len() && rows[i].children is Some && 0 <= j
                    < rows[i].children->0.len() && !rows[i].section implies parent(
                rows[#[trigger] rows[i].children->0[j] as int].path,
            ) == Some(components(rows[i].path)) by {
                if i == slot {
                    assert(rows[i].children->0 == slots_from(first as int, under.len()));
                    assert(rows[first + j] == under[j]);
                    assert(under[j].path == read@[j].0@);
                } else if i < first {
                    assert(rows[i] == start.rows[i]);
                    let child = start.rows[i].children->0[j] as int;
                    assert(i < child < start.rows.len());
                    assert(parent(start.rows[child].path) == Some(components(start.rows[i].path)));
                    assert(rows[child].path == start.rows[child].path);
                }
            }
        }
    }

    /// Give a row its sub-rows, once. Under the favorites come the favorites;
    /// otherwise what was read.
    pub fn load_children(&mut self, slot: usize, read: Vec<(FilePath, Option<String>)>)
        requires
            old(self)@.valid(),
            old(self)@.row(slot as int).children is Some || old(self)@.fits_under(
                slot as int,
                read@,
            ),
        ensures
            final(self)@.valid(),
            final(self)@ == old(self)@.loaded(slot as int, read@),
            final(self)@.keeps_slots_of(old(self)@),
    {
        if slot < self.nodes.len() {
            assert(self@.rows[slot as int] == self.nodes@[slot as int]@);
            if self.nodes[slot].children.is_none() {
                self.grow(slot, read);
            }
        }
    }

    /// Drop a section's rows and read them again.
    pub fn reload_section(&mut self, slot: usize, read: Vec<(FilePath, Option<String>)>)
        requires
            old(self)@.valid(),
            slot < old(self)@.rows.len(),
            old(self)@.fits_under(slot as int, read@),
        ensures
            final(self)@.valid(),
            final(self)@ == old(self)@.reloaded(slot as int, read@),
            final(self)@.keeps_slots_of(old(self)@),
    {
        self.grow(slot, read);
    }

    /// What is known of a row's disclosure triangle.
    pub fn known_expandable(&self, slot: usize) -> (known: Option<bool>)
        ensures
            known == (if self@.row(slot as int).section {
                Some(true)
            } else {
                self@.row(slot as int).expandable
            }),
    {
        if slot < self.nodes.len() {
            if self.nodes[slot].section {
                Some(true)
            } else {
                self.nodes[slot].expandable
            }
        } else {
            None
        }
    }

    /// Whether a row gets a disclosure triangle. Sections always do; a folder
    /// only when it really holds a sub-folder, which is looked up once. A slot
    /// that was never handed out remembers nothing.
    pub fn expandable(&mut self, slot: usize, holds_folder: bool) -> (expandable: bool)
        requires
            old(self)@.valid(),
        ensures
            final(self)@.valid(),
            final(self)@.keeps_slots_of(old(self)@),
            ({
                let row = old(self)@.row(slot as int);
                let known = row.section || row.expandable is Some;
                &&& expandable == (if row.section {
                    true
                } else {
                    match row.expandable {
                        Some(e) => e,
                        None => holds_folder,
                    }
                })
                &&& final(self)@ == (if known || slot >= old(self)@.rows.len() {
                    old(self)@
                } else {
                    SidebarState {
                        rows: old(self)@.rows.update(
                            slot as int,
                            Row { expandable: Some(holds_folder), ..row },
                        ),
                        ..old(self)@
                    }
                })
            }),
    {
        let ghost start = self@;
        if slot >= self.nodes.len() {
            return holds_folder;
        }
        assert(start.rows[slot as int] == self.nodes@[slot as int]@);
        match self.known_expandable(slot) {
            Some(known) => known,
            None => {
                let ghost row = start.rows[slot as int];
                let node = &self.nodes[slot];
                let changed = Node {
                    path: node.path.clone(),
                    name: node.name.clone(),
                    section: node.section,
                    children: match &node.children {
                        Some(children) => Some(copied(children)),
                        None => None,
                    },
                    expandable: Some(holds_folder),
                };
                self.nodes.set(slot, changed);
                assert(self@.rows =~= start.rows.update(
                    slot as int,
                    Row { expandable: Some(holds_folder), ..row },
                ));
                proof {
                    let rows = self@.rows;
                    assert forall|i: int, j: int|
                        0 <= i < rows.len() && rows[i].children is Some && 0 <= j
                            < rows[i].children->0.len() implies i < #[trigger] rows[i].children->0[j]
                        < rows.len() && LOCAL_ROOT < rows[i].children->0[j] by {
                        assert(rows[i].children == start.rows[i].children);
                        assert(i < start.rows[i].children->0[j] < start.rows.len());
                    }
                    assert forall|i: int, j: int|
                        0 <= i < rows.len() && rows[i].children is Some && 0 <= j
                            < rows[i].children->0.len() && !rows[i].section implies parent(
                        rows[#[trigger] rows[i].children->0[j] as int].path,
                    ) == Some(components(rows[i].path)) by {
                        assert(rows[i].children == start.rows[i].children);
                        let child = start.rows[i].children->0[j] as int;
                        assert(i < child < start.rows.len());
                        assert(parent(start.rows[child].path) == Some(
                            components(start.rows[i].path),
                        ));
                        assert(rows[child].path == start.rows[child].path);
                    }
                }
                holds_folder
            },
        }
    }

    /// The folder of the highlighted row.
    pub fn selected_path(&self, slot: Option<usize>) -> (path: Option<FilePath>)
        ensures
            path_text(path) == self@.openable(slot),
    {
        match slot {
            Some(i) => if self.is_section(i) {
                None
            } else {
                Some(self.path_of(i))
            },
            None => None,
        }
    }

    /// The folder to load for the highlighted row: none where the grid shows
    /// just that folder already. A deep scan of it narrows to one level.
    pub fn open_selected(&self, slot: Option<usize>, scanned: &Option<(FilePath, bool)>) -> (path:
        Option<FilePath>)
        ensures
            path_text(path) == (match (self@.openable(slot), *scanned) {
                (Some(text), Some((root, deep))) if same_path(text, root@) && !deep => None,
                (open, _) => open,
            }),
    {
        match self.selected_path(slot) {
            Some(path) => {
                if let Some((root, deep)) = scanned {
                    if path.same(root) && !*deep {
                        return None;
                    }
                }
                Some(path)
            },
            None => None,
        }
    }

    /// What the right-click menu of a row offers.
    pub fn menu_entry(&self, slot: usize) -> (entry: Option<FavoriteEntry>)
        ensures
            entry == (if self@.row(slot as int).section {
                None
            } else if lists(self@.favorites, components(self@.row(slot as int).path)) {
                Some(FavoriteEntry::Remove)
            } else {
                Some(FavoriteEntry::Add)
            }),
    {
        if self.is_section(slot) {
            return None;
        }
        if self.is_favorite(&self.path_of(slot)) {
            Some(FavoriteEntry::Remove)
        } else {
            Some(FavoriteEntry::Add)
        }
    }

    fn is_favorite(&self, path: &FilePath) -> (favorite: bool)
        ensures
            favorite == lists(self@.favorites, components(path@)),
    {
        proof {
            first_same_is_first(self.favorites@, *path);
        }
        match find_path(&self.favorites, path) {
            Some(i) => {
                assert(components(self.favorites@[i as int]@) == components(path@));
                true
            },
            None => false,
        }
    }

    /// Add a folder to the favorites, unless it is one. Says whether it was
    /// added.
    pub fn add_favorite(&mut self, path: &FilePath) -> (added: bool)
        requires
            old(self)@.valid(),
        ensures
            final(self)@.valid(),
            added == !lists(old(self)@.favorites, components(path@)),
            final(self)@ == old(self)@.favorite_added(*path),
            final(self)@.keeps_slots_of(old(self)@),
    {
        if self.is_favorite(path) {
            return false;
        }
        self.favorites.push(path.clone());
        self.reload_section(FAVORITES_ROOT, Vec::new());
        true
    }

    /// Take a folder out of the favorites.
    pub fn remove_favorite(&mut self, path: &FilePath)
        requires
            old(self)@.valid(),
        ensures
            final(self)@.valid(),
            final(self)@ == old(self)@.favorite_removed(*path),
            final(self)@.keeps_slots_of(old(self)@),
    {
        let ghost start = self@;
        let mut kept: Vec<FilePath> = Vec::new();
        let mut i: usize = 0;
        assert(start.favorites.take(0) =~= Seq::empty());
        reveal(Seq::filter);
        while i < self.favorites.len()
            invariant
                i <= self.favorites.len(),
                self@ == start,
                self.favorites@ == start.favorites,
                kept@ == others(start.favorites.take(i as int), *path),
                kept@.len() <= i,
            decreases self.favorites.len() - i,
        {
            reveal(Seq::filter);
            assert(start.favorites.take(i + 1).drop_last() =~= start.favorites.take(i as int));
            if !self.favorites[i].same(path) {
                kept.push(self.favorites[i].clone());
            }
            i += 1;
        }
        assert(start.favorites.take(i as int) =~= start.favorites);
        self.favorites = kept;
        self.reload_section(FAVORITES_ROOT, Vec::new());
    }

    /// The favorites, in order.
    pub fn e2e_favorites(&self) -> (favorites: Vec<FilePath>)
        ensures
            favorites@ == self@.favorites,
    {
        let mut out: Vec<FilePath> = Vec::new();
        let mut i: usize = 0;
        while i < self.favorites.len()
            invariant
                i <= self.favorites.len(),
                out@ == self.favorites@.take(i as int),
            decreases self.favorites.len() - i,
        {
            out.push(self.favorites[i].clone());
            i += 1;
        }
        assert(self.favorites@.take(i as int) =~= self.favorites@);
        out
    }

    /// A click on the row that a walk ended at: the folder to scan, whatever
    /// the grid shows.
    pub fn e2e_click(&self, slot: Option<usize>) -> (path: Option<FilePath>)
        ensures
            path_text(path) == self@.openable(slot),
    {
        self.selected_path(slot)
    }
}

/// A copy of some slots.
fn copied(slots: &Vec<usize>) -> (copy: Vec<usize>)
    ensures
        copy@ == slots@,
{
    let mut copy: Vec<usize> = Vec::new();
    let mut i: usize = 0;
    while i < slots.len()
        invariant
            i <= slots.len(),
            copy@ == slots@.take(i as int),
        decreases slots.len() - i,
    {
        copy.push(slots[i]);
        i += 1;
    }
    assert(slots@.take(i as int) =~= slots@);
    copy
}

/// Whether a path starts with another, component by component.
pub open spec fn starts_with(whole: Seq<Seq<char>>, start: Seq<Seq<char>>) -> bool {
    start.len() <= whole.len() && whole.take(start.len() as int) == start
}

/// Whether a row that can be walked from, at `k`, holds a path.
pub open spec fn holds_target(
    roots: Seq<(usize, FilePath)>,
    k: int,
    target: Seq<char>,
) -> bool {
    starts_with(components(target), components(roots[k].1@))
}

/// How deep a row lies.
pub open spec fn depth(roots: Seq<(usize, FilePath)>, k: int) -> nat {
    components(roots[k].1@).len()
}

/// Whether the row at `k` is the one to walk from: it holds the target, none
/// that does lies deeper, and none before it lies as deep.
pub open spec fn is_best_root(roots: Seq<(usize, FilePath)>, k: int, target: Seq<char>) -> bool {
    &&& 0 <= k < roots.len()
    &&& holds_target(roots, k, target)
    &&& forall|j: int|
        0 <= j < roots.len() && #[trigger] holds_target(roots, j, target) ==> depth(roots, j)
            <= depth(roots, k) && (j < k ==> depth(roots, j) < depth(roots, k))
}

/// Whether one list of names starts with another.
fn begins(whole: &Vec<String>, start: &Vec<String>) -> (begins: bool)
    ensures
        begins == starts_with(whole.deep_view(), start.deep_view()),
{
    if start.len() > whole.len() {
        return false;
    }
    let mut i: usize = 0;
    while i < start.len()
        invariant
            i <= start.len() <= whole.len(),
            forall|j: int| 0 <= j < i ==> whole@[j]@ == start@[j]@,
        decreases start.len() - i,
    {
        if !same_text(whole[i].as_str(), start[i].as_str()) {
            proof {
                let front = whole.deep_view().take(start.deep_view().len() as int);
                assert(front[i as int] == whole@[i as int]@);
                assert(start.deep_view()[i as int] == start@[i as int]@);
            }
            return false;
        }
        i += 1;
    }
    assert(whole.deep_view().take(start.deep_view().len() as int) =~= start.deep_view());
    true
}

/// The row to start walking from: the favorite or the volume that holds the
/// target, taking the deepest match. Each root is a row and where it really
/// is on the disk.
pub fn best_root(roots: &Vec<(usize, FilePath)>, target: &FilePath) -> (best: Option<usize>)
    ensures
        match best {
            Some(k) => is_best_root(roots@, k as int, target@),
            None => forall|j: int|
                0 <= j < roots@.len() ==> !#[trigger] holds_target(roots@, j, target@),
        },
{
    let whole = target.components();
    let mut best: Option<(usize, usize)> = None;
    let mut k: usize = 0;
    while k < roots.len()
        invariant
            k <= roots.len(),
            whole.deep_view() == components(target@),
            match best {
                Some((b, deep)) => {
                    &&& b < k
                    &&& deep == depth(roots@, b as int)
                    &&& holds_target(roots@, b as int, target@)
                    &&& forall|j: int|
                        0 <= j < k && #[trigger] holds_target(roots@, j, target@) ==> depth(
                            roots@,
                            j,
                        ) <= deep && (j < b ==> depth(roots@, j) < deep)
                },
                None => forall|j: int|
                    0 <= j < k ==> !#[trigger] holds_target(roots@, j, target@),
            },
        decreases roots.len() - k,
    {
        let parts = roots[k].1.components();
        if begins(&whole, &parts) {
            assert(holds_target(roots@, k as int, target@));
            let deeper = match best {
                Some((_, deep)) => parts.len() > deep,
                None => true,
            };
            if deeper {
                best = Some((k, parts.len()));
            }
        }
        k += 1;
    }
    match best {
        Some((b, _)) => Some(b),
        None => None,
    }
}

/// A walk down the tree, from a row to the row of a folder somewhere under
/// it.
pub struct Walk {
    slot: usize,
    /// The names of the folders still to go through, the next one last.
    names: Vec<String>,
}

/// Whether the child at `k` of a row shows the folder `name`.
pub open spec fn child_named(tree: SidebarState, slot: int, k: int, name: Seq<char>) -> bool {
    file_name(tree.row(tree.row(slot).children->0[k] as int).path) == Some(name)
}

impl Walk {
    /// The row that the walk has come to.
    pub closed spec fn slot(self) -> usize {
        self.slot
    }

    /// The names of the folders still to go through, in order.
    pub closed spec fn names(self) -> Seq<Seq<char>> {
        self.names.deep_view().reverse()
    }

    /// Whether one step down a tree gets from this walk to another: to the
    /// first row under this one with the next name.
    pub open spec fn goes_to(self, after: Walk, tree: SidebarState) -> bool {
        let row = tree.row(self.slot() as int);
        let name = self.names()[0];
        &&& self.names().len() > 0
        &&& after.names() == self.names().skip(1)
        &&& row.children is Some
        &&& exists|k: int| #[trigger]
            child_named(tree, self.slot() as int, k, name) && 0 <= k < row.children->0.len()
                && after.slot() == row.children->0[k] && forall|j: int|
                0 <= j < k ==> !#[trigger] child_named(tree, self.slot() as int, j, name)
    }

    /// The folder that the walk leads to: that of its row, and from there by
    /// the names still to go through.
    pub open spec fn heads_for(self, tree: SidebarState) -> Seq<Seq<char>> {
        components(tree.row(self.slot() as int).path) + self.names()
    }

    /// Whether the walk is on the row of a folder.
    pub open spec fn on_folder(self, tree: SidebarState) -> bool {
        self.slot() < tree.rows.len() && !tree.rows[self.slot() as int].section
    }

    /// A walk from the row of `base` to `target`, which lies under it.
    pub fn start(slot: usize, base: &FilePath, target: &FilePath) -> (walk: Self)
        requires
            starts_with(components(target@), components(base@)),
        ensures
            walk.slot() == slot,
            walk.names() == components(target@).skip(components(base@).len() as int),
    {
        let parts = target.components();
        let skip = base.components().len();
        let mut names: Vec<String> = Vec::new();
        let mut i: usize = parts.len();
        let ghost whole = components(target@);
        assert(names.deep_view() =~= whole.skip(i as int).reverse());
        while i > skip
            invariant
                skip <= i <= parts.len(),
                parts.deep_view() == whole,
                names.deep_view() == whole.skip(i as int).reverse(),
            decreases i,
        {
            i -= 1;
            let ghost before = names.deep_view();
            names.push(parts[i].clone());
            proof {
                assert(names.deep_view() =~= before.push(parts@[i as int]@));
                assert(whole[i as int] == parts@[i as int]@);
                assert(names.deep_view() =~= whole.skip(i as int).reverse());
            }
        }
        let walk = Walk { slot, names };
        assert(walk.names() =~= whole.skip(skip as int));
        walk
    }

    /// The row whose sub-rows have to be there for the next step, or nothing
    /// at the end of the walk.
    pub fn next_row(&self) -> (slot: Option<usize>)
        ensures
            slot == (if self.names().len() > 0 {
                Some(self.slot())
            } else {
                None
            }),
    {
        if self.names.len() > 0 {
            Some(self.slot)
        } else {
            None
        }
    }

    /// The row that the walk has come to.
    pub fn row(&self) -> (slot: usize)
        ensures
            slot == self.slot(),
    {
        self.slot
    }

    /// Go one row down. The tree leaves out some folders; where it has no row
    /// for the next one the walk fails, since highlighting an ancestor would
    /// disagree with the grid.
    pub fn step(&mut self, sidebar: &Sidebar) -> (found: bool)
        requires
            old(self).names().len() > 0,
            sidebar@.valid(),
        ensures
            ({
                let row = sidebar@.row(old(self).slot() as int);
                let name = old(self).names()[0];
                let count = match row.children {
                    Some(children) => children.len() as int,
                    None => 0,
                };
                if found {
                    old(self).goes_to(*final(self), sidebar@)
                } else {
                    &&& *final(self) == *old(self)
                    &&& forall|k: int|
                        0 <= k < count ==> !#[trigger] child_named(
                            sidebar@,
                            old(self).slot() as int,
                            k,
                            name,
                        )
                }
            }),
    {
        let ghost start = *self;
        let count = sidebar.child_count(Some(self.slot));
        let last = self.names.len() - 1;
        assert(self.names()[0] == self.names@[last as int]@);
        let mut k: usize = 0;
        while k < count
            invariant
                k <= count,
                *self == start,
                start == *old(self),
                self.names.len() > 0,
                last == self.names.len() - 1,
                start.names()[0] == self.names@[last as int]@,
                count == (match sidebar@.row(start.slot() as int).children {
                    Some(children) => children.len() as int,
                    None => 0,
                }),
                forall|j: int|
                    0 <= j < k ==> !#[trigger] child_named(
                        sidebar@,
                        start.slot() as int,
                        j,
                        start.names()[0],
                    ),
            decreases count - k,
        {
            let child = sidebar.child_at(Some(self.slot), k);
            let path = sidebar.path_of(child);
            let matches = match path.file_name() {
                Some(name) => same_text(name.as_str(), self.names[last].as_str()),
                None => false,
            };
            assert(matches == child_named(
                sidebar@,
                start.slot() as int,
                k as int,
                start.names()[0],
            ));
            if matches {
                self.slot = child;
                let ghost before = self.names.deep_view();
                let _ = self.names.pop();
                assert(self.names.deep_view() =~= before.drop_last());
                assert(self.names() =~= start.names().skip(1));
                assert(self.slot() == sidebar@.row(start.slot() as int).children->0[k as int]);
                assert(start == *old(self));
                return true;
            }
            k += 1;
        }
        false
    }
}

/// The favorites of a first run: Pictures, Desktop and the home folder.
pub open spec fn seeds(home: Seq<char>) -> Seq<Seq<char>> {
    seq![joined(home, "Pictures"@), joined(home, "Desktop"@), home]
}

/// Favorites from the stored list, or the ones of a first run. A stored list
/// wins even when it is empty: the seeds are not for someone who removed
/// every favorite.
pub fn load_favorites(home: &FilePath, stored: Option<Vec<FilePath>>) -> (favorites: Vec<FilePath>)
    ensures
        match stored {
            Some(list) => favorites@ == list@,
            None => favorites@.map_values(|p: FilePath| p@) == seeds(home@),
        },
{
    match stored {
        Some(list) => list,
        None => {
            let mut favorites: Vec<FilePath> = Vec::new();
            favorites.push(home.join("Pictures"));
            favorites.push(home.join("Desktop"));
            favorites.push(home.clone());
            assert(favorites@.map_values(|p: FilePath| p@) =~= seeds(home@));
            favorites
        },
    }
}

/// Whether a name is hidden: it starts with a dot.
pub open spec fn dotted_name(name: Seq<char>) -> bool {
    name.len() > 0 && name[0] == '.'
}

/// One entry of a folder, as the disk and the workspace describe it.
pub struct FolderEntry {
    pub path: FilePath,
    pub is_dir: bool,
    /// Bundles (photo libraries, apps) open as one thing, so the tree leaves
    /// them out.
    pub package: bool,
}

/// Whether an entry gets a row in the tree.
pub open spec fn has_row(entry: FolderEntry) -> bool {
    &&& !(file_name(entry.path@) is Some && dotted_name(file_name(entry.path@)->0))
    &&& entry.is_dir
    &&& !entry.package
}

/// Whether an entry gets a row in the tree.
fn gets_row(entry: &FolderEntry) -> (row: bool)
    ensures
        row == has_row(*entry),
{
    let hidden = match entry.path.file_name() {
        Some(name) => !name.as_str().is_empty() && name.as_str().get_char(0) == '.',
        None => false,
    };
    !hidden && entry.is_dir && !entry.package
}

/// The entries that get a row, in the order they were read.
pub open spec fn folder_paths(entries: Seq<FolderEntry>) -> Seq<FilePath> {
    entries.filter(|e: FolderEntry| has_row(e)).map_values(|e: FolderEntry| e.path)
}

/// Paths, each with its name.
pub open spec fn pairs_named(pairs: Seq<(String, FilePath)>) -> bool {
    forall|i: int|
        0 <= i < pairs.len() ==> (#[trigger] pairs[i]).0@ == order_name(pairs[i].1@)
}

/// Whether no folder comes before one that it sorts behind.
pub open spec fn folders_sorted(paths: Seq<FilePath>) -> bool {
    forall|i: int, j: int|
        0 <= i < j < paths.len() ==> natural_rank(
            order_name((#[trigger] paths[i])@),
            order_name((#[trigger] paths[j])@),
        ) <= 0
}

/// The folders of a name, in the order they stand in.
pub open spec fn folders_named(paths: Seq<FilePath>, name: Seq<char>) -> Seq<FilePath> {
    paths.filter(|p: FilePath| order_name(p@) == name)
}

/// Whether any two of the folders can be put in order.
pub open spec fn folders_comparable(paths: Seq<FilePath>) -> bool {
    forall|i: int, j: int|
        0 <= i < paths.len() && 0 <= j < paths.len() && i != j ==> comparable(
            order_name((#[trigger] paths[i])@),
            order_name((#[trigger] paths[j])@),
        )
}

/// Direct sub-folders, hidden ones left out, in natural name order. There is
/// no such order where two names cannot be compared.
pub fn subfolders(entries: &Vec<FolderEntry>) -> (folders: Option<Vec<FilePath>>)
    ensures
        match folders {
            Some(paths) => {
                &&& folders_comparable(folder_paths(entries@))
                &&& folders_sorted(paths@)
                &&& paths@.to_multiset() == folder_paths(entries@).to_multiset()
                &&& forall|name: Seq<char>| #[trigger]
                    folders_named(paths@, name) == folders_named(folder_paths(entries@), name)
            },
            None => !folders_comparable(folder_paths(entries@)),
        },
{
    let mut pairs: Vec<(String, FilePath)> = Vec::new();
    let ghost second = |p: (String, FilePath)| p.1;
    let mut i: usize = 0;
    assert(entries@.take(0) =~= Seq::empty());
    reveal(Seq::filter);
    assert(pairs@.map_values(second) =~= folder_paths(entries@.take(0)));
    while i < entries.len()
        invariant
            i <= entries.len(),
            second == (|p: (String, FilePath)| p.1),
            pairs_named(pairs@),
            pairs@.map_values(second) == folder_paths(entries@.take(i as int)),
        decreases entries.len() - i,
    {
        reveal(Seq::filter);
        let ghost before = pairs@;
        assert(entries@.take(i + 1).drop_last() =~= entries@.take(i as int));
        if gets_row(&entries[i]) {
            let path = entries[i].path.clone();
            let name = match path.file_name() {
                Some(name) => name,
                None => String::new(),
            };
            assert(name@ =~= order_name(path@));
            pairs.push((name, path));
            assert(pairs@.map_values(second) =~= before.map_values(second).push(path));
        }
        i += 1;
        assert(pairs@.map_values(second) =~= folder_paths(entries@.take(i as int)));
    }
    assert(entries@.take(i as int) =~= entries@);
    let ghost found = pairs@;
    let ghost listed = folder_paths(entries@);
    assert forall|k: int| 0 <= k < found.len() implies found[k].0@ == order_name(
        #[trigger] listed[k]@,
    ) && listed[k] == found[k].1 by {
        assert(found.map_values(second)[k] == found[k].1);
    }
    match sort_by_name(pairs) {
        Some(sorted) => {
            proof {
                named_stay_named(found, sorted@);
                map_keeps_multiset(found, sorted@, second);
                assert(found.map_values(second) =~= listed);
            }
            let mut folders: Vec<FilePath> = Vec::new();
            let mut k: usize = 0;
            while k < sorted.len()
                invariant
                    k <= sorted.len(),
                    second == (|p: (String, FilePath)| p.1),
                    folders@ == sorted@.map_values(second).take(k as int),
                decreases sorted.len() - k,
            {
                folders.push(sorted[k].1.clone());
                k += 1;
            }
            assert(sorted@.map_values(second).take(k as int) =~= sorted@.map_values(second));
            proof {
                assert forall|i: int, j: int| 0 <= i < j < folders@.len() implies natural_rank(
                    order_name((#[trigger] folders@[i])@),
                    order_name((#[trigger] folders@[j])@),
                ) <= 0 by {
                    assert(folders@[i] == sorted@[i].1 && folders@[j] == sorted@[j].1);
                    assert(natural_rank(sorted@[i].0@, sorted@[j].0@) <= 0);
                }
                assert forall|i: int, j: int|
                    0 <= i < listed.len() && 0 <= j < listed.len() && i != j implies comparable(
                    order_name((#[trigger] listed[i])@),
                    order_name((#[trigger] listed[j])@),
                ) by {
                    assert(comparable(found[i].0@, found[j].0@));
                }
            }
            proof {
                assert forall|name: Seq<char>| #[trigger]
                    folders_named(folders@, name) == folders_named(listed, name) by {
                    assert(named(sorted@, name) == named(found, name));
                    names_are_those_of_folders(found, name);
                    names_are_those_of_folders(sorted@, name);
                }
            }
            Some(folders)
        },
        None => {
            proof {
                let (i, j) = choose|i: int, j: int|
                    0 <= i < found.len() && 0 <= j < found.len() && i != j && !comparable(
                        (#[trigger] found[i]).0@,
                        (#[trigger] found[j]).0@,
                    );
                assert(!comparable(order_name(listed[i]@), order_name(listed[j]@)));
            }
            None
        },
    }
}

/// The folders of a name are those that come with it.
proof fn names_are_those_of_folders(pairs: Seq<(String, FilePath)>, name: Seq<char>)
    requires
        pairs_named(pairs),
    ensures
        folders_named(pairs.map_values(|p: (String, FilePath)| p.1), name) == named(
            pairs,
            name,
        ).map_values(|p: (String, FilePath)| p.1),
    decreases pairs.len(),
{
    reveal(Seq::filter);
    let second = |p: (String, FilePath)| p.1;
    if pairs.len() > 0 {
        let front = pairs.drop_last();
        let last = pairs.last();
        assert(last == pairs[pairs.len() - 1]);
        assert forall|i: int| 0 <= i < front.len() implies (#[trigger] front[i]).0@ == order_name(
            front[i].1@,
        ) by {
            assert(front[i] == pairs[i]);
        }
        names_are_those_of_folders(front, name);
        assert(pairs.map_values(second).drop_last() =~= front.map_values(second));
        assert(pairs.map_values(second).last() == last.1);
        assert(named(front, name).push(last).map_values(second) =~= named(front, name).map_values(
            second,
        ).push(last.1));
    } else {
        assert(pairs.map_values(second) =~= Seq::empty());
        assert(named(pairs, name).map_values(second) =~= Seq::empty());
    }
}

/// Sorting leaves each name at its path.
proof fn named_stay_named(before: Seq<(String, FilePath)>, after: Seq<(String, FilePath)>)
    requires
        pairs_named(before),
        before.to_multiset() == after.to_multiset(),
    ensures
        pairs_named(after),
{
    broadcast use vstd::seq_lib::group_to_multiset_ensures;

    assert forall|i: int| 0 <= i < after.len() implies (#[trigger] after[i]).0@ == order_name(
        after[i].1@,
    ) by {
        assert(after.contains(after[i]));
        assert(after.to_multiset().count(after[i]) > 0);
        assert(before.contains(after[i]));
        let k = choose|k: int| 0 <= k < before.len() && before[k] == after[i];
        assert(before[k].0@ == order_name(before[k].1@));
    }
}

/// The same things, mapped alike, are the same things.
proof fn map_keeps_multiset<A, B>(a: Seq<A>, b: Seq<A>, f: spec_fn(A) -> B)
    requires
        a.to_multiset() == b.to_multiset(),
    ensures
        a.map_values(f).to_multiset() == b.map_values(f).to_multiset(),
    decreases a.len(),
{
    broadcast use vstd::seq_lib::group_to_multiset_ensures;

    assert(a.to_multiset().len() == a.len());
    assert(b.to_multiset().len() == b.len());
    if a.len() > 0 {
        let last = a.len() - 1;
        let x = a[last];
        assert(a.contains(x));
        assert(b.to_multiset().count(x) > 0);
        let k = choose|k: int| 0 <= k < b.len() && b[k] == x;
        assert(a.remove(last).to_multiset() == b.remove(k).to_multiset());
        map_keeps_multiset(a.remove(last), b.remove(k), f);
        assert(a.remove(last).map_values(f) =~= a.map_values(f).remove(last));
        assert(b.remove(k).map_values(f) =~= b.map_values(f).remove(k));
        let am = a.map_values(f);
        let bm = b.map_values(f);
        assert(am.remove(last).to_multiset() == am.to_multiset().remove(f(x)));
        assert(bm.remove(k).to_multiset() == bm.to_multiset().remove(f(x)));
        assert(am[last] == f(x));
        assert(bm[k] == f(x));
        assert(am.contains(f(x)) && bm.contains(f(x)));
        assert(am.to_multiset() =~= am.to_multiset().remove(f(x)).insert(f(x)));
        assert(bm.to_multiset() =~= bm.to_multiset().remove(f(x)).insert(f(x)));
    } else {
        assert(a.map_values(f) =~= b.map_values(f));
    }
}

/// Whether a folder holds at least one sub-folder that gets a row.
pub fn has_subfolder(entries: &Vec<FolderEntry>) -> (has: bool)
    ensures
        has == (exists|i: int| 0 <= i < entries@.len() && has_row(#[trigger] entries@[i])),
{
    let mut i: usize = 0;
    while i < entries.len()
        invariant
            i <= entries.len(),
            forall|j: int| 0 <= j < i ==> !has_row(#[trigger] entries@[j]),
        decreases entries.len() - i,
    {
        if gets_row(&entries[i]) {
            return true;
        }
        i += 1;
    }
    false
}

/// One entry of the folder that volumes are mounted in.
pub struct VolumeEntry {
    pub name: String,
    pub is_dir: bool,
    /// Whether it leads to the root of the startup disk.
    pub startup: bool,
}

/// The volumes that are shown, each with whether it is the startup disk.
pub open spec fn shown_volumes(entries: Seq<VolumeEntry>) -> Seq<(String, bool)> {
    entries.filter(|v: VolumeEntry| !dotted_name(v.name@) && v.is_dir).map_values(
        |v: VolumeEntry| (v.name, v.startup),
    )
}

/// The path and the name of a row.
pub open spec fn row_texts(rows: Seq<(FilePath, Option<String>)>) -> Seq<
    (Seq<char>, Option<Seq<char>>),
> {
    rows.map_values(|r: (FilePath, Option<String>)| (r.0@, optional_text(r.1)))
}

/// The row of the startup disk where no volume stands for it.
pub open spec fn startup_row() -> (Seq<char>, Option<Seq<char>>) {
    ("/"@, Some("Macintosh HD"@))
}

/// The rows of volumes: the startup disk keeps the path `/` so file paths
/// match it, and shows its volume name. Without one it comes first.
pub open spec fn volume_rows(volumes: Seq<(String, bool)>) -> Seq<
    (Seq<char>, Option<Seq<char>>),
> {
    let rows = volumes.map_values(
        |v: (String, bool)|
            (
                if v.1 {
                    "/"@
                } else {
                    joined("/Volumes"@, v.0@)
                },
                Some(v.0@),
            ),
    );
    if exists|i: int| 0 <= i < volumes.len() && (#[trigger] volumes[i]).1 {
        rows
    } else {
        rows.insert(0, startup_row())
    }
}

/// Mounted volumes, each with its name, in natural order of the names. There
/// is no such order where two names cannot be compared.
pub fn volumes(entries: Option<Vec<VolumeEntry>>) -> (rows: Option<Vec<(FilePath, Option<String>)>>)
    ensures
        match (entries, rows) {
            (None, Some(list)) => row_texts(list@) == seq![startup_row()],
            (None, None) => false,
            (Some(read), Some(list)) => {
                &&& names_comparable(shown_volumes(read@))
                &&& exists|sorted: Seq<(String, bool)>| #[trigger]
                    volume_rows(sorted) == row_texts(list@) && names_sorted(sorted)
                        && sorted.to_multiset() == shown_volumes(read@).to_multiset()
                        && keeps_namesakes(shown_volumes(read@), sorted)
            },
            (Some(read), None) => !names_comparable(shown_volumes(read@)),
        },
{
    let mut rows: Vec<(FilePath, Option<String>)> = Vec::new();
    match entries {
        None => {
            rows.push((FilePath::new("/"), Some("Macintosh HD".to_owned())));
            assert(row_texts(rows@) =~= seq![startup_row()]);
            Some(rows)
        },
        Some(read) => {
            let mut shown: Vec<(String, bool)> = Vec::new();
            let mut i: usize = 0;
            assert(read@.take(0) =~= Seq::empty());
            reveal(Seq::filter);
            assert(shown@ =~= shown_volumes(read@.take(0)));
            while i < read.len()
                invariant
                    i <= read.len(),
                    shown@ == shown_volumes(read@.take(i as int)),
                decreases read.len() - i,
            {
                reveal(Seq::filter);
                let ghost before = shown@;
                assert(read@.take(i + 1).drop_last() =~= read@.take(i as int));
                let entry = &read[i];
                let hidden = !entry.name.as_str().is_empty() && entry.name.as_str().get_char(0)
                    == '.';
                if !hidden && entry.is_dir {
                    shown.push((entry.name.clone(), entry.startup));
                }
                i += 1;
                assert(shown@ =~= shown_volumes(read@.take(i as int)));
            }
            assert(read@.take(i as int) =~= read@);
            let sorted = match sort_by_name(shown) {
                Some(sorted) => sorted,
                None => {
                    return None;
                },
            };
            let mut has_startup = false;
            let mut k: usize = 0;
            let ghost row = |v: (String, bool)|
                (
                    if v.1 {
                        "/"@
                    } else {
                        joined("/Volumes"@, v.0@)
                    },
                    Some(v.0@),
                );
            while k < sorted.len()
                invariant
                    k <= sorted.len(),
                    row == (|v: (String, bool)|
                        (
                            if v.1 {
                                "/"@
                            } else {
                                joined("/Volumes"@, v.0@)
                            },
                            Some(v.0@),
                        )),
                    row_texts(rows@) =~= sorted@.map_values(row).take(k as int),
                    has_startup == (exists|j: int| 0 <= j < k && (#[trigger] sorted@[j]).1),
                decreases sorted.len() - k,
            {
                let ghost before = rows@;
                let (name, startup) = &sorted[k];
                let path = if *startup {
                    FilePath::new("/")
                } else {
                    FilePath::new("/Volumes").join(name.as_str())
                };
                if *startup {
                    has_startup = true;
                }
                rows.push((path, Some(name.clone())));
                assert(row_texts(rows@) =~= row_texts(before).push(row(sorted@[k as int])));
                k += 1;
            }
            assert(sorted@.map_values(row).take(k as int) =~= sorted@.map_values(row));
            if !has_startup {
                let ghost before = rows@;
                rows.insert(0, (FilePath::new("/"), Some("Macintosh HD".to_owned())));
                assert(row_texts(rows@) =~= row_texts(before).insert(0, startup_row()));
            }
            assert(volume_rows(sorted@) =~= row_texts(rows@));
            Some(rows)
        },
    }
}

/// What two changes in a row leave at its slot stays at its slot.
pub proof fn slots_stay(a: SidebarState, b: SidebarState, c: SidebarState)
    requires
        b.keeps_slots_of(a),
        c.keeps_slots_of(b),
    ensures
        c.keeps_slots_of(a),
{
    assert forall|i: int| 0 <= i < a.rows.len() implies (#[trigger] c.rows[i]).path
        == a.rows[i].path && c.rows[i].name == a.rows[i].name && c.rows[i].section
        == a.rows[i].section by {
        assert(b.rows[i].path == a.rows[i].path);
    }
}

/// A step down leads on to the same folder.
pub proof fn steps_head_the_same_way(before: Walk, after: Walk, tree: SidebarState)
    requires
        tree.valid(),
        before.on_folder(tree),
        before.goes_to(after, tree),
    ensures
        after.on_folder(tree),
        after.heads_for(tree) == before.heads_for(tree),
{
    let row = tree.rows[before.slot() as int];
    let name = before.names()[0];
    let k = choose|k: int| #[trigger]
        child_named(tree, before.slot() as int, k, name) && 0 <= k < row.children->0.len()
            && after.slot() == row.children->0[k];
    let child = row.children->0[k];
    assert(before.slot() < child < tree.rows.len() && LOCAL_ROOT < child);
    let parts = components(tree.rows[child as int].path);
    assert(parent(tree.rows[child as int].path) == Some(components(row.path)));
    assert(parts =~= components(row.path).push(name));
    assert(before.names() =~= seq![name] + before.names().skip(1));
    assert(after.heads_for(tree) =~= before.heads_for(tree));
}

/// The highlighted row never disagrees with the grid: a walk to a target that
/// comes to its end has come to the row of the target. It starts on the row
/// of a folder, at `base` on the disk, and rows may be read on the way. Where
/// that row stands for `base` under another path, the last row stands for the
/// target under the same one.
pub proof fn walks_end_on_the_target(
    walks: Seq<Walk>,
    trees: Seq<SidebarState>,
    base: Seq<char>,
    target: Seq<char>,
)
    requires
        walks.len() > 0,
        trees.len() == walks.len(),
        walks[0].names() == components(target).skip(components(base).len() as int),
        starts_with(components(target), components(base)),
        walks[0].on_folder(trees[0]),
        forall|k: int| 0 <= k < trees.len() ==> (#[trigger] trees[k]).valid(),
        forall|k: int|
            0 < k < trees.len() ==> (#[trigger] trees[k]).keeps_slots_of(trees[k - 1])
                && walks[k - 1].goes_to(walks[k], trees[k]),
        walks.last().names().len() == 0,
    ensures
        walks.last().on_folder(trees.last()),
        components(trees.last().rows[walks.last().slot() as int].path) == components(
            trees[0].rows[walks[0].slot() as int].path,
        ) + components(target).skip(components(base).len() as int),
        same_path(trees[0].rows[walks[0].slot() as int].path, base) ==> same_path(
            trees.last().rows[walks.last().slot() as int].path,
            target,
        ),
{
    walks_head_for_the_target(walks, trees);
    let whole = components(target);
    let start = components(base).len() as int;
    let end = components(trees.last().rows[walks.last().slot() as int].path);
    assert(end + walks.last().names() =~= end);
    assert(whole.take(start) + whole.skip(start) =~= whole);
}

proof fn walks_head_for_the_target(walks: Seq<Walk>, trees: Seq<SidebarState>)
    requires
        walks.len() > 0,
        trees.len() == walks.len(),
        walks[0].on_folder(trees[0]),
        forall|k: int| 0 <= k < trees.len() ==> (#[trigger] trees[k]).valid(),
        forall|k: int|
            0 < k < trees.len() ==> (#[trigger] trees[k]).keeps_slots_of(trees[k - 1])
                && walks[k - 1].goes_to(walks[k], trees[k]),
    ensures
        walks.last().on_folder(trees.last()),
        walks.last().heads_for(trees.last()) == walks[0].heads_for(trees[0]),
    decreases walks.len(),
{
    if walks.len() > 1 {
        let n = walks.len() - 1;
        let front = walks.drop_last();
        let grown = trees.drop_last();
        assert forall|k: int| 0 <= k < grown.len() implies (#[trigger] grown[k]).valid() by {
            assert(grown[k] == trees[k]);
        }
        assert forall|k: int| 0 < k < grown.len() implies (#[trigger] grown[k]).keeps_slots_of(
            grown[k - 1],
        ) && front[k - 1].goes_to(front[k], grown[k]) by {
            assert(grown[k] == trees[k] && grown[k - 1] == trees[k - 1]);
            assert(front[k] == walks[k] && front[k - 1] == walks[k - 1]);
        }
        walks_head_for_the_target(front, grown);
        assert(front.last() == walks[n - 1] && grown.last() == trees[n - 1]);
        assert(trees[n].keeps_slots_of(trees[n - 1]));
        let slot = walks[n - 1].slot() as int;
        assert(trees[n].rows[slot].path == trees[n - 1].rows[slot].path);
        assert(walks[n - 1].heads_for(trees[n]) == walks[n - 1].heads_for(trees[n - 1]));
        steps_head_the_same_way(walks[n - 1], walks[n], trees[n]);
    }
}

/// A folder is a favorite once: it joins at the end unless it is one, and
/// adding it again changes nothing.
pub proof fn favorites_join_once(tree: SidebarState, path: FilePath)
    ensures
        ({
            let after = tree.favorite_added(path);
            &&& lists(tree.favorites, components(path@)) ==> after == tree
            &&& !lists(tree.favorites, components(path@)) ==> after.favorites
                == tree.favorites.push(path)
            &&& lists(after.favorites, components(path@))
            &&& after.favorite_added(path) == after
            &&& all_different(tree.favorites) ==> all_different(after.favorites)
        }),
{
    let after = tree.favorite_added(path);
    if !lists(tree.favorites, components(path@)) {
        let n = tree.favorites.len() as int;
        assert(after.favorites[n] == path);
        assert forall|i: int| 0 <= i < n implies !same_path(
            (#[trigger] tree.favorites[i])@,
            path@,
        ) by {
            assert(components(tree.favorites[i]@) != components(path@));
        }
    }
}

/// A folder that leaves the favorites is none any more, and the others stay,
/// in their order.
pub proof fn favorites_leave(tree: SidebarState, path: FilePath)
    ensures
        ({
            let after = tree.favorite_removed(path);
            &&& after.favorites == others(tree.favorites, path)
            &&& !lists(after.favorites, components(path@))
            &&& forall|parts: Seq<Seq<char>>|
                parts != components(path@) ==> #[trigger] lists(after.favorites, parts) == lists(
                    tree.favorites,
                    parts,
                )
            &&& !lists(tree.favorites, components(path@)) ==> after.favorites == tree.favorites
            &&& all_different(tree.favorites) ==> all_different(after.favorites)
        }),
{
    others_are_listed(tree.favorites, path);
    if !lists(tree.favorites, components(path@)) {
        nothing_to_remove(tree.favorites, path);
    }
}

/// A folder that joins the favorites and goes away again leaves them as they
/// were.
pub proof fn removal_undoes_adding(tree: SidebarState, path: FilePath)
    requires
        !lists(tree.favorites, components(path@)),
    ensures
        tree.favorite_added(path).favorite_removed(path).favorites == tree.favorites,
{
    let favorites = tree.favorites;
    reveal(Seq::filter);
    nothing_to_remove(favorites, path);
    assert(favorites.push(path).drop_last() =~= favorites);
}

proof fn others_are_listed(favorites: Seq<FilePath>, path: FilePath)
    ensures
        !lists(others(favorites, path), components(path@)),
        forall|parts: Seq<Seq<char>>|
            parts != components(path@) ==> #[trigger] lists(others(favorites, path), parts)
                == lists(favorites, parts),
        all_different(favorites) ==> all_different(others(favorites, path)),
    decreases favorites.len(),
{
    reveal(Seq::filter);
    if favorites.len() > 0 {
        let front = favorites.drop_last();
        let last = favorites.last();
        let rest = others(front, path);
        let whole = others(favorites, path);
        others_are_listed(front, path);
        assert(front.push(last) =~= favorites);
        assert forall|parts: Seq<Seq<char>>| #[trigger] lists(favorites, parts) == (lists(
            front,
            parts,
        ) || components(last@) == parts) by {
            listed_by_parts(front, last, parts);
        }
        assert forall|parts: Seq<Seq<char>>| #[trigger] lists(whole, parts) == (lists(
            rest,
            parts,
        ) || (!same_path(last@, path@) && components(last@) == parts)) by {
            listed_by_parts(rest, last, parts);
        }
        if all_different(favorites) {
            assert forall|i: int, j: int| 0 <= i < j < front.len() implies !same_path(
                (#[trigger] front[i])@,
                (#[trigger] front[j])@,
            ) by {
                assert(front[i] == favorites[i] && front[j] == favorites[j]);
            }
            if !same_path(last@, path@) {
                assert forall|i: int| 0 <= i < rest.len() implies !same_path(
                    (#[trigger] rest[i])@,
                    last@,
                ) by {
                    assert(lists(rest, components(rest[i]@)));
                    assert(components(rest[i]@) != components(path@));
                    assert(lists(front, components(rest[i]@)));
                    let k = choose|k: int|
                        0 <= k < front.len() && components((#[trigger] front[k])@) == components(
                            rest[i]@,
                        );
                    assert(!same_path(favorites[k]@, favorites[favorites.len() - 1]@));
                }
            }
        }
    } else {
        assert(others(favorites, path) =~= favorites);
    }
}

proof fn listed_by_parts(front: Seq<FilePath>, last: FilePath, parts: Seq<Seq<char>>)
    ensures
        lists(front.push(last), parts) == (lists(front, parts) || components(last@) == parts),
{
    let whole = front.push(last);
    assert(whole[front.len() as int] == last);
    if lists(front, parts) {
        let k = choose|k: int|
            0 <= k < front.len() && components((#[trigger] front[k])@) == parts;
        assert(whole[k] == front[k]);
    }
    if lists(whole, parts) {
        let k = choose|k: int|
            0 <= k < whole.len() && components((#[trigger] whole[k])@) == parts;
        if k < front.len() {
            assert(whole[k] == front[k]);
        }
    }
}

proof fn nothing_to_remove(favorites: Seq<FilePath>, path: FilePath)
    requires
        !lists(favorites, components(path@)),
    ensures
        others(favorites, path) == favorites,
    decreases favorites.len(),
{
    reveal(Seq::filter);
    if favorites.len() > 0 {
        let front = favorites.drop_last();
        assert(favorites[favorites.len() - 1] == favorites.last());
        if lists(front, components(path@)) {
            let k = choose|k: int|
                0 <= k < front.len() && components((#[trigger] front[k])@) == components(path@);
            assert(favorites[k] == front[k]);
        }
        nothing_to_remove(front, path);
        assert(front.push(favorites.last()) =~= favorites);
    }
}

/// A row that is opened gets a row for each folder that was read, in order,
/// with its name; the favorites get one for each favorite. What a row has is
/// not read again, and no other row changes.
pub proof fn rows_show_what_was_read(
    tree: SidebarState,
    slot: int,
    read: Seq<(FilePath, Option<String>)>,
)
    requires
        tree.valid(),
        0 <= slot < tree.rows.len(),
        tree.rows.len() + tree.favorites.len() + read.len() <= usize::MAX,
    ensures
        ({
            let after = tree.loaded(slot, read);
            let shown = after.rows[slot].children;
            &&& after.favorites == tree.favorites
            &&& tree.rows[slot].children is Some ==> after == tree
            &&& forall|i: int|
                0 <= i < tree.rows.len() && i != slot ==> #[trigger] after.rows[i] == tree.rows[i]
            &&& after.rows[slot].path == tree.rows[slot].path && after.rows[slot].name
                == tree.rows[slot].name
            &&& tree.rows[slot].children is None ==> shown is Some
            &&& tree.rows[slot].children is None && slot == 0 ==> {
                &&& shown->0.len() == tree.favorites.len()
                &&& forall|k: int|
                    0 <= k < tree.favorites.len() ==> after.rows[#[trigger] shown->0[k] as int].path
                        == tree.favorites[k]@
            }
            &&& tree.rows[slot].children is None && slot != 0 ==> {
                &&& shown->0.len() == read.len()
                &&& forall|k: int|
                    0 <= k < read.len() ==> after.rows[#[trigger] shown->0[k] as int].path
                        == read[k].0@ && after.rows[shown->0[k] as int].name == (match read[k].1 {
                        Some(name) => name@,
                        None => match file_name(read[k].0@) {
                            Some(name) => name,
                            None => read[k].0@,
                        },
                    }) && !after.rows[shown->0[k] as int].section
            }
        }),
{
    let after = tree.loaded(slot, read);
    if tree.rows[slot].children is None {
        let under = tree.rows_under(slot, read);
        let shown = after.rows[slot].children->0;
        assert forall|k: int| 0 <= k < under.len() implies after.rows[#[trigger] shown[k] as int]
            == under[k] by {
            assert(shown[k] == tree.rows.len() + k);
        }
        if slot != 0 {
            assert forall|k: int| 0 <= k < read.len() implies #[trigger] under[k] == folder_row(
                read[k].0@,
                optional_text(read[k].1),
            ) by {}
        } else {
            assert forall|k: int| 0 <= k < tree.favorites.len() implies (#[trigger] under[k]).path
                == tree.favorites[k]@ by {}
        }
    }
}

/// A section cannot be opened, and any other row opens its own folder.
pub proof fn folders_can_be_opened(tree: SidebarState, slot: usize)
    requires
        slot < tree.rows.len(),
    ensures
        tree.rows[slot as int].section ==> tree.openable(Some(slot)) is None,
        !tree.rows[slot as int].section ==> tree.openable(Some(slot)) == Some(
            tree.rows[slot as int].path,
        ),
        tree.openable(None) is None,
{
}

/// Folders get a row unless their name starts with a dot or they open as one
/// thing; nothing else gets one.
pub proof fn rows_are_for_folders(entry: FolderEntry, folder: Seq<char>, name: Seq<char>)
    requires
        plain(name),
        name != seq!['.', '.'],
        entry.path@ == joined(folder, name),
    ensures
        has_row(entry) <==> entry.is_dir && !entry.package && name[0] != '.',
{
    names_are_found_in_their_folder(folder, name);
}

/// A walk starts from the deepest of the rows that hold the target, and one
/// path holds another where it is the front of it.
pub proof fn walks_start_from_the_deepest_root(
    roots: Seq<(usize, FilePath)>,
    k: int,
    j: int,
    target: Seq<char>,
)
    requires
        is_best_root(roots, k, target),
        0 <= j < roots.len(),
    ensures
        0 <= k < roots.len(),
        exists|rest: Seq<Seq<char>>| components(target) == components(roots[k].1@) + rest,
        (exists|rest: Seq<Seq<char>>| components(target) == #[trigger] (components(roots[j].1@)
            + rest)) ==> components(roots[j].1@).len() <= components(roots[k].1@).len(),
{
    let whole = components(target);
    let best = components(roots[k].1@);
    assert(holds_target(roots, k, target));
    assert(whole =~= best + whole.skip(best.len() as int));
    let other = components(roots[j].1@);
    if exists|rest: Seq<Seq<char>>| whole == #[trigger] (other + rest) {
        let rest = choose|rest: Seq<Seq<char>>| whole == #[trigger] (other + rest);
        assert((other + rest).take(other.len() as int) =~= other);
        assert(holds_target(roots, j, target));
    }
}

/// The startup disk has a row of its own, at the root, whatever volumes are
/// mounted; every other volume has its row where it is mounted.
pub proof fn the_startup_disk_is_listed(volumes: Seq<(String, bool)>, i: int)
    requires
        0 <= i < volumes.len(),
    ensures
        exists|k: int|
            0 <= k < volume_rows(volumes).len() && (#[trigger] volume_rows(volumes)[k]).0 == "/"@,
        exists|k: int|
            0 <= k < volume_rows(volumes).len() && #[trigger] volume_rows(volumes)[k] == (
                if volumes[i].1 {
                    "/"@
                } else {
                    joined("/Volumes"@, volumes[i].0@)
                },
                Some(volumes[i].0@),
            ),
        volume_rows(volumes).len() <= volumes.len() + 1,
        volume_rows(Seq::empty()) == seq![("/"@, Some("Macintosh HD"@))],
{
    let rows = volume_rows(volumes);
    let none = Seq::<(String, bool)>::empty();
    if exists|j: int| 0 <= j < volumes.len() && (#[trigger] volumes[j]).1 {
        let j = choose|j: int| 0 <= j < volumes.len() && (#[trigger] volumes[j]).1;
        assert(rows[j].0 == "/"@);
        assert(rows[i].1 == Some(volumes[i].0@));
    } else {
        assert(rows[0].0 == "/"@);
        assert(rows[i + 1].1 == Some(volumes[i].0@));
    }
    assert(volume_rows(none) =~= seq![("/"@, Some("Macintosh HD"@))]);
}

/// The favorites of a first run are Pictures and Desktop in the home folder,
/// and the home folder.
pub proof fn first_favorites_lie_at_home(home: Seq<char>)
    ensures
        seeds(home).len() == 3,
        components(seeds(home)[0]) == components(home).push("Pictures"@),
        components(seeds(home)[1]) == components(home).push("Desktop"@),
        components(seeds(home)[2]) == components(home),
{
    reveal_strlit("Pictures");
    reveal_strlit("Desktop");
    assert("Pictures"@.len() == 8 && "Desktop"@.len() == 7 && seq!['.'].len() == 1);
    assert(plain("Pictures"@) && plain("Desktop"@));
    join_adds_one_component(home, "Pictures"@);
    join_adds_one_component(home, "Desktop"@);
}

} // verus!
