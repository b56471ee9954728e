//! File paths as text, compared and taken apart by their components.
//!
//! A path is cut at its slashes. Empty pieces and `.` say nothing, except
//! for a `.` at the very front of a relative path, so `/a//b/.` and `/a/b`
//! are the same path.

use vstd::prelude::*;

use crate::text::{characters, same_text};

verus! {

/// The text cut at every slash, the empty pieces included.
pub open spec fn pieces(s: Seq<char>) -> Seq<Seq<char>>
    decreases s.len(),
{
    if s.len() == 0 {
        seq![Seq::empty()]
    } else {
        let front = pieces(s.drop_last());
        if s.last() == '/' {
            front.push(Seq::empty())
        } else {
            front.update(front.len() - 1, front.last().push(s.last()))
        }
    }
}

/// Whether a piece names something: it is neither empty nor `.`.
pub open spec fn names_something(piece: Seq<char>) -> bool {
    piece.len() > 0 && piece != seq!['.']
}

/// The component in front of all others: the root of an absolute path, or
/// the `.` that a relative path starts with.
pub open spec fn lead(s: Seq<char>) -> Seq<Seq<char>> {
    if s.len() > 0 && s[0] == '/' {
        seq![seq!['/']]
    } else if pieces(s)[0] == seq!['.'] {
        seq![seq!['.']]
    } else {
        Seq::empty()
    }
}

/// The components of a path, in order.
pub open spec fn components(s: Seq<char>) -> Seq<Seq<char>> {
    lead(s) + pieces(s).filter(|p: Seq<char>| names_something(p))
}

/// Whether two texts spell the same path.
pub open spec fn same_path(a: Seq<char>, b: Seq<char>) -> bool {
    components(a) == components(b)
}

/// Whether a component is an ordinary name: not the root, `.` or `..`.
pub open spec fn is_name(component: Seq<char>) -> bool {
    component != seq!['/'] && component != seq!['.'] && component != seq!['.', '.']
}

/// The last component of a path, where that is a name.
pub open spec fn file_name(s: Seq<char>) -> Option<Seq<char>> {
    let parts = components(s);
    if parts.len() > 0 && is_name(parts.last()) {
        Some(parts.last())
    } else {
        None
    }
}

/// The components of the folder that holds a path. The root and the empty
/// path lie in no folder.
pub open spec fn parent(s: Seq<char>) -> Option<Seq<Seq<char>>> {
    let parts = components(s);
    if parts.len() > 0 && parts.last() != seq!['/'] {
        Some(parts.drop_last())
    } else {
        None
    }
}

/// Where the last dot of a name stands, or -1.
pub open spec fn last_dot(name: Seq<char>) -> int
    decreases name.len(),
{
    if name.len() == 0 {
        -1
    } else if name.last() == '.' {
        name.len() - 1
    } else {
        last_dot(name.drop_last())
    }
}

/// A name without its extension. A dot in front starts no extension.
pub open spec fn stem_of(name: Seq<char>) -> Seq<char> {
    if last_dot(name) > 0 {
        name.take(last_dot(name))
    } else {
        name
    }
}

/// What follows the last dot of a name, unless that dot comes first.
pub open spec fn extension_of(name: Seq<char>) -> Option<Seq<char>> {
    if last_dot(name) > 0 {
        Some(name.skip(last_dot(name) + 1))
    } else {
        None
    }
}

/// The text of a path that leads from a folder to `name`. An absolute
/// `name` stands by itself.
pub open spec fn joined(folder: Seq<char>, name: Seq<char>) -> Seq<char> {
    if name.len() > 0 && name[0] == '/' {
        name
    } else if folder.len() == 0 || folder.last() == '/' {
        folder + name
    } else {
        folder.push('/') + name
    }
}

/// The text inside an optional string.
pub open spec fn optional_text(text: Option<String>) -> Option<Seq<char>> {
    match text {
        Some(s) => Some(s@),
        None => None,
    }
}

/// A file path. Its view is its text; [`FilePath::same`] compares paths.
pub struct FilePath {
    text: String,
}

impl View for FilePath {
    type V = Seq<char>;

    closed spec fn view(&self) -> Seq<char> {
        self.text@
    }
}

impl Clone for FilePath {
    fn clone(&self) -> (copy: Self)
        ensures
            copy == *self,
    {
        FilePath { text: self.text.clone() }
    }
}

proof fn pieces_not_empty(s: Seq<char>)
    ensures
        pieces(s).len() >= 1,
    decreases s.len(),
{
    if s.len() > 0 {
        pieces_not_empty(s.drop_last());
    }
}

/// The pieces of `text`.
fn cut(text: &str) -> (out: Vec<String>)
    ensures
        out.deep_view() == pieces(text@),
{
    let chars = characters(text);
    let mut out: Vec<String> = Vec::new();
    let mut start: usize = 0;
    let mut i: usize = 0;
    assert(text@.take(0).len() == 0);
    assert(text@.subrange(0, 0) =~= Seq::empty());
    assert(out.deep_view() =~= Seq::empty());
    while i < chars.len()
        invariant
            start <= i <= chars.len(),
            chars@ == text@,
            pieces(text@.take(i as int)) =~= out.deep_view().push(
                text@.subrange(start as int, i as int),
            ),
        decreases chars.len() - i,
    {
        let ghost front = text@.take(i as int);
        let ghost next = text@.take(i as int + 1);
        assert(next.drop_last() =~= front);
        assert(next.last() == chars@[i as int]);
        if chars[i] == '/' {
            let ghost before = out.deep_view();
            out.push(text.substring_char(start, i).to_owned());
            assert(out.deep_view() =~= before.push(text@.subrange(start as int, i as int)));
            start = i + 1;
            assert(text@.subrange(start as int, start as int) =~= Seq::empty());
        } else {
            assert(text@.subrange(start as int, i + 1) =~= text@.subrange(start as int, i as int).push(
                chars@[i as int],
            ));
        }
        i += 1;
    }
    let ghost before = out.deep_view();
    out.push(text.substring_char(start, i).to_owned());
    assert(out.deep_view() =~= before.push(text@.subrange(start as int, i as int)));
    assert(text@.take(i as int) =~= text@);
    out
}

/// Whether a piece of text is exactly one `.`.
fn is_dot(piece: &str) -> (dot: bool)
    ensures
        dot == (piece@ == seq!['.']),
{
    proof {
        reveal_strlit(".");
    }
    assert("."@ =~= seq!['.']);
    same_text(piece, ".")
}

/// The components of the path that `text` spells.
pub fn split(text: &str) -> (out: Vec<String>)
    ensures
        out.deep_view() == components(text@),
{
    let all = cut(text);
    proof {
        pieces_not_empty(text@);
    }
    let mut out: Vec<String> = Vec::new();
    let absolute = !text.is_empty() && text.get_char(0) == '/';
    if absolute {
        out.push("/".to_owned());
        proof {
            reveal_strlit("/");
        }
        assert("/"@ =~= seq!['/']);
    } else if is_dot(all[0].as_str()) {
        out.push(".".to_owned());
        proof {
            reveal_strlit(".");
        }
        assert("."@ =~= seq!['.']);
        assert(all.deep_view()[0] == all@[0]@);
    } else {
        assert(all.deep_view()[0] == all@[0]@);
    }
    assert(out.deep_view() =~= lead(text@));
    let ghost keep = |p: Seq<char>| names_something(p);
    let mut i: usize = 0;
    assert(pieces(text@).take(0) =~= Seq::empty());
    reveal(Seq::filter);
    while i < all.len()
        invariant
            i <= all.len(),
            all.deep_view() == pieces(text@),
            keep == (|p: Seq<char>| names_something(p)),
            out.deep_view() =~= lead(text@) + pieces(text@).take(i as int).filter(keep),
        decreases all.len() - i,
    {
        let ghost front = pieces(text@).take(i as int);
        let ghost next = pieces(text@).take(i as int + 1);
        let ghost before = out.deep_view();
        assert(next.drop_last() =~= front);
        assert(next.last() == all@[i as int]@);
        reveal(Seq::filter);
        if !all[i].as_str().is_empty() && !is_dot(all[i].as_str()) {
            out.push(all[i].clone());
            assert(out.deep_view() =~= before.push(all@[i as int]@));
        }
        i += 1;
    }
    assert(pieces(text@).take(i as int) =~= pieces(text@));
    out
}

/// Whether two lists of texts are equal, item by item.
fn same_texts(a: &Vec<String>, b: &Vec<String>) -> (same: bool)
    ensures
        same == (a.deep_view() == b.deep_view()),
{
    if a.len() != b.len() {
        assert(a.deep_view().len() != b.deep_view().len());
        return false;
    }
    let mut i: usize = 0;
    while i < a.len()
        invariant
            i <= a.len() == b.len(),
            forall|j: int| 0 <= j < i ==> a@[j]@ == b@[j]@,
        decreases a.len() - i,
    {
        if !same_text(a[i].as_str(), b[i].as_str()) {
            assert(a.deep_view()[i as int] != b.deep_view()[i as int]);
            return false;
        }
        i += 1;
    }
    assert(a.deep_view() =~= b.deep_view());
    true
}

impl FilePath {
    /// The path that a text spells.
    pub fn new(text: &str) -> (path: Self)
        ensures
            path@ == text@,
    {
        FilePath { text: text.to_owned() }
    }

    /// The text of the path.
    pub fn as_text(&self) -> (text: &str)
        ensures
            text@ == self@,
    {
        self.text.as_str()
    }

    /// The components of the path, in order.
    pub fn components(&self) -> (parts: Vec<String>)
        ensures
            parts.deep_view() == components(self@),
    {
        split(self.text.as_str())
    }

    /// Whether both spell the same path.
    pub fn same(&self, other: &FilePath) -> (same: bool)
        ensures
            same == same_path(self@, other@),
    {
        same_texts(&self.components(), &other.components())
    }

    /// The last component, where that is a name.
    pub fn file_name(&self) -> (name: Option<String>)
        ensures
            optional_text(name) == file_name(self@),
    {
        let parts = self.components();
        if parts.len() == 0 {
            return None;
        }
        let last = &parts[parts.len() - 1];
        assert(parts.deep_view().last() == last@);
        proof {
            reveal_strlit("/");
            reveal_strlit(".");
            reveal_strlit("..");
        }
        assert("/"@ =~= seq!['/']);
        assert("."@ =~= seq!['.']);
        assert(".."@ =~= seq!['.', '.']);
        if same_text(last.as_str(), "/") || same_text(last.as_str(), ".") || same_text(
            last.as_str(),
            "..",
        ) {
            None
        } else {
            Some(last.clone())
        }
    }

    /// The path from here to `name`.
    pub fn join(&self, name: &str) -> (path: FilePath)
        ensures
            path@ == joined(self@, name@),
    {
        if !name.is_empty() && name.get_char(0) == '/' {
            return FilePath::new(name);
        }
        let mut text = self.text.clone();
        let length = self.text.as_str().unicode_len();
        if length > 0 && self.text.as_str().get_char(length - 1) != '/' {
            proof {
                reveal_strlit("/");
            }
            text.append("/");
            assert(text@ =~= self@.push('/'));
        }
        text.append(name);
        FilePath { text }
    }

    /// Whether this path lies directly in `folder`.
    pub fn lies_in(&self, folder: &FilePath) -> (inside: bool)
        ensures
            inside == (parent(self@) == Some(components(folder@))),
    {
        let mut parts = self.components();
        if parts.len() == 0 {
            return false;
        }
        let last = parts.pop().unwrap();
        proof {
            reveal_strlit("/");
        }
        assert("/"@ =~= seq!['/']);
        assert(components(self@).last() == last@);
        assert(parts.deep_view() =~= components(self@).drop_last());
        !same_text(last.as_str(), "/") && same_texts(&parts, &folder.components())
    }
}

/// Where the last dot of `name` stands.
fn find_last_dot(name: &Vec<char>) -> (dot: Option<usize>)
    ensures
        match dot {
            Some(i) => i < name.len() && last_dot(name@) == i,
            None => last_dot(name@) == -1,
        },
{
    let mut end: usize = name.len();
    assert(name@.take(end as int) =~= name@);
    while end > 0
        invariant
            end <= name.len(),
            last_dot(name@) == last_dot(name@.take(end as int)),
        decreases end,
    {
        assert(name@.take(end as int).drop_last() =~= name@.take(end - 1));
        if name[end - 1] == '.' {
            return Some(end - 1);
        }
        end -= 1;
    }
    None
}

/// A name without its extension.
pub fn stem(name: &str) -> (stem: String)
    ensures
        stem@ == stem_of(name@),
{
    let chars = characters(name);
    match find_last_dot(&chars) {
        Some(dot) if dot > 0 => {
            assert(name@.subrange(0, dot as int) =~= name@.take(dot as int));
            name.substring_char(0, dot).to_owned()
        },
        _ => name.to_owned(),
    }
}

/// The extension of a name.
pub fn extension(name: &str) -> (extension: Option<String>)
    ensures
        optional_text(extension) == extension_of(name@),
{
    let chars = characters(name);
    match find_last_dot(&chars) {
        Some(dot) if dot > 0 => {
            assert(name@.subrange(dot as int + 1, name@.len() as int) =~= name@.skip(dot + 1));
            Some(name.substring_char(dot + 1, chars.len()).to_owned())
        },
        _ => None,
    }
}

/// The first of the paths that is the same as `path`.
pub open spec fn first_same(paths: Seq<FilePath>, path: FilePath) -> Option<int>
    decreases paths.len(),
{
    if paths.len() == 0 {
        None
    } else {
        match first_same(paths.drop_last(), path) {
            Some(i) => Some(i),
            None => if same_path(paths.last()@, path@) {
                Some(paths.len() - 1)
            } else {
                None
            },
        }
    }
}

/// [`first_same`] finds a path that is the same with none before it, and
/// finds one wherever there is one.
pub proof fn first_same_is_first(paths: Seq<FilePath>, path: FilePath)
    ensures
        match first_same(paths, path) {
            Some(i) => {
                &&& 0 <= i < paths.len()
                &&& same_path(paths[i]@, path@)
                &&& forall|j: int| 0 <= j < i ==> !same_path((#[trigger] paths[j])@, path@)
            },
            None => forall|j: int|
                0 <= j < paths.len() ==> !same_path((#[trigger] paths[j])@, path@),
        },
    decreases paths.len(),
{
    if paths.len() > 0 {
        let front = paths.drop_last();
        first_same_is_first(front, path);
        assert forall|j: int| 0 <= j < front.len() implies front[j] == #[trigger] paths[j] by {}
    }
}

/// Two paths that are the same are found in the same place.
pub proof fn first_same_by_components(paths: Seq<FilePath>, a: FilePath, b: FilePath)
    requires
        same_path(a@, b@),
    ensures
        first_same(paths, a) == first_same(paths, b),
    decreases paths.len(),
{
    if paths.len() > 0 {
        first_same_by_components(paths.drop_last(), a, b);
    }
}

/// Where `path` first occurs.
pub fn find_path(paths: &Vec<FilePath>, path: &FilePath) -> (found: Option<usize>)
    ensures
        match found {
            Some(i) => first_same(paths@, *path) == Some(i as int) && i < paths.len(),
            None => first_same(paths@, *path) is None,
        },
{
    let mut i: usize = 0;
    while i < paths.len()
        invariant
            i <= paths.len(),
            first_same(paths@.take(i as int), *path) is None,
        decreases paths.len() - i,
    {
        assert(paths@.take(i + 1).drop_last() =~= paths@.take(i as int));
        if paths[i].same(path) {
            proof {
                first_same_in_front(paths@, i + 1, *path);
            }
            return Some(i);
        }
        i += 1;
    }
    assert(paths@.take(i as int) =~= paths@);
    None
}

/// What is found among the front paths is found among all of them.
pub proof fn first_same_in_front(paths: Seq<FilePath>, count: int, path: FilePath)
    requires
        0 <= count <= paths.len(),
        first_same(paths.take(count), path) is Some,
    ensures
        first_same(paths, path) == first_same(paths.take(count), path),
    decreases paths.len(),
{
    if count < paths.len() {
        assert(paths.drop_last().take(count) =~= paths.take(count));
        first_same_in_front(paths.drop_last(), count, path);
    } else {
        assert(paths.take(count) =~= paths);
    }
}

/// Whether a text is one plain component: something, without a slash, and
/// not `.`.
pub open spec fn plain(name: Seq<char>) -> bool {
    &&& names_something(name)
    &&& forall|i: int| 0 <= i < name.len() ==> #[trigger] name[i] != '/'
}

proof fn pieces_of_plain(folder: Seq<char>, name: Seq<char>)
    requires
        forall|i: int| 0 <= i < name.len() ==> #[trigger] name[i] != '/',
    ensures
        pieces(folder.push('/') + name) == pieces(folder).push(name),
        pieces(name) == seq![name],
    decreases name.len(),
{
    let whole = folder.push('/') + name;
    if name.len() == 0 {
        assert(whole =~= folder.push('/'));
        assert(whole.drop_last() =~= folder);
        assert(name =~= Seq::empty());
    } else {
        let front = name.drop_last();
        pieces_of_plain(folder, front);
        assert(whole.drop_last() =~= folder.push('/') + front);
        assert(front.push(name.last()) =~= name);
        assert(pieces(whole) =~= pieces(folder).push(name));
        assert(pieces(name) =~= seq![name]);
    }
}

proof fn pieces_hold_no_slash(s: Seq<char>)
    ensures
        forall|k: int, i: int|
            0 <= k < pieces(s).len() && 0 <= i < pieces(s)[k].len() ==> #[trigger] pieces(s)[k][i]
                != '/',
    decreases s.len(),
{
    pieces_not_empty(s);
    if s.len() > 0 {
        pieces_not_empty(s.drop_last());
        pieces_hold_no_slash(s.drop_last());
        let front = pieces(s.drop_last());
        assert forall|k: int, i: int|
            0 <= k < pieces(s).len() && 0 <= i < pieces(s)[k].len() implies #[trigger] pieces(
            s,
        )[k][i] != '/' by {
            if s.last() != '/' && k == front.len() - 1 && i == front[k].len() {
            } else {
                assert(front[k][i] == pieces(s)[k][i]);
            }
        }
    }
}

/// A joined name is the last component, behind those of the folder.
pub proof fn join_adds_one_component(folder: Seq<char>, name: Seq<char>)
    requires
        plain(name),
    ensures
        components(joined(folder, name)) == components(folder).push(name),
{
    let keep = |p: Seq<char>| names_something(p);
    let whole = joined(folder, name);
    assert(name[0] != '/');
    reveal(Seq::filter);
    if folder.len() == 0 {
        pieces_of_plain(folder, name);
        assert(whole =~= name);
        assert(pieces(whole) =~= seq![name]);
        assert(seq![name].drop_last() =~= Seq::empty());
        assert(seq![Seq::<char>::empty()].drop_last() =~= Seq::empty());
        assert(components(whole) =~= components(folder).push(name));
    } else {
        let base = if folder.last() == '/' { folder.drop_last() } else { folder };
        pieces_of_plain(base, name);
        pieces_not_empty(base);
        assert(whole =~= base.push('/') + name);
        assert(pieces(whole) == pieces(base).push(name));
        assert(pieces(whole).drop_last() =~= pieces(base));
        if folder.last() == '/' {
            assert(pieces(folder).drop_last() =~= pieces(base));
        }
        assert(pieces(whole).filter(keep) =~= pieces(folder).filter(keep).push(name));
        assert(whole[0] == folder[0]);
        assert(lead(whole) == lead(folder));
        assert(components(whole) =~= components(folder).push(name));
    }
}

/// The name of a file is one plain component.
pub proof fn file_names_are_plain(s: Seq<char>)
    requires
        file_name(s) is Some,
    ensures
        plain(file_name(s)->0),
{
    let keep = |p: Seq<char>| names_something(p);
    let kept = pieces(s).filter(keep);
    let name = file_name(s)->0;
    pieces_hold_no_slash(s);
    if kept.len() == 0 {
        assert(components(s) =~= lead(s));
        assert(false);
    }
    assert(name == kept.last());
    kept_is_kept(pieces(s), keep);
    assert(kept.contains(name));
    let k = choose|k: int| 0 <= k < pieces(s).len() && pieces(s)[k] == name;
    assert forall|i: int| 0 <= i < name.len() implies #[trigger] name[i] != '/' by {
        assert(pieces(s)[k][i] == name[i]);
    }
}

proof fn kept_is_kept(all: Seq<Seq<char>>, keep: spec_fn(Seq<char>) -> bool)
    ensures
        forall|i: int| 0 <= i < all.filter(keep).len() ==> keep(#[trigger] all.filter(keep)[i]),
        forall|i: int|
            0 <= i < all.filter(keep).len() ==> all.contains(#[trigger] all.filter(keep)[i]),
    decreases all.len(),
{
    reveal(Seq::filter);
    if all.len() > 0 {
        let front = all.drop_last();
        kept_is_kept(front, keep);
        assert forall|i: int| 0 <= i < all.filter(keep).len() implies all.contains(
            #[trigger] all.filter(keep)[i],
        ) by {
            if i < front.filter(keep).len() {
                let k = choose|k: int| 0 <= k < front.len() && front[k] == front.filter(keep)[i];
                assert(all[k] == all.filter(keep)[i]);
            } else {
                assert(all[all.len() - 1] == all.filter(keep)[i]);
            }
        }
    }
}

/// A set of paths. Its view holds the components of each.
pub struct PathSet {
    items: Vec<FilePath>,
}

/// Whether no two paths are the same.
pub open spec fn all_different(paths: Seq<FilePath>) -> bool {
    forall|i: int, j: int|
        0 <= i < j < paths.len() ==> !same_path((#[trigger] paths[i])@, (#[trigger] paths[j])@)
}

/// Whether one of `items` has the components `parts`.
pub open spec fn lists(items: Seq<FilePath>, parts: Seq<Seq<char>>) -> bool {
    exists|i: int| 0 <= i < items.len() && components((#[trigger] items[i])@) == parts
}

impl View for PathSet {
    type V = Set<Seq<Seq<char>>>;

    closed spec fn view(&self) -> Set<Seq<Seq<char>>> {
        Set::new(|parts: Seq<Seq<char>>| lists(self.items@, parts))
    }
}

impl PathSet {
    pub fn new() -> (set: Self)
        ensures
            set@ == Set::<Seq<Seq<char>>>::empty(),
    {
        let set = PathSet { items: Vec::new() };
        assert(set@ =~= Set::empty());
        set
    }

    pub fn contains(&self, path: &FilePath) -> (held: bool)
        ensures
            held == self@.contains(components(path@)),
    {
        let mut i: usize = 0;
        while i < self.items.len()
            invariant
                i <= self.items.len(),
                forall|j: int|
                    0 <= j < i ==> components((#[trigger] self.items@[j])@) != components(path@),
            decreases self.items.len() - i,
        {
            if self.items[i].same(path) {
                assert(lists(self.items@, components(path@)));
                return true;
            }
            i += 1;
        }
        false
    }

    /// Add a path, and say whether it is new.
    pub fn insert(&mut self, path: FilePath) -> (new: bool)
        ensures
            new == !old(self)@.contains(components(path@)),
            final(self)@ == old(self)@.insert(components(path@)),
    {
        if self.contains(&path) {
            assert(self@ =~= old(self)@.insert(components(path@)));
            return false;
        }
        let ghost before = self.items@;
        self.items.push(path);
        proof {
            let after = self.items@;
            assert(after[before.len() as int] == path);
            assert forall|parts: Seq<Seq<char>>| lists(after, parts) == (lists(before, parts)
                || parts == components(path@)) by {
                if lists(before, parts) {
                    let k = choose|k: int|
                        0 <= k < before.len() && components((#[trigger] before[k])@) == parts;
                    assert(after[k] == before[k]);
                }
                if lists(after, parts) {
                    let k = choose|k: int|
                        0 <= k < after.len() && components((#[trigger] after[k])@) == parts;
                    if k < before.len() {
                        assert(after[k] == before[k]);
                    }
                }
            }
            assert(self@ =~= old(self)@.insert(components(path@)));
        }
        true
    }

    pub fn remove(&mut self, path: &FilePath)
        ensures
            final(self)@ == old(self)@.remove(components(path@)),
    {
        let ghost gone = components(path@);
        let mut kept: Vec<FilePath> = Vec::new();
        let mut i: usize = 0;
        while i < self.items.len()
            invariant
                i <= self.items.len(),
                gone == components(path@),
                self.items@ == old(self).items@,
                forall|k: int|
                    0 <= k < kept@.len() ==> components((#[trigger] kept@[k])@) != gone && lists(
                        self.items@,
                        components(kept@[k]@),
                    ),
                forall|j: int|
                    0 <= j < i && components((#[trigger] self.items@[j])@) != gone ==> lists(
                        kept@,
                        components(self.items@[j]@),
                    ),
            decreases self.items.len() - i,
        {
            let ghost before = kept@;
            let ghost item = self.items@[i as int];
            if !self.items[i].same(path) {
                kept.push(self.items[i].clone());
                proof {
                    assert(kept@[before.len() as int] == item);
                    assert forall|parts: Seq<Seq<char>>| lists(before, parts) implies lists(
                        kept@,
                        parts,
                    ) by {
                        let k = choose|k: int|
                            0 <= k < before.len() && components((#[trigger] before[k])@) == parts;
                        assert(kept@[k] == before[k]);
                    }
                    assert forall|k: int| 0 <= k < kept@.len() implies components(
                        (#[trigger] kept@[k])@,
                    ) != gone && lists(self.items@, components(kept@[k]@)) by {
                        if k < before.len() {
                            assert(kept@[k] == before[k]);
                        }
                    }
                }
            }
            i += 1;
        }
        self.items = kept;
        assert(self@ =~= old(self)@.remove(gone));
    }

    pub fn clear(&mut self)
        ensures
            final(self)@ == Set::<Seq<Seq<char>>>::empty(),
    {
        self.items.clear();
        assert(self@ =~= Set::empty());
    }
}

/// The values of pairs by the components of their paths; later ones win.
pub open spec fn map_of<V>(items: Seq<(FilePath, V)>) -> Map<Seq<Seq<char>>, V>
    decreases items.len(),
{
    if items.len() == 0 {
        Map::empty()
    } else {
        map_of(items.drop_last()).insert(components(items.last().0@), items.last().1)
    }
}

/// A value for each of some paths.
pub struct PathMap<V> {
    items: Vec<(FilePath, V)>,
}

impl<V> View for PathMap<V> {
    type V = Map<Seq<Seq<char>>, V>;

    closed spec fn view(&self) -> Map<Seq<Seq<char>>, V> {
        map_of(self.items@)
    }
}

impl<V: Copy> PathMap<V> {
    pub fn new() -> (map: Self)
        ensures
            map@ == Map::<Seq<Seq<char>>, V>::empty(),
    {
        PathMap { items: Vec::new() }
    }

    pub fn get(&self, path: &FilePath) -> (value: Option<V>)
        ensures
            match value {
                Some(v) => self@.dom().contains(components(path@)) && v
                    == self@[components(path@)],
                None => !self@.dom().contains(components(path@)),
            },
    {
        let ghost parts = components(path@);
        let mut end: usize = self.items.len();
        assert(self.items@.take(end as int) =~= self.items@);
        while end > 0
            invariant
                end <= self.items.len(),
                parts == components(path@),
                self@.dom().contains(parts) == map_of(self.items@.take(end as int)).dom().contains(
                    parts,
                ),
                self@.dom().contains(parts) ==> self@[parts] == map_of(
                    self.items@.take(end as int),
                )[parts],
            decreases end,
        {
            let ghost shown = self.items@.take(end as int);
            assert(shown.drop_last() =~= self.items@.take(end - 1));
            assert(shown.last() == self.items@[end - 1]);
            if self.items[end - 1].0.same(path) {
                return Some(self.items[end - 1].1);
            }
            end -= 1;
        }
        None
    }

    pub fn insert(&mut self, path: FilePath, value: V)
        ensures
            final(self)@ == old(self)@.insert(components(path@), value),
    {
        self.remove(&path);
        let ghost before = self.items@;
        self.items.push((path, value));
        assert(self.items@.drop_last() =~= before);
        assert(self@ =~= old(self)@.insert(components(path@), value));
    }

    pub fn remove(&mut self, path: &FilePath)
        ensures
            final(self)@ == old(self)@.remove(components(path@)),
    {
        let ghost parts = components(path@);
        let mut kept: Vec<(FilePath, V)> = Vec::new();
        let mut i: usize = 0;
        assert(self.items@.take(0) =~= Seq::empty());
        assert(map_of(kept@) =~= map_of(self.items@.take(0)).remove(parts));
        while i < self.items.len()
            invariant
                i <= self.items.len(),
                parts == components(path@),
                self.items@ == old(self).items@,
                map_of(kept@) == map_of(self.items@.take(i as int)).remove(parts),
            decreases self.items.len() - i,
        {
            let ghost next = self.items@.take(i + 1);
            assert(next.drop_last() =~= self.items@.take(i as int));
            assert(next.last() == self.items@[i as int]);
            let ghost before = kept@;
            if !self.items[i].0.same(path) {
                kept.push((self.items[i].0.clone(), self.items[i].1));
                assert(kept@.drop_last() =~= before);
            }
            i += 1;
            assert(map_of(kept@) =~= map_of(self.items@.take(i as int)).remove(parts));
        }
        assert(self.items@.take(i as int) =~= self.items@);
        self.items = kept;
    }
}

proof fn last_dot_before(front: Seq<char>, back: Seq<char>)
    requires
        forall|i: int| 0 <= i < back.len() ==> #[trigger] back[i] != '.',
    ensures
        last_dot(front.push('.') + back) == front.len(),
        last_dot(front + back) == last_dot(front),
    decreases back.len(),
{
    let dotted = front.push('.') + back;
    let whole = front + back;
    if back.len() == 0 {
        assert(dotted =~= front.push('.'));
        assert(whole =~= front);
    } else {
        last_dot_before(front, back.drop_last());
        assert(dotted.drop_last() =~= front.push('.') + back.drop_last());
        assert(whole.drop_last() =~= front + back.drop_last());
        assert(back.last() == back[back.len() - 1]);
    }
}

proof fn last_dot_is_last(name: Seq<char>)
    ensures
        -1 <= last_dot(name) < name.len(),
        last_dot(name) >= 0 ==> name[last_dot(name)] == '.',
        forall|i: int| last_dot(name) < i < name.len() ==> #[trigger] name[i] != '.',
    decreases name.len(),
{
    if name.len() > 0 && name.last() != '.' {
        let front = name.drop_last();
        last_dot_is_last(front);
        assert forall|i: int| last_dot(name) < i < name.len() implies #[trigger] name[i] != '.' by {
            if i < front.len() {
                assert(front[i] == name[i]);
            }
        }
    }
}

/// An extension is what stands behind the last dot, and what stands before
/// that dot is the stem.
pub proof fn extensions_follow_the_last_dot(stem: Seq<char>, ext: Seq<char>)
    requires
        stem.len() > 0,
        forall|i: int| 0 <= i < ext.len() ==> #[trigger] ext[i] != '.',
    ensures
        stem_of(stem + seq!['.'] + ext) == stem,
        extension_of(stem + seq!['.'] + ext) == Some(ext),
{
    let name = stem + seq!['.'] + ext;
    assert(name =~= stem.push('.') + ext);
    last_dot_before(stem, ext);
    assert(name.take(stem.len() as int) =~= stem);
    assert(name.skip(stem.len() as int + 1) =~= ext);
}

/// A name is its stem, a dot and its extension, or a stem without a dot
/// behind its first character.
pub proof fn names_are_stem_and_extension(name: Seq<char>)
    ensures
        match extension_of(name) {
            Some(ext) => {
                &&& name == stem_of(name) + seq!['.'] + ext
                &&& stem_of(name).len() > 0
                &&& forall|i: int| 0 <= i < ext.len() ==> #[trigger] ext[i] != '.'
            },
            None => stem_of(name) == name && forall|i: int|
                0 < i < name.len() ==> #[trigger] name[i] != '.',
        },
{
    last_dot_is_last(name);
    let dot = last_dot(name);
    if dot > 0 {
        assert(name =~= name.take(dot) + seq!['.'] + name.skip(dot + 1));
        let ext = name.skip(dot + 1);
        assert forall|i: int| 0 <= i < ext.len() implies #[trigger] ext[i] != '.' by {
            assert(ext[i] == name[dot + 1 + i]);
        }
    }
}

/// A name without a dot behind its first character is all stem.
pub proof fn names_without_a_dot_are_stems(name: Seq<char>)
    requires
        forall|i: int| 0 < i < name.len() ==> #[trigger] name[i] != '.',
    ensures
        stem_of(name) == name,
        extension_of(name) is None,
{
    last_dot_is_last(name);
}

/// A slash behind a path, and a dot behind that, lead nowhere else; a path of
/// nothing has no components, and a slash alone is the root.
pub proof fn slashes_and_dots_lead_nowhere(s: Seq<char>)
    ensures
        components(Seq::empty()) == Seq::<Seq<char>>::empty(),
        components(seq!['/']) == seq![seq!['/']],
        s.len() > 0 ==> components(s.push('/')) == components(s),
        s.len() > 0 ==> components(s.push('/').push('.')) == components(s),
{
    reveal(Seq::filter);
    let keep = |p: Seq<char>| names_something(p);
    let none = Seq::<char>::empty();
    let root = seq!['/'];
    assert(root.drop_last() =~= none);
    assert(pieces(none) =~= seq![none]);
    assert(pieces(root) =~= seq![none, none]);
    assert(none != seq!['.']) by {
        assert(seq!['.'].len() == 1);
    }
    kept_is_kept(pieces(none), keep);
    kept_is_kept(pieces(root), keep);
    assert(pieces(none).filter(keep).len() == 0) by {
        if pieces(none).filter(keep).len() > 0 {
            assert(pieces(none).contains(pieces(none).filter(keep)[0]));
        }
    }
    assert(pieces(root).filter(keep).len() == 0) by {
        if pieces(root).filter(keep).len() > 0 {
            assert(pieces(root).contains(pieces(root).filter(keep)[0]));
        }
    }
    assert(components(none) =~= Seq::empty());
    assert(components(root) =~= seq![root]);
    if s.len() > 0 {
        pieces_not_empty(s);
        let slash = s.push('/');
        let dot = slash.push('.');
        assert(slash.drop_last() =~= s);
        assert(dot.drop_last() =~= slash);
        assert(pieces(slash) =~= pieces(s).push(none));
        assert(pieces(slash).drop_last() =~= pieces(s));
        assert(none.push('.') =~= seq!['.']);
        assert(pieces(dot) =~= pieces(s).push(seq!['.']));
        assert(pieces(dot).drop_last() =~= pieces(s));
        assert(components(slash) =~= components(s));
        assert(components(dot) =~= components(s));
    }
}

/// A name in a folder is the name of the path that leads there, and the
/// folder holds that path.
pub proof fn names_are_found_in_their_folder(folder: Seq<char>, name: Seq<char>)
    requires
        plain(name),
        name != seq!['.', '.'],
    ensures
        file_name(joined(folder, name)) == Some(name),
        parent(joined(folder, name)) == Some(components(folder)),
{
    join_adds_one_component(folder, name);
    let parts = components(folder).push(name);
    assert(parts.drop_last() =~= components(folder));
    assert(name[0] != '/');
    assert(seq!['/'][0] == '/');
}

/// A path that starts with a slash starts at the root, and no other does. A
/// plain name is a path of its own.
pub proof fn only_absolute_paths_start_at_the_root(s: Seq<char>)
    ensures
        s.len() > 0 && s[0] == '/' ==> components(s).len() > 0 && components(s)[0] == seq!['/'],
        !(s.len() > 0 && s[0] == '/') ==> forall|i: int|
            0 <= i < components(s).len() ==> #[trigger] components(s)[i] != seq!['/'],
        plain(s) ==> components(s) == seq![s],
{
    let keep = |p: Seq<char>| names_something(p);
    let kept = pieces(s).filter(keep);
    pieces_hold_no_slash(s);
    kept_is_kept(pieces(s), keep);
    assert forall|i: int| 0 <= i < kept.len() implies #[trigger] kept[i] != seq!['/'] by {
        assert(pieces(s).contains(kept[i]));
        let k = choose|k: int| 0 <= k < pieces(s).len() && pieces(s)[k] == kept[i];
        if kept[i] == seq!['/'] {
            assert(pieces(s)[k][0] == '/');
        }
    }
    if !(s.len() > 0 && s[0] == '/') {
        assert forall|i: int| 0 <= i < components(s).len() implies #[trigger] components(s)[i]
            != seq!['/'] by {
            if i >= lead(s).len() {
                assert(components(s)[i] == kept[i - lead(s).len()]);
            } else {
                assert(seq!['.'][0] != seq!['/'][0]);
            }
        }
    }
    if plain(s) {
        join_adds_one_component(Seq::empty(), s);
        slashes_and_dots_lead_nowhere(s);
        assert(s[0] != '/');
        assert(joined(Seq::empty(), s) =~= s);
        assert(Seq::<Seq<char>>::empty().push(s) =~= seq![s]);
    }
}

/// An absolute path stands by itself, whatever it is joined to.
pub proof fn absolute_paths_stand_by_themselves(folder: Seq<char>, path: Seq<char>)
    requires
        path.len() > 0,
        path[0] == '/',
    ensures
        joined(folder, path) == path,
{
}

/// Cutting two texts with a slash between them cuts each.
proof fn pieces_of_two(a: Seq<char>, b: Seq<char>)
    ensures
        pieces(a.push('/') + b) == pieces(a) + pieces(b),
    decreases b.len(),
{
    let whole = a.push('/') + b;
    if b.len() == 0 {
        assert(whole =~= a.push('/'));
        assert(whole.drop_last() =~= a);
        assert(pieces(whole) =~= pieces(a) + pieces(b));
    } else {
        pieces_of_two(a, b.drop_last());
        pieces_not_empty(b.drop_last());
        assert(whole.drop_last() =~= a.push('/') + b.drop_last());
        assert(whole.last() == b.last());
        assert(pieces(whole) =~= pieces(a) + pieces(b));
    }
}

/// A way goes on behind a slash as it would go from the root, and what came
/// before stays as it was. A dot alone is where a relative path starts, and
/// leads from there as any other start does.
pub proof fn ways_go_on_behind_a_slash(s: Seq<char>, way: Seq<char>)
    ensures
        s.len() > 0 ==> components(s.push('/') + way) == components(s) + components(
            seq!['/'] + way,
        ).skip(1),
        way.len() > 0 && way[0] != '/' && way[0] != '.' ==> components(way) == components(
            seq!['/'] + way,
        ).skip(1),
        components(seq!['.']) == seq![seq!['.']],
        components(seq!['.', '/'] + way) == seq![seq!['.']] + components(seq!['/'] + way).skip(1),
{
    let keep = |p: Seq<char>| names_something(p);
    let none = Seq::<char>::empty();
    let dot = seq!['.'];
    let rooted = seq!['/'] + way;
    let named = pieces(way).filter(keep);
    nothing_is_named_by_one(none);
    nothing_is_named_by_one(dot);
    assert(rooted =~= none.push('/') + way);
    pieces_of_two(none, way);
    Seq::filter_distributes_over_add(seq![none], pieces(way), keep);
    assert(pieces(none) =~= seq![none]);
    assert(components(rooted).skip(1) =~= named);
    if s.len() > 0 {
        pieces_of_two(s, way);
        pieces_not_empty(s);
        Seq::filter_distributes_over_add(pieces(s), pieces(way), keep);
        assert((s.push('/') + way)[0] == s[0]);
        assert(components(s.push('/') + way) =~= components(s) + named);
    }
    if way.len() > 0 && way[0] != '/' && way[0] != '.' {
        first_piece_starts_the_text(way);
        assert(components(way) =~= named);
    }
    assert(dot.drop_last() =~= none);
    assert(pieces(dot) =~= seq![dot]) by {
        assert(none.push('.') =~= dot);
    }
    assert(components(dot) =~= seq![dot]);
    pieces_of_two(dot, way);
    Seq::filter_distributes_over_add(seq![dot], pieces(way), keep);
    assert(seq!['.', '/'] + way =~= dot.push('/') + way);
    assert(components(dot.push('/') + way) =~= seq![dot] + named);
}

proof fn nothing_is_named_by_one(piece: Seq<char>)
    requires
        !names_something(piece),
    ensures
        seq![piece].filter(|p: Seq<char>| names_something(p)) == Seq::<Seq<char>>::empty(),
{
    let keep = |p: Seq<char>| names_something(p);
    let kept = seq![piece].filter(keep);
    kept_is_kept(seq![piece], keep);
    if kept.len() > 0 {
        assert(seq![piece].contains(kept[0]));
    }
    assert(kept =~= Seq::empty());
}

proof fn first_piece_starts_the_text(s: Seq<char>)
    requires
        s.len() > 0,
        s[0] != '/',
    ensures
        pieces(s).len() > 0,
        pieces(s)[0].len() > 0,
        pieces(s)[0][0] == s[0],
    decreases s.len(),
{
    let front = s.drop_last();
    if front.len() == 0 {
        assert(pieces(front) =~= seq![Seq::<char>::empty()]);
    } else {
        first_piece_starts_the_text(front);
    }
}

} // verus!
