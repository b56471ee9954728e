//! Scanning a folder for images: which entries count, and how the found
//! files stream out in sorted batches.

use vstd::prelude::*;

use crate::order::{
    all_comparable, fits_beside, infos_comparable, infos_comparable_both_ways, insert_sorted,
    is_sorted, lexical_form, order_name, short_numbers, short_numbers_compare, FileInfo, SortOrder,
};
use crate::path::{
    extension, extension_of, extensions_follow_the_last_dot, file_name, joined,
    names_are_found_in_their_folder, names_without_a_dot_are_stems, plain, FilePath,
};
use crate::text::{ascii_lower, same_but_for_capitals};

verus! {

/// Whether an extension, in small letters, is one of an image format.
pub open spec fn image_extension(e: Seq<char>) -> bool {
    ||| e == "jpg"@
    ||| e == "jpeg"@
    ||| e == "png"@
    ||| e == "gif"@
    ||| e == "heic"@
    ||| e == "heif"@
    ||| e == "webp"@
    ||| e == "tif"@
    ||| e == "tiff"@
    ||| e == "bmp"@
    ||| e == "avif"@
    ||| e == "jxl"@
}

/// Whether a path names an image, by its extension.
pub open spec fn image_path(path: Seq<char>) -> bool {
    match file_name(path) {
        Some(name) => match extension_of(name) {
            Some(e) => image_extension(ascii_lower(e)),
            None => false,
        },
        None => false,
    }
}

/// Whether a path names an image, by its extension.
pub fn is_image(path: &FilePath) -> (image: bool)
    ensures
        image == image_path(path@),
{
    let name = match path.file_name() {
        Some(name) => name,
        None => {
            return false;
        },
    };
    let e = match extension(name.as_str()) {
        Some(e) => e,
        None => {
            return false;
        },
    };
    let e = e.as_str();
    same_but_for_capitals(e, "jpg") || same_but_for_capitals(e, "jpeg") || same_but_for_capitals(
        e,
        "png",
    ) || same_but_for_capitals(e, "gif") || same_but_for_capitals(e, "heic")
        || same_but_for_capitals(e, "heif") || same_but_for_capitals(e, "webp")
        || same_but_for_capitals(e, "tif") || same_but_for_capitals(e, "tiff")
        || same_but_for_capitals(e, "bmp") || same_but_for_capitals(e, "avif")
        || same_but_for_capitals(e, "jxl")
}

/// Whether a path may name an animated image, by its extension.
pub open spec fn animated_path(path: Seq<char>) -> bool {
    match file_name(path) {
        Some(name) => match extension_of(name) {
            Some(e) => ascii_lower(e) == "gif"@ || ascii_lower(e) == "webp"@,
            None => false,
        },
        None => false,
    }
}

/// Whether a path may name an animated image, by its extension.
pub fn is_animated_ext(path: &FilePath) -> (animated: bool)
    ensures
        animated == animated_path(path@),
{
    match path.file_name() {
        Some(name) => match extension(name.as_str()) {
            Some(e) => same_but_for_capitals(e.as_str(), "gif") || same_but_for_capitals(
                e.as_str(),
                "webp",
            ),
            None => false,
        },
        None => false,
    }
}

/// Whether an entry is hidden: its name starts with a dot, or it has none.
pub open spec fn hidden_path(path: Seq<char>) -> bool {
    match file_name(path) {
        Some(name) => name.len() > 0 && name[0] == '.',
        None => true,
    }
}

/// Whether an entry is hidden.
pub fn is_hidden(path: &FilePath) -> (hidden: bool)
    ensures
        hidden == hidden_path(path@),
{
    match path.file_name() {
        Some(name) => !name.as_str().is_empty() && name.as_str().get_char(0) == '.',
        None => true,
    }
}

/// How many found files make a batch.
pub const SCAN_BATCH: usize = 64;

/// The list after some inserts, each at its index, in order.
pub open spec fn replay(files: Seq<FileInfo>, inserts: Seq<(usize, FileInfo)>) -> Seq<FileInfo>
    decreases inserts.len(),
{
    if inserts.len() == 0 {
        files
    } else {
        replay(files, inserts.drop_last()).insert(inserts.last().0 as int, inserts.last().1)
    }
}

/// Whether each insert goes to a place that the list then has.
pub open spec fn replays(files: Seq<FileInfo>, inserts: Seq<(usize, FileInfo)>) -> bool {
    forall|k: int|
        0 <= k < inserts.len() ==> (#[trigger] inserts[k]).0 <= files.len() + k
}

/// Move the pending files into the sorted list, and say where each went.
/// Indices are valid when applied in order.
pub fn flush(sorted: &mut Vec<FileInfo>, pending: &mut Vec<FileInfo>) -> (inserts: Vec<
    (usize, FileInfo),
>)
    requires
        is_sorted(old(sorted)@, SortOrder::Name, false),
        all_comparable(old(sorted)@ + old(pending)@, SortOrder::Name),
    ensures
        final(pending)@ == Seq::<FileInfo>::empty(),
        inserts@.len() == old(pending)@.len(),
        forall|k: int|
            0 <= k < inserts@.len() ==> (#[trigger] inserts@[k]).1 == old(pending)@[k],
        replays(old(sorted)@, inserts@),
        final(sorted)@ == replay(old(sorted)@, inserts@),
        final(sorted)@.len() == old(sorted)@.len() + old(pending)@.len(),
        final(sorted)@.to_multiset() == (old(sorted)@ + old(pending)@).to_multiset(),
        is_sorted(final(sorted)@, SortOrder::Name, false),
        all_comparable(final(sorted)@, SortOrder::Name),
{
    let mut inserts: Vec<(usize, FileInfo)> = Vec::new();
    let ghost start = sorted@;
    let ghost batch = pending@;
    let ghost whole = start + batch;
    // Where each sorted file stands in the whole.
    let ghost mut from: Seq<int> = Seq::new(start.len(), |i: int| i);
    let mut k: usize = 0;
    assert(start + batch.take(0) =~= start);
    while k < pending.len()
        invariant
            k <= pending.len(),
            pending@ == batch,
            whole == start + batch,
            all_comparable(whole, SortOrder::Name),
            is_sorted(sorted@, SortOrder::Name, false),
            inserts@.len() == k,
            forall|m: int| 0 <= m < k ==> (#[trigger] inserts@[m]).1 == batch[m],
            replays(start, inserts@),
            sorted@ == replay(start, inserts@),
            sorted@.len() == start.len() + k,
            sorted@.to_multiset() == (start + batch.take(k as int)).to_multiset(),
            from.len() == sorted@.len(),
            forall|p: int|
                0 <= p < from.len() ==> 0 <= #[trigger] from[p] < start.len() + k && sorted@[p]
                    == whole[from[p]],
            forall|p: int, q: int|
                0 <= p < from.len() && 0 <= q < from.len() && p != q ==> #[trigger] from[p]
                    != #[trigger] from[q],
        decreases pending.len() - k,
    {
        let info = pending[k].clone();
        let ghost before = sorted@;
        let ghost done = inserts@;
        proof {
            let extended = before.push(info);
            assert forall|p: int, q: int|
                0 <= p < extended.len() && 0 <= q < extended.len() && p != q implies infos_comparable(
                #[trigger] extended[p],
                #[trigger] extended[q],
                SortOrder::Name,
            ) by {
                let a = if p < from.len() { from[p] } else { start.len() + k };
                let b = if q < from.len() { from[q] } else { start.len() + k };
                assert(infos_comparable(whole[a], whole[b], SortOrder::Name));
            }
        }
        let index = insert_sorted(sorted, info.clone(), SortOrder::Name, false);
        inserts.push((index, info));
        proof {
            assert(inserts@.drop_last() =~= done);
            from = from.insert(index as int, start.len() + k);
            assert(start + batch.take(k + 1) =~= (start + batch.take(k as int)).push(info));
            broadcast use vstd::seq_lib::group_to_multiset_ensures;

            vstd::seq_lib::to_multiset_insert(before, index as int, info);
        }
        k += 1;
    }
    proof {
        assert(start + batch.take(k as int) =~= whole);
        assert forall|p: int, q: int|
            0 <= p < sorted@.len() && 0 <= q < sorted@.len() && p != q implies infos_comparable(
            #[trigger] sorted@[p],
            #[trigger] sorted@[q],
            SortOrder::Name,
        ) by {
            assert(infos_comparable(whole[from[p]], whole[from[q]], SortOrder::Name));
        }
    }
    pending.clear();
    inserts
}

/// One entry of a folder, as the disk describes it.
pub struct Found {
    pub info: FileInfo,
    pub folder: bool,
}

/// What came of one entry.
pub enum Visit {
    /// The entry is hidden, or no image and no folder to walk.
    Skipped,
    /// A folder to walk later.
    Folder,
    /// An image that waits for its batch.
    Waiting,
    /// The image that filled a batch, which is now in the sorted list.
    Batch(Vec<(usize, FileInfo)>),
    /// An image that cannot be compared with another one: a number in the
    /// name of both does not fit.
    Unsortable,
}

/// A walk over a folder, and over everything under it when recursive.
pub struct Scan {
    recursive: bool,
    stack: Vec<FilePath>,
    pending: Vec<FileInfo>,
    sorted: Vec<FileInfo>,
}

/// Whether an entry is an image that the scan keeps.
pub open spec fn keeps(found: Found) -> bool {
    !hidden_path(found.info.path@) && !found.folder && image_path(found.info.path@)
}

/// Whether an image can be sorted among others.
pub open spec fn sortable_among(files: Seq<FileInfo>, info: FileInfo) -> bool {
    forall|j: int|
        0 <= j < files.len() ==> infos_comparable(info, #[trigger] files[j], SortOrder::Name)
}

impl Scan {
    /// Whether sub-folders are walked too.
    pub closed spec fn recursive(self) -> bool {
        self.recursive
    }

    /// The folders still to read, the next one last.
    pub closed spec fn folders(self) -> Seq<FilePath> {
        self.stack@
    }

    /// The images that wait for their batch.
    pub closed spec fn pending(self) -> Seq<FileInfo> {
        self.pending@
    }

    /// The images that went out, in order.
    pub closed spec fn sorted(self) -> Seq<FileInfo> {
        self.sorted@
    }

    /// Every image found so far.
    pub open spec fn images(self) -> Seq<FileInfo> {
        self.sorted() + self.pending()
    }

    /// What every operation keeps: the list is sorted, a full batch never
    /// waits, and every image can be sorted among the others.
    pub open spec fn well_formed(self) -> bool {
        &&& is_sorted(self.sorted(), SortOrder::Name, false)
        &&& all_comparable(self.images(), SortOrder::Name)
        &&& self.pending().len() < SCAN_BATCH
    }

    /// A walk that starts at `root`.
    pub fn new(root: FilePath, recursive: bool) -> (scan: Self)
        ensures
            scan.well_formed(),
            scan.recursive() == recursive,
            scan.folders() == seq![root],
            scan.pending() == Seq::<FileInfo>::empty(),
            scan.sorted() == Seq::<FileInfo>::empty(),
    {
        let mut stack: Vec<FilePath> = Vec::new();
        stack.push(root);
        let scan = Scan { recursive, stack, pending: Vec::new(), sorted: Vec::new() };
        assert(scan.stack@ =~= seq![root]);
        scan
    }

    /// The folder to read next, the one found last first.
    pub fn next_folder(&mut self) -> (folder: Option<FilePath>)
        requires
            old(self).well_formed(),
        ensures
            final(self).well_formed(),
            final(self).recursive() == old(self).recursive(),
            final(self).pending() == old(self).pending(),
            final(self).sorted() == old(self).sorted(),
            match folder {
                Some(f) => old(self).folders().len() > 0 && f == old(self).folders().last()
                    && final(self).folders() == old(self).folders().drop_last(),
                None => old(self).folders().len() == 0 && final(self).folders() == old(
                    self,
                ).folders(),
            },
    {
        self.stack.pop()
    }

    /// Take in one entry of the folder that is being read.
    pub fn visit(&mut self, found: Found) -> (visit: Visit)
        requires
            old(self).well_formed(),
        ensures
            final(self).well_formed(),
            final(self).recursive() == old(self).recursive(),
            visit is Folder <==> !hidden_path(found.info.path@) && found.folder && old(
                self,
            ).recursive(),
            visit is Unsortable <==> keeps(found) && !sortable_among(
                old(self).images(),
                found.info,
            ),
            visit is Waiting <==> keeps(found) && sortable_among(old(self).images(), found.info)
                && old(self).pending().len() + 1 < SCAN_BATCH,
            visit is Batch <==> keeps(found) && sortable_among(old(self).images(), found.info)
                && old(self).pending().len() + 1 == SCAN_BATCH,
            final(self).folders() == (if visit is Folder {
                old(self).folders().push(found.info.path)
            } else {
                old(self).folders()
            }),
            match visit {
                Visit::Waiting => {
                    &&& final(self).pending() == old(self).pending().push(found.info)
                    &&& final(self).sorted() == old(self).sorted()
                },
                Visit::Batch(inserts) => {
                    let batch = old(self).pending().push(found.info);
                    &&& final(self).pending() == Seq::<FileInfo>::empty()
                    &&& inserts@.len() == batch.len()
                    &&& forall|k: int|
                        0 <= k < inserts@.len() ==> (#[trigger] inserts@[k]).1 == batch[k]
                    &&& replays(old(self).sorted(), inserts@)
                    &&& final(self).sorted() == replay(old(self).sorted(), inserts@)
                },
                _ => {
                    &&& final(self).pending() == old(self).pending()
                    &&& final(self).sorted() == old(self).sorted()
                },
            },
            final(self).images().to_multiset() == (if visit is Waiting || visit is Batch {
                old(self).images().to_multiset().insert(found.info)
            } else {
                old(self).images().to_multiset()
            }),
    {
        if is_hidden(&found.info.path) {
            return Visit::Skipped;
        }
        if found.folder {
            if self.recursive {
                self.stack.push(found.info.path);
                return Visit::Folder;
            }
            return Visit::Skipped;
        }
        if !is_image(&found.info.path) {
            return Visit::Skipped;
        }
        let ghost images = self.images();
        let ghost info = found.info;
        let beside_sorted = fits_beside(
            &self.sorted,
            self.sorted.len(),
            &found.info,
            SortOrder::Name,
        );
        let beside_pending = fits_beside(
            &self.pending,
            self.pending.len(),
            &found.info,
            SortOrder::Name,
        );
        proof {
            assert forall|j: int| 0 <= j < self.sorted@.len() implies #[trigger] self.sorted@[j]
                == images[j] by {}
            assert forall|j: int| 0 <= j < self.pending@.len() implies #[trigger] self.pending@[j]
                == images[self.sorted@.len() + j] by {}
            if beside_sorted && beside_pending {
                assert(sortable_among(images, info));
            }
            if sortable_among(images, info) {
                assert forall|j: int| 0 <= j < self.sorted@.len() implies infos_comparable(
                    info,
                    #[trigger] self.sorted@[j],
                    SortOrder::Name,
                ) by {
                    assert(infos_comparable(info, images[j], SortOrder::Name));
                }
                assert forall|j: int| 0 <= j < self.pending@.len() implies infos_comparable(
                    info,
                    #[trigger] self.pending@[j],
                    SortOrder::Name,
                ) by {
                    assert(infos_comparable(
                        info,
                        images[self.sorted@.len() + j],
                        SortOrder::Name,
                    ));
                }
            }
        }
        if !(beside_sorted && beside_pending) {
            return Visit::Unsortable;
        }
        self.pending.push(found.info);
        proof {
            assert(self.images() =~= images.push(info));
            broadcast use vstd::seq_lib::group_to_multiset_ensures;

            assert(self.images().to_multiset() == images.to_multiset().insert(info));
            assert forall|i: int, j: int|
                0 <= i < self.images().len() && 0 <= j < self.images().len() && i
                    != j implies infos_comparable(
                #[trigger] self.images()[i],
                #[trigger] self.images()[j],
                SortOrder::Name,
            ) by {
                if i == images.len() {
                    assert(infos_comparable(info, images[j], SortOrder::Name));
                } else if j == images.len() {
                    assert(infos_comparable(info, images[i], SortOrder::Name));
                    infos_comparable_both_ways(info, images[i], SortOrder::Name);
                } else {
                    assert(infos_comparable(images[i], images[j], SortOrder::Name));
                }
            }
        }
        if self.pending.len() >= SCAN_BATCH {
            let inserts = flush(&mut self.sorted, &mut self.pending);
            assert(self.images() =~= self.sorted@);
            return Visit::Batch(inserts);
        }
        Visit::Waiting
    }

    /// The end of the walk: the images that still wait go out, and the
    /// number of all is known.
    pub fn finish(&mut self) -> (end: (Vec<(usize, FileInfo)>, usize))
        requires
            old(self).well_formed(),
        ensures
            final(self).well_formed(),
            final(self).recursive() == old(self).recursive(),
            final(self).folders() == old(self).folders(),
            final(self).pending() == Seq::<FileInfo>::empty(),
            end.0@.len() == old(self).pending().len(),
            forall|k: int|
                0 <= k < end.0@.len() ==> (#[trigger] end.0@[k]).1 == old(self).pending()[k],
            replays(old(self).sorted(), end.0@),
            final(self).sorted() == replay(old(self).sorted(), end.0@),
            final(self).sorted().to_multiset() == old(self).images().to_multiset(),
            end.1 == final(self).sorted().len(),
            end.1 == old(self).images().len(),
    {
        let inserts = flush(&mut self.sorted, &mut self.pending);
        assert(self.images() =~= self.sorted@);
        let total = self.sorted.len();
        (inserts, total)
    }
}

/// A file in a folder is an image exactly where its extension, capitals or
/// not, is one of those that the app reads; gif and webp may be animated.
pub proof fn images_go_by_their_extension(folder: Seq<char>, stem: Seq<char>, ext: Seq<char>)
    requires
        stem.len() > 0,
        forall|i: int| 0 <= i < stem.len() ==> #[trigger] stem[i] != '/',
        forall|i: int| 0 <= i < ext.len() ==> #[trigger] ext[i] != '/' && ext[i] != '.',
        ext.len() > 0,
    ensures
        ({
            let path = joined(folder, stem + seq!['.'] + ext);
            let small = ascii_lower(ext);
            &&& image_path(path) <==> small == "jpg"@ || small == "jpeg"@ || small == "png"@
                || small == "gif"@ || small == "heic"@ || small == "heif"@ || small == "webp"@
                || small == "tif"@ || small == "tiff"@ || small == "bmp"@ || small == "avif"@
                || small == "jxl"@
            &&& animated_path(path) <==> small == "gif"@ || small == "webp"@
            &&& animated_path(path) ==> image_path(path)
            &&& hidden_path(path) <==> stem[0] == '.'
        }),
{
    let name = stem + seq!['.'] + ext;
    assert(name[0] == stem[0]);
    assert(name.len() >= 3);
    assert forall|i: int| 0 <= i < name.len() implies #[trigger] name[i] != '/' by {
        if i < stem.len() {
            assert(name[i] == stem[i]);
        } else if i > stem.len() {
            assert(name[i] == ext[i - stem.len() - 1]);
        }
    }
    extensions_follow_the_last_dot(stem, ext);
    names_are_found_in_their_folder(folder, name);
}

/// A name without an extension is no image, and one with a dot in front is
/// hidden.
pub proof fn names_without_an_extension_are_no_images(folder: Seq<char>, name: Seq<char>)
    requires
        plain(name),
        name != seq!['.', '.'],
        forall|i: int| 0 < i < name.len() ==> #[trigger] name[i] != '.',
    ensures
        !image_path(joined(folder, name)),
        !animated_path(joined(folder, name)),
        hidden_path(joined(folder, name)) <==> name[0] == '.',
{
    names_without_a_dot_are_stems(name);
    names_are_found_in_their_folder(folder, name);
}

/// A scan keeps the images that are not hidden, and nothing else.
pub proof fn scans_keep_images(found: Found)
    ensures
        keeps(found) <==> image_path(found.info.path@) && !hidden_path(found.info.path@)
            && !found.folder,
{
}

/// An image whose name and path hold no number of twenty digits is never left
/// out.
pub proof fn short_numbers_are_never_left_out(files: Seq<FileInfo>, info: FileInfo)
    requires
        short_numbers(lexical_form(info.path@)),
        short_numbers(lexical_form(order_name(info.path@))),
    ensures
        sortable_among(files, info),
        lexical_form(info.path@).len() < 20 ==> short_numbers(lexical_form(info.path@)),
{
    assert forall|j: int| 0 <= j < files.len() implies infos_comparable(
        info,
        #[trigger] files[j],
        SortOrder::Name,
    ) by {
        short_numbers_compare(lexical_form(info.path@), lexical_form(files[j].path@));
        short_numbers_compare(
            lexical_form(order_name(info.path@)),
            lexical_form(order_name(files[j].path@)),
        );
    }
}

} // verus!
