use wene::path::FilePath;
use wene::transfer::{
    name_with_number, Outcome, Step, Transfer, TransferError, Transferred, NAMES,
};

/// A disk in memory: the files, by their paths.
struct Disk {
    files: Vec<(FilePath, String)>,
    /// Whether renames fail because the paths are on different disks.
    two_disks: bool,
}

impl Disk {
    fn new(files: &[(&str, &str)]) -> Disk {
        let files = files.iter().map(|(p, t)| (FilePath::new(p), t.to_string())).collect();
        Disk { files, two_disks: false }
    }

    fn place(&self, path: &FilePath) -> Option<usize> {
        self.files.iter().position(|(p, _)| p.same(path))
    }

    fn read(&self, path: &str) -> Option<&str> {
        self.place(&FilePath::new(path)).map(|i| self.files[i].1.as_str())
    }

    fn take(&mut self, path: &FilePath) -> Option<String> {
        self.place(path).map(|i| self.files.remove(i).1)
    }

    fn write(&mut self, path: &FilePath, text: String) {
        self.take(path);
        self.files.push((path.clone(), text));
    }

    fn perform(&mut self, step: &Step) -> Outcome {
        match step {
            Step::Claim(path) => {
                if self.place(path).is_some() {
                    return Outcome::Taken;
                }
                self.write(path, String::new());
                Outcome::Done
            }
            Step::Rename { source, target } => {
                if self.two_disks {
                    return Outcome::OtherDisk;
                }
                match self.take(source) {
                    Some(text) => {
                        self.write(target, text);
                        Outcome::Done
                    }
                    None => Outcome::Failed,
                }
            }
            Step::CopyOver { source, target } => match self.place(source) {
                Some(i) => {
                    let text = self.files[i].1.clone();
                    self.write(target, text);
                    Outcome::Done
                }
                None => Outcome::Failed,
            },
            Step::DeleteSource(path) | Step::Unclaim(path) => match self.take(path) {
                Some(_) => Outcome::Done,
                None => Outcome::Failed,
            },
            Step::Done(_) | Step::Failed(_) => Outcome::Done,
        }
    }

    fn apply(
        &mut self,
        transfer: Transfer,
        source: &str,
        folder: &str,
    ) -> Result<Transferred, TransferError> {
        let mut job = transfer.apply(FilePath::new(source), FilePath::new(folder));
        loop {
            let step = job.step();
            match step {
                Step::Done(done) => return Ok(done),
                Step::Failed(error) => return Err(error),
                _ => {
                    let outcome = self.perform(&step);
                    job = job.next(outcome);
                }
            }
        }
    }
}

#[test]
fn move_takes_the_file_across() {
    let mut disk = Disk::new(&[("/move-from/a.heic", "one")]);
    let done = disk.apply(Transfer::Move, "/move-from/a.heic", "/move-to").ok().unwrap();
    assert_eq!(done.target.as_text(), "/move-to/a.heic");
    assert!(!done.renamed);
    assert_eq!(disk.read("/move-from/a.heic"), None);
    assert_eq!(disk.read(done.target.as_text()), Some("one"));
}

#[test]
fn copy_leaves_the_original() {
    let mut disk = Disk::new(&[("/copy-from/a.heic", "one")]);
    let done = disk.apply(Transfer::Copy, "/copy-from/a.heic", "/copy-to").ok().unwrap();
    assert_eq!(disk.read("/copy-from/a.heic"), Some("one"));
    assert_eq!(disk.read(done.target.as_text()), Some("one"));
}

#[test]
fn a_taken_name_keeps_both_files() {
    let mut disk =
        Disk::new(&[("/clash-to/a.heic", "theirs"), ("/clash-from/a.heic", "mine")]);
    let done = disk.apply(Transfer::Move, "/clash-from/a.heic", "/clash-to").ok().unwrap();
    assert!(done.renamed);
    assert_eq!(done.target.as_text(), "/clash-to/a 2.heic");
    assert_eq!(disk.read("/clash-to/a.heic"), Some("theirs"));
    assert_eq!(disk.read("/clash-to/a 2.heic"), Some("mine"));
}

#[test]
fn the_counter_keeps_counting() {
    let mut disk = Disk::new(&[
        ("/count-to/a.heic", "one"),
        ("/count-to/a 2.heic", "two"),
        ("/count-from/a.heic", "three"),
    ]);
    let done = disk.apply(Transfer::Copy, "/count-from/a.heic", "/count-to").ok().unwrap();
    assert_eq!(done.target.as_text(), "/count-to/a 3.heic");
}

#[test]
fn a_file_with_no_extension_still_gets_a_number() {
    let mut disk = Disk::new(&[("/bare-to/a", "theirs"), ("/bare-from/a", "mine")]);
    let done = disk.apply(Transfer::Copy, "/bare-from/a", "/bare-to").ok().unwrap();
    assert_eq!(done.target.as_text(), "/bare-to/a 2");
}

#[test]
fn moving_a_file_into_its_own_folder_changes_nothing() {
    let mut disk = Disk::new(&[("/same-folder/a.heic", "one")]);
    let done =
        disk.apply(Transfer::Move, "/same-folder/a.heic", "/same-folder").ok().unwrap();
    assert_eq!(done.target.as_text(), "/same-folder/a.heic");
    assert!(!done.renamed);
    assert_eq!(disk.files.len(), 1);
    assert_eq!(disk.read("/same-folder/a.heic"), Some("one"));
}

#[test]
fn a_failed_transfer_leaves_no_empty_file_behind() {
    let mut disk = Disk::new(&[]);
    assert!(disk.apply(Transfer::Copy, "/fail-from/gone.heic", "/fail-to").is_err());
    assert_eq!(disk.read("/fail-to/gone.heic"), None);
}

#[test]
fn a_move_to_another_disk_copies_and_deletes() {
    let mut disk = Disk::new(&[("/from/a.heic", "one"), ("/to/a.heic", "two")]);
    disk.two_disks = true;
    let done = disk.apply(Transfer::Move, "/from/a.heic", "/to").ok().unwrap();
    assert_eq!(done.target.as_text(), "/to/a 2.heic");
    assert_eq!(disk.read("/from/a.heic"), None);
    assert_eq!(disk.read("/to/a.heic"), Some("two"));
    assert_eq!(disk.read("/to/a 2.heic"), Some("one"));
}

#[test]
fn a_copy_into_the_own_folder_gets_a_number() {
    let mut disk = Disk::new(&[("/here/a.heic", "one")]);
    let done = disk.apply(Transfer::Copy, "/here/a.heic", "/here").ok().unwrap();
    assert_eq!(done.target.as_text(), "/here/a 2.heic");
    assert!(done.renamed);
}

#[test]
fn a_thousand_taken_names_are_enough() {
    let mut disk = Disk::new(&[("/from/a.heic", "one"), ("/to/a.heic", "x")]);
    for number in 2..NAMES {
        disk.write(&FilePath::new(&format!("/to/a {number}.heic")), "x".to_string());
    }
    assert!(matches!(
        disk.apply(Transfer::Move, "/from/a.heic", "/to"),
        Err(TransferError::NoFreeName)
    ));
    assert_eq!(disk.read("/from/a.heic"), Some("one"));
    disk.take(&FilePath::new("/to/a 999.heic"));
    let done = disk.apply(Transfer::Move, "/from/a.heic", "/to").ok().unwrap();
    assert_eq!(done.target.as_text(), "/to/a 999.heic");
}

#[test]
fn a_path_without_a_name_cannot_be_sent() {
    let mut disk = Disk::new(&[]);
    assert!(matches!(
        disk.apply(Transfer::Copy, "/", "/to"),
        Err(TransferError::NoFileName)
    ));
    assert!(matches!(disk.apply(Transfer::Copy, "/a/..", "/to"), Err(TransferError::NoFileName)));
}

#[test]
fn a_disk_that_refuses_stops_the_transfer() {
    let job = Transfer::Move.apply(FilePath::new("/from/a.heic"), FilePath::new("/to"));
    assert!(matches!(job.step(), Step::Claim(_)));
    let job = job.next(Outcome::Failed);
    assert!(matches!(job.step(), Step::Failed(TransferError::Disk)));

    // A delete that fails takes the copy back.
    let job = Transfer::Move.apply(FilePath::new("/from/a.heic"), FilePath::new("/to"));
    let job = job.next(Outcome::Done).next(Outcome::OtherDisk).next(Outcome::Done);
    assert!(matches!(job.step(), Step::DeleteSource(_)));
    let job = job.next(Outcome::Failed);
    assert!(matches!(job.step(), Step::Unclaim(_)));
    assert!(matches!(job.next(Outcome::Done).step(), Step::Failed(TransferError::Disk)));
}

#[test]
fn numbers_go_before_the_extension() {
    assert_eq!(name_with_number("IMG_1234.heic", 1), "IMG_1234.heic");
    assert_eq!(name_with_number("IMG_1234.heic", 2), "IMG_1234 2.heic");
    assert_eq!(name_with_number("a.b.jpg", 10), "a.b 10.jpg");
    assert_eq!(name_with_number(".hidden", 2), ".hidden 2");
    assert_eq!(name_with_number("dot.", 2), "dot 2.");
}

#[test]
fn words_for_the_work() {
    assert_eq!(Transfer::Move.present(), "Moving");
    assert_eq!(Transfer::Copy.present(), "Copying");
    assert_eq!(Transfer::Move.past(), "Moved");
    assert_eq!(Transfer::Copy.past(), "Copied");
}

#[test]
fn a_file_that_is_not_there_leaves_the_others_alone() {
    let mut disk = Disk::new(&[("/to/gone.heic", "other")]);
    assert!(disk.apply(Transfer::Move, "/from/gone.heic", "/to").is_err());
    assert_eq!(disk.read("/to/gone.heic"), Some("other"));
    assert_eq!(disk.read("/to/gone 2.heic"), None);
    assert_eq!(disk.read("/from/gone.heic"), None);
}
