//! Moving and copying image files to a target folder.
//!
//! Nothing is ever replaced. A name already taken in the target folder gets
//! Finder's treatment: "IMG_1234.heic" arrives as "IMG_1234 2.heic". The new
//! name is claimed by creating the file first, so two batches running at once
//! cannot pick the same one. A move across disks is a copy and then a delete.
//!
//! A [`TransferJob`] says what to do on the disk next; the caller does it and
//! says how it went.

use vstd::prelude::*;

use crate::path::{
    components, extension, extension_of, extensions_follow_the_last_dot, file_name,
    file_names_are_plain, is_name, join_adds_one_component, joined, last_dot,
    names_are_stem_and_extension, names_without_a_dot_are_stems, parent, stem, stem_of, FilePath,
};
use crate::scan::{animated_path, image_path};
use crate::text::{decimal, decimal_is_not_empty, decimal_tells_numbers_apart, push_decimal};

verus! {

/// Move or copy: the same job apart from what happens to the original.
#[derive(Clone, Copy, Debug, PartialEq, Eq, Structural)]
pub enum Transfer {
    Move,
    Copy,
}

/// What one file's transfer did.
pub struct Transferred {
    /// Where the file ended up.
    pub target: FilePath,
    /// True when the target folder already held that name.
    pub renamed: bool,
}

/// Why a transfer came to nothing.
#[derive(Clone, Copy, Debug, PartialEq, Eq, Structural)]
pub enum TransferError {
    /// The source path names no file.
    NoFileName,
    /// Every name that is tried in the target folder is taken.
    NoFreeName,
    /// The disk refused an operation.
    Disk,
}

/// What to do on the disk next.
pub enum Step {
    /// Create a file that must not exist yet.
    Claim(FilePath),
    /// Rename the source onto the claimed file.
    Rename { source: FilePath, target: FilePath },
    /// Copy the source over the claimed file.
    CopyOver { source: FilePath, target: FilePath },
    /// Delete the source, which has been copied.
    DeleteSource(FilePath),
    /// Delete the claimed file.
    Unclaim(FilePath),
    Done(Transferred),
    Failed(TransferError),
}

/// How a step on the disk went.
#[derive(Clone, Copy, Debug, PartialEq, Eq, Structural)]
pub enum Outcome {
    Done,
    /// Something already holds the name.
    Taken,
    /// The two paths are on different disks.
    OtherDisk,
    Failed,
}

/// How far a transfer has come.
pub enum Phase {
    /// Looking for a free name; the number of the name that is tried.
    Claiming(u32),
    /// Renaming the source onto the claim.
    Renaming(FilePath, bool),
    /// Copying, and keeping the source or not.
    Copying(FilePath, bool),
    /// Deleting the source of a copy.
    Deleting(FilePath, bool),
    /// Taking the claim back.
    Unclaiming(FilePath),
    Finished(FilePath, bool),
    Stopped(TransferError),
}

/// One file on its way.
pub struct TransferJob {
    pub transfer: Transfer,
    pub source: FilePath,
    pub folder: FilePath,
    pub phase: Phase,
}

/// The first number that no name gets.
pub const NAMES: u32 = 1000;

/// An extension with its dot, or nothing.
pub open spec fn dotted(e: Option<Seq<char>>) -> Seq<char> {
    match e {
        Some(e) => seq!['.'] + e,
        None => Seq::empty(),
    }
}

/// The name that a file gets in the target folder: its own at first, then
/// one with a number, counting from 2.
pub open spec fn numbered_name(name: Seq<char>, number: nat) -> Seq<char> {
    if number <= 1 {
        name
    } else {
        stem_of(name) + seq![' '] + decimal(number) + dotted(extension_of(name))
    }
}

/// The path that is tried under a number.
pub open spec fn candidate(source: Seq<char>, folder: Seq<char>, number: nat) -> Seq<char> {
    match file_name(source) {
        Some(name) => joined(folder, numbered_name(name, number)),
        None => folder,
    }
}

impl Transfer {
    /// "Moving" or "Copying", for a line reporting work in progress.
    pub fn present(self) -> (text: &'static str)
        ensures
            text@ == (match self {
                Transfer::Move => "Moving"@,
                Transfer::Copy => "Copying"@,
            }),
    {
        match self {
            Transfer::Move => "Moving",
            Transfer::Copy => "Copying",
        }
    }

    /// "Moved" or "Copied", for a line reporting work that is done.
    pub fn past(self) -> (text: &'static str)
        ensures
            text@ == (match self {
                Transfer::Move => "Moved"@,
                Transfer::Copy => "Copied"@,
            }),
    {
        match self {
            Transfer::Move => "Moved",
            Transfer::Copy => "Copied",
        }
    }

    /// The phase that a transfer starts in.
    pub open spec fn first_phase(self, source: FilePath, folder: FilePath) -> Phase {
        if self == Transfer::Move && parent(source@) == Some(components(folder@)) {
            Phase::Finished(source, false)
        } else if file_name(source@) is None {
            Phase::Stopped(TransferError::NoFileName)
        } else {
            Phase::Claiming(1)
        }
    }

    /// Start sending one file to `folder`, keeping both files on a
    /// collision.
    pub fn apply(self, source: FilePath, folder: FilePath) -> (job: TransferJob)
        ensures
            job == (TransferJob {
                transfer: self,
                source,
                folder,
                phase: self.first_phase(source, folder),
            }),
    {
        // A move into the folder the file is already in is nothing at all.
        // Without this it would rename the file beside itself.
        let phase = if self == Transfer::Move && source.lies_in(&folder) {
            Phase::Finished(source.clone(), false)
        } else if source.file_name().is_none() {
            Phase::Stopped(TransferError::NoFileName)
        } else {
            Phase::Claiming(1)
        };
        TransferJob { transfer: self, source, folder, phase }
    }
}

/// The name that a file gets under a number.
pub fn name_with_number(name: &str, number: u32) -> (out: String)
    ensures
        out@ == numbered_name(name@, number as nat),
{
    if number <= 1 {
        return name.to_owned();
    }
    let mut out = stem(name);
    proof {
        reveal_strlit(" ");
        reveal_strlit(".");
    }
    out.append(" ");
    push_decimal(&mut out, number as u64);
    match extension(name) {
        Some(e) => {
            out.append(".");
            out.append(e.as_str());
        },
        None => {},
    }
    assert(out@ =~= numbered_name(name@, number as nat));
    out
}

impl TransferJob {
    /// What to do next, as a relation: texts are compared by their
    /// characters.
    pub open spec fn calls_for(self, step: Step) -> bool {
        match self.phase {
            Phase::Claiming(number) => step matches Step::Claim(path) && path@ == candidate(
                self.source@,
                self.folder@,
                number as nat,
            ),
            Phase::Renaming(target, _) => step == (Step::Rename { source: self.source, target }),
            Phase::Copying(target, _) => step == (Step::CopyOver { source: self.source, target }),
            Phase::Deleting(_, _) => step == Step::DeleteSource(self.source),
            Phase::Unclaiming(target) => step == Step::Unclaim(target),
            Phase::Finished(target, renamed) => step == Step::Done(
                Transferred { target, renamed },
            ),
            Phase::Stopped(error) => step == Step::Failed(error),
        }
    }

    /// What to do next.
    pub fn step(&self) -> (step: Step)
        requires
            self.phase is Claiming ==> file_name(self.source@) is Some,
        ensures
            self.calls_for(step),
    {
        match &self.phase {
            Phase::Claiming(number) => Step::Claim(self.claim_path(*number)),
            Phase::Renaming(target, _) => Step::Rename {
                source: self.source.clone(),
                target: target.clone(),
            },
            Phase::Copying(target, _) => Step::CopyOver {
                source: self.source.clone(),
                target: target.clone(),
            },
            Phase::Deleting(_, _) => Step::DeleteSource(self.source.clone()),
            Phase::Unclaiming(target) => Step::Unclaim(target.clone()),
            Phase::Finished(target, renamed) => Step::Done(
                Transferred { target: target.clone(), renamed: *renamed },
            ),
            Phase::Stopped(error) => Step::Failed(*error),
        }
    }

    /// The path to claim under a number.
    fn claim_path(&self, number: u32) -> (path: FilePath)
        requires
            file_name(self.source@) is Some,
        ensures
            path@ == candidate(self.source@, self.folder@, number as nat),
    {
        match self.source.file_name() {
            Some(name) => self.folder.join(name_with_number(name.as_str(), number).as_str()),
            None => self.folder.clone(),
        }
    }

    /// Whether `after` is the phase that follows on an outcome.
    pub open spec fn leads_to(self, outcome: Outcome, after: Phase) -> bool {
        match self.phase {
            Phase::Claiming(number) => match outcome {
                Outcome::Done => match self.transfer {
                    Transfer::Move => after matches Phase::Renaming(target, renamed) && target@
                        == candidate(self.source@, self.folder@, number as nat) && renamed == (
                    number > 1),
                    Transfer::Copy => after matches Phase::Copying(target, renamed) && target@
                        == candidate(self.source@, self.folder@, number as nat) && renamed == (
                    number > 1),
                },
                Outcome::Taken => if number + 1 < NAMES {
                    after == Phase::Claiming((number + 1) as u32)
                } else {
                    after == Phase::Stopped(TransferError::NoFreeName)
                },
                _ => after == Phase::Stopped(TransferError::Disk),
            },
            Phase::Renaming(target, renamed) => match outcome {
                Outcome::Done => after == Phase::Finished(target, renamed),
                Outcome::OtherDisk => after == Phase::Copying(target, renamed),
                _ => after == Phase::Unclaiming(target),
            },
            Phase::Copying(target, renamed) => match (outcome, self.transfer) {
                (Outcome::Done, Transfer::Move) => after == Phase::Deleting(target, renamed),
                (Outcome::Done, Transfer::Copy) => after == Phase::Finished(target, renamed),
                _ => after == Phase::Unclaiming(target),
            },
            Phase::Deleting(target, renamed) => match outcome {
                Outcome::Done => after == Phase::Finished(target, renamed),
                _ => after == Phase::Unclaiming(target),
            },
            Phase::Unclaiming(_) => after == Phase::Stopped(TransferError::Disk),
            Phase::Finished(_, _) => after == self.phase,
            Phase::Stopped(_) => after == self.phase,
        }
    }

    /// Go on, given how the last step went.
    pub fn next(self, outcome: Outcome) -> (job: TransferJob)
        requires
            self.phase is Claiming ==> file_name(self.source@) is Some,
        ensures
            job.transfer == self.transfer,
            job.source == self.source,
            job.folder == self.folder,
            self.leads_to(outcome, job.phase),
    {
        let transfer = self.transfer;
        let phase = match &self.phase {
            Phase::Claiming(number) => match outcome {
                Outcome::Done => {
                    let target = self.claim_path(*number);
                    match transfer {
                        // rename replaces the claimed file.
                        Transfer::Move => Phase::Renaming(target, *number > 1),
                        Transfer::Copy => Phase::Copying(target, *number > 1),
                    }
                },
                Outcome::Taken => if *number < NAMES - 1 {
                    // Finder counts from 2 and keeps counting.
                    Phase::Claiming(*number + 1)
                } else {
                    Phase::Stopped(TransferError::NoFreeName)
                },
                _ => Phase::Stopped(TransferError::Disk),
            },
            Phase::Renaming(target, renamed) => match outcome {
                Outcome::Done => Phase::Finished(target.clone(), *renamed),
                // Another disk cannot be renamed onto, so the file is copied
                // and then deleted.
                Outcome::OtherDisk => Phase::Copying(target.clone(), *renamed),
                _ => Phase::Unclaiming(target.clone()),
            },
            Phase::Copying(target, renamed) => if outcome == Outcome::Done {
                match transfer {
                    Transfer::Move => Phase::Deleting(target.clone(), *renamed),
                    Transfer::Copy => Phase::Finished(target.clone(), *renamed),
                }
            } else {
                // The claim was ours, so take it back.
                Phase::Unclaiming(target.clone())
            },
            Phase::Deleting(target, renamed) => if outcome == Outcome::Done {
                Phase::Finished(target.clone(), *renamed)
            } else {
                Phase::Unclaiming(target.clone())
            },
            Phase::Unclaiming(_) => Phase::Stopped(TransferError::Disk),
            Phase::Finished(target, renamed) => Phase::Finished(target.clone(), *renamed),
            Phase::Stopped(error) => Phase::Stopped(*error),
        };
        TransferJob { transfer, source: self.source, folder: self.folder, phase }
    }
}

proof fn last_dot_in_range(name: Seq<char>)
    ensures
        -1 <= last_dot(name) < name.len(),
        last_dot(name) >= 0 ==> name[last_dot(name)] == '.',
    decreases name.len(),
{
    if name.len() > 0 && name.last() != '.' {
        last_dot_in_range(name.drop_last());
    }
}

/// Every name that is tried lies directly in the target folder.
pub proof fn candidates_lie_in_the_folder(source: Seq<char>, folder: Seq<char>, number: nat)
    requires
        file_name(source) is Some,
    ensures
        components(candidate(source, folder, number)) == components(folder).push(
            numbered_name(file_name(source)->0, number),
        ),
{
    let name = file_name(source)->0;
    let new_name = numbered_name(name, number);
    file_names_are_plain(source);
    last_dot_in_range(name);
    decimal_is_not_empty(number);
    if number > 1 {
        let s = stem_of(name);
        let space = s.len() as int;
        assert(new_name[space] == ' ');
        assert forall|i: int| 0 <= i < new_name.len() implies #[trigger] new_name[i] != '/' by {
            let d = decimal(number);
            let e = dotted(extension_of(name));
            if i < space {
                assert(new_name[i] == name[i]);
            } else if i == space {
            } else if i < space + 1 + d.len() {
                assert(new_name[i] == d[i - space - 1]);
            } else {
                let k = i - space - 1 - d.len();
                assert(new_name[i] == e[k]);
                if k > 0 {
                    assert(e[k] == name[last_dot(name) + k]);
                }
            }
        }
        assert(new_name != seq!['.']) by {
            if new_name == seq!['.'] {
                assert(new_name[space] == '.');
            }
        }
    }
    join_adds_one_component(folder, new_name);
}

/// No name is tried twice.
pub proof fn candidates_differ(source: Seq<char>, folder: Seq<char>, a: nat, b: nat)
    requires
        file_name(source) is Some,
        1 <= a < b,
    ensures
        components(candidate(source, folder, a)) != components(candidate(source, folder, b)),
{
    let name = file_name(source)->0;
    let x = numbered_name(name, a);
    let y = numbered_name(name, b);
    candidates_lie_in_the_folder(source, folder, a);
    candidates_lie_in_the_folder(source, folder, b);
    last_dot_in_range(name);
    decimal_is_not_empty(a);
    decimal_is_not_empty(b);
    let s = stem_of(name).len() as int;
    let e = dotted(extension_of(name)).len() as int;
    assert(s + e == name.len());
    if x == y {
        if a > 1 {
            let da = decimal(a);
            let db = decimal(b);
            assert(da.len() == db.len());
            assert forall|i: int| 0 <= i < da.len() implies da[i] == db[i] by {
                assert(x[s + 1 + i] == da[i]);
                assert(y[s + 1 + i] == db[i]);
            }
            assert(da =~= db);
            decimal_tells_numbers_apart(a, b);
        }
    }
    assert(components(folder).push(x).last() == x);
    assert(components(folder).push(y).last() == y);
}

/// Whatever holds a name on a disk, by the components of its path, with its
/// contents.
pub type Disk = Map<Seq<Seq<char>>, Seq<u8>>;

/// What a step may make of a disk, given how it went: a claim creates a file
/// that was not there, or finds the name held, a rename takes the contents
/// along, a failed copy may have written something to its target, and any
/// other failure changes nothing.
pub open spec fn may_become(step: Step, outcome: Outcome, before: Disk, after: Disk) -> bool {
    match step {
        Step::Claim(path) => if outcome == Outcome::Done {
            &&& !before.dom().contains(components(path@))
            &&& after == before.insert(components(path@), Seq::empty())
        } else {
            &&& outcome == Outcome::Taken ==> before.dom().contains(components(path@))
            &&& after == before
        },
        Step::Rename { source, target } => if outcome == Outcome::Done {
            &&& before.dom().contains(components(source@))
            &&& after == before.remove(components(source@)).insert(
                components(target@),
                before[components(source@)],
            )
        } else {
            after == before
        },
        Step::CopyOver { source, target } => if outcome == Outcome::Done {
            &&& before.dom().contains(components(source@))
            &&& after == before.insert(components(target@), before[components(source@)])
        } else {
            after == before || exists|junk: Seq<u8>|
                after == #[trigger] before.insert(components(target@), junk)
        },
        Step::DeleteSource(source) => if outcome == Outcome::Done {
            after == before.remove(components(source@))
        } else {
            after == before
        },
        Step::Unclaim(target) => if outcome == Outcome::Done {
            after == before.remove(components(target@))
        } else {
            after == before
        },
        Step::Done(_) => after == before,
        Step::Failed(_) => after == before,
    }
}

/// Whether a disk still holds a file as it was at the start.
pub open spec fn intact(start: Disk, now: Disk, file: Seq<Seq<char>>) -> bool {
    now.dom().contains(file) && now[file] == start[file]
}

/// Whether a transfer is a move of a file into the folder it is in.
pub open spec fn stays_put(job: TransferJob) -> bool {
    job.transfer == Transfer::Move && parent(job.source@) == Some(components(job.folder@))
}

/// The path that a transfer tries under a number, by its components.
pub open spec fn tried(job: TransferJob, number: nat) -> Seq<Seq<char>> {
    components(candidate(job.source@, job.folder@, number))
}

/// Whether the disk held every name that is tried before a number.
pub open spec fn taken_before(job: TransferJob, start: Disk, number: nat) -> bool {
    forall|n: nat| 1 <= n < number ==> start.dom().contains(#[trigger] tried(job, n))
}

/// Whether a target is the first free name: the disk held every name that is
/// tried before it, and not this one. It is another name exactly where the
/// own one was taken.
pub open spec fn is_free_name(
    job: TransferJob,
    start: Disk,
    target: FilePath,
    renamed: bool,
) -> bool {
    &&& file_name(job.source@) is Some
    &&& !start.dom().contains(components(target@))
    &&& renamed == start.dom().contains(tried(job, 1))
    &&& exists|number: nat|
        1 <= number < NAMES && components(target@) == #[trigger] tried(job, number)
            && taken_before(job, start, number)
}

/// A disk with a claimed file, whatever it holds, and nothing else new.
pub open spec fn has_claim(start: Disk, now: Disk, target: FilePath) -> bool {
    &&& !start.dom().contains(components(target@))
    &&& exists|contents: Seq<u8>| now == #[trigger] start.insert(components(target@), contents)
}

/// What holds of the disk at every point of a transfer. Until it is done
/// there is at most the claim beside what was there. Once it is done the
/// contents are under the first free name, a move has taken the file away
/// from its old one, and nothing else has changed. A file that is not there
/// arrives nowhere; only a copy into its own folder, which claims its name,
/// finds the empty claim and is content with it.
pub open spec fn nothing_lost(job: TransferJob, start: Disk, now: Disk) -> bool {
    let source = components(job.source@);
    match job.phase {
        Phase::Claiming(number) => {
            &&& !stays_put(job)
            &&& file_name(job.source@) is Some
            &&& 1 <= number < NAMES
            &&& taken_before(job, start, number as nat)
            &&& now == start
        },
        Phase::Renaming(target, renamed) => {
            &&& !stays_put(job)
            &&& job.transfer == Transfer::Move
            &&& is_free_name(job, start, target, renamed)
            &&& now == start.insert(components(target@), Seq::empty())
        },
        Phase::Copying(target, renamed) => {
            &&& !stays_put(job)
            &&& is_free_name(job, start, target, renamed)
            &&& now == start.insert(components(target@), Seq::empty())
        },
        Phase::Deleting(target, renamed) => {
            &&& !stays_put(job)
            &&& job.transfer == Transfer::Move
            &&& is_free_name(job, start, target, renamed)
            &&& start.dom().contains(source)
            &&& now == start.insert(components(target@), start[source])
        },
        Phase::Unclaiming(target) => has_claim(start, now, target),
        Phase::Finished(target, renamed) => if stays_put(job) {
            target == job.source && !renamed && now == start
        } else {
            &&& is_free_name(job, start, target, renamed)
            &&& if start.dom().contains(source) {
                now == (match job.transfer {
                    Transfer::Move => start.remove(source).insert(
                        components(target@),
                        start[source],
                    ),
                    Transfer::Copy => start.insert(components(target@), start[source]),
                })
            } else {
                &&& job.transfer == Transfer::Copy
                &&& components(target@) == source
                &&& now == start.insert(source, Seq::empty())
            }
        },
        // A claim that could not be removed is left.
        Phase::Stopped(_) => now == start || exists|target: FilePath| #[trigger]
            has_claim(start, now, target),
    }
}

/// A transfer starts with nothing lost.
pub proof fn start_loses_nothing(
    transfer: Transfer,
    source: FilePath,
    folder: FilePath,
    start: Disk,
)
    ensures
        nothing_lost(
            TransferJob {
                transfer,
                source,
                folder,
                phase: transfer.first_phase(source, folder),
            },
            start,
            start,
        ),
{
}

/// The first free name is claimed once a claim succeeds.
proof fn claim_finds_a_free_name(
    job: TransferJob,
    start: Disk,
    number: u32,
    target: FilePath,
    renamed: bool,
)
    requires
        1 <= number < NAMES,
        taken_before(job, start, number as nat),
        components(target@) == tried(job, number as nat),
        !start.dom().contains(tried(job, number as nat)),
        renamed == (number > 1),
        file_name(job.source@) is Some,
    ensures
        is_free_name(job, start, target, renamed),
{
    if number > 1 {
        assert(start.dom().contains(tried(job, 1)));
    }
}

/// A file that moves to another folder gets another path.
proof fn moves_go_elsewhere(job: TransferJob, start: Disk, target: FilePath, renamed: bool)
    requires
        job.transfer == Transfer::Move,
        !stays_put(job),
        is_free_name(job, start, target, renamed),
    ensures
        components(target@) != components(job.source@),
{
    let number = choose|number: nat|
        1 <= number < NAMES && components(target@) == #[trigger] tried(job, number)
            && taken_before(job, start, number);
    candidates_lie_in_the_folder(job.source@, job.folder@, number);
    let parts = components(target@);
    assert(parts.drop_last() =~= components(job.folder@));
}

/// Every step of a transfer, however it goes, leaves every other file on the
/// disk as it was, writes only to a name that was free, and loses no
/// contents.
pub proof fn steps_lose_nothing(
    job: TransferJob,
    start: Disk,
    now: Disk,
    step: Step,
    outcome: Outcome,
    then_phase: Phase,
    then_disk: Disk,
)
    requires
        nothing_lost(job, start, now),
        job.calls_for(step),
        may_become(step, outcome, now, then_disk),
        job.leads_to(outcome, then_phase),
    ensures
        nothing_lost(
            TransferJob {
                transfer: job.transfer,
                source: job.source,
                folder: job.folder,
                phase: then_phase,
            },
            start,
            then_disk,
        ),
{
    let source = components(job.source@);
    let next = TransferJob {
        transfer: job.transfer,
        source: job.source,
        folder: job.folder,
        phase: then_phase,
    };
    assert forall|n: nat| #[trigger] tried(next, n) == tried(job, n) by {}
    match job.phase {
        Phase::Claiming(number) => {
            if outcome == Outcome::Done {
                match then_phase {
                    Phase::Renaming(target, renamed) => {
                        claim_finds_a_free_name(next, start, number, target, renamed);
                    },
                    Phase::Copying(target, renamed) => {
                        claim_finds_a_free_name(next, start, number, target, renamed);
                    },
                    _ => {},
                }
            } else if outcome == Outcome::Taken {
                assert(start.dom().contains(tried(job, number as nat)));
            }
        },
        Phase::Renaming(target, renamed) => {
            free_name_stays_free(job, next, start, target, renamed);
            moves_go_elsewhere(job, start, target, renamed);
            if outcome == Outcome::Done {
                assert(then_disk =~= start.remove(source).insert(
                    components(target@),
                    start[source],
                ));
            }
        },
        Phase::Copying(target, renamed) => {
            free_name_stays_free(job, next, start, target, renamed);
            if job.transfer == Transfer::Move {
                moves_go_elsewhere(job, start, target, renamed);
            }
            if outcome == Outcome::Done {
                if start.dom().contains(source) {
                    assert(then_disk =~= start.insert(components(target@), start[source]));
                } else {
                    assert(then_disk =~= start.insert(source, Seq::empty()));
                }
            } else if then_disk != now {
                let junk = choose|junk: Seq<u8>|
                    then_disk == #[trigger] now.insert(components(target@), junk);
                assert(then_disk =~= start.insert(components(target@), junk));
            }
        },
        Phase::Deleting(target, renamed) => {
            free_name_stays_free(job, next, start, target, renamed);
            if outcome == Outcome::Done {
                assert(then_disk =~= start.remove(source).insert(
                    components(target@),
                    start[source],
                ));
            }
        },
        Phase::Unclaiming(target) => {
            if outcome == Outcome::Done {
                assert(then_disk =~= start);
            }
        },
        Phase::Finished(target, renamed) => {
            if !stays_put(job) {
                free_name_stays_free(job, next, start, target, renamed);
            }
        },
        Phase::Stopped(_) => {},
    }
}

/// Whether a name is the first free one does not depend on how far a transfer
/// has come.
proof fn free_name_stays_free(
    job: TransferJob,
    next: TransferJob,
    start: Disk,
    target: FilePath,
    renamed: bool,
)
    requires
        is_free_name(job, start, target, renamed),
        next.source == job.source,
        next.folder == job.folder,
    ensures
        is_free_name(next, start, target, renamed),
{
    assert forall|n: nat| #[trigger] tried(next, n) == tried(job, n) by {}
    let number = choose|number: nat|
        1 <= number < NAMES && components(target@) == #[trigger] tried(job, number)
            && taken_before(job, start, number);
    assert(taken_before(next, start, number));
    assert(components(target@) == tried(next, number));
}

/// One point of a transfer: how far it has come, and the disk then.
pub struct Moment {
    pub job: TransferJob,
    pub disk: Disk,
}

/// Whether one moment follows another by one step.
pub open spec fn follows(a: Moment, b: Moment) -> bool {
    &&& b.job.transfer == a.job.transfer
    &&& b.job.source == a.job.source
    &&& b.job.folder == a.job.folder
    &&& exists|step: Step, outcome: Outcome| #[trigger]
        may_become(step, outcome, a.disk, b.disk) && a.job.calls_for(step) && a.job.leads_to(
            outcome,
            b.job.phase,
        )
}

/// Whether a series of moments is a transfer, from its start on.
pub open spec fn is_run(run: Seq<Moment>) -> bool {
    &&& run.len() > 0
    &&& run[0].job.phase == run[0].job.transfer.first_phase(run[0].job.source, run[0].job.folder)
    &&& forall|i: int| 0 < i < run.len() ==> follows(run[i - 1], #[trigger] run[i])
}

/// Whether each claim that was to be taken back is gone.
pub open spec fn claims_go(run: Seq<Moment>) -> bool {
    forall|i: int|
        0 < i < run.len() ==> (run[i - 1].job.phase matches Phase::Unclaiming(target)
            ==> !(#[trigger] run[i]).disk.dom().contains(components(target@)))
}

/// Nothing is ever replaced: a whole transfer, of a file that is there or of
/// one that is not, leaves every other file as it was. A transfer that is done has the contents under
/// the first name that was free, or where they were, and nothing else is new;
/// a move takes the original away, and a copy, or any transfer that failed,
/// leaves it in place.
pub proof fn transfers_replace_nothing(run: Seq<Moment>)
    requires
        is_run(run),
    ensures
        run.last().job.transfer == run[0].job.transfer,
        run.last().job.source == run[0].job.source,
        run.last().job.folder == run[0].job.folder,
        nothing_lost(run.last().job, run[0].disk, run.last().disk),
        forall|file: Seq<Seq<char>>| #[trigger]
            run[0].disk.dom().contains(file) && file != components(run[0].job.source@)
                ==> intact(run[0].disk, run.last().disk, file),
        run[0].disk.dom().contains(components(run[0].job.source@)) && !(
        run.last().job.phase is Finished && run[0].job.transfer == Transfer::Move) ==> intact(
            run[0].disk,
            run.last().disk,
            components(run[0].job.source@),
        ),
    decreases run.len(),
{
    if run.len() == 1 {
        start_loses_nothing(
            run[0].job.transfer,
            run[0].job.source,
            run[0].job.folder,
            run[0].disk,
        );
    } else {
        let front = run.drop_last();
        assert forall|i: int| 0 < i < front.len() implies follows(front[i - 1], #[trigger] front[i])
            by {
            assert(follows(run[i - 1], run[i]));
        }
        transfers_replace_nothing(front);
        let a = front.last();
        let b = run.last();
        assert(follows(run[run.len() - 2], run[run.len() - 1]));
        let (step, outcome) = choose|step: Step, outcome: Outcome| #[trigger]
            may_become(step, outcome, a.disk, b.disk) && a.job.calls_for(step) && a.job.leads_to(
                outcome,
                b.job.phase,
            );
        steps_lose_nothing(a.job, run[0].disk, a.disk, step, outcome, b.job.phase, b.disk);
    }
}

/// A finished move has taken the file away from where it was, unless it was
/// there already.
pub proof fn moves_take_the_file_away(run: Seq<Moment>)
    requires
        is_run(run),
        run.last().job.phase is Finished,
        run[0].job.transfer == Transfer::Move,
        !stays_put(run[0].job),
    ensures
        !run.last().disk.dom().contains(components(run[0].job.source@)),
{
    transfers_replace_nothing(run);
}

/// A failed transfer leaves the disk as it was, with no empty file behind,
/// where claims can be taken back.
pub proof fn failures_leave_nothing_behind(run: Seq<Moment>)
    requires
        is_run(run),
        claims_go(run),
        run.last().job.phase is Stopped,
    ensures
        run.last().disk == run[0].disk,
    decreases run.len(),
{
    if run.len() > 1 {
        let front = run.drop_last();
        assert forall|i: int| 0 < i < front.len() implies follows(front[i - 1], #[trigger] front[i])
            by {
            assert(follows(run[i - 1], run[i]));
        }
        assert forall|i: int| 0 < i < front.len() implies (
        front[i - 1].job.phase matches Phase::Unclaiming(target) ==> !(
        #[trigger] front[i]).disk.dom().contains(components(target@))) by {
            assert(run[i] == front[i] && run[i - 1] == front[i - 1]);
        }
        transfers_replace_nothing(front);
        let a = front.last();
        let b = run.last();
        assert(a == run[run.len() - 2] && b == run[run.len() - 1]);
        assert(follows(run[run.len() - 2], run[run.len() - 1]));
        let (step, outcome) = choose|step: Step, outcome: Outcome| #[trigger]
            may_become(step, outcome, a.disk, b.disk) && a.job.calls_for(step) && a.job.leads_to(
                outcome,
                b.job.phase,
            );
        match a.job.phase {
            Phase::Unclaiming(target) => {
                assert(!run[run.len() - 1].disk.dom().contains(components(target@)));
                assert(b.disk =~= run[0].disk);
            },
            Phase::Stopped(_) => {
                failures_leave_nothing_behind(front);
            },
            _ => {},
        }
    }
}

/// A number goes between the stem of a name and its extension: the extension
/// stays what it is, and the stem gets a space and the number.
pub proof fn numbers_go_before_the_extension(name: Seq<char>, number: nat)
    requires
        number >= 2,
    ensures
        extension_of(numbered_name(name, number)) == extension_of(name),
        stem_of(numbered_name(name, number)) == stem_of(name) + seq![' '] + decimal(number),
{
    decimal_is_not_empty(number);
    names_are_stem_and_extension(name);
    let d = decimal(number);
    let tail = seq![' '] + d;
    assert forall|i: int| 0 <= i < tail.len() implies #[trigger] tail[i] != '.' by {
        if i > 0 {
            assert(tail[i] == d[i - 1]);
        }
    }
    let numbered = numbered_name(name, number);
    let front = stem_of(name) + seq![' '] + d;
    match extension_of(name) {
        Some(ext) => {
            assert(numbered =~= front + seq!['.'] + ext);
            extensions_follow_the_last_dot(front, ext);
        },
        None => {
            assert(numbered =~= name + tail);
            assert(front =~= numbered);
            assert forall|i: int| 0 < i < numbered.len() implies #[trigger] numbered[i] != '.' by {
                if i >= name.len() {
                    assert(numbered[i] == tail[i - name.len()]);
                }
            }
            names_without_a_dot_are_stems(numbered);
        },
    }
}

/// Spelled out: "stem.ext" is tried first, then "stem 2.ext", "stem 3.ext"
/// and so on, and a name without a dot gets its number at the end.
pub proof fn names_are_counted_up(stem: Seq<char>, ext: Seq<char>, number: nat)
    requires
        stem.len() > 0,
        forall|i: int| 0 <= i < ext.len() ==> #[trigger] ext[i] != '.',
    ensures
        numbered_name(stem + seq!['.'] + ext, 1) == stem + seq!['.'] + ext,
        number >= 2 ==> numbered_name(stem + seq!['.'] + ext, number) == stem + seq![' ']
            + decimal(number) + seq!['.'] + ext,
        number >= 2 && (forall|i: int| 0 < i < stem.len() ==> #[trigger] stem[i] != '.')
            ==> numbered_name(stem, number) == stem + seq![' '] + decimal(number),
{
    extensions_follow_the_last_dot(stem, ext);
    let name = stem + seq!['.'] + ext;
    if number >= 2 {
        assert(numbered_name(name, number) =~= stem + seq![' '] + decimal(number) + seq!['.']
            + ext);
        if forall|i: int| 0 < i < stem.len() ==> #[trigger] stem[i] != '.' {
            names_without_a_dot_are_stems(stem);
            assert(numbered_name(stem, number) =~= stem + seq![' '] + decimal(number));
        }
    }
}

/// An image stays an image under every name that is tried for it, and
/// anything else stays none.
pub proof fn images_stay_images(source: Seq<char>, folder: Seq<char>, number: nat)
    requires
        file_name(source) is Some,
    ensures
        image_path(candidate(source, folder, number)) == image_path(source),
        animated_path(candidate(source, folder, number)) == animated_path(source),
{
    let name = file_name(source)->0;
    let tried = numbered_name(name, number);
    candidates_lie_in_the_folder(source, folder, number);
    let parts = components(candidate(source, folder, number));
    assert(parts.last() == tried);
    if number >= 2 {
        numbers_go_before_the_extension(name, number);
        decimal_is_not_empty(number);
        let space = stem_of(name).len() as int;
        assert(tried[space] == ' ');
        assert(is_name(tried)) by {
            if !is_name(tried) {
                assert(tried[space] != ' ');
            }
        }
    }
}

/// How many steps a transfer may still take, at most.
pub open spec fn steps_left(phase: Phase) -> int {
    match phase {
        Phase::Claiming(number) => 5 + (NAMES - number),
        Phase::Renaming(_, _) => 4,
        Phase::Copying(_, _) => 3,
        Phase::Deleting(_, _) => 2,
        Phase::Unclaiming(_) => 1,
        Phase::Finished(_, _) => 0,
        Phase::Stopped(_) => 0,
    }
}

/// A transfer comes to its end, however its steps go, and where none of them
/// fails it comes to a good one: only a disk that refuses a step, or a folder
/// that holds every name, stops it.
pub proof fn transfers_come_to_an_end(job: TransferJob, outcome: Outcome, after: Phase)
    requires
        job.leads_to(outcome, after),
        job.phase matches Phase::Claiming(number) ==> number < NAMES,
    ensures
        !(job.phase is Finished || job.phase is Stopped) ==> steps_left(after) < steps_left(
            job.phase,
        ),
        job.phase is Finished || job.phase is Stopped ==> after == job.phase,
        outcome == Outcome::Done && !(job.phase is Unclaiming || job.phase is Stopped) ==> !(
        after is Unclaiming || after is Stopped),
        job.phase matches Phase::Claiming(number) ==> (outcome == Outcome::Taken && number < 999
            ==> after == Phase::Claiming((number + 1) as u32)),
        job.phase is Renaming && outcome == Outcome::OtherDisk ==> after is Copying,
        after is Finished && !(job.phase is Finished) ==> outcome == Outcome::Done,
        job.transfer == Transfer::Copy && job.phase is Claiming ==> !(after is Renaming),
{
}

/// A transfer gives up on names only where the folder holds every one of
/// them, from the own name to the one with the number 999.
pub proof fn giving_up_takes_every_name(job: TransferJob, start: Disk, now: Disk, after: Phase)
    requires
        nothing_lost(job, start, now),
        job.phase is Claiming,
        now.dom().contains(tried(job, (job.phase->Claiming_0) as nat)),
        job.leads_to(Outcome::Taken, after),
        after is Stopped,
    ensures
        after == Phase::Stopped(TransferError::NoFreeName),
        forall|n: nat| 1 <= n <= 999 ==> start.dom().contains(#[trigger] tried(job, n)),
{
}

/// Every file with a name is sent off, under its own name first. Only a move
/// into the folder that the file is in has nothing to do, and only a path
/// without a name cannot be sent.
pub proof fn files_with_a_name_are_sent(transfer: Transfer, source: FilePath, folder: FilePath)
    ensures
        ({
            let phase = transfer.first_phase(source, folder);
            let there = parent(source@) == Some(components(folder@));
            &&& transfer == Transfer::Move && there ==> phase == Phase::Finished(source, false)
            &&& !(transfer == Transfer::Move && there) && file_name(source@) is Some ==> phase
                == Phase::Claiming(1)
            &&& !(transfer == Transfer::Move && there) && file_name(source@) is None ==> phase
                == Phase::Stopped(TransferError::NoFileName)
        }),
{
}

} // verus!
