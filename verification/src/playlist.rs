//! Slideshow playlist: ordering, stepping, loop, and shuffle.
//! A shuffled playlist keeps its play order beside the sorted files, so
//! stepping in the sorted order still works while shuffled.

use vstd::prelude::*;

use crate::path::{find_path, first_same, first_same_is_first, FilePath};

verus! {

/// One round of the xorshift generator.
pub open spec fn scrambled(x: u64) -> u64 {
    let a = x ^ (x << 13u64);
    let b = a ^ (a >> 7u64);
    b ^ (b << 17u64)
}

/// A generator that has not died out never does: behind a number other than
/// zero comes another.
pub proof fn drawing_goes_on(state: u64)
    requires
        state != 0,
    ensures
        scrambled(state) != 0,
{
    let a = state ^ (state << 13u64);
    let b = a ^ (a >> 7u64);
    assert(state != 0 ==> state ^ (state << 13u64) != 0) by (bit_vector);
    assert(a != 0 ==> a ^ (a >> 7u64) != 0) by (bit_vector);
    assert(b != 0 ==> b ^ (b << 17u64) != 0) by (bit_vector);
}

/// Small xorshift generator; enough for shuffling a slideshow.
pub struct XorShift(u64);

/// The nanoseconds since the Unix epoch, from `std::time::SystemTime::elapsed`
/// on that epoch, or nothing for a clock set before it. Nothing is claimed of
/// the number.
#[verifier::external_body]
fn clock_nanoseconds() -> Option<u128> {
    match std::time::UNIX_EPOCH.elapsed() {
        Ok(since) => Some(since.as_nanos()),
        Err(_) => None,
    }
}

impl XorShift {
    /// The number that the next draw starts from.
    pub closed spec fn state(self) -> u64 {
        self.0
    }

    /// A generator seeded from the clock. Its state is odd, whatever the
    /// clock says.
    pub fn new() -> (rng: Self)
        ensures
            rng.state() % 2 == 1,
    {
        let nanos: u64 = match clock_nanoseconds() {
            Some(n) => #[verifier::truncate] (n as u64),
            None => 0x9E37_79B9_7F4A_7C15,
        };
        XorShift::seeded(nanos)
    }

    /// A generator for a given seed; the lowest bit is always set.
    pub fn seeded(seed: u64) -> (rng: Self)
        ensures
            rng.state() == seed | 1,
            rng.state() % 2 == 1,
    {
        assert((seed | 1) % 2 == 1) by (bit_vector);
        XorShift(seed | 1)
    }

    /// The next number below `bound`.
    pub fn next_below(&mut self, bound: usize) -> (n: usize)
        requires
            bound > 0,
        ensures
            final(self).state() == scrambled(old(self).state()),
            n == final(self).state() % (bound as u64),
            n < bound,
    {
        let a = self.0 ^ (self.0 << 13u64);
        let b = a ^ (a >> 7u64);
        self.0 = b ^ (b << 17u64);
        (self.0 % (bound as u64)) as usize
    }
}

/// The sequence with two items exchanged.
pub open spec fn swapped(order: Seq<usize>, i: int, j: int) -> Seq<usize> {
    order.update(i, order[j]).update(j, order[i])
}

/// Fisher-Yates: from `last` down, each item changes places with one that
/// the generator picks among those up to it.
pub open spec fn fisher_yates(order: Seq<usize>, state: u64, last: int) -> Seq<usize>
    decreases last,
{
    if last <= 0 {
        order
    } else {
        let next = scrambled(state);
        let pick = next as int % (last + 1);
        fisher_yates(swapped(order, last, pick), next, last - 1)
    }
}

/// The numbers from 0 up to `count`.
pub open spec fn counting(count: nat) -> Seq<usize> {
    Seq::new(count, |i: int| i as usize)
}

/// Where a number stands in an order that holds it.
pub open spec fn rank_of(order: Seq<usize>, index: int) -> int {
    choose|p: int| 0 <= p < order.len() && order[p] == index
}

/// The shuffled play order for `count` files: everything mixed up, then
/// `current` brought to the front.
pub open spec fn shuffled_order(count: nat, current: int, state: u64) -> Seq<usize> {
    let mixed = fisher_yates(counting(count), state, count - 1);
    swapped(mixed, 0, rank_of(mixed, current))
}

/// Whether an order plays a file at all.
pub open spec fn plays(order: Seq<usize>, file: int) -> bool {
    exists|p: int| 0 <= p < order.len() && #[trigger] order[p] == file
}

/// Whether an order plays each of `count` files exactly once.
pub open spec fn is_play_order(order: Seq<usize>, count: nat) -> bool {
    &&& order.len() == count
    &&& forall|p: int| 0 <= p < order.len() ==> #[trigger] order[p] < count
    &&& forall|p: int, q: int|
        0 <= p < order.len() && 0 <= q < order.len() && p != q ==> #[trigger] order[p]
            != #[trigger] order[q]
    &&& forall|f: int| 0 <= f < count ==> #[trigger] plays(order, f)
}

/// A play order without the file at `place`, whose number is `file`: the
/// numbers above it move down by one.
pub open spec fn closed_up(order: Seq<usize>, place: int, file: int) -> Seq<usize> {
    order.remove(place).map_values(|index: usize| if index > file { (index - 1) as usize } else { index })
}

/// The position after the slide at `place` went and `count` slides are left.
pub open spec fn position_after(position: int, place: int, count: int) -> int {
    if place < position {
        position - 1
    } else if position == count && position > 0 {
        position - 1
    } else {
        position
    }
}

proof fn closing_up_keeps_play_order(order: Seq<usize>, place: int, file: int, count: nat)
    requires
        is_play_order(order, count),
        0 <= place < count,
        order[place] == file,
    ensures
        is_play_order(closed_up(order, place, file), (count - 1) as nat),
{
    let after = closed_up(order, place, file);
    assert forall|p: int| 0 <= p < after.len() implies #[trigger] after[p] < count - 1 by {
        let q = if p < place { p } else { p + 1 };
        assert(order.remove(place)[p] == order[q]);
        assert(order[q] != order[place]);
        assert(order[q] < count);
    }
    assert forall|p: int, q: int|
        0 <= p < after.len() && 0 <= q < after.len() && p != q implies #[trigger] after[p]
        != #[trigger] after[q] by {
        let a = if p < place { p } else { p + 1 };
        let b = if q < place { q } else { q + 1 };
        assert(order[a] != order[b]);
        assert(order[a] != order[place]);
        assert(order[b] != order[place]);
    }
    assert forall|f: int| 0 <= f < count - 1 implies #[trigger] plays(after, f) by {
        let g = if f < file { f } else { f + 1 };
        assert(plays(order, g));
        let a = choose|p: int| 0 <= p < order.len() && #[trigger] order[p] == g;
        assert(a != place);
        let p = if a < place { a } else { a - 1 };
        assert(after[p] == f);
    }
}

pub struct Playlist {
    files: Vec<FilePath>,
    /// Position in play order (an index into `order` when shuffled, into
    /// `files` otherwise).
    position: usize,
    /// Shuffled play order: order[play position] = file index. Empty when
    /// not shuffled.
    order: Vec<usize>,
    pub looping: bool,
}

proof fn swap_keeps_play_order(order: Seq<usize>, i: int, j: int, count: nat)
    requires
        is_play_order(order, count),
        0 <= i < count,
        0 <= j < count,
    ensures
        is_play_order(swapped(order, i, j), count),
{
    let after = swapped(order, i, j);
    assert forall|f: int| 0 <= f < count implies #[trigger] plays(after, f) by {
        assert(plays(order, f));
        let p = choose|p: int| 0 <= p < order.len() && #[trigger] order[p] == f;
        let q = if p == i { j } else if p == j { i } else { p };
        assert(after[q] == f);
    }
}

fn swap(order: &mut Vec<usize>, i: usize, j: usize)
    requires
        i < old(order).len(),
        j < old(order).len(),
    ensures
        final(order)@ == swapped(old(order)@, i as int, j as int),
{
    let a = order[i];
    let b = order[j];
    order[i] = b;
    order[j] = a;
}

/// Where `index` stands in an order that plays it.
fn find_rank(order: &Vec<usize>, index: usize, Ghost(count): Ghost<nat>) -> (p: usize)
    requires
        is_play_order(order@, count),
        index < count,
    ensures
        p < order.len(),
        order@[p as int] == index,
        p == rank_of(order@, index as int),
{
    let mut p: usize = 0;
    while p < order.len()
        invariant
            p <= order.len(),
            is_play_order(order@, count),
            index < count,
            forall|q: int| 0 <= q < p ==> order@[q] != index,
        decreases order.len() - p,
    {
        if order[p] == index {
            let ghost r = rank_of(order@, index as int);
            assert(0 <= r < order@.len() && order@[r] == index);
            return p;
        }
        p += 1;
    }
    assert(false) by {
        assert(plays(order@, index as int));
        let q = choose|q: int| 0 <= q < order@.len() && #[trigger] order@[q] == index as int;
        assert(order@[q] == index);
    }
    0
}

/// Euclidean remainder of a signed number.
fn wrap(n: i128, count: usize) -> (r: usize)
    requires
        count > 0,
        -0x1_0000_0000_0000_0000_0000 < n < 0x1_0000_0000_0000_0000_0000,
    ensures
        r as int == n as int % count as int,
        r < count,
{
    if n >= 0 {
        ((n as u128) % (count as u128)) as usize
    } else {
        let below = ((-n) as u128) % (count as u128);
        let ghost c = count as int;
        let ghost q = (-n) as int / c;
        proof {
            vstd::arithmetic::div_mod::lemma_fundamental_div_mod((-n) as int, c);
        }
        if below == 0 {
            proof {
                assert(n as int == c * (-q)) by (nonlinear_arith)
                    requires
                        -n as int == c * q,
                ;
                vstd::arithmetic::div_mod::lemma_fundamental_div_mod_converse(
                    n as int,
                    c,
                    -q,
                    0,
                );
            }
            0
        } else {
            proof {
                assert(n as int == c * (-q - 1) + (c - below)) by (nonlinear_arith)
                    requires
                        -n as int == c * q + below,
                ;
                vstd::arithmetic::div_mod::lemma_fundamental_div_mod_converse(
                    n as int,
                    c,
                    -q - 1,
                    c - below,
                );
            }
            count - below as usize
        }
    }
}

/// Everything there is to say of a playlist.
#[verifier::ext_equal]
pub struct PlaylistState {
    /// The files, in their sorted order.
    pub files: Seq<FilePath>,
    /// The shuffled play order, or nothing when not shuffled.
    pub order: Seq<usize>,
    /// The position in play order.
    pub position: int,
    /// Whether the show goes round its ends.
    pub loops: bool,
}

impl PlaylistState {
    /// What every operation keeps: the position is a slide of the show, and
    /// a shuffled order plays each file once.
    pub open spec fn valid(self) -> bool {
        &&& self.files.len() <= usize::MAX
        &&& 0 <= self.position
        &&& self.position < self.files.len() || (self.files.len() == 0 && self.position == 0)
        &&& self.order.len() > 0 ==> is_play_order(self.order, self.files.len())
    }

    /// The file that plays at a position.
    pub open spec fn file_at(self, position: int) -> int {
        if self.order.len() > 0 {
            self.order[position] as int
        } else {
            position
        }
    }

    /// The file on screen.
    pub open spec fn current(self) -> Option<FilePath> {
        if self.files.len() > 0 {
            Some(self.files[self.file_at(self.position)])
        } else {
            None
        }
    }

    /// Where a step by `delta` leads: within the show, round its ends when
    /// looping, nowhere past them otherwise.
    pub open spec fn target(self, delta: int) -> Option<int> {
        let count = self.files.len() as int;
        let next = self.position + delta;
        if count == 0 {
            None
        } else if 0 <= next < count {
            Some(next)
        } else if self.loops {
            Some(next % count)
        } else {
            None
        }
    }

    /// The file that a step by `delta` leads to.
    pub open spec fn ahead(self, delta: int) -> Option<FilePath> {
        match self.target(delta) {
            Some(target) => Some(self.files[self.file_at(target)]),
            None => None,
        }
    }

    /// The same show at another position.
    pub open spec fn at(self, position: int) -> PlaylistState {
        PlaylistState { position, ..self }
    }

    /// The show after a step by `delta`, where there is one.
    pub open spec fn stepped(self, delta: int) -> PlaylistState {
        match self.target(delta) {
            Some(target) => self.at(target),
            None => self,
        }
    }

    /// Where a step by `delta` in the sorted order leads.
    pub open spec fn original_target(self, delta: int) -> Option<int> {
        let count = self.files.len() as int;
        let next = self.file_at(self.position) + delta;
        if self.loops {
            Some(next % count)
        } else if 0 <= next < count {
            Some(next)
        } else {
            None
        }
    }

    /// Whether there is a step by `delta` in the sorted order.
    pub open spec fn can_step_original(self, delta: int) -> bool {
        if self.order.len() > 0 {
            self.original_target(delta) is Some
        } else {
            self.target(delta) is Some
        }
    }

    /// The show after a step in the sorted order: while shuffled, the
    /// position goes to wherever that file plays.
    pub open spec fn stepped_original(self, delta: int) -> PlaylistState {
        if self.order.len() > 0 {
            match self.original_target(delta) {
                Some(file) => self.at(rank_of(self.order, file)),
                None => self,
            }
        } else {
            self.stepped(delta)
        }
    }

    /// The position of the last slide.
    pub open spec fn last(self) -> int {
        if self.files.len() > 0 {
            self.files.len() - 1
        } else {
            0
        }
    }

    /// The show with shuffle turned on or off, given the number that the
    /// generator starts from. The current file becomes position 0, or keeps
    /// its place in the sorted order.
    pub open spec fn reshuffled(self, shuffled: bool, state: u64) -> PlaylistState {
        if shuffled == (self.order.len() > 0) || self.files.len() == 0 {
            self
        } else if shuffled {
            PlaylistState {
                order: shuffled_order(self.files.len(), self.position, state),
                position: 0,
                ..self
            }
        } else {
            PlaylistState {
                order: Seq::empty(),
                position: self.file_at(self.position),
                ..self
            }
        }
    }

    /// Where a file plays.
    pub open spec fn position_of(self, file: int) -> int {
        if self.order.len() > 0 {
            rank_of(self.order, file)
        } else {
            file
        }
    }

    /// The show without the file at an index. The slides after it move up;
    /// the current slide stays, and when it is the one that goes, the next
    /// one takes its place, or the last one where there is no next.
    pub open spec fn without_file(self, file: int) -> PlaylistState {
        let place = self.position_of(file);
        PlaylistState {
            files: self.files.remove(file),
            order: if self.order.len() > 0 {
                closed_up(self.order, place, file)
            } else {
                Seq::empty()
            },
            position: position_after(self.position, place, self.files.len() - 1),
            loops: self.loops,
        }
    }

    /// The show without a path.
    pub open spec fn without_path(self, path: FilePath) -> PlaylistState {
        match first_same(self.files, path) {
            Some(file) => self.without_file(file),
            None => self,
        }
    }
}

impl View for Playlist {
    type V = PlaylistState;

    closed spec fn view(&self) -> PlaylistState {
        PlaylistState {
            files: self.files@,
            order: self.order@,
            position: self.position as int,
            loops: self.looping,
        }
    }
}

impl Playlist {
    /// What every operation keeps.
    pub open spec fn well_formed(self) -> bool {
        self@.valid()
    }

    pub fn new(files: Vec<FilePath>, start: usize) -> (playlist: Self)
        ensures
            playlist.well_formed(),
            playlist@ == (PlaylistState {
                files: files@,
                order: Seq::empty(),
                position: if start < files@.len() {
                    start as int
                } else if files@.len() > 0 {
                    files@.len() - 1
                } else {
                    0
                },
                loops: false,
            }),
    {
        let last = if files.len() > 0 { files.len() - 1 } else { 0 };
        let position = if start < last { start } else { last };
        let playlist = Playlist { files, position, order: Vec::new(), looping: false };
        assert(playlist@.order =~= Seq::empty());
        playlist
    }

    pub fn len(&self) -> (count: usize)
        ensures
            count == self@.files.len(),
    {
        self.files.len()
    }

    pub fn is_empty(&self) -> (empty: bool)
        ensures
            empty == (self@.files.len() == 0),
    {
        self.files.len() == 0
    }

    pub fn shuffled(&self) -> (shuffled: bool)
        ensures
            shuffled == (self@.order.len() > 0),
    {
        self.order.len() > 0
    }

    /// Index of the current file in the sorted order.
    pub fn current_index(&self) -> (index: usize)
        requires
            self.well_formed(),
        ensures
            index == self@.file_at(self@.position),
    {
        if self.shuffled() {
            self.order[self.position]
        } else {
            self.position
        }
    }

    pub fn current(&self) -> (file: Option<&FilePath>)
        requires
            self.well_formed(),
        ensures
            match file {
                Some(f) => self@.current() == Some(*f),
                None => self@.current() is None,
            },
    {
        if self.files.len() == 0 {
            None
        } else {
            Some(&self.files[self.current_index()])
        }
    }

    /// The file at a play-order offset from here (for precaching),
    /// respecting loop mode.
    pub fn peek(&self, delta: i64) -> (file: Option<&FilePath>)
        requires
            self.well_formed(),
        ensures
            match file {
                Some(f) => self@.ahead(delta as int) == Some(*f),
                None => self@.ahead(delta as int) is None,
            },
    {
        match self.target_position(delta) {
            Some(target) => {
                let index = if self.shuffled() {
                    self.order[target]
                } else {
                    target
                };
                Some(&self.files[index])
            },
            None => None,
        }
    }

    /// Step in play order. Returns false when the edge is hit and loop is
    /// off.
    pub fn step(&mut self, delta: i64) -> (stepped: bool)
        requires
            old(self).well_formed(),
        ensures
            final(self).well_formed(),
            stepped == (old(self)@.target(delta as int) is Some),
            final(self)@ == old(self)@.stepped(delta as int),
    {
        match self.target_position(delta) {
            Some(position) => {
                self.position = position;
                true
            },
            None => false,
        }
    }

    fn target_position(&self, delta: i64) -> (target: Option<usize>)
        requires
            self.well_formed(),
        ensures
            match target {
                Some(t) => self@.target(delta as int) == Some(t as int) && t < self@.files.len(),
                None => self@.target(delta as int) is None,
            },
    {
        let count = self.files.len();
        if count == 0 {
            return None;
        }
        let next = self.position as i128 + delta as i128;
        if next >= 0 && next < count as i128 {
            Some(next as usize)
        } else if self.looping {
            Some(wrap(next, count))
        } else {
            None
        }
    }

    /// Whether the show goes round its ends.
    pub fn loops(&self) -> (loops: bool)
        ensures
            loops == self@.loops,
    {
        self.looping
    }

    /// Turn looping on or off.
    pub fn set_looping(&mut self, looping: bool)
        requires
            old(self).well_formed(),
        ensures
            final(self).well_formed(),
            final(self)@ == (PlaylistState { loops: looping, ..old(self)@ }),
    {
        self.looping = looping;
    }

    pub fn jump_first(&mut self)
        requires
            old(self).well_formed(),
        ensures
            final(self).well_formed(),
            final(self)@ == old(self)@.at(0),
    {
        self.position = 0;
    }

    pub fn jump_last(&mut self)
        requires
            old(self).well_formed(),
        ensures
            final(self).well_formed(),
            final(self)@ == old(self)@.at(old(self)@.last()),
    {
        self.position = if self.files.len() > 0 { self.files.len() - 1 } else { 0 };
    }

    /// Step relative to the sorted order while shuffled. Plain step
    /// otherwise.
    pub fn step_original(&mut self, delta: i64) -> (stepped: bool)
        requires
            old(self).well_formed(),
        ensures
            final(self).well_formed(),
            stepped == old(self)@.can_step_original(delta as int),
            final(self)@ == old(self)@.stepped_original(delta as int),
    {
        if !self.shuffled() {
            return self.step(delta);
        }
        let count = self.files.len();
        let next = self.current_index() as i128 + delta as i128;
        let target: usize = if self.looping {
            wrap(next, count)
        } else if next < 0 || next >= count as i128 {
            return false;
        } else {
            next as usize
        };
        // Move the play position to wherever that file sits in the shuffled
        // order.
        self.position = find_rank(&self.order, target, Ghost(self.files@.len()));
        true
    }

    /// Turn shuffle on (the current file becomes position 0) or off (the
    /// current file keeps its place in the sorted order). The order comes
    /// from a generator that the clock seeds.
    pub fn set_shuffled(&mut self, shuffled: bool)
        requires
            old(self).well_formed(),
        ensures
            final(self).well_formed(),
            exists|state: u64|
                state % 2 == 1 && final(self)@ == #[trigger] old(self)@.reshuffled(shuffled, state),
            final(self)@.current() == old(self)@.current(),
    {
        let rng = XorShift::new();
        self.set_shuffled_with(shuffled, rng);
    }

    /// Turn shuffle on or off, drawing from a given generator.
    pub fn set_shuffled_with(&mut self, shuffled: bool, mut rng: XorShift)
        requires
            old(self).well_formed(),
        ensures
            final(self).well_formed(),
            final(self)@ == old(self)@.reshuffled(shuffled, rng.state()),
            final(self)@.current() == old(self)@.current(),
    {
        if shuffled == self.shuffled() || self.files.len() == 0 {
            return;
        }
        if shuffled {
            let ghost count = self.files@.len();
            let ghost start = rng.state();
            let current = self.current_index();
            let mut order: Vec<usize> = Vec::new();
            let mut i: usize = 0;
            while i < self.files.len()
                invariant
                    i <= self.files.len(),
                    order@ == counting(i as nat),
                decreases self.files.len() - i,
            {
                order.push(i);
                i += 1;
                assert(order@ =~= counting(i as nat));
            }
            proof {
                assert forall|f: int| 0 <= f < count implies #[trigger] plays(order@, f) by {
                    assert(order@[f] == f);
                }
            }
            let mut last: usize = order.len() - 1;
            while last > 0
                invariant
                    last < order.len(),
                    is_play_order(order@, count),
                    fisher_yates(order@, rng.state(), last as int) == fisher_yates(
                        counting(count),
                        start,
                        count - 1,
                    ),
                decreases last,
            {
                let pick = rng.next_below(last + 1);
                proof {
                    swap_keeps_play_order(order@, last as int, pick as int, count);
                }
                swap(&mut order, last, pick);
                last -= 1;
            }
            // The current file plays first.
            let at = find_rank(&order, current, Ghost(count));
            proof {
                swap_keeps_play_order(order@, 0, at as int, count);
            }
            swap(&mut order, 0, at);
            self.order = order;
            self.position = 0;
        } else {
            self.position = self.current_index();
            self.order.clear();
        }
    }

    /// Take a file out of the show. The slides after it move up; the current
    /// slide stays, and when it is the one that goes, the next one takes its
    /// place, or the last one where there is no next.
    pub fn remove(&mut self, path: &FilePath) -> (removed: bool)
        requires
            old(self).well_formed(),
        ensures
            final(self).well_formed(),
            removed == (first_same(old(self)@.files, *path) is Some),
            final(self)@ == old(self)@.without_path(*path),
    {
        proof {
            first_same_is_first(self.files@, *path);
        }
        let file = match find_path(&self.files, path) {
            Some(i) => i,
            None => {
                return false;
            },
        };
        let ghost before = *self;
        let mut place: usize = file;
        if self.order.len() > 0 {
            place = find_rank(&self.order, file, Ghost(self.files@.len()));
            let mut order: Vec<usize> = Vec::new();
            let ghost whole = closed_up(self.order@, place as int, file as int);
            let mut p: usize = 0;
            while p < self.order.len()
                invariant
                    p <= self.order.len(),
                    place < self.order.len(),
                    is_play_order(self.order@, self.files@.len()),
                    self.order@[place as int] == file,
                    whole == closed_up(self.order@, place as int, file as int),
                    order@ == whole.take(if p <= place { p as int } else { p - 1 }),
                decreases self.order.len() - p,
            {
                let index = self.order[p];
                if p != place {
                    let moved = if index > file { index - 1 } else { index };
                    assert(whole[if p < place { p as int } else { p - 1 }] == moved);
                    order.push(moved);
                }
                p += 1;
                assert(order@ =~= whole.take(if p <= place { p as int } else { p - 1 }));
            }
            assert(order@ =~= whole);
            proof {
                closing_up_keeps_play_order(
                    self.order@,
                    place as int,
                    file as int,
                    self.files@.len(),
                );
            }
            self.order = order;
        }
        self.files.remove(file);
        if place < self.position {
            self.position -= 1;
        } else if self.position == self.files.len() && self.position > 0 {
            self.position -= 1;
        }
        true
    }
}

/// Every file of a show is one step away, shuffled or not.
pub proof fn every_file_is_in_reach(playlist: PlaylistState, file: int)
    requires
        playlist.valid(),
        0 <= file < playlist.files.len(),
    ensures
        exists|delta: int| #[trigger]
            playlist.target(delta) is Some && playlist.file_at(playlist.target(delta)->0) == file,
{
    let place = if playlist.order.len() > 0 {
        assert(plays(playlist.order, file));
        choose|p: int| 0 <= p < playlist.order.len() && #[trigger] playlist.order[p] == file
    } else {
        file
    };
    let delta = place - playlist.position;
    assert(playlist.target(delta) == Some(place));
}

/// A step back undoes a step, round the ends too.
pub proof fn step_back_undoes_step(show: PlaylistState, delta: int)
    requires
        show.valid(),
        show.target(delta) is Some,
    ensures
        show.stepped(delta).stepped(-delta) == show,
{
    let count = show.files.len() as int;
    let after = show.stepped(delta);
    let p = show.position;
    let t = after.position;
    let q = (p + delta) / count;
    vstd::arithmetic::div_mod::lemma_fundamental_div_mod(p + delta, count);
    vstd::arithmetic::div_mod::lemma_mod_bound(p + delta, count);
    if 0 <= p + delta < count {
        assert(t - delta == p);
    } else {
        assert(p + delta == count * q + t);
        let back = t - delta;
        assert(back == count * (-q) + p) by (nonlinear_arith)
            requires
                p + delta == count * q + t,
                back == t - delta,
        ;
        vstd::arithmetic::div_mod::lemma_fundamental_div_mod_converse(back, count, -q, p);
        if 0 <= back < count {
            vstd::arithmetic::div_mod::lemma_small_mod(back as nat, count as nat);
        }
    }
}

proof fn mixing_keeps_play_order(order: Seq<usize>, state: u64, last: int, count: nat)
    requires
        is_play_order(order, count),
        last < count,
    ensures
        is_play_order(fisher_yates(order, state, last), count),
    decreases last,
{
    if last > 0 {
        let next = scrambled(state);
        let pick = next as int % (last + 1);
        swap_keeps_play_order(order, last, pick, count);
        mixing_keeps_play_order(swapped(order, last, pick), next, last - 1, count);
    }
}

/// Whatever the generator draws, a shuffled show plays every file once, and
/// turning shuffle on, off, or on and off again leaves it on the file it was
/// on.
pub proof fn shuffling_keeps_the_show(show: PlaylistState, shuffled: bool, state: u64)
    requires
        show.valid(),
    ensures
        show.reshuffled(shuffled, state).valid(),
        show.reshuffled(shuffled, state).files == show.files,
        show.reshuffled(shuffled, state).current() == show.current(),
        show.files.len() > 0 ==> (show.reshuffled(shuffled, state).order.len() > 0 <==> shuffled),
        show.order.len() == 0 ==> show.reshuffled(true, state).reshuffled(false, state) == show,
{
    let count = show.files.len();
    if count > 0 {
        let start = counting(count);
        assert forall|f: int| 0 <= f < count implies #[trigger] plays(start, f) by {
            assert(start[f] == f);
        }
        mixing_keeps_play_order(start, state, count - 1, count);
        let mixed = fisher_yates(start, state, count - 1);
        if show.order.len() == 0 {
            assert(plays(mixed, show.position));
            let w = choose|p: int| 0 <= p < mixed.len() && #[trigger] mixed[p] == show.position;
            let at = rank_of(mixed, show.position);
            assert(0 <= at < mixed.len() && mixed[at] == show.position);
            swap_keeps_play_order(mixed, 0, at, count);
            assert(shuffled_order(count, show.position, state)[0] == show.position);
            assert(show.reshuffled(true, state).reshuffled(false, state) =~= show);
        }
    }
}

/// Taking another file out of the show leaves the current one on screen.
pub proof fn removal_keeps_the_current_file(show: PlaylistState, file: int)
    requires
        show.valid(),
        0 <= file < show.files.len(),
        show.file_at(show.position) != file,
    ensures
        show.without_file(file).current() == show.current(),
{
    if show.order.len() > 0 {
        let place = show.position_of(file);
        assert(plays(show.order, file));
        let witness = choose|p: int|
            0 <= p < show.order.len() && #[trigger] show.order[p] == file;
        assert(0 <= place < show.order.len() && show.order[place] == file);
        assert(place != show.position);
        closing_up_keeps_play_order(show.order, place, file, show.files.len());
    }
}

/// Whether each place drew one of those up to it.
pub open spec fn are_draws(picks: Seq<int>, count: nat) -> bool {
    picks.len() == count && forall|i: int| 0 <= i < count ==> 0 <= #[trigger] picks[i] <= i
}

/// An order once each place from `last` down took the item at the place that
/// it drew, and left its own there.
pub open spec fn dealt(order: Seq<usize>, picks: Seq<int>, last: int) -> Seq<usize>
    decreases last,
{
    if last <= 0 {
        order
    } else {
        dealt(swapped(order, last, picks[last]), picks, last - 1)
    }
}

/// The generator takes two states together apart: what it makes of the
/// difference of two states is the difference of what it makes of each, so no
/// two states lead to the same one.
pub proof fn draws_tell_states_apart(a: u64, b: u64)
    ensures
        scrambled(a ^ b) == scrambled(a) ^ scrambled(b),
        a != b ==> scrambled(a) != scrambled(b),
{
    let d = a ^ b;
    let a1 = a ^ (a << 13u64);
    let b1 = b ^ (b << 13u64);
    assert((a ^ (a << 13u64)) ^ (b ^ (b << 13u64)) == (a ^ b) ^ ((a ^ b) << 13u64)) by (bit_vector);
    let a2 = a1 ^ (a1 >> 7u64);
    let b2 = b1 ^ (b1 >> 7u64);
    assert((a1 ^ (a1 >> 7u64)) ^ (b1 ^ (b1 >> 7u64)) == (a1 ^ b1) ^ ((a1 ^ b1) >> 7u64))
        by (bit_vector);
    let a3 = a2 ^ (a2 << 17u64);
    let b3 = b2 ^ (b2 << 17u64);
    assert((a2 ^ (a2 << 17u64)) ^ (b2 ^ (b2 << 17u64)) == (a2 ^ b2) ^ ((a2 ^ b2) << 17u64))
        by (bit_vector);
    if a != b {
        assert(a != b ==> a ^ b != 0) by (bit_vector);
        drawing_goes_on(d);
        assert(a3 == b3 ==> a3 ^ b3 == 0) by (bit_vector);
    }
}

/// No state but zero leads to itself.
pub proof fn draws_move_on(state: u64)
    requires
        state != 0,
    ensures
        scrambled(state) != state,
{
    assert(state != 0 ==> ({
        let a = state ^ (state << 13u64);
        let b = a ^ (a >> 7u64);
        b ^ (b << 17u64)
    }) != state) by (bit_vector);
}

proof fn dealing_looks_at_the_front(order: Seq<usize>, a: Seq<int>, b: Seq<int>, last: int)
    requires
        forall|i: int| 0 < i <= last ==> #[trigger] a[i] == b[i],
    ensures
        dealt(order, a, last) == dealt(order, b, last),
    decreases last,
{
    if last > 0 {
        dealing_looks_at_the_front(swapped(order, last, a[last]), a, b, last - 1);
    }
}

/// The item that ends at a place is the one that this place drew, among those
/// that the places behind it left: what comes behind a place stays there, the
/// place itself gets what stood where it drew, and the places before it go on
/// dealing the rest.
pub proof fn places_get_what_they_draw(order: Seq<usize>, picks: Seq<int>, last: int)
    requires
        are_draws(picks, order.len()),
        0 <= last < order.len(),
    ensures
        dealt(order, picks, last).len() == order.len(),
        forall|i: int|
            last < i < order.len() ==> #[trigger] dealt(order, picks, last)[i] == order[i],
        last > 0 ==> dealt(order, picks, last)[last] == order[picks[last]],
        last > 0 ==> dealt(order, picks, last) == dealt(
            order.update(picks[last], order[last]).update(last, order[picks[last]]),
            picks,
            last - 1,
        ),
    decreases last,
{
    if last > 0 {
        let next = swapped(order, last, picks[last]);
        places_get_what_they_draw(next, picks, last - 1);
        assert(next =~= order.update(picks[last], order[last]).update(last, order[picks[last]]));
    }
}

proof fn mixing_deals(order: Seq<usize>, states: Seq<u64>, picks: Seq<int>, last: int)
    requires
        forall|k: int|
            0 < k < states.len() ==> #[trigger] states[k] == scrambled(states[k - 1]),
        picks.len() == states.len(),
        forall|i: int|
            0 < i < picks.len() ==> #[trigger] picks[i] == states[picks.len() - i] as int % (i
                + 1),
        order.len() == picks.len(),
        0 <= last < order.len(),
    ensures
        fisher_yates(order, states[order.len() - 1 - last], last) == dealt(order, picks, last),
    decreases last,
{
    if last > 0 {
        let now = states[order.len() - 1 - last];
        assert(states[order.len() - last] == scrambled(now));
        assert(picks[last] == scrambled(now) as int % (last + 1));
        mixing_deals(swapped(order, last, picks[last]), states, picks, last - 1);
    }
}

/// A shuffle deals all files by what the generator draws, place by place from
/// the last down to the second: each place draws one of those up to its own,
/// from the next state of the generator. Then the current file comes to the
/// front in exchange for the one that got there.
pub proof fn shuffles_deal_every_place(show: PlaylistState, states: Seq<u64>, picks: Seq<int>)
    requires
        show.valid(),
        show.order.len() == 0,
        show.files.len() > 0,
        states.len() == show.files.len(),
        forall|k: int|
            0 < k < states.len() ==> #[trigger] states[k] == scrambled(states[k - 1]),
        picks.len() == states.len(),
        forall|i: int|
            0 < i < picks.len() ==> #[trigger] picks[i] == states[picks.len() - i] as int % (i
                + 1),
        picks[0] == 0,
    ensures
        ({
            let count = show.files.len();
            let mixed = dealt(Seq::new(count, |i: int| i as usize), picks, count - 1);
            let after = show.reshuffled(true, states[0]);
            &&& are_draws(picks, count)
            &&& is_play_order(mixed, count)
            &&& after.position == 0
            &&& after.order.len() == count
            &&& after.order[0] == show.position
            &&& forall|p: int|
                0 < p < count ==> #[trigger] after.order[p] == (if mixed[p] == show.position {
                    mixed[0]
                } else {
                    mixed[p]
                })
        }),
{
    let count = show.files.len();
    let sorted = Seq::new(count, |i: int| i as usize);
    assert forall|i: int| 0 <= i < count implies 0 <= #[trigger] picks[i] <= i by {
        if i > 0 {
            let n = states[count - i] as int;
            assert(0 <= n % (i + 1) <= i) by (nonlinear_arith)
                requires
                    i >= 0,
                    n >= 0,
            ;
        }
    }
    assert(sorted =~= counting(count));
    counting_plays_all(count);
    mixing_deals(sorted, states, picks, count - 1);
    let mixed = dealt(sorted, picks, count - 1);
    mixing_keeps_play_order(sorted, states[0], count - 1, count);
    assert(mixed == fisher_yates(counting(count), states[0], count - 1));
    assert(plays(mixed, show.position));
    let r = rank_of(mixed, show.position);
    assert(0 <= r < mixed.len() && mixed[r] == show.position);
    let after = show.reshuffled(true, states[0]);
    assert forall|p: int| 0 < p < count implies #[trigger] after.order[p] == (if mixed[p]
        == show.position {
        mixed[0]
    } else {
        mixed[p]
    }) by {
        if mixed[p] == show.position {
            assert(p == r);
        }
    }
}

proof fn counting_plays_all(count: nat)
    requires
        count <= usize::MAX,
    ensures
        is_play_order(counting(count), count),
{
    let order = counting(count);
    assert forall|f: int| 0 <= f < count implies #[trigger] plays(order, f) by {
        assert(order[f] == f);
    }
}

/// Every order can come out: whatever the order before and the order asked
/// for, some draws deal the one from the other. So no place is left out of a
/// shuffle.
pub proof fn every_order_can_be_dealt(order: Seq<usize>, target: Seq<usize>, count: nat) -> (picks:
    Seq<int>)
    requires
        is_play_order(order, count),
        is_play_order(target, count),
    ensures
        are_draws(picks, count),
        dealt(order, picks, count - 1) == target,
{
    draws_for(order, target, count, count - 1)
}

proof fn draws_for(order: Seq<usize>, target: Seq<usize>, count: nat, last: int) -> (picks:
    Seq<int>)
    requires
        is_play_order(order, count),
        is_play_order(target, count),
        -1 <= last < count,
        forall|i: int| last < i < count ==> #[trigger] order[i] == target[i],
    ensures
        are_draws(picks, count),
        dealt(order, picks, last) == target,
    decreases last + 1,
{
    if last <= 0 {
        let picks = Seq::new(count, |i: int| 0int);
        if last == 0 {
            // What is left for the first place is what it should be.
            assert(plays(order, target[0] as int));
            let q = choose|q: int| 0 <= q < order.len() && #[trigger] order[q] == target[0];
            assert(q == 0) by {
                if q > 0 {
                    assert(order[q] == target[q]);
                    assert(target[q] != target[0]);
                }
            }
        }
        assert(order =~= target);
        picks
    } else {
        assert(plays(order, target[last] as int));
        let q = choose|q: int| 0 <= q < order.len() && #[trigger] order[q] == target[last];
        assert(q <= last) by {
            if q > last {
                assert(order[q] == target[q]);
                assert(target[q] != target[last]);
            }
        }
        let next = swapped(order, last, q);
        swap_keeps_play_order(order, last, q, count);
        assert forall|i: int| last - 1 < i < count implies #[trigger] next[i] == target[i] by {
            if i > last {
                assert(order[i] == target[i]);
            }
        }
        let rest = draws_for(next, target, count, last - 1);
        let picks = rest.update(last, q);
        dealing_looks_at_the_front(next, rest, picks, last - 1);
        picks
    }
}

/// The files of a show, in the order they play.
pub open spec fn played(show: PlaylistState) -> Seq<FilePath> {
    Seq::new(
        show.files.len(),
        |p: int|
            if show.order.len() > 0 {
                show.files[show.order[p] as int]
            } else {
                show.files[p]
            },
    )
}

/// A step goes along the files as they play: on by one, back by one, and past
/// an end round to the other one where the show loops, and nowhere where it
/// does not.
pub proof fn steps_follow_the_show(show: PlaylistState, delta: int)
    requires
        show.valid(),
        show.files.len() > 0,
    ensures
        show.order.len() == 0 ==> played(show) == show.files,
        show.order.len() > 0 ==> forall|p: int|
            0 <= p < show.files.len() ==> #[trigger] played(show)[p]
                == show.files[show.order[p] as int],
        show.current() == Some(played(show)[show.position]),
        show.stepped(delta) == show.at(show.stepped(delta).position),
        0 <= show.position + delta < show.files.len() ==> show.stepped(delta).current() == Some(
            played(show)[show.position + delta],
        ) && show.ahead(delta) == Some(played(show)[show.position + delta]),
        !(0 <= show.position + delta < show.files.len()) && !show.loops ==> show.stepped(delta)
            == show && show.target(delta) is None && show.ahead(delta) is None,
        show.loops && show.position == show.files.len() - 1 ==> show.stepped(1).current() == Some(
            played(show)[0],
        ) && show.ahead(1) == Some(played(show)[0]),
        show.loops && show.position == 0 ==> show.stepped(-1).current() == Some(
            played(show).last(),
        ) && show.ahead(-1) == Some(played(show).last()),
        show.loops ==> show.stepped(show.files.len() as int) == show,
        show.loops ==> 0 <= show.stepped(delta).position < show.files.len() && (show.stepped(
            delta,
        ).position - show.position - delta) % (show.files.len() as int) == 0,
        show.at(0).current() == Some(played(show)[0]),
        show.at(show.last()).current() == Some(played(show).last()),
{
    let count = show.files.len() as int;
    assert(0 <= show.position < count);
    assert(show.order.len() == 0 ==> played(show) =~= show.files);
    if show.loops {
        assert(count % count == 0) by (nonlinear_arith)
            requires
                count > 0,
        ;
        let p = show.position;
        assert((p + count) % count == p) by (nonlinear_arith)
            requires
                0 <= p < count,
        ;
        assert((-1int) % count == count - 1) by (nonlinear_arith)
            requires
                count > 0,
        ;
        let next = p + delta;
        let q = next / count;
        let r = next % count;
        vstd::arithmetic::div_mod::lemma_fundamental_div_mod(next, count);
        vstd::arithmetic::div_mod::lemma_mod_bound(next, count);
        assert((r - next) == count * (-q)) by (nonlinear_arith)
            requires
                next == count * q + r,
        ;
        vstd::arithmetic::div_mod::lemma_fundamental_div_mod_converse(r - next, count, -q, 0);
        vstd::arithmetic::div_mod::lemma_fundamental_div_mod_converse(0, count, 0, 0);
    }
}

/// A step in the sorted order goes along the files as they are sorted,
/// shuffled or not.
pub proof fn sorted_steps_follow_the_files(show: PlaylistState, delta: int)
    requires
        show.valid(),
        show.files.len() > 0,
    ensures
        ({
            let index = show.file_at(show.position);
            let after = show.stepped_original(delta);
            let count = show.files.len() as int;
            &&& after.files == show.files && after.order == show.order && after.loops == show.loops
            &&& show.current() == Some(show.files[index])
            &&& 0 <= index + delta < count ==> after.current() == Some(show.files[index + delta])
                && show.can_step_original(delta)
            &&& !(0 <= index + delta < count) && !show.loops ==> after == show
                && !show.can_step_original(delta)
            &&& show.loops && index == count - 1 && delta == 1 ==> after.current() == Some(
                show.files[0],
            )
            &&& show.loops && index == 0 && delta == -1 ==> after.current() == Some(
                show.files.last(),
            )
        }),
{
    let index = show.file_at(show.position);
    let count = show.files.len() as int;
    assert(0 <= index < count);
    assert(count % count == 0) by (nonlinear_arith)
        requires
            count > 0,
    ;
    assert((-1int) % count == count - 1) by (nonlinear_arith)
        requires
            count > 0,
    ;
    if 0 <= index + delta < count {
        let next = index + delta;
        assert(next % count == next) by (nonlinear_arith)
            requires
                0 <= next < count,
        ;
    }
    if show.order.len() > 0 {
        match show.original_target(delta) {
            Some(file) => {
                if show.loops {
                    let next = index + delta;
                    assert(0 <= next % count < count) by (nonlinear_arith)
                        requires
                            count > 0,
                    ;
                }
                assert(plays(show.order, file));
                let r = rank_of(show.order, file);
                assert(0 <= r < show.order.len() && show.order[r] == file);
            },
            None => {},
        }
    }
}

/// A file that is taken out of a show leaves the others playing as they did,
/// and where it was on screen the next one takes its place, or the one before
/// it at the end.
pub proof fn removal_closes_the_gap(show: PlaylistState, file: int)
    requires
        show.valid(),
        0 <= file < show.files.len(),
    ensures
        ({
            let after = show.without_file(file);
            let gap = show.position_of(file);
            let count = show.files.len() as int;
            &&& 0 <= gap < count && played(show)[gap] == show.files[file]
            &&& after.files == show.files.remove(file)
            &&& played(after) == played(show).remove(gap)
            &&& gap < show.position ==> after.position == show.position - 1
            &&& gap > show.position ==> after.position == show.position
            &&& gap == show.position && gap + 1 < count ==> after.current() == Some(
                played(show)[gap + 1],
            )
            &&& gap == show.position && gap + 1 == count && count > 1 ==> after.current() == Some(
                played(show)[gap - 1],
            )
            &&& after.loops == show.loops
        }),
{
    let after = show.without_file(file);
    let gap = show.position_of(file);
    let count = show.files.len() as int;
    if show.order.len() > 0 {
        assert(plays(show.order, file));
        assert(0 <= gap < show.order.len() && show.order[gap] == file);
        closing_up_keeps_play_order(show.order, gap, file, count as nat);
        if count > 1 {
            assert(after.order.len() > 0);
            assert forall|p: int| 0 <= p < count - 1 implies #[trigger] played(after)[p]
                == played(show).remove(gap)[p] by {
                let q = if p < gap { p } else { p + 1 };
                let index = show.order[q] as int;
                assert(show.order.remove(gap)[p] == show.order[q]);
                assert(index != file);
                assert(after.order[p] == (if index > file { index - 1 } else { index }));
            }
        }
        assert(played(after) =~= played(show).remove(gap));
    } else {
        assert(played(after) =~= played(show).remove(gap));
    }
}

/// A step in the sorted order lands on the file that is as far away.
pub proof fn sorted_steps_land(show: PlaylistState, delta: int)
    requires
        show.valid(),
        show.files.len() > 0,
        0 <= show.file_at(show.position) + delta < show.files.len(),
    ensures
        show.stepped_original(delta).valid(),
        show.stepped_original(delta).file_at(show.stepped_original(delta).position)
            == show.file_at(show.position) + delta,
{
    let next = show.file_at(show.position) + delta;
    let count = show.files.len() as int;
    assert(next % count == next) by (nonlinear_arith)
        requires
            0 <= next < count,
    ;
    if show.order.len() > 0 {
        assert(plays(show.order, next));
        let r = rank_of(show.order, next);
        assert(0 <= r < show.order.len() && show.order[r] == next);
    }
}

} // verus!
