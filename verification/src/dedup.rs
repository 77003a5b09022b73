//! Which forwarded messages a broker has already seen. Every broker numbers
//! what it publishes; a message that reaches a broker again over another
//! bridge path carries the same origin and number, and is dropped.
use vstd::prelude::*;

verus! {

/// How many numbers past the watermark a broker remembers for one origin.
pub const REORDER_WINDOW: usize = 1024;

/// How many origins a broker tracks at once; the least recently heard one
/// makes room for a new one.
pub const MAX_TRACKED_ORIGINS: usize = 1024;

/// What one origin has been heard to publish: every number up to `watermark`,
/// and the numbers in `ahead` beyond it.
pub struct OriginProgress {
    pub watermark: u64,
    pub ahead: Vec<u64>,
    pub last_seen: u64,
}

pub struct OriginEntry {
    pub origin: String,
    pub progress: OriginProgress,
}

/// The origins a broker tracks, and the clock that orders their use.
pub struct OriginTracker {
    pub entries: Vec<OriginEntry>,
    pub tick: u64,
}

/// The lowest number `ahead` holds once `sequence` joined it.
pub open spec fn lowest_with(ahead: Seq<u64>, sequence: u64) -> u64 {
    if ahead.len() > 0 && ahead[0] < sequence {
        ahead[0]
    } else {
        sequence
    }
}

impl OriginProgress {
    /// `ahead` is strictly increasing, lies past the next number the
    /// watermark waits for, and fits the window.
    pub open spec fn wf(&self) -> bool {
        &&& forall|i: int, j: int| 0 <= i < j < self.ahead@.len() ==> self.ahead@[i] < self.ahead@[j]
        &&& forall|i: int| 0 <= i < self.ahead@.len() ==> self.watermark + 1 < #[trigger] self.ahead@[i]
        &&& self.ahead@.len() <= REORDER_WINDOW
    }

    /// `ahead` is strictly increasing and lies past the watermark.
    pub open spec fn ordered(&self) -> bool {
        &&& forall|i: int, j: int| 0 <= i < j < self.ahead@.len() ==> self.ahead@[i] < self.ahead@[j]
        &&& forall|i: int| 0 <= i < self.ahead@.len() ==> self.watermark < #[trigger] self.ahead@[i]
    }

    /// Moves the watermark over every number that directly follows it.
    fn compact(&mut self)
        requires
            old(self).ordered(),
        ensures
            final(self).ordered(),
            forall|i: int| 0 <= i < final(self).ahead@.len() ==> final(self).watermark + 1
                < #[trigger] final(self).ahead@[i],
            forall|s: u64| final(self).seen(s) == old(self).seen(s),
            final(self).ahead@.len() <= old(self).ahead@.len(),
            final(self).ahead@.len() == old(self).ahead@.len() ==> final(self).watermark == old(self).watermark
                && final(self).ahead@ == old(self).ahead@,
            final(self).ahead@.len() < old(self).ahead@.len() ==> old(self).ahead@[0] == old(self).watermark + 1,
            final(self).watermark >= old(self).watermark,
            final(self).last_seen == old(self).last_seen,
    {
        while self.ahead.len() > 0 && self.ahead[0] == self.watermark + 1
            invariant
                self.ordered(),
                old(self).ordered(),
                forall|s: u64| self.seen(s) == old(self).seen(s),
                self.ahead@.len() <= old(self).ahead@.len(),
                self.ahead@.len() == old(self).ahead@.len() ==> self.watermark == old(self).watermark
                    && self.ahead@ == old(self).ahead@,
                self.ahead@.len() < old(self).ahead@.len() ==> old(self).ahead@[0] == old(self).watermark + 1,
                self.watermark >= old(self).watermark,
                self.last_seen == old(self).last_seen,
            decreases self.ahead@.len(),
        {
            let ghost before = *self;
            let next = self.ahead.remove(0);
            self.watermark = next;
            proof {
                assert forall|s: u64| self.seen(s) == before.seen(s) by {
                    if before.ahead@.contains(s) && s > self.watermark {
                        let k = choose|k: int| 0 <= k < before.ahead@.len() && before.ahead@[k] == s;
                        assert(k != 0);
                        assert(self.ahead@[k - 1] == s);
                    }
                    if self.ahead@.contains(s) {
                        let k = choose|k: int| 0 <= k < self.ahead@.len() && self.ahead@[k] == s;
                        assert(before.ahead@[k + 1] == s);
                    }
                }
            }
        }
        proof {
            if self.ahead@.len() > 0 {
                assert forall|i: int| 0 <= i < self.ahead@.len() implies self.watermark + 1
                    < #[trigger] self.ahead@[i] by {
                    if i > 0 {
                        assert(self.ahead@[0] < self.ahead@[i]);
                    }
                }
            }
        }
    }

    /// Takes `sequence` in; says whether it was new. A new number is marked
    /// seen, and nothing else is, unless the window overflows: then every
    /// number up to the lowest one held beyond the watermark counts as seen.
    fn admit_sequence(&mut self, sequence: u64) -> (accepted: bool)
        requires
            old(self).wf(),
        ensures
            final(self).wf(),
            final(self).last_seen == old(self).last_seen,
            accepted == !old(self).seen(sequence),
            !accepted ==> final(self).watermark == old(self).watermark && final(self).ahead@ == old(self).ahead@,
            accepted && old(self).ahead@.len() < REORDER_WINDOW ==> forall|s: u64|
                #[trigger] final(self).seen(s) == (old(self).seen(s) || s == sequence),
            accepted && old(self).ahead@.len() >= REORDER_WINDOW ==> forall|s: u64|
                #[trigger] final(self).seen(s) == (old(self).seen(s) || s == sequence || s <= lowest_with(
                    old(self).ahead@,
                    sequence,
                )),
            final(self).seen(sequence),
            forall|s: u64| old(self).seen(s) ==> final(self).seen(s),
            forall|s: u64| final(self).seen(s) ==> old(self).seen(s) || s == sequence || s <= final(self).watermark,
            final(self).watermark >= old(self).watermark,
    {
        if sequence <= self.watermark {
            return false;
        }
        let mut position: usize = 0;
        while position < self.ahead.len() && self.ahead[position] < sequence
            invariant
                position <= self.ahead@.len(),
                forall|j: int| 0 <= j < position ==> self.ahead@[j] < sequence,
            decreases self.ahead@.len() - position,
        {
            position = position + 1;
        }
        if position < self.ahead.len() && self.ahead[position] == sequence {
            return false;
        }
        proof {
            assert forall|j: int| 0 <= j < self.ahead@.len() implies self.ahead@[j] != sequence by {
                if j > position {
                    assert(self.ahead@[position as int] < self.ahead@[j]);
                }
            }
            assert(!self.ahead@.contains(sequence));
        }
        let ghost start = *self;
        self.ahead.insert(position, sequence);
        proof {
            assert forall|s: u64| self.seen(s) == (start.seen(s) || s == sequence) by {
                if self.ahead@.contains(s) {
                    let k = choose|k: int| 0 <= k < self.ahead@.len() && self.ahead@[k] == s;
                    if k < position {
                        assert(start.ahead@[k] == s);
                    } else if k > position {
                        assert(start.ahead@[k - 1] == s);
                    }
                }
                if start.ahead@.contains(s) {
                    let k = choose|k: int| 0 <= k < start.ahead@.len() && start.ahead@[k] == s;
                    if k < position {
                        assert(self.ahead@[k] == s);
                    } else {
                        assert(self.ahead@[k + 1] == s);
                    }
                }
                if s == sequence {
                    assert(self.ahead@[position as int] == s);
                }
            }
            assert forall|i: int, j: int| 0 <= i < j < self.ahead@.len() implies self.ahead@[i] < self.ahead@[j] by {
                if j < position {
                } else if i > position {
                } else if i == position {
                    assert(start.ahead@[j - 1] > sequence);
                } else if j == position {
                } else {
                    assert(start.ahead@[i] < start.ahead@[j - 1]);
                }
            }
            if position > 0 {
                assert(self.ahead@[0] == start.ahead@[0]);
            }
            assert(self.ahead@[0] == lowest_with(start.ahead@, sequence));
        }
        let ghost inserted = *self;
        assert(self.ahead@[position as int] == sequence);
        assert(self.seen(sequence));
        self.compact();
        if self.ahead.len() > REORDER_WINDOW {
            let ghost before = *self;
            let smallest = self.ahead.remove(0);
            self.watermark = smallest;
            proof {
                assert(smallest == lowest_with(start.ahead@, sequence));
                assert forall|s: u64| #[trigger] self.seen(s) == (before.seen(s) || s <= smallest) by {
                    if before.ahead@.contains(s) && s > smallest {
                        let k = choose|k: int| 0 <= k < before.ahead@.len() && before.ahead@[k] == s;
                        assert(k != 0);
                        assert(self.ahead@[k - 1] == s);
                    }
                    if self.ahead@.contains(s) {
                        let k = choose|k: int| 0 <= k < self.ahead@.len() && self.ahead@[k] == s;
                        assert(before.ahead@[k + 1] == s);
                    }
                }
            }
            self.compact();
        } else {
            proof {
                if start.ahead@.len() >= REORDER_WINDOW {
                    assert(self.ahead@.len() < inserted.ahead@.len());
                    assert(inserted.ahead@[0] == inserted.watermark + 1);
                    if position > 0 {
                        assert(start.ahead@[0] == inserted.ahead@[0]);
                    }
                    assert(lowest_with(start.ahead@, sequence) == sequence);
                }
            }
        }
        true
    }

    /// Whether `sequence` has been heard from this origin.
    pub open spec fn seen(&self, sequence: u64) -> bool {
        sequence <= self.watermark || self.ahead@.contains(sequence)
    }
}

impl OriginTracker {
    pub open spec fn wf(&self) -> bool {
        &&& forall|i: int, j: int|
            0 <= i < j < self.entries@.len() ==> #[trigger] self.entries@[i].origin@
                != #[trigger] self.entries@[j].origin@
        &&& forall|i: int| 0 <= i < self.entries@.len() ==> (#[trigger] self.entries@[i]).progress.wf()
        &&& forall|i: int| 0 <= i < self.entries@.len() ==> (#[trigger] self.entries@[i]).progress.last_seen <= self.tick
        &&& self.entries@.len() <= MAX_TRACKED_ORIGINS
    }

    pub open spec fn index_of(&self, origin: Seq<char>) -> int {
        choose|i: int| 0 <= i < self.entries@.len() && #[trigger] self.entries@[i].origin@ == origin
    }

    pub open spec fn tracks(&self, origin: Seq<char>) -> bool {
        exists|i: int| 0 <= i < self.entries@.len() && #[trigger] self.entries@[i].origin@ == origin
    }

    pub open spec fn progress_of(&self, origin: Seq<char>) -> OriginProgress {
        self.entries@[self.index_of(origin)].progress
    }

    /// Whether `sequence` from `origin` has been heard while `origin` has been
    /// tracked.
    pub open spec fn has_seen(&self, origin: Seq<char>, sequence: u64) -> bool {
        self.tracks(origin) && self.progress_of(origin).seen(sequence)
    }

    /// An empty tracker.
    pub fn new() -> (tracker: OriginTracker)
        ensures
            tracker.wf(),
            tracker.tick == 0,
            tracker.entries@.len() == 0,
    {
        OriginTracker { entries: Vec::new(), tick: 0 }
    }

    proof fn lemma_index_of(&self, i: int)
        requires
            self.wf(),
            0 <= i < self.entries@.len(),
        ensures
            self.tracks(self.entries@[i].origin@),
            self.index_of(self.entries@[i].origin@) == i,
    {
        let origin = self.entries@[i].origin@;
        assert(self.tracks(origin));
        let k = self.index_of(origin);
        if k != i {
            if k < i {
                assert(self.entries@[k].origin@ != self.entries@[i].origin@);
            } else {
                assert(self.entries@[i].origin@ != self.entries@[k].origin@);
            }
        }
    }

    fn find(&self, origin: &String) -> (found: Option<usize>)
        requires
            self.wf(),
        ensures
            found is None ==> !self.tracks(origin@),
            found matches Some(i) ==> i < self.entries@.len() && self.entries@[i as int].origin@
                == origin@,
    {
        let mut index: usize = 0;
        while index < self.entries.len()
            invariant
                index <= self.entries@.len(),
                forall|j: int| 0 <= j < index ==> #[trigger] self.entries@[j].origin@ != origin@,
            decreases self.entries@.len() - index,
        {
            if self.entries[index].origin == *origin {
                return Some(index);
            }
            index = index + 1;
        }
        None
    }

    fn stalest(&self) -> (stalest: usize)
        requires
            self.entries@.len() > 0,
        ensures
            stalest < self.entries@.len(),
            forall|j: int|
                0 <= j < self.entries@.len() ==> self.entries@[stalest as int].progress.last_seen
                    <= #[trigger] self.entries@[j].progress.last_seen,
    {
        let mut best: usize = 0;
        let mut index: usize = 1;
        while index < self.entries.len()
            invariant
                1 <= index <= self.entries@.len(),
                best < index,
                forall|j: int|
                    0 <= j < index ==> self.entries@[best as int].progress.last_seen
                        <= #[trigger] self.entries@[j].progress.last_seen,
            decreases self.entries@.len() - index,
        {
            if self.entries[index].progress.last_seen < self.entries[best].progress.last_seen {
                best = index;
            }
            index = index + 1;
        }
        best
    }

    /// Notes that `sequence` from `origin` arrived, and says whether it is
    /// new. A number is new unless it was heard before from an origin still
    /// tracked, or it is zero, which no broker hands out. A new origin makes
    /// room for itself by dropping the origin heard least recently once
    /// `MAX_TRACKED_ORIGINS` are tracked.
    pub fn record_seen_message(&mut self, origin: &String, sequence: u64) -> (accepted: bool)
        requires
            old(self).wf(),
            old(self).tick < u64::MAX,
        ensures
            final(self).wf(),
            final(self).tick == old(self).tick + 1,
            accepted == !(old(self).has_seen(origin@, sequence) || sequence == 0),
            !old(self).tracks(origin@) ==> forall|s: u64|
                #[trigger] final(self).has_seen(origin@, s) == (s == 0 || s == sequence),
            old(self).tracks(origin@) && old(self).progress_of(origin@).ahead@.len() < REORDER_WINDOW ==> forall|s: u64|
                #[trigger] final(self).has_seen(origin@, s) == (old(self).has_seen(origin@, s) || s == sequence),
            !accepted && old(self).tracks(origin@) ==> forall|s: u64|
                #[trigger] final(self).has_seen(origin@, s) == old(self).has_seen(origin@, s),
            accepted && old(self).tracks(origin@) && old(self).progress_of(origin@).ahead@.len() >= REORDER_WINDOW
                ==> forall|s: u64|
                #[trigger] final(self).has_seen(origin@, s) == (old(self).has_seen(origin@, s) || s == sequence
                    || s <= lowest_with(old(self).progress_of(origin@).ahead@, sequence)),
            final(self).tracks(origin@),
            final(self).has_seen(origin@, sequence),
            final(self).progress_of(origin@).last_seen == final(self).tick,
            final(self).progress_of(origin@).watermark >= old(self).progress_of(origin@).watermark
                || !old(self).tracks(origin@),
            forall|s: u64|
                final(self).has_seen(origin@, s) ==> old(self).has_seen(origin@, s) || s == sequence
                    || s <= final(self).progress_of(origin@).watermark,
            forall|other: Seq<char>, s: u64|
                old(self).has_seen(other, s) && final(self).tracks(other) ==> final(self).has_seen(other, s),
            forall|other: Seq<char>|
                other != origin@ && #[trigger] final(self).tracks(other) ==> old(self).tracks(other)
                    && final(self).progress_of(other) == old(self).progress_of(other),
            forall|other: Seq<char>|
                old(self).tracks(other) && (old(self).tracks(origin@) || old(self).entries@.len()
                    < MAX_TRACKED_ORIGINS) ==> #[trigger] final(self).tracks(other),
            forall|other: Seq<char>|
                old(self).tracks(other) && !final(self).tracks(other) ==> forall|j: int|
                    0 <= j < old(self).entries@.len() ==> old(self).progress_of(other).last_seen
                        <= #[trigger] old(self).entries@[j].progress.last_seen,
    {
        self.tick = self.tick + 1;
        let tick = self.tick;
        let ghost start = *old(self);
        let ghost ticked = *self;
        assert forall|o: Seq<char>| #[trigger] ticked.tracks(o) == start.tracks(o) by {
            if start.tracks(o) {
                let k = choose|k: int| 0 <= k < start.entries@.len() && #[trigger] start.entries@[k].origin@ == o;
                assert(ticked.entries@[k].origin@ == o);
            }
            if ticked.tracks(o) {
                let k = choose|k: int| 0 <= k < ticked.entries@.len() && #[trigger] ticked.entries@[k].origin@ == o;
                assert(start.entries@[k].origin@ == o);
            }
        }
        let position = match self.find(origin) {
            Some(i) => i,
            None => {
                let ghost before_evict = *self;
                if self.entries.len() >= MAX_TRACKED_ORIGINS {
                    let stalest = self.stalest();
                    let ghost evicted = self.entries@[stalest as int].origin@;
                    self.entries.remove(stalest);
                    proof {
                        assert forall|o: Seq<char>| #[trigger] self.tracks(o) implies before_evict.tracks(o)
                            && o != evicted && before_evict.progress_of(o) == self.progress_of(o) by {
                            let k = choose|k: int| 0 <= k < self.entries@.len() && #[trigger] self.entries@[k].origin@ == o;
                            let kk = if k < stalest { k } else { k + 1 };
                            assert(before_evict.entries@[kk].origin@ == o);
                            before_evict.lemma_index_of(kk);
                            self.lemma_index_of(k);
                        }
                        assert forall|o: Seq<char>| before_evict.tracks(o) && o != evicted implies #[trigger] self.tracks(o) by {
                            let k = choose|k: int| 0 <= k < before_evict.entries@.len() && #[trigger] before_evict.entries@[k].origin@ == o;
                            if k < stalest {
                                assert(self.entries@[k].origin@ == o);
                            } else {
                                assert(k != stalest);
                                assert(self.entries@[k - 1].origin@ == o);
                            }
                        }
                        assert forall|o: Seq<char>| before_evict.tracks(o) && !self.tracks(o) implies
                            forall|j: int| 0 <= j < before_evict.entries@.len() ==>
                                before_evict.progress_of(o).last_seen <= #[trigger] before_evict.entries@[j].progress.last_seen by {
                            assert(o == evicted);
                            before_evict.lemma_index_of(stalest as int);
                        }
                    }
                }
                let ghost before_push = *self;
                self.entries.push(OriginEntry {
                    origin: origin.clone(),
                    progress: OriginProgress { watermark: 0, ahead: Vec::new(), last_seen: 0 },
                });
                proof {
                    let n = self.entries@.len() - 1;
                    assert forall|o: Seq<char>| o != origin@ && #[trigger] self.tracks(o) implies before_push.tracks(o)
                        && before_push.progress_of(o) == self.progress_of(o) by {
                        let k = choose|k: int| 0 <= k < self.entries@.len() && #[trigger] self.entries@[k].origin@ == o;
                        assert(k != n);
                        assert(before_push.entries@[k].origin@ == o);
                        before_push.lemma_index_of(k);
                        self.lemma_index_of(k);
                    }
                    assert forall|o: Seq<char>| before_push.tracks(o) implies #[trigger] self.tracks(o) by {
                        let k = choose|k: int| 0 <= k < before_push.entries@.len() && #[trigger] before_push.entries@[k].origin@ == o;
                        assert(self.entries@[k].origin@ == o);
                    }
                }
                (self.entries.len() - 1) as usize
            },
        };
        let ghost located = *self;
        proof {
            assert(located.wf());
            located.lemma_index_of(position as int);
        }
        let mut progress = OriginProgress {
            watermark: self.entries[position].progress.watermark,
            ahead: self.entries[position].progress.ahead.clone(),
            last_seen: self.entries[position].progress.last_seen,
        };
        proof {
            assert(progress.ahead@ =~= located.entries@[position as int].progress.ahead@);
            assert(start.tracks(origin@) ==> located.entries@ == start.entries@);
        }
        let ghost pre = progress;
        let accepted = progress.admit_sequence(sequence);
        let ghost admitted = progress;
        progress.last_seen = tick;
        let origin_copy = self.entries[position].origin.clone();
        self.entries.set(position, OriginEntry { origin: origin_copy, progress });
        proof {
            self.lemma_index_of(position as int);
            assert forall|o: Seq<char>| o != origin@ implies (#[trigger] self.tracks(o) == located.tracks(o))
                && (self.tracks(o) ==> self.progress_of(o) == located.progress_of(o)) by {
                if located.tracks(o) {
                    let k = choose|k: int| 0 <= k < located.entries@.len() && #[trigger] located.entries@[k].origin@ == o;
                    assert(self.entries@[k].origin@ == o);
                    located.lemma_index_of(k);
                    self.lemma_index_of(k);
                }
                if self.tracks(o) {
                    let k = choose|k: int| 0 <= k < self.entries@.len() && #[trigger] self.entries@[k].origin@ == o;
                    assert(located.entries@[k].origin@ == o);
                }
            }
            assert(self.progress_of(origin@) == progress);
            if !start.tracks(origin@) {
                assert(pre.watermark == 0 && pre.ahead@.len() == 0);
                assert forall|s: u64| #[trigger] self.has_seen(origin@, s) == (s == 0 || s == sequence) by {
                    assert(pre.seen(s) == (s == 0));
                    assert(progress.seen(s) == admitted.seen(s));
                    if !accepted {
                        assert(sequence == 0);
                    }
                }
            } else {
                assert forall|s: u64| #[trigger] pre.seen(s) == start.has_seen(origin@, s) by {}
                assert(pre.ahead@ == start.progress_of(origin@).ahead@);
                assert forall|s: u64| #[trigger] self.has_seen(origin@, s) == admitted.seen(s) by {}
                if accepted && pre.ahead@.len() < REORDER_WINDOW {
                    assert forall|s: u64| #[trigger] self.has_seen(origin@, s) == (start.has_seen(origin@, s)
                        || s == sequence) by {
                        assert(admitted.seen(s) == (pre.seen(s) || s == sequence));
                        assert(pre.seen(s) == start.has_seen(origin@, s));
                    }
                }
                if accepted && pre.ahead@.len() >= REORDER_WINDOW {
                    assert forall|s: u64| #[trigger] self.has_seen(origin@, s) == (start.has_seen(origin@, s)
                        || s == sequence || s <= lowest_with(pre.ahead@, sequence)) by {
                        assert(admitted.seen(s) == (pre.seen(s) || s == sequence || s <= lowest_with(
                            pre.ahead@,
                            sequence,
                        )));
                        assert(pre.seen(s) == start.has_seen(origin@, s));
                    }
                }
                if !accepted {
                    assert forall|s: u64| #[trigger] self.has_seen(origin@, s) == (start.has_seen(origin@, s)
                        || s == sequence) by {
                        assert(progress.seen(s) == pre.seen(s));
                        assert(pre.seen(s) == start.has_seen(origin@, s));
                    }
                    assert forall|s: u64| #[trigger] self.has_seen(origin@, s) == start.has_seen(origin@, s) by {
                        assert(progress.seen(s) == pre.seen(s));
                    }
                }
            }
            assert forall|s: u64| self.has_seen(origin@, s) implies start.has_seen(origin@, s) || s == sequence
                || s <= self.progress_of(origin@).watermark by {
                assert(progress.seen(s));
                assert(pre.seen(s) || s == sequence || s <= progress.watermark);
                if start.tracks(origin@) {
                    assert(pre.seen(s) == start.progress_of(origin@).seen(s));
                } else {
                    assert(pre.watermark == 0);
                    assert(pre.ahead@.len() == 0);
                    if pre.seen(s) {
                        assert(!pre.ahead@.contains(s));
                        assert(s <= progress.watermark);
                    }
                }
            }
            assert forall|other: Seq<char>, s: u64| start.has_seen(other, s) && self.tracks(other)
                implies self.has_seen(other, s) by {
                if other == origin@ {
                    assert(pre.seen(s) == start.progress_of(origin@).seen(s));
                } else {
                    assert(self.progress_of(other) == located.progress_of(other));
                }
            }
        }
        accepted
    }
}

} // verus!
