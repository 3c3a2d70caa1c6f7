//! The table of scans in progress, keyed by account or connection id: the
//! last progress reported, the phase, and whether the scan was asked to
//! stop.

use vstd::prelude::*;
use crate::text::to_owned_string;

verus! {

/// The phase that a cloud scan has reached.
#[derive(Clone, Copy, PartialEq, Eq, Structural, Debug)]
pub enum ScanPhase {
    Full,
    Incremental,
    Finalizing,
}

/// What the table records of one scan.
#[derive(Clone, Copy, PartialEq, Eq, Structural, Debug)]
pub struct ScanState {
    pub items: u64,
    pub total: u64,
    pub phase: Option<ScanPhase>,
    pub cancelled: bool,
}

/// A scan that has just started: no progress, no phase, not cancelled.
pub open spec fn fresh_state() -> ScanState {
    ScanState { items: 0, total: 0, phase: None, cancelled: false }
}

/// A scan after a request to stop: marked cancelled, if it is running.
pub open spec fn cancelled_state(o: Option<ScanState>) -> Option<ScanState> {
    match o {
        Some(st) => Some(ScanState { cancelled: true, ..st }),
        None => None,
    }
}

/// A scan after it is registered: one already running stays as it is,
/// otherwise a fresh one starts.
pub open spec fn begun_state(o: Option<ScanState>) -> Option<ScanState> {
    match o {
        Some(st) => Some(st),
        None => Some(fresh_state()),
    }
}

/// A scan that is running and was not asked to stop.
pub open spec fn scan_active(o: Option<ScanState>) -> bool {
    o matches Some(st) && !st.cancelled
}

/// A scan that is running and was asked to stop.
pub open spec fn scan_cancelled(o: Option<ScanState>) -> bool {
    o matches Some(st) && st.cancelled
}

/// A scan that was asked to stop is no longer active, and asking again
/// changes nothing; a scan that is registered where none ran is active.
pub proof fn law_stop_and_begin(o: Option<ScanState>)
    ensures
        !scan_active(cancelled_state(o)),
        o is Some ==> scan_cancelled(cancelled_state(o)),
        cancelled_state(cancelled_state(o)) == cancelled_state(o),
        o is None ==> scan_active(begun_state(o)) && !scan_cancelled(begun_state(o)),
        o is Some ==> begun_state(o) == o,
{
}

#[derive(Debug)]
pub struct ScanEntry {
    pub id: String,
    pub state: ScanState,
}

pub ghost struct EntryView {
    pub id: Seq<char>,
    pub state: ScanState,
}

pub open spec fn entries_view(v: Seq<ScanEntry>) -> Seq<EntryView> {
    v.map_values(|e: ScanEntry| EntryView { id: e.id@, state: e.state })
}

pub open spec fn keys_distinct(s: Seq<EntryView>) -> bool {
    forall|i: int, j: int| 0 <= i < s.len() && 0 <= j < s.len() && i != j ==> s[i].id != s[j].id
}

/// The state recorded under `id`, if a scan with that id is in progress.
pub open spec fn lookup(s: Seq<EntryView>, id: Seq<char>) -> Option<ScanState> {
    if exists|k: int| 0 <= k < s.len() && s[k].id == id {
        Some(s[choose|k: int| 0 <= k < s.len() && s[k].id == id].state)
    } else {
        None
    }
}

/// The scans in progress.
#[derive(Debug)]
pub struct ScanTable {
    entries: Vec<ScanEntry>,
}

impl View for ScanTable {
    type V = Seq<EntryView>;

    closed spec fn view(&self) -> Seq<EntryView> {
        entries_view(self.entries@)
    }
}

proof fn lemma_lookup_at(s: Seq<EntryView>, k: int)
    requires
        keys_distinct(s),
        0 <= k < s.len(),
    ensures
        lookup(s, s[k].id) == Some(s[k].state),
{
    let c = choose|m: int| 0 <= m < s.len() && s[m].id == s[k].id;
    assert(c == k);
}

proof fn lemma_lookup_update(s: Seq<EntryView>, k: int, st: ScanState)
    requires
        keys_distinct(s),
        0 <= k < s.len(),
    ensures
        keys_distinct(s.update(k, EntryView { id: s[k].id, state: st })),
        forall|id: Seq<char>| #[trigger] lookup(s.update(k, EntryView { id: s[k].id, state: st }), id)
            == if id == s[k].id { Some(st) } else { lookup(s, id) },
{
    let t = s.update(k, EntryView { id: s[k].id, state: st });
    assert forall|id: Seq<char>| #[trigger] lookup(t, id) == if id == s[k].id { Some(st) } else { lookup(s, id) } by {
        if id == s[k].id {
            lemma_lookup_at(t, k);
        } else if exists|m: int| 0 <= m < s.len() && s[m].id == id {
            let m = choose|m: int| 0 <= m < s.len() && s[m].id == id;
            lemma_lookup_at(s, m);
            assert(t[m].id == id);
            lemma_lookup_at(t, m);
        } else {
            assert(!exists|m: int| 0 <= m < t.len() && t[m].id == id) by {
                if exists|m: int| 0 <= m < t.len() && t[m].id == id {
                    let m = choose|m: int| 0 <= m < t.len() && t[m].id == id;
                    assert(s[m].id == id);
                }
            }
        }
    }
}

impl ScanTable {
    /// Keys pairwise distinct.
    pub closed spec fn wf(&self) -> bool {
        keys_distinct(self@)
    }

    /// The state of the scan with this id, if it is in progress.
    pub closed spec fn state_of(&self, id: Seq<char>) -> Option<ScanState> {
        lookup(self@, id)
    }

    /// No scan in progress.
    pub fn new() -> (r: ScanTable)
        ensures
            r.wf(),
            forall|id: Seq<char>| r.state_of(id) is None,
    {
        let r = ScanTable { entries: Vec::new() };
        assert(r@ == Seq::<EntryView>::empty());
        r
    }

    fn position(&self, id: &str) -> (r: Option<usize>)
        requires
            self.wf(),
        ensures
            r matches Some(k) ==> k < self@.len() && self@[k as int].id == id@,
            r is None ==> !exists|k: int| 0 <= k < self@.len() && self@[k].id == id@,
    {
        let idc = to_owned_string(id);
        let n = self.entries.len();
        for k in 0..n
            invariant
                n == self@.len(),
                idc@ == id@,
                forall|m: int| 0 <= m < k ==> self@[m].id != id@,
        {
            if self.entries[k].id == idc {
                return Some(k);
            }
        }
        None
    }

    /// The state of the scan with this id, if it is in progress.
    pub fn get(&self, id: &str) -> (r: Option<ScanState>)
        requires
            self.wf(),
        ensures
            r == self.state_of(id@),
    {
        match self.position(id) {
            Some(k) => {
                proof {
                    lemma_lookup_at(self@, k as int);
                }
                Some(self.entries[k].state)
            },
            None => None,
        }
    }

    /// Registers a scan under `id` unless one is already in progress; a new
    /// scan starts fresh.
    pub fn begin(&mut self, id: &str) -> (r: Option<ScanState>)
        requires
            old(self).wf(),
        ensures
            final(self).wf(),
            r == old(self).state_of(id@),
            final(self).state_of(id@) == begun_state(old(self).state_of(id@)),
            forall|other: Seq<char>| other != id@ ==> #[trigger] final(self).state_of(other) == old(self).state_of(other),
    {
        let ghost s = self@;
        match self.position(id) {
            Some(k) => {
                proof {
                    lemma_lookup_at(s, k as int);
                }
                Some(self.entries[k].state)
            },
            None => {
                let st = ScanState { items: 0, total: 0, phase: None, cancelled: false };
                self.entries.push(ScanEntry { id: to_owned_string(id), state: st });
                let ghost t = self@;
                assert(t == s.push(EntryView { id: id@, state: st }));
                assert(keys_distinct(t));
                proof {
                    lemma_lookup_at(t, s.len() as int);
                    assert forall|other: Seq<char>| other != id@ implies #[trigger] lookup(t, other) == lookup(s, other) by {
                        if exists|m: int| 0 <= m < s.len() && s[m].id == other {
                            let m = choose|m: int| 0 <= m < s.len() && s[m].id == other;
                            lemma_lookup_at(s, m);
                            lemma_lookup_at(t, m);
                        } else {
                            assert(!exists|m: int| 0 <= m < t.len() && t[m].id == other) by {
                                if exists|m: int| 0 <= m < t.len() && t[m].id == other {
                                    let m = choose|m: int| 0 <= m < t.len() && t[m].id == other;
                                    assert(m < s.len());
                                    assert(s[m].id == other);
                                }
                            }
                        }
                    }
                }
                None
            },
        }
    }

    /// Replaces the state of the scan with this id, if it is in progress.
    pub fn update(&mut self, id: &str, st: ScanState)
        requires
            old(self).wf(),
        ensures
            final(self).wf(),
            final(self).state_of(id@) == (match old(self).state_of(id@) {
                Some(_) => Some(st),
                None => None::<ScanState>,
            }),
            forall|other: Seq<char>| other != id@ ==> #[trigger] final(self).state_of(other) == old(self).state_of(other),
    {
        let ghost s = self@;
        match self.position(id) {
            Some(k) => {
                proof {
                    lemma_lookup_update(s, k as int, st);
                }
                let idc = to_owned_string(id);
                self.entries.set(k, ScanEntry { id: idc, state: st });
                assert(self@ == s.update(k as int, EntryView { id: s[k as int].id, state: st }));
            },
            None => {},
        }
    }

    /// Ends the scan with this id.
    pub fn remove(&mut self, id: &str)
        requires
            old(self).wf(),
        ensures
            final(self).wf(),
            final(self).state_of(id@) is None,
            forall|other: Seq<char>| other != id@ ==> #[trigger] final(self).state_of(other) == old(self).state_of(other),
    {
        let ghost s = self@;
        match self.position(id) {
            Some(k) => {
                self.entries.remove(k);
                let ghost t = self@;
                assert(t == s.remove(k as int));
                assert forall|a: int, b: int| 0 <= a < t.len() && 0 <= b < t.len() && a != b implies t[a].id != t[b].id by {
                    let a0 = if a < k { a } else { a + 1 };
                    let b0 = if b < k { b } else { b + 1 };
                    assert(t[a] == s[a0]);
                    assert(t[b] == s[b0]);
                }
                assert(!exists|m: int| 0 <= m < t.len() && t[m].id == id@) by {
                    if exists|m: int| 0 <= m < t.len() && t[m].id == id@ {
                        let m = choose|m: int| 0 <= m < t.len() && t[m].id == id@;
                        let m0 = if m < k { m } else { m + 1 };
                        assert(t[m] == s[m0]);
                    }
                }
                assert forall|other: Seq<char>| other != id@ implies #[trigger] lookup(t, other) == lookup(s, other) by {
                    if exists|m: int| 0 <= m < s.len() && s[m].id == other {
                        let m = choose|m: int| 0 <= m < s.len() && s[m].id == other;
                        lemma_lookup_at(s, m);
                        assert(m != k);
                        let m1 = if m < k { m } else { m - 1 };
                        assert(t[m1] == s[m]);
                        lemma_lookup_at(t, m1);
                    } else {
                        assert(!exists|m: int| 0 <= m < t.len() && t[m].id == other) by {
                            if exists|m: int| 0 <= m < t.len() && t[m].id == other {
                                let m = choose|m: int| 0 <= m < t.len() && t[m].id == other;
                                let m0 = if m < k { m } else { m + 1 };
                                assert(t[m] == s[m0]);
                            }
                        }
                    }
                }
            },
            None => {},
        }
    }

    /// Asks the scan with this id to stop, if it is in progress.
    pub fn cancel(&mut self, id: &str)
        requires
            old(self).wf(),
        ensures
            final(self).wf(),
            final(self).state_of(id@) == cancelled_state(old(self).state_of(id@)),
            forall|other: Seq<char>| other != id@ ==> #[trigger] final(self).state_of(other) == old(self).state_of(other),
    {
        match self.get(id) {
            Some(st) => {
                self.update(id, ScanState { cancelled: true, ..st });
            },
            None => {},
        }
    }
}

} // verus!
