//! The process-wide shared state: for each resolved path, a concurrent
//! accessor count and an optional cached response, plus a global cache byte
//! budget.  Callers serialise access behind one lock; every transition here
//! preserves the conservation invariant tying the byte counter to the sum
//! of cached lengths.

use vstd::prelude::*;

verus! {

use crate::strutil::str_eq;

/// This many concurrent accessors on one path fill it: further requests
/// are turned away until one leaves.
pub const MAX_CONCURRENT_ACCESSORS: usize = 5000;

/// Objects at least this large are never cached.
pub const MAX_CACHE_FILE_SIZE: usize = 50 * 1024 * 1024;

/// The cache in total stays below this many bytes.
pub const MAX_CACHE_SIZE: usize = 1024 * 1024 * 1024;

/// One path's state: how many workers are inside, and the cached response.
pub struct PathEntry {
    pub count: usize,
    pub cached: Option<Vec<u8>>,
}

/// The length a cache slot contributes to the budget.
pub open spec fn cached_len(c: Option<Seq<u8>>) -> int {
    match c {
        Some(b) => b.len() as int,
        None => 0,
    }
}

/// The abstract value of one entry.
pub open spec fn entry_view(e: PathEntry) -> (nat, Option<Seq<u8>>) {
    (
        e.count as nat,
        match e.cached {
            Some(b) => Some(b@),
            None => None,
        },
    )
}

/// The sum of cached lengths over an entry sequence.
pub open spec fn cached_sum(es: Seq<(Seq<char>, nat, Option<Seq<u8>>)>) -> int
    decreases es.len(),
{
    if es.len() == 0 {
        0
    } else {
        cached_sum(es.drop_last()) + cached_len(es.last().2)
    }
}

/// The map an entry sequence describes.
pub open spec fn entries_map(es: Seq<(Seq<char>, nat, Option<Seq<u8>>)>) -> Map<
    Seq<char>,
    (nat, Option<Seq<u8>>),
>
    decreases es.len(),
{
    if es.len() == 0 {
        Map::<Seq<char>, (nat, Option<Seq<u8>>)>::empty()
    } else {
        entries_map(es.drop_last()).insert(es.last().0, (es.last().1, es.last().2))
    }
}

/// The shared state structure.
pub struct SharedState {
    entries: Vec<(String, PathEntry)>,
    cache_bytes_in_use: usize,
}

impl View for SharedState {
    type V = Map<Seq<char>, (nat, Option<Seq<u8>>)>;

    closed spec fn view(&self) -> Map<Seq<char>, (nat, Option<Seq<u8>>)> {
        entries_map(self.seq_view())
    }
}

impl SharedState {
    /// The entries in storage order.
    pub closed spec fn seq_view(&self) -> Seq<(Seq<char>, nat, Option<Seq<u8>>)> {
        self.entries@.map_values(
            |p: (String, PathEntry)| (p.0@, entry_view(p.1).0, entry_view(p.1).1),
        )
    }

    /// The global byte counter.
    pub closed spec fn cache_bytes_spec(&self) -> int {
        self.cache_bytes_in_use as int
    }

    /// Well-formedness: paths are unique; the byte counter equals the sum
    /// of cached lengths and stays below the budget; an entry is present
    /// only while a worker holds it or its slot is populated.
    pub open spec fn wf(&self) -> bool {
        &&& forall|i: int, j: int|
            0 <= i < j < self.seq_view().len() ==> (#[trigger] self.seq_view()[i]).0 != (
            #[trigger] self.seq_view()[j]).0
        &&& self.cache_bytes_spec() == cached_sum(self.seq_view())
        &&& self.cache_bytes_spec() < MAX_CACHE_SIZE as int
        &&& forall|i: int|
            0 <= i < self.seq_view().len() ==> (#[trigger] self.seq_view()[i]).1 > 0 || self.seq_view()[i].2 is Some
    }

    /// An empty state.
    pub fn new() -> (r: SharedState)
        ensures
            r.wf(),
            r@ == Map::<Seq<char>, (nat, Option<Seq<u8>>)>::empty(),
            r.cache_bytes_spec() == 0,
    {
        let r = SharedState { entries: Vec::new(), cache_bytes_in_use: 0 };
        proof {
            assert(r.seq_view() =~= Seq::<(Seq<char>, nat, Option<Seq<u8>>)>::empty());
        }
        r
    }
}

proof fn lemma_entries_map_no_key(es: Seq<(Seq<char>, nat, Option<Seq<u8>>)>, k: Seq<char>)
    requires
        forall|i: int| 0 <= i < es.len() ==> (#[trigger] es[i]).0 != k,
    ensures
        !entries_map(es).contains_key(k),
    decreases es.len(),
{
    if es.len() > 0 {
        lemma_entries_map_no_key(es.drop_last(), k);
    }
}

proof fn lemma_entries_map_at(es: Seq<(Seq<char>, nat, Option<Seq<u8>>)>, i: int)
    requires
        0 <= i < es.len(),
        forall|a: int, b: int|
            0 <= a < b < es.len() ==> (#[trigger] es[a]).0 != (#[trigger] es[b]).0,
    ensures
        entries_map(es).contains_key(es[i].0),
        entries_map(es)[es[i].0] == (es[i].1, es[i].2),
    decreases es.len(),
{
    if i == es.len() - 1 {
    } else {
        lemma_entries_map_at(es.drop_last(), i);
        assert(es.drop_last()[i] == es[i]);
    }
}

proof fn lemma_entries_map_update(
    es: Seq<(Seq<char>, nat, Option<Seq<u8>>)>,
    i: int,
    e: (Seq<char>, nat, Option<Seq<u8>>),
)
    requires
        0 <= i < es.len(),
        e.0 == es[i].0,
        forall|a: int, b: int|
            0 <= a < b < es.len() ==> (#[trigger] es[a]).0 != (#[trigger] es[b]).0,
    ensures
        entries_map(es.update(i, e)) == entries_map(es).insert(e.0, (e.1, e.2)),
    decreases es.len(),
{
    let es2 = es.update(i, e);
    if i == es.len() - 1 {
        assert(es2.drop_last() =~= es.drop_last());
        assert(es2.last() == e);
        assert(entries_map(es2) =~= entries_map(es).insert(e.0, (e.1, e.2)));
    } else {
        lemma_entries_map_update(es.drop_last(), i, e);
        assert(es2.drop_last() =~= es.drop_last().update(i, e));
        assert(es2.last() == es.last());
        assert(es.last().0 != e.0);
        assert(entries_map(es2) =~= entries_map(es).insert(e.0, (e.1, e.2)));
    }
}

proof fn lemma_entries_map_remove(es: Seq<(Seq<char>, nat, Option<Seq<u8>>)>, i: int)
    requires
        0 <= i < es.len(),
        forall|a: int, b: int|
            0 <= a < b < es.len() ==> (#[trigger] es[a]).0 != (#[trigger] es[b]).0,
    ensures
        entries_map(es.remove(i)) == entries_map(es).remove(es[i].0),
    decreases es.len(),
{
    let es2 = es.remove(i);
    if i == es.len() - 1 {
        assert(es2 =~= es.drop_last());
        lemma_entries_map_no_key_except(es.drop_last(), es[i].0);
        assert(entries_map(es2) =~= entries_map(es).remove(es[i].0));
    } else {
        lemma_entries_map_remove(es.drop_last(), i);
        assert(es2.drop_last() =~= es.drop_last().remove(i));
        assert(es2.last() == es.last());
        assert(es.last().0 != es[i].0);
        assert(entries_map(es2) =~= entries_map(es).remove(es[i].0));
    }
}

proof fn lemma_entries_map_no_key_except(es: Seq<(Seq<char>, nat, Option<Seq<u8>>)>, k: Seq<char>)
    requires
        forall|i: int| 0 <= i < es.len() ==> (#[trigger] es[i]).0 != k,
    ensures
        entries_map(es).remove(k) == entries_map(es),
        !entries_map(es).contains_key(k),
    decreases es.len(),
{
    lemma_entries_map_no_key(es, k);
    assert(entries_map(es).remove(k) =~= entries_map(es));
}

proof fn lemma_cached_sum_update(
    es: Seq<(Seq<char>, nat, Option<Seq<u8>>)>,
    i: int,
    e: (Seq<char>, nat, Option<Seq<u8>>),
)
    requires
        0 <= i < es.len(),
    ensures
        cached_sum(es.update(i, e)) == cached_sum(es) - cached_len(es[i].2) + cached_len(e.2),
    decreases es.len(),
{
    let es2 = es.update(i, e);
    if i == es.len() - 1 {
        assert(es2.drop_last() =~= es.drop_last());
        assert(es2.last() == e);
    } else {
        lemma_cached_sum_update(es.drop_last(), i, e);
        assert(es2.drop_last() =~= es.drop_last().update(i, e));
        assert(es2.last() == es.last());
    }
}

proof fn lemma_cached_sum_remove(es: Seq<(Seq<char>, nat, Option<Seq<u8>>)>, i: int)
    requires
        0 <= i < es.len(),
    ensures
        cached_sum(es.remove(i)) == cached_sum(es) - cached_len(es[i].2),
    decreases es.len(),
{
    let es2 = es.remove(i);
    if i == es.len() - 1 {
        assert(es2 =~= es.drop_last());
    } else {
        lemma_cached_sum_remove(es.drop_last(), i);
        assert(es2.drop_last() =~= es.drop_last().remove(i));
        assert(es2.last() == es.last());
    }
}

proof fn lemma_cached_sum_push(
    es: Seq<(Seq<char>, nat, Option<Seq<u8>>)>,
    e: (Seq<char>, nat, Option<Seq<u8>>),
)
    ensures
        cached_sum(es.push(e)) == cached_sum(es) + cached_len(e.2),
        entries_map(es.push(e)) == entries_map(es).insert(e.0, (e.1, e.2)),
{
    assert(es.push(e).drop_last() =~= es);
    assert(es.push(e).last() == e);
}

/// The outcome of asking to enter a path.
pub enum AdmitOutcome {
    /// The path is over its concurrency cap; the caller answers 503.
    Busy,
    /// The caller is in; the value is the accessor count seen before this
    /// admission (the access ordinal the cache policy uses).
    Admitted(usize),
}

impl SharedState {
    fn find(&self, path: &str) -> (r: Option<usize>)
        ensures
            match r {
                Some(i) => i < self.seq_view().len() && self.seq_view()[i as int].0 == path@,
                None => forall|i: int|
                    0 <= i < self.seq_view().len() ==> (#[trigger] self.seq_view()[i]).0 != path@,
            },
    {
        let mut i: usize = 0;
        while i < self.entries.len()
            invariant
                0 <= i <= self.entries@.len(),
                self.seq_view().len() == self.entries@.len(),
                forall|j: int|
                    0 <= j < i ==> (#[trigger] self.seq_view()[j]).0 != path@,
            decreases self.entries@.len() - i,
        {
            if str_eq(self.entries[i].0.as_str(), path) {
                return Some(i);
            }
            i = i + 1;
        }
        None
    }

    /// Admission: turns the caller away when the path already has the full
    /// number of concurrent accessors; otherwise increments the count
    /// (creating the entry at one) and hands back the count seen before
    /// entering — the access ordinal the cache policy uses.
    pub fn enter(&mut self, path: &String) -> (r: AdmitOutcome)
        requires
            old(self).wf(),
        ensures
            final(self).wf(),
            ({
                let pre = if old(self)@.contains_key(path@) {
                    old(self)@[path@]
                } else {
                    (0nat, None::<Seq<u8>>)
                };
                match r {
                    AdmitOutcome::Busy => pre.0 >= MAX_CONCURRENT_ACCESSORS as nat && final(self)@
                        == old(self)@ && final(self).cache_bytes_spec() == old(self).cache_bytes_spec(),
                    AdmitOutcome::Admitted(ordinal) => pre.0 < MAX_CONCURRENT_ACCESSORS as nat
                        && ordinal as nat == pre.0 && final(self)@ == old(self)@.insert(
                        path@,
                        (pre.0 + 1, pre.1),
                    ) && final(self).cache_bytes_spec() == old(self).cache_bytes_spec(),
                }
            }),
    {
        let ghost es = self.seq_view();
        match self.find(path.as_str()) {
            Some(i) => {
                proof {
                    lemma_entries_map_at(es, i as int);
                }
                let count = self.entries[i].1.count;
                if count >= MAX_CONCURRENT_ACCESSORS {
                    return AdmitOutcome::Busy;
                }
                let mut pair = self.entries.remove(i);
                pair.1.count = count + 1;
                self.entries.insert(i, pair);
                proof {
                    let e2 = (es[i as int].0, es[i as int].1 + 1nat, es[i as int].2);
                    assert(self.seq_view() =~= es.update(i as int, e2));
                    lemma_entries_map_update(es, i as int, e2);
                    lemma_cached_sum_update(es, i as int, e2);
                    assert(self.wf());
                }
                AdmitOutcome::Admitted(count)
            },
            None => {
                proof {
                    lemma_entries_map_no_key(es, path@);
                }
                self.entries.push((path.clone(), PathEntry { count: 1, cached: None }));
                proof {
                    let e2 = (path@, 1nat, None::<Seq<u8>>);
                    assert(self.seq_view() =~= es.push(e2));
                    lemma_cached_sum_push(es, e2);
                    assert(self.wf());
                }
                AdmitOutcome::Admitted(0)
            },
        }
    }

    /// Completion: decrements the path's accessor count; when it reaches
    /// zero the entry is removed and its cached bytes leave the budget.
    pub fn complete(&mut self, path: &str)
        requires
            old(self).wf(),
            old(self)@.contains_key(path@),
            old(self)@[path@].0 > 0,
        ensures
            final(self).wf(),
            ({
                let pre = old(self)@[path@];
                if pre.0 == 1 {
                    final(self)@ == old(self)@.remove(path@) && final(self).cache_bytes_spec()
                        == old(self).cache_bytes_spec() - cached_len(pre.1)
                } else {
                    final(self)@ == old(self)@.insert(path@, ((pre.0 - 1) as nat, pre.1)) && final(self).cache_bytes_spec() == old(self).cache_bytes_spec()
                }
            }),
    {
        let ghost es = self.seq_view();
        match self.find(path) {
            Some(i) => {
                proof {
                    lemma_entries_map_at(es, i as int);
                }
                let count = self.entries[i].1.count;
                if count <= 1 {
                    let pair = self.entries.remove(i);
                    let clen = match &pair.1.cached {
                        Some(b) => b.len(),
                        None => 0,
                    };
                    proof {
                        lemma_entries_map_remove(es, i as int);
                        lemma_cached_sum_remove(es, i as int);
                        lemma_cached_sum_nonneg(es.remove(i as int));
                        assert(self.seq_view() =~= es.remove(i as int));
                        assert(clen as int == cached_len(es[i as int].2));
                    }
                    self.cache_bytes_in_use = self.cache_bytes_in_use - clen;
                    proof {
                        assert forall|a: int, b: int|
                            0 <= a < b < self.seq_view().len() implies (
                        #[trigger] self.seq_view()[a]).0 != (#[trigger] self.seq_view()[b]).0 by {
                            if b < i as int {
                                assert(self.seq_view()[a] == es[a] && self.seq_view()[b] == es[b]);
                            } else if a < i as int {
                                assert(self.seq_view()[a] == es[a] && self.seq_view()[b] == es[b
                                    + 1]);
                            } else {
                                assert(self.seq_view()[a] == es[a + 1] && self.seq_view()[b] == es[b
                                    + 1]);
                            }
                        }
                    }
                } else {
                    let mut pair = self.entries.remove(i);
                    pair.1.count = count - 1;
                    self.entries.insert(i, pair);
                    proof {
                        let e2 = (es[i as int].0, (es[i as int].1 - 1) as nat, es[i as int].2);
                        assert(self.seq_view() =~= es.update(i as int, e2));
                        lemma_entries_map_update(es, i as int, e2);
                        lemma_cached_sum_update(es, i as int, e2);
                        assert(self.wf());
                    }
                }
            },
            None => {
                proof {
                    lemma_entries_map_no_key(es, path@);
                    assert(false);
                }
            },
        }
    }

    /// Reads the cached response for a path, if one is populated.
    pub fn cache_lookup(&self, path: &str) -> (r: Option<Vec<u8>>)
        requires
            self.wf(),
        ensures
            match r {
                Some(b) => self@.contains_key(path@) && self@[path@].1 == Some(b@),
                None => !self@.contains_key(path@) || self@[path@].1 is None,
            },
    {
        let ghost es = self.seq_view();
        match self.find(path) {
            Some(i) => {
                proof {
                    lemma_entries_map_at(es, i as int);
                }
                match &self.entries[i].1.cached {
                    Some(b) => Some(copy_bytes(b)),
                    None => None,
                }
            },
            None => {
                proof {
                    lemma_entries_map_no_key(es, path@);
                }
                None
            },
        }
    }

    /// The cache policy: installs the bytes only when this worker's access
    /// ordinal is one (a second concurrent viewer arrived), the object is
    /// under the per-file cap, the budget stays under the global cap, the
    /// entry is still live, and the slot is empty.  Returns whether the
    /// install happened.
    pub fn try_install(&mut self, path: &str, access_ordinal: usize, bytes: Vec<u8>) -> (r: bool)
        requires
            old(self).wf(),
        ensures
            final(self).wf(),
            r == install_cond(
                old(self)@,
                old(self).cache_bytes_spec(),
                path@,
                access_ordinal as nat,
                bytes@.len() as int,
            ),
            r ==> final(self)@ == old(self)@.insert(
                path@,
                (old(self)@[path@].0, Some(bytes@)),
            ) && final(self).cache_bytes_spec() == old(self).cache_bytes_spec() + bytes@.len(),
            !r ==> final(self)@ == old(self)@ && final(self).cache_bytes_spec() == old(self).cache_bytes_spec(),
    {
        let ghost es = self.seq_view();
        if access_ordinal != 1 {
            return false;
        }
        if bytes.len() >= MAX_CACHE_FILE_SIZE {
            return false;
        }
        if self.cache_bytes_in_use + bytes.len() >= MAX_CACHE_SIZE {
            return false;
        }
        match self.find(path) {
            Some(i) => {
                proof {
                    lemma_entries_map_at(es, i as int);
                }
                let slot_empty = match &self.entries[i].1.cached {
                    Some(_) => false,
                    None => true,
                };
                if !slot_empty {
                    return false;
                }
                let blen = bytes.len();
                let mut pair = self.entries.remove(i);
                pair.1.cached = Some(bytes);
                self.entries.insert(i, pair);
                self.cache_bytes_in_use = self.cache_bytes_in_use + blen;
                proof {
                    let e2 = (es[i as int].0, es[i as int].1, Some(bytes@));
                    assert(self.seq_view() =~= es.update(i as int, e2));
                    lemma_entries_map_update(es, i as int, e2);
                    lemma_cached_sum_update(es, i as int, e2);
                    assert(self.wf());
                }
                true
            },
            None => {
                proof {
                    lemma_entries_map_no_key(es, path@);
                }
                false
            },
        }
    }
}

impl SharedState {
    /// The global cache byte counter, for observation.
    pub fn cache_bytes(&self) -> (r: usize)
        ensures
            r as int == self.cache_bytes_spec(),
    {
        self.cache_bytes_in_use
    }

    /// The accessor count a path currently has; zero when it has no entry.
    pub fn accessor_count(&self, path: &str) -> (r: usize)
        requires
            self.wf(),
        ensures
            r as int == (if self@.contains_key(path@) {
                self@[path@].0 as int
            } else {
                0
            }),
    {
        let ghost es = self.seq_view();
        match self.find(path) {
            Some(i) => {
                proof {
                    lemma_entries_map_at(es, i as int);
                }
                self.entries[i].1.count
            },
            None => {
                proof {
                    lemma_entries_map_no_key(es, path@);
                }
                0
            },
        }
    }
}

/// Whether the cache policy lets an install happen.
pub open spec fn install_cond(
    m: Map<Seq<char>, (nat, Option<Seq<u8>>)>,
    total: int,
    path: Seq<char>,
    ordinal: nat,
    len: int,
) -> bool {
    &&& ordinal == 1
    &&& len < MAX_CACHE_FILE_SIZE as int
    &&& total + len < MAX_CACHE_SIZE as int
    &&& m.contains_key(path)
    &&& m[path].1 is None
}

proof fn lemma_cached_sum_nonneg(es: Seq<(Seq<char>, nat, Option<Seq<u8>>)>)
    ensures
        cached_sum(es) >= 0,
    decreases es.len(),
{
    if es.len() > 0 {
        lemma_cached_sum_nonneg(es.drop_last());
    }
}

/// At-most-one cache install: once a path's slot is populated, no later
/// install on that path can satisfy the policy, whatever ordinal, size or
/// budget is offered; only an install into an empty slot ever raises the
/// byte counter.
pub proof fn lemma_at_most_one_install(
    m: Map<Seq<char>, (nat, Option<Seq<u8>>)>,
    total: int,
    path: Seq<char>,
    ordinal: nat,
    len: int,
)
    requires
        m.contains_key(path),
        m[path].1 is Some,
    ensures
        !install_cond(m, total, path, ordinal, len),
{
}

/// Copies a byte vector.
fn copy_bytes(v: &Vec<u8>) -> (r: Vec<u8>)
    ensures
        r@ == v@,
{
    let mut out: Vec<u8> = Vec::new();
    let mut i: usize = 0;
    while i < v.len()
        invariant
            0 <= i <= v@.len(),
            out@ == v@.subrange(0, i as int),
        decreases v@.len() - i,
    {
        out.push(v[i]);
        i = i + 1;
        proof {
            assert(v@.subrange(0, i as int) =~= v@.subrange(0, i - 1).push(v@[i - 1]));
        }
    }
    proof {
        assert(v@.subrange(0, 0) =~= Seq::<u8>::empty());
        assert(v@.subrange(0, v@.len() as int) =~= v@);
    }
    out
}

/// One admission (true) or completion (false) on a single path.
pub open spec fn count_after(tr: Seq<bool>) -> int
    decreases tr.len(),
{
    if tr.len() == 0 {
        0
    } else if tr.last() {
        count_after(tr.drop_last()) + 1
    } else {
        count_after(tr.drop_last()) - 1
    }
}

/// How many admissions a trace holds.
pub open spec fn admissions(tr: Seq<bool>) -> int
    decreases tr.len(),
{
    if tr.len() == 0 {
        0
    } else {
        admissions(tr.drop_last()) + if tr.last() {
            1int
        } else {
            0int
        }
    }
}

/// Accessor-count non-negativity: under any interleaving of admissions and
/// completions in which no completion outruns its admission (every prefix
/// completes at most as many times as it entered), the counter equals
/// admissions minus completions, never goes negative, and reaches zero only
/// when every entering worker has completed — that is, when no worker still
/// holds the path.
pub proof fn lemma_accessor_count_balance(tr: Seq<bool>)
    requires
        forall|k: int| 0 <= k <= tr.len() ==> count_after(#[trigger] tr.subrange(0, k)) >= 0,
    ensures
        count_after(tr) == admissions(tr) - (tr.len() - admissions(tr)),
        count_after(tr) >= 0,
        count_after(tr) == 0 ==> admissions(tr) * 2 == tr.len(),
    decreases tr.len(),
{
    if tr.len() == 0 {
    } else {
        assert forall|k: int| 0 <= k <= tr.drop_last().len() implies count_after(
            #[trigger] tr.drop_last().subrange(0, k),
        ) >= 0 by {
            assert(tr.drop_last().subrange(0, k) =~= tr.subrange(0, k));
        }
        lemma_accessor_count_balance(tr.drop_last());
        assert(tr.subrange(0, tr.len() as int) =~= tr);
    }
}

} // verus!
