//! An in-memory store of cached records, keyed by file name.
use vstd::prelude::*;
use crate::utils::CachedMetrics;

verus! {

/// The record for `key` among the first `n` entries: the last one whose
/// file name is `key`.
pub open spec fn lookup_prefix(entries: Seq<CachedMetrics>, key: Seq<char>, n: int) -> Option<
    CachedMetrics,
>
    decreases n,
{
    if n <= 0 {
        None
    } else if entries[n - 1].filename@ == key {
        Some(entries[n - 1])
    } else {
        lookup_prefix(entries, key, n - 1)
    }
}

pub open spec fn lookup(entries: Seq<CachedMetrics>, key: Seq<char>) -> Option<CachedMetrics> {
    lookup_prefix(entries, key, entries.len() as int)
}

/// Cached records, at most one per file name.
///
/// The records are kept in a `Vec` whose invariant keeps the names unique,
/// rather than in a `HashMap` keyed by `String`: for a `String` key the
/// map's specification gives too little to prove what `get` and `insert`
/// return, while over the `Vec` both are proved against `lookup`.
pub struct MetricsCache {
    entries: Vec<CachedMetrics>,
}

proof fn lemma_lookup_found(entries: Seq<CachedMetrics>, key: Seq<char>, n: int)
    requires
        0 <= n <= entries.len(),
    ensures
        lookup_prefix(entries, key, n) is Some ==> exists|i: int|
            0 <= i < n && entries[i].filename@ == key && lookup_prefix(entries, key, n) == Some(
                entries[i],
            ),
        lookup_prefix(entries, key, n) is None ==> forall|i: int|
            0 <= i < n ==> entries[i].filename@ != key,
    decreases n,
{
    if n > 0 {
        lemma_lookup_found(entries, key, n - 1);
    }
}

proof fn lemma_lookup_push(entries: Seq<CachedMetrics>, r: CachedMetrics, key: Seq<char>)
    ensures
        lookup(entries.push(r), key) == if key == r.filename@ {
            Some(r)
        } else {
            lookup(entries, key)
        },
{
    let s = entries.push(r);
    if key != r.filename@ {
        lemma_lookup_same_prefix(entries, s, key, entries.len() as int);
    }
}

proof fn lemma_lookup_same_prefix(a: Seq<CachedMetrics>, b: Seq<CachedMetrics>, key: Seq<char>, n: int)
    requires
        0 <= n <= a.len(),
        n <= b.len(),
        forall|i: int| 0 <= i < n ==> a[i] == b[i],
    ensures
        lookup_prefix(a, key, n) == lookup_prefix(b, key, n),
    decreases n,
{
    if n > 0 {
        lemma_lookup_same_prefix(a, b, key, n - 1);
    }
}

/// Replacing entry `i`, whose name is the only one equal to `r`'s, by `r`.
proof fn lemma_lookup_update(entries: Seq<CachedMetrics>, i: int, r: CachedMetrics, key: Seq<char>, n: int)
    requires
        0 <= i < entries.len(),
        0 <= n <= entries.len(),
        entries[i].filename@ == r.filename@,
        forall|j: int| 0 <= j < entries.len() && j != i ==> entries[j].filename@ != r.filename@,
    ensures
        lookup_prefix(entries.update(i, r), key, n) == if key == r.filename@ && i < n {
            Some(r)
        } else {
            lookup_prefix(entries, key, n)
        },
    decreases n,
{
    if n > 0 {
        lemma_lookup_update(entries, i, r, key, n - 1);
        if key == r.filename@ && i < n - 1 {
            lemma_lookup_found(entries, key, n - 1);
        }
        if key == r.filename@ && i >= n {
            lemma_lookup_found(entries, key, n);
        }
    }
}

impl MetricsCache {
    /// The records, in the order in which their names were first inserted.
    pub closed spec fn spec_entries(&self) -> Seq<CachedMetrics> {
        self.entries@
    }

    /// The record of each file name.
    pub open spec fn record(&self, key: Seq<char>) -> Option<CachedMetrics> {
        lookup(self.spec_entries(), key)
    }

    /// No two records share a file name.
    pub closed spec fn wf(&self) -> bool {
        forall|i: int, j: int|
            0 <= i < j < self.entries@.len() ==> self.entries@[i].filename@
                != self.entries@[j].filename@
    }

    /// A store without records.
    pub fn new() -> (r: Self)
        ensures
            r.wf(),
            forall|k: Seq<char>| r.record(k) is None,
            r.spec_entries().len() == 0,
    {
        MetricsCache { entries: Vec::new() }
    }

    /// The number of records.
    pub fn len(&self) -> (r: usize)
        ensures
            r == self.spec_entries().len(),
    {
        self.entries.len()
    }

    /// All records, one per file name.
    pub fn records(&self) -> (r: &Vec<CachedMetrics>)
        ensures
            r@ == self.spec_entries(),
    {
        &self.entries
    }

    fn find(&self, filename: &String) -> (r: Option<usize>)
        requires
            self.wf(),
        ensures
            r is None ==> forall|i: int|
                0 <= i < self.spec_entries().len() ==> self.spec_entries()[i].filename@
                    != filename@,
            r is Some ==> r->Some_0 < self.spec_entries().len() && self.spec_entries()[r->Some_0 as int].filename@
                == filename@,
    {
        let mut i: usize = 0;
        while i < self.entries.len()
            invariant
                0 <= i <= self.entries@.len(),
                forall|j: int| 0 <= j < i ==> self.entries@[j].filename@ != filename@,
            decreases self.entries@.len() - i,
        {
            if self.entries[i].filename == *filename {
                return Some(i);
            }
            i = i + 1;
        }
        None
    }

    /// The record of `filename`, if there is one.
    pub fn get(&self, filename: &String) -> (r: Option<&CachedMetrics>)
        requires
            self.wf(),
        ensures
            r is None <==> self.record(filename@) is None,
            r is Some ==> self.record(filename@) == Some(*r->Some_0),
    {
        match self.find(filename) {
            None => {
                proof {
                    lemma_lookup_found(self.spec_entries(), filename@, self.spec_entries().len() as int);
                }
                None
            },
            Some(i) => {
                proof {
                    lemma_lookup_update(
                        self.spec_entries(),
                        i as int,
                        self.spec_entries()[i as int],
                        filename@,
                        self.spec_entries().len() as int,
                    );
                    assert(self.spec_entries().update(i as int, self.spec_entries()[i as int])
                        =~= self.spec_entries());
                }
                Some(&self.entries[i])
            },
        }
    }

    /// Stores `record` under its file name, replacing the record that was
    /// there; the records of other names are kept.
    pub fn insert(&mut self, record: CachedMetrics)
        requires
            old(self).wf(),
        ensures
            final(self).wf(),
            final(self).record(record.filename@) == Some(record),
            forall|k: Seq<char>| k != record.filename@ ==> final(self).record(k) == old(self).record(k),
    {
        let ghost key = record.filename@;
        let ghost r = record;
        match self.find(&record.filename) {
            None => {
                self.entries.push(record);
                proof {
                    assert forall|k: Seq<char>| true implies lookup(self.entries@, k) == if k == key {
                        Some(r)
                    } else {
                        lookup(old(self).entries@, k)
                    } by {
                        lemma_lookup_push(old(self).entries@, r, k);
                    }
                }
            },
            Some(i) => {
                self.entries.set(i, record);
                proof {
                    assert forall|k: Seq<char>| true implies lookup(self.entries@, k) == if k == key {
                        Some(r)
                    } else {
                        lookup(old(self).entries@, k)
                    } by {
                        lemma_lookup_update(old(self).entries@, i as int, r, k, old(self).entries@.len() as int);
                    }
                }
            },
        }
    }
}

} // verus!
