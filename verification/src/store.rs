//! The time-series store.
//!
//! An append-only table of samples plus two derived read projections: the
//! per-collector sample list, ascending by arrival time, and the "last seen
//! per collector" view. Rows are never updated or deleted; a collector exists
//! as soon as one sample references it.

use vstd::prelude::*;

verus! {

/// One persisted observation: a surrogate key, the collector that sent it,
/// the server-stamped arrival time, and the reported resource usage. The
/// average-CPU field holds the raw bits of an IEEE-754 single, as carried on
/// the wire; only the service edge treats them as a float.
#[derive(Clone, Copy, Debug, PartialEq, Eq, Structural)]
pub struct DataPoint {
    pub id: u64,
    pub collector_id: u128,
    pub received: u64,
    pub total_memory: u64,
    pub used_memory: u64,
    pub average_cpu_bits: u32,
}

/// One entry of the "last seen" view: a collector, the surrogate key of its
/// first sample, and the greatest arrival time among its samples.
#[derive(Clone, Copy, Debug, PartialEq, Eq, Structural)]
pub struct Collector {
    pub id: u64,
    pub collector_id: u128,
    pub last_seen: u64,
}

/// Why the store rejected a write.
#[derive(Clone, Copy, Debug, PartialEq, Eq, Structural)]
pub enum StoreError {
    /// No surrogate key is left to assign.
    CapacityExhausted,
}

/// The samples of one collector, in arrival (insertion) order.
pub open spec fn spec_samples_of(rows: Seq<DataPoint>, collector_id: u128) -> Seq<DataPoint>
    decreases rows.len(),
{
    if rows.len() == 0 {
        Seq::empty()
    } else {
        let prev = spec_samples_of(rows.drop_last(), collector_id);
        if rows.last().collector_id == collector_id {
            prev.push(rows.last())
        } else {
            prev
        }
    }
}

/// Non-decreasing arrival time.
pub open spec fn sorted_by_received(s: Seq<DataPoint>) -> bool {
    forall|i: int, j: int| 0 <= i <= j < s.len() ==> s[i].received <= s[j].received
}

/// Inserts a sample into a sequence just after the last sample that does not
/// arrive strictly later, so equal arrival times keep their relative order.
pub open spec fn spec_insert_by_received(s: Seq<DataPoint>, x: DataPoint) -> Seq<DataPoint>
    decreases s.len(),
{
    if s.len() == 0 || s.last().received <= x.received {
        s.push(x)
    } else {
        spec_insert_by_received(s.drop_last(), x).push(s.last())
    }
}

/// Stable insertion sort by arrival time.
pub open spec fn spec_sort_by_received(s: Seq<DataPoint>) -> Seq<DataPoint>
    decreases s.len(),
{
    if s.len() == 0 {
        Seq::empty()
    } else {
        spec_insert_by_received(spec_sort_by_received(s.drop_last()), s.last())
    }
}

/// The greatest arrival time in a sequence, zero if it is empty.
pub open spec fn spec_max_received(s: Seq<DataPoint>) -> u64
    decreases s.len(),
{
    if s.len() == 0 {
        0
    } else {
        let m = spec_max_received(s.drop_last());
        if s.last().received > m {
            s.last().received
        } else {
            m
        }
    }
}

/// The index of the first entry for `collector_id`, or -1 if there is none.
pub open spec fn spec_collector_index(s: Seq<Collector>, collector_id: u128) -> int
    decreases s.len(),
{
    if s.len() == 0 {
        -1
    } else if s[0].collector_id == collector_id {
        0
    } else {
        let r = spec_collector_index(s.drop_first(), collector_id);
        if r < 0 {
            -1
        } else {
            r + 1
        }
    }
}

/// The "last seen" view of a row sequence: one entry per distinct collector,
/// in order of first appearance, carrying the first sample's key and the
/// greatest arrival time seen so far.
pub open spec fn spec_collectors(rows: Seq<DataPoint>) -> Seq<Collector>
    decreases rows.len(),
{
    if rows.len() == 0 {
        Seq::empty()
    } else {
        let prev = spec_collectors(rows.drop_last());
        let d = rows.last();
        let i = spec_collector_index(prev, d.collector_id);
        if i >= 0 {
            prev.update(i, Collector {
                id: prev[i].id,
                collector_id: prev[i].collector_id,
                last_seen: if prev[i].last_seen >= d.received {
                    prev[i].last_seen
                } else {
                    d.received
                },
            })
        } else {
            prev.push(Collector {
                id: d.id,
                collector_id: d.collector_id,
                last_seen: d.received,
            })
        }
    }
}

/// The durable store: an append-only sequence of samples. Surrogate keys are
/// assigned from one, in insertion order, mirroring an autoincrement column.
pub struct Store {
    rows: Vec<DataPoint>,
}

impl View for Store {
    type V = Seq<DataPoint>;

    closed spec fn view(&self) -> Seq<DataPoint> {
        self.rows@
    }
}

impl Store {
    /// Every row's surrogate key is its one-based position: the table is
    /// append-only, so keys never change and are never reused.
    pub open spec fn wf(&self) -> bool {
        forall|i: int| 0 <= i < self@.len() ==> self@[i].id == i + 1
    }

    /// Creates an empty store.
    pub fn new() -> (r: Store)
        ensures
            r@ == Seq::<DataPoint>::empty(),
            r.wf(),
    {
        let r = Store { rows: Vec::new() };
        proof {
            assert(r@ =~= Seq::<DataPoint>::empty());
        }
        r
    }

    /// Appends one sample. Succeeds unless every surrogate key is spent; on
    /// success the new row carries the next key and the given fields, and no
    /// other row moves or changes.
    pub fn insert_sample(
        &mut self,
        collector_id: u128,
        received: u64,
        total_memory: u64,
        used_memory: u64,
        average_cpu_bits: u32,
    ) -> (r: Result<(), StoreError>)
        requires
            old(self).wf(),
        ensures
            final(self).wf(),
            old(self)@.len() < u64::MAX ==> r is Ok && final(self)@ == old(self)@.push(
                (DataPoint {
                    id: (old(self)@.len() + 1) as u64,
                    collector_id,
                    received,
                    total_memory,
                    used_memory,
                    average_cpu_bits,
                }),
            ),
            old(self)@.len() >= u64::MAX ==> r is Err && final(self)@ == old(self)@,
    {
        let n = self.rows.len();
        if n as u64 == u64::MAX {
            return Err(StoreError::CapacityExhausted);
        }
        let id = n as u64 + 1;
        self.rows.push(DataPoint {
            id,
            collector_id,
            received,
            total_memory,
            used_memory,
            average_cpu_bits,
        });
        Ok(())
    }

    /// Every stored sample, in insertion order.
    pub fn list_all(&self) -> (r: Vec<DataPoint>)
        ensures
            r@ == self@,
    {
        let mut r: Vec<DataPoint> = Vec::new();
        let mut i: usize = 0;
        while i < self.rows.len()
            invariant
                i <= self.rows@.len(),
                r@ == self.rows@.take(i as int),
            decreases self.rows@.len() - i,
        {
            r.push(self.rows[i]);
            proof {
                assert(self.rows@.take(i + 1 as int) =~= self.rows@.take(i as int).push(
                    self.rows@[i as int],
                ));
            }
            i = i + 1;
        }
        proof {
            assert(self.rows@.take(self.rows@.len() as int) =~= self.rows@);
        }
        r
    }

    /// One collector's samples, ascending by arrival time; samples with equal
    /// arrival times keep their insertion order.
    pub fn list_by_collector(&self, collector_id: u128) -> (r: Vec<DataPoint>)
        ensures
            r@ == spec_sort_by_received(spec_samples_of(self@, collector_id)),
    {
        let mut r: Vec<DataPoint> = Vec::new();
        let mut i: usize = 0;
        while i < self.rows.len()
            invariant
                i <= self.rows@.len(),
                r@ == spec_sort_by_received(spec_samples_of(self.rows@.take(i as int), collector_id)),
            decreases self.rows@.len() - i,
        {
            let d = self.rows[i];
            if d.collector_id == collector_id {
                insert_by_received(&mut r, d);
            }
            proof {
                let t = self.rows@.take(i as int);
                let t1 = self.rows@.take(i + 1 as int);
                assert(t1 =~= t.push(self.rows@[i as int]));
                lemma_samples_of_push(t, self.rows@[i as int], collector_id);
                let s = spec_samples_of(t, collector_id);
                if self.rows@[i as int].collector_id == collector_id {
                    assert(s.push(self.rows@[i as int]).drop_last() =~= s);
                }
            }
            i = i + 1;
        }
        proof {
            assert(self.rows@.take(self.rows@.len() as int) =~= self.rows@);
        }
        r
    }

    /// The "last seen" view: one entry per distinct collector, in order of
    /// first appearance, with `last_seen` the greatest arrival time recorded
    /// for it.
    pub fn list_collectors(&self) -> (r: Vec<Collector>)
        ensures
            r@ == spec_collectors(self@),
    {
        let mut r: Vec<Collector> = Vec::new();
        let mut i: usize = 0;
        while i < self.rows.len()
            invariant
                i <= self.rows@.len(),
                r@ == spec_collectors(self.rows@.take(i as int)),
            decreases self.rows@.len() - i,
        {
            let d = self.rows[i];
            let mut j: usize = 0;
            while j < r.len() && r[j].collector_id != d.collector_id
                invariant
                    j <= r@.len(),
                    r@ == spec_collectors(self.rows@.take(i as int)),
                    forall|k: int| 0 <= k < j ==> r@[k].collector_id != d.collector_id,
                decreases r@.len() - j,
            {
                j = j + 1;
            }
            proof {
                lemma_collector_index_at(r@, d.collector_id, j as int);
            }
            if j < r.len() {
                let cur = r[j];
                if d.received > cur.last_seen {
                    r.set(j, Collector {
                        id: cur.id,
                        collector_id: cur.collector_id,
                        last_seen: d.received,
                    });
                } else {
                    proof {
                        assert(r@.update(j as int, Collector {
                            id: cur.id,
                            collector_id: cur.collector_id,
                            last_seen: cur.last_seen,
                        }) =~= r@);
                    }
                }
            } else {
                r.push(Collector {
                    id: d.id,
                    collector_id: d.collector_id,
                    last_seen: d.received,
                });
            }
            proof {
                let t = self.rows@.take(i as int);
                let t1 = self.rows@.take(i + 1 as int);
                assert(t1 =~= t.push(self.rows@[i as int]));
                assert(t1.drop_last() =~= t);
                assert(t1.last() == self.rows@[i as int]);
            }
            i = i + 1;
        }
        proof {
            assert(self.rows@.take(self.rows@.len() as int) =~= self.rows@);
        }
        r
    }
}

/// Inserts a sample into an already-sorted vector at its stable position.
fn insert_by_received(r: &mut Vec<DataPoint>, x: DataPoint)
    ensures
        final(r)@ == spec_insert_by_received(old(r)@, x),
{
    let mut j: usize = r.len();
    while j > 0 && r[j - 1].received > x.received
        invariant
            j <= r@.len(),
            r@ == old(r)@,
            forall|k: int| j <= k < r@.len() ==> r@[k].received > x.received,
        decreases j,
    {
        j = j - 1;
    }
    proof {
        lemma_insert_by_received_at(r@, x, j as int);
    }
    r.insert(j, x);
}

/// Where the stable insertion lands: just after the last element that does
/// not arrive strictly later than the inserted one.
proof fn lemma_insert_by_received_at(s: Seq<DataPoint>, x: DataPoint, j: int)
    requires
        0 <= j <= s.len(),
        forall|k: int| j <= k < s.len() ==> s[k].received > x.received,
        j > 0 ==> s[j - 1].received <= x.received,
    ensures
        spec_insert_by_received(s, x) == s.insert(j, x),
    decreases s.len(),
{
    if j == s.len() {
        assert(spec_insert_by_received(s, x) == s.push(x));
        assert(s.insert(j, x) =~= s.push(x));
    } else {
        assert(s.last().received > x.received);
        lemma_insert_by_received_at(s.drop_last(), x, j);
        assert(s.drop_last().insert(j, x).push(s.last()) =~= s.insert(j, x));
    }
}

/// First-match characterization of `spec_collector_index`: a scan that saw no
/// match before `j` and a match at `j` (or none at all) pins the index.
proof fn lemma_collector_index_at(s: Seq<Collector>, collector_id: u128, j: int)
    requires
        0 <= j <= s.len(),
        forall|k: int| 0 <= k < j ==> s[k].collector_id != collector_id,
        j < s.len() ==> s[j].collector_id == collector_id,
    ensures
        spec_collector_index(s, collector_id) == if j == s.len() {
            -1
        } else {
            j
        },
    decreases s.len(),
{
    if s.len() == 0 {
    } else if s[0].collector_id == collector_id {
        assert(j == 0);
    } else {
        assert(j >= 1);
        lemma_collector_index_at(s.drop_first(), collector_id, j - 1);
    }
}

/// What `spec_collector_index` finding (or missing) an entry means.
proof fn lemma_collector_index_props(s: Seq<Collector>, collector_id: u128)
    ensures
        ({
            let i = spec_collector_index(s, collector_id);
            &&& -1 <= i < s.len()
            &&& i >= 0 ==> s[i].collector_id == collector_id && (forall|k: int|
                0 <= k < i ==> s[k].collector_id != collector_id)
            &&& i == -1 ==> (forall|k: int|
                0 <= k < s.len() ==> s[k].collector_id != collector_id)
        }),
    decreases s.len(),
{
    if s.len() == 0 {
    } else if s[0].collector_id == collector_id {
    } else {
        let t = s.drop_first();
        lemma_collector_index_props(t, collector_id);
        let r = spec_collector_index(t, collector_id);
        assert(forall|k: int| 0 <= k < t.len() ==> t[k] == s[k + 1]);
        if r >= 0 {
            assert forall|k: int| 0 <= k < r + 1 implies s[k].collector_id != collector_id by {
                if k >= 1 {
                    assert(t[k - 1] == s[k]);
                }
            }
        } else {
            assert forall|k: int| 0 <= k < s.len() implies s[k].collector_id != collector_id by {
                if k >= 1 {
                    assert(t[k - 1] == s[k]);
                }
            }
        }
    }
}

/// Law: appending a sample extends exactly its own collector's sample
/// sequence, and leaves every other collector's sequence unchanged — one
/// connection's traffic cannot disturb another collector's delivered samples.
pub proof fn lemma_samples_of_push(rows: Seq<DataPoint>, d: DataPoint, collector_id: u128)
    ensures
        spec_samples_of(rows.push(d), collector_id) == if d.collector_id == collector_id {
            spec_samples_of(rows, collector_id).push(d)
        } else {
            spec_samples_of(rows, collector_id)
        },
{
    assert(rows.push(d).drop_last() =~= rows);
    assert(rows.push(d).last() == d);
}

/// Law: a collector whose samples arrive in non-decreasing arrival order is
/// listed in exactly that arrival order, whatever other collectors' rows sit
/// between them.
pub proof fn lemma_arrival_order_preserved(s: Seq<DataPoint>)
    requires
        sorted_by_received(s),
    ensures
        spec_sort_by_received(s) == s,
    decreases s.len(),
{
    if s.len() == 0 {
        assert(spec_sort_by_received(s) =~= s);
    } else {
        let t = s.drop_last();
        assert(sorted_by_received(t));
        lemma_arrival_order_preserved(t);
        if t.len() == 0 {
            assert(t.push(s.last()) =~= s);
        } else {
            assert(t.last().received <= s.last().received);
            assert(t.push(s.last()) =~= s);
        }
    }
}

/// Everything in `s` arrived no later than `b`; inserting one more such
/// sample keeps it so.
proof fn lemma_insert_by_received_bounded(s: Seq<DataPoint>, x: DataPoint, b: u64)
    requires
        forall|i: int| 0 <= i < s.len() ==> s[i].received <= b,
        x.received <= b,
    ensures
        forall|i: int|
            0 <= i < spec_insert_by_received(s, x).len() ==> spec_insert_by_received(s, x)[
                i
            ].received <= b,
    decreases s.len(),
{
    if s.len() == 0 || s.last().received <= x.received {
        let r = s.push(x);
        assert forall|i: int| 0 <= i < r.len() implies r[i].received <= b by {
            if i < s.len() {
            }
        }
    } else {
        let t = s.drop_last();
        assert(forall|i: int| 0 <= i < t.len() ==> t[i].received <= b);
        lemma_insert_by_received_bounded(t, x, b);
        let u = spec_insert_by_received(t, x);
        let r = u.push(s.last());
        assert(s.last().received <= b);
        assert forall|i: int| 0 <= i < r.len() implies r[i].received <= b by {
            if i < u.len() {
            }
        }
        assert(spec_insert_by_received(s, x) == r);
    }
}

/// The stable insertion keeps a sorted sequence sorted.
proof fn lemma_insert_by_received_sorted(s: Seq<DataPoint>, x: DataPoint)
    requires
        sorted_by_received(s),
    ensures
        sorted_by_received(spec_insert_by_received(s, x)),
    decreases s.len(),
{
    if s.len() == 0 || s.last().received <= x.received {
        let r = s.push(x);
        assert forall|i: int, j: int| 0 <= i <= j < r.len() implies r[i].received
            <= r[j].received by {
            if j < s.len() {
            } else if i < s.len() {
                assert(s[i].received <= s[s.len() - 1].received);
            }
        }
    } else {
        let t = s.drop_last();
        assert(sorted_by_received(t));
        lemma_insert_by_received_sorted(t, x);
        assert(forall|i: int| 0 <= i < t.len() ==> t[i].received <= s.last().received);
        lemma_insert_by_received_bounded(t, x, s.last().received);
        let u = spec_insert_by_received(t, x);
        let r = u.push(s.last());
        assert forall|i: int, j: int| 0 <= i <= j < r.len() implies r[i].received
            <= r[j].received by {
            if j < u.len() {
            } else if i < u.len() {
                assert(u[i].received <= s.last().received);
            }
        }
    }
}

/// Law: the "last seen" view holds one entry per distinct collector — no
/// collector is listed twice.
pub proof fn lemma_collectors_distinct(rows: Seq<DataPoint>)
    ensures
        forall|i: int, j: int|
            0 <= i < j < spec_collectors(rows).len() ==> spec_collectors(rows)[i].collector_id
                != spec_collectors(rows)[j].collector_id,
    decreases rows.len(),
{
    if rows.len() == 0 {
    } else {
        let r = rows.drop_last();
        let d = rows.last();
        lemma_collectors_distinct(r);
        let prev = spec_collectors(r);
        let entries = spec_collectors(rows);
        let id = spec_collector_index(prev, d.collector_id);
        lemma_collector_index_props(prev, d.collector_id);
        if id >= 0 {
            assert(forall|k: int| 0 <= k < entries.len() ==> entries[k].collector_id == prev[
                k
            ].collector_id);
        }
    }
}

/// Law: a collector appears in the "last seen" view exactly when it has a
/// recorded sample, and its `last_seen` is then the greatest arrival time
/// among its samples.
pub proof fn lemma_last_seen_is_max(rows: Seq<DataPoint>, collector_id: u128)
    ensures
        ({
            let entries = spec_collectors(rows);
            let i = spec_collector_index(entries, collector_id);
            &&& (i >= 0 <==> spec_samples_of(rows, collector_id).len() > 0)
            &&& i >= 0 ==> entries[i].last_seen == spec_max_received(
                spec_samples_of(rows, collector_id),
            )
        }),
    decreases rows.len(),
{
    if rows.len() == 0 {
    } else {
        let r = rows.drop_last();
        let d = rows.last();
        lemma_last_seen_is_max(r, collector_id);
        let prev = spec_collectors(r);
        let entries = spec_collectors(rows);
        let ip = spec_collector_index(prev, collector_id);
        let idx = spec_collector_index(prev, d.collector_id);
        lemma_collector_index_props(prev, collector_id);
        lemma_collector_index_props(prev, d.collector_id);
        assert(r.push(d) =~= rows);
        lemma_samples_of_push(r, d, collector_id);
        let samp = spec_samples_of(r, collector_id);
        let sam = spec_samples_of(rows, collector_id);
        if d.collector_id == collector_id {
            assert(sam == samp.push(d));
            assert(sam.drop_last() =~= samp);
            assert(sam.last() == d);
            if ip >= 0 {
                assert(entries == prev.update(ip, Collector {
                    id: prev[ip].id,
                    collector_id: prev[ip].collector_id,
                    last_seen: if prev[ip].last_seen >= d.received {
                        prev[ip].last_seen
                    } else {
                        d.received
                    },
                }));
                assert(forall|k: int| 0 <= k < entries.len() ==> entries[k].collector_id == prev[
                    k
                ].collector_id);
                lemma_collector_index_at(entries, collector_id, ip);
            } else {
                assert(entries == prev.push(Collector {
                    id: d.id,
                    collector_id: d.collector_id,
                    last_seen: d.received,
                }));
                lemma_collector_index_at(entries, collector_id, prev.len() as int);
                assert(samp.len() == 0);
                assert(spec_max_received(samp) == 0);
                assert(spec_max_received(sam) == d.received);
            }
        } else {
            assert(sam == samp);
            if idx >= 0 {
                assert(forall|k: int| 0 <= k < entries.len() ==> entries[k].collector_id == prev[
                    k
                ].collector_id);
                if ip >= 0 {
                    assert(prev[ip].collector_id != prev[idx].collector_id);
                    assert(ip != idx);
                    lemma_collector_index_at(entries, collector_id, ip);
                } else {
                    lemma_collector_index_at(entries, collector_id, entries.len() as int);
                }
            } else {
                if ip >= 0 {
                    lemma_collector_index_at(entries, collector_id, ip);
                } else {
                    lemma_collector_index_at(entries, collector_id, entries.len() as int);
                }
            }
        }
    }
}

/// Law: the per-collector listing is always sorted ascending by arrival time.
pub proof fn lemma_sort_by_received_sorted(s: Seq<DataPoint>)
    ensures
        sorted_by_received(spec_sort_by_received(s)),
    decreases s.len(),
{
    if s.len() == 0 {
    } else {
        lemma_sort_by_received_sorted(s.drop_last());
        lemma_insert_by_received_sorted(spec_sort_by_received(s.drop_last()), s.last());
    }
}

} // verus!
