//! The presence store: each reader's last published position, keyed by
//! display name, with a liveness timestamp in milliseconds.
use vstd::prelude::*;

verus! {

/// Records older than this many milliseconds are expired.
pub const EXPIRY_MS: u64 = 10000;

/// Interval between two sweeps of the store, in milliseconds.
pub const SWEEP_INTERVAL_MS: u64 = 5000;

/// The element-index range a reader has in view. The percentages give
/// sub-element precision and run from 0 to 100.
#[derive(Debug, Clone, Copy, PartialEq, Eq, Structural)]
pub struct Position {
    pub start_element: usize,
    pub start_percent: u8,
    pub end_element: usize,
    pub end_percent: u8,
}

impl Position {
    /// A position covering whole elements from `start` to `end`.
    pub fn whole_elements(start: usize, end: usize) -> (r: Position)
        ensures
            r == (Position { start_element: start, start_percent: 0, end_element: end, end_percent: 100 }),
    {
        Position { start_element: start, start_percent: 0, end_element: end, end_percent: 100 }
    }
}

/// A reader as peers see it.
#[derive(Debug, Clone)]
pub struct ConnectedUser {
    pub name: String,
    pub color: String,
    pub position: Position,
}

impl ConnectedUser {
    /// A copy of this reader.
    pub fn duplicate(&self) -> (r: ConnectedUser)
        ensures
            r == *self,
    {
        ConnectedUser {
            name: self.name.clone(),
            color: self.color.clone(),
            position: self.position,
        }
    }
}

/// A reader with the time of its last update.
#[derive(Debug, Clone)]
pub struct UserRecord {
    pub user: ConnectedUser,
    pub last_heartbeat: u64,
}

/// The identity key of a record.
pub open spec fn key_of(r: UserRecord) -> Seq<char> {
    r.user.name@
}

/// A record is expired at `now` when more than the expiry interval has passed
/// since its last heartbeat.
pub open spec fn expired(r: UserRecord, now: u64) -> bool {
    now - r.last_heartbeat > EXPIRY_MS
}

/// The map from identity to record that a sequence of records stands for;
/// a later record replaces an earlier one with the same key.
pub open spec fn records_model(recs: Seq<UserRecord>) -> Map<Seq<char>, UserRecord>
    decreases recs.len(),
{
    if recs.len() == 0 {
        Map::empty()
    } else {
        records_model(recs.drop_last()).insert(key_of(recs.last()), recs.last())
    }
}

/// No two records share a key.
pub open spec fn unique_keys(recs: Seq<UserRecord>) -> bool {
    forall|i: int, j: int|
        0 <= i < recs.len() && 0 <= j < recs.len() && i != j ==> key_of(#[trigger] recs[i])
            != key_of(#[trigger] recs[j])
}

/// The records of `recs` that are not expired at `now`, in order.
pub open spec fn live_records(recs: Seq<UserRecord>, now: u64) -> Seq<UserRecord>
    decreases recs.len(),
{
    if recs.len() == 0 {
        recs
    } else if expired(recs.last(), now) {
        live_records(recs.drop_last(), now)
    } else {
        live_records(recs.drop_last(), now).push(recs.last())
    }
}

/// The part of a model that is still live at `now`.
pub open spec fn live_model(m: Map<Seq<char>, UserRecord>, now: u64) -> Map<
    Seq<char>,
    UserRecord,
> {
    Map::new(|k: Seq<char>| m.contains_key(k) && !expired(m[k], now), |k: Seq<char>| m[k])
}

/// With unique keys, the model holds exactly the records' keys, each with its record.
pub proof fn lemma_model_lookup(recs: Seq<UserRecord>)
    requires
        unique_keys(recs),
    ensures
        forall|k: Seq<char>|
            #[trigger] records_model(recs).contains_key(k) <==> exists|i: int|
                0 <= i < recs.len() && key_of(#[trigger] recs[i]) == k,
        forall|i: int|
            0 <= i < recs.len() ==> records_model(recs)[key_of(#[trigger] recs[i])] == recs[i],
    decreases recs.len(),
{
    if recs.len() > 0 {
        let d = recs.drop_last();
        assert(unique_keys(d)) by {
            assert forall|i: int, j: int|
                0 <= i < d.len() && 0 <= j < d.len() && i != j implies key_of(#[trigger] d[i])
                != key_of(#[trigger] d[j]) by {
                assert(d[i] == recs[i] && d[j] == recs[j]);
            }
        }
        lemma_model_lookup(d);
        let n = recs.len() - 1;
        assert(recs.last() == recs[n]);
        assert(records_model(recs) == records_model(d).insert(key_of(recs[n]), recs[n]));
        assert forall|k: Seq<char>| #[trigger]
            records_model(recs).contains_key(k) <==> exists|i: int|
                0 <= i < recs.len() && key_of(#[trigger] recs[i]) == k by {
            if records_model(recs).contains_key(k) {
                if k != key_of(recs[n]) {
                    assert(records_model(d).contains_key(k));
                    let i = choose|i: int| 0 <= i < d.len() && key_of(#[trigger] d[i]) == k;
                    assert(recs[i] == d[i]);
                } else {
                    assert(key_of(recs[n]) == k);
                }
            }
            if exists|i: int| 0 <= i < recs.len() && key_of(#[trigger] recs[i]) == k {
                let i = choose|i: int| 0 <= i < recs.len() && key_of(#[trigger] recs[i]) == k;
                if i < n {
                    assert(d[i] == recs[i]);
                    assert(records_model(d).contains_key(k));
                }
            }
        }
        assert forall|i: int| 0 <= i < recs.len() implies records_model(recs)[key_of(
            #[trigger] recs[i],
        )] == recs[i] by {
            if i < n {
                assert(d[i] == recs[i]);
                assert(key_of(recs[i]) != key_of(recs[n]));
            }
        }
    }
}

/// Replacing the record at `i` by one with the same key replaces that key's
/// entry in the model.
proof fn lemma_model_update(recs: Seq<UserRecord>, i: int, r: UserRecord)
    requires
        unique_keys(recs),
        0 <= i < recs.len(),
        key_of(r) == key_of(recs[i]),
    ensures
        unique_keys(recs.update(i, r)),
        records_model(recs.update(i, r)) == records_model(recs).insert(key_of(r), r),
{
    let s = recs.update(i, r);
    assert(unique_keys(s)) by {
        assert forall|a: int, b: int|
            0 <= a < s.len() && 0 <= b < s.len() && a != b implies key_of(#[trigger] s[a])
            != key_of(#[trigger] s[b]) by {
            assert(key_of(s[a]) == key_of(recs[a]));
            assert(key_of(s[b]) == key_of(recs[b]));
        }
    }
    lemma_model_lookup(recs);
    lemma_model_lookup(s);
    let lhs = records_model(s);
    let rhs = records_model(recs).insert(key_of(r), r);
    assert forall|k: Seq<char>| #[trigger] lhs.contains_key(k) <==> rhs.contains_key(k) by {
        if lhs.contains_key(k) {
            let j = choose|j: int| 0 <= j < s.len() && key_of(#[trigger] s[j]) == k;
            assert(key_of(recs[j]) == k);
        }
        if rhs.contains_key(k) && k != key_of(r) {
            let j = choose|j: int| 0 <= j < recs.len() && key_of(#[trigger] recs[j]) == k;
            assert(key_of(s[j]) == k);
        }
        if k == key_of(r) {
            assert(key_of(s[i]) == k);
        }
    }
    assert forall|k: Seq<char>| #[trigger] lhs.contains_key(k) implies lhs[k] == rhs[k] by {
        let j = choose|j: int| 0 <= j < s.len() && key_of(#[trigger] s[j]) == k;
        if j != i {
            assert(s[j] == recs[j]);
        }
    }
    assert(lhs =~= rhs);
}

/// Appending a record with a new key adds that key to the model.
proof fn lemma_model_push(recs: Seq<UserRecord>, r: UserRecord)
    requires
        unique_keys(recs),
        forall|i: int| 0 <= i < recs.len() ==> key_of(#[trigger] recs[i]) != key_of(r),
    ensures
        unique_keys(recs.push(r)),
        records_model(recs.push(r)) == records_model(recs).insert(key_of(r), r),
{
    let s = recs.push(r);
    assert(s.drop_last() == recs);
    assert(unique_keys(s)) by {
        assert forall|a: int, b: int|
            0 <= a < s.len() && 0 <= b < s.len() && a != b implies key_of(#[trigger] s[a])
            != key_of(#[trigger] s[b]) by {
            if a < recs.len() {
                assert(s[a] == recs[a]);
            }
            if b < recs.len() {
                assert(s[b] == recs[b]);
            }
        }
    }
}

/// The live records have unique keys and stand for the live part of the model.
proof fn lemma_model_live(recs: Seq<UserRecord>, now: u64)
    requires
        unique_keys(recs),
    ensures
        unique_keys(live_records(recs, now)),
        records_model(live_records(recs, now)) == live_model(records_model(recs), now),
        forall|j: int|
            0 <= j < live_records(recs, now).len() ==> exists|i: int|
                0 <= i < recs.len() && recs[i] == #[trigger] live_records(recs, now)[j],
    decreases recs.len(),
{
    if recs.len() == 0 {
        assert(live_model(records_model(recs), now) =~= Map::empty());
    } else {
        let d = recs.drop_last();
        let n = recs.len() - 1;
        let last = recs.last();
        assert(unique_keys(d)) by {
            assert forall|i: int, j: int|
                0 <= i < d.len() && 0 <= j < d.len() && i != j implies key_of(#[trigger] d[i])
                != key_of(#[trigger] d[j]) by {
                assert(d[i] == recs[i] && d[j] == recs[j]);
            }
        }
        lemma_model_live(d, now);
        let ld = live_records(d, now);
        lemma_model_lookup(d);
        assert(!records_model(d).contains_key(key_of(last))) by {
            if records_model(d).contains_key(key_of(last)) {
                let i = choose|i: int| 0 <= i < d.len() && key_of(#[trigger] d[i]) == key_of(last);
                assert(d[i] == recs[i]);
            }
        }
        assert forall|j: int| 0 <= j < ld.len() implies key_of(#[trigger] ld[j]) != key_of(
            last,
        ) by {
            let i = choose|i: int| 0 <= i < d.len() && d[i] == #[trigger] ld[j];
            assert(d[i] == recs[i]);
            assert(key_of(recs[i]) != key_of(recs[n]));
        }
        if expired(last, now) {
            assert(records_model(ld) =~= live_model(records_model(recs), now));
            assert forall|j: int| 0 <= j < ld.len() implies exists|i: int|
                0 <= i < recs.len() && recs[i] == #[trigger] ld[j] by {
                let i = choose|i: int| 0 <= i < d.len() && d[i] == #[trigger] ld[j];
                assert(recs[i] == d[i]);
            }
        } else {
            lemma_model_push(ld, last);
            assert(ld.push(last).drop_last() == ld);
            assert(records_model(ld.push(last)) =~= live_model(records_model(recs), now));
            let l2 = ld.push(last);
            assert forall|j: int| 0 <= j < l2.len() implies exists|i: int|
                0 <= i < recs.len() && recs[i] == #[trigger] l2[j] by {
                if j < ld.len() {
                    let i = choose|i: int| 0 <= i < d.len() && d[i] == #[trigger] ld[j];
                    assert(recs[i] == d[i]);
                    assert(l2[j] == ld[j]);
                } else {
                    assert(recs[n] == l2[j]);
                }
            }
        }
    }
}

/// The registry of readers' positions. Writers replace a reader's record
/// whole; a sweep drops expired records.
pub struct PresenceStore {
    records: Vec<UserRecord>,
}

impl PresenceStore {
    /// The records, in storage order.
    pub closed spec fn records(&self) -> Seq<UserRecord> {
        self.records@
    }

    /// The store as a map from identity to record.
    pub open spec fn model(&self) -> Map<Seq<char>, UserRecord> {
        records_model(self.records())
    }

    /// Well-formedness: one record per identity.
    pub open spec fn wf(&self) -> bool {
        unique_keys(self.records())
    }

    /// An empty store.
    pub fn new() -> (r: PresenceStore)
        ensures
            r.wf(),
            r.model() == Map::<Seq<char>, UserRecord>::empty(),
            r.records().len() == 0,
    {
        PresenceStore { records: Vec::new() }
    }

    /// Number of records held.
    pub fn len(&self) -> (r: usize)
        ensures
            r == self.records().len(),
    {
        self.records.len()
    }

    /// Inserts or replaces the record of `user.name`, stamped with `now`.
    pub fn upsert(&mut self, user: ConnectedUser, now: u64)
        requires
            old(self).wf(),
        ensures
            final(self).wf(),
            final(self).model() == old(self).model().insert(
                user.name@,
                UserRecord { user, last_heartbeat: now },
            ),
    {
        let ghost key = user.name@;
        let mut i: usize = 0;
        while i < self.records.len()
            invariant
                0 <= i <= self.records@.len(),
                self.records@ == old(self).records@,
                unique_keys(self.records@),
                key == user.name@,
                forall|j: int| 0 <= j < i ==> key_of(#[trigger] self.records@[j]) != key,
            decreases self.records@.len() - i,
        {
            let same = self.records[i].user.name == user.name;
            if same {
                let rec = UserRecord { user, last_heartbeat: now };
                proof {
                    lemma_model_update(self.records@, i as int, rec);
                }
                self.records.set(i, rec);
                return;
            }
            i += 1;
        }
        let rec = UserRecord { user, last_heartbeat: now };
        proof {
            lemma_model_push(self.records@, rec);
        }
        self.records.push(rec);
    }

    /// A point-in-time copy of all readers held, one per identity.
    pub fn snapshot(&self) -> (r: Vec<ConnectedUser>)
        requires
            self.wf(),
        ensures
            r.len() == self.records().len(),
            forall|i: int| 0 <= i < r.len() ==> #[trigger] r[i] == self.records()[i].user,
            forall|k: Seq<char>|
                #[trigger] self.model().contains_key(k) <==> exists|i: int|
                    0 <= i < r.len() && (#[trigger] r[i]).name@ == k,
            forall|i: int| 0 <= i < r.len() ==> self.model()[(#[trigger] r[i]).name@].user == r[i],
    {
        let mut r: Vec<ConnectedUser> = Vec::new();
        let mut i: usize = 0;
        while i < self.records.len()
            invariant
                0 <= i <= self.records@.len(),
                r.len() == i,
                forall|j: int| 0 <= j < i ==> #[trigger] r[j] == self.records@[j].user,
            decreases self.records@.len() - i,
        {
            r.push(self.records[i].user.duplicate());
            i += 1;
        }
        proof {
            lemma_model_lookup(self.records@);
            assert forall|k: Seq<char>| #[trigger] self.model().contains_key(k) <==> exists|i: int|
                0 <= i < r.len() && (#[trigger] r[i]).name@ == k by {
                if self.model().contains_key(k) {
                    let i = choose|i: int|
                        0 <= i < self.records@.len() && key_of(#[trigger] self.records@[i]) == k;
                    assert(r[i].name@ == k);
                }
                if exists|i: int| 0 <= i < r.len() && (#[trigger] r[i]).name@ == k {
                    let i = choose|i: int| 0 <= i < r.len() && (#[trigger] r[i]).name@ == k;
                    assert(key_of(self.records@[i]) == k);
                }
            }
            assert forall|i: int| 0 <= i < r.len() implies self.model()[(
            #[trigger] r[i]).name@].user == r[i] by {
                assert(key_of(self.records@[i]) == r[i].name@);
            }
        }
        r
    }

    /// Removes every record that is expired at `now`.
    pub fn sweep(&mut self, now: u64)
        requires
            old(self).wf(),
        ensures
            final(self).wf(),
            final(self).model() == live_model(old(self).model(), now),
    {
        let mut pending: Vec<UserRecord> = Vec::new();
        std::mem::swap(&mut pending, &mut self.records);
        let ghost all = pending@;
        let count: usize = pending.len();
        let ghost total = count as nat;
        let mut j: usize = 0;
        while pending.len() > 0
            invariant
                all == old(self).records@,
                j + pending@.len() == total,
                total == all.len(),
                total <= usize::MAX,
                pending@ == all.subrange(j as int, total as int),
                self.records@ == live_records(all.subrange(0, j as int), now),
            decreases pending@.len(),
        {
            let rec = pending.remove(0);
            proof {
                assert(all.subrange(0, j + 1 as int).drop_last() == all.subrange(0, j as int));
                assert(all.subrange(0, j + 1 as int).last() == rec);
            }
            let elapsed: u64 = if now >= rec.last_heartbeat {
                now - rec.last_heartbeat
            } else {
                0
            };
            if elapsed <= EXPIRY_MS {
                self.records.push(rec);
            }
            j += 1;
            proof {
                assert(pending@ =~= all.subrange(j as int, total as int));
            }
        }
        proof {
            assert(all.subrange(0, total as int) == all);
            lemma_model_live(all, now);
        }
    }
}

/// After a sweep at `now`, a record whose heartbeat is more than the expiry
/// interval old is gone, and a record refreshed within it is kept unchanged;
/// a record refreshed within the interval before each of a run of sweeps
/// survives all of them.
pub proof fn lemma_presence_expiry(
    m: Map<Seq<char>, UserRecord>,
    k: Seq<char>,
    now: u64,
    later_sweeps: Seq<u64>,
)
    ensures
        m.contains_key(k) && expired(m[k], now) ==> !live_model(m, now).contains_key(k),
        m.contains_key(k) && !expired(m[k], now) ==> live_model(m, now).contains_key(k)
            && live_model(m, now)[k] == m[k],
        m.contains_key(k) && (forall|i: int|
            0 <= i < later_sweeps.len() ==> !expired(m[k], #[trigger] later_sweeps[i]))
            ==> sweeps_model(m, later_sweeps).contains_key(k) && sweeps_model(m, later_sweeps)[k]
            == m[k],
    decreases later_sweeps.len(),
{
    if later_sweeps.len() > 0 && m.contains_key(k) && (forall|i: int|
        0 <= i < later_sweeps.len() ==> !expired(m[k], #[trigger] later_sweeps[i])) {
        let rest = later_sweeps.drop_last();
        lemma_presence_expiry(m, k, now, rest);
        assert forall|i: int| 0 <= i < rest.len() implies !expired(m[k], #[trigger] rest[i]) by {
            assert(rest[i] == later_sweeps[i]);
        }
        assert(!expired(m[k], later_sweeps[later_sweeps.len() - 1]));
    }
}

/// The model after sweeping at each of `times` in turn.
pub open spec fn sweeps_model(m: Map<Seq<char>, UserRecord>, times: Seq<u64>) -> Map<
    Seq<char>,
    UserRecord,
>
    decreases times.len(),
{
    if times.len() == 0 {
        m
    } else {
        live_model(sweeps_model(m, times.drop_last()), times.last())
    }
}

} // verus!
