//! The per-device alert suppression state machine: a device fires an alert
//! when it is failing and its cooldown has elapsed (or it never alerted),
//! is suppressed while the cooldown runs, and has its record cleared once
//! when it recovers.

use vstd::prelude::*;
use vstd::map::*;

verus! {

/// One device's persistent alert record: the epoch second of the last alert
/// fired for it and the failed flag. A record exists only for devices that
/// have alerted at least once since startup and not recovered since;
/// absence means "never failed / fully recovered and forgotten".
pub struct AlertRecord {
    pub device_id: String,
    pub last_alert: i64,
    pub is_failed: bool,
}

/// Whether some record in `s` is keyed by `key`.
pub open spec fn has_key(s: Seq<AlertRecord>, key: Seq<char>) -> bool {
    exists|i: int| 0 <= i < s.len() && s[i].device_id@ == key
}

/// The index of the record keyed by `key` (meaningful only under `has_key`
/// and uniqueness of ids).
pub open spec fn index_of_key(s: Seq<AlertRecord>, key: Seq<char>) -> int {
    choose|i: int| 0 <= i < s.len() && s[i].device_id@ == key
}

/// No two records share a device id.
pub open spec fn unique_ids(s: Seq<AlertRecord>) -> bool {
    forall|i: int, j: int|
        #![trigger s[i], s[j]]
        0 <= i < j < s.len() ==> s[i].device_id@ != s[j].device_id@
}

/// The records as a map from device id to (last alert timestamp, failed
/// flag).
pub open spec fn records_map(s: Seq<AlertRecord>) -> Map<Seq<char>, (int, bool)> {
    Map::new(
        |k: Seq<char>| has_key(s, k),
        |k: Seq<char>|
            (s[index_of_key(s, k)].last_alert as int, s[index_of_key(s, k)].is_failed),
    )
}

/// Under unique ids, the record at a matching index is the one the map
/// holds for that key.
proof fn lemma_key_at(s: Seq<AlertRecord>, key: Seq<char>, i: int)
    requires
        unique_ids(s),
        0 <= i < s.len(),
        s[i].device_id@ == key,
    ensures
        has_key(s, key),
        index_of_key(s, key) == i,
        records_map(s).contains_key(key),
        records_map(s)[key] == (s[i].last_alert as int, s[i].is_failed),
{
    assert(has_key(s, key));
    let j = index_of_key(s, key);
    assert(0 <= j < s.len() && s[j].device_id@ == key);
    if j < i {
        assert(s[j].device_id@ != s[i].device_id@);
    } else if i < j {
        assert(s[i].device_id@ != s[j].device_id@);
    }
}

/// Appending a record with a fresh id inserts exactly that key.
proof fn lemma_push_new(s: Seq<AlertRecord>, r: AlertRecord)
    requires
        unique_ids(s),
        !has_key(s, r.device_id@),
    ensures
        unique_ids(s.push(r)),
        records_map(s.push(r)) == records_map(s).insert(
            r.device_id@,
            (r.last_alert as int, r.is_failed),
        ),
{
    let s2 = s.push(r);
    let key = r.device_id@;
    assert forall|i: int, j: int|
        #![trigger s2[i], s2[j]]
        0 <= i < j < s2.len() implies s2[i].device_id@ != s2[j].device_id@ by {
        if j == s.len() {
            assert(s2[i] == s[i]);
            assert(s2[j] == r);
            if s2[i].device_id@ == key {
                assert(has_key(s, key));
            }
        } else {
            assert(s2[i] == s[i]);
            assert(s2[j] == s[j]);
        }
    }
    let m1 = records_map(s2);
    let m2 = records_map(s).insert(key, (r.last_alert as int, r.is_failed));
    assert forall|k: Seq<char>| m1.contains_key(k) <==> m2.contains_key(k) by {
        if k == key {
            assert(s2[s.len() as int].device_id@ == key);
            assert(has_key(s2, key));
        } else {
            if has_key(s, k) {
                let i = index_of_key(s, k);
                assert(0 <= i < s.len() && s[i].device_id@ == k);
                assert(s2[i] == s[i]);
                assert(has_key(s2, k));
            }
            if has_key(s2, k) {
                let j = index_of_key(s2, k);
                assert(0 <= j < s2.len() && s2[j].device_id@ == k);
                assert(j != s.len());
                assert(s2[j] == s[j]);
                assert(has_key(s, k));
            }
        }
    }
    assert forall|k: Seq<char>| m1.contains_key(k) implies m1[k] == m2[k] by {
        let j = index_of_key(s2, k);
        assert(0 <= j < s2.len() && s2[j].device_id@ == k);
        if k == key {
            if j < s.len() {
                assert(s2[j] == s[j]);
                assert(has_key(s, key));
                assert(false);
            }
            assert(s2[j] == r);
        } else {
            assert(j != s.len());
            assert(s2[j] == s[j]);
            lemma_key_at(s, k, j);
            lemma_key_at(s2, k, j);
        }
    }
    assert(m1 =~= m2);
}

/// Removing the record at an index removes exactly its key.
proof fn lemma_remove_at(s: Seq<AlertRecord>, i: int)
    requires
        unique_ids(s),
        0 <= i < s.len(),
    ensures
        unique_ids(s.remove(i)),
        !has_key(s.remove(i), s[i].device_id@),
        records_map(s.remove(i)) == records_map(s).remove(s[i].device_id@),
{
    let s2 = s.remove(i);
    let key = s[i].device_id@;
    assert(s2.len() == s.len() - 1);
    assert forall|j: int| 0 <= j < s2.len() implies s2[j] == (if j < i {
        s[j]
    } else {
        s[j + 1]
    }) by {}
    assert forall|p: int, q: int|
        #![trigger s2[p], s2[q]]
        0 <= p < q < s2.len() implies s2[p].device_id@ != s2[q].device_id@ by {
        let p0 = if p < i { p } else { p + 1 };
        let q0 = if q < i { q } else { q + 1 };
        assert(s2[p] == s[p0]);
        assert(s2[q] == s[q0]);
        assert(0 <= p0 < q0 < s.len());
    }
    assert forall|j: int| 0 <= j < s2.len() implies s2[j].device_id@ != key by {
        let j0 = if j < i { j } else { j + 1 };
        assert(s2[j] == s[j0]);
        assert(j0 != i);
        if j0 < i {
            assert(s[j0].device_id@ != s[i].device_id@);
        } else {
            assert(s[i].device_id@ != s[j0].device_id@);
        }
    }
    let m1 = records_map(s2);
    let m2 = records_map(s).remove(key);
    assert forall|k: Seq<char>| m1.contains_key(k) <==> m2.contains_key(k) by {
        if k != key {
            if has_key(s, k) {
                let j0 = index_of_key(s, k);
                assert(0 <= j0 < s.len() && s[j0].device_id@ == k);
                assert(j0 != i);
                let j = if j0 < i { j0 } else { j0 - 1 };
                assert(s2[j] == s[j0]);
                assert(has_key(s2, k));
            }
            if has_key(s2, k) {
                let j = index_of_key(s2, k);
                let j0 = if j < i { j } else { j + 1 };
                assert(s2[j] == s[j0]);
                assert(has_key(s, k));
            }
        }
    }
    assert forall|k: Seq<char>| m1.contains_key(k) implies m1[k] == m2[k] by {
        let j = index_of_key(s2, k);
        assert(0 <= j < s2.len() && s2[j].device_id@ == k);
        let j0 = if j < i { j } else { j + 1 };
        assert(s2[j] == s[j0]);
        lemma_key_at(s2, k, j);
        lemma_key_at(s, k, j0);
    }
    assert(m1 =~= m2);
}

/// When a failing device fires rather than being suppressed: it has no
/// record yet, or at least `cooldown` seconds have passed since its last
/// alert.
pub open spec fn fires(
    m: Map<Seq<char>, (int, bool)>,
    key: Seq<char>,
    now: int,
    cooldown: int,
) -> bool {
    !m.contains_key(key) || now - m[key].0 >= cooldown
}

/// The shared alert bookkeeping: one record per device that is currently in
/// an alerted-failure state. The raw records are never exposed; rounds act
/// on it only through `should_alert` and `mark_recovered`.
pub struct AlertState {
    records: Vec<AlertRecord>,
}

impl View for AlertState {
    type V = Map<Seq<char>, (int, bool)>;

    closed spec fn view(&self) -> Map<Seq<char>, (int, bool)> {
        records_map(self.records@)
    }
}

impl AlertState {
    /// Device ids key at most one record each.
    pub closed spec fn wf(&self) -> bool {
        unique_ids(self.records@)
    }

    /// An empty state: no device has ever failed.
    pub fn new() -> (r: Self)
        ensures
            r.wf(),
            r@ == Map::<Seq<char>, (int, bool)>::empty(),
    {
        let r = AlertState { records: Vec::new() };
        proof {
            assert(r@ =~= Map::<Seq<char>, (int, bool)>::empty());
        }
        r
    }

    /// The once-per-round decision for a device whose verdict is failing
    /// this round: fire exactly when the device has no record yet or its
    /// cooldown has elapsed; firing stamps the record with `now_ts` and
    /// marks it failed, suppression mutates nothing.
    pub fn should_alert(&mut self, device_id: &str, now_ts: i64, cooldown: u64) -> (fire: bool)
        requires
            old(self).wf(),
        ensures
            final(self).wf(),
            fire == fires(old(self)@, device_id@, now_ts as int, cooldown as int),
            fire ==> final(self)@ == old(self)@.insert(device_id@, (now_ts as int, true)),
            !fire ==> final(self)@ == old(self)@,
    {
        let key = device_id.to_owned();
        let ghost m0 = self@;
        let n = self.records.len();
        let mut i: usize = 0;
        while i < n
            invariant
                i <= n,
                n == self.records@.len(),
                self == old(self),
                self.wf(),
                m0 == self@,
                forall|j: int| 0 <= j < i ==> (#[trigger] self.records@[j]).device_id@ != key@,
                key@ == device_id@,
            decreases n - i,
        {
            if self.records[i].device_id == key {
                proof {
                    lemma_key_at(self.records@, key@, i as int);
                }
                let last = self.records[i].last_alert;
                if (now_ts as i128) - (last as i128) >= (cooldown as i128) {
                    proof {
                        lemma_remove_at(self.records@, i as int);
                    }
                    let mut rec = self.records.remove(i);
                    rec.last_alert = now_ts;
                    rec.is_failed = true;
                    proof {
                        lemma_push_new(self.records@, rec);
                    }
                    self.records.push(rec);
                    proof {
                        assert(self@ =~= m0.insert(device_id@, (now_ts as int, true)));
                    }
                    return true;
                } else {
                    return false;
                }
            }
            i += 1;
        }
        assert(!has_key(self.records@, key@));
        let rec = AlertRecord { device_id: key, last_alert: now_ts, is_failed: true };
        proof {
            lemma_push_new(self.records@, rec);
        }
        self.records.push(rec);
        true
    }

    /// The once-per-round decision for a device whose verdict is healthy:
    /// clear its record if one exists; report whether this was the
    /// fired-to-recovered transition.
    pub fn mark_recovered(&mut self, device_id: &str) -> (recovered: bool)
        requires
            old(self).wf(),
        ensures
            final(self).wf(),
            recovered == old(self)@.contains_key(device_id@),
            final(self)@ == old(self)@.remove(device_id@),
    {
        let key = device_id.to_owned();
        let n = self.records.len();
        let mut i: usize = 0;
        while i < n
            invariant
                i <= n,
                n == self.records@.len(),
                self == old(self),
                self.wf(),
                forall|j: int| 0 <= j < i ==> (#[trigger] self.records@[j]).device_id@ != key@,
                key@ == device_id@,
            decreases n - i,
        {
            if self.records[i].device_id == key {
                proof {
                    lemma_key_at(self.records@, key@, i as int);
                    lemma_remove_at(self.records@, i as int);
                }
                self.records.remove(i);
                return true;
            }
            i += 1;
        }
        proof {
            assert(!has_key(self.records@, key@));
            assert(self@ =~= self@.remove(device_id@));
        }
        false
    }
}

/// Once an alert fires at `t`, a failing round strictly inside the cooldown
/// window is suppressed.
pub proof fn lemma_cooldown_suppresses(
    m: Map<Seq<char>, (int, bool)>,
    key: Seq<char>,
    t: int,
    later: int,
    cooldown: int,
)
    requires
        later - t < cooldown,
    ensures
        !fires(m.insert(key, (t, true)), key, later, cooldown),
{
}

/// ...and a failing round at or past the end of the window fires again.
pub proof fn lemma_cooldown_refires(
    m: Map<Seq<char>, (int, bool)>,
    key: Seq<char>,
    t: int,
    later: int,
    cooldown: int,
)
    requires
        later - t >= cooldown,
    ensures
        fires(m.insert(key, (t, true)), key, later, cooldown),
{
}

/// Recovery clears at most once: after a device's record is removed, its
/// key is gone, and a second removal changes nothing.
pub proof fn lemma_recovery_clears_once(m: Map<Seq<char>, (int, bool)>, key: Seq<char>)
    ensures
        !m.remove(key).contains_key(key),
        m.remove(key).remove(key) == m.remove(key),
{
    assert(m.remove(key).remove(key) =~= m.remove(key));
}

/// A device that never failed has no record, so a fresh failure fires at
/// once, whatever the cooldown.
pub proof fn lemma_never_failed_fires(
    m: Map<Seq<char>, (int, bool)>,
    key: Seq<char>,
    now: int,
    cooldown: int,
)
    requires
        !m.contains_key(key),
    ensures
        fires(m, key, now, cooldown),
{
}

} // verus!
