//! The round scheduler's decisions: feeding one round's verdicts through
//! the alert state machine in order, and pacing the next round by the
//! wall-clock time the finished round took.

use vstd::prelude::*;
use crate::alert::{fires, AlertState};
use crate::fleet::CheckFailure;

verus! {

/// A device's outcome for one round, as handed from the orchestrator to the
/// alert decision: the device's id, whether every check passed, and the
/// failing checks' details.
pub struct DeviceVerdict {
    pub device_id: String,
    pub healthy: bool,
    pub failures: Vec<CheckFailure>,
}

/// The part of a verdict list the alert decision reads: (id, healthy)
/// pairs.
pub open spec fn verdict_keys(vs: Seq<DeviceVerdict>) -> Seq<(Seq<char>, bool)> {
    vs.map_values(|v: DeviceVerdict| (v.device_id@, v.healthy))
}

/// The alert map after one round processed the verdicts in order: each
/// healthy device's record is cleared, each failing device either fires
/// (record stamped `now`) or is suppressed (no change).
pub open spec fn round_state(
    m: Map<Seq<char>, (int, bool)>,
    vs: Seq<(Seq<char>, bool)>,
    now: int,
    cooldown: int,
) -> Map<Seq<char>, (int, bool)>
    decreases vs.len(),
{
    if vs.len() == 0 {
        m
    } else {
        let prev = round_state(m, vs.drop_last(), now, cooldown);
        let last = vs.last();
        if last.1 {
            prev.remove(last.0)
        } else if fires(prev, last.0, now, cooldown) {
            prev.insert(last.0, (now, true))
        } else {
            prev
        }
    }
}

/// The positions of the verdicts that fire an alert this round, in verdict
/// order.
pub open spec fn round_alerts(
    m: Map<Seq<char>, (int, bool)>,
    vs: Seq<(Seq<char>, bool)>,
    now: int,
    cooldown: int,
) -> Seq<int>
    decreases vs.len(),
{
    if vs.len() == 0 {
        Seq::empty()
    } else {
        let prev_alerts = round_alerts(m, vs.drop_last(), now, cooldown);
        let prev = round_state(m, vs.drop_last(), now, cooldown);
        let last = vs.last();
        if !last.1 && fires(prev, last.0, now, cooldown) {
            prev_alerts.push(vs.len() - 1)
        } else {
            prev_alerts
        }
    }
}

/// Applies one round's verdicts to the alert state, serialized as the round
/// scheduler does: every healthy device is marked recovered, every failing
/// device is put to the cooldown decision, and the positions of the
/// verdicts that must notify are returned in order.
pub fn process_round(
    state: &mut AlertState,
    verdicts: &Vec<DeviceVerdict>,
    now_ts: i64,
    cooldown: u64,
) -> (alerts: Vec<usize>)
    requires
        old(state).wf(),
    ensures
        final(state).wf(),
        final(state)@ == round_state(
            old(state)@,
            verdict_keys(verdicts@),
            now_ts as int,
            cooldown as int,
        ),
        alerts@.map_values(|u: usize| u as int) == round_alerts(
            old(state)@,
            verdict_keys(verdicts@),
            now_ts as int,
            cooldown as int,
        ),
        forall|j: int| 0 <= j < alerts@.len() ==> (#[trigger] alerts@[j]) < verdicts@.len(),
{
    let ghost m0 = old(state)@;
    let ghost keys = verdict_keys(verdicts@);
    let mut alerts: Vec<usize> = Vec::new();
    proof {
        assert(keys.take(0) =~= Seq::<(Seq<char>, bool)>::empty());
        assert(alerts@.map_values(|u: usize| u as int) =~= round_alerts(
            m0,
            keys.take(0),
            now_ts as int,
            cooldown as int,
        ));
    }
    let mut i: usize = 0;
    while i < verdicts.len()
        invariant
            i <= verdicts@.len(),
            keys == verdict_keys(verdicts@),
            state.wf(),
            state@ == round_state(m0, keys.take(i as int), now_ts as int, cooldown as int),
            alerts@.map_values(|u: usize| u as int) == round_alerts(
                m0,
                keys.take(i as int),
                now_ts as int,
                cooldown as int,
            ),
            forall|j: int| 0 <= j < alerts@.len() ==> (#[trigger] alerts@[j]) < i,
        decreases verdicts@.len() - i,
    {
        proof {
            assert(keys.take(i + 1).drop_last() =~= keys.take(i as int));
            assert(keys.take(i + 1).last() == keys[i as int]);
            assert(keys[i as int] == (verdicts@[i as int].device_id@, verdicts@[i as int].healthy));
        }
        let ghost prev_mapped = alerts@.map_values(|u: usize| u as int);
        let v = &verdicts[i];
        if v.healthy {
            state.mark_recovered(v.device_id.as_str());
        } else {
            if state.should_alert(v.device_id.as_str(), now_ts, cooldown) {
                alerts.push(i);
                proof {
                    assert(alerts@.map_values(|u: usize| u as int) =~= prev_mapped.push(i as int));
                }
            }
        }
        i += 1;
    }
    proof {
        assert(keys.take(verdicts@.len() as int) =~= keys);
    }
    alerts
}

/// Whether some verdict in `vs` concerns the device keyed `k`.
pub open spec fn key_in(vs: Seq<(Seq<char>, bool)>, k: Seq<char>) -> bool {
    exists|i: int| 0 <= i < vs.len() && (#[trigger] vs[i]).0 == k
}

/// No two verdicts of the round concern the same device.
pub open spec fn unique_keys(vs: Seq<(Seq<char>, bool)>) -> bool {
    forall|i: int, j: int|
        #![trigger vs[i], vs[j]]
        0 <= i < j < vs.len() ==> vs[i].0 != vs[j].0
}

/// A device no verdict concerns keeps its record untouched by the round.
pub proof fn lemma_round_state_untouched(
    m: Map<Seq<char>, (int, bool)>,
    vs: Seq<(Seq<char>, bool)>,
    now: int,
    cooldown: int,
    k: Seq<char>,
)
    requires
        !key_in(vs, k),
    ensures
        round_state(m, vs, now, cooldown).contains_key(k) == m.contains_key(k),
        m.contains_key(k) ==> round_state(m, vs, now, cooldown)[k] == m[k],
    decreases vs.len(),
{
    if vs.len() > 0 {
        let prev = vs.drop_last();
        assert forall|i: int| 0 <= i < prev.len() implies (#[trigger] prev[i]).0 != k by {
            assert(prev[i] == vs[i]);
        }
        lemma_round_state_untouched(m, prev, now, cooldown, k);
        assert(vs.last() == vs[vs.len() - 1]);
        assert(vs.last().0 != k);
    }
}

/// With one verdict per device, the round's decisions are independent of
/// the order the verdicts arrive in: a verdict fires exactly when its
/// device is failing and its cooldown has elapsed against the state the
/// round started from, every healthy device's record is cleared, every
/// firing device's record is stamped `now`, and every suppressed device's
/// record is untouched.
pub proof fn lemma_round_decisions(
    m: Map<Seq<char>, (int, bool)>,
    vs: Seq<(Seq<char>, bool)>,
    now: int,
    cooldown: int,
)
    requires
        unique_keys(vs),
    ensures
        forall|x: int|
            #[trigger] round_alerts(m, vs, now, cooldown).contains(x) ==> 0 <= x < vs.len(),
        forall|i: int|
            0 <= i < vs.len() ==> (round_alerts(m, vs, now, cooldown).contains(i) <==> (!(
            #[trigger] vs[i]).1 && fires(m, vs[i].0, now, cooldown))),
        forall|i: int|
            0 <= i < vs.len() && (#[trigger] vs[i]).1 ==> !round_state(
                m,
                vs,
                now,
                cooldown,
            ).contains_key(vs[i].0),
        forall|i: int|
            0 <= i < vs.len() && !(#[trigger] vs[i]).1 && fires(m, vs[i].0, now, cooldown)
                ==> round_state(m, vs, now, cooldown).contains_key(vs[i].0) && round_state(
                m,
                vs,
                now,
                cooldown,
            )[vs[i].0] == (now, true),
        forall|i: int|
            0 <= i < vs.len() && !(#[trigger] vs[i]).1 && !fires(m, vs[i].0, now, cooldown) ==> (
            round_state(m, vs, now, cooldown).contains_key(vs[i].0) == m.contains_key(vs[i].0) && (
            m.contains_key(vs[i].0) ==> round_state(m, vs, now, cooldown)[vs[i].0] == m[vs[i].0])),
    decreases vs.len(),
{
    if vs.len() > 0 {
        let prev = vs.drop_last();
        let last = vs.last();
        let n = vs.len() - 1;
        assert(last == vs[n]);
        assert forall|i: int, j: int|
            #![trigger prev[i], prev[j]]
            0 <= i < j < prev.len() implies prev[i].0 != prev[j].0 by {
            assert(prev[i] == vs[i]);
            assert(prev[j] == vs[j]);
        }
        lemma_round_decisions(m, prev, now, cooldown);
        // The last verdict's key occurs nowhere earlier, so the state it
        // decides against agrees with the round's starting state there.
        assert forall|i: int| 0 <= i < prev.len() implies (#[trigger] prev[i]).0 != last.0 by {
            assert(prev[i] == vs[i]);
        }
        assert(!key_in(prev, last.0));
        lemma_round_state_untouched(m, prev, now, cooldown, last.0);
        let ps = round_state(m, prev, now, cooldown);
        assert(fires(ps, last.0, now, cooldown) == fires(m, last.0, now, cooldown));
        let fs = round_state(m, vs, now, cooldown);
        let pa = round_alerts(m, prev, now, cooldown);
        let fa = round_alerts(m, vs, now, cooldown);
        // Membership in the alert list, for the last verdict and the rest.
        assert forall|i: int| 0 <= i < vs.len() implies (fa.contains(i) <==> (!(
        #[trigger] vs[i]).1 && fires(m, vs[i].0, now, cooldown))) by {
            if !last.1 && fires(ps, last.0, now, cooldown) {
                assert(fa == pa.push(n));
                assert(fa[fa.len() - 1] == n);
                assert(fa.contains(n));
                if i < n {
                    assert(vs[i] == prev[i]);
                    if fa.contains(i) {
                        let j = choose|j: int| 0 <= j < fa.len() && #[trigger] fa[j] == i;
                        assert(j < pa.len());
                        assert(pa.contains(i));
                    }
                    if pa.contains(i) {
                        let j = choose|j: int| 0 <= j < pa.len() && #[trigger] pa[j] == i;
                        assert(fa[j] == i);
                        assert(fa.contains(i));
                    }
                }
            } else {
                assert(fa == pa);
                if i == n {
                    if fa.contains(n) {
                        assert(false);
                    }
                } else {
                    assert(vs[i] == prev[i]);
                }
            }
        }
        assert forall|x: int| #[trigger] fa.contains(x) implies 0 <= x < vs.len() by {
            if !last.1 && fires(ps, last.0, now, cooldown) {
                let j = choose|j: int| 0 <= j < fa.len() && #[trigger] fa[j] == x;
                if j < pa.len() {
                    assert(pa.contains(x));
                }
            } else {
                assert(pa.contains(x));
            }
        }
        // The final map, pointwise per device — the last step only touches
        // the last device's key.
        assert forall|i: int| 0 <= i < n implies (#[trigger] vs[i]).0 != last.0 by {
            assert(vs[i] == prev[i]);
        }
        assert forall|i: int| 0 <= i < n implies respects(m, fs, #[trigger] vs[i], now, cooldown) by {
            assert(vs[i] == prev[i]);
            assert(vs[i].0 != last.0);
        }
    }
}

/// Helper shape for `lemma_round_decisions`: the claims one verdict makes
/// of the maps before and after the round.
spec fn respects(
    m: Map<Seq<char>, (int, bool)>,
    fs: Map<Seq<char>, (int, bool)>,
    v: (Seq<char>, bool),
    now: int,
    cooldown: int,
) -> bool {
    &&& (v.1 ==> !fs.contains_key(v.0))
    &&& (!v.1 && fires(m, v.0, now, cooldown) ==> fs.contains_key(v.0) && fs[v.0] == (now, true))
    &&& (!v.1 && !fires(m, v.0, now, cooldown) ==> (fs.contains_key(v.0) == m.contains_key(v.0) && (
    m.contains_key(v.0) ==> fs[v.0] == m[v.0])))
}

/// How long the scheduler waits before starting the next round: the
/// remainder of the configured interval, clamped to zero when the round
/// already took at least that long (no catch-up skipping, no drift
/// correction).
pub fn remaining_wait(interval_sec: u64, elapsed_sec: u64) -> (wait: u64)
    ensures
        wait as int == if elapsed_sec < interval_sec {
            interval_sec - elapsed_sec
        } else {
            0int
        },
{
    if elapsed_sec < interval_sec {
        interval_sec - elapsed_sec
    } else {
        0
    }
}

} // verus!
