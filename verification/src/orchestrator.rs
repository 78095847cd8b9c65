//! Fan-in aggregation for the three-level check orchestration. Probes run
//! concurrently and complete in no particular order; the combinators here
//! are order-independent folds: OR across a check's addresses, AND across a
//! device's checks. The failure detail of a failing check carries every
//! address that failed.

use vstd::prelude::*;
use crate::fleet::{check_label, label_spec, CheckFailure, CheckItem};

verus! {

/// One probe's outcome: the address probed and whether the TCP connect
/// succeeded before its deadline. Every error and timeout has already been
/// normalized to `false` by the probe unit.
#[derive(Debug, Clone)]
pub struct IpProbeResult {
    pub ip: String,
    pub success: bool,
}

/// The mathematical face of a probe result list: (address, success) pairs.
pub open spec fn probe_views(s: Seq<IpProbeResult>) -> Seq<(Seq<char>, bool)> {
    s.map_values(|r: IpProbeResult| (r.ip@, r.success))
}

/// OR across addresses: the check passed when at least one address
/// answered.
pub open spec fn any_success(rs: Seq<(Seq<char>, bool)>) -> bool {
    exists|i: int| 0 <= i < rs.len() && (#[trigger] rs[i]).1
}

/// The failed addresses in result order (all of them, even when other
/// addresses succeeded).
pub open spec fn failed_ips(rs: Seq<(Seq<char>, bool)>) -> Seq<Seq<char>>
    decreases rs.len(),
{
    if rs.len() == 0 {
        Seq::empty()
    } else {
        let prev = failed_ips(rs.drop_last());
        if !rs.last().1 {
            prev.push(rs.last().0)
        } else {
            prev
        }
    }
}

/// The set of failed addresses: the order-free face of `failed_ips`.
pub open spec fn failed_ip_set(rs: Seq<(Seq<char>, bool)>) -> Set<Seq<char>> {
    Set::new(|ip: Seq<char>| exists|i: int| 0 <= i < rs.len() && !(#[trigger] rs[i]).1 && rs[i].0 == ip)
}

/// Level-1 fan-in for one check: OR the completed probes of its addresses.
/// The returned list carries exactly the addresses that failed, in
/// completion order.
pub fn aggregate_ip_results(results: &Vec<IpProbeResult>) -> (out: (bool, Vec<String>))
    ensures
        out.0 == any_success(probe_views(results@)),
        out.1.deep_view() == failed_ips(probe_views(results@)),
{
    let ghost views = probe_views(results@);
    let mut any: bool = false;
    let mut failed: Vec<String> = Vec::new();
    proof {
        assert(views.take(0) =~= Seq::<(Seq<char>, bool)>::empty());
        assert(failed.deep_view() =~= failed_ips(views.take(0)));
    }
    let mut i: usize = 0;
    while i < results.len()
        invariant
            i <= results@.len(),
            views == probe_views(results@),
            any == any_success(views.take(i as int)),
            failed.deep_view() == failed_ips(views.take(i as int)),
        decreases results@.len() - i,
    {
        proof {
            assert(views.take(i + 1).drop_last() =~= views.take(i as int));
            assert(views.take(i + 1).last() == views[i as int]);
            assert(views[i as int] == (results@[i as int].ip@, results@[i as int].success));
        }
        let ghost prev_failed = failed.deep_view();
        if results[i].success {
            any = true;
            proof {
                assert(views.take(i + 1)[i as int].1);
                assert(any_success(views.take(i + 1)));
            }
        } else {
            failed.push(results[i].ip.clone());
            proof {
                assert(failed.deep_view() =~= prev_failed.push(results@[i as int].ip@));
                assert forall|j: int| 0 <= j < views.take(i + 1).len() && views.take(i + 1)[j].1
                    implies 0 <= j < views.take(i as int).len() && views.take(i as int)[j].1 by {
                    assert(j != i);
                }
                assert(any_success(views.take(i + 1)) == any_success(views.take(i as int)));
            }
        }
        proof {
            if any_success(views.take(i + 1)) && !any_success(views.take(i as int)) {
                let j = choose|j: int|
                    0 <= j < views.take(i + 1).len() && (#[trigger] views.take(i + 1)[j]).1;
                assert(j == i);
                assert(views[i as int].1);
            }
        }
        i += 1;
    }
    proof {
        assert(views.take(results@.len() as int) =~= views);
    }
    (any, failed)
}

/// One check's aggregated outcome, handed from level 1 to level 2: the
/// check, whether some address answered, and the addresses that failed.
#[derive(Debug, Clone)]
pub struct CheckOutcome {
    pub check: CheckItem,
    pub healthy: bool,
    pub failed_ips: Vec<String>,
}

/// The mathematical face of a check outcome list:
/// (name, port, healthy, failed addresses) tuples.
pub open spec fn outcome_views(s: Seq<CheckOutcome>) -> Seq<(Seq<char>, u16, bool, Seq<Seq<char>>)> {
    s.map_values(
        |o: CheckOutcome| (o.check.name@, o.check.port, o.healthy, o.failed_ips.deep_view()),
    )
}

/// AND across checks: the device passed when every check passed.
pub open spec fn all_healthy(cs: Seq<(Seq<char>, u16, bool, Seq<Seq<char>>)>) -> bool {
    forall|i: int| 0 <= i < cs.len() ==> (#[trigger] cs[i]).2
}

/// The labelled failures of the failing checks, in outcome order: one entry
/// per failing check, carrying that check's own failed addresses.
pub open spec fn failure_list(cs: Seq<(Seq<char>, u16, bool, Seq<Seq<char>>)>) -> Seq<
    (Seq<char>, u16, Seq<Seq<char>>),
>
    decreases cs.len(),
{
    if cs.len() == 0 {
        Seq::empty()
    } else {
        let prev = failure_list(cs.drop_last());
        let last = cs.last();
        if !last.2 {
            prev.push((label_spec(last.0, last.1), last.1, last.3))
        } else {
            prev
        }
    }
}

/// The mathematical face of a failure list.
pub open spec fn failure_views(s: Seq<CheckFailure>) -> Seq<(Seq<char>, u16, Seq<Seq<char>>)> {
    s.map_values(|f: CheckFailure| (f.check_name@, f.port, f.attempted_ips.deep_view()))
}

/// Level-2 fan-in for one device: AND the completed check evaluations. The
/// returned list holds one labelled failure per failing check and none for
/// a passing check.
pub fn aggregate_check_results(outcomes: &Vec<CheckOutcome>) -> (out: (bool, Vec<CheckFailure>))
    ensures
        out.0 == all_healthy(outcome_views(outcomes@)),
        failure_views(out.1@) == failure_list(outcome_views(outcomes@)),
{
    let ghost views = outcome_views(outcomes@);
    let mut healthy: bool = true;
    let mut failures: Vec<CheckFailure> = Vec::new();
    proof {
        assert(views.take(0) =~= Seq::<(Seq<char>, u16, bool, Seq<Seq<char>>)>::empty());
        assert(failure_views(failures@) =~= failure_list(views.take(0)));
    }
    let mut i: usize = 0;
    while i < outcomes.len()
        invariant
            i <= outcomes@.len(),
            views == outcome_views(outcomes@),
            healthy == all_healthy(views.take(i as int)),
            failure_views(failures@) == failure_list(views.take(i as int)),
        decreases outcomes@.len() - i,
    {
        proof {
            assert(views.take(i + 1).drop_last() =~= views.take(i as int));
            assert(views.take(i + 1).last() == views[i as int]);
            assert(views[i as int] == (
                outcomes@[i as int].check.name@,
                outcomes@[i as int].check.port,
                outcomes@[i as int].healthy,
                outcomes@[i as int].failed_ips.deep_view(),
            ));
        }
        let ghost prev_failures = failure_views(failures@);
        if !outcomes[i].healthy {
            healthy = false;
            let f = CheckFailure {
                check_name: check_label(&outcomes[i].check),
                port: outcomes[i].check.port,
                attempted_ips: clone_string_vec(&outcomes[i].failed_ips),
            };
            proof {
                assert(f.attempted_ips.deep_view() =~= outcomes@[i as int].failed_ips.deep_view());
            }
            failures.push(f);
            proof {
                assert(failure_views(failures@) =~= prev_failures.push(
                    (
                        label_spec(views[i as int].0, views[i as int].1),
                        views[i as int].1,
                        views[i as int].3,
                    ),
                ));
                assert(!views.take(i + 1)[i as int].2);
                assert(!all_healthy(views.take(i + 1)));
            }
        } else {
            proof {
                assert forall|j: int| 0 <= j < views.take(i + 1).len() implies (#[trigger] views.take(
                    i + 1,
                )[j]).2 == views.take(i as int + 1)[j].2 by {}
                if all_healthy(views.take(i as int)) {
                    assert forall|j: int| 0 <= j < views.take(i + 1).len() implies (
                    #[trigger] views.take(i + 1)[j]).2 by {
                        if j < i {
                            assert(views.take(i as int)[j].2);
                        } else {
                            assert(views.take(i + 1)[j] == views[i as int]);
                        }
                    }
                } else {
                    let j = choose|j: int|
                        0 <= j < views.take(i as int).len() && !(#[trigger] views.take(
                            i as int,
                        )[j]).2;
                    assert(!views.take(i + 1)[j].2);
                }
                assert(all_healthy(views.take(i + 1)) == all_healthy(views.take(i as int)));
            }
        }
        i += 1;
    }
    proof {
        assert(views.take(outcomes@.len() as int) =~= views);
    }
    (healthy, failures)
}

/// A clone of a string list is the same list of strings.
fn clone_string_vec(v: &Vec<String>) -> (r: Vec<String>)
    ensures
        r@ == v@,
        r.deep_view() == v.deep_view(),
{
    let r = v.clone();
    proof {
        assert forall|j: int| 0 <= j < v@.len() implies r@[j] == v@[j] by {
            assert(cloned::<String>(v@[j], r@[j]));
        }
        assert(r@ =~= v@);
    }
    r
}

/// OR aggregation is order-independent: two completion orders of the same
/// probe results agree on health and on which addresses failed.
pub proof fn lemma_or_aggregation_order_independent(
    a: Seq<(Seq<char>, bool)>,
    b: Seq<(Seq<char>, bool)>,
)
    requires
        a.to_multiset() == b.to_multiset(),
    ensures
        any_success(a) == any_success(b),
        failed_ip_set(a) == failed_ip_set(b),
{
    a.to_multiset_ensures();
    b.to_multiset_ensures();
    assert forall|p: (Seq<char>, bool)| a.contains(p) implies b.contains(p) by {
        assert(a.to_multiset().count(p) > 0);
    }
    assert forall|p: (Seq<char>, bool)| b.contains(p) implies a.contains(p) by {
        assert(b.to_multiset().count(p) > 0);
    }
    if any_success(a) {
        let j = choose|j: int| 0 <= j < a.len() && (#[trigger] a[j]).1;
        assert(a.contains(a[j]));
        let k = choose|k: int| 0 <= k < b.len() && #[trigger] b[k] == a[j];
        assert(any_success(b));
    }
    if any_success(b) {
        let j = choose|j: int| 0 <= j < b.len() && (#[trigger] b[j]).1;
        assert(b.contains(b[j]));
        let k = choose|k: int| 0 <= k < a.len() && #[trigger] a[k] == b[j];
        assert(any_success(a));
    }
    assert forall|ip: Seq<char>| failed_ip_set(a).contains(ip) implies failed_ip_set(
        b,
    ).contains(ip) by {
        let j = choose|j: int| 0 <= j < a.len() && !(#[trigger] a[j]).1 && a[j].0 == ip;
        assert(a.contains(a[j]));
        let k = choose|k: int| 0 <= k < b.len() && #[trigger] b[k] == a[j];
        assert(!b[k].1 && b[k].0 == ip);
    }
    assert forall|ip: Seq<char>| failed_ip_set(b).contains(ip) implies failed_ip_set(
        a,
    ).contains(ip) by {
        let j = choose|j: int| 0 <= j < b.len() && !(#[trigger] b[j]).1 && b[j].0 == ip;
        assert(b.contains(b[j]));
        let k = choose|k: int| 0 <= k < a.len() && #[trigger] a[k] == b[j];
        assert(!a[k].1 && a[k].0 == ip);
    }
    assert(failed_ip_set(a) =~= failed_ip_set(b));
}

/// The failed-address list of a check is exactly the set of addresses that
/// failed: complete (every failed address is listed) and sound (nothing
/// else is).
pub proof fn lemma_failed_ips_exact(rs: Seq<(Seq<char>, bool)>)
    ensures
        forall|ip: Seq<char>| failed_ips(rs).contains(ip) <==> failed_ip_set(rs).contains(ip),
    decreases rs.len(),
{
    if rs.len() == 0 {
        assert forall|ip: Seq<char>| !failed_ips(rs).contains(ip) by {}
        assert forall|ip: Seq<char>| !failed_ip_set(rs).contains(ip) by {}
    } else {
        let prev = rs.drop_last();
        lemma_failed_ips_exact(prev);
        assert forall|ip: Seq<char>| failed_ips(rs).contains(ip) implies failed_ip_set(
            rs,
        ).contains(ip) by {
            let f = failed_ips(rs);
            let j = choose|j: int| 0 <= j < f.len() && #[trigger] f[j] == ip;
            if !rs.last().1 {
                if j < failed_ips(prev).len() {
                    assert(failed_ips(prev).contains(ip));
                    let k = choose|k: int| 0 <= k < prev.len() && !(#[trigger] prev[k]).1 && prev[k].0 == ip;
                    assert(rs[k] == prev[k]);
                    assert(!rs[k].1 && rs[k].0 == ip);
                } else {
                    assert(ip == rs.last().0);
                    assert(!rs[rs.len() - 1].1 && rs[rs.len() - 1].0 == ip);
                }
            } else {
                assert(failed_ips(prev).contains(ip));
                let k = choose|k: int| 0 <= k < prev.len() && !(#[trigger] prev[k]).1 && prev[k].0 == ip;
                assert(rs[k] == prev[k]);
                assert(!rs[k].1 && rs[k].0 == ip);
            }
        }
        assert forall|ip: Seq<char>| failed_ip_set(rs).contains(ip) implies failed_ips(
            rs,
        ).contains(ip) by {
            let k = choose|k: int| 0 <= k < rs.len() && !(#[trigger] rs[k]).1 && rs[k].0 == ip;
            if k < rs.len() - 1 {
                assert(prev[k] == rs[k]);
                assert(!prev[k].1 && prev[k].0 == ip);
                assert(failed_ip_set(prev).contains(ip));
                assert(failed_ips(prev).contains(ip));
                let j = choose|j: int|
                    0 <= j < failed_ips(prev).len() && #[trigger] failed_ips(prev)[j] == ip;
                if !rs.last().1 {
                    assert(failed_ips(rs)[j] == ip);
                } else {
                    assert(failed_ips(rs)[j] == ip);
                }
            } else {
                assert(!rs.last().1);
                assert(failed_ips(rs).last() == rs.last().0);
                assert(failed_ips(rs)[failed_ips(rs).len() - 1] == ip);
            }
        }
    }
}

/// The set of failing checks a device reports, each under its label and
/// with its failed addresses: the order-free face of `failure_list`.
pub open spec fn failing_check_set(cs: Seq<(Seq<char>, u16, bool, Seq<Seq<char>>)>) -> Set<
    (Seq<char>, u16, Seq<Seq<char>>),
> {
    Set::new(
        |f: (Seq<char>, u16, Seq<Seq<char>>)|
            exists|i: int|
                0 <= i < cs.len() && !(#[trigger] cs[i]).2 && f == (
                    label_spec(cs[i].0, cs[i].1),
                    cs[i].1,
                    cs[i].3,
                ),
    )
}

/// AND aggregation is order-independent: two completion orders of the same
/// check outcomes agree on the device verdict and on the set of reported
/// failures.
pub proof fn lemma_and_aggregation_order_independent(
    a: Seq<(Seq<char>, u16, bool, Seq<Seq<char>>)>,
    b: Seq<(Seq<char>, u16, bool, Seq<Seq<char>>)>,
)
    requires
        a.to_multiset() == b.to_multiset(),
    ensures
        all_healthy(a) == all_healthy(b),
        failing_check_set(a) == failing_check_set(b),
{
    a.to_multiset_ensures();
    b.to_multiset_ensures();
    assert forall|p: (Seq<char>, u16, bool, Seq<Seq<char>>)| a.contains(p) implies b.contains(
        p,
    ) by {
        assert(a.to_multiset().count(p) > 0);
    }
    assert forall|p: (Seq<char>, u16, bool, Seq<Seq<char>>)| b.contains(p) implies a.contains(
        p,
    ) by {
        assert(b.to_multiset().count(p) > 0);
    }
    if !all_healthy(a) {
        let j = choose|j: int| 0 <= j < a.len() && !(#[trigger] a[j]).2;
        assert(a.contains(a[j]));
        let k = choose|k: int| 0 <= k < b.len() && #[trigger] b[k] == a[j];
        assert(!b[k].2);
        assert(!all_healthy(b));
    }
    if !all_healthy(b) {
        let j = choose|j: int| 0 <= j < b.len() && !(#[trigger] b[j]).2;
        assert(b.contains(b[j]));
        let k = choose|k: int| 0 <= k < a.len() && #[trigger] a[k] == b[j];
        assert(!a[k].2);
        assert(!all_healthy(a));
    }
    assert forall|f: (Seq<char>, u16, Seq<Seq<char>>)| failing_check_set(a).contains(f)
        implies failing_check_set(b).contains(f) by {
        let j = choose|j: int|
            0 <= j < a.len() && !(#[trigger] a[j]).2 && f == (label_spec(a[j].0, a[j].1), a[j].1, a[j].3);
        assert(a.contains(a[j]));
        let k = choose|k: int| 0 <= k < b.len() && #[trigger] b[k] == a[j];
        assert(!b[k].2 && f == (label_spec(b[k].0, b[k].1), b[k].1, b[k].3));
    }
    assert forall|f: (Seq<char>, u16, Seq<Seq<char>>)| failing_check_set(b).contains(f)
        implies failing_check_set(a).contains(f) by {
        let j = choose|j: int|
            0 <= j < b.len() && !(#[trigger] b[j]).2 && f == (label_spec(b[j].0, b[j].1), b[j].1, b[j].3);
        assert(b.contains(b[j]));
        let k = choose|k: int| 0 <= k < a.len() && #[trigger] a[k] == b[j];
        assert(!a[k].2 && f == (label_spec(a[k].0, a[k].1), a[k].1, a[k].3));
    }
    assert(failing_check_set(a) =~= failing_check_set(b));
}

/// A device's verdict is failing exactly when some check failed, and then
/// the failure list is non-empty: one entry per failing check.
pub proof fn lemma_device_failing_iff(cs: Seq<(Seq<char>, u16, bool, Seq<Seq<char>>)>)
    ensures
        all_healthy(cs) <==> failure_list(cs).len() == 0,
    decreases cs.len(),
{
    if cs.len() == 0 {
    } else {
        let prev = cs.drop_last();
        lemma_device_failing_iff(prev);
        if all_healthy(cs) {
            assert forall|j: int| 0 <= j < prev.len() implies (#[trigger] prev[j]).2 by {
                assert(prev[j] == cs[j]);
                assert(cs[j].2);
            }
            assert(cs.last().2);
        } else {
            if all_healthy(prev) && cs.last().2 {
                assert forall|j: int| 0 <= j < cs.len() implies (#[trigger] cs[j]).2 by {
                    if j < cs.len() - 1 {
                        assert(cs[j] == prev[j]);
                        assert(prev[j].2);
                    }
                }
                assert(false);
            }
        }
    }
}

} // verus!
