//! Retention of snapshots: which of a key's snapshots a policy removes.
//!
//! Snapshots are considered oldest first. Every policy removes a prefix of
//! that order: the oldest beyond a count, those past an age, or the oldest
//! until the rest fits a byte budget.

use vstd::prelude::*;
use crate::config::RetentionPolicy;

verus! {

/// A snapshot as retention sees it: when it was taken (seconds since the
/// epoch) and how many bytes it holds.
#[derive(Debug, Clone, Copy, PartialEq, Eq, Structural)]
pub struct SnapshotInfo {
    pub timestamp: i64,
    pub size: u64,
}

/// Oldest first: timestamps never decrease along `s`.
pub open spec fn sorted_by_time(s: Seq<SnapshotInfo>) -> bool {
    forall|i: int, j: int| 0 <= i <= j < s.len() ==> s[i].timestamp <= s[j].timestamp
}

/// How many elements at the front of `s` satisfy `p`.
pub open spec fn leading<A>(s: Seq<A>, p: spec_fn(A) -> bool) -> nat
    decreases s.len(),
{
    if s.len() > 0 && p(s[0]) {
        1 + leading(s.drop_first(), p)
    } else {
        0
    }
}

pub proof fn lemma_leading<A>(s: Seq<A>, p: spec_fn(A) -> bool)
    ensures
        leading(s, p) <= s.len(),
        forall|i: int| 0 <= i < leading(s, p) ==> p(#[trigger] s[i]),
        leading(s, p) < s.len() ==> !p(s[leading(s, p) as int]),
    decreases s.len(),
{
    if s.len() > 0 && p(s[0]) {
        lemma_leading(s.drop_first(), p);
        assert forall|i: int| 0 <= i < leading(s, p) implies p(#[trigger] s[i]) by {
            if i > 0 {
                assert(s[i] == s.drop_first()[i - 1]);
            }
        };
    }
}

/// The bytes held by the snapshots of `s`.
pub open spec fn total_size(s: Seq<SnapshotInfo>) -> int
    decreases s.len(),
{
    if s.len() == 0 {
        0
    } else {
        s[0].size + total_size(s.drop_first())
    }
}

/// A snapshot taken at `timestamp` is older than `days` days at `now`.
pub open spec fn expired(timestamp: i64, now: i64, days: u32) -> bool {
    now - timestamp > days * 86400
}

/// How many of the oldest snapshots to remove so that the rest fit in
/// `budget` bytes: the fewest that do.
pub open spec fn size_cut(s: Seq<SnapshotInfo>, budget: u64) -> nat
    decreases s.len(),
{
    if s.len() == 0 || total_size(s) <= budget {
        0
    } else {
        1 + size_cut(s.drop_first(), budget)
    }
}

/// How many of the oldest snapshots of `s` (oldest first) the policy removes
/// at time `now`.
pub open spec fn prune_cut(policy: RetentionPolicy, s: Seq<SnapshotInfo>, now: i64) -> nat {
    match policy {
        RetentionPolicy::Count(n) => if s.len() > n {
            (s.len() - n) as nat
        } else {
            0
        },
        RetentionPolicy::Age(days) => leading(s, |x: SnapshotInfo| expired(x.timestamp, now, days)),
        RetentionPolicy::Size(budget) => size_cut(s, budget),
    }
}

/// The snapshots that the policy keeps.
pub open spec fn retained(policy: RetentionPolicy, s: Seq<SnapshotInfo>, now: i64) -> Seq<SnapshotInfo> {
    s.subrange(prune_cut(policy, s, now) as int, s.len() as int)
}

proof fn lemma_size_cut_bounded(s: Seq<SnapshotInfo>, budget: u64)
    ensures
        size_cut(s, budget) <= s.len(),
        total_size(s.subrange(size_cut(s, budget) as int, s.len() as int)) <= budget,
    decreases s.len(),
{
    if s.len() == 0 || total_size(s) <= budget {
        assert(s.subrange(0, s.len() as int) =~= s);
    } else {
        let rest = s.drop_first();
        lemma_size_cut_bounded(rest, budget);
        let k = size_cut(rest, budget) as int;
        assert(s.subrange(k + 1, s.len() as int) =~= rest.subrange(k, rest.len() as int));
    }
}

/// The bytes held by `s.subrange(k, s.len())`, counted from the back.
proof fn lemma_total_size_step(s: Seq<SnapshotInfo>, k: int)
    requires
        0 <= k < s.len(),
    ensures
        total_size(s.subrange(k, s.len() as int)) == s[k].size + total_size(
            s.subrange(k + 1, s.len() as int),
        ),
{
    assert(s.subrange(k, s.len() as int).drop_first() =~= s.subrange(k + 1, s.len() as int));
}

proof fn lemma_total_size_nonneg(s: Seq<SnapshotInfo>)
    ensures
        0 <= total_size(s) <= s.len() * 18446744073709551615,
    decreases s.len(),
{
    if s.len() > 0 {
        lemma_total_size_nonneg(s.drop_first());
    }
}

/// A policy never removes more snapshots than there are.
pub proof fn lemma_prune_cut_bounded(policy: RetentionPolicy, s: Seq<SnapshotInfo>, now: i64)
    ensures
        prune_cut(policy, s, now) <= s.len(),
{
    match policy {
        RetentionPolicy::Age(days) => lemma_leading(s, |x: SnapshotInfo| expired(x.timestamp, now, days)),
        RetentionPolicy::Size(budget) => lemma_size_cut_bounded(s, budget),
        _ => {},
    }
}

/// Whether a snapshot taken at `timestamp` is older than `days` days at `now`.
pub fn is_expired(timestamp: i64, now: i64, days: u32) -> (r: bool)
    ensures
        r == expired(timestamp, now, days),
{
    (now as i128) - (timestamp as i128) > (days as i128) * 86400
}

/// How many of the oldest snapshots of `s` the policy removes at `now`.
pub fn prune_count(policy: RetentionPolicy, s: &Vec<SnapshotInfo>, now: i64) -> (r: usize)
    ensures
        r == prune_cut(policy, s@, now),
{
    let n = s.len();
    match policy {
        RetentionPolicy::Count(keep) => {
            if n > keep as usize {
                n - keep as usize
            } else {
                0
            }
        },
        RetentionPolicy::Age(days) => {
            let ghost p = |x: SnapshotInfo| expired(x.timestamp, now, days);
            let mut k: usize = 0;
            assert(s@.subrange(0, n as int) =~= s@);
            while k < n && is_expired(s[k].timestamp, now, days)
                invariant
                    k <= n,
                    n == s@.len(),
                    p == (|x: SnapshotInfo| expired(x.timestamp, now, days)),
                    leading(s@, p) == k + leading(s@.subrange(k as int, n as int), p),
                decreases n - k,
            {
                assert(s@.subrange(k as int, n as int)[0] == s@[k as int]);
                assert(p(s@[k as int]));
                assert(s@.subrange(k as int, n as int).drop_first() =~= s@.subrange(
                    k + 1,
                    n as int,
                ));
                k = k + 1;
            }
            k
        },
        RetentionPolicy::Size(budget) => {
            let mut total: u128 = 0;
            let mut j: usize = n;
            assert(s@.subrange(n as int, n as int) =~= Seq::<SnapshotInfo>::empty());
            while j > 0
                invariant
                    j <= n,
                    n == s@.len(),
                    total == total_size(s@.subrange(j as int, n as int)),
                    total <= (n - j) * 18446744073709551615,
                decreases j,
            {
                proof {
                    lemma_total_size_step(s@, j - 1);
                    assert((n - j + 1) * 18446744073709551615 <= 18446744073709551616u128
                        * 18446744073709551615) by (nonlinear_arith)
                        requires
                            n <= 18446744073709551615,
                            j >= 1,
                    ;
                }
                total = total + s[j - 1].size as u128;
                j = j - 1;
            }
            let mut k: usize = 0;
            assert(s@.subrange(0, n as int) =~= s@);
            while k < n && total > budget as u128
                invariant
                    k <= n,
                    n == s@.len(),
                    total == total_size(s@.subrange(k as int, n as int)),
                    size_cut(s@, budget) == k + size_cut(s@.subrange(k as int, n as int), budget),
                decreases n - k,
            {
                proof {
                    lemma_total_size_step(s@, k as int);
                    lemma_total_size_nonneg(s@.subrange(k + 1, n as int));
                    assert(s@.subrange(k as int, n as int).drop_first() =~= s@.subrange(
                        k + 1,
                        n as int,
                    ));
                }
                total = total - s[k].size as u128;
                k = k + 1;
            }
            k
        },
    }
}

/// The count policy keeps exactly the `n` newest of more than `n` snapshots.
pub proof fn lemma_count_keeps_newest(s: Seq<SnapshotInfo>, n: u32, now: i64)
    requires
        s.len() > n,
    ensures
        retained(RetentionPolicy::Count(n), s, now) == s.subrange(s.len() - n, s.len() as int),
        retained(RetentionPolicy::Count(n), s, now).len() == n,
{
}

/// The age policy removes exactly the snapshots older than its threshold:
/// every removed one is, and no kept one is.
pub proof fn lemma_age_keeps_recent(s: Seq<SnapshotInfo>, days: u32, now: i64)
    requires
        sorted_by_time(s),
    ensures
        forall|i: int|
            0 <= i < prune_cut(RetentionPolicy::Age(days), s, now) ==> expired(
                #[trigger] s[i].timestamp,
                now,
                days,
            ),
        forall|i: int|
            0 <= i < retained(RetentionPolicy::Age(days), s, now).len() ==> !expired(
                #[trigger] retained(RetentionPolicy::Age(days), s, now)[i].timestamp,
                now,
                days,
            ),
{
    let p = |x: SnapshotInfo| expired(x.timestamp, now, days);
    lemma_leading(s, p);
    let k = leading(s, p) as int;
    let r = retained(RetentionPolicy::Age(days), s, now);
    assert forall|i: int| 0 <= i < r.len() implies !expired(#[trigger] r[i].timestamp, now, days) by {
        assert(r[i] == s[k + i]);
        assert(s[k].timestamp <= s[k + i].timestamp);
        assert(!p(s[k]));
    };
}

/// The size policy leaves at most its byte budget.
pub proof fn lemma_size_within_budget(s: Seq<SnapshotInfo>, budget: u64, now: i64)
    ensures
        total_size(retained(RetentionPolicy::Size(budget), s, now)) <= budget,
{
    lemma_size_cut_bounded(s, budget);
}

/// Pruning twice with no new snapshots in between removes nothing more.
pub proof fn lemma_prune_idempotent(policy: RetentionPolicy, s: Seq<SnapshotInfo>, now: i64)
    requires
        sorted_by_time(s),
    ensures
        prune_cut(policy, retained(policy, s, now), now) == 0,
        retained(policy, retained(policy, s, now), now) == retained(policy, s, now),
{
    let r = retained(policy, s, now);
    match policy {
        RetentionPolicy::Count(n) => {},
        RetentionPolicy::Age(days) => {
            let p = |x: SnapshotInfo| expired(x.timestamp, now, days);
            lemma_leading(s, p);
            let k = leading(s, p) as int;
            if r.len() > 0 {
                assert(r[0] == s[k]);
                assert(!p(r[0]));
            }
        },
        RetentionPolicy::Size(budget) => {
            lemma_size_cut_bounded(s, budget);
        },
    }
    assert(r.subrange(0, r.len() as int) =~= r);
}

/// Relies on `slice::sort_by_key`: a stable sort, so the same snapshots come
/// out in non-decreasing timestamp order.
#[verifier::external_body]
fn sort_by_time(v: &mut Vec<SnapshotInfo>)
    ensures
        final(v)@.to_multiset() == old(v)@.to_multiset(),
        sorted_by_time(final(v)@),
{
    v.sort_by_key(|x| x.timestamp)
}

/// A key's snapshots split into those a policy keeps and those it removes.
pub struct PrunePlan {
    /// The snapshots to keep, oldest first.
    pub keep: Vec<SnapshotInfo>,
    /// The snapshots to remove, oldest first; all older than the kept ones.
    pub remove: Vec<SnapshotInfo>,
}

/// Orders the snapshots of a key oldest first and splits them by `policy` at
/// time `now`: the removed ones are the first `prune_cut` of that order, the
/// kept ones the rest.
pub fn plan_prune(policy: RetentionPolicy, snapshots: Vec<SnapshotInfo>, now: i64) -> (r: PrunePlan)
    ensures
        (r.remove@ + r.keep@).to_multiset() == snapshots@.to_multiset(),
        sorted_by_time(r.remove@ + r.keep@),
        r.remove@.len() == prune_cut(policy, r.remove@ + r.keep@, now),
{
    let mut v = snapshots;
    sort_by_time(&mut v);
    let k = prune_count(policy, &v, now);
    let ghost all = v@;
    proof {
        lemma_prune_cut_bounded(policy, v@, now);
    }
    let keep = v.split_off(k);
    assert(v@ + keep@ =~= all);
    PrunePlan { keep, remove: v }
}

} // verus!
