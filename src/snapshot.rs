//! The document of one key with its snapshots: every overwrite first keeps
//! the prior content as a snapshot named by the second it was taken, then
//! the retention policy prunes.

use vstd::prelude::*;
use crate::config::RetentionPolicy;
use crate::retention::{
    leading, lemma_leading, lemma_prune_cut_bounded, lemma_prune_idempotent, prune_count, prune_cut,
    retained, sorted_by_time, SnapshotInfo,
};

verus! {

/// The content that a key held before an overwrite at `timestamp`.
pub struct Snapshot {
    pub timestamp: i64,
    pub content: Vec<u8>,
}

impl View for Snapshot {
    type V = (i64, Seq<u8>);

    open spec fn view(&self) -> (i64, Seq<u8>) {
        (self.timestamp, self.content@)
    }
}

/// The live content of a key, if any, and its snapshots, oldest first.
pub type DocumentView = (Option<Seq<u8>>, Seq<(i64, Seq<u8>)>);

/// At most one snapshot per second, oldest first.
pub open spec fn strictly_sorted(s: Seq<(i64, Seq<u8>)>) -> bool {
    forall|i: int, j: int| 0 <= i < j < s.len() ==> s[i].0 < s[j].0
}

pub open spec fn document_wf(d: DocumentView) -> bool {
    strictly_sorted(d.1)
}

/// The snapshots as retention sees them: timestamp and size in bytes.
pub open spec fn infos(s: Seq<(i64, Seq<u8>)>) -> Seq<SnapshotInfo> {
    s.map_values(|x: (i64, Seq<u8>)| SnapshotInfo { timestamp: x.0, size: x.1.len() as u64 })
}

pub open spec fn has_snapshot_at(s: Seq<(i64, Seq<u8>)>, t: i64) -> bool {
    exists|i: int| 0 <= i < s.len() && (#[trigger] s[i]).0 == t
}

/// Where a snapshot taken at `t` goes in the oldest-first order.
pub open spec fn insert_pos(s: Seq<(i64, Seq<u8>)>, t: i64) -> nat {
    leading(s, |x: (i64, Seq<u8>)| x.0 < t)
}

/// The snapshots after the capture step of an overwrite at `now`: the prior
/// content is kept as a snapshot at `now`, unless there is no prior content or
/// a snapshot at `now` exists already.
pub open spec fn capture(live: Option<Seq<u8>>, s: Seq<(i64, Seq<u8>)>, now: i64) -> Seq<(i64, Seq<u8>)> {
    match live {
        Some(prior) => if has_snapshot_at(s, now) {
            s
        } else {
            s.insert(insert_pos(s, now) as int, (now, prior))
        },
        None => s,
    }
}

/// The snapshots that `policy` keeps at `now`; all of them without a policy.
pub open spec fn prune_snapshots(policy: Option<RetentionPolicy>, s: Seq<(i64, Seq<u8>)>, now: i64) -> Seq<(i64, Seq<u8>)> {
    match policy {
        Some(p) => s.subrange(prune_cut(p, infos(s), now) as int, s.len() as int),
        None => s,
    }
}

/// The document after `content` is written at `now` under `policy`.
pub open spec fn put_spec(d: DocumentView, content: Seq<u8>, now: i64, policy: Option<RetentionPolicy>) -> DocumentView {
    (Some(content), prune_snapshots(policy, capture(d.0, d.1, now), now))
}

/// What a read of the key returns: its live content, or `None` if it has never
/// been written.
pub open spec fn get_spec(d: DocumentView) -> Option<Seq<u8>> {
    d.0
}

/// Reading a key right after writing it returns exactly what was written.
pub proof fn lemma_get_after_put(d: DocumentView, content: Seq<u8>, now: i64, policy: Option<RetentionPolicy>)
    ensures
        get_spec(put_spec(d, content, now, policy)) == Some(content),
{
}

/// Under the count policy, a write at a second later than every snapshot
/// keeps exactly the `n` newest of the earlier snapshots and the new one; so a
/// run of such writes always leaves the `n` most recent snapshots.
pub proof fn lemma_put_count_keeps_newest(d: DocumentView, content: Seq<u8>, now: i64, n: u32)
    requires
        document_wf(d),
        d.0 is Some,
        forall|i: int| 0 <= i < d.1.len() ==> (#[trigger] d.1[i]).0 < now,
    ensures
        ({
            let s = d.1.push((now, d.0->0));
            let kept = put_spec(d, content, now, Some(RetentionPolicy::Count(n))).1;
            &&& s.len() > n ==> kept == s.subrange(s.len() - n, s.len() as int)
            &&& s.len() <= n ==> kept == s
        }),
{
    let p = |x: (i64, Seq<u8>)| x.0 < now;
    lemma_leading(d.1, p);
    if leading(d.1, p) < d.1.len() {
        assert(p(d.1[leading(d.1, p) as int]));
    }
    assert(!has_snapshot_at(d.1, now));
    let s = d.1.push((now, d.0->0));
    assert(capture(d.0, d.1, now) =~= s);
    assert(infos(s).len() == s.len());
    assert(s.subrange(0, s.len() as int) =~= s);
}

/// Pruning a document twice with no write in between leaves it as the first
/// pruning did.
pub proof fn lemma_prune_snapshots_idempotent(policy: RetentionPolicy, s: Seq<(i64, Seq<u8>)>, now: i64)
    requires
        strictly_sorted(s),
    ensures
        prune_snapshots(Some(policy), prune_snapshots(Some(policy), s, now), now) == prune_snapshots(
            Some(policy),
            s,
            now,
        ),
{
    let i = infos(s);
    assert(sorted_by_time(i)) by {
        assert forall|a: int, b: int| 0 <= a <= b < i.len() implies i[a].timestamp <= i[b].timestamp by {
            if a < b {
                assert(s[a].0 < s[b].0);
            }
        };
    };
    lemma_prune_cut_bounded(policy, i, now);
    lemma_prune_idempotent(policy, i, now);
    let k = prune_cut(policy, i, now) as int;
    let r = s.subrange(k, s.len() as int);
    assert(infos(r) =~= retained(policy, i, now));
    assert(r.subrange(0, r.len() as int) =~= r);
}

proof fn lemma_capture_sorted(live: Option<Seq<u8>>, s: Seq<(i64, Seq<u8>)>, now: i64)
    requires
        strictly_sorted(s),
    ensures
        strictly_sorted(capture(live, s, now)),
{
    if live is Some && !has_snapshot_at(s, now) {
        let p = |x: (i64, Seq<u8>)| x.0 < now;
        lemma_leading(s, p);
        let k = insert_pos(s, now) as int;
        let r = capture(live, s, now);
        assert forall|j: int| k <= j < s.len() implies (#[trigger] s[j]).0 > now by {
            assert(!p(s[k]));
            assert(s[j].0 != now);
        };
        assert forall|i: int, j: int| 0 <= i < j < r.len() implies r[i].0 < r[j].0 by {
            if j < k {
            } else if j == k {
                assert(p(s[i]));
            } else if i < k {
                assert(p(s[i]));
                assert(r[j] == s[j - 1]);
            } else if i == k {
                assert(r[j] == s[j - 1]);
            } else {
                assert(r[j] == s[j - 1] && r[i] == s[i - 1]);
            }
        };
    }
}

proof fn lemma_prune_sorted(policy: Option<RetentionPolicy>, s: Seq<(i64, Seq<u8>)>, now: i64)
    requires
        strictly_sorted(s),
        policy matches Some(p) ==> prune_cut(p, infos(s), now) <= s.len(),
    ensures
        strictly_sorted(prune_snapshots(policy, s, now)),
{
    if let Some(p) = policy {
        let k = prune_cut(p, infos(s), now) as int;
        let r = prune_snapshots(policy, s, now);
        assert forall|i: int, j: int| 0 <= i < j < r.len() implies r[i].0 < r[j].0 by {
            assert(r[i] == s[k + i] && r[j] == s[k + j]);
        };
    }
}

/// One key's stored document and its snapshots.
pub struct Document {
    live: Option<Vec<u8>>,
    snapshots: Vec<Snapshot>,
}

impl View for Document {
    type V = DocumentView;

    closed spec fn view(&self) -> DocumentView {
        (
            match self.live {
                Some(c) => Some(c@),
                None => None,
            },
            self.snapshots@.map_values(|x: Snapshot| x@),
        )
    }
}

/// Relies on chrono's `Utc::now()` and `DateTime::timestamp`: the current time
/// in whole seconds since the Unix epoch.
#[verifier::external_body]
fn unix_now() -> (r: i64) {
    chrono::Utc::now().timestamp()
}

impl Document {
    /// A key that has never been written.
    pub fn new() -> (r: Document)
        ensures
            r@ == (None::<Seq<u8>>, Seq::<(i64, Seq<u8>)>::empty()),
    {
        let r = Document { live: None, snapshots: Vec::new() };
        assert(r@.1 =~= Seq::<(i64, Seq<u8>)>::empty());
        r
    }

    /// The live content; `None` when the key has never been written.
    pub fn get(&self) -> (r: Option<Vec<u8>>)
        ensures
            match r {
                Some(c) => get_spec(self@) == Some(c@),
                None => get_spec(self@) is None,
            },
    {
        match &self.live {
            Some(c) => {
                let copy = c.clone();
                assert(copy@ =~= c@);
                Some(copy)
            },
            None => None,
        }
    }

    /// The timestamps of the snapshots, oldest first.
    pub fn snapshot_times(&self) -> (r: Vec<i64>)
        ensures
            r@ == self@.1.map_values(|x: (i64, Seq<u8>)| x.0),
    {
        let mut r: Vec<i64> = Vec::new();
        for i in 0..self.snapshots.len()
            invariant
                r@ == self@.1.map_values(|x: (i64, Seq<u8>)| x.0).subrange(0, i as int),
        {
            r.push(self.snapshots[i].timestamp);
            assert(r@ =~= self@.1.map_values(|x: (i64, Seq<u8>)| x.0).subrange(0, i + 1));
        }
        assert(r@ =~= self@.1.map_values(|x: (i64, Seq<u8>)| x.0));
        r
    }

    /// The snapshots as retention sees them, oldest first.
    pub fn snapshot_infos(&self) -> (r: Vec<SnapshotInfo>)
        ensures
            r@ == infos(self@.1),
    {
        let mut r: Vec<SnapshotInfo> = Vec::new();
        for i in 0..self.snapshots.len()
            invariant
                r@ == infos(self@.1).subrange(0, i as int),
        {
            let info = SnapshotInfo {
                timestamp: self.snapshots[i].timestamp,
                size: self.snapshots[i].content.len() as u64,
            };
            r.push(info);
            assert(r@ =~= infos(self@.1).subrange(0, i + 1));
        }
        assert(r@ =~= infos(self@.1));
        r
    }

    /// Removes the snapshots that `policy` does not keep at `now`.
    pub fn prune(&mut self, policy: RetentionPolicy, now: i64)
        requires
            document_wf(old(self)@),
        ensures
            document_wf(final(self)@),
            final(self)@ == (old(self)@.0, prune_snapshots(Some(policy), old(self)@.1, now)),
    {
        let infos_now = self.snapshot_infos();
        let k = prune_count(policy, &infos_now, now);
        proof {
            lemma_prune_cut_bounded(policy, infos_now@, now);
            lemma_prune_sorted(Some(policy), self@.1, now);
        }
        let kept = self.snapshots.split_off(k);
        self.snapshots = kept;
        assert(self@.1 =~= prune_snapshots(Some(policy), old(self)@.1, now));
    }

    /// Writes `content` at time `now`: the prior content, if any, is first kept
    /// as a snapshot at `now` (unless one exists for that second), the content
    /// is replaced, and `policy`, if any, prunes the snapshots.
    pub fn put(&mut self, content: Vec<u8>, now: i64, policy: Option<RetentionPolicy>)
        requires
            document_wf(old(self)@),
        ensures
            document_wf(final(self)@),
            final(self)@ == put_spec(old(self)@, content@, now, policy),
    {
        let ghost s0 = self@.1;
        proof {
            lemma_capture_sorted(old(self)@.0, s0, now);
        }
        match self.live.take() {
            Some(prior) => {
                let n = self.snapshots.len();
                let mut pos: usize = 0;
                let ghost p = |x: (i64, Seq<u8>)| x.0 < now;
                assert(s0.subrange(0, n as int) =~= s0);
                while pos < n && self.snapshots[pos].timestamp < now
                    invariant
                        pos <= n,
                        n == self.snapshots@.len(),
                        s0 == self.snapshots@.map_values(|x: Snapshot| x@),
                        p == (|x: (i64, Seq<u8>)| x.0 < now),
                        leading(s0, p) == pos + leading(s0.subrange(pos as int, n as int), p),
                    decreases n - pos,
                {
                    assert(s0.subrange(pos as int, n as int)[0] == s0[pos as int]);
                    assert(s0.subrange(pos as int, n as int).drop_first() =~= s0.subrange(
                        pos + 1,
                        n as int,
                    ));
                    pos = pos + 1;
                }
                proof {
                    lemma_leading(s0, p);
                    if pos < n {
                        assert(s0.subrange(pos as int, n as int)[0] == s0[pos as int]);
                    }
                    assert(insert_pos(s0, now) == pos);
                }
                if pos < n && self.snapshots[pos].timestamp == now {
                    assert(has_snapshot_at(s0, now));
                } else {
                    assert(!has_snapshot_at(s0, now)) by {
                        if has_snapshot_at(s0, now) {
                            let i = choose|i: int| 0 <= i < s0.len() && (#[trigger] s0[i]).0 == now;
                            if i < pos {
                                assert(p(s0[i]));
                            } else {
                                assert(s0[pos as int].0 <= s0[i].0);
                            }
                        }
                    };
                    self.snapshots.insert(pos, Snapshot { timestamp: now, content: prior });
                    assert(self@.1 =~= s0.insert(pos as int, (now, old(self)@.0->0)));
                }
            },
            None => {},
        }
        assert(self@.1 == capture(old(self)@.0, s0, now));
        self.live = Some(content);
        match policy {
            Some(p) => self.prune(p, now),
            None => {},
        }
    }

    /// Writes `content` at the current time of the system clock; see
    /// [`Document::put`]. Whatever the clock reads, the result is that of a
    /// `put` at some second.
    pub fn put_now(&mut self, content: Vec<u8>, policy: Option<RetentionPolicy>)
        requires
            document_wf(old(self)@),
        ensures
            document_wf(final(self)@),
            exists|now: i64| final(self)@ == put_spec(old(self)@, content@, now, policy),
    {
        let now = unix_now();
        self.put(content, now, policy);
    }
}

} // verus!
