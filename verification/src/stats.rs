//! Per-upstream counters, keyed by upstream id.
//!
//! Every attempt contributes to exactly one upstream's counters: the one it
//! was dispatched to. Counters only grow (saturating at the type's limit)
//! and are cleared only by an explicit command.

use vstd::prelude::*;

verus! {

/// Cumulative counters for one upstream.
#[derive(Debug, Clone)]
pub struct UpstreamStats {
    pub upstream_id: String,
    pub upstream_label: Option<String>,
    pub total_requests: u64,
    pub success_count: u64,
    pub error_count: u64,
    pub total_duration_ms: u64,
}

/// The mathematical model of an [`UpstreamStats`].
pub ghost struct StatsModel {
    pub upstream_id: Seq<char>,
    pub upstream_label: Option<Seq<char>>,
    pub total_requests: u64,
    pub success_count: u64,
    pub error_count: u64,
    pub total_duration_ms: u64,
}

impl DeepView for UpstreamStats {
    type V = StatsModel;

    open spec fn deep_view(&self) -> StatsModel {
        StatsModel {
            upstream_id: self.upstream_id@,
            upstream_label: self.upstream_label.deep_view(),
            total_requests: self.total_requests,
            success_count: self.success_count,
            error_count: self.error_count,
            total_duration_ms: self.total_duration_ms,
        }
    }
}

impl View for UpstreamStats {
    type V = StatsModel;

    open spec fn view(&self) -> StatsModel {
        self.deep_view()
    }
}

/// Addition that stops at the counter's limit instead of wrapping.
pub open spec fn sat_add64(a: u64, b: u64) -> u64 {
    if a + b > u64::MAX {
        u64::MAX
    } else {
        (a + b) as u64
    }
}

fn sat_add(a: u64, b: u64) -> (r: u64)
    ensures
        r == sat_add64(a, b),
{
    if a > u64::MAX - b {
        u64::MAX
    } else {
        a + b
    }
}

/// Index of the first entry with the given upstream id, or `-1`.
pub open spec fn find_stats_idx(s: Seq<StatsModel>, id: Seq<char>) -> int
    decreases s.len(),
{
    if s.len() == 0 {
        -1
    } else if s.first().upstream_id == id {
        0
    } else {
        let r = find_stats_idx(s.drop_first(), id);
        if r == -1 {
            -1
        } else {
            r + 1
        }
    }
}

proof fn lemma_find_stats_none(s: Seq<StatsModel>, id: Seq<char>)
    requires
        forall|j: int| 0 <= j < s.len() ==> (#[trigger] s[j].upstream_id) != id,
    ensures
        find_stats_idx(s, id) == -1,
    decreases s.len(),
{
    if s.len() > 0 {
        assert(s.first() == s[0]);
        lemma_find_stats_none(s.drop_first(), id);
    }
}

proof fn lemma_find_stats_at(s: Seq<StatsModel>, id: Seq<char>, i: int)
    requires
        0 <= i < s.len(),
        forall|j: int| 0 <= j < i ==> (#[trigger] s[j].upstream_id) != id,
        s[i].upstream_id == id,
    ensures
        find_stats_idx(s, id) == i,
    decreases s.len(),
{
    if i > 0 {
        assert(s[0].upstream_id != id);
        lemma_find_stats_at(s.drop_first(), id, i - 1);
    }
}

/// One entry after recording an attempt: one more request, the duration
/// added, one success or error, and a missing label back-filled.
pub open spec fn bumped(e: StatsModel, label: Option<Seq<char>>, duration_ms: u64, success: bool) -> StatsModel {
    StatsModel {
        upstream_id: e.upstream_id,
        upstream_label: if e.upstream_label is None && label is Some {
            label
        } else {
            e.upstream_label
        },
        total_requests: sat_add64(e.total_requests, 1),
        success_count: if success {
            sat_add64(e.success_count, 1)
        } else {
            e.success_count
        },
        error_count: if success {
            e.error_count
        } else {
            sat_add64(e.error_count, 1)
        },
        total_duration_ms: sat_add64(e.total_duration_ms, duration_ms),
    }
}

/// An entry created by the first attempt against an upstream.
pub open spec fn fresh_stats(id: Seq<char>, label: Option<Seq<char>>, duration_ms: u64, success: bool) -> StatsModel {
    bumped(
        StatsModel {
            upstream_id: id,
            upstream_label: None,
            total_requests: 0,
            success_count: 0,
            error_count: 0,
            total_duration_ms: 0,
        },
        label,
        duration_ms,
        success,
    )
}

/// The per-upstream statistics map.
pub struct StatsMap {
    entries: Vec<UpstreamStats>,
}

impl View for StatsMap {
    type V = Seq<StatsModel>;

    closed spec fn view(&self) -> Seq<StatsModel> {
        self.entries.deep_view()
    }
}

impl StatsMap {
    /// Each upstream id appears at most once.
    pub open spec fn wf(&self) -> bool {
        forall|i: int, j: int|
            0 <= i < j < self@.len() ==> (#[trigger] self@[i].upstream_id) != (
            #[trigger] self@[j].upstream_id)
    }

    /// An empty map.
    pub fn new() -> (r: StatsMap)
        ensures
            r@ == Seq::<StatsModel>::empty(),
            r.wf(),
    {
        let r = StatsMap { entries: Vec::new() };
        proof {
            assert(r@ =~= Seq::<StatsModel>::empty());
        }
        r
    }

    /// Record one attempt against an upstream: bump its entry, creating it
    /// on first sight.
    pub fn update(
        &mut self,
        upstream_id: &str,
        upstream_label: &Option<String>,
        duration_ms: u64,
        success: bool,
    )
        requires
            old(self).wf(),
        ensures
            final(self).wf(),
            ({
                let i = find_stats_idx(old(self)@, upstream_id@);
                if i >= 0 {
                    final(self)@ == old(self)@.update(
                        i,
                        bumped(old(self)@[i], upstream_label.deep_view(), duration_ms, success),
                    )
                } else {
                    final(self)@ == old(self)@.push(
                        fresh_stats(
                            upstream_id@,
                            upstream_label.deep_view(),
                            duration_ms,
                            success,
                        ),
                    )
                }
            }),
    {
        let n = self.entries.len();
        let mut i: usize = 0;
        while i < n
            invariant
                0 <= i <= n,
                n == self@.len(),
                n == self.entries.len(),
                self@ == old(self)@,
                self.entries@ == old(self).entries@,
                old(self).wf(),
                forall|j: int| 0 <= j < i ==> (#[trigger] self@[j].upstream_id) != upstream_id@,
            decreases n - i,
        {
            if eq_str(self.entries[i].upstream_id.as_str(), upstream_id) {
                proof {
                    lemma_find_stats_at(self@, upstream_id@, i as int);
                }
                let ghost pre = self@;
                let mut e = self.entries.remove(i);
                e.total_requests = sat_add(e.total_requests, 1);
                e.total_duration_ms = sat_add(e.total_duration_ms, duration_ms);
                if success {
                    e.success_count = sat_add(e.success_count, 1);
                } else {
                    e.error_count = sat_add(e.error_count, 1);
                }
                let backfill = match (&e.upstream_label, upstream_label) {
                    (None, Some(l)) => Some(l.clone()),
                    _ => None,
                };
                match backfill {
                    Some(l) => {
                        e.upstream_label = Some(l);
                    },
                    None => {},
                }
                self.entries.insert(i, e);
                proof {
                    assert(e@ == bumped(
                        pre[i as int],
                        upstream_label.deep_view(),
                        duration_ms,
                        success,
                    ));
                    assert(self@ =~= pre.update(i as int, e@));
                }
                return ;
            }
            i = i + 1;
        }
        proof {
            lemma_find_stats_none(self@, upstream_id@);
        }
        let ghost pre = self@;
        let label = match upstream_label {
            Some(l) => Some(l.clone()),
            None => None,
        };
        let fresh = UpstreamStats {
            upstream_id: upstream_id.to_owned(),
            upstream_label: label,
            total_requests: 1,
            success_count: if success {
                1
            } else {
                0
            },
            error_count: if success {
                0
            } else {
                1
            },
            total_duration_ms: duration_ms,
        };
        self.entries.push(fresh);
        proof {
            assert(fresh@ == fresh_stats(
                upstream_id@,
                upstream_label.deep_view(),
                duration_ms,
                success,
            ));
            assert(self@ =~= pre.push(fresh@));
        }
    }

    /// A copy of every entry, in insertion order.
    pub fn snapshot(&self) -> (r: Vec<UpstreamStats>)
        ensures
            r.deep_view() == self@,
    {
        let mut out: Vec<UpstreamStats> = Vec::new();
        let n = self.entries.len();
        let mut i: usize = 0;
        proof {
            assert(out.deep_view() =~= self@.take(0));
        }
        while i < n
            invariant
                0 <= i <= n,
                n == self@.len(),
                n == self.entries.len(),
                out.deep_view() == self@.take(i as int),
            decreases n - i,
        {
            let e = &self.entries[i];
            let copy = UpstreamStats {
                upstream_id: e.upstream_id.clone(),
                upstream_label: match &e.upstream_label {
                    Some(l) => Some(l.clone()),
                    None => None,
                },
                total_requests: e.total_requests,
                success_count: e.success_count,
                error_count: e.error_count,
                total_duration_ms: e.total_duration_ms,
            };
            let ghost pre = out.deep_view();
            out.push(copy);
            proof {
                assert(copy@ == self@[i as int]);
                assert(out.deep_view() =~= pre.push(copy@));
                assert(self@.take(i + 1) =~= pre.push(self@[i as int]));
            }
            i = i + 1;
        }
        proof {
            assert(self@.take(n as int) =~= self@);
        }
        out
    }

    /// Remove every entry.
    pub fn clear(&mut self)
        ensures
            final(self)@ == Seq::<StatsModel>::empty(),
            final(self).wf(),
    {
        self.entries.clear();
        proof {
            assert(self@ =~= Seq::<StatsModel>::empty());
        }
    }
}

fn eq_str(a: &str, b: &str) -> (r: bool)
    ensures
        r == (a@ == b@),
{
    let na = a.unicode_len();
    let nb = b.unicode_len();
    if na != nb {
        return false;
    }
    let mut i: usize = 0;
    while i < na
        invariant
            0 <= i <= na,
            na == a@.len(),
            na == b@.len(),
            forall|j: int| 0 <= j < i ==> a@[j] == b@[j],
        decreases na - i,
    {
        if a.get_char(i) != b.get_char(i) {
            return false;
        }
        i = i + 1;
    }
    proof {
        assert(a@ =~= b@);
    }
    true
}

} // verus!
