//! The bounded log ring: an ordered sequence of entries with
//! upsert-by-id semantics, capped at [`MAX_LOGS`].
//!
//! An upsert replaces an existing entry in place, keeping its position;
//! otherwise it appends, evicting the oldest entry once the ring is full. So
//! the ring never exceeds its capacity, and upserting an existing id never
//! changes its size.

use vstd::prelude::*;

use std::collections::VecDeque;

use crate::logentry::{LogEntryModel, ProxyLogEntry};

verus! {

/// Capacity of the log ring.
pub const MAX_LOGS: usize = 200;

/// Index of the first entry with the given id, or `-1` when there is none.
pub open spec fn find_entry_idx(s: Seq<LogEntryModel>, id: Seq<char>) -> int
    decreases s.len(),
{
    if s.len() == 0 {
        -1
    } else if s.first().id == id {
        0
    } else {
        let r = find_entry_idx(s.drop_first(), id);
        if r == -1 {
            -1
        } else {
            r + 1
        }
    }
}

proof fn lemma_find_entry_none(s: Seq<LogEntryModel>, id: Seq<char>)
    requires
        forall|j: int| 0 <= j < s.len() ==> (#[trigger] s[j].id) != id,
    ensures
        find_entry_idx(s, id) == -1,
    decreases s.len(),
{
    if s.len() > 0 {
        assert(s.first() == s[0]);
        lemma_find_entry_none(s.drop_first(), id);
    }
}

proof fn lemma_find_entry_at(s: Seq<LogEntryModel>, id: Seq<char>, i: int)
    requires
        0 <= i < s.len(),
        forall|j: int| 0 <= j < i ==> (#[trigger] s[j].id) != id,
        s[i].id == id,
    ensures
        find_entry_idx(s, id) == i,
    decreases s.len(),
{
    if i > 0 {
        assert(s[0].id != id);
        lemma_find_entry_at(s.drop_first(), id, i - 1);
    }
}

/// One entry after a listener shutdown: still-inflight entries on the
/// stopped port are finalized to status 499, others are untouched.
pub open spec fn finalized_model(e: LogEntryModel, listen_port: Option<u16>) -> LogEntryModel {
    let port_matches = match listen_port {
        Some(p) => p == e.listen_port,
        None => true,
    };
    if port_matches && e.status is None {
        LogEntryModel {
            status: Some(499u16),
            error: Some("proxy stopped; in-flight request terminated"@),
            ..e
        }
    } else {
        e
    }
}

/// Whether an entry passes the port filter of a log query.
pub open spec fn port_matches(e: LogEntryModel, listen_port: Option<u16>) -> bool {
    match listen_port {
        Some(p) => p == e.listen_port,
        None => true,
    }
}

/// The entries that pass the port filter, in order.
pub open spec fn filtered_logs(s: Seq<LogEntryModel>, listen_port: Option<u16>) -> Seq<
    LogEntryModel,
>
    decreases s.len(),
{
    if s.len() == 0 {
        Seq::empty()
    } else {
        let rest = filtered_logs(s.drop_last(), listen_port);
        if port_matches(s.last(), listen_port) {
            rest.push(s.last())
        } else {
            rest
        }
    }
}

/// The bounded, ordered log of requests.
pub struct LogRing {
    entries: VecDeque<ProxyLogEntry>,
}

impl View for LogRing {
    type V = Seq<LogEntryModel>;

    closed spec fn view(&self) -> Seq<LogEntryModel> {
        Seq::new(self.entries@.len(), |i: int| self.entries@[i]@)
    }
}

impl LogRing {
    /// The ring never exceeds its capacity.
    pub open spec fn wf(&self) -> bool {
        self@.len() <= MAX_LOGS
    }

    /// An empty ring.
    pub fn new() -> (r: LogRing)
        ensures
            r@ == Seq::<LogEntryModel>::empty(),
            r.wf(),
    {
        let r = LogRing { entries: VecDeque::new() };
        proof {
            assert(r@ =~= Seq::<LogEntryModel>::empty());
        }
        r
    }

    /// Number of entries held.
    pub fn len(&self) -> (n: usize)
        ensures
            n == self@.len(),
    {
        self.entries.len()
    }

    /// Upsert an entry by id: replace the first entry with the same id in
    /// place, else append, evicting the oldest entry when the ring is full.
    /// The ring stays within capacity, and an upsert of an existing id never
    /// changes its size.
    pub fn upsert(&mut self, entry: ProxyLogEntry)
        requires
            old(self).wf(),
        ensures
            final(self).wf(),
            ({
                let i = find_entry_idx(old(self)@, entry@.id);
                if i >= 0 {
                    final(self)@ == old(self)@.update(i, entry@) && final(self)@.len() == old(
                        self,
                    )@.len()
                } else if old(self)@.len() < MAX_LOGS {
                    final(self)@ == old(self)@.push(entry@)
                } else {
                    final(self)@ == old(self)@.push(entry@).drop_first()
                }
            }),
    {
        let n = self.entries.len();
        let mut i: usize = 0;
        while i < n
            invariant
                0 <= i <= n,
                n <= MAX_LOGS,
                n == self@.len(),
                n == self.entries@.len(),
                self@ == old(self)@,
                self.entries@ == old(self).entries@,
                forall|j: int| 0 <= j < i ==> (#[trigger] self@[j].id) != entry@.id,
            decreases n - i,
        {
            if self.entries[i].id == entry.id {
                proof {
                    lemma_find_entry_at(self@, entry@.id, i as int);
                }
                let ghost pre = self@;
                self.entries.remove(i);
                self.entries.insert(i, entry);
                proof {
                    assert(self@ =~= pre.update(i as int, entry@));
                }
                return ;
            }
            i = i + 1;
        }
        proof {
            lemma_find_entry_none(self@, entry@.id);
        }
        let ghost pre = self@;
        self.entries.push_back(entry);
        proof {
            assert(self@ =~= pre.push(entry@));
        }
        if self.entries.len() > MAX_LOGS {
            let ghost full = self@;
            self.entries.pop_front();
            proof {
                assert(self@ =~= full.drop_first());
            }
        }
    }

    /// Remove every entry.
    pub fn clear(&mut self)
        ensures
            final(self)@ == Seq::<LogEntryModel>::empty(),
            final(self).wf(),
    {
        self.entries.clear();
        proof {
            assert(self@ =~= Seq::<LogEntryModel>::empty());
        }
    }

    /// A snapshot of the last `limit` entries (at most [`MAX_LOGS`]) that
    /// pass the port filter, oldest first.
    pub fn query(&self, limit: Option<usize>, listen_port: Option<u16>) -> (r: Vec<
        ProxyLogEntry,
    >)
        ensures
            ({
                let f = filtered_logs(self@, listen_port);
                let max = match limit {
                    Some(l) => if l <= MAX_LOGS {
                        l as int
                    } else {
                        MAX_LOGS as int
                    },
                    None => MAX_LOGS as int,
                };
                r.deep_view() == f.skip(
                    if f.len() <= max {
                        0
                    } else {
                        f.len() - max
                    },
                )
            }),
    {
        let max: usize = match limit {
            Some(l) => if l <= MAX_LOGS {
                l
            } else {
                MAX_LOGS
            },
            None => MAX_LOGS,
        };
        let mut filtered: Vec<ProxyLogEntry> = Vec::new();
        let n = self.entries.len();
        let mut i: usize = 0;
        proof {
            assert(self@.take(0) =~= Seq::<LogEntryModel>::empty());
            assert(filtered_logs(Seq::<LogEntryModel>::empty(), listen_port)
                =~= Seq::<LogEntryModel>::empty());
            assert(filtered.deep_view() =~= Seq::<LogEntryModel>::empty());
        }
        while i < n
            invariant
                0 <= i <= n,
                n == self@.len(),
                n == self.entries@.len(),
                filtered.deep_view() == filtered_logs(self@.take(i as int), listen_port),
            decreases n - i,
        {
            proof {
                let pre = self@.take(i as int);
                let cur = self@.take(i + 1);
                assert(cur.drop_last() =~= pre);
                assert(cur.last() == self@[i as int]);
            }
            let e = &self.entries[i];
            let keep = match listen_port {
                Some(p) => p == e.listen_port,
                None => true,
            };
            if keep {
                let ghost pre_f = filtered.deep_view();
                filtered.push(e.duplicate());
                proof {
                    assert(filtered.deep_view() =~= pre_f.push(self@[i as int]));
                }
            }
            i = i + 1;
        }
        proof {
            assert(self@.take(n as int) =~= self@);
        }
        let m = filtered.len();
        let start: usize = if m <= max {
            0
        } else {
            m - max
        };
        let mut out: Vec<ProxyLogEntry> = Vec::new();
        let mut k: usize = start;
        proof {
            assert(out.deep_view() =~= filtered.deep_view().subrange(
                start as int,
                start as int,
            ));
        }
        while k < m
            invariant
                start <= k <= m,
                m == filtered.len(),
                m == filtered.deep_view().len(),
                out.deep_view() == filtered.deep_view().subrange(start as int, k as int),
            decreases m - k,
        {
            let ghost pre_o = out.deep_view();
            out.push(filtered[k].duplicate());
            proof {
                assert(filtered.deep_view()[k as int] == filtered@[k as int]@);
                assert(out.deep_view() =~= pre_o.push(filtered.deep_view()[k as int]));
                assert(filtered.deep_view().subrange(start as int, k + 1) =~= pre_o.push(
                    filtered.deep_view()[k as int],
                ));
            }
            k = k + 1;
        }
        proof {
            assert(out.deep_view() =~= filtered.deep_view().skip(start as int));
        }
        out
    }

    /// After a listener stops, finalize the inflight entries it leaves
    /// behind: any entry without a status on a matching port gets status 499
    /// and a terminal error; everything else is untouched.
    pub fn finalize_inflight(&mut self, listen_port: Option<u16>)
        requires
            old(self).wf(),
        ensures
            final(self).wf(),
            final(self)@.len() == old(self)@.len(),
            final(self)@ == Seq::new(
                old(self)@.len(),
                |i: int| finalized_model(old(self)@[i], listen_port),
            ),
    {
        let ghost orig = self@;
        let n = self.entries.len();
        let mut i: usize = 0;
        while i < n
            invariant
                0 <= i <= n,
                n == orig.len(),
                self@.len() == n,
                self.entries@.len() == n,
                forall|j: int|
                    0 <= j < i ==> self@[j] == finalized_model(#[trigger] orig[j], listen_port),
                forall|j: int| i <= j < n ==> (#[trigger] self@[j]) == orig[j],
            decreases n - i,
        {
            let needs_fix = match listen_port {
                Some(p) => p == self.entries[i].listen_port,
                None => true,
            };
            let no_status = match self.entries[i].status {
                Some(_) => false,
                None => true,
            };
            if needs_fix && no_status {
                let ghost pre = self@;
                match self.entries.remove(i) {
                    Some(mut e) => {
                        e.status = Some(499);
                        e.error = Some(
                            String::from_str("proxy stopped; in-flight request terminated"),
                        );
                        self.entries.insert(i, e);
                        proof {
                            assert(self@ =~= pre.update(i as int, e@));
                            assert(self@[i as int] == finalized_model(orig[i as int], listen_port));
                        }
                    },
                    None => {
                        proof {
                            assert(false);
                        }
                    },
                }
            }
            i = i + 1;
        }
        proof {
            assert(self@ =~= Seq::new(orig.len(), |j: int| finalized_model(orig[j], listen_port)));
        }
    }
}

} // verus!
