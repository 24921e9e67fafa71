use vstd::prelude::*;

use crate::record::SensedData;

verus! {

// The data view shows, per session, how many records arrived against how
// many the probe numbered, and the spread of the inter-arrival times taken
// from the records' uptime field. The rendering draws these figures; the
// figures themselves are computed here.

/// The inter-arrival times of a session: the uptime difference of each
/// neighbouring pair, skipping pairs whose earlier uptime is zero (the probe
/// reports zero while its clock is not ready) and pairs whose uptime went
/// backwards.
pub open spec fn spec_deltas(s: Seq<SensedData>) -> Seq<u32>
    decreases s.len(),
{
    if s.len() <= 1 {
        Seq::empty()
    } else {
        let prev = s[s.len() - 2].uptime;
        let cur = s.last().uptime;
        spec_deltas(s.drop_last()) + (if prev != 0 && cur >= prev {
            seq![(cur - prev) as u32]
        } else {
            Seq::<u32>::empty()
        })
    }
}

/// The largest element of a non-empty sequence.
pub open spec fn seq_max(s: Seq<u32>) -> u32
    decreases s.len(),
{
    if s.len() <= 1 {
        s[0]
    } else if s.last() >= seq_max(s.drop_last()) {
        s.last()
    } else {
        seq_max(s.drop_last())
    }
}

/// The smallest element of a non-empty sequence.
pub open spec fn seq_min(s: Seq<u32>) -> u32
    decreases s.len(),
{
    if s.len() <= 1 {
        s[0]
    } else if s.last() <= seq_min(s.drop_last()) {
        s.last()
    } else {
        seq_min(s.drop_last())
    }
}

/// The sum of a sequence.
pub open spec fn seq_sum(s: Seq<u32>) -> int
    decreases s.len(),
{
    if s.len() == 0 {
        0
    } else {
        seq_sum(s.drop_last()) + s.last()
    }
}

/// A sum of unsigned values is at least any partial sum.
proof fn lemma_seq_sum_nonneg(s: Seq<u32>)
    ensures
        seq_sum(s) >= 0,
    decreases s.len(),
{
    if s.len() > 0 {
        lemma_seq_sum_nonneg(s.drop_last());
    }
}

/// How many records the probe numbered across a session: the index span from
/// the first to the last record, inclusive. Nothing where the span does not
/// fit (the index went backwards, which the segmenter never lets through, or
/// the span fills the whole index range).
pub open spec fn spec_total(s: Seq<SensedData>) -> Option<u32> {
    if s.len() == 0 {
        Option::None
    } else if s.last().index >= s[0].index && s.last().index - s[0].index < u32::MAX {
        Option::Some((s.last().index - s[0].index + 1) as u32)
    } else {
        Option::None
    }
}

/// State the data view keeps between redraws.
pub struct DataTabState {
    /// Keep the newest rows in view as records arrive.
    pub stick_to_bottom: bool,
}

/// Reception statistics of one session.
pub struct SessionStats {
    /// How many records arrived.
    pub received: usize,
    /// How many records the probe numbered, by the index span.
    pub total: Option<u32>,
    /// How many of the numbered records never arrived.
    pub lost: Option<u32>,
    /// The largest inter-arrival time, where any pair counts.
    pub max_delta: Option<u32>,
    /// The smallest inter-arrival time, where any pair counts.
    pub min_delta: Option<u32>,
    /// How many neighbouring pairs count.
    pub delta_count: usize,
    /// The summed inter-arrival times, pinned to `u64::MAX` on overflow.
    pub delta_sum: u64,
}

/// What `session_stats` returns for a session.
pub open spec fn stats_ok(s: Seq<SensedData>, r: SessionStats) -> bool {
    let ds = spec_deltas(s);
    &&& r.received == s.len()
    &&& r.total == spec_total(s)
    &&& r.lost == (match spec_total(s) {
        Option::Some(t) => if s.len() <= t {
            Option::Some((t - s.len()) as u32)
        } else {
            Option::None
        },
        Option::None => Option::<u32>::None,
    })
    &&& r.delta_count == ds.len()
    &&& (ds.len() == 0 ==> r.max_delta is None && r.min_delta is None)
    &&& (ds.len() > 0 ==> r.max_delta == Some(seq_max(ds)) && r.min_delta == Some(seq_min(ds)))
    &&& (if seq_sum(ds) <= u64::MAX {
        r.delta_sum == seq_sum(ds)
    } else {
        r.delta_sum == u64::MAX
    })
}

/// Compute the reception statistics of one session. The average inter-arrival
/// time and the loss percentage are quotients of these figures; displays
/// compute them at the edge.
pub fn session_stats(session: &Vec<SensedData>) -> (r: SessionStats)
    ensures
        stats_ok(session@, r),
{
    let n = session.len();
    if n == 0 {
        proof {
            assert(spec_deltas(session@) =~= Seq::<u32>::empty());
        }
        return SessionStats {
            received: 0,
            total: None,
            lost: None,
            max_delta: None,
            min_delta: None,
            delta_count: 0,
            delta_sum: 0,
        };
    }
    let total = {
        let first = session[0].index;
        let last = session[n - 1].index;
        if last >= first && last - first < u32::MAX {
            Some(last - first + 1)
        } else {
            None
        }
    };
    let lost = match total {
        Some(t) => {
            if n <= t as usize {
                Some(t - n as u32)
            } else {
                None
            }
        },
        None => None,
    };
    let mut max_delta: Option<u32> = None;
    let mut min_delta: Option<u32> = None;
    let mut delta_count: usize = 0;
    let mut delta_sum: u64 = 0;
    let mut saturated = false;
    let mut i: usize = 1;
    proof {
        assert(spec_deltas(session@.subrange(0, 1)) =~= Seq::<u32>::empty());
    }
    while i < n
        invariant
            1 <= i <= n,
            n == session@.len(),
            delta_count <= i - 1,
            ({
                let ds = spec_deltas(session@.subrange(0, i as int));
                &&& delta_count == ds.len()
                &&& (ds.len() == 0 ==> max_delta is None && min_delta is None)
                &&& (ds.len() > 0 ==> max_delta == Some(seq_max(ds)) && min_delta == Some(
                    seq_min(ds),
                ))
                &&& (!saturated ==> delta_sum == seq_sum(ds) && seq_sum(ds) <= u64::MAX)
                &&& (saturated ==> delta_sum == u64::MAX && seq_sum(ds) > u64::MAX)
            }),
        decreases n - i,
    {
        let prev = session[i - 1].uptime;
        let cur = session[i].uptime;
        let ghost pre = session@.subrange(0, i as int);
        let ghost post = session@.subrange(0, i as int + 1);
        proof {
            assert(post.drop_last() =~= pre);
            lemma_seq_sum_nonneg(spec_deltas(pre));
        }
        if prev != 0 && cur >= prev {
            let d = cur - prev;
            proof {
                assert(spec_deltas(post) == spec_deltas(pre) + seq![d]);
                assert(spec_deltas(post).drop_last() =~= spec_deltas(pre));
            }
            max_delta = match max_delta {
                Some(m) => if d >= m {
                    Some(d)
                } else {
                    Some(m)
                },
                None => Some(d),
            };
            min_delta = match min_delta {
                Some(m) => if d <= m {
                    Some(d)
                } else {
                    Some(m)
                },
                None => Some(d),
            };
            delta_count = delta_count + 1;
            if !saturated {
                match delta_sum.checked_add(d as u64) {
                    Some(s) => {
                        delta_sum = s;
                    },
                    None => {
                        delta_sum = u64::MAX;
                        saturated = true;
                    },
                }
            }
        } else {
            proof {
                assert(spec_deltas(post) =~= spec_deltas(pre));
            }
        }
        i = i + 1;
    }
    proof {
        assert(session@.subrange(0, n as int) =~= session@);
    }
    SessionStats { received: n, total, lost, max_delta, min_delta, delta_count, delta_sum }
}

} // verus!
