use vstd::prelude::*;

use crate::decode::{decodes, line_tokens, parse_log_line, record_of};
use crate::record::SensedData;
use crate::text::{banner, is_banner, lines, lines_spec, trim, trim_spec};

verus! {

/// A record of an entire mission — an entire log file, or data received from
/// the radio, possibly across multiple probe sessions.
///
/// Sessions hold records in arrival order and are never re-sorted. A new
/// session begins whenever a record's index is below the most recently
/// accepted index: the probe's counter resets when it restarts, while dropped
/// or reordered packets over a noisy link only ever skip forward.
#[derive(Clone, Debug, PartialEq)]
pub struct MissionData {
    sessions: Vec<Vec<SensedData>>,
    last_index: Option<u32>,
}

/// A record with this index opens a new session: there is no prior record,
/// or the index went backwards.
pub open spec fn starts_new_session(last: Option<u32>, index: u32) -> bool {
    match last {
        Option::None => true,
        Option::Some(l) => index < l,
    }
}

/// One segmentation step: where an accepted record goes, and the new
/// most-recently-seen index.
pub open spec fn segment_step(
    state: (Seq<Seq<SensedData>>, Option<u32>),
    rec: SensedData,
) -> (Seq<Seq<SensedData>>, Option<u32>) {
    let (sessions, last) = state;
    if starts_new_session(last, rec.index) {
        (sessions.push(seq![rec]), Some(rec.index))
    } else {
        (sessions.update(sessions.len() - 1, sessions.last().push(rec)), Some(rec.index))
    }
}

/// The sessions and last-seen index that accepting `records` in order from an
/// empty store produces.
pub open spec fn segment_state(records: Seq<SensedData>) -> (Seq<Seq<SensedData>>, Option<u32>)
    decreases records.len(),
{
    if records.len() == 0 {
        (Seq::empty(), Option::None)
    } else {
        segment_step(segment_state(records.drop_last()), records.last())
    }
}

/// The sessions alone.
pub open spec fn segment(records: Seq<SensedData>) -> Seq<Seq<SensedData>> {
    segment_state(records).0
}

/// A line that reaches the segmenter as a record: not a banner line (judged
/// on its trimmed text) and well-formed enough to decode.
pub open spec fn good_line(l: Seq<char>) -> bool {
    !is_banner(trim_spec(l)) && decodes(l)
}

/// The decodable, non-banner lines among `ls`, in order.
pub open spec fn good_lines(ls: Seq<Seq<char>>) -> Seq<Seq<char>>
    decreases ls.len(),
{
    if ls.len() == 0 {
        Seq::empty()
    } else {
        good_lines(ls.drop_last()) + (if good_line(ls.last()) {
            seq![ls.last()]
        } else {
            Seq::<Seq<char>>::empty()
        })
    }
}

/// `records` are, record for record, what the good lines of `ls` decode to.
pub open spec fn records_of_lines(records: Seq<SensedData>, ls: Seq<Seq<char>>) -> bool {
    let good = good_lines(ls);
    records.len() == good.len() && forall|i: int|
        0 <= i < records.len() ==> record_of(line_tokens(good[i]), #[trigger] records[i])
            && records[i].wf()
}

impl MissionData {
    /// The sessions, as a sequence of sequences of records.
    pub closed spec fn spec_sessions(&self) -> Seq<Seq<SensedData>> {
        Seq::new(self.sessions@.len(), |i: int| self.sessions@[i]@)
    }

    /// The index of the most recently accepted record, used only during
    /// ingestion.
    pub closed spec fn spec_last_index(&self) -> Option<u32> {
        self.last_index
    }

    /// Once a record was accepted, at least one session exists.
    pub closed spec fn wf(&self) -> bool {
        self.last_index is Some ==> self.sessions@.len() > 0
    }

    /// The store as a segmentation state: the sessions and the last-seen
    /// index.
    pub open spec fn spec_state(&self) -> (Seq<Seq<SensedData>>, Option<u32>) {
        (self.spec_sessions(), self.spec_last_index())
    }

    /// An empty store: no sessions, no last-seen index.
    pub fn new() -> (r: Self)
        ensures
            r.wf(),
            r.spec_state() == (Seq::<Seq<SensedData>>::empty(), Option::<u32>::None),
            r.spec_sessions() == Seq::<Seq<SensedData>>::empty(),
            r.spec_last_index() is None,
    {
        let r = MissionData { sessions: Vec::new(), last_index: None };
        proof {
            assert(r.spec_sessions() =~= Seq::<Seq<SensedData>>::empty());
        }
        r
    }

    /// Place one decoded record: open a new session where the index reset,
    /// append to the current session otherwise, and remember the index.
    pub fn accept(&mut self, rec: SensedData)
        requires
            old(self).wf(),
        ensures
            final(self).wf(),
            final(self).spec_state() == segment_step(old(self).spec_state(), rec),
    {
        let idx = rec.index;
        let new_session = match self.last_index {
            None => true,
            Some(l) => idx < l,
        };
        if new_session {
            let ghost pre = self.spec_sessions();
            let mut session: Vec<SensedData> = Vec::new();
            session.push(rec);
            self.sessions.push(session);
            proof {
                assert(self.spec_sessions() =~~= pre.push(seq![rec]));
            }
        } else {
            let ghost pre = self.spec_sessions();
            let mut session = self.sessions.pop().unwrap();
            session.push(rec);
            self.sessions.push(session);
            proof {
                assert(self.spec_sessions() =~~= pre.update(
                    pre.len() - 1,
                    pre.last().push(rec),
                ));
            }
        }
        self.last_index = Some(idx);
    }

    /// Decode one line of text and place the record; a line that fails to
    /// decode is dropped and leaves the store unchanged.
    pub fn parse_line(&mut self, text: &str) -> (r: Result<(), ()>)
        requires
            old(self).wf(),
        ensures
            final(self).wf(),
            match r {
                Ok(_) => decodes(text@) && (exists|rec: SensedData|
                    #![auto]
                    record_of(line_tokens(text@), rec) && rec.wf() && final(self).spec_state()
                        == segment_step(old(self).spec_state(), rec)),
                Err(_) => !decodes(text@) && *final(self) == *old(self),
            },
    {
        match parse_log_line(text) {
            Ok(rec) => {
                let ghost grec = rec;
                self.accept(rec);
                proof {
                    assert(record_of(line_tokens(text@), grec) && grec.wf() && self.spec_state()
                        == segment_step(old(self).spec_state(), grec));
                }
                Ok(())
            },
            Err(_) => Err(()),
        }
    }

    /// Build a store from the full text of a log file: split into lines,
    /// skip banner lines, decode the rest in order, and drop every line that
    /// fails to decode.
    pub fn from_log(text: &str) -> (r: MissionData)
        ensures
            r.wf(),
            exists|records: Seq<SensedData>|
                #![auto]
                records_of_lines(records, lines_spec(text@)) && r.spec_state() == segment_state(
                    records,
                ),
    {
        let mut data = MissionData::new();
        let ls = lines(text);
        let ghost gls = lines_spec(text@);
        let ghost mut records: Seq<SensedData> = Seq::empty();
        proof {
            assert(gls.subrange(0, 0) =~= Seq::<Seq<char>>::empty());
            assert(segment_state(records) == data.spec_state());
        }
        let mut i: usize = 0;
        while i < ls.len()
            invariant
                0 <= i <= ls.len(),
                ls@.len() == gls.len(),
                forall|k: int| 0 <= k < gls.len() ==> ls@[k]@ == gls[k],
                data.wf(),
                records_of_lines(records, gls.subrange(0, i as int)),
                data.spec_state() == segment_state(records),
            decreases ls.len() - i,
        {
            let line = &ls[i];
            let t = trim(line.as_str());
            let ghost prefix = gls.subrange(0, i as int);
            let ghost prefix1 = gls.subrange(0, i as int + 1);
            proof {
                assert(prefix1.drop_last() =~= prefix);
                assert(prefix1.last() == gls[i as int]);
            }
            if !banner(t) {
                let ghost pre = data.spec_state();
                match data.parse_line(line.as_str()) {
                    Ok(_) => {
                        proof {
                            let rec = choose|rec: SensedData|
                                #![auto]
                                record_of(line_tokens(gls[i as int]), rec) && rec.wf()
                                    && data.spec_state() == segment_step(pre, rec);
                            let old_records = records;
                            records = records.push(rec);
                            assert(good_lines(prefix1) =~= good_lines(prefix).push(gls[i as int]));
                            assert(records.drop_last() =~= old_records);
                            assert(segment_state(records) == segment_step(
                                segment_state(old_records),
                                rec,
                            ));
                            assert forall|j: int| 0 <= j < records.len() implies record_of(
                                line_tokens(good_lines(prefix1)[j]),
                                #[trigger] records[j],
                            ) && records[j].wf() by {
                                if j < records.len() - 1 {
                                    assert(good_lines(prefix1)[j] == good_lines(prefix)[j]);
                                    assert(records[j] == old_records[j]);
                                }
                            }
                        }
                    },
                    Err(_) => {
                        proof {
                            assert(!good_line(gls[i as int]));
                            assert(good_lines(prefix1) =~= good_lines(prefix));
                        }
                    },
                }
            } else {
                proof {
                    assert(is_banner(trim_spec(gls[i as int])));
                    assert(!good_line(gls[i as int]));
                    assert(good_lines(prefix1) =~= good_lines(prefix));
                }
            }
            i = i + 1;
        }
        proof {
            assert(gls.subrange(0, gls.len() as int) =~= gls);
        }
        data
    }

    /// The sessions, in order of first arrival.
    pub fn sessions(&self) -> (r: &[Vec<SensedData>])
        ensures
            r@.len() == self.spec_sessions().len(),
            forall|i: int| 0 <= i < r@.len() ==> r@[i]@ == self.spec_sessions()[i],
    {
        self.sessions.as_slice()
    }

    /// Session `i`, or nothing where `i` is out of range.
    pub fn session(&self, i: usize) -> (r: Option<&Vec<SensedData>>)
        ensures
            match r {
                Some(s) => i < self.spec_sessions().len() && s@ == self.spec_sessions()[i as int],
                None => i >= self.spec_sessions().len(),
            },
    {
        if i < self.sessions.len() {
            Some(&self.sessions[i])
        } else {
            None
        }
    }
}


/// How a segmentation state relates to the records accepted so far: the
/// concatenation of all sessions is the record sequence in arrival order, no
/// session is empty, within a session the index never decreases from one
/// record to the next, each later session opens with an index strictly below
/// the index that closed the session before it, and the last-seen index is
/// the index of the last accepted record.
pub open spec fn seg_inv(
    records: Seq<SensedData>,
    ss: Seq<Seq<SensedData>>,
    li: Option<u32>,
) -> bool {
    &&& ss.flatten_alt() == records
    &&& forall|k: int| 0 <= k < ss.len() ==> (#[trigger] ss[k]).len() > 0
    &&& forall|k: int, j1: int, j2: int|
        0 <= k < ss.len() && 0 <= j1 <= j2 < ss[k].len() ==> (#[trigger] ss[k][j1]).index <= (
        #[trigger] ss[k][j2]).index
    &&& forall|k1: int, k2: int|
        0 <= k1 && k2 == k1 + 1 && k2 < ss.len() ==> (#[trigger] ss[k2])[0].index < (#[trigger] ss[k1]).last().index
    &&& (records.len() == 0 <==> ss.len() == 0)
    &&& (records.len() == 0 ==> li is None)
    &&& (records.len() > 0 ==> li == Some(records.last().index) && ss.last().last()
        == records.last())
}

/// One step preserves the segmentation invariant.
#[verifier::rlimit(100)]
proof fn lemma_segment_step_inv(
    records: Seq<SensedData>,
    ss: Seq<Seq<SensedData>>,
    li: Option<u32>,
    r: SensedData,
)
    requires
        seg_inv(records, ss, li),
    ensures
        seg_inv(records.push(r), segment_step((ss, li), r).0, segment_step((ss, li), r).1),
{
    let post = records.push(r);
    assert(post.drop_last() =~= records);
    if starts_new_session(li, r.index) {
        let nss = ss.push(seq![r]);
        assert(nss.drop_last() =~= ss);
        assert(nss.flatten_alt() == nss.drop_last().flatten_alt() + nss.last());
        assert(nss.flatten_alt() =~= post);
        assert forall|k: int| 0 <= k < nss.len() implies (#[trigger] nss[k]).len() > 0 by {
            if k < ss.len() {
                assert(nss[k] == ss[k]);
            }
        }
        assert forall|k: int, j1: int, j2: int|
            0 <= k < nss.len() && 0 <= j1 <= j2 < nss[k].len() implies (
        #[trigger] nss[k][j1]).index <= (#[trigger] nss[k][j2]).index by {
            if k < ss.len() {
                assert(nss[k] == ss[k]);
                assert(ss[k][j1].index <= ss[k][j2].index);
            }
        }
        assert forall|k1: int, k2: int|
            0 <= k1 && k2 == k1 + 1 && k2 < nss.len() implies (#[trigger] nss[k2])[0].index < (
        #[trigger] nss[k1]).last().index by {
            if k2 < ss.len() {
                assert(nss[k2] == ss[k2] && nss[k1] == ss[k1]);
                assert(ss[k2][0].index < ss[k1].last().index);
            } else {
                assert(ss.len() > 0);
                assert(records.len() > 0);
                assert(li == Some(records.last().index));
                assert(nss[k2] == seq![r]);
                assert(nss[k1] == ss.last());
                assert(ss.last().last() == records.last());
            }
        }
    } else {
        assert(li is Some);
        assert(records.len() > 0 && ss.len() > 0);
        let n = ss.len() as int;
        let grown = ss.last().push(r);
        let nss = ss.update(n - 1, grown);
        assert(nss.len() == n);
        assert(nss.last() == grown);
        assert(nss.drop_last() =~= ss.drop_last());
        assert(nss.flatten_alt() == nss.drop_last().flatten_alt() + grown);
        assert(ss.flatten_alt() == ss.drop_last().flatten_alt() + ss.last());
        assert(nss.flatten_alt() =~= ss.flatten_alt().push(r));
        assert(nss.flatten_alt() =~= post);
        assert forall|k: int| 0 <= k < nss.len() implies (#[trigger] nss[k]).len() > 0 by {
            if k < n - 1 {
                assert(nss[k] == ss[k]);
            } else {
                assert(nss[k] == grown);
            }
        }
        assert forall|k: int, j1: int, j2: int|
            0 <= k < nss.len() && 0 <= j1 <= j2 < nss[k].len() implies (
        #[trigger] nss[k][j1]).index <= (#[trigger] nss[k][j2]).index by {
            if k < n - 1 {
                assert(nss[k] == ss[k]);
                assert(ss[k][j1].index <= ss[k][j2].index);
            } else {
                assert(nss[k] == grown);
                let m = ss[n - 1].len() as int;
                if j2 < m {
                    assert(grown[j1] == ss[n - 1][j1] && grown[j2] == ss[n - 1][j2]);
                    assert(ss[n - 1][j1].index <= ss[n - 1][j2].index);
                } else if j1 < m {
                    assert(grown[j2] == r);
                    assert(grown[j1] == ss[n - 1][j1]);
                    assert(ss[n - 1][j1].index <= ss[n - 1][m - 1].index);
                    assert(ss[n - 1][m - 1] == ss.last().last());
                    assert(ss.last().last() == records.last());
                    assert(li == Some(records.last().index));
                }
            }
        }
        assert forall|k1: int, k2: int|
            0 <= k1 && k2 == k1 + 1 && k2 < nss.len() implies (#[trigger] nss[k2])[0].index < (
        #[trigger] nss[k1]).last().index by {
            assert(ss[k2][0].index < ss[k1].last().index);
            assert(ss[k2].len() > 0);
            if k2 == n - 1 {
                assert(nss[k2] == grown);
                assert(grown[0] == ss[k2][0]);
                assert(nss[k1] == ss[k1]);
            } else {
                assert(nss[k2] == ss[k2]);
                assert(nss[k1] == ss[k1]);
            }
        }
        assert(nss.last().last() == r);
    }
}

/// The state reached from an empty store satisfies the invariant.
#[verifier::rlimit(100)]
proof fn lemma_segment_state_inv(records: Seq<SensedData>)
    ensures
        seg_inv(records, segment_state(records).0, segment_state(records).1),
    decreases records.len(),
{
    if records.len() == 0 {
        assert(Seq::<Seq<SensedData>>::empty().flatten_alt() =~= records);
    } else {
        let p = records.drop_last();
        let r = records.last();
        lemma_segment_state_inv(p);
        lemma_segment_step_inv(p, segment_state(p).0, segment_state(p).1, r);
        assert(p.push(r) =~= records);
    }
}

/// Sessions partition the accepted records exactly where the sequence index
/// decreases; see [`seg_inv`] for the exact statement.
#[verifier::rlimit(100)]
pub proof fn lemma_segmentation(records: Seq<SensedData>)
    ensures
        seg_inv(records, segment(records), segment_state(records).1),
        segment(records).flatten() == records,
{
    lemma_segment_state_inv(records);
    segment(records).lemma_flatten_and_flatten_alt_are_equivalent();
    assert(segment(records).flatten() =~= records);
}

impl Default for MissionData {
    /// The same empty store as [`MissionData::new`].
    fn default() -> (r: Self)
        ensures
            r.wf(),
            r.spec_state() == (Seq::<Seq<SensedData>>::empty(), Option::<u32>::None),
            r.spec_sessions() == Seq::<Seq<SensedData>>::empty(),
            r.spec_last_index() is None,
    {
        MissionData::new()
    }
}

} // verus!
