use vstd::prelude::*;

use crate::decode::{decodes, line_tokens, record_of};
use crate::mission::{segment_step, MissionData};
use crate::record::SensedData;

verus! {

// The live ingestion pipeline: a dedicated background worker loops over
// blocking, timeout-bounded line reads from the serial transport and applies
// each outcome to the store shared with the consumer. The transport, the
// thread and the shared lock live outside this crate; the decisions of each
// loop iteration are here, so the loop body around the blocking read is
// nothing but this step.

/// One iteration of the live reader loop, after the blocking read returned.
///
/// A read that produced a line decodes and places it; a failed or timed-out
/// read (`None`) is no data this iteration; a line that fails to decode is
/// dropped. None of these ends the loop: the worker goes on exactly until it
/// observes the cancellation flag set, checked after every read.
pub fn worker_step(store: &mut MissionData, read: Option<&str>, cancelled: bool) -> (cont: bool)
    requires
        old(store).wf(),
    ensures
        final(store).wf(),
        cont == !cancelled,
        match read {
            Some(line) => {
                if decodes(line@) {
                    exists|rec: SensedData|
                        #![auto]
                        record_of(line_tokens(line@), rec) && rec.wf() && final(store).spec_state()
                            == segment_step(old(store).spec_state(), rec)
                } else {
                    *final(store) == *old(store)
                }
            },
            None => *final(store) == *old(store),
        },
{
    match read {
        Some(line) => {
            let _ = store.parse_line(line);
        },
        None => {},
    }
    !cancelled
}

} // verus!
