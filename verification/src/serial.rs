//! Sequential composition of two prompt loops.
//!
//! When several threads prompt concurrently, a single process-wide lock
//! serializes them: one caller's entire prompt-retry sequence, all retries
//! included, completes before another's begins. What the lock enforces at
//! the I/O layer, this module states of the combined console transcript:
//! it is one caller's full transcript followed by the other's, never an
//! interleaving of the two.

use vstd::prelude::*;

use crate::convert::Target;
use crate::reader::{read_input, report_matches, transcript_spec, ReadEvent, ReadReport};

verus! {

/// Run two prompt loops one after the other — the order the process-wide
/// console lock enforces for two concurrent callers — and record the
/// combined console transcript. Each caller's loop keeps its own full
/// contract, and the combined transcript shows the first caller's writes
/// complete and uninterrupted before the second caller's.
#[verifier::loop_isolation(false)]
pub fn read_two_serialized<A: Target, B: Target>(
    label_a: &str,
    events_a: Vec<ReadEvent>,
    label_b: &str,
    events_b: Vec<ReadEvent>,
) -> (r: (ReadReport<A>, ReadReport<B>, Vec<String>))
    ensures
        report_matches::<A>(label_a@, events_a@, r.0),
        report_matches::<B>(label_b@, events_b@, r.1),
        r.2.deep_view() == transcript_spec::<A>(label_a@, events_a@) + transcript_spec::<B>(
            label_b@,
            events_b@,
        ),
{
    let report_a = read_input::<A>(label_a, events_a);
    let report_b = read_input::<B>(label_b, events_b);
    let mut combined: Vec<String> = Vec::new();
    proof {
        assert(combined.deep_view() =~= report_a.transcript.deep_view().subrange(0, 0));
    }
    let n_a: usize = report_a.transcript.len();
    let mut i: usize = 0;
    while i < n_a
        invariant
            i <= n_a,
            combined.deep_view() == report_a.transcript.deep_view().subrange(0, i as int),
        decreases n_a - i,
    {
        let entry = report_a.transcript[i].clone();
        combined.push(entry);
        proof {
            assert(combined.deep_view() =~= report_a.transcript.deep_view().subrange(
                0,
                i as int + 1,
            ));
        }
        i = i + 1;
    }
    proof {
        assert(report_a.transcript.deep_view().subrange(0, n_a as int) =~= report_a.transcript.deep_view());
    }
    let n_b: usize = report_b.transcript.len();
    let mut k: usize = 0;
    while k < n_b
        invariant
            k <= n_b,
            combined.deep_view() == report_a.transcript.deep_view()
                + report_b.transcript.deep_view().subrange(0, k as int),
        decreases n_b - k,
    {
        let ghost before = combined.deep_view();
        let entry = report_b.transcript[k].clone();
        combined.push(entry);
        proof {
            assert(combined.deep_view() =~= before.push(report_b.transcript@[k as int]@));
            assert(report_b.transcript.deep_view().subrange(0, k as int + 1)
                =~= report_b.transcript.deep_view().subrange(0, k as int).push(
                report_b.transcript@[k as int]@,
            ));
            assert(combined.deep_view() =~= report_a.transcript.deep_view()
                + report_b.transcript.deep_view().subrange(0, k as int + 1));
        }
        k = k + 1;
    }
    proof {
        assert(report_b.transcript.deep_view().subrange(0, n_b as int) =~= report_b.transcript.deep_view());
        assert(combined.deep_view() =~= report_a.transcript.deep_view()
            + report_b.transcript.deep_view());
    }
    (report_a, report_b, combined)
}

} // verus!
