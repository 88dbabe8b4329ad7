use vstd::prelude::*;

use crate::config::{READ_SIZE, REPORT_DATA_SIZE};

verus! {

/// The payload carried by a report: the report without its leading ID byte
/// when it has the device's length, the report itself when it has the bare
/// length, and nothing for any other length.
pub open spec fn payload_of(report: Seq<u8>) -> Option<Seq<u8>> {
    if report.len() == READ_SIZE {
        Some(report.drop_first())
    } else if report.len() == REPORT_DATA_SIZE {
        Some(report)
    } else {
        None
    }
}

/// Turns a report into its canonical payload, or `None` when its length is
/// neither of the two recognised sizes.
pub fn extract_payload(report: &[u8]) -> (r: Option<Vec<u8>>)
    ensures
        match r {
            Some(p) => payload_of(report@) == Some(p@),
            None => payload_of(report@) is None,
        },
        r is Some ==> r->0@.len() == REPORT_DATA_SIZE,
{
    if report.len() == READ_SIZE {
        let mut out: Vec<u8> = Vec::with_capacity(REPORT_DATA_SIZE);
        let mut i: usize = 1;
        while i < report.len()
            invariant
                1 <= i <= report@.len(),
                report@.len() == READ_SIZE,
                out@ == report@.subrange(1, i as int),
            decreases report@.len() - i,
        {
            out.push(report[i]);
            i += 1;
        }
        assert(out@ =~= report@.drop_first());
        Some(out)
    } else if report.len() == REPORT_DATA_SIZE {
        let mut out: Vec<u8> = Vec::with_capacity(REPORT_DATA_SIZE);
        let mut i: usize = 0;
        while i < report.len()
            invariant
                0 <= i <= report@.len(),
                out@ == report@.subrange(0, i as int),
            decreases report@.len() - i,
        {
            out.push(report[i]);
            i += 1;
        }
        assert(out@ =~= report@);
        Some(out)
    } else {
        None
    }
}

} // verus!
