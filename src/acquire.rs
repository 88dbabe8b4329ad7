use vstd::prelude::*;

use crate::curve::{curve_of_frame, decode_frame, decodes_to, read_one_curve_from_reports, CurveData, CurveError, DualCurveData};
use crate::frame::{report_views, scan, step, FrameReassembler, FrameState};
use crate::normalize::pair_count;

verus! {

/// `after` is `before` with the slot of `channel` replaced by the curve
/// decoded from `data`, the other slot untouched.
pub open spec fn published(before: DualCurveData, after: DualCurveData, channel: u8, data: Seq<u8>) -> bool {
    if channel == 0 {
        &&& after.channel0 is Some
        &&& curve_of_frame(after.channel0->Some_0, channel, data)
        &&& after.channel1 == before.channel1
    } else {
        &&& after.channel1 is Some
        &&& curve_of_frame(after.channel1->Some_0, channel, data)
        &&& after.channel0 == before.channel0
    }
}

/// A frame of `channel` with bytes `data` decodes to a curve.
pub open spec fn decodable(channel: u8, data: Seq<u8>) -> bool {
    channel <= 1 && pair_count(data.len()) > 0
}

/// One iteration of replay: reads the next curve from `*cursor` on and
/// publishes it, returning its channel. On failure nothing is published, the
/// cause is returned, and the cursor goes back to the start of the reports
/// for the next attempt.
pub fn replay_step(reports: &[Vec<u8>], cursor: &mut usize, state: &mut DualCurveData) -> (r: Result<u8, CurveError>)
    ensures
        ({
            let (st, f, j) = scan(report_views(reports@), *old(cursor) as int, FrameState::Seeking);
            match r {
                Ok(ch) => {
                    &&& f is Some
                    &&& f->Some_0.0 == ch
                    &&& decodable(ch, f->Some_0.1)
                    &&& *final(cursor) as int == j
                    &&& published(*old(state), *final(state), ch, f->Some_0.1)
                },
                Err(e) => {
                    &&& *final(cursor) == 0
                    &&& *final(state) == *old(state)
                    &&& match f {
                        Some((ch, data)) => decodes_to(ch, data, Err(e)),
                        None => if st is Seeking {
                            e == CurveError::NoHeader
                        } else {
                            e == CurveError::Incomplete
                        },
                    }
                },
            }
        }),
{
    match read_one_curve_from_reports(reports, cursor) {
        Ok(curve) => {
            let ch = curve.channel;
            state.publish(curve);
            Ok(ch)
        },
        Err(e) => {
            *cursor = 0;
            Err(e)
        },
    }
}

/// One report of live acquisition: feeds it to the reassembler and, when it
/// completes a frame, decodes the frame and publishes the curve. Returns
/// `None` when no frame was completed, else the channel published or the
/// reason the frame was refused.
pub fn live_step(machine: &mut FrameReassembler, report: &[u8], state: &mut DualCurveData) -> (r: Option<Result<u8, CurveError>>)
    requires
        old(machine).wf(),
    ensures
        final(machine).wf(),
        ({
            let (next, out) = step(old(machine)@, report@);
            &&& final(machine)@ == next
            &&& match out {
                None => r is None && *final(state) == *old(state),
                Some((ch, data)) => match r {
                    None => false,
                    Some(Ok(c)) => c == ch && decodable(ch, data) && published(*old(state), *final(state), ch, data),
                    Some(Err(e)) => decodes_to(ch, data, Err(e)) && *final(state) == *old(state),
                },
            }
        }),
{
    match machine.push_report(report) {
        None => None,
        Some(frame) => match decode_frame(&frame) {
            Ok(curve) => {
                let ch = curve.channel;
                state.publish(curve);
                Some(Ok(ch))
            },
            Err(e) => Some(Err(e)),
        },
    }
}

} // verus!
