use vstd::prelude::*;

use crate::frame::{read_one_frame, report_views, scan, CurveFrame, FrameError, FrameState};
use crate::normalize::{normalized, pair_count, parse_and_normalize_curve_data, NormalizeError, NormalizedCurve};

verus! {

/// The latest curve of one channel. The display value of sample `i` is
/// `voltage[i] / scale` and `current[i] / scale`.
pub struct CurveData {
    pub voltage: Vec<i32>,
    pub current: Vec<i32>,
    pub scale: u32,
    pub channel: u8,
}

/// The most recent curve of each of the two channels.
pub struct DualCurveData {
    pub channel0: Option<CurveData>,
    pub channel1: Option<CurveData>,
}

/// Why an acquisition attempt produced no curve.
#[derive(Debug, Clone, Copy, PartialEq, Eq, Structural)]
pub enum CurveError {
    /// No header before the end of the reports.
    NoHeader,
    /// A header, but not enough payloads after it.
    Incomplete,
    /// The frame held no complete sample quad.
    NoData,
    /// The header named a channel other than 0 and 1.
    UnknownChannel(u8),
}

/// The same curve, field by field.
pub open spec fn same_curve(a: CurveData, b: CurveData) -> bool {
    &&& a.voltage@ == b.voltage@
    &&& a.current@ == b.current@
    &&& a.scale == b.scale
    &&& a.channel == b.channel
}

/// The same slot contents: both empty, or both holding the same curve.
pub open spec fn same_slot(a: Option<CurveData>, b: Option<CurveData>) -> bool {
    match (a, b) {
        (None, None) => true,
        (Some(x), Some(y)) => same_curve(x, y),
        _ => false,
    }
}

/// `c` is the curve decoded from a frame of `channel` with bytes `data`.
pub open spec fn curve_of_frame(c: CurveData, channel: u8, data: Seq<u8>) -> bool {
    &&& c.channel == channel
    &&& normalized(data, NormalizedCurve { voltage: c.voltage, current: c.current, scale: c.scale })
}

/// The outcome of decoding a frame of `channel` with bytes `data`.
pub open spec fn decodes_to(channel: u8, data: Seq<u8>, r: Result<CurveData, CurveError>) -> bool {
    if channel > 1 {
        r == Err::<CurveData, CurveError>(CurveError::UnknownChannel(channel))
    } else if pair_count(data.len()) == 0 {
        r == Err::<CurveData, CurveError>(CurveError::NoData)
    } else {
        r is Ok && curve_of_frame(r->Ok_0, channel, data)
    }
}

impl CurveData {
    /// A copy of this curve.
    pub fn duplicate(&self) -> (r: CurveData)
        ensures
            same_curve(r, *self),
    {
        let voltage = self.voltage.clone();
        let current = self.current.clone();
        assert(voltage@ =~= self.voltage@);
        assert(current@ =~= self.current@);
        CurveData { voltage, current, scale: self.scale, channel: self.channel }
    }
}

impl DualCurveData {
    /// Both slots empty.
    pub fn new() -> (r: Self)
        ensures
            r.channel0 is None,
            r.channel1 is None,
    {
        DualCurveData { channel0: None, channel1: None }
    }

    /// Replaces the slot of the curve's channel with the curve: channel 0
    /// goes to the first slot, any other to the second. The other slot is
    /// left as it was.
    pub fn publish(&mut self, curve: CurveData)
        ensures
            curve.channel == 0 ==> final(self).channel0 == Some(curve) && final(self).channel1
                == old(self).channel1,
            curve.channel != 0 ==> final(self).channel1 == Some(curve) && final(self).channel0
                == old(self).channel0,
    {
        if curve.channel == 0 {
            self.channel0 = Some(curve);
        } else {
            self.channel1 = Some(curve);
        }
    }

    /// A copy of both slots, taken together.
    pub fn snapshot(&self) -> (r: DualCurveData)
        ensures
            same_slot(r.channel0, self.channel0),
            same_slot(r.channel1, self.channel1),
    {
        let channel0 = match &self.channel0 {
            Some(c) => Some(c.duplicate()),
            None => None,
        };
        let channel1 = match &self.channel1 {
            Some(c) => Some(c.duplicate()),
            None => None,
        };
        DualCurveData { channel0, channel1 }
    }
}

/// Decodes a reassembled frame into the curve of its channel. Only channels
/// 0 and 1 exist; a frame naming another is refused.
pub fn decode_frame(frame: &CurveFrame) -> (r: Result<CurveData, CurveError>)
    ensures
        decodes_to(frame.channel, frame.data@, r),
{
    if frame.channel > 1 {
        return Err(CurveError::UnknownChannel(frame.channel));
    }
    match parse_and_normalize_curve_data(frame.data.as_slice()) {
        Ok(n) => Ok(CurveData { voltage: n.voltage, current: n.current, scale: n.scale, channel: frame.channel }),
        Err(NormalizeError::NoData) => Err(CurveError::NoData),
    }
}

/// Reads and decodes the next curve from a finite run of reports, starting at
/// `*cursor`. `*cursor` ends just past the last report consumed.
pub fn read_one_curve_from_reports(reports: &[Vec<u8>], cursor: &mut usize) -> (r: Result<CurveData, CurveError>)
    ensures
        ({
            let (st, f, j) = scan(report_views(reports@), *old(cursor) as int, FrameState::Seeking);
            &&& *final(cursor) as int == j
            &&& match f {
                Some((ch, data)) => decodes_to(ch, data, r),
                None => if st is Seeking {
                    r == Err::<CurveData, CurveError>(CurveError::NoHeader)
                } else {
                    r == Err::<CurveData, CurveError>(CurveError::Incomplete)
                },
            }
        }),
{
    match read_one_frame(reports, cursor) {
        Ok(frame) => decode_frame(&frame),
        Err(FrameError::NoHeader) => Err(CurveError::NoHeader),
        Err(FrameError::Incomplete) => Err(CurveError::Incomplete),
    }
}

} // verus!
