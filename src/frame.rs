use vstd::prelude::*;

use crate::config::{FRAME_SIZE, HEADER_MAGIC_0, HEADER_MAGIC_1, REPORTS_PER_CURVE, REPORT_DATA_SIZE};
use crate::payload::{extract_payload, payload_of};

verus! {

/// Abstract state of frame reassembly.
pub enum FrameState {
    /// Looking for a header payload.
    Seeking,
    /// A header for `channel` was seen; `data` holds the payloads since then.
    Accumulating { channel: u8, data: Seq<u8> },
}

/// A payload that opens a frame: it starts with the two magic bytes and has
/// room for the channel byte that follows them.
pub open spec fn is_header(p: Seq<u8>) -> bool {
    &&& p.len() >= 3
    &&& p[0] == HEADER_MAGIC_0
    &&& p[1] == HEADER_MAGIC_1
}

/// A reachable state: while accumulating, the data is a whole number of
/// payloads and short of a full frame.
pub open spec fn state_wf(s: FrameState) -> bool {
    match s {
        FrameState::Seeking => true,
        FrameState::Accumulating { channel, data } => {
            &&& data.len() % (REPORT_DATA_SIZE as nat) == 0
            &&& data.len() < FRAME_SIZE
        },
    }
}

/// One step of reassembly on one report: the next state, and the completed
/// frame (channel, bytes) when this report finishes one. A report that yields
/// no payload leaves the state as it is.
pub open spec fn step(s: FrameState, report: Seq<u8>) -> (FrameState, Option<(u8, Seq<u8>)>) {
    match payload_of(report) {
        None => (s, None),
        Some(p) => match s {
            FrameState::Seeking => if is_header(p) {
                (FrameState::Accumulating { channel: p[2], data: Seq::empty() }, None)
            } else {
                (FrameState::Seeking, None)
            },
            FrameState::Accumulating { channel, data } => if (data + p).len() == FRAME_SIZE {
                (FrameState::Seeking, Some((channel, data + p)))
            } else {
                (FrameState::Accumulating { channel, data: data + p }, None)
            },
        },
    }
}

/// Reassembly over `reports` from index `i` in state `s`, stopping after the
/// first completed frame or at the end: the state reached, the frame if one
/// was completed, and the index of the first report not consumed.
pub open spec fn scan(reports: Seq<Seq<u8>>, i: int, s: FrameState) -> (FrameState, Option<(u8, Seq<u8>)>, int)
    decreases reports.len() - i,
{
    if i < 0 || i >= reports.len() {
        (s, None, i)
    } else {
        let (next, out) = step(s, reports[i]);
        match out {
            Some(f) => (next, Some(f), i + 1),
            None => scan(reports, i + 1, next),
        }
    }
}

/// The byte contents of a sequence of reports.
pub open spec fn report_views(reports: Seq<Vec<u8>>) -> Seq<Seq<u8>> {
    Seq::new(reports.len(), |i: int| reports[i]@)
}

/// A reassembled frame: the channel byte of its header and the payload bytes
/// that followed.
pub struct CurveFrame {
    pub channel: u8,
    pub data: Vec<u8>,
}

/// Why no frame could be read from a finite run of reports.
#[derive(Debug, Clone, Copy, PartialEq, Eq, Structural)]
pub enum FrameError {
    /// The reports ran out before a header was found.
    NoHeader,
    /// The reports ran out after a header, before the frame was complete.
    Incomplete,
}

/// Incremental frame reassembler, fed one report at a time.
pub struct FrameReassembler {
    accumulating: bool,
    channel: u8,
    data: Vec<u8>,
}

impl View for FrameReassembler {
    type V = FrameState;

    closed spec fn view(&self) -> FrameState {
        if self.accumulating {
            FrameState::Accumulating { channel: self.channel, data: self.data@ }
        } else {
            FrameState::Seeking
        }
    }
}

impl FrameReassembler {
    pub open spec fn wf(&self) -> bool {
        state_wf(self@)
    }

    /// A reassembler that is looking for a header.
    pub fn new() -> (r: Self)
        ensures
            r.wf(),
            r@ == FrameState::Seeking,
    {
        FrameReassembler { accumulating: false, channel: 0, data: Vec::new() }
    }

    /// Drops any partial frame and looks for a header again.
    pub fn reset(&mut self)
        ensures
            final(self).wf(),
            final(self)@ == FrameState::Seeking,
    {
        self.accumulating = false;
        self.data = Vec::new();
    }

    /// Feeds one report; returns the frame that it completes, if any.
    pub fn push_report(&mut self, report: &[u8]) -> (r: Option<CurveFrame>)
        requires
            old(self).wf(),
        ensures
            final(self).wf(),
            step(old(self)@, report@) == (final(self)@, match r {
                Some(f) => Some((f.channel, f.data@)),
                None => None::<(u8, Seq<u8>)>,
            }),
    {
        match extract_payload(report) {
            None => None,
            Some(p) => {
                if !self.accumulating {
                    if p.len() >= 3 && p[0] == HEADER_MAGIC_0 && p[1] == HEADER_MAGIC_1 {
                        self.accumulating = true;
                        self.channel = p[2];
                        self.data = Vec::new();
                        assert(self.data@ =~= Seq::<u8>::empty());
                    }
                    None
                } else {
                    let ghost before = self.data@;
                    let mut p = p;
                    self.data.append(&mut p);
                    assert(self.data@ =~= before + payload_of(report@)->Some_0);
                    if self.data.len() == FRAME_SIZE {
                        let mut data: Vec<u8> = Vec::new();
                        data.append(&mut self.data);
                        assert(data@ =~= before + payload_of(report@)->Some_0);
                        self.accumulating = false;
                        Some(CurveFrame { channel: self.channel, data })
                    } else {
                        None
                    }
                }
            },
        }
    }
}

/// Reads the next frame from a finite run of reports, starting at `*cursor`
/// with no partial frame. `*cursor` ends just past the last report consumed,
/// which is the end of the run when no frame was completed.
pub fn read_one_frame(reports: &[Vec<u8>], cursor: &mut usize) -> (r: Result<CurveFrame, FrameError>)
    ensures
        ({
            let (st, f, j) = scan(report_views(reports@), *old(cursor) as int, FrameState::Seeking);
            &&& *final(cursor) as int == j
            &&& match r {
                Ok(fr) => f == Some((fr.channel, fr.data@)),
                Err(FrameError::NoHeader) => f is None && st is Seeking,
                Err(FrameError::Incomplete) => f is None && st is Accumulating,
            }
        }),
{
    let ghost rs = report_views(reports@);
    let ghost start = *cursor as int;
    let mut machine = FrameReassembler::new();
    while *cursor < reports.len()
        invariant
            machine.wf(),
            start == *old(cursor) as int,
            start <= *cursor || reports@.len() <= start,
            rs == report_views(reports@),
            scan(rs, start, FrameState::Seeking) == scan(rs, *cursor as int, machine@),
        decreases reports@.len() - *cursor,
    {
        let i = *cursor;
        let ghost prev = machine@;
        assert(rs[i as int] == reports@[i as int]@);
        let out = machine.push_report(reports[i].as_slice());
        *cursor = i + 1;
        match out {
            Some(fr) => {
                assert(scan(rs, i as int, prev) == (machine@, Some((fr.channel, fr.data@)), i + 1));
                return Ok(fr);
            },
            None => {},
        }
    }
    if machine.accumulating {
        Err(FrameError::Incomplete)
    } else {
        Err(FrameError::NoHeader)
    }
}

/// The payloads of a run of reports, concatenated; reports without a
/// payload contribute nothing.
pub open spec fn payload_concat(reports: Seq<Seq<u8>>) -> Seq<u8>
    decreases reports.len(),
{
    if reports.len() == 0 {
        Seq::empty()
    } else {
        match payload_of(reports[0]) {
            Some(p) => p + payload_concat(reports.drop_first()),
            None => payload_concat(reports.drop_first()),
        }
    }
}

/// How many reports of a run carry a payload.
pub open spec fn payload_count(reports: Seq<Seq<u8>>) -> nat
    decreases reports.len(),
{
    if reports.len() == 0 {
        0
    } else if payload_of(reports[0]) is Some {
        1 + payload_count(reports.drop_first())
    } else {
        payload_count(reports.drop_first())
    }
}

/// The report carries a payload that opens a frame.
pub open spec fn is_header_report(report: Seq<u8>) -> bool {
    payload_of(report) is Some && is_header(payload_of(report)->Some_0)
}

/// While seeking, reports that open no frame are passed over.
proof fn lemma_scan_skips(reports: Seq<Seq<u8>>, i: int, j: int)
    requires
        0 <= i <= j <= reports.len(),
        forall|m: int| i <= m < j ==> !is_header_report(#[trigger] reports[m]),
    ensures
        scan(reports, i, FrameState::Seeking) == scan(reports, j, FrameState::Seeking),
    decreases j - i,
{
    if i < j {
        assert(!is_header_report(reports[i]));
        lemma_scan_skips(reports, i + 1, j);
    }
}

/// While accumulating, a run of reports that all carry payloads and exactly
/// fill the frame completes it with their payloads, at the end of the run.
proof fn lemma_scan_fills(reports: Seq<Seq<u8>>, i: int, channel: u8, data: Seq<u8>)
    requires
        0 <= i < reports.len(),
        data.len() % 64 == 0,
        data.len() + 64 * (reports.len() - i) == FRAME_SIZE,
        forall|m: int| i <= m < reports.len() ==> (#[trigger] payload_of(reports[m])) is Some,
    ensures
        scan(reports, i, FrameState::Accumulating { channel, data }) == (
            FrameState::Seeking,
            Some((channel, data + payload_concat(reports.subrange(i, reports.len() as int)))),
            reports.len() as int,
        ),
    decreases reports.len() - i,
{
    let rest = reports.subrange(i, reports.len() as int);
    let p = payload_of(reports[i])->Some_0;
    assert(payload_of(reports[i]) is Some);
    assert(rest[0] == reports[i]);
    assert(rest.drop_first() =~= reports.subrange(i + 1, reports.len() as int));
    if i + 1 == reports.len() {
        assert(rest.drop_first() =~= Seq::<Seq<u8>>::empty());
        assert(payload_concat(rest.drop_first()) =~= Seq::<u8>::empty());
        assert(p + Seq::<u8>::empty() =~= p);
        assert(payload_concat(rest) =~= p);
    } else {
        lemma_scan_fills(reports, i + 1, channel, data + p);
        assert(data + p + payload_concat(rest.drop_first()) =~= data + payload_concat(rest));
    }
}

/// While accumulating, a run of reports with too few payloads to fill the
/// frame ends still accumulating, with no frame.
proof fn lemma_scan_runs_out(reports: Seq<Seq<u8>>, i: int, channel: u8, data: Seq<u8>)
    requires
        0 <= i <= reports.len(),
        data.len() % 64 == 0,
        data.len() + 64 * payload_count(reports.subrange(i, reports.len() as int)) < FRAME_SIZE,
    ensures
        scan(reports, i, FrameState::Accumulating { channel, data }).0 is Accumulating,
        scan(reports, i, FrameState::Accumulating { channel, data }).1 is None,
        scan(reports, i, FrameState::Accumulating { channel, data }).2 == reports.len(),
    decreases reports.len() - i,
{
    if i < reports.len() {
        let rest = reports.subrange(i, reports.len() as int);
        assert(rest[0] == reports[i]);
        assert(rest.drop_first() =~= reports.subrange(i + 1, reports.len() as int));
        match payload_of(reports[i]) {
            Some(p) => lemma_scan_runs_out(reports, i + 1, channel, data + p),
            None => lemma_scan_runs_out(reports, i + 1, channel, data),
        }
    }
}

/// A run of reports with one header, any number of reports before it that
/// open no frame, and exactly `REPORTS_PER_CURVE` reports after it that all
/// carry payloads, gives exactly one frame: of the channel named by the
/// header's third byte, holding the concatenated payloads, 2048 bytes long,
/// and read to the end of the run.
pub proof fn lemma_one_header_one_frame(before: Seq<Seq<u8>>, header: Seq<u8>, body: Seq<Seq<u8>>)
    requires
        forall|m: int| 0 <= m < before.len() ==> !is_header_report(#[trigger] before[m]),
        is_header_report(header),
        body.len() == REPORTS_PER_CURVE,
        forall|m: int| 0 <= m < body.len() ==> (#[trigger] payload_of(body[m])) is Some,
    ensures
        ({
            let reports = before.push(header) + body;
            let channel = payload_of(header)->Some_0[2];
            &&& scan(reports, 0, FrameState::Seeking) == (
                FrameState::Seeking,
                Some((channel, payload_concat(body))),
                reports.len() as int,
            )
            &&& payload_concat(body).len() == FRAME_SIZE
            &&& scan(reports, reports.len() as int, FrameState::Seeking).1 is None
        }),
{
    let reports = before.push(header) + body;
    let h = before.len() as int;
    let channel = payload_of(header)->Some_0[2];
    assert forall|m: int| 0 <= m < h implies !is_header_report(#[trigger] reports[m]) by {
        assert(reports[m] == before[m]);
    }
    lemma_scan_skips(reports, 0, h);
    assert(reports[h] == header);
    assert forall|m: int| h + 1 <= m < reports.len() implies (#[trigger] payload_of(reports[m])) is Some by {
        assert(reports[m] == body[m - h - 1]);
    }
    lemma_scan_fills(reports, h + 1, channel, Seq::empty());
    assert(reports.subrange(h + 1, reports.len() as int) =~= body);
    assert(Seq::<u8>::empty() + payload_concat(body) =~= payload_concat(body));
    lemma_payload_concat_len(body);
}

/// A run of reports with one header, reports before it that open no frame,
/// and fewer than `REPORTS_PER_CURVE` payloads after it, gives no frame: the
/// scan ends while accumulating, at the end of the run.
pub proof fn lemma_short_frame_incomplete(before: Seq<Seq<u8>>, header: Seq<u8>, body: Seq<Seq<u8>>)
    requires
        forall|m: int| 0 <= m < before.len() ==> !is_header_report(#[trigger] before[m]),
        is_header_report(header),
        payload_count(body) < REPORTS_PER_CURVE,
    ensures
        ({
            let reports = before.push(header) + body;
            &&& scan(reports, 0, FrameState::Seeking).0 is Accumulating
            &&& scan(reports, 0, FrameState::Seeking).1 is None
            &&& scan(reports, 0, FrameState::Seeking).2 == reports.len()
        }),
{
    let reports = before.push(header) + body;
    let h = before.len() as int;
    let channel = payload_of(header)->Some_0[2];
    assert forall|m: int| 0 <= m < h implies !is_header_report(#[trigger] reports[m]) by {
        assert(reports[m] == before[m]);
    }
    lemma_scan_skips(reports, 0, h);
    assert(reports[h] == header);
    assert(reports.subrange(h + 1, reports.len() as int) =~= body);
    lemma_scan_runs_out(reports, h + 1, channel, Seq::empty());
}

proof fn lemma_payload_concat_len(reports: Seq<Seq<u8>>)
    requires
        forall|m: int| 0 <= m < reports.len() ==> (#[trigger] payload_of(reports[m])) is Some,
    ensures
        payload_concat(reports).len() == REPORT_DATA_SIZE * reports.len(),
    decreases reports.len(),
{
    if reports.len() > 0 {
        assert(payload_of(reports[0]) is Some);
        assert forall|m: int| 0 <= m < reports.drop_first().len() implies (#[trigger] payload_of(
            reports.drop_first()[m],
        )) is Some by {
            assert(reports.drop_first()[m] == reports[m + 1]);
        }
        lemma_payload_concat_len(reports.drop_first());
    }
}

} // verus!
