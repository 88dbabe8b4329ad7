use ct220s::acquire::{live_step, replay_step};
use ct220s::capture::{parse_capture_lines, parse_hex_line, CaptureError, HexError};
use ct220s::command::Command;
use ct220s::curve::{decode_frame, read_one_curve_from_reports, CurveData, CurveError, DualCurveData};
use ct220s::frame::{read_one_frame, CurveFrame, FrameError, FrameReassembler};
use ct220s::normalize::{decode_pairs, parse_and_normalize_curve_data, NormalizeError};
use ct220s::payload::extract_payload;

fn header_report(channel: u8) -> Vec<u8> {
    let mut r = vec![0u8; 65];
    r[1] = 0xf0;
    r[2] = 0xff;
    r[3] = channel;
    r
}

fn data_report(fill: u8, with_id: bool) -> Vec<u8> {
    if with_id {
        let mut r = vec![fill; 65];
        r[0] = 0;
        r
    } else {
        vec![fill; 64]
    }
}

fn full_stream(channel: u8) -> Vec<Vec<u8>> {
    let mut reports = vec![header_report(channel)];
    for k in 0..32u8 {
        reports.push(data_report(k, k % 2 == 0));
    }
    reports
}

fn quads(pairs: &[(u16, u16)]) -> Vec<u8> {
    let mut out = Vec::new();
    for (c, v) in pairs {
        out.extend_from_slice(&c.to_le_bytes());
        out.extend_from_slice(&v.to_le_bytes());
    }
    out
}

#[test]
fn payload_drops_report_id_byte() {
    let report: Vec<u8> = (0..65u8).collect();
    let p = extract_payload(&report).unwrap();
    assert_eq!(p, (1..65u8).collect::<Vec<u8>>());
}

#[test]
fn payload_bare_is_identity() {
    let report: Vec<u8> = (100..164u8).collect();
    assert_eq!(extract_payload(&report).unwrap(), report);
}

#[test]
fn payload_other_lengths_rejected() {
    for len in [0usize, 1, 3, 63, 66, 128] {
        assert!(extract_payload(&vec![7u8; len]).is_none());
    }
}

#[test]
fn hex_line_decodes_and_strips() {
    assert_eq!(parse_hex_line("0a FF-10:Zz").unwrap(), vec![0x0a, 0xff, 0x10]);
    assert_eq!(parse_hex_line("").unwrap(), Vec::<u8>::new());
    assert_eq!(parse_hex_line("deadBEEF").unwrap(), vec![0xde, 0xad, 0xbe, 0xef]);
}

#[test]
fn hex_line_odd_digits_fail() {
    assert_eq!(parse_hex_line("abc"), Err(HexError::OddDigitCount));
    assert_eq!(parse_hex_line("0 1 2"), Err(HexError::OddDigitCount));
}

#[test]
fn capture_skips_comments_and_blank_lines() {
    let lines: Vec<String> = vec![
        "# recorded capture".to_string(),
        "".to_string(),
        "   ".to_string(),
        "  # indented comment abc".to_string(),
        "01 02".to_string(),
        "zz".to_string(),
        "ff".to_string(),
    ];
    let reports = parse_capture_lines(&lines).unwrap();
    assert_eq!(reports, vec![vec![0x01, 0x02], vec![0xff]]);
}

#[test]
fn capture_odd_line_fails_load() {
    let lines: Vec<String> = vec!["0102".to_string(), "# a".to_string(), "123".to_string(), "45".to_string()];
    assert_eq!(parse_capture_lines(&lines), Err(CaptureError::OddDigitCount { line: 2 }));
}

#[test]
fn capture_without_reports_fails_load() {
    let lines: Vec<String> = vec!["# only a comment".to_string(), "".to_string()];
    assert_eq!(parse_capture_lines(&lines), Err(CaptureError::NoData));
    assert_eq!(parse_capture_lines(&Vec::new()), Err(CaptureError::NoData));
}

#[test]
fn one_header_gives_one_frame() {
    let reports = full_stream(1);
    let mut cursor: usize = 0;
    let frame = read_one_frame(&reports, &mut cursor).unwrap();
    assert_eq!(frame.channel, 1);
    assert_eq!(frame.data.len(), 2048);
    assert_eq!(cursor, 33);
    assert_eq!(frame.data[0], 0);
    assert_eq!(frame.data[64], 1);
    assert_eq!(frame.data[2047], 31);
    assert!(matches!(read_one_frame(&reports, &mut cursor), Err(FrameError::NoHeader)));
    assert_eq!(cursor, 33);
}

#[test]
fn header_payload_inside_frame_is_data() {
    let mut reports = vec![data_report(9, false), vec![1, 2, 3], header_report(0)];
    reports.push(header_report(1));
    for k in 0..31u8 {
        reports.push(data_report(k, false));
    }
    let mut cursor: usize = 0;
    let frame = read_one_frame(&reports, &mut cursor).unwrap();
    assert_eq!(frame.channel, 0);
    assert_eq!(frame.data.len(), 2048);
    assert_eq!(&frame.data[0..4], &[0xf0, 0xff, 1, 0]);
}

#[test]
fn unusable_reports_are_skipped() {
    let mut reports = vec![vec![0xf0, 0xff, 0], header_report(0)];
    for k in 0..32u8 {
        reports.push(vec![5u8; 10]);
        reports.push(data_report(k, true));
    }
    let mut cursor: usize = 0;
    let frame = read_one_frame(&reports, &mut cursor).unwrap();
    assert_eq!(frame.channel, 0);
    assert_eq!(frame.data.len(), 2048);
    assert_eq!(cursor, reports.len());
}

#[test]
fn short_frame_is_incomplete() {
    let mut reports = vec![header_report(0)];
    for k in 0..31u8 {
        reports.push(data_report(k, false));
    }
    let mut cursor: usize = 0;
    assert!(matches!(read_one_frame(&reports, &mut cursor), Err(FrameError::Incomplete)));
    assert_eq!(cursor, reports.len());
}

#[test]
fn no_header_found() {
    let reports = vec![data_report(1, false), data_report(2, true)];
    let mut cursor: usize = 0;
    assert!(matches!(read_one_frame(&reports, &mut cursor), Err(FrameError::NoHeader)));
    assert_eq!(cursor, 2);
}

#[test]
fn normalizes_worked_example() {
    let data = vec![0x02, 0x00, 0x02, 0x00, 0x03, 0x00, 0x03, 0x00, 0x04, 0x00, 0x01, 0x00];
    let (currents, voltages) = decode_pairs(&data);
    assert_eq!(currents, vec![2, 3, 4]);
    assert_eq!(voltages, vec![2, 3, 1]);
    let n = parse_and_normalize_curve_data(&data).unwrap();
    assert_eq!(n.voltage, vec![0, 1, -1]);
    assert_eq!(n.current, vec![-1, 0, 1]);
    assert_eq!(n.scale, 1);
}

#[test]
fn decodes_little_endian() {
    let data = vec![0x34, 0x12, 0xcd, 0xab, 0xff, 0xff, 0x00, 0x01, 0x99];
    let (currents, voltages) = decode_pairs(&data);
    assert_eq!(currents, vec![0x1234, 0xffff]);
    assert_eq!(voltages, vec![0xabcd, 0x0100]);
}

#[test]
fn all_equal_input_gives_zeros() {
    let data = quads(&[(500, 700); 9]);
    let n = parse_and_normalize_curve_data(&data).unwrap();
    assert_eq!(n.scale, 1);
    assert!(n.voltage.iter().all(|v| *v == 0));
    assert!(n.current.iter().all(|c| *c == 0));
    assert_eq!(n.voltage.len(), 9);
}

#[test]
fn offset_does_not_change_output() {
    let base = [(10u16, 400u16), (30, 100), (20, 300), (50, 200), (0, 900)];
    let shifted: Vec<(u16, u16)> = base.iter().map(|(c, v)| (c + 1000, v + 7)).collect();
    let a = parse_and_normalize_curve_data(&quads(&base)).unwrap();
    let b = parse_and_normalize_curve_data(&quads(&shifted)).unwrap();
    assert_eq!(a.voltage, b.voltage);
    assert_eq!(a.current, b.current);
    assert_eq!(a.scale, b.scale);
    assert_eq!(a.current, vec![-10, 10, 0, 30, -20]);
    assert_eq!(a.voltage, vec![100, -200, 0, -100, 600]);
    assert_eq!(a.scale, 600);
}

#[test]
fn even_count_takes_lower_middle() {
    let n = parse_and_normalize_curve_data(&quads(&[(4, 1), (1, 2), (3, 3), (2, 4)])).unwrap();
    assert_eq!(n.current, vec![1, -2, 0, -1]);
    assert_eq!(n.voltage, vec![-2, -1, 0, 1]);
    assert_eq!(n.scale, 2);
}

#[test]
fn partial_quad_dropped_and_count_capped() {
    let mut data = quads(&[(1, 1); 600]);
    data.push(3);
    data[0] = 9;
    let n = parse_and_normalize_curve_data(&data).unwrap();
    assert_eq!(n.current.len(), 512);
    assert_eq!(n.voltage.len(), 512);
    assert_eq!(n.current[0], 8);
    assert_eq!(n.scale, 8);
}

#[test]
fn too_short_buffer_has_no_data() {
    assert!(matches!(parse_and_normalize_curve_data(&[1, 2, 3]), Err(NormalizeError::NoData)));
    assert!(matches!(parse_and_normalize_curve_data(&[]), Err(NormalizeError::NoData)));
}

#[test]
fn unknown_channel_is_refused() {
    let frame = CurveFrame { channel: 2, data: vec![0u8; 2048] };
    assert!(matches!(decode_frame(&frame), Err(CurveError::UnknownChannel(2))));
    let frame = CurveFrame { channel: 1, data: vec![0u8; 2] };
    assert!(matches!(decode_frame(&frame), Err(CurveError::NoData)));
}

fn curve(channel: u8, v: i32) -> CurveData {
    CurveData { voltage: vec![v], current: vec![-v], scale: 1, channel }
}

#[test]
fn publish_keeps_other_channel() {
    let mut state = DualCurveData::new();
    assert!(state.channel0.is_none() && state.channel1.is_none());
    state.publish(curve(1, 5));
    assert!(state.channel0.is_none());
    state.publish(curve(0, 3));
    assert_eq!(state.channel1.as_ref().unwrap().voltage, vec![5]);
    state.publish(curve(0, 4));
    assert_eq!(state.channel0.as_ref().unwrap().voltage, vec![4]);
    assert_eq!(state.channel1.as_ref().unwrap().voltage, vec![5]);
    let snap = state.snapshot();
    assert_eq!(snap.channel0.as_ref().unwrap().current, vec![-4]);
    assert_eq!(snap.channel1.as_ref().unwrap().channel, 1);
}

#[test]
fn replay_publishes_then_resets_on_failure() {
    let reports = full_stream(0);
    let mut cursor: usize = 0;
    let mut state = DualCurveData::new();
    assert_eq!(replay_step(&reports, &mut cursor, &mut state), Ok(0));
    assert_eq!(cursor, 33);
    let first = state.channel0.as_ref().unwrap();
    assert_eq!(first.voltage.len(), 512);
    assert_eq!(replay_step(&reports, &mut cursor, &mut state), Err(CurveError::NoHeader));
    assert_eq!(cursor, 0);
    assert!(state.channel1.is_none());
    assert_eq!(replay_step(&reports, &mut cursor, &mut state), Ok(0));
}

#[test]
fn read_curve_from_reports_decodes() {
    let reports = full_stream(1);
    let mut cursor: usize = 0;
    let c = read_one_curve_from_reports(&reports, &mut cursor).unwrap();
    assert_eq!(c.channel, 1);
    assert_eq!(c.current.len(), 512);
    assert_eq!(c.voltage.len(), c.current.len());
}

#[test]
fn live_step_completes_frame() {
    let reports = full_stream(1);
    let mut machine = FrameReassembler::new();
    let mut state = DualCurveData::new();
    for r in &reports[..32] {
        assert!(live_step(&mut machine, r, &mut state).is_none());
    }
    assert_eq!(live_step(&mut machine, &reports[32], &mut state), Some(Ok(1)));
    assert!(state.channel1.is_some());
    assert!(state.channel0.is_none());
    machine.reset();
    assert!(machine.push_report(&reports[1]).is_none());
}

#[test]
fn command_reports() {
    let r = Command::SetVolt(1).to_report();
    assert_eq!(r.len(), 65);
    assert_eq!((r[0], r[1], r[2]), (0, 0xFD, 1));
    assert!(r[3..].iter().all(|b| *b == 0));
    assert_eq!(Command::SetFreq(2).opcode_and_index(), (0xFC, 2));
    assert_eq!(Command::SetRes(0).opcode_and_index(), (0xFB, 0));
    assert_eq!(Command::SetMode(1).opcode_and_index(), (0xFA, 1));
}
