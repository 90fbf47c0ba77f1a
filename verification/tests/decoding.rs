use gipbridge::gip::{
    dump_line, is_input_report, parse_gip_input_packet, select_best_offset, GipParseError,
    LayoutDetector, LayoutStats, ParsedInput, LAYOUT_MIN_SAMPLES,
};

fn report(block_at: usize, block: [u8; 14], tail: usize) -> Vec<u8> {
    let mut v = vec![0x20, 0x00];
    v.extend(std::iter::repeat(0xEE).take(block_at));
    v.extend_from_slice(&block);
    v.extend(std::iter::repeat(0xEE).take(tail));
    v
}

#[test]
fn parses_block_at_offset_zero() {
    let block = [
        0x10, 0x01, // buttons 0x0110
        0xFF, 0x03, // lt 1023
        0x00, 0xFC, // rt raw 0xFC00 -> low 10 bits 0
        0x00, 0x80, // lx -32768
        0xFF, 0x7F, // ly 32767
        0xFF, 0xFF, // rx -1
        0x34, 0x12, // ry 0x1234
    ];
    let pkt = report(0, block, 0);
    let p = parse_gip_input_packet(&pkt, 0).unwrap();
    assert_eq!(
        p,
        ParsedInput { buttons: 0x0110, lt10: 1023, rt10: 0, lx: -32768, ly: 32767, rx: -1, ry: 0x1234 }
    );
}

#[test]
fn parses_block_at_later_offset_and_ignores_trailing_bytes() {
    let block = [0x04, 0x00, 0x05, 0x04, 0x06, 0x00, 0x01, 0x00, 0x02, 0x00, 0x03, 0x00, 0x04, 0x00];
    let pkt = report(4, block, 7);
    let p = parse_gip_input_packet(&pkt, 4).unwrap();
    assert_eq!(p.buttons, 4);
    assert_eq!(p.lt10, 5); // 0x0405 masked to 10 bits
    assert_eq!(p.rt10, 6);
    assert_eq!((p.lx, p.ly, p.rx, p.ry), (1, 2, 3, 4));
}

#[test]
fn parse_errors() {
    assert_eq!(parse_gip_input_packet(&[], 0), Err(GipParseError::TooShort));
    assert_eq!(parse_gip_input_packet(&[0x20], 0), Err(GipParseError::TooShort));
    assert_eq!(parse_gip_input_packet(&[0x03, 0x00, 0, 0], 0), Err(GipParseError::UnexpectedCommand(0x03)));
    let pkt = report(0, [0; 14], 0);
    assert_eq!(
        parse_gip_input_packet(&pkt, 2),
        Err(GipParseError::PayloadTooShort { len: 14, need: 16 })
    );
    assert!(parse_gip_input_packet(&pkt, 0).is_ok());
}

#[test]
fn input_report_filter() {
    assert!(is_input_report(&[0x20]));
    assert!(!is_input_report(&[]));
    assert!(!is_input_report(&[0x03, 0x20]));
}

#[test]
fn dump_line_is_lowercase_hex() {
    assert_eq!(dump_line(&[0x20, 0x00, 0xAB, 0x0F]).as_str(), "RAW 2000ab0f");
    assert_eq!(dump_line(&[]).as_str(), "RAW ");
}

#[test]
fn layout_stats_counts() {
    let mut s = LayoutStats::new();
    assert_eq!(s.tally().samples, 0);
    // too short: nothing changes
    s.observe(&[0u8; 13], 0);
    assert_eq!(s.tally(), LayoutStats::new().tally());
    // buttons 0x00F0 (4 bits), triggers quiet and 10-bit, axes centred
    let a = [0xF0, 0x00, 0x02, 0x00, 0x03, 0x00, 0x10, 0x00, 0x10, 0x00, 0x10, 0x00, 0x10, 0x00];
    s.observe(&a, 0);
    let t = s.tally();
    assert_eq!(t.samples, 1);
    assert_eq!(t.trig_hi_zero, 1);
    assert_eq!(t.trig_activity, 0);
    assert_eq!(t.axes_non_extreme, 1);
    assert_eq!(t.axes_activity, 0);
    assert_eq!(t.buttons_change_count, 0);
    assert_eq!(t.buttons_popcount_sum, 4);
    assert_eq!(t.last_buttons, Some(0x00F0));
    // buttons change, trigger high bits set and active, an axis saturated and one active
    let b = [0x01, 0x00, 0x00, 0x04, 0x05, 0x00, 0xFF, 0x7F, 0x01, 0x02, 0x00, 0x00, 0x00, 0x00];
    s.observe(&b, 0);
    let t = s.tally();
    assert_eq!(t.samples, 2);
    assert_eq!(t.trig_hi_zero, 1);
    assert_eq!(t.trig_activity, 1);
    assert_eq!(t.axes_non_extreme, 1);
    assert_eq!(t.axes_activity, 1);
    assert_eq!(t.buttons_change_count, 1);
    assert_eq!(t.buttons_popcount_sum, 5);
    assert_eq!(s.samples, 2);
}

#[test]
fn axis_at_i16_min_is_not_activity() {
    let mut s = LayoutStats::new();
    let a = [0, 0, 0, 0, 0, 0, 0x00, 0x80, 0, 0, 0, 0, 0, 0];
    s.observe(&a, 0);
    let t = s.tally();
    assert_eq!(t.axes_activity, 0);
    assert_eq!(t.axes_non_extreme, 0);
    let mut s = LayoutStats::new();
    let a = [0, 0, 0, 0, 0, 0, 0xFF, 0xFD, 0, 0, 0, 0, 0, 0]; // -513
    s.observe(&a, 0);
    assert_eq!(s.tally().axes_activity, 1);
}

#[test]
fn detector_observes_even_offsets() {
    let mut d = LayoutDetector::new();
    assert_eq!(d.len(), 0);
    assert_eq!(d.max_samples(), 0);
    let payload = [0u8; 19]; // max offset 5: offsets 0, 2, 4 observed
    d.observe_payload(&payload);
    assert_eq!(d.len(), 6);
    let ts = d.tallies();
    let samples: Vec<u32> = ts.iter().map(|t| t.samples).collect();
    assert_eq!(samples, vec![1, 0, 1, 0, 1, 0]);
    // a short payload still keeps offset 0 but observes nothing
    d.observe_payload(&[0u8; 3]);
    assert_eq!(d.len(), 6);
    assert_eq!(d.max_samples(), 1);
    assert!(!d.ready(true));
    for _ in 1..LAYOUT_MIN_SAMPLES {
        d.observe_payload(&payload);
    }
    assert_eq!(d.max_samples(), LAYOUT_MIN_SAMPLES);
    assert!(d.ready(true));
    assert!(!d.ready(false));
}

#[test]
fn best_offset_is_even_and_last_among_ties() {
    assert_eq!(select_best_offset(&[]), None);
    assert_eq!(select_best_offset(&[5]), Some(0));
    assert_eq!(select_best_offset(&[1, 100, 3, 100, 2]), Some(2));
    assert_eq!(select_best_offset(&[7, 0, 7, 0, 7, 9]), Some(4));
    assert_eq!(select_best_offset(&[i32::MIN / 2, 0, 10]), Some(2));
}
