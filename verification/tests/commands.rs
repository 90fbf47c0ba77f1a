use gipbridge::cli::{parse_override_vid_pid, parse_u16_maybe_hex, IntErrorKind, OverrideError, U16ParseError};
use gipbridge::controllers::{
    controller_candidates, find_known_controller, known_controller, list_line, list_lines,
    KNOWN_CONTROLLER_COUNT,
};
use gipbridge::dolphin_pipe::{pipe_path, retry_pipe_open, PipePathError};
use gipbridge::mapping::{button_events, button_name, decode_buttons, event_line, ButtonEvent, GcButton, GcButtons};
use gipbridge::usb::{select_interrupt_interface, EndpointInfo, InterfaceInfo};

#[test]
fn ids_in_hex_and_decimal() {
    assert_eq!(parse_u16_maybe_hex("0x20D6"), Ok(0x20D6));
    assert_eq!(parse_u16_maybe_hex("0X20d6"), Ok(0x20D6));
    assert_eq!(parse_u16_maybe_hex("20D6"), Ok(0x20D6));
    assert_eq!(parse_u16_maybe_hex("0x2079"), Ok(0x2079));
    assert_eq!(parse_u16_maybe_hex("2079"), Ok(2079));
    assert_eq!(parse_u16_maybe_hex("  8406\t\n"), Ok(8406));
    assert_eq!(parse_u16_maybe_hex("\u{3000}ff\u{a0}"), Ok(0xFF));
    assert_eq!(parse_u16_maybe_hex("+12"), Ok(0x12));
    assert_eq!(parse_u16_maybe_hex("65535"), Ok(65535));
}

#[test]
fn id_errors() {
    assert_eq!(parse_u16_maybe_hex(""), Err(U16ParseError::InvalidDecimal(IntErrorKind::Empty)));
    assert_eq!(parse_u16_maybe_hex("0x"), Err(U16ParseError::InvalidHex(IntErrorKind::Empty)));
    assert_eq!(parse_u16_maybe_hex("65536"), Err(U16ParseError::OutOfRange));
    assert_eq!(parse_u16_maybe_hex("0x10000"), Err(U16ParseError::OutOfRange));
    assert_eq!(parse_u16_maybe_hex("12g"), Err(U16ParseError::InvalidValue(IntErrorKind::InvalidDigit)));
    assert_eq!(parse_u16_maybe_hex("-1"), Err(U16ParseError::InvalidValue(IntErrorKind::InvalidDigit)));
    assert_eq!(parse_u16_maybe_hex("+"), Err(U16ParseError::InvalidValue(IntErrorKind::InvalidDigit)));
    assert_eq!(parse_u16_maybe_hex("0xAG"), Err(U16ParseError::InvalidHex(IntErrorKind::InvalidDigit)));
    assert_eq!(
        parse_u16_maybe_hex("99999999999"),
        Err(U16ParseError::InvalidDecimal(IntErrorKind::PosOverflow))
    );
    assert_eq!(
        parse_u16_maybe_hex("FFFFFFFFFZ"),
        Err(U16ParseError::InvalidHex(IntErrorKind::PosOverflow))
    );
    assert_eq!(parse_u16_maybe_hex("1 2"), Err(U16ParseError::InvalidValue(IntErrorKind::InvalidDigit)));
}

#[test]
fn every_listed_id_parses_back() {
    for i in 0..KNOWN_CONTROLLER_COUNT {
        let (vid, pid, _) = known_controller(i);
        assert_eq!(parse_u16_maybe_hex(&format!("0x{vid:04X}")), Ok(vid));
        assert_eq!(parse_u16_maybe_hex(&format!("0x{pid:04X}")), Ok(pid));
    }
}

#[test]
fn override_needs_both_ids() {
    assert_eq!(parse_override_vid_pid(None, None), Ok(None));
    assert_eq!(parse_override_vid_pid(Some("0x20D6"), None), Err(OverrideError::Unpaired));
    assert_eq!(parse_override_vid_pid(None, Some("1")), Err(OverrideError::Unpaired));
    assert_eq!(parse_override_vid_pid(Some("0x20D6"), Some("0x2079")), Ok(Some((0x20D6, 0x2079))));
    assert_eq!(
        parse_override_vid_pid(Some("zz"), Some("also bad")),
        Err(OverrideError::InvalidVid(U16ParseError::InvalidValue(IntErrorKind::InvalidDigit)))
    );
    assert_eq!(
        parse_override_vid_pid(Some("1"), Some("70000")),
        Err(OverrideError::InvalidPid(U16ParseError::OutOfRange))
    );
}

#[test]
fn controller_table_and_lines() {
    assert_eq!(known_controller(0), (0x20D6, 0x2079, "PowerA Xbox Series X Advantage Hall Effect Wired"));
    assert_eq!(find_known_controller(0x045E, 0x0B12), Some(KNOWN_CONTROLLER_COUNT - 1));
    assert_eq!(find_known_controller(0x20D6, 0x2079), Some(0));
    assert_eq!(find_known_controller(0x1234, 0x5678), None);
    assert_eq!(list_line(0).as_str(), "0x20D6:0x2079  PowerA Xbox Series X Advantage Hall Effect Wired");
    assert_eq!(list_line(8).as_str(), "0x0E6F:0x0139  PDP Afterglow Prismatic Wired Xbox One");
    let lines = list_lines();
    assert_eq!(lines.len(), KNOWN_CONTROLLER_COUNT);
    assert_eq!(lines[29].as_str(), "0x045E:0x0B12  Microsoft Xbox Series X|S Controller (wired)");
}

#[test]
fn development_device_is_tried_first() {
    let devs = [(0x045E, 0x0B12), (0x1234, 0x0001), (0x20D6, 0x2079), (0x0E6F, 0x0139), (0x20D6, 0x2079)];
    assert_eq!(controller_candidates(&devs), vec![2, 4, 3, 0]);
    assert_eq!(controller_candidates(&[(1, 2)]), Vec::<usize>::new());
    assert_eq!(controller_candidates(&[]), Vec::<usize>::new());
}

#[test]
fn pipe_paths() {
    assert_eq!(
        pipe_path(Some("/Users/me"), "powera").unwrap().as_str(),
        "/Users/me/Library/Application Support/Dolphin/Pipes/powera"
    );
    assert_eq!(
        pipe_path(Some("/Users/me/"), "p").unwrap().as_str(),
        "/Users/me/Library/Application Support/Dolphin/Pipes/p"
    );
    assert_eq!(pipe_path(Some(""), "p").unwrap().as_str(), "Library/Application Support/Dolphin/Pipes/p");
    assert_eq!(pipe_path(Some("/h"), "a/b"), Err(PipePathError::NameHasSlash));
    assert_eq!(pipe_path(Some("/h"), "a\0b"), Err(PipePathError::NameHasNul));
    assert_eq!(pipe_path(None, "a/\0"), Err(PipePathError::NameHasSlash));
    assert_eq!(pipe_path(None, "powera"), Err(PipePathError::HomeUnset));
    let p = std::path::PathBuf::from("/Users/me")
        .join("Library")
        .join("Application Support")
        .join("Dolphin")
        .join("Pipes")
        .join("x");
    assert_eq!(pipe_path(Some("/Users/me"), "x").unwrap().as_str(), p.to_str().unwrap());
}

#[test]
fn button_bits() {
    let s = decode_buttons(0x0004 | 0x0008 | 0x0010 | 0x0800);
    assert_eq!(
        s,
        GcButtons {
            a: true, b: false, x: false, y: false, z: true, start: true,
            d_up: false, d_down: false, d_left: false, d_right: true,
        }
    );
    let all = decode_buttons(0x0FFC);
    assert!(all.a && all.b && all.x && all.y && all.z && all.start && all.d_up && all.d_down && all.d_left && all.d_right);
    let none = decode_buttons(0xF003);
    assert_eq!(none, decode_buttons(0));
}

#[test]
fn button_events_and_lines() {
    let prev = decode_buttons(0x0010 | 0x0100); // A, D_UP
    let now = decode_buttons(0x0020 | 0x0100 | 0x0004); // B, D_UP, START
    let evs = button_events(prev, now);
    assert_eq!(
        evs,
        vec![
            ButtonEvent { button: GcButton::A, pressed: false },
            ButtonEvent { button: GcButton::B, pressed: true },
            ButtonEvent { button: GcButton::Start, pressed: true },
        ]
    );
    let lines: Vec<String> = evs.iter().map(|e| event_line(*e)).collect();
    assert_eq!(lines, vec!["RELEASE A", "PRESS B", "PRESS START"]);
    assert!(button_events(now, now).is_empty());
    assert_eq!(button_name(GcButton::DRight), "D_RIGHT");
    assert_eq!(event_line(ButtonEvent { button: GcButton::DLeft, pressed: true }).as_str(), "PRESS D_LEFT");
}

fn ep(address: u8, is_interrupt: bool, is_in: bool) -> EndpointInfo {
    EndpointInfo { address, is_interrupt, is_in }
}

#[test]
fn interrupt_interface_selection() {
    let ifaces = vec![
        InterfaceInfo { interface_number: 0, endpoints: vec![ep(0x81, true, true), ep(0x02, false, false)] },
        InterfaceInfo {
            interface_number: 1,
            endpoints: vec![ep(0x03, false, true), ep(0x82, true, true), ep(0x02, true, false), ep(0x83, true, true)],
        },
        InterfaceInfo { interface_number: 2, endpoints: vec![ep(0x84, true, true), ep(0x04, true, false)] },
    ];
    assert_eq!(select_interrupt_interface(&ifaces), Some((1, 0x82, 0x02)));
    assert_eq!(select_interrupt_interface(&ifaces[..1].to_vec()), None);
    assert_eq!(select_interrupt_interface(&Vec::new()), None);
}

#[test]
fn prefixed_ids_are_hex_in_any_form() {
    assert_eq!(parse_u16_maybe_hex("0X2079"), Ok(0x2079));
    assert_eq!(parse_u16_maybe_hex("0x00ff"), Ok(0xFF));
    assert_eq!(parse_u16_maybe_hex("0xFF"), Ok(0xFF));
    assert_eq!(parse_u16_maybe_hex("0x0000000000ffff"), Ok(0xFFFF));
    for v in [0u16, 7, 0x2079, 0x20D6, 0xFFFF] {
        assert_eq!(parse_u16_maybe_hex(&format!("0x{v:X}")), Ok(v));
        assert_eq!(parse_u16_maybe_hex(&format!("0x{v:04x}")), Ok(v));
        assert_eq!(parse_u16_maybe_hex(&format!("0X{v:X}")), Ok(v));
    }
}

#[test]
fn decimal_ids_with_whitespace() {
    for v in [0u16, 9, 2079, 65535] {
        assert_eq!(parse_u16_maybe_hex(&format!(" \t{v}\n ")), Ok(v));
        assert_eq!(parse_u16_maybe_hex(&format!("{v}")), Ok(v));
        assert_eq!(parse_u16_maybe_hex(&format!("000{v}")), Ok(v));
    }
}

#[test]
fn pipe_open_retries_only_on_enxio() {
    assert!(retry_pipe_open(Some(6), 6));
    assert!(!retry_pipe_open(Some(2), 6));
    assert!(!retry_pipe_open(None, 6));
}
