use kbswitch::scanner::{parse_key_code, scan_line, second_chunk, trim_indent, ScanAction, ScanState};

#[test]
fn test_scan_key_press_arms() {
    let r = scan_line(ScanState::Cruising, "EVENT type 2 (KeyPress)");
    assert_eq!((ScanState::LookForDetail, ScanAction::Nothing), r);
}

#[test]
fn test_scan_other_event_ignored() {
    let r = scan_line(ScanState::Cruising, "EVENT type 3 (KeyRelease)");
    assert_eq!((ScanState::Cruising, ScanAction::Nothing), r);
}

#[test]
fn test_scan_detail_emits_code() {
    let r = scan_line(ScanState::LookForDetail, "    detail: 54");
    assert_eq!((ScanState::Cruising, ScanAction::Key(54)), r);
}

#[test]
fn test_scan_detail_needs_arming() {
    let r = scan_line(ScanState::Cruising, "    detail: 54");
    assert_eq!((ScanState::Cruising, ScanAction::Nothing), r);
}

#[test]
fn test_scan_malformed_detail_fails() {
    let r = scan_line(ScanState::LookForDetail, "    detail: x54");
    assert_eq!((ScanState::LookForDetail, ScanAction::Fail), r);
}

#[test]
fn test_scan_detail_without_separator_keeps_looking() {
    let r = scan_line(ScanState::LookForDetail, "    detail:54");
    assert_eq!((ScanState::LookForDetail, ScanAction::Nothing), r);
}

#[test]
fn test_scan_press_and_detail_on_one_line() {
    // A key-press announcement arms the scanner for the following lines but
    // is itself no detail line.
    let r = scan_line(ScanState::Cruising, "EVENT type 2 (KeyPress)");
    let r2 = scan_line(r.0, "    detail: 38");
    assert_eq!((ScanState::Cruising, ScanAction::Key(38)), r2);
}

#[test]
fn test_second_chunk() {
    assert_eq!(Some("54"), second_chunk("    detail: 54"));
    assert_eq!(Some("54"), second_chunk("detail: 54: 9"));
    assert_eq!(None, second_chunk("detail:54"));
    assert_eq!(Some(""), second_chunk("detail: "));
}

#[test]
fn test_trim_indent() {
    assert_eq!("detail: 54", trim_indent("  \t detail: 54"));
    assert_eq!("x  ", trim_indent("x  "));
    assert_eq!("", trim_indent("   "));
}

#[test]
fn test_parse_key_code_values() {
    assert_eq!(Some(54), parse_key_code("54"));
    assert_eq!(Some(0), parse_key_code("0"));
    assert_eq!(Some(12), parse_key_code("+12"));
    assert_eq!(Some(-5), parse_key_code("-5"));
    assert_eq!(Some(i64::MAX), parse_key_code("9223372036854775807"));
    assert_eq!(Some(i64::MIN), parse_key_code("-9223372036854775808"));
}

#[test]
fn test_parse_key_code_rejects() {
    assert_eq!(None, parse_key_code(""));
    assert_eq!(None, parse_key_code("+"));
    assert_eq!(None, parse_key_code("-"));
    assert_eq!(None, parse_key_code("4x"));
    assert_eq!(None, parse_key_code("x4"));
    assert_eq!(None, parse_key_code(" 4"));
    assert_eq!(None, parse_key_code("9223372036854775808"));
    assert_eq!(None, parse_key_code("-9223372036854775809"));
    assert_eq!(None, parse_key_code("99999999999999999999999"));
}
