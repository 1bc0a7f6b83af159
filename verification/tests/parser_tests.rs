use rbn_core::spot_parser::parse_spot_line;

#[test]
fn example_line_parses_exactly() {
    let line = "DX de W1AW-#:    14025.0  K1ABC   CW   15 dB   25 WPM";
    let spot = parse_spot_line(line).expect("line should parse");
    assert_eq!(spot.spotter_callsign, "W1AW");
    assert_eq!(spot.spotted_callsign, "K1ABC");
    assert_eq!(spot.frequency_mkhz, 14025000);
    assert_eq!(spot.mode, "CW");
    assert_eq!(spot.snr, 15);
    assert_eq!(spot.wpm, 25);
}

#[test]
fn line_without_prefix_yields_nothing() {
    assert!(parse_spot_line("").is_none());
    assert!(parse_spot_line("CQ CQ CQ de K1ABC").is_none());
    assert!(parse_spot_line("dx de W1AW-#: 14025.0 K1ABC CW 15 dB 25 WPM").is_none());
    assert!(parse_spot_line("X de W1AW-#: 14025.0 K1ABC CW 15 dB 25 WPM").is_none());
    assert!(parse_spot_line("DX deW1AW-#: 14025.0 K1ABC CW 15 dB 25 WPM").is_none());
}

#[test]
fn malformed_fields_yield_nothing() {
    // non-numeric frequency
    assert!(parse_spot_line("DX de W1AW-#: abcd K1ABC CW 15 dB 25 WPM").is_none());
    // spotter token without its colon
    assert!(parse_spot_line("DX de W1AW 14025.0 K1ABC CW 15 dB 25 WPM").is_none());
    // non-numeric SNR
    assert!(parse_spot_line("DX de W1AW-#: 14025.0 K1ABC CW xx dB 25 WPM").is_none());
    // missing dB token
    assert!(parse_spot_line("DX de W1AW-#: 14025.0 K1ABC CW 15 25 WPM").is_none());
    // missing WPM token
    assert!(parse_spot_line("DX de W1AW-#: 14025.0 K1ABC CW 15 dB 25").is_none());
    // non-numeric speed
    assert!(parse_spot_line("DX de W1AW-#: 14025.0 K1ABC CW 15 dB fast WPM").is_none());
    // missing target
    assert!(parse_spot_line("DX de W1AW-#: 14025.0").is_none());
    // SNR too large for a 32-bit value
    assert!(parse_spot_line("DX de W1AW-#: 14025.0 K1ABC CW 99999999999 dB 25 WPM").is_none());
}

#[test]
fn trailing_text_after_wpm_is_ignored() {
    let line = "DX de OH6BG:  7010.5  DL1AAA  CW  28 dB  32 WPM  CQ  1234Z\r\n";
    let spot = parse_spot_line(line).expect("line should parse");
    assert_eq!(spot.spotter_callsign, "OH6BG");
    assert_eq!(spot.spotted_callsign, "DL1AAA");
    assert_eq!(spot.frequency_mkhz, 7010500);
    assert_eq!(spot.mode, "CW");
    assert_eq!(spot.snr, 28);
    assert_eq!(spot.wpm, 32);
}

#[test]
fn fractional_frequencies_carry_their_digits() {
    let spot = parse_spot_line("DX de A1A: 14025.2 K1ABC CW 10 dB 20 WPM").unwrap();
    assert_eq!(spot.frequency_mkhz, 14025200);
    let spot = parse_spot_line("DX de A1A: 7010 K1ABC CW 10 dB 20 WPM").unwrap();
    assert_eq!(spot.frequency_mkhz, 7010000);
    let spot = parse_spot_line("DX de A1A: 7010. K1ABC CW 10 dB 20 WPM").unwrap();
    assert_eq!(spot.frequency_mkhz, 7010000);
    let spot = parse_spot_line("DX de A1A: 7010.1234 K1ABC CW 10 dB 20 WPM").unwrap();
    assert_eq!(spot.frequency_mkhz, 7010123);
}

#[test]
fn spotter_trailing_marks_are_stripped() {
    let spot = parse_spot_line("DX de W1AW-#: 14025.0 K1ABC CW 15 dB 25 WPM").unwrap();
    assert_eq!(spot.spotter_callsign, "W1AW");
    let spot = parse_spot_line("DX de OH6BG: 14025.0 K1ABC CW 15 dB 25 WPM").unwrap();
    assert_eq!(spot.spotter_callsign, "OH6BG");
}
