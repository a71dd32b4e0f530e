use glow_station::tec::{
    ack_matches, decode_response, disable_command, enable_command, expected_ack,
    frame_config_command, parse_config_acknowledgment, parse_readout, readout_command,
    response_timed_out, LineReader, LineState, ReadoutError, ReadoutField,
};

const LINE: &str = "Tset=25.00 Kp=5.50 Ki=2.50 Kd=0.50 Trange=0.00...35.00 Tmeas=24.87 OC=1 PWM=-12.3";

#[test]
fn readout_line_is_read_field_by_field() {
    let r = parse_readout(LINE).unwrap();
    assert_eq!(r.t_set, "25.00");
    assert_eq!(r.p, "5.50");
    assert_eq!(r.i, "2.50");
    assert_eq!(r.d, "0.50");
    assert_eq!(r.t_min, "0.00");
    assert_eq!(r.t_max, "35.00");
    assert_eq!(r.t_measured, "24.87");
    assert!(r.oc);
    assert_eq!(r.pwm, "-12.3");
    // every accepted number reads as an f32
    for t in [&r.t_set, &r.p, &r.i, &r.d, &r.t_min, &r.t_max, &r.t_measured, &r.pwm] {
        assert!(t.parse::<f32>().is_ok());
    }
}

#[test]
fn readout_line_tolerates_surrounding_white_space_and_units() {
    let line = "  T=20 C P=1 I=2 D=3 R=10...30 M=19.5 C oc=0 pwm=+4  \r\n";
    let r = parse_readout(line).unwrap();
    assert_eq!(r.t_set, "20");
    assert_eq!(r.t_min, "10");
    assert_eq!(r.t_max, "30");
    assert_eq!(r.t_measured, "19.5");
    assert!(!r.oc);
    assert_eq!(r.pwm, "+4");
}

#[test]
fn readout_extra_sections_are_ignored() {
    let line = format!("{} X=junk", LINE);
    assert!(parse_readout(&line).is_ok());
}

#[test]
fn readout_needs_nine_sections() {
    assert_eq!(
        parse_readout("Tset=25 Kp=1").unwrap_err(),
        ReadoutError::NotEnoughSections { found: 3 }
    );
    assert_eq!(parse_readout("").unwrap_err(), ReadoutError::NotEnoughSections { found: 1 });
    assert_eq!(parse_readout("<o>").unwrap_err(), ReadoutError::NotEnoughSections { found: 1 });
}

#[test]
fn readout_reports_the_first_bad_number() {
    let bad_set = "a=x b=1 c=1 d=1 r=1...2 m=1 oc=1 p=1";
    assert_eq!(
        parse_readout(bad_set).unwrap_err(),
        ReadoutError::InvalidNumber { field: ReadoutField::TSet }
    );
    let bad_d = "a=1 b=1 c=1 d=1.2.3 r=1...2 m=x oc=1 p=1";
    assert_eq!(
        parse_readout(bad_d).unwrap_err(),
        ReadoutError::InvalidNumber { field: ReadoutField::D }
    );
    let bad_min = "a=1 b=1 c=1 d=1 r=-...2 m=1 oc=1 p=1";
    assert_eq!(
        parse_readout(bad_min).unwrap_err(),
        ReadoutError::InvalidNumber { field: ReadoutField::TMin }
    );
    let bad_max = "a=1 b=1 c=1 d=1 r=1...+ m=1 oc=1 p=1";
    assert_eq!(
        parse_readout(bad_max).unwrap_err(),
        ReadoutError::InvalidNumber { field: ReadoutField::TMax }
    );
    let bad_meas = "a=1 b=1 c=1 d=1 r=1...2 m=°5 oc=1 p=1";
    assert_eq!(
        parse_readout(bad_meas).unwrap_err(),
        ReadoutError::InvalidNumber { field: ReadoutField::TMeasured }
    );
    let bad_pwm = "a=1 b=1 c=1 d=1 r=1...2 m=1 oc=1 p=";
    assert_eq!(
        parse_readout(bad_pwm).unwrap_err(),
        ReadoutError::InvalidNumber { field: ReadoutField::Pwm }
    );
}

#[test]
fn readout_range_needs_one_ellipsis() {
    let none = "a=1 b=1 c=1 d=1 r=1-2 m=1 oc=1 p=1";
    assert_eq!(parse_readout(none).unwrap_err(), ReadoutError::InvalidTemperatureRange);
    let two = "a=1 b=1 c=1 d=1 r=1...2...3 m=1 oc=1 p=1";
    assert_eq!(parse_readout(two).unwrap_err(), ReadoutError::InvalidTemperatureRange);
}

#[test]
fn readout_flag_is_zero_or_one() {
    let big = "a=1 b=1 c=1 d=1 r=1...2 m=1 oc=2 p=1";
    assert_eq!(parse_readout(big).unwrap_err(), ReadoutError::InvalidOcValue);
    let huge = "a=1 b=1 c=1 d=1 r=1...2 m=1 oc=300 p=1";
    assert_eq!(parse_readout(huge).unwrap_err(), ReadoutError::InvalidOcNumber);
    let neg = "a=1 b=1 c=1 d=1 r=1...2 m=1 oc=-1 p=1";
    assert_eq!(parse_readout(neg).unwrap_err(), ReadoutError::InvalidOcNumber);
    let padded = "a=1 b=1 c=1 d=1 r=1...2 m=1 oc=+001 p=1";
    assert!(parse_readout(padded).unwrap().oc);
}

#[test]
fn config_acknowledgment_sets_named_parameters() {
    let a = parse_config_acknowledgment("eTzc=20 eKp=5.5 eKi=2.5 eKd=0.5 eTmin=0 eTmax=35");
    assert_eq!(a.t_set.as_deref(), Some("20"));
    assert_eq!(a.p.as_deref(), Some("5.5"));
    assert_eq!(a.i.as_deref(), Some("2.5"));
    assert_eq!(a.d.as_deref(), Some("0.5"));
    assert_eq!(a.t_min.as_deref(), Some("0"));
    assert_eq!(a.t_max.as_deref(), Some("35"));
}

#[test]
fn config_acknowledgment_skips_unknown_and_bad_words() {
    let a = parse_config_acknowledgment("<ok> eTzc=abc foo=1 eKp=1 eKp=2 eKi 3 eKd==4 eTmax=1e2");
    assert_eq!(a.t_set, None);
    assert_eq!(a.p.as_deref(), Some("2"));
    assert_eq!(a.i, None);
    assert_eq!(a.d, None);
    assert_eq!(a.t_min, None);
    assert_eq!(a.t_max.as_deref(), Some("1e2"));
    let empty = parse_config_acknowledgment("");
    assert!(empty.t_set.is_none() && empty.t_max.is_none());
}

#[test]
fn commands_and_acknowledgments() {
    assert_eq!(readout_command(), "o");
    assert_eq!(enable_command(), "A");
    assert_eq!(disable_command(), "a");
    assert_eq!(expected_ack("o"), "<o>");
    assert!(ack_matches("<A>", "A"));
    assert!(!ack_matches("<a>", "A"));
    assert!(!ack_matches("A", "A"));
    assert_eq!(
        frame_config_command("10", "15", "2", "1", "0", "35"),
        "<10 15 2 1 0 35>"
    );
}

fn read_line(stream: &[u8]) -> (Vec<u8>, LineState) {
    let mut r = LineReader::new();
    let mut it = stream.iter();
    while r.state() == LineState::Reading {
        match it.next() {
            Some(b) => r.push_byte(*b),
            None => break,
        }
    }
    if r.state() == LineState::AfterCarriageReturn {
        r.after_carriage_return(it.next().copied());
    }
    (r.bytes().clone(), r.state())
}

#[test]
fn line_reader_stops_at_line_end() {
    assert_eq!(read_line(b"<o>\nrest"), (b"<o>\n".to_vec(), LineState::Complete));
    assert_eq!(read_line(b"<o>\r\nrest"), (b"<o>\r\n".to_vec(), LineState::Complete));
    // a byte after a lone carriage return is read and dropped
    assert_eq!(read_line(b"<o>\rXrest"), (b"<o>\r".to_vec(), LineState::Complete));
    assert_eq!(read_line(b"<o>\r"), (b"<o>\r".to_vec(), LineState::Complete));
    assert_eq!(read_line(b"partial"), (b"partial".to_vec(), LineState::Reading));
}

#[test]
fn responses_are_decoded_and_trimmed() {
    assert_eq!(decode_response(b"  <o>\r\n"), "<o>");
    assert_eq!(decode_response(b"T=25\xff C\n"), "T=25\u{fffd} C");
    assert_eq!(decode_response(b""), "");
}

#[test]
fn line_reader_ignores_bytes_after_the_line() {
    let mut r = LineReader::new();
    r.after_carriage_return(Some(b'\n'));
    assert_eq!(r.state(), LineState::Reading);
    for b in b"ok\n" {
        r.push_byte(*b);
    }
    r.push_byte(b'x');
    r.after_carriage_return(Some(b'\n'));
    assert_eq!(r.bytes(), &b"ok\n".to_vec());
    assert_eq!(r.state(), LineState::Complete);
}

#[test]
fn a_read_times_out_only_past_its_limit() {
    assert!(!response_timed_out(0, 1000));
    assert!(!response_timed_out(1_000_000_000, 1000));
    assert!(response_timed_out(1_000_000_001, 1000));
    assert!(response_timed_out(1, 0));
    assert!(!response_timed_out(u64::MAX as u128 * 1_000_000, u64::MAX));
    assert!(response_timed_out(u64::MAX as u128 * 1_000_000 + 1, u64::MAX));
}
