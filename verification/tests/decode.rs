use cansat_telemetry::decode::parse_log_line;
use cansat_telemetry::encode::encode_log_line;
use cansat_telemetry::float_text::{float_token, nan_token};
use cansat_telemetry::num::{format_u32, parse_u32, parse_u8};
use cansat_telemetry::record::{LogReadError, ReadConfidence, SensedData};

const GOOD_LINE: &str = "0\t1\t1\t2\t3\t4\t4\t4\t0\t6\t6\t6\t0\t8\t9\t9\t10";

fn s(text: &str) -> String {
    text.to_string()
}

#[test]
fn test_read_log_line() {
    assert_eq!(
        parse_log_line(GOOD_LINE),
        Ok(SensedData {
            index: 0,
            uptime: 1,
            temperature: s("2"),
            pressure: s("3"),
            acceleration: [s("4"), s("4"), s("4")],
            acceleration_confidence: ReadConfidence::Unreliable,
            gps_time: 8,
            gps_position: [s("9"), s("9")],
            gps_altitude: s("10"),
        })
    );
    // The same fields, as the floating-point values the probe reported.
    let rec = parse_log_line(GOOD_LINE).unwrap();
    assert_eq!(rec.temperature.parse::<f32>().unwrap(), 2.0);
    assert_eq!(rec.pressure.parse::<f32>().unwrap(), 3.0);
    assert_eq!(rec.acceleration[0].parse::<f64>().unwrap(), 4.0);
    assert_eq!(rec.acceleration[1].parse::<f64>().unwrap(), 4.0);
    assert_eq!(rec.acceleration[2].parse::<f64>().unwrap(), 4.0);
    assert_eq!(rec.gps_position[0].parse::<f64>().unwrap(), 9.0);
    assert_eq!(rec.gps_position[1].parse::<f64>().unwrap(), 9.0);
    assert_eq!(rec.gps_altitude.parse::<f64>().unwrap(), 10.0);
}

#[test]
fn test_read_log_line_nan() {
    let value = parse_log_line("0\t1\t1\t2\t3\tnan\tnan\tnan\t0\t6\t6\t6\t0\t8\t9\t9\t10").unwrap();
    assert!(value.acceleration[0].parse::<f64>().unwrap().is_nan());
    assert!(value.acceleration[1].parse::<f64>().unwrap().is_nan());
    assert!(value.acceleration[2].parse::<f64>().unwrap().is_nan());
}

#[test]
fn test_read_log_line_real_data() {
    assert!(
        parse_log_line("670\t38076\t929\t27.19\t98709.02\t-0.007813\t-0.011719\t0.015625\t3\t3.136642\t-0.274198\t2.485954\t0\t0\tnan\tnan\t0.000000")
            .is_ok()
    );
}

#[test]
fn nan_in_any_float_slot_is_not_an_error() {
    // A `nan` token in each float slot in turn decodes to a NaN field.
    let slots: [usize; 8] = [3, 4, 5, 6, 7, 14, 15, 16];
    for slot in slots {
        let mut tokens: Vec<String> = GOOD_LINE.split('\t').map(s).collect();
        tokens[slot] = s("nan");
        let line = tokens.join("\t");
        let rec = parse_log_line(&line).unwrap();
        let field = match slot {
            3 => rec.temperature.parse::<f64>().unwrap(),
            4 => rec.pressure.parse::<f64>().unwrap(),
            5 | 6 | 7 => rec.acceleration[slot - 5].parse::<f64>().unwrap(),
            14 | 15 => rec.gps_position[slot - 14].parse::<f64>().unwrap(),
            _ => rec.gps_altitude.parse::<f64>().unwrap(),
        };
        assert!(field.is_nan());
    }
}

#[test]
fn confidence_bytes_decode_to_the_four_variants() {
    let expected = [
        ReadConfidence::Unreliable,
        ReadConfidence::Low,
        ReadConfidence::Medium,
        ReadConfidence::High,
    ];
    for (byte, conf) in expected.iter().enumerate() {
        let line = format!("0\t1\t1\t2\t3\t4\t4\t4\t{}\t6\t6\t6\t0\t8\t9\t9\t10", byte);
        assert_eq!(parse_log_line(&line).unwrap().acceleration_confidence, *conf);
        assert_eq!(ReadConfidence::try_from(byte as u8), Ok(*conf));
    }
}

#[test]
fn confidence_bytes_outside_the_four_levels_are_invalid() {
    for byte in ["4", "255"] {
        let line = format!("0\t1\t1\t2\t3\t4\t4\t4\t{}\t6\t6\t6\t0\t8\t9\t9\t10", byte);
        assert_eq!(parse_log_line(&line), Err(LogReadError::InvalidConfidence));
    }
    assert_eq!(ReadConfidence::try_from(4), Err(()));
    assert_eq!(ReadConfidence::try_from(255), Err(()));
    // The gyroscope confidence is discarded but still validated.
    let line = "0\t1\t1\t2\t3\t4\t4\t4\t0\t6\t6\t6\t9\t8\t9\t9\t10";
    assert_eq!(parse_log_line(line), Err(LogReadError::InvalidConfidence));
}

#[test]
fn one_token_short_is_a_missing_field() {
    // One fewer token than the schema requires: no out-of-bounds failure.
    let short = "0\t1\t1\t2\t3\t4\t4\t4\t0\t6\t6\t6\t0\t8\t9\t9";
    assert_eq!(parse_log_line(short), Err(LogReadError::MissingField));
    assert_eq!(parse_log_line(""), Err(LogReadError::InvalidNumber { field_text: s("") }));
}

#[test]
fn unparsable_tokens_report_their_text() {
    let line = "zero\t1\t1\t2\t3\t4\t4\t4\t0\t6\t6\t6\t0\t8\t9\t9\t10";
    assert_eq!(parse_log_line(line), Err(LogReadError::InvalidNumber { field_text: s("zero") }));
    let line = "0\t1\t1\t2,5\t3\t4\t4\t4\t0\t6\t6\t6\t0\t8\t9\t9\t10";
    assert_eq!(parse_log_line(line), Err(LogReadError::InvalidNumber { field_text: s("2,5") }));
    // A confidence byte must parse as an unsigned byte before its range is
    // judged.
    let line = "0\t1\t1\t2\t3\t4\t4\t4\t300\t6\t6\t6\t0\t8\t9\t9\t10";
    assert_eq!(parse_log_line(line), Err(LogReadError::InvalidNumber { field_text: s("300") }));
}

#[test]
fn decoding_is_idempotent() {
    for line in [GOOD_LINE, "", "not\ta\tline", "  \t  "] {
        assert_eq!(parse_log_line(line), parse_log_line(line));
    }
}

#[test]
fn surrounding_whitespace_is_trimmed() {
    let padded = format!("  {}\r\n", GOOD_LINE);
    assert_eq!(parse_log_line(&padded), parse_log_line(GOOD_LINE));
}

#[test]
fn extra_trailing_tokens_are_an_error() {
    let long = format!("{}\t999\tgarbage", GOOD_LINE);
    assert_eq!(parse_log_line(&long), Err(LogReadError::ExtraField));
    let one_extra = format!("{}\t999", GOOD_LINE);
    assert_eq!(parse_log_line(&one_extra), Err(LogReadError::ExtraField));
    // Slots are judged in order first: a bad slot is reported even where
    // extra tokens follow.
    let bad_and_long = format!("x{}\t999", &GOOD_LINE[1..]);
    assert_eq!(
        parse_log_line(&bad_and_long),
        Err(LogReadError::InvalidNumber { field_text: s("x") })
    );
}

#[test]
fn encode_then_decode_round_trips() {
    let rec = parse_log_line(GOOD_LINE).unwrap();
    let line = encode_log_line(&rec);
    assert_eq!(parse_log_line(&line), Ok(rec));
}

#[test]
fn encode_then_decode_round_trips_nan_fields() {
    let rec = parse_log_line("0\t1\t1\t2\t3\tnan\tNaN\t-nan\t0\t6\t6\t6\t0\t8\t9\t9\t10").unwrap();
    let line = encode_log_line(&rec);
    let back = parse_log_line(&line).unwrap();
    for i in 0..3 {
        assert!(back.acceleration[i].parse::<f64>().unwrap().is_nan());
    }
    assert_eq!(back, rec);
}

#[test]
fn float_tokens_follow_the_grammar() {
    for good in [
        "0", "2", "27.19", "-0.007813", "nan", "NaN", "+nan", "-NAN", "inf", "INFINITY",
        "-infinity", "1.5e-3", "1E9", ".5", "5.", "+4.25", "9e+4",
    ] {
        assert!(float_token(good), "{}", good);
        assert_eq!(good.parse::<f64>().is_ok(), true, "{}", good);
    }
    for bad in ["", "+", ".", "e5", "1.2.3", "1e", "1e+", "--5", "0x1p3", "1_000", " 1", "na"] {
        assert!(!float_token(bad), "{}", bad);
        assert_eq!(bad.parse::<f64>().is_ok(), false, "{}", bad);
    }
    assert!(nan_token("nan") && nan_token("-NaN") && !nan_token("inf") && !nan_token("nani"));
}

#[test]
fn integer_tokens_parse_as_the_standard_parser_does() {
    assert_eq!(parse_u32("0"), Some(0));
    assert_eq!(parse_u32("+7"), Some(7));
    assert_eq!(parse_u32("4294967295"), Some(u32::MAX));
    assert_eq!(parse_u32("4294967296"), None);
    assert_eq!(parse_u32("99999999999999999999"), None);
    assert_eq!(parse_u32(""), None);
    assert_eq!(parse_u32("+"), None);
    assert_eq!(parse_u32("-1"), None);
    assert_eq!(parse_u32("1.0"), None);
    for text in ["0", "+7", "4294967295", "4294967296", "-1", "", "+"] {
        assert_eq!(parse_u32(text), text.parse::<u32>().ok(), "{}", text);
    }
    assert_eq!(parse_u8("255"), Some(255));
    assert_eq!(parse_u8("256"), None);
    assert_eq!(parse_u8("3"), Some(3));
    for n in [0u32, 7, 10, 255, 4096, u32::MAX] {
        assert_eq!(format_u32(n), n.to_string());
        assert_eq!(parse_u32(&format_u32(n)), Some(n));
    }
}
