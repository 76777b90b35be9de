use smooth_volume::codec::{parse, format_percent, query_reply, Command, ParseError, VolumeChange};

#[test]
fn parse_relative_increase() {
    assert_eq!(
        parse(b"+0.1"),
        Ok(Command::Change { change: VolumeChange::Increase(1000), duration: None })
    );
}

#[test]
fn parse_relative_negative_percent() {
    assert_eq!(
        parse(b"-10%"),
        Ok(Command::Change { change: VolumeChange::Increase(-1000), duration: None })
    );
}

#[test]
fn parse_absolute_percent() {
    assert_eq!(
        parse(b"50%"),
        Ok(Command::Change { change: VolumeChange::Absolute(5000), duration: None })
    );
}

#[test]
fn parse_absolute_with_duration() {
    assert_eq!(
        parse(b"0.5 200"),
        Ok(Command::Change { change: VolumeChange::Absolute(5000), duration: Some(2_000_000) })
    );
}

#[test]
fn parse_get_volume() {
    assert_eq!(parse(b"get-volume"), Ok(Command::QueryVolume));
}

#[test]
fn parse_get_volume_trimmed() {
    assert_eq!(parse(b"  get-volume\n"), Ok(Command::QueryVolume));
}

#[test]
fn parse_trims_whitespace() {
    assert_eq!(
        parse(b" \t+1.5\r\n"),
        Ok(Command::Change { change: VolumeChange::Increase(15000), duration: None })
    );
}

#[test]
fn parse_fraction_only() {
    assert_eq!(
        parse(b".25"),
        Ok(Command::Change { change: VolumeChange::Absolute(2500), duration: None })
    );
}

#[test]
fn parse_trailing_dot() {
    assert_eq!(
        parse(b"2."),
        Ok(Command::Change { change: VolumeChange::Absolute(20000), duration: None })
    );
}

#[test]
fn parse_percent_fraction() {
    assert_eq!(
        parse(b"+.5%"),
        Ok(Command::Change { change: VolumeChange::Increase(50), duration: None })
    );
}

#[test]
fn parse_invalid_volume() {
    assert_eq!(parse(b"abc"), Err(ParseError::InvalidVolume));
    assert_eq!(parse(b""), Err(ParseError::InvalidVolume));
    assert_eq!(parse(b"."), Err(ParseError::InvalidVolume));
    assert_eq!(parse(b"%"), Err(ParseError::InvalidVolume));
    assert_eq!(parse(b"+"), Err(ParseError::InvalidVolume));
    assert_eq!(parse(b"1.2.3"), Err(ParseError::InvalidVolume));
    assert_eq!(parse(b"--5"), Err(ParseError::InvalidVolume));
}

#[test]
fn parse_malformed_duration_is_dropped() {
    // a bad duration is not an error: the change stands with none
    assert_eq!(
        parse(b"0.5 soon"),
        Ok(Command::Change { change: VolumeChange::Absolute(5000), duration: None })
    );
    assert_eq!(
        parse(b"0.5  200"),
        Ok(Command::Change { change: VolumeChange::Absolute(5000), duration: None })
    );
}

#[test]
fn parse_negative_duration_carried() {
    // carried as parsed; the engine's validity window rejects it
    assert_eq!(
        parse(b"0.5 -5"),
        Ok(Command::Change { change: VolumeChange::Absolute(5000), duration: Some(-50_000) })
    );
}

#[test]
fn parse_splits_at_first_space() {
    assert_eq!(
        parse(b"0.5 200 300"),
        Ok(Command::Change { change: VolumeChange::Absolute(5000), duration: None })
    );
}

#[test]
fn parse_query_with_argument_is_invalid() {
    assert_eq!(parse(b"get-volume 5"), Err(ParseError::InvalidVolume));
}

#[test]
fn parse_saturates_huge_volume() {
    // amounts saturate at the representable ceiling
    assert_eq!(
        parse(b"99999999999999999999"),
        Ok(Command::Change { change: VolumeChange::Absolute(1_000_000_000), duration: None })
    );
}

#[test]
fn parse_extra_fraction_digits_cut() {
    assert_eq!(
        parse(b"0.12345"),
        Ok(Command::Change { change: VolumeChange::Absolute(1234), duration: None })
    );
}

#[test]
fn parse_percent_quantized_to_unit() {
    // percent values resolve at two scaled places: one unit each
    assert_eq!(
        parse(b"12.345%"),
        Ok(Command::Change { change: VolumeChange::Absolute(1234), duration: None })
    );
}

#[test]
fn parse_signed_duration_token() {
    assert_eq!(
        parse(b"0.5 +5"),
        Ok(Command::Change { change: VolumeChange::Absolute(5000), duration: Some(50_000) })
    );
}

#[test]
fn parse_non_text_bytes_invalid() {
    assert_eq!(parse(&[0xff, 0xfe]), Err(ParseError::InvalidVolume));
}

#[test]
fn format_percent_values() {
    assert_eq!(format_percent(2345), b"23.45%".to_vec());
    assert_eq!(format_percent(10000), b"100.00%".to_vec());
    assert_eq!(format_percent(0), b"0.00%".to_vec());
    assert_eq!(format_percent(5000), b"50.00%".to_vec());
    assert_eq!(format_percent(9), b"0.09%".to_vec());
    assert_eq!(format_percent(1_000_000_000), b"10000000.00%".to_vec());
}

#[test]
fn query_reply_averages_and_formats() {
    // two channels at half the nominal raw volume read as 50.00%
    let raws = vec![0x8000u32, 0x8000u32];
    assert_eq!(query_reply(&raws), b"50.00%".to_vec());
}

#[test]
fn query_reply_uneven_channels() {
    // integer mean of 0x10000 and 0x8000 is 0xC000: 75.00%
    let raws = vec![0x10000u32, 0x8000u32];
    assert_eq!(query_reply(&raws), b"75.00%".to_vec());
}

#[test]
fn collapse_resolves() {
    assert_eq!(VolumeChange::Increase(1000).collapse(2000), 3000);
    assert_eq!(VolumeChange::Increase(-1000).collapse(2000), 1000);
    assert_eq!(VolumeChange::Absolute(7000).collapse(2000), 7000);
}
