use timelapsifier::error::TimelapsifyError;
use timelapsifier::filename::{parse_day, parse_timestamp};
use timelapsifier::files::TimestampedFile;
use timelapsifier::timestamp::Timestamp;

fn mk_ts(year: u32, month: u32, day: u32, hour: u32, minute: u32, second: u32) -> Timestamp {
    Timestamp { year, month, day, hour, minute, second }
}

#[test]
fn parse_accepts_exact_pattern() {
    assert_eq!(
        parse_timestamp("2022-07-12_05-30-25.jpg"),
        Ok(mk_ts(2022, 7, 12, 5, 30, 25))
    );
}

#[test]
fn parse_accepts_any_extension() {
    assert_eq!(
        parse_timestamp("2022-07-12_05-30-25.mp4"),
        Ok(mk_ts(2022, 7, 12, 5, 30, 25))
    );
    assert_eq!(
        parse_timestamp("1999-01-01_00-00-00.x"),
        Ok(mk_ts(1999, 1, 1, 0, 0, 0))
    );
}

#[test]
fn parse_needs_nonempty_extension() {
    assert_eq!(
        parse_timestamp("2022-07-12_05-30-25."),
        Err(TimelapsifyError::RegexNoMatch)
    );
    assert_eq!(
        parse_timestamp("2022-07-12_05-30-25"),
        Err(TimelapsifyError::RegexNoMatch)
    );
}

#[test]
fn parse_rejects_wrong_separators() {
    assert_eq!(
        parse_timestamp("2022:07-12_05-30-25.jpg"),
        Err(TimelapsifyError::RegexNoMatch)
    );
    assert_eq!(
        parse_timestamp("2022-07-12-05-30-25.jpg"),
        Err(TimelapsifyError::RegexNoMatch)
    );
    assert_eq!(
        parse_timestamp("2022-07-12_05-30_25.jpg"),
        Err(TimelapsifyError::RegexNoMatch)
    );
}

#[test]
fn parse_rejects_non_digits() {
    assert_eq!(
        parse_timestamp("20a2-07-12_05-30-25.jpg"),
        Err(TimelapsifyError::RegexNoMatch)
    );
    assert_eq!(
        parse_timestamp("2022-o7-12_05-30-25.jpg"),
        Err(TimelapsifyError::RegexNoMatch)
    );
    assert_eq!(parse_timestamp(""), Err(TimelapsifyError::RegexNoMatch));
    assert_eq!(parse_timestamp("photo.jpg"), Err(TimelapsifyError::RegexNoMatch));
}

#[test]
fn parse_rejects_out_of_range_fields() {
    assert_eq!(
        parse_timestamp("2022-13-12_05-30-25.jpg"),
        Err(TimelapsifyError::ParseOhNo("month"))
    );
    assert_eq!(
        parse_timestamp("2022-00-12_05-30-25.jpg"),
        Err(TimelapsifyError::ParseOhNo("month"))
    );
    assert_eq!(
        parse_timestamp("2022-02-30_05-30-25.jpg"),
        Err(TimelapsifyError::ParseOhNo("day"))
    );
    assert_eq!(
        parse_timestamp("2022-07-00_05-30-25.jpg"),
        Err(TimelapsifyError::ParseOhNo("day"))
    );
    assert_eq!(
        parse_timestamp("2022-07-12_24-30-25.jpg"),
        Err(TimelapsifyError::ParseOhNo("hour"))
    );
    assert_eq!(
        parse_timestamp("2022-07-12_05-60-25.jpg"),
        Err(TimelapsifyError::ParseOhNo("minute"))
    );
    assert_eq!(
        parse_timestamp("2022-07-12_05-30-60.jpg"),
        Err(TimelapsifyError::ParseOhNo("second"))
    );
}

#[test]
fn parse_knows_leap_years() {
    assert_eq!(
        parse_timestamp("2020-02-29_00-00-00.jpg"),
        Ok(mk_ts(2020, 2, 29, 0, 0, 0))
    );
    assert_eq!(
        parse_timestamp("2021-02-29_00-00-00.jpg"),
        Err(TimelapsifyError::ParseOhNo("day"))
    );
    assert_eq!(
        parse_timestamp("2000-02-29_00-00-00.jpg"),
        Ok(mk_ts(2000, 2, 29, 0, 0, 0))
    );
    assert_eq!(
        parse_timestamp("1900-02-29_00-00-00.jpg"),
        Err(TimelapsifyError::ParseOhNo("day"))
    );
}

#[test]
fn parse_day_accepts_clip_names() {
    assert_eq!(parse_day("2022-07-12.mp4"), Ok(mk_ts(2022, 7, 12, 0, 0, 0)));
    assert_eq!(parse_day("2020-02-29.mp4"), Ok(mk_ts(2020, 2, 29, 0, 0, 0)));
    assert_eq!(parse_day("0001-01-01.x"), Ok(mk_ts(1, 1, 1, 0, 0, 0)));
}

#[test]
fn parse_day_rejects_other_shapes() {
    assert_eq!(parse_day("2022-07-12."), Err(TimelapsifyError::RegexNoMatch));
    assert_eq!(parse_day("2022-07-12"), Err(TimelapsifyError::RegexNoMatch));
    assert_eq!(parse_day("2022_07-12.mp4"), Err(TimelapsifyError::RegexNoMatch));
    assert_eq!(
        parse_day("2022-07-12_05-30-25.jpg"),
        Err(TimelapsifyError::RegexNoMatch)
    );
    assert_eq!(parse_day("clip.mp4"), Err(TimelapsifyError::RegexNoMatch));
}

#[test]
fn parse_day_rejects_out_of_range_fields() {
    assert_eq!(parse_day("2022-13-01.mp4"), Err(TimelapsifyError::ParseOhNo("month")));
    assert_eq!(parse_day("2022-00-01.mp4"), Err(TimelapsifyError::ParseOhNo("month")));
    assert_eq!(parse_day("2022-02-30.mp4"), Err(TimelapsifyError::ParseOhNo("day")));
    assert_eq!(parse_day("2021-02-29.mp4"), Err(TimelapsifyError::ParseOhNo("day")));
    assert_eq!(parse_day("2022-07-00.mp4"), Err(TimelapsifyError::ParseOhNo("day")));
}

#[test]
fn try_from_keeps_the_path_and_parses_the_name() {
    let got = TimestampedFile::try_from(String::from("upload/x/2022-07-12_05-30-25.jpg"))
        .unwrap();
    assert_eq!(got.file, "upload/x/2022-07-12_05-30-25.jpg");
    assert_eq!(got.timestamp, mk_ts(2022, 7, 12, 5, 30, 25));
}

#[test]
fn try_from_ignores_trailing_slashes() {
    // As with the platform's file-name inspection, trailing slashes do not
    // hide the last component: "upload/x/" names "x", a pattern mismatch.
    assert_eq!(
        TimestampedFile::try_from(String::from("upload/x/")).unwrap_err(),
        TimelapsifyError::RegexNoMatch
    );
    let got = TimestampedFile::try_from(String::from("up/2022-07-12_05-30-25.jpg/")).unwrap();
    assert_eq!(got.file, "up/2022-07-12_05-30-25.jpg/");
    assert_eq!(got.timestamp, mk_ts(2022, 7, 12, 5, 30, 25));
}

#[test]
fn try_from_reports_a_missing_file_name() {
    // Only a path of slashes alone (or an empty one) has no component.
    let got = TimestampedFile::try_from(String::from("///"));
    match got {
        Err(TimelapsifyError::FileHuh { msg: _, rugrat }) => {
            assert_eq!(rugrat, "///");
        }
        other => panic!("expected FileHuh, got {other:?}"),
    }
    assert!(matches!(
        TimestampedFile::try_from(String::from("")),
        Err(TimelapsifyError::FileHuh { .. })
    ));
}

#[test]
fn try_from_passes_parse_errors_through() {
    assert_eq!(
        TimestampedFile::try_from(String::from("a/b/selfie.jpg")).unwrap_err(),
        TimelapsifyError::RegexNoMatch
    );
    assert_eq!(
        TimestampedFile::try_from(String::from("a/2022-07-32_05-30-25.jpg")).unwrap_err(),
        TimelapsifyError::ParseOhNo("day")
    );
}

#[test]
fn file_option_issue_names_the_path() {
    let e = TimelapsifyError::file_option_issue("weird/");
    match e {
        TimelapsifyError::FileHuh { msg, rugrat } => {
            assert_eq!(msg, "a method on a str-like which returns option failed");
            assert_eq!(rugrat, "weird/");
        }
        other => panic!("expected FileHuh, got {other:?}"),
    }
}
