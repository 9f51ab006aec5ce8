use cue_analyzer::analyzer::AnalyzeResult;
use cue_analyzer::profile::{LoudnessSample, MeasurementError};
use cue_analyzer::report::{analyze_report, parse_hms, parse_report, read_line, LineReading};

fn sample_line(time: &str, momentary: &str) -> String {
    format!(
        "[Parsed_ebur128_0 @ 0x55d0c0a3b2c0] t: {:<10} TARGET:-23 LUFS    M:{:>6} S:-120.7     I: -14.0 LUFS       LRA:   0.0 LU",
        time, momentary
    )
}

fn closing_block(length: &str, integrated: &str) -> Vec<String> {
    vec![
        format!("size=N/A time={} bitrate=N/A speed= 512x    ", length),
        String::from("video:0kB audio:31008kB subtitle:0kB other streams:0kB global headers:0kB muxing overhead: unknown"),
        String::from("[Parsed_ebur128_0 @ 0x55d0c0a3b2c0] Summary:"),
        String::new(),
        String::from("  Integrated loudness:"),
        format!("    I:         {} LUFS", integrated),
        String::from("    Threshold: -24.0 LUFS"),
        String::new(),
        String::from("  Loudness range:"),
        String::from("    LRA:         5.0 LU"),
        String::from("    Threshold: -34.0 LUFS"),
        String::from("    LRA low:   -19.0 LUFS"),
        String::from("    LRA high:  -14.0 LUFS"),
    ]
}

fn report_of(body: Vec<String>, closing: Vec<String>) -> Vec<u8> {
    let mut lines = vec![
        String::from("Input #0, flac, from 'track.flac':"),
        String::from("  Duration: 00:03:00.00, start: 0.000000, bitrate: 900 kb/s"),
        String::from("Output #0, null, to 'null':"),
    ];
    lines.extend(body);
    lines.extend(closing);
    let mut text = lines.join("\n");
    text.push('\n');
    text.into_bytes()
}

fn usual_body() -> Vec<String> {
    vec![
        sample_line("0.0999773", "-60.0"),
        sample_line("0.4", "-20.0"),
        sample_line("1", "-15.0"),
        sample_line("179.5", "-40.0"),
        sample_line("180", "-50.0"),
    ]
}

fn usual_samples() -> Vec<LoudnessSample> {
    vec![
        LoudnessSample { time: 99_000, loudness: -60_000_000 },
        LoudnessSample { time: 400_000, loudness: -20_000_000 },
        LoudnessSample { time: 1_000_000, loudness: -15_000_000 },
        LoudnessSample { time: 179_500_000, loudness: -40_000_000 },
        LoudnessSample { time: 180_000_000, loudness: -50_000_000 },
    ]
}

fn error_of(report: &[u8]) -> Option<MeasurementError> {
    parse_report(report).err()
}

#[test]
fn sample_line_gives_time_and_loudness() {
    assert_eq!(
        read_line(sample_line("12.3", "-22.5").as_bytes()),
        LineReading::Sample(LoudnessSample { time: 12_300_000, loudness: -22_500_000 })
    );
    assert_eq!(
        read_line(sample_line("1234.56", "-120.7").as_bytes()),
        LineReading::Sample(LoudnessSample { time: 1_234_000_000, loudness: -120_700_000 })
    );
    assert_eq!(
        read_line(b"[Parsed_ebur128_9] M:   1.5 t:0.25  "),
        LineReading::Sample(LoudnessSample { time: 250_000, loudness: 1_500_000 })
    );
}

#[test]
fn time_field_is_six_columns_wide() {
    assert_eq!(
        read_line(sample_line("0.399979", "-22.5").as_bytes()),
        LineReading::Sample(LoudnessSample { time: 399_000, loudness: -22_500_000 })
    );
}

#[test]
fn other_lines_are_skipped() {
    assert_eq!(read_line(b""), LineReading::Skipped);
    assert_eq!(read_line(b"size=N/A time=00:03:00.00 bitrate=N/A"), LineReading::Skipped);
    assert_eq!(read_line(b" [Parsed_ebur128_0 @ 0x1] t: 1.0      M: -20.0"), LineReading::Skipped);
    assert_eq!(read_line(b"[Parsed_ebur128_0 @ 0x55d0c0a3b2c0] Summary:"), LineReading::Skipped);
    assert_eq!(read_line(b"[Parsed_ebur128_0 @ 0x1] t: 1.0      S: -20.0"), LineReading::Skipped);
    assert_eq!(read_line(b"[Parsed_ebur128_0 @ 0x1] M: -20.0 "), LineReading::Skipped);
}

#[test]
fn sample_line_with_a_bad_time_fails() {
    let bad_time = LineReading::Failed(MeasurementError::BadTime);
    assert_eq!(read_line(sample_line("abc", "-20.0").as_bytes()), bad_time);
    assert_eq!(read_line(sample_line("-1.5", "-20.0").as_bytes()), bad_time);
    assert_eq!(read_line(sample_line("1e3", "-20.0").as_bytes()), bad_time);
    assert_eq!(read_line(b"[Parsed_ebur128_0 @ 0x1] t: 1.0"), bad_time);
    assert_eq!(read_line(b"[Parsed_ebur128_9] M:   1.5 t:0.25"), bad_time);
    assert_eq!(read_line(b"[Parsed_ebur128_0 @ 0x1] t:      "), bad_time);
    assert_eq!(read_line(b"[Parsed_ebur128_0 @ 0x1] t: x     and no loudness"), bad_time);
}

#[test]
fn sample_line_with_a_bad_loudness_fails() {
    let bad_loudness = LineReading::Failed(MeasurementError::BadLoudness);
    assert_eq!(read_line(sample_line("1.0", "nan").as_bytes()), bad_loudness);
    assert_eq!(read_line(sample_line("1.0", "").as_bytes()), bad_loudness);
    assert_eq!(read_line(b"[Parsed_ebur128_0 @ 0x1] t: 1.0      M: -2"), bad_loudness);
}

#[test]
fn hours_minutes_seconds() {
    assert_eq!(parse_hms(b"00:03:00.05"), Some(180_050_000));
    assert_eq!(parse_hms(b"01:02:03.50"), Some(3_723_500_000));
    assert_eq!(parse_hms(b"0:0:0"), Some(0));
    assert_eq!(parse_hms(b"1:1:1:9"), Some(3_661_000_000));
    assert_eq!(parse_hms(b"-1:30:00"), Some(-1_800_000_000));
    assert_eq!(parse_hms(b"999999999999:0:0"), Some(3_599_999_999_996_400_000_000));
}

#[test]
fn hours_minutes_seconds_need_three_numbers() {
    assert_eq!(parse_hms(b""), None);
    assert_eq!(parse_hms(b"180.05"), None);
    assert_eq!(parse_hms(b"03:00.05"), None);
    assert_eq!(parse_hms(b"00:03:"), None);
    assert_eq!(parse_hms(b"00::05"), None);
    assert_eq!(parse_hms(b":03:05"), None);
    assert_eq!(parse_hms(b"00:03:N/A"), None);
    assert_eq!(parse_hms(b"00: 3:00"), None);
}

#[test]
fn report_gives_the_profile() {
    let report = report_of(usual_body(), closing_block("00:03:00.05", "-14.0"));
    match parse_report(&report) {
        Ok(profile) => {
            assert_eq!(profile.samples(), &usual_samples());
            assert_eq!(profile.integrated_loudness(), -14_000_000);
            assert_eq!(profile.duration(), 180_050_000);
        }
        Err(e) => panic!("no profile: {:?}", e),
    }
}

#[test]
fn report_with_carriage_returns() {
    let report = report_of(usual_body(), closing_block("00:03:00.05", "-14.0"));
    let text = String::from_utf8(report).unwrap().replace('\n', "\r\n");
    match parse_report(text.as_bytes()) {
        Ok(profile) => {
            assert_eq!(profile.samples(), &usual_samples());
            assert_eq!(profile.duration(), 180_050_000);
        }
        Err(e) => panic!("no profile: {:?}", e),
    }
}

#[test]
fn report_of_nothing_but_the_closing_block() {
    let mut closing = closing_block("00:00:10.00", " -9.5");
    closing[0] = String::from("[Parsed_ebur128:0:0:t: 9.9    M: -9.0 ");
    let report = closing.join("\n").into_bytes();
    match parse_report(&report) {
        Ok(profile) => {
            assert_eq!(profile.samples(), &vec![LoudnessSample { time: 9_900_000, loudness: -9_000_000 }]);
            assert_eq!(profile.integrated_loudness(), -9_500_000);
            assert_eq!(profile.duration(), 28_800_000_000);
        }
        Err(e) => panic!("no profile: {:?}", e),
    }
}

#[test]
fn sample_lines_in_the_summary_are_not_read() {
    let mut closing = closing_block("00:03:00.05", "-14.0");
    closing[1] = sample_line("200", "-1.0");
    let report = report_of(usual_body(), closing);
    match parse_report(&report) {
        Ok(profile) => assert_eq!(profile.samples(), &usual_samples()),
        Err(e) => panic!("no profile: {:?}", e),
    }
}

#[test]
fn short_report_is_truncated() {
    assert_eq!(error_of(b""), Some(MeasurementError::Truncated));
    assert_eq!(error_of(b"ffmpeg: command not found\n"), Some(MeasurementError::Truncated));
    let mut closing = closing_block("00:03:00.05", "-14.0");
    closing.remove(3);
    assert_eq!(error_of(closing.join("\n").as_bytes()), Some(MeasurementError::Truncated));
}

#[test]
fn report_without_samples() {
    let report = report_of(Vec::new(), closing_block("00:03:00.05", "-14.0"));
    assert_eq!(error_of(&report), Some(MeasurementError::NoSamples));
}

#[test]
fn report_with_a_bad_sample_line() {
    let mut body = usual_body();
    body[2] = sample_line("?", "-15.0");
    let report = report_of(body, closing_block("00:03:00.05", "-14.0"));
    assert_eq!(error_of(&report), Some(MeasurementError::BadTime));
    let mut body = usual_body();
    body[4] = sample_line("180", "-inf");
    let report = report_of(body, closing_block("00:03:00.05", "-14.0"));
    assert_eq!(error_of(&report), Some(MeasurementError::BadLoudness));
}

#[test]
fn first_bad_sample_line_decides() {
    let mut body = usual_body();
    body[1] = sample_line("0.4", "loud");
    body[3] = sample_line("late", "-40.0");
    let report = report_of(body, closing_block("bad", "bad"));
    assert_eq!(error_of(&report), Some(MeasurementError::BadLoudness));
}

#[test]
fn report_with_a_bad_integrated_loudness() {
    let report = report_of(usual_body(), closing_block("00:03:00.05", "  N/A"));
    assert_eq!(error_of(&report), Some(MeasurementError::BadIntegratedLoudness));
    let mut closing = closing_block("00:03:00.05", "-14.0");
    closing[5] = String::from("    I:");
    let report = report_of(usual_body(), closing);
    assert_eq!(error_of(&report), Some(MeasurementError::BadIntegratedLoudness));
    let report = report_of(usual_body(), closing_block("bad", "bad"));
    assert_eq!(error_of(&report), Some(MeasurementError::BadIntegratedLoudness));
}

#[test]
fn report_with_a_bad_length() {
    let report = report_of(usual_body(), closing_block("N/A", "-14.0"));
    assert_eq!(error_of(&report), Some(MeasurementError::BadDuration));
    let report = report_of(usual_body(), closing_block("-1:03:00.05", "-14.0"));
    assert_eq!(error_of(&report), Some(MeasurementError::BadDuration));
    let mut closing = closing_block("00:03:00.05", "-14.0");
    closing[0] = String::from("size=N/A time=00:03:00");
    let report = report_of(usual_body(), closing);
    assert_eq!(error_of(&report), Some(MeasurementError::BadDuration));
}

#[test]
fn analysis_from_a_report() {
    let report = report_of(usual_body(), closing_block("00:03:00.00", "-14.0"));
    assert_eq!(
        analyze_report("track.flac", &report, 8_000_000, 40_000_000),
        Ok(AnalyzeResult {
            start_next: 179_000_000,
            cue_point: 0,
            duration: 180_000_000,
            loudness: -14_000_000,
            path: String::from("track.flac"),
        })
    );
}

#[test]
fn analysis_from_a_bad_report() {
    assert_eq!(
        analyze_report("track.flac", b"No such file or directory\n", 8_000_000, 40_000_000),
        Err(MeasurementError::Truncated)
    );
}
