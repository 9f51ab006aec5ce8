//! Reading the report of a loudness measurement.
//!
//! The report is the text that the measurement writes while it runs. Each
//! line that starts with the name of the measurement and holds a `t:` and an
//! `M:` field is one sample. The report closes with a block of thirteen
//! lines: a status line that gives the length of the track as
//! hours:minutes:seconds, and a summary that gives the integrated loudness.

use vstd::prelude::*;
use vstd::slice::slice_subrange;
use vstd::string::*;
use crate::analyzer::{analyze, is_analysis_of, AnalyzeResult};
use crate::decimal::{decimal_value, lemma_decimal_value_bound, parse_decimal};
use crate::profile::{LoudnessSample, MeasurementError, ProfileView, TrackLoudnessProfile};
use crate::text::{
    ascii_bytes,
    find,
    find_byte,
    first_occurrence,
    lines_of,
    matches_at,
    occurs_at,
    position_of,
    split_lines,
    trim,
    trimmed,
};

verus! {

/// Number of lines in the closing block of a report.
pub const CLOSING_LINES: usize = 13;

/// How far from the end of the report the line with the integrated loudness
/// stands.
pub const INTEGRATED_LINE_FROM_END: usize = 8;

/// Width of the time and loudness fields of a sample line.
pub const FIELD_WIDTH: usize = 6;

/// Width of the markers that stand in front of those fields.
pub const MARKER_WIDTH: usize = 2;

/// Column of a summary line at which the integrated loudness starts.
pub const INTEGRATED_COLUMN: usize = 15;

/// Width of the integrated loudness.
pub const INTEGRATED_WIDTH: usize = 5;

/// Column of a status line at which the track length starts.
pub const DURATION_COLUMN: usize = 14;

/// Width of the track length.
pub const DURATION_WIDTH: usize = 11;

/// The colon, which stands between hours, minutes and seconds.
pub const COLON: u8 = 0x3a;

/// What every sample line starts with.
pub open spec fn sample_prefix() -> Seq<u8> {
    ascii_bytes("[Parsed_ebur128"@)
}

/// What stands in front of the time of a sample.
pub open spec fn time_marker() -> Seq<u8> {
    ascii_bytes("t:"@)
}

/// What stands in front of the momentary loudness of a sample.
pub open spec fn loudness_marker() -> Seq<u8> {
    ascii_bytes("M:"@)
}

/// The decimal number that stands in columns `from` to `to` of `line`,
/// blanks around it aside; nothing where the line is shorter or the columns
/// hold no number.
pub open spec fn field_value(line: Seq<u8>, from: int, to: int) -> Option<int> {
    if 0 <= from <= to <= line.len() {
        decimal_value(trimmed(line.subrange(from, to)))
    } else {
        None
    }
}

/// What one line of a report holds.
#[derive(Clone, Copy, Debug, PartialEq, Eq, Structural)]
pub enum LineReading {
    /// The line is no sample line.
    Skipped,
    /// The sample that the line gives.
    Sample(LoudnessSample),
    /// The line is a sample line with a field that cannot be read.
    Failed(MeasurementError),
}

/// What `line` holds. A line that does not start with the sample prefix, or
/// that lacks one of the two markers, is skipped. The time is read before
/// the loudness marker is looked for, so a sample line with a bad time fails
/// even where it has no loudness.
pub open spec fn reading_of(line: Seq<u8>) -> LineReading {
    if !occurs_at(line, sample_prefix(), 0) {
        LineReading::Skipped
    } else {
        match first_occurrence(line, time_marker(), 0) {
            None => LineReading::Skipped,
            Some(t) => match field_value(line, t + MARKER_WIDTH, t + MARKER_WIDTH + FIELD_WIDTH) {
                None => LineReading::Failed(MeasurementError::BadTime),
                Some(time) => if time < 0 {
                    LineReading::Failed(MeasurementError::BadTime)
                } else {
                    match first_occurrence(line, loudness_marker(), 0) {
                        None => LineReading::Skipped,
                        Some(m) => match field_value(
                            line,
                            m + MARKER_WIDTH,
                            m + MARKER_WIDTH + FIELD_WIDTH,
                        ) {
                            None => LineReading::Failed(MeasurementError::BadLoudness),
                            Some(loudness) => LineReading::Sample(
                                LoudnessSample { time: time as u64, loudness: loudness as i64 },
                            ),
                        },
                    }
                },
            },
        }
    }
}

/// The samples that the first `count` lines give, in their order, or the
/// failure of the first line that fails.
pub open spec fn samples_of(lines: Seq<Seq<u8>>, count: int) -> Result<
    Seq<LoudnessSample>,
    MeasurementError,
>
    decreases count,
{
    if count <= 0 {
        Ok(Seq::empty())
    } else {
        match samples_of(lines, count - 1) {
            Err(e) => Err(e),
            Ok(samples) => match reading_of(lines[count - 1]) {
                LineReading::Skipped => Ok(samples),
                LineReading::Sample(sample) => Ok(samples.push(sample)),
                LineReading::Failed(e) => Err(e),
            },
        }
    }
}

/// The length of time that `field` writes as hours:minutes:seconds, in
/// millionths of a second. Each of the three is a decimal number; what
/// follows a third colon is not read.
pub open spec fn hms_value(field: Seq<u8>) -> Option<int> {
    let first = position_of(field, COLON, 0);
    let second = position_of(field, COLON, first + 1);
    let third = position_of(field, COLON, second + 1);
    if first < field.len() && second < field.len() {
        match (
            decimal_value(field.subrange(0, first)),
            decimal_value(field.subrange(first + 1, second)),
            decimal_value(field.subrange(second + 1, third)),
        ) {
            (Some(hours), Some(minutes), Some(seconds)) => Some(
                hours * 3600 + minutes * 60 + seconds,
            ),
            _ => None,
        }
    } else {
        None
    }
}

/// The integrated loudness that a summary line gives in its columns 15 to
/// 20.
pub open spec fn integrated_of(line: Seq<u8>) -> Option<int> {
    field_value(line, INTEGRATED_COLUMN as int, INTEGRATED_COLUMN + INTEGRATED_WIDTH)
}

/// The track length that a status line gives in its columns 14 to 25,
/// where it is not negative and fits the type of a time.
pub open spec fn duration_of(line: Seq<u8>) -> Option<int> {
    if line.len() >= DURATION_COLUMN + DURATION_WIDTH {
        match hms_value(
            line.subrange(DURATION_COLUMN as int, DURATION_COLUMN + DURATION_WIDTH),
        ) {
            Some(length) => if 0 <= length <= u64::MAX {
                Some(length)
            } else {
                None
            },
            None => None,
        }
    } else {
        None
    }
}

/// The profile that the lines of a report give. The sample lines are those
/// up to and including the first line of the closing block. The first thing
/// wrong decides the error: a report shorter than the closing block, then a
/// sample line that fails, then the lack of samples, then the integrated
/// loudness, then the length.
pub open spec fn profile_of_lines(lines: Seq<Seq<u8>>) -> Result<ProfileView, MeasurementError> {
    let n = lines.len() as int;
    if n < CLOSING_LINES {
        Err(MeasurementError::Truncated)
    } else {
        match samples_of(lines, n - CLOSING_LINES + 1) {
            Err(e) => Err(e),
            Ok(samples) => if samples.len() == 0 {
                Err(MeasurementError::NoSamples)
            } else {
                match integrated_of(lines[n - INTEGRATED_LINE_FROM_END]) {
                    None => Err(MeasurementError::BadIntegratedLoudness),
                    Some(integrated) => match duration_of(lines[n - CLOSING_LINES]) {
                        None => Err(MeasurementError::BadDuration),
                        Some(duration) => Ok(
                            ProfileView {
                                samples,
                                integrated_loudness: integrated as i64,
                                duration: duration as u64,
                            },
                        ),
                    },
                }
            },
        }
    }
}

/// The profile that a report gives.
pub open spec fn profile_of_report(report: Seq<u8>) -> Result<ProfileView, MeasurementError> {
    profile_of_lines(lines_of(report))
}

/// The bytes of a text of ASCII characters.
fn ascii(text: &'static str) -> (bytes: &'static [u8])
    requires
        text.is_ascii(),
    ensures
        bytes@ == ascii_bytes(text@),
{
    let bytes = text.as_bytes();
    proof {
        is_ascii_spec_bytes(text);
        assert(bytes@ =~= ascii_bytes(text@));
    }
    bytes
}

/// Reads the decimal number in the `width` columns of `line` from `from` on.
fn read_field(line: &[u8], from: usize, width: usize) -> (value: Option<i64>)
    ensures
        value.is_some() == field_value(line@, from as int, from + width).is_some(),
        value matches Some(v) ==> field_value(line@, from as int, from + width) == Some(v as int),
{
    if from > line.len() || width > line.len() - from {
        return None;
    }
    parse_decimal(trim(slice_subrange(line, from, from + width)))
}

/// Reads one line of a report.
pub fn read_line(line: &[u8]) -> (reading: LineReading)
    ensures
        reading == reading_of(line@),
{
    proof {
        reveal_strlit("[Parsed_ebur128");
        reveal_strlit("t:");
        reveal_strlit("M:");
    }
    if !matches_at(line, ascii("[Parsed_ebur128"), 0) {
        return LineReading::Skipped;
    }
    assert(time_marker().len() == MARKER_WIDTH && loudness_marker().len() == MARKER_WIDTH);
    let t: usize = match find(line, ascii("t:")) {
        Some(t) => t,
        None => {
            return LineReading::Skipped;
        },
    };
    assert(occurs_at(line@, time_marker(), t as int));
    let time: i64 = match read_field(line, t + MARKER_WIDTH, FIELD_WIDTH) {
        Some(time) => time,
        None => {
            return LineReading::Failed(MeasurementError::BadTime);
        },
    };
    if time < 0 {
        return LineReading::Failed(MeasurementError::BadTime);
    }
    let m: usize = match find(line, ascii("M:")) {
        Some(m) => m,
        None => {
            return LineReading::Skipped;
        },
    };
    assert(occurs_at(line@, loudness_marker(), m as int));
    match read_field(line, m + MARKER_WIDTH, FIELD_WIDTH) {
        Some(loudness) => LineReading::Sample(LoudnessSample { time: time as u64, loudness }),
        None => LineReading::Failed(MeasurementError::BadLoudness),
    }
}

/// Reads a length of time written as hours:minutes:seconds.
pub fn parse_hms(field: &[u8]) -> (length: Option<i128>)
    ensures
        length.is_some() == hms_value(field@).is_some(),
        length matches Some(v) ==> hms_value(field@) == Some(v as int),
{
    let n: usize = field.len();
    let first: usize = find_byte(field, COLON, 0);
    if first >= n {
        return None;
    }
    let second: usize = find_byte(field, COLON, first + 1);
    if second >= n {
        return None;
    }
    let third: usize = find_byte(field, COLON, second + 1);
    let hours = parse_decimal(slice_subrange(field, 0, first));
    let minutes = parse_decimal(slice_subrange(field, first + 1, second));
    let seconds = parse_decimal(slice_subrange(field, second + 1, third));
    proof {
        lemma_decimal_value_bound(field@.subrange(0, first as int));
        lemma_decimal_value_bound(field@.subrange(first + 1, second as int));
        lemma_decimal_value_bound(field@.subrange(second + 1, third as int));
    }
    match (hours, minutes, seconds) {
        (Some(hours), Some(minutes), Some(seconds)) => Some(
            hours as i128 * 3600 + minutes as i128 * 60 + seconds as i128,
        ),
        _ => None,
    }
}

/// Reads the track length from a status line.
fn read_duration(line: &[u8]) -> (duration: Option<u64>)
    ensures
        duration.is_some() == duration_of(line@).is_some(),
        duration matches Some(v) ==> duration_of(line@) == Some(v as int),
{
    if line.len() < DURATION_COLUMN + DURATION_WIDTH {
        return None;
    }
    match parse_hms(slice_subrange(line, DURATION_COLUMN, DURATION_COLUMN + DURATION_WIDTH)) {
        Some(length) => if 0 <= length && length <= u64::MAX as i128 {
            Some(length as u64)
        } else {
            None
        },
        None => None,
    }
}

/// Reads the report of a measurement into the profile of the track.
pub fn parse_report(report: &[u8]) -> (profile: Result<TrackLoudnessProfile, MeasurementError>)
    ensures
        match profile_of_report(report@) {
            Ok(view) => profile is Ok && profile->Ok_0@ == view,
            Err(e) => profile is Err && profile->Err_0 == e,
        },
{
    let lines = split_lines(report);
    let ghost texts = lines_of(report@);
    let n: usize = lines.len();
    if n < CLOSING_LINES {
        return Err(MeasurementError::Truncated);
    }
    let count: usize = n - CLOSING_LINES + 1;
    let mut samples: Vec<LoudnessSample> = Vec::new();
    let mut i: usize = 0;
    while i < count
        invariant
            i <= count,
            count == n - CLOSING_LINES + 1,
            n == lines@.len(),
            n == texts.len(),
            texts == lines_of(report@),
            forall|k: int| 0 <= k < n ==> (#[trigger] lines@[k])@ == texts[k],
            samples_of(texts, i as int) == Ok::<_, MeasurementError>(samples@),
        decreases count - i,
    {
        match read_line(lines[i]) {
            LineReading::Skipped => {},
            LineReading::Sample(sample) => {
                samples.push(sample);
            },
            LineReading::Failed(e) => {
                proof {
                    assert(samples_of(texts, i + 1) == Err::<Seq<LoudnessSample>, _>(e));
                    lemma_samples_fail_for_good(texts, i + 1, count as int);
                }
                return Err(e);
            },
        }
        i += 1;
    }
    if samples.len() == 0 {
        return Err(MeasurementError::NoSamples);
    }
    proof {
        lemma_decimal_value_bound(
            trimmed(
                texts[n - INTEGRATED_LINE_FROM_END].subrange(
                    INTEGRATED_COLUMN as int,
                    INTEGRATED_COLUMN + INTEGRATED_WIDTH,
                ),
            ),
        );
    }
    let integrated: i64 = match read_field(
        lines[n - INTEGRATED_LINE_FROM_END],
        INTEGRATED_COLUMN,
        INTEGRATED_WIDTH,
    ) {
        Some(integrated) => integrated,
        None => {
            return Err(MeasurementError::BadIntegratedLoudness);
        },
    };
    let duration: u64 = match read_duration(lines[n - CLOSING_LINES]) {
        Some(duration) => duration,
        None => {
            return Err(MeasurementError::BadDuration);
        },
    };
    TrackLoudnessProfile::new(samples, integrated, duration)
}

/// Once a line has failed, reading more lines gives the same failure.
proof fn lemma_samples_fail_for_good(lines: Seq<Seq<u8>>, failed: int, count: int)
    requires
        0 <= failed <= count,
        samples_of(lines, failed) is Err,
    ensures
        samples_of(lines, count) == samples_of(lines, failed),
    decreases count - failed,
{
    if failed < count {
        lemma_samples_fail_for_good(lines, failed, count - 1);
    }
}

/// Analyzes the media file `path` from the report of its measurement: the
/// analysis of the profile that the report gives, or the reason why it
/// gives none.
pub fn analyze_report(path: &str, report: &[u8], vol_drop: i64, vol_start: i64) -> (result: Result<
    AnalyzeResult,
    MeasurementError,
>)
    ensures
        match profile_of_report(report@) {
            Ok(view) => result is Ok && is_analysis_of(
                result->Ok_0,
                path@,
                view,
                vol_drop as int,
                vol_start as int,
            ),
            Err(e) => result is Err && result->Err_0 == e,
        },
{
    match parse_report(report) {
        Ok(profile) => Ok(analyze(path, &profile, vol_drop, vol_start)),
        Err(e) => Err(e),
    }
}

} // verus!
