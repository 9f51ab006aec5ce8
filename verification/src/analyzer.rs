//! The cue and fade analysis of one track.
//!
//! The cue-in point is where the track first becomes louder than a level a
//! given distance below its integrated loudness. The measurement reports a
//! rise only once its 400 ms window has filled, so the point is moved back
//! by that much. The next track starts where this one was last louder than a
//! second such level. Where that leaves a quiet tail of more than 15 seconds,
//! the level is lowered once by 15 loudness units and the last crossing of
//! the lowered level is taken instead.

use vstd::prelude::*;
use crate::profile::{ProfileView, TrackLoudnessProfile};
use crate::scan::{backward_time, first_time_threshold, forward_time};

verus! {

/// Default distance below the integrated loudness at which the next track is
/// started: 8 loudness units.
pub const DEFAULT_DROP_THRESHOLD: i64 = 8_000_000;

/// Default distance below the integrated loudness that marks the start of a
/// track: 40 loudness units.
pub const DEFAULT_START_THRESHOLD: i64 = 40_000_000;

/// Length of the measurement window by which a cue-in point is moved back:
/// 0.4 seconds.
pub const WINDOW_COMPENSATION: u64 = 400_000;

/// Longest quiet tail that is accepted as it is: 15 seconds.
pub const TAIL_LIMIT: u64 = 15_000_000;

/// By how much the level is lowered for a track with a longer tail: 15
/// loudness units.
pub const TAIL_LEVEL_DROP: i64 = 15_000_000;

/// What the analysis of one track yields.
#[derive(Clone, Debug, PartialEq, Eq)]
pub struct AnalyzeResult {
    /// How long before the end of the track the next one starts, in
    /// millionths of a second.
    pub start_next: u64,
    /// Where the track is cued in, in millionths of a second from its start.
    pub cue_point: u64,
    /// Length of the track, in millionths of a second.
    pub duration: u64,
    /// Integrated loudness of the track, in millionths of a loudness unit.
    pub loudness: i64,
    /// The media file that was analyzed.
    pub path: String,
}

/// A crossing time moved back by the measurement window, and not before the
/// start of the track.
pub open spec fn window_compensated(raw: int) -> int {
    if raw < WINDOW_COMPENSATION {
        0
    } else {
        raw - WINDOW_COMPENSATION
    }
}

/// The cue-in point of a profile: the first time its loudness exceeds the
/// integrated loudness less `vol_start`, compensated for the window.
pub open spec fn cue_point_of(profile: ProfileView, vol_start: int) -> int {
    window_compensated(
        forward_time(profile.samples, profile.integrated_loudness - vol_start) as int,
    )
}

/// The last time the loudness exceeds the integrated loudness less `vol_drop`.
pub open spec fn primary_drop_time(profile: ProfileView, vol_drop: int) -> int {
    backward_time(profile.samples, profile.integrated_loudness - vol_drop) as int
}

/// The last time the loudness exceeds the level lowered for a long tail.
pub open spec fn corrected_drop_time(profile: ProfileView, vol_drop: int) -> int {
    backward_time(
        profile.samples,
        profile.integrated_loudness - vol_drop - TAIL_LEVEL_DROP,
    ) as int
}

/// Whether the tail after the primary drop time is longer than the limit.
pub open spec fn has_long_tail(profile: ProfileView, vol_drop: int) -> bool {
    profile.duration - primary_drop_time(profile, vol_drop) > TAIL_LIMIT
}

/// The time at which the final tail of the track begins: the primary drop
/// time, or the corrected one where the tail is long. The corrected time is
/// taken as it is, however long the tail it leaves.
pub open spec fn drop_time_of(profile: ProfileView, vol_drop: int) -> int {
    if has_long_tail(profile, vol_drop) {
        corrected_drop_time(profile, vol_drop)
    } else {
        primary_drop_time(profile, vol_drop)
    }
}

/// How long before the end of the track the next one starts: the distance
/// from the drop time to the end, and 0 where the drop time lies beyond it.
pub open spec fn start_next_of(profile: ProfileView, vol_drop: int) -> int {
    let remaining = profile.duration - drop_time_of(profile, vol_drop);
    if remaining < 0 {
        0
    } else {
        remaining
    }
}

/// `result` is the analysis of `profile` for the file `path` under the two
/// thresholds.
pub open spec fn is_analysis_of(
    result: AnalyzeResult,
    path: Seq<char>,
    profile: ProfileView,
    vol_drop: int,
    vol_start: int,
) -> bool {
    &&& result.cue_point == cue_point_of(profile, vol_start)
    &&& result.start_next == start_next_of(profile, vol_drop)
    &&& result.duration == profile.duration
    &&& result.loudness == profile.integrated_loudness
    &&& result.path@ == path
}

/// The window compensation never gives a negative cue-in point, gives 0 for
/// every crossing earlier than the window is long, and moves every other
/// crossing back by exactly the window.
pub proof fn lemma_window_compensation(raw: int)
    ensures
        window_compensated(raw) >= 0,
        raw < WINDOW_COMPENSATION ==> window_compensated(raw) == 0,
        raw >= WINDOW_COMPENSATION ==> window_compensated(raw) == raw - WINDOW_COMPENSATION,
{
}

/// The tail correction is made exactly where the tail after the primary drop
/// time is longer than 15 seconds: a tail of 15 seconds or less leaves the
/// primary drop time in place, a longer one replaces it by the last crossing
/// of the level lowered by 15 loudness units.
pub proof fn lemma_tail_correction(profile: ProfileView, vol_drop: int)
    ensures
        profile.duration - primary_drop_time(profile, vol_drop) <= 15_000_000 ==> drop_time_of(
            profile,
            vol_drop,
        ) == primary_drop_time(profile, vol_drop),
        profile.duration - primary_drop_time(profile, vol_drop) > 15_000_000 ==> drop_time_of(
            profile,
            vol_drop,
        ) == backward_time(
            profile.samples,
            profile.integrated_loudness - vol_drop - 15_000_000,
        ),
{
}

/// Both points of an analysis lie within the track: the next track never
/// starts earlier than this one, and where no sample is later than the end
/// of the track, the cue-in point is not either.
pub proof fn lemma_points_within_track(profile: ProfileView, vol_drop: int, vol_start: int)
    ensures
        0 <= cue_point_of(profile, vol_start),
        0 <= start_next_of(profile, vol_drop) <= profile.duration,
        profile.samples_within_duration() ==> cue_point_of(profile, vol_start)
            <= profile.duration,
{
    if profile.samples_within_duration() {
        lemma_forward_time_within(
            profile.samples,
            profile.integrated_loudness - vol_start,
            profile.duration as int,
        );
    }
}

proof fn lemma_forward_time_within(
    samples: Seq<crate::profile::LoudnessSample>,
    threshold: int,
    bound: int,
)
    requires
        0 <= bound,
        forall|i: int| 0 <= i < samples.len() ==> (#[trigger] samples[i]).time <= bound,
    ensures
        forward_time(samples, threshold) <= bound,
    decreases samples.len(),
{
    if samples.len() > 0 {
        let rest = samples.drop_first();
        assert(samples[0].time <= bound);
        assert forall|i: int| 0 <= i < rest.len() implies (#[trigger] rest[i]).time <= bound by {
            assert(rest[i] == samples[i + 1]);
        }
        lemma_forward_time_within(rest, threshold, bound);
    }
}

/// Analyzing the same profile under the same thresholds gives the same
/// result: any two analyses agree in every field.
pub proof fn lemma_analysis_is_unique(
    first: AnalyzeResult,
    second: AnalyzeResult,
    path: Seq<char>,
    profile: ProfileView,
    vol_drop: int,
    vol_start: int,
)
    requires
        is_analysis_of(first, path, profile, vol_drop, vol_start),
        is_analysis_of(second, path, profile, vol_drop, vol_start),
    ensures
        first.cue_point == second.cue_point,
        first.start_next == second.start_next,
        first.duration == second.duration,
        first.loudness == second.loudness,
        first.path@ == second.path@,
{
}

/// The cue-in point of `profile`: `vol_start` is how far below the
/// integrated loudness the track counts as started.
pub fn cue_point(profile: &TrackLoudnessProfile, vol_start: i64) -> (cue: u64)
    ensures
        cue == cue_point_of(profile@, vol_start as int),
{
    let cue_level: i128 = profile.integrated_loudness() as i128 - vol_start as i128;
    let raw: u64 = first_time_threshold(profile.samples(), cue_level, false);
    if raw < WINDOW_COMPENSATION {
        0
    } else {
        raw - WINDOW_COMPENSATION
    }
}

/// How long before the end of `profile` the next track starts: `vol_drop` is
/// how far below the integrated loudness the track counts as fading out.
pub fn start_next(profile: &TrackLoudnessProfile, vol_drop: i64) -> (remaining: u64)
    ensures
        remaining == start_next_of(profile@, vol_drop as int),
{
    let duration: u64 = profile.duration();
    let next_level: i128 = profile.integrated_loudness() as i128 - vol_drop as i128;
    let mut next_time: u64 = first_time_threshold(profile.samples(), next_level, true);
    if duration > next_time && duration - next_time > TAIL_LIMIT {
        next_time = first_time_threshold(
            profile.samples(),
            next_level - TAIL_LEVEL_DROP as i128,
            true,
        );
    }
    if duration > next_time {
        duration - next_time
    } else {
        0
    }
}

/// Analyzes the profile of the media file `path`.
pub fn analyze(path: &str, profile: &TrackLoudnessProfile, vol_drop: i64, vol_start: i64) -> (result:
    AnalyzeResult)
    ensures
        is_analysis_of(result, path@, profile@, vol_drop as int, vol_start as int),
        result.start_next <= result.duration,
        profile@.samples_within_duration() ==> result.cue_point <= result.duration,
{
    proof {
        lemma_points_within_track(profile@, vol_drop as int, vol_start as int);
    }
    AnalyzeResult {
        start_next: start_next(profile, vol_drop),
        cue_point: cue_point(profile, vol_start),
        duration: profile.duration(),
        loudness: profile.integrated_loudness(),
        path: path.to_owned(),
    }
}

} // verus!
