//! Loudness samples and the profile of one track.

use vstd::prelude::*;

verus! {

/// One momentary-loudness measurement.
#[derive(Clone, Copy, Debug, PartialEq, Eq, Structural)]
pub struct LoudnessSample {
    /// Position in the track, in millionths of a second.
    pub time: u64,
    /// Momentary loudness at that position, in millionths of a loudness unit.
    pub loudness: i64,
}

/// Why a measurement gives no usable profile.
#[derive(Clone, Copy, Debug, PartialEq, Eq, Structural)]
pub enum MeasurementError {
    /// The report is too short to hold the closing summary.
    Truncated,
    /// A sample line carries a time that is not a non-negative decimal number.
    BadTime,
    /// A sample line carries a momentary loudness that is not a decimal number.
    BadLoudness,
    /// There is not a single sample.
    NoSamples,
    /// The integrated loudness of the summary is not a decimal number.
    BadIntegratedLoudness,
    /// The track length is not of the form hours:minutes:seconds.
    BadDuration,
}

impl MeasurementError {
    /// What went wrong, in words.
    pub open spec fn description(self) -> Seq<char> {
        match self {
            MeasurementError::Truncated => "the report of the measurement is incomplete"@,
            MeasurementError::BadTime => "a sample has no readable time"@,
            MeasurementError::BadLoudness => "a sample has no readable loudness"@,
            MeasurementError::NoSamples => "the measurement gave no samples"@,
            MeasurementError::BadIntegratedLoudness => "the integrated loudness cannot be read"@,
            MeasurementError::BadDuration => "the length of the track cannot be read"@,
        }
    }

    /// What went wrong, in words.
    pub fn describe(self) -> (text: &'static str)
        ensures
            text@ == self.description(),
    {
        match self {
            MeasurementError::Truncated => "the report of the measurement is incomplete",
            MeasurementError::BadTime => "a sample has no readable time",
            MeasurementError::BadLoudness => "a sample has no readable loudness",
            MeasurementError::NoSamples => "the measurement gave no samples",
            MeasurementError::BadIntegratedLoudness => "the integrated loudness cannot be read",
            MeasurementError::BadDuration => "the length of the track cannot be read",
        }
    }
}

/// The mathematical content of a [`TrackLoudnessProfile`].
pub ghost struct ProfileView {
    /// The samples, in the order in which they were measured.
    pub samples: Seq<LoudnessSample>,
    /// Integrated loudness of the whole track, in millionths of a loudness unit.
    pub integrated_loudness: i64,
    /// Length of the track, in millionths of a second.
    pub duration: u64,
}

impl ProfileView {
    /// Every sample lies within the track: none is later than its end.
    pub open spec fn samples_within_duration(self) -> bool {
        forall|i: int|
            0 <= i < self.samples.len() ==> (#[trigger] self.samples[i]).time <= self.duration
    }
}

/// The loudness profile of one track. It always holds at least one sample
/// and does not change once it is made.
pub struct TrackLoudnessProfile {
    samples: Vec<LoudnessSample>,
    integrated_loudness: i64,
    duration: u64,
}

impl View for TrackLoudnessProfile {
    type V = ProfileView;

    closed spec fn view(&self) -> ProfileView {
        ProfileView {
            samples: self.samples@,
            integrated_loudness: self.integrated_loudness,
            duration: self.duration,
        }
    }
}

impl TrackLoudnessProfile {
    #[verifier::type_invariant]
    spec fn has_samples(&self) -> bool {
        self.samples@.len() > 0
    }

    /// Makes a profile of the given measurements. A track without a single
    /// sample has no profile.
    pub fn new(samples: Vec<LoudnessSample>, integrated_loudness: i64, duration: u64) -> (made:
        Result<TrackLoudnessProfile, MeasurementError>)
        ensures
            samples@.len() == 0 ==> made == Err::<TrackLoudnessProfile, _>(
                MeasurementError::NoSamples,
            ),
            samples@.len() > 0 ==> made is Ok && made->Ok_0@ == (ProfileView {
                samples: samples@,
                integrated_loudness,
                duration,
            }),
    {
        if samples.len() == 0 {
            Err(MeasurementError::NoSamples)
        } else {
            Ok(TrackLoudnessProfile { samples, integrated_loudness, duration })
        }
    }

    /// The samples, in the order in which they were measured.
    pub fn samples(&self) -> (samples: &Vec<LoudnessSample>)
        ensures
            samples@ == self@.samples,
            samples@.len() > 0,
    {
        proof {
            use_type_invariant(self);
        }
        &self.samples
    }

    /// Integrated loudness of the whole track, in millionths of a loudness unit.
    pub fn integrated_loudness(&self) -> (loudness: i64)
        ensures
            loudness == self@.integrated_loudness,
    {
        self.integrated_loudness
    }

    /// Length of the track, in millionths of a second.
    pub fn duration(&self) -> (duration: u64)
        ensures
            duration == self@.duration,
    {
        self.duration
    }
}

} // verus!
