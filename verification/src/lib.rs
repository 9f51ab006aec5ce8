//! Cue-in and crossfade points for the tracks of a playlist.
//!
//! A track is described by its loudness profile: momentary-loudness samples
//! in the order in which they were measured, the integrated loudness of the
//! whole track and its length. From a profile the analyzer derives where the
//! track should be cued in and how long before its end the next track
//! should start. The results of a playlist are written as an annotated
//! playlist, one line for each track, in the order of the playlist.
//!
//! All quantities are exact fixed-point numbers in millionths of their unit:
//! times in millionths of a second, loudness in millionths of a loudness
//! unit. A decimal number with up to six decimal places is read without
//! loss, and the arithmetic of the analysis is exact. A value is rounded
//! only where it is written as text, to three decimal places.
//!
//! - [`profile`]: samples, the profile of a track, and why a measurement may
//!   give none.
//! - [`scan`]: the threshold scan over the samples.
//! - [`analyzer`]: cue-in point and start of the next track.
//! - [`report`]: reading the report of a loudness measurement.
//! - [`playlist`]: the entries of a playlist and the annotated lines.
//! - [`slots`]: keeping results in the order of the playlist.
//! - [`decimal`] and [`text`]: decimal numbers and byte text.

pub mod analyzer;
pub mod decimal;
pub mod playlist;
pub mod profile;
pub mod report;
pub mod scan;
pub mod slots;
pub mod text;
