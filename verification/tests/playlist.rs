use cue_analyzer::analyzer::AnalyzeResult;
use cue_analyzer::playlist::{
    annotate_line, is_playlist_entry, playlist_entries, processed_file_name, push_annotation,
    render_playlist, TARGET_LOUDNESS,
};

fn first_track() -> AnalyzeResult {
    AnalyzeResult {
        start_next: 5_250_000,
        cue_point: 1_234_567,
        duration: 200_000_000,
        loudness: -14_000_000,
        path: String::from("/music/first track.flac"),
    }
}

fn second_track() -> AnalyzeResult {
    AnalyzeResult {
        start_next: 0,
        cue_point: 0,
        duration: 61_005_000,
        loudness: -30_500_000,
        path: String::from("b.mp3"),
    }
}

const FIRST_LINE: &str = "annotate:liq_cue_in=\"1.235\",liq_cross_duration=\"5.250\",duration=\"200.000\",liq_amplify=\"-9.000dB\":/music/first track.flac\n";
const SECOND_LINE: &str = "annotate:liq_cue_in=\"0.000\",liq_cross_duration=\"0.000\",duration=\"61.005\",liq_amplify=\"7.500dB\":b.mp3\n";

#[test]
fn header_and_empty_lines_are_no_entries() {
    assert!(!is_playlist_entry("#EXTM3U"));
    assert!(!is_playlist_entry("#EXTM3U\n"));
    assert!(!is_playlist_entry(""));
    assert!(is_playlist_entry("a.flac"));
    assert!(is_playlist_entry("#EXTM3U "));
    assert!(is_playlist_entry("#extm3u"));
    assert!(is_playlist_entry("#EXTINF:123,Title"));
    assert!(is_playlist_entry(" "));
}

#[test]
fn entries_keep_their_order() {
    let lines = vec![
        String::from("#EXTM3U"),
        String::from("one.flac"),
        String::new(),
        String::from("dir/two.mp3"),
        String::from("#EXTM3U\n"),
        String::from("one.flac"),
    ];
    assert_eq!(playlist_entries(&lines), vec!["one.flac", "dir/two.mp3", "one.flac"]);
    assert_eq!(playlist_entries(&Vec::new()), Vec::<String>::new());
}

#[test]
fn annotation_has_three_decimal_places() {
    assert_eq!(TARGET_LOUDNESS, -23_000_000);
    assert_eq!(annotate_line(&first_track()), FIRST_LINE);
    assert_eq!(annotate_line(&second_track()), SECOND_LINE);
}

#[test]
fn annotation_of_a_track_louder_than_anything_measured() {
    let track = AnalyzeResult {
        start_next: u64::MAX,
        cue_point: 1,
        duration: u64::MAX,
        loudness: i64::MIN,
        path: String::new(),
    };
    assert_eq!(
        annotate_line(&track),
        "annotate:liq_cue_in=\"0.000\",liq_cross_duration=\"18446744073709.552\",duration=\"18446744073709.552\",liq_amplify=\"9223372036831.776dB\":\n"
    );
}

#[test]
fn push_annotation_appends() {
    let mut text = String::from("# list\n");
    push_annotation(&mut text, &second_track());
    assert_eq!(text, format!("# list\n{}", SECOND_LINE));
}

#[test]
fn playlist_starts_with_the_header() {
    let results = vec![first_track(), second_track()];
    assert_eq!(render_playlist(&results, false), format!("#EXTM3U\n{}{}", FIRST_LINE, SECOND_LINE));
    assert_eq!(render_playlist(&Vec::new(), false), "#EXTM3U\n");
}

#[test]
fn appended_playlist_has_no_header() {
    let results = vec![second_track(), first_track()];
    assert_eq!(render_playlist(&results, true), format!("{}{}", SECOND_LINE, FIRST_LINE));
    assert_eq!(render_playlist(&Vec::new(), true), "");
}

#[test]
fn default_name_of_the_processed_playlist() {
    assert_eq!(processed_file_name("evening"), "evening-processed.m3u8");
    assert_eq!(processed_file_name(""), "-processed.m3u8");
}
