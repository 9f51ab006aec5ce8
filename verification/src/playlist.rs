//! The playlist that is read and the annotated playlist that is written.

use vstd::prelude::*;
use vstd::string::*;
use crate::analyzer::AnalyzeResult;
use crate::decimal::{fixed3_text, push_fixed3};

verus! {

/// The loudness to which every track is brought: -23 loudness units
/// relative to full scale, in millionths.
pub const TARGET_LOUDNESS: i64 = -23_000_000;

/// Whether `line` is the header of a playlist: the header marker alone, or
/// with a line feed left behind it.
pub open spec fn is_header(line: Seq<char>) -> bool {
    line == "#EXTM3U"@ || line == "#EXTM3U\n"@
}

/// Whether `line` names a media file: it is neither empty nor the header.
pub open spec fn is_entry(line: Seq<char>) -> bool {
    line.len() > 0 && !is_header(line)
}

/// The texts of a sequence of strings.
pub open spec fn texts_of(lines: Seq<String>) -> Seq<Seq<char>> {
    lines.map_values(|line: String| line@)
}

/// The entries among the lines of a playlist, in their order.
pub open spec fn entries_of(lines: Seq<Seq<char>>) -> Seq<Seq<char>> {
    lines.filter(|line: Seq<char>| is_entry(line))
}

/// The gain that brings a track of integrated loudness `loudness` to the
/// target loudness.
pub open spec fn amplify_of(loudness: int) -> int {
    TARGET_LOUDNESS - loudness
}

/// The line of the annotated playlist for one analyzed track, with the line
/// feed that ends it. Every number has three decimal places.
pub open spec fn annotation_of(result: AnalyzeResult) -> Seq<char> {
    "annotate:liq_cue_in=\""@ + fixed3_text(result.cue_point as int)
        + "\",liq_cross_duration=\""@ + fixed3_text(result.start_next as int) + "\",duration=\""@
        + fixed3_text(result.duration as int) + "\",liq_amplify=\""@ + fixed3_text(
        amplify_of(result.loudness as int),
    ) + "dB\":"@ + result.path@ + "\n"@
}

/// The lines for `results`, one behind the other in the order of `results`.
pub open spec fn annotations_of(results: Seq<AnalyzeResult>) -> Seq<char>
    decreases results.len(),
{
    if results.len() == 0 {
        Seq::empty()
    } else {
        annotations_of(results.drop_last()) + annotation_of(results.last())
    }
}

/// The text that is written for `results`: the header line, unless the text
/// is appended to a playlist that is there already, and then the line of
/// each result.
pub open spec fn playlist_text(results: Seq<AnalyzeResult>, append: bool) -> Seq<char> {
    if append {
        annotations_of(results)
    } else {
        "#EXTM3U\n"@ + annotations_of(results)
    }
}

/// Whether `line` names a media file.
pub fn is_playlist_entry(line: &str) -> (entry: bool)
    ensures
        entry == is_entry(line@),
{
    if line.is_empty() {
        return false;
    }
    let owned: String = line.to_owned();
    let bare: String = String::from_str("#EXTM3U");
    let fed: String = String::from_str("#EXTM3U\n");
    !(owned == bare || owned == fed)
}

/// The entries among the lines of a playlist, in their order: every line
/// but the empty ones and the header.
pub fn playlist_entries(lines: &Vec<String>) -> (entries: Vec<String>)
    ensures
        texts_of(entries@) == entries_of(texts_of(lines@)),
{
    let n: usize = lines.len();
    let mut entries: Vec<String> = Vec::new();
    let ghost keep = |line: Seq<char>| is_entry(line);
    let mut i: usize = 0;
    proof {
        reveal_with_fuel(Seq::<_>::filter, 2);
        assert(texts_of(lines@).take(0) =~= Seq::<Seq<char>>::empty());
        assert(texts_of(entries@) =~= Seq::<Seq<char>>::empty());
    }
    while i < n
        invariant
            i <= n,
            n == lines@.len(),
            keep == |line: Seq<char>| is_entry(line),
            texts_of(entries@) == texts_of(lines@).take(i as int).filter(keep),
        decreases n - i,
    {
        let ghost before = texts_of(entries@);
        let ghost seen = texts_of(lines@).take(i + 1);
        proof {
            reveal_with_fuel(Seq::<_>::filter, 2);
            assert(seen.drop_last() =~= texts_of(lines@).take(i as int));
            assert(seen.last() == lines@[i as int]@);
        }
        if is_playlist_entry(lines[i].as_str()) {
            entries.push(lines[i].clone());
            assert(texts_of(entries@) =~= before.push(lines@[i as int]@));
        }
        i += 1;
    }
    assert(texts_of(lines@).take(n as int) =~= texts_of(lines@));
    entries
}

/// Appends the line for `result` to `out`.
pub fn push_annotation(out: &mut String, result: &AnalyzeResult)
    ensures
        final(out)@ == old(out)@ + annotation_of(*result),
{
    out.append("annotate:liq_cue_in=\"");
    push_fixed3(out, result.cue_point as i128);
    out.append("\",liq_cross_duration=\"");
    push_fixed3(out, result.start_next as i128);
    out.append("\",duration=\"");
    push_fixed3(out, result.duration as i128);
    out.append("\",liq_amplify=\"");
    push_fixed3(out, TARGET_LOUDNESS as i128 - result.loudness as i128);
    out.append("dB\":");
    out.append(result.path.as_str());
    out.append("\n");
    assert(final(out)@ =~= old(out)@ + annotation_of(*result));
}

/// The line of the annotated playlist for one analyzed track.
pub fn annotate_line(result: &AnalyzeResult) -> (line: String)
    ensures
        line@ == annotation_of(*result),
{
    let mut line = String::new();
    push_annotation(&mut line, result);
    line
}

/// The text that is written for `results`, which are in the order of the
/// playlist: the header line, unless `append` is set, and the line of each
/// result in that order.
pub fn render_playlist(results: &Vec<AnalyzeResult>, append: bool) -> (text: String)
    ensures
        text@ == playlist_text(results@, append),
{
    let mut text = String::new();
    if !append {
        text.append("#EXTM3U\n");
    }
    let ghost head = text@;
    let n: usize = results.len();
    let mut i: usize = 0;
    assert(results@.take(0) =~= Seq::<AnalyzeResult>::empty());
    while i < n
        invariant
            i <= n,
            n == results@.len(),
            text@ == head + annotations_of(results@.take(i as int)),
        decreases n - i,
    {
        proof {
            let seen = results@.take(i + 1);
            assert(seen.drop_last() =~= results@.take(i as int));
            assert(seen.last() == results@[i as int]);
        }
        push_annotation(&mut text, &results[i]);
        i += 1;
    }
    assert(results@.take(n as int) =~= results@);
    text
}

/// The name under which the annotated playlist is written where none is
/// given: the name of the playlist without its extension, followed by
/// `-processed.m3u8`.
pub fn processed_file_name(stem: &str) -> (name: String)
    ensures
        name@ == stem@ + "-processed.m3u8"@,
{
    let mut name: String = stem.to_owned();
    name.append("-processed.m3u8");
    name
}

} // verus!
