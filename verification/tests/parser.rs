use osu_extract::beatmap::{parse_osu, OsuFile};
use std::path::Path;

fn joined(directory: &str, name: &str) -> String {
    Path::new(directory).join(name).to_str().unwrap().to_string()
}

#[test]
fn parses_the_three_fields() {
    let record = parse_osu("Title:Foo\nArtist:Bar\nAudioFilename:song.mp3", "/songs/a");
    assert_eq!(
        record,
        OsuFile {
            artist: "Bar".to_string(),
            title: "Foo".to_string(),
            sound_path: joined("/songs/a", "song.mp3"),
        }
    );
    assert_eq!(record.sound_path, "/songs/a/song.mp3");
}

#[test]
fn empty_text_gives_empty_record() {
    let record = parse_osu("", "/songs/a");
    assert_eq!(record.title, "");
    assert_eq!(record.artist, "");
    assert_eq!(record.sound_path, "");
}

#[test]
fn missing_fields_stay_empty() {
    let record = parse_osu("[Metadata]\nTitle:Only\n", "/d");
    assert_eq!(record.title, "Only");
    assert_eq!(record.artist, "");
    assert_eq!(record.sound_path, "");
}

#[test]
fn last_occurrence_wins() {
    let record = parse_osu(
        "Title:First\nArtist:A\nTitle:Second\nAudioFilename:a.mp3\nArtist:B\nAudioFilename:b.ogg\nCreator:x",
        "/d",
    );
    assert_eq!(record.title, "Second");
    assert_eq!(record.artist, "B");
    assert_eq!(record.sound_path, "/d/b.ogg");
}

#[test]
fn last_occurrence_wins_even_when_empty() {
    let record = parse_osu("Title:First\nTitle:\n", "/d");
    assert_eq!(record.title, "");
}

#[test]
fn values_are_trimmed() {
    let record = parse_osu("Title: \t Foo Bar \r\nArtist:\u{3000}Baz\u{a0}\r\nAudioFilename: song.mp3 \r\n", "/d");
    assert_eq!(record.title, "Foo Bar");
    assert_eq!(record.artist, "Baz");
    assert_eq!(record.sound_path, "/d/song.mp3");
}

#[test]
fn splits_at_the_first_colon() {
    let record = parse_osu("Title:a:b:c\nArtist::x:", "/d");
    assert_eq!(record.title, "a:b:c");
    assert_eq!(record.artist, ":x:");
}

#[test]
fn keys_match_exactly() {
    let record = parse_osu(" Title:a\ntitle:b\nTitle :c\nTitleUnicode:d\nARTIST:e\nArtist\n", "/d");
    assert_eq!(record.title, "");
    assert_eq!(record.artist, "");
    assert_eq!(record.sound_path, "");
}

#[test]
fn lines_without_colon_are_skipped() {
    let record = parse_osu("osu file format v14\n\n[General]\nTitle\nArtist Bar\nTitle:T\n\n\n", "/d");
    assert_eq!(record.title, "T");
    assert_eq!(record.artist, "");
}

#[test]
fn carriage_return_alone_does_not_end_a_line() {
    let record = parse_osu("Title:a\rArtist:b", "/d");
    assert_eq!(record.title, "a\rArtist:b");
    assert_eq!(record.artist, "");
}

#[test]
fn binary_looking_text_is_accepted() {
    let record = parse_osu("\u{0}\u{1}:\u{2}\nTitle:\u{0}x\u{7f}\n::::\n\u{10ffff}", "/d");
    assert_eq!(record.title, "\u{0}x\u{7f}");
    assert_eq!(record.artist, "");
}

#[test]
fn absolute_sound_reference_replaces_directory() {
    let record = parse_osu("AudioFilename:/elsewhere/s.mp3", "/songs/a");
    assert_eq!(record.sound_path, joined("/songs/a", "/elsewhere/s.mp3"));
    assert_eq!(record.sound_path, "/elsewhere/s.mp3");
}

#[test]
fn empty_sound_reference_is_joined_too() {
    let record = parse_osu("AudioFilename:   ", "/songs/a");
    assert_eq!(record.sound_path, joined("/songs/a", ""));
}

#[test]
fn sound_reference_in_subdirectory() {
    let record = parse_osu("AudioFilename: audio/track one.ogg", "/songs/a");
    assert_eq!(record.sound_path, "/songs/a/audio/track one.ogg");
}
