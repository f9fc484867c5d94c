//! The decisions of one extraction: whether a directory entry is a beatmap,
//! and, for a beatmap, which file is copied where and tagged with what. The
//! caller looks at the disk, hands over what it found, and carries out what
//! is decided here.

use crate::beatmap::{field, parse_osu, sound_path, OsuFile};
use crate::paths::{extension_of, join_path, joined_path, path_extension};
use crate::sanitize::{escape, escape_string, lemma_escape_adds_no_separator};
use crate::text::{lemma_contains_joined, same_text, trim, trimmed};
use vstd::prelude::*;
use vstd::string::StringExecFns;

verus! {

/// What a directory entry is to the extraction.
#[derive(Clone, Copy, Debug, PartialEq, Eq, Structural)]
pub enum Entry {
    /// Not a regular file, or a file of another kind: passed over in silence.
    Ignored,
    /// A regular file whose name has no extension: reported and passed over.
    WithoutExtension,
    /// A beatmap: read and extracted.
    Beatmap,
}

/// The view of an optional string.
pub open spec fn text_of(s: Option<&str>) -> Option<Seq<char>> {
    match s {
        Some(t) => Some(t@),
        None => None,
    }
}

/// What an entry is, given whether it is a regular file and the extension
/// of its name. Only the extension `osu`, in lower case, makes a beatmap.
pub open spec fn entry_kind(is_file: bool, extension: Option<Seq<char>>) -> Entry {
    if !is_file {
        Entry::Ignored
    } else {
        match extension {
            None => Entry::WithoutExtension,
            Some(e) => if e == "osu"@ {
                Entry::Beatmap
            } else {
                Entry::Ignored
            },
        }
    }
}

/// Classifies an entry by what is known of it.
pub fn entry_with_extension(is_file: bool, extension: Option<&str>) -> (entry: Entry)
    ensures
        entry == entry_kind(is_file, text_of(extension)),
{
    if !is_file {
        return Entry::Ignored;
    }
    match extension {
        None => Entry::WithoutExtension,
        Some(e) => {
            if same_text(e, "osu") {
                Entry::Beatmap
            } else {
                Entry::Ignored
            }
        },
    }
}

/// Classifies an entry by its file name.
pub fn classify_entry(is_file: bool, file_name: &str) -> (entry: Entry)
    ensures
        entry == entry_kind(is_file, path_extension(file_name@)),
{
    if !is_file {
        return Entry::Ignored;
    }
    match extension_of(file_name) {
        None => entry_with_extension(is_file, None),
        Some(e) => entry_with_extension(is_file, Some(e.as_str())),
    }
}

/// The name of an extracted file: the escaped title, ` - `, the escaped
/// artist, a dot and the sound file's extension.
pub open spec fn file_name(title: Seq<char>, artist: Seq<char>, extension: Seq<char>) -> Seq<char> {
    escape(title) + seq![' ', '-', ' '] + escape(artist) + seq!['.'] + extension
}

/// The name of an extracted file holds a slash only where the title, the
/// artist or the extension holds one: what is put around them, and the
/// escaping, bring none in.
pub proof fn lemma_file_name_separator(title: Seq<char>, artist: Seq<char>, extension: Seq<char>)
    ensures
        file_name(title, artist, extension).contains('/') <==> title.contains('/')
            || artist.contains('/') || extension.contains('/'),
{
    let dash = seq![' ', '-', ' '];
    let dot = seq!['.'];
    lemma_escape_adds_no_separator(title);
    lemma_escape_adds_no_separator(artist);
    lemma_contains_joined(escape(title), dash, '/');
    lemma_contains_joined(escape(title) + dash, escape(artist), '/');
    lemma_contains_joined(escape(title) + dash + escape(artist), dot, '/');
    lemma_contains_joined(escape(title) + dash + escape(artist) + dot, extension, '/');
    if dash.contains('/') {
        let i = choose|i: int| 0 <= i < dash.len() && dash[i] == '/';
        assert(dash[i] != '/');
    }
    if dot.contains('/') {
        let i = choose|i: int| 0 <= i < dot.len() && dot[i] == '/';
        assert(dot[i] != '/');
    }
}

/// Builds the name of an extracted file.
pub fn output_file_name(title: &str, artist: &str, extension: &str) -> (name: String)
    ensures
        name@ == file_name(title@, artist@, extension@),
{
    let mut name = escape_string(title);
    name.push(' ');
    name.push('-');
    name.push(' ');
    let escaped_artist = escape_string(artist);
    name.append(escaped_artist.as_str());
    name.push('.');
    name.append(extension);
    assert(name@ =~= file_name(title@, artist@, extension@));
    name
}

/// What is to be done for one beatmap.
#[derive(Debug, PartialEq, Eq)]
pub enum Extraction {
    /// The sound path has no extension: it is reported, and nothing is copied.
    MissingExtension { sound_path: String },
    /// The sound file is copied to `destination`, and the copy is tagged
    /// with the title and the artist.
    Copy { source: String, destination: String, title: String, artist: String },
}

/// The extraction that a beatmap's record and its sound file's extension call for.
pub open spec fn planned(
    result: Extraction,
    artist: Seq<char>,
    title: Seq<char>,
    sound_path: Seq<char>,
    extension: Option<Seq<char>>,
    output_dir: Seq<char>,
) -> bool {
    match extension {
        None => result matches Extraction::MissingExtension { sound_path: s } && s@ == sound_path,
        Some(e) => result matches Extraction::Copy { source, destination, title: t, artist: a }
            && source@ == sound_path && destination@ == joined_path(
            output_dir,
            file_name(title, artist, e),
        ) && t@ == title && a@ == artist,
    }
}

/// Plans the extraction of a parsed beatmap, given the extension of its sound path.
pub fn plan_with_extension(
    osu_file: OsuFile,
    sound_extension: Option<&str>,
    output_dir: &str,
) -> (result: Extraction)
    ensures
        planned(
            result,
            osu_file.artist@,
            osu_file.title@,
            osu_file.sound_path@,
            text_of(sound_extension),
            output_dir@,
        ),
{
    match sound_extension {
        None => Extraction::MissingExtension { sound_path: osu_file.sound_path },
        Some(e) => {
            let name = output_file_name(osu_file.title.as_str(), osu_file.artist.as_str(), e);
            let destination = join_path(output_dir, name.as_str());
            Extraction::Copy {
                source: osu_file.sound_path,
                destination,
                title: osu_file.title,
                artist: osu_file.artist,
            }
        },
    }
}

/// Plans the extraction of a parsed beatmap into `output_dir`.
pub fn plan_copy(osu_file: OsuFile, output_dir: &str) -> (result: Extraction)
    ensures
        planned(
            result,
            osu_file.artist@,
            osu_file.title@,
            osu_file.sound_path@,
            path_extension(osu_file.sound_path@),
            output_dir@,
        ),
{
    match extension_of(osu_file.sound_path.as_str()) {
        None => plan_with_extension(osu_file, None, output_dir),
        Some(e) => plan_with_extension(osu_file, Some(e.as_str()), output_dir),
    }
}

/// Plans the extraction of the beatmap with the text `content`, which lies
/// in `directory`, into `output_dir`.
pub fn extract(content: &str, directory: &str, output_dir: &str) -> (result: Extraction)
    ensures
        planned(
            result,
            field(content@, "Artist"@),
            field(content@, "Title"@),
            sound_path(content@, directory@),
            path_extension(sound_path(content@, directory@)),
            output_dir@,
        ),
{
    plan_copy(parse_osu(content, directory), output_dir)
}

/// The output directory for the text that the user gave: the text without
/// the white space around it, or `./osu songs` where that leaves nothing.
pub open spec fn chosen_output(given: Seq<char>) -> Seq<char> {
    if trim(given).len() == 0 {
        "./osu songs"@
    } else {
        trim(given)
    }
}

/// The output directory for the text that the user gave.
pub fn output_directory(given: &str) -> (directory: String)
    ensures
        directory@ == chosen_output(given@),
{
    let directory = trimmed(given);
    if directory.as_str().is_empty() {
        String::from_str("./osu songs")
    } else {
        directory
    }
}

} // verus!
