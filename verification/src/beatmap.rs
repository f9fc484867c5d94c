//! The beatmap parser. A beatmap is a text of lines; a line with a colon is
//! an entry, its key the part before the first colon, its value the rest
//! without the white space around it. Three keys are read, and of each the
//! last entry counts.

use crate::paths::{join_path, joined_path};
use crate::text::{chars_of, find_char, lemma_position, lemma_position_is, position, range_equals, range_to_string, trim, trim_range};
use vstd::prelude::*;

verus! {

/// What a beatmap says of its song.
#[derive(Debug, PartialEq, Eq)]
pub struct OsuFile {
    pub artist: String,
    pub title: String,
    pub sound_path: String,
}

/// The lines of `text`: the parts between its line feeds.
pub open spec fn lines(text: Seq<char>) -> Seq<Seq<char>>
    decreases text.len(),
{
    let p = position(text, '\n');
    if 0 <= p < text.len() {
        seq![text.subrange(0, p)] + lines(text.subrange(p + 1, text.len() as int))
    } else {
        seq![text]
    }
}

/// Whether `line` is an entry with the key `key`.
pub open spec fn is_entry(line: Seq<char>, key: Seq<char>) -> bool {
    position(line, ':') < line.len() && line.subrange(0, position(line, ':')) == key
}

/// The value of an entry: what follows its first colon, trimmed.
pub open spec fn entry_value(line: Seq<char>) -> Seq<char> {
    trim(line.subrange(position(line, ':') + 1, line.len() as int))
}

/// The value of the last entry with the key `key` among `lines`, if there is one.
pub open spec fn last_value(lines: Seq<Seq<char>>, key: Seq<char>) -> Option<Seq<char>>
    decreases lines.len(),
{
    if lines.len() == 0 {
        None
    } else if is_entry(lines.last(), key) {
        Some(entry_value(lines.last()))
    } else {
        last_value(lines.drop_last(), key)
    }
}

/// A text field of a beatmap: the value of the last entry with that key, or
/// the empty text.
pub open spec fn field(text: Seq<char>, key: Seq<char>) -> Seq<char> {
    match last_value(lines(text), key) {
        Some(value) => value,
        None => Seq::empty(),
    }
}

/// Where the sound file of a beatmap in `directory` lies: the value of the
/// last `AudioFilename` entry, joined onto the directory; the empty path if
/// there is no such entry.
pub open spec fn sound_path(text: Seq<char>, directory: Seq<char>) -> Seq<char> {
    match last_value(lines(text), "AudioFilename"@) {
        Some(value) => joined_path(directory, value),
        None => Seq::empty(),
    }
}

/// Of the entries with one key, the last decides: where a line is such an
/// entry and no later line is, the value found is that line's value.
pub proof fn lemma_last_entry_wins(lines: Seq<Seq<char>>, i: int, key: Seq<char>)
    requires
        0 <= i < lines.len(),
        is_entry(lines[i], key),
        forall|j: int| i < j < lines.len() ==> !is_entry(#[trigger] lines[j], key),
    ensures
        last_value(lines, key) == Some(entry_value(lines[i])),
    decreases lines.len(),
{
    if i < lines.len() - 1 {
        assert(!is_entry(lines[lines.len() - 1], key));
        lemma_last_entry_wins(lines.drop_last(), i, key);
    }
}

/// A value is found exactly where some line is an entry with the key.
pub proof fn lemma_value_found(lines: Seq<Seq<char>>, key: Seq<char>)
    ensures
        last_value(lines, key) is Some <==> exists|i: int|
            0 <= i < lines.len() && is_entry(#[trigger] lines[i], key),
    decreases lines.len(),
{
    if lines.len() > 0 {
        if is_entry(lines.last(), key) {
            assert(is_entry(lines[lines.len() - 1], key));
        } else {
            let front = lines.drop_last();
            lemma_value_found(front, key);
            if last_value(front, key) is Some {
                let i = choose|i: int| 0 <= i < front.len() && is_entry(#[trigger] front[i], key);
                assert(is_entry(lines[i], key));
            }
            if exists|i: int| 0 <= i < lines.len() && is_entry(#[trigger] lines[i], key) {
                let i = choose|i: int| 0 <= i < lines.len() && is_entry(#[trigger] lines[i], key);
                assert(is_entry(front[i], key));
            }
        }
    }
}

/// The last entry with a key in a beatmap's text determines the field: where
/// a line of the text is an entry with the key and no later line is, the
/// field is that line's value.
pub proof fn lemma_field_is_last_entry(text: Seq<char>, i: int, key: Seq<char>)
    requires
        0 <= i < lines(text).len(),
        is_entry(lines(text)[i], key),
        forall|j: int| i < j < lines(text).len() ==> !is_entry(#[trigger] lines(text)[j], key),
    ensures
        field(text, key) == entry_value(lines(text)[i]),
{
    lemma_last_entry_wins(lines(text), i, key);
}

/// A field whose key no line of the text has is empty.
pub proof fn lemma_field_without_entry(text: Seq<char>, key: Seq<char>)
    requires
        forall|j: int| 0 <= j < lines(text).len() ==> !is_entry(#[trigger] lines(text)[j], key),
    ensures
        field(text, key) == Seq::<char>::empty(),
{
    lemma_value_found(lines(text), key);
}

/// A line feed between two texts parts their lines: the lines of the whole
/// are the lines of the first text, then those of the second.
pub proof fn lemma_lines_of_joined(first: Seq<char>, second: Seq<char>)
    ensures
        lines(first + seq!['\n'] + second) == lines(first) + lines(second),
    decreases first.len(),
{
    let whole = first + seq!['\n'] + second;
    let p = position(first, '\n');
    lemma_position(first, '\n');
    if p < first.len() {
        let rest = first.subrange(p + 1, first.len() as int);
        lemma_position_is(whole, '\n', p);
        assert(whole.subrange(0, p) =~= first.subrange(0, p));
        assert(whole.subrange(p + 1, whole.len() as int) =~= rest + seq!['\n'] + second);
        lemma_lines_of_joined(rest, second);
        assert(seq![first.subrange(0, p)] + (lines(rest) + lines(second)) =~= (seq![
            first.subrange(0, p),
        ] + lines(rest)) + lines(second));
    } else {
        lemma_position_is(whole, '\n', first.len() as int);
        assert(whole.subrange(0, first.len() as int) =~= first);
        assert(whole.subrange(first.len() as int + 1, whole.len() as int) =~= second);
    }
}

proof fn lemma_next_line(text: Seq<char>, pos: int, end: int)
    requires
        0 <= pos <= end <= text.len(),
        end == pos + position(text.subrange(pos, text.len() as int), '\n'),
    ensures
        end < text.len() ==> lines(text.subrange(pos, text.len() as int)) == seq![
            text.subrange(pos, end),
        ] + lines(text.subrange(end + 1, text.len() as int)),
        end == text.len() ==> lines(text.subrange(pos, text.len() as int)) == seq![
            text.subrange(pos, end),
        ],
{
    let rest = text.subrange(pos, text.len() as int);
    let p = position(rest, '\n');
    if end < text.len() {
        assert(rest.subrange(0, p) =~= text.subrange(pos, end));
        assert(rest.subrange(p + 1, rest.len() as int) =~= text.subrange(
            end + 1,
            text.len() as int,
        ));
    } else {
        assert(rest =~= text.subrange(pos, end));
    }
}

proof fn lemma_entry(text: Seq<char>, pos: int, colon: int, end: int, key: Seq<char>)
    requires
        0 <= pos <= colon <= end <= text.len(),
        colon == pos + position(text.subrange(pos, end), ':'),
    ensures
        is_entry(text.subrange(pos, end), key) <==> colon < end && text.subrange(pos, colon) == key,
        colon < end ==> entry_value(text.subrange(pos, end)) == trim(
            text.subrange(colon + 1, end),
        ),
{
    let line = text.subrange(pos, end);
    let p = position(line, ':');
    assert(line.subrange(0, p) =~= text.subrange(pos, colon));
    if colon < end {
        assert(line.subrange(p + 1, line.len() as int) =~= text.subrange(colon + 1, end));
    }
}

/// Reads a beatmap that lies in `directory`. Every text is accepted: a line
/// without a colon, or with another key, is passed over, and a key that
/// never occurs leaves its field empty.
pub fn parse_osu(content: &str, directory: &str) -> (osufile: OsuFile)
    ensures
        osufile.artist@ == field(content@, "Artist"@),
        osufile.title@ == field(content@, "Title"@),
        osufile.sound_path@ == sound_path(content@, directory@),
{
    let text = chars_of(content);
    let audio_key = chars_of("AudioFilename");
    let title_key = chars_of("Title");
    let artist_key = chars_of("Artist");
    let len = text.len();
    let mut osufile = OsuFile {
        artist: String::new(),
        title: String::new(),
        sound_path: String::new(),
    };
    let ghost mut done: Seq<Seq<char>> = Seq::empty();
    let mut pos: usize = 0;
    let mut more = true;
    assert(text@.subrange(0, len as int) =~= text@);
    while more
        invariant
            text@ == content@,
            len == text@.len(),
            audio_key@ == "AudioFilename"@,
            title_key@ == "Title"@,
            artist_key@ == "Artist"@,
            pos <= len,
            more ==> lines(text@) == done + lines(text@.subrange(pos as int, len as int)),
            !more ==> lines(text@) == done,
            osufile.artist@ == match last_value(done, artist_key@) {
                Some(value) => value,
                None => Seq::empty(),
            },
            osufile.title@ == match last_value(done, title_key@) {
                Some(value) => value,
                None => Seq::empty(),
            },
            osufile.sound_path@ == match last_value(done, audio_key@) {
                Some(value) => joined_path(directory@, value),
                None => Seq::empty(),
            },
        decreases len - pos + if more { 1int } else { 0int },
    {
        let end = find_char(&text, pos, len, '\n');
        let colon = find_char(&text, pos, end, ':');
        let ghost line = text@.subrange(pos as int, end as int);
        proof {
            lemma_next_line(text@, pos as int, end as int);
            lemma_entry(text@, pos as int, colon as int, end as int, audio_key@);
            lemma_entry(text@, pos as int, colon as int, end as int, title_key@);
            lemma_entry(text@, pos as int, colon as int, end as int, artist_key@);
            assert(done.push(line).drop_last() =~= done);
        }
        if colon < end {
            let (from, to) = trim_range(&text, colon + 1, end);
            if range_equals(&text, pos, colon, &audio_key) {
                let name = range_to_string(&text, from, to);
                osufile.sound_path = join_path(directory, name.as_str());
            }
            if range_equals(&text, pos, colon, &title_key) {
                osufile.title = range_to_string(&text, from, to);
            }
            if range_equals(&text, pos, colon, &artist_key) {
                osufile.artist = range_to_string(&text, from, to);
            }
        }
        proof {
            if end < len {
                let after = lines(text@.subrange(end + 1, len as int));
                assert(done + (seq![line] + after) =~= done.push(line) + after);
            } else {
                assert(done + seq![line] =~= done.push(line));
            }
            done = done.push(line);
        }
        if end < len {
            pos = end + 1;
        } else {
            more = false;
        }
    }
    osufile
}

} // verus!
