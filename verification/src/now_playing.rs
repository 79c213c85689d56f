//! Talking to the music player, and the line that says what is playing.
use vstd::prelude::*;

use crate::chars::{
    append_chars, append_str, chars_match_ignoring_case, contains_chars, decimal, digit, from_chars,
    join_chars, join_with, lemma_decimal_is, lemma_numbers_read_back, occurs, parse_unsigned, same_ignoring_ascii_case, split_words, string_views,
    to_chars, trim, trim_chars, unsigned_value, views, words_of,
};
use crate::json::{
    array, array_text, is_string, json_keys, json_number, json_pick, json_quoted, json_string,
    member, member_text, number_value, object, object_keys, object_text, pick, quote, string_at,
    string_value, text_view,
};
use crate::paths::str_view;
use crate::transliterate::{deunicoded, lowercased, to_ascii, to_lower};

verus! {

/// The replies of the player that are read before giving up on an answer.
pub const REPLIES: u8 = 8;

/// A text with something in it.
pub open spec fn not_blank(text: Option<Seq<char>>) -> Option<Seq<char>> {
    match text {
        Some(text) => if trim(text).len() > 0 {
            Some(text)
        } else {
            None
        },
        None => None,
    }
}

/// The string that a document is, unless it is blank.
pub fn text_of(value: &str) -> (r: Option<String>)
    ensures
        text_view(r) == not_blank(json_string(value@)),
{
    match string_value(value) {
        Some(text) => {
            let chars = to_chars(text.as_str());
            if trim_chars(&chars).len() > 0 {
                Some(text)
            } else {
                None
            }
        },
        None => None,
    }
}

pub open spec fn slashed(key: Seq<char>) -> Seq<char> {
    seq!['/'] + key
}

/// What a key of a document says for a wanted name, in whatever case.
pub open spec fn said_by(doc: Seq<char>, key: Seq<char>, name: Seq<char>) -> Option<Seq<char>> {
    if same_ignoring_ascii_case(key, name) {
        not_blank(string_at(doc, slashed(key)))
    } else {
        None
    }
}

/// The first of some keys that says something for a wanted name.
pub open spec fn first_said(
    doc: Seq<char>,
    keys: Seq<Seq<char>>,
    name: Seq<char>,
) -> Option<Seq<char>>
    decreases keys.len(),
{
    if keys.len() == 0 {
        None
    } else {
        match first_said(doc, keys.drop_last(), name) {
            Some(text) => Some(text),
            None => said_by(doc, keys.last(), name),
        }
    }
}

proof fn lemma_first_said(doc: Seq<char>, keys: Seq<Seq<char>>, name: Seq<char>, n: int)
    requires
        0 <= n < keys.len(),
        first_said(doc, keys.take(n), name) is None,
        said_by(doc, keys[n], name) is Some,
    ensures
        first_said(doc, keys, name) == said_by(doc, keys[n], name),
    decreases keys.len(),
{
    if n == keys.len() - 1 {
        assert(keys.drop_last() =~= keys.take(n));
    } else {
        assert(keys.drop_last().take(n) =~= keys.take(n));
        lemma_first_said(doc, keys.drop_last(), name, n);
    }
}

/// What a metadata object says under a name.
pub open spec fn metadata(doc: Seq<char>, name: Seq<char>) -> Option<Seq<char>> {
    match json_keys(doc) {
        Some(keys) => first_said(doc, keys, name),
        None => None,
    }
}

/// What a metadata object says under a name that needs no escapes in a JSON
/// Pointer.
fn metadata_value(doc: &str, name: &str) -> (r: Option<String>)
    ensures
        text_view(r) == metadata(doc@, name@),
{
    let keys = match object_keys(doc) {
        Some(keys) => keys,
        None => {
            return None;
        },
    };
    let ghost all = string_views(keys@);
    let mut i: usize = 0;
    assert(all.take(0) =~= Seq::empty());
    while i < keys.len()
        invariant
            i <= keys@.len(),
            all == string_views(keys@),
            json_keys(doc@) == Some(all),
            first_said(doc@, all.take(i as int), name@) is None,
        decreases keys@.len() - i,
    {
        let key = to_chars(keys[i].as_str());
        assert(key@ == all[i as int]);
        if chars_match_ignoring_case(&key, name) {
            let mut pointer: Vec<char> = Vec::new();
            pointer.push('/');
            append_chars(&mut pointer, &key);
            assert(pointer@ =~= slashed(key@));
            let pointer = from_chars(&pointer);
            if let Some(value) = pick(doc, pointer.as_str()) {
                if let Some(text) = text_of(value.as_str()) {
                    proof {
                        lemma_first_said(doc@, all, name@, i as int);
                    }
                    return Some(text);
                }
            }
        }
        assert(all.take(i + 1).drop_last() =~= all.take(i as int));
        i += 1;
    }
    assert(all.take(all.len() as int) =~= all);
    None
}

pub open spec fn either(a: Option<Seq<char>>, b: Option<Seq<char>>) -> Option<Seq<char>> {
    match a {
        Some(text) => Some(text),
        None => b,
    }
}

/// The title in a metadata object.
pub open spec fn title_in(doc: Seq<char>) -> Option<Seq<char>> {
    either(
        metadata(doc, "title"@),
        either(metadata(doc, "icy-title"@), metadata(doc, "icy_title"@)),
    )
}

pub fn title_from_metadata(doc: &str) -> (r: Option<String>)
    ensures
        text_view(r) == title_in(doc@),
{
    if let Some(title) = metadata_value(doc, "title") {
        return Some(title);
    }
    if let Some(title) = metadata_value(doc, "icy-title") {
        return Some(title);
    }
    metadata_value(doc, "icy_title")
}

/// The artist in a metadata object.
pub open spec fn artist_in(doc: Seq<char>) -> Option<Seq<char>> {
    either(
        metadata(doc, "artist"@),
        either(metadata(doc, "album_artist"@), metadata(doc, "albumartist"@)),
    )
}

pub fn artist_from_metadata(doc: &str) -> (r: Option<String>)
    ensures
        text_view(r) == artist_in(doc@),
{
    if let Some(artist) = metadata_value(doc, "artist") {
        return Some(artist);
    }
    if let Some(artist) = metadata_value(doc, "album_artist") {
        return Some(artist);
    }
    metadata_value(doc, "albumartist")
}

pub open spec fn dashed(a: Seq<char>, b: Seq<char>) -> Seq<char> {
    a + seq![' ', '-', ' '] + b
}

fn with_dash(a: &str, b: &str) -> (r: String)
    ensures
        r@ == dashed(a@, b@),
{
    let mut out: Vec<char> = Vec::new();
    append_str(&mut out, a);
    out.push(' ');
    out.push('-');
    out.push(' ');
    append_str(&mut out, b);
    assert(out@ =~= dashed(a@, b@));
    from_chars(&out)
}

/// Artist and title on one line; the title alone when it names the artist.
pub open spec fn artist_and_title(
    artist: Option<Seq<char>>,
    title: Option<Seq<char>>,
    named: bool,
) -> Option<Seq<char>> {
    match (artist, title) {
        (Some(artist), Some(title)) => if named {
            Some(title)
        } else {
            Some(dashed(artist, title))
        },
        (Some(artist), None) => Some(artist),
        (None, title) => title,
    }
}

/// The line for an artist and a title, given whether the title names the
/// artist.
pub fn credit(artist: Option<String>, title: Option<String>, named: bool) -> (r: Option<String>)
    ensures
        text_view(r) == artist_and_title(text_view(artist), text_view(title), named),
{
    match artist {
        Some(artist) => match title {
            Some(title) => if named {
                Some(title)
            } else {
                Some(with_dash(artist.as_str(), title.as_str()))
            },
            None => Some(artist),
        },
        None => title,
    }
}

/// Whether a title names an artist, in whatever case.
pub open spec fn names(artist: Option<Seq<char>>, title: Option<Seq<char>>) -> bool {
    match (artist, title) {
        (Some(artist), Some(title)) => occurs(lowercased(title), lowercased(artist)),
        _ => false,
    }
}

/// The track that a metadata object tells of.
pub open spec fn track_in(doc: Seq<char>) -> Option<Seq<char>> {
    artist_and_title(artist_in(doc), title_in(doc), names(artist_in(doc), title_in(doc)))
}

pub fn track_line_from_metadata(doc: &str) -> (r: Option<String>)
    ensures
        text_view(r) == track_in(doc@),
{
    let artist = artist_from_metadata(doc);
    let title = title_from_metadata(doc);
    let named = match (&artist, &title) {
        (Some(artist), Some(title)) => {
            let lower_title = to_lower(title.as_str());
            let lower_artist = to_lower(artist.as_str());
            let haystack = to_chars(lower_title.as_str());
            let needle = to_chars(lower_artist.as_str());
            contains_chars(&haystack, &needle)
        },
        _ => false,
    };
    credit(artist, title, named)
}

/// The words of a text, one space apart; nothing when it has none.
pub open spec fn tidy(text: Seq<char>) -> Option<Seq<char>> {
    let line = join_with(words_of(text), seq![' ']);
    if line.len() > 0 {
        Some(line)
    } else {
        None
    }
}

pub fn tidied(text: &str) -> (r: Option<String>)
    ensures
        text_view(r) == tidy(text@),
{
    let chars = to_chars(text);
    let words = split_words(&chars);
    let mut space: Vec<char> = Vec::new();
    space.push(' ');
    assert(space@ =~= seq![' ']);
    let line = join_chars(&words, &space);
    if line.len() > 0 {
        Some(from_chars(&line))
    } else {
        None
    }
}

/// A title that the fonts can show: in ASCII, with single spaces.
pub fn clean_title(title: &str) -> (r: Option<String>)
    ensures
        text_view(r) == tidy(deunicoded(title@)),
{
    let plain = to_ascii(title);
    tidied(plain.as_str())
}

/// The line for what is playing, before it is cleaned: the chapter after the
/// piece it belongs to; without a chapter the track, else the piece.
pub open spec fn line_for(
    chapter: Option<Seq<char>>,
    media: Option<Seq<char>>,
    track: Option<Seq<char>>,
) -> Option<Seq<char>> {
    match chapter {
        Some(chapter) => match media {
            Some(media) => if same_ignoring_ascii_case(media, chapter) {
                Some(chapter)
            } else {
                Some(dashed(media, chapter))
            },
            None => Some(chapter),
        },
        None => either(track, media),
    }
}

pub fn title_line(
    chapter: Option<String>,
    media: Option<String>,
    track: Option<String>,
) -> (r: Option<String>)
    ensures
        text_view(r) == line_for(text_view(chapter), text_view(media), text_view(track)),
{
    match chapter {
        Some(chapter) => match media {
            Some(media) => {
                let chars = to_chars(media.as_str());
                if chars_match_ignoring_case(&chars, chapter.as_str()) {
                    Some(chapter)
                } else {
                    Some(with_dash(media.as_str(), chapter.as_str()))
                }
            },
            None => Some(chapter),
        },
        None => match track {
            Some(track) => Some(track),
            None => media,
        },
    }
}

pub open spec fn then_text(
    doc: Option<Seq<char>>,
    read: spec_fn(Seq<char>) -> Option<Seq<char>>,
) -> Option<Seq<char>> {
    match doc {
        Some(doc) => read(doc),
        None => None,
    }
}

pub open spec fn cleaned(line: Option<Seq<char>>) -> Option<Seq<char>> {
    match line {
        Some(line) => tidy(deunicoded(line)),
        None => None,
    }
}

/// What is told of what plays.
pub open spec fn title_told(
    chapter_metadata: Option<&str>,
    media_title: Option<&str>,
    track_metadata: Option<&str>,
    r: Option<String>,
) -> bool {
    text_view(r) == cleaned(
        line_for(
            then_text(str_view(chapter_metadata), |doc: Seq<char>| title_in(doc)),
            then_text(str_view(media_title), |doc: Seq<char>| not_blank(json_string(doc))),
            then_text(str_view(track_metadata), |doc: Seq<char>| track_in(doc)),
        ),
    )
}

/// What is playing, from what the player answers for its chapter metadata,
/// its media title and its metadata.
pub fn playing_title(
    chapter_metadata: Option<&str>,
    media_title: Option<&str>,
    track_metadata: Option<&str>,
) -> (r: Option<String>)
    ensures
        title_told(chapter_metadata, media_title, track_metadata, r),
{
    let chapter = match chapter_metadata {
        Some(doc) => title_from_metadata(doc),
        None => None,
    };
    let media = match media_title {
        Some(doc) => text_of(doc),
        None => None,
    };
    let track = match track_metadata {
        Some(doc) => track_line_from_metadata(doc),
        None => None,
    };
    match title_line(chapter, media, track) {
        Some(line) => clean_title(line.as_str()),
        None => None,
    }
}

pub open spec fn quoted_all(words: Seq<Seq<char>>) -> Seq<Seq<char>> {
    Seq::new(words.len(), |i: int| json_quoted(words[i]))
}

fn quote_all(words: &Vec<String>) -> (r: Vec<Vec<char>>)
    ensures
        views(r@) == quoted_all(string_views(words@)),
{
    let mut out: Vec<Vec<char>> = Vec::new();
    let mut i: usize = 0;
    while i < words.len()
        invariant
            i <= words@.len(),
            out@.len() == i,
            forall|j: int| 0 <= j < i ==> (#[trigger] out@[j])@ == json_quoted(words@[j]@),
        decreases words@.len() - i,
    {
        let quoted = quote(words[i].as_str());
        out.push(to_chars(quoted.as_str()));
        i += 1;
    }
    assert(views(out@) =~= quoted_all(string_views(words@)));
    out
}

/// A command for the player: one line of JSON.
pub fn command_message(command: &Vec<String>) -> (r: String)
    ensures
        r@ == object_text(
            seq![member_text("command"@, array_text(quoted_all(string_views(command@))))],
        ).push('\n'),
{
    let words = quote_all(command);
    let list = array(&words);
    let mut members: Vec<Vec<char>> = Vec::new();
    members.push(member("command", &list));
    assert(views(members@) =~= seq![
        member_text("command"@, array_text(quoted_all(string_views(command@)))),
    ]);
    let mut out = object(&members);
    out.push('\n');
    from_chars(&out)
}

/// What asks the player for a property.
pub open spec fn asks_property(property: &str, r: String) -> bool {
    r@ == object_text(
        seq![
            member_text(
                "command"@,
                array_text(quoted_all(seq!["get_property"@, property@])),
            ),
            member_text("request_id"@, seq!['1']),
        ],
    ).push('\n')
}

/// A question to the player for one of its properties, numbered one.
pub fn property_request(property: &str) -> (r: String)
    ensures
        asks_property(property, r),
{
    let mut command: Vec<String> = Vec::new();
    command.push("get_property".to_owned());
    command.push(property.to_owned());
    assert(string_views(command@) =~= seq!["get_property"@, property@]);
    let words = quote_all(&command);
    let list = array(&words);
    let mut members: Vec<Vec<char>> = Vec::new();
    members.push(member("command", &list));
    let mut one: Vec<char> = Vec::new();
    one.push('1');
    assert(one@ =~= seq!['1']);
    members.push(member("request_id", &one));
    assert(views(members@) =~= seq![
        member_text("command"@, array_text(quoted_all(seq!["get_property"@, property@]))),
        member_text("request_id"@, seq!['1']),
    ]);
    let mut out = object(&members);
    out.push('\n');
    from_chars(&out)
}

/// A line from the player, read as the answer to the question.
pub enum Reply {
    /// Something else that the player has to say.
    Unrelated,
    /// No answer will come.
    Failed,
    /// The value of the property, as JSON.
    Data(String),
}

pub open spec fn number_at(doc: Seq<char>, pointer: Seq<char>) -> Option<u64> {
    match json_pick(doc, pointer) {
        Some(value) => json_number(value),
        None => None,
    }
}

/// What is read of the player's line.
pub open spec fn reply_reads(line: &str, r: Reply) -> bool {
    &&& r is Unrelated <==> json_pick(line@, seq![]) is Some && number_at(line@, "/request_id"@)
        != Some(1u64)
    &&& r is Failed <==> json_pick(line@, seq![]) is None || (number_at(line@, "/request_id"@)
        == Some(1u64) && (string_at(line@, "/error"@) != Some("success"@) || json_pick(
        line@,
        "/data"@,
    ) is None))
    &&& r matches Reply::Data(data) ==> json_pick(line@, "/data"@) == Some(data@)
}

pub fn read_reply(line: &str) -> (r: Reply)
    ensures
        reply_reads(line, r),
{
    proof {
        reveal_strlit("");
        assert(""@ =~= seq![]);
    }
    if pick(line, "").is_none() {
        return Reply::Failed;
    }
    let answers = match pick(line, "/request_id") {
        Some(id) => match number_value(id.as_str()) {
            Some(id) => id == 1,
            None => false,
        },
        None => false,
    };
    if !answers {
        return Reply::Unrelated;
    }
    if !is_string(line, "/error", "success") {
        return Reply::Failed;
    }
    match pick(line, "/data") {
        Some(data) => Reply::Data(data),
        None => Reply::Failed,
    }
}

/// How waiting for the answer goes on.
pub enum Wait {
    More,
    Done(Option<String>),
}

/// How waiting for the player goes on.
pub open spec fn wait_goes_on(seen: u8, reply: Option<Reply>, r: Wait) -> bool {
    &&& r is More <==> (reply matches Some(Reply::Unrelated)) && seen + 1 < REPLIES
    &&& r matches Wait::Done(data) ==> match reply {
        Some(Reply::Data(text)) => data is Some && data->0@ == text@,
        _ => data is None,
    }
}

/// After a reply, with `seen` replies before it; the end of the conversation
/// and the last reply that is read end the wait.
pub fn await_reply(seen: u8, reply: Option<Reply>) -> (r: Wait)
    ensures
        wait_goes_on(seen, reply, r),
{
    match reply {
        Some(Reply::Unrelated) => if seen < REPLIES - 1 {
            Wait::More
        } else {
            Wait::Done(None)
        },
        Some(Reply::Data(text)) => Wait::Done(Some(text)),
        _ => Wait::Done(None),
    }
}

/// The percentage that a word is, up to a hundred.
pub open spec fn percentage(word: Seq<char>) -> Option<int> {
    if word.len() > 0 && word.last() == '%' {
        match unsigned_value(word.drop_last(), 255) {
            Some(n) => Some(
                if n > 100 {
                    100
                } else {
                    n as int
                },
            ),
            None => None,
        }
    } else {
        None
    }
}

/// The first percentage among words.
pub open spec fn first_percentage(words: Seq<Seq<char>>) -> Option<int>
    decreases words.len(),
{
    if words.len() == 0 {
        None
    } else {
        match first_percentage(words.drop_last()) {
            Some(n) => Some(n),
            None => percentage(words.last()),
        }
    }
}

proof fn lemma_first_percentage(words: Seq<Seq<char>>, n: int)
    requires
        0 <= n < words.len(),
        first_percentage(words.take(n)) is None,
        percentage(words[n]) is Some,
    ensures
        first_percentage(words) == percentage(words[n]),
    decreases words.len(),
{
    if n == words.len() - 1 {
        assert(words.drop_last() =~= words.take(n));
    } else {
        assert(words.drop_last().take(n) =~= words.take(n));
        lemma_first_percentage(words.drop_last(), n);
    }
}

/// The volume in what the mixer prints.
pub fn volume_from_percentages(text: &str) -> (r: Option<u8>)
    ensures
        match r {
            Some(volume) => first_percentage(words_of(text@)) == Some(volume as int),
            None => first_percentage(words_of(text@)) is None,
        },
{
    let chars = to_chars(text);
    let words = split_words(&chars);
    let ghost all = views(words@);
    let mut i: usize = 0;
    assert(all.take(0) =~= Seq::empty());
    while i < words.len()
        invariant
            i <= words@.len(),
            all == views(words@),
            all == words_of(text@),
            first_percentage(all.take(i as int)) is None,
        decreases words@.len() - i,
    {
        let word = &words[i];
        assert(word@ == all[i as int]);
        let n: usize = word.len();
        if n > 0 && word[n - 1] == '%' {
            let head = vstd::slice::slice_subrange(word.as_slice(), 0, n - 1);
            assert(head@ =~= word@.drop_last());
            if let Some(value) = parse_unsigned(head, 255) {
                proof {
                    lemma_first_percentage(all, i as int);
                }
                return Some(
                    if value > 100 {
                        100
                    } else {
                        value as u8
                    },
                );
            }
        }
        assert(all.take(i + 1).drop_last() =~= all.take(i as int));
        i += 1;
    }
    assert(all.take(all.len() as int) =~= all);
    None
}

/// A track is told as its artist and title, or by what is known of the two; the
/// artist is not told twice when the title names it.
pub proof fn lemma_tracks_are_told(artist: Seq<char>, title: Seq<char>)
    ensures
        artist_and_title(Some(artist), Some(title), false) == Some(
            artist + seq![' ', '-', ' '] + title,
        ),
        artist_and_title(Some(artist), Some(title), true) == Some(title),
        artist_and_title(Some(artist), None, false) == Some(artist),
        artist_and_title(None, Some(title), false) == Some(title),
        artist_and_title(None, None, false) is None,
        names(Some(artist), Some(title)) <==> occurs(lowercased(title), lowercased(artist)),
        !names(None, Some(title)),
        !names(Some(artist), None),
{
}

/// A chapter is told behind what is played, unless the two are the same but for
/// case; without one the track is, and else what is played.
pub proof fn lemma_lines_are_told(chapter: Seq<char>, media: Seq<char>, track: Seq<char>)
    ensures
        line_for(Some(chapter), None, Some(track)) == Some(chapter),
        same_ignoring_ascii_case(media, chapter) ==> line_for(
            Some(chapter),
            Some(media),
            Some(track),
        ) == Some(chapter),
        !same_ignoring_ascii_case(media, chapter) ==> line_for(
            Some(chapter),
            Some(media),
            Some(track),
        ) == Some(media + seq![' ', '-', ' '] + chapter),
        line_for(None, Some(media), Some(track)) == Some(track),
        line_for(None, Some(media), None) == Some(media),
        line_for(None, None, None) is None,
{
}

/// Of the entries with a name, in either case, the first that is not blank counts.
pub proof fn lemma_first_entry_counts(doc: Seq<char>, keys: Seq<Seq<char>>, name: Seq<char>, n: int)
    requires
        0 <= n <= keys.len(),
        forall|j: int|
            0 <= j < n ==> !same_ignoring_ascii_case(#[trigger] keys[j], name) || (string_at(
                doc,
                seq!['/'] + keys[j],
            ) matches Some(text) ==> trim(text).len() == 0),
    ensures
        n == keys.len() ==> first_said(doc, keys, name) is None,
        n < keys.len() && same_ignoring_ascii_case(keys[n], name) ==> (string_at(
            doc,
            seq!['/'] + keys[n],
        ) matches Some(text) ==> trim(text).len() > 0 ==> first_said(doc, keys, name) == Some(text)),
        json_keys(doc) == Some(keys) ==> metadata(doc, name) == first_said(doc, keys, name),
        json_keys(doc) is None ==> metadata(doc, name) is None,
    decreases keys.len(),
{
    if keys.len() > 0 {
        let short = keys.drop_last();
        if n == keys.len() {
            assert forall|j: int|
                0 <= j < n - 1 implies !same_ignoring_ascii_case(#[trigger] short[j], name) || (
            string_at(doc, seq!['/'] + short[j]) matches Some(text) ==> trim(text).len() == 0) by {
                assert(short[j] == keys[j]);
            }
            lemma_first_entry_counts(doc, short, name, n - 1);
            assert(keys[n - 1] == keys.last());
        } else {
            assert forall|j: int|
                0 <= j < n implies !same_ignoring_ascii_case(#[trigger] short[j], name) || (
            string_at(doc, seq!['/'] + short[j]) matches Some(text) ==> trim(text).len() == 0) by {
                assert(short[j] == keys[j]);
            }
            lemma_first_entry_counts(doc, short, name, n);
            if n < short.len() {
                assert(short[n] == keys[n]);
            }
        }
    }
}

/// The title comes before the stream's own, and the artist before the album's.
pub proof fn lemma_entries_ranked(doc: Seq<char>)
    ensures
        metadata(doc, "title"@) is Some ==> title_in(doc) == metadata(doc, "title"@),
        metadata(doc, "title"@) is None && metadata(doc, "icy-title"@) is Some ==> title_in(doc)
            == metadata(doc, "icy-title"@),
        metadata(doc, "title"@) is None && metadata(doc, "icy-title"@) is None ==> title_in(doc)
            == metadata(doc, "icy_title"@),
        metadata(doc, "artist"@) is Some ==> artist_in(doc) == metadata(doc, "artist"@),
        metadata(doc, "artist"@) is None && metadata(doc, "album_artist"@) is Some ==> artist_in(
            doc,
        ) == metadata(doc, "album_artist"@),
        metadata(doc, "artist"@) is None && metadata(doc, "album_artist"@) is None ==> artist_in(
            doc,
        ) == metadata(doc, "albumartist"@),
{
}

/// A line is tidied to its words with one space between them, and a blank one is
/// none.
pub proof fn lemma_tidy_is(text: Seq<char>)
    ensures
        tidy(text) matches Some(line) ==> line.len() > 0 && line == join_with(
            words_of(text),
            seq![' '],
        ),
        words_of(text).len() == 0 ==> tidy(text) is None,
        join_with(words_of(text), seq![' ']).len() > 0 ==> tidy(text) is Some,
{
}

/// A volume is a number and a percent sign, and counts as a hundred above that; of
/// several the first counts.
pub proof fn lemma_percentages_are(n: nat, words: Seq<Seq<char>>, word: Seq<char>)
    ensures
        n <= 100 ==> percentage(decimal(n) + seq!['%']) == Some(n as int),
        100 < n <= 255 ==> percentage(decimal(n) + seq!['%']) == Some(100int),
        n > 255 ==> percentage(decimal(n) + seq!['%']) is None,
        percentage(decimal(n)) is None,
        percentage(word) is Some ==> word.len() > 1 && word[word.len() - 1] == '%',
        first_percentage(Seq::empty()) is None,
        first_percentage(words) is Some ==> first_percentage(words.push(word)) == first_percentage(
            words,
        ),
        first_percentage(words) is None ==> first_percentage(words.push(word)) == percentage(word),
{
    let text = decimal(n) + seq!['%'];
    assert(text.drop_last() =~= decimal(n));
    lemma_decimal_is(n);
    lemma_numbers_read_back(n, 255, 0, text);
    assert(digit(decimal(n)[decimal(n).len() - 1]));
    assert(words.push(word).drop_last() =~= words);
}

/// A line of the player is the answer where it has the request's number, and fails
/// where it is no document, has no data or does not tell of success. Lines about
/// something else are passed over, eight at most.
pub proof fn lemma_replies_are_awaited(
    line: &str,
    reply: Reply,
    seen: u8,
    came: Option<Reply>,
    wait: Wait,
)
    ensures
        reply_reads(line, reply) ==> (json_pick(line@, seq![]) is None ==> reply is Failed) && (
        json_pick(line@, seq![]) is Some && number_at(line@, "/request_id"@) != Some(1u64)
            ==> reply is Unrelated) && (json_pick(line@, seq![]) is Some && number_at(
            line@,
            "/request_id"@,
        ) == Some(1u64) && string_at(line@, "/error"@) == Some("success"@) ==> (json_pick(
            line@,
            "/data"@,
        ) matches Some(data) ==> (reply matches Reply::Data(text) && text@ == data))) && (json_pick(
            line@,
            seq![],
        ) is Some && number_at(line@, "/request_id"@) == Some(1u64) && string_at(line@, "/error"@)
            != Some("success"@) ==> reply is Failed),
        wait_goes_on(seen, came, wait) ==> {
            &&& came matches Some(Reply::Data(text)) ==> (wait matches Wait::Done(Some(data))
                && data@ == text@)
            &&& came matches Some(Reply::Unrelated) ==> (seen < 7 <==> wait is More)
            &&& came is None ==> (wait matches Wait::Done(data) && data is None)
            &&& came matches Some(Reply::Failed) ==> (wait matches Wait::Done(data) && data is None)
        },
{
}

/// What plays is told by the chapter's title, the media's own and the track's, each
/// where it is known, tidied and in plain letters.
pub proof fn lemma_titles_are_told(
    chapter_metadata: Option<&str>,
    media_title: Option<&str>,
    track_metadata: Option<&str>,
    r: Option<String>,
)
    requires
        title_told(chapter_metadata, media_title, track_metadata, r),
    ensures
        ({
            let chapter = match chapter_metadata {
                Some(doc) => title_in(doc@),
                None => None,
            };
            let media = match media_title {
                Some(doc) => match json_string(doc@) {
                    Some(text) => if trim(text).len() > 0 {
                        Some(text)
                    } else {
                        None
                    },
                    None => None,
                },
                None => None,
            };
            let track = match track_metadata {
                Some(doc) => track_in(doc@),
                None => None,
            };
            match line_for(chapter, media, track) {
                Some(line) => text_view(r) == tidy(deunicoded(line)),
                None => r is None,
            }
        }),
{
}

/// A property is asked for by its name, under the number that its answer has.
pub proof fn lemma_properties_are_asked(property: &str, r: String)
    requires
        asks_property(property, r),
    ensures
        r@ == "{\"command\":["@ + json_quoted("get_property"@) + ","@ + json_quoted(property@)
            + "],\"request_id\":1}\n"@,
{
    reveal_strlit("command");
    reveal_strlit("request_id");
    reveal_strlit("{\"command\":[");
    reveal_strlit(",");
    reveal_strlit("],\"request_id\":1}\n");
    let (a, b) = (json_quoted("get_property"@), json_quoted(property@));
    assert(quoted_all(seq!["get_property"@, property@]) =~= seq![a, b]);
    reveal_with_fuel(join_with, 3);
    assert(seq![a, b].drop_last() =~= seq![a]);
    let m = member_text("command"@, array_text(seq![a, b]));
    let n = member_text("request_id"@, seq!['1']);
    assert(seq![m, n].drop_last() =~= seq![m]);
    assert(r@ =~= "{\"command\":["@ + a + ","@ + b + "],\"request_id\":1}\n"@);
}

} // verus!
