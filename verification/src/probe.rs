//! What a probe reports of a media file, and the readers of a reported stream.

use vstd::prelude::*;

use crate::text::{
    ascii_lower, decimal, numbers_read_back, opt_str, opt_text, parse_number, parsed,
    same_ignoring_case, same_text, trim, trimmed,
};
use crate::audio::{AudioMetadata, AudioTags};
use crate::subtitle::{SubtitleMetadata, SubtitleTags};
use crate::video::{VideoMetadata, VideoRotation, VideoTags};

verus! {

/// A number of a report: a whole number that is not negative, a negative one, or one
/// with a fraction, which is held as the whole number nearest to it.
#[derive(Clone, Copy, Debug, Eq, PartialEq, Structural)]
pub enum Number {
    Whole(u64),
    Negative(i64),
    Fraction(i64),
}

/// A value of a report.
#[derive(Debug)]
pub enum Value {
    Null,
    Bool(bool),
    Number(Number),
    Text(String),
    Array(Vec<Value>),
    Object(Object),
}

/// Named values. Where a name occurs twice the first one counts.
#[derive(Debug)]
pub struct Object {
    pub fields: Vec<(String, Value)>,
}

/// One stream of a media file: its fields by name.
pub type Stream = Object;

impl Number {
    pub open spec fn signed(self) -> Option<i64> {
        match self {
            Number::Whole(number) => if number <= i64::MAX {
                Some(number as i64)
            } else {
                None
            },
            Number::Negative(number) => Some(number),
            Number::Fraction(_) => None,
        }
    }

    /// The number, where it is whole and in the range of a signed number.
    pub fn as_i64(self) -> (result: Option<i64>)
        ensures
            result == self.signed(),
    {
        match self {
            Number::Whole(number) => if number <= i64::MAX as u64 {
                Some(number as i64)
            } else {
                None
            },
            Number::Negative(number) => Some(number),
            Number::Fraction(_) => None,
        }
    }

    /// The whole number nearest to this one, as far as a signed number reaches.
    pub open spec fn nearest(self) -> i64 {
        match self {
            Number::Whole(number) => if number <= i64::MAX {
                number as i64
            } else {
                i64::MAX
            },
            Number::Negative(number) => number,
            Number::Fraction(number) => number,
        }
    }

    pub fn rounded(self) -> (result: i64)
        ensures
            result == self.nearest(),
    {
        match self {
            Number::Whole(number) => if number <= i64::MAX as u64 {
                number as i64
            } else {
                i64::MAX
            },
            Number::Negative(number) => number,
            Number::Fraction(number) => number,
        }
    }
}

impl Value {
    pub open spec fn text(self) -> Option<Seq<char>> {
        match self {
            Value::Text(text) => Some(text@),
            _ => None,
        }
    }

    pub fn as_str(&self) -> (result: Option<&str>)
        ensures
            opt_str(result) == self.text(),
    {
        match self {
            Value::Text(text) => Some(text.as_str()),
            _ => None,
        }
    }

    pub open spec fn unsigned(self) -> Option<u64> {
        match self {
            Value::Number(Number::Whole(number)) => Some(number),
            _ => None,
        }
    }

    pub fn as_u64(&self) -> (result: Option<u64>)
        ensures
            result == self.unsigned(),
    {
        match self {
            Value::Number(Number::Whole(number)) => Some(*number),
            _ => None,
        }
    }

    pub open spec fn signed(self) -> Option<i64> {
        match self {
            Value::Number(number) => number.signed(),
            _ => None,
        }
    }

    pub fn as_i64(&self) -> (result: Option<i64>)
        ensures
            result == self.signed(),
    {
        match self {
            Value::Number(number) => number.as_i64(),
            _ => None,
        }
    }

    /// The number a value stands for, written as a number or as text, of at most `limit`.
    pub open spec fn number(self, limit: nat) -> Option<nat> {
        match self {
            Value::Number(Number::Whole(number)) => if number <= limit {
                Some(number as nat)
            } else {
                None
            },
            Value::Text(text) => parsed(text@, limit),
            _ => None,
        }
    }

    pub fn as_number(&self, limit: u64) -> (result: Option<u64>)
        ensures
            match result {
                Some(number) => self.number(limit as nat) == Some(number as nat),
                None => self.number(limit as nat) is None,
            },
    {
        match self {
            Value::Number(Number::Whole(number)) => if *number <= limit {
                Some(*number)
            } else {
                None
            },
            Value::Text(text) => parse_number(text.as_str(), limit),
            _ => None,
        }
    }
}

/// The value of the first field of a name.
pub open spec fn lookup(fields: Seq<(String, Value)>, name: Seq<char>) -> Option<Value>
    decreases fields.len(),
{
    if fields.len() == 0 {
        None
    } else if fields[0].0@ == name {
        Some(fields[0].1)
    } else {
        lookup(fields.skip(1), name)
    }
}

impl Object {
    pub open spec fn field(self, name: Seq<char>) -> Option<Value> {
        lookup(self.fields@, name)
    }

    pub open spec fn text_field(self, name: Seq<char>) -> Option<Seq<char>> {
        match self.field(name) {
            Some(value) => value.text(),
            None => None,
        }
    }

    pub open spec fn object_field(self, name: Seq<char>) -> Option<Object> {
        match self.field(name) {
            Some(Value::Object(object)) => Some(object),
            _ => None,
        }
    }

    pub fn get(&self, name: &str) -> (result: Option<&Value>)
        ensures
            match result {
                Some(value) => self.field(name@) == Some(*value),
                None => self.field(name@) is None,
            },
    {
        let mut i: usize = 0;
        assert(self.fields@.skip(0) =~= self.fields@);
        while i < self.fields.len()
            invariant
                0 <= i <= self.fields.len(),
                self.field(name@) == lookup(self.fields@.skip(i as int), name@),
            decreases self.fields.len() - i,
        {
            if same_text(self.fields[i].0.as_str(), name) {
                return Some(&self.fields[i].1);
            }
            assert(self.fields@.skip(i as int).skip(1) =~= self.fields@.skip(i + 1));
            i = i + 1;
        }
        None
    }

    pub fn get_str(&self, name: &str) -> (result: Option<&str>)
        ensures
            opt_str(result) == self.text_field(name@),
    {
        match self.get(name) {
            Some(value) => value.as_str(),
            None => None,
        }
    }

    pub fn get_object(&self, name: &str) -> (result: Option<&Object>)
        ensures
            match result {
                Some(object) => self.object_field(name@) == Some(*object),
                None => self.object_field(name@) is None,
            },
    {
        match self.get(name) {
            Some(Value::Object(object)) => Some(object),
            _ => None,
        }
    }
}

/// What a probe reports of a media file.
#[derive(Debug)]
pub struct MediaInfo {
    pub streams: Vec<Stream>,
    pub format: Object,
    pub chapters: Vec<Object>,
}

// Fields of a stream.

/// A whole number of a stream, written as a number or as text.
pub open spec fn number_of(stream: Stream, name: Seq<char>) -> Option<u64> {
    match stream.field(name) {
        Some(value) => match value.number(u64::MAX as nat) {
            Some(number) => Some(number as u64),
            None => None,
        },
        None => None,
    }
}

pub fn stream_dimension(stream: &Stream, name: &str) -> (result: Option<u64>)
    ensures
        result == number_of(*stream, name@),
{
    match stream.get(name) {
        Some(value) => value.as_number(u64::MAX),
        None => None,
    }
}

/// The index that a stream is known by.
pub open spec fn index_of(stream: Stream) -> Option<u64> {
    number_of(stream, "index"@)
}

pub fn stream_index(stream: &Stream) -> (result: Option<u64>)
    ensures
        result == index_of(*stream),
{
    stream_dimension(stream, "index")
}

/// What a stream carries: video, audio, subtitles or something else.
pub open spec fn kind_of(stream: Stream) -> Option<Seq<char>> {
    stream.text_field("codec_type"@)
}

pub fn stream_kind(stream: &Stream) -> (result: Option<&str>)
    ensures
        opt_str(result) == kind_of(*stream),
{
    stream.get_str("codec_type")
}

/// Whether a stream is of a kind.
pub open spec fn is_kind(stream: Stream, kind: Seq<char>) -> bool {
    kind_of(stream) == Some(kind)
}

pub fn stream_is(stream: &Stream, kind: &str) -> (result: bool)
    ensures
        result == is_kind(*stream, kind@),
{
    match stream_kind(stream) {
        Some(own) => same_text(own, kind),
        None => false,
    }
}

/// The name of the codec of a stream.
pub open spec fn codec_of(stream: Stream) -> Option<Seq<char>> {
    stream.text_field("codec_name"@)
}

pub fn stream_codec(stream: &Stream) -> (result: Option<&str>)
    ensures
        opt_str(result) == codec_of(*stream),
{
    stream.get_str("codec_name")
}

/// The codec of a stream, where it is one that a track can be encoded to.
pub open spec fn encodable_codec(stream: Stream) -> Option<Seq<char>> {
    match codec_of(stream) {
        Some(codec) if codec == "h264"@ || codec == "hevc"@ || codec == "av1"@ => Some(codec),
        _ => None,
    }
}

pub fn source_codec(stream: &Stream) -> (result: Option<&'static str>)
    ensures
        opt_str(result) == encodable_codec(*stream),
{
    match stream_codec(stream) {
        Some(codec) => if same_text(codec, "h264") {
            Some("h264")
        } else if same_text(codec, "hevc") {
            Some("hevc")
        } else if same_text(codec, "av1") {
            Some("av1")
        } else {
            None
        },
        None => None,
    }
}

pub open spec fn channels_of(stream: Stream) -> Option<u8> {
    match stream.field("channels"@) {
        Some(value) => match value.unsigned() {
            Some(channels) if channels <= u8::MAX => Some(channels as u8),
            _ => None,
        },
        None => None,
    }
}

pub fn stream_channels(stream: &Stream) -> (result: Option<u8>)
    ensures
        result == channels_of(*stream),
{
    match stream.get("channels") {
        Some(value) => match value.as_u64() {
            Some(channels) => if channels <= u8::MAX as u64 {
                Some(channels as u8)
            } else {
                None
            },
            None => None,
        },
        None => None,
    }
}

pub open spec fn sample_rate_of(stream: Stream) -> Option<u32> {
    match stream.field("sample_rate"@) {
        Some(value) => match value.number(u32::MAX as nat) {
            Some(rate) => Some(rate as u32),
            None => None,
        },
        None => None,
    }
}

pub fn stream_sample_rate(stream: &Stream) -> (result: Option<u32>)
    ensures
        result == sample_rate_of(*stream),
{
    match stream.get("sample_rate") {
        Some(value) => match value.as_number(u32::MAX as u64) {
            Some(rate) => Some(rate as u32),
            None => None,
        },
        None => None,
    }
}

/// Whether a stream carries a flag.
pub open spec fn flagged(stream: Stream, name: Seq<char>) -> bool {
    match stream.object_field("disposition"@) {
        Some(values) => match values.field(name) {
            Some(value) => value.signed() == Some(1i64),
            None => false,
        },
        None => false,
    }
}

pub fn stream_disposition(stream: &Stream, name: &str) -> (result: bool)
    ensures
        result == flagged(*stream, name@),
{
    match stream.get_object("disposition") {
        Some(values) => match values.get(name) {
            Some(value) => match value.as_i64() {
                Some(number) => number == 1,
                None => false,
            },
            None => false,
        },
        None => false,
    }
}

pub fn is_default(stream: &Stream) -> (result: bool)
    ensures
        result == flagged(*stream, "default"@),
{
    stream_disposition(stream, "default")
}

/// Whether a stream is a still picture that belongs to the file as its cover.
pub fn is_attached_picture(stream: &Stream) -> (result: bool)
    ensures
        result == flagged(*stream, "attached_pic"@),
{
    stream_disposition(stream, "attached_pic")
}

/// Whether a stream is a picture that plays, and not a cover.
pub open spec fn is_playable(stream: Stream) -> bool {
    is_kind(stream, "video"@) && !flagged(stream, "attached_pic"@)
}

pub fn is_playable_video(stream: &Stream) -> (result: bool)
    ensures
        result == is_playable(*stream),
{
    stream_is(stream, "video") && !is_attached_picture(stream)
}

/// Whether a stream is the chapter list in the shape of a track: text that the demuxer
/// hands over as opaque data beside the chapters it read out of it.
pub open spec fn is_chapters(info: MediaInfo, stream: Stream) -> bool {
    &&& info.chapters@.len() > 0
    &&& is_kind(stream, "data"@)
    &&& codec_of(stream) == Some("bin_data"@)
    &&& stream.text_field("codec_tag_string"@) == Some("text"@)
}

pub fn is_chapter_track(info: &MediaInfo, stream: &Stream) -> (result: bool)
    ensures
        result == is_chapters(*info, *stream),
{
    let opaque = match stream_codec(stream) {
        Some(codec) => same_text(codec, "bin_data"),
        None => false,
    };
    let text = match stream.get_str("codec_tag_string") {
        Some(tag) => same_text(tag, "text"),
        None => false,
    };
    info.chapters.len() > 0 && stream_is(stream, "data") && opaque && text
}

// Tags of a stream.

/// A tag of a stream.
pub open spec fn tag_of(stream: Stream, name: Seq<char>) -> Option<Seq<char>> {
    match stream.object_field("tags"@) {
        Some(tags) => tags.text_field(name),
        None => None,
    }
}

fn stream_tag<'a>(stream: &'a Stream, name: &str) -> (result: Option<&'a str>)
    ensures
        opt_str(result) == tag_of(*stream, name@),
{
    match stream.get_object("tags") {
        Some(tags) => tags.get_str(name),
        None => None,
    }
}

/// The language of a stream; a stream without one is undetermined.
pub open spec fn language_of(stream: Stream) -> Seq<char> {
    match tag_of(stream, "language"@) {
        Some(language) => language,
        None => "und"@,
    }
}

pub fn stream_language(stream: &Stream) -> (result: String)
    ensures
        result@ == language_of(*stream),
{
    match stream_tag(stream, "language") {
        Some(language) => language.to_owned(),
        None => "und".to_owned(),
    }
}

/// A tag without the white space around it, where anything is left.
pub open spec fn shown_tag(stream: Stream, name: Seq<char>) -> Option<Seq<char>> {
    match tag_of(stream, name) {
        Some(tag) if trimmed(tag).len() > 0 => Some(trimmed(tag)),
        _ => None,
    }
}

fn stream_shown_tag<'a>(stream: &'a Stream, name: &str) -> (result: Option<&'a str>)
    ensures
        opt_str(result) == shown_tag(*stream, name@),
{
    match stream_tag(stream, name) {
        Some(tag) => {
            let shown = trim(tag);
            if shown.is_empty() {
                None
            } else {
                Some(shown)
            }
        },
        None => None,
    }
}

/// The title of a stream, which a file may hold as its title or as its name.
pub open spec fn title_of(stream: Stream) -> Option<Seq<char>> {
    match shown_tag(stream, "title"@) {
        Some(title) => Some(title),
        None => shown_tag(stream, "name"@),
    }
}

pub fn stream_title(stream: &Stream) -> (result: Option<String>)
    ensures
        opt_text(result) == title_of(*stream),
{
    match stream_shown_tag(stream, "title") {
        Some(title) => Some(title.to_owned()),
        None => match stream_shown_tag(stream, "name") {
            Some(name) => Some(name.to_owned()),
            None => None,
        },
    }
}

/// The title of a stream, or else its handler's name, unless that is the one every
/// untitled stream is given.
pub open spec fn title_or_handler(stream: Stream, generic: Seq<char>) -> Option<Seq<char>> {
    match title_of(stream) {
        Some(title) => Some(title),
        None => match shown_tag(stream, "handler_name"@) {
            Some(handler) if ascii_lower(handler) != ascii_lower(generic) => Some(handler),
            _ => None,
        },
    }
}

fn title_or_handler_name(stream: &Stream, generic: &str) -> (result: Option<String>)
    ensures
        opt_text(result) == title_or_handler(*stream, generic@),
{
    match stream_title(stream) {
        Some(title) => Some(title),
        None => match stream_shown_tag(stream, "handler_name") {
            Some(handler) => if same_ignoring_case(handler, generic) {
                None
            } else {
                Some(handler.to_owned())
            },
            None => None,
        },
    }
}

pub open spec fn audio_title(stream: Stream) -> Option<Seq<char>> {
    title_or_handler(stream, "SoundHandler"@)
}

pub fn audio_stream_title(stream: &Stream) -> (result: Option<String>)
    ensures
        opt_text(result) == audio_title(*stream),
{
    title_or_handler_name(stream, "SoundHandler")
}

pub open spec fn video_title(stream: Stream) -> Option<Seq<char>> {
    title_or_handler(stream, "VideoHandler"@)
}

pub fn video_stream_title(stream: &Stream) -> (result: Option<String>)
    ensures
        opt_text(result) == video_title(*stream),
{
    title_or_handler_name(stream, "VideoHandler")
}

// Rotation.

/// The first angle in a list of side data.
pub open spec fn first_angle(entries: Seq<Value>) -> Option<i64>
    decreases entries.len(),
{
    if entries.len() == 0 {
        None
    } else {
        match angle_in(entries[0]) {
            Some(angle) => Some(angle),
            None => first_angle(entries.skip(1)),
        }
    }
}

/// The angle that one entry of side data holds.
pub open spec fn angle_in(entry: Value) -> Option<i64> {
    match entry {
        Value::Object(object) => match object.field("rotation"@) {
            Some(Value::Number(number)) => Some(number.nearest()),
            _ => None,
        },
        _ => None,
    }
}

/// The rotation that a stream asks a player for.
pub open spec fn rotation_of(stream: Stream) -> VideoRotation {
    match stream.field("side_data_list"@) {
        Some(Value::Array(entries)) => match first_angle(entries@) {
            Some(angle) => VideoRotation::of_angle(angle as int),
            None => VideoRotation::Upright,
        },
        _ => VideoRotation::Upright,
    }
}

pub fn stream_rotation(stream: &Stream) -> (result: VideoRotation)
    ensures
        result == rotation_of(*stream),
{
    if let Some(Value::Array(entries)) = stream.get("side_data_list") {
        let mut i: usize = 0;
        assert(entries@.skip(0) =~= entries@);
        while i < entries.len()
            invariant
                0 <= i <= entries.len(),
                stream.field("side_data_list"@) == Some(Value::Array(*entries)),
                first_angle(entries@) == first_angle(entries@.skip(i as int)),
            decreases entries.len() - i,
        {
            if let Value::Object(object) = &entries[i] {
                if let Some(Value::Number(number)) = object.get("rotation") {
                    return VideoRotation::from_degrees(number.rounded());
                }
            }
            assert(entries@.skip(i as int).skip(1) =~= entries@.skip(i + 1));
            i = i + 1;
        }
    }
    VideoRotation::Upright
}

// The metadata of a stream.

pub open spec fn subtitle_tags(stream: Stream) -> SubtitleTags {
    SubtitleTags {
        language: language_of(stream),
        title: title_of(stream),
        forced: flagged(stream, "forced"@),
        cc: flagged(stream, "captions"@),
        hearing_impaired: flagged(stream, "hearing_impaired"@),
        original: flagged(stream, "original"@),
        commentary: flagged(stream, "comment"@),
    }
}

pub fn stream_metadata(stream: &Stream) -> (result: SubtitleMetadata)
    ensures
        result@ == subtitle_tags(*stream),
{
    SubtitleMetadata {
        language: stream_language(stream),
        title: stream_title(stream),
        forced: stream_disposition(stream, "forced"),
        cc: stream_disposition(stream, "captions"),
        hearing_impaired: stream_disposition(stream, "hearing_impaired"),
        original: stream_disposition(stream, "original"),
        commentary: stream_disposition(stream, "comment"),
    }
}

pub open spec fn audio_tags(stream: Stream) -> AudioTags {
    AudioTags {
        language: language_of(stream),
        title: audio_title(stream),
        commentary: flagged(stream, "comment"@),
        hearing_impaired: flagged(stream, "hearing_impaired"@),
        audio_description: flagged(stream, "visual_impaired"@),
        original: flagged(stream, "original"@),
        dubbed: flagged(stream, "dub"@),
    }
}

pub fn audio_metadata(stream: &Stream) -> (result: AudioMetadata)
    ensures
        result@ == audio_tags(*stream),
{
    AudioMetadata {
        language: stream_language(stream),
        title: audio_stream_title(stream),
        commentary: stream_disposition(stream, "comment"),
        hearing_impaired: stream_disposition(stream, "hearing_impaired"),
        audio_description: stream_disposition(stream, "visual_impaired"),
        original: stream_disposition(stream, "original"),
        dubbed: stream_disposition(stream, "dub"),
    }
}

pub open spec fn video_tags(stream: Stream) -> VideoTags {
    VideoTags {
        language: language_of(stream),
        title: video_title(stream),
        commentary: flagged(stream, "comment"@),
    }
}

pub fn video_metadata(stream: &Stream) -> (result: VideoMetadata)
    ensures
        result@ == video_tags(*stream),
{
    VideoMetadata {
        language: stream_language(stream),
        title: video_stream_title(stream),
        commentary: stream_disposition(stream, "comment"),
    }
}

/// Whether a written subtitle stream says what was staged for it, in every field.
pub fn subtitle_metadata_matches(stream: &Stream, expected: &SubtitleMetadata) -> (result: bool)
    ensures
        result == (subtitle_tags(*stream) == expected@),
{
    let written = stream_metadata(stream);
    same_text(written.language.as_str(), expected.language.as_str())
        && crate::text::same_optional_text(
        crate::text::borrowed(&written.title),
        crate::text::borrowed(&expected.title),
    ) && written.forced == expected.forced && written.cc == expected.cc && written.hearing_impaired
        == expected.hearing_impaired && written.original == expected.original && written.commentary
        == expected.commentary
}

/// Whether a written audio stream says what was staged for it, in every field.
pub fn audio_metadata_matches(stream: &Stream, expected: &AudioMetadata) -> (result: bool)
    ensures
        result == (audio_tags(*stream) == expected@),
{
    let written = audio_metadata(stream);
    same_text(written.language.as_str(), expected.language.as_str())
        && crate::text::same_optional_text(
        crate::text::borrowed(&written.title),
        crate::text::borrowed(&expected.title),
    ) && written.commentary == expected.commentary && written.hearing_impaired
        == expected.hearing_impaired && written.audio_description == expected.audio_description
        && written.original == expected.original && written.dubbed == expected.dubbed
}

/// Whether a written video stream says what was staged for it, in every field.
pub fn video_metadata_matches(stream: &Stream, expected: &VideoMetadata) -> (result: bool)
    ensures
        result == (video_tags(*stream) == expected@),
{
    let written = video_metadata(stream);
    same_text(written.language.as_str(), expected.language.as_str())
        && crate::text::same_optional_text(
        crate::text::borrowed(&written.title),
        crate::text::borrowed(&expected.title),
    ) && written.commentary == expected.commentary
}

// Streams of a file.

/// The first stream of an index.
pub open spec fn stream_at(streams: Seq<Stream>, index: u64) -> Option<Stream>
    decreases streams.len(),
{
    if streams.len() == 0 {
        None
    } else if index_of(streams[0]) == Some(index) {
        Some(streams[0])
    } else {
        stream_at(streams.skip(1), index)
    }
}

pub fn find_stream(info: &MediaInfo, index: u64) -> (result: Option<&Stream>)
    ensures
        match result {
            Some(stream) => stream_at(info.streams@, index) == Some(*stream),
            None => stream_at(info.streams@, index) is None,
        },
{
    let mut i: usize = 0;
    assert(info.streams@.skip(0) =~= info.streams@);
    while i < info.streams.len()
        invariant
            0 <= i <= info.streams.len(),
            stream_at(info.streams@, index) == stream_at(info.streams@.skip(i as int), index),
        decreases info.streams.len() - i,
    {
        if let Some(own) = stream_index(&info.streams[i]) {
            if own == index {
                return Some(&info.streams[i]);
            }
        }
        assert(info.streams@.skip(i as int).skip(1) =~= info.streams@.skip(i + 1));
        i = i + 1;
    }
    None
}

/// A stream that is found is one of the file's and has the index asked for.
pub proof fn lemma_stream_at(streams: Seq<Stream>, index: u64)
    ensures
        match stream_at(streams, index) {
            Some(stream) => streams.contains(stream) && index_of(stream) == Some(index),
            None => forall|i: int|
                0 <= i < streams.len() ==> index_of(#[trigger] streams[i]) != Some(index),
        },
    decreases streams.len(),
{
    if streams.len() > 0 && index_of(streams[0]) != Some(index) {
        lemma_stream_at(streams.skip(1), index);
        match stream_at(streams.skip(1), index) {
            Some(stream) => {
                let i = choose|i: int|
                    0 <= i < streams.skip(1).len() && streams.skip(1)[i] == stream;
                assert(streams[i + 1] == stream);
            },
            None => {
                assert forall|i: int| 0 <= i < streams.len() implies index_of(
                    #[trigger] streams[i],
                ) != Some(index) by {
                    if i > 0 {
                        assert(streams.skip(1)[i - 1] == streams[i]);
                    }
                }
            },
        }
    } else if streams.len() > 0 {
        assert(streams.contains(streams[0]));
    }
}

/// The size of the first picture that plays.
pub open spec fn primary_size(streams: Seq<Stream>) -> Option<(u64, u64)>
    decreases streams.len(),
{
    if streams.len() == 0 {
        None
    } else if is_playable(streams[0]) {
        size_of(streams[0])
    } else {
        primary_size(streams.skip(1))
    }
}

/// The width and height of a stream, where both are known.
pub open spec fn size_of(stream: Stream) -> Option<(u64, u64)> {
    match (number_of(stream, "width"@), number_of(stream, "height"@)) {
        (Some(width), Some(height)) => Some((width, height)),
        _ => None,
    }
}

pub fn stream_size(stream: &Stream) -> (result: Option<(u64, u64)>)
    ensures
        result == size_of(*stream),
{
    match (stream_dimension(stream, "width"), stream_dimension(stream, "height")) {
        (Some(width), Some(height)) => Some((width, height)),
        _ => None,
    }
}

pub fn primary_video_resolution(info: &MediaInfo) -> (result: Option<(u64, u64)>)
    ensures
        result == primary_size(info.streams@),
{
    let mut i: usize = 0;
    assert(info.streams@.skip(0) =~= info.streams@);
    while i < info.streams.len()
        invariant
            0 <= i <= info.streams.len(),
            primary_size(info.streams@) == primary_size(info.streams@.skip(i as int)),
        decreases info.streams.len() - i,
    {
        if is_playable_video(&info.streams[i]) {
            return stream_size(&info.streams[i]);
        }
        assert(info.streams@.skip(i as int).skip(1) =~= info.streams@.skip(i + 1));
        i = i + 1;
    }
    None
}

/// The format that the probe names for the whole file.
pub open spec fn format_name_of(info: MediaInfo) -> Option<Seq<char>> {
    info.format.text_field("format_name"@)
}

pub fn format_name(info: &MediaInfo) -> (result: Option<&str>)
    ensures
        opt_str(result) == format_name_of(*info),
{
    info.format.get_str("format_name")
}

/// That the first field of a name is the one at `i`.
pub open spec fn says(fields: Seq<(String, Value)>, i: int, name: Seq<char>) -> bool {
    &&& 0 <= i < fields.len()
    &&& fields[i].0@ == name
    &&& forall|k: int| 0 <= k < i ==> (#[trigger] fields[k]).0@ != name
}

/// That no field has a name.
pub open spec fn silent_on(fields: Seq<(String, Value)>, name: Seq<char>) -> bool {
    forall|k: int| 0 <= k < fields.len() ==> (#[trigger] fields[k]).0@ != name
}

/// Where two fields of an object share a name, the first one counts; a name that no field
/// has is not found.
pub proof fn fields_are_found_by_name(fields: Seq<(String, Value)>, i: int, name: Seq<char>)
    ensures
        says(fields, i, name) ==> lookup(fields, name) == Some(fields[i].1),
        silent_on(fields, name) ==> lookup(fields, name) is None,
    decreases fields.len(),
{
    if fields.len() > 0 {
        let rest = fields.skip(1);
        fields_are_found_by_name(rest, i - 1, name);
        if says(fields, i, name) && i > 0 {
            assert(fields[0].0@ != name);
            assert forall|k: int| 0 <= k < i - 1 implies (#[trigger] rest[k]).0@ != name by {
                assert(rest[k] == fields[k + 1]);
            }
            assert(rest[i - 1] == fields[i]);
            assert(says(rest, i - 1, name));
        }
        if silent_on(fields, name) {
            assert(fields[0].0@ != name);
            assert forall|k: int| 0 <= k < rest.len() implies (#[trigger] rest[k]).0@ != name by {
                assert(rest[k] == fields[k + 1]);
            }
        }
    }
}

/// The kind of a stream is its `codec_type`, its codec its `codec_name`, and what a file is
/// its `format_name`: each is known where that field is a text, and only there.
pub proof fn kinds_and_codecs_are_read(stream: Stream, info: MediaInfo, i: int, text: String)
    ensures
        says(stream.fields@, i, "codec_type"@) && stream.fields@[i].1 == Value::Text(text)
            ==> kind_of(stream) == Some(text@) && is_kind(stream, text@),
        says(stream.fields@, i, "codec_type"@) && !(stream.fields@[i].1 is Text) || silent_on(
            stream.fields@,
            "codec_type"@,
        ) ==> kind_of(stream) is None,
        says(stream.fields@, i, "codec_name"@) && stream.fields@[i].1 == Value::Text(text)
            ==> codec_of(stream) == Some(text@),
        says(stream.fields@, i, "codec_name"@) && !(stream.fields@[i].1 is Text) || silent_on(
            stream.fields@,
            "codec_name"@,
        ) ==> codec_of(stream) is None,
        says(info.format.fields@, i, "format_name"@) && info.format.fields@[i].1 == Value::Text(
            text,
        ) ==> format_name_of(info) == Some(text@),
        says(info.format.fields@, i, "format_name"@) && !(info.format.fields@[i].1 is Text)
            || silent_on(info.format.fields@, "format_name"@) ==> format_name_of(info) is None,
{
    fields_are_found_by_name(stream.fields@, i, "codec_type"@);
    fields_are_found_by_name(stream.fields@, i, "codec_name"@);
    fields_are_found_by_name(info.format.fields@, i, "format_name"@);
}

/// A number of a stream is read whether the report gives it as a number or as the text of
/// one: its index, its width and height, its sample rate as far as it fits, and its
/// channels, which are only ever a number.
pub proof fn numbers_of_streams_are_read(stream: Stream, i: int, name: Seq<char>, number: u64)
    requires
        says(stream.fields@, i, name),
        stream.fields@[i].1 == Value::Number(Number::Whole(number)) || (stream.fields@[i].1 is Text
            && stream.fields@[i].1->Text_0@ == decimal(number as nat)),
    ensures
        number_of(stream, name) == Some(number),
        name == "index"@ ==> index_of(stream) == Some(number),
        name == "sample_rate"@ ==> sample_rate_of(stream) == if number <= u32::MAX {
            Some(number as u32)
        } else {
            None
        },
        name == "channels"@ ==> channels_of(stream) == if stream.fields@[i].1 is Number && number
            <= u8::MAX {
            Some(number as u8)
        } else {
            None
        },
{
    fields_are_found_by_name(stream.fields@, i, name);
    numbers_read_back(number as nat);
    assert(parsed(decimal(number as nat), u64::MAX as nat) == Some(number as nat));
}

/// A stream has no index, size, sample rate or channels where the field is missing, or is
/// neither a whole number nor a text.
pub proof fn other_values_are_no_numbers(stream: Stream, i: int, name: Seq<char>)
    requires
        silent_on(stream.fields@, name) || (says(stream.fields@, i, name)
            && match stream.fields@[i].1 {
            Value::Number(Number::Whole(_)) => false,
            Value::Text(_) => false,
            _ => true,
        }),
    ensures
        number_of(stream, name) is None,
        name == "index"@ ==> index_of(stream) is None,
        name == "sample_rate"@ ==> sample_rate_of(stream) is None,
        name == "channels"@ ==> channels_of(stream) is None,
        name == "width"@ || name == "height"@ ==> size_of(stream) is None,
{
    fields_are_found_by_name(stream.fields@, i, name);
}

/// A stream has a flag exactly where its `disposition` gives the flag the number one.
pub proof fn flags_are_read(stream: Stream, i: int, j: int, name: Seq<char>)
    ensures
        says(stream.fields@, i, "disposition"@) ==> match stream.fields@[i].1 {
            Value::Object(values) => {
                &&& says(values.fields@, j, name) ==> match values.fields@[j].1 {
                    Value::Number(Number::Whole(number)) => flagged(stream, name) == (number == 1),
                    Value::Number(Number::Negative(number)) => number < 0 ==> !flagged(
                        stream,
                        name,
                    ),
                    _ => !flagged(stream, name),
                }
                &&& silent_on(values.fields@, name) ==> !flagged(stream, name)
            },
            _ => !flagged(stream, name),
        },
        silent_on(stream.fields@, "disposition"@) ==> !flagged(stream, name),
{
    fields_are_found_by_name(stream.fields@, i, "disposition"@);
    if says(stream.fields@, i, "disposition"@) {
        if let Value::Object(values) = stream.fields@[i].1 {
            fields_are_found_by_name(values.fields@, j, name);
        }
    }
}

/// A tag of a stream is the text that its `tags` give the name.
pub proof fn tags_are_read(stream: Stream, i: int, j: int, name: Seq<char>)
    ensures
        says(stream.fields@, i, "tags"@) ==> match stream.fields@[i].1 {
            Value::Object(tags) => {
                &&& says(tags.fields@, j, name) ==> match tags.fields@[j].1 {
                    Value::Text(text) => tag_of(stream, name) == Some(text@),
                    _ => tag_of(stream, name) is None,
                }
                &&& silent_on(tags.fields@, name) ==> tag_of(stream, name) is None
            },
            _ => tag_of(stream, name) is None,
        },
        silent_on(stream.fields@, "tags"@) ==> tag_of(stream, name) is None,
{
    fields_are_found_by_name(stream.fields@, i, "tags"@);
    if says(stream.fields@, i, "tags"@) {
        if let Value::Object(tags) = stream.fields@[i].1 {
            fields_are_found_by_name(tags.fields@, j, name);
        }
    }
}

/// That a stream has a tag that is more than white space.
pub open spec fn has_words(stream: Stream, name: Seq<char>) -> bool {
    tag_of(stream, name) is Some && trimmed(tag_of(stream, name)->0).len() > 0
}

/// A stream is called what its `title` says, or else its `name`; a picture or a soundtrack
/// without either is called what its `handler_name` says, unless that is the one that
/// every file has, however it is spelt. Around each, white space is left out.
pub proof fn titles_are_read(stream: Stream)
    ensures
        has_words(stream, "title"@) ==> {
            &&& title_of(stream) == Some(trimmed(tag_of(stream, "title"@)->0))
            &&& audio_title(stream) == title_of(stream)
            &&& video_title(stream) == title_of(stream)
        },
        !has_words(stream, "title"@) && has_words(stream, "name"@) ==> {
            &&& title_of(stream) == Some(trimmed(tag_of(stream, "name"@)->0))
            &&& audio_title(stream) == title_of(stream)
            &&& video_title(stream) == title_of(stream)
        },
        !has_words(stream, "title"@) && !has_words(stream, "name"@) ==> title_of(stream) is None,
        !has_words(stream, "title"@) && !has_words(stream, "name"@) && has_words(
            stream,
            "handler_name"@,
        ) ==> {
            let handler = trimmed(tag_of(stream, "handler_name"@)->0);
            &&& audio_title(stream) == if ascii_lower(handler) == "soundhandler"@ {
                None
            } else {
                Some(handler)
            }
            &&& video_title(stream) == if ascii_lower(handler) == "videohandler"@ {
                None
            } else {
                Some(handler)
            }
        },
        !has_words(stream, "title"@) && !has_words(stream, "name"@) && !has_words(
            stream,
            "handler_name"@,
        ) ==> audio_title(stream) is None && video_title(stream) is None,
{
    reveal_strlit("SoundHandler");
    reveal_strlit("soundhandler");
    reveal_strlit("VideoHandler");
    reveal_strlit("videohandler");
    assert(ascii_lower("SoundHandler"@) =~= "soundhandler"@);
    assert(ascii_lower("VideoHandler"@) =~= "videohandler"@);
}

/// A stream that does not say its language has an undetermined one.
pub proof fn languages_are_read(stream: Stream)
    ensures
        tag_of(stream, "language"@) is Some ==> language_of(stream) == tag_of(
            stream,
            "language"@,
        )->0,
        tag_of(stream, "language"@) is None ==> language_of(stream) == "und"@,
        subtitle_tags(stream).language == language_of(stream),
        audio_tags(stream).language == language_of(stream),
        video_tags(stream).language == language_of(stream),
{
}

/// Each role of a track is the flag of that name.
pub proof fn roles_are_read(stream: Stream)
    ensures
        subtitle_tags(stream).title == title_of(stream),
        subtitle_tags(stream).forced == flagged(stream, "forced"@),
        subtitle_tags(stream).cc == flagged(stream, "captions"@),
        subtitle_tags(stream).hearing_impaired == flagged(stream, "hearing_impaired"@),
        subtitle_tags(stream).original == flagged(stream, "original"@),
        subtitle_tags(stream).commentary == flagged(stream, "comment"@),
        audio_tags(stream).title == audio_title(stream),
        audio_tags(stream).commentary == flagged(stream, "comment"@),
        audio_tags(stream).hearing_impaired == flagged(stream, "hearing_impaired"@),
        audio_tags(stream).audio_description == flagged(stream, "visual_impaired"@),
        audio_tags(stream).original == flagged(stream, "original"@),
        audio_tags(stream).dubbed == flagged(stream, "dub"@),
        video_tags(stream).title == video_title(stream),
        video_tags(stream).commentary == flagged(stream, "comment"@),
{
}

/// A cover picture is not played, and a data track of text is the chapters of a file that
/// has any.
pub proof fn pictures_and_chapters_are_told_apart(info: MediaInfo, stream: Stream)
    ensures
        is_playable(stream) <==> kind_of(stream) == Some("video"@) && !flagged(
            stream,
            "attached_pic"@,
        ),
        is_chapters(info, stream) <==> info.chapters@.len() > 0 && kind_of(stream) == Some("data"@)
            && codec_of(stream) == Some("bin_data"@) && stream.text_field("codec_tag_string"@)
            == Some("text"@),
        !(is_playable(stream) && is_chapters(info, stream)),
        encodable_codec(stream) == if codec_of(stream) == Some("h264"@) || codec_of(stream) == Some(
            "hevc"@,
        ) || codec_of(stream) == Some("av1"@) {
            codec_of(stream)
        } else {
            None
        },
{
    reveal_strlit("video");
    reveal_strlit("data");
    assert("video"@.len() != "data"@.len());
}

/// That an entry of the side data says by what number the picture is turned.
pub open spec fn turns_by(entry: Value, k: int, number: Number) -> bool {
    entry is Object && says(entry->Object_0.fields@, k, "rotation"@)
        && entry->Object_0.fields@[k].1 == Value::Number(number)
}

proof fn lemma_no_turn(entry: Value)
    ensures
        angle_in(entry) is Some ==> exists|k: int, number: Number| turns_by(entry, k, number),
{
    if angle_in(entry) is Some {
        let fields = entry->Object_0.fields@;
        let k = lemma_lookup_place(fields, "rotation"@);
        assert(turns_by(entry, k, fields[k].1->Number_0));
    }
}

proof fn lemma_lookup_place(fields: Seq<(String, Value)>, name: Seq<char>) -> (k: int)
    requires
        lookup(fields, name) is Some,
    ensures
        says(fields, k, name),
        lookup(fields, name) == Some(fields[k].1),
    decreases fields.len(),
{
    if fields[0].0@ == name {
        0
    } else {
        let rest = fields.skip(1);
        let k = lemma_lookup_place(rest, name);
        assert forall|j: int| 0 <= j < k + 1 implies (#[trigger] fields[j]).0@ != name by {
            if j > 0 {
                assert(rest[j - 1] == fields[j]);
            }
        }
        assert(rest[k] == fields[k + 1]);
        k + 1
    }
}

proof fn lemma_first_angle(entries: Seq<Value>, j: int)
    ensures
        0 <= j < entries.len() && angle_in(entries[j]) is Some && (forall|e: int|
            0 <= e < j ==> angle_in(#[trigger] entries[e]) is None) ==> first_angle(entries)
            == angle_in(entries[j]),
        (forall|e: int| 0 <= e < entries.len() ==> angle_in(#[trigger] entries[e]) is None)
            ==> first_angle(entries) is None,
    decreases entries.len(),
{
    if entries.len() > 0 {
        let rest = entries.skip(1);
        lemma_first_angle(rest, j - 1);
        assert forall|e: int| 0 <= e < rest.len() implies #[trigger] rest[e] == entries[e + 1] by {}
        if j > 0 && j < entries.len() {
            assert(rest[j - 1] == entries[j]);
        }
    }
}

/// The picture is turned by the first entry of the side data that has a number for it, and
/// stands upright where there is none.
pub proof fn rotations_are_read(
    stream: Stream,
    entries: Vec<Value>,
    i: int,
    j: int,
    k: int,
    number: Number,
)
    ensures
        says(stream.fields@, i, "side_data_list"@) && stream.fields@[i].1 == Value::Array(entries)
            ==> {
            &&& 0 <= j < entries@.len() && turns_by(entries@[j], k, number) && (forall|
                e: int,
                at: int,
                other: Number,
            |
                0 <= e < j ==> !#[trigger] turns_by(entries@[e], at, other)) ==> match number {
                Number::Whole(degrees) => degrees <= i64::MAX ==> rotation_of(stream)
                    == VideoRotation::of_angle(degrees as int),
                Number::Negative(degrees) => rotation_of(stream) == VideoRotation::of_angle(
                    degrees as int,
                ),
                Number::Fraction(degrees) => rotation_of(stream) == VideoRotation::of_angle(
                    degrees as int,
                ),
            }
            &&& (forall|e: int, at: int, other: Number|
                0 <= e < entries@.len() ==> !#[trigger] turns_by(entries@[e], at, other))
                ==> rotation_of(stream) == VideoRotation::Upright
        },
        says(stream.fields@, i, "side_data_list"@) && !(stream.fields@[i].1 is Array) || silent_on(
            stream.fields@,
            "side_data_list"@,
        ) ==> rotation_of(stream) == VideoRotation::Upright,
{
    fields_are_found_by_name(stream.fields@, i, "side_data_list"@);
    if says(stream.fields@, i, "side_data_list"@) && stream.fields@[i].1 == Value::Array(entries) {
        lemma_first_angle(entries@, j);
        assert forall|e: int|
            0 <= e < entries@.len() && angle_in(#[trigger] entries@[e]) is Some implies exists|
            at: int,
            other: Number,
        | turns_by(entries@[e], at, other) by {
            lemma_no_turn(entries@[e]);
        }
        if 0 <= j < entries@.len() && turns_by(entries@[j], k, number) {
            fields_are_found_by_name(entries@[j]->Object_0.fields@, k, "rotation"@);
        }
    }
}

/// A track is the first stream that has its index.
pub proof fn streams_are_found_by_index(streams: Seq<Stream>, i: int, index: u64)
    requires
        0 <= i < streams.len(),
        index_of(streams[i]) == Some(index),
        forall|k: int| 0 <= k < i ==> index_of(#[trigger] streams[k]) != Some(index),
    ensures
        stream_at(streams, index) == Some(streams[i]),
    decreases streams.len(),
{
    if i > 0 {
        let rest = streams.skip(1);
        assert(index_of(streams[0]) != Some(index));
        assert forall|k: int| 0 <= k < i - 1 implies index_of(#[trigger] rest[k]) != Some(index) by {
            assert(rest[k] == streams[k + 1]);
        }
        assert(rest[i - 1] == streams[i]);
        streams_are_found_by_index(rest, i - 1, index);
    }
}

/// The size of a file is that of the first picture in it that is played, as wide as that
/// says and as high.
pub proof fn files_are_as_large_as_their_picture(streams: Seq<Stream>, i: int)
    ensures
        0 <= i < streams.len() && is_playable(streams[i]) && (forall|k: int|
            0 <= k < i ==> !is_playable(#[trigger] streams[k])) ==> {
            let width = number_of(streams[i], "width"@);
            let height = number_of(streams[i], "height"@);
            primary_size(streams) == if width is Some && height is Some {
                Some((width->0, height->0))
            } else {
                None
            }
        },
        (forall|k: int| 0 <= k < streams.len() ==> !is_playable(#[trigger] streams[k]))
            ==> primary_size(streams) is None,
    decreases streams.len(),
{
    if streams.len() > 0 {
        let rest = streams.skip(1);
        files_are_as_large_as_their_picture(rest, i - 1);
        assert forall|k: int| 0 <= k < rest.len() implies #[trigger] rest[k] == streams[k + 1] by {}
        if 0 < i < streams.len() {
            assert(rest[i - 1] == streams[i]);
        }
    }
}

} // verus!
