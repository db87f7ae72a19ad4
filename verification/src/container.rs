//! Container formats: what each is called, what it can hold and what it drops.

use vstd::prelude::*;

use crate::audio::{AudioMetadata, AudioRole, AudioTags};
use crate::path::{FilePath, PathModel};
use crate::subtitle::{SubtitleFlag, SubtitleFormat, SubtitleMetadata, SubtitleTags};
use crate::text::{
    ascii_lower, begins_with, copied, holds, lists, opt_str, opt_text, pieces, same_text, split,
    starts_with, to_ascii_lowercase,
};
use crate::video::{VideoMetadata, VideoTags};

verus! {

#[derive(Clone, Copy, Debug, Eq, Ord, PartialEq, PartialOrd, Structural)]
pub enum ContainerFormat {
    Matroska,
    Mp4,
    Mov,
    WebM,
}

impl ContainerFormat {
    pub const TARGETS: [ContainerFormat; 4] = [
        ContainerFormat::Matroska,
        ContainerFormat::Mp4,
        ContainerFormat::Mov,
        ContainerFormat::WebM,
    ];

    pub open spec fn label_text(self) -> Seq<char> {
        match self {
            ContainerFormat::Matroska => "MKV"@,
            ContainerFormat::Mp4 => "MP4"@,
            ContainerFormat::Mov => "MOV"@,
            ContainerFormat::WebM => "WebM"@,
        }
    }

    pub fn label(self) -> (result: &'static str)
        ensures
            result@ == self.label_text(),
    {
        match self {
            ContainerFormat::Matroska => "MKV",
            ContainerFormat::Mp4 => "MP4",
            ContainerFormat::Mov => "MOV",
            ContainerFormat::WebM => "WebM",
        }
    }

    pub open spec fn extension_text(self) -> Seq<char> {
        match self {
            ContainerFormat::Matroska => "mkv"@,
            ContainerFormat::Mp4 => "mp4"@,
            ContainerFormat::Mov => "mov"@,
            ContainerFormat::WebM => "webm"@,
        }
    }

    pub fn extension(self) -> (result: &'static str)
        ensures
            result@ == self.extension_text(),
    {
        match self {
            ContainerFormat::Matroska => "mkv",
            ContainerFormat::Mp4 => "mp4",
            ContainerFormat::Mov => "mov",
            ContainerFormat::WebM => "webm",
        }
    }

    pub open spec fn muxer_text(self) -> Seq<char> {
        match self {
            ContainerFormat::Matroska => "matroska"@,
            ContainerFormat::Mp4 => "mp4"@,
            ContainerFormat::Mov => "mov"@,
            ContainerFormat::WebM => "webm"@,
        }
    }

    pub fn muxer(self) -> (result: &'static str)
        ensures
            result@ == self.muxer_text(),
    {
        match self {
            ContainerFormat::Matroska => "matroska",
            ContainerFormat::Mp4 => "mp4",
            ContainerFormat::Mov => "mov",
            ContainerFormat::WebM => "webm",
        }
    }

    /// The container that an extension stands for, in upper or lower case.
    pub open spec fn of_extension(extension: Seq<char>) -> Option<ContainerFormat> {
        let lower = ascii_lower(extension);
        if lower == "mkv"@ || lower == "mka"@ || lower == "mks"@ {
            Some(ContainerFormat::Matroska)
        } else if lower == "mp4"@ || lower == "m4v"@ {
            Some(ContainerFormat::Mp4)
        } else if lower == "mov"@ {
            Some(ContainerFormat::Mov)
        } else if lower == "webm"@ {
            Some(ContainerFormat::WebM)
        } else {
            None
        }
    }

    /// The container that the extension of a path stands for.
    pub open spec fn named_by(path: PathModel) -> Option<ContainerFormat> {
        match path.extension() {
            Some(extension) => ContainerFormat::of_extension(extension),
            None => None,
        }
    }

    pub fn from_path(path: &FilePath) -> (result: Option<ContainerFormat>)
        ensures
            result == ContainerFormat::named_by(path@),
    {
        match path.extension() {
            Some(extension) => {
                let lower_text = to_ascii_lowercase(extension);
                let lower = lower_text.as_str();
                if same_text(lower, "mkv") || same_text(lower, "mka") || same_text(lower, "mks") {
                    Some(ContainerFormat::Matroska)
                } else if same_text(lower, "mp4") || same_text(lower, "m4v") {
                    Some(ContainerFormat::Mp4)
                } else if same_text(lower, "mov") {
                    Some(ContainerFormat::Mov)
                } else if same_text(lower, "webm") {
                    Some(ContainerFormat::WebM)
                } else {
                    None
                }
            },
            None => None,
        }
    }

    /// Whether the container is MP4 or MOV.
    pub open spec fn iso(self) -> bool {
        self == ContainerFormat::Mp4 || self == ContainerFormat::Mov
    }

    /// Whether the format that a probe names is of the family of this container.
    pub open spec fn in_family(self, format_name: Seq<char>) -> bool {
        if self.iso() {
            ||| lists(format_name, ',', "mov"@)
            ||| lists(format_name, ',', "mp4"@)
            ||| lists(format_name, ',', "m4a"@)
            ||| lists(format_name, ',', "3gp"@)
            ||| lists(format_name, ',', "3g2"@)
            ||| lists(format_name, ',', "mj2"@)
        } else {
            lists(format_name, ',', "matroska"@) || lists(format_name, ',', "webm"@)
        }
    }

    pub fn matches_format_name(self, format_name: &str) -> (result: bool)
        ensures
            result == self.in_family(format_name@),
    {
        let names = split(format_name, ',');
        let tokens = names.as_slice();
        match self {
            ContainerFormat::Matroska | ContainerFormat::WebM => holds(tokens, "matroska")
                || holds(tokens, "webm"),
            ContainerFormat::Mp4 | ContainerFormat::Mov => holds(tokens, "mov") || holds(
                tokens,
                "mp4",
            ) || holds(tokens, "m4a") || holds(tokens, "3gp") || holds(tokens, "3g2") || holds(
                tokens,
                "mj2",
            ),
        }
    }

    /// The container a file is really in: what its extension says, unless the probe names
    /// the other family.
    pub open spec fn detected(path: PathModel, format_name: Option<Seq<char>>) -> Option<
        ContainerFormat,
    > {
        let named = ContainerFormat::named_by(path);
        match format_name {
            None => named,
            Some(format_name) => if named is Some && named->0.in_family(format_name) {
                named
            } else if ContainerFormat::Matroska.in_family(format_name) {
                Some(ContainerFormat::Matroska)
            } else if ContainerFormat::Mp4.in_family(format_name) {
                Some(ContainerFormat::Mp4)
            } else {
                named
            },
        }
    }

    pub fn detect(path: &FilePath, format_name: Option<&str>) -> (result: Option<ContainerFormat>)
        ensures
            result == ContainerFormat::detected(path@, opt_str(format_name)),
    {
        let by_extension = ContainerFormat::from_path(path);
        let format_name = match format_name {
            Some(format_name) => format_name,
            None => return by_extension,
        };
        if let Some(container) = by_extension {
            if container.matches_format_name(format_name) {
                return by_extension;
            }
        }
        if ContainerFormat::Matroska.matches_format_name(format_name) {
            Some(ContainerFormat::Matroska)
        } else if ContainerFormat::Mp4.matches_format_name(format_name) {
            Some(ContainerFormat::Mp4)
        } else {
            by_extension
        }
    }

    /// Whether the container stores a cover picture of a codec.
    pub open spec fn stores_cover(self, codec: Seq<char>) -> bool {
        match self {
            ContainerFormat::Matroska => true,
            ContainerFormat::Mp4 | ContainerFormat::Mov => codec == "mjpeg"@ || codec == "png"@,
            ContainerFormat::WebM => false,
        }
    }

    pub open spec fn stores_video(self, codec: Seq<char>) -> bool {
        match self {
            ContainerFormat::Matroska => true,
            ContainerFormat::Mp4 => ContainerFormat::iso_video(codec),
            ContainerFormat::Mov => ContainerFormat::iso_video(codec) || codec == "prores"@,
            ContainerFormat::WebM => codec == "vp8"@ || codec == "vp9"@ || codec == "av1"@,
        }
    }

    pub open spec fn stores_audio(self, codec: Seq<char>) -> bool {
        match self {
            ContainerFormat::Matroska => true,
            ContainerFormat::Mp4 => ContainerFormat::iso_audio(codec),
            ContainerFormat::Mov => ContainerFormat::iso_audio(codec) || begins_with(
                codec,
                "pcm_"@,
            ),
            ContainerFormat::WebM => codec == "opus"@ || codec == "vorbis"@,
        }
    }

    pub open spec fn iso_video(codec: Seq<char>) -> bool {
        codec == "h264"@ || codec == "hevc"@ || codec == "av1"@ || codec == "mpeg4"@ || codec
            == "mjpeg"@
    }

    pub open spec fn iso_audio(codec: Seq<char>) -> bool {
        codec == "aac"@ || codec == "alac"@ || codec == "ac3"@ || codec == "eac3"@ || codec
            == "mp3"@ || codec == "opus"@
    }

    pub open spec fn stores_subtitle(self, codec: Seq<char>) -> bool {
        match self {
            ContainerFormat::Matroska => codec == "subrip"@ || codec == "ass"@ || codec == "ssa"@
                || codec == "webvtt"@ || codec == "hdmv_pgs_subtitle"@ || codec == "dvd_subtitle"@,
            ContainerFormat::Mp4 | ContainerFormat::Mov => codec == "mov_text"@,
            ContainerFormat::WebM => codec == "webvtt"@,
        }
    }

    /// Whether the container stores a stream of a kind and a codec. A cover picture is
    /// judged by a rule of its own.
    pub open spec fn stores(self, kind: Seq<char>, codec: Seq<char>, cover: bool) -> bool {
        if cover {
            self.stores_cover(codec)
        } else if kind == "video"@ {
            self.stores_video(codec)
        } else if kind == "audio"@ {
            self.stores_audio(codec)
        } else if kind == "subtitle"@ {
            self.stores_subtitle(codec)
        } else if kind == "attachment"@ {
            self == ContainerFormat::Matroska
        } else if kind == "data"@ {
            self.iso() && codec == "bin_data"@
        } else {
            false
        }
    }

    pub fn supports_codec(self, kind: &str, codec: &str, attached_picture: bool) -> (result: bool)
        ensures
            result == self.stores(kind@, codec@, attached_picture),
    {
        if attached_picture {
            return match self {
                ContainerFormat::Matroska => true,
                ContainerFormat::Mp4 | ContainerFormat::Mov => same_text(codec, "mjpeg")
                    || same_text(codec, "png"),
                ContainerFormat::WebM => false,
            };
        }
        if same_text(kind, "video") {
            match self {
                ContainerFormat::Matroska => true,
                ContainerFormat::Mp4 | ContainerFormat::Mov => same_text(codec, "h264")
                    || same_text(codec, "hevc") || same_text(codec, "av1") || same_text(
                    codec,
                    "mpeg4",
                ) || same_text(codec, "mjpeg") || (self == ContainerFormat::Mov && same_text(
                    codec,
                    "prores",
                )),
                ContainerFormat::WebM => same_text(codec, "vp8") || same_text(codec, "vp9")
                    || same_text(codec, "av1"),
            }
        } else if same_text(kind, "audio") {
            match self {
                ContainerFormat::Matroska => true,
                ContainerFormat::Mp4 | ContainerFormat::Mov => same_text(codec, "aac")
                    || same_text(codec, "alac") || same_text(codec, "ac3") || same_text(
                    codec,
                    "eac3",
                ) || same_text(codec, "mp3") || same_text(codec, "opus") || (self
                    == ContainerFormat::Mov && starts_with(codec, "pcm_")),
                ContainerFormat::WebM => same_text(codec, "opus") || same_text(codec, "vorbis"),
            }
        } else if same_text(kind, "subtitle") {
            match self {
                ContainerFormat::Matroska => same_text(codec, "subrip") || same_text(codec, "ass")
                    || same_text(codec, "ssa") || same_text(codec, "webvtt") || same_text(
                    codec,
                    "hdmv_pgs_subtitle",
                ) || same_text(codec, "dvd_subtitle"),
                ContainerFormat::Mp4 | ContainerFormat::Mov => same_text(codec, "mov_text"),
                ContainerFormat::WebM => same_text(codec, "webvtt"),
            }
        } else if same_text(kind, "attachment") {
            self == ContainerFormat::Matroska
        } else if same_text(kind, "data") {
            (self == ContainerFormat::Mp4 || self == ContainerFormat::Mov) && same_text(
                codec,
                "bin_data",
            )
        } else {
            false
        }
    }

    pub open spec fn stores_flag(self, flag: SubtitleFlag) -> bool {
        match self {
            ContainerFormat::Matroska => flag != SubtitleFlag::Cc,
            ContainerFormat::Mp4 => flag != SubtitleFlag::Original,
            ContainerFormat::Mov => false,
            ContainerFormat::WebM => flag == SubtitleFlag::Forced || flag == SubtitleFlag::Cc,
        }
    }

    pub fn supports_subtitle_flag(self, flag: SubtitleFlag) -> (result: bool)
        ensures
            result == self.stores_flag(flag),
    {
        match self {
            ContainerFormat::Matroska => flag != SubtitleFlag::Cc,
            ContainerFormat::Mp4 => flag != SubtitleFlag::Original,
            ContainerFormat::Mov => false,
            ContainerFormat::WebM => matches!(flag, SubtitleFlag::Forced | SubtitleFlag::Cc),
        }
    }

    /// Subtitle metadata without the flags that the container does not store.
    pub open spec fn kept_subtitle(self, tags: SubtitleTags) -> SubtitleTags {
        SubtitleTags {
            language: tags.language,
            title: tags.title,
            forced: tags.forced && self.stores_flag(SubtitleFlag::Forced),
            cc: tags.cc && self.stores_flag(SubtitleFlag::Cc),
            hearing_impaired: tags.hearing_impaired && self.stores_flag(
                SubtitleFlag::HearingImpaired,
            ),
            original: tags.original && self.stores_flag(SubtitleFlag::Original),
            commentary: tags.commentary && self.stores_flag(SubtitleFlag::Commentary),
        }
    }

    pub fn retain_supported_subtitle_metadata(self, metadata: &mut SubtitleMetadata)
        ensures
            final(metadata)@ == self.kept_subtitle(old(metadata)@),
    {
        let ghost before = metadata@;
        let all: [SubtitleFlag; 5] = SubtitleFlag::ALL;
        let mut i: usize = 0;
        while i < 5
            invariant
                0 <= i <= 5,
                all@ == SubtitleFlag::ALL@,
                metadata@.language == before.language,
                metadata@.title == before.title,
                forall|flag: SubtitleFlag|
                    #![trigger metadata@.flag(flag)]
                    metadata@.flag(flag) == (before.flag(flag) && (self.stores_flag(flag) || !all@.take(
                        i as int,
                    ).contains(flag))),
            decreases 5 - i,
        {
            let flag: SubtitleFlag = all[i];
            let ghost earlier = metadata@;
            if !self.supports_subtitle_flag(flag) {
                metadata.set_flag(flag, false);
            }
            proof {
                assert(all@.take(i + 1) =~= all@.take(i as int).push(flag));
                assert forall|other: SubtitleFlag| #![trigger metadata@.flag(other)]
                    metadata@.flag(other) == (before.flag(other) && (self.stores_flag(other)
                        || !all@.take(i + 1).contains(other))) by {
                    assert(earlier.flag(other) == (before.flag(other) && (self.stores_flag(other)
                        || !all@.take(i as int).contains(other))));
                    crate::subtitle::flags_read_back(earlier, flag, false, other);
                    assert(all@.take(i + 1).contains(other) <==> (all@.take(i as int).contains(
                        other,
                    ) || other == flag)) by {
                        if all@.take(i as int).contains(other) {
                            let k = choose|k: int| 0 <= k < i && all@.take(i as int)[k] == other;
                            assert(all@.take(i + 1)[k] == other);
                        }
                        assert(all@.take(i + 1)[i as int] == flag);
                    }
                }
            }
            i = i + 1;
        }
        proof {
            let flags = all@.take(5);
            assert(flags[0] == SubtitleFlag::Forced && flags[1] == SubtitleFlag::Cc && flags[2]
                == SubtitleFlag::HearingImpaired && flags[3] == SubtitleFlag::Original && flags[4]
                == SubtitleFlag::Commentary);
            assert(metadata@.flag(SubtitleFlag::Forced) == metadata@.forced);
            assert(metadata@.flag(SubtitleFlag::Cc) == metadata@.cc);
            assert(metadata@.flag(SubtitleFlag::HearingImpaired) == metadata@.hearing_impaired);
            assert(metadata@.flag(SubtitleFlag::Original) == metadata@.original);
            assert(metadata@.flag(SubtitleFlag::Commentary) == metadata@.commentary);
        }
    }

    pub open spec fn stores_language(self) -> bool {
        self != ContainerFormat::Mov
    }

    /// Whether a stream can be given a language at all.
    pub fn supports_stream_language(self) -> (result: bool)
        ensures
            result == self.stores_language(),
    {
        self != ContainerFormat::Mov
    }

    pub open spec fn stores_role(self, role: AudioRole) -> bool {
        match self {
            ContainerFormat::Matroska => true,
            ContainerFormat::Mp4 => role != AudioRole::Original,
            ContainerFormat::Mov | ContainerFormat::WebM => false,
        }
    }

    pub fn supports_audio_role(self, role: AudioRole) -> (result: bool)
        ensures
            result == self.stores_role(role),
    {
        match self {
            ContainerFormat::Matroska => true,
            ContainerFormat::Mp4 => matches!(
                role,
                AudioRole::Commentary
                    | AudioRole::HearingImpaired
                    | AudioRole::AudioDescription
                    | AudioRole::Dubbed
            ),
            ContainerFormat::Mov | ContainerFormat::WebM => false,
        }
    }

    /// The language that the container stores for a stream.
    pub open spec fn kept_language(self, language: Seq<char>) -> Seq<char> {
        if self.stores_language() {
            language
        } else {
            "und"@
        }
    }

    /// Audio metadata without what the container does not store.
    pub open spec fn kept_audio(self, tags: AudioTags) -> AudioTags {
        AudioTags {
            language: self.kept_language(tags.language),
            title: tags.title,
            commentary: tags.commentary && self.stores_role(AudioRole::Commentary),
            hearing_impaired: tags.hearing_impaired && self.stores_role(
                AudioRole::HearingImpaired,
            ),
            audio_description: tags.audio_description && self.stores_role(
                AudioRole::AudioDescription,
            ),
            original: tags.original && self.stores_role(AudioRole::Original),
            dubbed: tags.dubbed && self.stores_role(AudioRole::Dubbed),
        }
    }

    pub fn retain_supported_audio_metadata(self, metadata: &mut AudioMetadata)
        ensures
            final(metadata)@ == self.kept_audio(old(metadata)@),
    {
        if !self.supports_stream_language() {
            metadata.language = "und".to_owned();
        }
        self.clear_unsupported_role(metadata, AudioRole::Commentary);
        self.clear_unsupported_role(metadata, AudioRole::HearingImpaired);
        self.clear_unsupported_role(metadata, AudioRole::AudioDescription);
        self.clear_unsupported_role(metadata, AudioRole::Original);
        self.clear_unsupported_role(metadata, AudioRole::Dubbed);
    }

    fn clear_unsupported_role(self, metadata: &mut AudioMetadata, role: AudioRole)
        ensures
            final(metadata)@ == (if self.stores_role(role) {
                old(metadata)@
            } else {
                old(metadata)@.with_role(role, false)
            }),
    {
        if !self.supports_audio_role(role) {
            metadata.set_role(role, false);
        }
    }

    /// Whether a track can be flagged as commentary: the rule for sound is that for
    /// pictures too.
    pub fn supports_commentary_flag(self) -> (result: bool)
        ensures
            result == self.stores_role(AudioRole::Commentary),
    {
        self.supports_audio_role(AudioRole::Commentary)
    }

    /// Whether a rotation can be stored beside the picture.
    pub fn supports_display_rotation(self) -> (result: bool)
        ensures
            result == (self != ContainerFormat::WebM),
    {
        self != ContainerFormat::WebM
    }

    /// Video metadata without what the container does not store.
    pub open spec fn kept_video(self, tags: VideoTags) -> VideoTags {
        VideoTags {
            language: self.kept_language(tags.language),
            title: tags.title,
            commentary: tags.commentary && self.stores_role(AudioRole::Commentary),
        }
    }

    pub fn retain_supported_video_metadata(self, metadata: &mut VideoMetadata)
        ensures
            final(metadata)@ == self.kept_video(old(metadata)@),
    {
        if !self.supports_stream_language() {
            metadata.language = "und".to_owned();
        }
        if !self.supports_commentary_flag() {
            metadata.commentary = false;
        }
    }
}

/// What an optional container leaves of metadata: everything where there is none.
pub open spec fn kept_subtitle_in(container: Option<ContainerFormat>, tags: SubtitleTags) -> SubtitleTags {
    match container {
        Some(container) => container.kept_subtitle(tags),
        None => tags,
    }
}

pub open spec fn kept_audio_in(container: Option<ContainerFormat>, tags: AudioTags) -> AudioTags {
    match container {
        Some(container) => container.kept_audio(tags),
        None => tags,
    }
}

pub open spec fn kept_video_in(container: Option<ContainerFormat>, tags: VideoTags) -> VideoTags {
    match container {
        Some(container) => container.kept_video(tags),
        None => tags,
    }
}

/// Titles and notes of the whole file.
#[derive(Debug, Eq, PartialEq)]
pub struct ContainerMetadata {
    pub title: Option<String>,
    pub comment: Option<String>,
    pub date: Option<String>,
    pub genre: Option<String>,
    pub artist: Option<String>,
}

/// What a [`ContainerMetadata`] says.
pub ghost struct ContainerTags {
    pub title: Option<Seq<char>>,
    pub comment: Option<Seq<char>>,
    pub date: Option<Seq<char>>,
    pub genre: Option<Seq<char>>,
    pub artist: Option<Seq<char>>,
}

impl View for ContainerMetadata {
    type V = ContainerTags;

    open spec fn view(&self) -> ContainerTags {
        ContainerTags {
            title: opt_text(self.title),
            comment: opt_text(self.comment),
            date: opt_text(self.date),
            genre: opt_text(self.genre),
            artist: opt_text(self.artist),
        }
    }
}

impl Clone for ContainerMetadata {
    fn clone(&self) -> (result: ContainerMetadata)
        ensures
            result@ == self@,
    {
        ContainerMetadata {
            title: copied(&self.title),
            comment: copied(&self.comment),
            date: copied(&self.date),
            genre: copied(&self.genre),
            artist: copied(&self.artist),
        }
    }
}

/// Metadata that says nothing.
pub open spec fn no_tags() -> ContainerTags {
    ContainerTags { title: None, comment: None, date: None, genre: None, artist: None }
}

impl Default for ContainerMetadata {
    fn default() -> (result: ContainerMetadata)
        ensures
            result@ == no_tags(),
    {
        ContainerMetadata { title: None, comment: None, date: None, genre: None, artist: None }
    }
}

impl ContainerMetadata {
    /// Whether nothing is said.
    pub fn is_empty(&self) -> (result: bool)
        ensures
            result == (self@ == no_tags()),
    {
        self.title.is_none() && self.comment.is_none() && self.date.is_none()
            && self.genre.is_none() && self.artist.is_none()
    }
}

// Laws.

/// The extension of a container stands for that container, in upper and in lower case.
pub proof fn extensions_read_back(container: ContainerFormat, extension: Seq<char>)
    requires
        ascii_lower(extension) == container.extension_text(),
    ensures
        ContainerFormat::of_extension(extension) == Some(container),
{
    reveal_strlit("mkv");
    reveal_strlit("mka");
    reveal_strlit("mks");
    reveal_strlit("mp4");
    reveal_strlit("m4v");
    reveal_strlit("mov");
    reveal_strlit("webm");
    assert("mkv"@[1] == 'k' && "mp4"@[1] == 'p' && "mov"@[1] == 'o');
    assert("mka"@[2] == 'a' && "mks"@[2] == 's' && "m4v"@[1] == '4' && "mka"@[1] == 'k' && "mks"@[1]
        == 'k');
    assert("webm"@.len() == 4 && "mkv"@.len() == 3 && "mka"@.len() == 3 && "mks"@.len() == 3);
    assert("mp4"@.len() == 3 && "m4v"@.len() == 3 && "mov"@.len() == 3);
}

/// A detected container is never of a family that the probe contradicts: where the probe
/// names a family at all, the result is of one it names.
pub proof fn detection_follows_the_probe(path: PathModel, format_name: Seq<char>)
    requires
        ContainerFormat::Matroska.in_family(format_name) || ContainerFormat::Mp4.in_family(
            format_name,
        ),
    ensures
        ContainerFormat::detected(path, Some(format_name)) is Some,
        ContainerFormat::detected(path, Some(format_name))->0.in_family(format_name),
{
}

/// Within the family that the probe names, the extension decides; where the probe says
/// nothing that is known, it decides alone.
pub proof fn detection_keeps_an_honest_extension(path: PathModel, format_name: Option<Seq<char>>)
    ensures
        ContainerFormat::detected(path, None) == ContainerFormat::named_by(path),
        ContainerFormat::named_by(path) is Some && format_name is Some
            && ContainerFormat::named_by(path)->0.in_family(format_name->0)
            ==> ContainerFormat::detected(path, format_name) == ContainerFormat::named_by(path),
        format_name is Some && !ContainerFormat::Matroska.in_family(format_name->0)
            && !ContainerFormat::Mp4.in_family(format_name->0) ==> ContainerFormat::detected(
            path,
            format_name,
        ) == ContainerFormat::named_by(path),
{
}

/// What is kept is stored, and keeping it again changes nothing.
pub proof fn kept_metadata_is_stored(
    container: ContainerFormat,
    subtitle: SubtitleTags,
    flag: SubtitleFlag,
    audio: AudioTags,
    role: AudioRole,
    video: VideoTags,
)
    ensures
        container.kept_subtitle(subtitle).flag(flag) == (subtitle.flag(flag)
            && container.stores_flag(flag)),
        container.kept_subtitle(container.kept_subtitle(subtitle)) == container.kept_subtitle(
            subtitle,
        ),
        container.kept_audio(audio).role(role) == (audio.role(role) && container.stores_role(role)),
        container.kept_audio(container.kept_audio(audio)) == container.kept_audio(audio),
        container.kept_video(container.kept_video(video)) == container.kept_video(video),
{
}

/// Matroska keeps the audio and video metadata of a track as it is.
pub proof fn matroska_keeps_everything(audio: AudioTags, video: VideoTags)
    ensures
        ContainerFormat::Matroska.kept_audio(audio) == audio,
        ContainerFormat::Matroska.kept_video(video) == video,
{
}

/// The kinds of streams are told apart.
proof fn lemma_kinds_differ()
    ensures
        "video"@ != "audio"@,
        "video"@ != "subtitle"@,
        "video"@ != "attachment"@,
        "video"@ != "data"@,
        "audio"@ != "subtitle"@,
        "audio"@ != "attachment"@,
        "audio"@ != "data"@,
        "subtitle"@ != "attachment"@,
        "subtitle"@ != "data"@,
        "attachment"@ != "data"@,
{
    reveal_strlit("video");
    reveal_strlit("audio");
    reveal_strlit("subtitle");
    reveal_strlit("attachment");
    reveal_strlit("data");
    assert("video"@[0] == 'v' && "audio"@[0] == 'a');
    assert("video"@.len() == 5 && "audio"@.len() == 5 && "subtitle"@.len() == 8);
    assert("attachment"@.len() == 10 && "data"@.len() == 4);
}

/// The subtitles that each container stores. Every format that the program names goes into
/// Matroska, but for MOV Text, which is the one that MP4 and MOV store.
pub proof fn subtitles_go_where_they_are_stored(codec: Seq<char>, format: SubtitleFormat)
    ensures
        ContainerFormat::Matroska.stores("subtitle"@, codec, false) <==> seq![
            "subrip"@,
            "ass"@,
            "ssa"@,
            "webvtt"@,
            "hdmv_pgs_subtitle"@,
            "dvd_subtitle"@,
        ].contains(codec),
        ContainerFormat::Mp4.stores("subtitle"@, codec, false) <==> codec == "mov_text"@,
        ContainerFormat::Mov.stores("subtitle"@, codec, false) <==> codec == "mov_text"@,
        ContainerFormat::WebM.stores("subtitle"@, codec, false) <==> codec == "webvtt"@,
        ContainerFormat::Matroska.stores("subtitle"@, format.codec_text(), false) == (format
            != SubtitleFormat::MovText),
        ContainerFormat::Mp4.stores("subtitle"@, format.codec_text(), false) == (format
            == SubtitleFormat::MovText),
        ContainerFormat::Mov.stores("subtitle"@, format.codec_text(), false) == (format
            == SubtitleFormat::MovText),
        !ContainerFormat::WebM.stores("subtitle"@, format.codec_text(), false),
{
    lemma_kinds_differ();
    let list = seq![
        "subrip"@,
        "ass"@,
        "ssa"@,
        "webvtt"@,
        "hdmv_pgs_subtitle"@,
        "dvd_subtitle"@,
    ];
    assert(list[0] == "subrip"@ && list[1] == "ass"@ && list[2] == "ssa"@);
    assert(list[3] == "webvtt"@ && list[4] == "hdmv_pgs_subtitle"@ && list[5] == "dvd_subtitle"@);
    reveal_strlit("subrip");
    reveal_strlit("ass");
    reveal_strlit("ssa");
    reveal_strlit("webvtt");
    reveal_strlit("hdmv_pgs_subtitle");
    reveal_strlit("dvd_subtitle");
    reveal_strlit("mov_text");
    assert("subrip"@.len() == 6 && "ass"@.len() == 3 && "ssa"@.len() == 3);
    assert("webvtt"@.len() == 6 && "hdmv_pgs_subtitle"@.len() == 17);
    assert("dvd_subtitle"@.len() == 12 && "mov_text"@.len() == 8);
    assert("subrip"@[0] == 's' && "webvtt"@[0] == 'w');
}

/// The video and audio codecs that each container stores.
pub proof fn pictures_and_sound_go_where_they_are_stored(codec: Seq<char>)
    ensures
        ContainerFormat::Matroska.stores("video"@, codec, false),
        ContainerFormat::Matroska.stores("audio"@, codec, false),
        ContainerFormat::Mp4.stores("video"@, codec, false) <==> seq![
            "h264"@,
            "hevc"@,
            "av1"@,
            "mpeg4"@,
            "mjpeg"@,
        ].contains(codec),
        ContainerFormat::Mov.stores("video"@, codec, false) <==> seq![
            "h264"@,
            "hevc"@,
            "av1"@,
            "mpeg4"@,
            "mjpeg"@,
            "prores"@,
        ].contains(codec),
        ContainerFormat::WebM.stores("video"@, codec, false) <==> seq![
            "vp8"@,
            "vp9"@,
            "av1"@,
        ].contains(codec),
        ContainerFormat::Mp4.stores("audio"@, codec, false) <==> seq![
            "aac"@,
            "alac"@,
            "ac3"@,
            "eac3"@,
            "mp3"@,
            "opus"@,
        ].contains(codec),
        ContainerFormat::Mov.stores("audio"@, codec, false) <==> (seq![
            "aac"@,
            "alac"@,
            "ac3"@,
            "eac3"@,
            "mp3"@,
            "opus"@,
        ].contains(codec) || (codec.len() >= 4 && codec.take(4) == seq!['p', 'c', 'm', '_'])),
        ContainerFormat::WebM.stores("audio"@, codec, false) <==> seq![
            "opus"@,
            "vorbis"@,
        ].contains(codec),
{
    lemma_kinds_differ();
    let video = seq!["h264"@, "hevc"@, "av1"@, "mpeg4"@, "mjpeg"@];
    assert(video[0] == "h264"@ && video[1] == "hevc"@ && video[2] == "av1"@);
    assert(video[3] == "mpeg4"@ && video[4] == "mjpeg"@);
    let more = seq!["h264"@, "hevc"@, "av1"@, "mpeg4"@, "mjpeg"@, "prores"@];
    assert(more[0] == "h264"@ && more[1] == "hevc"@ && more[2] == "av1"@);
    assert(more[3] == "mpeg4"@ && more[4] == "mjpeg"@ && more[5] == "prores"@);
    let web = seq!["vp8"@, "vp9"@, "av1"@];
    assert(web[0] == "vp8"@ && web[1] == "vp9"@ && web[2] == "av1"@);
    let audio = seq!["aac"@, "alac"@, "ac3"@, "eac3"@, "mp3"@, "opus"@];
    assert(audio[0] == "aac"@ && audio[1] == "alac"@ && audio[2] == "ac3"@);
    assert(audio[3] == "eac3"@ && audio[4] == "mp3"@ && audio[5] == "opus"@);
    let sound = seq!["opus"@, "vorbis"@];
    assert(sound[0] == "opus"@ && sound[1] == "vorbis"@);
    reveal_strlit("pcm_");
    assert("pcm_"@ =~= seq!['p', 'c', 'm', '_']);
    if codec.len() >= 4 {
        assert(codec.take(4) =~= codec.subrange(0, 4));
    }
}

/// What else a container stores: cover pictures, attachments and data. Nothing is stored of
/// a kind that is not known.
pub proof fn other_streams_go_where_they_are_stored(
    container: ContainerFormat,
    kind: Seq<char>,
    codec: Seq<char>,
)
    ensures
        container.stores(kind, codec, true) <==> (container == ContainerFormat::Matroska || (
        container != ContainerFormat::WebM && (codec == "mjpeg"@ || codec == "png"@))),
        container.stores("attachment"@, codec, false) <==> container == ContainerFormat::Matroska,
        container.stores("data"@, codec, false) <==> (codec == "bin_data"@ && (container
            == ContainerFormat::Mp4 || container == ContainerFormat::Mov)),
        container.stores(kind, codec, false) ==> seq![
            "video"@,
            "audio"@,
            "subtitle"@,
            "attachment"@,
            "data"@,
        ].contains(kind),
{
    lemma_kinds_differ();
    let list = seq!["video"@, "audio"@, "subtitle"@, "attachment"@, "data"@];
    assert(list[0] == "video"@ && list[1] == "audio"@ && list[2] == "subtitle"@);
    assert(list[3] == "attachment"@ && list[4] == "data"@);
}

/// Which flags of a subtitle and which roles of a soundtrack survive in a container, and
/// where a language does.
pub proof fn flags_survive_where_they_are_stored(container: ContainerFormat)
    ensures
        container.stores_flag(SubtitleFlag::Forced) <==> container != ContainerFormat::Mov,
        container.stores_flag(SubtitleFlag::Cc) <==> (container == ContainerFormat::Mp4 || container
            == ContainerFormat::WebM),
        container.stores_flag(SubtitleFlag::HearingImpaired) <==> (container
            == ContainerFormat::Matroska || container == ContainerFormat::Mp4),
        container.stores_flag(SubtitleFlag::Original) <==> container == ContainerFormat::Matroska,
        container.stores_flag(SubtitleFlag::Commentary) <==> (container == ContainerFormat::Matroska
            || container == ContainerFormat::Mp4),
        container.stores_role(AudioRole::Commentary) <==> (container == ContainerFormat::Matroska
            || container == ContainerFormat::Mp4),
        container.stores_role(AudioRole::HearingImpaired) <==> (container
            == ContainerFormat::Matroska || container == ContainerFormat::Mp4),
        container.stores_role(AudioRole::AudioDescription) <==> (container
            == ContainerFormat::Matroska || container == ContainerFormat::Mp4),
        container.stores_role(AudioRole::Dubbed) <==> (container == ContainerFormat::Matroska
            || container == ContainerFormat::Mp4),
        container.stores_role(AudioRole::Original) <==> container == ContainerFormat::Matroska,
        container.stores_language() <==> container != ContainerFormat::Mov,
{
}

/// What a container leaves of metadata: the title always, the language everywhere but in
/// MOV, and each flag where it is stored.
pub proof fn metadata_survives_where_it_is_stored(
    container: ContainerFormat,
    subtitle: SubtitleTags,
    audio: AudioTags,
    video: VideoTags,
)
    ensures
        container.kept_subtitle(subtitle).language == subtitle.language,
        container.kept_subtitle(subtitle).title == subtitle.title,
        container.kept_audio(audio).title == audio.title,
        container.kept_video(video).title == video.title,
        container != ContainerFormat::Mov ==> container.kept_audio(audio).language
            == audio.language,
        container != ContainerFormat::Mov ==> container.kept_video(video).language
            == video.language,
        ContainerFormat::Mov.kept_audio(audio).language == "und"@,
        ContainerFormat::Mov.kept_video(video).language == "und"@,
        container == ContainerFormat::Matroska || container == ContainerFormat::Mp4
            ==> container.kept_video(video) == video,
        container == ContainerFormat::Mov || container == ContainerFormat::WebM
            ==> !container.kept_video(video).commentary,
        ContainerFormat::Mp4.kept_audio(audio) == (AudioTags { original: false, ..audio }),
        ContainerFormat::Matroska.kept_subtitle(subtitle) == (SubtitleTags {
            cc: false,
            ..subtitle
        }),
        ContainerFormat::Mp4.kept_subtitle(subtitle) == (SubtitleTags {
            original: false,
            ..subtitle
        }),
{
}

/// The words of each container, and the container that each extension names.
pub proof fn containers_have_their_names(extension: Seq<char>)
    ensures
        ContainerFormat::Matroska.extension_text() == seq!['m', 'k', 'v'],
        ContainerFormat::Mp4.extension_text() == seq!['m', 'p', '4'],
        ContainerFormat::Mov.extension_text() == seq!['m', 'o', 'v'],
        ContainerFormat::WebM.extension_text() == seq!['w', 'e', 'b', 'm'],
        ContainerFormat::Matroska.muxer_text() == seq!['m', 'a', 't', 'r', 'o', 's', 'k', 'a'],
        ContainerFormat::Mp4.muxer_text() == ContainerFormat::Mp4.extension_text(),
        ContainerFormat::Mov.muxer_text() == ContainerFormat::Mov.extension_text(),
        ContainerFormat::WebM.muxer_text() == ContainerFormat::WebM.extension_text(),
        ContainerFormat::Matroska.label_text() == seq!['M', 'K', 'V'],
        ContainerFormat::Mp4.label_text() == seq!['M', 'P', '4'],
        ContainerFormat::Mov.label_text() == seq!['M', 'O', 'V'],
        ContainerFormat::WebM.label_text() == seq!['W', 'e', 'b', 'M'],
        ContainerFormat::of_extension(extension) == Some(ContainerFormat::Matroska) <==> (
        ascii_lower(extension) == seq!['m', 'k', 'v'] || ascii_lower(extension) == seq![
            'm',
            'k',
            'a',
        ] || ascii_lower(extension) == seq!['m', 'k', 's']),
        ContainerFormat::of_extension(extension) == Some(ContainerFormat::Mp4) <==> (ascii_lower(
            extension,
        ) == seq!['m', 'p', '4'] || ascii_lower(extension) == seq!['m', '4', 'v']),
        ContainerFormat::of_extension(extension) == Some(ContainerFormat::Mov) <==> ascii_lower(
            extension,
        ) == seq!['m', 'o', 'v'],
        ContainerFormat::of_extension(extension) == Some(ContainerFormat::WebM) <==> ascii_lower(
            extension,
        ) == seq!['w', 'e', 'b', 'm'],
{
    reveal_strlit("mkv");
    reveal_strlit("mka");
    reveal_strlit("mks");
    reveal_strlit("mp4");
    reveal_strlit("m4v");
    reveal_strlit("mov");
    reveal_strlit("webm");
    reveal_strlit("matroska");
    reveal_strlit("MKV");
    reveal_strlit("MP4");
    reveal_strlit("MOV");
    reveal_strlit("WebM");
    assert("mkv"@ =~= seq!['m', 'k', 'v'] && "mka"@ =~= seq!['m', 'k', 'a']);
    assert("mks"@ =~= seq!['m', 'k', 's'] && "mp4"@ =~= seq!['m', 'p', '4']);
    assert("m4v"@ =~= seq!['m', '4', 'v'] && "mov"@ =~= seq!['m', 'o', 'v']);
    assert("webm"@ =~= seq!['w', 'e', 'b', 'm']);
    let lower = ascii_lower(extension);
    if lower == "mkv"@ || lower == "mka"@ || lower == "mks"@ {
        assert(lower[1] == 'k');
    } else if lower == "mp4"@ {
        assert(lower[1] == 'p');
    } else if lower == "m4v"@ {
        assert(lower[1] == '4');
    } else if lower == "mov"@ {
        assert(lower[1] == 'o');
    } else if lower == "webm"@ {
        assert(lower.len() == 4);
    }
}

/// A probe names the family of a container where one of the names that it lists is one of
/// that family.
pub proof fn families_have_their_names(container: ContainerFormat, format_name: Seq<char>)
    ensures
        container.in_family(format_name) <==> exists|i: int|
            0 <= i < pieces(format_name, ',').len() && family_names(container).contains(
                #[trigger] pieces(format_name, ',')[i],
            ),
{
    let list = pieces(format_name, ',');
    let names = family_names(container);
    if container == ContainerFormat::Mp4 || container == ContainerFormat::Mov {
        assert(names[0] == "mov"@ && names[1] == "mp4"@ && names[2] == "m4a"@);
        assert(names[3] == "3gp"@ && names[4] == "3g2"@ && names[5] == "mj2"@);
    } else {
        assert(names[0] == "matroska"@ && names[1] == "webm"@);
    }
    if container.in_family(format_name) {
        let k = choose|k: int|
            0 <= k < names.len() && list.contains(#[trigger] names[k]);
        let i = choose|i: int| 0 <= i < list.len() && list[i] == names[k];
        assert(names.contains(list[i]));
    }
    if exists|i: int| 0 <= i < list.len() && names.contains(#[trigger] list[i]) {
        let i = choose|i: int| 0 <= i < list.len() && names.contains(#[trigger] list[i]);
        let k = choose|k: int| 0 <= k < names.len() && names[k] == list[i];
        assert(list.contains(names[k]));
    }
}

/// What the probe calls the family of a container.
pub open spec fn family_names(container: ContainerFormat) -> Seq<Seq<char>> {
    match container {
        ContainerFormat::Mp4 | ContainerFormat::Mov => seq![
            "mov"@,
            "mp4"@,
            "m4a"@,
            "3gp"@,
            "3g2"@,
            "mj2"@,
        ],
        ContainerFormat::Matroska | ContainerFormat::WebM => seq!["matroska"@, "webm"@],
    }
}

} // verus!
