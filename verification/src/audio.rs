//! Audio codecs, channel layouts and the metadata of an audio track.

use vstd::prelude::*;

use crate::text::{copied, opt_str, opt_text, same_text};

verus! {

/// An audio codec that a track can be encoded to, or `Original` to keep its own.
#[derive(Clone, Copy, Debug, Eq, Ord, PartialEq, PartialOrd, Structural)]
pub enum AudioCodec {
    Original,
    Aac,
    Ac3,
    Eac3,
    Opus,
    Flac,
    Alac,
    Mp3,
    Vorbis,
}

impl AudioCodec {
    pub const TARGETS: [AudioCodec; 8] = [
        AudioCodec::Aac,
        AudioCodec::Ac3,
        AudioCodec::Eac3,
        AudioCodec::Opus,
        AudioCodec::Flac,
        AudioCodec::Alac,
        AudioCodec::Mp3,
        AudioCodec::Vorbis,
    ];

    /// The name a reader sees.
    pub open spec fn label_text(self) -> Seq<char> {
        match self {
            AudioCodec::Original => "Original"@,
            AudioCodec::Aac => "AAC"@,
            AudioCodec::Ac3 => "Dolby Digital (AC-3)"@,
            AudioCodec::Eac3 => "Dolby Digital Plus (E-AC-3)"@,
            AudioCodec::Opus => "Opus"@,
            AudioCodec::Flac => "FLAC"@,
            AudioCodec::Alac => "ALAC"@,
            AudioCodec::Mp3 => "MP3"@,
            AudioCodec::Vorbis => "Vorbis"@,
        }
    }

    pub fn label(self) -> (result: &'static str)
        ensures
            result@ == self.label_text(),
    {
        match self {
            AudioCodec::Original => "Original",
            AudioCodec::Aac => "AAC",
            AudioCodec::Ac3 => "Dolby Digital (AC-3)",
            AudioCodec::Eac3 => "Dolby Digital Plus (E-AC-3)",
            AudioCodec::Opus => "Opus",
            AudioCodec::Flac => "FLAC",
            AudioCodec::Alac => "ALAC",
            AudioCodec::Mp3 => "MP3",
            AudioCodec::Vorbis => "Vorbis",
        }
    }

    /// The name a probe reports for the codec.
    pub open spec fn name_text(self) -> Option<Seq<char>> {
        match self {
            AudioCodec::Original => None,
            AudioCodec::Aac => Some("aac"@),
            AudioCodec::Ac3 => Some("ac3"@),
            AudioCodec::Eac3 => Some("eac3"@),
            AudioCodec::Opus => Some("opus"@),
            AudioCodec::Flac => Some("flac"@),
            AudioCodec::Alac => Some("alac"@),
            AudioCodec::Mp3 => Some("mp3"@),
            AudioCodec::Vorbis => Some("vorbis"@),
        }
    }

    pub fn codec_name(self) -> (result: Option<&'static str>)
        ensures
            opt_str(result) == self.name_text(),
    {
        match self {
            AudioCodec::Original => None,
            AudioCodec::Aac => Some("aac"),
            AudioCodec::Ac3 => Some("ac3"),
            AudioCodec::Eac3 => Some("eac3"),
            AudioCodec::Opus => Some("opus"),
            AudioCodec::Flac => Some("flac"),
            AudioCodec::Alac => Some("alac"),
            AudioCodec::Mp3 => Some("mp3"),
            AudioCodec::Vorbis => Some("vorbis"),
        }
    }

    /// The name of the encoder that writes the codec.
    pub open spec fn encoder_text(self) -> Option<Seq<char>> {
        match self {
            AudioCodec::Opus => Some("libopus"@),
            AudioCodec::Mp3 => Some("libmp3lame"@),
            AudioCodec::Vorbis => Some("libvorbis"@),
            _ => self.name_text(),
        }
    }

    pub fn encoder(self) -> (result: Option<&'static str>)
        ensures
            opt_str(result) == self.encoder_text(),
    {
        match self {
            AudioCodec::Opus => Some("libopus"),
            AudioCodec::Mp3 => Some("libmp3lame"),
            AudioCodec::Vorbis => Some("libvorbis"),
            _ => self.codec_name(),
        }
    }

    pub open spec fn lossless(self) -> bool {
        self == AudioCodec::Flac || self == AudioCodec::Alac
    }

    pub fn is_lossless(self) -> (result: bool)
        ensures
            result == self.lossless(),
    {
        matches!(self, AudioCodec::Flac | AudioCodec::Alac)
    }

    /// The codec that a probe reports under `name`.
    pub open spec fn of_name(name: Seq<char>) -> Option<AudioCodec> {
        if name == "aac"@ {
            Some(AudioCodec::Aac)
        } else if name == "ac3"@ {
            Some(AudioCodec::Ac3)
        } else if name == "eac3"@ {
            Some(AudioCodec::Eac3)
        } else if name == "opus"@ {
            Some(AudioCodec::Opus)
        } else if name == "flac"@ {
            Some(AudioCodec::Flac)
        } else if name == "alac"@ {
            Some(AudioCodec::Alac)
        } else if name == "mp3"@ {
            Some(AudioCodec::Mp3)
        } else if name == "vorbis"@ {
            Some(AudioCodec::Vorbis)
        } else {
            None
        }
    }

    pub fn from_codec_name(codec: &str) -> (result: Option<AudioCodec>)
        ensures
            result == AudioCodec::of_name(codec@),
    {
        if same_text(codec, "aac") {
            Some(AudioCodec::Aac)
        } else if same_text(codec, "ac3") {
            Some(AudioCodec::Ac3)
        } else if same_text(codec, "eac3") {
            Some(AudioCodec::Eac3)
        } else if same_text(codec, "opus") {
            Some(AudioCodec::Opus)
        } else if same_text(codec, "flac") {
            Some(AudioCodec::Flac)
        } else if same_text(codec, "alac") {
            Some(AudioCodec::Alac)
        } else if same_text(codec, "mp3") {
            Some(AudioCodec::Mp3)
        } else if same_text(codec, "vorbis") {
            Some(AudioCodec::Vorbis)
        } else {
            None
        }
    }

    /// The most channels an encode to this codec can carry; `Original` has no bound of
    /// its own.
    pub open spec fn channel_limit(self) -> nat {
        match self {
            AudioCodec::Original => u8::MAX as nat,
            AudioCodec::Ac3 | AudioCodec::Eac3 => 6,
            AudioCodec::Mp3 => 2,
            _ => 8,
        }
    }

    pub fn supports_channels(self, channels: u8) -> (result: bool)
        ensures
            result == (channels <= self.channel_limit()),
    {
        match self {
            AudioCodec::Original => true,
            AudioCodec::Ac3 | AudioCodec::Eac3 => channels <= 6,
            AudioCodec::Mp3 => channels <= 2,
            AudioCodec::Aac | AudioCodec::Opus | AudioCodec::Flac | AudioCodec::Alac
            | AudioCodec::Vorbis => channels <= 8,
        }
    }

    /// Whether the codec can be written at a sample rate.
    pub open spec fn accepts_rate(self, rate: u32) -> bool {
        match self {
            AudioCodec::Opus => {
                rate == 8_000 || rate == 12_000 || rate == 16_000 || rate == 24_000
                    || rate == 48_000
            },
            AudioCodec::Ac3 | AudioCodec::Eac3 => {
                rate == 32_000 || rate == 44_100 || rate == 48_000
            },
            AudioCodec::Mp3 => {
                rate == 8_000 || rate == 11_025 || rate == 12_000 || rate == 16_000
                    || rate == 22_050 || rate == 24_000 || rate == 32_000 || rate == 44_100
                    || rate == 48_000
            },
            _ => {
                ||| rate == 7_350
                ||| rate == 8_000 || rate == 11_025 || rate == 12_000 || rate == 16_000
                ||| rate == 22_050 || rate == 24_000 || rate == 32_000 || rate == 44_100
                ||| rate == 48_000 || rate == 64_000 || rate == 88_200 || rate == 96_000
                ||| self != AudioCodec::Aac && (rate == 176_400 || rate == 192_000)
            },
        }
    }

    pub fn supports_sample_rate(self, rate: u32) -> (result: bool)
        ensures
            result == self.accepts_rate(rate),
    {
        match self {
            AudioCodec::Original | AudioCodec::Flac | AudioCodec::Alac
            | AudioCodec::Vorbis => matches!(
                rate,
                7_350 | 8_000 | 11_025 | 12_000 | 16_000 | 22_050 | 24_000 | 32_000 | 44_100
                    | 48_000 | 64_000 | 88_200 | 96_000 | 176_400 | 192_000
            ),
            AudioCodec::Aac => matches!(
                rate,
                7_350 | 8_000 | 11_025 | 12_000 | 16_000 | 22_050 | 24_000 | 32_000 | 44_100
                    | 48_000 | 64_000 | 88_200 | 96_000
            ),
            AudioCodec::Ac3 | AudioCodec::Eac3 => matches!(rate, 32_000 | 44_100 | 48_000),
            AudioCodec::Opus => matches!(rate, 8_000 | 12_000 | 16_000 | 24_000 | 48_000),
            AudioCodec::Mp3 => matches!(
                rate,
                8_000 | 11_025 | 12_000 | 16_000 | 22_050 | 24_000 | 32_000 | 44_100 | 48_000
            ),
        }
    }
}

/// Sample rates an encoder may be asked for, highest first.
pub const AUDIO_SAMPLE_RATE_CANDIDATES: [u32; 15] = [
    192_000,
    176_400,
    96_000,
    88_200,
    64_000,
    48_000,
    44_100,
    32_000,
    24_000,
    22_050,
    16_000,
    12_000,
    11_025,
    8_000,
    7_350,
];

/// Whether `rate` is the best a codec can do for a source: a rate it accepts, not above
/// the source's, with none accepted in between.
pub open spec fn best_rate(codec: AudioCodec, source_rate: u32, rate: u32) -> bool {
    &&& codec.accepts_rate(rate)
    &&& rate <= source_rate
    &&& forall|other: u32| #[trigger]
        codec.accepts_rate(other) && other <= source_rate ==> other <= rate
}

/// The rate the encoder is asked for: the source rate where the codec accepts it,
/// otherwise the highest one below it that the codec accepts. `None` where there is no
/// such rate.
pub open spec fn resolved_rate(codec: AudioCodec, source_rate: u32) -> Option<u32> {
    if exists|rate: u32| best_rate(codec, source_rate, rate) {
        Some(choose|rate: u32| best_rate(codec, source_rate, rate))
    } else {
        None
    }
}

pub fn resolved_audio_sample_rate(codec: AudioCodec, source_rate: u32) -> (result: Option<u32>)
    ensures
        result == resolved_rate(codec, source_rate),
        match result {
            Some(rate) => best_rate(codec, source_rate, rate),
            None => forall|rate: u32| #[trigger]
                codec.accepts_rate(rate) ==> rate > source_rate,
        },
{
    if codec.supports_sample_rate(source_rate) {
        assert(best_rate(codec, source_rate, source_rate));
        return Some(source_rate);
    }
    let candidates: [u32; 15] = AUDIO_SAMPLE_RATE_CANDIDATES;
    let mut i: usize = 0;
    while i < 15
        invariant
            0 <= i <= 15,
            candidates@ == AUDIO_SAMPLE_RATE_CANDIDATES@,
            forall|k: int|
                0 <= k < i ==> #[trigger] candidates@[k] > source_rate || !codec.accepts_rate(
                    candidates@[k],
                ),
        decreases 15 - i,
    {
        let rate: u32 = candidates[i];
        if rate <= source_rate && codec.supports_sample_rate(rate) {
            assert(best_rate(codec, source_rate, rate)) by {
                assert forall|other: u32| #[trigger]
                    codec.accepts_rate(other) && other <= source_rate implies other <= rate by {
                    lemma_candidates_cover(codec, other);
                    let k = choose|k: int|
                        0 <= k < 15 && AUDIO_SAMPLE_RATE_CANDIDATES@[k] == other;
                    assert(k >= i) by {
                        assert(candidates@[k] == other);
                    }
                }
            }
            return Some(rate);
        }
        i = i + 1;
    }
    proof {
        assert forall|rate: u32| #[trigger] codec.accepts_rate(rate) implies rate > source_rate by {
            lemma_candidates_cover(codec, rate);
            let k = choose|k: int| 0 <= k < 15 && AUDIO_SAMPLE_RATE_CANDIDATES@[k] == rate;
            assert(candidates@[k] == rate);
        }
    }
    None
}

proof fn lemma_candidates_cover(codec: AudioCodec, rate: u32)
    requires
        codec.accepts_rate(rate),
    ensures
        exists|k: int| 0 <= k < 15 && AUDIO_SAMPLE_RATE_CANDIDATES@[k] == rate,
{
    let list = AUDIO_SAMPLE_RATE_CANDIDATES@;
    assert(list[0] == 192_000 && list[1] == 176_400 && list[2] == 96_000 && list[3] == 88_200
        && list[4] == 64_000 && list[5] == 48_000 && list[6] == 44_100 && list[7] == 32_000
        && list[8] == 24_000 && list[9] == 22_050 && list[10] == 16_000 && list[11] == 12_000
        && list[12] == 11_025 && list[13] == 8_000 && list[14] == 7_350);
}

/// The bitrate of a lossy encode, in kilobits a second; `None` where the pair is no
/// lossy encode on offer.
pub open spec fn bitrate(codec: AudioCodec, channels: u8) -> Option<u32> {
    match codec {
        AudioCodec::Aac => by_channels(channels, 96, 192, 512, Some(640)),
        AudioCodec::Ac3 => by_channels(channels, 128, 256, 448, None),
        AudioCodec::Eac3 => by_channels(channels, 128, 192, 640, None),
        AudioCodec::Opus => by_channels(channels, 64, 128, 384, Some(512)),
        AudioCodec::Mp3 => if channels <= 2 {
            by_channels(channels, 96, 192, 0, None)
        } else {
            None
        },
        AudioCodec::Vorbis => by_channels(channels, 80, 160, 384, Some(512)),
        _ => None,
    }
}

/// A rate for mono, stereo, up to six and up to eight channels.
pub open spec fn by_channels(
    channels: u8,
    mono: u32,
    stereo: u32,
    six: u32,
    eight: Option<u32>,
) -> Option<u32> {
    if channels == 1 {
        Some(mono)
    } else if channels == 2 {
        Some(stereo)
    } else if 3 <= channels <= 6 {
        Some(six)
    } else if 7 <= channels <= 8 {
        eight
    } else {
        None
    }
}

pub fn audio_bitrate_kbps(codec: AudioCodec, channels: u8) -> (result: Option<u32>)
    ensures
        result == bitrate(codec, channels),
{
    match (codec, channels) {
        (AudioCodec::Aac, 1) => Some(96),
        (AudioCodec::Aac, 2) => Some(192),
        (AudioCodec::Aac, 3..=6) => Some(512),
        (AudioCodec::Aac, 7..=8) => Some(640),
        (AudioCodec::Ac3, 1) => Some(128),
        (AudioCodec::Eac3, 1) => Some(128),
        (AudioCodec::Ac3, 2) => Some(256),
        (AudioCodec::Ac3, 3..=6) => Some(448),
        (AudioCodec::Eac3, 2) => Some(192),
        (AudioCodec::Eac3, 3..=6) => Some(640),
        (AudioCodec::Opus, 1) => Some(64),
        (AudioCodec::Opus, 2) => Some(128),
        (AudioCodec::Opus, 3..=6) => Some(384),
        (AudioCodec::Opus, 7..=8) => Some(512),
        (AudioCodec::Mp3, 1) => Some(96),
        (AudioCodec::Mp3, 2) => Some(192),
        (AudioCodec::Vorbis, 1) => Some(80),
        (AudioCodec::Vorbis, 2) => Some(160),
        (AudioCodec::Vorbis, 3..=6) => Some(384),
        (AudioCodec::Vorbis, 7..=8) => Some(512),
        _ => None,
    }
}

#[derive(Clone, Copy, Debug, Eq, PartialEq, Structural)]
pub enum AudioChannelLayout {
    Original,
    Surround71,
    Surround51,
    Stereo,
    Mono,
}

impl AudioChannelLayout {
    pub const TARGETS: [AudioChannelLayout; 4] = [
        AudioChannelLayout::Surround71,
        AudioChannelLayout::Surround51,
        AudioChannelLayout::Stereo,
        AudioChannelLayout::Mono,
    ];

    pub open spec fn label_text(self) -> Seq<char> {
        match self {
            AudioChannelLayout::Original => "Original"@,
            AudioChannelLayout::Surround71 => "7.1 surround"@,
            AudioChannelLayout::Surround51 => "5.1 surround"@,
            AudioChannelLayout::Stereo => "Stereo"@,
            AudioChannelLayout::Mono => "Mono"@,
        }
    }

    pub fn label(self) -> (result: &'static str)
        ensures
            result@ == self.label_text(),
    {
        match self {
            AudioChannelLayout::Original => "Original",
            AudioChannelLayout::Surround71 => "7.1 surround",
            AudioChannelLayout::Surround51 => "5.1 surround",
            AudioChannelLayout::Stereo => "Stereo",
            AudioChannelLayout::Mono => "Mono",
        }
    }

    /// How many channels the layout has; `Original` leaves that to the source.
    pub open spec fn channel_count(self) -> Option<u8> {
        match self {
            AudioChannelLayout::Original => None,
            AudioChannelLayout::Surround71 => Some(8),
            AudioChannelLayout::Surround51 => Some(6),
            AudioChannelLayout::Stereo => Some(2),
            AudioChannelLayout::Mono => Some(1),
        }
    }

    pub fn channels(self) -> (result: Option<u8>)
        ensures
            result == self.channel_count(),
    {
        match self {
            AudioChannelLayout::Original => None,
            AudioChannelLayout::Surround71 => Some(8),
            AudioChannelLayout::Surround51 => Some(6),
            AudioChannelLayout::Stereo => Some(2),
            AudioChannelLayout::Mono => Some(1),
        }
    }
}

/// A role that an audio track can be flagged with.
#[derive(Clone, Copy, Debug, Eq, PartialEq, Structural)]
pub enum AudioRole {
    Commentary,
    HearingImpaired,
    AudioDescription,
    Original,
    Dubbed,
}

impl AudioRole {
    pub const ALL: [AudioRole; 5] = [
        AudioRole::Commentary,
        AudioRole::HearingImpaired,
        AudioRole::AudioDescription,
        AudioRole::Original,
        AudioRole::Dubbed,
    ];

    pub open spec fn label_text(self) -> Seq<char> {
        match self {
            AudioRole::Commentary => "Commentary"@,
            AudioRole::HearingImpaired => "Hearing impaired"@,
            AudioRole::AudioDescription => "Audio description"@,
            AudioRole::Original => "Original"@,
            AudioRole::Dubbed => "Dubbed"@,
        }
    }

    pub fn label(self) -> (result: &'static str)
        ensures
            result@ == self.label_text(),
    {
        match self {
            AudioRole::Commentary => "Commentary",
            AudioRole::HearingImpaired => "Hearing impaired",
            AudioRole::AudioDescription => "Audio description",
            AudioRole::Original => "Original",
            AudioRole::Dubbed => "Dubbed",
        }
    }
}

#[derive(Debug, Eq, PartialEq)]
pub struct AudioMetadata {
    pub language: String,
    pub title: Option<String>,
    pub commentary: bool,
    pub hearing_impaired: bool,
    pub audio_description: bool,
    pub original: bool,
    pub dubbed: bool,
}

/// What an [`AudioMetadata`] says.
pub ghost struct AudioTags {
    pub language: Seq<char>,
    pub title: Option<Seq<char>>,
    pub commentary: bool,
    pub hearing_impaired: bool,
    pub audio_description: bool,
    pub original: bool,
    pub dubbed: bool,
}

impl AudioTags {
    pub open spec fn role(self, role: AudioRole) -> bool {
        match role {
            AudioRole::Commentary => self.commentary,
            AudioRole::HearingImpaired => self.hearing_impaired,
            AudioRole::AudioDescription => self.audio_description,
            AudioRole::Original => self.original,
            AudioRole::Dubbed => self.dubbed,
        }
    }

    /// The tags with one role set or cleared. A track is not both the original and a
    /// dub: setting one of the two clears the other.
    pub open spec fn with_role(self, role: AudioRole, value: bool) -> AudioTags {
        match role {
            AudioRole::Commentary => AudioTags { commentary: value, ..self },
            AudioRole::HearingImpaired => AudioTags { hearing_impaired: value, ..self },
            AudioRole::AudioDescription => AudioTags { audio_description: value, ..self },
            AudioRole::Original => AudioTags {
                original: value,
                dubbed: self.dubbed && !value,
                ..self
            },
            AudioRole::Dubbed => AudioTags {
                dubbed: value,
                original: self.original && !value,
                ..self
            },
        }
    }
}

impl View for AudioMetadata {
    type V = AudioTags;

    open spec fn view(&self) -> AudioTags {
        AudioTags {
            language: self.language@,
            title: opt_text(self.title),
            commentary: self.commentary,
            hearing_impaired: self.hearing_impaired,
            audio_description: self.audio_description,
            original: self.original,
            dubbed: self.dubbed,
        }
    }
}

impl Clone for AudioMetadata {
    fn clone(&self) -> (result: AudioMetadata)
        ensures
            result@ == self@,
    {
        AudioMetadata {
            language: self.language.as_str().to_owned(),
            title: copied(&self.title),
            commentary: self.commentary,
            hearing_impaired: self.hearing_impaired,
            audio_description: self.audio_description,
            original: self.original,
            dubbed: self.dubbed,
        }
    }
}

impl AudioMetadata {
    pub fn get_role(&self, role: AudioRole) -> (result: bool)
        ensures
            result == self@.role(role),
    {
        match role {
            AudioRole::Commentary => self.commentary,
            AudioRole::HearingImpaired => self.hearing_impaired,
            AudioRole::AudioDescription => self.audio_description,
            AudioRole::Original => self.original,
            AudioRole::Dubbed => self.dubbed,
        }
    }

    pub fn set_role(&mut self, role: AudioRole, value: bool)
        ensures
            final(self)@ == old(self)@.with_role(role, value),
    {
        match role {
            AudioRole::Commentary => self.commentary = value,
            AudioRole::HearingImpaired => self.hearing_impaired = value,
            AudioRole::AudioDescription => self.audio_description = value,
            AudioRole::Original => {
                self.original = value;
                if value {
                    self.dubbed = false;
                }
            },
            AudioRole::Dubbed => {
                self.dubbed = value;
                if value {
                    self.original = false;
                }
            },
        }
    }

}

/// The staged encode and metadata of one audio track.
#[derive(Clone, Debug, Eq, PartialEq)]
pub struct AudioSettings {
    pub codec: AudioCodec,
    pub channel_layout: AudioChannelLayout,
    pub metadata: AudioMetadata,
}

pub const CHANNEL_UPMIX_NOT_IMPLEMENTED: &'static str = "Channel upmixing is not implemented.";

// Laws.

/// The codec that a codec's own name stands for is that codec.
pub proof fn codec_names_read_back(codec: AudioCodec)
    requires
        codec != AudioCodec::Original,
    ensures
        codec.name_text() is Some,
        AudioCodec::of_name(codec.name_text()->0) == Some(codec),
{
    reveal_strlit("aac");
    reveal_strlit("ac3");
    reveal_strlit("eac3");
    reveal_strlit("opus");
    reveal_strlit("flac");
    reveal_strlit("alac");
    reveal_strlit("mp3");
    reveal_strlit("vorbis");
    assert("aac"@.len() == 3 && "ac3"@.len() == 3 && "mp3"@.len() == 3);
    assert("eac3"@.len() == 4 && "opus"@.len() == 4 && "flac"@.len() == 4 && "alac"@.len() == 4);
    assert("aac"@[1] == 'a' && "ac3"@[1] == 'c' && "mp3"@[1] == 'p');
    assert("eac3"@[0] == 'e' && "opus"@[0] == 'o' && "flac"@[0] == 'f' && "alac"@[0] == 'a');
}

/// A lossless codec is never given a bitrate, and a lossy one has a bitrate for every
/// channel count that it supports.
pub proof fn bitrates_are_for_lossy_encodes(codec: AudioCodec, channels: u8)
    ensures
        codec.lossless() ==> bitrate(codec, channels) is None,
        codec != AudioCodec::Original && !codec.lossless() ==> (bitrate(codec, channels) is Some
            <==> 1 <= channels <= codec.channel_limit()),
{
}

/// A role that was set reads back as set, and every role but the opposite of an
/// original or a dub stays as it was.
pub proof fn roles_read_back(tags: AudioTags, role: AudioRole, value: bool, other: AudioRole)
    ensures
        tags.with_role(role, value).role(role) == value,
        other != role && !(value && opposite(role) == Some(other)) ==> tags.with_role(
            role,
            value,
        ).role(other) == tags.role(other),
        value && opposite(role) == Some(other) ==> !tags.with_role(role, value).role(other),
{
}

/// The role that excludes another.
pub open spec fn opposite(role: AudioRole) -> Option<AudioRole> {
    match role {
        AudioRole::Original => Some(AudioRole::Dubbed),
        AudioRole::Dubbed => Some(AudioRole::Original),
        _ => None,
    }
}

/// No sequence of role changes leaves a track both the original and a dub.
pub proof fn roles_stay_exclusive(tags: AudioTags, role: AudioRole, value: bool)
    requires
        !(tags.original && tags.dubbed),
    ensures
        !(tags.with_role(role, value).original && tags.with_role(role, value).dubbed),
{
}

/// A name that stands for a codec is the name of that codec.
pub proof fn names_of_codecs_read_back(name: Seq<char>)
    requires
        AudioCodec::of_name(name) is Some,
    ensures
        AudioCodec::of_name(name)->0 != AudioCodec::Original,
        AudioCodec::of_name(name)->0.name_text() == Some(name),
{
}

/// What each codec is called, by `ffprobe` and by the encoder that writes it.
pub proof fn codecs_have_their_names()
    ensures
        AudioCodec::Original.name_text() is None,
        AudioCodec::Aac.name_text() == Some("aac"@),
        AudioCodec::Ac3.name_text() == Some("ac3"@),
        AudioCodec::Eac3.name_text() == Some("eac3"@),
        AudioCodec::Opus.name_text() == Some("opus"@),
        AudioCodec::Flac.name_text() == Some("flac"@),
        AudioCodec::Alac.name_text() == Some("alac"@),
        AudioCodec::Mp3.name_text() == Some("mp3"@),
        AudioCodec::Vorbis.name_text() == Some("vorbis"@),
        AudioCodec::Original.encoder_text() is None,
        AudioCodec::Aac.encoder_text() == Some("aac"@),
        AudioCodec::Ac3.encoder_text() == Some("ac3"@),
        AudioCodec::Eac3.encoder_text() == Some("eac3"@),
        AudioCodec::Opus.encoder_text() == Some("libopus"@),
        AudioCodec::Flac.encoder_text() == Some("flac"@),
        AudioCodec::Alac.encoder_text() == Some("alac"@),
        AudioCodec::Mp3.encoder_text() == Some("libmp3lame"@),
        AudioCodec::Vorbis.encoder_text() == Some("libvorbis"@),
        forall|codec: AudioCodec| #[trigger]
            codec.lossless() <==> codec == AudioCodec::Flac || codec == AudioCodec::Alac,
{
}

/// How many channels each codec takes, and how many each layout has.
pub proof fn layouts_have_their_channels(codec: AudioCodec)
    ensures
        AudioChannelLayout::Original.channel_count() is None,
        AudioChannelLayout::Surround71.channel_count() == Some(8u8),
        AudioChannelLayout::Surround51.channel_count() == Some(6u8),
        AudioChannelLayout::Stereo.channel_count() == Some(2u8),
        AudioChannelLayout::Mono.channel_count() == Some(1u8),
        AudioCodec::Original.channel_limit() == 255,
        AudioCodec::Mp3.channel_limit() == 2,
        AudioCodec::Ac3.channel_limit() == 6 && AudioCodec::Eac3.channel_limit() == 6,
        codec != AudioCodec::Original && codec != AudioCodec::Mp3 && codec != AudioCodec::Ac3
            && codec != AudioCodec::Eac3 ==> codec.channel_limit() == 8,
{
}

/// The bitrates of the encodes: more channels never get less, and these are the ones that
/// mono, stereo, 5.1 and 7.1 get.
pub proof fn bitrates_grow_with_the_channels(codec: AudioCodec, fewer: u8, more: u8)
    ensures
        fewer <= more && bitrate(codec, fewer) is Some && bitrate(codec, more) is Some ==> bitrate(
            codec,
            fewer,
        )->0 <= bitrate(codec, more)->0,
        bitrate(AudioCodec::Aac, 1) == Some(96u32) && bitrate(AudioCodec::Aac, 2) == Some(192u32),
        bitrate(AudioCodec::Aac, 6) == Some(512u32) && bitrate(AudioCodec::Aac, 8) == Some(640u32),
        bitrate(AudioCodec::Ac3, 1) == Some(128u32) && bitrate(AudioCodec::Ac3, 2) == Some(256u32),
        bitrate(AudioCodec::Ac3, 6) == Some(448u32) && bitrate(AudioCodec::Ac3, 8) is None,
        bitrate(AudioCodec::Eac3, 1) == Some(128u32) && bitrate(AudioCodec::Eac3, 2) == Some(
            192u32,
        ),
        bitrate(AudioCodec::Eac3, 6) == Some(640u32) && bitrate(AudioCodec::Eac3, 8) is None,
        bitrate(AudioCodec::Opus, 1) == Some(64u32) && bitrate(AudioCodec::Opus, 2) == Some(128u32),
        bitrate(AudioCodec::Opus, 6) == Some(384u32) && bitrate(AudioCodec::Opus, 8) == Some(
            512u32,
        ),
        bitrate(AudioCodec::Mp3, 1) == Some(96u32) && bitrate(AudioCodec::Mp3, 2) == Some(192u32),
        bitrate(AudioCodec::Mp3, 6) is None,
        bitrate(AudioCodec::Vorbis, 1) == Some(80u32) && bitrate(AudioCodec::Vorbis, 2) == Some(
            160u32,
        ),
        bitrate(AudioCodec::Vorbis, 6) == Some(384u32) && bitrate(AudioCodec::Vorbis, 8) == Some(
            512u32,
        ),
        bitrate(codec, 3) == bitrate(codec, 6) && bitrate(codec, 4) == bitrate(codec, 6) && bitrate(
            codec,
            5,
        ) == bitrate(codec, 6) && bitrate(codec, 7) == bitrate(codec, 8),
{
}

/// The sample rates that each codec takes.
pub proof fn codecs_have_their_rates(codec: AudioCodec, rate: u32)
    ensures
        AudioCodec::Opus.accepts_rate(rate) <==> seq![
            8_000u32,
            12_000,
            16_000,
            24_000,
            48_000,
        ].contains(rate),
        codec == AudioCodec::Ac3 || codec == AudioCodec::Eac3 ==> (codec.accepts_rate(rate)
            <==> seq![32_000u32, 44_100, 48_000].contains(rate)),
        AudioCodec::Mp3.accepts_rate(rate) <==> seq![
            8_000u32,
            11_025,
            12_000,
            16_000,
            22_050,
            24_000,
            32_000,
            44_100,
            48_000,
        ].contains(rate),
        AudioCodec::Aac.accepts_rate(rate) <==> seq![
            7_350u32,
            8_000,
            11_025,
            12_000,
            16_000,
            22_050,
            24_000,
            32_000,
            44_100,
            48_000,
            64_000,
            88_200,
            96_000,
        ].contains(rate),
        codec == AudioCodec::Flac || codec == AudioCodec::Alac || codec == AudioCodec::Vorbis || codec
            == AudioCodec::Original ==> (codec.accepts_rate(rate) <==> (AudioCodec::Aac.accepts_rate(
            rate,
        ) || rate == 176_400 || rate == 192_000)),
{
    let opus = seq![8_000u32, 12_000, 16_000, 24_000, 48_000];
    assert(opus[0] == 8_000 && opus[1] == 12_000 && opus[2] == 16_000);
    assert(opus[3] == 24_000 && opus[4] == 48_000);
    let dolby = seq![32_000u32, 44_100, 48_000];
    assert(dolby[0] == 32_000 && dolby[1] == 44_100 && dolby[2] == 48_000);
    let mp3 = seq![
        8_000u32,
        11_025,
        12_000,
        16_000,
        22_050,
        24_000,
        32_000,
        44_100,
        48_000,
    ];
    assert(mp3[0] == 8_000 && mp3[1] == 11_025 && mp3[2] == 12_000 && mp3[3] == 16_000);
    assert(mp3[4] == 22_050 && mp3[5] == 24_000 && mp3[6] == 32_000 && mp3[7] == 44_100);
    assert(mp3[8] == 48_000);
    let aac = seq![
        7_350u32,
        8_000,
        11_025,
        12_000,
        16_000,
        22_050,
        24_000,
        32_000,
        44_100,
        48_000,
        64_000,
        88_200,
        96_000,
    ];
    assert(aac[0] == 7_350 && aac[1] == 8_000 && aac[2] == 11_025 && aac[3] == 12_000);
    assert(aac[4] == 16_000 && aac[5] == 22_050 && aac[6] == 24_000 && aac[7] == 32_000);
    assert(aac[8] == 44_100 && aac[9] == 48_000 && aac[10] == 64_000 && aac[11] == 88_200);
    assert(aac[12] == 96_000);
}

/// The rate of an encode is one that the codec takes, no higher than that of the source, and
/// the highest of these. A source whose rate the codec takes keeps it.
pub proof fn rates_are_kept_or_lowered(codec: AudioCodec, source_rate: u32, other: u32)
    ensures
        resolved_rate(codec, source_rate) is Some ==> codec.accepts_rate(
            resolved_rate(codec, source_rate)->0,
        ) && resolved_rate(codec, source_rate)->0 <= source_rate,
        codec.accepts_rate(other) && other <= source_rate && resolved_rate(codec, source_rate)
            is Some ==> other <= resolved_rate(codec, source_rate)->0,
        codec.accepts_rate(source_rate) ==> resolved_rate(codec, source_rate) == Some(source_rate),
{
    if codec.accepts_rate(source_rate) {
        assert(best_rate(codec, source_rate, source_rate));
    }
}

/// How many kilobits a second each codec gets for its channels; a codec that loses nothing
/// and a number of channels that a codec does not take get no number.
pub proof fn bitrates_are_as_listed(codec: AudioCodec, channels: u8)
    ensures
        bitrate(AudioCodec::Aac, 1) == Some(96u32),
        bitrate(AudioCodec::Aac, 2) == Some(192u32),
        3 <= channels <= 6 ==> bitrate(AudioCodec::Aac, channels) == Some(512u32),
        7 <= channels <= 8 ==> bitrate(AudioCodec::Aac, channels) == Some(640u32),
        bitrate(AudioCodec::Ac3, 1) == Some(128u32),
        bitrate(AudioCodec::Ac3, 2) == Some(256u32),
        3 <= channels <= 6 ==> bitrate(AudioCodec::Ac3, channels) == Some(448u32),
        bitrate(AudioCodec::Eac3, 1) == Some(128u32),
        bitrate(AudioCodec::Eac3, 2) == Some(192u32),
        3 <= channels <= 6 ==> bitrate(AudioCodec::Eac3, channels) == Some(640u32),
        bitrate(AudioCodec::Opus, 1) == Some(64u32),
        bitrate(AudioCodec::Opus, 2) == Some(128u32),
        3 <= channels <= 6 ==> bitrate(AudioCodec::Opus, channels) == Some(384u32),
        7 <= channels <= 8 ==> bitrate(AudioCodec::Opus, channels) == Some(512u32),
        bitrate(AudioCodec::Mp3, 1) == Some(96u32),
        bitrate(AudioCodec::Mp3, 2) == Some(192u32),
        bitrate(AudioCodec::Vorbis, 1) == Some(80u32),
        bitrate(AudioCodec::Vorbis, 2) == Some(160u32),
        3 <= channels <= 6 ==> bitrate(AudioCodec::Vorbis, channels) == Some(384u32),
        7 <= channels <= 8 ==> bitrate(AudioCodec::Vorbis, channels) == Some(512u32),
        channels == 0 || channels > 8 ==> bitrate(codec, channels) is None,
        channels > 2 ==> bitrate(AudioCodec::Mp3, channels) is None,
        channels > 6 ==> bitrate(AudioCodec::Ac3, channels) is None && bitrate(
            AudioCodec::Eac3,
            channels,
        ) is None,
{
}

} // verus!
