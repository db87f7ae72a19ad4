//! Video codecs, resolutions and rotations, and the metadata of a video track.

use vstd::prelude::*;
use vstd::string::StringExecFns;

use crate::text::{copied, decimal, number_text, opt_str, opt_text, same_text};

verus! {

/// A video codec that a track can be encoded to, or `Original` to keep its own.
#[derive(Clone, Copy, Debug, Eq, PartialEq, Structural)]
pub enum VideoCodec {
    Original,
    H264,
    Hevc,
    Av1,
}

impl VideoCodec {
    pub const TARGETS: [VideoCodec; 3] = [VideoCodec::H264, VideoCodec::Hevc, VideoCodec::Av1];

    pub open spec fn label_text(self) -> Seq<char> {
        match self {
            VideoCodec::Original => "Original"@,
            VideoCodec::H264 => "H.264"@,
            VideoCodec::Hevc => "HEVC / H.265"@,
            VideoCodec::Av1 => "AV1"@,
        }
    }

    pub fn label(self) -> (result: &'static str)
        ensures
            result@ == self.label_text(),
    {
        match self {
            VideoCodec::Original => "Original",
            VideoCodec::H264 => "H.264",
            VideoCodec::Hevc => "HEVC / H.265",
            VideoCodec::Av1 => "AV1",
        }
    }

    /// The name a probe reports for the codec.
    pub open spec fn name_text(self) -> Option<Seq<char>> {
        match self {
            VideoCodec::Original => None,
            VideoCodec::H264 => Some("h264"@),
            VideoCodec::Hevc => Some("hevc"@),
            VideoCodec::Av1 => Some("av1"@),
        }
    }

    pub fn codec_name(self) -> (result: Option<&'static str>)
        ensures
            opt_str(result) == self.name_text(),
    {
        match self {
            VideoCodec::Original => None,
            VideoCodec::H264 => Some("h264"),
            VideoCodec::Hevc => Some("hevc"),
            VideoCodec::Av1 => Some("av1"),
        }
    }
}

/// The encoder, quality and preset that write a codec.
pub open spec fn encoder_of(codec: Seq<char>) -> Option<(Seq<char>, Seq<char>, Seq<char>)> {
    if codec == "h264"@ {
        Some(("libx264"@, "22"@, "medium"@))
    } else if codec == "hevc"@ {
        Some(("libx265"@, "24"@, "medium"@))
    } else if codec == "av1"@ {
        Some(("libsvtav1"@, "30"@, "8"@))
    } else {
        None
    }
}

pub fn encoder_settings(codec: &str) -> (result: Option<
    (&'static str, &'static str, &'static str),
>)
    ensures
        match result {
            Some(settings) => encoder_of(codec@) == Some(
                (settings.0@, settings.1@, settings.2@),
            ),
            None => encoder_of(codec@) is None,
        },
{
    if same_text(codec, "h264") {
        Some(("libx264", "22", "medium"))
    } else if same_text(codec, "hevc") {
        Some(("libx265", "24", "medium"))
    } else if same_text(codec, "av1") {
        Some(("libsvtav1", "30", "8"))
    } else {
        None
    }
}

/// How a picture is brought to a size of another shape.
#[derive(Clone, Copy, Debug, Eq, PartialEq, Structural)]
pub enum CustomScaling {
    FitPad,
    Stretch,
}

impl CustomScaling {
    pub const OPTIONS: [CustomScaling; 2] = [CustomScaling::FitPad, CustomScaling::Stretch];

    pub open spec fn label_text(self) -> Seq<char> {
        match self {
            CustomScaling::FitPad => "Fit & pad"@,
            CustomScaling::Stretch => "Stretch"@,
        }
    }

    pub fn label(self) -> (result: &'static str)
        ensures
            result@ == self.label_text(),
    {
        match self {
            CustomScaling::FitPad => "Fit & pad",
            CustomScaling::Stretch => "Stretch",
        }
    }
}

#[derive(Clone, Copy, Debug, Eq, PartialEq, Structural)]
pub struct CustomResolution {
    pub width: u64,
    pub height: u64,
    pub scaling: CustomScaling,
}

/// The smallest custom width or height that every encoder accepts.
pub const MINIMUM_CUSTOM_DIMENSION: u64 = 16;

/// The size of an encoded picture.
#[derive(Clone, Copy, Debug, Eq, PartialEq, Structural)]
pub enum VideoResolution {
    Original,
    P2160,
    P1440,
    P1080,
    P960,
    P720,
    P480,
    Custom(CustomResolution),
}

impl VideoResolution {
    pub const PRESETS: [VideoResolution; 6] = [
        VideoResolution::P2160,
        VideoResolution::P1440,
        VideoResolution::P1080,
        VideoResolution::P960,
        VideoResolution::P720,
        VideoResolution::P480,
    ];

    /// Width and height; `Original` has no size of its own.
    pub open spec fn size(self) -> Option<(u64, u64)> {
        match self {
            VideoResolution::Original => None,
            VideoResolution::P2160 => Some((3840, 2160)),
            VideoResolution::P1440 => Some((2560, 1440)),
            VideoResolution::P1080 => Some((1920, 1080)),
            VideoResolution::P960 => Some((1920, 960)),
            VideoResolution::P720 => Some((1280, 720)),
            VideoResolution::P480 => Some((854, 480)),
            VideoResolution::Custom(custom) => Some((custom.width, custom.height)),
        }
    }

    pub fn dimensions(self) -> (result: Option<(u64, u64)>)
        ensures
            result == self.size(),
    {
        match self {
            VideoResolution::Original => None,
            VideoResolution::P2160 => Some((3840, 2160)),
            VideoResolution::P1440 => Some((2560, 1440)),
            VideoResolution::P1080 => Some((1920, 1080)),
            VideoResolution::P960 => Some((1920, 960)),
            VideoResolution::P720 => Some((1280, 720)),
            VideoResolution::P480 => Some((854, 480)),
            VideoResolution::Custom(custom) => Some((custom.width, custom.height)),
        }
    }

    pub open spec fn label_text(self) -> Seq<char> {
        match self {
            VideoResolution::Original => "Original"@,
            VideoResolution::Custom(custom) => "Custom ("@ + decimal(custom.width as nat) + "×"@
                + decimal(custom.height as nat) + " · "@ + custom.scaling.label_text() + ")"@,
            preset => decimal((preset.size()->0).0 as nat) + "×"@ + decimal(
                (preset.size()->0).1 as nat,
            ) + " / "@ + (if preset == VideoResolution::P960 {
                "2:1"@
            } else {
                "16:9"@
            }),
        }
    }

    pub fn label(self) -> (result: String)
        ensures
            result@ == self.label_text(),
    {
        match self {
            VideoResolution::Original => "Original".to_owned(),
            VideoResolution::Custom(custom) => {
                let mut label = "Custom (".to_owned();
                label.append(number_text(custom.width).as_str());
                label.append("×");
                label.append(number_text(custom.height).as_str());
                label.append(" · ");
                label.append(custom.scaling.label());
                label.append(")");
                label
            },
            preset => {
                let (width, height) = preset.dimensions().unwrap();
                let mut label = number_text(width);
                label.append("×");
                label.append(number_text(height).as_str());
                label.append(" / ");
                label.append(
                    if preset == VideoResolution::P960 {
                        "2:1"
                    } else {
                        "16:9"
                    },
                );
                label
            },
        }
    }
}

/// The filter that fits a picture into a frame and pads what is left.
pub open spec fn fit_filter(width: u64, height: u64) -> Seq<char> {
    "scale="@ + decimal(width as nat) + ":"@ + decimal(height as nat)
        + ":force_original_aspect_ratio=decrease:force_divisible_by=2,pad="@ + decimal(
        width as nat,
    ) + ":"@ + decimal(height as nat) + ":(ow-iw)/2:(oh-ih)/2:black,setsar=1"@
}

/// The filter that stretches a picture to a frame.
pub open spec fn stretch_filter(width: u64, height: u64) -> Seq<char> {
    "scale="@ + decimal(width as nat) + ":"@ + decimal(height as nat) + ",setsar=1"@
}

/// The filter that brings a picture to a resolution; `None` where it keeps its size.
pub open spec fn filter_of(resolution: VideoResolution) -> Option<Seq<char>> {
    match resolution {
        VideoResolution::Original => None,
        VideoResolution::Custom(CustomResolution {
            width,
            height,
            scaling: CustomScaling::Stretch,
        }) => Some(stretch_filter(width, height)),
        sized => Some(fit_filter((sized.size()->0).0, (sized.size()->0).1)),
    }
}

pub fn resolution_filter(resolution: VideoResolution) -> (result: Option<String>)
    ensures
        opt_text(result) == filter_of(resolution),
{
    let (width, height) = match resolution.dimensions() {
        Some(size) => size,
        None => return None,
    };
    let mut filter = "scale=".to_owned();
    filter.append(number_text(width).as_str());
    filter.append(":");
    filter.append(number_text(height).as_str());
    if let VideoResolution::Custom(custom) = resolution {
        if custom.scaling == CustomScaling::Stretch {
            filter.append(",setsar=1");
            return Some(filter);
        }
    }
    filter.append(":force_original_aspect_ratio=decrease:force_divisible_by=2,pad=");
    filter.append(number_text(width).as_str());
    filter.append(":");
    filter.append(number_text(height).as_str());
    filter.append(":(ow-iw)/2:(oh-ih)/2:black,setsar=1");
    Some(filter)
}

/// How a player turns a picture before drawing it: a right angle, clockwise.
#[derive(Clone, Copy, Debug, Eq, PartialEq, Structural)]
pub enum VideoRotation {
    Upright,
    Cw90,
    Cw180,
    Cw270,
}

impl Default for VideoRotation {
    fn default() -> (result: VideoRotation)
        ensures
            result == VideoRotation::Upright,
    {
        VideoRotation::Upright
    }
}

impl VideoRotation {
    pub const ALL: [VideoRotation; 4] = [
        VideoRotation::Upright,
        VideoRotation::Cw90,
        VideoRotation::Cw180,
        VideoRotation::Cw270,
    ];

    pub open spec fn angle(self) -> u32 {
        match self {
            VideoRotation::Upright => 0,
            VideoRotation::Cw90 => 90,
            VideoRotation::Cw180 => 180,
            VideoRotation::Cw270 => 270,
        }
    }

    pub fn degrees(self) -> (result: u32)
        ensures
            result == self.angle(),
    {
        match self {
            VideoRotation::Upright => 0,
            VideoRotation::Cw90 => 90,
            VideoRotation::Cw180 => 180,
            VideoRotation::Cw270 => 270,
        }
    }

    pub open spec fn label_text(self) -> Seq<char> {
        match self {
            VideoRotation::Upright => "None"@,
            VideoRotation::Cw90 => "90° clockwise"@,
            VideoRotation::Cw180 => "180°"@,
            VideoRotation::Cw270 => "270° clockwise"@,
        }
    }

    pub fn label(self) -> (result: &'static str)
        ensures
            result@ == self.label_text(),
    {
        match self {
            VideoRotation::Upright => "None",
            VideoRotation::Cw90 => "90° clockwise",
            VideoRotation::Cw180 => "180°",
            VideoRotation::Cw270 => "270° clockwise",
        }
    }

    /// The rotation that an angle stands for: angles a full turn apart are the same one,
    /// and an angle that is no right angle reads as unrotated.
    pub open spec fn of_angle(degrees: int) -> VideoRotation {
        let turned = degrees % 360;
        if turned == 90 {
            VideoRotation::Cw90
        } else if turned == 180 {
            VideoRotation::Cw180
        } else if turned == 270 {
            VideoRotation::Cw270
        } else {
            VideoRotation::Upright
        }
    }

    pub fn from_degrees(degrees: i64) -> (result: VideoRotation)
        ensures
            result == VideoRotation::of_angle(degrees as int),
    {
        match degrees.checked_rem_euclid(360) {
            Some(90) => VideoRotation::Cw90,
            Some(180) => VideoRotation::Cw180,
            Some(270) => VideoRotation::Cw270,
            _ => VideoRotation::Upright,
        }
    }

    pub open spec fn swaps(self) -> bool {
        self == VideoRotation::Cw90 || self == VideoRotation::Cw270
    }

    /// Whether width and height change places when the rotation is applied.
    pub fn swaps_dimensions(self) -> (result: bool)
        ensures
            result == self.swaps(),
    {
        matches!(self, VideoRotation::Cw90 | VideoRotation::Cw270)
    }
}

#[derive(Debug, Eq, PartialEq)]
pub struct VideoMetadata {
    pub language: String,
    pub title: Option<String>,
    /// The one role a picture can have: a commentary angle.
    pub commentary: bool,
}

/// What a [`VideoMetadata`] says.
pub ghost struct VideoTags {
    pub language: Seq<char>,
    pub title: Option<Seq<char>>,
    pub commentary: bool,
}

impl View for VideoMetadata {
    type V = VideoTags;

    open spec fn view(&self) -> VideoTags {
        VideoTags {
            language: self.language@,
            title: opt_text(self.title),
            commentary: self.commentary,
        }
    }
}

impl Clone for VideoMetadata {
    fn clone(&self) -> (result: VideoMetadata)
        ensures
            result@ == self@,
    {
        VideoMetadata {
            language: self.language.as_str().to_owned(),
            title: copied(&self.title),
            commentary: self.commentary,
        }
    }
}

/// The staged encode, rotation and metadata of one video track.
#[derive(Clone, Debug, Eq, PartialEq)]
pub struct VideoSettings {
    pub codec: VideoCodec,
    pub resolution: VideoResolution,
    pub rotation: VideoRotation,
    pub metadata: VideoMetadata,
}

impl Default for VideoSettings {
    fn default() -> (result: VideoSettings)
        ensures
            result.codec == VideoCodec::Original,
            result.resolution == VideoResolution::Original,
            result.rotation == VideoRotation::Upright,
            result.metadata@ == (VideoTags {
                language: "und"@,
                title: None,
                commentary: false,
            }),
    {
        VideoSettings {
            codec: VideoCodec::Original,
            resolution: VideoResolution::Original,
            rotation: VideoRotation::Upright,
            metadata: VideoMetadata {
                language: "und".to_owned(),
                title: None,
                commentary: false,
            },
        }
    }
}

// Laws.

/// A rotation reads back from its own angle, whole turns added or not, and from the
/// negative angle that a player may report for it.
pub proof fn rotations_read_back(rotation: VideoRotation, turns: int)
    ensures
        VideoRotation::of_angle(rotation.angle() + 360 * turns) == rotation,
        VideoRotation::of_angle(rotation.angle() - 360) == rotation,
{
    assert((rotation.angle() + 360 * turns) % 360 == rotation.angle() as int % 360)
        by (nonlinear_arith);
}

/// A half turn further, width and height swap as they did before.
pub proof fn half_turns_keep_the_shape(degrees: int)
    ensures
        VideoRotation::of_angle(degrees).swaps() == VideoRotation::of_angle(degrees + 180).swaps(),
{
}

/// Every target codec has an encoder.
pub proof fn target_codecs_have_encoders(codec: VideoCodec)
    requires
        codec != VideoCodec::Original,
    ensures
        codec.name_text() is Some,
        encoder_of(codec.name_text()->0) is Some,
{
}

/// A filter is asked for exactly where a size is.
pub proof fn filters_follow_sizes(resolution: VideoResolution)
    ensures
        filter_of(resolution) is Some <==> resolution.size() is Some,
        resolution.size() is Some <==> resolution != VideoResolution::Original,
{
}

/// What each video codec is called, in the menu and in a report, and what encodes it.
pub proof fn video_codecs_have_their_names(codec: VideoCodec)
    ensures
        codec.name_text() == match codec {
            VideoCodec::Original => None,
            VideoCodec::H264 => Some("h264"@),
            VideoCodec::Hevc => Some("hevc"@),
            VideoCodec::Av1 => Some("av1"@),
        },
        codec == VideoCodec::Original <==> codec.label_text() == "Original"@,
        codec == VideoCodec::H264 <==> codec.label_text() == "H.264"@,
        codec == VideoCodec::Hevc <==> codec.label_text() == "HEVC / H.265"@,
        codec == VideoCodec::Av1 <==> codec.label_text() == "AV1"@,
        codec == VideoCodec::H264 ==> encoder_of(codec.name_text()->0) == Some(
            ("libx264"@, "22"@, "medium"@),
        ),
        codec == VideoCodec::Hevc ==> encoder_of(codec.name_text()->0) == Some(
            ("libx265"@, "24"@, "medium"@),
        ),
        codec == VideoCodec::Av1 ==> encoder_of(codec.name_text()->0) == Some(
            ("libsvtav1"@, "30"@, "8"@),
        ),
{
    lemma_codec_names();
    reveal_strlit("Original");
    reveal_strlit("H.264");
    reveal_strlit("HEVC / H.265");
    reveal_strlit("AV1");
    assert("Original"@.len() == 8 && "H.264"@.len() == 5 && "HEVC / H.265"@.len() == 12
        && "AV1"@.len() == 3);
}

proof fn lemma_codec_names()
    ensures
        "h264"@ != "hevc"@,
        "h264"@ != "av1"@,
        "hevc"@ != "av1"@,
{
    reveal_strlit("h264");
    reveal_strlit("hevc");
    reveal_strlit("av1");
    assert("h264"@[1] == '2');
    assert("hevc"@[1] == 'e');
    assert("av1"@.len() == 3);
}

/// Only a codec that can be asked for has an encoder.
pub proof fn only_target_codecs_have_encoders(name: Seq<char>)
    ensures
        encoder_of(name) is Some <==> exists|codec: VideoCodec|
            #[trigger] codec.name_text() == Some(name),
{
    lemma_codec_names();
    if encoder_of(name) is Some {
        if name == "h264"@ {
            assert(VideoCodec::H264.name_text() == Some(name));
        } else if name == "hevc"@ {
            assert(VideoCodec::Hevc.name_text() == Some(name));
        } else {
            assert(VideoCodec::Av1.name_text() == Some(name));
        }
    }
}

/// Every size that can be asked for is as large as it is called, and its filter scales to
/// that width and height and makes the pixels square. A preset and a fitted size keep the
/// picture's shape and fill the rest with black; a stretched size does not.
pub proof fn sizes_and_filters_are_as_named(resolution: VideoResolution, width: u64, height: u64)
    ensures
        VideoResolution::P2160.size() == Some((3840u64, 2160u64)),
        VideoResolution::P1440.size() == Some((2560u64, 1440u64)),
        VideoResolution::P1080.size() == Some((1920u64, 1080u64)),
        VideoResolution::P960.size() == Some((1920u64, 960u64)),
        VideoResolution::P720.size() == Some((1280u64, 720u64)),
        VideoResolution::P480.size() == Some((854u64, 480u64)),
        VideoResolution::Custom(
            CustomResolution { width, height, scaling: CustomScaling::FitPad },
        ).size() == Some((width, height)),
        VideoResolution::Custom(
            CustomResolution { width, height, scaling: CustomScaling::Stretch },
        ).size() == Some((width, height)),
        filter_of(
            VideoResolution::Custom(
                CustomResolution { width, height, scaling: CustomScaling::Stretch },
            ),
        ) == Some(
            "scale="@ + decimal(width as nat) + ":"@ + decimal(height as nat) + ",setsar=1"@,
        ),
        resolution.size() == Some((width, height)) && !(resolution matches VideoResolution::Custom(
            custom,
        ) && custom.scaling == CustomScaling::Stretch) ==> filter_of(resolution) == Some(
            "scale="@ + decimal(width as nat) + ":"@ + decimal(height as nat)
                + ":force_original_aspect_ratio=decrease:force_divisible_by=2,pad="@ + decimal(
                width as nat,
            ) + ":"@ + decimal(height as nat) + ":(ow-iw)/2:(oh-ih)/2:black,setsar=1"@,
        ),
{
}

/// What each size is called: its width and height, and its shape or how it is reached.
pub proof fn sizes_have_their_names(custom: CustomResolution)
    ensures
        VideoResolution::Original.label_text() == "Original"@,
        VideoResolution::P2160.label_text() == decimal(3840) + "×"@ + decimal(2160) + " / "@
            + "16:9"@,
        VideoResolution::P1440.label_text() == decimal(2560) + "×"@ + decimal(1440) + " / "@
            + "16:9"@,
        VideoResolution::P1080.label_text() == decimal(1920) + "×"@ + decimal(1080) + " / "@
            + "16:9"@,
        VideoResolution::P960.label_text() == decimal(1920) + "×"@ + decimal(960) + " / "@
            + "2:1"@,
        VideoResolution::P720.label_text() == decimal(1280) + "×"@ + decimal(720) + " / "@
            + "16:9"@,
        VideoResolution::P480.label_text() == decimal(854) + "×"@ + decimal(480) + " / "@
            + "16:9"@,
        VideoResolution::Custom(custom).label_text() == "Custom ("@ + decimal(custom.width as nat)
            + "×"@ + decimal(custom.height as nat) + " · "@ + (if custom.scaling
            == CustomScaling::FitPad {
            "Fit & pad"@
        } else {
            "Stretch"@
        }) + ")"@,
{
}

/// A turn by a quarter, a half or three quarters is told by its angle, whatever full turns
/// it is given with; any other angle leaves the picture upright.
pub proof fn angles_are_read(degrees: int)
    ensures
        VideoRotation::of_angle(degrees).angle() == if degrees % 90 == 0 {
            degrees % 360
        } else {
            0
        },
        VideoRotation::Upright.angle() == 0,
        VideoRotation::Cw90.angle() == 90,
        VideoRotation::Cw180.angle() == 180,
        VideoRotation::Cw270.angle() == 270,
        VideoRotation::of_angle(degrees).swaps() <==> degrees % 180 == 90,
        VideoRotation::Upright.label_text() == "None"@,
        VideoRotation::Cw90.label_text() == "90° clockwise"@,
        VideoRotation::Cw180.label_text() == "180°"@,
        VideoRotation::Cw270.label_text() == "270° clockwise"@,
{
}

} // verus!
