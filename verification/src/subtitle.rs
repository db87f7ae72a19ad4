//! Subtitle formats, the metadata of a subtitle track, and staged subtitle changes.

use vstd::prelude::*;
use vstd::string::StringExecFns;

use crate::files::FileFingerprint;
use crate::path::{FilePath, PathModel, Place};
use crate::text::{copied, decimal, number_text, opt_str, opt_text, same_text};

verus! {

/// A subtitle format that a track can hold or be converted to.
#[derive(Clone, Copy, Debug, Eq, PartialEq, Structural)]
pub enum SubtitleFormat {
    SubRip,
    Ass,
    MovText,
    Pgs,
    VobSub,
}

impl SubtitleFormat {
    /// The formats a conversion offers.
    pub const COMMON_TARGETS: [SubtitleFormat; 5] = [
        SubtitleFormat::SubRip,
        SubtitleFormat::Ass,
        SubtitleFormat::MovText,
        SubtitleFormat::Pgs,
        SubtitleFormat::VobSub,
    ];

    pub open spec fn label_text(self) -> Seq<char> {
        match self {
            SubtitleFormat::SubRip => "SubRip / SRT"@,
            SubtitleFormat::Ass => "ASS"@,
            SubtitleFormat::MovText => "MOV Text"@,
            SubtitleFormat::Pgs => "PGS"@,
            SubtitleFormat::VobSub => "VobSub"@,
        }
    }

    pub fn label(self) -> (result: &'static str)
        ensures
            result@ == self.label_text(),
    {
        match self {
            SubtitleFormat::SubRip => "SubRip / SRT",
            SubtitleFormat::Ass => "ASS",
            SubtitleFormat::MovText => "MOV Text",
            SubtitleFormat::Pgs => "PGS",
            SubtitleFormat::VobSub => "VobSub",
        }
    }

    /// The short label of a progress line.
    pub open spec fn short_text(self) -> Seq<char> {
        match self {
            SubtitleFormat::SubRip => "SRT"@,
            _ => self.label_text(),
        }
    }

    pub fn overview_label(self) -> (result: &'static str)
        ensures
            result@ == self.short_text(),
    {
        match self {
            SubtitleFormat::SubRip => "SRT",
            _ => self.label(),
        }
    }

    /// The name a probe reports for the format.
    pub open spec fn codec_text(self) -> Seq<char> {
        match self {
            SubtitleFormat::SubRip => "subrip"@,
            SubtitleFormat::Ass => "ass"@,
            SubtitleFormat::MovText => "mov_text"@,
            SubtitleFormat::Pgs => "hdmv_pgs_subtitle"@,
            SubtitleFormat::VobSub => "dvd_subtitle"@,
        }
    }

    pub fn ffmpeg_codec(self) -> (result: &'static str)
        ensures
            result@ == self.codec_text(),
    {
        match self {
            SubtitleFormat::SubRip => "subrip",
            SubtitleFormat::Ass => "ass",
            SubtitleFormat::MovText => "mov_text",
            SubtitleFormat::Pgs => "hdmv_pgs_subtitle",
            SubtitleFormat::VobSub => "dvd_subtitle",
        }
    }

    /// The format that a probe reports under `codec`.
    pub open spec fn of_codec(codec: Seq<char>) -> Option<SubtitleFormat> {
        if codec == "subrip"@ {
            Some(SubtitleFormat::SubRip)
        } else if codec == "ass"@ {
            Some(SubtitleFormat::Ass)
        } else if codec == "mov_text"@ {
            Some(SubtitleFormat::MovText)
        } else if codec == "hdmv_pgs_subtitle"@ {
            Some(SubtitleFormat::Pgs)
        } else if codec == "dvd_subtitle"@ {
            Some(SubtitleFormat::VobSub)
        } else {
            None
        }
    }

    pub fn from_codec(codec: &str) -> (result: Option<SubtitleFormat>)
        ensures
            result == SubtitleFormat::of_codec(codec@),
    {
        if same_text(codec, "subrip") {
            Some(SubtitleFormat::SubRip)
        } else if same_text(codec, "ass") {
            Some(SubtitleFormat::Ass)
        } else if same_text(codec, "mov_text") {
            Some(SubtitleFormat::MovText)
        } else if same_text(codec, "hdmv_pgs_subtitle") {
            Some(SubtitleFormat::Pgs)
        } else if same_text(codec, "dvd_subtitle") {
            Some(SubtitleFormat::VobSub)
        } else {
            None
        }
    }

    pub open spec fn extension_text(self) -> Seq<char> {
        match self {
            SubtitleFormat::SubRip => "srt"@,
            SubtitleFormat::Ass => "ass"@,
            SubtitleFormat::MovText => "mp4"@,
            SubtitleFormat::Pgs => "sup"@,
            SubtitleFormat::VobSub => "sub"@,
        }
    }

    pub fn extension(self) -> (result: &'static str)
        ensures
            result@ == self.extension_text(),
    {
        match self {
            SubtitleFormat::SubRip => "srt",
            SubtitleFormat::Ass => "ass",
            SubtitleFormat::MovText => "mp4",
            SubtitleFormat::Pgs => "sup",
            SubtitleFormat::VobSub => "sub",
        }
    }

    /// Whether a track of this format is a run of pictures.
    pub open spec fn image(self) -> bool {
        self == SubtitleFormat::Pgs || self == SubtitleFormat::VobSub
    }

    pub fn is_image(self) -> (result: bool)
        ensures
            result == self.image(),
    {
        matches!(self, SubtitleFormat::Pgs | SubtitleFormat::VobSub)
    }

    pub fn is_text(self) -> (result: bool)
        ensures
            result == !self.image(),
    {
        !self.is_image()
    }

    /// The encoder that writes a text format.
    pub open spec fn encoder_text(self) -> Option<Seq<char>> {
        if self.image() {
            None
        } else {
            Some(self.codec_text())
        }
    }

    pub fn ffmpeg_encoder(self) -> (result: Option<&'static str>)
        ensures
            opt_str(result) == self.encoder_text(),
    {
        if self.is_image() {
            None
        } else {
            Some(self.ffmpeg_codec())
        }
    }

    /// The name the image converter knows the format by.
    pub open spec fn converter_text(self) -> Seq<char> {
        match self {
            SubtitleFormat::SubRip => "subrip"@,
            SubtitleFormat::Ass => "ass"@,
            SubtitleFormat::MovText => "subrip"@,
            SubtitleFormat::Pgs => "bluraysup"@,
            SubtitleFormat::VobSub => "vobsub"@,
        }
    }

    pub fn seconv_name(self) -> (result: &'static str)
        ensures
            result@ == self.converter_text(),
    {
        match self {
            SubtitleFormat::SubRip => "subrip",
            SubtitleFormat::Ass => "ass",
            SubtitleFormat::MovText => "subrip",
            SubtitleFormat::Pgs => "bluraysup",
            SubtitleFormat::VobSub => "vobsub",
        }
    }
}

/// A flag that a subtitle track can carry.
#[derive(Clone, Copy, Debug, Eq, PartialEq, Structural)]
pub enum SubtitleFlag {
    Forced,
    Cc,
    HearingImpaired,
    Original,
    Commentary,
}

impl SubtitleFlag {
    pub const ALL: [SubtitleFlag; 5] = [
        SubtitleFlag::Forced,
        SubtitleFlag::Cc,
        SubtitleFlag::HearingImpaired,
        SubtitleFlag::Original,
        SubtitleFlag::Commentary,
    ];

    pub open spec fn label_text(self) -> Seq<char> {
        match self {
            SubtitleFlag::Forced => "Forced"@,
            SubtitleFlag::Cc => "CC"@,
            SubtitleFlag::HearingImpaired => "Hearing impaired"@,
            SubtitleFlag::Original => "Original"@,
            SubtitleFlag::Commentary => "Commentary"@,
        }
    }

    pub fn label(self) -> (result: &'static str)
        ensures
            result@ == self.label_text(),
    {
        match self {
            SubtitleFlag::Forced => "Forced",
            SubtitleFlag::Cc => "CC",
            SubtitleFlag::HearingImpaired => "Hearing impaired",
            SubtitleFlag::Original => "Original",
            SubtitleFlag::Commentary => "Commentary",
        }
    }
}

#[derive(Debug, Eq, PartialEq)]
pub struct SubtitleMetadata {
    pub language: String,
    pub title: Option<String>,
    pub forced: bool,
    pub cc: bool,
    pub hearing_impaired: bool,
    pub original: bool,
    pub commentary: bool,
}

/// What a [`SubtitleMetadata`] says.
pub ghost struct SubtitleTags {
    pub language: Seq<char>,
    pub title: Option<Seq<char>>,
    pub forced: bool,
    pub cc: bool,
    pub hearing_impaired: bool,
    pub original: bool,
    pub commentary: bool,
}

impl SubtitleTags {
    pub open spec fn flag(self, flag: SubtitleFlag) -> bool {
        match flag {
            SubtitleFlag::Forced => self.forced,
            SubtitleFlag::Cc => self.cc,
            SubtitleFlag::HearingImpaired => self.hearing_impaired,
            SubtitleFlag::Original => self.original,
            SubtitleFlag::Commentary => self.commentary,
        }
    }

    pub open spec fn with_flag(self, flag: SubtitleFlag, value: bool) -> SubtitleTags {
        match flag {
            SubtitleFlag::Forced => SubtitleTags { forced: value, ..self },
            SubtitleFlag::Cc => SubtitleTags { cc: value, ..self },
            SubtitleFlag::HearingImpaired => SubtitleTags { hearing_impaired: value, ..self },
            SubtitleFlag::Original => SubtitleTags { original: value, ..self },
            SubtitleFlag::Commentary => SubtitleTags { commentary: value, ..self },
        }
    }
}

impl View for SubtitleMetadata {
    type V = SubtitleTags;

    open spec fn view(&self) -> SubtitleTags {
        SubtitleTags {
            language: self.language@,
            title: opt_text(self.title),
            forced: self.forced,
            cc: self.cc,
            hearing_impaired: self.hearing_impaired,
            original: self.original,
            commentary: self.commentary,
        }
    }
}

impl Clone for SubtitleMetadata {
    fn clone(&self) -> (result: SubtitleMetadata)
        ensures
            result@ == self@,
    {
        SubtitleMetadata {
            language: self.language.as_str().to_owned(),
            title: copied(&self.title),
            forced: self.forced,
            cc: self.cc,
            hearing_impaired: self.hearing_impaired,
            original: self.original,
            commentary: self.commentary,
        }
    }
}

impl SubtitleMetadata {
    pub fn get_flag(&self, flag: SubtitleFlag) -> (result: bool)
        ensures
            result == self@.flag(flag),
    {
        match flag {
            SubtitleFlag::Forced => self.forced,
            SubtitleFlag::Cc => self.cc,
            SubtitleFlag::HearingImpaired => self.hearing_impaired,
            SubtitleFlag::Original => self.original,
            SubtitleFlag::Commentary => self.commentary,
        }
    }

    pub fn set_flag(&mut self, flag: SubtitleFlag, value: bool)
        ensures
            final(self)@ == old(self)@.with_flag(flag, value),
    {
        match flag {
            SubtitleFlag::Forced => self.forced = value,
            SubtitleFlag::Cc => self.cc = value,
            SubtitleFlag::HearingImpaired => self.hearing_impaired = value,
            SubtitleFlag::Original => self.original = value,
            SubtitleFlag::Commentary => self.commentary = value,
        }
    }
}

/// Where a subtitle is now: a track of the media, or a file beside it.
#[derive(Clone, Debug, Eq, PartialEq)]
pub enum SubtitleSource {
    Embedded(u64),
    Sidecar(FilePath),
}

/// What a [`SubtitleSource`] names.
pub ghost enum SourceModel {
    Embedded(u64),
    Sidecar(Place),
}

impl View for SubtitleSource {
    type V = SourceModel;

    open spec fn view(&self) -> SourceModel {
        match self {
            SubtitleSource::Embedded(index) => SourceModel::Embedded(*index),
            SubtitleSource::Sidecar(path) => SourceModel::Sidecar(path@.place()),
        }
    }
}

impl SubtitleSource {
    pub fn same(&self, other: &SubtitleSource) -> (result: bool)
        ensures
            result == (self@ == other@),
    {
        match (self, other) {
            (SubtitleSource::Embedded(left), SubtitleSource::Embedded(right)) => *left == *right,
            (SubtitleSource::Sidecar(left), SubtitleSource::Sidecar(right)) => left.same(right),
            _ => false,
        }
    }

    /// Whether the source is the embedded track `index`.
    pub fn is_track(&self, index: u64) -> (result: bool)
        ensures
            result == (self@ == SourceModel::Embedded(index)),
    {
        match self {
            SubtitleSource::Embedded(own) => *own == index,
            SubtitleSource::Sidecar(_) => false,
        }
    }

    /// Whether the source is the file at `path`.
    pub fn is_file(&self, path: &FilePath) -> (result: bool)
        ensures
            result == (self@ == SourceModel::Sidecar(path@.place())),
    {
        match self {
            SubtitleSource::Embedded(_) => false,
            SubtitleSource::Sidecar(own) => own.same(path),
        }
    }
}

/// A rewrite of one cue: what the file held when the cue was opened, and what it is to
/// hold. Times are in milliseconds.
#[derive(Clone, Debug, Eq, PartialEq)]
pub struct CueEdit {
    pub cue: usize,
    pub original_text: String,
    pub original_start: u64,
    pub original_end: u64,
    pub text: String,
    pub start: u64,
    pub end: u64,
}

/// Everything staged for one subtitle.
#[derive(Clone, Debug, Eq, PartialEq)]
pub struct SubtitleChange {
    pub cue_edits: Vec<CueEdit>,
    pub source: SubtitleSource,
    pub source_format: SubtitleFormat,
    pub embedded_target: Option<SubtitleFormat>,
    pub export_target: Option<SubtitleFormat>,
    pub import_into_media: bool,
    pub ocr_language: Option<String>,
    pub metadata: Option<SubtitleMetadata>,
}

impl SubtitleChange {
    pub open spec fn effective(self) -> bool {
        ||| self.cue_edits@.len() > 0
        ||| self.embedded_target is Some
        ||| self.export_target is Some
        ||| self.import_into_media
        ||| self.metadata is Some
    }

    /// Whether the change asks for anything.
    pub fn has_effect(&self) -> (result: bool)
        ensures
            result == self.effective(),
    {
        self.cue_edits.len() > 0 || self.embedded_target.is_some() || self.export_target.is_some()
            || self.import_into_media || self.metadata.is_some()
    }

    pub open spec fn removed(self) -> bool {
        self.source is Embedded && self.export_target is Some
    }

    /// Whether the track leaves the media: an export moves it out.
    pub fn removes_from_media(&self) -> (result: bool)
        ensures
            result == self.removed(),
    {
        matches!(self.source, SubtitleSource::Embedded(_)) && self.export_target.is_some()
    }

    pub open spec fn to_text(target: Option<SubtitleFormat>) -> bool {
        target is Some && !target->0.image()
    }

    pub open spec fn reads_images(self) -> bool {
        self.source_format.image() && (Self::to_text(self.embedded_target) || Self::to_text(
            self.export_target,
        ))
    }

    /// Whether pictures have to be read as text.
    pub fn needs_ocr(&self) -> (result: bool)
        ensures
            result == self.reads_images(),
    {
        let embedded = match self.embedded_target {
            Some(target) => target.is_text(),
            None => false,
        };
        let export = match self.export_target {
            Some(target) => target.is_text(),
            None => false,
        };
        self.source_format.is_image() && (embedded || export)
    }

    pub open spec fn remuxes(self) -> bool {
        match self.source {
            SubtitleSource::Embedded(_) => self.effective(),
            SubtitleSource::Sidecar(_) => self.import_into_media,
        }
    }

    /// Whether the change shows in the media file itself.
    pub fn changes_media(&self) -> (result: bool)
        ensures
            result == self.remuxes(),
    {
        match self.source {
            SubtitleSource::Embedded(_) => self.has_effect(),
            SubtitleSource::Sidecar(_) => self.import_into_media,
        }
    }
}

/// The first change of a source.
pub open spec fn change_of(changes: Seq<SubtitleChange>, source: SourceModel) -> Option<
    SubtitleChange,
>
    decreases changes.len(),
{
    if changes.len() == 0 {
        None
    } else if changes[0].source@ == source {
        Some(changes[0])
    } else {
        change_of(changes.skip(1), source)
    }
}

/// Finds the first change of the embedded track `index`.
pub fn track_change(changes: &[SubtitleChange], index: u64) -> (result: Option<&SubtitleChange>)
    ensures
        match result {
            Some(change) => change_of(changes@, SourceModel::Embedded(index)) == Some(*change),
            None => change_of(changes@, SourceModel::Embedded(index)) is None,
        },
{
    let mut i: usize = 0;
    assert(changes@.skip(0) =~= changes@);
    while i < changes.len()
        invariant
            0 <= i <= changes.len(),
            change_of(changes@, SourceModel::Embedded(index)) == change_of(
                changes@.skip(i as int),
                SourceModel::Embedded(index),
            ),
        decreases changes.len() - i,
    {
        if changes[i].source.is_track(index) {
            return Some(&changes[i]);
        }
        assert(changes@.skip(i as int).skip(1) =~= changes@.skip(i + 1));
        i = i + 1;
    }
    None
}

/// Finds the first change of the file at `path`.
pub fn file_change<'a>(changes: &'a [SubtitleChange], path: &FilePath) -> (result: Option<
    &'a SubtitleChange,
>)
    ensures
        match result {
            Some(change) => change_of(changes@, SourceModel::Sidecar(path@.place())) == Some(*change),
            None => change_of(changes@, SourceModel::Sidecar(path@.place())) is None,
        },
{
    let mut i: usize = 0;
    assert(changes@.skip(0) =~= changes@);
    while i < changes.len()
        invariant
            0 <= i <= changes.len(),
            change_of(changes@, SourceModel::Sidecar(path@.place())) == change_of(
                changes@.skip(i as int),
                SourceModel::Sidecar(path@.place()),
            ),
        decreases changes.len() - i,
    {
        if changes[i].source.is_file(path) {
            return Some(&changes[i]);
        }
        assert(changes@.skip(i as int).skip(1) =~= changes@.skip(i + 1));
        i = i + 1;
    }
    None
}

/// Whether an export moves the embedded track `index` out of the media.
pub open spec fn leaves_media(changes: Seq<SubtitleChange>, index: u64) -> bool {
    exists|i: int|
        0 <= i < changes.len() && (#[trigger] changes[i]).source@ == SourceModel::Embedded(index)
            && changes[i].removed()
}

pub fn track_leaves_media(changes: &[SubtitleChange], index: u64) -> (result: bool)
    ensures
        result == leaves_media(changes@, index),
{
    let mut i: usize = 0;
    while i < changes.len()
        invariant
            0 <= i <= changes.len(),
            forall|k: int|
                0 <= k < i ==> !((#[trigger] changes@[k]).source@ == SourceModel::Embedded(index)
                    && changes@[k].removed()),
        decreases changes.len() - i,
    {
        if changes[i].source.is_track(index) && changes[i].removes_from_media() {
            return true;
        }
        i = i + 1;
    }
    false
}

/// A subtitle file beside the media, as it was when it was listed. The second file of a
/// two-file format is its companion.
#[derive(Clone, Debug, Eq, PartialEq)]
pub struct SidecarEntry {
    pub path: FilePath,
    pub companion: Option<FilePath>,
    pub display_name: String,
    pub format: SubtitleFormat,
    pub language: String,
    pub forced: bool,
    pub hearing_impaired: bool,
    pub number: Option<u32>,
    pub fingerprint: FileFingerprint,
    pub companion_fingerprint: Option<FileFingerprint>,
}

impl SidecarEntry {
    /// What the file's name says of the subtitle.
    pub open spec fn tags(self) -> SubtitleTags {
        SubtitleTags {
            language: self.language@,
            title: None,
            forced: self.forced,
            cc: false,
            hearing_impaired: self.hearing_impaired,
            original: false,
            commentary: false,
        }
    }

    pub fn metadata(&self) -> (result: SubtitleMetadata)
        ensures
            result@ == self.tags(),
    {
        SubtitleMetadata {
            language: self.language.as_str().to_owned(),
            title: None,
            forced: self.forced,
            cc: false,
            hearing_impaired: self.hearing_impaired,
            original: false,
            commentary: false,
        }
    }

    /// The files the subtitle consists of.
    pub open spec fn files(self) -> Seq<PathModel> {
        match self.companion {
            Some(companion) => seq![self.path@, companion@],
            None => seq![self.path@],
        }
    }

    pub fn source_paths(&self) -> (result: Vec<FilePath>)
        ensures
            crate::path::paths(result@) == self.files(),
    {
        let mut result: Vec<FilePath> = Vec::new();
        result.push(self.path.clone());
        if let Some(companion) = &self.companion {
            result.push(companion.clone());
        }
        assert(crate::path::paths(result@) =~= self.files());
        result
    }
}

/// The position of the first sidecar that is a file.
pub open spec fn sidecar_at(sidecars: Seq<SidecarEntry>, place: Place) -> Option<int>
    decreases sidecars.len(),
{
    if sidecars.len() == 0 {
        None
    } else if sidecars[0].path@.place() == place {
        Some(0)
    } else {
        match sidecar_at(sidecars.skip(1), place) {
            Some(position) => Some(position + 1),
            None => None,
        }
    }
}

pub fn find_sidecar(sidecars: &[SidecarEntry], path: &FilePath) -> (result: Option<usize>)
    ensures
        match result {
            Some(position) => sidecar_at(sidecars@, path@.place()) == Some(position as int) && position
                < sidecars@.len(),
            None => sidecar_at(sidecars@, path@.place()) is None,
        },
{
    let mut i: usize = 0;
    assert(sidecars@.skip(0) =~= sidecars@);
    while i < sidecars.len()
        invariant
            0 <= i <= sidecars.len(),
            sidecar_at(sidecars@, path@.place()) == (match sidecar_at(sidecars@.skip(i as int), path@.place()) {
                Some(position) => Some(position + i),
                None => None,
            }),
        decreases sidecars.len() - i,
    {
        if sidecars[i].path.same(path) {
            return Some(i);
        }
        assert(sidecars@.skip(i as int).skip(1) =~= sidecars@.skip(i + 1));
        i = i + 1;
    }
    None
}

/// A row of the track list: an embedded track by its index, a sidecar by its position,
/// or a row that is no subtitle.
#[derive(Clone, Copy, Debug, Eq, PartialEq, Structural)]
pub enum TrackRef {
    Embedded(u64),
    Sidecar(usize),
    Other,
}

/// The languages a subtitle can be given: each code with the code it is written as, and
/// the codes that can be chosen.
#[derive(Clone, Debug, Eq, PartialEq)]
pub struct Languages {
    pub codes: Vec<(String, String)>,
    pub choices: Vec<String>,
}

impl Languages {
    /// The code that a code is written as: that of its first entry.
    pub open spec fn canonical(codes: Seq<(String, String)>, code: Seq<char>) -> Option<Seq<char>>
        decreases codes.len(),
    {
        if codes.len() == 0 {
            None
        } else if codes[0].0@ == code {
            Some(codes[0].1@)
        } else {
            Self::canonical(codes.skip(1), code)
        }
    }

    pub fn canonical_language_code(&self, code: &str) -> (result: Option<String>)
        ensures
            opt_text(result) == Self::canonical(self.codes@, code@),
    {
        let mut i: usize = 0;
        assert(self.codes@.skip(0) =~= self.codes@);
        while i < self.codes.len()
            invariant
                0 <= i <= self.codes.len(),
                Self::canonical(self.codes@, code@) == Self::canonical(
                    self.codes@.skip(i as int),
                    code@,
                ),
            decreases self.codes.len() - i,
        {
            if same_text(self.codes[i].0.as_str(), code) {
                return Some(self.codes[i].1.as_str().to_owned());
            }
            assert(self.codes@.skip(i as int).skip(1) =~= self.codes@.skip(i + 1));
            i = i + 1;
        }
        None
    }

    /// Whether a code can be chosen.
    pub open spec fn offers(self, code: Seq<char>) -> bool {
        crate::text::texts(self.choices@).contains(code)
    }

    pub fn language_choice(&self, code: &str) -> (result: bool)
        ensures
            result == self.offers(code@),
    {
        crate::text::holds(self.choices.as_slice(), code)
    }
}

/// The metadata a subtitle ends up with: what was staged for it, or what it has, with
/// the language in the code it is written as.
pub open spec fn effective_tags(
    languages: Languages,
    change: SubtitleChange,
    original: SubtitleTags,
) -> SubtitleTags {
    let chosen = match change.metadata {
        Some(metadata) => metadata@,
        None => original,
    };
    match Languages::canonical(languages.codes@, chosen.language) {
        Some(code) => SubtitleTags { language: code, ..chosen },
        None => chosen,
    }
}

pub fn effective_subtitle_metadata(
    languages: &Languages,
    change: &SubtitleChange,
    original: SubtitleMetadata,
) -> (result: SubtitleMetadata)
    ensures
        result@ == effective_tags(*languages, *change, original@),
{
    let mut metadata = match &change.metadata {
        Some(metadata) => metadata.clone(),
        None => original,
    };
    if let Some(language) = languages.canonical_language_code(metadata.language.as_str()) {
        metadata.language = language;
    }
    metadata
}

/// The name of a subtitle file: the media's stem, the language, a mark for each flag
/// that a name can carry, a number where there are several, and the extension.
pub open spec fn sidecar_name(
    media_stem: Seq<char>,
    language: Seq<char>,
    forced: bool,
    hearing_impaired: bool,
    number: Option<u32>,
    format: SubtitleFormat,
) -> Seq<char> {
    media_stem + "."@ + language + (if forced {
        ".forced"@
    } else {
        ""@
    }) + (if hearing_impaired {
        ".sdh"@
    } else {
        ""@
    }) + (match number {
        Some(number) => "."@ + decimal(number as nat),
        None => ""@,
    }) + "."@ + format.extension_text()
}

pub fn sidecar_filename(
    media_stem: &str,
    language: &str,
    forced: bool,
    hearing_impaired: bool,
    number: Option<u32>,
    format: SubtitleFormat,
) -> (result: String)
    ensures
        result@ == sidecar_name(media_stem@, language@, forced, hearing_impaired, number, format),
{
    let mut name = media_stem.to_owned();
    name.append(".");
    name.append(language);
    name.append(
        if forced {
            ".forced"
        } else {
            ""
        },
    );
    name.append(
        if hearing_impaired {
            ".sdh"
        } else {
            ""
        },
    );
    let mut mark = "".to_owned();
    if let Some(number) = number {
        mark = ".".to_owned();
        mark.append(number_text(number as u64).as_str());
    }
    name.append(mark.as_str());
    name.append(".");
    name.append(format.extension());
    name
}

// Laws.

/// A flag that was set reads back as set, and every other flag stays as it was.
pub proof fn flags_read_back(tags: SubtitleTags, flag: SubtitleFlag, value: bool, other: SubtitleFlag)
    ensures
        tags.with_flag(flag, value).flag(flag) == value,
        other != flag ==> tags.with_flag(flag, value).flag(other) == tags.flag(other),
{
}

/// A format reads back from the name a probe reports for it.
pub proof fn formats_read_back(format: SubtitleFormat)
    ensures
        SubtitleFormat::of_codec(format.codec_text()) == Some(format),
{
    reveal_strlit("subrip");
    reveal_strlit("ass");
    reveal_strlit("mov_text");
    reveal_strlit("hdmv_pgs_subtitle");
    reveal_strlit("dvd_subtitle");
    assert("subrip"@.len() == 6 && "ass"@.len() == 3 && "mov_text"@.len() == 8);
    assert("hdmv_pgs_subtitle"@.len() == 17 && "dvd_subtitle"@.len() == 12);
}

/// A track that leaves the media does so through a change that has an effect and
/// changes the media.
pub proof fn removals_change_the_media(change: SubtitleChange)
    ensures
        change.removed() ==> change.effective() && change.remuxes(),
        change.remuxes() ==> change.effective(),
        change.reads_images() ==> change.effective(),
{
}

/// Whether a code is what the table gives for another: the entry of the first that matches,
/// or the code itself where none does.
pub open spec fn is_code_for(languages: Languages, code: Seq<char>, result: Seq<char>) -> bool {
    &&& (forall|i: int| 0 <= i < languages.codes@.len() ==> (#[trigger] languages.codes@[i]).0@ != code)
        ==> result == code
    &&& forall|i: int|
        0 <= i < languages.codes@.len() && (#[trigger] languages.codes@[i]).0@ == code && (forall|
            k: int,
        |
            0 <= k < i ==> (#[trigger] languages.codes@[k]).0@ != code) ==> result
            == languages.codes@[i].1@
}

proof fn lemma_canonical(codes: Seq<(String, String)>, code: Seq<char>)
    ensures
        Languages::canonical(codes, code) is None ==> forall|i: int|
            0 <= i < codes.len() ==> (#[trigger] codes[i]).0@ != code,
        forall|i: int|
            0 <= i < codes.len() && (#[trigger] codes[i]).0@ == code && (forall|k: int|
                0 <= k < i ==> (#[trigger] codes[k]).0@ != code) ==> Languages::canonical(
                codes,
                code,
            ) == Some(codes[i].1@),
        (forall|i: int| 0 <= i < codes.len() ==> (#[trigger] codes[i]).0@ != code)
            ==> Languages::canonical(codes, code) is None,
    decreases codes.len(),
{
    if codes.len() > 0 {
        let rest = codes.skip(1);
        lemma_canonical(rest, code);
        assert(forall|i: int| 0 <= i < rest.len() ==> #[trigger] rest[i] == codes[i + 1]);
        assert forall|i: int| 1 <= i < codes.len() implies #[trigger] codes[i] == rest[i - 1] by {}
        assert forall|i: int|
            0 <= i < codes.len() && (#[trigger] codes[i]).0@ == code && (forall|k: int|
                0 <= k < i ==> (#[trigger] codes[k]).0@ != code) implies Languages::canonical(
            codes,
            code,
        ) == Some(codes[i].1@) by {
            if i > 0 {
                assert(codes[0].0@ != code);
                assert(rest[i - 1] == codes[i]);
                assert forall|k: int| 0 <= k < i - 1 implies (#[trigger] rest[k]).0@ != code by {
                    assert(codes[k + 1].0@ != code);
                }
            }
        }
    }
}

/// Whether metadata is what a change leaves of what there was: everything that was staged,
/// or else everything there was, with the language under the code that is used for it.
pub open spec fn left_by(
    languages: Languages,
    change: SubtitleChange,
    had: SubtitleTags,
    result: SubtitleTags,
) -> bool {
    match change.metadata {
        Some(staged) => {
            &&& is_code_for(languages, staged.language@, result.language)
            &&& result.title == opt_text(staged.title)
            &&& result.forced == staged.forced
            &&& result.cc == staged.cc
            &&& result.hearing_impaired == staged.hearing_impaired
            &&& result.original == staged.original
            &&& result.commentary == staged.commentary
        },
        None => {
            &&& is_code_for(languages, had.language, result.language)
            &&& result.title == had.title
            &&& result.forced == had.forced
            &&& result.cc == had.cc
            &&& result.hearing_impaired == had.hearing_impaired
            &&& result.original == had.original
            &&& result.commentary == had.commentary
        },
    }
}

/// What is staged replaces what there was.
pub proof fn staged_metadata_wins(languages: Languages, change: SubtitleChange, had: SubtitleTags)
    ensures
        left_by(languages, change, had, effective_tags(languages, change, had)),
{
    let chosen = match change.metadata {
        Some(metadata) => metadata@,
        None => had,
    };
    lemma_canonical(languages.codes@, chosen.language);
}

/// A sidecar says its language and its two flags, and nothing else.
pub proof fn sidecars_say_their_flags(sidecar: SidecarEntry)
    ensures
        sidecar.tags().language == sidecar.language@,
        sidecar.tags().forced == sidecar.forced,
        sidecar.tags().hearing_impaired == sidecar.hearing_impaired,
        sidecar.tags().title is None,
        !sidecar.tags().cc && !sidecar.tags().original && !sidecar.tags().commentary,
        sidecar.files()[0] == sidecar.path@,
        sidecar.companion is None ==> sidecar.files().len() == 1,
        sidecar.companion is Some ==> sidecar.files().len() == 2 && sidecar.files()[1]
            == sidecar.companion->0@,
{
}

/// What each format is called: by `ffprobe`, as a file, and by the converter of pictures.
pub proof fn formats_have_their_names()
    ensures
        SubtitleFormat::SubRip.codec_text() == "subrip"@,
        SubtitleFormat::Ass.codec_text() == "ass"@,
        SubtitleFormat::MovText.codec_text() == "mov_text"@,
        SubtitleFormat::Pgs.codec_text() == "hdmv_pgs_subtitle"@,
        SubtitleFormat::VobSub.codec_text() == "dvd_subtitle"@,
        SubtitleFormat::SubRip.extension_text() == "srt"@,
        SubtitleFormat::Ass.extension_text() == "ass"@,
        SubtitleFormat::MovText.extension_text() == "mp4"@,
        SubtitleFormat::Pgs.extension_text() == "sup"@,
        SubtitleFormat::VobSub.extension_text() == "sub"@,
        SubtitleFormat::SubRip.encoder_text() == Some("subrip"@),
        SubtitleFormat::Ass.encoder_text() == Some("ass"@),
        SubtitleFormat::MovText.encoder_text() == Some("mov_text"@),
        SubtitleFormat::Pgs.encoder_text() is None,
        SubtitleFormat::VobSub.encoder_text() is None,
        SubtitleFormat::SubRip.converter_text() == "subrip"@,
        SubtitleFormat::Ass.converter_text() == "ass"@,
        SubtitleFormat::MovText.converter_text() == "subrip"@,
        SubtitleFormat::Pgs.converter_text() == "bluraysup"@,
        SubtitleFormat::VobSub.converter_text() == "vobsub"@,
        forall|format: SubtitleFormat| #[trigger]
            format.image() <==> (format == SubtitleFormat::Pgs || format == SubtitleFormat::VobSub),
        SubtitleFormat::SubRip.short_text() == "SRT"@,
        SubtitleFormat::Ass.short_text() == "ASS"@,
        SubtitleFormat::MovText.short_text() == "MOV Text"@,
        SubtitleFormat::Pgs.short_text() == "PGS"@,
        SubtitleFormat::VobSub.short_text() == "VobSub"@,
        SubtitleFormat::SubRip.label_text() == "SubRip / SRT"@,
{
}

/// The name of a sidecar: the media's, the language, what it is for, its number, and its
/// format, with a dot before each.
pub proof fn sidecars_are_named_after_the_media(
    stem: Seq<char>,
    language: Seq<char>,
    number: u32,
    format: SubtitleFormat,
)
    ensures
        sidecar_name(stem, language, false, false, None, format) == stem + "."@ + language + "."@
            + format.extension_text(),
        sidecar_name(stem, language, true, false, None, format) == stem + "."@ + language
            + ".forced."@ + format.extension_text(),
        sidecar_name(stem, language, false, true, None, format) == stem + "."@ + language + ".sdh."@
            + format.extension_text(),
        sidecar_name(stem, language, true, true, None, format) == stem + "."@ + language
            + ".forced.sdh."@ + format.extension_text(),
        sidecar_name(stem, language, false, false, Some(number), format) == stem + "."@ + language
            + "."@ + decimal(number as nat) + "."@ + format.extension_text(),
        sidecar_name(stem, language, true, false, Some(number), format) == stem + "."@ + language
            + ".forced."@ + decimal(number as nat) + "."@ + format.extension_text(),
        sidecar_name(stem, language, false, true, Some(number), format) == stem + "."@ + language
            + ".sdh."@ + decimal(number as nat) + "."@ + format.extension_text(),
        sidecar_name(stem, language, true, true, Some(number), format) == stem + "."@ + language
            + ".forced.sdh."@ + decimal(number as nat) + "."@ + format.extension_text(),
{
    reveal_strlit("");
    reveal_strlit(".");
    reveal_strlit(".forced");
    reveal_strlit(".sdh");
    reveal_strlit(".forced.");
    reveal_strlit(".sdh.");
    reveal_strlit(".forced.sdh.");
    let end = format.extension_text();
    let before = stem + "."@ + language;
    let digits = decimal(number as nat);
    assert(".forced."@ =~= ".forced"@ + "."@);
    assert(".sdh."@ =~= ".sdh"@ + "."@);
    assert(".forced.sdh."@ =~= ".forced"@ + ".sdh"@ + "."@);
    assert(sidecar_name(stem, language, false, false, None, format) =~= before + "."@ + end);
    assert(sidecar_name(stem, language, true, false, None, format) =~= before + ".forced."@ + end);
    assert(sidecar_name(stem, language, false, true, None, format) =~= before + ".sdh."@ + end);
    assert(sidecar_name(stem, language, true, true, None, format) =~= before + ".forced.sdh."@
        + end);
    assert(sidecar_name(stem, language, false, false, Some(number), format) =~= before + "."@
        + digits + "."@ + end);
    assert(sidecar_name(stem, language, true, false, Some(number), format) =~= before + ".forced."@
        + digits + "."@ + end);
    assert(sidecar_name(stem, language, false, true, Some(number), format) =~= before + ".sdh."@
        + digits + "."@ + end);
    assert(sidecar_name(stem, language, true, true, Some(number), format) =~= before
        + ".forced.sdh."@ + digits + "."@ + end);
}

/// A change counts where it edits cues, converts, exports, imports or stages metadata. It
/// takes the track out of the media where it exports an embedded one. The media is written
/// anew for any change of an embedded track, and for an import.
pub proof fn changes_have_their_effects(change: SubtitleChange)
    ensures
        !change.effective() <==> change.cue_edits@.len() == 0 && change.embedded_target is None
            && change.export_target is None && !change.import_into_media && change.metadata is None,
        change.source is Embedded && change.export_target is Some <==> change.removed(),
        change.source is Embedded ==> change.remuxes() == change.effective(),
        change.source is Sidecar ==> change.remuxes() == change.import_into_media,
        change.reads_images() <==> (change.source_format == SubtitleFormat::Pgs
            || change.source_format == SubtitleFormat::VobSub) && exists|target: SubtitleFormat|
            (change.embedded_target == Some(target) || change.export_target == Some(target))
                && !(#[trigger] target.image()),
{
    if change.embedded_target is Some {
        assert(change.embedded_target->0.image() || !change.embedded_target->0.image());
    }
    if change.export_target is Some {
        assert(change.export_target->0.image() || !change.export_target->0.image());
    }
}

/// The change of a source is the first of it; a sidecar is found by its file.
pub proof fn changes_and_sidecars_are_found(
    changes: Seq<SubtitleChange>,
    source: SourceModel,
    sidecars: Seq<SidecarEntry>,
    place: Place,
)
    ensures
        match change_of(changes, source) {
            Some(change) => exists|i: int|
                0 <= i < changes.len() && #[trigger] changes[i] == change && change.source@
                    == source && forall|k: int|
                    0 <= k < i ==> (#[trigger] changes[k]).source@ != source,
            None => forall|i: int|
                0 <= i < changes.len() ==> (#[trigger] changes[i]).source@ != source,
        },
        match sidecar_at(sidecars, place) {
            Some(position) => 0 <= position < sidecars.len() && sidecars[position].path@.place()
                == place && forall|k: int|
                0 <= k < position ==> (#[trigger] sidecars[k]).path@.place() != place,
            None => forall|i: int|
                0 <= i < sidecars.len() ==> (#[trigger] sidecars[i]).path@.place() != place,
        },
    decreases changes.len() + sidecars.len(),
{
    if changes.len() > 0 {
        let rest = changes.skip(1);
        changes_and_sidecars_are_found(rest, source, Seq::empty(), place);
        assert forall|i: int| 1 <= i < changes.len() implies #[trigger] changes[i] == rest[i - 1] by {}
        if changes[0].source@ == source {
            assert(changes[0] == change_of(changes, source)->0);
        } else if change_of(rest, source) is Some {
            let i = choose|i: int|
                0 <= i < rest.len() && #[trigger] rest[i] == change_of(rest, source)->0
                    && forall|k: int| 0 <= k < i ==> (#[trigger] rest[k]).source@ != source;
            assert(changes[i + 1] == rest[i]);
            assert forall|k: int| 0 <= k < i + 1 implies (#[trigger] changes[k]).source@
                != source by {
                if k > 0 {
                    assert(rest[k - 1].source@ != source);
                }
            }
        }
    }
    if sidecars.len() > 0 {
        let rest = sidecars.skip(1);
        changes_and_sidecars_are_found(Seq::empty(), source, rest, place);
        assert forall|i: int| 1 <= i < sidecars.len() implies #[trigger] sidecars[i] == rest[i
            - 1] by {}
    }
}

/// What each flag is called, and which role of a track it is.
pub proof fn flags_have_their_names(tags: SubtitleTags)
    ensures
        SubtitleFlag::Forced.label_text() == "Forced"@,
        SubtitleFlag::Cc.label_text() == "CC"@,
        SubtitleFlag::HearingImpaired.label_text() == "Hearing impaired"@,
        SubtitleFlag::Original.label_text() == "Original"@,
        SubtitleFlag::Commentary.label_text() == "Commentary"@,
        tags.flag(SubtitleFlag::Forced) == tags.forced,
        tags.flag(SubtitleFlag::Cc) == tags.cc,
        tags.flag(SubtitleFlag::HearingImpaired) == tags.hearing_impaired,
        tags.flag(SubtitleFlag::Original) == tags.original,
        tags.flag(SubtitleFlag::Commentary) == tags.commentary,
        SubtitleFormat::Ass.label_text() == "ASS"@,
        SubtitleFormat::MovText.label_text() == "MOV Text"@,
        SubtitleFormat::Pgs.label_text() == "PGS"@,
        SubtitleFormat::VobSub.label_text() == "VobSub"@,
{
}

/// A track leaves the media where one of its changes exports it, and no other does; a
/// language can be chosen where it is offered.
pub proof fn exported_tracks_leave_the_media(
    changes: Seq<SubtitleChange>,
    index: u64,
    languages: Languages,
    code: Seq<char>,
)
    ensures
        leaves_media(changes, index) <==> exists|i: int|
            0 <= i < changes.len() && (#[trigger] changes[i]).source == SubtitleSource::Embedded(
                index,
            ) && changes[i].export_target is Some,
        languages.offers(code) <==> exists|i: int|
            0 <= i < languages.choices@.len() && (#[trigger] languages.choices@[i])@ == code,
{
    let choices = crate::text::texts(languages.choices@);
    assert forall|i: int| 0 <= i < choices.len() implies #[trigger] choices[i]
        == languages.choices@[i]@ by {}
    if exists|i: int|
        0 <= i < languages.choices@.len() && (#[trigger] languages.choices@[i])@ == code {
        let i = choose|i: int|
            0 <= i < languages.choices@.len() && (#[trigger] languages.choices@[i])@ == code;
        assert(choices[i] == code);
    }
    if languages.offers(code) {
        let i = choices.index_of(code);
        assert(languages.choices@[i]@ == code);
    }
    if leaves_media(changes, index) {
        let i = choose|i: int|
            0 <= i < changes.len() && (#[trigger] changes[i]).source@ == SourceModel::Embedded(
                index,
            ) && changes[i].removed();
        assert(changes[i].source == SubtitleSource::Embedded(index));
    }
    if exists|i: int|
        0 <= i < changes.len() && (#[trigger] changes[i]).source == SubtitleSource::Embedded(index)
            && changes[i].export_target is Some {
        let i = choose|i: int|
            0 <= i < changes.len() && (#[trigger] changes[i]).source == SubtitleSource::Embedded(
                index,
            ) && changes[i].export_target is Some;
        assert(changes[i].source@ == SourceModel::Embedded(index) && changes[i].removed());
    }
}

} // verus!
