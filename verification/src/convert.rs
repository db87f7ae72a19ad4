//! The steps that turn one subtitle into another.

use vstd::prelude::*;
use vstd::string::StringExecFns;

use crate::command::{arguments, numbered, push_path, push_text, text_arg, Arg, Argument};
use crate::path::{
    name_of, siblings_share_a_directory, FileName, FilePath, NameModel, Part, PathModel, PathText,
};
use crate::probe::{codec_of, is_kind, stream_codec, stream_is, MediaInfo, Stream};
use crate::progress::{language_for_ocr, ocr_language, EditPhase, Phase};
use crate::sources::{EditError, ErrorModel};
use crate::subtitle::{SubtitleChange, SubtitleFormat};
use crate::text::{decimal, number_text, numbers_read_back, same_optional_text};

verus! {

/// A program that a step runs.
#[derive(Clone, Copy, Debug, Eq, PartialEq, Structural)]
pub enum Tool {
    Ffmpeg,
    Seconv,
}

/// One step of preparing subtitles.
#[derive(Debug, Eq, PartialEq)]
pub enum Step {
    /// Stop here if the edit was cancelled.
    CheckCancelled,
    /// Say what comes next.
    Report(EditPhase),
    /// Run a program; `heading` begins the message where it fails.
    Run { tool: Tool, list: Vec<Argument>, heading: &'static str },
    /// Copy a file; `context` begins the message where that fails.
    CopyFile { from: FilePath, to: FilePath, phase: EditPhase, context: &'static str },
    /// Write a subtitle with the cue edits of the change at a position.
    RewriteCues { change: usize, from: FilePath, to: FilePath },
    /// Check that a file is one subtitle of a format.
    Validate { path: FilePath, target: SubtitleFormat },
    /// Fail unless the companion of a two-file subtitle is there.
    RequireCompanion(FilePath),
    /// Fail.
    Fail(EditError),
}

/// What a [`Step`] asks for.
pub ghost enum StepView {
    CheckCancelled,
    Report(Phase),
    Run { tool: Tool, list: Seq<Arg>, heading: Seq<char> },
    CopyFile { from: PathModel, to: PathModel, phase: Phase, context: Seq<char> },
    RewriteCues { change: int, from: PathModel, to: PathModel },
    Validate { path: PathModel, target: SubtitleFormat },
    RequireCompanion(PathModel),
    Fail(ErrorModel),
}

impl View for Step {
    type V = StepView;

    open spec fn view(&self) -> StepView {
        match self {
            Step::CheckCancelled => StepView::CheckCancelled,
            Step::Report(phase) => StepView::Report(phase@),
            Step::Run { tool, list, heading } => StepView::Run {
                tool: *tool,
                list: arguments(list@),
                heading: heading@,
            },
            Step::CopyFile { from, to, phase, context } => StepView::CopyFile {
                from: from@,
                to: to@,
                phase: phase@,
                context: context@,
            },
            Step::RewriteCues { change, from, to } => StepView::RewriteCues {
                change: *change as int,
                from: from@,
                to: to@,
            },
            Step::Validate { path, target } => StepView::Validate { path: path@, target: *target },
            Step::RequireCompanion(path) => StepView::RequireCompanion(path@),
            Step::Fail(error) => StepView::Fail(error@),
        }
    }
}

/// What a list of steps asks for.
pub open spec fn steps(list: Seq<Step>) -> Seq<StepView> {
    list.map_values(|step: Step| step@)
}

pub fn push_step(list: &mut Vec<Step>, step: Step)
    ensures
        steps(final(list)@) == steps(old(list)@).push(step@),
{
    let ghost before = list@;
    list.push(step);
    assert(steps(list@) =~= steps(before).push(step@));
}

/// What a conversion reads: a track of the media, or a file.
#[derive(Clone, Copy)]
pub enum ConversionInput<'a> {
    Embedded { media: &'a FilePath, index: u64 },
    File(&'a FilePath),
}

/// What a [`ConversionInput`] names.
pub ghost enum InputModel {
    Embedded { media: PathModel, index: u64 },
    File(PathModel),
}

impl<'a> View for ConversionInput<'a> {
    type V = InputModel;

    open spec fn view(&self) -> InputModel {
        match self {
            ConversionInput::Embedded { media, index } => InputModel::Embedded {
                media: media@,
                index: *index,
            },
            ConversionInput::File(path) => InputModel::File(path@),
        }
    }
}

/// How every conversion by ffmpeg begins.
pub open spec fn ffmpeg_head(input: PathModel) -> Seq<Arg> {
    seq![
        text_arg("-v"@),
        text_arg("error"@),
        text_arg("-nostdin"@),
        text_arg("-y"@),
        text_arg("-i"@),
        Arg::Path(input),
    ]
}

fn push_ffmpeg_head(list: &mut Vec<Argument>, input: &FilePath)
    ensures
        arguments(final(list)@) == arguments(old(list)@) + ffmpeg_head(input@),
{
    let ghost before = arguments(list@);
    push_text(list, "-v");
    push_text(list, "error");
    push_text(list, "-nostdin");
    push_text(list, "-y");
    push_text(list, "-i");
    push_path(list, input);
    assert(arguments(list@) =~= before + ffmpeg_head(input@));
}

fn track_map(index: u64) -> (result: String)
    ensures
        result@ == numbered("0:"@, index as nat),
{
    let mut text = "0:".to_owned();
    text.append(number_text(index).as_str());
    text
}

/// The steps that copy a subtitle file, with its companion if it has one.
pub open spec fn copy_steps(
    source: PathModel,
    destination: PathModel,
    format: SubtitleFormat,
    subject: Seq<char>,
) -> Seq<StepView> {
    let first = StepView::CopyFile {
        from: source,
        to: destination,
        phase: Phase::CopySubtitle(subject),
        context: "Could not stage subtitle export"@,
    };
    if format == SubtitleFormat::VobSub {
        seq![
            first,
            StepView::CopyFile {
                from: source.with_extension("idx"@),
                to: destination.with_extension("idx"@),
                phase: Phase::CopySubtitle(subject),
                context: "Could not stage the VobSub .idx companion"@,
            },
        ]
    } else {
        seq![first]
    }
}

pub fn copy_subtitle_artifact(
    list: &mut Vec<Step>,
    source: &FilePath,
    destination: &FilePath,
    format: SubtitleFormat,
    subject: &str,
)
    ensures
        steps(final(list)@) == steps(old(list)@) + copy_steps(
            source@,
            destination@,
            format,
            subject@,
        ),
{
    let ghost before = steps(list@);
    push_step(
        list,
        Step::CopyFile {
            from: source.clone(),
            to: destination.clone(),
            phase: EditPhase::CopySubtitle(subject.to_owned()),
            context: "Could not stage subtitle export",
        },
    );
    if format == SubtitleFormat::VobSub {
        push_step(
            list,
            Step::CopyFile {
                from: source.with_extension("idx"),
                to: destination.with_extension("idx"),
                phase: EditPhase::CopySubtitle(subject.to_owned()),
                context: "Could not stage the VobSub .idx companion",
            },
        );
    }
    assert(steps(list@) =~= before + copy_steps(source@, destination@, format, subject@));
}

/// The steps that take a subtitle out as it is: a copy of a file, or a track of the media
/// written to a file.
pub open spec fn extract_steps(
    input: InputModel,
    output: PathModel,
    format: SubtitleFormat,
    subject: Seq<char>,
) -> Seq<StepView> {
    match input {
        InputModel::File(path) => copy_steps(path, output, format, subject),
        InputModel::Embedded { media, index } => seq![
            StepView::Report(Phase::ExtractSubtitle(subject)),
            StepView::Run {
                tool: Tool::Ffmpeg,
                list: ffmpeg_head(media) + seq![
                    text_arg("-map"@),
                    text_arg(numbered("0:"@, index as nat)),
                    text_arg("-c:s"@),
                    text_arg("copy"@),
                    Arg::Path(output),
                ],
                heading: "Subtitle export failed"@,
            },
        ],
    }
}

pub fn extract_subtitle(
    list: &mut Vec<Step>,
    input: ConversionInput<'_>,
    output: &FilePath,
    format: SubtitleFormat,
    subject: &str,
)
    ensures
        steps(final(list)@) == steps(old(list)@) + extract_steps(
            input@,
            output@,
            format,
            subject@,
        ),
{
    let ghost before = steps(list@);
    match input {
        ConversionInput::File(path) => {
            copy_subtitle_artifact(list, path, output, format, subject);
        },
        ConversionInput::Embedded { media, index } => {
            push_step(list, Step::Report(EditPhase::ExtractSubtitle(subject.to_owned())));
            let mut command: Vec<Argument> = Vec::new();
            push_ffmpeg_head(&mut command, media);
            push_text(&mut command, "-map");
            push_text(&mut command, track_map(index).as_str());
            push_text(&mut command, "-c:s");
            push_text(&mut command, "copy");
            push_path(&mut command, output);
            assert(arguments(command@) =~= ffmpeg_head(media@) + seq![
                text_arg("-map"@),
                text_arg(numbered("0:"@, index as nat)),
                text_arg("-c:s"@),
                text_arg("copy"@),
                Arg::Path(output@),
            ]);
            push_step(
                list,
                Step::Run {
                    tool: Tool::Ffmpeg,
                    list: command,
                    heading: "Subtitle export failed",
                },
            );
            assert(steps(list@) =~= before + extract_steps(input@, output@, format, subject@));
        },
    }
}

/// The file that a track is taken out to before pictures are converted.
pub open spec fn extracted_path(output: PathModel) -> PathModel {
    output.sibling(
        (match output.name_text() {
            Some(name) => name,
            None => "subtitle"@,
        }) + ".source.mks"@,
    )
}

/// The steps that take a track out for the picture converter.
pub open spec fn extract_for_conversion(
    media: PathModel,
    index: u64,
    output: PathModel,
    subject: Seq<char>,
) -> Seq<StepView> {
    seq![
        StepView::Report(Phase::ExtractSubtitle(subject)),
        StepView::Run {
            tool: Tool::Ffmpeg,
            list: ffmpeg_head(media) + seq![
                text_arg("-map"@),
                text_arg(numbered("0:"@, index as nat)),
                text_arg("-c"@),
                text_arg("copy"@),
                text_arg("-f"@),
                text_arg("matroska"@),
                Arg::Path(extracted_path(output)),
            ],
            heading: "Could not extract subtitle for conversion"@,
        },
    ]
}

/// The arguments of the picture converter.
pub open spec fn seconv_args(
    input: PathModel,
    change_language: Seq<char>,
    reads: bool,
    target: SubtitleFormat,
    directory: Seq<char>,
    name: Seq<char>,
    resolution: (u64, u64),
) -> Seq<Arg> {
    seq![
        Arg::Path(input),
        text_arg(target.converter_text()),
        text_arg("--output-folder:"@ + directory),
        text_arg("--output-filename:"@ + name),
        text_arg("--overwrite"@),
    ] + (if reads {
        seq![
            text_arg("--ocr-engine:tesseract"@),
            text_arg("--ocr-language:"@ + change_language),
        ]
    } else {
        Seq::empty()
    }) + (if target.image() {
        seq![
            text_arg(
                "--resolution:"@ + decimal(resolution.0 as nat) + "x"@ + decimal(
                    resolution.1 as nat,
                ),
            ),
        ]
    } else {
        Seq::empty()
    })
}

/// What a conversion reports before the tool runs.
pub open spec fn conversion_phase(
    subject: Seq<char>,
    change: SubtitleChange,
    target: SubtitleFormat,
    reads: bool,
) -> Phase {
    if reads {
        Phase::OcrSubtitle {
            subject,
            target: target.short_text(),
            language: ocr_language(change),
        }
    } else {
        Phase::ConvertSubtitle { subject, target: target.short_text() }
    }
}

/// The steps of a conversion by the picture converter.
pub open spec fn picture_steps(
    input: InputModel,
    change: SubtitleChange,
    source_format: SubtitleFormat,
    target: SubtitleFormat,
    output: PathModel,
    resolution: (u64, u64),
    subject: Seq<char>,
) -> Seq<StepView> {
    let reads = source_format.image() && !target.image();
    let (first, path) = match input {
        InputModel::Embedded { media, index } => (
            extract_for_conversion(media, index, output, subject),
            extracted_path(output),
        ),
        InputModel::File(path) => (Seq::empty(), path),
    };
    first + seconv_steps(path, change, reads, target, output, resolution, subject)
}

/// The steps of a conversion by seconv, which is told the name of its output as text.
pub open spec fn seconv_steps(
    path: PathModel,
    change: SubtitleChange,
    reads: bool,
    target: SubtitleFormat,
    output: PathModel,
    resolution: (u64, u64),
    subject: Seq<char>,
) -> Seq<StepView> {
    match output.name_text() {
        Some(name) => seq![
            StepView::Report(conversion_phase(subject, change, target, reads)),
            StepView::Run {
                tool: Tool::Seconv,
                list: seconv_args(
                    path,
                    ocr_language(change),
                    reads,
                    target,
                    output.directory->0.shown(),
                    name,
                    resolution,
                ),
                heading: "Subtitle conversion failed"@,
            },
        ],
        None => seq![
            StepView::Fail(ErrorModel::Failed("Subtitle output name is not valid UTF-8."@)),
        ],
    }
}

/// The steps of a conversion of text by ffmpeg.
pub open spec fn text_steps(
    input: InputModel,
    target: SubtitleFormat,
    output: PathModel,
    subject: Seq<char>,
) -> Seq<StepView> {
    let (path, map) = match input {
        InputModel::Embedded { media, index } => (media, numbered("0:"@, index as nat)),
        InputModel::File(path) => (path, "0:0"@),
    };
    seq![
        StepView::Report(
            Phase::ConvertSubtitle { subject, target: target.short_text() },
        ),
        StepView::Run {
            tool: Tool::Ffmpeg,
            list: ffmpeg_head(path) + seq![
                text_arg("-map"@),
                text_arg(map),
                text_arg("-c:s"@),
                text_arg(target.encoder_text()->0),
                Arg::Path(output),
            ],
            heading: "Subtitle conversion failed"@,
        },
    ]
}

/// Whether a conversion only moves the subtitle. A two-file track of the media is not
/// written as it is.
pub open spec fn only_moves(
    input: InputModel,
    source_format: SubtitleFormat,
    target: SubtitleFormat,
) -> bool {
    source_format == target && !(input is Embedded && target == SubtitleFormat::VobSub)
}

/// The steps of one conversion, without going through another format.
pub open spec fn direct_steps(
    input: InputModel,
    change: SubtitleChange,
    source_format: SubtitleFormat,
    target: SubtitleFormat,
    output: PathModel,
    resolution: (u64, u64),
    subject: Seq<char>,
) -> Seq<StepView> {
    seq![StepView::CheckCancelled] + (if only_moves(input, source_format, target) {
        seq![
            StepView::Report(
                match input {
                    InputModel::Embedded { .. } => Phase::ExtractSubtitle(subject),
                    InputModel::File(_) => Phase::CopySubtitle(subject),
                },
            ),
        ] + extract_steps(input, output, target, subject)
    } else if source_format.image() || target.image() {
        picture_steps(input, change, source_format, target, output, resolution, subject)
    } else {
        text_steps(input, target, output, subject)
    })
}

/// The file between pictures and the text that a container holds: the output with another
/// extension.
pub open spec fn intermediate_path(output: PathModel) -> PathModel {
    match output.name {
        Some(name) => PathModel {
            name: Some(
                match name.stem {
                    Part::Text(stem) => name_of(stem + ".ocr.srt"@),
                    Part::Raw(bytes) => NameModel {
                        stem: Part::Raw(bytes).and_text(".ocr"@),
                        extension: Some(Part::Text("srt"@)),
                    },
                },
            ),
            tail: Seq::empty(),
            ..output
        },
        None => output,
    }
}

fn intermediate(output: &FilePath) -> (result: FilePath)
    ensures
        result@ == intermediate_path(output@),
{
    let mut result = output.clone();
    if let Some(name) = &output.name {
        result.name = Some(
            match &name.stem {
                PathText::Text(stem) => {
                    let mut name = stem.as_str().to_owned();
                    name.append(".ocr.srt");
                    FileName::of(name.as_str())
                },
                PathText::Raw(_) => {
                    let mut stem = name.stem.clone();
                    stem.push_text(".ocr");
                    FileName { stem, extension: Some(PathText::Text("srt".to_owned())) }
                },
            },
        );
        result.tail = String::new();
    }
    result
}

/// The steps of a conversion. Pictures become the text that MP4 and MOV hold by way of
/// SubRip.
pub open spec fn convert_steps(
    input: InputModel,
    change: SubtitleChange,
    target: SubtitleFormat,
    output: PathModel,
    resolution: (u64, u64),
    subject: Seq<char>,
) -> Seq<StepView> {
    if change.source_format.image() && target == SubtitleFormat::MovText {
        seq![StepView::CheckCancelled] + direct_steps(
            input,
            change,
            change.source_format,
            SubtitleFormat::SubRip,
            intermediate_path(output),
            resolution,
            subject,
        ) + direct_steps(
            InputModel::File(intermediate_path(output)),
            change,
            SubtitleFormat::SubRip,
            SubtitleFormat::MovText,
            output,
            resolution,
            subject,
        )
    } else {
        direct_steps(input, change, change.source_format, target, output, resolution, subject)
    }
}

/// Whether a conversion goes through seconv, which is told the directory of its output.
pub open spec fn converts_pictures(
    input: InputModel,
    source_format: SubtitleFormat,
    target: SubtitleFormat,
) -> bool {
    !only_moves(input, source_format, target) && (source_format.image() || target.image())
}

fn push_seconv(
    list: &mut Vec<Step>,
    path: &FilePath,
    change: &SubtitleChange,
    source_format: SubtitleFormat,
    target: SubtitleFormat,
    output: &FilePath,
    resolution: (u64, u64),
    subject: &str,
)
    requires
        output@.directory is Some,
    ensures
        steps(final(list)@) == steps(old(list)@) + seconv_steps(
            path@,
            *change,
            source_format.image() && !target.image(),
            target,
            output@,
            resolution,
            subject@,
        ),
{
    let ghost before = steps(list@);
    let reads: bool = source_format.is_image() && target.is_text();
    let directory = match &output.directory {
        Some(directory) => directory.shown(),
        None => "".to_owned(),
    };
    let name = match output.name_text() {
        Some(name) => name,
        None => {
            push_step(
                list,
                Step::Fail(
                    EditError::Failed("Subtitle output name is not valid UTF-8.".to_owned()),
                ),
            );
            return ;
        },
    };
    let mut command: Vec<Argument> = Vec::new();
    push_path(&mut command, path);
    push_text(&mut command, target.seconv_name());
    let mut folder = "--output-folder:".to_owned();
    folder.append(directory.as_str());
    push_text(&mut command, folder.as_str());
    let mut filename = "--output-filename:".to_owned();
    filename.append(name.as_str());
    push_text(&mut command, filename.as_str());
    push_text(&mut command, "--overwrite");
    if reads {
        push_text(&mut command, "--ocr-engine:tesseract");
        let mut language = "--ocr-language:".to_owned();
        language.append(language_for_ocr(change));
        push_text(&mut command, language.as_str());
        push_step(
            list,
            Step::Report(
                EditPhase::OcrSubtitle {
                    subject: subject.to_owned(),
                    target: target.overview_label().to_owned(),
                    language: language_for_ocr(change).to_owned(),
                },
            ),
        );
    } else {
        push_step(
            list,
            Step::Report(
                EditPhase::ConvertSubtitle {
                    subject: subject.to_owned(),
                    target: target.overview_label().to_owned(),
                },
            ),
        );
    }
    if target.is_image() {
        let mut size = "--resolution:".to_owned();
        size.append(number_text(resolution.0).as_str());
        size.append("x");
        size.append(number_text(resolution.1).as_str());
        push_text(&mut command, size.as_str());
    }
    assert(arguments(command@) =~= seconv_args(
        path@,
        ocr_language(*change),
        reads,
        target,
        output@.directory->0.shown(),
        output@.name_text()->0,
        resolution,
    ));
    push_step(
        list,
        Step::Run { tool: Tool::Seconv, list: command, heading: "Subtitle conversion failed" },
    );
    assert(steps(list@) =~= before + seconv_steps(
        path@,
        *change,
        source_format.image() && !target.image(),
        target,
        output@,
        resolution,
        subject@,
    ));
}

fn push_picture_steps(
    list: &mut Vec<Step>,
    input: ConversionInput<'_>,
    change: &SubtitleChange,
    source_format: SubtitleFormat,
    target: SubtitleFormat,
    output: &FilePath,
    resolution: (u64, u64),
    subject: &str,
)
    requires
        output@.directory is Some,
    ensures
        steps(final(list)@) == steps(old(list)@) + picture_steps(
            input@,
            *change,
            source_format,
            target,
            output@,
            resolution,
            subject@,
        ),
{
    let ghost before = steps(list@);
    match input {
        ConversionInput::Embedded { media, index } => {
            push_step(list, Step::Report(EditPhase::ExtractSubtitle(subject.to_owned())));
            let mut name = match output.name_text() {
                Some(name) => name,
                None => "subtitle".to_owned(),
            };
            name.append(".source.mks");
            let extracted = output.sibling(name.as_str());
            let mut command: Vec<Argument> = Vec::new();
            push_ffmpeg_head(&mut command, media);
            push_text(&mut command, "-map");
            push_text(&mut command, track_map(index).as_str());
            push_text(&mut command, "-c");
            push_text(&mut command, "copy");
            push_text(&mut command, "-f");
            push_text(&mut command, "matroska");
            push_path(&mut command, &extracted);
            assert(arguments(command@) =~= ffmpeg_head(media@) + seq![
                text_arg("-map"@),
                text_arg(numbered("0:"@, index as nat)),
                text_arg("-c"@),
                text_arg("copy"@),
                text_arg("-f"@),
                text_arg("matroska"@),
                Arg::Path(extracted_path(output@)),
            ]);
            push_step(
                list,
                Step::Run {
                    tool: Tool::Ffmpeg,
                    list: command,
                    heading: "Could not extract subtitle for conversion",
                },
            );
            assert(steps(list@) =~= before + extract_for_conversion(
                media@,
                index,
                output@,
                subject@,
            ));
            push_seconv(
                list,
                &extracted,
                change,
                source_format,
                target,
                output,
                resolution,
                subject,
            );
        },
        ConversionInput::File(path) => {
            push_seconv(list, path, change, source_format, target, output, resolution, subject);
        },
    }
    assert(steps(list@) =~= before + picture_steps(
        input@,
        *change,
        source_format,
        target,
        output@,
        resolution,
        subject@,
    ));
}

fn push_text_steps(
    list: &mut Vec<Step>,
    input: ConversionInput<'_>,
    target: SubtitleFormat,
    output: &FilePath,
    subject: &str,
)
    requires
        !target.image(),
    ensures
        steps(final(list)@) == steps(old(list)@) + text_steps(input@, target, output@, subject@),
{
    let ghost before = steps(list@);
    push_step(
        list,
        Step::Report(
            EditPhase::ConvertSubtitle {
                subject: subject.to_owned(),
                target: target.overview_label().to_owned(),
            },
        ),
    );
    let mut command: Vec<Argument> = Vec::new();
    match input {
        ConversionInput::Embedded { media, index } => {
            push_ffmpeg_head(&mut command, media);
            push_text(&mut command, "-map");
            push_text(&mut command, track_map(index).as_str());
        },
        ConversionInput::File(path) => {
            push_ffmpeg_head(&mut command, path);
            push_text(&mut command, "-map");
            push_text(&mut command, "0:0");
        },
    }
    push_text(&mut command, "-c:s");
    push_text(&mut command, target.ffmpeg_encoder().unwrap());
    push_path(&mut command, output);
    let ghost expected = text_steps(input@, target, output@, subject@);
    assert(expected[1] is Run);
    assert(arguments(command@) =~= expected[1]->list);
    push_step(
        list,
        Step::Run { tool: Tool::Ffmpeg, list: command, heading: "Subtitle conversion failed" },
    );
    assert(steps(list@) =~= before + expected);
}

fn push_direct_steps(
    list: &mut Vec<Step>,
    input: ConversionInput<'_>,
    change: &SubtitleChange,
    source_format: SubtitleFormat,
    target: SubtitleFormat,
    output: &FilePath,
    resolution: (u64, u64),
    subject: &str,
)
    requires
        converts_pictures(input@, source_format, target) ==> output@.directory is Some,
    ensures
        steps(final(list)@) == steps(old(list)@) + direct_steps(
            input@,
            *change,
            source_format,
            target,
            output@,
            resolution,
            subject@,
        ),
{
    let ghost before = steps(list@);
    push_step(list, Step::CheckCancelled);
    let embedded: bool = matches!(input, ConversionInput::Embedded { .. });
    if source_format == target && !(embedded && target == SubtitleFormat::VobSub) {
        push_step(
            list,
            Step::Report(
                if embedded {
                    EditPhase::ExtractSubtitle(subject.to_owned())
                } else {
                    EditPhase::CopySubtitle(subject.to_owned())
                },
            ),
        );
        extract_subtitle(list, input, output, target, subject);
    } else if source_format.is_image() || target.is_image() {
        push_picture_steps(
            list,
            input,
            change,
            source_format,
            target,
            output,
            resolution,
            subject,
        );
    } else {
        push_text_steps(list, input, target, output, subject);
    }
    assert(steps(list@) =~= before + direct_steps(
        input@,
        *change,
        source_format,
        target,
        output@,
        resolution,
        subject@,
    ));
}

/// Lists the steps of a conversion. Where the name of the output is no valid text, one
/// through seconv fails in its place.
pub fn convert_subtitle(
    list: &mut Vec<Step>,
    input: ConversionInput<'_>,
    change: &SubtitleChange,
    target: SubtitleFormat,
    output: &FilePath,
    resolution: (u64, u64),
    subject: &str,
)
    requires
        converts_pictures(input@, change.source_format, target) ==> output@.directory is Some,
    ensures
        steps(final(list)@) == steps(old(list)@) + convert_steps(
            input@,
            *change,
            target,
            output@,
            resolution,
            subject@,
        ),
{
    let ghost before = steps(list@);
    if change.source_format.is_image() && target == SubtitleFormat::MovText {
        let between = intermediate(output);
        push_step(list, Step::CheckCancelled);
        push_direct_steps(
            list,
            input,
            change,
            change.source_format,
            SubtitleFormat::SubRip,
            &between,
            resolution,
            subject,
        );
        push_direct_steps(
            list,
            ConversionInput::File(&between),
            change,
            SubtitleFormat::SubRip,
            SubtitleFormat::MovText,
            output,
            resolution,
            subject,
        );
        assert(steps(list@) =~= before + convert_steps(
            input@,
            *change,
            target,
            output@,
            resolution,
            subject@,
        ));
    } else {
        push_direct_steps(
            list,
            input,
            change,
            change.source_format,
            target,
            output,
            resolution,
            subject,
        );
    }
}

// What came out.

/// The subtitle streams of a file.
pub open spec fn subtitle_streams(streams: Seq<Stream>) -> Seq<Stream>
    decreases streams.len(),
{
    if streams.len() == 0 {
        Seq::empty()
    } else if is_kind(streams.last(), "subtitle"@) {
        subtitle_streams(streams.drop_last()).push(streams.last())
    } else {
        subtitle_streams(streams.drop_last())
    }
}

/// Whether a file is one subtitle of a format.
pub open spec fn is_one_subtitle(info: MediaInfo, target: SubtitleFormat) -> bool {
    subtitle_streams(info.streams@).len() == 1 && codec_of(subtitle_streams(info.streams@)[0])
        == Some(target.codec_text())
}

/// Checks what a probe reports of a converted subtitle.
pub fn validate_subtitle_output(info: &MediaInfo, target: SubtitleFormat) -> (result: Result<
    (),
    EditError,
>)
    ensures
        match result {
            Ok(_) => is_one_subtitle(*info, target),
            Err(error) => !is_one_subtitle(*info, target) && error@ == ErrorModel::Failed(
                "Converted subtitle did not validate as "@ + target.label_text() + "."@,
            ),
        },
{
    let mut found: Vec<&Stream> = Vec::new();
    let mut i: usize = 0;
    assert(crate::plan::derefs(found@) =~= Seq::empty());
    while i < info.streams.len()
        invariant
            0 <= i <= info.streams.len(),
            crate::plan::derefs(found@) == subtitle_streams(info.streams@.take(i as int)),
        decreases info.streams.len() - i,
    {
        let stream = &info.streams[i];
        let ghost before = found@;
        proof {
            assert(info.streams@.take(i + 1).drop_last() =~= info.streams@.take(i as int));
            assert(info.streams@.take(i + 1).last() == *stream);
        }
        if stream_is(stream, "subtitle") {
            found.push(stream);
            assert(crate::plan::derefs(found@) =~= crate::plan::derefs(before).push(*stream));
        }
        i = i + 1;
    }
    assert(info.streams@.take(info.streams@.len() as int) =~= info.streams@);
    assert(crate::plan::derefs(found@).len() == found@.len());
    if found.len() == 1 {
        assert(crate::plan::derefs(found@)[0] == *found@[0]);
        if same_optional_text(stream_codec(found[0]), Some(target.ffmpeg_codec())) {
            return Ok(());
        }
    }
    let mut message = "Converted subtitle did not validate as ".to_owned();
    message.append(target.label());
    message.append(".");
    Err(EditError::Failed(message))
}

// Laws.

/// Whether a step makes no file outside a directory, and tells of nothing but its work on a
/// subtitle.
pub open spec fn writes_only_in(step: StepView, directory: Part) -> bool {
    match step {
        StepView::Run { tool: Tool::Ffmpeg, list, .. } => list.len() > 0 && match list.last() {
            Arg::Path(output) => output.lies_in(directory),
            Arg::Text(_) => false,
        },
        StepView::Run { tool: Tool::Seconv, list, .. } => exists|folder: Part|
            folder.trimmed() == directory.trimmed() && #[trigger] list.contains(
                text_arg("--output-folder:"@ + folder.shown()),
            ),
        StepView::CopyFile { to, phase, .. } => to.lies_in(directory) && phase.of_subtitle(),
        StepView::RewriteCues { to, .. } => to.lies_in(directory),
        StepView::Report(phase) => phase.of_subtitle(),
        _ => true,
    }
}

/// Whether some steps make no file outside a directory, and tell of nothing but their work
/// on subtitles.
pub open spec fn write_only_in(list: Seq<StepView>, directory: Part) -> bool {
    forall|i: int| 0 <= i < list.len() ==> writes_only_in(#[trigger] list[i], directory)
}

/// The steps of a conversion make no file outside the directory of its output.
pub proof fn conversions_stay_beside_their_output(
    input: InputModel,
    change: SubtitleChange,
    target: SubtitleFormat,
    output: PathModel,
    resolution: (u64, u64),
    subject: Seq<char>,
    directory: Part,
)
    requires
        output.lies_in(directory),
    ensures
        write_only_in(
            convert_steps(input, change, target, output, resolution, subject),
            directory,
        ),
{
    if change.source_format.image() && target == SubtitleFormat::MovText {
        lemma_direct_steps_stay(
            input,
            change,
            change.source_format,
            SubtitleFormat::SubRip,
            intermediate_path(output),
            resolution,
            subject,
            directory,
        );
        lemma_direct_steps_stay(
            InputModel::File(intermediate_path(output)),
            change,
            SubtitleFormat::SubRip,
            SubtitleFormat::MovText,
            output,
            resolution,
            subject,
            directory,
        );
    } else {
        lemma_direct_steps_stay(
            input,
            change,
            change.source_format,
            target,
            output,
            resolution,
            subject,
            directory,
        );
    }
}

/// The steps that take a subtitle out make no file outside the directory of its output.
pub proof fn extractions_stay_beside_their_output(
    input: InputModel,
    output: PathModel,
    format: SubtitleFormat,
    subject: Seq<char>,
    directory: Part,
)
    requires
        output.lies_in(directory),
    ensures
        write_only_in(extract_steps(input, output, format, subject), directory),
{
}

proof fn lemma_direct_steps_stay(
    input: InputModel,
    change: SubtitleChange,
    source_format: SubtitleFormat,
    target: SubtitleFormat,
    output: PathModel,
    resolution: (u64, u64),
    subject: Seq<char>,
    directory: Part,
)
    requires
        output.lies_in(directory),
    ensures
        write_only_in(
            direct_steps(input, change, source_format, target, output, resolution, subject),
            directory,
        ),
{
    let folder = output.directory->0;
    extractions_stay_beside_their_output(input, output, target, subject, directory);
    if !only_moves(input, source_format, target) && (source_format.image() || target.image()) {
        let reads = source_format.image() && !target.image();
        let path = match input {
            InputModel::Embedded { .. } => extracted_path(output),
            InputModel::File(path) => path,
        };
        let list = seconv_args(
            path,
            ocr_language(change),
            reads,
            target,
            folder.shown(),
            output.name_text()->0,
            resolution,
        );
        let last = seconv_steps(path, change, reads, target, output, resolution, subject);
        assert(list[2] == text_arg("--output-folder:"@ + folder.shown()));
        assert(list.contains(text_arg("--output-folder:"@ + folder.shown())));
        siblings_share_a_directory(
            output,
            directory,
            (match output.name_text() {
                Some(name) => name,
                None => "subtitle"@,
            }) + ".source.mks"@,
        );
        let all = picture_steps(input, change, source_format, target, output, resolution, subject);
        assert forall|i: int| 0 <= i < all.len() implies writes_only_in(
            #[trigger] all[i],
            directory,
        ) by {
            match input {
                InputModel::Embedded { media, index } => {
                    let first = extract_for_conversion(media, index, output, subject);
                    if i < first.len() {
                        assert(all[i] == first[i]);
                    }
                },
                InputModel::File(_) => {},
            }
        }
    }
}

/// Whether a step runs `ffmpeg` on a file.
pub open spec fn runs_ffmpeg_on(step: StepView, file: PathModel) -> bool {
    step matches StepView::Run { tool: Tool::Ffmpeg, list, .. } && list.len() > 0
        && list.drop_last().contains(Arg::Path(file))
}

/// What a program is told: everything that a step hands it.
pub open spec fn told(step: StepView) -> Seq<Arg> {
    match step {
        StepView::Run { list, .. } => list,
        _ => Seq::empty(),
    }
}

/// Whether an option occurs, and always with one value behind it.
pub open spec fn always_says(list: Seq<Arg>, option: Seq<char>, value: Seq<char>) -> bool {
    &&& exists|k: int| 0 <= k < list.len() && #[trigger] list[k] == text_arg(option)
    &&& forall|k: int|
        0 <= k < list.len() && #[trigger] list[k] == text_arg(option) ==> k + 1 < list.len()
            && list[k + 1] == text_arg(value)
}

/// The words of the commands are told apart.
proof fn lemma_words_of_commands()
    ensures
        forall|word: Seq<char>|
            #![trigger text_arg(word)]
            word == "-v"@ || word == "error"@ || word == "-nostdin"@ || word == "-y"@ || word
                == "-i"@ || word == "-c:s"@ || word == "-c"@ || word == "copy"@ || word == "-f"@
                || word == "matroska"@ || word == "subrip"@ || word == "ass"@ || word
                == "mov_text"@ ==> word != "-map"@,
        forall|word: Seq<char>|
            #![trigger text_arg(word)]
            word == "-v"@ || word == "error"@ || word == "-nostdin"@ || word == "-y"@ || word
                == "-i"@ || word == "-map"@ || word == "copy"@ || word == "subrip"@ || word
                == "ass"@ || word == "mov_text"@ ==> word != "-c:s"@,
        forall|number: nat|
            #![trigger numbered("0:"@, number)]
            numbered("0:"@, number) != "-map"@ && numbered("0:"@, number) != "-c:s"@,
        "0:0"@ != "-map"@,
        "0:0"@ != "-c:s"@,
{
    reveal_strlit("-v");
    reveal_strlit("error");
    reveal_strlit("-nostdin");
    reveal_strlit("-y");
    reveal_strlit("-i");
    reveal_strlit("-map");
    reveal_strlit("-c:s");
    reveal_strlit("-c");
    reveal_strlit("copy");
    reveal_strlit("-f");
    reveal_strlit("matroska");
    reveal_strlit("subrip");
    reveal_strlit("ass");
    reveal_strlit("mov_text");
    reveal_strlit("0:");
    reveal_strlit("0:0");
    assert("-map"@[0] == '-' && "-map"@[1] == 'm' && "-c:s"@[0] == '-' && "-c:s"@[1] == 'c');
    assert("copy"@[0] == 'c' && "0:0"@[0] == '0');
    assert forall|number: nat|
        #![trigger numbered("0:"@, number)]
        numbered("0:"@, number) != "-map"@ && numbered("0:"@, number) != "-c:s"@ by {
        assert(numbered("0:"@, number)[0] == '0');
    }
}

/// Which track of the media a step list works on: one `ffmpeg` reads the media, and it maps
/// the track of that number and no other.
pub open spec fn reads_track(list: Seq<StepView>, media: PathModel, index: u64) -> bool {
    &&& exists|i: int| 0 <= i < list.len() && #[trigger] runs_ffmpeg_on(list[i], media)
    &&& forall|i: int|
        0 <= i < list.len() && #[trigger] runs_ffmpeg_on(list[i], media) ==> always_says(
            told(list[i]),
            "-map"@,
            "0:"@ + decimal(index as nat),
        )
    &&& forall|i: int, j: int|
        0 <= i < list.len() && 0 <= j < list.len() && #[trigger] runs_ffmpeg_on(list[i], media)
            && #[trigger] runs_ffmpeg_on(list[j], media) ==> i == j
}

/// A conversion of an embedded track reads that track of the media, once. The file between
/// the two conversions of pictures to MOV Text is not the media.
pub proof fn conversions_read_their_track(
    media: PathModel,
    index: u64,
    change: SubtitleChange,
    target: SubtitleFormat,
    output: PathModel,
    resolution: (u64, u64),
    subject: Seq<char>,
)
    requires
        media != intermediate_path(output),
    ensures
        reads_track(
            convert_steps(
                InputModel::Embedded { media, index },
                change,
                target,
                output,
                resolution,
                subject,
            ),
            media,
            index,
        ),
{
    let input = InputModel::Embedded { media, index };
    if change.source_format.image() && target == SubtitleFormat::MovText {
        let middle = intermediate_path(output);
        let one = direct_steps(
            input,
            change,
            change.source_format,
            SubtitleFormat::SubRip,
            middle,
            resolution,
            subject,
        );
        let other = direct_steps(
            InputModel::File(middle),
            change,
            SubtitleFormat::SubRip,
            SubtitleFormat::MovText,
            output,
            resolution,
            subject,
        );
        lemma_direct_reads(
            media,
            index,
            change,
            change.source_format,
            SubtitleFormat::SubRip,
            middle,
            resolution,
            subject,
        );
        assert(other =~= seq![StepView::CheckCancelled] + text_steps(
            InputModel::File(middle),
            SubtitleFormat::MovText,
            output,
            subject,
        ));
        assert forall|i: int| 0 <= i < other.len() implies !#[trigger] runs_ffmpeg_on(
            other[i],
            media,
        ) by {
            if i == 2 {
                lemma_head(
                    middle,
                    seq![
                        text_arg("-map"@),
                        text_arg("0:0"@),
                        text_arg("-c:s"@),
                        text_arg(SubtitleFormat::MovText.encoder_text()->0),
                        Arg::Path(output),
                    ],
                    media,
                );
            }
        }
        let first = seq![StepView::CheckCancelled];
        let all = first + one + other;
        assert forall|i: int| 0 <= i < all.len() && #[trigger] runs_ffmpeg_on(all[i], media) implies 1
            <= i <= one.len() && runs_ffmpeg_on(one[i - 1], media) && all[i] == one[i - 1] by {
            if i > one.len() {
                assert(all[i] == other[i - 1 - one.len()]);
            } else if i >= 1 {
                assert(all[i] == one[i - 1]);
            }
        }
        let k = choose|k: int| 0 <= k < one.len() && #[trigger] runs_ffmpeg_on(one[k], media);
        assert(all[k + 1] == one[k]);
        assert(runs_ffmpeg_on(all[k + 1], media));
    } else {
        lemma_direct_reads(
            media,
            index,
            change,
            change.source_format,
            target,
            output,
            resolution,
            subject,
        );
    }
}

/// Where the input stands in a command of `ffmpeg`.
proof fn lemma_head(input: PathModel, rest: Seq<Arg>, file: PathModel)
    requires
        rest.len() > 0,
        forall|i: int| 0 <= i < rest.len() - 1 ==> (#[trigger] rest[i]) is Text,
    ensures
        (ffmpeg_head(input) + rest).drop_last().contains(Arg::Path(file)) <==> input == file,
{
    let list = (ffmpeg_head(input) + rest).drop_last();
    assert(list[5] == Arg::Path(input));
    if list.contains(Arg::Path(file)) {
        let k = choose|k: int| 0 <= k < list.len() && list[k] == Arg::Path(file);
        if k >= 6 {
            assert(list[k] == rest[k - 6]);
        }
    }
}

proof fn lemma_direct_reads(
    media: PathModel,
    index: u64,
    change: SubtitleChange,
    source_format: SubtitleFormat,
    target: SubtitleFormat,
    output: PathModel,
    resolution: (u64, u64),
    subject: Seq<char>,
)
    ensures
        reads_track(
            direct_steps(
                InputModel::Embedded { media, index },
                change,
                source_format,
                target,
                output,
                resolution,
                subject,
            ),
            media,
            index,
        ),
{
    let input = InputModel::Embedded { media, index };
    let list = direct_steps(input, change, source_format, target, output, resolution, subject);
    let number = numbered("0:"@, index as nat);
    lemma_words_of_commands();
    let (at, rest) = if only_moves(input, source_format, target) {
        (
            3int,
            seq![
                text_arg("-map"@),
                text_arg(number),
                text_arg("-c:s"@),
                text_arg("copy"@),
                Arg::Path(output),
            ],
        )
    } else if source_format.image() || target.image() {
        (
            2int,
            seq![
                text_arg("-map"@),
                text_arg(number),
                text_arg("-c"@),
                text_arg("copy"@),
                text_arg("-f"@),
                text_arg("matroska"@),
                Arg::Path(extracted_path(output)),
            ],
        )
    } else {
        (
            2int,
            seq![
                text_arg("-map"@),
                text_arg(number),
                text_arg("-c:s"@),
                text_arg(target.encoder_text()->0),
                Arg::Path(output),
            ],
        )
    };
    let command = ffmpeg_head(media) + rest;
    assert(told(list[at]) =~= command);
    lemma_head(media, rest, media);
    assert(runs_ffmpeg_on(list[at], media));
    assert(command[6] == text_arg("-map"@) && command[7] == text_arg(number));
    assert forall|k: int| 0 <= k < command.len() && #[trigger] command[k] == text_arg(
        "-map"@,
    ) implies k == 6 by {
        if k < 6 {
            assert(command[k] == ffmpeg_head(media)[k]);
        } else {
            assert(command[k] == rest[k - 6]);
        }
    }
    assert(always_says(told(list[at]), "-map"@, "0:"@ + decimal(index as nat)));
    assert forall|i: int| 0 <= i < list.len() && #[trigger] runs_ffmpeg_on(list[i], media) implies i
        == at by {}
}

/// Conversions of different tracks are different.
pub proof fn conversions_of_different_tracks_differ(
    media: PathModel,
    one: u64,
    other: u64,
    change: SubtitleChange,
    target: SubtitleFormat,
    output: PathModel,
    resolution: (u64, u64),
    subject: Seq<char>,
)
    requires
        one != other,
        media != intermediate_path(output),
    ensures
        convert_steps(
            InputModel::Embedded { media, index: one },
            change,
            target,
            output,
            resolution,
            subject,
        ) != convert_steps(
            InputModel::Embedded { media, index: other },
            change,
            target,
            output,
            resolution,
            subject,
        ),
{
    let left = convert_steps(
        InputModel::Embedded { media, index: one },
        change,
        target,
        output,
        resolution,
        subject,
    );
    conversions_read_their_track(media, one, change, target, output, resolution, subject);
    conversions_read_their_track(media, other, change, target, output, resolution, subject);
    let right = convert_steps(
        InputModel::Embedded { media, index: other },
        change,
        target,
        output,
        resolution,
        subject,
    );
    if left == right {
        let i = choose|i: int| 0 <= i < left.len() && #[trigger] runs_ffmpeg_on(left[i], media);
        let list = told(left[i]);
        assert(always_says(list, "-map"@, "0:"@ + decimal(one as nat)));
        assert(always_says(list, "-map"@, "0:"@ + decimal(other as nat)));
        let k = choose|k: int| 0 <= k < list.len() && #[trigger] list[k] == text_arg("-map"@);
        assert(list[k + 1] == text_arg("0:"@ + decimal(one as nat)));
        let (a, b) = ("0:"@ + decimal(one as nat), "0:"@ + decimal(other as nat));
        assert(a == b);
        assert(a.skip("0:"@.len() as int) =~= decimal(one as nat));
        assert(b.skip("0:"@.len() as int) =~= decimal(other as nat));
        numbers_read_back(one as nat);
        numbers_read_back(other as nat);
    }
}

/// An embedded track that is only taken out is copied, from that track of the media into
/// the output; a file is copied as it is.
pub proof fn extractions_read_their_track(
    media: PathModel,
    index: u64,
    output: PathModel,
    format: SubtitleFormat,
    subject: Seq<char>,
)
    ensures
        reads_track(
            extract_steps(InputModel::Embedded { media, index }, output, format, subject),
            media,
            index,
        ),
        ({
            let last = told(
                extract_steps(
                    InputModel::Embedded { media, index },
                    output,
                    format,
                    subject,
                ).last(),
            );
            always_says(last, "-c:s"@, "copy"@) && last.last() == Arg::Path(output)
        }),
        ({
            let list = extract_steps(InputModel::File(media), output, format, subject);
            &&& list[0] matches StepView::CopyFile { from, to, .. } && from == media && to == output
            &&& list.len() == (if format == SubtitleFormat::VobSub {
                2int
            } else {
                1
            })
            &&& format == SubtitleFormat::VobSub ==> (list[1] matches StepView::CopyFile {
                from,
                to,
                ..
            } && from == media.with_extension("idx"@) && to == output.with_extension("idx"@))
        }),
{
    let list = extract_steps(InputModel::Embedded { media, index }, output, format, subject);
    let number = numbered("0:"@, index as nat);
    lemma_words_of_commands();
    let rest = seq![
        text_arg("-map"@),
        text_arg(number),
        text_arg("-c:s"@),
        text_arg("copy"@),
        Arg::Path(output),
    ];
    let command = ffmpeg_head(media) + rest;
    assert(told(list[1]) =~= command);
    lemma_head(media, rest, media);
    assert(runs_ffmpeg_on(list[1], media));
    assert(command[6] == text_arg("-map"@) && command[7] == text_arg(number));
    assert(command[8] == text_arg("-c:s"@) && command[9] == text_arg("copy"@));
    assert forall|k: int| 0 <= k < command.len() && #[trigger] command[k] == text_arg(
        "-map"@,
    ) implies k == 6 by {
        if k < 6 {
            assert(command[k] == ffmpeg_head(media)[k]);
        } else {
            assert(command[k] == rest[k - 6]);
        }
    }
    assert forall|k: int| 0 <= k < command.len() && #[trigger] command[k] == text_arg(
        "-c:s"@,
    ) implies k == 8 by {
        if k < 6 {
            assert(command[k] == ffmpeg_head(media)[k]);
        } else {
            assert(command[k] == rest[k - 6]);
        }
    }
}

/// A conversion between text formats runs `ffmpeg` with the encoder of the target, on the
/// file or on the media, into the output.
pub proof fn text_conversions_encode_the_target(
    input: InputModel,
    change: SubtitleChange,
    target: SubtitleFormat,
    output: PathModel,
    resolution: (u64, u64),
    subject: Seq<char>,
)
    requires
        target == SubtitleFormat::SubRip || target == SubtitleFormat::Ass || target
            == SubtitleFormat::MovText,
        change.source_format == SubtitleFormat::SubRip || change.source_format
            == SubtitleFormat::Ass || change.source_format == SubtitleFormat::MovText,
        change.source_format != target,
    ensures
        ({
            let last = convert_steps(input, change, target, output, resolution, subject).last();
            &&& last matches StepView::Run { tool: Tool::Ffmpeg, .. }
            &&& told(last).last() == Arg::Path(output)
            &&& always_says(
                told(last),
                "-c:s"@,
                match target {
                    SubtitleFormat::SubRip => "subrip"@,
                    SubtitleFormat::Ass => "ass"@,
                    _ => "mov_text"@,
                },
            )
            &&& input matches InputModel::File(path) ==> runs_ffmpeg_on(last, path) && always_says(
                told(last),
                "-map"@,
                "0:0"@,
            )
        }),
{
    let list = convert_steps(input, change, target, output, resolution, subject);
    let (path, map) = match input {
        InputModel::Embedded { media, index } => (media, numbered("0:"@, index as nat)),
        InputModel::File(path) => (path, "0:0"@),
    };
    lemma_words_of_commands();
    let encoder = target.encoder_text()->0;
    let rest = seq![
        text_arg("-map"@),
        text_arg(map),
        text_arg("-c:s"@),
        text_arg(encoder),
        Arg::Path(output),
    ];
    let command = ffmpeg_head(path) + rest;
    assert(told(list.last()) =~= command);
    lemma_head(path, rest, path);
    assert(command[6] == text_arg("-map"@) && command[7] == text_arg(map));
    assert(command[8] == text_arg("-c:s"@) && command[9] == text_arg(encoder));
    assert forall|k: int| 0 <= k < command.len() && (#[trigger] command[k] == text_arg("-map"@)
        || command[k] == text_arg("-c:s"@)) implies k == 6 || k == 8 by {
        if k < 6 {
            assert(command[k] == ffmpeg_head(path)[k]);
        } else {
            assert(command[k] == rest[k - 6]);
        }
    }
    reveal_strlit("-map");
    reveal_strlit("-c:s");
    assert("-map"@[1] != "-c:s"@[1]);
}

/// A conversion from or to pictures hands the converter the file, or what was taken out of
/// the media, and asks for the target under the name of the output. Pictures are read as
/// text exactly where the target is text, in the language that was staged or else in
/// English; a size is given exactly where the target is pictures.
pub proof fn picture_conversions_ask_for_the_target(
    input: InputModel,
    change: SubtitleChange,
    target: SubtitleFormat,
    output: PathModel,
    resolution: (u64, u64),
    subject: Seq<char>,
)
    requires
        change.source_format == SubtitleFormat::Pgs || change.source_format
            == SubtitleFormat::VobSub || target == SubtitleFormat::Pgs || target
            == SubtitleFormat::VobSub,
        target != SubtitleFormat::MovText,
        change.source_format != target || (input is Embedded && target == SubtitleFormat::VobSub),
        output.name_text() is Some,
    ensures
        ({
            let last = convert_steps(input, change, target, output, resolution, subject).last();
            let list = told(last);
            let text_target = target == SubtitleFormat::SubRip || target == SubtitleFormat::Ass;
            &&& last matches StepView::Run { tool: Tool::Seconv, .. }
            &&& list[0] == Arg::Path(
                match input {
                    InputModel::File(path) => path,
                    InputModel::Embedded { .. } => output.sibling(
                        output.name_text()->0 + ".source.mks"@,
                    ),
                },
            )
            &&& list[1] == text_arg(
                match target {
                    SubtitleFormat::SubRip => "subrip"@,
                    SubtitleFormat::Ass => "ass"@,
                    SubtitleFormat::Pgs => "bluraysup"@,
                    _ => "vobsub"@,
                },
            )
            &&& list.contains(text_arg("--output-filename:"@ + output.name_text()->0))
            &&& list.contains(text_arg("--overwrite"@))
            &&& text_target ==> list.contains(text_arg("--ocr-engine:tesseract"@)) && list.contains(
                text_arg(
                    "--ocr-language:"@ + (match change.ocr_language {
                        Some(language) => language@,
                        None => "eng"@,
                    }),
                ),
            ) && list.len() == 7
            &&& !text_target ==> list.contains(
                text_arg(
                    "--resolution:"@ + decimal(resolution.0 as nat) + "x"@ + decimal(
                        resolution.1 as nat,
                    ),
                ),
            ) && list.len() == 6
        }),
{
    let steps = convert_steps(input, change, target, output, resolution, subject);
    let last = steps.last();
    let list = told(last);
    let path = match input {
        InputModel::File(path) => path,
        InputModel::Embedded { .. } => extracted_path(output),
    };
    let reads = change.source_format.image() && !target.image();
    let expected = seconv_args(
        path,
        ocr_language(change),
        reads,
        target,
        output.directory->0.shown(),
        output.name_text()->0,
        resolution,
    );
    assert(list == expected);
    assert(list[3] == text_arg("--output-filename:"@ + output.name_text()->0));
    assert(list[4] == text_arg("--overwrite"@));
    if reads {
        assert(list[5] == text_arg("--ocr-engine:tesseract"@));
        assert(list[6] == text_arg("--ocr-language:"@ + ocr_language(change)));
    } else {
        assert(list[5] == text_arg(
            "--resolution:"@ + decimal(resolution.0 as nat) + "x"@ + decimal(resolution.1 as nat),
        ));
    }
}

/// Pictures become MOV Text by way of a file of text beside the output: they are read into
/// it, and it is then converted into the output.
pub proof fn pictures_become_mov_text_by_way_of_text(
    input: InputModel,
    change: SubtitleChange,
    output: PathModel,
    resolution: (u64, u64),
    subject: Seq<char>,
    stem: Seq<char>,
)
    requires
        change.source_format == SubtitleFormat::Pgs || change.source_format
            == SubtitleFormat::VobSub,
        output.name is Some,
        output.name->0.stem == Part::Text(stem),
    ensures
        ({
            let list = convert_steps(
                input,
                change,
                SubtitleFormat::MovText,
                output,
                resolution,
                subject,
            );
            let last = list.last();
            &&& last matches StepView::Run { tool: Tool::Ffmpeg, .. }
            &&& told(last).last() == Arg::Path(output)
            &&& always_says(told(last), "-c:s"@, "mov_text"@)
            &&& runs_ffmpeg_on(last, intermediate_path(output))
            &&& intermediate_path(output).name_text() == Some(stem + ".ocr.srt"@)
            &&& intermediate_path(output).directory == output.directory
            &&& exists|i: int|
                0 <= i < list.len() && (#[trigger] list[i] matches StepView::Run {
                    tool: Tool::Seconv,
                    ..
                }) && told(list[i])[1] == text_arg("subrip"@) && told(list[i]).contains(
                    text_arg("--output-filename:"@ + stem + ".ocr.srt"@),
                ) && told(list[i]).contains(text_arg("--ocr-engine:tesseract"@))
        }),
{
    let middle = intermediate_path(output);
    crate::path::names_read_back(stem + ".ocr.srt"@);
    let text_change = SubtitleChange { source_format: SubtitleFormat::SubRip, ..change };
    text_conversions_encode_the_target(
        InputModel::File(middle),
        text_change,
        SubtitleFormat::MovText,
        output,
        resolution,
        subject,
    );
    picture_conversions_ask_for_the_target(
        input,
        change,
        SubtitleFormat::SubRip,
        middle,
        resolution,
        subject,
    );
    let one = direct_steps(
        input,
        change,
        change.source_format,
        SubtitleFormat::SubRip,
        middle,
        resolution,
        subject,
    );
    let other = direct_steps(
        InputModel::File(middle),
        change,
        SubtitleFormat::SubRip,
        SubtitleFormat::MovText,
        output,
        resolution,
        subject,
    );
    let list = convert_steps(input, change, SubtitleFormat::MovText, output, resolution, subject);
    assert(list =~= seq![StepView::CheckCancelled] + one + other);
    assert(list.last() == other.last());
    assert(other == convert_steps(
        InputModel::File(middle),
        text_change,
        SubtitleFormat::MovText,
        output,
        resolution,
        subject,
    ));
    assert(list[one.len() as int] == one.last());
    assert("--output-filename:"@ + (stem + ".ocr.srt"@) =~= "--output-filename:"@ + stem
        + ".ocr.srt"@);
}

/// A converted file is accepted exactly where it holds one subtitle, and that of the target.
pub proof fn one_subtitle_of_the_target_is_accepted(info: MediaInfo, target: SubtitleFormat)
    ensures
        is_one_subtitle(info, target) <==> exists|i: int|
            0 <= i < info.streams@.len() && only_subtitle(info.streams@, i) && codec_of(
                #[trigger] info.streams@[i],
            ) == Some(target.codec_text()),
{
    lemma_subtitle_streams(info.streams@);
    let all = info.streams@;
    let list = subtitle_streams(all);
    if list.len() == 1 {
        let i = choose|i: int|
            0 <= i < all.len() && #[trigger] all[i] == list[0] && only_subtitle(all, i);
        if exists|k: int|
            0 <= k < all.len() && only_subtitle(all, k) && codec_of(#[trigger] all[k]) == Some(
                target.codec_text(),
            ) {
            let k = choose|k: int|
                0 <= k < all.len() && only_subtitle(all, k) && codec_of(#[trigger] all[k]) == Some(
                    target.codec_text(),
                );
            assert(is_kind(all[k], "subtitle"@) && is_kind(all[i], "subtitle"@));
            assert(k == i);
        }
    }
}

/// Whether the stream at a position is the only subtitle.
pub open spec fn only_subtitle(streams: Seq<Stream>, position: int) -> bool {
    forall|i: int|
        0 <= i < streams.len() ==> (is_kind(#[trigger] streams[i], "subtitle"@) <==> i == position)
}

proof fn lemma_subtitle_streams(streams: Seq<Stream>)
    ensures
        subtitle_streams(streams).len() == 0 <==> forall|i: int|
            0 <= i < streams.len() ==> !is_kind(#[trigger] streams[i], "subtitle"@),
        subtitle_streams(streams).len() == 1 ==> exists|i: int|
            0 <= i < streams.len() && #[trigger] streams[i] == subtitle_streams(streams)[0]
                && only_subtitle(streams, i),
        subtitle_streams(streams).len() > 1 ==> !exists|i: int|
            0 <= i < streams.len() && #[trigger] only_subtitle(streams, i),
    decreases streams.len(),
{
    if streams.len() > 0 {
        let before = streams.drop_last();
        lemma_subtitle_streams(before);
        let last = streams.len() - 1;
        assert(forall|i: int| 0 <= i < before.len() ==> before[i] == streams[i]);
        if is_kind(streams.last(), "subtitle"@) {
            assert(is_kind(streams[last], "subtitle"@));
            if subtitle_streams(before).len() == 0 {
                assert forall|i: int| 0 <= i < streams.len() implies (is_kind(
                    #[trigger] streams[i],
                    "subtitle"@,
                ) <==> i == last) by {
                    if i < last {
                        assert(!is_kind(before[i], "subtitle"@));
                    }
                }
                assert(only_subtitle(streams, last));
                assert(streams[last] == subtitle_streams(streams)[0]);
            } else {
                let k = choose|k: int| 0 <= k < before.len() && is_kind(before[k], "subtitle"@);
                assert(is_kind(streams[k], "subtitle"@));
            }
        } else {
            assert(!is_kind(streams[last], "subtitle"@));
            if subtitle_streams(before).len() == 1 {
                let k = choose|k: int|
                    0 <= k < before.len() && #[trigger] before[k] == subtitle_streams(before)[0]
                        && only_subtitle(before, k);
                assert forall|i: int| 0 <= i < streams.len() implies (is_kind(
                    #[trigger] streams[i],
                    "subtitle"@,
                ) <==> i == k) by {
                    if i < last {
                        assert(is_kind(before[i], "subtitle"@) <==> i == k);
                    }
                }
                assert(streams[k] == subtitle_streams(streams)[0]);
            }
            if subtitle_streams(before).len() > 1 {
                assert forall|i: int| 0 <= i < streams.len() implies !#[trigger] only_subtitle(
                    streams,
                    i,
                ) by {
                    if only_subtitle(streams, i) {
                        assert(is_kind(streams[i], "subtitle"@));
                        assert forall|j: int| 0 <= j < before.len() implies (is_kind(
                            #[trigger] before[j],
                            "subtitle"@,
                        ) <==> j == i) by {
                            assert(before[j] == streams[j]);
                        }
                        assert(only_subtitle(before, i));
                    }
                }
            }
            if subtitle_streams(before).len() == 0 {
                assert forall|i: int| 0 <= i < streams.len() implies !is_kind(
                    #[trigger] streams[i],
                    "subtitle"@,
                ) by {
                    if i < last {
                        assert(!is_kind(before[i], "subtitle"@));
                    }
                }
            } else {
                let k = choose|k: int| 0 <= k < before.len() && is_kind(before[k], "subtitle"@);
                assert(is_kind(streams[k], "subtitle"@));
            }
        }
    }
}

/// That a step reads a file: it copies it, or hands it to a tool.
pub open spec fn takes_from(step: StepView, file: PathModel) -> bool {
    match step {
        StepView::CopyFile { from, .. } => from == file,
        StepView::Run { tool: Tool::Ffmpeg, list, .. } => list.len() > 0
            && list.drop_last().contains(Arg::Path(file)),
        StepView::Run { tool: Tool::Seconv, list, .. } => list.len() > 0 && list[0] == Arg::Path(
            file,
        ),
        _ => false,
    }
}

proof fn lemma_direct_takes(
    path: PathModel,
    change: SubtitleChange,
    source_format: SubtitleFormat,
    target: SubtitleFormat,
    output: PathModel,
    resolution: (u64, u64),
    subject: Seq<char>,
)
    requires
        output.name_text() is Some,
    ensures
        takes_from(
            direct_steps(
                InputModel::File(path),
                change,
                source_format,
                target,
                output,
                resolution,
                subject,
            )[2],
            path,
        ),
        direct_steps(
            InputModel::File(path),
            change,
            source_format,
            target,
            output,
            resolution,
            subject,
        ).len() > 2,
{
    let input = InputModel::File(path);
    let all = direct_steps(
        input,
        change,
        source_format,
        target,
        output,
        resolution,
        subject,
    );
    if only_moves(input, source_format, target) {
    } else if source_format.image() || target.image() {
        let reads = source_format.image() && !target.image();
        let list = seconv_steps(path, change, reads, target, output, resolution, subject);
        assert(Seq::<StepView>::empty() + list =~= list);
        assert(all[2] == list[1]);
    } else {
        let list = text_steps(input, target, output, subject);
        assert(all[2] == list[1]);
        let told = told(list[1]);
        assert(told.drop_last()[5] == Arg::Path(path));
    }
}

/// The conversion of a file reads that file.
pub proof fn conversions_of_files_read_their_file(
    path: PathModel,
    change: SubtitleChange,
    target: SubtitleFormat,
    output: PathModel,
    resolution: (u64, u64),
    subject: Seq<char>,
)
    requires
        output.name_text() is Some,
    ensures
        exists|i: int|
            0 <= i < convert_steps(
                InputModel::File(path),
                change,
                target,
                output,
                resolution,
                subject,
            ).len() && takes_from(
                #[trigger] convert_steps(
                    InputModel::File(path),
                    change,
                    target,
                    output,
                    resolution,
                    subject,
                )[i],
                path,
            ),
{
    let all = convert_steps(
        InputModel::File(path),
        change,
        target,
        output,
        resolution,
        subject,
    );
    if change.source_format.image() && target == SubtitleFormat::MovText {
        let first = direct_steps(
            InputModel::File(path),
            change,
            change.source_format,
            SubtitleFormat::SubRip,
            intermediate_path(output),
            resolution,
            subject,
        );
        let stem = output.name->0.stem->Text_0;
        crate::path::names_read_back(stem + ".ocr.srt"@);
        lemma_direct_takes(
            path,
            change,
            change.source_format,
            SubtitleFormat::SubRip,
            intermediate_path(output),
            resolution,
            subject,
        );
        assert(all[3] == first[2]);
        assert(takes_from(all[3], path));
    } else {
        lemma_direct_takes(
            path,
            change,
            change.source_format,
            target,
            output,
            resolution,
            subject,
        );
        assert(takes_from(all[2], path));
    }
}

/// Pictures of a track are taken out of the media as they are, into a file of their own, and
/// that file is the one that is converted.
pub proof fn extracted_pictures_are_converted(
    media: PathModel,
    index: u64,
    change: SubtitleChange,
    target: SubtitleFormat,
    output: PathModel,
    resolution: (u64, u64),
    subject: Seq<char>,
)
    requires
        change.source_format == SubtitleFormat::Pgs || change.source_format
            == SubtitleFormat::VobSub,
        target != SubtitleFormat::MovText,
        change.source_format != target || target == SubtitleFormat::VobSub,
        output.name_text() is Some,
    ensures
        ({
            let list = convert_steps(
                InputModel::Embedded { media, index },
                change,
                target,
                output,
                resolution,
                subject,
            );
            &&& list.len() == 5
            &&& list[0] == StepView::CheckCancelled
            &&& list[1] == StepView::Report(Phase::ExtractSubtitle(subject))
            &&& list[2] matches StepView::Run { tool: Tool::Ffmpeg, heading, .. } && heading
                == "Could not extract subtitle for conversion"@
            &&& always_says(told(list[2]), "-c"@, "copy"@)
            &&& always_says(told(list[2]), "-f"@, "matroska"@)
            &&& told(list[2]).last() == told(list[4])[0]
            &&& list[3] matches StepView::Report(phase) && (phase is OcrSubtitle
                || phase is ConvertSubtitle)
            &&& list[4] matches StepView::Run { tool: Tool::Seconv, heading, .. } && heading
                == "Subtitle conversion failed"@
        }),
{
    let input = InputModel::Embedded { media, index };
    let all = convert_steps(input, change, target, output, resolution, subject);
    let reads = change.source_format.image() && !target.image();
    let first = extract_for_conversion(media, index, output, subject);
    let second = seconv_steps(
        extracted_path(output),
        change,
        reads,
        target,
        output,
        resolution,
        subject,
    );
    assert(all == seq![StepView::CheckCancelled] + (first + second));
    assert(all[1] == first[0] && all[2] == first[1] && all[3] == second[0] && all[4] == second[1]);
    let list = told(first[1]);
    lemma_option_texts();
    assert(list.len() == 13);
    assert(list[0] == text_arg("-v"@) && list[1] == text_arg("error"@) && list[2] == text_arg(
        "-nostdin"@,
    ) && list[3] == text_arg("-y"@) && list[4] == text_arg("-i"@) && list[5] == Arg::Path(media));
    assert(list[6] == text_arg("-map"@) && list[8] == text_arg("-c"@) && list[9] == text_arg(
        "copy"@,
    ) && list[10] == text_arg("-f"@) && list[11] == text_arg("matroska"@));
    assert(list[7] == text_arg(numbered("0:"@, index as nat)));
    assert(numbered("0:"@, index as nat)[0] == '0');
}

proof fn lemma_option_texts()
    ensures
        "-c"@.len() == 2 && "-c"@[0] == '-' && "-c"@[1] == 'c',
        "-f"@.len() == 2 && "-f"@[0] == '-' && "-f"@[1] == 'f',
        "-v"@.len() == 2 && "-v"@[1] == 'v',
        "-y"@.len() == 2 && "-y"@[1] == 'y',
        "-i"@.len() == 2 && "-i"@[1] == 'i',
        "error"@.len() == 5,
        "-nostdin"@.len() == 8,
        "-map"@.len() == 4,
        "copy"@.len() == 4,
        "matroska"@.len() == 8,
        "0:"@.len() == 2 && "0:"@[0] == '0',
{
    reveal_strlit("-c");
    reveal_strlit("-f");
    reveal_strlit("-v");
    reveal_strlit("-y");
    reveal_strlit("-i");
    reveal_strlit("error");
    reveal_strlit("-nostdin");
    reveal_strlit("-map");
    reveal_strlit("copy");
    reveal_strlit("matroska");
    reveal_strlit("0:");
}

/// Every conversion looks for a cancellation first, and says what it does before it does it;
/// where a tool or a copy fails, the message says which it was.
pub proof fn conversions_say_what_they_do(
    input: InputModel,
    change: SubtitleChange,
    target: SubtitleFormat,
    output: PathModel,
    resolution: (u64, u64),
    subject: Seq<char>,
    media: PathModel,
    index: u64,
    format: SubtitleFormat,
)
    ensures
        convert_steps(input, change, target, output, resolution, subject)[0]
            == StepView::CheckCancelled,
        ({
            let list = text_steps(input, target, output, subject);
            &&& list.len() == 2
            &&& list[0] == StepView::Report(
                Phase::ConvertSubtitle { subject, target: target.short_text() },
            )
            &&& list[1] matches StepView::Run { heading, .. } && heading
                == "Subtitle conversion failed"@
        }),
        ({
            let list = extract_steps(
                InputModel::Embedded { media, index },
                output,
                format,
                subject,
            );
            &&& list.len() == 2
            &&& list[0] == StepView::Report(Phase::ExtractSubtitle(subject))
            &&& list[1] matches StepView::Run { heading, .. } && heading
                == "Subtitle export failed"@
        }),
        ({
            let list = copy_steps(media, output, format, subject);
            &&& list[0] matches StepView::CopyFile { phase, context, .. } && phase
                == Phase::CopySubtitle(subject) && context == "Could not stage subtitle export"@
            &&& format == SubtitleFormat::VobSub ==> (list[1] matches StepView::CopyFile {
                phase,
                context,
                ..
            } && phase == Phase::CopySubtitle(subject) && context
                == "Could not stage the VobSub .idx companion"@)
        }),
        output.name_text() is None ==> seconv_steps(
            media,
            change,
            true,
            target,
            output,
            resolution,
            subject,
        ) == seq![
            StepView::Fail(ErrorModel::Failed("Subtitle output name is not valid UTF-8."@)),
        ],
{
}

} // verus!
