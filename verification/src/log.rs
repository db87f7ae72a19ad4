//! The log of edits that failed.

use vstd::prelude::*;
use vstd::string::StringExecFns;

use crate::apply::EditRequest;
use crate::path::FilePath;
use crate::progress::SaveDestination;
use crate::sets::{braced, braced_set, bracketed, bracketed_list};
use crate::subtitle::{SubtitleChange, SubtitleFormat, SubtitleSource};
use crate::text::{
    characters, decimal, join, joined, number_text, texts, truth, truth_text,
};

verus! {

broadcast use vstd::std_specs::btree::group_btree_axioms;

pub open spec fn destination_text(destination: SaveDestination) -> Seq<char> {
    match destination {
        SaveDestination::ReplaceOriginal => "ReplaceOriginal"@,
        SaveDestination::CreateCopy => "CreateCopy"@,
    }
}

fn destination_name(destination: SaveDestination) -> (result: &'static str)
    ensures
        result@ == destination_text(destination),
{
    match destination {
        SaveDestination::ReplaceOriginal => "ReplaceOriginal",
        SaveDestination::CreateCopy => "CreateCopy",
    }
}

pub open spec fn format_text(format: Option<SubtitleFormat>) -> Seq<char> {
    match format {
        None => "None"@,
        Some(SubtitleFormat::SubRip) => "Some(SubRip)"@,
        Some(SubtitleFormat::Ass) => "Some(Ass)"@,
        Some(SubtitleFormat::MovText) => "Some(MovText)"@,
        Some(SubtitleFormat::Pgs) => "Some(Pgs)"@,
        Some(SubtitleFormat::VobSub) => "Some(VobSub)"@,
    }
}

fn format_name(format: Option<SubtitleFormat>) -> (result: &'static str)
    ensures
        result@ == format_text(format),
{
    match format {
        None => "None",
        Some(SubtitleFormat::SubRip) => "Some(SubRip)",
        Some(SubtitleFormat::Ass) => "Some(Ass)",
        Some(SubtitleFormat::MovText) => "Some(MovText)",
        Some(SubtitleFormat::Pgs) => "Some(Pgs)",
        Some(SubtitleFormat::VobSub) => "Some(VobSub)",
    }
}

/// What the log calls the source of a change: a track by its index, a file by its name.
pub open spec fn source_text(source: SubtitleSource) -> Seq<char> {
    match source {
        SubtitleSource::Embedded(index) => "#"@ + decimal(index as nat),
        SubtitleSource::Sidecar(path) => match path@.name_text() {
            Some(name) => name,
            None => "sidecar"@,
        },
    }
}

/// What the log says of a change.
pub open spec fn change_text(change: SubtitleChange) -> Seq<char> {
    source_text(change.source) + "(embedded_target="@ + format_text(change.embedded_target)
        + ", export_target="@ + format_text(change.export_target) + ", import="@ + truth_text(
        change.import_into_media,
    ) + ", metadata="@ + truth_text(change.metadata is Some) + ")"@
}

fn describe_change(change: &SubtitleChange) -> (result: String)
    ensures
        result@ == change_text(*change),
{
    let mut text = match &change.source {
        SubtitleSource::Embedded(index) => {
            let mut text = "#".to_owned();
            text.append(number_text(*index).as_str());
            text
        },
        SubtitleSource::Sidecar(path) => match path.name_text() {
            Some(name) => name,
            None => "sidecar".to_owned(),
        },
    };
    text.append("(embedded_target=");
    text.append(format_name(change.embedded_target));
    text.append(", export_target=");
    text.append(format_name(change.export_target));
    text.append(", import=");
    text.append(truth(change.import_into_media));
    text.append(", metadata=");
    text.append(truth(change.metadata.is_some()));
    text.append(")");
    text
}

/// What the log says of some changes.
pub open spec fn change_texts(changes: Seq<SubtitleChange>) -> Seq<Seq<char>> {
    changes.map_values(|change: SubtitleChange| change_text(change))
}

/// A text on one line: a space in place of every line break.
pub open spec fn one_line(text: Seq<char>) -> Seq<char> {
    text.map_values(
        |character: char|
            if character == '\n' || character == '\r' {
                ' '
            } else {
                character
            },
    )
}

fn on_one_line(text: &str) -> (result: String)
    ensures
        result@ == one_line(text@),
{
    let all = characters(text);
    let mut result = String::new();
    let mut i: usize = 0;
    while i < all.len()
        invariant
            0 <= i <= all.len(),
            all@ == text@,
            result@ =~= one_line(text@).take(i as int),
        decreases all.len() - i,
    {
        let character: char = if all[i] == '\n' || all[i] == '\r' {
            ' '
        } else {
            all[i]
        };
        result.push(character);
        i = i + 1;
    }
    assert(one_line(text@).take(text@.len() as int) =~= one_line(text@));
    result
}

/// What the log says of a failed edit: when it failed and how, the file, everything that
/// was staged for it, and why.
pub open spec fn failure_text(
    timestamp: u64,
    request: EditRequest,
    kind: Seq<char>,
    message: Seq<char>,
) -> Seq<char> {
    "["@ + decimal(timestamp as nat) + "] "@ + kind + ": "@ + request.path@.shown()
        + " (destination: "@ + destination_text(request.destination) + ", container: "@ + (
    match request.container {
        Some(container) => container.label_text(),
        None => "unchanged"@,
    }) + ", stream_order: "@ + bracketed(request.stream_order@) + ", deleted_streams: "@ + braced(
        request.deleted_streams@,
    ) + ", default_streams: "@ + braced(request.default_streams@) + ", audio_settings: "@ + decimal(
        request.audio_settings@.len(),
    ) + ", video_settings: "@ + decimal(request.video_settings@.len()) + ", subtitle_changes: ["@
        + joined(change_texts(request.subtitle_changes@), ", "@) + "]) — "@ + message
}

/// The line of the log about a failed edit.
pub open spec fn log_line(
    timestamp: u64,
    request: EditRequest,
    kind: Seq<char>,
    message: Seq<char>,
) -> Seq<char> {
    one_line(failure_text(timestamp, request, kind, message)) + "\n"@
}

pub fn edit_failure_line(timestamp: u64, request: &EditRequest, kind: &str, message: &str) -> (result:
    String)
    ensures
        result@ == log_line(timestamp, *request, kind@, message@),
{
    let mut changes: Vec<String> = Vec::new();
    let ghost all = change_texts(request.subtitle_changes@);
    let mut i: usize = 0;
    while i < request.subtitle_changes.len()
        invariant
            0 <= i <= request.subtitle_changes.len(),
            all == change_texts(request.subtitle_changes@),
            texts(changes@) =~= all.take(i as int),
        decreases request.subtitle_changes.len() - i,
    {
        let ghost before = changes@;
        let text = describe_change(&request.subtitle_changes[i]);
        let ghost described = text@;
        changes.push(text);
        assert(texts(changes@) =~= texts(before).push(described));
        i = i + 1;
    }
    assert(all.take(all.len() as int) =~= all);
    let mut line = "[".to_owned();
    line.append(number_text(timestamp).as_str());
    line.append("] ");
    line.append(kind);
    line.append(": ");
    line.append(request.path.shown().as_str());
    line.append(" (destination: ");
    line.append(destination_name(request.destination));
    line.append(", container: ");
    line.append(
        match request.container {
            Some(container) => container.label(),
            None => "unchanged",
        },
    );
    line.append(", stream_order: ");
    line.append(bracketed_list(request.stream_order.as_slice()).as_str());
    line.append(", deleted_streams: ");
    line.append(braced_set(&request.deleted_streams).as_str());
    line.append(", default_streams: ");
    line.append(braced_set(&request.default_streams).as_str());
    line.append(", audio_settings: ");
    line.append(number_text(request.audio_settings.len() as u64).as_str());
    line.append(", video_settings: ");
    line.append(number_text(request.video_settings.len() as u64).as_str());
    line.append(", subtitle_changes: [");
    line.append(join(changes.as_slice(), ", ").as_str());
    line.append("]) — ");
    line.append(message);
    let mut entry = on_one_line(line.as_str());
    entry.append("\n");
    entry
}

// Laws.

/// A failed edit takes one line of the log, whatever is in its message and in the names of
/// its files: the only line break is the one at the end. A text without line breaks stands
/// in it as it is.
pub proof fn failures_take_one_line(
    timestamp: u64,
    request: EditRequest,
    kind: Seq<char>,
    message: Seq<char>,
)
    ensures
        ({
            let line = log_line(timestamp, request, kind, message);
            let text = failure_text(timestamp, request, kind, message);
            &&& line.len() == text.len() + 1
            &&& line.last() == '\n'
            &&& forall|i: int|
                0 <= i < text.len() ==> (#[trigger] line[i]) != '\n' && line[i] != '\r'
            &&& forall|i: int|
                0 <= i < text.len() && text[i] != '\n' && text[i] != '\r' ==> (
                #[trigger] line[i]) == text[i]
        }),
{
    reveal_strlit("\n");
}

/// What the log calls a destination, a format, and the subtitle that a change is about.
pub proof fn logged_things_have_their_names(index: u64, path: FilePath)
    ensures
        destination_text(SaveDestination::ReplaceOriginal) == "ReplaceOriginal"@,
        destination_text(SaveDestination::CreateCopy) == "CreateCopy"@,
        format_text(None) == "None"@,
        format_text(Some(SubtitleFormat::SubRip)) == "Some(SubRip)"@,
        format_text(Some(SubtitleFormat::Ass)) == "Some(Ass)"@,
        format_text(Some(SubtitleFormat::MovText)) == "Some(MovText)"@,
        format_text(Some(SubtitleFormat::Pgs)) == "Some(Pgs)"@,
        format_text(Some(SubtitleFormat::VobSub)) == "Some(VobSub)"@,
        source_text(SubtitleSource::Embedded(index)) == "#"@ + decimal(index as nat),
        path@.name_text() is Some ==> source_text(SubtitleSource::Sidecar(path))
            == path@.name_text()->0,
        path@.name_text() is None ==> source_text(SubtitleSource::Sidecar(path)) == "sidecar"@,
{
}

/// A change is logged with what it asks for.
pub proof fn changes_are_logged_with_what_they_ask(change: SubtitleChange)
    ensures
        change_text(change) == source_text(change.source) + "(embedded_target="@ + format_text(
            change.embedded_target,
        ) + ", export_target="@ + format_text(change.export_target) + ", import="@ + (
        if change.import_into_media {
            "true"@
        } else {
            "false"@
        }) + ", metadata="@ + (if change.metadata is Some {
            "true"@
        } else {
            "false"@
        }) + ")"@,
{
}

/// A failure is logged with its time, its kind and the whole of the edit, and ends in what
/// went wrong.
pub proof fn failures_are_logged_whole(
    timestamp: u64,
    request: EditRequest,
    kind: Seq<char>,
    message: Seq<char>,
)
    ensures
        failure_text(timestamp, request, kind, message) == "["@ + decimal(timestamp as nat) + "] "@
            + kind + ": "@ + request.path@.shown() + " (destination: "@ + destination_text(
            request.destination,
        ) + ", container: "@ + (if request.container is Some {
            request.container->0.label_text()
        } else {
            "unchanged"@
        }) + ", stream_order: "@ + bracketed(request.stream_order@) + ", deleted_streams: "@
            + braced(request.deleted_streams@) + ", default_streams: "@ + braced(
            request.default_streams@,
        ) + ", audio_settings: "@ + decimal(request.audio_settings@.len())
            + ", video_settings: "@ + decimal(request.video_settings@.len())
            + ", subtitle_changes: ["@ + joined(
            Seq::new(
                request.subtitle_changes@.len(),
                |i: int| change_text(request.subtitle_changes@[i]),
            ),
            ", "@,
        ) + "]) — "@ + message,
{
    let texts = Seq::new(
        request.subtitle_changes@.len(),
        |i: int| change_text(request.subtitle_changes@[i]),
    );
    assert(change_texts(request.subtitle_changes@) =~= texts);
}

} // verus!
