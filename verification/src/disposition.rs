//! The flags that a track is written with.

use vstd::prelude::*;

use crate::audio::{AudioMetadata, AudioTags};
use crate::order::{insert_name, lemma_texts_in_order, sorted_by_order, text_less, texts_in_order};
use crate::probe::{Number, Object, Stream, Value};
use crate::subtitle::{SubtitleMetadata, SubtitleTags};
use crate::text::{join, joined, same_text, strs, texts};
use crate::transcode::opt_deref;
use crate::video::{VideoMetadata, VideoTags};

verus! {

/// The names of the flags that are set, without those that are written anew.
pub open spec fn set_flags(fields: Seq<(String, Value)>, rewritten: Seq<Seq<char>>) -> Set<
    Seq<char>,
>
    decreases fields.len(),
{
    if fields.len() == 0 {
        Set::empty()
    } else {
        let before = set_flags(fields.drop_last(), rewritten);
        let (name, value) = fields.last();
        if value.signed() == Some(1i64) && !rewritten.contains(name@) {
            before.insert(name@)
        } else {
            before
        }
    }
}

/// The flags that a stream has and that are not written anew.
pub open spec fn kept_flags(stream: Option<Stream>, rewritten: Seq<Seq<char>>) -> Set<Seq<char>> {
    match stream {
        Some(stream) => match stream.object_field("disposition"@) {
            Some(values) => set_flags(values.fields@, rewritten),
            None => Set::empty(),
        },
        None => Set::empty(),
    }
}

/// The flags with one more, where it is set.
pub open spec fn and_flag(flags: Set<Seq<char>>, set: bool, name: Seq<char>) -> Set<Seq<char>> {
    if set {
        flags.insert(name)
    } else {
        flags
    }
}

/// Flags as they are written: in order with a plus between them, or zero for none.
pub open spec fn flags_text(flags: Set<Seq<char>>) -> Seq<char> {
    if flags == Set::<Seq<char>>::empty() {
        "0"@
    } else {
        joined(texts_in_order(flags), "+"@)
    }
}

/// Whether a list of names is in order and holds the flags of a set.
pub open spec fn names_are(names: Seq<String>, flags: Set<Seq<char>>) -> bool {
    sorted_by_order(texts(names), text_less()) && texts(names).to_set() == flags
}

fn listed(names: &[&'static str], name: &str) -> (result: bool)
    ensures
        result == strs(names@).contains(name@),
{
    let mut i: usize = 0;
    while i < names.len()
        invariant
            0 <= i <= names.len(),
            forall|k: int| 0 <= k < i ==> names@[k]@ != name@,
        decreases names.len() - i,
    {
        if same_text(names[i], name) {
            assert(strs(names@)[i as int] == name@);
            return true;
        }
        i = i + 1;
    }
    false
}

fn collect_flags(stream: Option<&Stream>, rewritten: &[&'static str]) -> (result: Vec<String>)
    ensures
        names_are(result@, kept_flags(opt_deref(stream), strs(rewritten@))),
{
    let mut names: Vec<String> = Vec::new();
    assert(texts(names@).to_set() =~= Set::<Seq<char>>::empty());
    let stream = match stream {
        Some(stream) => stream,
        None => return names,
    };
    let values: &Object = match stream.get_object("disposition") {
        Some(values) => values,
        None => return names,
    };
    let mut i: usize = 0;
    while i < values.fields.len()
        invariant
            0 <= i <= values.fields.len(),
            names_are(names@, set_flags(values.fields@.take(i as int), strs(rewritten@))),
        decreases values.fields.len() - i,
    {
        proof {
            assert(values.fields@.take(i + 1).drop_last() =~= values.fields@.take(i as int));
            assert(values.fields@.take(i + 1).last() == values.fields@[i as int]);
        }
        let name = values.fields[i].0.as_str();
        let set = match values.fields[i].1.as_i64() {
            Some(number) => number == 1,
            None => false,
        };
        if set && !listed(rewritten, name) {
            insert_name(&mut names, name);
        }
        i = i + 1;
    }
    assert(values.fields@.take(values.fields@.len() as int) =~= values.fields@);
    names
}

fn add_flag(names: &mut Vec<String>, set: bool, name: &str, Ghost(flags): Ghost<Set<Seq<char>>>)
    requires
        names_are(old(names)@, flags),
    ensures
        names_are(final(names)@, and_flag(flags, set, name@)),
{
    if set {
        insert_name(names, name);
    }
}

fn write_flags(names: &Vec<String>, Ghost(flags): Ghost<Set<Seq<char>>>) -> (result: String)
    requires
        names_are(names@, flags),
    ensures
        result@ == flags_text(flags),
{
    proof {
        lemma_texts_in_order(texts(names@));
    }
    if names.len() == 0 {
        assert(flags =~= Set::<Seq<char>>::empty());
        "0".to_owned()
    } else {
        assert(texts(names@).to_set().contains(texts(names@)[0]));
        join(names.as_slice(), "+")
    }
}

/// The flags of a subtitle that are written anew.
pub open spec fn subtitle_flag_names() -> Seq<Seq<char>> {
    seq!["default"@, "forced"@, "hearing_impaired"@, "captions"@, "original"@, "comment"@]
}

/// The flags a subtitle is written with: those of its source that no metadata stands for,
/// and those of its metadata.
pub open spec fn subtitle_flags(source: Option<Stream>, default: bool, tags: SubtitleTags) -> Set<
    Seq<char>,
> {
    let flags = kept_flags(source, subtitle_flag_names());
    let flags = and_flag(flags, default, "default"@);
    let flags = and_flag(flags, tags.forced, "forced"@);
    let flags = and_flag(flags, tags.cc, "captions"@);
    let flags = and_flag(flags, tags.hearing_impaired, "hearing_impaired"@);
    let flags = and_flag(flags, tags.original, "original"@);
    and_flag(flags, tags.commentary, "comment"@)
}

pub fn subtitle_disposition(
    source: Option<&Stream>,
    default: bool,
    metadata: &SubtitleMetadata,
) -> (result: String)
    ensures
        result@ == flags_text(subtitle_flags(opt_deref(source), default, metadata@)),
{
    let rewritten: [&'static str; 6] = [
        "default",
        "forced",
        "hearing_impaired",
        "captions",
        "original",
        "comment",
    ];
    let mut names = collect_flags(source, rewritten.as_slice());
    let ghost f0 = kept_flags(opt_deref(source), subtitle_flag_names());
    assert(strs(rewritten@) =~= subtitle_flag_names());
    let ghost f1 = and_flag(f0, default, "default"@);
    let ghost f2 = and_flag(f1, metadata.forced, "forced"@);
    let ghost f3 = and_flag(f2, metadata.cc, "captions"@);
    let ghost f4 = and_flag(f3, metadata.hearing_impaired, "hearing_impaired"@);
    let ghost f5 = and_flag(f4, metadata.original, "original"@);
    let ghost f6 = and_flag(f5, metadata.commentary, "comment"@);
    add_flag(&mut names, default, "default", Ghost(f0));
    add_flag(&mut names, metadata.forced, "forced", Ghost(f1));
    add_flag(&mut names, metadata.cc, "captions", Ghost(f2));
    add_flag(&mut names, metadata.hearing_impaired, "hearing_impaired", Ghost(f3));
    add_flag(&mut names, metadata.original, "original", Ghost(f4));
    add_flag(&mut names, metadata.commentary, "comment", Ghost(f5));
    write_flags(&names, Ghost(f6))
}

/// The flags of an audio track that are written anew.
pub open spec fn audio_flag_names() -> Seq<Seq<char>> {
    seq!["default"@, "hearing_impaired"@, "visual_impaired"@, "original"@, "comment"@, "dub"@]
}

/// The flags an audio track is written with.
pub open spec fn audio_flags(source: Stream, default: bool, tags: AudioTags) -> Set<Seq<char>> {
    let flags = kept_flags(Some(source), audio_flag_names());
    let flags = and_flag(flags, default, "default"@);
    let flags = and_flag(flags, tags.commentary, "comment"@);
    let flags = and_flag(flags, tags.hearing_impaired, "hearing_impaired"@);
    let flags = and_flag(flags, tags.audio_description, "visual_impaired"@);
    let flags = and_flag(flags, tags.original, "original"@);
    and_flag(flags, tags.dubbed, "dub"@)
}

pub fn audio_disposition(source: &Stream, default: bool, metadata: &AudioMetadata) -> (result:
    String)
    ensures
        result@ == flags_text(audio_flags(*source, default, metadata@)),
{
    let rewritten: [&'static str; 6] = [
        "default",
        "hearing_impaired",
        "visual_impaired",
        "original",
        "comment",
        "dub",
    ];
    let mut names = collect_flags(Some(source), rewritten.as_slice());
    assert(strs(rewritten@) =~= audio_flag_names());
    let ghost f0 = kept_flags(Some(*source), audio_flag_names());
    let ghost f1 = and_flag(f0, default, "default"@);
    let ghost f2 = and_flag(f1, metadata.commentary, "comment"@);
    let ghost f3 = and_flag(f2, metadata.hearing_impaired, "hearing_impaired"@);
    let ghost f4 = and_flag(f3, metadata.audio_description, "visual_impaired"@);
    let ghost f5 = and_flag(f4, metadata.original, "original"@);
    let ghost f6 = and_flag(f5, metadata.dubbed, "dub"@);
    add_flag(&mut names, default, "default", Ghost(f0));
    add_flag(&mut names, metadata.commentary, "comment", Ghost(f1));
    add_flag(&mut names, metadata.hearing_impaired, "hearing_impaired", Ghost(f2));
    add_flag(&mut names, metadata.audio_description, "visual_impaired", Ghost(f3));
    add_flag(&mut names, metadata.original, "original", Ghost(f4));
    add_flag(&mut names, metadata.dubbed, "dub", Ghost(f5));
    write_flags(&names, Ghost(f6))
}

/// The flags of a video track that are written anew.
pub open spec fn video_flag_names() -> Seq<Seq<char>> {
    seq!["default"@, "comment"@]
}

/// The flags a video track is written with.
pub open spec fn video_flags(source: Stream, default: bool, tags: VideoTags) -> Set<Seq<char>> {
    and_flag(
        and_flag(kept_flags(Some(source), video_flag_names()), default, "default"@),
        tags.commentary,
        "comment"@,
    )
}

pub fn video_disposition(stream: &Stream, default: bool, metadata: &VideoMetadata) -> (result:
    String)
    ensures
        result@ == flags_text(video_flags(*stream, default, metadata@)),
{
    let rewritten: [&'static str; 2] = ["default", "comment"];
    let mut names = collect_flags(Some(stream), rewritten.as_slice());
    assert(strs(rewritten@) =~= video_flag_names());
    let ghost f0 = kept_flags(Some(*stream), video_flag_names());
    let ghost f1 = and_flag(f0, default, "default"@);
    let ghost f2 = and_flag(f1, metadata.commentary, "comment"@);
    add_flag(&mut names, default, "default", Ghost(f0));
    add_flag(&mut names, metadata.commentary, "comment", Ghost(f1));
    write_flags(&names, Ghost(f2))
}

// Laws.

proof fn lemma_kept_flags(fields: Seq<(String, Value)>, rewritten: Seq<Seq<char>>, name: Seq<char>)
    ensures
        set_flags(fields, rewritten).contains(name) <==> !rewritten.contains(name) && exists|i: int|
            0 <= i < fields.len() && (#[trigger] fields[i]).0@ == name && fields[i].1.signed()
                == Some(1i64),
    decreases fields.len(),
{
    if fields.len() > 0 {
        let shorter = fields.drop_last();
        lemma_kept_flags(shorter, rewritten, name);
        if exists|i: int|
            0 <= i < shorter.len() && (#[trigger] shorter[i]).0@ == name && shorter[i].1.signed()
                == Some(1i64) {
            let i = choose|i: int|
                0 <= i < shorter.len() && (#[trigger] shorter[i]).0@ == name
                    && shorter[i].1.signed() == Some(1i64);
            assert(fields[i].0@ == name);
        }
        if exists|i: int|
            0 <= i < fields.len() && (#[trigger] fields[i]).0@ == name && fields[i].1.signed()
                == Some(1i64) {
            let i = choose|i: int|
                0 <= i < fields.len() && (#[trigger] fields[i]).0@ == name && fields[i].1.signed()
                    == Some(1i64);
            if i < shorter.len() {
                assert(shorter[i].0@ == name);
            }
        }
        assert(fields[fields.len() - 1] == fields.last());
    }
}

proof fn lemma_kept_in_stream(stream: Option<Stream>, rewritten: Seq<Seq<char>>, name: Seq<char>)
    ensures
        rewritten.contains(name) ==> !kept_flags(stream, rewritten).contains(name),
{
    if let Some(stream) = stream {
        if let Some(values) = stream.object_field("disposition"@) {
            lemma_kept_flags(values.fields@, rewritten, name);
        }
    }
}

/// A flag of a video track that no metadata stands for survives, and a flag that the
/// metadata stands for is written exactly where the metadata says so.
pub proof fn video_flags_follow_the_metadata(
    stream: Stream,
    default: bool,
    tags: VideoTags,
    name: Seq<char>,
)
    ensures
        !video_flag_names().contains(name) ==> video_flags(stream, default, tags).contains(name)
            == kept_flags(Some(stream), video_flag_names()).contains(name),
        video_flags(stream, default, tags).contains("default"@) == default,
        video_flags(stream, default, tags).contains("comment"@) == tags.commentary,
{
    reveal_strlit("default");
    reveal_strlit("comment");
    assert("default"@[0] == 'd' && "comment"@[0] == 'c');
    let names = video_flag_names();
    assert(names[0] == "default"@ && names[1] == "comment"@);
    lemma_kept_in_stream(Some(stream), names, "default"@);
    lemma_kept_in_stream(Some(stream), names, "comment"@);
}

/// The same of an audio track.
pub proof fn audio_flags_follow_the_metadata(
    stream: Stream,
    default: bool,
    tags: AudioTags,
    name: Seq<char>,
)
    ensures
        !audio_flag_names().contains(name) ==> audio_flags(stream, default, tags).contains(name)
            == kept_flags(Some(stream), audio_flag_names()).contains(name),
        audio_flags(stream, default, tags).contains("default"@) == default,
        audio_flags(stream, default, tags).contains("comment"@) == tags.commentary,
        audio_flags(stream, default, tags).contains("hearing_impaired"@) == tags.hearing_impaired,
        audio_flags(stream, default, tags).contains("visual_impaired"@) == tags.audio_description,
        audio_flags(stream, default, tags).contains("original"@) == tags.original,
        audio_flags(stream, default, tags).contains("dub"@) == tags.dubbed,
{
    reveal_strlit("default");
    reveal_strlit("comment");
    reveal_strlit("hearing_impaired");
    reveal_strlit("visual_impaired");
    reveal_strlit("original");
    reveal_strlit("dub");
    assert("default"@[0] == 'd' && "comment"@[0] == 'c' && "hearing_impaired"@[0] == 'h'
        && "visual_impaired"@[0] == 'v' && "original"@[0] == 'o' && "dub"@[0] == 'd');
    assert("default"@.len() == 7 && "dub"@.len() == 3);
    let names = audio_flag_names();
    assert(names[0] == "default"@ && names[1] == "hearing_impaired"@ && names[2]
        == "visual_impaired"@ && names[3] == "original"@ && names[4] == "comment"@ && names[5]
        == "dub"@);
    lemma_kept_in_stream(Some(stream), names, "default"@);
    lemma_kept_in_stream(Some(stream), names, "hearing_impaired"@);
    lemma_kept_in_stream(Some(stream), names, "visual_impaired"@);
    lemma_kept_in_stream(Some(stream), names, "original"@);
    lemma_kept_in_stream(Some(stream), names, "comment"@);
    lemma_kept_in_stream(Some(stream), names, "dub"@);
}

/// The same of a subtitle, which may have no source.
pub proof fn subtitle_flags_follow_the_metadata(
    source: Option<Stream>,
    default: bool,
    tags: SubtitleTags,
    name: Seq<char>,
)
    ensures
        !subtitle_flag_names().contains(name) ==> subtitle_flags(source, default, tags).contains(
            name,
        ) == kept_flags(source, subtitle_flag_names()).contains(name),
        subtitle_flags(source, default, tags).contains("default"@) == default,
        subtitle_flags(source, default, tags).contains("forced"@) == tags.forced,
        subtitle_flags(source, default, tags).contains("captions"@) == tags.cc,
        subtitle_flags(source, default, tags).contains("hearing_impaired"@)
            == tags.hearing_impaired,
        subtitle_flags(source, default, tags).contains("original"@) == tags.original,
        subtitle_flags(source, default, tags).contains("comment"@) == tags.commentary,
{
    reveal_strlit("default");
    reveal_strlit("forced");
    reveal_strlit("captions");
    reveal_strlit("hearing_impaired");
    reveal_strlit("original");
    reveal_strlit("comment");
    assert("default"@[0] == 'd' && "forced"@[0] == 'f' && "captions"@[0] == 'c'
        && "hearing_impaired"@[0] == 'h' && "original"@[0] == 'o' && "comment"@[0] == 'c');
    assert("captions"@.len() == 8 && "comment"@.len() == 7);
    let names = subtitle_flag_names();
    assert(names[0] == "default"@ && names[1] == "forced"@ && names[2] == "hearing_impaired"@
        && names[3] == "captions"@ && names[4] == "original"@ && names[5] == "comment"@);
    lemma_kept_in_stream(source, names, "default"@);
    lemma_kept_in_stream(source, names, "forced"@);
    lemma_kept_in_stream(source, names, "hearing_impaired"@);
    lemma_kept_in_stream(source, names, "captions"@);
    lemma_kept_in_stream(source, names, "original"@);
    lemma_kept_in_stream(source, names, "comment"@);
}

/// A flag of a track is kept where its `disposition` gives it the number one and it is not
/// written anew.
pub proof fn set_flags_are_kept(
    fields: Seq<(String, Value)>,
    rewritten: Seq<Seq<char>>,
    name: Seq<char>,
)
    ensures
        set_flags(fields, rewritten).contains(name) <==> !rewritten.contains(name) && exists|i: int|
            0 <= i < fields.len() && (#[trigger] fields[i]).0@ == name && fields[i].1.signed()
                == Some(1i64),
        Value::Number(Number::Whole(1)).signed() == Some(1i64),
        Value::Number(Number::Whole(0)).signed() == Some(0i64),
    decreases fields.len(),
{
    if fields.len() > 0 {
        let fewer = fields.drop_last();
        set_flags_are_kept(fewer, rewritten, name);
        assert forall|i: int| 0 <= i < fewer.len() implies #[trigger] fewer[i] == fields[i] by {}
        if exists|i: int|
            0 <= i < fields.len() && (#[trigger] fields[i]).0@ == name && fields[i].1.signed()
                == Some(1i64) {
            let i = choose|i: int|
                0 <= i < fields.len() && (#[trigger] fields[i]).0@ == name && fields[i].1.signed()
                    == Some(1i64);
            if i < fewer.len() {
                assert(fewer[i].0@ == name && fewer[i].1.signed() == Some(1i64));
            }
        }
        if set_flags(fewer, rewritten).contains(name) {
            let i = choose|i: int|
                0 <= i < fewer.len() && (#[trigger] fewer[i]).0@ == name && fewer[i].1.signed()
                    == Some(1i64);
            assert(fields[i].0@ == name);
        }
        assert(fields.last() == fields[fields.len() - 1]);
    }
}

/// The flags that an edit writes anew are those that its metadata can say.
pub proof fn flags_written_anew(name: Seq<char>)
    ensures
        subtitle_flag_names().contains(name) <==> name == "default"@ || name == "forced"@ || name
            == "hearing_impaired"@ || name == "captions"@ || name == "original"@ || name
            == "comment"@,
        audio_flag_names().contains(name) <==> name == "default"@ || name == "hearing_impaired"@
            || name == "visual_impaired"@ || name == "original"@ || name == "comment"@ || name
            == "dub"@,
        video_flag_names().contains(name) <==> name == "default"@ || name == "comment"@,
{
    let subtitle = subtitle_flag_names();
    assert(subtitle[0] == "default"@ && subtitle[1] == "forced"@ && subtitle[2]
        == "hearing_impaired"@ && subtitle[3] == "captions"@ && subtitle[4] == "original"@
        && subtitle[5] == "comment"@);
    let audio = audio_flag_names();
    assert(audio[0] == "default"@ && audio[1] == "hearing_impaired"@ && audio[2]
        == "visual_impaired"@ && audio[3] == "original"@ && audio[4] == "comment"@ && audio[5]
        == "dub"@);
    let video = video_flag_names();
    assert(video[0] == "default"@ && video[1] == "comment"@);
}

/// Flags are written in the order of their names with a plus sign between two, and as a
/// zero where there is none.
pub proof fn flags_are_written_in_order(names: Seq<Seq<char>>)
    requires
        sorted_by_order(names, text_less()),
    ensures
        flags_text(names.to_set()) == if names.len() == 0 {
            "0"@
        } else {
            joined(names, "+"@)
        },
{
    lemma_texts_in_order(names);
    if names.len() == 0 {
        assert(names.to_set() =~= Set::empty());
    } else {
        assert(names.to_set().contains(names[0]));
    }
}

} // verus!
