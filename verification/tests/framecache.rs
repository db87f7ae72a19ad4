use std::collections::{BTreeMap, BTreeSet};

use reel::framecache::{
    cue_key, directory, is_cached, media_key, migrate, path, prune, read, store, touch,
    CacheEntry, Cue, FrameKeyParts, Migration, CACHE_FORMAT_VERSION, OFFSET, PRIME,
};
use reel::path::{FilePath, PathText};

const MEDIA: &str = "media-key";

fn parts(media: &str) -> FrameKeyParts<'_> {
    FrameKeyParts {
        media: media.as_bytes(),
        media_length: 1_000,
        media_modified: Some(1_700_000_000_000_000_000),
        pixels: (960, 540),
    }
}

fn cue(start: u64, end: u64) -> Cue {
    Cue { start, end }
}

/// The file that a cue is staged as.
fn staged(text: &str) -> String {
    format!("1\n00:00:00,000 --> 00:10:00,000\n{text}\n\n")
}

fn key(parts: FrameKeyParts<'_>, start: u64, end: u64, text: &str) -> String {
    format!("{}/{}", media_key(parts), cue_key(&cue(start, end), &staged(text)))
}

fn text(path: &str) -> PathText {
    PathText::Text(path.to_string())
}

fn cache() -> PathText {
    text("/cache")
}

fn hash(fields: &[&[u8]]) -> String {
    let mut value = OFFSET;
    for byte in fields.iter().flat_map(|field| field.iter()) {
        value = (value ^ u128::from(*byte)).wrapping_mul(PRIME);
    }
    format!("{value:032x}")
}

#[test]
fn the_same_media_and_cue_should_always_hash_the_same() {
    let media = "/media/show.mkv";
    assert_eq!(key(parts(media), 1000, 2000, "hello"), key(parts(media), 1000, 2000, "hello"));
    assert_eq!(media_key(parts(media)).len(), 32);
    assert_eq!(cue_key(&cue(1000, 2000), &staged("hello")).len(), 32);
}

#[test]
fn the_media_half_and_the_cue_half_should_each_hold_only_their_own_fields() {
    let media = "/media/show.mkv";
    let base = media_key(parts(media));
    assert_ne!(
        cue_key(&cue(1000, 2000), &staged("hello")),
        cue_key(&cue(3000, 4000), &staged("goodbye")),
    );
    assert_eq!(media_key(parts(media)), base);
    assert_ne!(media_key(parts("/media/other.mkv")), base);
    let mut relength = parts(media);
    relength.media_length = 1_001;
    assert_ne!(media_key(relength), base);
    let mut smaller = parts(media);
    smaller.pixels = (640, 360);
    assert_ne!(media_key(smaller), base);
}

#[test]
fn cues_that_read_alike_but_draw_differently_should_not_share_a_key() {
    let cue = cue(1000, 2000);
    let plain = "Dialogue: 0,0:00:00.00,0:10:00.00,Default,,0,0,0,,look out";
    let sign = "Dialogue: 0,0:00:00.00,0:10:00.00,Sign,,0,0,0,,{\\pos(320,10)}look out";
    assert_ne!(cue_key(&cue, plain), cue_key(&cue, sign));
    assert_eq!(cue_key(&cue, plain), cue_key(&cue, plain));
}

#[test]
fn cues_staged_alike_at_different_times_should_not_share_a_key() {
    let file = "1\n00:00:00,000 --> 00:10:00,000\nsame words\n\n";
    assert_ne!(cue_key(&cue(1000, 2000), file), cue_key(&cue(60_000, 61_000), file));
}

#[test]
fn anything_that_changes_the_frame_should_change_the_key() {
    let media = "/media/show.mkv";
    let base = key(parts(media), 1000, 2000, "hello");
    assert_ne!(key(parts(media), 1000, 2000, "hello!"), base);
    assert_ne!(key(parts(media), 1500, 2000, "hello"), base);
    assert_ne!(key(parts(media), 1000, 2500, "hello"), base);
    assert_ne!(key(parts("/media/other.mkv"), 1000, 2000, "hello"), base);
    let mut relength = parts(media);
    relength.media_length = 1_001;
    assert_ne!(key(relength, 1000, 2000, "hello"), base);
    let mut retimed = parts(media);
    retimed.media_modified = Some(1_700_000_001_000_000_000);
    assert_ne!(key(retimed, 1000, 2000, "hello"), base);
    let mut undated = parts(media);
    undated.media_modified = None;
    assert_ne!(key(undated, 1000, 2000, "hello"), base);
    let mut smaller = parts(media);
    smaller.pixels = (640, 360);
    assert_ne!(key(smaller, 1000, 2000, "hello"), base);
    let mut squashed = parts(media);
    squashed.pixels = (540, 960);
    assert_ne!(key(squashed, 1000, 2000, "hello"), base);
}

#[test]
fn the_format_version_should_be_part_of_every_media_directory() {
    let composed = |version: u32| {
        hash(&[
            b"/media/show.mkv",
            &[0xff, 0x00],
            &1_000u128.to_le_bytes(),
            &1_700_000_000_000_000_000u128.to_le_bytes(),
            &960u128.to_le_bytes(),
            &540u128.to_le_bytes(),
            &u128::from(version).to_le_bytes(),
        ])
    };
    assert_eq!(media_key(parts("/media/show.mkv")), composed(CACHE_FORMAT_VERSION));
    assert_ne!(composed(CACHE_FORMAT_VERSION), composed(CACHE_FORMAT_VERSION + 1));
}

#[test]
fn fields_should_not_run_into_one_another() {
    assert_ne!(
        key(parts("/media/ab"), 1000, 2000, "c"),
        key(parts("/media/a"), 1000, 2000, "bc"),
    );
}

#[test]
fn cue_keys_hash_the_staged_bytes_and_the_times() {
    assert_eq!(
        cue_key(&cue(1, 2), "Grüße"),
        hash(&[
            "Grüße".as_bytes(),
            &[0xff, 0x00],
            &1u128.to_le_bytes(),
            &2u128.to_le_bytes(),
        ]),
    );
}

#[test]
fn a_stored_frame_should_read_back_byte_for_byte() {
    let frame = b"\xff\xd8\xff frame bytes".to_vec();
    assert!(is_cached(Some(frame.len() as u64)));
    assert_eq!(read(Some(frame.clone())), Some(frame));
    // The temporary file is renamed onto the frame, so nothing is left beside it.
    let plan = store(Some(&cache()), MEDIA, "frame", 12, 3).unwrap();
    assert_eq!(plan.path, FilePath::at("/cache/preview_frames/media-key", "frame.jpg"));
    assert_eq!(plan.temporary, FilePath::at("/cache/preview_frames/media-key", ".frame.12.3.tmp"));
}

#[test]
fn a_key_that_was_never_stored_should_read_as_absent() {
    assert_eq!(read(None), None);
    assert!(!is_cached(None));
}

#[test]
fn an_empty_frame_file_should_read_as_absent() {
    assert_eq!(read(Some(vec![])), None);
    assert!(!is_cached(Some(0)));
}

fn entry(name: &str, is_directory: bool, hours_ago: i128) -> CacheEntry {
    CacheEntry { name: Some(name.to_string()), is_directory, used: -hours_ago }
}

/// The names of what a prune takes away.
fn pruned(entries: &[CacheEntry], tracks: usize, open: Option<&str>) -> BTreeSet<String> {
    let plan = prune(entries, tracks, open);
    plan.files
        .iter()
        .chain(plan.directories.iter())
        .map(|position| entries[*position].name.clone().unwrap())
        .collect()
}

fn names(list: &[&str]) -> BTreeSet<String> {
    list.iter().map(|name| name.to_string()).collect()
}

#[test]
fn pruning_should_delete_whole_tracks_least_recently_used_first() {
    let all = [entry("oldest", true, 3), entry("middle", true, 2), entry("newest", true, 1)];
    assert_eq!(pruned(&all, 2, None), names(&["oldest"]));
    assert_eq!(pruned(&all[1..], 2, None), names(&[]));
}

#[test]
fn pruning_should_rank_by_last_use_rather_than_last_write() {
    let all = [entry("watched", true, 0), entry("stale", true, 1)];
    assert_eq!(pruned(&all, 1, None), names(&["stale"]));
}

#[test]
fn pruning_should_never_evict_the_track_that_is_open() {
    let all = [entry("open", true, 100), entry("other", true, 2), entry("another", true, 1)];
    assert_eq!(pruned(&all, 2, Some("open")), names(&["other"]));
    let left = [entry("open", true, 100), entry("another", true, 1)];
    assert_eq!(pruned(&left, 0, Some("open")), names(&["another"]));
}

#[test]
fn pruning_should_sweep_files_left_in_the_cache_root() {
    let all = [
        entry("kept", true, 1),
        entry("0123456789abcdef.jpg", false, 1),
        entry("something-else", false, 1),
    ];
    assert_eq!(pruned(&all, 10, None), names(&["0123456789abcdef.jpg", "something-else"]));
}

#[test]
fn pruning_a_cache_that_does_not_exist_should_do_nothing() {
    assert_eq!(pruned(&[], 0, None), names(&[]));
}

#[test]
fn the_oldest_of_many_leaves_first() {
    let all = [entry("b", true, 2), entry("a", true, 9), entry("c", true, 2), entry("d", true, 5)];
    assert_eq!(prune(&all, 0, None).directories, vec![1, 3, 0, 2]);
    assert_eq!(prune(&all, 3, None).directories, vec![1]);
    assert_eq!(prune(&all, 4, None).directories, Vec::<usize>::new());
}

#[test]
fn the_resolved_cache_directory_should_be_the_one_beside_the_probe_cache() {
    let cache = cache();
    assert_eq!(directory(Some(&cache)), Some(text("/cache/preview_frames")));
    assert_eq!(
        path(Some(&cache), MEDIA, "frame"),
        Some(FilePath::at("/cache/preview_frames/media-key", "frame.jpg")),
    );
    assert_eq!(
        touch(Some(&cache), MEDIA),
        Some(FilePath::at("/cache/preview_frames/media-key", ".used")),
    );
    assert_eq!(directory(None), None);
    assert_eq!(path(None, MEDIA, "frame"), None);
    assert_eq!(touch(None, MEDIA), None);
    assert_eq!(store(None, MEDIA, "frame", 1, 1), None);
}

#[test]
fn migrating_a_track_should_carry_its_whole_directory_to_the_new_key() {
    assert_eq!(migrate("before", "after", true, false), Migration::Rename);
}

#[test]
fn migrating_should_answer_for_a_key_that_did_not_move_or_has_nothing_behind_it() {
    assert_eq!(migrate("here", "here", true, true), Migration::Settled(true));
    assert_eq!(migrate("missing", "elsewhere", false, false), Migration::Settled(false));
    assert_eq!(migrate("here", "newer", true, true), Migration::RemoveSource);
}

#[test]
fn two_writes_at_once_do_not_share_a_temporary_name() {
    let cache = cache();
    let plans: Vec<_> =
        (0..4).map(|write| store(Some(&cache), MEDIA, "frame", 7, write).unwrap()).collect();
    for (position, plan) in plans.iter().enumerate() {
        assert_eq!(plan.path, plans[0].path);
        for other in &plans[..position] {
            assert_ne!(plan.temporary, other.temporary);
        }
    }
}

#[test]
fn a_time_that_is_not_known_has_a_key_of_its_own() {
    let at = |modified: Option<i128>| {
        let mut parts = parts("/media/show.mkv");
        parts.media_modified = modified;
        media_key(parts)
    };
    assert_ne!(at(None), at(Some(0)));
    assert_ne!(at(Some(-1)), at(Some(0)));
    assert_ne!(at(Some(-1)), at(None));
    assert_ne!(at(Some(-1)), at(Some(-2)));
    assert_ne!(at(Some(i128::from(u64::MAX) + 1)), at(Some(0)));
    let fields = |time: u128| {
        hash(&[
            b"/media/show.mkv",
            &[0xff, 0x00],
            &1_000u128.to_le_bytes(),
            &time.to_le_bytes(),
            &960u128.to_le_bytes(),
            &540u128.to_le_bytes(),
            &u128::from(CACHE_FORMAT_VERSION).to_le_bytes(),
        ])
    };
    assert_eq!(at(Some(0)), fields(0));
    assert_eq!(at(Some(-2)), fields(u128::MAX - 1));
    assert_eq!(at(None), fields(1 << 127));
}

#[test]
fn a_directory_whose_name_is_no_text_leaves_like_any_other() {
    let nameless = |hours_ago: i128| CacheEntry { name: None, is_directory: true, used: -hours_ago };
    let all = [nameless(3), entry("named", true, 2), nameless(1)];
    assert_eq!(prune(&all, 1, None).directories, vec![0, 1]);
    assert_eq!(prune(&all, 0, None).directories, vec![0, 1, 2]);
    assert_eq!(prune(&all, 2, Some("named")).directories, vec![0]);
}

#[test]
fn two_processes_do_not_share_a_temporary_name() {
    let cache = cache();
    let name = |process: u32, write: u64| {
        store(Some(&cache), MEDIA, "frame", process, write).unwrap().temporary
    };
    assert_ne!(name(1, 11), name(11, 1));
    assert_ne!(name(1, 2), name(2, 2));
}

#[test]
fn keys_lead_where_a_path_joined_to_the_cache_leads() {
    let cache = cache();
    let shown = |media: &str, cue: &str| path(Some(&cache), media, cue).unwrap().shown();
    assert_eq!(shown("/elsewhere", "frame"), "/elsewhere/frame.jpg");
    assert_eq!(shown("media", "/elsewhere/frame"), "/elsewhere/frame.jpg");
    assert_eq!(shown("a/b", "c/frame"), "/cache/preview_frames/a/b/c/frame.jpg");
    assert_eq!(shown("a//b/", "frame"), "/cache/preview_frames/a//b/frame.jpg");
    assert_eq!(shown("", "frame"), "/cache/preview_frames/frame.jpg");
    assert_eq!(touch(Some(&cache), "/elsewhere").unwrap().shown(), "/elsewhere/.used");
    let plan = store(Some(&cache), "media", "/elsewhere/frame", 7, 1).unwrap();
    assert_eq!(plan.path.shown(), "/elsewhere/frame.jpg");
    assert_eq!(
        plan.temporary.shown(),
        "/cache/preview_frames/media/./elsewhere/frame.7.1.tmp",
    );
    assert_eq!(directory(Some(&text("/cache//"))).unwrap(), text("/cache//preview_frames"));
}

#[test]
fn a_stored_frame_is_read_back_and_nothing_else_changes() {
    let cache = cache();
    let mut files: BTreeMap<String, Vec<u8>> = BTreeMap::new();
    let other = path(Some(&cache), MEDIA, "other").unwrap().shown();
    files.insert(other.clone(), b"kept".to_vec());
    let plan = store(Some(&cache), MEDIA, "frame", 7, 1).unwrap();
    let frame = path(Some(&cache), MEDIA, "frame").unwrap().shown();
    files.insert(plan.temporary.shown(), b"half".to_vec());
    assert_eq!(read(files.get(&frame).cloned()), None);
    files.insert(plan.temporary.shown(), b"whole".to_vec());
    let written = files.remove(&plan.temporary.shown()).unwrap();
    files.insert(plan.path.shown(), written);
    assert_eq!(read(files.get(&frame).cloned()), Some(b"whole".to_vec()));
    assert_eq!(read(files.get(&other).cloned()), Some(b"kept".to_vec()));
    assert_eq!(files.len(), 2);
}
