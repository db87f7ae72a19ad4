use reel::files::{
    debounce_remaining, reconcile_interval, scan_chunk_size, scan_directory, snapshot_changed,
    DirectorySnapshot, FileEntry, FileFingerprint, FoundFile, NETWORK_SCAN_CONCURRENCY,
};
use reel::path::{FileName, FilePath, PathText};

fn found(name: &str, is_file: bool, length: Option<u64>) -> FoundFile {
    FoundFile {
        path: FilePath::at("/videos", name),
        display_name: name.to_string(),
        is_file,
        fingerprint: length.map(|length| FileFingerprint { length, modified: None }),
    }
}

fn file(name: &str) -> FoundFile {
    found(name, true, Some(0))
}

fn names(entries: &[FileEntry]) -> Vec<&str> {
    entries.iter().map(|entry| entry.display_name.as_str()).collect()
}

#[test]
fn scan_directory_should_return_regular_files_in_case_insensitive_order_when_directory_contains_files_and_folder(
) {
    let listing = scan_directory(&[
        found("folder", false, Some(0)),
        file("zeta.mp4"),
        file("Alpha.txt"),
        file(".hidden"),
        file(".reel-tui-123-video.mkv"),
    ]);
    assert_eq!(names(&listing), vec![".hidden", "Alpha.txt", "zeta.mp4"]);
}

#[test]
fn scan_directory_should_return_empty_list_when_directory_is_empty() {
    assert!(scan_directory(&[]).is_empty());
}

#[test]
fn letters_beyond_ascii_are_ordered_in_lower_case() {
    let listing = scan_directory(&[file("Ünder.mkv"), file("über.mkv"), file("Zoo.mkv")]);
    assert_eq!(names(&listing), vec!["Zoo.mkv", "über.mkv", "Ünder.mkv"]);
}

#[test]
fn names_that_differ_only_in_case_come_in_the_order_of_their_letters() {
    let listing = scan_directory(&[file("b.mkv"), file("B.mkv"), file("a.mkv")]);
    assert_eq!(names(&listing), vec!["a.mkv", "B.mkv", "b.mkv"]);
}

#[test]
fn stat_candidates_concurrently_should_return_metadata_for_every_candidate_across_chunks() {
    let candidates = NETWORK_SCAN_CONCURRENCY * 3;
    let found: Vec<FoundFile> = (0..candidates)
        .map(|index| found(&format!("movie-{index}.mkv"), true, Some(16)))
        .collect();
    let chunks: Vec<&[FoundFile]> = found.chunks(scan_chunk_size(candidates)).collect();
    assert!(chunks.len() <= NETWORK_SCAN_CONCURRENCY);
    let listing = scan_directory(&found);
    assert_eq!(listing.len(), candidates);
    for entry in &listing {
        assert_eq!(entry.fingerprint.length, 16);
    }
}

#[test]
fn stat_candidates_concurrently_should_silently_drop_a_candidate_that_no_longer_exists() {
    let listing =
        scan_directory(&[found("present.mkv", true, Some(5)), found("missing.mkv", true, None)]);
    assert_eq!(listing.len(), 1);
    assert_eq!(listing[0].path, FilePath::at("/videos", "present.mkv"));
}

#[test]
fn chunks_are_never_empty() {
    assert_eq!(scan_chunk_size(0), 1);
    assert_eq!(scan_chunk_size(1), 1);
    assert_eq!(scan_chunk_size(8), 1);
    assert_eq!(scan_chunk_size(9), 2);
    assert_eq!(scan_chunk_size(24), 3);
}

#[test]
fn a_snapshot_is_sent_only_when_it_changed() {
    let listing = |length| {
        DirectorySnapshot::Files(scan_directory(&[found("movie.mkv", true, Some(length))]))
    };
    let error = |text: &str| DirectorySnapshot::Error(text.to_string());
    assert!(snapshot_changed(None, &listing(1)));
    assert!(!snapshot_changed(Some(&listing(1)), &listing(1)));
    assert!(snapshot_changed(Some(&listing(1)), &listing(2)));
    assert!(snapshot_changed(Some(&listing(1)), &error("gone")));
    assert!(!snapshot_changed(Some(&error("gone")), &error("gone")));
    assert!(snapshot_changed(Some(&error("gone")), &error("busy")));
}

#[test]
fn network_directories_are_reconciled_less_often() {
    assert_eq!(reconcile_interval(false), 1_000);
    assert_eq!(reconcile_interval(true), 10_000);
    assert_eq!(debounce_remaining(0), Some(150));
    assert_eq!(debounce_remaining(149), Some(1));
    assert_eq!(debounce_remaining(150), None);
}

#[test]
fn fingerprints_tell_files_apart() {
    let listed = FileFingerprint { length: 8, modified: Some(1) };
    assert!(listed.same(listed));
    assert!(!listed.same(FileFingerprint { length: 8, modified: Some(2) }));
    assert!(!listed.same(FileFingerprint { length: 9, modified: Some(1) }));
    assert!(!listed.same(FileFingerprint { length: 8, modified: None }));
}

#[test]
fn paths_show_what_is_not_text_with_replacements() {
    let raw = PathText::Raw(b"mo\xffvie".to_vec());
    assert_eq!(raw.shown(), "mo\u{fffd}vie");
    assert_eq!(raw.text(), None);
    let name = FilePath::at("/videos", "movie.eng.srt");
    assert_eq!(name.stem(), Some("movie.eng"));
    assert_eq!(name.extension(), Some("srt"));
    assert_eq!(name.shown(), "/videos/movie.eng.srt");
    assert_eq!(FilePath::at("/videos", ".hidden").extension(), None);
    assert_eq!(FilePath::at("/videos", ".hidden").stem(), Some(".hidden"));
    assert_eq!(name.sibling("other").shown(), "/videos/other");
}

#[test]
fn paths_are_compared_step_by_step() {
    let path = FilePath::at;
    assert!(path("/v//", "x").same(&path("/v", "x")));
    assert!(path("/v/./a", "x").same(&path("/v/a/", "x")));
    assert!(!path("./v", "x").same(&path("v", "x")));
    assert!(!path("/v", "x").same(&path("v", "x")));
    assert!(!path("/v/..", "x").same(&path("/", "x")));
    assert_eq!(path("/", "x").shown(), "/x");
    assert_eq!(path("", "x").shown(), "x");

    assert!(path("/v/a", "x").stands_before(&path("/v", "z")));
    assert!(!path("/v", "z").stands_before(&path("/v/a", "x")));
    assert!(path("/v", "a.b").stands_before(&path("/v", "a.c")));
    assert!(path("/z", "x").stands_before(&path("a", "x")));
    assert!(path("./z", "x").stands_before(&path("../a", "x")));
    assert!(path("..", "x").stands_before(&path("-", "x")));
    assert!(path("/v", "z").stands_before(&path("/v", "é")));
    assert!(path("/v", "z").stands_before(&path("/v/z", "a")));
    assert!(!path("/v", "z").stands_before(&path("/v", "z")));
    let raw = FilePath {
        directory: Some(PathText::Raw(b"/v\xff".to_vec())),
        gap: "/".to_string(),
        name: Some(FileName::of("x")),
        tail: String::new(),
    };
    assert!(path("/v", "x").stands_before(&raw) && raw.stands_before(&path("/w", "x")));
    let root = FilePath { directory: None, gap: "/".to_string(), name: None, tail: String::new() };
    assert!(root.stands_before(&path("/", "a")));
    assert_eq!(root.shown(), "/");
    let above = FilePath {
        directory: Some(PathText::Text("/v".to_string())),
        gap: "/..".to_string(),
        name: None,
        tail: String::new(),
    };
    assert_eq!(above.shown(), "/v/..");
    assert!(above.stands_before(&path("/v", "-")));
    assert_eq!(above.sibling("x").shown(), "/v/../x");
}

#[test]
fn paths_keep_their_spelling() {
    let path = FilePath::at;
    assert_eq!(path("/v//a/", "x.srt").shown(), "/v//a/x.srt");
    assert_eq!(path("/v/./a", "x.srt").shown(), "/v/./a/x.srt");
    assert_eq!(path("./v", "x.srt").shown(), "./v/x.srt");
    assert_eq!(path("/v//a//", "x.srt").directory, Some(PathText::Text("/v//a".to_string())));
    assert_eq!(path("/v/a/.", "x.srt").directory, Some(PathText::Text("/v/a".to_string())));
    assert_eq!(path("/v/a/.", "x.srt").shown(), "/v/a/./x.srt");
    assert_eq!(path("/v//a//", "x.srt").sibling("y.srt").shown(), "/v//a/y.srt");
    assert_eq!(path("/v//a//", "x.srt").with_extension("ass").shown(), "/v//a//x.ass");
    let slash = FilePath { tail: "/".to_string(), ..path("/v", "x.srt") };
    assert_eq!(slash.shown(), "/v/x.srt/");
    assert!(slash.same(&path("/v//", "x.srt")));
    assert_eq!(slash.with_extension("ass").shown(), "/v/x.ass");
    let raw = FilePath::inside(&PathText::Raw(b"/v\xff//".to_vec()), "x.srt");
    assert_eq!(raw.shown(), "/v\u{fffd}//x.srt");
    assert_eq!(raw.directory, Some(PathText::Raw(b"/v\xff".to_vec())));
}

#[test]
fn what_is_joined_to_a_directory_is_read_as_a_path() {
    let path = FilePath::at;
    assert_eq!(path("/v", "/w/x.srt").shown(), "/w/x.srt");
    assert_eq!(path("/v", "a/x.srt").shown(), "/v/a/x.srt");
    assert!(path("/v", "a/x.srt").same(&path("/v/a", "x.srt")));
    assert_eq!(path("/v", "a/x.srt").stem(), Some("x"));
    let directory = PathText::Text("/v".to_string());
    assert_eq!(directory.join("a/b"), PathText::Text("/v/a/b".to_string()));
    assert_eq!(directory.join("/w"), PathText::Text("/w".to_string()));
    assert_eq!(PathText::Text(String::new()).join("a"), PathText::Text("a".to_string()));
    assert_eq!(PathText::Raw(b"\xff".to_vec()).join("a"), PathText::Raw(b"\xff/a".to_vec()));
}
