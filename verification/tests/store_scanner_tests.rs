use wy_music::orchestrator::delete_targets_by_id;
use wy_music::path_codec::CodecError;
use wy_music::scanner::{
    filter_audio_names, find_first_match, list_base_names_by_ids, matches_id, resolve_ids,
    song_info, SiblingProbe,
};
use wy_music::store::{artifact_path, collect_failed_paths, delete_targets, sibling_path};

fn strings(items: &[&str]) -> Vec<String> {
    items.iter().map(|s| s.to_string()).collect()
}

#[test]
fn artifact_path_appends_extension() {
    assert_eq!(artifact_path("dir/home__ava__42", "mp3"), "dir/home__ava__42.mp3");
}

#[test]
fn sibling_path_replaces_extension() {
    assert_eq!(sibling_path("dir/song.mp3", "lrc"), "dir/song.lrc");
    assert_eq!(sibling_path("dir/song", "lrc"), "dir/song.lrc");
    // A dot in a directory name is no extension of the final component.
    assert_eq!(sibling_path("some.dir/song", "lrc"), "some.dir/song.lrc");
}

#[test]
fn delete_targets_cover_all_kinds() {
    let t = delete_targets("home__ava__42");
    assert_eq!(
        t,
        strings(&[
            "home__ava__42.mp3",
            "home__ava__42.jpg",
            "home__ava__42.txt",
            "home__ava__42.lrc",
        ])
    );
}

#[test]
fn delete_reports_only_failed_paths() {
    // The cover file is permission-locked; audio and text are removed.
    let attempts = vec![
        ("home__ava__42.mp3".to_string(), true),
        ("home__ava__42.jpg".to_string(), false),
        ("home__ava__42.txt".to_string(), true),
        ("home__ava__42.lrc".to_string(), true),
    ];
    let failed = collect_failed_paths(&attempts);
    assert_eq!(failed, strings(&["home__ava__42.jpg"]));
}

#[test]
fn delete_reports_nothing_on_full_success() {
    let attempts = vec![("a.mp3".to_string(), true), ("a.jpg".to_string(), true)];
    assert!(collect_failed_paths(&attempts).is_empty());
}

#[test]
fn filter_audio_names_is_case_insensitive() {
    let names = strings(&["a.mp3", "b.MP3", "c.jpg", "d.Mp3", "e.mp4", "f"]);
    assert_eq!(filter_audio_names(&names), strings(&["a.mp3", "b.MP3", "d.Mp3"]));
}

#[test]
fn song_info_with_only_cover_present() {
    let probe = SiblingProbe { audio: None, cover: true, lyrics: None };
    let rec = song_info("home__ava__42", probe).unwrap();
    assert_eq!(rec.duration_millis, 0);
    assert_eq!(rec.lyrics, "");
    assert!(!rec.cover_path.is_empty());
    assert_eq!(rec.cover_path, "home__ava__42.jpg");
    assert_eq!(rec.audio_path, "");
    assert_eq!(rec.identity.id, "42");
}

#[test]
fn song_info_with_all_artifacts() {
    let probe = SiblingProbe {
        audio: Some((61, 500_000_000)),
        cover: true,
        lyrics: Some("words".to_string()),
    };
    let rec = song_info("home__ava__42", probe).unwrap();
    assert_eq!(rec.duration_millis, 61500);
    assert_eq!(rec.lyrics, "words");
    assert_eq!(rec.audio_path, "home__ava__42.mp3");
    assert_eq!(rec.identity.title, "home");
    assert_eq!(rec.identity.artists, vec!["ava".to_string()]);
}

#[test]
fn song_info_rejects_malformed_name() {
    let probe = SiblingProbe { audio: None, cover: false, lyrics: None };
    let err = song_info("onlytwoparts__id", probe).unwrap_err();
    assert_eq!(err, CodecError::MalformedName);
}

#[test]
fn resolve_ids_skips_missing() {
    let names = strings(&["one__a__1", "two__b__2"]);
    let ids = strings(&["1", "2", "999"]);
    let hits = resolve_ids(&ids, &names);
    assert_eq!(hits, strings(&["one__a__1", "two__b__2"]));
}

#[test]
fn resolve_ids_matches_exact_segment_only() {
    // Id `1` must not claim the files of id `12`.
    let names = strings(&["song__a__12"]);
    let ids = strings(&["1"]);
    assert!(resolve_ids(&ids, &names).is_empty());
}

#[test]
fn list_by_ids_skips_missing_ids() {
    // A cache holding only ids 1 and 2 answers "1,2,999" with exactly
    // two records and no error for 999.
    let names = strings(&["one__a__1", "two__b__2"]);
    let hits = list_base_names_by_ids("1,2,999", &names);
    assert_eq!(hits.len(), 2);
    assert_eq!(hits, strings(&["one__a__1", "two__b__2"]));
}

#[test]
fn list_with_empty_request_lists_all_identities() {
    let names = strings(&["one__a__1", "notaname", "two__b__2"]);
    let hits = list_base_names_by_ids("", &names);
    assert_eq!(hits, strings(&["one__a__1", "two__b__2"]));
}

#[test]
fn matches_id_needs_exact_segment() {
    assert!(matches_id("one__a__1", &"1".to_string()));
    assert!(!matches_id("one__a__12", &"1".to_string()));
    assert!(!matches_id("notaname", &"1".to_string()));
}

#[test]
fn delete_by_id_targets_all_kinds_of_matches_only() {
    let names = strings(&["home__ava__42", "other__bo__7"]);
    let targets = delete_targets_by_id(&"42".to_string(), &names);
    assert_eq!(
        targets,
        strings(&[
            "home__ava__42.mp3",
            "home__ava__42.jpg",
            "home__ava__42.txt",
            "home__ava__42.lrc",
        ])
    );
}

#[test]
fn delete_by_id_best_effort_reports_locked_cover() {
    // Id 42's cover is permission-locked; audio and text are removed,
    // and only the cover path comes back as failed.
    let names = strings(&["home__ava__42"]);
    let targets = delete_targets_by_id(&"42".to_string(), &names);
    let attempts: Vec<(String, bool)> =
        targets.into_iter().map(|t| (t.clone(), !t.ends_with(".jpg"))).collect();
    let failed = collect_failed_paths(&attempts);
    assert_eq!(failed, strings(&["home__ava__42.jpg"]));
}

#[test]
fn find_first_match_takes_first_hit() {
    let names = strings(&["junk", "x__a__5", "y__b__5"]);
    let hit = find_first_match(&names, &"5".to_string()).unwrap();
    assert_eq!(hit, "x__a__5");
    assert!(find_first_match(&names, &"6".to_string()).is_none());
}
