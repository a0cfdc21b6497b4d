use wy_music::cover::{cover_bytes_from_data_url, cover_data_url};
use wy_music::record::{
    apply_tag_updates, assemble_song_record, duration_millis, split_singers, strip_mp3_suffix,
    Mp3MetadataInfo, TagBlock, TagError, TagFields,
};

fn record(name: &str, singer: &[&str], dt: u64, album: &str, img: &str) -> Mp3MetadataInfo {
    Mp3MetadataInfo {
        name: name.to_string(),
        singer: singer.iter().map(|s| s.to_string()).collect(),
        dt,
        album: album.to_string(),
        path: String::new(),
        img: img.to_string(),
        lrc: String::new(),
    }
}

fn empty_block() -> TagBlock {
    TagBlock { title: None, artist: None, album: None, duration: None, cover: None }
}

#[test]
fn duration_is_exact_integer_millis() {
    // 61 s plus 500 ms of sub-second nanoseconds is exactly 61500 ms.
    assert_eq!(duration_millis(61, 500_000_000), 61500);
}

#[test]
fn duration_truncates_sub_millisecond_rest() {
    assert_eq!(duration_millis(0, 999_999), 0);
    assert_eq!(duration_millis(2, 1_000_000), 2001);
}

#[test]
fn split_singers_trims_each_segment() {
    let v = split_singers("ava , bo,  cy");
    assert_eq!(v, vec!["ava".to_string(), "bo".to_string(), "cy".to_string()]);
}

#[test]
fn split_singers_single_name() {
    assert_eq!(split_singers("solo"), vec!["solo".to_string()]);
}

#[test]
fn strip_mp3_suffix_removes_extension() {
    assert_eq!(strip_mp3_suffix("song.mp3"), "song");
    assert_eq!(strip_mp3_suffix("song"), "song");
    assert_eq!(strip_mp3_suffix("song.ogg"), "song.ogg");
}

#[test]
fn cover_data_url_round_trip() {
    let bytes = vec![1u8, 2, 3, 4, 5, 255, 0, 128];
    let url = cover_data_url(&bytes);
    assert!(url.starts_with("data:image/jpeg;base64,"));
    let back = cover_bytes_from_data_url(&url).unwrap();
    assert_eq!(back, bytes);
}

#[test]
fn cover_decode_accepts_bare_payload() {
    // AQID is the standard base64 of the bytes 1, 2, 3.
    assert_eq!(cover_bytes_from_data_url("AQID").unwrap(), vec![1u8, 2, 3]);
}

#[test]
fn cover_decode_rejects_bad_payload() {
    assert!(cover_bytes_from_data_url("data:image/jpeg;base64,@@@@").is_none());
}

#[test]
fn assemble_uses_embedded_title_when_set() {
    let tag = TagFields {
        title: Some("real title".to_string()),
        artist: Some("a, b".to_string()),
        album: Some("the album".to_string()),
        cover: Some(vec![9u8, 8, 7]),
    };
    let r = assemble_song_record(
        "/cache/x.mp3".to_string(),
        "x.mp3",
        61,
        500_000_000,
        tag,
        Some("la la".to_string()),
    );
    assert_eq!(r.name, "real title");
    assert_eq!(r.singer, vec!["a".to_string(), "b".to_string()]);
    assert_eq!(r.dt, 61500);
    assert_eq!(r.album, "the album");
    assert_eq!(r.path, "/cache/x.mp3");
    assert_eq!(r.img, cover_data_url(&vec![9u8, 8, 7]));
    assert_eq!(r.lrc, "la la");
}

#[test]
fn assemble_falls_back_to_file_name() {
    let tag = TagFields { title: Some(String::new()), artist: None, album: None, cover: None };
    let r = assemble_song_record("p".to_string(), "my song.mp3", 0, 0, tag, None);
    assert_eq!(r.name, "my song");
    assert!(r.singer.is_empty());
    assert_eq!(r.dt, 0);
    assert_eq!(r.album, "");
    assert_eq!(r.img, "");
    assert_eq!(r.lrc, "");
}

#[test]
fn apply_updates_sets_nonempty_fields() {
    let data = record("t", &["a", "b"], 61500, "al", "data:image/jpeg;base64,AQID");
    let out = apply_tag_updates(empty_block(), &data).unwrap();
    assert_eq!(out.title.as_deref(), Some("t"));
    assert_eq!(out.artist.as_deref(), Some("a,b"));
    assert_eq!(out.album.as_deref(), Some("al"));
    assert_eq!(out.duration, Some(61500));
    assert_eq!(out.cover, Some(vec![1u8, 2, 3]));
}

#[test]
fn apply_updates_preserves_existing_on_empty_input() {
    let existing = TagBlock {
        title: Some("kept title".to_string()),
        artist: Some("kept artist".to_string()),
        album: Some("kept album".to_string()),
        duration: Some(77),
        cover: None,
    };
    let data = record("", &[], 0, "", "");
    let out = apply_tag_updates(existing, &data).unwrap();
    assert_eq!(out.title.as_deref(), Some("kept title"));
    assert_eq!(out.artist.as_deref(), Some("kept artist"));
    assert_eq!(out.album.as_deref(), Some("kept album"));
    assert_eq!(out.duration, Some(77));
    // The empty cover field decodes to no bytes and is embedded as such.
    assert_eq!(out.cover, Some(Vec::new()));
}

#[test]
fn apply_updates_rejects_undecodable_cover() {
    let data = record("t", &["a"], 1, "al", "data:image/jpeg;base64,!!");
    let err = apply_tag_updates(empty_block(), &data).unwrap_err();
    assert_eq!(err, TagError::InvalidImageData);
    assert!(!TagError::InvalidImageData.message().is_empty());
}
