use wy_music::path_codec::{decode, encode, CodecError, SongIdentity};

fn identity(id: &str, title: &str, artists: &[&str]) -> SongIdentity {
    SongIdentity {
        id: id.to_string(),
        title: title.to_string(),
        artists: artists.iter().map(|a| a.to_string()).collect(),
    }
}

#[test]
fn round_trip_single_artist() {
    let x = identity("42", "home", &["ava"]);
    let name = encode(&x).unwrap();
    assert_eq!(name, "home__ava__42");
    let y = decode(&name).unwrap();
    assert_eq!(y.id, "42");
    assert_eq!(y.title, "home");
    assert_eq!(y.artists, vec!["ava".to_string()]);
}

#[test]
fn round_trip_many_artists() {
    let x = identity("7", "duet night", &["first voice", "second voice", "third"]);
    let name = encode(&x).unwrap();
    assert_eq!(name, "duet night__first voice_#_second voice_#_third__7");
    let y = decode(&name).unwrap();
    assert_eq!(y.id, x.id);
    assert_eq!(y.title, x.title);
    assert_eq!(y.artists, x.artists);
}

#[test]
fn round_trip_non_ascii_fields() {
    let x = identity("9001", "我好想你", &["王万", "李雷"]);
    let name = encode(&x).unwrap();
    let y = decode(&name).unwrap();
    assert_eq!(y.id, x.id);
    assert_eq!(y.title, x.title);
    assert_eq!(y.artists, x.artists);
}

#[test]
fn round_trip_artist_with_single_underscores() {
    // A lone underscore inside a field is no reserved delimiter.
    let x = identity("3", "a_b", &["c_d"]);
    let name = encode(&x).unwrap();
    let y = decode(&name).unwrap();
    assert_eq!(y.id, x.id);
    assert_eq!(y.title, x.title);
    assert_eq!(y.artists, x.artists);
}

#[test]
fn encode_rejects_reserved_delimiter_in_title() {
    let x = identity("1", "bad__title", &["ok"]);
    assert_eq!(encode(&x).unwrap_err(), CodecError::InvalidField);
}

#[test]
fn encode_rejects_reserved_delimiter_in_artist() {
    let x = identity("1", "ok", &["a_#_b"]);
    assert_eq!(encode(&x).unwrap_err(), CodecError::InvalidField);
}

#[test]
fn encode_rejects_reserved_delimiter_in_id() {
    let x = identity("4__2", "ok", &["ok"]);
    assert_eq!(encode(&x).unwrap_err(), CodecError::InvalidField);
}

#[test]
fn decode_rejects_two_segments() {
    let r = decode("onlytwoparts__id");
    assert_eq!(r.unwrap_err(), CodecError::MalformedName);
}

#[test]
fn decode_rejects_no_delimiter() {
    assert_eq!(decode("plainname").unwrap_err(), CodecError::MalformedName);
}

#[test]
fn decode_rejects_overlapping_delimiters() {
    // `a___b` holds two overlapping `__` occurrences but no room for a
    // middle segment.
    assert_eq!(decode("a___b").unwrap_err(), CodecError::MalformedName);
}

#[test]
fn decode_takes_first_and_last_delimiter() {
    // Extra `__` occurrences inside the middle go to the artist list.
    let y = decode("title__a__b__42").unwrap();
    assert_eq!(y.title, "title");
    assert_eq!(y.id, "42");
    assert_eq!(y.artists, vec!["a__b".to_string()]);
}

#[test]
fn decode_empty_title_and_id() {
    let y = decode("__solo__").unwrap();
    assert_eq!(y.title, "");
    assert_eq!(y.artists, vec!["solo".to_string()]);
    assert_eq!(y.id, "");
}

#[test]
fn codec_error_messages_differ() {
    assert_ne!(
        CodecError::InvalidField.message(),
        CodecError::MalformedName.message()
    );
}
