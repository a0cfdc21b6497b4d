//! Tag codec, pure part: assembling one song record from the values an
//! audio artifact yields (embedded tag fields, frame duration, file
//! name, sidecar lyrics), and planning the tag block that a metadata
//! write leaves behind.
use crate::cover::{
    b64_dec, cover_bytes_from_data_url, cover_data_url, spec_cover_data_url, strip_data_url_prefix,
};
use crate::strutil::{join_strings, join_with, split_char_seq, split_on_char, trim_str, trimmed};
use vstd::prelude::*;
use vstd::string::StrSliceExecFns;
use vstd::string::StringExecFns;

verus! {

/// One song's materialized record. A field whose backing artifact is
/// absent takes its zero value; a partial record is a normal state.
#[derive(Debug)]
pub struct Mp3MetadataInfo {
    /// Song title.
    pub name: String,
    /// Artists, in declared order.
    pub singer: Vec<String>,
    /// Duration in milliseconds.
    pub dt: u64,
    /// Album name.
    pub album: String,
    /// Path of the audio artifact.
    pub path: String,
    /// Cover image as a data URL.
    pub img: String,
    /// Lyrics text.
    pub lrc: String,
}

/// The fields read from an audio file's embedded tag block.
pub struct TagFields {
    pub title: Option<String>,
    pub artist: Option<String>,
    pub album: Option<String>,
    pub cover: Option<Vec<u8>>,
}

/// Errors of the tag codec.
#[derive(Clone, Copy, Debug, PartialEq, Eq, Structural)]
pub enum TagError {
    /// The cover field does not base64-decode.
    InvalidImageData,
}

impl TagError {
    /// A short description, for callers that surface errors as strings.
    pub fn message(&self) -> (r: String)
        ensures
            r@ == "cover image data does not decode"@,
    {
        match self {
            TagError::InvalidImageData => String::from_str("cover image data does not decode"),
        }
    }
}

/// Milliseconds of a duration given as whole seconds plus the
/// sub-second part in nanoseconds, computed in integer arithmetic.
pub fn duration_millis(secs: u64, subsec_nanos: u32) -> (r: u64)
    requires
        secs <= (u64::MAX - 999) / 1000,
        subsec_nanos < 1_000_000_000,
    ensures
        r == secs * 1000 + subsec_nanos / 1_000_000,
{
    secs * 1000 + (subsec_nanos / 1_000_000) as u64
}

/// An artist string split on commas, each segment trimmed.
pub open spec fn spec_split_singers(a: Seq<char>) -> Seq<Seq<char>> {
    split_char_seq(a, ',').map_values(|p: Seq<char>| trimmed(p))
}

/// Splits an artist string on commas and trims each segment.
pub fn split_singers(a: &str) -> (r: Vec<String>)
    ensures
        r.deep_view() == spec_split_singers(a@),
{
    let pieces = split_on_char(a, ',');
    let mut r: Vec<String> = Vec::new();
    let mut i: usize = 0;
    while i < pieces.len()
        invariant
            i <= pieces.len(),
            pieces.deep_view() == split_char_seq(a@, ','),
            r.deep_view() =~~= pieces.deep_view().take(i as int).map_values(
                |p: Seq<char>| trimmed(p),
            ),
        decreases pieces.len() - i,
    {
        let t = trim_str(pieces[i].as_str());
        let ghost old_r = r.deep_view();
        r.push(t);
        proof {
            assert(pieces.deep_view()[i as int] == pieces@[i as int]@);
            assert(r.deep_view() =~~= old_r.push(trimmed(pieces.deep_view()[i as int])));
            assert(pieces.deep_view().take(i + 1) =~~= pieces.deep_view().take(i as int).push(
                pieces.deep_view()[i as int],
            ));
            assert(pieces.deep_view().take(i + 1).map_values(|p: Seq<char>| trimmed(p)) =~~= pieces
                .deep_view()
                .take(i as int)
                .map_values(|p: Seq<char>| trimmed(p))
                .push(trimmed(pieces.deep_view()[i as int])));
        }
        i = i + 1;
    }
    proof {
        assert(pieces.deep_view().take(pieces.len() as int) =~~= pieces.deep_view());
    }
    r
}

/// `f` without a trailing `.mp3`, if it carries one.
pub open spec fn spec_strip_mp3_suffix(f: Seq<char>) -> Seq<char> {
    if has_mp3_suffix(f) {
        f.take(f.len() - 4)
    } else {
        f
    }
}

/// `f` ends with `.mp3`.
pub open spec fn has_mp3_suffix(f: Seq<char>) -> bool {
    &&& f.len() >= 4
    &&& f[f.len() - 4] == '.'
    &&& f[f.len() - 3] == 'm'
    &&& f[f.len() - 2] == 'p'
    &&& f[f.len() - 1] == '3'
}

/// Removes a trailing `.mp3` from a file name.
pub fn strip_mp3_suffix(f: &str) -> (r: String)
    ensures
        r@ == spec_strip_mp3_suffix(f@),
{
    let n = f.unicode_len();
    if n >= 4 && f.get_char(n - 4) == '.' && f.get_char(n - 3) == 'm' && f.get_char(n - 2) == 'p'
        && f.get_char(n - 1) == '3' {
        let r = String::from_str(f.substring_char(0, n - 4));
        proof {
            assert(f@.subrange(0, n - 4) =~= f@.take(f@.len() - 4));
        }
        r
    } else {
        String::from_str(f)
    }
}

/// The title a record carries: the embedded title when it is set and
/// non-empty, else the file name without its extension.
pub open spec fn spec_title_of(tag_title: Option<Seq<char>>, file_name: Seq<char>) -> Seq<char> {
    match tag_title {
        Some(t) => if t.len() > 0 {
            t
        } else {
            spec_strip_mp3_suffix(file_name)
        },
        None => spec_strip_mp3_suffix(file_name),
    }
}

/// Assembles a song record from the values read off one audio
/// artifact. An absent tag field, cover or sidecar yields the zero
/// value of the record field, never an error.
pub fn assemble_song_record(
    path: String,
    file_name: &str,
    secs: u64,
    subsec_nanos: u32,
    tag: TagFields,
    lyrics: Option<String>,
) -> (r: Mp3MetadataInfo)
    requires
        secs <= (u64::MAX - 999) / 1000,
        subsec_nanos < 1_000_000_000,
        tag.cover is Some ==> tag.cover.unwrap()@.len() <= usize::MAX / 4,
    ensures
        r.path == path,
        r.dt == secs * 1000 + subsec_nanos / 1_000_000,
        r.name@ == spec_title_of(
            match tag.title {
                Some(t) => Some(t@),
                None => None,
            },
            file_name@,
        ),
        r.singer.deep_view() == match tag.artist {
            Some(a) => spec_split_singers(a@),
            None => Seq::<Seq<char>>::empty(),
        },
        r.album@ == match tag.album {
            Some(al) => al@,
            None => Seq::<char>::empty(),
        },
        r.img@ == match tag.cover {
            Some(c) => spec_cover_data_url(c@),
            None => Seq::<char>::empty(),
        },
        r.lrc@ == match lyrics {
            Some(t) => t@,
            None => Seq::<char>::empty(),
        },
{
    let dt = duration_millis(secs, subsec_nanos);
    let name = match tag.title {
        Some(t) => if t.as_str().unicode_len() > 0 {
            t
        } else {
            strip_mp3_suffix(file_name)
        },
        None => strip_mp3_suffix(file_name),
    };
    let singer = match tag.artist {
        Some(a) => split_singers(a.as_str()),
        None => {
            let v: Vec<String> = Vec::new();
            proof {
                assert(v.deep_view() =~~= Seq::<Seq<char>>::empty());
            }
            v
        },
    };
    let album = match tag.album {
        Some(al) => al,
        None => String::new(),
    };
    let img = match tag.cover {
        Some(c) => cover_data_url(&c),
        None => String::new(),
    };
    let lrc = match lyrics {
        Some(t) => t,
        None => String::new(),
    };
    Mp3MetadataInfo { name, singer, dt, album, path, img, lrc }
}

/// The embedded tag block of an audio artifact, as plain values: what
/// the tag codec reads before a write and persists after it.
#[derive(Debug)]
pub struct TagBlock {
    pub title: Option<String>,
    pub artist: Option<String>,
    pub album: Option<String>,
    /// The embedded duration value.
    pub duration: Option<u32>,
    /// The embedded front-cover image bytes.
    pub cover: Option<Vec<u8>>,
}

/// Plans a metadata write: starting from the tag block already
/// embedded, sets title, artist and album only when the corresponding
/// input field is non-empty and the duration only when it is non-zero,
/// so a partial update preserves previously-set fields; decodes the
/// cover data URL and embeds its bytes, failing on a payload that does
/// not decode.
pub fn apply_tag_updates(existing: TagBlock, data: &Mp3MetadataInfo) -> (r: Result<
    TagBlock,
    TagError,
>)
    requires
        data.dt <= u32::MAX,
    ensures
        r is Ok <==> b64_dec(strip_data_url_prefix(data.img@)) is Some,
        r is Err ==> r.unwrap_err() == TagError::InvalidImageData,
        r is Ok ==> {
            let t = r.unwrap();
            &&& if data.name@.len() > 0 {
                t.title matches Some(x) && x@ == data.name@
            } else {
                t.title == existing.title
            }
            &&& {
                let joined = join_with(data.singer.deep_view(), seq![',']);
                if joined.len() > 0 {
                    t.artist matches Some(x) && x@ == joined
                } else {
                    t.artist == existing.artist
                }
            }
            &&& if data.album@.len() > 0 {
                t.album matches Some(x) && x@ == data.album@
            } else {
                t.album == existing.album
            }
            &&& if data.dt > 0 {
                t.duration == Some(data.dt as u32)
            } else {
                t.duration == existing.duration
            }
            &&& t.cover matches Some(c) && c@ == b64_dec(
                strip_data_url_prefix(data.img@),
            ).unwrap()
        },
{
    let cover_bytes = match cover_bytes_from_data_url(data.img.as_str()) {
        Some(c) => c,
        None => {
            return Err(TagError::InvalidImageData);
        },
    };
    let mut block = existing;
    if data.name.as_str().unicode_len() > 0 {
        block.title = Some(data.name.clone());
    }
    let joined = join_strings(&data.singer, ",");
    proof {
        reveal_strlit(",");
        assert(","@ =~= seq![',']);
    }
    if joined.as_str().unicode_len() > 0 {
        block.artist = Some(joined);
    }
    if data.album.as_str().unicode_len() > 0 {
        block.album = Some(data.album.clone());
    }
    if data.dt > 0 {
        block.duration = Some(data.dt as u32);
    }
    block.cover = Some(cover_bytes);
    Ok(block)
}

} // verus!
