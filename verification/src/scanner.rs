//! Library scanner: derives song records from cached artifact names.
//! The directory listing is the index; each call works from a fresh
//! listing the caller supplies, together with what it probed for each
//! base name.
use crate::path_codec::{decode, decode_ok, spec_decode, CodecError, SongIdentity};
use crate::record::duration_millis;
use crate::store::{artifact_path, spec_artifact_path};
use crate::strutil::{split_char_seq, split_on_char};
use vstd::prelude::*;
use vstd::string::StrSliceExecFns;
use vstd::string::StringExecFns;

verus! {

/// A file name with the audio extension, compared without regard to
/// ASCII case.
pub open spec fn is_audio_name(n: Seq<char>) -> bool {
    &&& n.len() >= 4
    &&& n[n.len() - 4] == '.'
    &&& (n[n.len() - 3] == 'm' || n[n.len() - 3] == 'M')
    &&& (n[n.len() - 2] == 'p' || n[n.len() - 2] == 'P')
    &&& n[n.len() - 1] == '3'
}

/// The audio names among `s`, in order.
pub open spec fn spec_audio_names(s: Seq<Seq<char>>) -> Seq<Seq<char>>
    decreases s.len(),
{
    if s.len() == 0 {
        Seq::empty()
    } else {
        let rest = spec_audio_names(s.drop_last());
        if is_audio_name(s.last()) {
            rest.push(s.last())
        } else {
            rest
        }
    }
}

fn name_has_audio_ext(n: &str) -> (r: bool)
    ensures
        r == is_audio_name(n@),
{
    let len = n.unicode_len();
    if len < 4 {
        return false;
    }
    let c3 = n.get_char(len - 3);
    let c2 = n.get_char(len - 2);
    n.get_char(len - 4) == '.' && (c3 == 'm' || c3 == 'M') && (c2 == 'p' || c2 == 'P')
        && n.get_char(len - 1) == '3'
}

/// Keeps the names that carry the audio extension, in order.
pub fn filter_audio_names(names: &Vec<String>) -> (r: Vec<String>)
    ensures
        r.deep_view() == spec_audio_names(names.deep_view()),
{
    let mut r: Vec<String> = Vec::new();
    let mut i: usize = 0;
    proof {
        assert(names.deep_view().take(0) =~~= Seq::<Seq<char>>::empty());
        assert(r.deep_view() =~~= Seq::<Seq<char>>::empty());
    }
    while i < names.len()
        invariant
            i <= names.len(),
            names.deep_view().len() == names@.len(),
            r.deep_view() =~~= spec_audio_names(names.deep_view().take(i as int)),
        decreases names.len() - i,
    {
        proof {
            assert(names.deep_view().take(i + 1).drop_last() =~~= names.deep_view().take(i as int));
            assert(names.deep_view().take(i + 1).last() == names.deep_view()[i as int]);
            assert(names.deep_view()[i as int] == names@[i as int]@);
        }
        if name_has_audio_ext(names[i].as_str()) {
            let ghost old_r = r.deep_view();
            let p = names[i].clone();
            r.push(p);
            proof {
                assert(r.deep_view() =~~= old_r.push(names.deep_view()[i as int]));
            }
        }
        i = i + 1;
    }
    proof {
        assert(names.deep_view().take(names@.len() as int) =~~= names.deep_view());
    }
    r
}

/// What the caller found beside one base name: the audio artifact's
/// duration when audio is present, whether a cover is present, and the
/// sidecar text when lyrics are present.
pub struct SiblingProbe {
    pub audio: Option<(u64, u32)>,
    pub cover: bool,
    pub lyrics: Option<String>,
}

/// One song's materialized view: its identity plus whatever artifacts
/// are present; absent artifacts yield zero values.
#[derive(Debug)]
pub struct SongRecord {
    pub identity: SongIdentity,
    pub duration_millis: u64,
    pub lyrics: String,
    pub cover_path: String,
    pub audio_path: String,
}

/// Builds the record of one base name from what was probed beside it.
/// Only a malformed base name is an error; missing sibling artifacts
/// never are.
pub fn song_info(base_name: &str, probe: SiblingProbe) -> (r: Result<SongRecord, CodecError>)
    requires
        probe.audio matches Some((secs, nanos)) ==> secs <= (u64::MAX - 999) / 1000 && nanos
            < 1_000_000_000,
    ensures
        r is Ok <==> decode_ok(base_name@),
        r is Err ==> r.unwrap_err() == CodecError::MalformedName,
        r is Ok ==> {
            let rec = r.unwrap();
            &&& Some(rec.identity@) == spec_decode(base_name@)
            &&& rec.duration_millis == match probe.audio {
                Some((secs, nanos)) => secs * 1000 + nanos / 1_000_000,
                None => 0,
            }
            &&& rec.lyrics@ == match probe.lyrics {
                Some(t) => t@,
                None => Seq::<char>::empty(),
            }
            &&& rec.cover_path@ == if probe.cover {
                spec_artifact_path(base_name@, "jpg"@)
            } else {
                Seq::<char>::empty()
            }
            &&& rec.audio_path@ == if probe.audio is Some {
                spec_artifact_path(base_name@, "mp3"@)
            } else {
                Seq::<char>::empty()
            }
        },
{
    let identity = match decode(base_name) {
        Ok(identity) => identity,
        Err(_) => {
            return Err(CodecError::MalformedName);
        },
    };
    let (duration, audio_path) = match probe.audio {
        Some((secs, nanos)) => (duration_millis(secs, nanos), artifact_path(base_name, "mp3")),
        None => (0u64, String::new()),
    };
    let cover_path = if probe.cover {
        artifact_path(base_name, "jpg")
    } else {
        String::new()
    };
    let lyrics = match probe.lyrics {
        Some(t) => t,
        None => String::new(),
    };
    Ok(SongRecord { identity, duration_millis: duration, lyrics, cover_path, audio_path })
}

/// The base name `n` resolves to the identity whose id is exactly
/// `id`: an exact segment match, not substring containment, so one id
/// never claims another id's files.
pub open spec fn name_matches_id(n: Seq<char>, id: Seq<char>) -> bool {
    decode_ok(n) && spec_decode(n).unwrap().id == id
}

/// The first name in `names` whose id segment is exactly `id`.
pub open spec fn find_match(names: Seq<Seq<char>>, id: Seq<char>) -> Option<Seq<char>>
    decreases names.len(),
{
    if names.len() == 0 {
        None
    } else if name_matches_id(names[0], id) {
        Some(names[0])
    } else {
        find_match(names.drop_first(), id)
    }
}

/// Each requested id's matching base name, in request order; ids with
/// no match are skipped, never an error.
pub open spec fn spec_resolve_ids(ids: Seq<Seq<char>>, names: Seq<Seq<char>>) -> Seq<Seq<char>>
    decreases ids.len(),
{
    if ids.len() == 0 {
        Seq::empty()
    } else {
        let rest = spec_resolve_ids(ids.drop_last(), names);
        match find_match(names, ids.last()) {
            Some(n) => rest.push(n),
            None => rest,
        }
    }
}

proof fn lemma_find_match_at(names: Seq<Seq<char>>, id: Seq<char>, j: int)
    requires
        0 <= j < names.len(),
        name_matches_id(names[j], id),
        forall|k: int| 0 <= k < j ==> !name_matches_id(names[k], id),
    ensures
        find_match(names, id) == Some(names[j]),
    decreases j,
{
    if j == 0 {
    } else {
        assert(!name_matches_id(names[0], id));
        assert(names.drop_first()[j - 1] == names[j]);
        assert forall|k: int| 0 <= k < j - 1 implies !name_matches_id(
            #[trigger] names.drop_first()[k],
            id,
        ) by {
            assert(names.drop_first()[k] == names[k + 1]);
        }
        lemma_find_match_at(names.drop_first(), id, j - 1);
    }
}

proof fn lemma_find_match_none(names: Seq<Seq<char>>, id: Seq<char>)
    requires
        forall|k: int| 0 <= k < names.len() ==> !name_matches_id(#[trigger] names[k], id),
    ensures
        find_match(names, id) is None,
    decreases names.len(),
{
    if names.len() > 0 {
        assert forall|k: int| 0 <= k < names.drop_first().len() implies !name_matches_id(
            #[trigger] names.drop_first()[k],
            id,
        ) by {
            assert(names.drop_first()[k] == names[k + 1]);
        }
        lemma_find_match_none(names.drop_first(), id);
    }
}

/// Whether the base name `n` carries exactly the id `id`.
pub fn matches_id(n: &str, id: &String) -> (r: bool)
    ensures
        r == name_matches_id(n@, id@),
{
    match decode(n) {
        Ok(identity) => identity.id == *id,
        Err(_) => false,
    }
}

/// The first cached base name whose id segment is exactly `id`.
pub fn find_first_match(names: &Vec<String>, id: &String) -> (r: Option<String>)
    ensures
        match r {
            Some(n) => find_match(names.deep_view(), id@) == Some(n@),
            None => find_match(names.deep_view(), id@) is None,
        },
{
    let mut j: usize = 0;
    while j < names.len()
        invariant
            j <= names.len(),
            names.deep_view().len() == names@.len(),
            forall|k: int| 0 <= k < j ==> !name_matches_id(#[trigger] names.deep_view()[k], id@),
        decreases names.len() - j,
    {
        proof {
            assert(names.deep_view()[j as int] == names@[j as int]@);
        }
        if matches_id(names[j].as_str(), id) {
            proof {
                lemma_find_match_at(names.deep_view(), id@, j as int);
            }
            return Some(names[j].clone());
        }
        j = j + 1;
    }
    proof {
        lemma_find_match_none(names.deep_view(), id@);
    }
    None
}

/// Resolves each requested id against the cached base names by exact
/// id-segment match, keeping request order and skipping ids with no
/// match.
pub fn resolve_ids(ids: &Vec<String>, names: &Vec<String>) -> (r: Vec<String>)
    ensures
        r.deep_view() == spec_resolve_ids(ids.deep_view(), names.deep_view()),
{
    let mut r: Vec<String> = Vec::new();
    let mut i: usize = 0;
    proof {
        assert(ids.deep_view().take(0) =~~= Seq::<Seq<char>>::empty());
        assert(r.deep_view() =~~= Seq::<Seq<char>>::empty());
    }
    while i < ids.len()
        invariant
            i <= ids.len(),
            ids.deep_view().len() == ids@.len(),
            r.deep_view() =~~= spec_resolve_ids(ids.deep_view().take(i as int), names.deep_view()),
        decreases ids.len() - i,
    {
        proof {
            assert(ids.deep_view().take(i + 1).drop_last() =~~= ids.deep_view().take(i as int));
            assert(ids.deep_view().take(i + 1).last() == ids.deep_view()[i as int]);
            assert(ids.deep_view()[i as int] == ids@[i as int]@);
        }
        match find_first_match(names, &ids[i]) {
            Some(hit) => {
                let ghost old_r = r.deep_view();
                r.push(hit);
                proof {
                    assert(r.deep_view() =~~= old_r.push(
                        find_match(names.deep_view(), ids.deep_view()[i as int]).unwrap(),
                    ));
                }
            },
            None => {},
        }
        i = i + 1;
    }
    proof {
        assert(ids.deep_view().take(ids@.len() as int) =~~= ids.deep_view());
    }
    r
}

/// The names that decode to an identity, in order: with no ids
/// requested, every cached identity is listed.
pub open spec fn spec_decodable_names(s: Seq<Seq<char>>) -> Seq<Seq<char>>
    decreases s.len(),
{
    if s.len() == 0 {
        Seq::empty()
    } else {
        let rest = spec_decodable_names(s.drop_last());
        if decode_ok(s.last()) {
            rest.push(s.last())
        } else {
            rest
        }
    }
}

/// Keeps the base names that decode to an identity, in order.
pub fn decodable_names(names: &Vec<String>) -> (r: Vec<String>)
    ensures
        r.deep_view() == spec_decodable_names(names.deep_view()),
{
    let mut r: Vec<String> = Vec::new();
    let mut i: usize = 0;
    proof {
        assert(names.deep_view().take(0) =~~= Seq::<Seq<char>>::empty());
        assert(r.deep_view() =~~= Seq::<Seq<char>>::empty());
    }
    while i < names.len()
        invariant
            i <= names.len(),
            names.deep_view().len() == names@.len(),
            r.deep_view() =~~= spec_decodable_names(names.deep_view().take(i as int)),
        decreases names.len() - i,
    {
        proof {
            assert(names.deep_view().take(i + 1).drop_last() =~~= names.deep_view().take(i as int));
            assert(names.deep_view().take(i + 1).last() == names.deep_view()[i as int]);
            assert(names.deep_view()[i as int] == names@[i as int]@);
        }
        let keep = match decode(names[i].as_str()) {
            Ok(_) => true,
            Err(_) => false,
        };
        if keep {
            let ghost old_r = r.deep_view();
            let n = names[i].clone();
            r.push(n);
            proof {
                assert(r.deep_view() =~~= old_r.push(names.deep_view()[i as int]));
            }
        }
        i = i + 1;
    }
    proof {
        assert(names.deep_view().take(names@.len() as int) =~~= names.deep_view());
    }
    r
}

/// The base names a bulk listing visits: the requested comma-separated
/// ids resolved by exact id match, missing ids silently skipped; an
/// empty request means every cached identity.
pub fn list_base_names_by_ids(ids_csv: &str, names: &Vec<String>) -> (r: Vec<String>)
    ensures
        ids_csv@.len() == 0 ==> r.deep_view() == spec_decodable_names(names.deep_view()),
        ids_csv@.len() > 0 ==> r.deep_view() == spec_resolve_ids(
            split_char_seq(ids_csv@, ','),
            names.deep_view(),
        ),
{
    if ids_csv.unicode_len() == 0 {
        decodable_names(names)
    } else {
        let ids = split_on_char(ids_csv, ',');
        resolve_ids(&ids, names)
    }
}

} // verus!
