//! Path codec: a song's identity (title, artist list, id) encoded into
//! and decoded from a filesystem-safe base name.
//!
//! The base name is `<title>__<artists>__<id>` where the artist list is
//! joined with `_#_`. Decoding takes the segment before the leftmost
//! `__` as the title and the segment after the rightmost `__` as the
//! id, mirroring the encode order; everything between is the artist
//! list.
use crate::strutil::{
    contains_sep2, contains_sep3, ends_sep3_prefix, find_first_sep2, find_last_sep2, first_sep2,
    has_sep2, has_sep3, is_first_sep2, is_last_sep2, join_strings, join_with, last_sep2,
    lemma_first_sep2_exists, lemma_first_sep2_unique, lemma_last_sep2_exists,
    lemma_last_sep2_unique, lemma_split_join_sep3, sep2_at, sep2_seq, sep3_seq, split_on_sep3,
    split_sep3,
};
use vstd::prelude::*;
use vstd::string::StrSliceExecFns;
use vstd::string::StringExecFns;

verus! {

/// Mathematical form of a song identity.
#[verifier::ext_equal]
pub struct SongIdentityView {
    pub id: Seq<char>,
    pub title: Seq<char>,
    pub artists: Seq<Seq<char>>,
}

/// A cached song's identity: the id is the sole lookup key; the artist
/// order is the declared order.
#[derive(Debug)]
pub struct SongIdentity {
    pub id: String,
    pub title: String,
    pub artists: Vec<String>,
}

impl View for SongIdentity {
    type V = SongIdentityView;

    open spec fn view(&self) -> SongIdentityView {
        SongIdentityView { id: self.id@, title: self.title@, artists: self.artists.deep_view() }
    }
}

impl SongIdentityView {
    /// No field contains a reserved delimiter.
    pub open spec fn delimiter_free(self) -> bool {
        &&& !has_sep2(self.title)
        &&& !has_sep3(self.title)
        &&& !has_sep2(self.id)
        &&& !has_sep3(self.id)
        &&& forall|i: int|
            0 <= i < self.artists.len() ==> !has_sep2(#[trigger] self.artists[i]) && !has_sep3(
                self.artists[i],
            )
    }
}

/// Errors of the path codec.
#[derive(Clone, Copy, Debug, PartialEq, Eq, Structural)]
pub enum CodecError {
    /// A field of the identity contains a reserved delimiter.
    InvalidField,
    /// The base name does not split into at least three segments.
    MalformedName,
}

impl CodecError {
    /// A short description, for callers that surface errors as strings.
    pub fn message(&self) -> (r: String)
        ensures
            r@ == match self {
                CodecError::InvalidField => "field contains a reserved delimiter"@,
                CodecError::MalformedName => "base name has fewer than three segments"@,
            },
    {
        match self {
            CodecError::InvalidField => String::from_str("field contains a reserved delimiter"),
            CodecError::MalformedName => String::from_str("base name has fewer than three segments"),
        }
    }
}

/// The base name an identity encodes to.
pub open spec fn spec_encode(v: SongIdentityView) -> Seq<char> {
    v.title + sep2_seq() + join_with(v.artists, sep3_seq()) + sep2_seq() + v.id
}

/// Whether a base name resolves to an identity: it must hold two `__`
/// occurrences with room for a middle segment, that is, at least three
/// segments.
pub open spec fn decode_ok(s: Seq<char>) -> bool {
    has_sep2(s) && first_sep2(s) + 2 <= last_sep2(s)
}

/// The identity a base name decodes to: title before the leftmost
/// `__`, id after the rightmost `__`, the artist list between.
pub open spec fn spec_decode(s: Seq<char>) -> Option<SongIdentityView> {
    if decode_ok(s) {
        Some(
            SongIdentityView {
                title: s.subrange(0, first_sep2(s)),
                artists: split_sep3(s.subrange(first_sep2(s) + 2, last_sep2(s))),
                id: s.subrange(last_sep2(s) + 2, s.len() as int),
            },
        )
    } else {
        None
    }
}

/// Encodes an identity into a base name; rejects any identity with a
/// reserved delimiter inside a field.
pub fn encode(identity: &SongIdentity) -> (r: Result<String, CodecError>)
    ensures
        r is Ok <==> identity@.delimiter_free(),
        r is Ok ==> r.unwrap()@ == spec_encode(identity@),
        r is Err ==> r.unwrap_err() == CodecError::InvalidField,
{
    if contains_sep2(identity.title.as_str()) || contains_sep3(identity.title.as_str()) {
        return Err(CodecError::InvalidField);
    }
    if contains_sep2(identity.id.as_str()) || contains_sep3(identity.id.as_str()) {
        return Err(CodecError::InvalidField);
    }
    let mut i: usize = 0;
    while i < identity.artists.len()
        invariant
            i <= identity.artists.len(),
            forall|j: int|
                0 <= j < i ==> !has_sep2(#[trigger] identity.artists.deep_view()[j]) && !has_sep3(
                    identity.artists.deep_view()[j],
                ),
        decreases identity.artists.len() - i,
    {
        let a = identity.artists[i].as_str();
        proof {
            assert(identity.artists.deep_view().len() == identity.artists@.len());
            assert(identity.artists.deep_view()[i as int] == a@);
        }
        let bad2 = contains_sep2(a);
        let bad3 = contains_sep3(a);
        if bad2 || bad3 {
            proof {
                assert((i as int) < identity@.artists.len());
                assert(identity@.artists[i as int] == a@);
                assert(has_sep2(identity@.artists[i as int]) || has_sep3(
                    identity@.artists[i as int],
                ));
                assert(!identity@.delimiter_free());
            }
            return Err(CodecError::InvalidField);
        }
        i = i + 1;
    }
    let mut out = identity.title.clone();
    out.append("__");
    let joined = join_strings(&identity.artists, "_#_");
    out.append(joined.as_str());
    out.append("__");
    out.append(identity.id.as_str());
    proof {
        reveal_strlit("__");
        reveal_strlit("_#_");
        assert("__"@ =~= sep2_seq());
        assert("_#_"@ =~= sep3_seq());
    }
    Ok(out)
}

/// Decodes a base name into an identity; rejects any name with fewer
/// than three segments.
pub fn decode(name: &str) -> (r: Result<SongIdentity, CodecError>)
    ensures
        r is Ok <==> decode_ok(name@),
        r is Ok ==> Some(r.unwrap()@) == spec_decode(name@),
        r is Err ==> r.unwrap_err() == CodecError::MalformedName,
{
    let f = match find_first_sep2(name) {
        Some(f) => f,
        None => {
            return Err(CodecError::MalformedName);
        },
    };
    let l = match find_last_sep2(name) {
        Some(l) => l,
        None => {
            return Err(CodecError::MalformedName);
        },
    };
    proof {
        lemma_first_sep2_exists(name@);
        lemma_last_sep2_exists(name@);
        lemma_first_sep2_unique(name@, f as int, first_sep2(name@));
        lemma_last_sep2_unique(name@, l as int, last_sep2(name@));
    }
    if l < 2 || f > l - 2 {
        return Err(CodecError::MalformedName);
    }
    let n = name.unicode_len();
    let title = String::from_str(name.substring_char(0, f));
    let middle = name.substring_char(f + 2, l);
    let artists = split_on_sep3(middle);
    let id = String::from_str(name.substring_char(l + 2, n));
    let identity = SongIdentity { id, title, artists };
    proof {
        assert(middle@ == name@.subrange(f + 2, l as int));
        assert(identity@ =~~= spec_decode(name@).unwrap());
    }
    Ok(identity)
}

/// Identity round-trip: decoding an encoded identity recovers it
/// exactly, for every identity whose fields are free of the reserved
/// delimiters and of the boundary shapes that would blend a field into
/// a neighbouring delimiter: a title ending in `_`, an id starting with
/// `_`, a non-final artist ending in `_#`, or an empty artist list.
pub proof fn lemma_identity_round_trip(v: SongIdentityView)
    requires
        v.delimiter_free(),
        v.artists.len() >= 1,
        v.title.len() > 0 ==> v.title[v.title.len() - 1] != '_',
        v.id.len() > 0 ==> v.id[0] != '_',
        forall|i: int| 0 <= i < v.artists.len() - 1 ==> !ends_sep3_prefix(#[trigger] v.artists[i]),
    ensures
        decode_ok(spec_encode(v)),
        spec_decode(spec_encode(v)) == Some(v),
{
    let e = spec_encode(v);
    let jn = join_with(v.artists, sep3_seq());
    let t = v.title.len() as int;
    let l = t + 2 + jn.len() as int;
    assert(e.len() == l + 2 + v.id.len());
    assert(e[t] == '_' && e[t + 1] == '_');
    assert(sep2_at(e, t));
    assert forall|j: int| 0 <= j < t implies !sep2_at(e, j) by {
        if sep2_at(e, j) {
            if j + 2 <= t {
                assert(v.title[j] == e[j] && v.title[j + 1] == e[j + 1]);
                assert(sep2_at(v.title, j));
                assert(has_sep2(v.title));
            } else {
                assert(j == t - 1);
                assert(e[j] == v.title[t - 1]);
            }
        }
    }
    assert(is_first_sep2(e, t));
    assert(e[l] == '_' && e[l + 1] == '_');
    assert(sep2_at(e, l));
    assert forall|j: int| l < j implies !sep2_at(e, j) by {
        if sep2_at(e, j) {
            if j == l + 1 {
                assert(e[j + 1] == v.id[0]);
            } else {
                assert(e[j] == v.id[j - l - 2] && e[j + 1] == v.id[j - l - 1]);
                assert(sep2_at(v.id, j - l - 2));
                assert(has_sep2(v.id));
            }
        }
    }
    assert(is_last_sep2(e, l));
    lemma_first_sep2_exists(e);
    lemma_last_sep2_exists(e);
    lemma_first_sep2_unique(e, t, first_sep2(e));
    lemma_last_sep2_unique(e, l, last_sep2(e));
    assert(decode_ok(e));
    assert(e.subrange(0, t) =~= v.title);
    assert(e.subrange(t + 2, l) =~= jn);
    assert(e.subrange(l + 2, e.len() as int) =~= v.id);
    lemma_split_join_sep3(v.artists);
    assert(spec_decode(e).unwrap() =~~= v);
}

} // verus!
