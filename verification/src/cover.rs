//! Cover-image codec: a cover travels as a data URL, a fixed marker
//! prefix followed by the base64 encoding of the image bytes.
use base64::Engine;
use vstd::prelude::*;
use vstd::string::StrSliceExecFns;
use vstd::string::StringExecFns;

verus! {

/// The standard base64 encoding of `b`.
pub uninterp spec fn b64_enc(b: Seq<u8>) -> Seq<char>;

/// The bytes that standard base64 decoding accepts `s` as, if any.
pub uninterp spec fn b64_dec(s: Seq<char>) -> Option<Seq<u8>>;

/// Relies on base64's `Engine::encode` with the `STANDARD` engine: the
/// result is a function of the input bytes alone, holds four characters
/// for every three input bytes (padded), and `Engine::decode` of it
/// gives the input back.
#[verifier::external_body]
fn b64_encode(bytes: &[u8]) -> (r: String)
    requires
        bytes@.len() <= usize::MAX / 4,
    ensures
        r@ == b64_enc(bytes@),
        r@.len() == 4 * ((bytes@.len() + 2) / 3),
        b64_dec(r@) == Some(bytes@),
{
    base64::engine::general_purpose::STANDARD.encode(bytes)
}

/// Declares base64's `DecodeError` so the decode wrapper can return
/// it; verified code only maps it away.
#[verifier::external_type_specification]
#[verifier::external_body]
pub struct ExDecodeError(base64::DecodeError);

/// Relies on base64's `Engine::decode` with the `STANDARD` engine: the
/// result is a function of the input alone.
#[verifier::external_body]
fn b64_decode(s: &str) -> (r: Result<Vec<u8>, base64::DecodeError>)
    ensures
        r is Ok <==> b64_dec(s@) is Some,
        r is Ok ==> r.unwrap()@ == b64_dec(s@).unwrap(),
{
    base64::engine::general_purpose::STANDARD.decode(s)
}

/// The marker that opens a cover data URL.
pub open spec fn data_url_prefix() -> Seq<char> {
    "data:image/jpeg;base64,"@
}

/// The data-URL form of a cover image.
pub open spec fn spec_cover_data_url(b: Seq<u8>) -> Seq<char> {
    data_url_prefix() + b64_enc(b)
}

/// `s` with the data-URL marker removed when it starts with it.
pub open spec fn strip_data_url_prefix(s: Seq<char>) -> Seq<char> {
    if data_url_prefix().is_prefix_of(s) {
        s.skip(data_url_prefix().len() as int)
    } else {
        s
    }
}

/// Encodes cover bytes as a data URL.
pub fn cover_data_url(bytes: &Vec<u8>) -> (r: String)
    requires
        bytes@.len() <= usize::MAX / 4,
    ensures
        r@ == spec_cover_data_url(bytes@),
{
    let mut out = String::from_str("data:image/jpeg;base64,");
    let enc = b64_encode(bytes.as_slice());
    out.append(enc.as_str());
    out
}

fn str_eq(a: &str, b: &str) -> (r: bool)
    ensures
        r == (a@ == b@),
{
    let sa = String::from_str(a);
    let sb = String::from_str(b);
    sa == sb
}

/// Decodes a cover field: strips the data-URL marker when present and
/// base64-decodes the remainder; `None` on a malformed payload.
pub fn cover_bytes_from_data_url(s: &str) -> (r: Option<Vec<u8>>)
    ensures
        r is Some <==> b64_dec(strip_data_url_prefix(s@)) is Some,
        r is Some ==> r.unwrap()@ == b64_dec(strip_data_url_prefix(s@)).unwrap(),
{
    let marker = "data:image/jpeg;base64,";
    let n = s.unicode_len();
    let plen = marker.unicode_len();
    let stripped: bool;
    let payload: &str;
    if n >= plen {
        let head = s.substring_char(0, plen);
        if str_eq(head, marker) {
            payload = s.substring_char(plen, n);
            stripped = true;
        } else {
            payload = s;
            stripped = false;
        }
    } else {
        payload = s;
        stripped = false;
    }
    proof {
        if stripped {
            assert(marker@.is_prefix_of(s@));
            assert(payload@ =~= s@.skip(marker@.len() as int));
        } else {
            if marker@.is_prefix_of(s@) {
                if n >= plen {
                    assert(s@.subrange(0, plen as int) =~= marker@);
                }
            }
            assert(!marker@.is_prefix_of(s@));
        }
        assert(payload@ == strip_data_url_prefix(s@));
    }
    match b64_decode(payload) {
        Ok(v) => Some(v),
        Err(_) => None,
    }
}

} // verus!
