use vstd::prelude::*;
use vstd::string::StringSliceAdditionalSpecFns;
use base64::Engine;
use crate::json::{Json, JsonV, lemma_dv_entries};
use crate::text::bytes_of;

verus! {

/// Why externalizing one inline media part failed.  A malformed reference
/// covers a missing scheme prefix, base64 marker or comma, and a payload
/// that does not decode; the other three name the upload stage that failed.
#[derive(Debug)]
pub enum MediaError {
    MalformedMediaReference,
    UploadInitiationFailed,
    UploadFailed,
    UploadResponseUnparseable,
}

/// What kind of inline media a part carries.
pub enum MediaKind {
    Image,
    Audio,
}

/// The reference an upload returns: the payload's MIME type and the stable
/// URI the upstream stored it under.
pub struct UploadedMediaRef {
    pub mime_type: Vec<u8>,
    pub uri: Vec<u8>,
}

/// `s` split at its first `b`: the part before and the part after.
pub open spec fn split_first_spec(s: Seq<u8>, b: u8) -> Option<(Seq<u8>, Seq<u8>)>
    decreases s.len(),
{
    if s.len() == 0 {
        Option::None
    } else if s[0] == b {
        Option::Some((Seq::empty(), s.skip(1)))
    } else {
        match split_first_spec(s.skip(1), b) {
            Option::Some(ht) => Option::Some((seq![s[0]] + ht.0, ht.1)),
            Option::None => Option::None,
        }
    }
}

/// How the first occurrence of `b` determines `split_first_spec`.
proof fn lemma_split_first_at(s: Seq<u8>, b: u8, p: int)
    requires
        0 <= p < s.len(),
        s[p] == b,
        forall|j: int| 0 <= j < p ==> s[j] != b,
    ensures
        split_first_spec(s, b) == Some((s.take(p), s.skip(p + 1))),
    decreases p,
{
    if p == 0 {
        assert(s.take(0) =~= Seq::<u8>::empty());
    } else {
        assert(s.skip(1)[p - 1] == s[p]);
        assert forall|j: int| 0 <= j < p - 1 implies s.skip(1)[j] != b by {
            assert(s.skip(1)[j] == s[j + 1]);
        }
        lemma_split_first_at(s.skip(1), b, p - 1);
        assert(s.skip(1).skip(p) =~= s.skip(p + 1));
        assert(seq![s[0]] + s.skip(1).take(p - 1) =~= s.take(p));
    }
}

/// Without `b`, there is no split.
proof fn lemma_split_first_none(s: Seq<u8>, b: u8)
    requires
        forall|j: int| 0 <= j < s.len() ==> s[j] != b,
    ensures
        split_first_spec(s, b) is None,
    decreases s.len(),
{
    if s.len() > 0 {
        assert forall|j: int| 0 <= j < s.skip(1).len() implies s.skip(1)[j] != b by {
            assert(s.skip(1)[j] == s[j + 1]);
        }
        lemma_split_first_none(s.skip(1), b);
    }
}

/// Splits a slice at its first `b`, as `split_first_spec` describes.
pub fn split_first<'a>(v: &'a [u8], b: u8) -> (r: Option<(&'a [u8], &'a [u8])>)
    ensures
        match r {
            Some(ht) => split_first_spec(v@, b) == Some((ht.0@, ht.1@)),
            None => split_first_spec(v@, b) is None,
        },
{
    let mut i: usize = 0;
    while i < v.len()
        invariant
            0 <= i <= v@.len(),
            forall|j: int| 0 <= j < i ==> v@[j] != b,
        decreases v@.len() - i,
    {
        if v[i] == b {
            proof {
                lemma_split_first_at(v@, b, i as int);
            }
            let head = vstd::slice::slice_subrange(v, 0, i);
            let tail = vstd::slice::slice_subrange(v, i + 1, v.len());
            return Some((head, tail));
        }
        i += 1;
    }
    proof {
        lemma_split_first_none(v@, b);
    }
    None
}

/// The MIME type and base64 payload of a data URI: the text after `data:`
/// and up to the first comma is the metadata, whose first `;`-separated
/// field is the MIME type and whose second must be `base64`; the rest is
/// the payload.
pub open spec fn data_uri_parts(s: Seq<u8>) -> Option<(Seq<u8>, Seq<u8>)> {
    if "data:".spec_bytes().is_prefix_of(s) {
        let rest = s.skip("data:".spec_bytes().len() as int);
        match split_first_spec(rest, ",".spec_bytes()[0]) {
            Option::Some(mp) => {
                let meta = mp.0;
                let payload = mp.1;
                match split_first_spec(meta, ";".spec_bytes()[0]) {
                    Option::Some(me) => {
                        let enc = match split_first_spec(me.1, ";".spec_bytes()[0]) {
                            Option::Some(et) => et.0,
                            Option::None => me.1,
                        };
                        if enc == "base64".spec_bytes() {
                            Option::Some((me.0, payload))
                        } else {
                            Option::None
                        }
                    },
                    Option::None => Option::None,
                }
            },
            Option::None => Option::None,
        }
    } else {
        Option::None
    }
}

/// What a base64 payload decodes to, or nothing when it is not valid
/// base64; determined by the payload alone.
pub uninterp spec fn b64_decode(s: Seq<u8>) -> Option<Seq<u8>>;

/// Relies on `base64`'s standard-alphabet engine: whether, and to what
/// bytes, a payload decodes is determined by the payload alone.
#[verifier::external_body]
fn base64_decode(data: &[u8]) -> (r: Option<Vec<u8>>)
    ensures
        match r {
            Some(v) => b64_decode(data@) == Some(v@),
            None => b64_decode(data@) is None,
        },
{
    base64::engine::general_purpose::STANDARD.decode(data).ok()
}

/// Takes a data URI apart and decodes its payload, returning the MIME type
/// and the decoded bytes; any missing piece of the URI shape, and a payload
/// that does not decode, is a malformed media reference.
pub fn decode_base64_and_get_mime_type(encoded: &[u8]) -> (r: Result<
    (Vec<u8>, Vec<u8>),
    MediaError,
>)
    ensures
        match data_uri_parts(encoded@) {
            Some(mp) => match b64_decode(mp.1) {
                Some(d) => r matches Ok(md) && md.0@ == mp.0 && md.1@ == d,
                None => r matches Err(e) && e is MalformedMediaReference,
            },
            None => r matches Err(e) && e is MalformedMediaReference,
        },
{
    let prefix = "data:".as_bytes();
    if !crate::text::starts_with(encoded, prefix) {
        return Err(MediaError::MalformedMediaReference);
    }
    let rest = vstd::slice::slice_subrange(encoded, prefix.len(), encoded.len());
    let comma = ",".as_bytes();
    let semi = ";".as_bytes();
    proof {
        broadcast use vstd::string::is_ascii_spec_bytes;

        reveal_strlit(",");
        reveal_strlit(";");
        assert(vstd::string::is_ascii(","));
        assert(vstd::string::is_ascii(";"));
        assert(",".spec_bytes().len() == 1);
        assert(";".spec_bytes().len() == 1);
    }
    let mp = match split_first(rest, comma[0]) {
        Some(x) => x,
        None => {
            return Err(MediaError::MalformedMediaReference);
        },
    };
    let me = match split_first(mp.0, semi[0]) {
        Some(x) => x,
        None => {
            return Err(MediaError::MalformedMediaReference);
        },
    };
    let enc = match split_first(me.1, semi[0]) {
        Some(x) => x.0,
        None => me.1,
    };
    if !crate::text::bytes_eq(enc, "base64".as_bytes()) {
        return Err(MediaError::MalformedMediaReference);
    }
    match base64_decode(mp.1) {
        Some(d) => Ok((vstd::slice::slice_to_vec(me.0), d)),
        None => Err(MediaError::MalformedMediaReference),
    }
}

/// The metadata document the upload initiation declares: a display name by
/// media kind.
pub open spec fn upload_metadata_spec(kind: MediaKind) -> JsonV {
    JsonV::Obj(
        seq![
            (
                "file".spec_bytes(),
                JsonV::Obj(
                    seq![
                        (
                            "display_name".spec_bytes(),
                            JsonV::Str(
                                match kind {
                                    MediaKind::Image => "uploaded_image".spec_bytes(),
                                    MediaKind::Audio => "uploaded_audio".spec_bytes(),
                                },
                            ),
                        ),
                    ],
                ),
            ),
        ],
    )
}

/// Builds the initiation metadata document.
pub fn upload_metadata(kind: &MediaKind) -> (r: Json)
    ensures
        r.dv() == upload_metadata_spec(*kind),
{
    let name = match kind {
        MediaKind::Image => bytes_of("uploaded_image"),
        MediaKind::Audio => bytes_of("uploaded_audio"),
    };
    let ghost nm = match *kind {
        MediaKind::Image => "uploaded_image".spec_bytes(),
        MediaKind::Audio => "uploaded_audio".spec_bytes(),
    };
    proof {
        assert(name@ == nm);
    }
    let mut inner: Vec<(Vec<u8>, Json)> = Vec::new();
    inner.push((bytes_of("display_name"), Json::Str(name)));
    let inner_obj = Json::Obj(inner);
    let mut outer: Vec<(Vec<u8>, Json)> = Vec::new();
    outer.push((bytes_of("file"), inner_obj));
    let r = Json::Obj(outer);
    proof {
        lemma_dv_entries(outer@);
        lemma_dv_entries(inner@);
        assert(Json::dv_entries(inner@) =~= seq![("display_name".spec_bytes(), JsonV::Str(nm))]);
        assert(inner_obj.dv() == JsonV::Obj(
            seq![("display_name".spec_bytes(), JsonV::Str(nm))],
        ));
        assert(Json::dv_entries(outer@) =~= seq![("file".spec_bytes(), inner_obj.dv())]);
        assert(r.dv() =~~= upload_metadata_spec(*kind));
    }
    r
}

/// The stored file's URI in the finalize response: the `uri` field of the
/// `file` object, when both are there.
pub open spec fn file_uri_spec(v: JsonV) -> Option<Seq<u8>> {
    match v.get("file".spec_bytes()) {
        Option::Some(f) => match f.get("uri".spec_bytes()) {
            Option::Some(JsonV::Str(u)) => Option::Some(u),
            _ => Option::None,
        },
        _ => Option::None,
    }
}

/// Reads the stored file's URI out of the finalize response.
pub fn file_uri_of(j: &Json) -> (r: Option<Vec<u8>>)
    ensures
        match r {
            Some(u) => file_uri_spec(j.dv()) == Some(u@),
            None => file_uri_spec(j.dv()) is None,
        },
{
    match j.get("file".as_bytes()) {
        Some(f) => match f.get("uri".as_bytes()) {
            Some(Json::Str(u)) => Some(vstd::slice::slice_to_vec(u.as_slice())),
            _ => None,
        },
        None => None,
    }
}

} // verus!
