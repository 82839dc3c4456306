//! The binary offload resolver: detects inline binary payloads on write,
//! decodes them, and rewrites the document to reference a backing file
//! instead of embedding the bytes.
//!
//! The resolver only plans and rewrites; writing the decoded bytes to disk
//! is the caller's work, and a failed write leaves the document untouched,
//! keeping the payload inline.

use vstd::prelude::*;
use vstd::string::StringExecFns;

use crate::digest::{ext_of, sha256_hex, spec_name_hash};
use crate::jsonval::{
    entries_get, entries_set, lemma_jsonvalue_view, obj_get, obj_set, view_obj, JsonValue, Jv,
};
use crate::strutil::{chars_of, matches_at, starts_with, str_eq, string_of};

verus! {

broadcast use vstd::std_specs::vec::group_vec_axioms, vstd::seq::group_seq_axioms,
    vstd::seq_lib::group_seq_lib_default, vstd::string::group_string_axioms;

/// What standard base64 decoding yields for a string, named and not written
/// out: the result depends on the characters alone.
pub uninterp spec fn base64_decoded(s: Seq<char>) -> Option<Seq<u8>>;

/// Relies on base64's standard-alphabet, padded engine: decodes the string,
/// or nothing when it is not valid base64.
#[verifier::external_body]
pub(crate) fn b64_decode(s: &str) -> (r: Option<Vec<u8>>)
    ensures
        r is Some <==> base64_decoded(s@) is Some,
        r matches Some(v) ==> base64_decoded(s@) == Some(v@),
{
    match base64::Engine::decode(&base64::engine::general_purpose::STANDARD, s) {
        Ok(v) => Some(v),
        Err(_) => None,
    }
}

/// The file extension used for a declared MIME type; unknown types get
/// `bin`.
pub open spec fn spec_mime_ext(m: Seq<char>) -> Seq<char> {
    if m == "image/jpeg"@ {
        "jpg"@
    } else if m == "image/png"@ {
        "png"@
    } else if m == "image/gif"@ {
        "gif"@
    } else if m == "image/webp"@ {
        "webp"@
    } else if m == "image/svg+xml"@ {
        "svg"@
    } else if m == "application/pdf"@ {
        "pdf"@
    } else {
        "bin"@
    }
}

/// The file extension for a declared MIME type.
pub fn mime_to_ext(mime: &str) -> (r: &'static str)
    ensures
        r@ == spec_mime_ext(mime@),
{
    if str_eq(mime, "image/jpeg") {
        "jpg"
    } else if str_eq(mime, "image/png") {
        "png"
    } else if str_eq(mime, "image/gif") {
        "gif"
    } else if str_eq(mime, "image/webp") {
        "webp"
    } else if str_eq(mime, "image/svg+xml") {
        "svg"
    } else if str_eq(mime, "application/pdf") {
        "pdf"
    } else {
        "bin"
    }
}

/// The declared type of a document, where it is a string; anything else
/// reads as the empty string, as the resolver treats it.
pub open spec fn spec_type_of(m: Seq<(Seq<char>, Jv)>) -> Seq<char> {
    match obj_get(m, "type"@) {
        Some(Jv::Str(t)) => t,
        _ => Seq::empty(),
    }
}

/// Whether a document declares a binary payload: its `type` starts with
/// `image/`, `video/` or `audio/`, or equals `application/pdf`.
pub open spec fn spec_is_binary(m: Seq<(Seq<char>, Jv)>) -> bool {
    match obj_get(m, "type"@) {
        Some(Jv::Str(t)) => starts_with(t, "image/"@) || t == "application/pdf"@ || starts_with(
            t,
            "video/"@,
        ) || starts_with(t, "audio/"@),
        _ => false,
    }
}

/// The base64 payload of a possibly data-URL-prefixed text field:
/// everything after the first comma, or the whole text when it has none.
pub open spec fn payload_of(s: Seq<char>) -> Seq<char> {
    if exists|i: int| 0 <= i < s.len() && s[i] == ',' {
        let first = choose|first: int|
            0 <= first < s.len() && s[first] == ',' && forall|j: int|
                0 <= j < first ==> s[j] != ',';
        s.skip(first + 1)
    } else {
        s
    }
}

/// The base64 payload characters of a text field.
fn payload_chars(s: &String) -> (r: Vec<char>)
    ensures
        r@ == payload_of(s@),
{
    let cs = chars_of(s.as_str());
    let mut i: usize = 0;
    while i < cs.len()
        invariant
            0 <= i <= cs@.len(),
            cs@ == s@,
            forall|j: int| 0 <= j < i ==> cs@[j] != ',',
        decreases cs@.len() - i,
    {
        if cs[i] == ',' {
            let mut out: Vec<char> = Vec::new();
            let mut j: usize = i + 1;
            while j < cs.len()
                invariant
                    i + 1 <= j <= cs@.len(),
                    i < cs@.len(),
                    out@ == cs@.subrange(i + 1, j as int),
                decreases cs@.len() - j,
            {
                out.push(cs[j]);
                j = j + 1;
                assert(out@ =~= cs@.subrange(i + 1, j as int));
            }
            proof {
                let first = choose|first: int|
                    0 <= first < s@.len() && s@[first] == ',' && forall|jj: int|
                        0 <= jj < first ==> s@[jj] != ',';
                assert(s@[i as int] == ',');
                if first < i {
                    assert(s@[first] != ',');
                }
                if i < first {
                    assert(s@[i as int] != ',');
                }
                assert(first == i);
                assert(out@ =~= s@.skip(i + 1));
            }
            return out;
        }
        i = i + 1;
    }
    cs
}

/// The backing filename for an offloaded payload: the hex digest of the
/// title, then the extension the declared MIME type selects.
pub open spec fn spec_offload_name(title: Seq<char>, m: Seq<(Seq<char>, Jv)>) -> Seq<char> {
    spec_name_hash(title) + seq!['.'] + spec_mime_ext(spec_type_of(m))
}

/// The offload decision for a write: the decoded bytes and the backing
/// filename, where the document declares a binary type and carries a
/// nonempty, decodable text payload; nothing otherwise, and the document is
/// then persisted unchanged.
pub open spec fn spec_offload_plan(title: Seq<char>, m: Seq<(Seq<char>, Jv)>) -> Option<
    (Seq<u8>, Seq<char>),
> {
    if spec_is_binary(m) {
        match obj_get(m, "text"@) {
            Some(Jv::Str(t)) => if t.len() > 0 {
                match base64_decoded(payload_of(t)) {
                    Some(bytes) => Some((bytes, spec_offload_name(title, m))),
                    None => None,
                }
            } else {
                None
            },
            _ => None,
        }
    } else {
        None
    }
}

/// Decides whether a write's payload is offloaded: the decoded bytes to
/// write to the files directory, and the filename to write them under.
pub fn offload_plan(title: &str, doc: &JsonValue) -> (r: Option<(Vec<u8>, String)>)
    ensures
        match (r, doc@) {
            (Some(p), Jv::Obj(m)) => spec_offload_plan(title@, m) == Some((p.0@, p.1@)),
            (None, Jv::Obj(m)) => spec_offload_plan(title@, m) is None,
            (Some(p), _) => false,
            (None, _) => true,
        },
{
    broadcast use lemma_jsonvalue_view;

    let mv = match doc {
        JsonValue::Obj(mv) => mv,
        _ => {
            return None;
        },
    };
    let is_binary = match entries_get(mv, "type") {
        Some(tv) => match tv.as_str() {
            Some(t) => {
                let tc = chars_of(t.as_str());
                let im = chars_of("image/");
                let vi = chars_of("video/");
                let au = chars_of("audio/");
                matches_at(&tc, 0, &im) || str_eq(t.as_str(), "application/pdf") || matches_at(
                    &tc,
                    0,
                    &vi,
                ) || matches_at(&tc, 0, &au)
            },
            None => false,
        },
        None => false,
    };
    if !is_binary {
        return None;
    }
    let text = match entries_get(mv, "text") {
        Some(tv) => match tv.as_str() {
            Some(t) => t,
            None => {
                return None;
            },
        },
        None => {
            return None;
        },
    };
    if text.as_str().is_empty() {
        return None;
    }
    let payload = payload_chars(text);
    let payload_str = string_of(&payload);
    let bytes = match b64_decode(payload_str.as_str()) {
        Some(b) => b,
        None => {
            return None;
        },
    };
    let stem = sha256_hex(title);
    let ty = match entries_get(mv, "type") {
        Some(tv) => match tv.as_str() {
            Some(t) => t.clone(),
            None => String::new(),
        },
        None => String::new(),
    };
    let ext = mime_to_ext(ty.as_str());
    let name = stem.concat(".").concat(ext);
    proof {
        reveal_strlit(".");
        assert(name@ =~= spec_offload_name(title@, doc@->Obj_0));
    }
    Some((bytes, name))
}

/// Rewrites an offloaded document: the text empties and the canonical URI
/// and local storage marker point at the backing file.
pub fn apply_offload(doc: &mut JsonValue, filename: &str)
    requires
        old(doc)@ is Obj,
    ensures
        final(doc)@ == Jv::Obj(
            obj_set(
                obj_set(
                    obj_set(old(doc)@->Obj_0, "text"@, Jv::Str(Seq::empty())),
                    "_canonical_uri"@,
                    Jv::Str("/files/"@ + filename@),
                ),
                "_file_storage"@,
                Jv::Str("local"@),
            ),
        ),
{
    broadcast use lemma_jsonvalue_view;

    match doc {
        JsonValue::Obj(mv) => {
            entries_set(mv, String::from_str("text"), JsonValue::Str(String::new()));
            let uri = String::from_str("/files/").concat(filename);
            entries_set(mv, String::from_str("_canonical_uri"), JsonValue::Str(uri));
            entries_set(
                mv,
                String::from_str("_file_storage"),
                JsonValue::Str(String::from_str("local")),
            );
        },
        _ => {},
    }
}

} // verus!
