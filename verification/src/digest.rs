//! Content-independent names for offloaded payloads: a title or filename is
//! hashed and the digest written in lowercase hexadecimal.

use vstd::prelude::*;
use vstd::string::StringExecFns;

use crate::strutil::{chars_of, string_of};



verus! {

broadcast use vstd::std_specs::vec::group_vec_axioms, vstd::seq::group_seq_axioms,
    vstd::seq_lib::group_seq_lib_default, vstd::string::group_string_axioms;

/// The SHA-256 digest of a byte sequence, named and not written out: the
/// digest depends on the bytes alone.
pub uninterp spec fn sha256_of(data: Seq<u8>) -> Seq<u8>;

/// Relies on sha2's Sha256 through the Digest trait: the digest of the
/// input bytes, thirty-two bytes long.
#[verifier::external_body]
fn sha256_bytes(data: &[u8]) -> (r: Vec<u8>)
    ensures
        r@ == sha256_of(data@),
        r@.len() == 32,
{
    let mut hasher = <sha2::Sha256 as sha2::Digest>::new();
    sha2::Digest::update(&mut hasher, data);
    sha2::Digest::finalize(hasher).to_vec()
}

/// The lowercase hexadecimal digit characters, in value order.
pub open spec fn hex_digits() -> Seq<char> {
    seq![
        '0', '1', '2', '3', '4', '5', '6', '7', '8', '9', 'a', 'b', 'c', 'd', 'e', 'f',
    ]
}

/// The lowercase hexadecimal text of a byte sequence: two digits for each
/// byte, high four bits first.
pub open spec fn spec_hex(data: Seq<u8>) -> Seq<char>
    decreases data.len(),
{
    if data.len() == 0 {
        Seq::empty()
    } else {
        seq![
            hex_digits()[(data.first() / 16) as int],
            hex_digits()[(data.first() % 16) as int],
        ] + spec_hex(data.drop_first())
    }
}

/// Relies on hex::encode: each byte becomes its two lowercase hexadecimal
/// digits, high four bits first.
#[verifier::external_body]
fn hex_encode(data: &[u8]) -> (r: String)
    ensures
        r@ == spec_hex(data@),
{
    hex::encode(data)
}

/// The backing-file stem for a title or filename: the lowercase hex text of
/// its SHA-256 digest.
pub open spec fn spec_name_hash(s: Seq<char>) -> Seq<char> {
    spec_hex(sha256_of(vstd::utf8::encode_utf8(s)))
}

/// The hex digest text of a string's bytes.
pub fn sha256_hex(s: &str) -> (r: String)
    ensures
        r@ == spec_name_hash(s@),
{
    let bytes = s.as_bytes();
    let digest = sha256_bytes(bytes);
    hex_encode(digest.as_slice())
}

/// The extension of a filename: what follows the last dot, or the whole
/// name when it has none.
pub open spec fn ext_of(f: Seq<char>) -> Seq<char> {
    if exists|i: int| 0 <= i < f.len() && f[i] == '.' {
        let last = choose|last: int|
            0 <= last < f.len() && f[last] == '.' && forall|j: int|
                last < j < f.len() ==> f[j] != '.';
        f.skip(last + 1)
    } else {
        f
    }
}

/// The extension of a filename, as its characters.
pub fn ext_chars(f: &Vec<char>) -> (r: Vec<char>)
    ensures
        r@ == ext_of(f@),
{
    let mut dot: Option<usize> = None;
    let mut i: usize = 0;
    while i < f.len()
        invariant
            0 <= i <= f@.len(),
            match dot {
                Some(d) => d < i && f@[d as int] == '.' && forall|j: int|
                    d < j < i ==> f@[j] != '.',
                None => forall|j: int| 0 <= j < i ==> f@[j] != '.',
            },
        decreases f@.len() - i,
    {
        if f[i] == '.' {
            dot = Some(i);
        }
        i = i + 1;
    }
    match dot {
        Some(d) => {
            let mut out: Vec<char> = Vec::new();
            let mut j: usize = d + 1;
            while j < f.len()
                invariant
                    d + 1 <= j <= f@.len(),
                    d < f@.len(),
                    out@ == f@.subrange(d + 1, j as int),
                decreases f@.len() - j,
            {
                out.push(f[j]);
                j = j + 1;
                assert(out@ =~= f@.subrange(d + 1, j as int));
            }
            proof {
                let last = choose|last: int|
                    0 <= last < f@.len() && f@[last] == '.' && forall|j: int|
                        last < j < f@.len() ==> f@[j] != '.';
                assert(f@[d as int] == '.');
                if last < d {
                    assert(f@[d as int] != '.');
                }
                assert(last == d);
                assert(out@ =~= f@.skip(d + 1));
            }
            out
        },
        None => {
            let r = chars_of_vec(f);
            r
        },
    }
}

/// A copy of a character vector.
fn chars_of_vec(f: &Vec<char>) -> (r: Vec<char>)
    ensures
        r@ == f@,
{
    let mut out: Vec<char> = Vec::new();
    let mut i: usize = 0;
    while i < f.len()
        invariant
            0 <= i <= f@.len(),
            out@ == f@.take(i as int),
        decreases f@.len() - i,
    {
        out.push(f[i]);
        i = i + 1;
        assert(out@ =~= f@.take(i as int));
    }
    assert(out@ =~= f@);
    out
}

/// The object-storage key handed out for a client-side upload: a fixed
/// prefix, the hex digest of the filename, and the filename's extension.
pub open spec fn spec_upload_key(f: Seq<char>) -> Seq<char> {
    "tiddlers/"@ + spec_name_hash(f) + seq!['.'] + ext_of(f)
}

/// The object-storage key for an upload of `filename`.
pub fn upload_key(filename: &str) -> (r: String)
    ensures
        r@ == spec_upload_key(filename@),
{
    let stem = sha256_hex(filename);
    let fc = chars_of(filename);
    let ext = ext_chars(&fc);
    let ext_str = string_of(&ext);
    let r = String::from_str("tiddlers/").concat(stem.as_str()).concat(".").concat(
        ext_str.as_str(),
    );
    proof {
        reveal_strlit(".");
        assert("."@ =~= seq!['.']);
    }
    r
}

} // verus!
