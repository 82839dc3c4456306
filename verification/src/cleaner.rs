//! The storage-location cleaner: after a record is deleted, its storage
//! markers select the backing object or file to remove, best effort.
//!
//! The cleaner only decides; the caller performs the removal. An explicit
//! `s3` marker wins and uses the record's own bucket even when the
//! configured default differs; an explicit `local` marker removes the file
//! the canonical URI names; a record with no marker is legacy and is
//! interpreted by the shape of its URI. A filename that could step outside
//! the files directory is never removed.

use vstd::prelude::*;

use crate::jsonval::{entries_get, lemma_jsonvalue_view, obj_get, JsonValue, Jv};
use crate::strutil::{chars_of, contains_seq, matches_at, occurs_at, starts_with, str_eq, string_of};

verus! {

broadcast use vstd::std_specs::vec::group_vec_axioms, vstd::seq::group_seq_axioms,
    vstd::seq_lib::group_seq_lib_default, vstd::string::group_string_axioms;

/// What the cleaner decides to remove.
pub enum CleanupAction {
    /// Nothing to clean.
    Nothing,
    /// Remove this file from the local files directory.
    RemoveLocalFile(String),
    /// Remove this key from this bucket in object storage.
    RemoveObject { bucket: String, key: String },
}

/// The mathematical shape of a cleanup decision.
pub enum Cleanup {
    Nothing,
    Local(Seq<char>),
    Object(Seq<char>, Seq<char>),
}

impl View for CleanupAction {
    type V = Cleanup;

    open spec fn view(&self) -> Cleanup {
        match self {
            CleanupAction::Nothing => Cleanup::Nothing,
            CleanupAction::RemoveLocalFile(f) => Cleanup::Local(f@),
            CleanupAction::RemoveObject { bucket, key } => Cleanup::Object(bucket@, key@),
        }
    }
}

/// The canonical URI as the cleaner first extracts it: a string at the top
/// level, else a string inside a nested `fields` object.
pub open spec fn spec_uri_of(v: Jv) -> Option<Seq<char>> {
    match v {
        Jv::Obj(m) => match obj_get(m, "_canonical_uri"@) {
            Some(Jv::Str(s)) => Some(s),
            _ => spec_nested_str(m, "_canonical_uri"@),
        },
        _ => None,
    }
}

/// A string field inside the nested `fields` object.
pub open spec fn spec_nested_str(m: Seq<(Seq<char>, Jv)>, k: Seq<char>) -> Option<Seq<char>> {
    match obj_get(m, "fields"@) {
        Some(Jv::Obj(fm)) => match obj_get(fm, k) {
            Some(Jv::Str(s)) => Some(s),
            _ => None,
        },
        _ => None,
    }
}

/// A marker field as the cleaner reads it: the top-level field when present
/// (a non-string there reads as nothing), else the nested `fields` entry.
pub open spec fn spec_field_of(v: Jv, k: Seq<char>) -> Option<Seq<char>> {
    match v {
        Jv::Obj(m) => match obj_get(m, k) {
            Some(Jv::Str(s)) => Some(s),
            Some(t) => None,
            None => spec_nested_str(m, k),
        },
        _ => None,
    }
}

/// Whether a filename could escape the files directory: a `..` sequence or
/// a path separator.
pub open spec fn has_traversal(f: Seq<char>) -> bool {
    ||| contains_seq(f, seq!['.', '.'])
    ||| exists|i: int| 0 <= i < f.len() && f[i] == '/'
    ||| exists|i: int| 0 <= i < f.len() && f[i] == '\\'
}

/// The local-removal decision for a URI: the name after the `/files/`
/// prefix, unless it could traverse outside the files directory or the URI
/// is shorter than the prefix.
pub open spec fn spec_local_action(uri: Seq<char>) -> Cleanup {
    if uri.len() < 7 {
        Cleanup::Nothing
    } else {
        let f = uri.skip(7);
        if has_traversal(f) {
            Cleanup::Nothing
        } else {
            Cleanup::Local(f)
        }
    }
}

/// The key under a public URL base: the remainder after the base, less one
/// leading slash.
pub open spec fn spec_legacy_key(uri: Seq<char>, base: Seq<char>) -> Seq<char> {
    let k = uri.skip(base.len() as int);
    if k.len() > 0 && k[0] == '/' {
        k.skip(1)
    } else {
        k
    }
}

/// The cleaner's decision for a deleted record's metadata, in order: no
/// canonical URI means nothing to clean; an `s3` marker removes the
/// recorded (or default) bucket's key, or nothing when the key is missing
/// or object storage is off; a `local` marker removes the URI's file; no
/// marker falls back to the URI's shape, `/files/` meaning local and the
/// public base meaning object storage.
pub open spec fn spec_cleanup(
    v: Jv,
    default_bucket: Seq<char>,
    public_base: Seq<char>,
    s3_enabled: bool,
) -> Cleanup {
    match spec_uri_of(v) {
        None => Cleanup::Nothing,
        Some(uri0) => {
            let storage = spec_field_of(v, "_file_storage"@);
            if storage == Some("s3"@) {
                if s3_enabled {
                    match spec_field_of(v, "_s3_key"@) {
                        Some(key) => {
                            let bucket = match spec_field_of(v, "_s3_bucket"@) {
                                Some(b) => b,
                                None => default_bucket,
                            };
                            Cleanup::Object(bucket, key)
                        },
                        None => Cleanup::Nothing,
                    }
                } else {
                    Cleanup::Nothing
                }
            } else {
                match spec_field_of(v, "_canonical_uri"@) {
                    None => Cleanup::Nothing,
                    Some(uri) => {
                        if storage == Some("local"@) {
                            spec_local_action(uri)
                        } else if starts_with(uri, "/files/"@) {
                            spec_local_action(uri)
                        } else if s3_enabled && starts_with(uri, public_base) {
                            Cleanup::Object(default_bucket, spec_legacy_key(uri, public_base))
                        } else {
                            Cleanup::Nothing
                        }
                    },
                }
            }
        },
    }
}

/// A string field of the metadata object, reading the top level first and
/// the nested `fields` object when the top level has no such field.
fn field_of(mv: &Vec<crate::jsonval::JsonEntry>, k: &str) -> (r: Option<String>)
    ensures
        match r {
            Some(s) => spec_field_of(Jv::Obj(crate::jsonval::view_obj(mv@)), k@) == Some(s@),
            None => spec_field_of(Jv::Obj(crate::jsonval::view_obj(mv@)), k@) is None,
        },
{
    match entries_get(mv, k) {
        Some(v) => match v.as_str() {
            Some(s) => Some(s.clone()),
            None => None,
        },
        None => {
            match entries_get(mv, "fields") {
                Some(fv) => match fv {
                    JsonValue::Obj(fm) => match entries_get(fm, k) {
                        Some(v) => match v.as_str() {
                            Some(s) => Some(s.clone()),
                            None => None,
                        },
                        None => None,
                    },
                    _ => None,
                },
                None => None,
            }
        },
    }
}

/// Whether a filename could escape the files directory.
fn traversal_check(f: &Vec<char>) -> (r: bool)
    ensures
        r == has_traversal(f@),
{
    let mut dots: Vec<char> = Vec::new();
    dots.push('.');
    dots.push('.');
    assert(dots@ =~= seq!['.', '.']);
    let mut i: usize = 0;
    let mut sep = false;
    let mut dd = false;
    while i < f.len()
        invariant
            0 <= i <= f@.len(),
            dots@ == seq!['.', '.'],
            sep == exists|j: int| 0 <= j < i && (f@[j] == '/' || f@[j] == '\\'),
            dd == exists|j: int| 0 <= j <= i - 2 && occurs_at(f@, seq!['.', '.'], j),
        decreases f@.len() - i,
    {
        if f[i] == '/' || f[i] == '\\' {
            sep = true;
        }
        if i >= 1 {
            if f[i - 1] == '.' && f[i] == '.' {
                assert(f@.subrange(i - 1, i + 1) =~= seq!['.', '.']);
                assert(occurs_at(f@, seq!['.', '.'], i - 1));
                dd = true;
            }
        }
        proof {
            if !dd && exists|j: int| 0 <= j <= i - 1 && occurs_at(f@, seq!['.', '.'], j) {
                let j = choose|j: int| 0 <= j <= i - 1 && occurs_at(f@, seq!['.', '.'], j);
                assert(f@.subrange(j, j + 2)[0] == f@[j]);
                assert(f@.subrange(j, j + 2)[1] == f@[j + 1]);
                assert(f@[j] == '.' && f@[j + 1] == '.');
                assert(false);
            }
        }
        i = i + 1;
    }
    proof {
        if exists|j: int| occurs_at(f@, seq!['.', '.'], j) {
            let j = choose|j: int| occurs_at(f@, seq!['.', '.'], j);
            assert(0 <= j <= f@.len() - 2);
        }
    }
    sep || dd
}

/// The local-removal decision for a URI.
fn local_action(uri: &String) -> (r: CleanupAction)
    ensures
        r@ == spec_local_action(uri@),
{
    let cs = chars_of(uri.as_str());
    if cs.len() < 7 {
        return CleanupAction::Nothing;
    }
    let mut f: Vec<char> = Vec::new();
    let mut i: usize = 7;
    while i < cs.len()
        invariant
            7 <= i <= cs@.len(),
            f@ == cs@.subrange(7, i as int),
        decreases cs@.len() - i,
    {
        f.push(cs[i]);
        i = i + 1;
        assert(f@ =~= cs@.subrange(7, i as int));
    }
    assert(f@ =~= uri@.skip(7));
    if traversal_check(&f) {
        CleanupAction::Nothing
    } else {
        CleanupAction::RemoveLocalFile(string_of(&f))
    }
}

/// The cleaner's decision for a deleted record's metadata.
pub fn decide_cleanup(
    meta: &JsonValue,
    default_bucket: &str,
    public_url_base: &str,
    s3_enabled: bool,
) -> (r: CleanupAction)
    ensures
        r@ == spec_cleanup(meta@, default_bucket@, public_url_base@, s3_enabled),
{
    broadcast use lemma_jsonvalue_view;

    let mv = match meta {
        JsonValue::Obj(mv) => mv,
        _ => {
            return CleanupAction::Nothing;
        },
    };
    // Step one: a candidate URI, top level first, then inside `fields`.
    let uri0: Option<String> = match entries_get(mv, "_canonical_uri") {
        Some(v) => match v.as_str() {
            Some(s) => Some(s.clone()),
            None => {
                match entries_get(mv, "fields") {
                    Some(JsonValue::Obj(fm)) => match entries_get(fm, "_canonical_uri") {
                        Some(v2) => match v2.as_str() {
                            Some(s) => Some(s.clone()),
                            None => None,
                        },
                        None => None,
                    },
                    _ => None,
                }
            },
        },
        None => {
            match entries_get(mv, "fields") {
                Some(JsonValue::Obj(fm)) => match entries_get(fm, "_canonical_uri") {
                    Some(v2) => match v2.as_str() {
                        Some(s) => Some(s.clone()),
                        None => None,
                    },
                    None => None,
                },
                _ => None,
            }
        },
    };
    if uri0.is_none() {
        return CleanupAction::Nothing;
    }
    let storage = field_of(mv, "_file_storage");
    let marked_s3 = match &storage {
        Some(s) => str_eq(s.as_str(), "s3"),
        None => false,
    };
    if marked_s3 {
        if !s3_enabled {
            return CleanupAction::Nothing;
        }
        let key = match field_of(mv, "_s3_key") {
            Some(k) => k,
            None => {
                return CleanupAction::Nothing;
            },
        };
        let bucket = match field_of(mv, "_s3_bucket") {
            Some(b) => b,
            None => {
                let mut b = String::new();
                b.append(default_bucket);
                b
            },
        };
        return CleanupAction::RemoveObject { bucket, key };
    }
    let uri = match field_of(mv, "_canonical_uri") {
        Some(u) => u,
        None => {
            return CleanupAction::Nothing;
        },
    };
    let marked_local = match &storage {
        Some(s) => str_eq(s.as_str(), "local"),
        None => false,
    };
    if marked_local {
        return local_action(&uri);
    }
    let uc = chars_of(uri.as_str());
    let files_prefix = chars_of("/files/");
    proof {
        reveal_strlit("/files/");
        assert(files_prefix@ =~= "/files/"@);
        assert("/files/"@.len() == 7);
    }
    if matches_at(&uc, 0, &files_prefix) {
        return local_action(&uri);
    }
    let base = chars_of(public_url_base);
    if s3_enabled && matches_at(&uc, 0, &base) {
        let mut k: Vec<char> = Vec::new();
        let mut i: usize = base.len();
        while i < uc.len()
            invariant
                base@.len() <= i <= uc@.len(),
                k@ == uc@.subrange(base@.len() as int, i as int),
            decreases uc@.len() - i,
        {
            k.push(uc[i]);
            i = i + 1;
            assert(k@ =~= uc@.subrange(base@.len() as int, i as int));
        }
        assert(k@ =~= uri@.skip(public_url_base@.len() as int));
        let key: String = if k.len() > 0 && k[0] == '/' {
            let mut k2: Vec<char> = Vec::new();
            let mut j: usize = 1;
            while j < k.len()
                invariant
                    1 <= j <= k@.len(),
                    k2@ == k@.subrange(1, j as int),
                decreases k@.len() - j,
            {
                k2.push(k[j]);
                j = j + 1;
                assert(k2@ =~= k@.subrange(1, j as int));
            }
            assert(k2@ =~= k@.skip(1));
            string_of(&k2)
        } else {
            string_of(&k)
        };
        let mut bucket = String::new();
        bucket.append(default_bucket);
        return CleanupAction::RemoveObject { bucket, key };
    }
    CleanupAction::Nothing
}

/// A filename that could traverse outside the files directory is never
/// removed: the cleaner's decision is never a local removal of such a name.
pub proof fn lemma_traversal_never_deleted(
    v: Jv,
    default_bucket: Seq<char>,
    public_base: Seq<char>,
    s3_enabled: bool,
)
    ensures
        spec_cleanup(v, default_bucket, public_base, s3_enabled) matches Cleanup::Local(f)
            ==> !has_traversal(f),
{
}

/// A record with no storage marker but a `/files/`-prefixed canonical URI
/// removes exactly the file the URI names.
pub proof fn lemma_legacy_local_removed(
    v: Jv,
    default_bucket: Seq<char>,
    public_base: Seq<char>,
    s3_enabled: bool,
)
    requires
        spec_field_of(v, "_file_storage"@) is None,
        spec_field_of(v, "_canonical_uri"@) matches Some(uri) && starts_with(uri, "/files/"@)
            && !has_traversal(uri.skip(7)),
        spec_uri_of(v) is Some,
    ensures
        spec_cleanup(v, default_bucket, public_base, s3_enabled) == Cleanup::Local(
            spec_field_of(v, "_canonical_uri"@)->Some_0.skip(7),
        ),
{
    let uri = spec_field_of(v, "_canonical_uri"@)->Some_0;
    assert(occurs_at(uri, "/files/"@, 0));
    assert("/files/"@.len() == 7) by {
        reveal_strlit("/files/");
    }
    assert(uri.len() >= 7);
    assert(spec_field_of(v, "_file_storage"@) != Some("s3"@));
    assert(spec_field_of(v, "_file_storage"@) != Some("local"@));
}

/// A record marked `s3` with a recorded key removes that bucket/key pair,
/// using the record's own bucket even when the configured default differs.
pub proof fn lemma_s3_marker_removed(
    v: Jv,
    default_bucket: Seq<char>,
    public_base: Seq<char>,
)
    requires
        spec_uri_of(v) is Some,
        spec_field_of(v, "_file_storage"@) == Some("s3"@),
        spec_field_of(v, "_s3_key"@) is Some,
        spec_field_of(v, "_s3_bucket"@) is Some,
    ensures
        spec_cleanup(v, default_bucket, public_base, true) == Cleanup::Object(
            spec_field_of(v, "_s3_bucket"@)->Some_0,
            spec_field_of(v, "_s3_key"@)->Some_0,
        ),
{
}

} // verus!
