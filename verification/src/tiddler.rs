//! The stored record shape and the codec between it and the wire document
//! shape.
//!
//! A record keeps the title and revision authoritatively in their own
//! fields and the whole incoming document as opaque metadata. Reading a
//! record back derives the wire document: the nested field container is
//! merged up without overwriting, the tag collection collapses to one
//! space-delimited string, `title` and `revision` are force-set from the
//! record, and `bag` defaults to `"default"`.

use vstd::prelude::*;
use vstd::string::StringExecFns;

use crate::errors::AppError;
use crate::jsonval::{
    distinct_keys, entries_get, entries_remove, entries_set, entries_set_if_absent, key_find,
    lemma_jsonvalue_view, lemma_key_find, lemma_obj_get_remove, lemma_obj_get_set,
    lemma_obj_get_set_if_absent, lemma_obj_remove_gone, lemma_view_arr, lemma_view_obj, obj_get,
    obj_has, obj_remove, obj_set, obj_set_if_absent, view_arr, view_obj, JsonValue, Jv,
};
use crate::numstr::{parse_u64, parse_u64_plus, u64_dec, parse_dec_u64, parse_dec_u64_plus, u64_to_dec};
use crate::strutil::{chars_of, string_of};

verus! {

broadcast use vstd::std_specs::vec::group_vec_axioms, vstd::seq::group_seq_axioms,
    vstd::seq_lib::group_seq_lib_default, vstd::string::group_string_axioms;

/// A persisted record: a unique title, a revision that grows by one on
/// every overwrite, and the full document as opaque metadata.
#[derive(Debug)]
pub struct Tiddler {
    pub title: String,
    pub revision: u64,
    pub meta: JsonValue,
}

/// The title a wire object carries, when it is a string.
pub open spec fn spec_title_of(m: Seq<(Seq<char>, Jv)>) -> Option<Seq<char>> {
    match obj_get(m, "title"@) {
        Some(Jv::Str(s)) => Some(s),
        _ => None,
    }
}

/// The revision a wire object carries: absent means zero; a number literal
/// or a numeric string is parsed; anything else is rejected.
pub open spec fn spec_revision_of(m: Seq<(Seq<char>, Jv)>) -> Option<u64> {
    match obj_get(m, "revision"@) {
        None => Some(0u64),
        Some(Jv::Num(s)) => parse_u64(s),
        Some(Jv::Str(s)) => parse_u64_plus(s),
        Some(_) => None,
    }
}

/// Whether a wire value is a well-formed document: an object with a string
/// title and an acceptable revision.
pub open spec fn wire_ok(v: Jv) -> bool {
    &&& v is Obj
    &&& spec_title_of(v->Obj_0) is Some
    &&& spec_revision_of(v->Obj_0) is Some
}

/// The message a rejected wire value is reported with: not an object, a bad
/// title, or a bad revision, in that order of checking.
pub open spec fn spec_wire_error(v: Jv) -> Seq<char>
    recommends
        !wire_ok(v),
{
    if !(v is Obj) {
        "from_value expects a JSON Object"@
    } else if spec_title_of(v->Obj_0) is None {
        "tiddler['title'] should be a string"@
    } else {
        match obj_get(v->Obj_0, "revision"@) {
            Some(Jv::Num(s)) => "revision should be a u64 (not "@ + s + ")"@,
            Some(Jv::Str(s)) => "couldn't parse a revision number from '"@ + s + "'"@,
            _ => "tiddler['revision'] should be a number"@,
        }
    }
}

impl Tiddler {
    /// Builds a record from a wire document. The whole input value becomes
    /// the record's metadata; `title` must be a string and `revision`, when
    /// present, a non-negative integer in numeric or string form.
    pub fn from_value(value: JsonValue) -> (r: Result<Tiddler, AppError>)
        ensures
            r is Ok <==> wire_ok(value@),
            r matches Ok(t) ==> {
                &&& value@ matches Jv::Obj(m)
                &&& Some(t.title@) == spec_title_of(m)
                &&& Some(t.revision) == spec_revision_of(m)
                &&& t.meta@ == value@
            },
            r matches Err(e) ==> e matches AppError::Serialization(msg) && msg@ == spec_wire_error(
                value@,
            ),
    {
        broadcast use lemma_jsonvalue_view;

        match &value {
            JsonValue::Obj(m) => {
                let title: String = match entries_get(m, "title") {
                    Some(tv) => match tv.as_str() {
                        Some(s) => s.clone(),
                        None => {
                            return Err(
                                AppError::Serialization(
                                    String::from_str("tiddler['title'] should be a string"),
                                ),
                            );
                        },
                    },
                    None => {
                        return Err(
                            AppError::Serialization(
                                String::from_str("tiddler['title'] should be a string"),
                            ),
                        );
                    },
                };
                let revision: u64 = match entries_get(m, "revision") {
                    None => 0,
                    Some(rv) => match rv {
                        JsonValue::Num(s) => {
                            let cs = chars_of(s.as_str());
                            match parse_dec_u64(&cs) {
                                Some(n) => n,
                                None => {
                                    let msg = String::from_str("revision should be a u64 (not ")
                                        .concat(s.as_str()).concat(")");
                                    return Err(AppError::Serialization(msg));
                                },
                            }
                        },
                        JsonValue::Str(s) => {
                            let cs = chars_of(s.as_str());
                            match parse_dec_u64_plus(&cs) {
                                Some(n) => n,
                                None => {
                                    let msg = String::from_str(
                                        "couldn't parse a revision number from '",
                                    ).concat(s.as_str()).concat("'");
                                    return Err(AppError::Serialization(msg));
                                },
                            }
                        },
                        _ => {
                            return Err(
                                AppError::Serialization(
                                    String::from_str("tiddler['revision'] should be a number"),
                                ),
                            );
                        },
                    },
                };
                Ok(Tiddler { title, revision, meta: value })
            },
            _ => Err(
                AppError::Serialization(String::from_str("from_value expects a JSON Object")),
            ),
        }
    }
}

/// A whitespace character, as far as tag wrapping is concerned: space, tab,
/// line feed or carriage return.
pub open spec fn is_tag_whitespace(c: char) -> bool {
    c == ' ' || c == '\t' || c == '\n' || c == '\r'
}

/// Whether a tag contains whitespace and so must be wrapped.
pub open spec fn has_whitespace(t: Seq<char>) -> bool {
    exists|i: int| 0 <= i < t.len() && is_tag_whitespace(t[i])
}

/// A tag as it appears in the collapsed tag string: wrapped in double square
/// brackets when it contains whitespace.
pub open spec fn encode_tag(t: Seq<char>) -> Seq<char> {
    if has_whitespace(t) {
        seq!['[', '['] + t + seq![']', ']']
    } else {
        t
    }
}

/// The encoded forms of the string elements of a tag array; other elements
/// are dropped.
pub open spec fn tag_strings(ts: Seq<Jv>) -> Seq<Seq<char>>
    decreases ts.len(),
{
    if ts.len() == 0 {
        Seq::empty()
    } else {
        match ts[0] {
            Jv::Str(s) => seq![encode_tag(s)] + tag_strings(ts.drop_first()),
            _ => tag_strings(ts.drop_first()),
        }
    }
}

/// The parts joined with single spaces.
pub open spec fn join_sp(parts: Seq<Seq<char>>) -> Seq<char>
    decreases parts.len(),
{
    if parts.len() == 0 {
        Seq::empty()
    } else if parts.len() == 1 {
        parts[0]
    } else {
        parts[0] + seq![' '] + join_sp(parts.drop_first())
    }
}

/// Joining one more part appends a space separator unless nothing came
/// before.
pub proof fn lemma_join_push(parts: Seq<Seq<char>>, p: Seq<char>)
    ensures
        join_sp(parts.push(p)) == if parts.len() == 0 {
            p
        } else {
            join_sp(parts) + seq![' '] + p
        },
    decreases parts.len(),
{
    if parts.len() == 0 {
        assert(parts.push(p)[0] == p);
    } else {
        lemma_join_push(parts.drop_first(), p);
        assert(parts.push(p).drop_first() =~= parts.drop_first().push(p));
        if parts.len() == 1 {
            assert(join_sp(parts.push(p)) == parts[0] + seq![' '] + join_sp(
                parts.drop_first().push(p),
            ));
            assert(join_sp(parts.drop_first().push(p)) == p);
        } else {
            assert(join_sp(parts) + seq![' '] + p =~= parts[0] + seq![' '] + (join_sp(
                parts.drop_first(),
            ) + seq![' '] + p));
        }
    }
}

/// The entries of `fm` added to `m` in order, each only where its key is
/// absent.
pub open spec fn merge_absent(
    m: Seq<(Seq<char>, Jv)>,
    fm: Seq<(Seq<char>, Jv)>,
) -> Seq<(Seq<char>, Jv)>
    decreases fm.len(),
{
    if fm.len() == 0 {
        m
    } else {
        merge_absent(obj_set_if_absent(m, fm[0].0, fm[0].1), fm.drop_first())
    }
}

/// The object after merging a nested `fields` container up into the top
/// level without overwriting existing keys. A `fields` entry that is not an
/// object is dropped.
pub open spec fn flatten_fields(m: Seq<(Seq<char>, Jv)>) -> Seq<(Seq<char>, Jv)> {
    match obj_get(m, "fields"@) {
        Some(Jv::Obj(fm)) => merge_absent(obj_remove(m, "fields"@), fm),
        Some(_) => obj_remove(m, "fields"@),
        None => m,
    }
}

/// The object after collapsing a tag array to one space-delimited string.
/// A string tag field stays as it is; any other shape is dropped.
pub open spec fn normalize_tags(m: Seq<(Seq<char>, Jv)>) -> Seq<(Seq<char>, Jv)> {
    match obj_get(m, "tags"@) {
        Some(Jv::Arr(ts)) => obj_set(m, "tags"@, Jv::Str(join_sp(tag_strings(ts)))),
        Some(Jv::Str(s)) => m,
        Some(_) => obj_remove(m, "tags"@),
        None => m,
    }
}

/// The wire document derived from a record: fields flattened, tags
/// collapsed, `title` and `revision` force-set from the record, and `bag`
/// defaulted. Metadata that is not an object passes through unchanged.
pub open spec fn spec_document(title: Seq<char>, revision: u64, meta: Jv) -> Jv {
    match meta {
        Jv::Obj(m) => Jv::Obj(
            obj_set_if_absent(
                obj_set(
                    obj_set(normalize_tags(flatten_fields(m)), "title"@, Jv::Str(title)),
                    "revision"@,
                    Jv::Str(u64_dec(revision)),
                ),
                "bag"@,
                Jv::Str("default"@),
            ),
        ),
        _ => meta,
    }
}

/// The skinny form of a document: the same object without its `text` field.
pub open spec fn spec_skinny(doc: Jv) -> Jv {
    match doc {
        Jv::Obj(m) => Jv::Obj(obj_remove(m, "text"@)),
        _ => doc,
    }
}

/// The encoded form of one tag.
fn encode_tag_chars(s: &String) -> (r: Vec<char>)
    ensures
        r@ == encode_tag(s@),
{
    let cs = chars_of(s.as_str());
    let mut wrap = false;
    let mut i: usize = 0;
    while i < cs.len()
        invariant
            0 <= i <= cs@.len(),
            cs@ == s@,
            wrap == exists|j: int| 0 <= j < i && is_tag_whitespace(cs@[j]),
        decreases cs@.len() - i,
    {
        let c = cs[i];
        if c == ' ' || c == '\t' || c == '\n' || c == '\r' {
            wrap = true;
        }
        i = i + 1;
    }
    if wrap {
        let mut out: Vec<char> = Vec::new();
        out.push('[');
        out.push('[');
        let mut j: usize = 0;
        while j < cs.len()
            invariant
                0 <= j <= cs@.len(),
                out@ == seq!['[', '['] + cs@.take(j as int),
            decreases cs@.len() - j,
        {
            out.push(cs[j]);
            j = j + 1;
            assert(out@ =~= seq!['[', '['] + cs@.take(j as int));
        }
        out.push(']');
        out.push(']');
        assert(cs@.take(cs@.len() as int) =~= cs@);
        assert(out@ =~= seq!['[', '['] + s@ + seq![']', ']']);
        out
    } else {
        cs
    }
}

/// The space-delimited tag string of a tag array.
fn tags_join(ts: &Vec<JsonValue>) -> (r: String)
    ensures
        r@ == join_sp(tag_strings(view_arr(ts@))),
{
    broadcast use lemma_view_arr;

    let ghost full = tag_strings(view_arr(ts@));
    let mut out: Vec<char> = Vec::new();
    let mut first: bool = true;
    let ghost mut done: Seq<Seq<char>> = Seq::empty();
    let mut i: usize = 0;
    assert(view_arr(ts@).skip(0) =~= view_arr(ts@));
    while i < ts.len()
        invariant
            0 <= i <= ts@.len(),
            view_arr(ts@).len() == ts@.len(),
            full == tag_strings(view_arr(ts@)),
            full == done + tag_strings(view_arr(ts@).skip(i as int)),
            out@ == join_sp(done),
            first == (done.len() == 0),
        decreases ts@.len() - i,
    {
        let ghost va = view_arr(ts@);
        proof {
            lemma_view_arr(ts@);
            assert(view_arr(ts@)[i as int] == ts@[i as int]@);
            assert(va.skip(i as int)[0] == va[i as int]);
            assert(va.skip(i as int).drop_first() =~= va.skip(i + 1));
        }
        match ts[i].as_str() {
            Some(s) => {
                let enc = encode_tag_chars(s);
                proof {
                    assert(tag_strings(va.skip(i as int)) == seq![encode_tag(s@)] + tag_strings(
                        va.skip(i + 1),
                    ));
                    lemma_join_push(done, encode_tag(s@));
                    assert(done + tag_strings(va.skip(i as int)) =~= done.push(encode_tag(s@))
                        + tag_strings(va.skip(i + 1)));
                }
                if !first {
                    out.push(' ');
                }
                let mut j: usize = 0;
                let ghost out0 = out@;
                while j < enc.len()
                    invariant
                        0 <= j <= enc@.len(),
                        out@ == out0 + enc@.take(j as int),
                    decreases enc@.len() - j,
                {
                    out.push(enc[j]);
                    j = j + 1;
                    assert(out@ =~= out0 + enc@.take(j as int));
                }
                assert(enc@.take(enc@.len() as int) =~= enc@);
                proof {
                    if done.len() == 0 {
                        assert(out@ =~= encode_tag(s@));
                    } else {
                        assert(out@ =~= join_sp(done) + seq![' '] + encode_tag(s@));
                    }
                    done = done.push(encode_tag(s@));
                }
                first = false;
            },
            None => {
                proof {
                    assert(tag_strings(va.skip(i as int)) == tag_strings(va.skip(i + 1)));
                }
            },
        }
        i = i + 1;
    }
    assert(view_arr(ts@).skip(i as int).len() == 0);
    assert(full =~= done);
    string_of(&out)
}

impl Tiddler {
    /// The wire document this record denotes.
    pub fn as_value(&self) -> (r: JsonValue)
        ensures
            r@ == spec_document(self.title@, self.revision, self.meta@),
    {
        broadcast use lemma_view_obj;

        let doc = self.meta.deep_copy();
        match doc {
            JsonValue::Obj(mut mv) => {
                // Merge a nested field container up, keeping existing keys.
                let ghost m0 = view_obj(mv@);
                let fv = entries_remove(&mut mv, "fields");
                match fv {
                    Some(JsonValue::Obj(fvec)) => {
                        let ghost base = view_obj(mv@);
                        let ghost fm = view_obj(fvec@);
                        let mut i: usize = 0;
                        assert(fm.skip(0) =~= fm);
                        while i < fvec.len()
                            invariant
                                0 <= i <= fvec@.len(),
                                fm == view_obj(fvec@),
                                fm.len() == fvec@.len(),
                                merge_absent(base, fm) == merge_absent(
                                    view_obj(mv@),
                                    fm.skip(i as int),
                                ),
                            decreases fvec@.len() - i,
                        {
                            proof {
                                lemma_view_obj(fvec@);
                                assert(view_obj(fvec@)[i as int] == (
                                    fvec@[i as int].key@,
                                    fvec@[i as int].val@,
                                ));
                                assert(fm.skip(i as int)[0] == fm[i as int]);
                                assert(fm.skip(i as int).drop_first() =~= fm.skip(i + 1));
                            }
                            let k = fvec[i].key.clone();
                            let v = fvec[i].val.deep_copy();
                            entries_set_if_absent(&mut mv, k, v);
                            i = i + 1;
                        }
                        assert(fm.skip(i as int).len() == 0);
                        assert(view_obj(mv@) == merge_absent(base, fm));
                        assert(view_obj(mv@) == flatten_fields(m0));
                    },
                    Some(_) => {
                        assert(view_obj(mv@) == flatten_fields(m0));
                    },
                    None => {
                        assert(view_obj(mv@) == flatten_fields(m0));
                    },
                }
                // Collapse a tag array to one space-delimited string.
                let ghost flat = view_obj(mv@);
                let tags_copy: Option<JsonValue> = match entries_get(&mv, "tags") {
                    Some(t) => Some(t.deep_copy()),
                    None => None,
                };
                match tags_copy {
                    Some(JsonValue::Arr(ts)) => {
                        let s = tags_join(&ts);
                        entries_set(&mut mv, String::from_str("tags"), JsonValue::Str(s));
                        assert(view_obj(mv@) == normalize_tags(flat));
                    },
                    Some(JsonValue::Str(_)) => {
                        assert(view_obj(mv@) == normalize_tags(flat));
                    },
                    Some(_) => {
                        let _ = entries_remove(&mut mv, "tags");
                        assert(view_obj(mv@) == normalize_tags(flat));
                    },
                    None => {
                        assert(view_obj(mv@) == normalize_tags(flat));
                    },
                }
                // Force-set the authoritative fields and default the bag.
                entries_set(&mut mv, String::from_str("title"), JsonValue::Str(self.title.clone()));
                let revs = u64_to_dec(self.revision);
                entries_set(
                    &mut mv,
                    String::from_str("revision"),
                    JsonValue::Str(string_of(&revs)),
                );
                entries_set_if_absent(
                    &mut mv,
                    String::from_str("bag"),
                    JsonValue::Str(String::from_str("default")),
                );
                JsonValue::Obj(mv)
            },
            other => other,
        }
    }

    /// The wire document without its `text` field, for bulk listing.
    pub fn as_skinny_value(&self) -> (r: JsonValue)
        ensures
            r@ == spec_skinny(spec_document(self.title@, self.revision, self.meta@)),
    {
        let doc = self.as_value();
        match doc {
            JsonValue::Obj(mut mv) => {
                let _ = entries_remove(&mut mv, "text");
                JsonValue::Obj(mv)
            },
            other => other,
        }
    }
}

/// The special field names the derivation touches are pairwise distinct.
pub proof fn lemma_field_names_distinct()
    ensures
        "title"@ != "revision"@,
        "title"@ != "bag"@,
        "title"@ != "tags"@,
        "title"@ != "fields"@,
        "title"@ != "text"@,
        "revision"@ != "bag"@,
        "revision"@ != "tags"@,
        "revision"@ != "fields"@,
        "revision"@ != "text"@,
        "bag"@ != "tags"@,
        "bag"@ != "fields"@,
        "bag"@ != "text"@,
        "tags"@ != "fields"@,
        "tags"@ != "text"@,
        "fields"@ != "text"@,
{
    reveal_strlit("title");
    reveal_strlit("revision");
    reveal_strlit("bag");
    reveal_strlit("tags");
    reveal_strlit("fields");
    reveal_strlit("text");
    assert("title"@.len() == 5);
    assert("revision"@.len() == 8);
    assert("bag"@.len() == 3);
    assert("tags"@.len() == 4);
    assert("fields"@.len() == 6);
    assert("text"@.len() == 4);
    assert("tags"@[0] == 't' && "text"@[1] == 'e' && "tags"@[1] == 'a');
}

/// Collapsing the tag field reads every other field unchanged.
pub proof fn lemma_normalize_tags_other(m: Seq<(Seq<char>, Jv)>, k: Seq<char>)
    requires
        k != "tags"@,
    ensures
        obj_get(normalize_tags(m), k) == obj_get(m, k),
{
    match obj_get(m, "tags"@) {
        Some(Jv::Arr(ts)) => {
            lemma_obj_get_set(m, "tags"@, Jv::Str(join_sp(tag_strings(ts))), k);
        },
        Some(Jv::Str(s)) => {},
        Some(t) => {
            lemma_obj_get_remove(m, "tags"@, k);
        },
        None => {},
    }
}

/// What the derived document's own fields read as: the record's title, the
/// revision's decimal text, and a `bag` present in every case; every other
/// field reads as in the flattened, tag-normalized metadata.
pub proof fn lemma_document_fields(title: Seq<char>, revision: u64, m: Seq<(Seq<char>, Jv)>)
    ensures
        spec_document(title, revision, Jv::Obj(m)) is Obj,
        ({
            let dm = spec_document(title, revision, Jv::Obj(m))->Obj_0;
            let base = normalize_tags(flatten_fields(m));
            &&& obj_get(dm, "title"@) == Some(Jv::Str(title))
            &&& obj_get(dm, "revision"@) == Some(Jv::Str(u64_dec(revision)))
            &&& obj_get(dm, "bag"@) == if obj_has(base, "bag"@) {
                obj_get(base, "bag"@)
            } else {
                Some(Jv::Str("default"@))
            }
            &&& forall|k: Seq<char>|
                k != "title"@ && k != "revision"@ && k != "bag"@ ==> #[trigger] obj_get(dm, k)
                    == obj_get(base, k)
        }),
{
    lemma_field_names_distinct();
    let base = normalize_tags(flatten_fields(m));
    let x1 = obj_set(base, "title"@, Jv::Str(title));
    let x2 = obj_set(x1, "revision"@, Jv::Str(u64_dec(revision)));
    let dm = obj_set_if_absent(x2, "bag"@, Jv::Str("default"@));
    lemma_obj_get_set(base, "title"@, Jv::Str(title), "title"@);
    lemma_obj_get_set(x1, "revision"@, Jv::Str(u64_dec(revision)), "title"@);
    lemma_obj_get_set_if_absent(x2, "bag"@, Jv::Str("default"@), "title"@);
    lemma_obj_get_set(x1, "revision"@, Jv::Str(u64_dec(revision)), "revision"@);
    lemma_obj_get_set_if_absent(x2, "bag"@, Jv::Str("default"@), "revision"@);
    lemma_obj_get_set(base, "title"@, Jv::Str(title), "bag"@);
    lemma_obj_get_set(x1, "revision"@, Jv::Str(u64_dec(revision)), "bag"@);
    lemma_obj_get_set_if_absent(x2, "bag"@, Jv::Str("default"@), "bag"@);
    assert forall|k: Seq<char>| k != "title"@ && k != "revision"@ && k != "bag"@ implies #[trigger]
    obj_get(dm, k) == obj_get(base, k) by {
        lemma_obj_get_set(base, "title"@, Jv::Str(title), k);
        lemma_obj_get_set(x1, "revision"@, Jv::Str(u64_dec(revision)), k);
        lemma_obj_get_set_if_absent(x2, "bag"@, Jv::Str("default"@), k);
    }
}

/// Deriving the document twice changes nothing: a derived document parses
/// back to the same title and revision, and derives to itself.
///
/// The two premises exclude documents whose flattened form still carries a
/// `fields` name (a nested container that itself holds a `fields` entry) or
/// duplicate field names; a wire object parsed from JSON meets both.
pub proof fn lemma_document_idempotent(title: Seq<char>, revision: u64, m: Seq<(Seq<char>, Jv)>)
    requires
        !obj_has(flatten_fields(m), "fields"@),
        distinct_keys(flatten_fields(m)),
    ensures
        ({
            let d1 = spec_document(title, revision, Jv::Obj(m));
            &&& wire_ok(d1)
            &&& spec_title_of(d1->Obj_0) == Some(title)
            &&& spec_revision_of(d1->Obj_0) == Some(revision)
            &&& spec_document(title, revision, d1) == d1
        }),
{
    lemma_field_names_distinct();
    crate::numstr::lemma_dec_roundtrip(revision);
    let f = flatten_fields(m);
    let base = normalize_tags(f);
    let x1 = obj_set(base, "title"@, Jv::Str(title));
    let x2 = obj_set(x1, "revision"@, Jv::Str(u64_dec(revision)));
    let dm = obj_set_if_absent(x2, "bag"@, Jv::Str("default"@));
    let d1 = spec_document(title, revision, Jv::Obj(m));
    assert(d1 == Jv::Obj(dm));
    lemma_document_fields(title, revision, m);

    // The derived document parses back to the same record fields.
    assert(spec_title_of(dm) == Some(title));
    assert(spec_revision_of(dm) == Some(revision));
    assert(wire_ok(d1));

    // No `fields` container survives, so the second flatten is the
    // identity.
    lemma_normalize_tags_other(f, "fields"@);
    assert(obj_get(dm, "fields"@) == obj_get(base, "fields"@));
    assert(obj_get(dm, "fields"@) is None);
    assert(flatten_fields(dm) == dm);

    // The collapsed tag field is already a string or absent, so the second
    // collapse is the identity.
    assert(obj_get(dm, "tags"@) == obj_get(base, "tags"@));
    match obj_get(f, "tags"@) {
        Some(Jv::Arr(ts)) => {
            lemma_obj_get_set(f, "tags"@, Jv::Str(join_sp(tag_strings(ts))), "tags"@);
            assert(obj_get(base, "tags"@) == Some(Jv::Str(join_sp(tag_strings(ts)))));
        },
        Some(Jv::Str(s)) => {},
        Some(t) => {
            lemma_obj_remove_gone(f, "tags"@);
            assert(obj_get(base, "tags"@) is None);
        },
        None => {
            lemma_key_find(f, "tags"@);
        },
    }
    assert(normalize_tags(dm) == dm);

    // Re-setting the authoritative fields stores the values they already
    // hold.
    lemma_key_find(dm, "title"@);
    let kt = key_find(dm, "title"@);
    assert(dm[kt] == ("title"@, Jv::Str(title)));
    assert(obj_set(dm, "title"@, Jv::Str(title)) =~= dm);
    lemma_key_find(dm, "revision"@);
    let kr = key_find(dm, "revision"@);
    assert(dm[kr] == ("revision"@, Jv::Str(u64_dec(revision))));
    assert(obj_set(dm, "revision"@, Jv::Str(u64_dec(revision))) =~= dm);
    lemma_key_find(dm, "bag"@);
    assert(obj_has(dm, "bag"@));
    assert(obj_set_if_absent(dm, "bag"@, Jv::Str("default"@)) == dm);
    assert(spec_document(title, revision, d1) == d1);
}

} // verus!
