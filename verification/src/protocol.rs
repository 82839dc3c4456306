//! The pieces of the wire protocol that are pure computation: the server
//! identity block, the `Etag` header value, the inbox document builder, and
//! the basic-auth credential check.

use vstd::prelude::*;
use vstd::string::StringExecFns;

use crate::jsonval::{view_obj, JsonEntry, JsonValue, Jv};
use crate::numstr::{u64_dec, u64_to_dec};
use crate::offload::base64_decoded;
use crate::strutil::{chars_of, matches_at, starts_with, str_eq, string_of};

verus! {

broadcast use vstd::std_specs::vec::group_vec_axioms, vstd::seq::group_seq_axioms,
    vstd::seq_lib::group_seq_lib_default, vstd::string::group_string_axioms;

/// The wiki-protocol grouping the server models: exactly one recipe.
pub struct Space {
    pub recipe: String,
}

/// The server-identity block of the status endpoint.
pub struct Status {
    pub username: String,
    pub anonymous: bool,
    pub read_only: bool,
    pub space: Space,
    pub tiddlywiki_version: String,
}

impl core::default::Default for Space {
    /// The one hard-coded recipe.
    fn default() -> (r: Space)
        ensures
            r.recipe@ == "default"@,
    {
        Space { recipe: String::from_str("default") }
    }
}

/// The wiki version the server reports by default.
pub fn default_tw_version() -> (r: String)
    ensures
        r@ == "5.3.8"@,
{
    String::from_str("5.3.8")
}

/// The server identity used when the configuration gives none.
pub fn default_status_config() -> (r: Status)
    ensures
        r.username@ == "anonymous"@,
        !r.anonymous,
        !r.read_only,
        r.space.recipe@ == "default"@,
        r.tiddlywiki_version@ == "5.3.8"@,
{
    Status {
        username: String::from_str("anonymous"),
        anonymous: false,
        read_only: false,
        space: Space { recipe: String::from_str("default") },
        tiddlywiki_version: default_tw_version(),
    }
}

/// The `Etag` a successful write answers with: the recipe, the title, and
/// the revision the record was stored at.
pub fn etag_for(title: &str, revision: u64) -> (r: String)
    ensures
        r@ == "default/"@ + title@ + seq!['/'] + u64_dec(revision) + seq![':'],
{
    let revs = string_of(&u64_to_dec(revision));
    let r = String::from_str("default/").concat(title).concat("/").concat(revs.as_str()).concat(
        ":",
    );
    proof {
        reveal_strlit("/");
        reveal_strlit(":");
        assert("/"@ =~= seq!['/']);
        assert(":"@ =~= seq![':']);
    }
    r
}

/// The tag string of an inbox capture: at least `Inbox`, with the caller's
/// tags appended when any were given.
pub fn inbox_tags(tags: Option<&String>) -> (r: String)
    ensures
        match tags {
            Some(t) => if t@.len() > 0 {
                r@ == "Inbox "@ + t@
            } else {
                r@ == "Inbox"@
            },
            None => r@ == "Inbox"@,
        },
{
    match tags {
        Some(t) => {
            if t.as_str().is_empty() {
                String::from_str("Inbox")
            } else {
                String::from_str("Inbox ").concat(t.as_str())
            }
        },
        None => String::from_str("Inbox"),
    }
}

/// A number's decimal text, left-padded with zeros to two digits.
pub open spec fn pad2(n: u64) -> Seq<char> {
    if n < 10 {
        seq!['0'] + u64_dec(n)
    } else {
        u64_dec(n)
    }
}

/// The 17-digit timestamp of an inbox capture: year, month, day, hour,
/// minute and second, each zero-padded, and a fixed millisecond field of
/// zeros.
pub open spec fn spec_inbox_timestamp(
    y: u64,
    mo: u64,
    d: u64,
    h: u64,
    mi: u64,
    s: u64,
) -> Seq<char> {
    u64_dec(y) + pad2(mo) + pad2(d) + pad2(h) + pad2(mi) + pad2(s) + seq!['0', '0', '0']
}

/// The title of an inbox capture: `Inbox` and the human-readable time.
pub open spec fn spec_inbox_title(y: u64, mo: u64, d: u64, h: u64, mi: u64, s: u64) -> Seq<char> {
    "Inbox "@ + u64_dec(y) + seq!['-'] + pad2(mo) + seq!['-'] + pad2(d) + seq![' '] + pad2(h)
        + seq![':'] + pad2(mi) + seq![':'] + pad2(s)
}

/// A number's decimal text, left-padded with zeros to two digits.
fn pad2_chars(n: u64) -> (r: Vec<char>)
    ensures
        r@ == pad2(n),
{
    let d = u64_to_dec(n);
    if n < 10 {
        let mut out: Vec<char> = Vec::new();
        out.push('0');
        let mut i: usize = 0;
        while i < d.len()
            invariant
                0 <= i <= d@.len(),
                out@ == seq!['0'] + d@.take(i as int),
            decreases d@.len() - i,
        {
            out.push(d[i]);
            i = i + 1;
            assert(out@ =~= seq!['0'] + d@.take(i as int));
        }
        assert(d@.take(i as int) =~= d@);
        out
    } else {
        d
    }
}

/// Appends characters to a growing buffer.
pub(crate) fn push_all(out: &mut Vec<char>, cs: &Vec<char>)
    ensures
        final(out)@ == old(out)@ + cs@,
{
    let ghost out0 = out@;
    let mut i: usize = 0;
    while i < cs.len()
        invariant
            0 <= i <= cs@.len(),
            out@ == out0 + cs@.take(i as int),
        decreases cs@.len() - i,
    {
        out.push(cs[i]);
        i = i + 1;
        assert(out@ =~= out0 + cs@.take(i as int));
    }
    assert(cs@.take(i as int) =~= cs@);
}

/// The 17-digit timestamp of an inbox capture.
pub fn inbox_timestamp(y: u64, mo: u64, d: u64, h: u64, mi: u64, s: u64) -> (r: String)
    ensures
        r@ == spec_inbox_timestamp(y, mo, d, h, mi, s),
        1000 <= y < 10000 && mo < 100 && d < 100 && h < 100 && mi < 100 && s < 100 ==> r@.len()
            == 17,
{
    proof {
        if 1000 <= y < 10000 && mo < 100 && d < 100 && h < 100 && mi < 100 && s < 100 {
            crate::numstr::lemma_u64_dec_len(y);
            crate::numstr::lemma_u64_dec_len(mo);
            crate::numstr::lemma_u64_dec_len(d);
            crate::numstr::lemma_u64_dec_len(h);
            crate::numstr::lemma_u64_dec_len(mi);
            crate::numstr::lemma_u64_dec_len(s);
        }
    }
    let mut out: Vec<char> = Vec::new();
    let yd = u64_to_dec(y);
    push_all(&mut out, &yd);
    let p = pad2_chars(mo);
    push_all(&mut out, &p);
    let p = pad2_chars(d);
    push_all(&mut out, &p);
    let p = pad2_chars(h);
    push_all(&mut out, &p);
    let p = pad2_chars(mi);
    push_all(&mut out, &p);
    let p = pad2_chars(s);
    push_all(&mut out, &p);
    out.push('0');
    out.push('0');
    out.push('0');
    assert(out@ =~= spec_inbox_timestamp(y, mo, d, h, mi, s));
    string_of(&out)
}

/// The title of an inbox capture.
pub fn inbox_title(y: u64, mo: u64, d: u64, h: u64, mi: u64, s: u64) -> (r: String)
    ensures
        r@ == spec_inbox_title(y, mo, d, h, mi, s),
{
    let mut out: Vec<char> = chars_of("Inbox ");
    let yd = u64_to_dec(y);
    push_all(&mut out, &yd);
    out.push('-');
    let p = pad2_chars(mo);
    push_all(&mut out, &p);
    out.push('-');
    let p = pad2_chars(d);
    push_all(&mut out, &p);
    out.push(' ');
    let p = pad2_chars(h);
    push_all(&mut out, &p);
    out.push(':');
    let p = pad2_chars(mi);
    push_all(&mut out, &p);
    out.push(':');
    let p = pad2_chars(s);
    push_all(&mut out, &p);
    assert(out@ =~= spec_inbox_title(y, mo, d, h, mi, s));
    string_of(&out)
}

/// The wire document of an inbox capture: the given title and text, the
/// computed tag string, the timestamp as both `created` and `modified`, and
/// the default wiki text type.
pub fn make_inbox_tiddler(title: String, text: String, tags: String, ts: String) -> (r: JsonValue)
    ensures
        r@ == Jv::Obj(
            seq![
                ("title"@, Jv::Str(title@)),
                ("text"@, Jv::Str(text@)),
                ("tags"@, Jv::Str(tags@)),
                ("created"@, Jv::Str(ts@)),
                ("modified"@, Jv::Str(ts@)),
                ("type"@, Jv::Str("text/vnd.tiddlywiki"@)),
            ],
        ),
{
    broadcast use crate::jsonval::lemma_view_obj;

    let ts2 = ts.clone();
    let mut entries: Vec<JsonEntry> = Vec::new();
    entries.push(JsonEntry { key: String::from_str("title"), val: JsonValue::Str(title) });
    entries.push(JsonEntry { key: String::from_str("text"), val: JsonValue::Str(text) });
    entries.push(JsonEntry { key: String::from_str("tags"), val: JsonValue::Str(tags) });
    entries.push(JsonEntry { key: String::from_str("created"), val: JsonValue::Str(ts) });
    entries.push(JsonEntry { key: String::from_str("modified"), val: JsonValue::Str(ts2) });
    entries.push(
        JsonEntry {
            key: String::from_str("type"),
            val: JsonValue::Str(String::from_str("text/vnd.tiddlywiki")),
        },
    );
    let r = JsonValue::Obj(entries);
    proof {
        assert(view_obj(r->Obj_0@) =~= seq![
            ("title"@, Jv::Str(title@)),
            ("text"@, Jv::Str(text@)),
            ("tags"@, Jv::Str(tags@)),
            ("created"@, Jv::Str(ts@)),
            ("modified"@, Jv::Str(ts@)),
            ("type"@, Jv::Str("text/vnd.tiddlywiki"@)),
        ]);
    }
    r
}

/// What decoding bytes as UTF-8 yields, named and not written out: the
/// result depends on the bytes alone.
pub uninterp spec fn utf8_decoded(b: Seq<u8>) -> Option<Seq<char>>;

/// Relies on String::from_utf8: the characters the bytes decode to, or
/// nothing when they are not valid UTF-8.
#[verifier::external_body]
fn utf8_string(b: Vec<u8>) -> (r: Option<String>)
    ensures
        r is Some <==> utf8_decoded(b@) is Some,
        r matches Some(s) ==> utf8_decoded(b@) == Some(s@),
{
    match String::from_utf8(b) {
        Ok(s) => Some(s),
        Err(_) => None,
    }
}

/// Whether decoded credentials match: a first colon splits them into the
/// expected user and password.
pub open spec fn creds_match(s: Seq<char>, u: Seq<char>, p: Seq<char>) -> bool {
    exists|i: int|
        #![auto]
        0 <= i < s.len() && s[i] == ':' && (forall|j: int| 0 <= j < i ==> s[j] != ':') && s.take(i)
            == u && s.skip(i + 1) == p
}

/// Whether an Authorization header carries the configured credentials:
/// `Basic `, then base64 of `user:password`.
pub open spec fn spec_auth_ok(header: Option<Seq<char>>, u: Seq<char>, p: Seq<char>) -> bool {
    match header {
        Some(h) => starts_with(h, "Basic "@) && match base64_decoded(h.skip(6)) {
            Some(bytes) => match utf8_decoded(bytes) {
                Some(s) => creds_match(s, u, p),
                None => false,
            },
            None => false,
        },
        None => false,
    }
}

/// Checks an Authorization header against the configured credentials.
pub fn check_basic_auth(header: Option<&str>, username: &str, password: &str) -> (r: bool)
    ensures
        r == spec_auth_ok(
            match header {
                Some(h) => Some(h@),
                None => None,
            },
            username@,
            password@,
        ),
{
    let h = match header {
        Some(h) => h,
        None => {
            return false;
        },
    };
    let hc = chars_of(h);
    let basic = chars_of("Basic ");
    proof {
        reveal_strlit("Basic ");
        assert(basic@ =~= "Basic "@);
        assert("Basic "@.len() == 6);
    }
    if !matches_at(&hc, 0, &basic) {
        return false;
    }
    let mut enc: Vec<char> = Vec::new();
    let mut i: usize = 6;
    while i < hc.len()
        invariant
            6 <= i <= hc@.len(),
            enc@ == hc@.subrange(6, i as int),
        decreases hc@.len() - i,
    {
        enc.push(hc[i]);
        i = i + 1;
        assert(enc@ =~= hc@.subrange(6, i as int));
    }
    assert(enc@ =~= h@.skip(6));
    let enc_str = string_of(&enc);
    let bytes = match crate::offload::b64_decode(enc_str.as_str()) {
        Some(b) => b,
        None => {
            return false;
        },
    };
    let creds = match utf8_string(bytes) {
        Some(s) => s,
        None => {
            return false;
        },
    };
    let cs = chars_of(creds.as_str());
    let ghost hview: Option<Seq<char>> = Some(h@);
    proof {
        assert(starts_with(h@, "Basic "@));
        assert(spec_auth_ok(hview, username@, password@) == creds_match(
            creds@,
            username@,
            password@,
        ));
    }
    let mut i: usize = 0;
    while i < cs.len()
        invariant
            0 <= i <= cs@.len(),
            cs@ == creds@,
            hview == Some(h@),
            match header {
                Some(hh) => hh@ == h@,
                None => false,
            },
            spec_auth_ok(hview, username@, password@) == creds_match(
                creds@,
                username@,
                password@,
            ),
            forall|j: int| 0 <= j < i ==> cs@[j] != ':',
        decreases cs@.len() - i,
    {
        if cs[i] == ':' {
            let user = string_of(&crate::strutil::slice_to(&cs, i));
            let pass = string_of(&crate::strutil::slice_from(&cs, i + 1));
            let ok = str_eq(user.as_str(), username) && str_eq(pass.as_str(), password);
            proof {
                if ok {
                    assert(creds_match(creds@, username@, password@)) by {
                        assert(cs@.take(i as int) == username@ && cs@.skip(i + 1) == password@
                            && cs@[i as int] == ':');
                    }
                } else {
                    if creds_match(creds@, username@, password@) {
                        let w = choose|w: int|
                            #![auto]
                            0 <= w < creds@.len() && creds@[w] == ':' && (forall|j: int|
                                0 <= j < w ==> creds@[j] != ':') && creds@.take(w) == username@
                                && creds@.skip(w + 1) == password@;
                        if w < i {
                            assert(creds@[w] != ':');
                        }
                        if i < w {
                            assert(creds@[i as int] != ':');
                        }
                        assert(w == i);
                        assert(false);
                    }
                }
            }
            return ok;
        }
        i = i + 1;
    }
    proof {
        if creds_match(creds@, username@, password@) {
            let w = choose|w: int|
                #![auto]
                0 <= w < creds@.len() && creds@[w] == ':' && (forall|j: int|
                    0 <= j < w ==> creds@[j] != ':') && creds@.take(w) == username@ && creds@.skip(
                    w + 1,
                ) == password@;
            assert(creds@[w] != ':');
        }
    }
    false
}

} // verus!
