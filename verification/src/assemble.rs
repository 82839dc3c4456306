//! The snapshot assembler: every document serialized into a JSON array that
//! is spliced into a pre-parsed HTML carrier template, with the one
//! injection defense the page relies on — no literal `</script>` survives
//! inside the carrier's data block.

use vstd::prelude::*;

use crate::jsonval::{lemma_view_arr, lemma_view_obj, view_arr, view_obj, JsonValue, Jv};
use crate::strutil::{
    chars_of, contains_seq, find_first, join_char, join_seq, lemma_join_char_push,
    lemma_join_seq_push, matches_at, occurs_at, slice_from, slice_to, starts_with, string_of,
};

verus! {

broadcast use vstd::std_specs::vec::group_vec_axioms, vstd::seq::group_seq_axioms,
    vstd::seq_lib::group_seq_lib_default, vstd::string::group_string_axioms;

/// The hexadecimal digit for a value below sixteen, lower case.
pub open spec fn hex_digit(d: int) -> char {
    crate::digest::hex_digits()[d]
}

/// A character as it appears inside a JSON string literal: quote and
/// backslash escaped, control characters written as `\u00..`, everything
/// else itself.
pub open spec fn esc_char(c: char) -> Seq<char> {
    if c == '"' {
        seq!['\\', '"']
    } else if c == '\\' {
        seq!['\\', '\\']
    } else if (c as u32) < 32 {
        seq!['\\', 'u', '0', '0', hex_digit(c as u32 as int / 16), hex_digit(c as u32 as int % 16)]
    } else {
        seq![c]
    }
}

/// A string's characters escaped for a JSON string literal.
pub open spec fn esc_str(s: Seq<char>) -> Seq<char>
    decreases s.len(),
{
    if s.len() == 0 {
        Seq::empty()
    } else {
        esc_char(s[0]) + esc_str(s.drop_first())
    }
}

/// A JSON string literal.
pub open spec fn json_str_lit(s: Seq<char>) -> Seq<char> {
    seq!['"'] + esc_str(s) + seq!['"']
}

/// The JSON text of a value: compact, fields in stored order.
pub open spec fn spec_json(v: Jv) -> Seq<char>
    decreases v,
{
    match v {
        Jv::Null => seq!['n', 'u', 'l', 'l'],
        Jv::Bool(b) => if b {
            seq!['t', 'r', 'u', 'e']
        } else {
            seq!['f', 'a', 'l', 's', 'e']
        },
        Jv::Num(s) => s,
        Jv::Str(s) => json_str_lit(s),
        Jv::Arr(vs) => seq!['['] + join_char(json_parts_arr(vs), ',') + seq![']'],
        Jv::Obj(m) => seq!['{'] + join_char(json_parts_obj(m), ',') + seq!['}'],
    }
}

/// The serialized elements of an array.
pub open spec fn json_parts_arr(vs: Seq<Jv>) -> Seq<Seq<char>>
    decreases vs, vs.len(),
{
    if vs.len() == 0 {
        Seq::empty()
    } else {
        seq![spec_json(vs[0])] + json_parts_arr(vs.drop_first())
    }
}

/// The serialized `"key":value` fields of an object.
pub open spec fn json_parts_obj(m: Seq<(Seq<char>, Jv)>) -> Seq<Seq<char>>
    decreases m, m.len(),
{
    if m.len() == 0 {
        Seq::empty()
    } else {
        seq![json_str_lit(m[0].0) + seq![':'] + spec_json(m[0].1)] + json_parts_obj(m.drop_first())
    }
}

/// Appends a string's characters escaped for a JSON string literal.
fn push_escaped(s: &String, out: &mut Vec<char>)
    ensures
        final(out)@ == old(out)@ + esc_str(s@),
{
    let cs = chars_of(s.as_str());
    let ghost out0 = out@;
    let mut i: usize = 0;
    assert(s@.skip(0) =~= s@);
    while i < cs.len()
        invariant
            0 <= i <= cs@.len(),
            cs@ == s@,
            out0 + esc_str(s@) == out@ + esc_str(s@.skip(i as int)),
        decreases cs@.len() - i,
    {
        let c = cs[i];
        proof {
            assert(s@.skip(i as int)[0] == s@[i as int]);
            assert(s@.skip(i as int).drop_first() =~= s@.skip(i + 1));
            assert(esc_str(s@.skip(i as int)) == esc_char(s@[i as int]) + esc_str(s@.skip(i + 1)));
        }
        if c == '"' {
            out.push('\\');
            out.push('"');
        } else if c == '\\' {
            out.push('\\');
            out.push('\\');
        } else if (c as u32) < 32 {
            let n = c as u32;
            let hi = (n / 16) as u8;
            let lo = (n % 16) as u8;
            let hic: char = if hi < 10 {
                (48 + hi) as char
            } else {
                (87 + hi) as char
            };
            let loc: char = if lo < 10 {
                (48 + lo) as char
            } else {
                (87 + lo) as char
            };
            proof {
                assert(crate::digest::hex_digits()[hi as int] == hic);
                assert(crate::digest::hex_digits()[lo as int] == loc);
            }
            out.push('\\');
            out.push('u');
            out.push('0');
            out.push('0');
            out.push(hic);
            out.push(loc);
        } else {
            out.push(c);
        }
        i = i + 1;
        assert(out0 + esc_str(s@) =~= out@ + esc_str(s@.skip(i as int)));
    }
    assert(esc_str(s@.skip(i as int)) =~= Seq::<char>::empty());
    assert(out@ =~= out0 + esc_str(s@));
}

/// Appends the JSON text of a value.
pub fn write_json(v: &JsonValue, out: &mut Vec<char>)
    ensures
        final(out)@ == old(out)@ + spec_json(v@),
    decreases *v,
{
    let ghost out0 = out@;
    match v {
        JsonValue::Null => {
            out.push('n');
            out.push('u');
            out.push('l');
            out.push('l');
            assert(out@ =~= out0 + spec_json(v@));
        },
        JsonValue::Bool(b) => {
            if *b {
                out.push('t');
                out.push('r');
                out.push('u');
                out.push('e');
            } else {
                out.push('f');
                out.push('a');
                out.push('l');
                out.push('s');
                out.push('e');
            }
            assert(out@ =~= out0 + spec_json(v@));
        },
        JsonValue::Num(s) => {
            let cs = chars_of(s.as_str());
            let mut i: usize = 0;
            while i < cs.len()
                invariant
                    0 <= i <= cs@.len(),
                    out@ == out0 + cs@.take(i as int),
                decreases cs@.len() - i,
            {
                out.push(cs[i]);
                i = i + 1;
                assert(out@ =~= out0 + cs@.take(i as int));
            }
            assert(cs@.take(i as int) =~= cs@);
        },
        JsonValue::Str(s) => {
            out.push('"');
            push_escaped(s, out);
            out.push('"');
            assert(out@ =~= out0 + json_str_lit(s@));
        },
        JsonValue::Arr(vs) => {
            out.push('[');
            write_arr(vs, out);
            out.push(']');
            assert(out@ =~= out0 + spec_json(v@));
        },
        JsonValue::Obj(m) => {
            out.push('{');
            write_obj(m, out);
            out.push('}');
            assert(out@ =~= out0 + spec_json(v@));
        },
    }
}

/// Appends an array's serialized elements, comma separated.
fn write_arr(vs: &Vec<JsonValue>, out: &mut Vec<char>)
    ensures
        final(out)@ == old(out)@ + join_char(json_parts_arr(view_arr(vs@)), ','),
    decreases *vs,
{
    proof {
        lemma_view_arr(vs@);
    }
    let ghost out0 = out@;
    let ghost va = view_arr(vs@);
    let ghost mut done: Seq<Seq<char>> = Seq::empty();
    let mut first = true;
    let mut i: usize = 0;
    assert(va.skip(0) =~= va);
    while i < vs.len()
        invariant
            0 <= i <= vs@.len(),
            va == view_arr(vs@),
            va.len() == vs@.len(),
            json_parts_arr(va) == done + json_parts_arr(va.skip(i as int)),
            out@ == out0 + join_char(done, ','),
            first == (done.len() == 0),
        decreases vs@.len() - i,
    {
        proof {
            lemma_view_arr(vs@);
            assert(va.skip(i as int)[0] == va[i as int]);
            assert(va[i as int] == vs@[i as int]@);
            assert(va.skip(i as int).drop_first() =~= va.skip(i + 1));
            assert(json_parts_arr(va.skip(i as int)) == seq![spec_json(va[i as int])]
                + json_parts_arr(va.skip(i + 1)));
            assert(decreases_to!(*vs => vs@));
            assert(decreases_to!(vs@ => vs@[i as int]));
            lemma_join_char_push(done, ',', spec_json(va[i as int]));
            assert(done + json_parts_arr(va.skip(i as int)) =~= done.push(
                spec_json(va[i as int]),
            ) + json_parts_arr(va.skip(i + 1)));
        }
        if !first {
            out.push(',');
        }
        write_json(&vs[i], out);
        proof {
            done = done.push(spec_json(va[i as int]));
            assert(out@ =~= out0 + join_char(done, ','));
        }
        first = false;
        i = i + 1;
    }
    assert(va.skip(i as int).len() == 0);
    assert(json_parts_arr(va) =~= done);
}

/// Appends an object's serialized fields, comma separated.
fn write_obj(m: &Vec<crate::jsonval::JsonEntry>, out: &mut Vec<char>)
    ensures
        final(out)@ == old(out)@ + join_char(json_parts_obj(view_obj(m@)), ','),
    decreases *m,
{
    proof {
        lemma_view_obj(m@);
    }
    let ghost out0 = out@;
    let ghost mo = view_obj(m@);
    let ghost mut done: Seq<Seq<char>> = Seq::empty();
    let mut first = true;
    let mut i: usize = 0;
    assert(mo.skip(0) =~= mo);
    while i < m.len()
        invariant
            0 <= i <= m@.len(),
            mo == view_obj(m@),
            mo.len() == m@.len(),
            json_parts_obj(mo) == done + json_parts_obj(mo.skip(i as int)),
            out@ == out0 + join_char(done, ','),
            first == (done.len() == 0),
        decreases m@.len() - i,
    {
        let ghost part = json_str_lit(mo[i as int].0) + seq![':'] + spec_json(mo[i as int].1);
        proof {
            lemma_view_obj(m@);
            assert(mo.skip(i as int)[0] == mo[i as int]);
            assert(mo[i as int] == (m@[i as int].key@, m@[i as int].val@));
            assert(mo.skip(i as int).drop_first() =~= mo.skip(i + 1));
            assert(json_parts_obj(mo.skip(i as int)) == seq![part] + json_parts_obj(
                mo.skip(i + 1),
            ));
            assert(decreases_to!(*m => m@));
            assert(decreases_to!(m@ => m@[i as int]));
            assert(decreases_to!(m@[i as int] => m@[i as int].val));
            lemma_join_char_push(done, ',', part);
            assert(done + json_parts_obj(mo.skip(i as int)) =~= done.push(part) + json_parts_obj(
                mo.skip(i + 1),
            ));
        }
        if !first {
            out.push(',');
        }
        out.push('"');
        push_escaped(&m[i].key, out);
        out.push('"');
        out.push(':');
        write_json(&m[i].val, out);
        proof {
            done = done.push(part);
            assert(out@ =~= out0 + join_char(done, ','));
        }
        first = false;
        i = i + 1;
    }
    assert(mo.skip(i as int).len() == 0);
    assert(json_parts_obj(mo) =~= done);
}

/// The JSON text of a value.
pub fn to_json(v: &JsonValue) -> (r: String)
    ensures
        r@ == spec_json(v@),
{
    let mut out: Vec<char> = Vec::new();
    write_json(v, &mut out);
    string_of(&out)
}

/// The closing script tag that must not appear literally inside the
/// carrier's data block.
pub open spec fn script_end() -> Seq<char> {
    seq!['<', '/', 's', 'c', 'r', 'i', 'p', 't', '>']
}

/// The escaped form the assembler writes in its place.
pub open spec fn script_end_escaped() -> Seq<char> {
    seq!['<', '\\', '/', 's', 'c', 'r', 'i', 'p', 't', '>']
}

/// The payload with every literal closing script tag escaped.
pub open spec fn spec_escape_script(s: Seq<char>) -> Seq<char>
    decreases s.len(),
{
    if s.len() == 0 {
        Seq::empty()
    } else if starts_with(s, script_end()) {
        script_end_escaped() + spec_escape_script(s.skip(9))
    } else {
        seq![s[0]] + spec_escape_script(s.skip(1))
    }
}

/// Where the escaped text begins with characters that are not `<`, the
/// input began with the same characters.
proof fn lemma_escape_prefix(s: Seq<char>, p: Seq<char>)
    requires
        forall|i: int| 0 <= i < p.len() ==> p[i] != '<',
        starts_with(spec_escape_script(s), p),
    ensures
        starts_with(s, p),
    decreases p.len(),
{
    let e = spec_escape_script(s);
    if p.len() > 0 {
        assert(e.subrange(0, p.len() as int)[0] == e[0]);
        assert(e[0] == p[0]);
        assert(p[0] != '<');
        if s.len() == 0 {
            assert(false);
        } else if starts_with(s, script_end()) {
            assert(e[0] == (script_end_escaped() + spec_escape_script(s.skip(9)))[0]);
            assert(e[0] == '<');
            assert(false);
        } else {
            assert(e[0] == s[0]);
            let e1 = spec_escape_script(s.skip(1));
            assert(starts_with(e1, p.skip(1))) by {
                assert forall|i: int| 0 <= i < p.len() - 1 implies e1.subrange(
                    0,
                    p.len() - 1,
                )[i] == p.skip(1)[i] by {
                    assert(e1[i] == e[i + 1]);
                    assert(e.subrange(0, p.len() as int)[i + 1] == e[i + 1]);
                }
                assert(e1.subrange(0, p.len() - 1) =~= p.skip(1));
            }
            lemma_escape_prefix(s.skip(1), p.skip(1));
            assert forall|i: int| 0 <= i < p.len() implies s.subrange(0, p.len() as int)[i]
                == p[i] by {
                if i > 0 {
                    assert(s.skip(1).subrange(0, p.len() - 1)[i - 1] == s[i]);
                    assert(p.skip(1)[i - 1] == p[i]);
                }
            }
            assert(s.subrange(0, p.len() as int) =~= p);
        }
    } else {
        assert(s.subrange(0, 0) =~= p);
    }
}

/// The escaped payload holds no literal closing script tag.
pub proof fn lemma_escape_no_script(s: Seq<char>)
    ensures
        !contains_seq(spec_escape_script(s), script_end()),
    decreases s.len(),
{
    let e = spec_escape_script(s);
    let pat = script_end();
    if s.len() == 0 {
        assert forall|at: int| !occurs_at(e, pat, at) by {}
    } else if starts_with(s, script_end()) {
        lemma_escape_no_script(s.skip(9));
        let esc = script_end_escaped();
        let e1 = spec_escape_script(s.skip(9));
        assert(e == esc + e1);
        assert forall|at: int| !occurs_at(e, pat, at) by {
            if 0 <= at && at + 9 <= e.len() {
                if at >= 10 {
                    if occurs_at(e, pat, at) {
                        assert(occurs_at(e1, pat, at - 10)) by {
                            assert forall|i: int| 0 <= i < 9 implies e1.subrange(
                                at - 10,
                                at - 10 + 9,
                            )[i] == pat[i] by {
                                assert(e1[at - 10 + i] == e[at + i]);
                                assert(e.subrange(at, at + 9)[i] == e[at + i]);
                            }
                            assert(e1.subrange(at - 10, at - 10 + 9) =~= pat);
                        }
                        assert(false);
                    }
                } else {
                    if occurs_at(e, pat, at) {
                        assert(e.subrange(at, at + 9)[0] == e[at]);
                        assert(e[at] == pat[0]);
                        assert(pat[0] == '<');
                        if at == 0 {
                            assert(e.subrange(at, at + 9)[1] == e[1]);
                            assert(e[1] == esc[1]);
                            assert(false);
                        } else {
                            assert(e[at] == esc[at]);
                            assert(esc[at] != '<');
                            assert(false);
                        }
                    }
                }
            }
        }
    } else {
        lemma_escape_no_script(s.skip(1));
        let e1 = spec_escape_script(s.skip(1));
        assert(e == seq![s[0]] + e1);
        assert forall|at: int| !occurs_at(e, pat, at) by {
            if 0 <= at && at + 9 <= e.len() {
                if at >= 1 {
                    if occurs_at(e, pat, at) {
                        assert(occurs_at(e1, pat, at - 1)) by {
                            assert forall|i: int| 0 <= i < 9 implies e1.subrange(
                                at - 1,
                                at - 1 + 9,
                            )[i] == pat[i] by {
                                assert(e1[at - 1 + i] == e[at + i]);
                                assert(e.subrange(at, at + 9)[i] == e[at + i]);
                            }
                            assert(e1.subrange(at - 1, at - 1 + 9) =~= pat);
                        }
                        assert(false);
                    }
                } else {
                    if occurs_at(e, pat, 0) {
                        assert(e.subrange(0, 9)[0] == e[0]);
                        assert(e[0] == s[0]);
                        assert(e[0] == pat[0]);
                        // The escaped text continues with the tail of the
                        // tag, which holds no `<`, so the input held the
                        // whole tag at its start.
                        let tail = pat.skip(1);
                        assert(starts_with(e1, tail)) by {
                            assert forall|i: int| 0 <= i < 8 implies e1.subrange(0, 8)[i]
                                == tail[i] by {
                                assert(e1[i] == e[i + 1]);
                                assert(e.subrange(0, 9)[i + 1] == e[i + 1]);
                            }
                            assert(e1.subrange(0, 8) =~= tail);
                        }
                        assert(forall|i: int| 0 <= i < tail.len() ==> tail[i] != '<') by {
                            assert(tail[0] == '/' && tail[1] == 's' && tail[2] == 'c' && tail[3]
                                == 'r' && tail[4] == 'i' && tail[5] == 'p' && tail[6] == 't'
                                && tail[7] == '>');
                        }
                        lemma_escape_prefix(s.skip(1), tail);
                        assert(starts_with(s, pat)) by {
                            assert forall|i: int| 0 <= i < 9 implies s.subrange(0, 9)[i]
                                == pat[i] by {
                                if i > 0 {
                                    assert(s.skip(1).subrange(0, 8)[i - 1] == s[i]);
                                    assert(tail[i - 1] == pat[i]);
                                }
                            }
                            assert(s.subrange(0, 9) =~= pat);
                        }
                        assert(false);
                    }
                }
            }
        }
    }
}

/// The payload with every literal closing script tag escaped.
pub fn escape_script(s: &Vec<char>) -> (r: Vec<char>)
    ensures
        r@ == spec_escape_script(s@),
{
    let mut pat: Vec<char> = Vec::new();
    pat.push('<');
    pat.push('/');
    pat.push('s');
    pat.push('c');
    pat.push('r');
    pat.push('i');
    pat.push('p');
    pat.push('t');
    pat.push('>');
    assert(pat@ =~= script_end());
    let mut out: Vec<char> = Vec::new();
    let mut i: usize = 0;
    assert(s@.skip(0) =~= s@);
    while i < s.len()
        invariant
            0 <= i <= s@.len(),
            pat@ == script_end(),
            spec_escape_script(s@) == out@ + spec_escape_script(s@.skip(i as int)),
        decreases s@.len() - i,
    {
        if matches_at(s, i, &pat) {
            proof {
                assert(starts_with(s@.skip(i as int), script_end())) by {
                    assert forall|j: int| 0 <= j < 9 implies s@.skip(i as int).subrange(0, 9)[j]
                        == script_end()[j] by {
                        assert(s@.skip(i as int)[j] == s@[i + j]);
                        assert(s@.subrange(i as int, i + 9)[j] == s@[i + j]);
                    }
                    assert(s@.skip(i as int).subrange(0, 9) =~= script_end());
                }
                assert(s@.skip(i as int).skip(9) =~= s@.skip(i + 9));
            }
            out.push('<');
            out.push('\\');
            out.push('/');
            out.push('s');
            out.push('c');
            out.push('r');
            out.push('i');
            out.push('p');
            out.push('t');
            out.push('>');
            i = i + 9;
            assert(spec_escape_script(s@) =~= out@ + spec_escape_script(s@.skip(i as int)));
        } else {
            proof {
                assert(!starts_with(s@.skip(i as int), script_end())) by {
                    if starts_with(s@.skip(i as int), script_end()) {
                        assert forall|j: int| 0 <= j < 9 implies s@.subrange(i as int, i + 9)[j]
                            == script_end()[j] by {
                            assert(s@.skip(i as int).subrange(0, 9)[j] == s@[i + j]);
                            assert(s@.subrange(i as int, i + 9)[j] == s@[i + j]);
                        }
                        assert(s@.subrange(i as int, i + 9) =~= script_end());
                        assert(occurs_at(s@, script_end(), i as int));
                    }
                }
                assert(s@.skip(i as int)[0] == s@[i as int]);
                assert(s@.skip(i as int).skip(1) =~= s@.skip(i + 1));
            }
            out.push(s[i]);
            i = i + 1;
            assert(spec_escape_script(s@) =~= out@ + spec_escape_script(s@.skip(i as int)));
        }
    }
    assert(spec_escape_script(s@.skip(i as int)) =~= Seq::<char>::empty());
    assert(out@ =~= spec_escape_script(s@));
    out
}

/// The opening tag of the carrier template's tiddler store.
pub open spec fn store_marker() -> Seq<char> {
    "<script class=\"tiddlywiki-tiddler-store\" type=\"application/json\">"@
}

/// Whether `at` is the first occurrence of `p` in `s`.
pub open spec fn first_occur(s: Seq<char>, p: Seq<char>, at: int) -> bool {
    occurs_at(s, p, at) && forall|j: int| 0 <= j < at ==> !occurs_at(s, p, j)
}

/// Whether `at` is the last closing bracket of `s`.
pub open spec fn last_bracket(s: Seq<char>, at: int) -> bool {
    0 <= at < s.len() && s[at] == ']' && forall|j: int| at < j < s.len() ==> s[j] != ']'
}

/// Whether splitting the carrier at `split` is right: the store marker is
/// found, a closing script tag follows it, and `split` is the last closing
/// bracket before that tag.
pub open spec fn template_split_at(html: Seq<char>, split: int) -> bool {
    exists|a: int, e: int|
        #![auto]
        first_occur(html, store_marker(), a) && a <= e && first_occur(
            html.skip(a),
            script_end(),
            e - a,
        ) && last_bracket(html.take(e), split)
}

/// Whether the carrier template is well formed: it splits somewhere.
pub open spec fn template_valid(html: Seq<char>) -> bool {
    exists|split: int| template_split_at(html, split)
}

/// The carrier page split at the insertion point: `prefix` runs up to and
/// excluding the store array's closing bracket, `suffix` from that bracket
/// on.
pub struct WikiTemplate {
    pub prefix: String,
    pub suffix: String,
}

impl WikiTemplate {
    /// Parses the carrier template, or nothing when the store marker, its
    /// closing script tag, or the array's closing bracket is missing.
    pub fn try_new(html_content: &str) -> (r: Option<WikiTemplate>)
        ensures
            r is Some <==> template_valid(html_content@),
            r matches Some(t) ==> exists|split: int|
                #![auto]
                template_split_at(html_content@, split) && t.prefix@ == html_content@.take(split)
                    && t.suffix@ == html_content@.skip(split) && t.prefix@ + t.suffix@
                    == html_content@,
    {
        let html = chars_of(html_content);
        let marker = chars_of("<script class=\"tiddlywiki-tiddler-store\" type=\"application/json\">");
        assert(marker@ == store_marker());
        let a = match find_first(&html, &marker) {
            Some(a) => a,
            None => {
                proof {
                    assert forall|split: int| !template_split_at(html@, split) by {
                        if template_split_at(html@, split) {
                            let (a, e) = choose|a: int, e: int|
                                #![auto]
                                first_occur(html@, store_marker(), a) && a <= e && first_occur(
                                    html@.skip(a),
                                    script_end(),
                                    e - a,
                                ) && last_bracket(html@.take(e), split);
                            assert(occurs_at(html@, store_marker(), a));
                        }
                    }
                }
                return None;
            },
        };
        let tail = slice_from(&html, a);
        let mut close: Vec<char> = Vec::new();
        close.push('<');
        close.push('/');
        close.push('s');
        close.push('c');
        close.push('r');
        close.push('i');
        close.push('p');
        close.push('t');
        close.push('>');
        assert(close@ =~= script_end());
        let erel = match find_first(&tail, &close) {
            Some(erel) => erel,
            None => {
                proof {
                    assert forall|split: int| !template_split_at(html@, split) by {
                        if template_split_at(html@, split) {
                            let (a2, e2) = choose|a2: int, e2: int|
                                #![auto]
                                first_occur(html@, store_marker(), a2) && a2 <= e2 && first_occur(
                                    html@.skip(a2),
                                    script_end(),
                                    e2 - a2,
                                ) && last_bracket(html@.take(e2), split);
                            assert(a2 == a) by {
                                if a2 < a {
                                    assert(!occurs_at(html@, store_marker(), a2));
                                }
                                if a < a2 {
                                    assert(!occurs_at(html@, store_marker(), a as int));
                                }
                            }
                            assert(occurs_at(html@.skip(a as int), script_end(), e2 - a));
                        }
                    }
                }
                return None;
            },
        };
        proof {
            assert(occurs_at(tail@, script_end(), erel as int));
            assert(erel + 9 <= tail@.len());
            assert(a + tail@.len() == html@.len());
            assert(html@.len() == html.len());
        }
        let e = a + erel;
        assert(e <= html@.len()) by {
            assert(occurs_at(tail@, script_end(), erel as int));
        }
        let head = slice_to(&html, e);
        let split = match rfind_bracket(&head) {
            Some(split) => split,
            None => {
                proof {
                    assert forall|sp: int| !template_split_at(html@, sp) by {
                        if template_split_at(html@, sp) {
                            let (a2, e2) = choose|a2: int, e2: int|
                                #![auto]
                                first_occur(html@, store_marker(), a2) && a2 <= e2 && first_occur(
                                    html@.skip(a2),
                                    script_end(),
                                    e2 - a2,
                                ) && last_bracket(html@.take(e2), sp);
                            assert(a2 == a) by {
                                if a2 < a {
                                    assert(!occurs_at(html@, store_marker(), a2));
                                }
                                if a < a2 {
                                    assert(!occurs_at(html@, store_marker(), a as int));
                                }
                            }
                            assert(e2 == e) by {
                                if e2 - a < erel {
                                    assert(!occurs_at(html@.skip(a as int), script_end(), e2 - a));
                                }
                                if erel < e2 - a {
                                    assert(!occurs_at(html@.skip(a as int), script_end(), erel as int));
                                }
                            }
                            assert(html@.take(e as int)[sp] == ']');
                            assert(head@[sp] == ']');
                        }
                    }
                }
                return None;
            },
        };
        let prefix_chars = slice_to(&html, split);
        let suffix_chars = slice_from(&html, split);
        let t = WikiTemplate { prefix: string_of(&prefix_chars), suffix: string_of(&suffix_chars) };
        proof {
            assert(template_split_at(html@, split as int)) by {
                assert(first_occur(html@, store_marker(), a as int));
                assert(first_occur(html@.skip(a as int), script_end(), erel as int));
                assert(last_bracket(html@.take(e as int), split as int)) by {
                    assert(head@ == html@.take(e as int));
                }
            }
            assert(t.prefix@ + t.suffix@ =~= html@);
        }
        Some(t)
    }

    /// Parses the carrier template. The template is a static asset whose
    /// well-formedness is checked at startup; a caller holds the evidence.
    pub fn new(html_content: &str) -> (r: WikiTemplate)
        requires
            template_valid(html_content@),
        ensures
            exists|split: int|
                #![auto]
                template_split_at(html_content@, split) && r.prefix@ == html_content@.take(split)
                    && r.suffix@ == html_content@.skip(split),
            r.prefix@ + r.suffix@ == html_content@,
    {
        match Self::try_new(html_content) {
            Some(t) => t,
            None => {
                proof {
                    assert(false);
                }
                vstd::pervasive::unreached()
            },
        }
    }
}

/// The position of the last closing bracket, if any.
fn rfind_bracket(s: &Vec<char>) -> (r: Option<usize>)
    ensures
        match r {
            Some(at) => last_bracket(s@, at as int),
            None => forall|j: int| 0 <= j < s@.len() ==> s@[j] != ']',
        },
{
    let mut i: usize = s.len();
    while i > 0
        invariant
            0 <= i <= s@.len(),
            forall|j: int| i <= j < s@.len() ==> s@[j] != ']',
        decreases i,
    {
        i = i - 1;
        if s[i] == ']' {
            return Some(i);
        }
    }
    None
}

/// The documents' JSON texts joined with commas: the body of a JSON array
/// without its brackets.
pub open spec fn spec_inner_json(vs: Seq<Jv>) -> Seq<char> {
    join_char(json_parts_arr(vs), ',')
}

/// The full HTML snapshot: the carrier's prefix, a comma (the template's
/// own store array holds at least one entry), the escaped document array
/// body, and the carrier's suffix. No literal closing script tag stands in
/// the spliced block.
pub fn render_wiki_html(t: &WikiTemplate, docs: &Vec<JsonValue>) -> (r: String)
    ensures
        r@ == t.prefix@ + seq![','] + spec_escape_script(spec_inner_json(view_arr(docs@)))
            + t.suffix@,
        !contains_seq(spec_escape_script(spec_inner_json(view_arr(docs@))), script_end()),
{
    proof {
        lemma_escape_no_script(spec_inner_json(view_arr(docs@)));
    }
    let mut inner: Vec<char> = Vec::new();
    write_arr(docs, &mut inner);
    let escaped = escape_script(&inner);
    let mut out: Vec<char> = chars_of(t.prefix.as_str());
    out.push(',');
    let mut i: usize = 0;
    let ghost mid = out@;
    while i < escaped.len()
        invariant
            0 <= i <= escaped@.len(),
            out@ == mid + escaped@.take(i as int),
        decreases escaped@.len() - i,
    {
        out.push(escaped[i]);
        i = i + 1;
        assert(out@ =~= mid + escaped@.take(i as int));
    }
    assert(escaped@.take(i as int) =~= escaped@);
    let suffix = chars_of(t.suffix.as_str());
    let ghost mid2 = out@;
    let mut j: usize = 0;
    while j < suffix.len()
        invariant
            0 <= j <= suffix@.len(),
            out@ == mid2 + suffix@.take(j as int),
        decreases suffix@.len() - j,
    {
        out.push(suffix[j]);
        j = j + 1;
        assert(out@ =~= mid2 + suffix@.take(j as int));
    }
    assert(suffix@.take(j as int) =~= suffix@);
    assert(out@ =~= t.prefix@ + seq![','] + spec_escape_script(spec_inner_json(view_arr(docs@)))
        + t.suffix@);
    string_of(&out)
}

/// Two spaces of indentation for each nesting level.
pub open spec fn indent(d: nat) -> Seq<char>
    decreases d,
{
    if d == 0 {
        Seq::empty()
    } else {
        indent((d - 1) as nat) + seq![' ', ' ']
    }
}

/// A line break followed by the indentation of level `d`.
pub open spec fn nl_indent(d: nat) -> Seq<char> {
    seq!['\n'] + indent(d)
}

/// The pretty JSON text of a value at nesting level `d`: arrays and objects
/// spread over lines, two spaces per level; empty ones stay on one line.
pub open spec fn spec_json_pretty(v: Jv, d: nat) -> Seq<char>
    decreases v,
{
    match v {
        Jv::Null => seq!['n', 'u', 'l', 'l'],
        Jv::Bool(b) => if b {
            seq!['t', 'r', 'u', 'e']
        } else {
            seq!['f', 'a', 'l', 's', 'e']
        },
        Jv::Num(s) => s,
        Jv::Str(s) => json_str_lit(s),
        Jv::Arr(vs) => if vs.len() == 0 {
            seq!['[', ']']
        } else {
            seq!['['] + nl_indent(d + 1) + join_seq(
                pretty_parts_arr(vs, d + 1),
                seq![','] + nl_indent(d + 1),
            ) + nl_indent(d) + seq![']']
        },
        Jv::Obj(m) => if m.len() == 0 {
            seq!['{', '}']
        } else {
            seq!['{'] + nl_indent(d + 1) + join_seq(
                pretty_parts_obj(m, d + 1),
                seq![','] + nl_indent(d + 1),
            ) + nl_indent(d) + seq!['}']
        },
    }
}

/// The pretty texts of an array's elements at level `d`.
pub open spec fn pretty_parts_arr(vs: Seq<Jv>, d: nat) -> Seq<Seq<char>>
    decreases vs, vs.len(),
{
    if vs.len() == 0 {
        Seq::empty()
    } else {
        seq![spec_json_pretty(vs[0], d)] + pretty_parts_arr(vs.drop_first(), d)
    }
}

/// The pretty `"key": value` texts of an object's fields at level `d`.
pub open spec fn pretty_parts_obj(m: Seq<(Seq<char>, Jv)>, d: nat) -> Seq<Seq<char>>
    decreases m, m.len(),
{
    if m.len() == 0 {
        Seq::empty()
    } else {
        seq![json_str_lit(m[0].0) + seq![':', ' '] + spec_json_pretty(m[0].1, d)]
            + pretty_parts_obj(m.drop_first(), d)
    }
}

/// Appends the pretty JSON text of a value. `ind` holds the indentation of
/// the current nesting level.
fn write_json_pretty(v: &JsonValue, ind: &Vec<char>, Ghost(d): Ghost<nat>, out: &mut Vec<char>)
    requires
        ind@ == indent(d),
    ensures
        final(out)@ == old(out)@ + spec_json_pretty(v@, d),
    decreases *v,
{
    let ghost out0 = out@;
    match v {
        JsonValue::Null => {
            out.push('n');
            out.push('u');
            out.push('l');
            out.push('l');
            assert(out@ =~= out0 + spec_json_pretty(v@, d));
        },
        JsonValue::Bool(b) => {
            if *b {
                out.push('t');
                out.push('r');
                out.push('u');
                out.push('e');
            } else {
                out.push('f');
                out.push('a');
                out.push('l');
                out.push('s');
                out.push('e');
            }
            assert(out@ =~= out0 + spec_json_pretty(v@, d));
        },
        JsonValue::Num(s) => {
            let cs = chars_of(s.as_str());
            crate::protocol::push_all(out, &cs);
            assert(out@ =~= out0 + spec_json_pretty(v@, d));
        },
        JsonValue::Str(s) => {
            out.push('"');
            push_escaped(s, out);
            out.push('"');
            assert(out@ =~= out0 + json_str_lit(s@));
        },
        JsonValue::Arr(vs) => {
            if vs.len() == 0 {
                out.push('[');
                out.push(']');
                assert(view_arr(vs@).len() == 0) by {
                    lemma_view_arr(vs@);
                }
                assert(out@ =~= out0 + spec_json_pretty(v@, d));
                return ;
            }
            let mut child: Vec<char> = chars_of_copy(ind);
            child.push(' ');
            child.push(' ');
            assert(child@ =~= indent(d + 1));
            out.push('[');
            push_newline_indent(&child, out);
            write_arr_pretty(vs, &child, Ghost(d + 1), out);
            push_newline_indent(ind, out);
            out.push(']');
            proof {
                lemma_view_arr(vs@);
                assert(view_arr(vs@).len() > 0);
                assert(out@ =~= out0 + spec_json_pretty(v@, d));
            }
        },
        JsonValue::Obj(m) => {
            if m.len() == 0 {
                out.push('{');
                out.push('}');
                assert(view_obj(m@).len() == 0) by {
                    lemma_view_obj(m@);
                }
                assert(out@ =~= out0 + spec_json_pretty(v@, d));
                return ;
            }
            let mut child: Vec<char> = chars_of_copy(ind);
            child.push(' ');
            child.push(' ');
            assert(child@ =~= indent(d + 1));
            out.push('{');
            push_newline_indent(&child, out);
            write_obj_pretty(m, &child, Ghost(d + 1), out);
            push_newline_indent(ind, out);
            out.push('}');
            proof {
                lemma_view_obj(m@);
                assert(view_obj(m@).len() > 0);
                assert(out@ =~= out0 + spec_json_pretty(v@, d));
            }
        },
    }
}

/// A copy of an indentation buffer.
fn chars_of_copy(v: &Vec<char>) -> (r: Vec<char>)
    ensures
        r@ == v@,
{
    let mut out: Vec<char> = Vec::new();
    let mut i: usize = 0;
    while i < v.len()
        invariant
            0 <= i <= v@.len(),
            out@ == v@.take(i as int),
        decreases v@.len() - i,
    {
        out.push(v[i]);
        i = i + 1;
        assert(out@ =~= v@.take(i as int));
    }
    assert(out@ =~= v@);
    out
}

/// Appends a line break and the given indentation.
fn push_newline_indent(ind: &Vec<char>, out: &mut Vec<char>)
    ensures
        final(out)@ == old(out)@ + seq!['\n'] + ind@,
{
    let ghost out0 = out@;
    out.push('\n');
    let mut i: usize = 0;
    while i < ind.len()
        invariant
            0 <= i <= ind@.len(),
            out@ == out0 + seq!['\n'] + ind@.take(i as int),
        decreases ind@.len() - i,
    {
        out.push(ind[i]);
        i = i + 1;
        assert(out@ =~= out0 + seq!['\n'] + ind@.take(i as int));
    }
    assert(ind@.take(i as int) =~= ind@);
}

/// Appends an array's pretty elements at level `d`, separated by a comma, a
/// line break and the indentation of level `d`.
fn write_arr_pretty(vs: &Vec<JsonValue>, ind: &Vec<char>, Ghost(d): Ghost<nat>, out: &mut Vec<char>)
    requires
        ind@ == indent(d),
    ensures
        final(out)@ == old(out)@ + join_seq(
            pretty_parts_arr(view_arr(vs@), d),
            seq![','] + nl_indent(d),
        ),
    decreases *vs,
{
    proof {
        lemma_view_arr(vs@);
    }
    let ghost sep = seq![','] + nl_indent(d);
    let ghost out0 = out@;
    let ghost va = view_arr(vs@);
    let ghost mut done: Seq<Seq<char>> = Seq::empty();
    let mut first = true;
    let mut i: usize = 0;
    assert(va.skip(0) =~= va);
    while i < vs.len()
        invariant
            0 <= i <= vs@.len(),
            ind@ == indent(d),
            sep == seq![','] + nl_indent(d),
            va == view_arr(vs@),
            va.len() == vs@.len(),
            pretty_parts_arr(va, d) == done + pretty_parts_arr(va.skip(i as int), d),
            out@ == out0 + join_seq(done, sep),
            first == (done.len() == 0),
        decreases vs@.len() - i,
    {
        proof {
            lemma_view_arr(vs@);
            assert(va.skip(i as int)[0] == va[i as int]);
            assert(va[i as int] == vs@[i as int]@);
            assert(va.skip(i as int).drop_first() =~= va.skip(i + 1));
            assert(pretty_parts_arr(va.skip(i as int), d) == seq![spec_json_pretty(va[i as int], d)]
                + pretty_parts_arr(va.skip(i + 1), d));
            assert(decreases_to!(*vs => vs@));
            assert(decreases_to!(vs@ => vs@[i as int]));
            lemma_join_seq_push(done, sep, spec_json_pretty(va[i as int], d));
            assert(done + pretty_parts_arr(va.skip(i as int), d) =~= done.push(
                spec_json_pretty(va[i as int], d),
            ) + pretty_parts_arr(va.skip(i + 1), d));
        }
        if !first {
            out.push(',');
            push_newline_indent(ind, out);
        }
        write_json_pretty(&vs[i], ind, Ghost(d), out);
        proof {
            done = done.push(spec_json_pretty(va[i as int], d));
            assert(out@ =~= out0 + join_seq(done, sep));
        }
        first = false;
        i = i + 1;
    }
    assert(va.skip(i as int).len() == 0);
    assert(pretty_parts_arr(va, d) =~= done);
}

/// Appends an object's pretty fields at level `d`, separated by a comma, a
/// line break and the indentation of level `d`.
fn write_obj_pretty(
    m: &Vec<crate::jsonval::JsonEntry>,
    ind: &Vec<char>,
    Ghost(d): Ghost<nat>,
    out: &mut Vec<char>,
)
    requires
        ind@ == indent(d),
    ensures
        final(out)@ == old(out)@ + join_seq(
            pretty_parts_obj(view_obj(m@), d),
            seq![','] + nl_indent(d),
        ),
    decreases *m,
{
    proof {
        lemma_view_obj(m@);
    }
    let ghost sep = seq![','] + nl_indent(d);
    let ghost out0 = out@;
    let ghost mo = view_obj(m@);
    let ghost mut done: Seq<Seq<char>> = Seq::empty();
    let mut first = true;
    let mut i: usize = 0;
    assert(mo.skip(0) =~= mo);
    while i < m.len()
        invariant
            0 <= i <= m@.len(),
            ind@ == indent(d),
            sep == seq![','] + nl_indent(d),
            mo == view_obj(m@),
            mo.len() == m@.len(),
            pretty_parts_obj(mo, d) == done + pretty_parts_obj(mo.skip(i as int), d),
            out@ == out0 + join_seq(done, sep),
            first == (done.len() == 0),
        decreases m@.len() - i,
    {
        let ghost part = json_str_lit(mo[i as int].0) + seq![':', ' '] + spec_json_pretty(
            mo[i as int].1,
            d,
        );
        proof {
            lemma_view_obj(m@);
            assert(mo.skip(i as int)[0] == mo[i as int]);
            assert(mo[i as int] == (m@[i as int].key@, m@[i as int].val@));
            assert(mo.skip(i as int).drop_first() =~= mo.skip(i + 1));
            assert(pretty_parts_obj(mo.skip(i as int), d) == seq![part] + pretty_parts_obj(
                mo.skip(i + 1),
                d,
            ));
            assert(decreases_to!(*m => m@));
            assert(decreases_to!(m@ => m@[i as int]));
            assert(decreases_to!(m@[i as int] => m@[i as int].val));
            lemma_join_seq_push(done, sep, part);
            assert(done + pretty_parts_obj(mo.skip(i as int), d) =~= done.push(part)
                + pretty_parts_obj(mo.skip(i + 1), d));
        }
        if !first {
            out.push(',');
            push_newline_indent(ind, out);
        }
        out.push('"');
        push_escaped(&m[i].key, out);
        out.push('"');
        out.push(':');
        out.push(' ');
        write_json_pretty(&m[i].val, ind, Ghost(d), out);
        proof {
            done = done.push(part);
            assert(out@ =~= out0 + join_seq(done, sep));
        }
        first = false;
        i = i + 1;
    }
    assert(mo.skip(i as int).len() == 0);
    assert(pretty_parts_obj(mo, d) =~= done);
}

/// The pretty JSON text of a value.
pub fn to_json_pretty(v: &JsonValue) -> (r: String)
    ensures
        r@ == spec_json_pretty(v@, 0),
{
    let ind: Vec<char> = Vec::new();
    assert(ind@ =~= indent(0));
    let mut out: Vec<char> = Vec::new();
    write_json_pretty(v, &ind, Ghost(0nat), &mut out);
    string_of(&out)
}

} // verus!
