//! The document value model: a JSON-like tagged value with an ordered
//! key/value object shape, together with its mathematical view and the
//! object operations the codec is built on.
//!
//! Numbers are carried as their literal text, so that arbitrary numeric
//! fields pass through the store unchanged; the only number the engine ever
//! interprets is the revision, which is parsed separately.

use vstd::prelude::*;

use crate::strutil::str_eq;

verus! {

broadcast use vstd::std_specs::vec::group_vec_axioms, vstd::seq::group_seq_axioms,
    vstd::seq_lib::group_seq_lib_default;

/// One field of a JSON object: a key and its value, in insertion order.
#[derive(Debug)]
pub struct JsonEntry {
    pub key: String,
    pub val: JsonValue,
}

/// A structured document value.
#[derive(Debug)]
pub enum JsonValue {
    Null,
    Bool(bool),
    /// A JSON number, kept as its literal text.
    Num(String),
    Str(String),
    Arr(Vec<JsonValue>),
    Obj(Vec<JsonEntry>),
}

/// The mathematical shape of a `JsonValue`.
pub enum Jv {
    Null,
    Bool(bool),
    Num(Seq<char>),
    Str(Seq<char>),
    Arr(Seq<Jv>),
    Obj(Seq<(Seq<char>, Jv)>),
}

pub closed spec fn view_arr(vs: Seq<JsonValue>) -> Seq<Jv>
    decreases vs, vs.len(),
{
    if vs.len() == 0 {
        Seq::empty()
    } else {
        seq![vs[0]@] + view_arr(vs.drop_first())
    }
}

pub closed spec fn view_obj(m: Seq<JsonEntry>) -> Seq<(Seq<char>, Jv)>
    decreases m, m.len(),
{
    if m.len() == 0 {
        Seq::empty()
    } else {
        seq![(m[0].key@, m[0].val@)] + view_obj(m.drop_first())
    }
}

pub broadcast proof fn lemma_view_arr(vs: Seq<JsonValue>)
    ensures
        (#[trigger] view_arr(vs)).len() == vs.len(),
        forall|i: int| 0 <= i < vs.len() ==> view_arr(vs)[i] == vs[i]@,
    decreases vs.len(),
{
    if vs.len() > 0 {
        lemma_view_arr(vs.drop_first());
        assert(view_arr(vs) == seq![vs[0]@] + view_arr(vs.drop_first()));
        assert forall|i: int| 0 <= i < vs.len() implies view_arr(vs)[i] == vs[i]@ by {
            if i > 0 {
                assert(view_arr(vs)[i] == view_arr(vs.drop_first())[i - 1]);
                assert(vs.drop_first()[i - 1] == vs[i]);
            }
        }
    } else {
        assert(view_arr(vs) == Seq::<Jv>::empty());
    }
}

pub broadcast proof fn lemma_view_obj(m: Seq<JsonEntry>)
    ensures
        (#[trigger] view_obj(m)).len() == m.len(),
        forall|i: int| 0 <= i < m.len() ==> view_obj(m)[i] == (m[i].key@, m[i].val@),
    decreases m.len(),
{
    if m.len() > 0 {
        lemma_view_obj(m.drop_first());
        assert(view_obj(m) == seq![(m[0].key@, m[0].val@)] + view_obj(m.drop_first()));
        assert forall|i: int| 0 <= i < m.len() implies view_obj(m)[i] == (m[i].key@, m[i].val@)
        by {
            if i > 0 {
                assert(view_obj(m)[i] == view_obj(m.drop_first())[i - 1]);
                assert(m.drop_first()[i - 1] == m[i]);
            }
        }
    } else {
        assert(view_obj(m) == Seq::<(Seq<char>, Jv)>::empty());
    }
}

impl View for JsonValue {
    type V = Jv;

    open spec fn view(&self) -> Jv
        decreases self,
    {
        match self {
            JsonValue::Null => Jv::Null,
            JsonValue::Bool(b) => Jv::Bool(*b),
            JsonValue::Num(s) => Jv::Num(s@),
            JsonValue::Str(s) => Jv::Str(s@),
            JsonValue::Arr(vs) => Jv::Arr(view_arr(vs@)),
            JsonValue::Obj(m) => Jv::Obj(view_obj(m@)),
        }
    }
}

/// How each `JsonValue` constructor is seen through the view.
pub broadcast proof fn lemma_jsonvalue_view(v: &JsonValue)
    ensures
        #![trigger v.view()]
        v matches JsonValue::Null ==> v@ == Jv::Null,
        v matches JsonValue::Bool(b) ==> v@ == Jv::Bool(*b),
        v matches JsonValue::Num(s) ==> v@ == Jv::Num(s@),
        v matches JsonValue::Str(s) ==> v@ == Jv::Str(s@),
        v matches JsonValue::Arr(vs) ==> v@ == Jv::Arr(view_arr(vs@)),
        v matches JsonValue::Obj(m) ==> v@ == Jv::Obj(view_obj(m@)),
{
}

/// The index of the first field named `k`, or -1 when there is none.
pub open spec fn key_find(m: Seq<(Seq<char>, Jv)>, k: Seq<char>) -> int
    decreases m.len(),
{
    if m.len() == 0 {
        -1
    } else if m[0].0 == k {
        0
    } else {
        let r = key_find(m.drop_first(), k);
        if r < 0 {
            -1
        } else {
            r + 1
        }
    }
}

/// Whether the object has a field named `k`.
pub open spec fn obj_has(m: Seq<(Seq<char>, Jv)>, k: Seq<char>) -> bool {
    key_find(m, k) >= 0
}

/// The value of the first field named `k`, if any.
pub open spec fn obj_get(m: Seq<(Seq<char>, Jv)>, k: Seq<char>) -> Option<Jv> {
    if key_find(m, k) >= 0 {
        Some(m[key_find(m, k)].1)
    } else {
        None
    }
}

/// The object after setting field `k` to `v`: replaced in place when the key
/// exists, appended at the end otherwise.
pub open spec fn obj_set(m: Seq<(Seq<char>, Jv)>, k: Seq<char>, v: Jv) -> Seq<(Seq<char>, Jv)> {
    if key_find(m, k) >= 0 {
        m.update(key_find(m, k), (k, v))
    } else {
        m.push((k, v))
    }
}

/// The object after removing the first field named `k`, if any.
pub open spec fn obj_remove(m: Seq<(Seq<char>, Jv)>, k: Seq<char>) -> Seq<(Seq<char>, Jv)> {
    if key_find(m, k) >= 0 {
        m.remove(key_find(m, k))
    } else {
        m
    }
}

/// The object after adding field `k` with value `v` only when absent.
pub open spec fn obj_set_if_absent(m: Seq<(Seq<char>, Jv)>, k: Seq<char>, v: Jv) -> Seq<
    (Seq<char>, Jv),
> {
    if obj_has(m, k) {
        m
    } else {
        m.push((k, v))
    }
}

/// What `key_find` means, position by position.
pub broadcast proof fn lemma_key_find(m: Seq<(Seq<char>, Jv)>, k: Seq<char>)
    ensures
        -1 <= #[trigger] key_find(m, k) < m.len(),
        key_find(m, k) >= 0 ==> m[key_find(m, k)].0 == k,
        forall|j: int| 0 <= j < m.len() && m[j].0 == k ==> key_find(m, k) >= 0,
        forall|j: int| 0 <= j < key_find(m, k) ==> m[j].0 != k,
        key_find(m, k) == -1 ==> forall|j: int| 0 <= j < m.len() ==> m[j].0 != k,
    decreases m.len(),
{
    if m.len() > 0 && m[0].0 != k {
        lemma_key_find(m.drop_first(), k);
        assert forall|j: int| 0 <= j < m.len() && m[j].0 == k implies key_find(m, k) >= 0 by {
            if j > 0 {
                assert(m.drop_first()[j - 1] == m[j]);
            }
        }
        if key_find(m, k) >= 0 {
            assert(m.drop_first()[key_find(m, k) - 1] == m[key_find(m, k)]);
            assert forall|j: int| 0 <= j < key_find(m, k) implies m[j] .0 != k by {
                if j > 0 {
                    assert(m.drop_first()[j - 1] == m[j]);
                }
            }
        } else {
            assert forall|j: int| 0 <= j < m.len() implies m[j] .0 != k by {
                if j > 0 {
                    assert(m.drop_first()[j - 1] == m[j]);
                }
            }
        }
    }
}


/// A structurally identical copy of an array's elements.
fn copy_arr(vs: &Vec<JsonValue>) -> (r: Vec<JsonValue>)
    ensures
        view_arr(r@) == view_arr(vs@),
    decreases *vs,
{
    broadcast use lemma_view_arr;

    let mut out: Vec<JsonValue> = Vec::new();
    let mut i: usize = 0;
    while i < vs.len()
        invariant
            0 <= i <= vs@.len(),
            out@.len() == i,
            forall|j: int| 0 <= j < i ==> out@[j]@ == vs@[j]@,
        decreases vs@.len() - i,
    {
        proof {
            assert(decreases_to!(*vs => vs@));
            assert(decreases_to!(vs@ => vs@[i as int]));
        }
        let c = vs[i].deep_copy();
        out.push(c);
        i = i + 1;
    }
    assert(view_arr(out@) =~= view_arr(vs@));
    out
}

/// A structurally identical copy of an object's entries.
fn copy_obj(m: &Vec<JsonEntry>) -> (r: Vec<JsonEntry>)
    ensures
        view_obj(r@) == view_obj(m@),
    decreases *m,
{
    broadcast use lemma_view_obj;

    let mut out: Vec<JsonEntry> = Vec::new();
    let mut i: usize = 0;
    while i < m.len()
        invariant
            0 <= i <= m@.len(),
            out@.len() == i,
            forall|j: int| 0 <= j < i ==> out@[j].key@ == m@[j].key@ && out@[j].val@ == m@[j].val@,
        decreases m@.len() - i,
    {
        proof {
            assert(decreases_to!(*m => m@));
            assert(decreases_to!(m@ => m@[i as int]));
            assert(decreases_to!(m@[i as int] => m@[i as int].val));
        }
        let c = m[i].val.deep_copy();
        let k = m[i].key.clone();
        out.push(JsonEntry { key: k, val: c });
        i = i + 1;
    }
    assert(view_obj(out@) =~= view_obj(m@));
    out
}

impl JsonValue {
    /// Whether this value is an object.
    pub fn is_obj(&self) -> (r: bool)
        ensures
            r == (self@ is Obj),
    {
        match self {
            JsonValue::Obj(_) => true,
            _ => false,
        }
    }

    /// The carried string when this value is a string.
    pub fn as_str(&self) -> (r: Option<&String>)
        ensures
            match r {
                Some(s) => self@ == Jv::Str(s@),
                None => !(self@ is Str),
            },
    {
        match self {
            JsonValue::Str(s) => Some(s),
            _ => None,
        }
    }

    /// A structurally identical copy of the value.
    pub fn deep_copy(&self) -> (r: JsonValue)
        ensures
            r@ == self@,
        decreases *self,
    {
        match self {
            JsonValue::Null => JsonValue::Null,
            JsonValue::Bool(b) => JsonValue::Bool(*b),
            JsonValue::Num(s) => JsonValue::Num(s.clone()),
            JsonValue::Str(s) => JsonValue::Str(s.clone()),
            JsonValue::Arr(vs) => JsonValue::Arr(copy_arr(vs)),
            JsonValue::Obj(m) => JsonValue::Obj(copy_obj(m)),
        }
    }
}

/// A reference to the value of the first field named `k`, if any.
pub fn entries_get<'a>(m: &'a Vec<JsonEntry>, k: &str) -> (r: Option<&'a JsonValue>)
    ensures
        match r {
            Some(v) => obj_get(view_obj(m@), k@) == Some(v@),
            None => obj_get(view_obj(m@), k@) is None,
        },
{
    proof {
        lemma_view_obj(m@);
        lemma_key_find(view_obj(m@), k@);
    }
    let mut j: usize = 0;
    while j < m.len()
        invariant
            0 <= j <= m@.len(),
            view_obj(m@).len() == m@.len(),
            forall|i: int| 0 <= i < m@.len() ==> view_obj(m@)[i] == (m@[i].key@, m@[i].val@),
            -1 <= key_find(view_obj(m@), k@) < m@.len(),
            key_find(view_obj(m@), k@) >= 0 ==> view_obj(m@)[key_find(view_obj(m@), k@)].0 == k@,
            forall|i: int|
                0 <= i < m@.len() && view_obj(m@)[i].0 == k@ ==> key_find(view_obj(m@), k@) >= 0,
            forall|i: int| 0 <= i < key_find(view_obj(m@), k@) ==> view_obj(m@)[i].0 != k@,
            forall|i: int| 0 <= i < j ==> view_obj(m@)[i].0 != k@,
        decreases m@.len() - j,
    {
        if str_eq(m[j].key.as_str(), k) {
            assert(view_obj(m@)[j as int].0 == k@);
            assert(key_find(view_obj(m@), k@) == j);
            return Some(&m[j].val);
        }
        j = j + 1;
    }
    None
}

/// Sets field `k` to `v` in the entry list: replaces the first field so
/// named, or appends a new one.
pub fn entries_set(m: &mut Vec<JsonEntry>, k: String, v: JsonValue)
    ensures
        view_obj(final(m)@) == obj_set(view_obj(old(m)@), k@, v@),
{
    proof {
        lemma_view_obj(old(m)@);
        lemma_key_find(view_obj(old(m)@), k@);
    }
    let ghost m0 = old(m)@;
    let mut j: usize = 0;
    while j < m.len()
        invariant
            m0 == old(m)@,
            m@ == m0,
            0 <= j <= m0.len(),
            view_obj(m0).len() == m0.len(),
            forall|i: int| 0 <= i < m0.len() ==> view_obj(m0)[i] == (m0[i].key@, m0[i].val@),
            -1 <= key_find(view_obj(m0), k@) < m0.len(),
            key_find(view_obj(m0), k@) >= 0 ==> view_obj(m0)[key_find(view_obj(m0), k@)].0 == k@,
            forall|i: int|
                0 <= i < m0.len() && view_obj(m0)[i].0 == k@ ==> key_find(view_obj(m0), k@) >= 0,
            forall|i: int| 0 <= i < key_find(view_obj(m0), k@) ==> view_obj(m0)[i].0 != k@,
            forall|i: int| 0 <= i < j ==> view_obj(m0)[i].0 != k@,
        decreases m0.len() - j,
    {
        if str_eq(m[j].key.as_str(), k.as_str()) {
            assert(view_obj(m0)[j as int].0 == k@);
            assert(key_find(view_obj(m0), k@) == j);
            m[j] = JsonEntry { key: k, val: v };
            proof {
                lemma_view_obj(m@);
                assert(view_obj(m@) =~= obj_set(view_obj(m0), k@, v@));
            }
            return ;
        }
        j = j + 1;
    }
    assert(key_find(view_obj(m0), k@) == -1);
    m.push(JsonEntry { key: k, val: v });
    proof {
        lemma_view_obj(m@);
        assert(view_obj(m@) =~= obj_set(view_obj(m0), k@, v@));
    }
}

/// Removes the first field named `k` from the entry list, handing its value
/// back.
pub fn entries_remove(m: &mut Vec<JsonEntry>, k: &str) -> (r: Option<JsonValue>)
    ensures
        view_obj(final(m)@) == obj_remove(view_obj(old(m)@), k@),
        match r {
            Some(v) => obj_get(view_obj(old(m)@), k@) == Some(v@),
            None => obj_get(view_obj(old(m)@), k@) is None,
        },
{
    proof {
        lemma_view_obj(old(m)@);
        lemma_key_find(view_obj(old(m)@), k@);
    }
    let ghost m0 = old(m)@;
    let mut j: usize = 0;
    while j < m.len()
        invariant
            m0 == old(m)@,
            m@ == m0,
            0 <= j <= m0.len(),
            view_obj(m0).len() == m0.len(),
            forall|i: int| 0 <= i < m0.len() ==> view_obj(m0)[i] == (m0[i].key@, m0[i].val@),
            -1 <= key_find(view_obj(m0), k@) < m0.len(),
            key_find(view_obj(m0), k@) >= 0 ==> view_obj(m0)[key_find(view_obj(m0), k@)].0 == k@,
            forall|i: int|
                0 <= i < m0.len() && view_obj(m0)[i].0 == k@ ==> key_find(view_obj(m0), k@) >= 0,
            forall|i: int| 0 <= i < key_find(view_obj(m0), k@) ==> view_obj(m0)[i].0 != k@,
            forall|i: int| 0 <= i < j ==> view_obj(m0)[i].0 != k@,
        decreases m0.len() - j,
    {
        if str_eq(m[j].key.as_str(), k) {
            assert(view_obj(m0)[j as int].0 == k@);
            assert(key_find(view_obj(m0), k@) == j);
            let e = m.remove(j);
            proof {
                lemma_view_obj(m@);
                assert(view_obj(m@) =~= obj_remove(view_obj(m0), k@));
            }
            return Some(e.val);
        }
        j = j + 1;
    }
    assert(key_find(view_obj(m0), k@) == -1);
    None
}

/// Adds field `k` with value `v` only when no field of that name exists.
pub fn entries_set_if_absent(m: &mut Vec<JsonEntry>, k: String, v: JsonValue)
    ensures
        view_obj(final(m)@) == obj_set_if_absent(view_obj(old(m)@), k@, v@),
{
    proof {
        lemma_view_obj(old(m)@);
        lemma_key_find(view_obj(old(m)@), k@);
    }
    let ghost m0 = old(m)@;
    let mut j: usize = 0;
    while j < m.len()
        invariant
            m0 == old(m)@,
            m@ == m0,
            0 <= j <= m0.len(),
            view_obj(m0).len() == m0.len(),
            forall|i: int| 0 <= i < m0.len() ==> view_obj(m0)[i] == (m0[i].key@, m0[i].val@),
            -1 <= key_find(view_obj(m0), k@) < m0.len(),
            key_find(view_obj(m0), k@) >= 0 ==> view_obj(m0)[key_find(view_obj(m0), k@)].0 == k@,
            forall|i: int|
                0 <= i < m0.len() && view_obj(m0)[i].0 == k@ ==> key_find(view_obj(m0), k@) >= 0,
            forall|i: int| 0 <= i < j ==> view_obj(m0)[i].0 != k@,
        decreases m0.len() - j,
    {
        if str_eq(m[j].key.as_str(), k.as_str()) {
            assert(view_obj(m0)[j as int].0 == k@);
            return ;
        }
        j = j + 1;
    }
    assert(key_find(view_obj(m0), k@) == -1);
    m.push(JsonEntry { key: k, val: v });
    proof {
        lemma_view_obj(m@);
        assert(view_obj(m@) =~= obj_set_if_absent(view_obj(m0), k@, v@));
    }
}

/// Setting a field leaves every other field's first value alone and makes
/// the set field read back as the new value.
pub proof fn lemma_obj_get_set(m: Seq<(Seq<char>, Jv)>, k: Seq<char>, v: Jv, k2: Seq<char>)
    ensures
        obj_get(obj_set(m, k, v), k2) == if k2 == k {
            Some(v)
        } else {
            obj_get(m, k2)
        },
{
    lemma_key_find(m, k);
    lemma_key_find(m, k2);
    let m2 = obj_set(m, k, v);
    lemma_key_find(m2, k);
    lemma_key_find(m2, k2);
    let kf = key_find(m, k);
    if kf >= 0 {
        // Replacement in place: the keys of the object are unchanged.
        assert(m2 == m.update(kf, (k, v)));
        assert(m2[kf].0 == k);
        let kf2 = key_find(m2, k);
        if kf2 < kf {
            assert(m2[kf2] == m[kf2]);
        }
        assert(kf2 == kf);
        if k2 != k {
            let j = key_find(m, k2);
            let j2 = key_find(m2, k2);
            if j >= 0 {
                assert(m2[j] == m[j]);
                if j2 < j {
                    assert(j2 >= 0 ==> m2[j2] == m[j2]);
                    assert(j2 >= 0 ==> m[j2].0 == k2);
                }
                assert(j2 == j);
            } else {
                if j2 >= 0 {
                    assert(m2[j2].0 == k2);
                    assert(m2[j2] == m[j2]);
                }
            }
        }
    } else {
        // Appended at the end: earlier fields keep their positions.
        assert(m2 == m.push((k, v)));
        assert(forall|i: int| 0 <= i < m.len() ==> m2[i] == m[i]);
        assert(m2[m.len() as int] == (k, v));
        let kf2 = key_find(m2, k);
        if kf2 < m.len() {
            assert(m2[kf2] == m[kf2]);
        }
        assert(kf2 == m.len());
        if k2 != k {
            let j = key_find(m, k2);
            let j2 = key_find(m2, k2);
            if j >= 0 {
                assert(m2[j] == m[j]);
                if j2 < j {
                    assert(j2 >= 0 ==> m2[j2] == m[j2]);
                }
                assert(j2 == j);
            } else {
                if j2 >= 0 {
                    assert(m2[j2].0 == k2);
                    if j2 < m.len() {
                        assert(m2[j2] == m[j2]);
                    }
                }
                assert(j2 == -1);
            }
        }
    }
}

/// Adding a field only where absent: an existing field keeps its value, a
/// missing one reads back as the added value, and other fields are
/// untouched.
pub proof fn lemma_obj_get_set_if_absent(
    m: Seq<(Seq<char>, Jv)>,
    k: Seq<char>,
    v: Jv,
    k2: Seq<char>,
)
    ensures
        obj_get(obj_set_if_absent(m, k, v), k2) == if k2 == k {
            if obj_has(m, k) {
                obj_get(m, k)
            } else {
                Some(v)
            }
        } else {
            obj_get(m, k2)
        },
{
    lemma_key_find(m, k);
    lemma_key_find(m, k2);
    if !obj_has(m, k) {
        let m2 = obj_set_if_absent(m, k, v);
        assert(m2 == m.push((k, v)));
        lemma_key_find(m2, k);
        lemma_key_find(m2, k2);
        assert(forall|i: int| 0 <= i < m.len() ==> m2[i] == m[i]);
        assert(m2[m.len() as int] == (k, v));
        let kf2 = key_find(m2, k);
        if kf2 < m.len() {
            assert(m2[kf2] == m[kf2]);
        }
        assert(kf2 == m.len());
        if k2 != k {
            let j = key_find(m, k2);
            let j2 = key_find(m2, k2);
            if j >= 0 {
                assert(m2[j] == m[j]);
                if j2 < j {
                    assert(j2 >= 0 ==> m2[j2] == m[j2]);
                }
                assert(j2 == j);
            } else {
                if j2 >= 0 {
                    assert(m2[j2].0 == k2);
                    if j2 < m.len() {
                        assert(m2[j2] == m[j2]);
                    }
                }
                assert(j2 == -1);
            }
        }
    }
}

/// Removing one field leaves every other field's first value alone, and the
/// removed slot no longer shadows later fields of the same name.
pub proof fn lemma_obj_get_remove(m: Seq<(Seq<char>, Jv)>, k: Seq<char>, k2: Seq<char>)
    requires
        k2 != k,
    ensures
        obj_get(obj_remove(m, k), k2) == obj_get(m, k2),
{
    lemma_key_find(m, k);
    lemma_key_find(m, k2);
    let kf = key_find(m, k);
    if kf >= 0 {
        let m2 = obj_remove(m, k);
        assert(m2 == m.remove(kf));
        lemma_key_find(m2, k2);
        assert(forall|i: int| 0 <= i < kf ==> m2[i] == m[i]);
        assert(forall|i: int| kf <= i < m2.len() ==> m2[i] == m[i + 1]);
        let j = key_find(m, k2);
        let j2 = key_find(m2, k2);
        if j >= 0 {
            assert(j != kf);
            if j < kf {
                assert(m2[j] == m[j]);
                if j2 < j {
                    assert(j2 >= 0 ==> m2[j2] == m[j2]);
                }
                assert(j2 == j);
            } else {
                assert(m2[j - 1] == m[j]);
                assert(m2[j - 1].0 == k2);
                assert(j2 >= 0);
                if j2 < j - 1 {
                    if j2 < kf {
                        assert(m2[j2] == m[j2]);
                    } else {
                        assert(m2[j2] == m[j2 + 1]);
                    }
                }
                assert(j2 == j - 1);
                assert(m2[j2].1 == m[j].1);
            }
        } else {
            if j2 >= 0 {
                assert(m2[j2].0 == k2);
                if j2 < kf {
                    assert(m2[j2] == m[j2]);
                } else {
                    assert(m2[j2] == m[j2 + 1]);
                }
            }
            assert(j2 == -1);
        }
    }
}

/// No two fields of the object share a name.
pub open spec fn distinct_keys(m: Seq<(Seq<char>, Jv)>) -> bool {
    forall|i: int, j: int| 0 <= i < j < m.len() ==> (#[trigger] m[i].0) != (#[trigger] m[j].0)
}

/// After removing field `k`, a field named `k` is found only where the
/// object held a second one further on.
pub proof fn lemma_obj_remove_gone(m: Seq<(Seq<char>, Jv)>, k: Seq<char>)
    requires
        distinct_keys(m),
    ensures
        !obj_has(obj_remove(m, k), k),
{
    lemma_key_find(m, k);
    let kf = key_find(m, k);
    if kf >= 0 {
        let m2 = obj_remove(m, k);
        assert(m2 == m.remove(kf));
        lemma_key_find(m2, k);
        let j2 = key_find(m2, k);
        if j2 >= 0 {
            assert(m2[j2].0 == k);
            if j2 < kf {
                assert(m2[j2] == m[j2]);
            } else {
                assert(m2[j2] == m[j2 + 1]);
                assert(m[kf].0 == m[j2 + 1].0);
            }
            assert(false);
        }
    }
}

} // verus!
