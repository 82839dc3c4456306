//! Laws of the engine that span the store and the codec, stated over the
//! store's map model and the document derivation.

use vstd::prelude::*;

use crate::jsonval::{obj_get, Jv};
use crate::numstr::u64_dec;
use crate::store::bump_step;
use crate::tiddler::{
    flatten_fields, lemma_document_fields, normalize_tags, spec_document, spec_revision_of,
    spec_title_of,
};

verus! {

/// A valid document written under a title with no prior record is stored at
/// revision zero (the default when the wire document carries none), and the
/// document read back under that title carries the title, the revision
/// string `"0"`, and otherwise exactly the normalized form of what was
/// written.
pub proof fn lemma_first_write_then_get(
    m0: Map<Seq<char>, (u64, Jv)>,
    t: Seq<char>,
    d: Seq<(Seq<char>, Jv)>,
)
    requires
        !m0.contains_key(t),
        spec_title_of(d) == Some(t),
        spec_revision_of(d) == Some(0u64),
    ensures
        ({
            let m1 = m0.insert(t, (0u64, Jv::Obj(d)));
            let doc = spec_document(t, 0u64, Jv::Obj(d));
            &&& m1.contains_key(t)
            &&& m1[t] == (0u64, Jv::Obj(d))
            &&& doc is Obj
            &&& obj_get(doc->Obj_0, "title"@) == Some(Jv::Str(t))
            &&& obj_get(doc->Obj_0, "revision"@) == Some(Jv::Str(seq!['0']))
            &&& forall|k: Seq<char>|
                k != "title"@ && k != "revision"@ && k != "bag"@ ==> #[trigger] obj_get(
                    doc->Obj_0,
                    k,
                ) == obj_get(normalize_tags(flatten_fields(d)), k)
        }),
{
    lemma_document_fields(t, 0u64, d);
    assert(u64_dec(0u64) =~= seq!['0']) by {
        assert(u64_dec(0u64) == seq![crate::numstr::digit_char(0)]);
        assert(crate::numstr::digit_char(0) == '0');
    }
}

/// Writing twice under one title: the second write is stored at a revision
/// exactly one above the first write's, and a read afterwards yields the
/// second payload only.
pub proof fn lemma_second_write_overwrites(
    m0: Map<Seq<char>, (u64, Jv)>,
    t: Seq<char>,
    r1: u64,
    d1: Jv,
    d2: Jv,
)
    requires
        r1 < u64::MAX,
    ensures
        ({
            let m1 = m0.insert(t, (r1, d1));
            let m2 = bump_step(m1, t, d2);
            &&& m1.contains_key(t) && m1[t] == (r1, d1)
            &&& m2.contains_key(t)
            &&& m2[t].0 == r1 + 1
            &&& m2[t].1 == d2
        }),
{
    broadcast use vstd::map::group_map_axioms;

}

} // verus!
