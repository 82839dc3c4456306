//! The record store: a title-keyed table of records with revision
//! bump-on-overwrite.
//!
//! The store's mathematical content is a map from titles to pairs of
//! revision and metadata. Overwriting an existing title through
//! `put_bump` raises the stored revision by exactly one, whatever revision
//! the incoming record carries, so concurrent writers serialized through
//! one lock obtain distinct, consecutive revisions.

use vstd::prelude::*;

use crate::jsonval::Jv;
use crate::strutil::str_eq;
use crate::tiddler::Tiddler;

verus! {

broadcast use vstd::std_specs::vec::group_vec_axioms, vstd::seq::group_seq_axioms,
    vstd::seq_lib::group_seq_lib_default, vstd::map::group_map_axioms;

/// No two records share a title.
pub open spec fn titles_unique(s: Seq<Tiddler>) -> bool {
    forall|i: int, j: int| 0 <= i < j < s.len() ==> s[i].title@ != s[j].title@
}

/// Whether some record in `s` carries the title `k`.
pub open spec fn has_title(s: Seq<Tiddler>, k: Seq<char>) -> bool {
    exists|i: int| 0 <= i < s.len() && s[i].title@ == k
}

/// The map a record sequence denotes: each title to its revision and
/// metadata.
pub closed spec fn store_map(s: Seq<Tiddler>) -> Map<Seq<char>, (u64, Jv)> {
    Map::new(
        |k: Seq<char>| has_title(s, k),
        |k: Seq<char>|
            {
                let i = choose|i: int| 0 <= i < s.len() && s[i].title@ == k;
                (s[i].revision, s[i].meta@)
            },
    )
}

/// What the store map holds, record by record, when titles are unique.
pub proof fn lemma_store_map(s: Seq<Tiddler>)
    requires
        titles_unique(s),
    ensures
        forall|k: Seq<char>| (#[trigger] store_map(s).contains_key(k)) <==> has_title(s, k),
        forall|i: int|
            0 <= i < s.len() ==> store_map(s).contains_key(#[trigger] s[i].title@) && store_map(s)[
                s[i].title@
            ] == (s[i].revision, s[i].meta@),
{
    assert forall|i: int| 0 <= i < s.len() implies store_map(s).contains_key(#[trigger] s[i].title@)
        && store_map(s)[s[i].title@] == (s[i].revision, s[i].meta@) by {
        assert(has_title(s, s[i].title@));
        let j = choose|j: int| 0 <= j < s.len() && s[j].title@ == s[i].title@;
        if i < j {
            assert(s[i].title@ != s[j].title@);
        } else if j < i {
            assert(s[j].title@ != s[i].title@);
        }
    }
}

/// The persistent table of records, keyed by title.
pub struct Tiddlers {
    tiddlers: Vec<Tiddler>,
}

impl View for Tiddlers {
    type V = Map<Seq<char>, (u64, Jv)>;

    open spec fn view(&self) -> Map<Seq<char>, (u64, Jv)> {
        store_map(self.recs())
    }
}

impl Tiddlers {
    /// The record sequence behind the store.
    pub closed spec fn recs(self) -> Seq<Tiddler> {
        self.tiddlers@
    }

    /// The store's invariant: titles identify at most one live record.
    pub open spec fn wf(self) -> bool {
        titles_unique(self.recs())
    }

    /// An empty store.
    pub fn new() -> (r: Tiddlers)
        ensures
            r.wf(),
            r@ == Map::<Seq<char>, (u64, Jv)>::empty(),
            r.recs() == Seq::<Tiddler>::empty(),
    {
        let r = Tiddlers { tiddlers: Vec::new() };
        proof {
            assert forall|k: Seq<char>| !(#[trigger] store_map(r.recs()).contains_key(k)) by {
                assert(!has_title(r.recs(), k));
            }
            assert(store_map(r.recs()) =~= Map::<Seq<char>, (u64, Jv)>::empty());
        }
        r
    }

    /// The index of the record with title `k`, if one exists.
    fn find_idx(&self, title: &str) -> (r: Option<usize>)
        ensures
            match r {
                Some(i) => i < self.recs().len() && self.recs()[i as int].title@ == title@,
                None => !has_title(self.recs(), title@),
            },
    {
        let mut i: usize = 0;
        while i < self.tiddlers.len()
            invariant
                0 <= i <= self.recs().len(),
                forall|j: int| 0 <= j < i ==> self.recs()[j].title@ != title@,
            decreases self.recs().len() - i,
        {
            if str_eq(self.tiddlers[i].title.as_str(), title) {
                return Some(i);
            }
            i = i + 1;
        }
        None
    }

    /// Point lookup: the record under `title`, or nothing when absent.
    pub fn get(&self, title: &str) -> (r: Option<&Tiddler>)
        requires
            self.wf(),
        ensures
            match r {
                Some(t) => {
                    &&& self@.contains_key(title@)
                    &&& t.title@ == title@
                    &&& (t.revision, t.meta@) == self@[title@]
                },
                None => !self@.contains_key(title@),
            },
    {
        proof {
            lemma_store_map(self.recs());
        }
        match self.find_idx(title) {
            Some(i) => Some(&self.tiddlers[i]),
            None => None,
        }
    }

    /// All records. Order carries no meaning to callers.
    pub fn all(&self) -> (r: &Vec<Tiddler>)
        requires
            self.wf(),
        ensures
            r@ == self.recs(),
            titles_unique(r@),
            forall|i: int|
                0 <= i < r@.len() ==> self@.contains_key(#[trigger] r@[i].title@) && self@[r@[
                    i
                ].title@] == (r@[i].revision, r@[i].meta@),
            forall|k: Seq<char>| #[trigger] self@.contains_key(k) ==> has_title(r@, k),
    {
        proof {
            lemma_store_map(self.recs());
        }
        &self.tiddlers
    }

    /// Insert-or-replace keyed by the record's title.
    pub fn put(&mut self, t: Tiddler)
        requires
            old(self).wf(),
        ensures
            final(self).wf(),
            final(self)@ == old(self)@.insert(t.title@, (t.revision, t.meta@)),
    {
        proof {
            lemma_store_map(self.recs());
        }
        let ghost s0 = self.recs();
        match self.find_idx(t.title.as_str()) {
            Some(i) => {
                let ghost tv = t.title@;
                self.tiddlers[i] = t;
                proof {
                    assert(titles_unique(self.recs())) by {
                        assert forall|a: int, b: int|
                            0 <= a < b < self.recs().len() implies self.recs()[a].title@
                            != self.recs()[b].title@ by {
                            if a != i && b != i {
                                assert(self.recs()[a] == s0[a] && self.recs()[b] == s0[b]);
                            } else if a == i {
                                assert(self.recs()[b] == s0[b] && s0[b].title@ != s0[i as int].title@);
                            } else {
                                assert(self.recs()[a] == s0[a] && s0[a].title@ != s0[i as int].title@);
                            }
                        }
                    }
                    lemma_store_map(self.recs());
                    assert forall|k: Seq<char>| #[trigger]
                        has_title(self.recs(), k) == has_title(s0, k) by {
                        if has_title(self.recs(), k) {
                            let a = choose|a: int|
                                0 <= a < self.recs().len() && self.recs()[a].title@ == k;
                            if a == i {
                                assert(s0[i as int].title@ == k);
                            } else {
                                assert(s0[a].title@ == k);
                            }
                        }
                        if has_title(s0, k) {
                            let a = choose|a: int| 0 <= a < s0.len() && s0[a].title@ == k;
                            if a == i {
                                assert(self.recs()[i as int].title@ == k);
                            } else {
                                assert(self.recs()[a].title@ == k);
                            }
                        }
                    }
                    lemma_store_map(s0);
                    assert(store_map(self.recs()) =~= store_map(s0).insert(
                        t.title@,
                        (t.revision, t.meta@),
                    ));
                }
            },
            None => {
                self.tiddlers.push(t);
                proof {
                    assert(titles_unique(self.recs())) by {
                        assert forall|a: int, b: int|
                            0 <= a < b < self.recs().len() implies self.recs()[a].title@
                            != self.recs()[b].title@ by {
                            if b == s0.len() {
                                assert(self.recs()[a] == s0[a]);
                                assert(!has_title(s0, t.title@));
                            } else {
                                assert(self.recs()[a] == s0[a] && self.recs()[b] == s0[b]);
                            }
                        }
                    }
                    lemma_store_map(self.recs());
                    lemma_store_map(s0);
                    assert forall|k: Seq<char>| #[trigger] has_title(self.recs(), k) implies (
                    has_title(s0, k) || k == t.title@) by {
                        let a = choose|a: int|
                            0 <= a < self.recs().len() && self.recs()[a].title@ == k;
                        if a < s0.len() {
                            assert(s0[a].title@ == k);
                        }
                    }
                    assert forall|k: Seq<char>| #[trigger] has_title(s0, k) implies has_title(
                        self.recs(),
                        k,
                    ) by {
                        let a = choose|a: int| 0 <= a < s0.len() && s0[a].title@ == k;
                        assert(self.recs()[a].title@ == k);
                    }
                    assert(has_title(self.recs(), t.title@)) by {
                        assert(self.recs()[s0.len() as int].title@ == t.title@);
                    }
                    assert(store_map(self.recs()) =~= store_map(s0).insert(
                        t.title@,
                        (t.revision, t.meta@),
                    ));
                }
            },
        }
    }

    /// Observe-then-remove: hands back the record that lived under `title`,
    /// if any, removing it from the store.
    pub fn pop(&mut self, title: &str) -> (r: Option<Tiddler>)
        requires
            old(self).wf(),
        ensures
            final(self).wf(),
            final(self)@ == old(self)@.remove(title@),
            match r {
                Some(t) => {
                    &&& old(self)@.contains_key(title@)
                    &&& t.title@ == title@
                    &&& (t.revision, t.meta@) == old(self)@[title@]
                },
                None => !old(self)@.contains_key(title@),
            },
    {
        proof {
            lemma_store_map(self.recs());
        }
        let ghost s0 = self.recs();
        match self.find_idx(title) {
            Some(i) => {
                let t = self.tiddlers.remove(i);
                proof {
                    assert(titles_unique(self.recs())) by {
                        assert forall|a: int, b: int|
                            0 <= a < b < self.recs().len() implies self.recs()[a].title@
                            != self.recs()[b].title@ by {
                            let a0: int = if a < i { a } else { a + 1 };
                            let b0: int = if b < i { b } else { b + 1 };
                            assert(self.recs()[a] == s0[a0] && self.recs()[b] == s0[b0]);
                        }
                    }
                    lemma_store_map(self.recs());
                    lemma_store_map(s0);
                    assert forall|k: Seq<char>| #[trigger] has_title(self.recs(), k) implies (
                    has_title(s0, k) && k != title@) by {
                        let a = choose|a: int|
                            0 <= a < self.recs().len() && self.recs()[a].title@ == k;
                        let a0: int = if a < i { a } else { a + 1 };
                        assert(s0[a0].title@ == k);
                        if k == title@ {
                            if a0 < i {
                                assert(s0[a0].title@ != s0[i as int].title@);
                            } else {
                                assert(s0[i as int].title@ != s0[a0].title@);
                            }
                        }
                    }
                    assert forall|k: Seq<char>|
                        #[trigger] has_title(s0, k) && k != title@ implies has_title(
                        self.recs(),
                        k,
                    ) by {
                        let a = choose|a: int| 0 <= a < s0.len() && s0[a].title@ == k;
                        if a < i {
                            assert(self.recs()[a].title@ == k);
                        } else if a > i {
                            assert(self.recs()[a - 1].title@ == k);
                        }
                    }
                    assert(store_map(self.recs()) =~= store_map(s0).remove(title@));
                }
                Some(t)
            },
            None => {
                proof {
                    assert(store_map(self.recs()) =~= store_map(s0).remove(title@));
                }
                None
            },
        }
    }

    /// Insert-or-overwrite with the revision rule: a fresh title is stored
    /// at the revision the record carries; overwriting an existing title
    /// stores the document at exactly one above the stored revision,
    /// whatever revision the incoming record carries. The returned value is
    /// the revision the record was stored at.
    pub fn put_bump(&mut self, t: Tiddler) -> (rev: u64)
        requires
            old(self).wf(),
            old(self)@.contains_key(t.title@) ==> old(self)@[t.title@].0 < u64::MAX,
        ensures
            final(self).wf(),
            rev == if old(self)@.contains_key(t.title@) {
                old(self)@[t.title@].0 + 1
            } else {
                t.revision as int
            },
            final(self)@ == old(self)@.insert(t.title@, (rev, t.meta@)),
            old(self)@.contains_key(t.title@) ==> final(self)@ == bump_step(
                old(self)@,
                t.title@,
                t.meta@,
            ),
    {
        let prior: Option<u64> = match self.get(t.title.as_str()) {
            Some(p) => Some(p.revision),
            None => None,
        };
        match prior {
            Some(r0) => {
                let rev = r0 + 1;
                let bumped = Tiddler { title: t.title, revision: rev, meta: t.meta };
                self.put(bumped);
                rev
            },
            None => {
                let rev = t.revision;
                self.put(t);
                rev
            },
        }
    }
}

/// One overwrite step of the store model at title `t`: the stored revision
/// rises by one and the metadata is replaced.
pub open spec fn bump_step(m: Map<Seq<char>, (u64, Jv)>, t: Seq<char>, meta: Jv) -> Map<
    Seq<char>,
    (u64, Jv),
> {
    m.insert(t, ((m[t].0 + 1) as u64, meta))
}

/// The store model after a sequence of overwrites of title `t`, one per
/// metadata value, oldest first.
pub open spec fn bump_n(m: Map<Seq<char>, (u64, Jv)>, t: Seq<char>, metas: Seq<Jv>) -> Map<
    Seq<char>,
    (u64, Jv),
>
    decreases metas.len(),
{
    if metas.len() == 0 {
        m
    } else {
        bump_n(bump_step(m, t, metas[0]), t, metas.drop_first())
    }
}

/// After `n` serialized overwrites the stored revision has risen by exactly
/// `n`.
pub proof fn lemma_bump_n_rev(m: Map<Seq<char>, (u64, Jv)>, t: Seq<char>, metas: Seq<Jv>)
    requires
        m.contains_key(t),
        m[t].0 + metas.len() <= u64::MAX,
    ensures
        bump_n(m, t, metas).contains_key(t),
        bump_n(m, t, metas)[t].0 == m[t].0 + metas.len(),
    decreases metas.len(),
{
    if metas.len() > 0 {
        lemma_bump_n_rev(bump_step(m, t, metas[0]), t, metas.drop_first());
    }
}

/// Serialized overwrites of one title yield consecutive revisions: the
/// `i`-th write (counting from one) stores at exactly `i` above the prior
/// revision, so `n` writes from the same prior revision produce `n`
/// distinct, consecutive revision values with no repeats or gaps.
pub proof fn lemma_revisions_serialize(m: Map<Seq<char>, (u64, Jv)>, t: Seq<char>, metas: Seq<Jv>)
    requires
        m.contains_key(t),
        m[t].0 + metas.len() <= u64::MAX,
    ensures
        forall|i: int|
            0 <= i <= metas.len() ==> (#[trigger] bump_n(m, t, metas.take(i)).contains_key(t)
                && bump_n(m, t, metas.take(i))[t].0 == m[t].0 + i),
{
    assert forall|i: int| 0 <= i <= metas.len() implies (#[trigger] bump_n(
        m,
        t,
        metas.take(i),
    ).contains_key(t) && bump_n(m, t, metas.take(i))[t].0 == m[t].0 + i) by {
        assert(metas.take(i).len() == i);
        lemma_bump_n_rev(m, t, metas.take(i));
    }
}

} // verus!
