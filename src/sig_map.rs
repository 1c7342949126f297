use vstd::prelude::*;
use crate::abi_type::{
    ABIJsonSignature, SigModel, key_lt, key_less, lemma_key_lt_irreflexive, lemma_key_lt_total,
    lemma_key_lt_transitive,
};

verus! {

/// One entry of a `SigMap`: a declared name and its signature.
#[derive(Debug)]
pub struct SigEntry {
    pub key: String,
    pub sig: ABIJsonSignature,
}

/// A map from declared names to signatures whose entries are kept in ascending key order,
/// each key once.
#[derive(Debug)]
pub struct SigMap {
    entries: Vec<SigEntry>,
}

pub type EntriesModel = Seq<(Seq<char>, SigModel)>;

pub open spec fn entries_view(es: Seq<SigEntry>) -> EntriesModel {
    es.map_values(|e: SigEntry| (e.key@, e.sig@))
}

impl View for SigMap {
    type V = EntriesModel;

    closed spec fn view(&self) -> EntriesModel {
        entries_view(self.entries@)
    }
}

/// Keys strictly ascending, hence each key once.
pub open spec fn keys_sorted(s: EntriesModel) -> bool {
    forall|i: int, j: int| 0 <= i < j < s.len() ==> key_lt(#[trigger] s[i].0, #[trigger] s[j].0)
}

/// `s` with `(k, v)` added in key order; an entry already under `k` is replaced.
pub open spec fn sorted_insert(s: EntriesModel, k: Seq<char>, v: SigModel) -> EntriesModel
    decreases s.len(),
{
    if s.len() == 0 {
        seq![(k, v)]
    } else if key_lt(s[0].0, k) {
        seq![s[0]] + sorted_insert(s.drop_first(), k, v)
    } else if s[0].0 == k {
        s.update(0, (k, v))
    } else {
        seq![(k, v)] + s
    }
}

/// Where the keys before position `i` are all below `k` and the key at `i` is not,
/// `sorted_insert` puts `(k, v)` at `i`.
proof fn lemma_sorted_insert_at(s: EntriesModel, k: Seq<char>, v: SigModel, i: int)
    requires
        0 <= i <= s.len(),
        forall|j: int| 0 <= j < i ==> key_lt(#[trigger] s[j].0, k),
        i < s.len() ==> !key_lt(s[i].0, k),
    ensures
        sorted_insert(s, k, v) == (if i < s.len() && s[i].0 == k {
            s.update(i, (k, v))
        } else {
            s.insert(i, (k, v))
        }),
    decreases i,
{
    if i == 0 {
        if s.len() == 0 {
            assert(seq![(k, v)] =~= s.insert(0, (k, v)));
        } else if s[0].0 != k {
            assert(seq![(k, v)] + s =~= s.insert(0, (k, v)));
        }
    } else {
        let rest = s.drop_first();
        assert(key_lt(s[0].0, k));
        assert forall|j: int| 0 <= j < i - 1 implies key_lt(#[trigger] rest[j].0, k) by {
            assert(rest[j] == s[j + 1]);
        }
        lemma_sorted_insert_at(rest, k, v, i - 1);
        if i < s.len() && s[i].0 == k {
            assert(seq![s[0]] + rest.update(i - 1, (k, v)) =~= s.update(i, (k, v)));
        } else {
            assert(seq![s[0]] + rest.insert(i - 1, (k, v)) =~= s.insert(i, (k, v)));
        }
    }
}

/// Adding an entry in key order keeps the keys strictly ascending.
proof fn lemma_sorted_insert_sorted(s: EntriesModel, k: Seq<char>, v: SigModel, i: int)
    requires
        keys_sorted(s),
        0 <= i <= s.len(),
        forall|j: int| 0 <= j < i ==> key_lt(#[trigger] s[j].0, k),
        i < s.len() ==> !key_lt(s[i].0, k),
    ensures
        keys_sorted(sorted_insert(s, k, v)),
{
    lemma_sorted_insert_at(s, k, v, i);
    let r = sorted_insert(s, k, v);
    if i < s.len() && s[i].0 == k {
        assert forall|a: int, b: int| 0 <= a < b < r.len() implies key_lt(
            #[trigger] r[a].0,
            #[trigger] r[b].0,
        ) by {
            assert(r[a].0 == s[a].0);
            assert(r[b].0 == s[b].0);
        }
    } else {
        if i < s.len() {
            lemma_key_lt_total(s[i].0, k);
        }
        assert forall|a: int, b: int| 0 <= a < b < r.len() implies key_lt(
            #[trigger] r[a].0,
            #[trigger] r[b].0,
        ) by {
            if b < i {
                assert(r[a] == s[a] && r[b] == s[b]);
            } else if b == i {
                assert(r[a] == s[a]);
            } else if a == i {
                assert(r[b] == s[b - 1]);
                if b - 1 > i {
                    assert(key_lt(s[i].0, s[b - 1].0));
                    lemma_key_lt_transitive(k, s[i].0, s[b - 1].0);
                }
            } else if a < i {
                assert(r[a] == s[a] && r[b] == s[b - 1]);
            } else {
                assert(r[a] == s[a - 1] && r[b] == s[b - 1]);
            }
        }
    }
}

/// Adding entries under two different keys gives the same map in either order.
pub proof fn lemma_sorted_insert_commute(
    s: EntriesModel,
    k1: Seq<char>,
    v1: SigModel,
    k2: Seq<char>,
    v2: SigModel,
)
    requires
        k1 != k2,
    ensures
        sorted_insert(sorted_insert(s, k1, v1), k2, v2) == sorted_insert(
            sorted_insert(s, k2, v2),
            k1,
            v1,
        ),
    decreases s.len(),
{
    lemma_key_lt_total(k1, k2);
    lemma_key_lt_irreflexive(k1);
    lemma_key_lt_irreflexive(k2);
    if key_lt(k1, k2) && key_lt(k2, k1) {
        lemma_key_lt_transitive(k1, k2, k1);
    }
    let e1 = (k1, v1);
    let e2 = (k2, v2);
    if s.len() == 0 {
        assert(sorted_insert(seq![e1], k2, v2) == (if key_lt(k1, k2) {
            seq![e1] + sorted_insert(seq![e1].drop_first(), k2, v2)
        } else {
            seq![e2] + seq![e1]
        }));
        assert(sorted_insert(seq![e2], k1, v1) == (if key_lt(k2, k1) {
            seq![e2] + sorted_insert(seq![e2].drop_first(), k1, v1)
        } else {
            seq![e1] + seq![e2]
        }));
        assert(seq![e1].drop_first() =~= Seq::<(Seq<char>, SigModel)>::empty());
        assert(seq![e2].drop_first() =~= Seq::<(Seq<char>, SigModel)>::empty());
        if key_lt(k1, k2) {
            assert(seq![e1] + seq![e2] =~= seq![e1, e2]);
        } else {
            assert(seq![e2] + seq![e1] =~= seq![e2, e1]);
        }
    } else {
        let h = s[0];
        let rest = s.drop_first();
        if key_lt(h.0, k1) && key_lt(h.0, k2) {
            lemma_sorted_insert_commute(rest, k1, v1, k2, v2);
            let a = sorted_insert(rest, k1, v1);
            let b = sorted_insert(rest, k2, v2);
            assert((seq![h] + a)[0] == h && (seq![h] + a).drop_first() =~= a);
            assert((seq![h] + b)[0] == h && (seq![h] + b).drop_first() =~= b);
        } else if key_lt(h.0, k1) {
            // k2 is at or before h
            let a = sorted_insert(rest, k1, v1);
            assert((seq![h] + a)[0] == h && (seq![h] + a).drop_first() =~= a);
            if h.0 == k2 {
                let u = s.update(0, e2);
                assert(u[0] == e2 && u.drop_first() =~= rest);
                assert((seq![h] + a).update(0, e2) =~= seq![e2] + a);
            } else {
                lemma_key_lt_total(h.0, k2);
                lemma_key_lt_transitive(k2, h.0, k1);
                let u = seq![e2] + s;
                assert(u[0] == e2 && u.drop_first() =~= s);
                assert(seq![e2] + (seq![h] + a) =~= seq![e2] + sorted_insert(s, k1, v1));
            }
        } else if key_lt(h.0, k2) {
            let b = sorted_insert(rest, k2, v2);
            assert((seq![h] + b)[0] == h && (seq![h] + b).drop_first() =~= b);
            if h.0 == k1 {
                let u = s.update(0, e1);
                assert(u[0] == e1 && u.drop_first() =~= rest);
                assert((seq![h] + b).update(0, e1) =~= seq![e1] + b);
            } else {
                lemma_key_lt_total(h.0, k1);
                lemma_key_lt_transitive(k1, h.0, k2);
                let u = seq![e1] + s;
                assert(u[0] == e1 && u.drop_first() =~= s);
                assert(seq![e1] + (seq![h] + b) =~= seq![e1] + sorted_insert(s, k2, v2));
            }
        } else {
            // both keys are at or before h
            if h.0 == k1 {
                lemma_key_lt_total(h.0, k2);
                let u1 = s.update(0, e1);
                let w2 = seq![e2] + s;
                assert(u1[0] == e1 && u1.drop_first() =~= rest);
                assert(w2[0] == e2 && w2.drop_first() =~= s);
                assert(seq![e2] + u1 =~= seq![e2] + sorted_insert(s, k1, v1));
            } else if h.0 == k2 {
                lemma_key_lt_total(h.0, k1);
                let u2 = s.update(0, e2);
                let w1 = seq![e1] + s;
                assert(u2[0] == e2 && u2.drop_first() =~= rest);
                assert(w1[0] == e1 && w1.drop_first() =~= s);
                assert(seq![e1] + u2 =~= seq![e1] + sorted_insert(s, k2, v2));
            } else {
                let w1 = seq![e1] + s;
                let w2 = seq![e2] + s;
                assert(w1[0] == e1 && w1.drop_first() =~= s);
                assert(w2[0] == e2 && w2.drop_first() =~= s);
                if key_lt(k1, k2) {
                    assert(seq![e1] + (seq![e2] + s) =~= seq![e1, e2] + s);
                } else {
                    assert(seq![e2] + (seq![e1] + s) =~= seq![e2, e1] + s);
                }
            }
        }
    }
}

impl SigMap {
    pub open spec fn wf(&self) -> bool {
        keys_sorted(self@)
    }

    pub fn new() -> (r: SigMap)
        ensures
            r@ == Seq::<(Seq<char>, SigModel)>::empty(),
            r.wf(),
    {
        let r = SigMap { entries: Vec::new() };
        assert(r@ =~= Seq::<(Seq<char>, SigModel)>::empty());
        r
    }

    pub fn len(&self) -> (r: usize)
        ensures
            r == self@.len(),
    {
        self.entries.len()
    }

    /// The entries, in ascending key order.
    pub fn entries(&self) -> (r: &Vec<SigEntry>)
        ensures
            entries_view(r@) == self@,
    {
        &self.entries
    }

    /// Adds `sig` under `key` in key order, replacing what was there under the same key.
    pub fn insert(&mut self, key: String, sig: ABIJsonSignature)
        requires
            old(self).wf(),
        ensures
            final(self).wf(),
            final(self)@ == sorted_insert(old(self)@, key@, sig@),
    {
        let ghost s = self@;
        let n: usize = self.entries.len();
        let mut i: usize = 0;
        let mut found = false;
        while !found && i < n
            invariant
                n == self.entries.len(),
                s == self@,
                i <= n,
                forall|j: int| 0 <= j < i ==> key_lt(#[trigger] s[j].0, key@),
                found ==> i < n && !key_lt(s[i as int].0, key@),
            decreases n - i + (if found { 0int } else { 1int }),
        {
            if key_less(&self.entries[i].key, &key) {
                i = i + 1;
            } else {
                found = true;
            }
        }
        proof {
            lemma_sorted_insert_at(s, key@, sig@, i as int);
            lemma_sorted_insert_sorted(s, key@, sig@, i as int);
        }
        let same = i < n && self.entries[i].key.eq(&key);
        let ghost e = (key@, sig@);
        if same {
            self.entries[i] = SigEntry { key, sig };
            assert(self@ =~= s.update(i as int, e));
        } else {
            self.entries.insert(i, SigEntry { key, sig });
            assert(self@ =~= s.insert(i as int, e));
        }
    }
}

} // verus!
