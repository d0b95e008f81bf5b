//! Maps kept as lists of `(key, value)` pairs in strictly ascending key
//! order, the way a `BTreeMap<String, _>` holds and iterates them: what a
//! lookup finds, and how inserting, replacing or removing one entry keeps the
//! order.

use vstd::prelude::*;

use crate::strset::ascending;
use crate::text::{lemma_seq_lt_irreflexive, lemma_seq_lt_transitive, seq_lt};

verus! {

/// The keys, in order.
pub open spec fn names_of<V>(e: Seq<(Seq<char>, V)>) -> Seq<Seq<char>> {
    e.map_values(|p: (Seq<char>, V)| p.0)
}

/// The value kept under `key`.
pub open spec fn lookup<V>(e: Seq<(Seq<char>, V)>, name: Seq<char>) -> Option<V> {
    if exists|i: int| #[trigger] named_at(e, name, i) {
        Some(e[choose|i: int| #[trigger] named_at(e, name, i)].1)
    } else {
        None
    }
}

/// Position `i` holds `name`.
pub open spec fn named_at<V>(e: Seq<(Seq<char>, V)>, name: Seq<char>, i: int) -> bool {
    0 <= i < e.len() && e[i].0 == name
}

pub(crate) proof fn lemma_lookup_at<V>(e: Seq<(Seq<char>, V)>, i: int)
    requires
        ascending(names_of(e)),
        0 <= i < e.len(),
    ensures
        lookup(e, e[i].0) == Some(e[i].1),
{
    let k = e[i].0;
    assert(named_at(e, k, i));
    let j = choose|j: int| #[trigger] named_at(e, k, j);
    assert(0 <= j < e.len() && e[j].0 == k);
    if j != i {
        lemma_seq_lt_irreflexive(k);
        assert(names_of(e)[i] == k);
        assert(names_of(e)[j] == k);
        if i < j {
            assert(seq_lt(names_of(e)[i], names_of(e)[j]));
        } else {
            assert(seq_lt(names_of(e)[j], names_of(e)[i]));
        }
        assert(false);
    }
    assert(lookup(e, k) == Some(e[j].1));
}

pub(crate) proof fn lemma_lookup_none<V>(e: Seq<(Seq<char>, V)>, name: Seq<char>)
    requires
        forall|i: int| 0 <= i < e.len() ==> #[trigger] e[i].0 != name,
    ensures
        lookup(e, name) is None,
{
    assert(!exists|i: int| #[trigger] named_at(e, name, i));
}

pub(crate) proof fn lemma_lookup_same_keys<V>(e: Seq<(Seq<char>, V)>, f: Seq<(Seq<char>, V)>, name: Seq<char>)
    requires
        ascending(names_of(e)),
        ascending(names_of(f)),
        forall|i: int| 0 <= i < e.len() && #[trigger] e[i].0 == name ==> exists|j: int| 0 <= j < f.len() && #[trigger] f[j] == e[i],
        forall|j: int| 0 <= j < f.len() && #[trigger] f[j].0 == name ==> exists|i: int| 0 <= i < e.len() && #[trigger] e[i] == f[j],
    ensures
        lookup(f, name) == lookup(e, name),
{
    if exists|i: int| #[trigger] named_at(e, name, i) {
        let i = choose|i: int| #[trigger] named_at(e, name, i);
        lemma_lookup_at(e, i);
        let j = choose|j: int| 0 <= j < f.len() && #[trigger] f[j] == e[i];
        lemma_lookup_at(f, j);
    } else if exists|j: int| #[trigger] named_at(f, name, j) {
        let j = choose|j: int| #[trigger] named_at(f, name, j);
        let i = choose|i: int| 0 <= i < e.len() && #[trigger] e[i] == f[j];
        assert(named_at(e, name, i));
    }
}

pub(crate) proof fn lemma_insert_at<V>(e: Seq<(Seq<char>, V)>, pos: int, name: Seq<char>, cv: V)
    requires
        ascending(names_of(e)),
        0 <= pos <= e.len(),
        forall|i: int| 0 <= i < pos ==> seq_lt(#[trigger] e[i].0, name),
        pos < e.len() ==> seq_lt(name, e[pos].0),
    ensures
        ascending(names_of(e.insert(pos, (name, cv)))),
        forall|k: Seq<char>| #[trigger] lookup(e.insert(pos, (name, cv)), k) == if k == name {
            Some(cv)
        } else {
            lookup(e, k)
        },
{
    let f = e.insert(pos, (name, cv));
    let ns = names_of(e);
    let fs = names_of(f);
    assert forall|i: int, j: int| 0 <= i < j < fs.len() implies seq_lt(#[trigger] fs[i], #[trigger] fs[j]) by {
        if j < pos {
            assert(fs[i] == ns[i] && fs[j] == ns[j]);
        } else if j == pos {
            assert(fs[i] == ns[i]);
        } else if i < pos {
            assert(fs[i] == ns[i] && fs[j] == ns[j - 1]);
            assert(seq_lt(ns[i], name));
            if pos < j - 1 {
                assert(seq_lt(ns[pos], ns[j - 1]));
                lemma_seq_lt_transitive(name, ns[pos], ns[j - 1]);
            }
            lemma_seq_lt_transitive(ns[i], name, ns[j - 1]);
        } else if i == pos {
            assert(fs[j] == ns[j - 1]);
            if pos < j - 1 {
                assert(seq_lt(ns[pos], ns[j - 1]));
                lemma_seq_lt_transitive(name, ns[pos], ns[j - 1]);
            }
        } else {
            assert(fs[i] == ns[i - 1] && fs[j] == ns[j - 1]);
        }
    }
    assert forall|k: Seq<char>| #[trigger] lookup(f, k) == if k == name { Some(cv) } else { lookup(e, k) } by {
        if k == name {
            assert(f[pos] == (name, cv));
            lemma_lookup_at(f, pos);
        } else {
            assert forall|i: int| 0 <= i < e.len() && #[trigger] e[i].0 == k implies exists|j: int| 0 <= j < f.len() && #[trigger] f[j] == e[i] by {
                if i < pos {
                    assert(f[i] == e[i]);
                } else {
                    assert(f[i + 1] == e[i]);
                }
            }
            assert forall|j: int| 0 <= j < f.len() && #[trigger] f[j].0 == k implies exists|i: int| 0 <= i < e.len() && #[trigger] e[i] == f[j] by {
                if j < pos {
                    assert(f[j] == e[j]);
                } else if j > pos {
                    assert(f[j] == e[j - 1]);
                }
            }
            lemma_lookup_same_keys(e, f, k);
        }
    }
}

pub(crate) proof fn lemma_update_at<V>(e: Seq<(Seq<char>, V)>, pos: int, cv: V)
    requires
        ascending(names_of(e)),
        0 <= pos < e.len(),
    ensures
        ascending(names_of(e.update(pos, (e[pos].0, cv)))),
        forall|k: Seq<char>| #[trigger] lookup(e.update(pos, (e[pos].0, cv)), k) == if k == e[pos].0 {
            Some(cv)
        } else {
            lookup(e, k)
        },
{
    let name = e[pos].0;
    let f = e.update(pos, (name, cv));
    assert(names_of(f) =~= names_of(e));
    assert forall|k: Seq<char>| #[trigger] lookup(f, k) == if k == name { Some(cv) } else { lookup(e, k) } by {
        if k == name {
            lemma_lookup_at(f, pos);
        } else {
            assert forall|i: int| 0 <= i < e.len() && #[trigger] e[i].0 == k implies exists|j: int| 0 <= j < f.len() && #[trigger] f[j] == e[i] by {
                assert(f[i] == e[i]);
            }
            assert forall|j: int| 0 <= j < f.len() && #[trigger] f[j].0 == k implies exists|i: int| 0 <= i < e.len() && #[trigger] e[i] == f[j] by {
                assert(f[j] == e[j]);
            }
            lemma_lookup_same_keys(e, f, k);
        }
    }
}

pub(crate) proof fn lemma_remove_at<V>(e: Seq<(Seq<char>, V)>, pos: int)
    requires
        ascending(names_of(e)),
        0 <= pos < e.len(),
    ensures
        ascending(names_of(e.remove(pos))),
        forall|k: Seq<char>| #[trigger] lookup(e.remove(pos), k) == if k == e[pos].0 {
            None
        } else {
            lookup(e, k)
        },
{
    let name = e[pos].0;
    let f = e.remove(pos);
    let ns = names_of(e);
    let fs = names_of(f);
    assert forall|i: int, j: int| 0 <= i < j < fs.len() implies seq_lt(#[trigger] fs[i], #[trigger] fs[j]) by {
        let a = if i < pos { i } else { i + 1 };
        let b = if j < pos { j } else { j + 1 };
        assert(fs[i] == ns[a] && fs[j] == ns[b]);
    }
    assert forall|k: Seq<char>| #[trigger] lookup(f, k) == if k == name { None } else { lookup(e, k) } by {
        if k == name {
            assert forall|j: int| 0 <= j < f.len() implies #[trigger] f[j].0 != k by {
                let b = if j < pos { j } else { j + 1 };
                assert(f[j] == e[b]);
                lemma_seq_lt_irreflexive(name);
                if b < pos {
                    assert(seq_lt(ns[b], ns[pos]));
                } else {
                    assert(seq_lt(ns[pos], ns[b]));
                }
            }
            lemma_lookup_none(f, k);
        } else {
            assert forall|i: int| 0 <= i < e.len() && #[trigger] e[i].0 == k implies exists|j: int| 0 <= j < f.len() && #[trigger] f[j] == e[i] by {
                if i < pos {
                    assert(f[i] == e[i]);
                } else {
                    assert(i != pos);
                    assert(f[i - 1] == e[i]);
                }
            }
            assert forall|j: int| 0 <= j < f.len() && #[trigger] f[j].0 == k implies exists|i: int| 0 <= i < e.len() && #[trigger] e[i] == f[j] by {
                if j < pos {
                    assert(f[j] == e[j]);
                } else {
                    assert(f[j] == e[j + 1]);
                }
            }
            lemma_lookup_same_keys(e, f, k);
        }
    }
}

} // verus!
