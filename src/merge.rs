use vstd::prelude::*;

use crate::index::{key_index, parse_index};
use crate::tree::{entries_model, items_model, lemma_array_view, lemma_object_view, Json, Tree};

verus! {

broadcast use {vstd::std_specs::vec::group_vec_axioms, vstd::seq::group_seq_axioms};

/// Position of the first entry with key `k`, if there is one.
pub open spec fn first_at(es: Seq<(Seq<char>, Tree)>, k: Seq<char>, j: int) -> bool {
    &&& 0 <= j < es.len()
    &&& es[j].0 == k
    &&& forall|t: int| 0 <= t < j ==> #[trigger] es[t].0 != k
}

/// Index of the first entry with key `k`, or -1 when the key is absent.
pub open spec fn key_pos(es: Seq<(Seq<char>, Tree)>, k: Seq<char>) -> int {
    if exists|j: int| first_at(es, k, j) {
        choose|j: int| first_at(es, k, j)
    } else {
        -1
    }
}

/// The value under key `k`, or null when the key is absent.
pub open spec fn entry_value(es: Seq<(Seq<char>, Tree)>, k: Seq<char>) -> Tree {
    let j = key_pos(es, k);
    if j >= 0 {
        es[j].1
    } else {
        Tree::Null
    }
}

/// The value under key `k` of an object tree; `None` for a missing key or a non-object.
pub open spec fn lookup(t: Tree, k: Seq<char>) -> Option<Tree> {
    match t {
        Tree::Object(es) => if key_pos(es, k) >= 0 {
            Some(es[key_pos(es, k)].1)
        } else {
            None
        },
        _ => None,
    }
}

/// Sets the value under key `k`: in place when present, as a new last entry otherwise.
pub open spec fn put_entry(es: Seq<(Seq<char>, Tree)>, k: Seq<char>, v: Tree) -> Seq<(Seq<char>, Tree)> {
    let j = key_pos(es, k);
    if j >= 0 {
        es.update(j, (k, v))
    } else {
        es.push((k, v))
    }
}

pub open spec fn is_container(t: Tree) -> bool {
    t is Object || t is Array
}

/// Number of entries of an incoming object; nothing else is merged entry by entry.
pub open spec fn width(b: Tree) -> nat {
    match b {
        Tree::Object(es) => es.len(),
        _ => 0,
    }
}

/// The tree that results from merging the first `n` entries of the object `b`
/// into `a`. Objects merge key by key and arrays index by index; any other
/// pairing lets `b` replace `a`.
pub open spec fn merge_prefix(a: Tree, b: Tree, n: nat) -> Tree
    decreases b, n,
{
    match b {
        Tree::Object(eb) => {
            if !is_container(a) {
                b
            } else if n == 0 || n > eb.len() {
                a
            } else {
                let prev = merge_prefix(a, b, (n - 1) as nat);
                let k = eb[n - 1].0;
                let v = eb[n - 1].1;
                match prev {
                    Tree::Object(ep) => Tree::Object(
                        put_entry(ep, k, merge_prefix(entry_value(ep, k), v, width(v))),
                    ),
                    Tree::Array(xs) => match key_index(k) {
                        Some(i) => if i < xs.len() {
                            Tree::Array(xs.update(i as int, merge_prefix(xs[i as int], v, width(v))))
                        } else if i == xs.len() {
                            Tree::Array(xs.push(v))
                        } else {
                            prev
                        },
                        None => prev,
                    },
                    _ => prev,
                }
            }
        },
        _ => b,
    }
}

/// The result of merging the patch `b` into the tree `a`.
pub open spec fn merge_tree(a: Tree, b: Tree) -> Tree {
    merge_prefix(a, b, width(b))
}

/// Only one position is the first with a given key.
pub proof fn lemma_first_at_unique(es: Seq<(Seq<char>, Tree)>, k: Seq<char>, j: int)
    requires
        first_at(es, k, j),
    ensures
        key_pos(es, k) == j,
{
    let c = choose|c: int| first_at(es, k, c);
    if c < j {
        assert(es[c].0 != k);
    } else if j < c {
        assert(es[j].0 != k);
    }
}

/// Finds the first entry whose key is `k`.
pub(crate) fn find_entry(es: &Vec<(String, Json)>, k: &String) -> (r: Option<usize>)
    ensures
        match r {
            Some(j) => key_pos(entries_model(es@), k@) == j as int,
            None => key_pos(entries_model(es@), k@) == -1,
        },
{
    let ghost m = entries_model(es@);
    let mut i: usize = 0;
    while i < es.len()
        invariant
            i <= es.len(),
            m == entries_model(es@),
            forall|t: int| 0 <= t < i ==> #[trigger] m[t].0 != k@,
        decreases es.len() - i,
    {
        if es[i].0 == *k {
            proof {
                lemma_first_at_unique(m, k@, i as int);
            }
            return Some(i);
        }
        i = i + 1;
    }
    proof {
        if exists|j: int| first_at(m, k@, j) {
            let j = choose|j: int| first_at(m, k@, j);
            assert(m[j].0 != k@);
        }
    }
    None
}

/// Merges the patch `b` into `a` and returns the result.
fn merged(a: Json, b: Json) -> (r: Json)
    ensures
        r@ == merge_tree(a@, b@),
    decreases b,
{
    let ghost am = a@;
    let ghost bm = b@;
    let ghost gb = b;
    match b {
        Json::Object(eb) => {
            let ghost eb0 = eb@;
            proof {
                lemma_object_view(eb);
            }
            match a {
                Json::Object(ea) => {
                    proof {
                        lemma_object_view(ea);
                    }
                    let mut es = ea;
                    let mut rest = eb;
                    let mut t: usize = 0;
                    let n = rest.len();
                    assert(eb0.len() == n);
                    while rest.len() > 0
                        invariant
                            t + rest.len() == eb0.len(),
                            eb0.len() <= usize::MAX,
                            rest@ == eb0.subrange(t as int, eb0.len() as int),
                            gb == b,
                            gb == Json::Object(eb),
                            eb0 == eb@,
                            bm == Tree::Object(entries_model(eb0)),
                            is_container(am),
                            Tree::Object(entries_model(es@)) == merge_prefix(am, bm, t as nat),
                        decreases rest.len(),
                    {
                        let (k, v) = rest.remove(0);
                        assert(eb0[t as int] == (k, v));
                        proof {
                            assert(decreases_to!(gb => gb->Object_0));
                            assert(decreases_to!(eb => eb@));
                            assert(decreases_to!(eb@ => eb@[t as int]));
                            assert(decreases_to!(eb@[t as int] => eb@[t as int].1));
                            assert(decreases_to!(gb => v));
                        }
                        let ghost before = entries_model(es@);
                        match find_entry(&es, &k) {
                            Some(j) => {
                                let (k0, old_v) = es.remove(j);
                                let nv = merged(old_v, v);
                                es.insert(j, (k0, nv));
                                assert(entries_model(es@) =~= put_entry(before, k@, nv@));
                            },
                            None => {
                                let nv = merged(Json::Null, v);
                                es.push((k, nv));
                                assert(entries_model(es@) =~= put_entry(before, k@, nv@));
                            },
                        }
                        t = t + 1;
                    }
                    proof {
                        lemma_object_view(es);
                    }
                    Json::Object(es)
                },
                Json::Array(xa) => {
                    proof {
                        lemma_array_view(xa);
                    }
                    let mut xs = xa;
                    let mut rest = eb;
                    let mut t: usize = 0;
                    let n = rest.len();
                    assert(eb0.len() == n);
                    while rest.len() > 0
                        invariant
                            t + rest.len() == eb0.len(),
                            eb0.len() <= usize::MAX,
                            rest@ == eb0.subrange(t as int, eb0.len() as int),
                            gb == b,
                            gb == Json::Object(eb),
                            eb0 == eb@,
                            bm == Tree::Object(entries_model(eb0)),
                            is_container(am),
                            Tree::Array(items_model(xs@)) == merge_prefix(am, bm, t as nat),
                        decreases rest.len(),
                    {
                        let (k, v) = rest.remove(0);
                        assert(eb0[t as int] == (k, v));
                        proof {
                            assert(decreases_to!(gb => gb->Object_0));
                            assert(decreases_to!(eb => eb@));
                            assert(decreases_to!(eb@ => eb@[t as int]));
                            assert(decreases_to!(eb@[t as int] => eb@[t as int].1));
                            assert(decreases_to!(gb => v));
                        }
                        let ghost before = items_model(xs@);
                        match parse_index(k.as_str()) {
                            Some(i) => {
                                if i < xs.len() {
                                    let old_x = xs.remove(i);
                                    let nx = merged(old_x, v);
                                    xs.insert(i, nx);
                                    assert(items_model(xs@) =~= before.update(i as int, nx@));
                                } else if i == xs.len() {
                                    xs.push(v);
                                    assert(items_model(xs@) =~= before.push(v@));
                                }
                            },
                            None => {},
                        }
                        t = t + 1;
                    }
                    proof {
                        lemma_array_view(xs);
                    }
                    Json::Array(xs)
                },
                _ => Json::Object(eb),
            }
        },
        _ => b,
    }
}

/// Merges `update` into `base` in place.
pub fn merge(base: &mut Json, update: Json)
    ensures
        final(base)@ == merge_tree(old(base)@, update@),
{
    let mut a = Json::Null;
    std::mem::swap(&mut a, base);
    *base = merged(a, update);
}

} // verus!
