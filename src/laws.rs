use vstd::prelude::*;

use crate::index::key_index;
use crate::merge::{
    entry_value, first_at, key_pos, lemma_first_at_unique, merge_prefix, merge_tree, put_entry, width,
};
use crate::tree::Tree;

verus! {

/// No two entries of an object share a key.
pub open spec fn keys_unique(es: Seq<(Seq<char>, Tree)>) -> bool {
    forall|i: int, j: int| 0 <= i < j < es.len() ==> #[trigger] es[i].0 != #[trigger] es[j].0
}

/// Whether some entry of `es` has key `k`.
pub open spec fn has_key(es: Seq<(Seq<char>, Tree)>, k: Seq<char>) -> bool {
    exists|i: int| 0 <= i < es.len() && #[trigger] es[i].0 == k
}

proof fn lemma_key_pos_present(es: Seq<(Seq<char>, Tree)>, k: Seq<char>)
    ensures
        has_key(es, k) <==> key_pos(es, k) >= 0,
        key_pos(es, k) >= 0 ==> first_at(es, k, key_pos(es, k)),
        key_pos(es, k) < es.len(),
    decreases es.len(),
{
    if has_key(es, k) {
        let i = choose|i: int| 0 <= i < es.len() && #[trigger] es[i].0 == k;
        lemma_least_key(es, k, i);
    } else {
        if exists|j: int| first_at(es, k, j) {
            let j = choose|j: int| first_at(es, k, j);
            assert(es[j].0 == k);
        }
    }
}

proof fn lemma_least_key(es: Seq<(Seq<char>, Tree)>, k: Seq<char>, i: int)
    requires
        0 <= i < es.len(),
        es[i].0 == k,
    ensures
        exists|j: int| first_at(es, k, j),
    decreases i,
{
    if forall|t: int| 0 <= t < i ==> #[trigger] es[t].0 != k {
        assert(first_at(es, k, i));
    } else {
        let t = choose|t: int| 0 <= t < i && #[trigger] es[t].0 != k == false;
        lemma_least_key(es, k, t);
    }
}

/// Setting one key leaves the position and value of every other key as they were.
proof fn lemma_put_other(es: Seq<(Seq<char>, Tree)>, k1: Seq<char>, v: Tree, k: Seq<char>)
    requires
        k1 != k,
    ensures
        key_pos(put_entry(es, k1, v), k) == key_pos(es, k),
        entry_value(put_entry(es, k1, v), k) == entry_value(es, k),
{
    let ns = put_entry(es, k1, v);
    lemma_key_pos_present(es, k1);
    lemma_key_pos_present(es, k);
    assert forall|t: int| 0 <= t < es.len() implies #[trigger] ns[t].0 == es[t].0 by {}
    if key_pos(es, k) >= 0 {
        let j = key_pos(es, k);
        assert(first_at(ns, k, j));
        lemma_first_at_unique(ns, k, j);
    } else {
        lemma_key_pos_present(ns, k);
        if key_pos(ns, k) >= 0 {
            let j = key_pos(ns, k);
            assert(ns[j].0 == k);
            assert(es[j].0 == k);
            assert(has_key(es, k));
        }
    }
}

/// Setting a key makes it present with the value given.
proof fn lemma_put_same(es: Seq<(Seq<char>, Tree)>, k: Seq<char>, v: Tree)
    ensures
        key_pos(put_entry(es, k, v), k) >= 0,
        entry_value(put_entry(es, k, v), k) == v,
{
    let ns = put_entry(es, k, v);
    lemma_key_pos_present(es, k);
    if key_pos(es, k) >= 0 {
        let j = key_pos(es, k);
        assert(first_at(ns, k, j));
        lemma_first_at_unique(ns, k, j);
    } else {
        let j = es.len() as int;
        assert(!has_key(es, k));
        assert forall|t: int| 0 <= t < j implies #[trigger] ns[t].0 != k by {
            assert(ns[t] == es[t]);
        }
        assert(first_at(ns, k, j));
        lemma_first_at_unique(ns, k, j);
    }
}

proof fn lemma_untouched_prefix(ea: Seq<(Seq<char>, Tree)>, eb: Seq<(Seq<char>, Tree)>, k: Seq<char>, n: nat)
    requires
        n <= eb.len(),
        forall|i: int| 0 <= i < eb.len() ==> #[trigger] eb[i].0 != k,
    ensures
        merge_prefix(Tree::Object(ea), Tree::Object(eb), n) is Object,
        key_pos(merge_prefix(Tree::Object(ea), Tree::Object(eb), n)->Object_0, k) == key_pos(ea, k),
        entry_value(merge_prefix(Tree::Object(ea), Tree::Object(eb), n)->Object_0, k) == entry_value(ea, k),
    decreases n,
{
    if n > 0 {
        lemma_untouched_prefix(ea, eb, k, (n - 1) as nat);
        let ep = merge_prefix(Tree::Object(ea), Tree::Object(eb), (n - 1) as nat)->Object_0;
        let k1 = eb[n - 1].0;
        let v = eb[n - 1].1;
        assert(k1 != k);
        lemma_put_other(ep, k1, merge_prefix(entry_value(ep, k1), v, width(v)), k);
    }
}

/// Merging an object patch into an object keeps every key that the patch does
/// not name, at its place and with its value.
pub proof fn lemma_merge_keeps_untouched_keys(
    ea: Seq<(Seq<char>, Tree)>,
    eb: Seq<(Seq<char>, Tree)>,
    k: Seq<char>,
)
    requires
        !has_key(eb, k),
    ensures
        merge_tree(Tree::Object(ea), Tree::Object(eb)) is Object,
        key_pos(merge_tree(Tree::Object(ea), Tree::Object(eb))->Object_0, k) == key_pos(ea, k),
        entry_value(merge_tree(Tree::Object(ea), Tree::Object(eb))->Object_0, k) == entry_value(ea, k),
{
    assert forall|i: int| 0 <= i < eb.len() implies #[trigger] eb[i].0 != k by {
        if eb[i].0 == k {
            assert(has_key(eb, k));
        }
    }
    lemma_untouched_prefix(ea, eb, k, eb.len());
}

proof fn lemma_put_keeps_unique(es: Seq<(Seq<char>, Tree)>, k: Seq<char>, v: Tree)
    requires
        keys_unique(es),
    ensures
        keys_unique(put_entry(es, k, v)),
{
    let ns = put_entry(es, k, v);
    lemma_key_pos_present(es, k);
    if key_pos(es, k) >= 0 {
        assert forall|i: int| 0 <= i < es.len() implies #[trigger] ns[i].0 == es[i].0 by {}
        assert forall|i: int, j: int| 0 <= i < j < ns.len() implies #[trigger] ns[i].0 != #[trigger] ns[j].0 by {
            assert(es[i].0 != es[j].0);
        }
    } else {
        assert forall|i: int, j: int| 0 <= i < j < ns.len() implies #[trigger] ns[i].0 != #[trigger] ns[j].0 by {
            if j == es.len() {
                assert(ns[i] == es[i]);
                if es[i].0 == k {
                    assert(has_key(es, k));
                }
            } else {
                assert(ns[i] == es[i] && ns[j] == es[j]);
            }
        }
    }
}

proof fn lemma_unique_prefix(ea: Seq<(Seq<char>, Tree)>, eb: Seq<(Seq<char>, Tree)>, n: nat)
    requires
        n <= eb.len(),
        keys_unique(ea),
    ensures
        merge_prefix(Tree::Object(ea), Tree::Object(eb), n) is Object,
        keys_unique(merge_prefix(Tree::Object(ea), Tree::Object(eb), n)->Object_0),
    decreases n,
{
    if n > 0 {
        lemma_unique_prefix(ea, eb, (n - 1) as nat);
        let ep = merge_prefix(Tree::Object(ea), Tree::Object(eb), (n - 1) as nat)->Object_0;
        let k1 = eb[n - 1].0;
        let v = eb[n - 1].1;
        lemma_put_keeps_unique(ep, k1, merge_prefix(entry_value(ep, k1), v, width(v)));
    }
}

/// Merging an object patch into an object whose keys are distinct leaves an
/// object whose keys are distinct: a key already there is updated in place,
/// a new one is added once.
pub proof fn lemma_merge_keeps_keys_unique(ea: Seq<(Seq<char>, Tree)>, eb: Seq<(Seq<char>, Tree)>)
    requires
        keys_unique(ea),
    ensures
        merge_tree(Tree::Object(ea), Tree::Object(eb)) is Object,
        keys_unique(merge_tree(Tree::Object(ea), Tree::Object(eb))->Object_0),
{
    lemma_unique_prefix(ea, eb, eb.len());
}

/// Every value of the object is a leaf or an array, so it replaces what it meets.
pub open spec fn replaces_leaves(eb: Seq<(Seq<char>, Tree)>) -> bool {
    forall|i: int| 0 <= i < eb.len() ==> !(#[trigger] eb[i].1 is Object)
}

/// Each of the first `n` keys of `eb` is present in `x` with its value in `eb`.
pub open spec fn holds_entries(x: Seq<(Seq<char>, Tree)>, eb: Seq<(Seq<char>, Tree)>, n: nat) -> bool {
    forall|i: int|
        0 <= i < n ==> key_pos(x, #[trigger] eb[i].0) >= 0 && entry_value(x, eb[i].0) == eb[i].1
}

proof fn lemma_leaf_prefix(ea: Seq<(Seq<char>, Tree)>, eb: Seq<(Seq<char>, Tree)>, n: nat)
    requires
        n <= eb.len(),
        keys_unique(eb),
        replaces_leaves(eb),
    ensures
        merge_prefix(Tree::Object(ea), Tree::Object(eb), n) is Object,
        holds_entries(merge_prefix(Tree::Object(ea), Tree::Object(eb), n)->Object_0, eb, n),
    decreases n,
{
    if n > 0 {
        lemma_leaf_prefix(ea, eb, (n - 1) as nat);
        let ep = merge_prefix(Tree::Object(ea), Tree::Object(eb), (n - 1) as nat)->Object_0;
        let k1 = eb[n - 1].0;
        let v = eb[n - 1].1;
        assert(!(v is Object));
        let nv = merge_prefix(entry_value(ep, k1), v, width(v));
        assert(nv == v);
        lemma_put_same(ep, k1, nv);
        let eq = put_entry(ep, k1, nv);
        assert forall|i: int| 0 <= i < n - 1 implies key_pos(eq, #[trigger] eb[i].0) >= 0
            && entry_value(eq, eb[i].0) == eb[i].1 by {
            assert(eb[i].0 != eb[n - 1].0);
            lemma_put_other(ep, k1, nv, eb[i].0);
        }
    }
}

proof fn lemma_leaf_again(x: Seq<(Seq<char>, Tree)>, eb: Seq<(Seq<char>, Tree)>, m: nat)
    requires
        m <= eb.len(),
        replaces_leaves(eb),
        holds_entries(x, eb, eb.len()),
    ensures
        merge_prefix(Tree::Object(x), Tree::Object(eb), m) == Tree::Object(x),
    decreases m,
{
    if m > 0 {
        lemma_leaf_again(x, eb, (m - 1) as nat);
        let k1 = eb[m - 1].0;
        let v = eb[m - 1].1;
        assert(!(v is Object));
        assert(key_pos(x, k1) >= 0 && entry_value(x, k1) == v);
        lemma_key_pos_present(x, k1);
        assert(merge_prefix(entry_value(x, k1), v, width(v)) == v);
        assert(put_entry(x, k1, v) =~= x);
    }
}

/// Applying the same object patch twice, when its keys are distinct and each
/// of its values replaces what it meets, gives the same tree as applying it once.
pub proof fn lemma_leaf_patch_idempotent(ea: Seq<(Seq<char>, Tree)>, eb: Seq<(Seq<char>, Tree)>)
    requires
        keys_unique(eb),
        replaces_leaves(eb),
    ensures
        merge_tree(merge_tree(Tree::Object(ea), Tree::Object(eb)), Tree::Object(eb))
            == merge_tree(Tree::Object(ea), Tree::Object(eb)),
{
    lemma_leaf_prefix(ea, eb, eb.len());
    let x = merge_tree(Tree::Object(ea), Tree::Object(eb))->Object_0;
    lemma_leaf_again(x, eb, eb.len());
}

/// An object patch with a single entry, as an array meets it: an index within
/// bounds merges into that element, an index equal to the length appends the
/// value (the array grows by one), and any other key leaves the array as it is.
pub proof fn lemma_array_single_entry(xs: Seq<Tree>, k: Seq<char>, v: Tree)
    ensures
        ({
            let r = merge_tree(Tree::Array(xs), Tree::Object(seq![(k, v)]));
            match key_index(k) {
                Some(i) => if i < xs.len() {
                    r == Tree::Array(xs.update(i as int, merge_tree(xs[i as int], v)))
                } else if i == xs.len() {
                    r == Tree::Array(xs.push(v)) && r->Array_0.len() == xs.len() + 1
                } else {
                    r == Tree::Array(xs)
                },
                None => r == Tree::Array(xs),
            }
        }),
{
    let b = Tree::Object(seq![(k, v)]);
    assert(merge_prefix(Tree::Array(xs), b, 0) == Tree::Array(xs));
}

/// Applying an append patch a second time does not append again: the index it
/// names now lies within bounds, so the value merges into the element that the
/// first application appended.
pub proof fn lemma_append_reapplied(xs: Seq<Tree>, k: Seq<char>, v: Tree)
    requires
        key_index(k) == Some(xs.len()),
    ensures
        merge_tree(
            merge_tree(Tree::Array(xs), Tree::Object(seq![(k, v)])),
            Tree::Object(seq![(k, v)]),
        ) == Tree::Array(xs.push(merge_tree(v, v))),
{
    lemma_array_single_entry(xs, k, v);
    lemma_array_single_entry(xs.push(v), k, v);
    assert(xs.push(v).update(xs.len() as int, merge_tree(v, v)) =~= xs.push(merge_tree(v, v)));
}

} // verus!
