use vstd::prelude::*;

use crate::merge::lookup;
use crate::tree::{entries_model, items_model, lemma_object_view, Json, Tree};

verus! {

broadcast use {vstd::std_specs::vec::group_vec_axioms, vstd::seq::group_seq_axioms};

/// The values of an object's entries that are themselves objects, in order.
pub open spec fn object_members(es: Seq<(Seq<char>, Tree)>) -> Seq<Tree>
    decreases es.len(),
{
    if es.len() == 0 {
        Seq::empty()
    } else if es.last().1 is Object {
        object_members(es.drop_last()).push(es.last().1)
    } else {
        object_members(es.drop_last())
    }
}

/// The object members of a tree; nothing for a tree that is no object.
pub open spec fn members_model(t: Tree) -> Seq<Tree> {
    match t {
        Tree::Object(es) => object_members(es),
        _ => Seq::empty(),
    }
}

/// The values of `value`'s entries that are objects, in order.
pub fn map_to_vec(value: Json) -> (r: Vec<Json>)
    ensures
        items_model(r@) == members_model(value@),
{
    match value {
        Json::Object(es) => {
            proof {
                lemma_object_view(es);
            }
            let ghost e0 = entries_model(es@);
            let mut rest = es;
            let mut out: Vec<Json> = Vec::new();
            let mut t: usize = 0;
            let n = rest.len();
            assert(e0.subrange(0, 0) =~= Seq::<(Seq<char>, Tree)>::empty());
            while rest.len() > 0
                invariant
                    e0.len() == n,
                    t + rest@.len() == n,
                    entries_model(rest@) == e0.subrange(t as int, n as int),
                    items_model(out@) == object_members(e0.subrange(0, t as int)),
                decreases rest.len(),
            {
                let ghost r0 = rest@;
                let (k, v) = rest.remove(0);
                assert(entries_model(r0)[0] == e0.subrange(t as int, n as int)[0]);
                assert(entries_model(rest@) =~= e0.subrange(t + 1, n as int)) by {
                    assert forall|j: int| 0 <= j < rest@.len() implies #[trigger] entries_model(rest@)[j]
                        == e0.subrange(t + 1, n as int)[j] by {
                        assert(rest@[j] == r0[j + 1]);
                        assert(entries_model(r0)[j + 1] == e0.subrange(t as int, n as int)[j + 1]);
                    }
                }
                assert(e0.subrange(0, t + 1).drop_last() =~= e0.subrange(0, t as int));
                let is_obj = match &v {
                    Json::Object(_) => true,
                    _ => false,
                };
                if is_obj {
                    let ghost before = out@;
                    out.push(v);
                    assert(items_model(out@) =~= items_model(before).push(v@));
                }
                t = t + 1;
            }
            assert(e0.subrange(0, n as int) =~= e0);
            out
        },
        _ => {
            assert(items_model(Seq::<Json>::empty()) =~= Seq::empty());
            Vec::new()
        },
    }
}

/// The driver objects listed under the driver-list topic of the state;
/// `None` when the state holds no such topic.
pub fn drivers(state: &Json) -> (r: Option<Vec<Json>>)
    ensures
        match lookup(state@, "DriverList"@) {
            Some(d) => r is Some && items_model(r->0@) == members_model(d),
            None => r is None,
        },
{
    match state.get("DriverList") {
        Some(d) => Some(map_to_vec(d.deep_clone())),
        None => None,
    }
}

} // verus!
