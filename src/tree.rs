use vstd::prelude::*;

use crate::merge::{find_entry, lookup};

verus! {

broadcast use {vstd::std_specs::vec::group_vec_axioms, vstd::seq::group_seq_axioms};

/// A JSON-shaped tree as held in memory. Numbers keep their decimal text;
/// an object is a list of entries in insertion order.
#[derive(Debug, PartialEq)]
pub enum Json {
    Null,
    Bool(bool),
    Number(String),
    Str(String),
    Array(Vec<Json>),
    Object(Vec<(String, Json)>),
}

/// The mathematical model of a [`Json`] tree.
pub enum Tree {
    Null,
    Bool(bool),
    Number(Seq<char>),
    Str(Seq<char>),
    Array(Seq<Tree>),
    Object(Seq<(Seq<char>, Tree)>),
}

impl View for Json {
    type V = Tree;

    open spec fn view(&self) -> Tree
        decreases self,
    {
        match self {
            Json::Null => Tree::Null,
            Json::Bool(b) => Tree::Bool(*b),
            Json::Number(n) => Tree::Number(n@),
            Json::Str(s) => Tree::Str(s@),
            Json::Array(xs) => Tree::Array(
                Seq::new(
                    xs@.len(),
                    |i: int|
                        if 0 <= i < xs@.len() {
                            xs@[i].view()
                        } else {
                            Tree::Null
                        },
                ),
            ),
            Json::Object(es) => Tree::Object(
                Seq::new(
                    es@.len(),
                    |i: int|
                        if 0 <= i < es@.len() {
                            (es@[i].0@, es@[i].1.view())
                        } else {
                            (Seq::empty(), Tree::Null)
                        },
                ),
            ),
        }
    }
}

} // verus!

verus! {

/// The model of a list of object entries.
pub open spec fn entries_model(es: Seq<(String, Json)>) -> Seq<(Seq<char>, Tree)> {
    Seq::new(es.len(), |i: int| (es[i].0@, es[i].1@))
}

/// The model of a list of array elements.
pub open spec fn items_model(xs: Seq<Json>) -> Seq<Tree> {
    Seq::new(xs.len(), |i: int| xs[i]@)
}

pub proof fn lemma_object_view(es: Vec<(String, Json)>)
    ensures
        Json::Object(es)@ == Tree::Object(entries_model(es@)),
{
    reveal_with_fuel(<Json as View>::view, 2);
    let m = Json::Object(es)@->Object_0;
    assert(m.len() == es@.len());
    assert forall|i: int| 0 <= i < m.len() implies m[i] == entries_model(es@)[i] by {}
    assert(m =~= entries_model(es@));
}

pub proof fn lemma_array_view(xs: Vec<Json>)
    ensures
        Json::Array(xs)@ == Tree::Array(items_model(xs@)),
{
    reveal_with_fuel(<Json as View>::view, 2);
    let m = Json::Array(xs)@->Array_0;
    assert(m.len() == xs@.len());
    assert forall|i: int| 0 <= i < m.len() implies m[i] == items_model(xs@)[i] by {}
    assert(m =~= items_model(xs@));
}

} // verus!

verus! {

impl Json {
    /// The value under `key` when this is an object that holds the key.
    pub fn get(&self, key: &str) -> (r: Option<&Json>)
        ensures
            match lookup(self@, key@) {
                Some(v) => r is Some && r->0@ == v,
                None => r is None,
            },
    {
        match self {
            Json::Object(es) => {
                proof {
                    lemma_object_view(*es);
                }
                let k = key.to_string();
                match find_entry(es, &k) {
                    Some(j) => Some(&es[j].1),
                    None => None,
                }
            },
            _ => None,
        }
    }

    /// A copy of the whole tree.
    pub fn deep_clone(&self) -> (r: Json)
        ensures
            r@ == self@,
        decreases self,
    {
        match self {
            Json::Null => Json::Null,
            Json::Bool(b) => Json::Bool(*b),
            Json::Number(n) => Json::Number(n.clone()),
            Json::Str(s) => Json::Str(s.clone()),
            Json::Array(xs) => {
                proof {
                    lemma_array_view(*xs);
                }
                let mut out: Vec<Json> = Vec::new();
                let mut i: usize = 0;
                while i < xs.len()
                    invariant
                        i <= xs.len(),
                        *self == Json::Array(*xs),
                        out@.len() == i,
                        items_model(out@) == items_model(xs@.subrange(0, i as int)),
                    decreases xs.len() - i,
                {
                    proof {
                        assert(decreases_to!(*self => self->Array_0));
                        assert(decreases_to!(*xs => xs@));
                        assert(decreases_to!(xs@ => xs@[i as int]));
                    }
                    let c = xs[i].deep_clone();
                    let ghost before = out@;
                    out.push(c);
                    assert forall|j: int| 0 <= j < i implies #[trigger] out@[j]@ == xs@[j]@ by {
                        assert(items_model(before)[j] == items_model(xs@.subrange(0, i as int))[j]);
                    }
                    assert(items_model(out@) =~= items_model(xs@.subrange(0, i + 1)));
                    i = i + 1;
                }
                assert(xs@.subrange(0, i as int) =~= xs@);
                proof {
                    lemma_array_view(out);
                }
                Json::Array(out)
            },
            Json::Object(es) => {
                proof {
                    lemma_object_view(*es);
                }
                let mut out: Vec<(String, Json)> = Vec::new();
                let mut i: usize = 0;
                while i < es.len()
                    invariant
                        i <= es.len(),
                        *self == Json::Object(*es),
                        out@.len() == i,
                        entries_model(out@) == entries_model(es@.subrange(0, i as int)),
                    decreases es.len() - i,
                {
                    proof {
                        assert(decreases_to!(*self => self->Object_0));
                        assert(decreases_to!(*es => es@));
                        assert(decreases_to!(es@ => es@[i as int]));
                        assert(decreases_to!(es@[i as int] => es@[i as int].1));
                    }
                    let c = es[i].1.deep_clone();
                    let k = es[i].0.clone();
                    let ghost before = out@;
                    out.push((k, c));
                    assert forall|j: int| 0 <= j < i implies #[trigger] out@[j].0@ == es@[j].0@
                        && out@[j].1@ == es@[j].1@ by {
                        assert(entries_model(before)[j] == entries_model(es@.subrange(0, i as int))[j]);
                    }
                    assert(entries_model(out@) =~= entries_model(es@.subrange(0, i + 1)));
                    i = i + 1;
                }
                assert(es@.subrange(0, i as int) =~= es@);
                proof {
                    lemma_object_view(out);
                }
                Json::Object(out)
            },
        }
    }
}

} // verus!
