use vstd::prelude::*;

use crate::merge::{merge, merge_tree};
use crate::tree::{entries_model, lemma_object_view, Json, Tree};

verus! {

/// The canonical state: one tree, replaced wholesale or merged into.
pub struct StateService {
    state: Json,
}

impl View for StateService {
    type V = Tree;

    closed spec fn view(&self) -> Tree {
        self.state@
    }
}

/// The patch that carries `data` for `topic`: a one-entry object.
pub open spec fn topic_patch(topic: Seq<char>, data: Tree) -> Tree {
    Tree::Object(seq![(topic, data)])
}

impl StateService {
    /// An empty object as the initial state.
    pub fn new() -> (r: StateService)
        ensures
            r@ == Tree::Object(Seq::empty()),
    {
        let es: Vec<(String, Json)> = Vec::new();
        proof {
            lemma_object_view(es);
            assert(entries_model(es@) =~= Seq::empty());
        }
        StateService { state: Json::Object(es) }
    }

    /// A copy of the current state.
    pub fn get_state(&self) -> (r: Json)
        ensures
            r@ == self@,
    {
        self.state.deep_clone()
    }

    /// Replaces the whole state.
    pub fn set_state(&mut self, new_state: Json)
        ensures
            final(self)@ == new_state@,
    {
        self.state = new_state;
    }

    /// Merges `update` into the state.
    pub fn update_state(&mut self, update: Json)
        ensures
            final(self)@ == merge_tree(old(self)@, update@),
    {
        merge(&mut self.state, update);
    }

    /// Merges `delta` into the state under `topic` and returns the patch
    /// that was applied, for publishing.
    pub fn apply(&mut self, topic: String, delta: Json) -> (patch: Json)
        ensures
            patch@ == topic_patch(topic@, delta@),
            final(self)@ == merge_tree(old(self)@, patch@),
    {
        let p = make_patch(topic, delta);
        let copy = p.deep_clone();
        self.update_state(copy);
        p
    }
}

/// The one-entry object `{topic: data}`.
pub fn make_patch(topic: String, data: Json) -> (r: Json)
    ensures
        r@ == topic_patch(topic@, data@),
{
    let mut es: Vec<(String, Json)> = Vec::new();
    es.push((topic, data));
    proof {
        lemma_object_view(es);
        assert(entries_model(es@) =~= seq![(topic@, data@)]);
    }
    Json::Object(es)
}

} // verus!
