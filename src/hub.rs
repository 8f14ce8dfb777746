use vstd::prelude::*;

use crate::merge::{lookup, merge_tree};
use crate::signalr::{updates_model, UpdateArgs};
use crate::state_service::{topic_patch, StateService};
use crate::tree::{Json, Tree};

verus! {

broadcast use {vstd::std_specs::vec::group_vec_axioms, vstd::seq::group_seq_axioms};

/// One event of a subscriber's stream.
pub enum StreamEvent {
    /// The full state when the subscriber joined.
    Initial(Json),
    /// One patch applied after that.
    Update(Json),
}

/// The model of a [`StreamEvent`].
pub enum Delivery {
    Initial(Tree),
    Update(Tree),
}

impl View for StreamEvent {
    type V = Delivery;

    open spec fn view(&self) -> Delivery {
        match self {
            StreamEvent::Initial(j) => Delivery::Initial(j@),
            StreamEvent::Update(j) => Delivery::Update(j@),
        }
    }
}

pub open spec fn events_model(q: Seq<StreamEvent>) -> Seq<Delivery> {
    Seq::new(q.len(), |i: int| q[i]@)
}

/// The updates that a sequence of patches becomes.
pub open spec fn updates_of(ps: Seq<Tree>) -> Seq<Delivery> {
    Seq::new(ps.len(), |i: int| Delivery::Update(ps[i]))
}

struct Subscriber {
    id: u64,
    queue: Option<Vec<StreamEvent>>,
}

/// A subscriber as the model sees it: its id and its undelivered events, or
/// `None` once it has been dropped for falling behind.
pub type SubscriberModel = (u64, Option<Seq<Delivery>>);

spec fn queue_model(q: Option<Vec<StreamEvent>>) -> Option<Seq<Delivery>> {
    match q {
        Some(v) => Some(events_model(v@)),
        None => None,
    }
}

spec fn subscribers_model(subs: Seq<Subscriber>) -> Seq<SubscriberModel> {
    Seq::new(subs.len(), |i: int| (subs[i].id, queue_model(subs[i].queue)))
}

proof fn lemma_model_remove_first(v: Seq<Subscriber>)
    requires
        v.len() > 0,
    ensures
        subscribers_model(v.remove(0)) == subscribers_model(v).subrange(1, v.len() as int),
        subscribers_model(v)[0] == (v[0].id, queue_model(v[0].queue)),
{
    assert forall|j: int| 0 <= j < v.len() - 1 implies #[trigger] subscribers_model(v.remove(0))[j]
        == subscribers_model(v).subrange(1, v.len() as int)[j] by {
        assert(v.remove(0)[j] == v[j + 1]);
    }
    assert(subscribers_model(v.remove(0)) =~= subscribers_model(v).subrange(1, v.len() as int));
}

proof fn lemma_model_push(v: Seq<Subscriber>, s: Subscriber)
    ensures
        subscribers_model(v.push(s)) == subscribers_model(v).push((s.id, queue_model(s.queue))),
{
    assert(subscribers_model(v.push(s)) =~= subscribers_model(v).push((s.id, queue_model(s.queue))));
}

proof fn lemma_model_update(v: Seq<Subscriber>, i: int, s: Subscriber)
    requires
        0 <= i < v.len(),
    ensures
        subscribers_model(v.update(i, s)) == subscribers_model(v).update(i, (s.id, queue_model(s.queue))),
{
    assert(subscribers_model(v.update(i, s)) =~= subscribers_model(v).update(i, (s.id, queue_model(s.queue))));
}

/// The undelivered events of subscriber `id` (the last one listed under that
/// id); `None` when there is no such subscriber or it has been dropped.
pub open spec fn queue_of(subs: Seq<SubscriberModel>, id: u64) -> Option<Seq<Delivery>>
    decreases subs.len(),
{
    if subs.len() == 0 {
        None
    } else if subs.last().0 == id {
        subs.last().1
    } else {
        queue_of(subs.drop_last(), id)
    }
}

/// One subscriber after patch `p` is published: with room in its queue it
/// gets the patch at the end; with `cap` events already waiting it is dropped.
pub open spec fn publish_one(s: SubscriberModel, p: Tree, cap: nat) -> SubscriberModel {
    match s.1 {
        Some(q) => if q.len() < cap {
            (s.0, Some(q.push(Delivery::Update(p))))
        } else {
            (s.0, None)
        },
        None => s,
    }
}

/// Every subscriber after patch `p` is published.
pub open spec fn publish_model(subs: Seq<SubscriberModel>, p: Tree, cap: nat) -> Seq<SubscriberModel> {
    Seq::new(subs.len(), |i: int| publish_one(subs[i], p, cap))
}

/// Publishing the patches `ps` one after another.
pub open spec fn publish_all(subs: Seq<SubscriberModel>, ps: Seq<Tree>, cap: nat) -> Seq<SubscriberModel>
    decreases ps.len(),
{
    if ps.len() == 0 {
        subs
    } else {
        publish_model(publish_all(subs, ps.drop_last(), cap), ps.last(), cap)
    }
}

/// The queue of subscriber `id` emptied, everything else kept.
pub open spec fn drain_model(subs: Seq<SubscriberModel>, id: u64) -> Seq<SubscriberModel>
    decreases subs.len(),
{
    if subs.len() == 0 {
        subs
    } else if subs.last().0 == id {
        if subs.last().1 is Some {
            subs.drop_last().push((id, Some(Seq::empty())))
        } else {
            subs
        }
    } else {
        drain_model(subs.drop_last(), id).push(subs.last())
    }
}

/// The subscribers other than `id`.
pub open spec fn remove_model(subs: Seq<SubscriberModel>, id: u64) -> Seq<SubscriberModel>
    decreases subs.len(),
{
    if subs.len() == 0 {
        subs
    } else if subs.last().0 == id {
        remove_model(subs.drop_last(), id)
    } else {
        remove_model(subs.drop_last(), id).push(subs.last())
    }
}

proof fn lemma_queue_after_publish(subs: Seq<SubscriberModel>, p: Tree, cap: nat, id: u64)
    ensures
        queue_of(publish_model(subs, p, cap), id) == match queue_of(subs, id) {
            Some(q) => if q.len() < cap {
                Some(q.push(Delivery::Update(p)))
            } else {
                None::<Seq<Delivery>>
            },
            None => None,
        },
    decreases subs.len(),
{
    if subs.len() > 0 {
        lemma_queue_after_publish(subs.drop_last(), p, cap, id);
        assert(publish_model(subs, p, cap).drop_last() =~= publish_model(subs.drop_last(), p, cap));
    }
}

/// A subscriber that is still there after a run of publishes has received
/// every patch of that run, in order, right after what it held before: none
/// is missed and none is repeated. One that was dropped stays dropped.
pub proof fn lemma_no_gap(subs: Seq<SubscriberModel>, id: u64, ps: Seq<Tree>, cap: nat)
    requires
        queue_of(subs, id) is Some,
    ensures
        queue_of(publish_all(subs, ps, cap), id) is Some ==> queue_of(publish_all(subs, ps, cap), id)
            == Some(queue_of(subs, id)->0 + updates_of(ps)),
    decreases ps.len(),
{
    if ps.len() > 0 {
        lemma_no_gap(subs, id, ps.drop_last(), cap);
        let before = publish_all(subs, ps.drop_last(), cap);
        lemma_queue_after_publish(before, ps.last(), cap, id);
        if queue_of(publish_all(subs, ps, cap), id) is Some {
            assert(queue_of(subs, id)->0 + updates_of(ps) =~= (queue_of(subs, id)->0 + updates_of(
                ps.drop_last(),
            )).push(Delivery::Update(ps.last())));
        }
    }
}

/// A new subscriber's stream starts with the state as it was when it joined,
/// followed by exactly the patches published since, as long as it keeps up.
pub proof fn lemma_subscriber_stream(
    subs: Seq<SubscriberModel>,
    id: u64,
    state: Tree,
    ps: Seq<Tree>,
    cap: nat,
)
    ensures
        queue_of(publish_all(subs.push((id, Some(seq![Delivery::Initial(state)]))), ps, cap), id) is Some
            ==> queue_of(publish_all(subs.push((id, Some(seq![Delivery::Initial(state)]))), ps, cap), id)
            == Some(seq![Delivery::Initial(state)] + updates_of(ps)),
{
    let joined = subs.push((id, Some(seq![Delivery::Initial(state)])));
    assert(joined.last() == (id, Some(seq![Delivery::Initial(state)])));
    lemma_no_gap(joined, id, ps, cap);
}

/// Whether an item ends the live session: session information that carries a name.
pub open spec fn ends_session(u: (Seq<char>, Tree, Seq<char>)) -> bool {
    u.0 == "SessionInfo"@ && lookup(u.1, "Name"@) is Some
}

/// Number of leading items that come before the first one that ends the session.
pub open spec fn live_len(us: Seq<(Seq<char>, Tree, Seq<char>)>) -> nat
    decreases us.len(),
{
    if us.len() == 0 || ends_session(us[0]) {
        0
    } else {
        1 + live_len(us.subrange(1, us.len() as int))
    }
}

/// The hub after applying one item.
pub open spec fn apply_item(h: HubView, u: (Seq<char>, Tree, Seq<char>)) -> HubView {
    HubView {
        state: merge_tree(h.state, topic_patch(u.0, u.1)),
        subscribers: publish_model(h.subscribers, topic_patch(u.0, u.1), h.capacity),
        ..h
    }
}

/// The hub after applying the items in order.
pub open spec fn apply_items(h: HubView, us: Seq<(Seq<char>, Tree, Seq<char>)>) -> HubView
    decreases us.len(),
{
    if us.len() == 0 {
        h
    } else {
        apply_item(apply_items(h, us.drop_last()), us.last())
    }
}

/// Whether an item ends the live session.
pub fn is_session_end(topic: &String, data: &Json) -> (r: bool)
    ensures
        r == (topic@ == "SessionInfo"@ && lookup(data@, "Name"@) is Some),
{
    let expected = "SessionInfo".to_string();
    *topic == expected && data.get("Name").is_some()
}

proof fn lemma_live_len_shift(us: Seq<(Seq<char>, Tree, Seq<char>)>, t: int)
    requires
        0 <= t < us.len(),
        forall|j: int| 0 <= j <= t ==> !ends_session(#[trigger] us[j]),
    ensures
        live_len(us.subrange(t, us.len() as int)) == 1 + live_len(us.subrange(t + 1, us.len() as int)),
{
    let r = us.subrange(t, us.len() as int);
    assert(r[0] == us[t]);
    assert(r.subrange(1, r.len() as int) =~= us.subrange(t + 1, us.len() as int));
}

/// The canonical state together with the subscribers that follow it.
pub struct Hub {
    store: StateService,
    subscribers: Vec<Subscriber>,
    next_id: u64,
    capacity: usize,
}

/// The model of a [`Hub`].
pub struct HubView {
    pub state: Tree,
    pub subscribers: Seq<SubscriberModel>,
    pub next_id: nat,
    pub capacity: nat,
}

impl View for Hub {
    type V = HubView;

    closed spec fn view(&self) -> HubView {
        HubView {
            state: self.store@,
            subscribers: subscribers_model(self.subscribers@),
            next_id: self.next_id as nat,
            capacity: self.capacity as nat,
        }
    }
}

impl Hub {
    /// An empty state and no subscribers; each subscriber may fall at most
    /// `capacity` events behind before it is dropped.
    pub fn new(capacity: usize) -> (r: Hub)
        ensures
            r@.state == Tree::Object(Seq::empty()),
            r@.subscribers == Seq::<SubscriberModel>::empty(),
            r@.next_id == 0,
            r@.capacity == capacity,
    {
        let r = Hub { store: StateService::new(), subscribers: Vec::new(), next_id: 0, capacity };
        assert(subscribers_model(r.subscribers@) =~= Seq::<SubscriberModel>::empty());
        r
    }

    /// A copy of the current state.
    pub fn snapshot(&self) -> (r: Json)
        ensures
            r@ == self@.state,
    {
        self.store.get_state()
    }

    /// The number of subscribers.
    pub fn connections(&self) -> (r: usize)
        ensures
            r == self@.subscribers.len(),
    {
        self.subscribers.len()
    }

    /// Replaces the whole state, as at the start of a session.
    pub fn set_state(&mut self, state: Json)
        ensures
            final(self)@ == (HubView { state: state@, ..old(self)@ }),
    {
        self.store.set_state(state);
    }

    /// Adds a subscriber whose first event is the current state. `None` once
    /// every id has been handed out.
    pub fn subscribe(&mut self) -> (r: Option<u64>)
        ensures
            old(self)@.next_id < u64::MAX ==> r == Some(old(self)@.next_id as u64),
            old(self)@.next_id >= u64::MAX ==> r is None && final(self)@ == old(self)@,
            r matches Some(id) ==> final(self)@ == (HubView {
                subscribers: old(self)@.subscribers.push((id, Some(seq![Delivery::Initial(old(self)@.state)]))),
                next_id: old(self)@.next_id + 1,
                ..old(self)@
            }),
            r matches Some(id) ==> queue_of(final(self)@.subscribers, id) == Some(
                seq![Delivery::Initial(old(self)@.state)],
            ),
    {
        if self.next_id == u64::MAX {
            return None;
        }
        let id = self.next_id;
        let mut queue: Vec<StreamEvent> = Vec::new();
        queue.push(StreamEvent::Initial(self.store.get_state()));
        let ghost before = self.subscribers@;
        assert(events_model(queue@) =~= seq![Delivery::Initial(old(self)@.state)]);
        self.subscribers.push(Subscriber { id, queue: Some(queue) });
        self.next_id = id + 1;
        assert(subscribers_model(self.subscribers@) =~= subscribers_model(before).push(
            (id, Some(seq![Delivery::Initial(old(self)@.state)])),
        ));
        assert(subscribers_model(self.subscribers@).drop_last() =~= subscribers_model(before));
        Some(id)
    }

    /// Hands out, and removes from its queue, the undelivered events of
    /// subscriber `id`; `None` when there is no such subscriber.
    pub fn take(&mut self, id: u64) -> (r: Option<Vec<StreamEvent>>)
        ensures
            match queue_of(old(self)@.subscribers, id) {
                Some(q) => r is Some && events_model(r->0@) == q,
                None => r is None,
            },
            final(self)@ == (HubView { subscribers: drain_model(old(self)@.subscribers, id), ..old(self)@ }),
    {
        let ghost subs0 = subscribers_model(self.subscribers@);
        let n = self.subscribers.len();
        let mut i: usize = n;
        assert(subs0.subrange(0, n as int) =~= subs0);
        assert(drain_model(subs0, id) + subs0.subrange(n as int, n as int) =~= drain_model(subs0, id));
        while i > 0
            invariant
                i <= n == self.subscribers@.len(),
                subs0 == subscribers_model(self.subscribers@),
                self@ == old(self)@,
                queue_of(subs0, id) == queue_of(subs0.subrange(0, i as int), id),
                drain_model(subs0, id) == drain_model(subs0.subrange(0, i as int), id)
                    + subs0.subrange(i as int, n as int),
            decreases i,
        {
            let ghost pre = subs0.subrange(0, i as int);
            assert(pre.drop_last() =~= subs0.subrange(0, i - 1));
            if self.subscribers[i - 1].id == id {
                let ghost v0 = self.subscribers@;
                let mut s = self.subscribers.remove(i - 1);
                let mut q: Option<Vec<StreamEvent>> = None;
                std::mem::swap(&mut q, &mut s.queue);
                match q {
                    Some(events) => {
                        s.queue = Some(Vec::new());
                        self.subscribers.insert(i - 1, s);
                        assert(self.subscribers@ =~= v0.update(i - 1, s));
                        assert(queue_model(s.queue) =~= Some(Seq::<Delivery>::empty()));
                        proof {
                            lemma_model_update(v0, i - 1, s);
                        }
                        assert(subscribers_model(self.subscribers@) =~= subs0.update(i - 1, (id, Some(Seq::empty()))));
                        assert(drain_model(subs0, id) =~= subscribers_model(self.subscribers@));
                        return Some(events);
                    },
                    None => {
                        self.subscribers.insert(i - 1, s);
                        assert(self.subscribers@ =~= v0);
                        assert(drain_model(subs0, id) =~= subs0);
                        return None;
                    },
                }
            }
            assert(drain_model(subs0.subrange(0, i as int), id) + subs0.subrange(i as int, n as int)
                =~= drain_model(subs0.subrange(0, i - 1), id) + subs0.subrange(i - 1, n as int));
            i = i - 1;
        }
        assert(subs0.subrange(0, 0) =~= Seq::<SubscriberModel>::empty());
        assert(drain_model(subs0, id) =~= subs0);
        None
    }

    /// Removes subscriber `id`, as when its client disconnects.
    pub fn unsubscribe(&mut self, id: u64)
        ensures
            final(self)@ == (HubView { subscribers: remove_model(old(self)@.subscribers, id), ..old(self)@ }),
    {
        let mut old_subs: Vec<Subscriber> = Vec::new();
        std::mem::swap(&mut old_subs, &mut self.subscribers);
        let ghost subs0 = subscribers_model(old_subs@);
        let mut t: usize = 0;
        let n = old_subs.len();
        assert(subs0.len() == n);
        while old_subs.len() > 0
            invariant
                subs0.len() == t + old_subs@.len(),
                subs0.len() <= usize::MAX,
                subscribers_model(old_subs@) == subs0.subrange(t as int, subs0.len() as int),
                subscribers_model(self.subscribers@) == remove_model(subs0.subrange(0, t as int), id),
                self.store == old(self).store,
                self.next_id == old(self).next_id,
                self.capacity == old(self).capacity,
                subs0 == old(self)@.subscribers,
            decreases old_subs.len(),
        {
            let ghost v0 = old_subs@;
            let s = old_subs.remove(0);
            proof {
                lemma_model_remove_first(v0);
            }
            let ghost pre = subs0.subrange(0, t + 1);
            assert(pre.drop_last() =~= subs0.subrange(0, t as int));
            assert(subscribers_model(old_subs@) =~= subs0.subrange(t + 1, subs0.len() as int));
            if s.id != id {
                let ghost before = self.subscribers@;
                self.subscribers.push(s);
                proof {
                    lemma_model_push(before, s);
                }
                assert(subscribers_model(self.subscribers@) =~= subscribers_model(before).push(pre.last()));
            }
            t = t + 1;
        }
        assert(subs0.subrange(0, t as int) =~= subs0);
    }

    /// Merges `delta` into the state under `topic` and hands the patch to
    /// every subscriber, dropping those that have fallen too far behind.
    pub fn apply(&mut self, topic: String, delta: Json)
        ensures
            final(self)@ == (HubView {
                state: merge_tree(old(self)@.state, topic_patch(topic@, delta@)),
                subscribers: publish_model(
                    old(self)@.subscribers,
                    topic_patch(topic@, delta@),
                    old(self)@.capacity,
                ),
                ..old(self)@
            }),
    {
        let patch = self.store.apply(topic, delta);
        let mut old_subs: Vec<Subscriber> = Vec::new();
        std::mem::swap(&mut old_subs, &mut self.subscribers);
        let ghost subs0 = subscribers_model(old_subs@);
        let ghost p = patch@;
        let mut t: usize = 0;
        let n = old_subs.len();
        assert(subs0.len() == n);
        while old_subs.len() > 0
            invariant
                subs0.len() == t + old_subs@.len(),
                subs0.len() <= usize::MAX,
                subscribers_model(old_subs@) == subs0.subrange(t as int, subs0.len() as int),
                subscribers_model(self.subscribers@) == publish_model(
                    subs0.subrange(0, t as int),
                    p,
                    self.capacity as nat,
                ),
                patch@ == p,
                p == topic_patch(topic@, delta@),
                self.store@ == merge_tree(old(self)@.state, p),
                self.capacity == old(self).capacity,
                self.next_id == old(self).next_id,
                subs0 == old(self)@.subscribers,
            decreases old_subs.len(),
        {
            let ghost v0 = old_subs@;
            let mut s = old_subs.remove(0);
            proof {
                lemma_model_remove_first(v0);
            }
            let ghost pre = subs0.subrange(0, t + 1);
            assert(pre.drop_last() =~= subs0.subrange(0, t as int));
            assert(subscribers_model(old_subs@) =~= subs0.subrange(t + 1, subs0.len() as int));
            assert(pre.last() == (s.id, queue_model(s.queue)));
            let mut q: Option<Vec<StreamEvent>> = None;
            std::mem::swap(&mut q, &mut s.queue);
            match q {
                Some(mut events) => {
                    if events.len() < self.capacity {
                        let ghost q0 = events@;
                        events.push(StreamEvent::Update(patch.deep_clone()));
                        assert(events_model(events@) =~= events_model(q0).push(Delivery::Update(p)));
                        s.queue = Some(events);
                    }
                },
                None => {},
            }
            assert(publish_one(pre.last(), p, self.capacity as nat) == (s.id, queue_model(s.queue)));
            let ghost before = self.subscribers@;
            self.subscribers.push(s);
            proof {
                lemma_model_push(before, s);
                assert(publish_model(pre, p, self.capacity as nat) =~= publish_model(
                    subs0.subrange(0, t as int),
                    p,
                    self.capacity as nat,
                ).push(publish_one(pre.last(), p, self.capacity as nat)));
            }
            t = t + 1;
        }
        assert(subs0.subrange(0, t as int) =~= subs0);
    }

    /// Applies the items of one push frame in order, stopping at the first
    /// that ends the live session; says whether one did.
    pub fn ingest(&mut self, batch: Vec<UpdateArgs>) -> (ended: bool)
        ensures
            final(self)@ == apply_items(old(self)@, updates_model(batch@).take(live_len(updates_model(batch@)) as int)),
            ended == (live_len(updates_model(batch@)) < batch@.len()),
    {
        let ghost us = updates_model(batch@);
        let mut rest = batch;
        let mut t: usize = 0;
        let n = rest.len();
        assert(us.subrange(0, 0) =~= Seq::<(Seq<char>, Tree, Seq<char>)>::empty());
        assert(us.subrange(0, us.len() as int) =~= us);
        while rest.len() > 0
            invariant
                us.len() == n,
                us == updates_model(batch@),
                t + rest@.len() == n,
                updates_model(rest@) == us.subrange(t as int, n as int),
                forall|j: int| 0 <= j < t ==> !ends_session(#[trigger] us[j]),
                live_len(us) == t + live_len(us.subrange(t as int, n as int)),
                self@ == apply_items(old(self)@, us.take(t as int)),
            decreases rest.len(),
        {
            let ghost r0 = rest@;
            let u = rest.remove(0);
            assert(updates_model(rest@) =~= us.subrange(t + 1, n as int)) by {
                assert forall|j: int| 0 <= j < rest@.len() implies #[trigger] updates_model(rest@)[j]
                    == us.subrange(t + 1, n as int)[j] by {
                    assert(rest@[j] == r0[j + 1]);
                    assert(updates_model(r0)[j + 1] == us.subrange(t as int, n as int)[j + 1]);
                }
            }
            assert(u@ == us[t as int]) by {
                assert(updates_model(r0)[0] == us.subrange(t as int, n as int)[0]);
            }
            if is_session_end(&u.topic, &u.data) {
                let ghost r = us.subrange(t as int, n as int);
                assert(r[0] == us[t as int]);
                assert(live_len(r) == 0);
                return true;
            }
            proof {
                lemma_live_len_shift(us, t as int);
                assert(us.take(t + 1).drop_last() =~= us.take(t as int));
            }
            self.apply(u.topic, u.data);
            t = t + 1;
        }
        assert(us.subrange(t as int, n as int) =~= Seq::<(Seq<char>, Tree, Seq<char>)>::empty());
        false
    }
}

} // verus!
