//! The broadcast hub: a registry of subscriptions, each holding an
//! optional entity filter and its own delivery queue. Publishing an event
//! appends it to the queue of every subscription whose filter accepts it,
//! independently of all other subscriptions.
//!
//! Queue policy: each delivery queue grows without bound until its owner
//! drains it; the publisher is never blocked and never signalled.

use vstd::prelude::*;
use crate::snapshot::{Snapshot, SnapshotView};

verus! {

/// One published (entity id, snapshot) pair, flowing once through the hub.
pub struct Event {
    pub entity_id: String,
    pub snapshot: Snapshot,
}

/// Mathematical image of an [`Event`].
#[verifier::ext_equal]
pub ghost struct EventView {
    pub entity_id: Seq<char>,
    pub snapshot: SnapshotView,
}

impl View for Event {
    type V = EventView;

    open spec fn view(&self) -> EventView {
        EventView { entity_id: self.entity_id@, snapshot: self.snapshot@ }
    }
}

impl DeepView for Event {
    type V = EventView;

    open spec fn deep_view(&self) -> EventView {
        self@
    }
}

impl Event {
    /// An explicit copy whose image equals this event's.
    pub fn duplicate(&self) -> (r: Event)
        ensures
            r@ == self@,
    {
        Event { entity_id: self.entity_id.clone(), snapshot: self.snapshot.duplicate() }
    }
}

/// Whether a filter accepts an entity id: no filter accepts everything,
/// a filter accepts exactly the ids it lists.
pub open spec fn filter_accepts(filter: Option<Seq<Seq<char>>>, id: Seq<char>) -> bool {
    match filter {
        None => true,
        Some(ids) => ids.contains(id),
    }
}

/// One registered observer: a fixed filter and its delivery queue.
pub struct Subscription {
    handle: u64,
    filter: Option<Vec<String>>,
    queue: Vec<Event>,
}

/// Mathematical image of a [`Subscription`].
#[verifier::ext_equal]
pub ghost struct SubscriptionView {
    pub handle: u64,
    pub filter: Option<Seq<Seq<char>>>,
    pub queue: Seq<EventView>,
}

impl View for Subscription {
    type V = SubscriptionView;

    closed spec fn view(&self) -> SubscriptionView {
        SubscriptionView {
            handle: self.handle,
            filter: self.filter.deep_view(),
            queue: self.queue.deep_view(),
        }
    }
}

/// Mathematical image of a [`Hub`]: the handle counter and the list of
/// live subscriptions.
#[verifier::ext_equal]
pub ghost struct HubView {
    pub next: u64,
    pub subs: Seq<SubscriptionView>,
}

/// Every live handle was issued (is below the counter) and no two live
/// subscriptions share a handle.
pub open spec fn hub_view_wf(h: HubView) -> bool {
    &&& forall|i: int| 0 <= i < h.subs.len() ==> (#[trigger] h.subs[i]).handle < h.next
    &&& forall|i: int, j: int| 0 <= i < j < h.subs.len() ==> (#[trigger] h.subs[i]).handle != (
    #[trigger] h.subs[j]).handle
}

/// What one published event does to one subscription: appended to its
/// queue if its filter accepts the event's entity, untouched otherwise.
pub open spec fn deliver(sub: SubscriptionView, ev: EventView) -> SubscriptionView {
    if filter_accepts(sub.filter, ev.entity_id) {
        SubscriptionView { queue: sub.queue.push(ev), ..sub }
    } else {
        sub
    }
}

/// One subscription after a whole sequence of published events.
pub open spec fn deliver_all(sub: SubscriptionView, evs: Seq<EventView>) -> SubscriptionView
    decreases evs.len(),
{
    if evs.len() == 0 {
        sub
    } else {
        deliver(deliver_all(sub, evs.drop_last()), evs.last())
    }
}

/// Delivering one more published event is one more [`deliver`] step.
pub proof fn lemma_deliver_all_push(sub: SubscriptionView, evs: Seq<EventView>, ev: EventView)
    ensures
        deliver_all(sub, evs.push(ev)) == deliver(deliver_all(sub, evs), ev),
{
    assert(evs.push(ev).len() > 0);
    assert(evs.push(ev).drop_last() =~= evs);
    assert(evs.push(ev).last() == ev);
}

/// The subsequence of events a filter accepts, in publish order.
pub open spec fn accepted_events(filter: Option<Seq<Seq<char>>>, evs: Seq<EventView>) -> Seq<
    EventView,
>
    decreases evs.len(),
{
    if evs.len() == 0 {
        Seq::empty()
    } else {
        let pre = accepted_events(filter, evs.drop_last());
        if filter_accepts(filter, evs.last().entity_id) {
            pre.push(evs.last())
        } else {
            pre
        }
    }
}

/// Law: after any sequence of published events, a subscription keeps its
/// handle and filter, and its queue is its old queue followed by exactly
/// the events its filter accepts, in publish order.
pub proof fn lemma_delivery_order(sub: SubscriptionView, evs: Seq<EventView>)
    ensures
        deliver_all(sub, evs).handle == sub.handle,
        deliver_all(sub, evs).filter == sub.filter,
        deliver_all(sub, evs).queue =~= sub.queue + accepted_events(sub.filter, evs),
    decreases evs.len(),
{
    if evs.len() > 0 {
        lemma_delivery_order(sub, evs.drop_last());
    }
}

/// Every accepted event satisfies the filter.
pub proof fn lemma_accepted_events_match(filter: Option<Seq<Seq<char>>>, evs: Seq<EventView>)
    ensures
        forall|j: int| 0 <= j < accepted_events(filter, evs).len() ==> filter_accepts(
            filter,
            (#[trigger] accepted_events(filter, evs)[j]).entity_id,
        ),
    decreases evs.len(),
{
    if evs.len() > 0 {
        lemma_accepted_events_match(filter, evs.drop_last());
        let pre = accepted_events(filter, evs.drop_last());
        let full = accepted_events(filter, evs);
        assert forall|j: int| 0 <= j < full.len() implies filter_accepts(
            filter,
            (#[trigger] full[j]).entity_id,
        ) by {
            if j < pre.len() {
                assert(full[j] == pre[j]);
            } else {
                assert(full[j] == evs.last());
            }
        }
    }
}

proof fn lemma_accepted_all(filter: Option<Seq<Seq<char>>>, evs: Seq<EventView>)
    requires
        filter is None,
    ensures
        accepted_events(filter, evs) =~= evs,
    decreases evs.len(),
{
    if evs.len() > 0 {
        lemma_accepted_all(filter, evs.drop_last());
        assert(accepted_events(filter, evs) =~= evs.drop_last().push(evs.last()));
        assert(evs.drop_last().push(evs.last()) =~= evs);
    }
}

/// Law: a filtered subscription never receives an event its filter
/// rejects — everything beyond its old queue matches the filter.
pub proof fn lemma_filtered_receives_only_matching(sub: SubscriptionView, evs: Seq<EventView>)
    ensures
        forall|j: int| sub.queue.len() <= j < deliver_all(sub, evs).queue.len()
            ==> filter_accepts(
            sub.filter,
            (#[trigger] deliver_all(sub, evs).queue[j]).entity_id,
        ),
{
    lemma_delivery_order(sub, evs);
    lemma_accepted_events_match(sub.filter, evs);
}

/// Law: a subscription with no filter receives every published event, in
/// publish order.
pub proof fn lemma_unfiltered_receives_all(sub: SubscriptionView, evs: Seq<EventView>)
    requires
        sub.filter is None,
    ensures
        deliver_all(sub, evs).queue =~= sub.queue + evs,
{
    lemma_delivery_order(sub, evs);
    lemma_accepted_all(sub.filter, evs);
}

/// Membership of an id in a filter list.
fn contains_id(ids: &Vec<String>, id: &String) -> (b: bool)
    ensures
        b == ids.deep_view().contains(id@),
{
    let n = ids.len();
    let mut i: usize = 0;
    while i < n
        invariant
            n == ids.len(),
            i <= n,
            forall|j: int| 0 <= j < i ==> ids.deep_view()[j] != id@,
        decreases n - i,
    {
        if ids[i] == *id {
            assert(ids.deep_view()[i as int] == id@);
            return true;
        }
        i += 1;
    }
    assert(forall|j: int| 0 <= j < ids.deep_view().len() ==> ids.deep_view()[j] != id@);
    false
}

/// The executable filter test, equal to [`filter_accepts`].
pub fn accepts(filter: &Option<Vec<String>>, id: &String) -> (b: bool)
    ensures
        b == filter_accepts(filter.deep_view(), id@),
{
    match filter {
        None => true,
        Some(ids) => contains_id(ids, id),
    }
}

/// The broadcast hub: the set of live subscriptions and the counter from
/// which fresh handles are issued.
pub struct Hub {
    next_handle: u64,
    subs: Vec<Subscription>,
}

impl View for Hub {
    type V = HubView;

    closed spec fn view(&self) -> HubView {
        HubView {
            next: self.next_handle,
            subs: Seq::new(self.subs@.len(), |i: int| self.subs@[i]@),
        }
    }
}

impl Hub {
    /// Well-formedness of the live subscription set.
    pub open spec fn wf(&self) -> bool {
        hub_view_wf(self@)
    }

    /// A hub with no subscription yet.
    pub fn new() -> (h: Hub)
        ensures
            h.wf(),
            h@.next == 0,
            h@.subs =~= Seq::<SubscriptionView>::empty(),
    {
        Hub { next_handle: 0, subs: Vec::new() }
    }

    /// How many handles this hub has issued so far; a caller may test it
    /// against the counter's limit before subscribing.
    pub fn handles_issued(&self) -> (n: u64)
        ensures
            n == self@.next,
    {
        self.next_handle
    }

    /// Register a new observer with the given filter (`None` means every
    /// event). Its delivery queue starts empty; the returned handle names
    /// it and is distinct from every live handle.
    pub fn subscribe(&mut self, filter: Option<Vec<String>>) -> (h: u64)
        requires
            old(self).wf(),
            old(self)@.next < u64::MAX,
        ensures
            final(self).wf(),
            h == old(self)@.next,
            final(self)@.next == old(self)@.next + 1,
            final(self)@.subs =~= old(self)@.subs.push(
                SubscriptionView {
                    handle: h,
                    filter: filter.deep_view(),
                    queue: Seq::empty(),
                },
            ),
            forall|i: int| 0 <= i < old(self)@.subs.len() ==> (#[trigger] old(
                self,
            )@.subs[i]).handle != h,
    {
        let h = self.next_handle;
        let ghost fv = filter.deep_view();
        self.subs.push(Subscription { handle: h, filter, queue: Vec::new() });
        self.next_handle = self.next_handle + 1;
        proof {
            let s = self@.subs.last();
            assert(s.queue =~= Seq::<EventView>::empty());
            assert(s =~= (SubscriptionView { handle: h, filter: fv, queue: Seq::empty() }));
            assert(self@.subs =~= old(self)@.subs.push(s));
        }
        h
    }

    /// Deliver one event to every matching subscription: each queue
    /// either gains exactly this event at its end or is left untouched,
    /// as [`deliver`] says; no subscription blocks another.
    #[verifier::loop_isolation(false)]
    pub fn publish(&mut self, id: &String, snap: &Snapshot)
        requires
            old(self).wf(),
        ensures
            final(self).wf(),
            final(self)@.next == old(self)@.next,
            final(self)@.subs.len() == old(self)@.subs.len(),
            forall|i: int| 0 <= i < old(self)@.subs.len() ==> final(self)@.subs[i] == deliver(
                #[trigger] old(self)@.subs[i],
                EventView { entity_id: id@, snapshot: snap@ },
            ),
    {
        let ghost ev = EventView { entity_id: id@, snapshot: snap@ };
        let n = self.subs.len();
        let mut i: usize = 0;
        while i < n
            invariant
                n == self.subs.len(),
                i <= n,
                self@.next == old(self)@.next,
                self@.subs.len() == old(self)@.subs.len(),
                forall|j: int| i <= j < n ==> self@.subs[j] == old(self)@.subs[j],
                forall|j: int| 0 <= j < i ==> self@.subs[j] == deliver(
                    #[trigger] old(self)@.subs[j],
                    ev,
                ),
            decreases n - i,
        {
            let ghost before = self@.subs;
            let ghost bexec = self.subs@;
            let mut sub = self.subs.remove(i);
            if accepts(&sub.filter, id) {
                sub.queue.push(Event { entity_id: id.clone(), snapshot: snap.duplicate() });
                proof {
                    assert(sub@.queue =~= before[i as int].queue.push(ev));
                    assert(sub@ =~= deliver(before[i as int], ev));
                }
            } else {
                proof {
                    assert(sub@ =~= deliver(before[i as int], ev));
                }
            }
            self.subs.insert(i, sub);
            proof {
                assert(self.subs@ =~= bexec.remove(i as int).insert(i as int, self.subs@[i as int]));
                assert forall|j: int| 0 <= j < n && j != i implies self.subs@[j]
                    == bexec[j] by {}
                assert forall|j: int| 0 <= j < n implies self@.subs[j] == (if j == i {
                    deliver(before[j], ev)
                } else {
                    before[j]
                }) by {
                    assert(self@.subs[j] == self.subs@[j]@);
                    if j != i {
                        assert(self.subs@[j]@ == bexec[j]@);
                    }
                }
            }
            i += 1;
        }
        proof {
            assert forall|j: int| 0 <= j < n implies (#[trigger] self@.subs[j]).handle == old(
                self,
            )@.subs[j].handle by {}
        }
    }

    /// Remove the subscription named by `handle`; no new event reaches
    /// it afterwards. A handle no longer live is ignored.
    #[verifier::loop_isolation(false)]
    pub fn unsubscribe(&mut self, handle: u64)
        requires
            old(self).wf(),
        ensures
            final(self).wf(),
            final(self)@.next == old(self)@.next,
            (exists|i: int| 0 <= i < old(self)@.subs.len() && (#[trigger] old(
                self,
            )@.subs[i]).handle == handle) ==> exists|i: int|
                0 <= i < old(self)@.subs.len() && (#[trigger] old(self)@.subs[i]).handle == handle
                    && final(self)@.subs =~= old(self)@.subs.remove(i),
            !(exists|i: int| 0 <= i < old(self)@.subs.len() && (#[trigger] old(
                self,
            )@.subs[i]).handle == handle) ==> final(self)@.subs =~= old(self)@.subs,
    {
        let n = self.subs.len();
        let mut i: usize = 0;
        while i < n
            invariant
                n == self.subs.len(),
                i <= n,
                self@ == old(self)@,
                forall|j: int| 0 <= j < i ==> (#[trigger] self@.subs[j]).handle != handle,
            decreases n - i,
        {
            if self.subs[i].handle == handle {
                self.subs.remove(i);
                proof {
                    assert(old(self)@.subs[i as int].handle == handle);
                    assert(self@.subs =~= old(self)@.subs.remove(i as int));
                }
                return ;
            }
            i += 1;
        }
    }

    /// Hand the owner of `handle` everything queued for it, in delivery
    /// order, leaving its queue empty. Every other subscription is left
    /// untouched; an unknown handle yields nothing.
    #[verifier::loop_isolation(false)]
    pub fn take_events(&mut self, handle: u64) -> (evs: Vec<Event>)
        requires
            old(self).wf(),
        ensures
            final(self).wf(),
            final(self)@.next == old(self)@.next,
            final(self)@.subs.len() == old(self)@.subs.len(),
            forall|j: int| 0 <= j < old(self)@.subs.len() && (#[trigger] old(
                self,
            )@.subs[j]).handle != handle ==> final(self)@.subs[j] == old(self)@.subs[j],
            forall|j: int| 0 <= j < old(self)@.subs.len() && (#[trigger] old(
                self,
            )@.subs[j]).handle == handle ==> (final(self)@.subs[j] == (SubscriptionView {
                queue: Seq::empty(),
                ..old(self)@.subs[j]
            }) && evs.deep_view() =~= old(self)@.subs[j].queue),
            (forall|j: int| 0 <= j < old(self)@.subs.len() ==> (#[trigger] old(
                self,
            )@.subs[j]).handle != handle) ==> evs.deep_view().len() == 0,
    {
        let n = self.subs.len();
        let mut i: usize = 0;
        while i < n
            invariant
                n == self.subs.len(),
                i <= n,
                self@ == old(self)@,
                forall|j: int| 0 <= j < i ==> (#[trigger] self@.subs[j]).handle != handle,
            decreases n - i,
        {
            if self.subs[i].handle == handle {
                let ghost before = self@.subs;
                let ghost bexec = self.subs@;
                let mut sub = self.subs.remove(i);
                let evs = sub.queue;
                sub.queue = Vec::new();
                self.subs.insert(i, sub);
                proof {
                    assert(evs.deep_view() =~= before[i as int].queue);
                    assert(self.subs@[i as int]@.queue =~= Seq::<EventView>::empty());
                    assert(self.subs@[i as int]@ =~= (SubscriptionView {
                        queue: Seq::empty(),
                        ..before[i as int]
                    }));
                    assert forall|j: int| 0 <= j < n && j != i implies self.subs@[j]
                        == bexec[j] by {}
                    assert forall|j: int| 0 <= j < n implies self@.subs[j] == (if j == i {
                        SubscriptionView { queue: Seq::empty(), ..before[j] }
                    } else {
                        before[j]
                    }) by {
                        assert(self@.subs[j] == self.subs@[j]@);
                        if j != i {
                            assert(self.subs@[j]@ == bexec[j]@);
                        }
                    }
                    assert forall|j: int|
                        0 <= j < n && j != i implies (#[trigger] before[j]).handle
                        != handle by {
                        if j > i {
                            assert(old(self)@.subs[i as int].handle != old(self)@.subs[j].handle);
                        }
                    }
                }
                return evs;
            }
            i += 1;
        }
        Vec::new()
    }
}

} // verus!
