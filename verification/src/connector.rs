//! The upstream connector: the lifecycle of the single upstream
//! connection, and the live event path that applies each change to the
//! entity cache and publishes it to the broadcast hub as one unit.

use vstd::prelude::*;
use crate::snapshot::{UpstreamEntity, UpstreamEntityView, Snapshot, SnapshotView, spec_encode,
    encode};
use crate::cache::{EntityCache, snapshots_map};
use crate::hub::{Hub, EventView, SubscriptionView, deliver, deliver_all, filter_accepts};

verus! {

/// Lifecycle of the upstream connection. A failure before `Live` is
/// fatal: no correct state can be established, so the process exits and
/// restarts rather than running degraded.
#[derive(Clone, Copy, Debug, PartialEq, Eq, Structural)]
pub enum ConnectorState {
    Connecting,
    Authenticating,
    Syncing,
    Live,
    Terminated,
}

impl ConnectorState {
    /// Outcome of the connection attempt: a refused connection is fatal.
    pub fn after_connect(self, ok: bool) -> (s: ConnectorState)
        requires
            self == ConnectorState::Connecting,
        ensures
            ok ==> s == ConnectorState::Authenticating,
            !ok ==> s == ConnectorState::Terminated,
    {
        if ok {
            ConnectorState::Authenticating
        } else {
            ConnectorState::Terminated
        }
    }

    /// Outcome of authentication: rejected credentials are fatal.
    pub fn after_auth(self, ok: bool) -> (s: ConnectorState)
        requires
            self == ConnectorState::Authenticating,
        ensures
            ok ==> s == ConnectorState::Syncing,
            !ok ==> s == ConnectorState::Terminated,
    {
        if ok {
            ConnectorState::Syncing
        } else {
            ConnectorState::Terminated
        }
    }

    /// Outcome of the initial bulk fetch: without an initial state there
    /// is no meaningful degraded mode, so failure is fatal.
    pub fn after_sync(self, ok: bool) -> (s: ConnectorState)
        requires
            self == ConnectorState::Syncing,
        ensures
            ok ==> s == ConnectorState::Live,
            !ok ==> s == ConnectorState::Terminated,
    {
        if ok {
            ConnectorState::Live
        } else {
            ConnectorState::Terminated
        }
    }

    /// Connection loss while live ends the connector; restart is left to
    /// the deployment.
    pub fn after_connection_lost(self) -> (s: ConnectorState)
        requires
            self == ConnectorState::Live,
        ensures
            s == ConnectorState::Terminated,
    {
        ConnectorState::Terminated
    }
}

/// One published event as the codec derives it from an upstream change.
pub open spec fn event_of(e: UpstreamEntityView) -> EventView {
    EventView { entity_id: e.entity_id, snapshot: spec_encode(e) }
}

/// The cache content after a sequence of upstream changes has been
/// applied in order to an earlier content.
pub open spec fn apply_changes(
    m: Map<Seq<char>, SnapshotView>,
    evs: Seq<UpstreamEntityView>,
) -> Map<Seq<char>, SnapshotView>
    decreases evs.len(),
{
    if evs.len() == 0 {
        m
    } else {
        apply_changes(m, evs.drop_last()).insert(
            evs.last().entity_id,
            spec_encode(evs.last()),
        )
    }
}

/// Whether some change in `evs` concerns entity `id`.
pub open spec fn has_change_for(evs: Seq<UpstreamEntityView>, id: Seq<char>) -> bool {
    exists|i: int| 0 <= i < evs.len() && (#[trigger] evs[i]).entity_id == id
}

/// The most recent change in `evs` that concerns entity `id`.
pub open spec fn last_change_for(evs: Seq<UpstreamEntityView>, id: Seq<char>) -> UpstreamEntityView
    recommends
        has_change_for(evs, id),
    decreases evs.len(),
{
    if evs.len() == 0 {
        arbitrary()
    } else if evs.last().entity_id == id {
        evs.last()
    } else {
        last_change_for(evs.drop_last(), id)
    }
}

/// Law: after any sequence of upstream changes, the cache entry of every
/// entity that changed is the codec image of its most recent change.
pub proof fn lemma_cache_last_change_wins(
    m: Map<Seq<char>, SnapshotView>,
    evs: Seq<UpstreamEntityView>,
    id: Seq<char>,
)
    requires
        has_change_for(evs, id),
    ensures
        apply_changes(m, evs).contains_key(id),
        apply_changes(m, evs)[id] == spec_encode(last_change_for(evs, id)),
    decreases evs.len(),
{
    if evs.last().entity_id == id {
    } else {
        let i = choose|i: int| 0 <= i < evs.len() && (#[trigger] evs[i]).entity_id == id;
        assert(i < evs.len() - 1);
        assert(evs.drop_last()[i].entity_id == id);
        lemma_cache_last_change_wins(m, evs.drop_last(), id);
    }
}

/// Law (idempotence): processing the same upstream change twice leaves
/// the cache exactly as processing it once does, while a subscription
/// whose filter accepts the entity is handed two copies of the event —
/// fan-out does not deduplicate.
pub proof fn lemma_duplicate_change(
    m: Map<Seq<char>, SnapshotView>,
    e: UpstreamEntityView,
    sub: SubscriptionView,
)
    ensures
        apply_changes(m, seq![e, e]) =~= apply_changes(m, seq![e]),
        filter_accepts(sub.filter, e.entity_id) ==> deliver_all(
            sub,
            seq![event_of(e), event_of(e)],
        ).queue =~= sub.queue.push(event_of(e)).push(event_of(e)),
{
    let one = seq![e];
    let two = seq![e, e];
    assert(one.drop_last() =~= Seq::<UpstreamEntityView>::empty());
    assert(two.drop_last() =~= one);
    assert(apply_changes(m, two) =~= apply_changes(m, one).insert(
        e.entity_id,
        spec_encode(e),
    ));
    let ev = event_of(e);
    let evs = seq![ev, ev];
    assert(evs =~= seq![ev].push(ev));
    assert(seq![ev] =~= Seq::<EventView>::empty().push(ev));
    assert(deliver_all(sub, Seq::<EventView>::empty()) == sub);
    crate::hub::lemma_deliver_all_push(sub, Seq::<EventView>::empty(), ev);
    crate::hub::lemma_deliver_all_push(sub, seq![ev], ev);
    assert(deliver_all(sub, evs) == deliver(deliver(sub, ev), ev));
}

/// The upstream connector's owned machinery: the entity cache it alone
/// writes, and the hub it drives with one published event per change.
pub struct Connector {
    pub cache: EntityCache,
    pub hub: Hub,
}

impl Connector {
    /// Both owned structures are well formed.
    pub open spec fn wf(&self) -> bool {
        &&& self.cache.wf()
        &&& self.hub.wf()
    }

    /// A connector with an empty cache and no subscription, as it stands
    /// before the initial bulk fetch.
    pub fn new() -> (c: Connector)
        ensures
            c.wf(),
            c.cache@ =~= Map::<Seq<char>, SnapshotView>::empty(),
            c.hub@.next == 0,
            c.hub@.subs.len() == 0,
    {
        Connector { cache: EntityCache::new(), hub: Hub::new() }
    }

    /// The sync step: feed the bulk-fetched entities through the codec
    /// and replace the whole cache content; the hub is untouched. Called
    /// once, before any change event is processed.
    #[verifier::loop_isolation(false)]
    pub fn initialize(&mut self, entities: &Vec<UpstreamEntity>)
        requires
            old(self).wf(),
        ensures
            final(self).wf(),
            final(self).cache@ =~= apply_changes(
                Map::<Seq<char>, SnapshotView>::empty(),
                entities.deep_view(),
            ),
            final(self).hub == old(self).hub,
    {
        let n = entities.len();
        let mut snaps: Vec<Snapshot> = Vec::new();
        let mut i: usize = 0;
        while i < n
            invariant
                n == entities.len(),
                i <= n,
                snaps@.len() == i,
                forall|j: int| 0 <= j < i ==> (#[trigger] snaps@[j])@ == spec_encode(
                    entities.deep_view()[j],
                ),
            decreases n - i,
        {
            snaps.push(encode(&entities[i]));
            i += 1;
        }
        self.cache.initialize(&snaps);
        proof {
            lemma_snapshots_apply(snaps@, entities.deep_view());
        }
    }

    /// The live event path: decode the change, overwrite the cache entry,
    /// then publish the same pair to the hub — applied as one unit, so no
    /// event is ever published without having been cached first.
    pub fn handle_change(&mut self, e: &UpstreamEntity)
        requires
            old(self).wf(),
        ensures
            final(self).wf(),
            final(self).cache@ =~= old(self).cache@.insert(e@.entity_id, spec_encode(e@)),
            final(self).hub@.next == old(self).hub@.next,
            final(self).hub@.subs.len() == old(self).hub@.subs.len(),
            forall|i: int| 0 <= i < old(self).hub@.subs.len() ==> final(self).hub@.subs[i]
                == deliver(#[trigger] old(self).hub@.subs[i], event_of(e@)),
    {
        let snap = encode(e);
        let id = snap.entity_id.clone();
        self.cache.update(id, snap.duplicate());
        self.hub.publish(&snap.entity_id, &snap);
        proof {
            assert((EventView { entity_id: snap.entity_id@, snapshot: snap@ }) =~= event_of(e@));
        }
    }
}

/// Snapshots that are pointwise the codec images of a change sequence
/// denote, keyed by entity id, the cache that sequence produces.
proof fn lemma_snapshots_apply(snaps: Seq<Snapshot>, evs: Seq<UpstreamEntityView>)
    requires
        snaps.len() == evs.len(),
        forall|j: int| 0 <= j < snaps.len() ==> (#[trigger] snaps[j])@ == spec_encode(evs[j]),
    ensures
        snapshots_map(snaps) =~= apply_changes(Map::<Seq<char>, SnapshotView>::empty(), evs),
    decreases snaps.len(),
{
    if snaps.len() > 0 {
        assert(forall|j: int| 0 <= j < snaps.drop_last().len() ==> (#[trigger] snaps.drop_last()[j])@
            == spec_encode(evs.drop_last()[j]));
        lemma_snapshots_apply(snaps.drop_last(), evs.drop_last());
        assert(snaps[snaps.len() - 1]@ == spec_encode(evs[evs.len() - 1]));
    }
}

} // verus!
