//! The snapshot codec: normalizing one upstream entity record into the
//! immutable snapshot value that the cache stores and the hub fans out.

use vstd::prelude::*;

verus! {

/// One entity record as reported by the upstream source, reduced to the
/// plain fields the bridge reads. Fields the upstream may omit are
/// optional; the open attribute mapping travels as raw serialized text.
pub struct UpstreamEntity {
    pub entity_id: String,
    pub state: Option<String>,
    pub last_changed: Option<String>,
    pub last_updated: Option<String>,
    pub attributes: Option<String>,
}

/// Mathematical image of an [`UpstreamEntity`].
#[verifier::ext_equal]
pub ghost struct UpstreamEntityView {
    pub entity_id: Seq<char>,
    pub state: Option<Seq<char>>,
    pub last_changed: Option<Seq<char>>,
    pub last_updated: Option<Seq<char>>,
    pub attributes: Option<Seq<char>>,
}

impl View for UpstreamEntity {
    type V = UpstreamEntityView;

    open spec fn view(&self) -> UpstreamEntityView {
        UpstreamEntityView {
            entity_id: self.entity_id@,
            state: self.state.deep_view(),
            last_changed: self.last_changed.deep_view(),
            last_updated: self.last_updated.deep_view(),
            attributes: self.attributes.deep_view(),
        }
    }
}

impl DeepView for UpstreamEntity {
    type V = UpstreamEntityView;

    open spec fn deep_view(&self) -> UpstreamEntityView {
        self@
    }
}

/// The normalized state of one entity at a point in time. Immutable once
/// produced; holds exactly the fields a subscriber is shown.
pub struct Snapshot {
    pub entity_id: String,
    pub state: String,
    pub last_changed: String,
    pub last_updated: String,
    pub attributes: String,
}

/// Mathematical image of a [`Snapshot`].
#[verifier::ext_equal]
pub ghost struct SnapshotView {
    pub entity_id: Seq<char>,
    pub state: Seq<char>,
    pub last_changed: Seq<char>,
    pub last_updated: Seq<char>,
    pub attributes: Seq<char>,
}

impl View for Snapshot {
    type V = SnapshotView;

    open spec fn view(&self) -> SnapshotView {
        SnapshotView {
            entity_id: self.entity_id@,
            state: self.state@,
            last_changed: self.last_changed@,
            last_updated: self.last_updated@,
            attributes: self.attributes@,
        }
    }
}

impl DeepView for Snapshot {
    type V = SnapshotView;

    open spec fn deep_view(&self) -> SnapshotView {
        self@
    }
}

/// An absent optional upstream field maps to the empty representation.
pub open spec fn field_or_empty(f: Option<Seq<char>>) -> Seq<char> {
    match f {
        Some(s) => s,
        None => Seq::empty(),
    }
}

/// What the codec produces for a given upstream record: exactly the five
/// snapshot fields, with every absent optional field mapped to empty.
pub open spec fn spec_encode(e: UpstreamEntityView) -> SnapshotView {
    SnapshotView {
        entity_id: e.entity_id,
        state: field_or_empty(e.state),
        last_changed: field_or_empty(e.last_changed),
        last_updated: field_or_empty(e.last_updated),
        attributes: field_or_empty(e.attributes),
    }
}

fn clone_or_empty(f: &Option<String>) -> (r: String)
    ensures
        r@ == field_or_empty(f.deep_view()),
{
    match f {
        Some(s) => s.clone(),
        None => String::new(),
    }
}

/// The snapshot codec. Total: it never fails, and an absent optional
/// upstream field becomes the empty string rather than an error.
pub fn encode(e: &UpstreamEntity) -> (s: Snapshot)
    ensures
        s@ == spec_encode(e@),
{
    Snapshot {
        entity_id: e.entity_id.clone(),
        state: clone_or_empty(&e.state),
        last_changed: clone_or_empty(&e.last_changed),
        last_updated: clone_or_empty(&e.last_updated),
        attributes: clone_or_empty(&e.attributes),
    }
}

impl Snapshot {
    /// An explicit copy whose image equals this snapshot's.
    pub fn duplicate(&self) -> (r: Snapshot)
        ensures
            r@ == self@,
    {
        Snapshot {
            entity_id: self.entity_id.clone(),
            state: self.state.clone(),
            last_changed: self.last_changed.clone(),
            last_updated: self.last_updated.clone(),
            attributes: self.attributes.clone(),
        }
    }
}

} // verus!
