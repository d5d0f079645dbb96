//! The entity state cache: a single-writer table from entity id to the
//! most recent snapshot for that id.

use vstd::prelude::*;
use crate::snapshot::{Snapshot, SnapshotView};

verus! {

/// The map denoted by a sequence of keyed entries: a later entry for the
/// same key overrides an earlier one.
pub open spec fn entries_map(s: Seq<(String, Snapshot)>) -> Map<Seq<char>, SnapshotView>
    decreases s.len(),
{
    if s.len() == 0 {
        Map::empty()
    } else {
        entries_map(s.drop_last()).insert(s.last().0@, s.last().1@)
    }
}

/// No two entries carry the same key.
pub open spec fn unique_keys(s: Seq<(String, Snapshot)>) -> bool {
    forall|i: int, j: int| 0 <= i < j < s.len() ==> (#[trigger] s[i]).0@ != (#[trigger] s[j]).0@
}

/// The map denoted by a sequence of snapshots, each keyed by its own
/// entity id; a later snapshot for the same entity overrides an earlier one.
pub open spec fn snapshots_map(s: Seq<Snapshot>) -> Map<Seq<char>, SnapshotView>
    decreases s.len(),
{
    if s.len() == 0 {
        Map::empty()
    } else {
        snapshots_map(s.drop_last()).insert(s.last()@.entity_id, s.last()@)
    }
}

pub proof fn lemma_entries_map_contains(s: Seq<(String, Snapshot)>, k: Seq<char>)
    ensures
        entries_map(s).contains_key(k) <==> exists|i: int|
            0 <= i < s.len() && (#[trigger] s[i]).0@ == k,
    decreases s.len(),
{
    if s.len() > 0 {
        lemma_entries_map_contains(s.drop_last(), k);
        if s.last().0@ == k {
            assert(s[s.len() - 1].0@ == k);
        } else {
            if entries_map(s).contains_key(k) {
                let i = choose|i: int|
                    0 <= i < s.drop_last().len() && (#[trigger] s.drop_last()[i]).0@ == k;
                assert(s[i].0@ == k);
            }
            if exists|i: int| 0 <= i < s.len() && (#[trigger] s[i]).0@ == k {
                let i = choose|i: int| 0 <= i < s.len() && (#[trigger] s[i]).0@ == k;
                assert(i < s.len() - 1);
                assert(s.drop_last()[i].0@ == k);
            }
        }
    }
}

pub proof fn lemma_entries_map_index(s: Seq<(String, Snapshot)>, i: int)
    requires
        unique_keys(s),
        0 <= i < s.len(),
    ensures
        entries_map(s).contains_key(s[i].0@),
        entries_map(s)[s[i].0@] == s[i].1@,
    decreases s.len(),
{
    lemma_entries_map_contains(s, s[i].0@);
    if i == s.len() - 1 {
    } else {
        assert(s.drop_last()[i] == s[i]);
        lemma_entries_map_index(s.drop_last(), i);
        assert(s.last().0@ != s[i].0@);
    }
}

/// Replacing the one entry that carries key `k` with a new pair carrying
/// the same key updates exactly that key in the denoted map.
pub proof fn lemma_entries_map_update(s: Seq<(String, Snapshot)>, i: int, p: (String, Snapshot))
    requires
        unique_keys(s),
        0 <= i < s.len(),
        p.0@ == s[i].0@,
    ensures
        entries_map(s.update(i, p)) =~= entries_map(s).insert(p.0@, p.1@),
        unique_keys(s.update(i, p)),
    decreases s.len(),
{
    let t = s.update(i, p);
    assert(unique_keys(t)) by {
        assert forall|a: int, b: int| 0 <= a < b < t.len() implies (#[trigger] t[a]).0@
            != (#[trigger] t[b]).0@ by {
            assert(s[a].0@ != s[b].0@);
        }
    }
    if i == s.len() - 1 {
        assert(t.drop_last() =~= s.drop_last());
        assert(entries_map(t) =~= entries_map(s.drop_last()).insert(p.0@, p.1@));
        assert(entries_map(s).insert(p.0@, p.1@) =~= entries_map(s.drop_last()).insert(
            s.last().0@,
            s.last().1@,
        ).insert(p.0@, p.1@));
        assert(entries_map(s.drop_last()).insert(p.0@, p.1@) =~= entries_map(
            s.drop_last(),
        ).insert(s.last().0@, s.last().1@).insert(p.0@, p.1@));
    } else {
        assert(t.drop_last() =~= s.drop_last().update(i, p));
        assert(s.drop_last()[i] == s[i]);
        lemma_entries_map_update(s.drop_last(), i, p);
        assert(t.last() == s.last());
        assert(s.last().0@ != p.0@);
        assert(entries_map(t) =~= entries_map(s.drop_last()).insert(p.0@, p.1@).insert(
            s.last().0@,
            s.last().1@,
        ));
    }
}

/// Two entry sequences that agree pointwise on key and snapshot images
/// denote the same map.
pub proof fn lemma_entries_map_congruence(s: Seq<(String, Snapshot)>, t: Seq<(String, Snapshot)>)
    requires
        s.len() == t.len(),
        forall|i: int| 0 <= i < s.len() ==> (#[trigger] s[i]).0@ == (#[trigger] t[i]).0@
            && s[i].1@ == t[i].1@,
    ensures
        entries_map(s) =~= entries_map(t),
    decreases s.len(),
{
    if s.len() > 0 {
        assert(forall|i: int| 0 <= i < s.drop_last().len() ==> (#[trigger] s.drop_last()[i]).0@
            == (#[trigger] t.drop_last()[i]).0@ && s.drop_last()[i].1@ == t.drop_last()[i].1@);
        lemma_entries_map_congruence(s.drop_last(), t.drop_last());
        assert(s[s.len() - 1].0@ == t[s.len() - 1].0@ && s[s.len() - 1].1@ == t[s.len() - 1].1@);
    }
}

/// The single mutable table of the latest snapshot per entity id, owned by
/// the upstream connector; sessions read consistent copies of it.
pub struct EntityCache {
    entries: Vec<(String, Snapshot)>,
}

impl View for EntityCache {
    type V = Map<Seq<char>, SnapshotView>;

    closed spec fn view(&self) -> Map<Seq<char>, SnapshotView> {
        entries_map(self.entries@)
    }
}

impl EntityCache {
    /// Internal well-formedness: one entry per entity id.
    pub closed spec fn wf(&self) -> bool {
        unique_keys(self.entries@)
    }

    /// A cache that holds no entity yet.
    pub fn new() -> (c: EntityCache)
        ensures
            c.wf(),
            c@ =~= Map::<Seq<char>, SnapshotView>::empty(),
    {
        EntityCache { entries: Vec::new() }
    }

    /// Insert or overwrite the entry for `id`. Never fails.
    #[verifier::loop_isolation(false)]
    pub fn update(&mut self, id: String, snap: Snapshot)
        requires
            old(self).wf(),
        ensures
            final(self).wf(),
            final(self)@ =~= old(self)@.insert(id@, snap@),
    {
        let ghost s0 = self.entries@;
        let n = self.entries.len();
        let mut i: usize = 0;
        while i < n
            invariant
                n == self.entries.len(),
                i <= n,
                self.entries@ == s0,
                unique_keys(s0),
                forall|j: int| 0 <= j < i ==> (#[trigger] s0[j]).0@ != id@,
            decreases n - i,
        {
            if self.entries[i].0 == id {
                let ghost k = id@;
                let ghost v = snap@;
                self.entries[i] = (id, snap);
                proof {
                    let p = self.entries@[i as int];
                    assert(p.0@ == k && p.1@ == v);
                    assert(self.entries@ =~= s0.update(i as int, p));
                    lemma_entries_map_update(s0, i as int, p);
                }
                return ;
            }
            i += 1;
        }
        self.entries.push((id, snap));
        proof {
            assert(self.entries@.drop_last() =~= s0);
            assert(forall|j: int| 0 <= j < s0.len() ==> (#[trigger] s0[j]).0@ != id@);
        }
    }

    /// The snapshot currently cached for `id`, if any.
    #[verifier::loop_isolation(false)]
    pub fn get(&self, id: &String) -> (r: Option<&Snapshot>)
        requires
            self.wf(),
        ensures
            match r {
                Some(s) => self@.contains_key(id@) && s@ == self@[id@],
                None => !self@.contains_key(id@),
            },
    {
        let n = self.entries.len();
        let mut i: usize = 0;
        while i < n
            invariant
                n == self.entries.len(),
                i <= n,
                self.wf(),
                forall|j: int| 0 <= j < i ==> (#[trigger] self.entries@[j]).0@ != id@,
            decreases n - i,
        {
            if self.entries[i].0 == *id {
                proof {
                    lemma_entries_map_index(self.entries@, i as int);
                }
                return Some(&self.entries[i].1);
            }
            i += 1;
        }
        proof {
            lemma_entries_map_contains(self.entries@, id@);
        }
        None
    }

    /// A point-in-time copy of the whole table: one pair per cached
    /// entity, in no promised order, decoupled from later updates.
    #[verifier::loop_isolation(false)]
    pub fn snapshot_all(&self) -> (r: Vec<(String, Snapshot)>)
        requires
            self.wf(),
        ensures
            unique_keys(r@),
            entries_map(r@) =~= self@,
            forall|i: int| 0 <= i < r@.len() ==> self@.contains_pair(
                (#[trigger] r@[i]).0@,
                r@[i].1@,
            ),
            forall|k: Seq<char>| self@.contains_key(k) ==> exists|i: int|
                0 <= i < r@.len() && (#[trigger] r@[i]).0@ == k,
    {
        let n = self.entries.len();
        let mut r: Vec<(String, Snapshot)> = Vec::new();
        let mut i: usize = 0;
        while i < n
            invariant
                n == self.entries.len(),
                i <= n,
                self.wf(),
                r@.len() == i,
                forall|j: int| 0 <= j < i ==> (#[trigger] r@[j]).0@ == self.entries@[j].0@
                    && r@[j].1@ == self.entries@[j].1@,
            decreases n - i,
        {
            let p = &self.entries[i];
            r.push((p.0.clone(), p.1.duplicate()));
            i += 1;
        }
        proof {
            lemma_entries_map_congruence(r@, self.entries@);
            assert forall|i: int| 0 <= i < r@.len() implies self@.contains_pair(
                (#[trigger] r@[i]).0@,
                r@[i].1@,
            ) by {
                lemma_entries_map_index(self.entries@, i);
            }
            assert forall|k: Seq<char>| self@.contains_key(k) implies exists|i: int|
                0 <= i < r@.len() && (#[trigger] r@[i]).0@ == k by {
                lemma_entries_map_contains(self.entries@, k);
                let i = choose|i: int|
                    0 <= i < self.entries@.len() && (#[trigger] self.entries@[i]).0@ == k;
                assert(r@[i].0@ == k);
            }
        }
        r
    }

    /// Replace the whole content with the given snapshots, each keyed by
    /// its own entity id; called once before any event is processed.
    #[verifier::loop_isolation(false)]
    pub fn initialize(&mut self, snaps: &Vec<Snapshot>)
        requires
            old(self).wf(),
        ensures
            final(self).wf(),
            final(self)@ =~= snapshots_map(snaps@),
    {
        self.entries.clear();
        let n = snaps.len();
        let mut i: usize = 0;
        while i < n
            invariant
                n == snaps.len(),
                i <= n,
                self.wf(),
                self@ =~= snapshots_map(snaps@.take(i as int)),
            decreases n - i,
        {
            let sn = &snaps[i];
            self.update(sn.entity_id.clone(), sn.duplicate());
            proof {
                assert(snaps@.take(i + 1 as int).drop_last() =~= snaps@.take(i as int));
                assert(snaps@.take(i + 1 as int).last() == snaps@[i as int]);
            }
            i += 1;
        }
        proof {
            assert(snaps@.take(n as int) =~= snaps@);
        }
    }
}

} // verus!
