//! The client session protocol: parse the connection-time filter, then
//! subscribe *before* copying the cache, so no event can fall between the
//! initial snapshot and the live stream. An event already captured in the
//! snapshot may be delivered again — a harmless duplicate, since every
//! message is an idempotent overwrite keyed by entity id.

use vstd::prelude::*;
use vstd::string::StrSliceExecFns;
use vstd::string::StringExecFns;
use crate::snapshot::Snapshot;
use crate::cache::unique_keys;
use crate::hub::{filter_accepts, accepts, SubscriptionView};
use crate::connector::Connector;

verus! {

/// The comma-split of a header value: splitting the empty text yields one
/// empty part, and every comma ends the part before it.
pub open spec fn split_commas(s: Seq<char>) -> Seq<Seq<char>>
    decreases s.len(),
{
    if s.len() == 0 {
        seq![Seq::empty()]
    } else if s.last() == ',' {
        split_commas(s.drop_last()).push(Seq::empty())
    } else {
        let pre = split_commas(s.drop_last());
        pre.update(pre.len() - 1, pre.last().push(s.last()))
    }
}

/// A split always yields at least one part.
pub proof fn lemma_split_commas_len(s: Seq<char>)
    ensures
        split_commas(s).len() >= 1,
    decreases s.len(),
{
    if s.len() > 0 {
        lemma_split_commas_len(s.drop_last());
    }
}

/// Parse the client-supplied filter header: the names between commas, in
/// order, exactly as [`split_commas`] says.
#[verifier::loop_isolation(false)]
pub fn parse_entity_list(header: &str) -> (r: Vec<String>)
    ensures
        r.deep_view() =~= split_commas(header@),
{
    let n = header.unicode_len();
    let mut r: Vec<String> = Vec::new();
    let mut start: usize = 0;
    let mut i: usize = 0;
    proof {
        assert(header@.take(0) =~= Seq::<char>::empty());
        assert(split_commas(Seq::<char>::empty()) =~= seq![Seq::<char>::empty()]);
        assert(header@.subrange(0, 0) =~= Seq::<char>::empty());
        assert(r.deep_view().push(header@.subrange(0, 0)) =~= seq![Seq::<char>::empty()]);
    }
    while i < n
        invariant
            n == header@.len(),
            start <= i <= n,
            r.deep_view().push(header@.subrange(start as int, i as int)) =~= split_commas(
                header@.take(i as int),
            ),
        decreases n - i,
    {
        let c = header.get_char(i);
        proof {
            assert(header@.take(i + 1 as int).drop_last() =~= header@.take(i as int));
            assert(header@.take(i + 1 as int).last() == header@[i as int]);
            lemma_split_commas_len(header@.take(i as int));
        }
        if c == ',' {
            let part = header.substring_char(start, i);
            r.push(String::from_str(part));
            proof {
                assert(r.deep_view() =~= split_commas(header@.take(i as int)));
                assert(split_commas(header@.take(i + 1 as int)) =~= split_commas(
                    header@.take(i as int),
                ).push(Seq::empty()));
                assert(header@.subrange(i + 1 as int, i + 1 as int) =~= Seq::<char>::empty());
            }
            start = i + 1;
        } else {
            proof {
                let pre = split_commas(header@.take(i as int));
                assert(split_commas(header@.take(i + 1 as int)) =~= pre.update(
                    pre.len() - 1,
                    pre.last().push(header@[i as int]),
                ));
                assert(pre.last() == header@.subrange(start as int, i as int));
                assert(header@.subrange(start as int, i + 1 as int) =~= header@.subrange(
                    start as int,
                    i as int,
                ).push(header@[i as int]));
                assert(r.deep_view().push(header@.subrange(start as int, i + 1 as int)) =~= pre
                    .update(pre.len() - 1, pre.last().push(header@[i as int])));
            }
        }
        i += 1;
    }
    let part = header.substring_char(start, n);
    r.push(String::from_str(part));
    proof {
        assert(header@.take(n as int) =~= header@);
        assert(r.deep_view() =~= split_commas(header@));
    }
    r
}

/// An explicit copy of a filter with the same image.
pub fn clone_filter(f: &Option<Vec<String>>) -> (r: Option<Vec<String>>)
    ensures
        r.deep_view() == f.deep_view(),
{
    match f {
        None => None,
        Some(ids) => {
            let n = ids.len();
            let mut out: Vec<String> = Vec::new();
            let mut i: usize = 0;
            while i < n
                invariant
                    n == ids.len(),
                    i <= n,
                    out@.len() == i,
                    forall|j: int| 0 <= j < i ==> (#[trigger] out@[j])@ == ids@[j]@,
                decreases n - i,
            {
                out.push(ids[i].clone());
                i += 1;
            }
            proof {
                assert(out.deep_view() =~= ids.deep_view());
            }
            Some(out)
        },
    }
}

/// `p` is one of the first `bound` entries of `all`, up to image.
pub open spec fn entry_from(all: Seq<(String, Snapshot)>, bound: int, p: (String, Snapshot)) -> bool {
    exists|m: int| 0 <= m < bound && (#[trigger] all[m]).0@ == p.0@ && all[m].1@ == p.1@
}

/// Some entry of `out` carries key `k`.
pub open spec fn has_key(out: Seq<(String, Snapshot)>, k: Seq<char>) -> bool {
    exists|j: int| 0 <= j < out.len() && (#[trigger] out[j]).0@ == k
}

proof fn lemma_entry_from_widen(all: Seq<(String, Snapshot)>, b1: int, b2: int, p: (String, Snapshot))
    requires
        entry_from(all, b1, p),
        b1 <= b2,
    ensures
        entry_from(all, b2, p),
{
    let m = choose|m: int| 0 <= m < b1 && (#[trigger] all[m]).0@ == p.0@ && all[m].1@ == p.1@;
    assert(0 <= m < b2 && all[m].0@ == p.0@ && all[m].1@ == p.1@);
}

/// One live client session: the hub handle it owns and its fixed filter.
pub struct Session {
    pub handle: u64,
    pub filter: Option<Vec<String>>,
}

/// Open a session: subscribe to the hub with the session's filter first,
/// then copy the cache and keep only the accepted entries.
///
/// The returned vector is the initial snapshot burst: it holds at most
/// one entry per entity id, every entry matches the filter and equals the
/// cache value at subscription time, and every cached entity the filter
/// accepts appears in it.
#[verifier::loop_isolation(false)]
pub fn start_session(conn: &mut Connector, filter: Option<Vec<String>>) -> (r: (
    Session,
    Vec<(String, Snapshot)>,
))
    requires
        old(conn).wf(),
        old(conn).hub@.next < u64::MAX,
    ensures
        final(conn).wf(),
        final(conn).cache@ == old(conn).cache@,
        final(conn).hub@.next == old(conn).hub@.next + 1,
        r.0.handle == old(conn).hub@.next,
        r.0.filter.deep_view() == filter.deep_view(),
        final(conn).hub@.subs =~= old(conn).hub@.subs.push(
            (SubscriptionView {
                handle: r.0.handle,
                filter: filter.deep_view(),
                queue: Seq::empty(),
            }),
        ),
        unique_keys(r.1@),
        forall|i: int| 0 <= i < r.1@.len() ==> filter_accepts(
            filter.deep_view(),
            (#[trigger] r.1@[i]).0@,
        ) && old(conn).cache@.contains_pair(r.1@[i].0@, r.1@[i].1@),
        forall|k: Seq<char>| old(conn).cache@.contains_key(k) && filter_accepts(
            filter.deep_view(),
            k,
        ) ==> has_key(r.1@, k),
{
    let sub_filter = clone_filter(&filter);
    let handle = conn.hub.subscribe(sub_filter);
    let all = conn.cache.snapshot_all();
    let init = filter_entries(&all, &filter);
    proof {
        assert forall|k: Seq<char>|
            old(conn).cache@.contains_key(k) && filter_accepts(
                filter.deep_view(),
                k,
            ) implies has_key(init@, k) by {
            let m = choose|m: int| 0 <= m < all@.len() && (#[trigger] all@[m]).0@ == k;
            assert(filter_accepts(filter.deep_view(), all@[m].0@));
        }
        assert forall|j: int| 0 <= j < init@.len() implies old(conn).cache@.contains_pair(
            (#[trigger] init@[j]).0@,
            init@[j].1@,
        ) by {
            assert(entry_from(all@, all@.len() as int, init@[j]));
            let m = choose|m: int|
                0 <= m < all@.len() && (#[trigger] all@[m]).0@ == init@[j].0@ && all@[m].1@
                    == init@[j].1@;
            assert(old(conn).cache@.contains_pair(all@[m].0@, all@[m].1@));
        }
    }
    (Session { handle, filter }, init)
}

/// The client-side filtering of the cache copy: keep, in order, exactly
/// the entries the filter accepts.
#[verifier::loop_isolation(false)]
#[verifier::rlimit(60)]
fn filter_entries(all: &Vec<(String, Snapshot)>, filter: &Option<Vec<String>>) -> (out: Vec<
    (String, Snapshot),
>)
    requires
        unique_keys(all@),
    ensures
        unique_keys(out@),
        forall|j: int| 0 <= j < out@.len() ==> entry_from(all@, all@.len() as int, #[trigger] out@[j]),
        forall|j: int| 0 <= j < out@.len() ==> filter_accepts(
            filter.deep_view(),
            (#[trigger] out@[j]).0@,
        ),
        forall|m: int| 0 <= m < all@.len() && filter_accepts(
            filter.deep_view(),
            (#[trigger] all@[m]).0@,
        ) ==> has_key(out@, all@[m].0@),
{
    let n = all.len();
    let mut out: Vec<(String, Snapshot)> = Vec::new();
    let mut i: usize = 0;
    while i < n
        invariant
            n == all.len(),
            i <= n,
            unique_keys(out@),
            forall|j: int| 0 <= j < out@.len() ==> entry_from(all@, i as int, #[trigger] out@[j]),
            forall|j: int| 0 <= j < out@.len() ==> filter_accepts(
                filter.deep_view(),
                (#[trigger] out@[j]).0@,
            ),
            forall|m: int| 0 <= m < i && filter_accepts(
                filter.deep_view(),
                (#[trigger] all@[m]).0@,
            ) ==> has_key(out@, all@[m].0@),
        decreases n - i,
    {
        let ghost pre = out@;
        let p = &all[i];
        let acc = accepts(filter, &p.0);
        if acc {
            out.push((p.0.clone(), p.1.duplicate()));
            proof {
                assert(out@[pre.len() as int].0@ == all@[i as int].0@);
                assert(out@[pre.len() as int].1@ == all@[i as int].1@);
                assert forall|a: int, b: int| 0 <= a < b < out@.len() implies (
                #[trigger] out@[a]).0@ != (#[trigger] out@[b]).0@ by {
                    if b == out@.len() - 1 {
                        assert(entry_from(all@, i as int, pre[a]));
                        let m = choose|m: int|
                            0 <= m < i && (#[trigger] all@[m]).0@ == pre[a].0@ && all@[m].1@
                                == pre[a].1@;
                        assert(all@[m].0@ != all@[i as int].0@);
                    }
                }
            }
        }
        proof {
            assert forall|j: int| 0 <= j < out@.len() implies entry_from(
                all@,
                i + 1 as int,
                #[trigger] out@[j],
            ) by {
                if j < pre.len() {
                    assert(out@[j] == pre[j]);
                    lemma_entry_from_widen(all@, i as int, i + 1 as int, pre[j]);
                } else {
                    assert(out@[j].0@ == all@[i as int].0@ && out@[j].1@ == all@[i as int].1@);
                }
            }
            assert forall|m: int|
                0 <= m <= i as int && filter_accepts(
                    filter.deep_view(),
                    (#[trigger] all@[m]).0@,
                ) implies has_key(out@, all@[m].0@) by {
                if m < i as int {
                    assert(has_key(pre, all@[m].0@));
                    let j = choose|j: int| 0 <= j < pre.len() && (#[trigger] pre[j]).0@
                        == all@[m].0@;
                    assert(out@[j].0@ == all@[m].0@);
                } else {
                    assert(acc);
                    assert(out@[out@.len() - 1].0@ == all@[m].0@);
                }
            }
        }
        i += 1;
    }
    out
}

impl Session {
    /// Relay step: everything the hub has queued for this session since
    /// the last poll, in delivery order; the session's queue is left
    /// empty and every other subscription is untouched.
    pub fn poll(&self, conn: &mut Connector) -> (evs: Vec<crate::hub::Event>)
        requires
            old(conn).wf(),
        ensures
            final(conn).wf(),
            final(conn).cache@ == old(conn).cache@,
            final(conn).hub@.next == old(conn).hub@.next,
            final(conn).hub@.subs.len() == old(conn).hub@.subs.len(),
            forall|j: int| 0 <= j < old(conn).hub@.subs.len() && (#[trigger] old(
                conn,
            ).hub@.subs[j]).handle != self.handle ==> final(conn).hub@.subs[j] == old(
                conn,
            ).hub@.subs[j],
            forall|j: int| 0 <= j < old(conn).hub@.subs.len() && (#[trigger] old(
                conn,
            ).hub@.subs[j]).handle == self.handle ==> (final(conn).hub@.subs[j] == (
            SubscriptionView {
                queue: Seq::empty(),
                ..old(conn).hub@.subs[j]
            }) && evs.deep_view() =~= old(conn).hub@.subs[j].queue),
    {
        conn.hub.take_events(self.handle)
    }

    /// End the session: drop its subscription, so no further event is
    /// queued for it. The connector, the cache and every other
    /// subscription go on unaffected — a session failure is local.
    pub fn close(self, conn: &mut Connector)
        requires
            old(conn).wf(),
        ensures
            final(conn).wf(),
            final(conn).cache@ == old(conn).cache@,
            final(conn).hub@.next == old(conn).hub@.next,
            (exists|i: int| 0 <= i < old(conn).hub@.subs.len() && (#[trigger] old(
                conn,
            ).hub@.subs[i]).handle == self.handle) ==> exists|i: int|
                0 <= i < old(conn).hub@.subs.len() && (#[trigger] old(
                    conn,
                ).hub@.subs[i]).handle == self.handle && final(conn).hub@.subs =~= old(
                    conn,
                ).hub@.subs.remove(i),
            !(exists|i: int| 0 <= i < old(conn).hub@.subs.len() && (#[trigger] old(
                conn,
            ).hub@.subs[i]).handle == self.handle) ==> final(conn).hub@.subs =~= old(
                conn,
            ).hub@.subs,
    {
        conn.hub.unsubscribe(self.handle);
    }
}

} // verus!
