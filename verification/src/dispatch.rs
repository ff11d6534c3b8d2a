//! The broadcast dispatcher.
//!
//! A broadcast encodes its envelope exactly once and then queues the encoded
//! frame on every registered connection, in registration order.  A
//! per-connection send failure (broken write side or saturated bounded queue)
//! is isolated: it does not abort delivery to the remaining connections, and
//! it unregisters the failed connection, treating the failure as an implicit
//! disconnect.  Broadcasts are serialized at this dispatch point, so any two
//! broadcasts reach every connection that receives both in issue order.

use vstd::prelude::*;

use crate::protocol::{encode, encode_spec, Envelope};
use crate::registry::{can_accept, contains_id, deliver, ids_distinct, EntryView, HandleView, Registry};

verus! {

/// The registry contents after one broadcast of `frame`: every entry whose
/// handle accepts keeps its place with the frame queued; every entry whose
/// handle cannot accept is removed.
pub open spec fn after_broadcast(s: Seq<EntryView>, frame: Seq<u8>) -> Seq<EntryView>
    decreases s.len(),
{
    if s.len() == 0 {
        Seq::empty()
    } else {
        let rest = after_broadcast(s.drop_first(), frame);
        if can_accept(s[0].handle) {
            seq![EntryView { id: s[0].id, handle: deliver(s[0].handle, frame) }] + rest
        } else {
            rest
        }
    }
}

/// True when `e` is what broadcasting `frame` makes of some entry of `s`.
pub open spec fn delivered_from(s: Seq<EntryView>, frame: Seq<u8>, e: EntryView) -> bool {
    exists|k: int|
        0 <= k < s.len() && can_accept(#[trigger] s[k].handle) && e == (EntryView {
            id: s[k].id,
            handle: deliver(s[k].handle, frame),
        })
}

/// True when `r` holds an entry for `id` carrying exactly the handle `h`.
pub open spec fn has_entry(r: Seq<EntryView>, id: u64, h: HandleView) -> bool {
    exists|i: int| 0 <= i < r.len() && #[trigger] r[i] == (EntryView { id, handle: h })
}

/// A broadcast distributes over concatenation of registries.
pub(crate) proof fn lemma_after_broadcast_concat(a: Seq<EntryView>, b: Seq<EntryView>, frame: Seq<u8>)
    ensures
        after_broadcast(a + b, frame) == after_broadcast(a, frame) + after_broadcast(b, frame),
    decreases a.len(),
{
    if a.len() == 0 {
        assert(a + b =~= b);
        assert(after_broadcast(a, frame) =~= Seq::<EntryView>::empty());
        assert(after_broadcast(a, frame) + after_broadcast(b, frame) =~= after_broadcast(
            b,
            frame,
        ));
    } else {
        assert((a + b).drop_first() =~= a.drop_first() + b);
        lemma_after_broadcast_concat(a.drop_first(), b, frame);
        assert((a + b)[0] == a[0]);
        if can_accept(a[0].handle) {
            assert(after_broadcast(a + b, frame) =~= after_broadcast(a, frame) + after_broadcast(
                b,
                frame,
            ));
        } else {
            assert(after_broadcast(a + b, frame) =~= after_broadcast(a, frame) + after_broadcast(
                b,
                frame,
            ));
        }
    }
}

/// Everything a broadcast leaves in the registry came from an entry that
/// accepted the frame, with exactly that frame queued on it.
pub proof fn lemma_after_broadcast_entries(s: Seq<EntryView>, frame: Seq<u8>)
    ensures
        forall|i: int|
            0 <= i < after_broadcast(s, frame).len() ==> delivered_from(
                s,
                frame,
                #[trigger] after_broadcast(s, frame)[i],
            ),
    decreases s.len(),
{
    if s.len() == 0 {
    } else {
        lemma_after_broadcast_entries(s.drop_first(), frame);
        let r = after_broadcast(s, frame);
        let rr = after_broadcast(s.drop_first(), frame);
        assert forall|i: int| 0 <= i < r.len() implies delivered_from(s, frame, #[trigger] r[i]) by {
            if can_accept(s[0].handle) {
                if i == 0 {
                    assert(can_accept(s[0].handle) && r[0] == (EntryView {
                        id: s[0].id,
                        handle: deliver(s[0].handle, frame),
                    }));
                } else {
                    assert(r[i] == rr[i - 1]);
                    let k = choose|k: int|
                        0 <= k < s.drop_first().len() && can_accept(
                            #[trigger] s.drop_first()[k].handle,
                        ) && rr[i - 1] == (EntryView {
                            id: s.drop_first()[k].id,
                            handle: deliver(s.drop_first()[k].handle, frame),
                        });
                    assert(s.drop_first()[k] == s[k + 1]);
                    assert(can_accept(s[k + 1].handle));
                }
            } else {
                assert(r[i] == rr[i]);
                let k = choose|k: int|
                    0 <= k < s.drop_first().len() && can_accept(
                        #[trigger] s.drop_first()[k].handle,
                    ) && rr[i] == (EntryView {
                        id: s.drop_first()[k].id,
                        handle: deliver(s.drop_first()[k].handle, frame),
                    });
                assert(s.drop_first()[k] == s[k + 1]);
                assert(can_accept(s[k + 1].handle));
            }
        }
    }
}

/// Broadcast fan-out: every entry that can accept receives exactly one copy
/// of the frame, queued behind what it already held, and stays registered.
pub proof fn lemma_after_broadcast_delivers(s: Seq<EntryView>, frame: Seq<u8>, k: int)
    requires
        0 <= k < s.len(),
        can_accept(s[k].handle),
    ensures
        has_entry(after_broadcast(s, frame), s[k].id, deliver(s[k].handle, frame)),
    decreases s.len(),
{
    let r = after_broadcast(s, frame);
    if k == 0 {
        assert(r[0] == (EntryView { id: s[0].id, handle: deliver(s[0].handle, frame) }));
    } else {
        assert(s.drop_first()[k - 1] == s[k]);
        lemma_after_broadcast_delivers(s.drop_first(), frame, k - 1);
        let rr = after_broadcast(s.drop_first(), frame);
        let i = choose|i: int|
            0 <= i < rr.len() && #[trigger] rr[i] == (EntryView {
                id: s[k].id,
                handle: deliver(s[k].handle, frame),
            });
        if can_accept(s[0].handle) {
            assert(r[i + 1] == rr[i]);
        } else {
            assert(r[i] == rr[i]);
        }
    }
}

/// Partial-failure isolation, removal half: an entry whose handle cannot
/// accept is gone from the registry after the broadcast.
pub proof fn lemma_after_broadcast_removes(s: Seq<EntryView>, frame: Seq<u8>, k: int)
    requires
        ids_distinct(s),
        0 <= k < s.len(),
        !can_accept(s[k].handle),
    ensures
        !contains_id(after_broadcast(s, frame), s[k].id),
{
    lemma_after_broadcast_entries(s, frame);
    let r = after_broadcast(s, frame);
    assert forall|i: int| 0 <= i < r.len() implies r[i].id != s[k].id by {
        assert(delivered_from(s, frame, r[i]));
        let k2 = choose|k2: int|
            0 <= k2 < s.len() && can_accept(#[trigger] s[k2].handle) && r[i] == (EntryView {
                id: s[k2].id,
                handle: deliver(s[k2].handle, frame),
            });
        if r[i].id == s[k].id {
            assert(s[k2].id == s[k].id);
            assert(k2 == k);
        }
    }
}

/// A broadcast never introduces an id that was not registered.
pub proof fn lemma_after_broadcast_member(s: Seq<EntryView>, frame: Seq<u8>)
    ensures
        forall|i: int|
            0 <= i < after_broadcast(s, frame).len() ==> contains_id(
                s,
                #[trigger] after_broadcast(s, frame)[i].id,
            ),
{
    lemma_after_broadcast_entries(s, frame);
    let r = after_broadcast(s, frame);
    assert forall|i: int| 0 <= i < r.len() implies contains_id(s, #[trigger] r[i].id) by {
        assert(delivered_from(s, frame, r[i]));
        let k = choose|k: int|
            0 <= k < s.len() && can_accept(#[trigger] s[k].handle) && r[i] == (EntryView {
                id: s[k].id,
                handle: deliver(s[k].handle, frame),
            });
        assert(s[k].id == r[i].id);
    }
}

/// A broadcast keeps the registry's ids distinct.
pub proof fn lemma_after_broadcast_distinct(s: Seq<EntryView>, frame: Seq<u8>)
    requires
        ids_distinct(s),
    ensures
        ids_distinct(after_broadcast(s, frame)),
    decreases s.len(),
{
    if s.len() == 0 {
    } else {
        assert(ids_distinct(s.drop_first())) by {
            assert forall|p: int, q: int|
                0 <= p < q < s.drop_first().len() implies s.drop_first()[p].id
                != s.drop_first()[q].id by {
                assert(s.drop_first()[p] == s[p + 1]);
                assert(s.drop_first()[q] == s[q + 1]);
            }
        }
        lemma_after_broadcast_distinct(s.drop_first(), frame);
        lemma_after_broadcast_member(s.drop_first(), frame);
        let r = after_broadcast(s, frame);
        let rr = after_broadcast(s.drop_first(), frame);
        if can_accept(s[0].handle) {
            assert forall|p: int, q: int| 0 <= p < q < r.len() implies r[p].id != r[q].id by {
                if p == 0 {
                    assert(r[q] == rr[q - 1]);
                    assert(contains_id(s.drop_first(), rr[q - 1].id));
                    let m = choose|m: int|
                        0 <= m < s.drop_first().len() && #[trigger] s.drop_first()[m].id == rr[q
                            - 1].id;
                    assert(s[m + 1].id == rr[q - 1].id);
                } else {
                    assert(r[p] == rr[p - 1]);
                    assert(r[q] == rr[q - 1]);
                }
            }
        }
    }
}

/// True when the queue `fr` holds `f1` immediately before `f2`.
pub open spec fn observed_in_order(fr: Seq<Seq<u8>>, f1: Seq<u8>, f2: Seq<u8>) -> bool {
    exists|n: int| 0 <= n && n + 1 < fr.len() && #[trigger] fr[n] == f1 && fr[n + 1] == f2
}

/// Ordering: after broadcasting `f1` and then `f2`, every connection still
/// registered holds `f1` immediately before `f2` in its queue — it observed
/// the two broadcasts in issue order.
pub proof fn lemma_broadcast_ordering(s: Seq<EntryView>, f1: Seq<u8>, f2: Seq<u8>)
    ensures
        forall|i: int|
            0 <= i < after_broadcast(after_broadcast(s, f1), f2).len() ==> observed_in_order(
                #[trigger] after_broadcast(after_broadcast(s, f1), f2)[i].handle.frames,
                f1,
                f2,
            ),
{
    let r1 = after_broadcast(s, f1);
    let r2 = after_broadcast(r1, f2);
    lemma_after_broadcast_entries(s, f1);
    lemma_after_broadcast_entries(r1, f2);
    assert forall|i: int| 0 <= i < r2.len() implies observed_in_order(
        #[trigger] r2[i].handle.frames,
        f1,
        f2,
    ) by {
        assert(delivered_from(r1, f2, r2[i]));
        let k1 = choose|k1: int|
            0 <= k1 < r1.len() && can_accept(#[trigger] r1[k1].handle) && r2[i] == (EntryView {
                id: r1[k1].id,
                handle: deliver(r1[k1].handle, f2),
            });
        assert(delivered_from(s, f1, r1[k1]));
        let k0 = choose|k0: int|
            0 <= k0 < s.len() && can_accept(#[trigger] s[k0].handle) && r1[k1] == (EntryView {
                id: s[k0].id,
                handle: deliver(s[k0].handle, f1),
            });
        let base = s[k0].handle.frames;
        let fr = r2[i].handle.frames;
        assert(fr == base.push(f1).push(f2));
        let n = base.len() as int;
        assert(fr[n] == f1 && fr[n + 1] == f2 && n + 1 < fr.len());
    }
}

/// Broadcasts an envelope: encodes it exactly once and queues the encoded
/// bytes on every registered connection, isolating per-connection failures.
pub fn broadcast(reg: &mut Registry, env: &Envelope)
    requires
        old(reg).wf(),
    ensures
        final(reg)@ == after_broadcast(old(reg)@, encode_spec(env@)),
        final(reg).wf(),
{
    let frame = encode(env);
    reg.broadcast_frame(&frame);
}

} // verus!
