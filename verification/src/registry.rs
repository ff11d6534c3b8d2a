//! The connection registry.
//!
//! Tracks live connections keyed by `ConnectionId`.  Each entry pairs the id
//! with its send handle: a bounded queue of encoded frames awaiting the
//! transport.  Entries are created on connect, removed on disconnect or on an
//! unrecoverable send failure for that id.  Registering a live id twice is a
//! surfaced invariant violation (it indicates a transport bug); unregistering
//! an absent id is a no-op, since a disconnect notice may legitimately race a
//! send failure on the same id.

use vstd::prelude::*;

use crate::dispatch::{
    after_broadcast, lemma_after_broadcast_concat, lemma_after_broadcast_distinct,
};

verus! {

/// Identifies one live transport connection.  Issued by the transport on
/// accept, unique for the connection's lifetime, never reused while the
/// registry still holds it.
pub type ConnectionId = u64;

/// The mathematical value of a send handle: the frames queued for the
/// transport, the queue's bound, and whether the write side has failed.
#[verifier::ext_equal]
pub struct HandleView {
    pub frames: Seq<Seq<u8>>,
    pub capacity: nat,
    pub broken: bool,
}

/// True when one more frame can be queued on the handle: the write side is
/// intact and the bounded queue is not saturated.
pub open spec fn can_accept(h: HandleView) -> bool {
    !h.broken && h.frames.len() < h.capacity
}

/// The handle after one frame was queued on it.
pub open spec fn deliver(h: HandleView, frame: Seq<u8>) -> HandleView {
    HandleView { frames: h.frames.push(frame), ..h }
}

/// A per-connection send handle.  Sending to a connection may block on
/// backpressure, so each connection gets a bounded queue; a saturated queue
/// is treated as a send failure, exactly like a broken write side, so one
/// slow consumer cannot stall delivery to the others.
pub struct SendHandle {
    queue: Vec<Vec<u8>>,
    capacity: usize,
    broken: bool,
}

impl View for SendHandle {
    type V = HandleView;

    closed spec fn view(&self) -> HandleView {
        HandleView {
            frames: self.queue.deep_view(),
            capacity: self.capacity as nat,
            broken: self.broken,
        }
    }
}

impl SendHandle {
    /// A fresh handle: empty queue with the given bound, write side intact.
    pub fn new(capacity: usize) -> (h: SendHandle)
        ensures
            h@ == (HandleView {
                frames: Seq::<Seq<u8>>::empty(),
                capacity: capacity as nat,
                broken: false,
            }),
    {
        let h = SendHandle { queue: Vec::new(), capacity, broken: false };
        proof {
            assert(h@.frames =~= Seq::<Seq<u8>>::empty());
            assert(h@ =~= HandleView {
                frames: Seq::<Seq<u8>>::empty(),
                capacity: capacity as nat,
                broken: false,
            });
        }
        h
    }

    /// Queues one frame.  Fails, leaving the handle unchanged, exactly when
    /// the handle cannot accept: write side broken or queue saturated.
    pub fn send(&mut self, frame: &Vec<u8>) -> (ok: bool)
        ensures
            ok == can_accept(old(self)@),
            ok ==> final(self)@ == deliver(old(self)@, frame@),
            !ok ==> final(self)@ == old(self)@,
    {
        if self.broken || self.queue.len() >= self.capacity {
            return false;
        }
        let copy = vstd::slice::slice_to_vec(frame.as_slice());
        self.queue.push(copy);
        proof {
            assert(self@.frames =~~= old(self)@.frames.push(frame@));
            assert(self@ =~= deliver(old(self)@, frame@));
        }
        true
    }

    /// Records that the transport reported a failed write on this handle.
    pub fn mark_broken(&mut self)
        ensures
            final(self)@ == (HandleView { broken: true, ..old(self)@ }),
    {
        self.broken = true;
        proof {
            assert(self@ =~= HandleView { broken: true, ..old(self)@ });
        }
    }

    /// Hands the queued frames to the transport, leaving the queue empty.
    pub fn take_frames(&mut self) -> (frames: Vec<Vec<u8>>)
        ensures
            frames.deep_view() == old(self)@.frames,
            final(self)@ == (HandleView { frames: Seq::<Seq<u8>>::empty(), ..old(self)@ }),
    {
        let mut out: Vec<Vec<u8>> = Vec::new();
        core::mem::swap(&mut out, &mut self.queue);
        proof {
            assert(self@.frames =~= Seq::<Seq<u8>>::empty());
            assert(self@ =~= HandleView { frames: Seq::<Seq<u8>>::empty(), ..old(self)@ });
        }
        out
    }
}

/// The mathematical value of one registry entry.
#[verifier::ext_equal]
pub struct EntryView {
    pub id: ConnectionId,
    pub handle: HandleView,
}

/// One live connection: its id and its send handle.
pub struct Entry {
    pub id: ConnectionId,
    pub handle: SendHandle,
}

impl View for Entry {
    type V = EntryView;

    open spec fn view(&self) -> EntryView {
        EntryView { id: self.id, handle: self.handle@ }
    }
}

impl DeepView for Entry {
    type V = EntryView;

    open spec fn deep_view(&self) -> EntryView {
        self@
    }
}

/// Registering an id that is already live is a transport bug, surfaced for
/// diagnostics rather than silently ignored.
#[derive(Clone, Copy, PartialEq, Eq, Structural, Debug)]
pub enum RegistryError {
    DuplicateId,
}

/// True when no two entries share an id.
pub open spec fn ids_distinct(s: Seq<EntryView>) -> bool {
    forall|i: int, j: int| 0 <= i < j < s.len() ==> s[i].id != s[j].id
}

/// True when some entry carries the id.
pub open spec fn contains_id(s: Seq<EntryView>, id: ConnectionId) -> bool {
    exists|i: int| 0 <= i < s.len() && s[i].id == id
}

/// The entries with the given id taken out, order of the rest kept.
pub open spec fn remove_id(s: Seq<EntryView>, id: ConnectionId) -> Seq<EntryView>
    decreases s.len(),
{
    if s.len() == 0 {
        Seq::empty()
    } else if s[0].id == id {
        remove_id(s.drop_first(), id)
    } else {
        seq![s[0]] + remove_id(s.drop_first(), id)
    }
}

/// The sequence of registered ids, in registration order.
pub open spec fn ids_of(s: Seq<EntryView>) -> Seq<ConnectionId> {
    s.map_values(|e: EntryView| e.id)
}

/// The entries with the handle of `id` marked broken, everything else kept.
pub open spec fn broken_at(s: Seq<EntryView>, id: ConnectionId) -> Seq<EntryView> {
    Seq::new(
        s.len(),
        |i: int|
            if s[i].id == id {
                EntryView { id: s[i].id, handle: HandleView { broken: true, ..s[i].handle } }
            } else {
                s[i]
            },
    )
}

/// The entries with the queue of `id` emptied, everything else kept.
pub open spec fn drained_at(s: Seq<EntryView>, id: ConnectionId) -> Seq<EntryView> {
    Seq::new(
        s.len(),
        |i: int|
            if s[i].id == id {
                EntryView {
                    id: s[i].id,
                    handle: HandleView { frames: Seq::<Seq<u8>>::empty(), ..s[i].handle },
                }
            } else {
                s[i]
            },
    )
}

/// The position of the entry carrying `id`; meaningful when one exists.
pub open spec fn index_of_id(s: Seq<EntryView>, id: ConnectionId) -> int {
    choose|i: int| 0 <= i < s.len() && s[i].id == id
}

/// The frames queued for `id`; meaningful when the id is registered.
pub open spec fn frames_of(s: Seq<EntryView>, id: ConnectionId) -> Seq<Seq<u8>> {
    s[index_of_id(s, id)].handle.frames
}

/// The connection registry: the live connections in registration order.
pub struct Registry {
    pub(crate) entries: Vec<Entry>,
}

impl View for Registry {
    type V = Seq<EntryView>;

    closed spec fn view(&self) -> Seq<EntryView> {
        self.entries.deep_view()
    }
}

impl Registry {
    /// True when the registry holds no two entries for one id.  Established
    /// by `new` and preserved by every method.
    pub open spec fn wf(&self) -> bool {
        ids_distinct(self@)
    }

    /// An empty registry.
    pub fn new() -> (r: Registry)
        ensures
            r@ == Seq::<EntryView>::empty(),
            r.wf(),
    {
        let r = Registry { entries: Vec::new() };
        proof {
            assert(r@ =~= Seq::<EntryView>::empty());
        }
        r
    }

    /// How many connections are registered; observable for diagnostics.
    pub fn len(&self) -> (n: usize)
        ensures
            n == self@.len(),
    {
        self.entries.len()
    }

    /// The position of the entry carrying `id`, if one is registered.
    fn find(&self, id: ConnectionId) -> (r: Option<usize>)
        ensures
            r matches Some(i) ==> i < self@.len() && self@[i as int].id == id,
            r is None ==> !contains_id(self@, id),
    {
        let mut i: usize = 0;
        while i < self.entries.len()
            invariant
                i <= self@.len(),
                forall|j: int| 0 <= j < i ==> self@[j].id != id,
            decreases self@.len() - i,
        {
            if self.entries[i].id == id {
                return Some(i);
            }
            i = i + 1;
        }
        None
    }

    /// Inserts a new entry.  Fails with `DuplicateId`, changing nothing, if
    /// and only if the id is already registered.
    pub fn register(&mut self, id: ConnectionId, handle: SendHandle) -> (r: Result<
        (),
        RegistryError,
    >)
        requires
            old(self).wf(),
        ensures
            r is Ok <==> !contains_id(old(self)@, id),
            r is Ok ==> final(self)@ == old(self)@.push(EntryView { id, handle: handle@ }),
            r is Err ==> final(self)@ == old(self)@ && r == Err::<(), RegistryError>(
                RegistryError::DuplicateId,
            ),
            final(self).wf(),
    {
        match self.find(id) {
            Some(_) => Err(RegistryError::DuplicateId),
            None => {
                self.entries.push(Entry { id, handle });
                proof {
                    assert(self@ =~= old(self)@.push(EntryView { id, handle: handle@ }));
                }
                Ok(())
            },
        }
    }

    /// Removes the entry carrying `id`.  Idempotent: unregistering an absent
    /// id is a no-op, not an error.
    pub fn unregister(&mut self, id: ConnectionId)
        requires
            old(self).wf(),
        ensures
            final(self)@ == remove_id(old(self)@, id),
            !contains_id(final(self)@, id),
            final(self).wf(),
    {
        let found = self.find(id);
        match found {
            None => {
                proof {
                    lemma_remove_id_absent(old(self)@, id);
                }
            },
            Some(i) => {
                self.entries.remove(i);
                proof {
                    assert(self@ =~= old(self)@.subrange(0, i as int) + old(self)@.subrange(
                        i + 1,
                        old(self)@.len() as int,
                    ));
                    lemma_remove_id_at(old(self)@, id, i as int);
                }
            },
        }
        proof {
            lemma_remove_id_removes(old(self)@, id);
            lemma_remove_id_distinct(old(self)@, id);
        }
    }

    /// Queues one already-encoded frame on every registered connection, in
    /// registration order, removing every connection whose handle cannot accept
    /// it.  One failure never aborts delivery to the rest.
    pub fn broadcast_frame(&mut self, frame: &Vec<u8>)
        requires
            old(self).wf(),
        ensures
            final(self)@ == after_broadcast(old(self)@, frame@),
            final(self).wf(),
    {
        let ghost orig: Seq<EntryView> = self@;
        let n = self.entries.len();
        let mut kept: Vec<Entry> = Vec::new();
        let mut i: usize = 0;
        while i < n
            invariant
                i <= n,
                n == orig.len(),
                self.entries.deep_view() =~= orig.subrange(i as int, n as int),
                kept.deep_view() =~= after_broadcast(orig.take(i as int), frame@),
            decreases n - i,
        {
            let ghost dv = self.entries.deep_view();
            let ghost kv = kept.deep_view();
            proof {
                assert(self.entries@.len() == dv.len());
                assert(dv == orig.subrange(i as int, n as int));
            }
            let mut e = self.entries.remove(0);
            proof {
                assert(e.deep_view() == dv[0]);
                assert(e@ == orig[i as int]);
                assert(self.entries.deep_view() =~= dv.drop_first());
                assert(dv.drop_first() =~= orig.subrange(i + 1, n as int));
            }
            let ok = e.handle.send(frame);
            proof {
                assert(orig.take(i + 1) =~= orig.take(i as int) + seq![orig[i as int]]);
                lemma_after_broadcast_concat(orig.take(i as int), seq![orig[i as int]], frame@);
                assert(seq![orig[i as int]].drop_first() =~= Seq::<EntryView>::empty());
                assert(after_broadcast(Seq::<EntryView>::empty(), frame@)
                    =~= Seq::<EntryView>::empty());
                if can_accept(orig[i as int].handle) {
                    assert(after_broadcast(seq![orig[i as int]], frame@) =~= seq![
                        EntryView {
                            id: orig[i as int].id,
                            handle: deliver(orig[i as int].handle, frame@),
                        },
                    ]);
                } else {
                    assert(after_broadcast(seq![orig[i as int]], frame@)
                        =~= Seq::<EntryView>::empty());
                }
            }
            if ok {
                kept.push(e);
                proof {
                    assert(kept.deep_view() =~= kv.push(e@));
                    assert(kept.deep_view() =~= after_broadcast(orig.take(i + 1), frame@));
                }
            } else {
                proof {
                    assert(kept.deep_view() =~= after_broadcast(orig.take(i + 1), frame@));
                }
            }
            i = i + 1;
        }
        self.entries = kept;
        proof {
            assert(orig.take(n as int) =~= orig);
            assert(self@ =~= after_broadcast(orig, frame@));
            lemma_after_broadcast_distinct(orig, frame@);
        }
    }

    /// Marks the handle of `id` broken: the transport reported that writes
    /// to this connection fail.  The next broadcast removes the entry.
    pub fn mark_broken(&mut self, id: ConnectionId)
        requires
            old(self).wf(),
        ensures
            final(self)@ == broken_at(old(self)@, id),
            final(self).wf(),
    {
        let ghost orig: Seq<EntryView> = self@;
        let found = self.find(id);
        match found {
            None => {
                proof {
                    assert(self@ =~= broken_at(orig, id));
                }
            },
            Some(i) => {
                let ghost dv = self.entries.deep_view();
                let mut e = self.entries.remove(i);
                proof {
                    assert(e.deep_view() == dv[i as int]);
                    assert(self.entries.deep_view() =~= dv.remove(i as int));
                }
                e.handle.mark_broken();
                self.entries.insert(i, e);
                proof {
                    assert(self.entries.deep_view() =~= dv.remove(i as int).insert(
                        i as int,
                        e@,
                    ));
                    assert forall|j: int| 0 <= j < orig.len() implies self@[j] == broken_at(
                        orig,
                        id,
                    )[j] by {
                        if j != i {
                            assert(orig[j].id != id);
                        }
                    }
                    assert(self@ =~= broken_at(orig, id));
                }
            },
        }
        proof {
            assert forall|p: int, q: int|
                0 <= p < q < broken_at(orig, id).len() implies broken_at(orig, id)[p].id
                != broken_at(orig, id)[q].id by {
                assert(broken_at(orig, id)[p].id == orig[p].id);
                assert(broken_at(orig, id)[q].id == orig[q].id);
            }
        }
    }

    /// Hands the frames queued for `id` to the transport, leaving that
    /// connection's queue empty.  An absent id yields no frames.
    pub fn drain(&mut self, id: ConnectionId) -> (frames: Vec<Vec<u8>>)
        requires
            old(self).wf(),
        ensures
            !contains_id(old(self)@, id) ==> final(self)@ == old(self)@ && frames.deep_view()
                == Seq::<Seq<u8>>::empty(),
            contains_id(old(self)@, id) ==> final(self)@ == drained_at(old(self)@, id)
                && frames.deep_view() == frames_of(old(self)@, id),
            final(self).wf(),
    {
        let ghost orig: Seq<EntryView> = self@;
        let found = self.find(id);
        let out: Vec<Vec<u8>>;
        match found {
            None => {
                out = Vec::new();
                proof {
                    assert(out.deep_view() =~= Seq::<Seq<u8>>::empty());
                }
            },
            Some(i) => {
                let ghost dv = self.entries.deep_view();
                let mut e = self.entries.remove(i);
                proof {
                    assert(e.deep_view() == dv[i as int]);
                    assert(self.entries.deep_view() =~= dv.remove(i as int));
                }
                out = e.handle.take_frames();
                self.entries.insert(i, e);
                proof {
                    assert(self.entries.deep_view() =~= dv.remove(i as int).insert(
                        i as int,
                        e@,
                    ));
                    assert forall|j: int| 0 <= j < orig.len() implies self@[j] == drained_at(
                        orig,
                        id,
                    )[j] by {
                        if j != i {
                            assert(orig[j].id != id);
                        }
                    }
                    assert(self@ =~= drained_at(orig, id));
                    let k = index_of_id(orig, id);
                    assert(orig[k].id == id);
                    assert(k == i);
                    assert(out.deep_view() == frames_of(orig, id));
                }
            },
        }
        proof {
            assert forall|p: int, q: int|
                0 <= p < q < drained_at(orig, id).len() implies drained_at(orig, id)[p].id
                != drained_at(orig, id)[q].id by {
                assert(drained_at(orig, id)[p].id == orig[p].id);
                assert(drained_at(orig, id)[q].id == orig[q].id);
            }
        }
        out
    }

    /// A stable snapshot of the registered ids, in registration order.
    pub fn snapshot_ids(&self) -> (ids: Vec<ConnectionId>)
        ensures
            ids@ == ids_of(self@),
    {
        let mut out: Vec<ConnectionId> = Vec::new();
        let mut i: usize = 0;
        while i < self.entries.len()
            invariant
                i <= self@.len(),
                out@ =~= ids_of(self@.take(i as int)),
            decreases self@.len() - i,
        {
            out.push(self.entries[i].id);
            proof {
                assert(self@.take(i + 1 as int) =~= self@.take(i as int).push(self@[i as int]));
                assert(out@ =~= ids_of(self@.take(i + 1 as int)));
            }
            i = i + 1;
        }
        proof {
            assert(self@.take(self@.len() as int) =~= self@);
        }
        out
    }
}

/// Removing an absent id changes nothing.
pub proof fn lemma_remove_id_absent(s: Seq<EntryView>, id: ConnectionId)
    requires
        !contains_id(s, id),
    ensures
        remove_id(s, id) == s,
    decreases s.len(),
{
    if s.len() == 0 {
        assert(remove_id(s, id) =~= s);
    } else {
        assert(!contains_id(s.drop_first(), id)) by {
            assert forall|i: int| 0 <= i < s.drop_first().len() implies s.drop_first()[i].id
                != id by {
                assert(s.drop_first()[i] == s[i + 1]);
            }
        }
        lemma_remove_id_absent(s.drop_first(), id);
        assert(remove_id(s, id) =~= s);
    }
}

/// When ids are distinct and position `i` carries the id, removal deletes
/// exactly that position.
pub proof fn lemma_remove_id_at(s: Seq<EntryView>, id: ConnectionId, i: int)
    requires
        ids_distinct(s),
        0 <= i < s.len(),
        s[i].id == id,
    ensures
        remove_id(s, id) == s.subrange(0, i) + s.subrange(i + 1, s.len() as int),
    decreases s.len(),
{
    if i == 0 {
        assert(!contains_id(s.drop_first(), id)) by {
            assert forall|j: int| 0 <= j < s.drop_first().len() implies s.drop_first()[j].id
                != id by {
                assert(s.drop_first()[j] == s[j + 1]);
            }
        }
        lemma_remove_id_absent(s.drop_first(), id);
        assert(remove_id(s, id) =~= s.subrange(0, 0) + s.subrange(1, s.len() as int));
    } else {
        assert(s[0].id != id);
        assert(ids_distinct(s.drop_first())) by {
            assert forall|p: int, q: int|
                0 <= p < q < s.drop_first().len() implies s.drop_first()[p].id
                != s.drop_first()[q].id by {
                assert(s.drop_first()[p] == s[p + 1]);
                assert(s.drop_first()[q] == s[q + 1]);
            }
        }
        assert(s.drop_first()[i - 1] == s[i]);
        lemma_remove_id_at(s.drop_first(), id, i - 1);
        assert(remove_id(s, id) =~= s.subrange(0, i) + s.subrange(i + 1, s.len() as int));
    }
}

/// After removal, the id is gone.
pub proof fn lemma_remove_id_removes(s: Seq<EntryView>, id: ConnectionId)
    ensures
        !contains_id(remove_id(s, id), id),
        forall|i: int|
            0 <= i < remove_id(s, id).len() ==> contains_id(s, #[trigger] remove_id(s, id)[i].id),
    decreases s.len(),
{
    if s.len() == 0 {
    } else {
        lemma_remove_id_removes(s.drop_first(), id);
        let r = remove_id(s, id);
        let rr = remove_id(s.drop_first(), id);
        assert forall|i: int| 0 <= i < r.len() implies contains_id(s, #[trigger] r[i].id) by {
            if s[0].id == id {
                assert(r[i] == rr[i]);
                lemma_contains_extend(s, r[i].id);
            } else {
                if i == 0 {
                    assert(r[0] == s[0]);
                    assert(s[0].id == s[0].id);
                } else {
                    assert(r[i] == rr[i - 1]);
                    lemma_contains_extend(s, r[i].id);
                }
            }
        }
        assert(!contains_id(r, id)) by {
            assert forall|i: int| 0 <= i < r.len() implies r[i].id != id by {
                if s[0].id == id {
                    assert(r[i] == rr[i]);
                    assert(!contains_id(rr, id));
                } else if i == 0 {
                } else {
                    assert(r[i] == rr[i - 1]);
                    assert(!contains_id(rr, id));
                }
            }
        }
    }
}

/// An id contained in a sequence's tail is contained in the sequence.
proof fn lemma_contains_extend(s: Seq<EntryView>, id: ConnectionId)
    requires
        s.len() > 0,
        contains_id(s.drop_first(), id),
    ensures
        contains_id(s, id),
{
    let i = choose|i: int| 0 <= i < s.drop_first().len() && s.drop_first()[i].id == id;
    assert(s[i + 1].id == id);
}

/// Removal keeps distinctness.
pub proof fn lemma_remove_id_distinct(s: Seq<EntryView>, id: ConnectionId)
    requires
        ids_distinct(s),
    ensures
        ids_distinct(remove_id(s, id)),
    decreases s.len(),
{
    if s.len() == 0 {
    } else {
        assert(ids_distinct(s.drop_first())) by {
            assert forall|p: int, q: int|
                0 <= p < q < s.drop_first().len() implies s.drop_first()[p].id
                != s.drop_first()[q].id by {
                assert(s.drop_first()[p] == s[p + 1]);
                assert(s.drop_first()[q] == s[q + 1]);
            }
        }
        lemma_remove_id_distinct(s.drop_first(), id);
        let r = remove_id(s, id);
        let rr = remove_id(s.drop_first(), id);
        if s[0].id == id {
        } else {
            lemma_remove_id_subset(s.drop_first(), id);
            assert forall|p: int, q: int| 0 <= p < q < r.len() implies r[p].id != r[q].id by {
                if p == 0 {
                    assert(r[q] == rr[q - 1]);
                    let k = choose|k: int|
                        0 <= k < s.drop_first().len() && s.drop_first()[k] == rr[q - 1];
                    assert(s[k + 1] == rr[q - 1]);
                } else {
                    assert(r[p] == rr[p - 1]);
                    assert(r[q] == rr[q - 1]);
                }
            }
        }
    }
}

/// Every entry that removal keeps was in the sequence.
pub proof fn lemma_remove_id_subset(s: Seq<EntryView>, id: ConnectionId)
    ensures
        forall|i: int|
            0 <= i < remove_id(s, id).len() ==> exists|k: int|
                0 <= k < s.len() && s[k] == #[trigger] remove_id(s, id)[i],
    decreases s.len(),
{
    if s.len() == 0 {
    } else {
        lemma_remove_id_subset(s.drop_first(), id);
        let r = remove_id(s, id);
        let rr = remove_id(s.drop_first(), id);
        assert forall|i: int| 0 <= i < r.len() implies exists|k: int|
            0 <= k < s.len() && s[k] == #[trigger] r[i] by {
            if s[0].id == id {
                assert(r[i] == rr[i]);
                let k = choose|k: int| 0 <= k < s.drop_first().len() && s.drop_first()[k] == rr[i];
                assert(s[k + 1] == r[i]);
            } else if i == 0 {
                assert(s[0] == r[0]);
            } else {
                assert(r[i] == rr[i - 1]);
                let k = choose|k: int|
                    0 <= k < s.drop_first().len() && s.drop_first()[k] == rr[i - 1];
                assert(s[k + 1] == r[i]);
            }
        }
    }
}

} // verus!
