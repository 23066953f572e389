//! Reliable delivery over a transport that may drop messages: each message
//! gets an acknowledgement id and is sent again until the peer acknowledges
//! it.
//!
//! Sending is the caller's work. `process` hands out every message that is
//! due, together with its id; the caller tries to send each one and reports
//! the outcome with `settle`. Time is a millisecond count supplied by the
//! caller.
use vstd::prelude::*;

use crate::protocol::AckId;

verus! {

broadcast use vstd::seq_lib::group_filter_ensures;

/// How long a message may wait for its acknowledgement before it is sent
/// again, in milliseconds.
pub const RETRY_WINDOW_MS: u64 = 300;

/// What became of one attempt to send a message.
#[derive(Clone, Copy, Debug, PartialEq, Eq, Structural)]
pub enum BufferResult {
    /// Handed to a transport that does not confirm delivery: wait for an
    /// acknowledgement.
    Attempted,
    /// Handed to a transport that guarantees delivery: forget the message.
    Sent,
    /// The transport could not take it now: keep it for the next round.
    NotSent,
}

/// A message that went out and waits for its acknowledgement.
pub struct SentRecord<T> {
    pub id: AckId,
    pub value: T,
    pub sent_at: u64,
}

/// What a buffer holds: the messages waiting to go out, in order; the
/// messages waiting for an acknowledgement, in the order they went out; and
/// the id that the next message will get.
pub struct BufferView<T> {
    pub pending: Seq<(AckId, T)>,
    pub sent: Seq<SentRecord<T>>,
    pub next: u32,
}

pub struct ReliableBuffer<T> {
    pending: Vec<(AckId, T)>,
    sent: Vec<SentRecord<T>>,
    next_ack_id: u32,
}

impl<T> View for ReliableBuffer<T> {
    type V = BufferView<T>;

    closed spec fn view(&self) -> BufferView<T> {
        BufferView { pending: self.pending@, sent: self.sent@, next: self.next_ack_id }
    }
}

/// The id after `n`; after the largest id the count starts again at zero.
pub open spec fn next_id(n: u32) -> u32 {
    if n == u32::MAX {
        0
    } else {
        (n + 1) as u32
    }
}

/// A message sent at `r.sent_at` whose retry window has run out at `now`.
pub open spec fn is_expired<T>(r: SentRecord<T>, now: u64) -> bool {
    now >= r.sent_at && now - r.sent_at >= RETRY_WINDOW_MS
}

pub open spec fn not_id<T>(id: AckId) -> spec_fn(SentRecord<T>) -> bool {
    |r: SentRecord<T>| r.id != id
}

pub open spec fn expired_at<T>(now: u64) -> spec_fn(SentRecord<T>) -> bool {
    |r: SentRecord<T>| is_expired(r, now)
}

pub open spec fn waiting_at<T>(now: u64) -> spec_fn(SentRecord<T>) -> bool {
    |r: SentRecord<T>| !is_expired(r, now)
}

/// A sent record as a message to send again: its id and its payload.
pub open spec fn resend<T>(r: SentRecord<T>) -> (AckId, T) {
    (r.id, r.value)
}

/// The buffer after `x` is queued under the next id.
pub open spec fn after_add<T>(v: BufferView<T>, x: T) -> BufferView<T> {
    BufferView { pending: v.pending.push((AckId(v.next), x)), next: next_id(v.next), ..v }
}

/// The buffer after the acknowledgement of `id`: no sent record has it.
pub open spec fn after_ack<T>(v: BufferView<T>, id: AckId) -> BufferView<T> {
    BufferView { sent: v.sent.filter(not_id(id)), ..v }
}

/// The messages due at `now`, in the order they are to be sent: all that
/// wait to go out, then all whose retry window has run out.
pub open spec fn due<T>(v: BufferView<T>, now: u64) -> Seq<(AckId, T)> {
    v.pending + v.sent.filter(expired_at(now)).map_values(|r: SentRecord<T>| resend(r))
}

/// The buffer once the messages due at `now` are handed out.
pub open spec fn after_process<T>(v: BufferView<T>, now: u64) -> BufferView<T> {
    BufferView { pending: Seq::empty(), sent: v.sent.filter(waiting_at(now)), ..v }
}

/// The buffer once the attempt to send `x` under `id` at `now` ended in
/// `outcome`.
pub open spec fn after_settle<T>(
    v: BufferView<T>,
    id: AckId,
    x: T,
    outcome: BufferResult,
    now: u64,
) -> BufferView<T> {
    match outcome {
        BufferResult::NotSent => BufferView { pending: v.pending.push((id, x)), ..v },
        BufferResult::Attempted => BufferView {
            sent: v.sent.filter(not_id(id)).push(SentRecord { id, value: x, sent_at: now }),
            ..v
        },
        BufferResult::Sent => v,
    }
}

/// No two items of `s` share a key.
pub open spec fn keys_distinct<A>(s: Seq<A>, key: spec_fn(A) -> u32) -> bool {
    forall|i: int, j: int| 0 <= i < j < s.len() ==> key(s[i]) != key(s[j])
}

pub open spec fn pending_key<T>() -> spec_fn((AckId, T)) -> u32 {
    |p: (AckId, T)| p.0.0
}

pub open spec fn sent_key<T>() -> spec_fn(SentRecord<T>) -> u32 {
    |r: SentRecord<T>| r.id.0
}

/// Whether `id` waits to go out or waits for its acknowledgement.
pub open spec fn is_tracked<T>(v: BufferView<T>, id: AckId) -> bool {
    (exists|i: int| 0 <= i < v.pending.len() && v.pending[i].0 == id) || (exists|i: int|
        0 <= i < v.sent.len() && v.sent[i].id == id)
}

/// Every tracked id is tracked once, by one of the two queues, and was given
/// out before `v.next`. This holds from creation until the id counter wraps.
pub open spec fn ids_fresh<T>(v: BufferView<T>) -> bool {
    &&& keys_distinct(v.pending, pending_key())
    &&& keys_distinct(v.sent, sent_key())
    &&& forall|i: int, j: int|
        0 <= i < v.pending.len() && 0 <= j < v.sent.len() ==> v.pending[i].0 != v.sent[j].id
    &&& forall|i: int| 0 <= i < v.pending.len() ==> v.pending[i].0.0 < v.next
    &&& forall|j: int| 0 <= j < v.sent.len() ==> v.sent[j].id.0 < v.next
}

/// Each item of a filtered sequence is an item of the original that passed.
proof fn lemma_filter_origin<A>(s: Seq<A>, p: spec_fn(A) -> bool)
    ensures
        forall|i: int|
            0 <= i < s.filter(p).len() ==> p(#[trigger] s.filter(p)[i]) && s.contains(
                s.filter(p)[i],
            ),
{
    assert forall|i: int| 0 <= i < s.filter(p).len() implies p(#[trigger] s.filter(p)[i])
        && s.contains(s.filter(p)[i]) by {
        let x = s.filter(p)[i];
        assert(s.filter(p).contains(x));
        s.lemma_filter_contains_rev(p, x);
    }
}

/// Filtering keeps keys apart.
proof fn lemma_filter_keys_distinct<A>(s: Seq<A>, p: spec_fn(A) -> bool, key: spec_fn(A) -> u32)
    requires
        keys_distinct(s, key),
    ensures
        keys_distinct(s.filter(p), key),
    decreases s.len(),
{
    reveal(Seq::filter);
    if s.len() > 0 {
        let d = s.drop_last();
        assert(keys_distinct(d, key));
        lemma_filter_keys_distinct(d, p, key);
        lemma_filter_origin(d, p);
        let t = d.filter(p);
        if p(s.last()) {
            assert forall|i: int, j: int|
                0 <= i < j < t.push(s.last()).len() implies key(t.push(s.last())[i]) != key(
                t.push(s.last())[j],
            ) by {
                if j == t.len() {
                    let k = choose|k: int| 0 <= k < d.len() && d[k] == t[i];
                    assert(key(s[k]) != key(s[s.len() - 1]));
                }
            }
        }
    }
}

/// Queuing a message under the next id keeps ids fresh, unless the counter
/// wraps.
pub proof fn lemma_fresh_add<T>(v: BufferView<T>, x: T)
    requires
        ids_fresh(v),
        v.next < u32::MAX,
    ensures
        ids_fresh(after_add(v, x)),
{
}

/// An acknowledgement keeps ids fresh.
pub proof fn lemma_fresh_ack<T>(v: BufferView<T>, id: AckId)
    requires
        ids_fresh(v),
    ensures
        ids_fresh(after_ack(v, id)),
{
    lemma_filter_keys_distinct(v.sent, not_id(id), sent_key());
    lemma_filter_origin(v.sent, not_id(id));
}

/// Handing out the due messages keeps ids fresh, and the messages handed out
/// carry distinct ids, given out before, that the buffer no longer tracks.
pub proof fn lemma_fresh_process<T>(v: BufferView<T>, now: u64)
    requires
        ids_fresh(v),
    ensures
        ids_fresh(after_process(v, now)),
        keys_distinct(due(v, now), pending_key()),
        forall|k: int|
            0 <= k < due(v, now).len() ==> !is_tracked(after_process(v, now), #[trigger] due(
                v,
                now,
            )[k].0) && due(v, now)[k].0.0 < v.next,
{
    let e = expired_at::<T>(now);
    let w = waiting_at::<T>(now);
    lemma_filter_keys_distinct(v.sent, w, sent_key());
    lemma_filter_keys_distinct(v.sent, e, sent_key());
    lemma_filter_origin(v.sent, w);
    lemma_filter_origin(v.sent, e);
    let x = v.sent.filter(e);
    let kept = v.sent.filter(w);
    let d = due(v, now);
    let np = v.pending.len() as int;
    assert forall|k: int| 0 <= k < d.len() implies !is_tracked(after_process(v, now), #[trigger] d[
        k
    ].0) && d[k].0.0 < v.next by {
        if k < np {
            assert forall|j: int| 0 <= j < kept.len() implies kept[j].id != d[k].0 by {
                let b = choose|b: int| 0 <= b < v.sent.len() && v.sent[b] == kept[j];
            }
        } else {
            let a = choose|a: int| 0 <= a < v.sent.len() && v.sent[a] == x[k - np];
            assert forall|j: int| 0 <= j < kept.len() implies kept[j].id != d[k].0 by {
                let b = choose|b: int| 0 <= b < v.sent.len() && v.sent[b] == kept[j];
                if a < b {
                    assert(sent_key::<T>()(v.sent[a]) != sent_key::<T>()(v.sent[b]));
                } else if b < a {
                    assert(sent_key::<T>()(v.sent[b]) != sent_key::<T>()(v.sent[a]));
                }
            }
        }
    }
    assert forall|i: int, j: int| 0 <= i < j < d.len() implies pending_key::<T>()(d[i])
        != pending_key::<T>()(d[j]) by {
        if j >= np {
            let b = choose|b: int| 0 <= b < v.sent.len() && v.sent[b] == x[j - np];
            if i >= np {
                assert(sent_key::<T>()(x[i - np]) != sent_key::<T>()(x[j - np]));
            } else {
                assert(v.pending[i].0 != v.sent[b].id);
            }
        }
    }
}

/// Settling a message that the buffer does not track, under an id given out
/// before, keeps ids fresh.
pub proof fn lemma_fresh_settle<T>(
    v: BufferView<T>,
    id: AckId,
    x: T,
    outcome: BufferResult,
    now: u64,
)
    requires
        ids_fresh(v),
        !is_tracked(v, id),
        id.0 < v.next,
    ensures
        ids_fresh(after_settle(v, id, x, outcome, now)),
{
    if outcome == BufferResult::Attempted {
        lemma_filter_keys_distinct(v.sent, not_id(id), sent_key());
        lemma_filter_origin(v.sent, not_id(id));
        let f = v.sent.filter(not_id(id));
        let g = f.push(SentRecord { id, value: x, sent_at: now });
        assert forall|i: int, j: int| 0 <= i < j < g.len() implies sent_key::<T>()(g[i])
            != sent_key::<T>()(g[j]) by {
            if j == f.len() {
                let a = choose|a: int| 0 <= a < v.sent.len() && v.sent[a] == f[i];
            }
        }
        assert forall|i: int, j: int| 0 <= i < v.pending.len() && 0 <= j < g.len() implies v.pending[i].0 != g[j].id by {
            if j < f.len() {
                let a = choose|a: int| 0 <= a < v.sent.len() && v.sent[a] == f[j];
            }
        }
        assert forall|j: int| 0 <= j < g.len() implies g[j].id.0 < v.next by {
            if j < f.len() {
                let a = choose|a: int| 0 <= a < v.sent.len() && v.sent[a] == f[j];
            }
        }
    }
}

proof fn lemma_filter_step<A>(s: Seq<A>, i: int, p: spec_fn(A) -> bool)
    requires
        0 <= i < s.len(),
    ensures
        s.subrange(0, i + 1).filter(p) == if p(s[i]) {
            s.subrange(0, i).filter(p).push(s[i])
        } else {
            s.subrange(0, i).filter(p)
        },
{
    reveal(Seq::filter);
    assert(s.subrange(0, i + 1).drop_last() =~= s.subrange(0, i));
}

proof fn lemma_filter_twice<A>(s: Seq<A>, p: spec_fn(A) -> bool)
    ensures
        s.filter(p).filter(p) == s.filter(p),
    decreases s.len(),
{
    reveal(Seq::filter);
    if s.len() > 0 {
        lemma_filter_twice(s.drop_last(), p);
        let t = s.drop_last().filter(p);
        if p(s.last()) {
            assert(t.push(s.last()).drop_last() =~= t);
        }
    }
}

impl<T> ReliableBuffer<T> {
    pub fn new() -> (r: ReliableBuffer<T>)
        ensures
            r@.pending.len() == 0,
            r@.sent.len() == 0,
            r@.next == 0,
            ids_fresh(r@),
    {
        let r = ReliableBuffer { pending: Vec::new(), sent: Vec::new(), next_ack_id: 0 };
        r
    }

    fn next_ack_id(&mut self) -> (r: AckId)
        ensures
            r.0 == old(self)@.next,
            final(self)@ == (BufferView { next: next_id(old(self)@.next), ..old(self)@ }),
    {
        let id = self.next_ack_id;
        self.next_ack_id = self.next_ack_id.wrapping_add(1);
        AckId::new(id)
    }

    /// Queues `packet` under a fresh id; nothing is sent before `process`.
    pub fn add(&mut self, packet: T)
        ensures
            final(self)@ == after_add(old(self)@, packet),
            ids_fresh(old(self)@) && old(self)@.next < u32::MAX ==> ids_fresh(final(self)@),
    {
        let ack_id = self.next_ack_id();
        self.pending.push((ack_id, packet));
        proof {
            if ids_fresh(old(self)@) && old(self)@.next < u32::MAX {
                lemma_fresh_add(old(self)@, packet);
            }
        }
    }

    /// Marks `id` as acknowledged: it is no longer sent again. An unknown
    /// or already acknowledged id changes nothing.
    pub fn ack(&mut self, id: &AckId)
        ensures
            final(self)@ == after_ack(old(self)@, *id),
            ids_fresh(old(self)@) ==> ids_fresh(final(self)@),
    {
        let mut rest: Vec<SentRecord<T>> = Vec::new();
        std::mem::swap(&mut self.sent, &mut rest);
        let ghost orig = rest@;
        let ghost p = not_id::<T>(*id);
        let mut kept: Vec<SentRecord<T>> = Vec::new();
        let ghost mut i: int = 0;
        assert(orig.subrange(0, 0).filter(p) =~= Seq::<SentRecord<T>>::empty()) by {
            reveal(Seq::filter);
        }
        while rest.len() > 0
            invariant
                0 <= i <= orig.len(),
                rest@ == orig.subrange(i, orig.len() as int),
                kept@ == orig.subrange(0, i).filter(p),
                self.pending == old(self).pending,
                self.next_ack_id == old(self).next_ack_id,
                orig == old(self).sent@,
                p == not_id::<T>(*id),
            decreases rest.len(),
        {
            let r = rest.remove(0);
            proof {
                lemma_filter_step(orig, i, p);
                assert(r == orig[i]);
            }
            if r.id.0 != id.0 {
                assert(p(orig[i]));
                kept.push(r);
            } else {
                assert(!p(orig[i]));
            }
            proof {
                i = i + 1;
                assert(rest@ =~= orig.subrange(i, orig.len() as int));
            }
        }
        assert(orig.subrange(0, i) =~= orig);
        self.sent = kept;
        proof {
            if ids_fresh(old(self)@) {
                lemma_fresh_ack(old(self)@, *id);
            }
        }
    }

    /// Hands out the messages due at `now`: every message waiting to go out,
    /// then every sent message whose retry window has run out, with the same
    /// id and payload. The buffer keeps only the sent messages still within
    /// their window; each message handed out must come back through `settle`.
    pub fn process(&mut self, now: u64) -> (batch: Vec<(AckId, T)>)
        ensures
            batch@ == due(old(self)@, now),
            final(self)@ == after_process(old(self)@, now),
            ids_fresh(old(self)@) ==> ids_fresh(final(self)@) && keys_distinct(
                batch@,
                pending_key(),
            ) && forall|k: int|
                0 <= k < batch@.len() ==> !is_tracked(final(self)@, #[trigger] batch@[k].0)
                    && batch@[k].0.0 < final(self)@.next,
    {
        let mut batch: Vec<(AckId, T)> = Vec::new();
        std::mem::swap(&mut self.pending, &mut batch);
        let mut rest: Vec<SentRecord<T>> = Vec::new();
        std::mem::swap(&mut self.sent, &mut rest);
        let ghost orig = rest@;
        let ghost e = expired_at::<T>(now);
        let ghost w = waiting_at::<T>(now);
        let ghost f = |r: SentRecord<T>| resend(r);
        let mut kept: Vec<SentRecord<T>> = Vec::new();
        let ghost mut i: int = 0;
        assert(orig.subrange(0, 0).filter(e) =~= Seq::<SentRecord<T>>::empty()
            && orig.subrange(0, 0).filter(w) =~= Seq::<SentRecord<T>>::empty()) by {
            reveal(Seq::filter);
        }
        assert(batch@ =~= old(self)@.pending + orig.subrange(0, 0).filter(e).map_values(f));
        while rest.len() > 0
            invariant
                0 <= i <= orig.len(),
                rest@ == orig.subrange(i, orig.len() as int),
                kept@ == orig.subrange(0, i).filter(w),
                batch@ == old(self)@.pending + orig.subrange(0, i).filter(e).map_values(f),
                self.pending@.len() == 0,
                self.next_ack_id == old(self).next_ack_id,
                orig == old(self).sent@,
                e == expired_at::<T>(now),
                w == waiting_at::<T>(now),
                f == (|r: SentRecord<T>| resend(r)),
            decreases rest.len(),
        {
            let r = rest.remove(0);
            let ghost before = orig.subrange(0, i).filter(e);
            proof {
                lemma_filter_step(orig, i, e);
                lemma_filter_step(orig, i, w);
                assert(r == orig[i]);
            }
            if now >= r.sent_at && now - r.sent_at >= RETRY_WINDOW_MS {
                assert(e(orig[i]) && !w(orig[i]));
                let SentRecord { id, value, sent_at } = r;
                batch.push((id, value));
                assert(before.push(orig[i]).map_values(f) =~= before.map_values(f).push(
                    f(orig[i]),
                ));
            } else {
                assert(!e(orig[i]) && w(orig[i]));
                kept.push(r);
            }
            proof {
                i = i + 1;
                assert(rest@ =~= orig.subrange(i, orig.len() as int));
            }
        }
        assert(orig.subrange(0, i) =~= orig);
        self.sent = kept;
        assert(self@ =~= after_process(old(self)@, now));
        proof {
            if ids_fresh(old(self)@) {
                lemma_fresh_process(old(self)@, now);
            }
        }
        batch
    }

    /// Records what became of the attempt at `now` to send `packet` under
    /// `id`: `NotSent` queues it again, `Attempted` waits for its
    /// acknowledgement from `now` on, `Sent` forgets it.
    pub fn settle(&mut self, id: AckId, packet: T, outcome: BufferResult, now: u64)
        ensures
            final(self)@ == after_settle(old(self)@, id, packet, outcome, now),
            ids_fresh(old(self)@) && !is_tracked(old(self)@, id) && id.0 < old(self)@.next
                ==> ids_fresh(final(self)@),
    {
        match outcome {
            BufferResult::NotSent => {
                self.pending.push((id, packet));
            },
            BufferResult::Attempted => {
                self.ack(&id);
                self.sent.push(SentRecord { id, value: packet, sent_at: now });
            },
            BufferResult::Sent => {},
        }
        assert(self@ =~= after_settle(old(self)@, id, packet, outcome, now));
        proof {
            if ids_fresh(old(self)@) && !is_tracked(old(self)@, id) && id.0 < old(self)@.next {
                lemma_fresh_settle(old(self)@, id, packet, outcome, now);
            }
        }
    }

    /// How many messages wait to go out.
    pub fn pending_len(&self) -> (r: usize)
        ensures
            r == self@.pending.len(),
    {
        self.pending.len()
    }

    /// How many sent messages wait for their acknowledgement.
    pub fn sent_len(&self) -> (r: usize)
        ensures
            r == self@.sent.len(),
    {
        self.sent.len()
    }
}

// ---- laws -----------------------------------------------------------------

/// Acknowledging the same id twice has the effect of acknowledging it once.
pub proof fn lemma_ack_idempotent<T>(v: BufferView<T>, id: AckId)
    ensures
        after_ack(after_ack(v, id), id) == after_ack(v, id),
{
    lemma_filter_twice(v.sent, not_id(id));
}

/// A queued message is among the next messages handed out, under its id.
pub proof fn lemma_added_goes_out<T>(v: BufferView<T>, x: T, now: u64)
    ensures
        due(after_add(v, x), now).contains((AckId(v.next), x)),
{
    let d = due(after_add(v, x), now);
    assert(d[v.pending.len() as int] == (AckId(v.next), x));
}

/// A sent message that is not acknowledged is handed out again, with the
/// same id and payload, once its retry window has run out.
pub proof fn lemma_unacked_is_resent<T>(v: BufferView<T>, k: int, now: u64)
    requires
        0 <= k < v.sent.len(),
        is_expired(v.sent[k], now),
    ensures
        due(v, now).contains((v.sent[k].id, v.sent[k].value)),
{
    let e = expired_at::<T>(now);
    let s = v.sent.filter(e);
    assert(e(v.sent[k]));
    assert(s.contains(v.sent[k]));
    let j = choose|j: int| 0 <= j < s.len() && s[j] == v.sent[k];
    let d = due(v, now);
    assert(d[v.pending.len() + j] == (v.sent[k].id, v.sent[k].value));
}

/// Once `id` is acknowledged, no later round hands it out again, unless it
/// still waited to go out; an acknowledged message also stays out of the
/// sent messages through every later round and attempt of other ids.
pub proof fn lemma_ack_stops_resending<T>(v: BufferView<T>, id: AckId, now: u64)
    requires
        forall|i: int| 0 <= i < v.pending.len() ==> v.pending[i].0 != id,
    ensures
        forall|i: int|
            0 <= i < due(after_ack(v, id), now).len() ==> due(after_ack(v, id), now)[i].0 != id,
        forall|i: int|
            0 <= i < after_process(after_ack(v, id), now).sent.len() ==> after_process(
                after_ack(v, id),
                now,
            ).sent[i].id != id,
{
    let a = v.sent.filter(not_id(id));
    let s = a.filter(expired_at(now));
    let d = due(after_ack(v, id), now);
    assert forall|i: int| 0 <= i < d.len() implies d[i].0 != id by {
        if i >= v.pending.len() {
            let j = i - v.pending.len();
            assert(s.contains(s[j]));
            a.lemma_filter_contains_rev(expired_at(now), s[j]);
            let k = choose|k: int| 0 <= k < a.len() && a[k] == s[j];
            assert(not_id::<T>(id)(a[k]));
        }
    }
    let w = a.filter(waiting_at(now));
    assert forall|i: int| 0 <= i < w.len() implies w[i].id != id by {
        assert(w.contains(w[i]));
        a.lemma_filter_contains_rev(waiting_at(now), w[i]);
        let k = choose|k: int| 0 <= k < a.len() && a[k] == w[i];
        assert(not_id::<T>(id)(a[k]));
    }
}

} // verus!
