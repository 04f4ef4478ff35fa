use vstd::prelude::*;
use std::collections::HashMap;

use crate::error::{QuipayError, QuipayResult};
use crate::vault::{PayrollVault, VaultView};
use crate::Address;

verus! {

broadcast use vstd::std_specs::hash::group_hash_axioms;

/// How long a closed stream stays queryable before cleanup may delete it: 30 days.
pub const DEFAULT_RETENTION_SECS: u64 = 30 * 24 * 60 * 60;

/// Lifecycle of a stream: `Active`, then exactly once `Canceled` or `Completed`.
#[derive(Clone, Copy, Debug, PartialEq, Eq, Structural)]
pub enum StreamStatus {
    Active,
    Canceled,
    Completed,
}

/// One vesting schedule from an employer to a worker in one asset.
#[derive(Clone, Copy, Debug, PartialEq, Eq, Structural)]
pub struct Stream {
    pub employer: Address,
    pub worker: Address,
    pub token: Address,
    pub rate: i128,
    pub cliff_ts: u64,
    pub start_ts: u64,
    pub end_ts: u64,
    pub total_amount: i128,
    pub withdrawn_amount: i128,
    pub last_withdrawal_ts: u64,
    pub status: StreamStatus,
    pub created_at: u64,
    pub closed_at: u64,
}

/// Per-item outcome of a batch withdrawal.
#[derive(Clone, Copy, Debug, PartialEq, Eq, Structural)]
pub struct WithdrawResult {
    pub stream_id: u64,
    pub amount: i128,
    pub success: bool,
}

/// Value vested by `s` at instant `t`: nothing before the cliff or up to the
/// start, everything from the end on, and linearly (rounded down) in between.
pub open spec fn vested(s: Stream, t: u64) -> int {
    if t < s.cliff_ts {
        0
    } else if t <= s.start_ts {
        0
    } else if t >= s.end_ts {
        s.total_amount as int
    } else {
        (s.total_amount as int) * ((t - s.start_ts) as int) / ((s.end_ts - s.start_ts) as int)
    }
}

/// Value accrued at `t`, frozen at the closing instant once the stream is closed.
pub open spec fn accrued(s: Stream, t: u64) -> int {
    if s.closed() {
        vested(s, if t < s.closed_at { t } else { s.closed_at })
    } else {
        vested(s, t)
    }
}

impl Stream {
    pub open spec fn closed(self) -> bool {
        self.status != StreamStatus::Active
    }

    /// A stream as creation makes it and withdrawals and cancellation keep it.
    pub open spec fn wf(self) -> bool {
        &&& self.rate > 0
        &&& self.start_ts < self.end_ts
        &&& self.cliff_ts <= self.end_ts
        &&& self.total_amount == self.rate * (self.end_ts - self.start_ts)
        &&& 0 <= self.withdrawn_amount
        &&& self.withdrawn_amount <= vested(self, self.last_withdrawal_ts)
        &&& !self.closed() ==> self.closed_at == 0
    }
}

/// Between the cliff-and-start gate and the end, the vested value is `rate * elapsed`.
proof fn lemma_vested_linear(s: Stream, t: u64)
    requires
        s.wf(),
        s.cliff_ts <= t,
        s.start_ts < t < s.end_ts,
    ensures
        vested(s, t) == s.rate * (t - s.start_ts),
        0 < s.rate * (t - s.start_ts) < s.total_amount,
{
    let d = (s.end_ts - s.start_ts) as int;
    let e = (t - s.start_ts) as int;
    let r = s.rate as int;
    assert((r * d) * e == d * (r * e)) by (nonlinear_arith);
    vstd::arithmetic::div_mod::lemma_div_multiples_vanish(r * e, d);
    assert(0 < r * e < r * d) by (nonlinear_arith)
        requires
            r > 0,
            0 < e < d,
    ;
}

/// The vested value lies between zero and the stream's total.
proof fn lemma_vested_bounds(s: Stream, t: u64)
    requires
        s.wf(),
    ensures
        0 <= vested(s, t) <= s.total_amount,
{
    assert(s.total_amount > 0) by (nonlinear_arith)
        requires
            s.rate > 0,
            s.start_ts < s.end_ts,
            s.total_amount == s.rate * (s.end_ts - s.start_ts),
    ;
    if t >= s.cliff_ts && s.start_ts < t < s.end_ts {
        lemma_vested_linear(s, t);
    }
}

/// Vesting monotonicity: for a well-formed stream and `t1 <= t2`, the accrued
/// value at `t1` is at most the accrued value at `t2`, and never above the
/// stream's total. A closed stream accrues nothing after its closing instant.
pub proof fn lemma_vesting_monotonic(s: Stream, t1: u64, t2: u64)
    requires
        s.wf(),
        t1 <= t2,
    ensures
        0 <= accrued(s, t1) <= accrued(s, t2) <= s.total_amount,
        !s.closed() ==> vested(s, t1) <= vested(s, t2),
{
    lemma_vested_monotonic(s, t1, t2);
    let c = s.closed_at;
    let u1 = if t1 < c { t1 } else { c };
    let u2 = if t2 < c { t2 } else { c };
    lemma_vested_monotonic(s, u1, u2);
}

proof fn lemma_vested_monotonic(s: Stream, t1: u64, t2: u64)
    requires
        s.wf(),
        t1 <= t2,
    ensures
        0 <= vested(s, t1) <= vested(s, t2) <= s.total_amount,
{
    lemma_vested_bounds(s, t1);
    lemma_vested_bounds(s, t2);
    if t1 >= s.cliff_ts && s.start_ts < t1 < s.end_ts {
        lemma_vested_linear(s, t1);
        if t2 < s.end_ts {
            lemma_vested_linear(s, t2);
            let r = s.rate as int;
            let e1 = (t1 - s.start_ts) as int;
            let e2 = (t2 - s.start_ts) as int;
            assert(r * e1 <= r * e2) by (nonlinear_arith)
                requires
                    r > 0,
                    e1 <= e2,
            ;
        }
    }
}

/// Withdrawal conservation: what was withdrawn from a well-formed stream is
/// at most what it has accrued at any instant from its last withdrawal on,
/// and at most its total. For a closed stream this needs the closing instant
/// not to precede the last withdrawal, which a non-decreasing clock gives.
pub proof fn lemma_withdrawal_conservation(s: Stream, t: u64)
    requires
        s.wf(),
        s.last_withdrawal_ts <= t,
        s.closed() ==> s.last_withdrawal_ts <= s.closed_at,
    ensures
        s.withdrawn_amount <= accrued(s, t) <= s.total_amount,
{
    lemma_vested_monotonic(s, s.last_withdrawal_ts, t);
    if s.closed() {
        let u = if t < s.closed_at { t } else { s.closed_at };
        lemma_vested_monotonic(s, s.last_withdrawal_ts, u);
    }
}

/// Ids listed for `a` in an index; nothing for an owner never seen.
pub open spec fn ids_of(m: Map<Address, Seq<u64>>, a: Address) -> Seq<u64> {
    if m.contains_key(a) {
        m[a]
    } else {
        Seq::empty()
    }
}

/// `ids` with every occurrence of `id` taken out, the others kept in order.
pub open spec fn without(ids: Seq<u64>, id: u64) -> Seq<u64>
    decreases ids.len(),
{
    if ids.len() == 0 {
        ids
    } else {
        let rest = without(ids.drop_last(), id);
        if ids.last() == id {
            rest
        } else {
            rest.push(ids.last())
        }
    }
}

/// The index after appending `id` to the list of `a`.
pub open spec fn index_pushed(m: Map<Address, Seq<u64>>, a: Address, id: u64) -> Map<Address, Seq<u64>> {
    m.insert(a, ids_of(m, a).push(id))
}

/// The index after removing `id` from the list of `a`; an emptied list is dropped.
pub open spec fn index_removed(m: Map<Address, Seq<u64>>, a: Address, id: u64) -> Map<Address, Seq<u64>> {
    let rest = without(ids_of(m, a), id);
    if rest.len() == 0 {
        m.remove(a)
    } else {
        m.insert(a, rest)
    }
}

/// Elements of `without(ids, id)` are the elements of `ids` other than `id`.
proof fn lemma_without(ids: Seq<u64>, id: u64)
    ensures
        forall|j: int|
            0 <= j < without(ids, id).len() ==> #[trigger] without(ids, id)[j] != id && ids.contains(
                without(ids, id)[j],
            ),
        forall|k: int| 0 <= k < ids.len() && ids[k] != id ==> without(ids, id).contains(#[trigger] ids[k]),
    decreases ids.len(),
{
    if ids.len() > 0 {
        let init = ids.drop_last();
        lemma_without(init, id);
        let w = without(ids, id);
        let wi = without(init, id);
        assert forall|j: int| 0 <= j < w.len() implies #[trigger] w[j] != id && ids.contains(w[j]) by {
            if j < wi.len() {
                assert(w[j] == wi[j]);
                let k = choose|k: int| 0 <= k < init.len() && init[k] == wi[j];
                assert(ids[k] == init[k]);
            } else {
                assert(w[j] == ids.last());
                assert(ids[ids.len() - 1] == ids.last());
            }
        }
        assert forall|k: int| 0 <= k < ids.len() && ids[k] != id implies w.contains(#[trigger] ids[k]) by {
            if k < init.len() {
                assert(init[k] == ids[k]);
                assert(wi.contains(init[k]));
                let j = choose|j: int| 0 <= j < wi.len() && wi[j] == init[k];
                assert(w[j] == wi[j]);
            } else {
                assert(w[wi.len() as int] == ids[k]);
            }
        }
    }
}

/// The employer (`by_employer`) or the worker of a stream.
pub open spec fn owner(s: Stream, by_employer: bool) -> Address {
    if by_employer {
        s.employer
    } else {
        s.worker
    }
}

/// An owner index agrees with the stored streams: every id listed under an
/// owner names a stored stream of that owner, and every stored stream is
/// listed under its owner.
pub open spec fn index_consistent(m: Map<Address, Seq<u64>>, streams: Map<u64, Stream>, by_employer: bool) -> bool {
    &&& forall|a: Address, i: int|
        0 <= i < ids_of(m, a).len() ==> streams.contains_key(#[trigger] ids_of(m, a)[i]) && owner(
            streams[ids_of(m, a)[i]],
            by_employer,
        ) == a
    &&& forall|id: u64| #[trigger]
        streams.contains_key(id) ==> ids_of(m, owner(streams[id], by_employer)).contains(id)
}

/// Replacing a stored stream by one of the same owner keeps an index consistent.
proof fn lemma_index_update(m: Map<Address, Seq<u64>>, streams: Map<u64, Stream>, id: u64, s: Stream, b: bool)
    requires
        index_consistent(m, streams, b),
        streams.contains_key(id),
        owner(s, b) == owner(streams[id], b),
    ensures
        index_consistent(m, streams.insert(id, s), b),
{
    let st = streams.insert(id, s);
    assert forall|id2: u64| #[trigger] st.contains_key(id2) implies ids_of(m, owner(st[id2], b)).contains(id2) by {
        assert(streams.contains_key(id2));
    }
}

/// Storing a new stream and listing it under its owner keeps an index consistent.
proof fn lemma_index_push(m: Map<Address, Seq<u64>>, streams: Map<u64, Stream>, id: u64, s: Stream, b: bool)
    requires
        index_consistent(m, streams, b),
        !streams.contains_key(id),
    ensures
        index_consistent(index_pushed(m, owner(s, b), id), streams.insert(id, s), b),
{
    let o = owner(s, b);
    let m2 = index_pushed(m, o, id);
    let st = streams.insert(id, s);
    assert forall|a: Address, i: int| 0 <= i < ids_of(m2, a).len() implies st.contains_key(
        #[trigger] ids_of(m2, a)[i],
    ) && owner(st[ids_of(m2, a)[i]], b) == a by {
        if a == o && i == ids_of(m, o).len() {
            assert(ids_of(m2, a)[i] == id);
        } else {
            assert(ids_of(m2, a)[i] == ids_of(m, a)[i]);
            assert(streams.contains_key(ids_of(m, a)[i]));
        }
    }
    assert forall|id2: u64| #[trigger] st.contains_key(id2) implies ids_of(m2, owner(st[id2], b)).contains(id2) by {
        if id2 == id {
            assert(ids_of(m2, o)[ids_of(m, o).len() as int] == id);
        } else {
            assert(streams.contains_key(id2));
            let a = owner(streams[id2], b);
            let k = choose|k: int| 0 <= k < ids_of(m, a).len() && ids_of(m, a)[k] == id2;
            assert(ids_of(m2, a)[k] == id2);
        }
    }
}

/// Deleting a stored stream and unlisting it from its owner keeps an index consistent.
proof fn lemma_index_remove(m: Map<Address, Seq<u64>>, streams: Map<u64, Stream>, id: u64, b: bool)
    requires
        index_consistent(m, streams, b),
        streams.contains_key(id),
    ensures
        index_consistent(index_removed(m, owner(streams[id], b), id), streams.remove(id), b),
{
    let o = owner(streams[id], b);
    let old_ids = ids_of(m, o);
    let rest = without(old_ids, id);
    let m2 = index_removed(m, o, id);
    let st = streams.remove(id);
    lemma_without(old_ids, id);
    assert forall|a: Address, i: int| 0 <= i < ids_of(m2, a).len() implies st.contains_key(
        #[trigger] ids_of(m2, a)[i],
    ) && owner(st[ids_of(m2, a)[i]], b) == a by {
        if a == o {
            assert(ids_of(m2, a) == rest);
            let x = rest[i];
            assert(x != id && old_ids.contains(x));
            let k = choose|k: int| 0 <= k < old_ids.len() && old_ids[k] == x;
            assert(streams.contains_key(ids_of(m, a)[k]));
        } else {
            assert(ids_of(m2, a) == ids_of(m, a));
            assert(streams.contains_key(ids_of(m, a)[i]));
        }
    }
    assert forall|id2: u64| #[trigger] st.contains_key(id2) implies ids_of(m2, owner(st[id2], b)).contains(id2) by {
        assert(streams.contains_key(id2));
        let a = owner(streams[id2], b);
        assert(ids_of(m, a).contains(id2));
        if a == o {
            let k = choose|k: int| 0 <= k < old_ids.len() && old_ids[k] == id2;
            assert(rest.contains(old_ids[k]));
            assert(rest.len() > 0);
            assert(ids_of(m2, a) == rest);
        } else {
            assert(ids_of(m2, a) == ids_of(m, a));
        }
    }
}

/// End of the retention period of a stream closed at `closed_at`, saturated
/// at the largest instant.
pub open spec fn retention_end(closed_at: u64, retention_secs: u64) -> int {
    if closed_at + retention_secs > u64::MAX {
        u64::MAX as int
    } else {
        closed_at + retention_secs
    }
}

/// The abstract state of a `PayrollStream`.
pub struct StreamsView {
    pub admin: Option<Address>,
    pub paused: bool,
    pub next_stream_id: u64,
    pub retention_secs: u64,
    pub streams: Map<u64, Stream>,
    pub employer_streams: Map<Address, Seq<u64>>,
    pub worker_streams: Map<Address, Seq<u64>>,
}

/// The stream that creation stores.
pub open spec fn created_stream(
    employer: Address,
    worker: Address,
    token: Address,
    rate: i128,
    cliff_ts: u64,
    start_ts: u64,
    end_ts: u64,
    now: u64,
) -> Stream {
    Stream {
        employer,
        worker,
        token,
        rate,
        cliff_ts: if cliff_ts == 0 { start_ts } else { cliff_ts },
        start_ts,
        end_ts,
        total_amount: (rate * (end_ts - start_ts)) as i128,
        withdrawn_amount: 0,
        last_withdrawal_ts: 0,
        status: StreamStatus::Active,
        created_at: now,
        closed_at: 0,
    }
}

/// The stream after everything vested at `now` has been withdrawn; it is
/// completed once the whole total is out.
pub open spec fn withdrawn_stream(s: Stream, now: u64) -> Stream {
    let w = vested(s, now);
    if w >= s.total_amount {
        Stream {
            withdrawn_amount: w as i128,
            last_withdrawal_ts: now,
            status: StreamStatus::Completed,
            closed_at: now,
            ..s
        }
    } else {
        Stream { withdrawn_amount: w as i128, last_withdrawal_ts: now, ..s }
    }
}

impl StreamsView {
    /// Every stored stream is well formed and its id was handed out already;
    /// the employer and worker indexes list exactly the stored streams of
    /// each owner.
    pub open spec fn wf(self) -> bool {
        &&& self.next_stream_id >= 1
        &&& forall|id: u64| #[trigger]
            self.streams.contains_key(id) ==> self.streams[id].wf() && id < self.next_stream_id
        &&& index_consistent(self.employer_streams, self.streams, true)
        &&& index_consistent(self.worker_streams, self.streams, false)
    }

    pub open spec fn with_stream(self, id: u64, s: Stream) -> StreamsView {
        StreamsView { streams: self.streams.insert(id, s), ..self }
    }

    /// The first reason for which creation is refused, if any.
    pub open spec fn create_error(
        self,
        vault: VaultView,
        token: Address,
        rate: i128,
        cliff_ts: u64,
        start_ts: u64,
        end_ts: u64,
        now: u64,
    ) -> Option<QuipayError> {
        let cliff = if cliff_ts == 0 { start_ts } else { cliff_ts };
        if self.paused {
            Some(QuipayError::ProtocolPaused)
        } else if rate <= 0 || end_ts <= start_ts || cliff > end_ts || start_ts < now {
            Some(QuipayError::InvalidAmount)
        } else if rate * (end_ts - start_ts) > i128::MAX {
            Some(QuipayError::ArithmeticOverflow)
        } else if self.next_stream_id == u64::MAX {
            Some(QuipayError::ArithmeticOverflow)
        } else if !vault.covers(token, rate * (end_ts - start_ts)) {
            Some(QuipayError::InsufficientBalance)
        } else {
            None
        }
    }

    /// Withdrawal by `caller` from stream `id` at `now`, paused or not: the new
    /// states and the amount paid out.
    pub open spec fn withdraw_core(
        self,
        vault: VaultView,
        id: u64,
        caller: Address,
        now: u64,
    ) -> Result<(StreamsView, VaultView, i128), QuipayError> {
        if !self.streams.contains_key(id) {
            Err(QuipayError::StreamNotFound)
        } else {
            let s = self.streams[id];
            let available = vested(s, now) - s.withdrawn_amount;
            if s.worker != caller {
                Err(QuipayError::Unauthorized)
            } else if s.closed() {
                Err(QuipayError::StreamClosed)
            } else if available <= 0 {
                Ok((self, vault, 0i128))
            } else {
                match vault.payout_outcome(s.token, available) {
                    Err(e) => Err(e),
                    Ok(v) => Ok((self.with_stream(id, withdrawn_stream(s, now)), v, available as i128)),
                }
            }
        }
    }

    pub open spec fn withdraw_outcome(
        self,
        vault: VaultView,
        id: u64,
        caller: Address,
        now: u64,
    ) -> Result<(StreamsView, VaultView, i128), QuipayError> {
        if self.paused {
            Err(QuipayError::ProtocolPaused)
        } else {
            self.withdraw_core(vault, id, caller, now)
        }
    }

    /// One item of a batch: a refused withdrawal is reported, not raised.
    pub open spec fn batch_step(
        self,
        vault: VaultView,
        id: u64,
        caller: Address,
        now: u64,
    ) -> (StreamsView, VaultView, WithdrawResult) {
        match self.withdraw_core(vault, id, caller, now) {
            Ok((e, v, amount)) => (e, v, WithdrawResult { stream_id: id, amount, success: true }),
            Err(_) => (self, vault, WithdrawResult { stream_id: id, amount: 0, success: false }),
        }
    }

    /// The items of `ids` processed in order.
    pub open spec fn batch_outcome(
        self,
        vault: VaultView,
        ids: Seq<u64>,
        caller: Address,
        now: u64,
    ) -> (StreamsView, VaultView, Seq<WithdrawResult>)
        decreases ids.len(),
    {
        if ids.len() == 0 {
            (self, vault, Seq::empty())
        } else {
            let (e, v, rs) = self.batch_outcome(vault, ids.drop_last(), caller, now);
            let (e2, v2, r) = e.batch_step(v, ids.last(), caller, now);
            (e2, v2, rs.push(r))
        }
    }

    /// Cancellation by `caller` of stream `id` at `now`: the un-withdrawn rest
    /// of the total goes back to the ledger; a closed stream stays as it is.
    pub open spec fn cancel_outcome(
        self,
        vault: VaultView,
        id: u64,
        caller: Address,
        now: u64,
    ) -> Result<(StreamsView, VaultView), QuipayError> {
        if self.paused {
            Err(QuipayError::ProtocolPaused)
        } else if !self.streams.contains_key(id) {
            Err(QuipayError::StreamNotFound)
        } else {
            let s = self.streams[id];
            let remaining = s.total_amount - s.withdrawn_amount;
            let canceled = Stream { status: StreamStatus::Canceled, closed_at: now, ..s };
            if s.employer != caller {
                Err(QuipayError::Unauthorized)
            } else if s.closed() {
                Ok((self, vault))
            } else if remaining <= 0 {
                Ok((self.with_stream(id, canceled), vault))
            } else {
                match vault.release_outcome(s.token, remaining) {
                    Err(e) => Err(e),
                    Ok(v) => Ok((self.with_stream(id, canceled), v)),
                }
            }
        }
    }

    /// Deletion of closed stream `id` once the retention period has passed.
    pub open spec fn cleanup_outcome(self, id: u64, now: u64) -> Result<StreamsView, QuipayError> {
        if !self.streams.contains_key(id) {
            Err(QuipayError::StreamNotFound)
        } else {
            let s = self.streams[id];
            if !s.closed() {
                Err(QuipayError::StreamNotClosed)
            } else if now < retention_end(s.closed_at, self.retention_secs) {
                Err(QuipayError::RetentionNotElapsed)
            } else {
                Ok(
                    StreamsView {
                        streams: self.streams.remove(id),
                        employer_streams: index_removed(self.employer_streams, s.employer, id),
                        worker_streams: index_removed(self.worker_streams, s.worker, id),
                        ..self
                    },
                )
            }
        }
    }
}

/// Idempotent cancellation: once a cancellation has gone through, a second
/// one by the same caller, at any later instant, succeeds and changes neither
/// the streams nor the ledger.
pub proof fn lemma_cancel_idempotent(
    streams: StreamsView,
    vault: VaultView,
    id: u64,
    caller: Address,
    now1: u64,
    now2: u64,
)
    requires
        streams.cancel_outcome(vault, id, caller, now1) is Ok,
    ensures
        ({
            let (s1, v1) = streams.cancel_outcome(vault, id, caller, now1)->Ok_0;
            s1.cancel_outcome(v1, id, caller, now2) == Ok::<(StreamsView, VaultView), QuipayError>(
                (s1, v1),
            )
        }),
{
}

/// The stream engine: stream records, their employer and worker indexes, and
/// the settings that gate operations.
pub struct PayrollStream {
    admin: Option<Address>,
    paused: bool,
    next_stream_id: u64,
    retention_secs: u64,
    streams: HashMap<u64, Stream>,
    employer_streams: HashMap<Address, Vec<u64>>,
    worker_streams: HashMap<Address, Vec<u64>>,
}

pub open spec fn index_view(m: Map<Address, Vec<u64>>) -> Map<Address, Seq<u64>> {
    m.map_values(|v: Vec<u64>| v@)
}

impl View for PayrollStream {
    type V = StreamsView;

    closed spec fn view(&self) -> StreamsView {
        StreamsView {
            admin: self.admin,
            paused: self.paused,
            next_stream_id: self.next_stream_id,
            retention_secs: self.retention_secs,
            streams: self.streams@,
            employer_streams: index_view(self.employer_streams@),
            worker_streams: index_view(self.worker_streams@),
        }
    }
}

fn copy_ids(ids: &Vec<u64>) -> (r: Vec<u64>)
    ensures
        r@ == ids@,
{
    let mut out: Vec<u64> = Vec::new();
    let mut i: usize = 0;
    while i < ids.len()
        invariant
            i <= ids.len(),
            out@ == ids@.subrange(0, i as int),
        decreases ids.len() - i,
    {
        out.push(ids[i]);
        i += 1;
        proof {
            assert(out@ =~= ids@.subrange(0, i as int));
        }
    }
    proof {
        assert(ids@.subrange(0, ids.len() as int) =~= ids@);
    }
    out
}

fn read_index(index: &HashMap<Address, Vec<u64>>, a: Address) -> (r: Vec<u64>)
    ensures
        r@ == ids_of(index_view(index@), a),
{
    match index.get(&a) {
        Some(ids) => copy_ids(ids),
        None => Vec::new(),
    }
}

fn index_push(index: &mut HashMap<Address, Vec<u64>>, a: Address, id: u64)
    ensures
        index_view(final(index)@) == index_pushed(index_view(old(index)@), a, id),
{
    let mut ids = match index.remove(&a) {
        Some(v) => v,
        None => Vec::new(),
    };
    ids.push(id);
    index.insert(a, ids);
    proof {
        assert(index_view(index@) =~= index_pushed(index_view(old(index)@), a, id));
    }
}

fn index_remove(index: &mut HashMap<Address, Vec<u64>>, a: Address, id: u64)
    ensures
        index_view(final(index)@) == index_removed(index_view(old(index)@), a, id),
{
    let ids = match index.remove(&a) {
        Some(v) => v,
        None => {
            proof {
                assert(index_view(index@) =~= index_removed(index_view(old(index)@), a, id));
            }
            return;
        },
    };
    let mut rest: Vec<u64> = Vec::new();
    let mut i: usize = 0;
    while i < ids.len()
        invariant
            i <= ids.len(),
            rest@ == without(ids@.subrange(0, i as int), id),
        decreases ids.len() - i,
    {
        let x = ids[i];
        if x != id {
            rest.push(x);
        }
        proof {
            assert(ids@.subrange(0, i + 1).drop_last() =~= ids@.subrange(0, i as int));
        }
        i += 1;
    }
    proof {
        assert(ids@.subrange(0, ids.len() as int) =~= ids@);
    }
    if rest.len() > 0 {
        index.insert(a, rest);
    }
    proof {
        assert(index_view(index@) =~= index_removed(index_view(old(index)@), a, id));
    }
}

impl PayrollStream {
    /// An engine with no admin yet, not paused, with the default retention period.
    pub fn new() -> (r: PayrollStream)
        ensures
            r@ == (StreamsView {
                admin: None,
                paused: false,
                next_stream_id: 1,
                retention_secs: DEFAULT_RETENTION_SECS,
                streams: Map::empty(),
                employer_streams: Map::empty(),
                worker_streams: Map::empty(),
            }),
            r@.wf(),
    {
        let r = PayrollStream {
            admin: None,
            paused: false,
            next_stream_id: 1,
            retention_secs: DEFAULT_RETENTION_SECS,
            streams: HashMap::new(),
            employer_streams: HashMap::new(),
            worker_streams: HashMap::new(),
        };
        proof {
            assert(index_view(r.employer_streams@) =~= Map::empty());
            assert(index_view(r.worker_streams@) =~= Map::empty());
        }
        r
    }

    /// Sets the admin, unpaused, with the default retention period; once.
    pub fn init(&mut self, admin: Address) -> (r: QuipayResult<()>)
        ensures
            old(self)@.admin is Some ==> r == Err::<(), QuipayError>(QuipayError::AlreadyInitialized)
                && final(self)@ == old(self)@,
            old(self)@.admin is None ==> r is Ok && final(self)@ == (StreamsView {
                admin: Some(admin),
                paused: false,
                retention_secs: DEFAULT_RETENTION_SECS,
                ..old(self)@
            }),
    {
        if self.admin.is_some() {
            return Err(QuipayError::AlreadyInitialized);
        }
        self.admin = Some(admin);
        self.paused = false;
        self.retention_secs = DEFAULT_RETENTION_SECS;
        Ok(())
    }

    fn require_admin(&self, caller: Address) -> (r: QuipayResult<()>)
        ensures
            r == (match self@.admin {
                None => Err(QuipayError::NotInitialized),
                Some(a) => if a != caller {
                    Err(QuipayError::Unauthorized)
                } else {
                    Ok(())
                },
            }),
    {
        match self.admin {
            None => Err(QuipayError::NotInitialized),
            Some(a) => {
                if a != caller {
                    Err(QuipayError::Unauthorized)
                } else {
                    Ok(())
                }
            },
        }
    }

    /// Pauses or resumes stream operations; the admin only.
    pub fn set_paused(&mut self, caller: Address, paused: bool) -> (r: QuipayResult<()>)
        ensures
            match old(self)@.admin {
                None => r == Err::<(), QuipayError>(QuipayError::NotInitialized) && final(self)@ == old(self)@,
                Some(a) => if a != caller {
                    r == Err::<(), QuipayError>(QuipayError::Unauthorized) && final(self)@ == old(self)@
                } else {
                    r is Ok && final(self)@ == (StreamsView { paused, ..old(self)@ })
                },
            },
    {
        match self.require_admin(caller) {
            Err(e) => {
                return Err(e);
            },
            Ok(()) => {},
        }
        self.paused = paused;
        Ok(())
    }

    pub fn is_paused(&self) -> (r: bool)
        ensures
            r == self@.paused,
    {
        self.paused
    }

    /// Sets how long closed streams are kept before cleanup; the admin only.
    pub fn set_retention_secs(&mut self, caller: Address, retention_secs: u64) -> (r: QuipayResult<()>)
        ensures
            match old(self)@.admin {
                None => r == Err::<(), QuipayError>(QuipayError::NotInitialized) && final(self)@ == old(self)@,
                Some(a) => if a != caller {
                    r == Err::<(), QuipayError>(QuipayError::Unauthorized) && final(self)@ == old(self)@
                } else {
                    r is Ok && final(self)@ == (StreamsView { retention_secs, ..old(self)@ })
                },
            },
    {
        match self.require_admin(caller) {
            Err(e) => {
                return Err(e);
            },
            Ok(()) => {},
        }
        self.retention_secs = retention_secs;
        Ok(())
    }

    fn require_not_paused(&self) -> (r: QuipayResult<()>)
        ensures
            r == (if self@.paused {
                Err(QuipayError::ProtocolPaused)
            } else {
                Ok(())
            }),
    {
        if self.paused {
            return Err(QuipayError::ProtocolPaused);
        }
        Ok(())
    }

    fn is_closed(stream: &Stream) -> (r: bool)
        ensures
            r == stream.closed(),
    {
        stream.status == StreamStatus::Canceled || stream.status == StreamStatus::Completed
    }

    fn close_stream_internal(stream: &mut Stream, now: u64, status: StreamStatus)
        ensures
            *final(stream) == (Stream { status, closed_at: now, ..*old(stream) }),
    {
        stream.status = status;
        stream.closed_at = now;
    }

    /// The value accrued by a well-formed stream at `now`; a closed stream's
    /// accrual is frozen at its closing instant.
    pub fn vested_amount(stream: &Stream, now: u64) -> (r: i128)
        requires
            stream.wf(),
        ensures
            r == accrued(*stream, now),
    {
        let at = if Self::is_closed(stream) && stream.closed_at < now {
            stream.closed_at
        } else {
            now
        };
        Self::vested_at(stream, at)
    }

    /// The vesting formula at `now`, whatever the stream's status.
    fn vested_at(stream: &Stream, now: u64) -> (r: i128)
        requires
            stream.wf(),
        ensures
            r == vested(*stream, now),
    {
        if now < stream.cliff_ts {
            return 0;
        }
        if now <= stream.start_ts {
            return 0;
        }
        if now >= stream.end_ts {
            return stream.total_amount;
        }
        proof {
            lemma_vested_linear(*stream, now);
        }
        stream.rate * ((now - stream.start_ts) as i128)
    }

    pub fn get_stream(&self, stream_id: u64) -> (r: Option<Stream>)
        ensures
            r == (if self@.streams.contains_key(stream_id) {
                Some(self@.streams[stream_id])
            } else {
                None
            }),
    {
        match self.streams.get(&stream_id) {
            Some(s) => Some(*s),
            None => None,
        }
    }

    /// Ids of the streams created by `employer`, in creation order.
    pub fn get_employer_streams(&self, employer: Address) -> (r: Vec<u64>)
        ensures
            r@ == ids_of(self@.employer_streams, employer),
    {
        read_index(&self.employer_streams, employer)
    }

    /// Ids of the streams paying `worker`, in creation order.
    pub fn get_worker_streams(&self, worker: Address) -> (r: Vec<u64>)
        ensures
            r@ == ids_of(self@.worker_streams, worker),
    {
        read_index(&self.worker_streams, worker)
    }

    /// Creates a stream paying `rate` per second from `start_ts` to `end_ts`,
    /// gated by `cliff_ts` (zero: the start), after the ledger has admitted its
    /// total as new liability. Returns the new stream's id.
    pub fn create_stream(
        &mut self,
        vault: &mut PayrollVault,
        employer: Address,
        worker: Address,
        token: Address,
        rate: i128,
        cliff_ts: u64,
        start_ts: u64,
        end_ts: u64,
        now: u64,
    ) -> (r: QuipayResult<u64>)
        requires
            old(self)@.wf(),
            old(vault).wf(),
        ensures
            final(self)@.wf(),
            final(vault).wf(),
            match old(self)@.create_error(old(vault)@, token, rate, cliff_ts, start_ts, end_ts, now) {
                Some(e) => r == Err::<u64, QuipayError>(e) && final(self)@ == old(self)@ && final(vault)@
                    == old(vault)@,
                None => {
                    let id = old(self)@.next_stream_id;
                    let s = created_stream(employer, worker, token, rate, cliff_ts, start_ts, end_ts, now);
                    &&& r == Ok::<u64, QuipayError>(id)
                    &&& final(self)@ == (StreamsView {
                        next_stream_id: (id + 1) as u64,
                        streams: old(self)@.streams.insert(id, s),
                        employer_streams: index_pushed(old(self)@.employer_streams, employer, id),
                        worker_streams: index_pushed(old(self)@.worker_streams, worker, id),
                        ..old(self)@
                    })
                    &&& final(vault)@ == old(vault)@.with_liability(
                        token,
                        old(vault)@.liability(token) + s.total_amount,
                    )
                },
            },
    {
        match self.require_not_paused() {
            Err(e) => {
                return Err(e);
            },
            Ok(()) => {},
        }
        if rate <= 0 {
            return Err(QuipayError::InvalidAmount);
        }
        if end_ts <= start_ts {
            return Err(QuipayError::InvalidAmount);
        }
        let effective_cliff = if cliff_ts == 0 {
            start_ts
        } else {
            cliff_ts
        };
        if effective_cliff > end_ts {
            return Err(QuipayError::InvalidAmount);
        }
        if start_ts < now {
            return Err(QuipayError::InvalidAmount);
        }
        let duration = end_ts - start_ts;
        let total_amount = match rate.checked_mul(duration as i128) {
            Some(t) => t,
            None => {
                return Err(QuipayError::ArithmeticOverflow);
            },
        };
        let stream_id = self.next_stream_id;
        let next_id = match stream_id.checked_add(1) {
            Some(n) => n,
            None => {
                return Err(QuipayError::ArithmeticOverflow);
            },
        };
        proof {
            assert(total_amount > 0) by (nonlinear_arith)
                requires
                    rate > 0,
                    duration > 0,
                    total_amount == rate * duration,
            ;
        }
        match vault.allocate_liability(token, total_amount) {
            Err(e) => {
                return Err(e);
            },
            Ok(()) => {},
        }
        let stream = Stream {
            employer,
            worker,
            token,
            rate,
            cliff_ts: effective_cliff,
            start_ts,
            end_ts,
            total_amount,
            withdrawn_amount: 0,
            last_withdrawal_ts: 0,
            status: StreamStatus::Active,
            created_at: now,
            closed_at: 0,
        };
        proof {
            lemma_vested_bounds(stream, 0);
        }
        self.next_stream_id = next_id;
        self.streams.insert(stream_id, stream);
        index_push(&mut self.employer_streams, employer, stream_id);
        index_push(&mut self.worker_streams, worker, stream_id);
        proof {
            let ov = old(self)@;
            assert(!ov.streams.contains_key(stream_id));
            lemma_index_push(ov.employer_streams, ov.streams, stream_id, stream, true);
            lemma_index_push(ov.worker_streams, ov.streams, stream_id, stream, false);
        }
        Ok(stream_id)
    }

    /// Withdrawal without the pause gate, shared by single and batch withdrawal.
    fn withdraw_one(&mut self, vault: &mut PayrollVault, stream_id: u64, caller: Address, now: u64) -> (r:
        QuipayResult<i128>)
        requires
            old(self)@.wf(),
            old(vault).wf(),
        ensures
            final(self)@.wf(),
            final(vault).wf(),
            match old(self)@.withdraw_core(old(vault)@, stream_id, caller, now) {
                Ok((e, v, amount)) => r == Ok::<i128, QuipayError>(amount) && final(self)@ == e
                    && final(vault)@ == v,
                Err(err) => r == Err::<i128, QuipayError>(err) && final(self)@ == old(self)@
                    && final(vault)@ == old(vault)@,
            },
    {
        let mut stream = match self.streams.get(&stream_id) {
            Some(s) => *s,
            None => {
                return Err(QuipayError::StreamNotFound);
            },
        };
        if stream.worker != caller {
            return Err(QuipayError::Unauthorized);
        }
        if Self::is_closed(&stream) {
            return Err(QuipayError::StreamClosed);
        }
        proof {
            lemma_vested_bounds(stream, now);
            lemma_vested_bounds(stream, stream.last_withdrawal_ts);
        }
        let vested = Self::vested_at(&stream, now);
        let available = vested - stream.withdrawn_amount;
        if available <= 0 {
            return Ok(0);
        }
        match vault.pay_liability(stream.token, available) {
            Err(e) => {
                return Err(e);
            },
            Ok(()) => {},
        }
        stream.withdrawn_amount = stream.withdrawn_amount + available;
        stream.last_withdrawal_ts = now;
        if stream.withdrawn_amount >= stream.total_amount {
            Self::close_stream_internal(&mut stream, now, StreamStatus::Completed);
        }
        self.streams.insert(stream_id, stream);
        proof {
            let ov = old(self)@;
            assert(self@.streams =~= ov.streams.insert(stream_id, withdrawn_stream(ov.streams[stream_id], now)));
            lemma_index_update(ov.employer_streams, ov.streams, stream_id, stream, true);
            lemma_index_update(ov.worker_streams, ov.streams, stream_id, stream, false);
        }
        Ok(available)
    }

    /// Pays the worker of stream `stream_id` what has vested at `now` and not
    /// been withdrawn yet; nothing vested yet is a successful zero.
    pub fn withdraw(&mut self, vault: &mut PayrollVault, stream_id: u64, worker: Address, now: u64) -> (r:
        QuipayResult<i128>)
        requires
            old(self)@.wf(),
            old(vault).wf(),
        ensures
            final(self)@.wf(),
            final(vault).wf(),
            match old(self)@.withdraw_outcome(old(vault)@, stream_id, worker, now) {
                Ok((e, v, amount)) => r == Ok::<i128, QuipayError>(amount) && final(self)@ == e
                    && final(vault)@ == v,
                Err(err) => r == Err::<i128, QuipayError>(err) && final(self)@ == old(self)@
                    && final(vault)@ == old(vault)@,
            },
    {
        match self.require_not_paused() {
            Err(e) => {
                return Err(e);
            },
            Ok(()) => {},
        }
        self.withdraw_one(vault, stream_id, worker, now)
    }

    /// Withdraws from each listed stream in turn for `caller`. A stream that
    /// is missing, paid to someone else, closed, or whose payout the ledger
    /// refuses yields `success = false` and is left untouched; the batch goes on.
    pub fn batch_withdraw(
        &mut self,
        vault: &mut PayrollVault,
        stream_ids: Vec<u64>,
        caller: Address,
        now: u64,
    ) -> (r: QuipayResult<Vec<WithdrawResult>>)
        requires
            old(self)@.wf(),
            old(vault).wf(),
        ensures
            final(self)@.wf(),
            final(vault).wf(),
            old(self)@.paused ==> r == Err::<Vec<WithdrawResult>, QuipayError>(QuipayError::ProtocolPaused)
                && final(self)@ == old(self)@ && final(vault)@ == old(vault)@,
            !old(self)@.paused ==> ({
                let (e, v, results) = old(self)@.batch_outcome(old(vault)@, stream_ids@, caller, now);
                &&& r is Ok
                &&& r->Ok_0@ == results
                &&& final(self)@ == e
                &&& final(vault)@ == v
            }),
    {
        match self.require_not_paused() {
            Err(e) => {
                return Err(e);
            },
            Ok(()) => {},
        }
        let ghost streams0 = self@;
        let ghost vault0 = vault@;
        let mut results: Vec<WithdrawResult> = Vec::new();
        let mut idx: usize = 0;
        proof {
            assert(stream_ids@.subrange(0, 0) =~= Seq::<u64>::empty());
        }
        while idx < stream_ids.len()
            invariant
                idx <= stream_ids.len(),
                self@.wf(),
                vault.wf(),
                (self@, vault@, results@) == streams0.batch_outcome(
                    vault0,
                    stream_ids@.subrange(0, idx as int),
                    caller,
                    now,
                ),
            decreases stream_ids.len() - idx,
        {
            let stream_id = stream_ids[idx];
            let result = match self.withdraw_one(vault, stream_id, caller, now) {
                Ok(amount) => WithdrawResult { stream_id, amount, success: true },
                Err(_) => WithdrawResult { stream_id, amount: 0, success: false },
            };
            results.push(result);
            proof {
                assert(stream_ids@.subrange(0, idx + 1).drop_last() =~= stream_ids@.subrange(
                    0,
                    idx as int,
                ));
            }
            idx += 1;
        }
        proof {
            assert(stream_ids@.subrange(0, stream_ids.len() as int) =~= stream_ids@);
        }
        Ok(results)
    }

    /// Cancels stream `stream_id` for its employer: the un-withdrawn rest of
    /// its total is released from the ledger and the stream is closed at
    /// `now`. Canceling a closed stream changes nothing.
    pub fn cancel_stream(&mut self, vault: &mut PayrollVault, stream_id: u64, employer: Address, now: u64) -> (r:
        QuipayResult<()>)
        requires
            old(self)@.wf(),
            old(vault).wf(),
        ensures
            final(self)@.wf(),
            final(vault).wf(),
            match old(self)@.cancel_outcome(old(vault)@, stream_id, employer, now) {
                Ok((e, v)) => r is Ok && final(self)@ == e && final(vault)@ == v,
                Err(err) => r == Err::<(), QuipayError>(err) && final(self)@ == old(self)@ && final(vault)@
                    == old(vault)@,
            },
            old(self)@.streams.contains_key(stream_id) && old(self)@.streams[stream_id].closed()
                ==> final(self)@ == old(self)@ && final(vault)@ == old(vault)@,
    {
        match self.require_not_paused() {
            Err(e) => {
                return Err(e);
            },
            Ok(()) => {},
        }
        let mut stream = match self.streams.get(&stream_id) {
            Some(s) => *s,
            None => {
                return Err(QuipayError::StreamNotFound);
            },
        };
        if stream.employer != employer {
            return Err(QuipayError::Unauthorized);
        }
        if Self::is_closed(&stream) {
            return Ok(());
        }
        proof {
            lemma_vested_bounds(stream, stream.last_withdrawal_ts);
        }
        let remaining = stream.total_amount - stream.withdrawn_amount;
        if remaining > 0 {
            match vault.release_liability(stream.token, remaining) {
                Err(e) => {
                    return Err(e);
                },
                Ok(()) => {},
            }
        }
        Self::close_stream_internal(&mut stream, now, StreamStatus::Canceled);
        self.streams.insert(stream_id, stream);
        proof {
            let ov = old(self)@;
            lemma_index_update(ov.employer_streams, ov.streams, stream_id, stream, true);
            lemma_index_update(ov.worker_streams, ov.streams, stream_id, stream, false);
        }
        Ok(())
    }

    /// Deletes closed stream `stream_id` and its index entries once `now` has
    /// reached its closing instant plus the retention period.
    pub fn cleanup_stream(&mut self, stream_id: u64, now: u64) -> (r: QuipayResult<()>)
        requires
            old(self)@.wf(),
        ensures
            final(self)@.wf(),
            match old(self)@.cleanup_outcome(stream_id, now) {
                Ok(e) => r is Ok && final(self)@ == e,
                Err(err) => r == Err::<(), QuipayError>(err) && final(self)@ == old(self)@,
            },
    {
        let stream = match self.streams.get(&stream_id) {
            Some(s) => *s,
            None => {
                return Err(QuipayError::StreamNotFound);
            },
        };
        if !Self::is_closed(&stream) {
            return Err(QuipayError::StreamNotClosed);
        }
        let retention = self.retention_secs;
        if now < stream.closed_at.saturating_add(retention) {
            return Err(QuipayError::RetentionNotElapsed);
        }
        index_remove(&mut self.employer_streams, stream.employer, stream_id);
        index_remove(&mut self.worker_streams, stream.worker, stream_id);
        self.streams.remove(&stream_id);
        proof {
            let ov = old(self)@;
            lemma_index_remove(ov.employer_streams, ov.streams, stream_id, true);
            lemma_index_remove(ov.worker_streams, ov.streams, stream_id, false);
        }
        Ok(())
    }
}

} // verus!
