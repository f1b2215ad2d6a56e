//! Coordination state for the one background worker that bakes glass pixels:
//! one pending request, one completed value. A newer generation invalidates
//! an in-flight result, even for an A -> B -> A key sequence. The threads and
//! the lock around this state live with the caller; this is the state they
//! share and every transition they make on it.

use vstd::prelude::*;
use vstd::laws_eq::obeys_concrete_eq;

verus! {

/// What `request` did.
pub enum RequestOutcome<V> {
    /// The key is already the current target; nothing changed.
    Unchanged,
    /// A new generation is pending; wake the worker. The value, if any, is the
    /// completed result that became obsolete (drop it after releasing the lock).
    Queued(Option<V>),
}

/// What the worker does next.
#[derive(Debug, PartialEq, Eq)]
pub enum WorkerStep<K> {
    /// Shut down: the worker exits.
    Stop,
    /// Nothing is pending: wait for a wake-up.
    Wait,
    /// Bake this generation of this key, without holding the lock.
    Bake(u64, K),
}

/// What became of a finished bake.
#[derive(Debug, PartialEq, Eq)]
pub enum Completion {
    /// Shut down meanwhile: the worker exits.
    Stop,
    /// Still the current request: the value is ready.
    Installed,
    /// Still the current request, but the bake failed; the previous texture stays.
    Failed,
    /// A newer request superseded it: the value is discarded.
    Stale,
}

pub struct LatestBake<K, V> {
    generation: u64,
    target: Option<(u64, K)>,
    pending: Option<(u64, K)>,
    ready: Option<(u64, K, V)>,
    shutdown: bool,
}

/// The state of a `LatestBake`, as plain values.
pub struct BakeState<K, V> {
    pub generation: u64,
    pub target: Option<(u64, K)>,
    pub pending: Option<(u64, K)>,
    pub ready: Option<(u64, K, V)>,
    pub shutdown: bool,
}

/// Every generation handed out is at most the counter, the target carries the
/// counter, and whatever is pending is the target itself.
pub open spec fn bake_wf<K, V>(s: BakeState<K, V>) -> bool {
    &&& (s.target matches Some((g, _)) ==> g == s.generation)
    &&& (s.pending matches Some(p) ==> s.target == Some(p))
    &&& (s.ready matches Some((g, _, _)) ==> g <= s.generation)
}

pub open spec fn next_generation(g: u64) -> u64 {
    if g == u64::MAX { 0 } else { (g + 1) as u64 }
}

/// `request(key)`: nothing changes when `key` is the current target; otherwise
/// a new generation of `key` becomes the target and the pending job, and any
/// completed value is dropped.
pub open spec fn request_step<K, V>(s: BakeState<K, V>, key: K) -> BakeState<K, V> {
    if s.target matches Some((_, k)) && k == key {
        s
    } else {
        let g = next_generation(s.generation);
        BakeState { generation: g, target: Some((g, key)), pending: Some((g, key)), ready: None, ..s }
    }
}

/// Whether `take_ready(key)` hands out a value: the target is `key` and the
/// completed value is of the target's generation and key.
pub open spec fn ready_for<K, V>(s: BakeState<K, V>, key: K) -> bool {
    &&& s.target matches Some((g, k))
    &&& k == key
    &&& s.ready matches Some((rg, rk, _))
    &&& rg == g
    &&& rk == key
}

/// The worker's next step and the state after it.
pub open spec fn worker_step<K, V>(s: BakeState<K, V>) -> (WorkerStep<K>, BakeState<K, V>) {
    if s.shutdown {
        (WorkerStep::Stop, s)
    } else {
        match s.pending {
            None => (WorkerStep::Wait, s),
            Some((g, k)) => (WorkerStep::Bake(g, k), BakeState { pending: None, ..s }),
        }
    }
}

/// The outcome of finishing the bake of `(g, k)` and the state after it.
pub open spec fn completion_step<K, V>(s: BakeState<K, V>, g: u64, k: K, value: Option<V>) -> (Completion, BakeState<K, V>) {
    if s.shutdown {
        (Completion::Stop, s)
    } else if s.target == Some((g, k)) {
        match value {
            Some(v) => (Completion::Installed, BakeState { ready: Some((g, k, v)), ..s }),
            None => (Completion::Failed, s),
        }
    } else {
        (Completion::Stale, s)
    }
}

impl<K: Copy + PartialEq, V> LatestBake<K, V> {
    pub closed spec fn state(self) -> BakeState<K, V> {
        BakeState {
            generation: self.generation,
            target: self.target,
            pending: self.pending,
            ready: self.ready,
            shutdown: self.shutdown,
        }
    }

    pub fn new() -> (bake: Self)
        ensures
            bake.state() == (BakeState::<K, V> { generation: 0, target: None, pending: None, ready: None, shutdown: false }),
            bake_wf(bake.state()),
    {
        LatestBake { generation: 0, target: None, pending: None, ready: None, shutdown: false }
    }

    /// Asks for `key`. A repeated request for the current target changes
    /// nothing, so an unchanged key is never baked twice; any other key starts
    /// a new generation that supersedes whatever is in flight.
    pub fn request(&mut self, key: K) -> (r: RequestOutcome<V>)
        requires
            obeys_concrete_eq::<K>(),
        ensures
            final(self).state() == request_step(old(self).state(), key),
            bake_wf(old(self).state()) ==> bake_wf(final(self).state()),
            match r {
                RequestOutcome::Unchanged => old(self).state().target matches Some((_, k)) && k == key,
                RequestOutcome::Queued(obsolete) => !(old(self).state().target matches Some((_, k)) && k == key)
                    && obsolete == (match old(self).state().ready {
                        Some((_, _, v)) => Some(v),
                        None => None,
                    }),
            },
    {
        proof {
            reveal(obeys_concrete_eq);
        }
        if let Some((_, target)) = self.target {
            if target == key {
                return RequestOutcome::Unchanged;
            }
        }
        self.generation = self.generation.wrapping_add(1);
        let request = (self.generation, key);
        self.target = Some(request);
        self.pending = Some(request);
        let obsolete = match self.ready.take() {
            Some((_, _, value)) => Some(value),
            None => None,
        };
        RequestOutcome::Queued(obsolete)
    }

    /// Hands out the completed value for `key`, if it is the current target's.
    pub fn take_ready(&mut self, key: K) -> (r: Option<V>)
        requires
            obeys_concrete_eq::<K>(),
        ensures
            ready_for(old(self).state(), key) ==> (old(self).state().ready matches Some((_, _, v)) && r == Some(v))
                && final(self).state() == (BakeState { ready: None, ..old(self).state() }),
            !ready_for(old(self).state(), key) ==> r is None && final(self).state() == old(self).state(),
    {
        proof {
            reveal(obeys_concrete_eq);
        }
        let (generation, target) = match self.target {
            Some(t) => t,
            None => {
                return None;
            },
        };
        if !(target == key) {
            return None;
        }
        let matches = match &self.ready {
            Some((g, k, _)) => *g == generation && *k == key,
            None => false,
        };
        if !matches {
            return None;
        }
        match self.ready.take() {
            Some((_, _, value)) => Some(value),
            None => None,
        }
    }

    /// The worker's next step: stop, wait for work, or take the pending job.
    pub fn next_job(&mut self) -> (step: WorkerStep<K>)
        ensures
            (step, final(self).state()) == worker_step(old(self).state()),
            bake_wf(old(self).state()) ==> bake_wf(final(self).state()),
    {
        if self.shutdown {
            return WorkerStep::Stop;
        }
        match self.pending.take() {
            Some((g, k)) => WorkerStep::Bake(g, k),
            None => WorkerStep::Wait,
        }
    }

    /// Records the outcome of baking `(generation, key)` (`None` when the bake
    /// failed). Only the current target's result is kept.
    pub fn complete(&mut self, generation: u64, key: K, value: Option<V>) -> (c: Completion)
        requires
            obeys_concrete_eq::<K>(),
        ensures
            (c, final(self).state()) == completion_step(old(self).state(), generation, key, value),
            bake_wf(old(self).state()) && generation <= old(self).state().generation ==> bake_wf(final(self).state()),
    {
        proof {
            reveal(obeys_concrete_eq);
        }
        if self.shutdown {
            return Completion::Stop;
        }
        let current = match self.target {
            Some((g, k)) => g == generation && k == key,
            None => false,
        };
        if !current {
            return Completion::Stale;
        }
        match value {
            Some(v) => {
                self.ready = Some((generation, key, v));
                Completion::Installed
            },
            None => Completion::Failed,
        }
    }

    /// Shuts the worker down: nothing stays pending, and the completed value,
    /// if any, is handed back to be dropped outside the lock.
    pub fn shut_down(&mut self) -> (obsolete: Option<V>)
        ensures
            final(self).state() == (BakeState { shutdown: true, pending: None, ready: None, ..old(self).state() }),
            obsolete == (match old(self).state().ready {
                Some((_, _, v)) => Some(v),
                None => None,
            }),
    {
        self.shutdown = true;
        self.pending = None;
        match self.ready.take() {
            Some((_, _, value)) => Some(value),
            None => None,
        }
    }
}

/// A newer generation invalidates an in-flight result, even when the newest
/// request is for the very key being baked (A -> B -> A): once the worker took
/// job `(g, a)`, requests for `b != a` and then `a` again leave that job stale.
pub proof fn lemma_newer_generation_rejects_in_flight<K, V>(s: BakeState<K, V>, a: K, b: K, value: Option<V>)
    requires
        bake_wf(s),
        s.target matches Some((_, k)) && k == a,
        s.generation < u64::MAX - 1,
        a != b,
        !s.shutdown,
    ensures
        ({
            let (step, taken) = worker_step(s);
            step == WorkerStep::Bake(s.generation, a) || step == WorkerStep::<K>::Wait
        }),
        ({
            let after = request_step(request_step(worker_step(s).1, b), a);
            completion_step(after, s.generation, a, value).0 == Completion::Stale
                && completion_step(after, s.generation, a, value).1 == after
        }),
{
}

/// Asking again for the key already requested changes nothing: no new
/// generation, no new pending job, and a completed value stays available.
pub proof fn lemma_repeated_request_is_idempotent<K, V>(s: BakeState<K, V>, key: K)
    requires
        s.target matches Some((_, k)) && k == key,
    ensures
        request_step(s, key) == s,
{
}


/// Requests arriving while the worker is busy coalesce: after asking for `a`
/// and then a different `b`, only `b` is pending, and the job for `a` that the
/// worker may already hold completes as stale.
pub proof fn lemma_requests_coalesce_to_the_latest<K, V>(s: BakeState<K, V>, a: K, b: K, value: Option<V>)
    requires
        bake_wf(s),
        a != b,
        !s.shutdown,
    ensures
        ({
            let after_a = request_step(s, a);
            let (g_a, _) = after_a.target->0;
            let after_b = request_step(after_a, b);
            &&& after_b.pending matches Some((_, k)) && k == b
            &&& completion_step(after_b, g_a, a, value).0 == Completion::Stale
        }),
{
}

/// A failed bake leaves the state as it was, so the next request for another
/// key is queued as usual.
pub proof fn lemma_failed_bake_does_not_poison<K, V>(s: BakeState<K, V>, g: u64, k: K, next: K)
    requires
        !s.shutdown,
        !(s.target matches Some((_, t)) && t == next),
    ensures
        completion_step(s, g, k, None).1 == s,
        request_step(completion_step(s, g, k, None).1, next).pending
            == Some((next_generation(s.generation), next)),
{
}

/// A completed value is handed out once: after it was taken, nothing is ready.
pub proof fn lemma_ready_value_is_taken_once<K, V>(s: BakeState<K, V>, key: K)
    ensures
        !ready_for(BakeState { ready: None, ..s }, key),
{
}

/// One call on a `LatestBake`, for reasoning about whole histories.
pub enum BakeCall<K, V> {
    Request(K),
    NextJob,
    Complete(u64, K, Option<V>),
    TakeReady(K),
    ShutDown,
}

/// The state of `LatestBake::new()`.
pub open spec fn initial_bake<K, V>() -> BakeState<K, V> {
    BakeState { generation: 0, target: None, pending: None, ready: None, shutdown: false }
}

/// The state after one call, as the methods' contracts give it.
pub open spec fn call_step<K, V>(s: BakeState<K, V>, c: BakeCall<K, V>) -> BakeState<K, V> {
    match c {
        BakeCall::Request(key) => request_step(s, key),
        BakeCall::NextJob => worker_step(s).1,
        BakeCall::Complete(g, k, value) => completion_step(s, g, k, value).1,
        BakeCall::TakeReady(key) => if ready_for(s, key) { BakeState { ready: None, ..s } } else { s },
        BakeCall::ShutDown => BakeState { shutdown: true, pending: None, ready: None, ..s },
    }
}

/// The value a call hands out: only `take_ready` hands one out.
pub open spec fn handed_out<K, V>(s: BakeState<K, V>, c: BakeCall<K, V>) -> Option<V> {
    match c {
        BakeCall::TakeReady(key) => if ready_for(s, key) {
            match s.ready {
                Some((_, _, v)) => Some(v),
                None => None,
            }
        } else {
            None
        },
        _ => None,
    }
}

/// The state after a sequence of calls.
pub open spec fn run_calls<K, V>(s: BakeState<K, V>, calls: Seq<BakeCall<K, V>>) -> BakeState<K, V>
    decreases calls.len(),
{
    if calls.len() == 0 {
        s
    } else {
        call_step(run_calls(s, calls.drop_last()), calls.last())
    }
}

/// The state just before call `i` of a history that starts from `new()`.
pub open spec fn state_before<K, V>(calls: Seq<BakeCall<K, V>>, i: int) -> BakeState<K, V> {
    run_calls(initial_bake(), calls.take(i))
}

/// Call `j` completed the bake of `(g, k)` with value `v`, and it was installed.
pub open spec fn installed_at<K, V>(calls: Seq<BakeCall<K, V>>, j: int, g: u64, k: K, v: V) -> bool {
    &&& calls[j] == BakeCall::Complete(g, k, Some(v))
    &&& completion_step(state_before(calls, j), g, k, Some(v)).0 == Completion::Installed
}

proof fn lemma_state_before_step<K, V>(calls: Seq<BakeCall<K, V>>, n: int)
    requires
        0 <= n < calls.len(),
    ensures
        state_before(calls, n + 1) == call_step(state_before(calls, n), calls[n]),
{
    assert(calls.take(n + 1).drop_last() =~= calls.take(n));
    assert(calls.take(n + 1).last() == calls[n]);
}

/// Whatever is ready was installed by an earlier bake and has stayed ready
/// since.
proof fn lemma_ready_provenance<K, V>(calls: Seq<BakeCall<K, V>>, n: int)
    requires
        0 <= n <= calls.len(),
    ensures
        state_before(calls, n).ready matches Some((g, k, v)) ==> exists|j: int|
            0 <= j < n && #[trigger] installed_at(calls, j, g, k, v)
                && forall|l: int| j < l <= n ==> #[trigger] state_before(calls, l).ready == Some((g, k, v)),
    decreases n,
{
    if n == 0 {
        assert(calls.take(0) =~= Seq::<BakeCall<K, V>>::empty());
    } else {
        lemma_ready_provenance(calls, n - 1);
        lemma_state_before_step(calls, n - 1);
        let prev = state_before(calls, n - 1);
        let cur = state_before(calls, n);
        if let Some((g, k, v)) = cur.ready {
            if prev.ready == cur.ready {
                let j = choose|j: int| 0 <= j < n - 1 && #[trigger] installed_at(calls, j, g, k, v)
                    && forall|l: int| j < l <= n - 1 ==> #[trigger] state_before(calls, l).ready == Some((g, k, v));
                assert forall|l: int| j < l <= n implies #[trigger] state_before(calls, l).ready == Some((g, k, v)) by {
                    if l < n {
                        assert(state_before(calls, l).ready == Some((g, k, v)));
                    }
                }
                assert(installed_at(calls, j, g, k, v));
            } else {
                assert(calls[n - 1] == BakeCall::Complete(g, k, Some(v)));
                assert(installed_at(calls, n - 1, g, k, v));
                assert forall|l: int| n - 1 < l <= n implies #[trigger] state_before(calls, l).ready == Some((g, k, v)) by {
                    assert(l == n);
                }
            }
        }
    }
}

/// Over any history from `new()`, a value that `take_ready(k)` hands out is
/// for the current target, whose key is `k`; it was installed by a completed
/// bake of that target's key and generation, and from that bake up to the
/// hand-out it stayed ready: no request moved the target away and nothing
/// else took it.
pub proof fn lemma_handed_out_value_is_the_targets_bake<K, V>(calls: Seq<BakeCall<K, V>>, i: int)
    requires
        0 <= i < calls.len(),
        handed_out(state_before(calls, i), calls[i]) is Some,
    ensures
        ({
            let s = state_before(calls, i);
            let k = calls[i]->TakeReady_0;
            let g = s.target->Some_0.0;
            let v = handed_out(s, calls[i])->Some_0;
            &&& s.target == Some((g, k))
            &&& exists|j: int| 0 <= j < i && #[trigger] installed_at(calls, j, g, k, v)
                && forall|l: int| j < l <= i ==> #[trigger] state_before(calls, l).ready == Some((g, k, v))
        }),
{
    lemma_ready_provenance(calls, i);
}

/// Over any history from `new()`, each installed value is handed out at most
/// once: between two hand-outs lies another installed bake.
pub proof fn lemma_each_bake_is_handed_out_once<K, V>(calls: Seq<BakeCall<K, V>>, i: int, i2: int)
    requires
        0 <= i < i2 < calls.len(),
        handed_out(state_before(calls, i), calls[i]) is Some,
        handed_out(state_before(calls, i2), calls[i2]) is Some,
    ensures
        exists|j: int, g: u64, k: K, v: V| i < j < i2 && #[trigger] installed_at(calls, j, g, k, v),
{
    lemma_state_before_step(calls, i);
    assert(state_before(calls, i + 1).ready is None);
    lemma_ready_provenance(calls, i2);
    let s2 = state_before(calls, i2);
    let (g, k, v) = s2.ready->Some_0;
    let j = choose|j: int| 0 <= j < i2 && #[trigger] installed_at(calls, j, g, k, v)
        && forall|l: int| j < l <= i2 ==> #[trigger] state_before(calls, l).ready == Some((g, k, v));
    if j <= i {
        assert(state_before(calls, i + 1).ready == Some((g, k, v)));
    }
    assert(installed_at(calls, j, g, k, v));
}

/// Over any history from `new()`, the target's key is that of the last
/// request: a request for another key moves the target, and one for the same
/// key leaves it.
pub proof fn lemma_target_is_the_last_request<K, V>(calls: Seq<BakeCall<K, V>>, j: int, n: int)
    requires
        0 <= j < n <= calls.len(),
        calls[j] is Request,
        forall|l: int| j < l < n ==> !(#[trigger] calls[l] is Request),
    ensures
        state_before(calls, n).target matches Some((_, t)) && t == calls[j]->Request_0,
    decreases n - j,
{
    lemma_state_before_step(calls, n - 1);
    if n - 1 > j {
        lemma_target_is_the_last_request(calls, j, n - 1);
    }
}

/// Over any history from `new()`, with `j` the last request before a
/// `take_ready(k)` at `i`: for a key other than the last requested one,
/// nothing is handed out and the state, a ready value included, stays as it
/// was; a value is handed out only for the last requested key, and it is the
/// one a bake of that key and of the target's generation installed.
pub proof fn lemma_take_ready_over_history<K, V>(calls: Seq<BakeCall<K, V>>, j: int, i: int)
    requires
        0 <= j < i < calls.len(),
        calls[j] is Request,
        forall|l: int| j < l < i ==> !(#[trigger] calls[l] is Request),
        calls[i] is TakeReady,
    ensures
        calls[i]->TakeReady_0 != calls[j]->Request_0 ==> handed_out(state_before(calls, i), calls[i]) is None
            && state_before(calls, i + 1) == state_before(calls, i),
        handed_out(state_before(calls, i), calls[i]) matches Some(v) ==> {
            let k = calls[j]->Request_0;
            let g = state_before(calls, i).target->Some_0.0;
            &&& calls[i]->TakeReady_0 == k
            &&& exists|l: int| 0 <= l < i && #[trigger] installed_at(calls, l, g, k, v)
        },
{
    lemma_target_is_the_last_request(calls, j, i);
    lemma_state_before_step(calls, i);
    if handed_out(state_before(calls, i), calls[i]) is Some {
        lemma_handed_out_value_is_the_targets_bake(calls, i);
    }
}

} // verus!
