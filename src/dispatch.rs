//! One wake-up cycle over a snapshot of the store, and the loop that runs
//! such cycles on a timer.
use vstd::prelude::*;
use vstd::utf8::{decode_utf8, encode_utf8, encode_utf8_decode_utf8, encode_utf8_valid_utf8, valid_utf8};
use crate::gateway::{classify, outcome_of, silent_notice, GatewayReply, Notice, Outcome};
use crate::store::{after_actions, decode_key, StoreAction};
use crate::token::{
    environment_of, gateway_token_of, has_sandbox_prefix, route_token, sandbox_prefix, Environment,
};

verus! {

/// One send of a cycle: the key as stored, and where and under which name
/// the token goes.
#[derive(Debug, Clone, PartialEq, Eq)]
pub struct Dispatch {
    pub store_key: Vec<u8>,
    pub environment: Environment,
    pub device_token: String,
}

/// True when `d` is the send for the stored key `key`.
pub open spec fn dispatch_for(d: Dispatch, key: Seq<u8>) -> bool {
    &&& d.store_key@ == key
    &&& d.environment == environment_of(decode_utf8(key))
    &&& d.device_token@ == gateway_token_of(decode_utf8(key))
}

/// The keys of a snapshot that a cycle sends to: those that are valid UTF-8,
/// in the order read. The others are skipped.
pub open spec fn planned(keys: Seq<Seq<u8>>) -> Seq<Seq<u8>>
    decreases keys.len(),
{
    if keys.len() == 0 {
        seq![]
    } else if valid_utf8(keys.last()) {
        planned(keys.drop_last()).push(keys.last())
    } else {
        planned(keys.drop_last())
    }
}

/// True when `plan` holds, in order, the sends for the keys of `keys` that are
/// valid UTF-8.
pub open spec fn plan_of(plan: Seq<Dispatch>, keys: Seq<Seq<u8>>) -> bool {
    &&& plan.len() == planned(keys).len()
    &&& forall|i: int| 0 <= i < plan.len() ==> dispatch_for(#[trigger] plan[i], planned(keys)[i])
}

/// The removal that an outcome asks for: the key as stored, and only for an
/// invalid token.
pub open spec fn action_for(d: Dispatch, o: Outcome) -> Option<Seq<u8>> {
    if o.prunes() {
        Some(d.store_key@)
    } else {
        None
    }
}

/// The store actions of a cycle, one for each outcome recorded so far.
pub open spec fn cycle_actions(plan: Seq<Dispatch>, outcomes: Seq<Outcome>) -> Seq<
    Option<Seq<u8>>,
> {
    Seq::new(outcomes.len(), |i: int| action_for(plan[i], outcomes[i]))
}

/// The send for one stored key, or `None` for a key that is not valid UTF-8.
pub fn dispatch_for_key(key: &Vec<u8>) -> (r: Option<Dispatch>)
    ensures
        r is Some <==> valid_utf8(key@),
        r is Some ==> dispatch_for(r->Some_0, key@),
{
    match decode_key(key.as_slice()) {
        Some(text) => {
            let route = route_token(text);
            Some(
                Dispatch {
                    store_key: key.clone(),
                    environment: route.environment,
                    device_token: route.device_token,
                },
            )
        },
        None => None,
    }
}

/// The store action for one send's outcome: remove the key as stored when the
/// token is invalid, keep it otherwise.
pub fn settle(d: &Dispatch, outcome: &Outcome) -> (r: StoreAction)
    ensures
        r.removed() == action_for(*d, *outcome),
{
    if outcome.is_invalid() {
        StoreAction::Remove(d.store_key.clone())
    } else {
        StoreAction::Keep
    }
}

/// A wake-up cycle in progress: the sends planned from a snapshot, and how
/// many of them have come back.
pub struct Cycle {
    plan: Vec<Dispatch>,
    sent: usize,
    skipped: usize,
    outcomes: Ghost<Seq<Outcome>>,
}

impl Cycle {
    /// The sends of this cycle, in order.
    pub closed spec fn plan(&self) -> Seq<Dispatch> {
        self.plan@
    }

    /// The outcomes recorded so far, one for each of the first sends.
    pub closed spec fn recorded(&self) -> Seq<Outcome> {
        self.outcomes@
    }

    /// How many keys of the snapshot were skipped as malformed.
    pub closed spec fn skipped_keys(&self) -> nat {
        self.skipped as nat
    }

    pub closed spec fn wf(&self) -> bool {
        &&& self.sent == self.outcomes@.len()
        &&& self.sent <= self.plan.len()
    }

    /// How many sends have come back.
    pub open spec fn sent(&self) -> nat {
        self.recorded().len()
    }

    /// Every planned send has come back.
    pub open spec fn complete(&self) -> bool {
        self.sent() == self.plan().len()
    }

    /// The store actions this cycle has asked for so far.
    pub open spec fn actions(&self) -> Seq<Option<Seq<u8>>> {
        cycle_actions(self.plan(), self.recorded())
    }

    /// Plans a cycle over a snapshot of the store's keys: one send per key that
    /// is valid UTF-8, in the order read; the other keys are skipped.
    pub fn start(keys: &Vec<Vec<u8>>) -> (c: Cycle)
        ensures
            c.wf(),
            c.sent() == 0,
            plan_of(c.plan(), keys.deep_view()),
            c.skipped_keys() + c.plan().len() == keys.len(),
    {
        let ghost all = keys.deep_view();
        let mut plan: Vec<Dispatch> = Vec::new();
        let mut skipped: usize = 0;
        let mut i: usize = 0;
        while i < keys.len()
            invariant
                i <= keys.len(),
                all == keys.deep_view(),
                plan.len() == planned(all.take(i as int)).len(),
                forall|j: int|
                    0 <= j < plan.len() ==> dispatch_for(
                        #[trigger] plan@[j],
                        planned(all.take(i as int))[j],
                    ),
                skipped + plan.len() == i,
            decreases keys.len() - i,
        {
            let ghost before = all.take(i as int);
            assert(all.take(i as int + 1).drop_last() =~= before);
            assert(all.take(i as int + 1).last() == keys@[i as int]@);
            match dispatch_for_key(&keys[i]) {
                Some(d) => {
                    plan.push(d);
                },
                None => {
                    skipped = skipped + 1;
                },
            }
            i = i + 1;
        }
        assert(all.take(keys.len() as int) =~= all);
        Cycle { plan, sent: 0, skipped, outcomes: Ghost(Seq::empty()) }
    }

    /// The payload every send of a wake-up cycle carries.
    pub fn notice(&self) -> (r: Notice)
        ensures
            r == Notice::Silent,
    {
        silent_notice()
    }

    /// The next send to make, or `None` once the cycle is complete.
    pub fn pending(&self) -> (r: Option<&Dispatch>)
        requires
            self.wf(),
        ensures
            r is None <==> self.complete(),
            r is Some ==> *r->Some_0 == self.plan()[self.sent() as int],
    {
        if self.sent < self.plan.len() {
            Some(&self.plan[self.sent])
        } else {
            None
        }
    }

    /// Records the gateway's reply to the pending send and gives its outcome
    /// and the store action it asks for. Whatever the reply, the cycle moves on
    /// to the next send.
    pub fn record(&mut self, reply: GatewayReply) -> (r: (Outcome, StoreAction))
        requires
            old(self).wf(),
            !old(self).complete(),
        ensures
            final(self).wf(),
            final(self).plan() == old(self).plan(),
            final(self).skipped_keys() == old(self).skipped_keys(),
            final(self).recorded() == old(self).recorded().push(outcome_of(reply)),
            r.0 == outcome_of(reply),
            r.1.removed() == action_for(old(self).plan()[old(self).sent() as int], outcome_of(reply)),
    {
        let outcome = classify(reply);
        let action = settle(&self.plan[self.sent], &outcome);
        proof {
            self.outcomes@ = self.outcomes@.push(outcome);
        }
        self.sent = self.sent + 1;
        (outcome, action)
    }

    /// Tells whether every planned send has come back.
    pub fn is_complete(&self) -> (b: bool)
        requires
            self.wf(),
        ensures
            b == self.complete(),
    {
        self.sent == self.plan.len()
    }

    /// How many sends this cycle makes.
    pub fn len(&self) -> (n: usize)
        ensures
            n == self.plan().len(),
    {
        self.plan.len()
    }

    /// How many keys of the snapshot were skipped as malformed.
    pub fn skipped(&self) -> (n: usize)
        ensures
            n == self.skipped_keys(),
    {
        self.skipped
    }
}

/// No two sends of a plan name the same stored key.
pub open spec fn distinct_keys(plan: Seq<Dispatch>) -> bool {
    forall|i: int, j: int|
        0 <= i < plan.len() && 0 <= j < plan.len() && i != j ==> #[trigger] plan[i].store_key@
            != #[trigger] plan[j].store_key@
}

proof fn lemma_planned_contains(keys: Seq<Seq<u8>>, k: Seq<u8>)
    ensures
        planned(keys).contains(k) <==> keys.contains(k) && valid_utf8(k),
    decreases keys.len(),
{
    if keys.len() > 0 {
        let rest = keys.drop_last();
        let last = keys.last();
        lemma_planned_contains(rest, k);
        if planned(keys).contains(k) {
            let i = choose|i: int| 0 <= i < planned(keys).len() && planned(keys)[i] == k;
            if valid_utf8(last) && i == planned(rest).len() {
                assert(keys[keys.len() - 1] == k);
            } else {
                assert(planned(rest)[i] == k);
                let j = choose|j: int| 0 <= j < rest.len() && rest[j] == k;
                assert(keys[j] == k);
            }
        }
        if keys.contains(k) && valid_utf8(k) {
            let i = choose|i: int| 0 <= i < keys.len() && keys[i] == k;
            if i == keys.len() - 1 {
                assert(planned(keys)[planned(keys).len() - 1] == k);
            } else {
                assert(rest[i] == k);
                let j = choose|j: int| 0 <= j < planned(rest).len() && planned(rest)[j] == k;
                assert(planned(keys)[j] == k);
            }
        }
    }
}

proof fn lemma_planned_no_duplicates(keys: Seq<Seq<u8>>)
    requires
        keys.no_duplicates(),
    ensures
        planned(keys).no_duplicates(),
    decreases keys.len(),
{
    if keys.len() > 0 {
        let rest = keys.drop_last();
        assert(rest.no_duplicates());
        lemma_planned_no_duplicates(rest);
        if valid_utf8(keys.last()) {
            lemma_planned_contains(rest, keys.last());
            assert(!rest.contains(keys.last()));
            let p = planned(rest).push(keys.last());
            assert forall|i: int, j: int| 0 <= i < p.len() && 0 <= j < p.len() && i != j implies p[i]
                != p[j] by {
                if i == p.len() - 1 {
                    assert(planned(rest).contains(p[j]));
                } else if j == p.len() - 1 {
                    assert(planned(rest).contains(p[i]));
                }
            }
        }
    }
}

/// Every token registered before a snapshot is sent to exactly once in the
/// cycle planned from that snapshot, routed by its own marker; and no two
/// sends of that cycle name the same stored key.
pub proof fn lemma_registered_token_sent_once(
    store: Set<Seq<u8>>,
    keys: Seq<Seq<u8>>,
    plan: Seq<Dispatch>,
    token: Seq<char>,
)
    requires
        keys.no_duplicates(),
        keys.to_set() == store,
        plan_of(plan, keys),
        store.contains(encode_utf8(token)),
    ensures
        exists|i: int|
            0 <= i < plan.len() && plan[i].store_key@ == encode_utf8(token) && plan[i].environment
                == environment_of(token) && plan[i].device_token@ == gateway_token_of(token)
                && forall|j: int|
                0 <= j < plan.len() && #[trigger] plan[j].store_key@ == encode_utf8(token) ==> j
                    == i,
        distinct_keys(plan),
{
    let k = encode_utf8(token);
    encode_utf8_valid_utf8(token);
    encode_utf8_decode_utf8(token);
    assert(keys.to_set().contains(k));
    lemma_planned_contains(keys, k);
    lemma_planned_no_duplicates(keys);
    let p = planned(keys);
    assert forall|i: int, j: int|
        0 <= i < plan.len() && 0 <= j < plan.len() && i != j implies #[trigger] plan[i].store_key@
        != #[trigger] plan[j].store_key@ by {
        assert(dispatch_for(plan[i], p[i]));
        assert(dispatch_for(plan[j], p[j]));
    }
    let i = choose|i: int| 0 <= i < p.len() && p[i] == k;
    assert(dispatch_for(plan[i], p[i]));
    assert forall|j: int| 0 <= j < plan.len() && #[trigger] plan[j].store_key@ == k implies j == i by {
        assert(dispatch_for(plan[j], p[j]));
    }
}

/// A token with the sandbox marker is sent, marker stripped, to the sandbox
/// gateway; any other is sent unchanged to production; and a removal names
/// the key as stored, marker included.
pub proof fn lemma_routing(d: Dispatch, token: Seq<char>, o: Outcome)
    requires
        dispatch_for(d, encode_utf8(token)),
    ensures
        has_sandbox_prefix(token) ==> d.environment == Environment::Sandbox && d.device_token@
            == token.subrange(sandbox_prefix().len() as int, token.len() as int),
        !has_sandbox_prefix(token) ==> d.environment == Environment::Production
            && d.device_token@ == token,
        o.prunes() ==> action_for(d, o) == Some(encode_utf8(token)),
        !o.prunes() ==> action_for(d, o) is None,
{
    encode_utf8_decode_utf8(token);
}

proof fn lemma_cycle_membership(
    store: Set<Seq<u8>>,
    plan: Seq<Dispatch>,
    outcomes: Seq<Outcome>,
    k: Seq<u8>,
)
    requires
        outcomes.len() <= plan.len(),
    ensures
        after_actions(store, cycle_actions(plan, outcomes)).contains(k) <==> store.contains(k)
            && !(exists|i: int|
            0 <= i < outcomes.len() && plan[i].store_key@ == k && #[trigger] outcomes[i].prunes()),
    decreases outcomes.len(),
{
    if outcomes.len() > 0 {
        let rest = outcomes.drop_last();
        lemma_cycle_membership(store, plan, rest, k);
        assert(cycle_actions(plan, outcomes).drop_last() =~= cycle_actions(plan, rest));
        let n = outcomes.len() - 1;
        if exists|i: int| 0 <= i < rest.len() && plan[i].store_key@ == k && #[trigger] rest[i].prunes() {
            let i = choose|i: int| 0 <= i < rest.len() && plan[i].store_key@ == k && #[trigger] rest[i].prunes();
            assert(outcomes[i].prunes());
        }
        if exists|i: int| 0 <= i < outcomes.len() && plan[i].store_key@ == k && #[trigger] outcomes[i].prunes() {
            let i = choose|i: int| 0 <= i < outcomes.len() && plan[i].store_key@ == k && #[trigger] outcomes[i].prunes();
            if i < n {
                assert(rest[i].prunes());
            }
        }
    }
}

/// After a completed cycle, a token whose send came back invalid is gone from
/// the store; one that was delivered or failed for any other reason is still
/// there; and keys the cycle did not send to are left as they were.
pub proof fn lemma_cycle_prunes_exactly_invalid(
    store: Set<Seq<u8>>,
    plan: Seq<Dispatch>,
    outcomes: Seq<Outcome>,
)
    requires
        outcomes.len() == plan.len(),
        distinct_keys(plan),
    ensures
        forall|i: int|
            0 <= i < plan.len() ==> (after_actions(store, cycle_actions(plan, outcomes)).contains(
                #[trigger] plan[i].store_key@,
            ) <==> store.contains(plan[i].store_key@) && !outcomes[i].prunes()),
        forall|k: Seq<u8>|
            (forall|i: int| 0 <= i < plan.len() ==> plan[i].store_key@ != k) ==> (after_actions(
                store,
                cycle_actions(plan, outcomes),
            ).contains(k) <==> store.contains(k)),
{
    assert forall|i: int| 0 <= i < plan.len() implies (after_actions(
        store,
        cycle_actions(plan, outcomes),
    ).contains(#[trigger] plan[i].store_key@) <==> store.contains(plan[i].store_key@)
        && !outcomes[i].prunes()) by {
        lemma_cycle_membership(store, plan, outcomes, plan[i].store_key@);
        if exists|j: int|
            0 <= j < outcomes.len() && plan[j].store_key@ == plan[i].store_key@
                && #[trigger] outcomes[j].prunes() {
            let j = choose|j: int|
                0 <= j < outcomes.len() && plan[j].store_key@ == plan[i].store_key@
                    && #[trigger] outcomes[j].prunes();
            assert(j == i);
        }
    }
    assert forall|k: Seq<u8>|
        (forall|i: int| 0 <= i < plan.len() ==> plan[i].store_key@ != k) implies (after_actions(
        store,
        cycle_actions(plan, outcomes),
    ).contains(k) <==> store.contains(k)) by {
        lemma_cycle_membership(store, plan, outcomes, k);
    }
}

/// The sends of a cycle are independent: whether a token stays in the store
/// depends on its own outcome alone, whatever came back for the others.
pub proof fn lemma_sends_independent(
    store: Set<Seq<u8>>,
    plan: Seq<Dispatch>,
    first: Seq<Outcome>,
    second: Seq<Outcome>,
    i: int,
)
    requires
        first.len() == plan.len(),
        second.len() == plan.len(),
        distinct_keys(plan),
        0 <= i < plan.len(),
        first[i] == second[i],
    ensures
        after_actions(store, cycle_actions(plan, first)).contains(plan[i].store_key@)
            == after_actions(store, cycle_actions(plan, second)).contains(plan[i].store_key@),
{
    lemma_cycle_prunes_exactly_invalid(store, plan, first);
    lemma_cycle_prunes_exactly_invalid(store, plan, second);
}

/// Where the dispatch loop stands. It starts dispatching at once, then waits
/// for the timer between cycles, and never stops of its own accord.
#[derive(Debug, Clone, Copy, PartialEq, Eq, Structural)]
pub enum Phase {
    Idle,
    Dispatching,
}

/// What moves the dispatch loop on.
#[derive(Debug, Clone, Copy, PartialEq, Eq, Structural)]
pub enum LoopEvent {
    /// The interval timer fired.
    Tick,
    /// Every send of the current cycle has come back.
    CycleComplete,
}

/// The phase that follows `p` on event `e`. A tick while dispatching and a
/// completion while idle change nothing.
pub open spec fn next_phase(p: Phase, e: LoopEvent) -> Phase {
    match (p, e) {
        (Phase::Idle, LoopEvent::Tick) => Phase::Dispatching,
        (Phase::Dispatching, LoopEvent::CycleComplete) => Phase::Idle,
        _ => p,
    }
}

impl Phase {
    /// The loop's first phase: a cycle runs on startup, before any wait.
    pub fn initial() -> (r: Phase)
        ensures
            r == Phase::Dispatching,
    {
        Phase::Dispatching
    }

    /// Moves the loop on by one event.
    pub fn step(self, e: LoopEvent) -> (r: Phase)
        ensures
            r == next_phase(self, e),
    {
        match (self, e) {
            (Phase::Idle, LoopEvent::Tick) => Phase::Dispatching,
            (Phase::Dispatching, LoopEvent::CycleComplete) => Phase::Idle,
            _ => self,
        }
    }
}

} // verus!
