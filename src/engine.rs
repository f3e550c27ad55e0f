//! The engine's decisions: which sinks a metric goes to, which sinks are
//! dropped after a failed delivery, and orderly shutdown. The task that owns
//! the channels performs what these functions decide.
use crate::event::{Metric, Origin};
use crate::filter::MetricFilter;
use vstd::prelude::*;

verus! {

/// Capacity of each sink's inbox.
pub const INBOX_CAPACITY: usize = 500;

/// Cadence of the ticks each sink receives, in milliseconds.
pub const TICK_MILLIS: u64 = 30;

/// How long shutdown waits for each sink to exit, in seconds.
pub const SHUTDOWN_TIMEOUT_SECS: u64 = 10;

/// A live sink as the engine sees it.
pub struct SinkSlot {
    pub id: u128,
    pub name: String,
    pub filter: MetricFilter,
}

/// What one delivery to a sink inbox carries.
#[derive(Clone, Copy, Debug, PartialEq, Eq, Structural)]
pub enum Delivery {
    Msg,
    Shutdown,
}

/// The engine's state as values.
pub struct EngineState {
    pub sinks: Seq<SinkSlot>,
    pub running: bool,
}

/// One event as the engine loop meets it. A metric carries its source name
/// and category after the transformer chain (`None` if a transformer dropped
/// it) and the ids of the sinks whose inbox turned out to be closed. A log
/// goes to no sink: a sink's inbox carries metric events only (the sink
/// contract is `process(origin, inbox of MetricEvent)`), so no sink handles
/// logs and each would ignore them.
pub enum Input {
    Metric { passed: Option<(Seq<char>, Seq<char>)>, dead: Seq<u128> },
    Log,
    Tick,
    Shutdown,
}

/// Ids of the sinks, in order, whose filter admits the metric.
pub open spec fn admitted_ids(sinks: Seq<SinkSlot>, source_name: Seq<char>, category: Seq<char>) -> Seq<u128>
    decreases sinks.len(),
{
    if sinks.len() == 0 {
        Seq::empty()
    } else {
        let rest = admitted_ids(sinks.drop_last(), source_name, category);
        if sinks.last().filter.admits(source_name, category) {
            rest.push(sinks.last().id)
        } else {
            rest
        }
    }
}

/// The sinks, in order, whose id is not among `dead`.
pub open spec fn without(sinks: Seq<SinkSlot>, dead: Seq<u128>) -> Seq<SinkSlot>
    decreases sinks.len(),
{
    if sinks.len() == 0 {
        Seq::empty()
    } else {
        let rest = without(sinks.drop_last(), dead);
        if dead.contains(sinks.last().id) {
            rest
        } else {
            rest.push(sinks.last())
        }
    }
}

pub open spec fn ids_of(sinks: Seq<SinkSlot>) -> Seq<u128> {
    sinks.map_values(|s: SinkSlot| s.id)
}

pub open spec fn has_sink(sinks: Seq<SinkSlot>, id: u128) -> bool {
    exists|i: int| 0 <= i < sinks.len() && sinks[i].id == id
}

/// Each id paired with the same kind of delivery.
pub open spec fn deliver(ids: Seq<u128>, kind: Delivery) -> Seq<(u128, Delivery)> {
    ids.map_values(|id: u128| (id, kind))
}

/// One step of the engine: the next state and the deliveries it makes.
pub open spec fn step(s: EngineState, input: Input) -> (EngineState, Seq<(u128, Delivery)>) {
    if !s.running {
        (s, Seq::empty())
    } else {
        match input {
            Input::Metric { passed, dead } => match passed {
                Some((source_name, category)) => (
                    EngineState { sinks: without(s.sinks, dead), running: true },
                    deliver(admitted_ids(s.sinks, source_name, category), Delivery::Msg),
                ),
                None => (s, Seq::empty()),
            },
            Input::Log => (s, Seq::empty()),
            Input::Tick => (s, Seq::empty()),
            Input::Shutdown => (
                EngineState { sinks: Seq::empty(), running: false },
                deliver(ids_of(s.sinks), Delivery::Shutdown),
            ),
        }
    }
}

/// All deliveries made over a run of inputs.
pub open spec fn trace(s: EngineState, inputs: Seq<Input>) -> Seq<(u128, Delivery)>
    decreases inputs.len(),
{
    if inputs.len() == 0 {
        Seq::empty()
    } else {
        let (next, out) = step(s, inputs[0]);
        out + trace(next, inputs.drop_first())
    }
}

/// The state before input `k` of a run.
pub open spec fn state_at(s: EngineState, inputs: Seq<Input>, k: int) -> EngineState
    decreases k,
{
    if k <= 0 || inputs.len() == 0 {
        s
    } else {
        state_at(step(s, inputs[0]).0, inputs.drop_first(), k - 1)
    }
}

/// The kind of the last delivery to sink `id`, if any.
pub open spec fn last_delivery(t: Seq<(u128, Delivery)>, id: u128) -> Option<Delivery>
    decreases t.len(),
{
    if t.len() == 0 {
        None
    } else if t.last().0 == id {
        Some(t.last().1)
    } else {
        last_delivery(t.drop_last(), id)
    }
}

proof fn lemma_last_delivery_concat(a: Seq<(u128, Delivery)>, b: Seq<(u128, Delivery)>, id: u128)
    ensures
        last_delivery(a + b, id) == (if last_delivery(b, id) is Some {
            last_delivery(b, id)
        } else {
            last_delivery(a, id)
        }),
    decreases b.len(),
{
    if b.len() == 0 {
        assert(a + b =~= a);
    } else {
        assert((a + b).drop_last() =~= a + b.drop_last());
        lemma_last_delivery_concat(a, b.drop_last(), id);
    }
}

proof fn lemma_last_of_deliver(ids: Seq<u128>, kind: Delivery, id: u128)
    ensures
        last_delivery(deliver(ids, kind), id) == (if ids.contains(id) {
            Some(kind)
        } else {
            None
        }),
    decreases ids.len(),
{
    if ids.len() > 0 {
        let p = ids.drop_last();
        assert(deliver(ids, kind).drop_last() =~= deliver(p, kind));
        lemma_last_of_deliver(p, kind, id);
        if ids.last() != id {
            if ids.contains(id) {
                let i = choose|i: int| 0 <= i < ids.len() && ids[i] == id;
                assert(p[i] == id);
            }
            if p.contains(id) {
                let i = choose|i: int| 0 <= i < p.len() && p[i] == id;
                assert(ids[i] == id);
            }
        } else {
            assert(ids[ids.len() - 1] == id);
        }
    }
}

proof fn lemma_ids_of_contains(sinks: Seq<SinkSlot>, id: u128)
    ensures
        ids_of(sinks).contains(id) == has_sink(sinks, id),
{
    if has_sink(sinks, id) {
        let i = choose|i: int| 0 <= i < sinks.len() && sinks[i].id == id;
        assert(ids_of(sinks)[i] == id);
    }
}

proof fn lemma_stopped_is_silent(s: EngineState, inputs: Seq<Input>)
    requires
        !s.running,
    ensures
        trace(s, inputs) == Seq::<(u128, Delivery)>::empty(),
        forall|k: int| #[trigger] state_at(s, inputs, k) == s,
    decreases inputs.len(),
{
    if inputs.len() > 0 {
        lemma_stopped_is_silent(s, inputs.drop_first());
        assert(trace(s, inputs) =~= Seq::<(u128, Delivery)>::empty());
        assert forall|k: int| #[trigger] state_at(s, inputs, k) == s by {
            if k > 0 {
                assert(state_at(s, inputs, k) == state_at(s, inputs.drop_first(), k - 1));
            }
        }
    }
}

proof fn lemma_shift_witness(s: EngineState, inputs: Seq<Input>, id: u128)
    requires
        s.running,
        inputs.len() > 0,
        !(inputs[0] is Shutdown),
    ensures
        (exists|k: int|
            0 <= k < inputs.len() && inputs[k] is Shutdown && (#[trigger] state_at(s, inputs, k)).running
                && has_sink(state_at(s, inputs, k).sinks, id)) <==> (exists|k: int|
            0 <= k < inputs.drop_first().len() && inputs.drop_first()[k] is Shutdown && (#[trigger] state_at(step(s, inputs[0]).0, inputs.drop_first(), k)).running
                && has_sink(state_at(step(s, inputs[0]).0, inputs.drop_first(), k).sinks, id)),
{
    let next = step(s, inputs[0]).0;
    let rest = inputs.drop_first();
    if exists|k: int|
        0 <= k < inputs.len() && inputs[k] is Shutdown && (#[trigger] state_at(s, inputs, k)).running
            && has_sink(state_at(s, inputs, k).sinks, id) {
        let k = choose|k: int|
            0 <= k < inputs.len() && inputs[k] is Shutdown && (#[trigger] state_at(s, inputs, k)).running
                && has_sink(state_at(s, inputs, k).sinks, id);
        assert(k > 0);
        assert(state_at(s, inputs, k) == state_at(next, rest, k - 1));
        assert(rest[k - 1] == inputs[k]);
    }
    if exists|k: int|
        0 <= k < rest.len() && rest[k] is Shutdown && (#[trigger] state_at(next, rest, k)).running
            && has_sink(state_at(next, rest, k).sinks, id) {
        let k = choose|k: int|
            0 <= k < rest.len() && rest[k] is Shutdown && (#[trigger] state_at(next, rest, k)).running
                && has_sink(state_at(next, rest, k).sinks, id);
        assert(state_at(s, inputs, k + 1) == state_at(next, rest, k));
        assert(rest[k] == inputs[k + 1]);
    }
}

/// The last message a sink ever receives is `Shutdown` exactly when the
/// engine met a `Shutdown` event while running with that sink live.
pub proof fn lemma_shutdown_is_last_message(s: EngineState, inputs: Seq<Input>, id: u128)
    ensures
        last_delivery(trace(s, inputs), id) == Some(Delivery::Shutdown) <==> exists|k: int|
            0 <= k < inputs.len() && inputs[k] is Shutdown && (#[trigger] state_at(s, inputs, k)).running
                && has_sink(state_at(s, inputs, k).sinks, id),
    decreases inputs.len(),
{
    if inputs.len() == 0 {
    } else if !s.running {
        lemma_stopped_is_silent(s, inputs);
    } else {
        let (next, out) = step(s, inputs[0]);
        let rest = inputs.drop_first();
        lemma_shutdown_is_last_message(next, rest, id);
        lemma_last_delivery_concat(out, trace(next, rest), id);
        assert forall|k: int| 0 < k < inputs.len() implies #[trigger] state_at(s, inputs, k) == state_at(next, rest, k - 1) by {
        }
        assert(state_at(s, inputs, 0) == s);
        match inputs[0] {
            Input::Shutdown => {
                lemma_stopped_is_silent(next, rest);
                lemma_last_of_deliver(ids_of(s.sinks), Delivery::Shutdown, id);
                lemma_ids_of_contains(s.sinks, id);
                assert forall|k: int| 0 < k < inputs.len() implies !(#[trigger] state_at(s, inputs, k)).running by {
                    assert(state_at(next, rest, k - 1) == next);
                }
            },
            Input::Metric { passed, dead } => {
                if let Some((sn, cat)) = passed {
                    lemma_last_of_deliver(admitted_ids(s.sinks, sn, cat), Delivery::Msg, id);
                }
                lemma_shift_witness(s, inputs, id);
            },
            _ => {
                lemma_shift_witness(s, inputs, id);
            },
        }
    }
}

/// For sinks with distinct ids, the ids a metric is delivered to hold no
/// repeats, and a sink is among them exactly when its filter admits the
/// metric: every admitting sink receives exactly one message for it, and
/// no other sink receives one.
pub proof fn lemma_one_message_per_admitting_sink(
    sinks: Seq<SinkSlot>,
    source_name: Seq<char>,
    category: Seq<char>,
    id: u128,
)
    requires
        ids_of(sinks).no_duplicates(),
    ensures
        admitted_ids(sinks, source_name, category).no_duplicates(),
        admitted_ids(sinks, source_name, category).contains(id) <==> exists|i: int|
            0 <= i < sinks.len() && sinks[i].id == id && (#[trigger] sinks[i].filter).admits(
                source_name,
                category,
            ),
    decreases sinks.len(),
{
    if sinks.len() > 0 {
        let p = sinks.drop_last();
        let last = sinks.last();
        let n = sinks.len() - 1;
        assert(ids_of(p) =~= ids_of(sinks).drop_last());
        assert(ids_of(p).no_duplicates()) by {
            assert forall|a: int, b: int| 0 <= a < ids_of(p).len() && 0 <= b < ids_of(p).len() && a != b implies ids_of(p)[a] != ids_of(p)[b] by {
                assert(ids_of(sinks)[a] != ids_of(sinks)[b]);
            }
        }
        lemma_one_message_per_admitting_sink(p, source_name, category, last.id);
        lemma_one_message_per_admitting_sink(p, source_name, category, id);
        let rest = admitted_ids(p, source_name, category);
        if rest.contains(last.id) {
            let i = choose|i: int| 0 <= i < p.len() && p[i].id == last.id && (#[trigger] p[i].filter).admits(source_name, category);
            assert(ids_of(sinks)[i] == ids_of(sinks)[n]);
        }
        if last.filter.admits(source_name, category) {
            let out = rest.push(last.id);
            assert(out.no_duplicates()) by {
                assert forall|a: int, b: int| 0 <= a < out.len() && 0 <= b < out.len() && a != b implies out[a] != out[b] by {
                    if a == n || b == n {
                        if a < rest.len() {
                            assert(rest.contains(rest[a]));
                        }
                        if b < rest.len() {
                            assert(rest.contains(rest[b]));
                        }
                    }
                }
            }
        }
        if admitted_ids(sinks, source_name, category).contains(id) {
            if id != last.id || !last.filter.admits(source_name, category) {
                if last.filter.admits(source_name, category) {
                    let j = choose|j: int| 0 <= j < rest.push(last.id).len() && rest.push(last.id)[j] == id;
                    assert(rest[j] == id);
                }
                let i = choose|i: int| 0 <= i < p.len() && p[i].id == id && (#[trigger] p[i].filter).admits(source_name, category);
                assert(sinks[i] == p[i]);
            } else {
                assert(sinks[n] == last);
            }
        }
        if exists|i: int| 0 <= i < sinks.len() && sinks[i].id == id && (#[trigger] sinks[i].filter).admits(source_name, category) {
            let i = choose|i: int| 0 <= i < sinks.len() && sinks[i].id == id && (#[trigger] sinks[i].filter).admits(source_name, category);
            if i < n {
                assert(p[i] == sinks[i]);
                let j = choose|j: int| 0 <= j < rest.len() && rest[j] == id;
                if last.filter.admits(source_name, category) {
                    assert(rest.push(last.id)[j] == id);
                }
            } else {
                assert(rest.push(last.id)[rest.len() as int] == id);
            }
        }
    }
}

/// A sink whose inbox was found closed is gone from the engine's state, so
/// no later metric is delivered to it; every other sink stays.
pub proof fn lemma_dead_sink_is_dropped(sinks: Seq<SinkSlot>, dead: Seq<u128>, id: u128)
    ensures
        has_sink(without(sinks, dead), id) <==> (has_sink(sinks, id) && !dead.contains(id)),
    decreases sinks.len(),
{
    if sinks.len() > 0 {
        let p = sinks.drop_last();
        let last = sinks.last();
        lemma_dead_sink_is_dropped(p, dead, id);
        let rest = without(p, dead);
        if has_sink(without(sinks, dead), id) {
            let i = choose|i: int| 0 <= i < without(sinks, dead).len() && without(sinks, dead)[i].id == id;
            if !dead.contains(last.id) && i == rest.len() {
                assert(sinks[sinks.len() - 1].id == id);
            } else {
                assert(rest[i].id == id);
                let j = choose|j: int| 0 <= j < p.len() && p[j].id == id;
                assert(sinks[j].id == id);
            }
        }
        if has_sink(sinks, id) && !dead.contains(id) {
            let i = choose|i: int| 0 <= i < sinks.len() && sinks[i].id == id;
            if i == sinks.len() - 1 {
                assert(rest.push(last)[rest.len() as int].id == id);
            } else {
                assert(p[i].id == id);
                let j = choose|j: int| 0 <= j < rest.len() && rest[j].id == id;
                if !dead.contains(last.id) {
                    assert(rest.push(last)[j].id == id);
                }
            }
        }
    }
}

proof fn lemma_without_distinct(sinks: Seq<SinkSlot>, dead: Seq<u128>)
    requires
        ids_of(sinks).no_duplicates(),
    ensures
        ids_of(without(sinks, dead)).no_duplicates(),
    decreases sinks.len(),
{
    if sinks.len() > 0 {
        let p = sinks.drop_last();
        let last = sinks.last();
        assert(ids_of(p) =~= ids_of(sinks).drop_last());
        assert(ids_of(p).no_duplicates()) by {
            assert forall|a: int, b: int| 0 <= a < ids_of(p).len() && 0 <= b < ids_of(p).len() && a != b implies ids_of(p)[a] != ids_of(p)[b] by {
                assert(ids_of(sinks)[a] != ids_of(sinks)[b]);
            }
        }
        lemma_without_distinct(p, dead);
        let rest = without(p, dead);
        if !dead.contains(last.id) {
            lemma_dead_sink_is_dropped(p, dead, last.id);
            if has_sink(p, last.id) {
                let j = choose|j: int| 0 <= j < p.len() && p[j].id == last.id;
                assert(ids_of(sinks)[j] == ids_of(sinks)[sinks.len() - 1]);
            }
            let out = rest.push(last);
            assert(ids_of(out) =~= ids_of(rest).push(last.id));
            assert forall|a: int, b: int| 0 <= a < ids_of(out).len() && 0 <= b < ids_of(out).len() && a != b implies ids_of(out)[a] != ids_of(out)[b] by {
                if a == rest.len() && b < rest.len() {
                    assert(rest[b].id == ids_of(out)[b]);
                } else if b == rest.len() && a < rest.len() {
                    assert(rest[a].id == ids_of(out)[a]);
                } else {
                    assert(ids_of(rest)[a] != ids_of(rest)[b]);
                }
            }
        }
    }
}

proof fn lemma_state_at_next(s: EngineState, inputs: Seq<Input>, k: int)
    requires
        0 <= k < inputs.len(),
    ensures
        state_at(s, inputs, k + 1) == step(state_at(s, inputs, k), inputs[k]).0,
    decreases k,
{
    let s1 = step(s, inputs[0]).0;
    let rest = inputs.drop_first();
    assert(state_at(s, inputs, k + 1) == state_at(s1, rest, k));
    if k > 0 {
        lemma_state_at_next(s1, rest, k - 1);
        assert(rest[k - 1] == inputs[k]);
        assert(state_at(s, inputs, k) == state_at(s1, rest, k - 1));
    } else {
        assert(state_at(s1, rest, 0) == s1);
        assert(state_at(s, inputs, 0) == s);
    }
}

proof fn lemma_distinct_at(s: EngineState, inputs: Seq<Input>, k: int)
    requires
        ids_of(s.sinks).no_duplicates(),
        0 <= k <= inputs.len(),
    ensures
        ids_of(state_at(s, inputs, k).sinks).no_duplicates(),
    decreases k,
{
    if k > 0 {
        lemma_distinct_at(s, inputs, k - 1);
        lemma_state_at_next(s, inputs, k - 1);
        let st = state_at(s, inputs, k - 1);
        if st.running {
            match inputs[k - 1] {
                Input::Metric { passed, dead } => {
                    if passed is Some {
                        lemma_without_distinct(st.sinks, dead);
                    }
                },
                Input::Shutdown => {
                    assert(ids_of(Seq::<SinkSlot>::empty()) =~= Seq::<u128>::empty());
                },
                _ => {},
            }
        }
    }
}

/// Over any run that starts with distinct sink ids: at each metric that
/// passes the transformer chain while the engine runs, every live sink whose
/// filter admits it receives exactly one message and no other sink receives
/// one; a sink whose inbox is found closed is gone before the next event.
pub proof fn lemma_one_message_over_run(s: EngineState, inputs: Seq<Input>, k: int, id: u128)
    requires
        ids_of(s.sinks).no_duplicates(),
        0 <= k < inputs.len(),
        state_at(s, inputs, k).running,
        inputs[k] matches Input::Metric { passed: Some(_), .. },
    ensures
        ({
            let st = state_at(s, inputs, k);
            let (source_name, category) = inputs[k]->passed->0;
            let ids = admitted_ids(st.sinks, source_name, category);
            &&& step(st, inputs[k]).1 == deliver(ids, Delivery::Msg)
            &&& ids.no_duplicates()
            &&& ids.contains(id) <==> exists|i: int|
                0 <= i < st.sinks.len() && st.sinks[i].id == id && (#[trigger] st.sinks[i].filter).admits(
                    source_name,
                    category,
                )
            &&& inputs[k]->dead.contains(id) ==> !has_sink(state_at(s, inputs, k + 1).sinks, id)
        }),
{
    lemma_distinct_at(s, inputs, k);
    lemma_state_at_next(s, inputs, k);
    let st = state_at(s, inputs, k);
    let (source_name, category) = inputs[k]->passed->0;
    lemma_one_message_per_admitting_sink(st.sinks, source_name, category, id);
    lemma_dead_sink_is_dropped(st.sinks, inputs[k]->dead, id);
}

/// The engine's bookkeeping of live sinks.
pub struct Engine {
    sinks: Vec<SinkSlot>,
    running: bool,
}

impl View for Engine {
    type V = EngineState;

    closed spec fn view(&self) -> EngineState {
        EngineState { sinks: self.sinks@, running: self.running }
    }
}

fn contains_id(ids: &Vec<u128>, id: u128) -> (r: bool)
    ensures
        r == ids@.contains(id),
{
    let n = ids.len();
    let mut i: usize = 0;
    while i < n
        invariant
            n == ids@.len(),
            i <= n,
            forall|j: int| 0 <= j < i ==> ids@[j] != id,
        decreases n - i,
    {
        if ids[i] == id {
            return true;
        }
        i = i + 1;
    }
    false
}

impl Engine {
    /// A running engine over the given sinks.
    pub fn new(sinks: Vec<SinkSlot>) -> (r: Engine)
        ensures
            r@.sinks == sinks@,
            r@.running,
    {
        Engine { sinks, running: true }
    }

    pub fn is_running(&self) -> (r: bool)
        ensures
            r == self@.running,
    {
        self.running
    }

    pub fn sink_count(&self) -> (r: usize)
        ensures
            r == self@.sinks.len(),
    {
        self.sinks.len()
    }

    /// The ids of the sinks a metric that passed the transformer chain is
    /// delivered to, in order: `step`'s deliveries for that metric.
    pub fn targets(&self, origin: &Origin, metric: &Metric) -> (r: Vec<u128>)
        ensures
            deliver(r@, Delivery::Msg) == step(
                self@,
                Input::Metric { passed: Some((origin.name@, metric.category@)), dead: Seq::empty() },
            ).1,
            r@ == (if self@.running {
                admitted_ids(self@.sinks, origin.name@, metric.category@)
            } else {
                Seq::empty()
            }),
    {
        let mut out: Vec<u128> = Vec::new();
        if !self.running {
            return out;
        }
        let n = self.sinks.len();
        let mut i: usize = 0;
        assert(self.sinks@.subrange(0, 0) =~= Seq::<SinkSlot>::empty());
        while i < n
            invariant
                n == self.sinks@.len(),
                i <= n,
                out@ == admitted_ids(self.sinks@.subrange(0, i as int), origin.name@, metric.category@),
            decreases n - i,
        {
            let slot = &self.sinks[i];
            let admitted = slot.filter.is_handled(origin, metric);
            proof {
                let pre = self.sinks@.subrange(0, i + 1);
                assert(pre.drop_last() =~= self.sinks@.subrange(0, i as int));
                assert(pre.last() == self.sinks@[i as int]);
            }
            if admitted {
                out.push(slot.id);
            }
            i = i + 1;
        }
        assert(self.sinks@.subrange(0, n as int) =~= self.sinks@);
        out
    }

    /// Drops the sinks whose inbox was found closed while delivering a metric.
    pub fn remove_dead(&mut self, dead: &Vec<u128>)
        ensures
            final(self)@ == (if old(self)@.running {
                EngineState { sinks: without(old(self)@.sinks, dead@), running: true }
            } else {
                old(self)@
            }),
    {
        if !self.running {
            return;
        }
        let mut rest: Vec<SinkSlot> = Vec::new();
        core::mem::swap(&mut self.sinks, &mut rest);
        let ghost all = rest@;
        let n = rest.len();
        let mut kept: Vec<SinkSlot> = Vec::new();
        assert(all.subrange(0, 0) =~= Seq::<SinkSlot>::empty());
        assert(all.subrange(0, n as int) =~= all);
        while rest.len() > 0
            invariant
                n == all.len(),
                rest.len() <= n,
                rest@ == all.subrange(n - rest.len(), n as int),
                kept@ == without(all.subrange(0, n - rest.len()), dead@),
            decreases rest.len(),
        {
            let i = n - rest.len();
            let slot = rest.remove(0);
            proof {
                let pre = all.subrange(0, i + 1);
                assert(pre.drop_last() =~= all.subrange(0, i as int));
                assert(pre.last() == all[i as int]);
                assert(rest@ =~= all.subrange(i + 1, n as int));
            }
            if !contains_id(dead, slot.id) {
                kept.push(slot);
            }
        }
        assert(all.subrange(0, n as int) =~= all);
        self.sinks = kept;
    }

    /// Stops the engine and names the sinks to shut down, in order.
    pub fn shutdown(&mut self) -> (r: Vec<u128>)
        ensures
            final(self)@ == step(old(self)@, Input::Shutdown).0,
            deliver(r@, Delivery::Shutdown) == step(old(self)@, Input::Shutdown).1,
    {
        let mut out: Vec<u128> = Vec::new();
        if !self.running {
            return out;
        }
        let n = self.sinks.len();
        let mut i: usize = 0;
        while i < n
            invariant
                n == self.sinks@.len(),
                i <= n,
                out@ == ids_of(self.sinks@).subrange(0, i as int),
            decreases n - i,
        {
            out.push(self.sinks[i].id);
            proof {
                assert(out@ =~= ids_of(self.sinks@).subrange(0, i + 1));
            }
            i = i + 1;
        }
        assert(out@ =~= ids_of(self.sinks@));
        self.sinks = Vec::new();
        self.running = false;
        assert(self@.sinks =~= Seq::<SinkSlot>::empty());
        out
    }
}

} // verus!
