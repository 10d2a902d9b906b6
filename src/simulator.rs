use vstd::prelude::*;

use crate::envelope::{Envelope, Subscriber};
use crate::lanes::{deque_of, drain_order, lane_of, lemma_drain_pop, lemma_top_lane, Lanes};
use crate::registry::{
    added, callbacks, extends, index_of, lemma_added_chain, lemma_callbacks_append, outputs,
    receive_calls, tick_calls, Call, Callback, Registry,
};

verus! {

/// One entry of a simulator's script.
pub enum SimulatorEvent<M> {
    /// Deliver the envelope at the given virtual time.
    Envelope(Envelope<M>, u64),
    /// Tick every subscriber at the given virtual time.
    Tick(u64),
}

/// The callbacks that one event brings about.
pub open spec fn event_calls<M>(names: Seq<Seq<char>>, e: SimulatorEvent<M>) -> Seq<Callback> {
    match e {
        SimulatorEvent::Envelope(env, at) => receive_calls(names, env.destination@, at),
        SimulatorEvent::Tick(at) => tick_calls(names.len(), at),
    }
}

/// The callbacks that a sequence of events brings about, in order.
pub open spec fn script_calls<M>(names: Seq<Seq<char>>, events: Seq<SimulatorEvent<M>>) -> Seq<
    Callback,
>
    decreases events.len(),
{
    if events.len() == 0 {
        Seq::empty()
    } else {
        script_calls(names, events.drop_last()) + event_calls(names, events.last())
    }
}

/// How many ticks subscriber `s` gets in `calls`.
pub open spec fn tick_count(calls: Seq<Callback>, s: int) -> nat
    decreases calls.len(),
{
    if calls.len() == 0 {
        0
    } else {
        tick_count(calls.drop_last(), s) + match calls.last() {
            Callback::Tick { subscriber, at: _ } => if subscriber == s {
                1nat
            } else {
                0nat
            },
            Callback::Receive { subscriber: _, at: _ } => 0nat,
        }
    }
}

/// How many tick events `events` holds.
pub open spec fn scripted_ticks<M>(events: Seq<SimulatorEvent<M>>) -> nat
    decreases events.len(),
{
    if events.len() == 0 {
        0
    } else {
        scripted_ticks(events.drop_last()) + match events.last() {
            SimulatorEvent::Tick(_) => 1nat,
            SimulatorEvent::Envelope(_, _) => 0nat,
        }
    }
}

proof fn lemma_tick_count_append(a: Seq<Callback>, b: Seq<Callback>, s: int)
    ensures
        tick_count(a + b, s) == tick_count(a, s) + tick_count(b, s),
    decreases b.len(),
{
    if b.len() == 0 {
        assert(a + b =~= a);
    } else {
        lemma_tick_count_append(a, b.drop_last(), s);
        assert((a + b).drop_last() =~= a + b.drop_last());
        assert((a + b).last() == b.last());
    }
}

proof fn lemma_tick_calls_count(n: nat, at: u64, s: int)
    ensures
        tick_count(tick_calls(n, at), s) == if 0 <= s < n {
            1nat
        } else {
            0nat
        },
    decreases n,
{
    if n > 0 {
        lemma_tick_calls_count((n - 1) as nat, at, s);
        assert(tick_calls(n, at).drop_last() =~= tick_calls((n - 1) as nat, at));
    }
}

/// Tick cadence in replay: each subscriber is ticked exactly once for each
/// tick event of the script, and at no other time.
pub proof fn law_scripted_tick_cadence<M>(
    names: Seq<Seq<char>>,
    events: Seq<SimulatorEvent<M>>,
    s: int,
)
    requires
        0 <= s < names.len(),
    ensures
        tick_count(script_calls(names, events), s) == scripted_ticks(events),
    decreases events.len(),
{
    if events.len() > 0 {
        law_scripted_tick_cadence(names, events.drop_last(), s);
        lemma_tick_count_append(
            script_calls(names, events.drop_last()),
            event_calls(names, events.last()),
            s,
        );
        match events.last() {
            SimulatorEvent::Tick(at) => {
                lemma_tick_calls_count(names.len(), at, s);
            },
            SimulatorEvent::Envelope(env, at) => {
                let c = receive_calls(names, env.destination@, at);
                assert(tick_count(Seq::<Callback>::empty(), s) == 0);
                if c.len() > 0 {
                    assert(c.drop_last() =~= Seq::<Callback>::empty());
                }
                assert(tick_count(c, s) == 0);
            },
        }
    }
}

/// The callbacks of one step from virtual time `time` with `pending` events:
/// a tick for every subscriber, then the pending events in drain order. They
/// depend on nothing else, so two simulators in the same state make the same
/// callbacks.
pub open spec fn step_calls<M>(
    names: Seq<Seq<char>>,
    time: u64,
    pending: Seq<Seq<SimulatorEvent<M>>>,
) -> Seq<Callback> {
    tick_calls(names.len(), time) + script_calls(names, drain_order(pending))
}

proof fn lemma_script_calls_without_subscribers<M>(
    names: Seq<Seq<char>>,
    events: Seq<SimulatorEvent<M>>,
)
    requires
        names.len() == 0,
    ensures
        script_calls(names, events) == Seq::<Callback>::empty(),
    decreases events.len(),
{
    if events.len() > 0 {
        lemma_script_calls_without_subscribers(names, events.drop_last());
        match events.last() {
            SimulatorEvent::Tick(at) => {
                assert(tick_calls(0, at) =~= Seq::<Callback>::empty());
            },
            SimulatorEvent::Envelope(env, at) => {
                assert(index_of(names, env.destination@) == -1);
            },
        }
        assert(script_calls(names, events) =~= Seq::<Callback>::empty());
    }
}

/// A step with no subscriber registered makes no callback, whatever is
/// pending. With the contract of `step` (time added, every lane left empty),
/// `step(a); step(b)` and `step(a + b)` then end in the same state.
pub proof fn law_step_without_subscribers_is_silent<M>(
    names: Seq<Seq<char>>,
    time: u64,
    pending: Seq<Seq<SimulatorEvent<M>>>,
)
    requires
        names.len() == 0,
    ensures
        step_calls(names, time, pending) == Seq::<Callback>::empty(),
{
    lemma_script_calls_without_subscribers(names, drain_order(pending));
    assert(tick_calls(0, time) =~= Seq::<Callback>::empty());
    assert(step_calls(names, time, pending) =~= Seq::<Callback>::empty());
}

/// Tick cadence in a step: each subscriber is ticked once for the step
/// itself and once for each tick event pending when the step began.
pub proof fn law_step_tick_cadence<M>(
    names: Seq<Seq<char>>,
    time: u64,
    pending: Seq<Seq<SimulatorEvent<M>>>,
    s: int,
)
    requires
        0 <= s < names.len(),
    ensures
        tick_count(step_calls(names, time, pending), s) == 1 + scripted_ticks(
            drain_order(pending),
        ),
{
    lemma_tick_count_append(
        tick_calls(names.len(), time),
        script_calls(names, drain_order(pending)),
        s,
    );
    lemma_tick_calls_count(names.len(), time, s);
    law_scripted_tick_cadence(names, drain_order(pending), s);
}

/// `lanes` with each of `out`, in order, appended as an event at `at` to the
/// lane of its priority.
pub open spec fn push_all<M>(
    lanes: Seq<Seq<SimulatorEvent<M>>>,
    out: Seq<Envelope<M>>,
    at: u64,
) -> Seq<Seq<SimulatorEvent<M>>>
    decreases out.len(),
{
    if out.len() == 0 {
        lanes
    } else {
        let l = push_all(lanes, out.drop_last(), at);
        let k = lane_of(out.last().priority as int, l.len() as int);
        l.update(k, l[k].push(SimulatorEvent::Envelope(out.last(), at)))
    }
}

/// `lanes` with what each call of `calls` returned appended, call by call,
/// each envelope as an event at the time of its call.
pub open spec fn capture_calls<M>(
    lanes: Seq<Seq<SimulatorEvent<M>>>,
    calls: Seq<Call<M>>,
) -> Seq<Seq<SimulatorEvent<M>>>
    decreases calls.len(),
{
    if calls.len() == 0 {
        lanes
    } else {
        push_all(capture_calls(lanes, calls.drop_last()), calls.last().out, calls.last().callback.at())
    }
}

/// `count` empty lanes.
pub open spec fn empty_lanes<M>(count: nat) -> Seq<Seq<SimulatorEvent<M>>> {
    Seq::new(count, |i: int| Seq::<SimulatorEvent<M>>::empty())
}

pub proof fn lemma_push_all_len<M>(lanes: Seq<Seq<SimulatorEvent<M>>>, out: Seq<Envelope<M>>, at: u64)
    requires
        lanes.len() >= 1,
    ensures
        push_all(lanes, out, at).len() == lanes.len(),
    decreases out.len(),
{
    if out.len() > 0 {
        lemma_push_all_len(lanes, out.drop_last(), at);
    }
}

proof fn lemma_push_all_append<M>(
    lanes: Seq<Seq<SimulatorEvent<M>>>,
    x: Seq<Envelope<M>>,
    y: Seq<Envelope<M>>,
    at: u64,
)
    ensures
        push_all(lanes, x + y, at) == push_all(push_all(lanes, x, at), y, at),
    decreases y.len(),
{
    if y.len() == 0 {
        assert(x + y =~= x);
    } else {
        lemma_push_all_append(lanes, x, y.drop_last(), at);
        assert((x + y).drop_last() =~= x + y.drop_last());
        assert((x + y).last() == y.last());
    }
}

proof fn lemma_capture_append<M>(
    lanes: Seq<Seq<SimulatorEvent<M>>>,
    xs: Seq<Call<M>>,
    ys: Seq<Call<M>>,
)
    ensures
        capture_calls(lanes, xs + ys) == capture_calls(capture_calls(lanes, xs), ys),
    decreases ys.len(),
{
    if ys.len() == 0 {
        assert(xs + ys =~= xs);
    } else {
        lemma_capture_append(lanes, xs, ys.drop_last());
        assert((xs + ys).drop_last() =~= xs + ys.drop_last());
        assert((xs + ys).last() == ys.last());
    }
}

/// Where every call of `calls` was made at `at`, capturing them call by call
/// is capturing all they returned at once.
proof fn lemma_capture_same_time<M>(lanes: Seq<Seq<SimulatorEvent<M>>>, calls: Seq<Call<M>>, at: u64)
    requires
        forall|i: int| 0 <= i < calls.len() ==> (#[trigger] calls[i]).callback.at() == at,
    ensures
        capture_calls(lanes, calls) == push_all(lanes, outputs(calls), at),
    decreases calls.len(),
{
    if calls.len() > 0 {
        let init = calls.drop_last();
        assert forall|i: int| 0 <= i < init.len() implies (#[trigger] init[i]).callback.at() == at by {
            assert(init[i] == calls[i]);
        }
        lemma_capture_same_time(lanes, init, at);
        assert(calls.last() == calls[calls.len() - 1]);
        lemma_push_all_append(lanes, outputs(init), calls.last().out, at);
    }
}

/// Every call of `calls` was made at `at`, where their callbacks are `cbs`
/// and all of `cbs` carry `at`.
proof fn lemma_calls_at<M>(calls: Seq<Call<M>>, cbs: Seq<Callback>, at: u64)
    requires
        callbacks(calls) == cbs,
        forall|i: int| 0 <= i < cbs.len() ==> (#[trigger] cbs[i]).at() == at,
    ensures
        forall|i: int| 0 <= i < calls.len() ==> (#[trigger] calls[i]).callback.at() == at,
{
    assert forall|i: int| 0 <= i < calls.len() implies (#[trigger] calls[i]).callback.at() == at by {
        assert(callbacks(calls)[i] == calls[i].callback);
    }
}

/// Enqueues each of `out`, in order, as an event at `at` in the lane of its
/// priority.
fn capture<M>(lanes: &mut Lanes<SimulatorEvent<M>>, out: Vec<Envelope<M>>, at: u64)
    requires
        old(lanes).wf(),
    ensures
        final(lanes).wf(),
        final(lanes)@ == push_all(old(lanes)@, out@, at),
{
    let ghost orig = out@;
    let mut q = deque_of(out);
    let ghost mut done: Seq<Envelope<M>> = Seq::empty();
    while q.len() > 0
        invariant
            lanes.wf(),
            old(lanes)@.len() >= 1,
            done + q@ == orig,
            lanes@ == push_all(old(lanes)@, done, at),
        decreases q@.len(),
    {
        let ghost before = q@;
        let e = q.pop_front().unwrap();
        proof {
            lemma_push_all_len(old(lanes)@, done, at);
            assert(done.push(e).drop_last() =~= done);
            assert(done.push(e) + q@ =~= done + before);
        }
        lanes.push(e.priority, SimulatorEvent::Envelope(e, at));
        proof {
            done = done.push(e);
        }
    }
    assert(done =~= orig);
}

/// A deterministic twin of the bus: virtual time, a registry, and pending
/// events in priority lanes. It never reads a clock.
pub struct Simulator<M, S> {
    subscribers: Registry<M, S>,
    events: Lanes<SimulatorEvent<M>>,
    time: u64,
}

impl<M, S: Subscriber<M>> Simulator<M, S> {
    pub closed spec fn time_spec(&self) -> u64 {
        self.time
    }

    /// The pending events, lane by lane.
    pub closed spec fn pending(&self) -> Seq<Seq<SimulatorEvent<M>>> {
        self.events@
    }

    pub closed spec fn registry(&self) -> Registry<M, S> {
        self.subscribers
    }

    pub closed spec fn wf(&self) -> bool {
        self.subscribers.wf() && self.events.wf()
    }

    /// `next` is what one step by `by` makes of `self`: the time moved on by
    /// `by`; the callbacks of the step (`step_calls`) made, in order; and
    /// pending exactly what those callbacks returned, call by call, each in the
    /// lane of its priority as an event at the time of its call.
    pub open spec fn stepped(self, next: Self, by: u64) -> bool {
        &&& next.wf()
        &&& next.time_spec() == self.time_spec() + by
        &&& next.registry().names() == self.registry().names()
        &&& extends(self.registry().calls(), next.registry().calls())
        &&& callbacks(added(self.registry().calls(), next.registry().calls())) == step_calls(
            self.registry().names(),
            self.time_spec(),
            self.pending(),
        )
        &&& next.pending() == capture_calls(
            empty_lanes(self.pending().len()),
            added(self.registry().calls(), next.registry().calls()),
        )
    }

    /// The length of the next step of `step_to(target, by)` from `self`.
    pub open spec fn next_by(self, target: u64, by: u64) -> u64 {
        if by < target - self.time_spec() {
            by
        } else {
            (target - self.time_spec()) as u64
        }
    }

    /// A simulator at `initial_time` whose pending events are
    /// `initial_events`, one list per priority lane; an empty list of lanes
    /// gets one lane.
    pub fn new(subscribers: Registry<M, S>, initial_time: u64, initial_events: Vec<
        Vec<SimulatorEvent<M>>,
    >) -> (r: Self)
        requires
            subscribers.wf(),
        ensures
            r.wf(),
            r.time_spec() == initial_time,
            r.registry() == subscribers,
            initial_events@.len() == 0 ==> r.pending() == seq![Seq::<SimulatorEvent<M>>::empty()],
            initial_events@.len() > 0 ==> r.pending() == Seq::new(
                initial_events@.len(),
                |i: int| initial_events@[i]@,
            ),
    {
        Simulator { subscribers, events: Lanes::from_vecs(initial_events), time: initial_time }
    }

    /// The current virtual time.
    pub fn time(&self) -> (r: u64)
        ensures
            r == self.time_spec(),
    {
        self.time
    }

    /// The subscribers.
    pub fn subscribers(&self) -> (r: &Registry<M, S>)
        ensures
            *r == self.registry(),
    {
        &self.subscribers
    }

    /// The number of priority lanes.
    pub fn lane_count(&self) -> (r: usize)
        ensures
            r == self.pending().len(),
    {
        self.events.count()
    }

    /// The number of events pending in lane `k`.
    pub fn pending_in_lane(&self, k: usize) -> (r: usize)
        requires
            k < self.pending().len(),
        ensures
            r == self.pending()[k as int].len(),
    {
        self.events.lane_len(k)
    }

    /// Delivers every event of `lanes` in drain order; where `keep` holds,
    /// what the subscribers return is captured into `next`, else dropped.
    fn drain(
        subscribers: &mut Registry<M, S>,
        lanes: Lanes<SimulatorEvent<M>>,
        next: &mut Lanes<SimulatorEvent<M>>,
        keep: bool,
    )
        requires
            old(subscribers).wf(),
            old(next).wf(),
        ensures
            final(subscribers).wf(),
            final(subscribers).names() == old(subscribers).names(),
            extends(old(subscribers).calls(), final(subscribers).calls()),
            callbacks(added(old(subscribers).calls(), final(subscribers).calls())) == script_calls(
                old(subscribers).names(),
                drain_order(lanes@),
            ),
            final(next).wf(),
            keep ==> final(next)@ == capture_calls(
                old(next)@,
                added(old(subscribers).calls(), final(subscribers).calls()),
            ),
            !keep ==> final(next)@ == old(next)@,
    {
        let ghost names = subscribers.names();
        let ghost base = subscribers.calls();
        let ghost next0 = next@;
        let ghost orig = lanes@;
        let ghost mut done: Seq<SimulatorEvent<M>> = Seq::empty();
        let mut lanes = lanes;
        proof {
            assert(added(base, base) =~= Seq::<Call<M>>::empty());
            assert(base =~= base + added(base, base));
            assert(callbacks(added(base, base)) =~= Seq::<Callback>::empty());
        }
        loop
            invariant
                subscribers.wf(),
                subscribers.names() == names,
                extends(base, subscribers.calls()),
                callbacks(added(base, subscribers.calls())) == script_calls(names, done),
                done + drain_order(lanes@) == drain_order(orig),
                next.wf(),
                keep ==> next@ == capture_calls(next0, added(base, subscribers.calls())),
                !keep ==> next@ == next0,
            ensures
                subscribers.wf(),
                subscribers.names() == names,
                extends(base, subscribers.calls()),
                callbacks(added(base, subscribers.calls())) == script_calls(names, drain_order(orig)),
                next.wf(),
                keep ==> next@ == capture_calls(next0, added(base, subscribers.calls())),
                !keep ==> next@ == next0,
            decreases drain_order(lanes@).len(),
        {
            let ghost before = lanes@;
            proof {
                lemma_top_lane(before);
            }
            match lanes.pop_highest() {
                None => {
                    assert(done =~= drain_order(orig));
                    break;
                },
                Some(ev) => {
                    proof {
                        lemma_drain_pop(before);
                        assert(drain_order(before) == seq![ev] + drain_order(lanes@));
                        assert(done.push(ev) + drain_order(lanes@) =~= done + drain_order(before));
                        assert(done.push(ev).drop_last() =~= done);
                    }
                    let ghost g = ev;
                    let ghost mid = subscribers.calls();
                    let ghost next_mid = next@;
                    match ev {
                        SimulatorEvent::Envelope(env, at) => {
                            let out = subscribers.deliver(env, at);
                            proof {
                                lemma_calls_at(
                                    added(mid, subscribers.calls()),
                                    receive_calls(names, g->Envelope_0.destination@, at),
                                    at,
                                );
                                lemma_capture_same_time(next_mid, added(mid, subscribers.calls()), at);
                            }
                            if keep {
                                capture(next, out, at);
                            }
                        },
                        SimulatorEvent::Tick(at) => {
                            let out = subscribers.tick_all(at);
                            proof {
                                lemma_calls_at(
                                    added(mid, subscribers.calls()),
                                    tick_calls(names.len(), at),
                                    at,
                                );
                                lemma_capture_same_time(next_mid, added(mid, subscribers.calls()), at);
                            }
                            if keep {
                                capture(next, out, at);
                            }
                        },
                    }
                    proof {
                        let cur = subscribers.calls();
                        lemma_added_chain(base, mid, cur);
                        lemma_callbacks_append(added(base, mid), added(mid, cur));
                        lemma_capture_append(next0, added(base, mid), added(mid, cur));
                        assert(script_calls(names, done.push(g)) == script_calls(names, done)
                            + event_calls(names, g));
                        done = done.push(g);
                    }
                },
            }
        }
    }

    /// Advances the simulator by `by`: first every subscriber ticks at the
    /// current time, then the time moves on, then the events that were
    /// pending when the step began are delivered, the top lane first and each
    /// lane in order. What the subscribers return in either phase, and only
    /// that, is pending for the next step, in the lane of its priority.
    /// Returns the new time.
    pub fn step(&mut self, by: u64) -> (r: u64)
        requires
            old(self).wf(),
            old(self).time_spec() + by <= u64::MAX,
        ensures
            old(self).stepped(*final(self), by),
            r == final(self).time_spec(),
    {
        let ghost c0 = self.subscribers.calls();
        let ghost p0 = self.events@;
        let mut current = Lanes::new(self.events.count());
        std::mem::swap(&mut current, &mut self.events);
        let ghost fresh = self.events@;
        assert(fresh =~= empty_lanes(p0.len()));
        let out = self.subscribers.tick_all(self.time);
        let ghost c1 = self.subscribers.calls();
        proof {
            lemma_calls_at(added(c0, c1), tick_calls(self.subscribers.names().len(), self.time), self.time);
            lemma_capture_same_time(fresh, added(c0, c1), self.time);
        }
        capture(&mut self.events, out, self.time);
        self.time = self.time + by;
        Self::drain(&mut self.subscribers, current, &mut self.events, true);
        proof {
            let c2 = self.subscribers.calls();
            lemma_added_chain(c0, c1, c2);
            lemma_callbacks_append(added(c0, c1), added(c1, c2));
            lemma_capture_append(fresh, added(c0, c1), added(c1, c2));
            lemma_push_all_len(fresh, outputs(added(c0, c1)), old(self).time);
        }
        self.time
    }

    /// Steps by `by` until the time reaches `target`; the last step is cut
    /// short so that the time lands on `target` exactly. Nothing happens where
    /// the time is already at or past `target`, or where `by` is zero.
    /// Returns the new time.
    pub fn step_to(&mut self, target: u64, by: u64) -> (r: u64)
        requires
            old(self).wf(),
        ensures
            final(self).wf(),
            r == final(self).time_spec(),
            final(self).time_spec() == if old(self).time_spec() < target && by > 0 {
                target
            } else {
                old(self).time_spec()
            },
            old(self).time_spec() >= target || by == 0 ==> *final(self) == *old(self),
            exists|trace: Seq<Self>|
                trace.len() >= 1 && trace[0] == *old(self) && trace.last() == *final(self) && (
                forall|i: int|
                    0 <= i < trace.len() - 1 ==> (#[trigger] trace[i]).time_spec() < target
                        && trace[i].next_by(target, by) > 0 && trace[i].stepped(
                        trace[i + 1],
                        trace[i].next_by(target, by),
                    )) && (forall|i: int|
                    0 <= i < trace.len() - 2 ==> (#[trigger] trace[i]).next_by(target, by) == by),
    {
        let ghost mut trace: Seq<Self> = seq![*self];
        while self.time < target
            invariant
                self.wf(),
                old(self).time_spec() <= self.time <= if old(self).time_spec() < target {
                    target
                } else {
                    old(self).time_spec()
                },
                by == 0 || old(self).time_spec() >= target ==> *self == *old(self),
                trace.len() >= 1,
                trace[0] == *old(self),
                trace.last() == *self,
                forall|i: int|
                    0 <= i < trace.len() - 1 ==> (#[trigger] trace[i]).time_spec() < target
                        && trace[i].next_by(target, by) > 0 && trace[i].stepped(
                        trace[i + 1],
                        trace[i].next_by(target, by),
                    ),
                forall|i: int| 0 <= i < trace.len() - 2 ==> (#[trigger] trace[i]).next_by(target, by) == by,
            ensures
                self.wf(),
                self.time == if old(self).time_spec() < target && by > 0 {
                    target
                } else {
                    old(self).time_spec()
                },
                by == 0 || old(self).time_spec() >= target ==> *self == *old(self),
                trace.len() >= 1,
                trace[0] == *old(self),
                trace.last() == *self,
                forall|i: int|
                    0 <= i < trace.len() - 1 ==> (#[trigger] trace[i]).time_spec() < target
                        && trace[i].next_by(target, by) > 0 && trace[i].stepped(
                        trace[i + 1],
                        trace[i].next_by(target, by),
                    ),
                forall|i: int| 0 <= i < trace.len() - 2 ==> (#[trigger] trace[i]).next_by(target, by) == by,
            decreases target - self.time,
        {
            let remaining = target - self.time;
            let actual = if by < remaining {
                by
            } else {
                remaining
            };
            if actual == 0 {
                break;
            }
            let ghost prev = *self;
            proof {
                if trace.len() >= 2 {
                    let k = trace.len() - 2;
                    assert(trace[k].stepped(trace[k + 1], trace[k].next_by(target, by)));
                    assert(trace[k].next_by(target, by) == by);
                }
            }
            self.step(actual);
            proof {
                let t2 = trace.push(*self);
                assert forall|i: int| 0 <= i < t2.len() - 2 implies (#[trigger] t2[i]).next_by(
                    target,
                    by,
                ) == by by {
                    assert(t2[i] == trace[i]);
                }
                assert forall|i: int|
                    0 <= i < t2.len() - 1 implies (#[trigger] t2[i]).time_spec() < target
                        && t2[i].next_by(target, by) > 0 && t2[i].stepped(
                        t2[i + 1],
                        t2[i].next_by(target, by),
                    ) by {
                    if i < trace.len() - 1 {
                        assert(t2[i] == trace[i]);
                        assert(t2[i + 1] == trace[i + 1]);
                    } else {
                        assert(t2[i] == prev);
                        assert(t2[i + 1] == *self);
                    }
                }
                trace = t2;
            }
        }
        self.time
    }

    /// Replays the pending events, the top lane first and each lane in
    /// order, and nothing else: no tick phase, and what the subscribers
    /// return is dropped. Hands back the subscribers.
    pub fn run(self) -> (r: Registry<M, S>)
        requires
            self.wf(),
        ensures
            r.wf(),
            r.names() == self.registry().names(),
            extends(self.registry().calls(), r.calls()),
            callbacks(added(self.registry().calls(), r.calls())) == script_calls(
                self.registry().names(),
                drain_order(self.pending()),
            ),
    {
        let Simulator { subscribers, events, time: _ } = self;
        let mut subscribers = subscribers;
        let mut sink = Lanes::new(1);
        Self::drain(&mut subscribers, events, &mut sink, false);
        subscribers
    }
}

} // verus!
