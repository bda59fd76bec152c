//! Rendering on a timer, not per packet.
//!
//! A DMX event no longer renders on arrival: it is kept as the latest pending
//! event, and a ticker renders at most once per period if anything arrived.
//! That is safe to coalesce because the render reads the *current* DMX buffer,
//! which the input tasks have already filled from every packet; the event only
//! says "something changed".

use vstd::prelude::*;

verus! {

/// How often the LED map may be rebuilt, in milliseconds (62.5 Hz).
pub const RENDER_PERIOD_MS: u64 = 16;

/// The most recent DMX event since the last render, if any.
pub struct RenderGate<T> {
    pub pending: Option<T>,
}

impl<T> RenderGate<T> {
    /// Nothing pending.
    pub fn new() -> (g: RenderGate<T>)
        ensures
            g.pending is None,
    {
        RenderGate { pending: None }
    }

    /// A DMX event arrived: it replaces whatever was pending.
    pub fn on_dmx(&mut self, event: T)
        ensures
            final(self).pending == Some(event),
    {
        self.pending = Some(event);
    }

    /// The render tick: the event to render now, if one arrived since the
    /// last tick; afterwards nothing is pending.
    pub fn on_tick(&mut self) -> (render: Option<T>)
        ensures
            render == old(self).pending,
            final(self).pending is None,
    {
        self.pending.take()
    }
}

/// What is pending after `on_dmx` is called with each of `events` in turn,
/// starting from `start`.
pub open spec fn after_arrivals<T>(start: Option<T>, events: Seq<T>) -> Option<T>
    decreases events.len(),
{
    if events.len() == 0 {
        start
    } else {
        after_arrivals(Some(events[0]), events.drop_first())
    }
}

/// Of the events that arrive between two ticks, the tick renders the last one
/// and only that one; with none arriving, what was pending stays pending.
pub proof fn lemma_tick_renders_latest<T>(start: Option<T>, events: Seq<T>)
    ensures
        events.len() == 0 ==> after_arrivals(start, events) == start,
        events.len() > 0 ==> after_arrivals(start, events) == Some(events.last()),
    decreases events.len(),
{
    if events.len() > 1 {
        lemma_tick_renders_latest(Some(events[0]), events.drop_first());
        assert(events.drop_first().last() == events.last());
    } else if events.len() == 1 {
        assert(events.drop_first().len() == 0);
        assert(after_arrivals(Some(events[0]), events.drop_first()) == Some(events[0]));
    }
}

/// What wakes the router's render loop: a DMX event or the render tick.
/// Events on the router's other channel are handled as they come, not here.
pub enum GateEvent<T> {
    Dmx(T),
    Tick,
}

/// The pending event and the renders after `events` arrive in order on a
/// gate holding `start`: one entry per event, the render done at a tick and
/// `None` for a DMX event.
pub open spec fn gate_run<T>(start: Option<T>, events: Seq<GateEvent<T>>) -> (Option<T>, Seq<Option<T>>)
    decreases events.len(),
{
    if events.len() == 0 {
        (start, seq![])
    } else {
        let (pending, renders) = gate_run(start, events.drop_last());
        match events.last() {
            GateEvent::Dmx(e) => (Some(e), renders.push(None)),
            GateEvent::Tick => (None, renders.push(pending)),
        }
    }
}

/// The render at event `i`, as the router promises it: at a tick, the DMX
/// event that arrived just before it if one did (which is then the latest
/// since the previous tick), nothing if the previous event was a tick; at
/// the very first event, whatever was pending.
pub open spec fn promised_render<T>(start: Option<T>, events: Seq<GateEvent<T>>, i: int) -> Option<T> {
    match events[i] {
        GateEvent::Dmx(_) => None,
        GateEvent::Tick => if i == 0 {
            start
        } else {
            match events[i - 1] {
                GateEvent::Dmx(e) => Some(e),
                GateEvent::Tick => None,
            }
        },
    }
}

/// Over any order of arrivals, a tick renders the latest DMX event since the
/// previous tick, once, and nothing when none arrived; earlier pending events
/// are dropped; a DMX event renders nothing by itself.
pub proof fn lemma_gate_renders_latest<T>(start: Option<T>, events: Seq<GateEvent<T>>)
    ensures
        gate_run(start, events).1.len() == events.len(),
        forall|i: int| 0 <= i < events.len() ==> #[trigger] gate_run(start, events).1[i] == promised_render(
            start,
            events,
            i,
        ),
        events.len() > 0 ==> gate_run(start, events).0 == (match events.last() {
            GateEvent::Dmx(e) => Some(e),
            GateEvent::Tick => None::<T>,
        }),
    decreases events.len(),
{
    if events.len() > 0 {
        let prev = events.drop_last();
        lemma_gate_renders_latest(start, prev);
        let n = events.len() - 1;
        assert forall|i: int| 0 <= i < events.len() implies #[trigger] gate_run(start, events).1[i]
            == promised_render(start, events, i) by {
            if i < n {
                assert(events[i] == prev[i]);
                if i > 0 {
                    assert(events[i - 1] == prev[i - 1]);
                }
                assert(promised_render(start, events, i) == promised_render(start, prev, i));
            } else if n > 0 {
                assert(events[n - 1] == prev.last());
            }
        }
    }
}

/// The renders the router performs when `events` arrive in this order,
/// starting with nothing pending: each DMX event is noted, each tick renders
/// what is pending.
pub fn render_schedule<T>(events: Vec<GateEvent<T>>) -> (renders: Vec<Option<T>>)
    ensures
        renders@ == gate_run(None, events@).1,
{
    let ghost evs = events@;
    let mut gate: RenderGate<T> = RenderGate::new();
    let mut renders: Vec<Option<T>> = Vec::new();
    let mut rest = events;
    while rest.len() > 0
        invariant
            rest@.len() <= evs.len(),
            rest@ == evs.skip(evs.len() - rest@.len()),
            (gate.pending, renders@) == gate_run(None, evs.take(evs.len() - rest@.len())),
        decreases rest@.len(),
    {
        let ghost done = evs.len() - rest@.len();
        let ev = rest.remove(0);
        assert(ev == evs[done]);
        assert(rest@ =~= evs.skip(done + 1));
        assert(evs.take(done + 1).drop_last() =~= evs.take(done));
        assert(evs.take(done + 1).last() == evs[done]);
        match ev {
            GateEvent::Dmx(e) => {
                gate.on_dmx(e);
                renders.push(None);
            },
            GateEvent::Tick => {
                let r = gate.on_tick();
                renders.push(r);
            },
        }
    }
    assert(evs.take(evs.len() as int) =~= evs);
    renders
}

} // verus!
