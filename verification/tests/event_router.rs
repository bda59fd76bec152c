use lib::event_router::GateEvent::{Dmx, Tick};
use lib::event_router::{render_schedule, RenderGate};

#[test]
fn tick_renders_only_the_latest_event() {
    let mut g: RenderGate<u32> = RenderGate::new();
    assert_eq!(g.on_tick(), None);
    g.on_dmx(1);
    g.on_dmx(2);
    g.on_dmx(3);
    assert_eq!(g.on_tick(), Some(3));
    assert_eq!(g.on_tick(), None);
    g.on_dmx(4);
    assert_eq!(g.on_tick(), Some(4));
}

#[test]
fn schedule_renders_latest_per_tick() {
    let r = render_schedule(vec![Tick, Dmx(1u8), Dmx(2), Tick, Tick, Dmx(3), Tick, Dmx(4)]);
    assert_eq!(r, vec![None, None, None, Some(2), None, None, Some(3), None]);
}
