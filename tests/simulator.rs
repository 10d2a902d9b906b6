use dsim::{Envelope, Message, Registry, Simulator, SimulatorEvent, Subscriber, Variant};
use std::collections::VecDeque;

const MS: u64 = 1_000_000;

struct Ping {}

struct Pong {}

enum Msg {
    Ping(Ping),
    Pong(Pong),
}

impl Variant<Msg> for Ping {
    fn project(m: Msg) -> Option<Self> {
        match m {
            Msg::Ping(p) => Some(p),
            _ => None,
        }
    }

    fn into_message(self) -> Msg {
        Msg::Ping(self)
    }

    fn from_message(m: Msg) -> Result<Self, Msg> {
        match m {
            Msg::Ping(p) => Ok(p),
            other => Err(other),
        }
    }

    fn from_message_ref(m: &Msg) -> Option<&Self> {
        match m {
            Msg::Ping(p) => Some(p),
            _ => None,
        }
    }
}

impl Variant<Msg> for Pong {
    fn project(m: Msg) -> Option<Self> {
        match m {
            Msg::Pong(p) => Some(p),
            _ => None,
        }
    }

    fn into_message(self) -> Msg {
        Msg::Pong(self)
    }

    fn from_message(m: Msg) -> Result<Self, Msg> {
        match m {
            Msg::Pong(p) => Ok(p),
            other => Err(other),
        }
    }

    fn from_message_ref(m: &Msg) -> Option<&Self> {
        match m {
            Msg::Pong(p) => Some(p),
            _ => None,
        }
    }
}

/// Emits a ping every tick, and answers each ping held long enough with a pong.
struct PingPong {
    pings: VecDeque<u64>,
    ping_hold_time: u64,
    destination: String,
    pings_received: usize,
    pongs_received: usize,
    pongs_sent: Vec<u64>,
    ticks: Vec<u64>,
}

impl PingPong {
    fn new(ping_hold_time: u64, destination: &str) -> Self {
        PingPong {
            pings: VecDeque::new(),
            ping_hold_time,
            destination: destination.to_string(),
            pings_received: 0,
            pongs_received: 0,
            pongs_sent: Vec::new(),
            ticks: Vec::new(),
        }
    }
}

impl Subscriber<Msg> for PingPong {
    fn receive(&mut self, msg: Message<Msg>, at: u64) -> Vec<Envelope<Msg>> {
        if msg.downcast_ref::<Ping>().is_some() {
            self.pings.push_back(at);
            self.pings_received += 1;
        } else if msg.downcast_ref::<Pong>().is_some() {
            self.pongs_received += 1;
        } else {
            panic!("Message is not a Ping or Pong");
        }
        vec![]
    }

    fn tick(&mut self, at: u64) -> Vec<Envelope<Msg>> {
        self.ticks.push(at);
        let mut out = vec![Envelope {
            message: Message::of(Ping {}),
            priority: 0,
            destination: self.destination.clone(),
        }];
        while let Some(&oldest) = self.pings.front() {
            if at - oldest >= self.ping_hold_time {
                self.pings.pop_front();
                self.pongs_sent.push(at);
                out.push(Envelope {
                    message: Message::of(Pong {}),
                    priority: 0,
                    destination: self.destination.clone(),
                });
            } else {
                break;
            }
        }
        out
    }
}

fn ping_env(to: &str) -> Envelope<Msg> {
    Envelope { message: Message::of(Ping {}), priority: 0, destination: to.to_string() }
}

fn pong_env(to: &str) -> Envelope<Msg> {
    Envelope { message: Message::of(Pong {}), priority: 0, destination: to.to_string() }
}

fn two_actors() -> Registry<Msg, PingPong> {
    let mut reg = Registry::new();
    reg.subscribe("ping_pong_1".to_string(), PingPong::new(1000 * MS, "ping_pong_2"));
    reg.subscribe("ping_pong_2".to_string(), PingPong::new(1000 * MS, "ping_pong_1"));
    reg
}

fn actor<'a>(reg: &'a Registry<Msg, PingPong>, name: &str) -> &'a PingPong {
    reg.get(&name.to_string()).unwrap()
}

#[test]
fn test_simulator() {
    let start: u64 = 5_000 * MS;
    let events = vec![
        SimulatorEvent::Tick(start),
        SimulatorEvent::Envelope(ping_env("ping_pong_1"), start + 100 * MS),
        SimulatorEvent::Tick(start + 1100 * MS),
        SimulatorEvent::Envelope(pong_env("ping_pong_2"), start + 1200 * MS),
        SimulatorEvent::Tick(start + 2000 * MS),
        SimulatorEvent::Envelope(ping_env("ping_pong_2"), start + 2100 * MS),
        SimulatorEvent::Tick(start + 3000 * MS),
    ];
    let simulator = Simulator::new(two_actors(), start, vec![events]);
    let reg = simulator.run();
    let a = actor(&reg, "ping_pong_1");
    let b = actor(&reg, "ping_pong_2");
    assert_eq!(a.pings_received, 1);
    assert_eq!(a.pings.len(), 0);
    assert_eq!(a.pongs_sent, vec![start + 1100 * MS]);
    assert_eq!(a.ticks, vec![start, start + 1100 * MS, start + 2000 * MS, start + 3000 * MS]);
    assert_eq!(b.pongs_received, 1);
    assert_eq!(b.pings_received, 1);
    // the ping at 2100 ms is held until 3100 ms, past the last tick
    assert_eq!(b.pings.len(), 1);
    assert!(b.pongs_sent.is_empty());
}

#[test]
fn scripted_replay_flushes_held_ping() {
    let t0: u64 = 0;
    let events = vec![
        SimulatorEvent::Tick(t0),
        SimulatorEvent::Envelope(ping_env("ping_pong_1"), t0 + 100 * MS),
        SimulatorEvent::Tick(t0 + 1100 * MS),
    ];
    let reg = Simulator::new(two_actors(), t0, vec![events]).run();
    let a = actor(&reg, "ping_pong_1");
    assert!(a.pings.is_empty());
    assert_eq!(a.pongs_sent, vec![t0 + 1100 * MS]);
    // outputs of scripted replay are dropped: B never hears of A's ping or pong
    let b = actor(&reg, "ping_pong_2");
    assert_eq!(b.pings_received, 0);
    assert_eq!(b.pongs_received, 0);
}

#[test]
fn scripted_replay_drains_top_lane_first() {
    let mut reg = Registry::new();
    reg.subscribe("a".to_string(), PingPong::new(0, "a"));
    let low = vec![SimulatorEvent::Envelope(ping_env("a"), 10)];
    let high = vec![SimulatorEvent::Envelope(pong_env("a"), 20), SimulatorEvent::Tick(30)];
    let reg = Simulator::new(reg, 0, vec![low, high]).run();
    let a = actor(&reg, "a");
    assert_eq!(a.pongs_received, 1);
    assert_eq!(a.pings_received, 1);
    // the tick in the top lane ran before the ping in the low lane arrived
    assert_eq!(a.ticks, vec![30]);
    assert_eq!(a.pings.len(), 1);
}

/// Sends itself one ping on every tick.
struct SelfPinger {
    ticks: usize,
    received: Vec<u64>,
}

impl Subscriber<Msg> for SelfPinger {
    fn receive(&mut self, _msg: Message<Msg>, at: u64) -> Vec<Envelope<Msg>> {
        self.received.push(at);
        vec![]
    }

    fn tick(&mut self, _at: u64) -> Vec<Envelope<Msg>> {
        self.ticks += 1;
        vec![ping_env("me")]
    }
}

fn self_pinger() -> Registry<Msg, SelfPinger> {
    let mut reg = Registry::new();
    reg.subscribe("me".to_string(), SelfPinger { ticks: 0, received: Vec::new() });
    reg
}

#[test]
fn step_recaptures_envelopes_into_next_step() {
    let mut sim = Simulator::new(self_pinger(), 0, vec![vec![]]);
    assert_eq!(sim.lane_count(), 1);
    assert_eq!(sim.step(100 * MS), 100 * MS);
    assert_eq!(sim.pending_in_lane(0), 1);
    assert!(sim.subscribers().get(&"me".to_string()).unwrap().received.is_empty());
    assert_eq!(sim.step(100 * MS), 200 * MS);
    let me = sim.subscribers().get(&"me".to_string()).unwrap();
    // delivered at the time of the tick that produced it
    assert_eq!(me.received, vec![0]);
    assert_eq!(me.ticks, 2);
    assert_eq!(sim.pending_in_lane(0), 1);
}

#[test]
fn step_ticks_before_delivery() {
    let mut reg = Registry::new();
    reg.subscribe("a".to_string(), PingPong::new(0, "a"));
    let mut sim = Simulator::new(reg, 7, vec![vec![SimulatorEvent::Envelope(ping_env("a"), 3)]]);
    sim.step(10);
    let a = sim.subscribers().get(&"a".to_string()).unwrap();
    // the tick at 7 saw no held ping; the ping arrived after it
    assert_eq!(a.ticks, vec![7]);
    assert_eq!(a.pings_received, 1);
    assert!(a.pongs_sent.is_empty());
    assert_eq!(a.pings.len(), 1);
}

#[test]
fn empty_events_normalize_to_one_lane() {
    let sim: Simulator<Msg, SelfPinger> = Simulator::new(self_pinger(), 0, vec![]);
    assert_eq!(sim.lane_count(), 1);
    assert_eq!(sim.pending_in_lane(0), 0);
}

#[test]
fn step_saturates_priority_to_top_lane() {
    let mut reg = Registry::new();
    reg.subscribe("a".to_string(), Saturator {});
    let mut sim: Simulator<Msg, Saturator> = Simulator::new(reg, 0, vec![vec![], vec![], vec![]]);
    sim.step(1);
    assert_eq!(sim.pending_in_lane(0), 0);
    assert_eq!(sim.pending_in_lane(1), 0);
    assert_eq!(sim.pending_in_lane(2), 1);
}

struct Saturator {}

impl Subscriber<Msg> for Saturator {
    fn receive(&mut self, _msg: Message<Msg>, _at: u64) -> Vec<Envelope<Msg>> {
        vec![]
    }

    fn tick(&mut self, _at: u64) -> Vec<Envelope<Msg>> {
        vec![Envelope { message: Message::of(Pong {}), priority: 1_000_000, destination: "a".to_string() }]
    }
}

#[test]
fn step_to_lands_on_target() {
    let mut sim = Simulator::new(self_pinger(), 0, vec![vec![]]);
    assert_eq!(sim.step_to(250, 100), 250);
    assert_eq!(sim.time(), 250);
    // steps of 100, 100 and 50
    assert_eq!(sim.subscribers().get(&"me".to_string()).unwrap().ticks, 3);
    assert_eq!(sim.step_to(100, 10), 250);
    assert_eq!(sim.step_to(400, 0), 250);
    assert_eq!(sim.subscribers().get(&"me".to_string()).unwrap().ticks, 3);
}

#[test]
fn simulator_runs_are_deterministic() {
    let run = || {
        let mut sim = Simulator::new(two_actors(), 0, vec![vec![]]);
        sim.step_to(5000 * MS, 500 * MS);
        let reg = sim.subscribers();
        let a = actor(reg, "ping_pong_1");
        let b = actor(reg, "ping_pong_2");
        (a.pings_received, a.pongs_received, a.pongs_sent.clone(), b.pings_received, b.pongs_received, b.pongs_sent.clone())
    };
    let first = run();
    assert_eq!(first, run());
    assert!(first.0 >= 5);
    assert!(first.1 >= 4);
}

#[test]
fn unknown_destination_is_dropped() {
    let mut reg = two_actors();
    let out = reg.deliver(ping_env("nobody"), 5);
    assert!(out.is_empty());
    assert_eq!(actor(&reg, "ping_pong_1").pings_received, 0);
    assert_eq!(actor(&reg, "ping_pong_2").pings_received, 0);
    let reg = Simulator::new(reg, 0, vec![vec![SimulatorEvent::Envelope(ping_env("nobody"), 1)]]).run();
    assert_eq!(actor(&reg, "ping_pong_1").pings_received, 0);
}

#[test]
fn registry_subscribe_replaces_same_name() {
    let mut reg = two_actors();
    assert_eq!(reg.len(), 2);
    reg.subscribe("ping_pong_1".to_string(), PingPong::new(5, "x"));
    assert_eq!(reg.len(), 2);
    assert_eq!(reg.position(&"ping_pong_1".to_string()), Some(0));
    assert_eq!(reg.position(&"ping_pong_2".to_string()), Some(1));
    assert_eq!(reg.position(&"other".to_string()), None);
    assert_eq!(actor(&reg, "ping_pong_1").ping_hold_time, 5);
}

#[test]
fn empty_registry_ticks_nobody() {
    let mut reg: Registry<Msg, PingPong> = Registry::new();
    assert_eq!(reg.len(), 0);
    assert!(reg.tick_all(10).is_empty());
    let mut sim = Simulator::new(reg, 0, vec![vec![SimulatorEvent::Tick(3)]]);
    assert_eq!(sim.step(5), 5);
    assert_eq!(sim.pending_in_lane(0), 0);
}

#[test]
fn tick_all_keeps_registry_order() {
    let mut reg = two_actors();
    let out = reg.tick_all(42);
    assert_eq!(out.len(), 2);
    assert_eq!(out[0].destination, "ping_pong_2");
    assert_eq!(out[1].destination, "ping_pong_1");
}

#[test]
fn downcast_to_own_kind_and_back() {
    let m = Message::of(Ping {});
    assert!(m.downcast_ref::<Ping>().is_some());
    assert!(m.downcast_ref::<Pong>().is_none());
    assert!(matches!(m.as_any(), Msg::Ping(_)));
    let m = match m.downcast::<Pong>() {
        Ok(_) => panic!("a ping is no pong"),
        Err(back) => back,
    };
    assert!(matches!(m.as_any(), Msg::Ping(_)));
    assert!(m.downcast::<Ping>().is_ok());
    assert!(matches!(Message::new(Msg::Pong(Pong {})).into_any(), Msg::Pong(_)));
    assert!(Pong::project(Msg::Pong(Pong {})).is_some());
    assert!(Ping::project(Msg::Pong(Pong {})).is_none());
}
