use can_adapter::bus::{FanoutCore, PushBus, Taken};
use can_adapter::sim::SimulatedConnection;
use can_adapter::packet::Packet;

#[test]
fn test_clone() {
    let pb1 = PushBus::new("test");
    let pb2 = pb1.clone();

    let mut i1 = pb1.iter();
    let mut i2 = pb2.iter();
    pb1.push(Some(1));
    pb1.push(Some(2));
    assert_eq!(Some(1), i1.next().unwrap());
    assert_eq!(Some(1), i2.next().unwrap());
    assert_eq!(Some(2), i1.next().unwrap());
    assert_eq!(Some(2), i2.next().unwrap());
    assert_eq!(None, i1.next().unwrap());
    assert_eq!(None, i2.next().unwrap());

    let mut i1 = pb1.iter();
    let mut i2 = pb2.iter();
    assert_eq!(None, i1.next().unwrap());
    assert_eq!(None, i2.next().unwrap());
}

#[test]
fn late_subscriber_sees_suffix() {
    let bus: PushBus<u32> = PushBus::new("fidelity");
    let mut a = bus.iter();
    bus.push(Some(10));
    bus.push(None);
    let mut b = bus.iter();
    bus.push(Some(11));
    bus.push(Some(12));
    // a sees everything since it subscribed, heartbeat included.
    assert_eq!(Some(Some(10)), a.next());
    assert_eq!(Some(None), a.next());
    assert_eq!(Some(Some(11)), a.next());
    assert_eq!(Some(Some(12)), a.next());
    // b sees the suffix from its subscription.
    assert_eq!(Some(Some(11)), b.next());
    assert_eq!(Some(Some(12)), b.next());
    assert_eq!(Some(None), b.next());
}

#[test]
fn closed_consumers_end() {
    let bus: PushBus<u32> = PushBus::new("close");
    let mut a = bus.iter();
    let mut b = bus.iter();
    bus.push(Some(1));
    a.close();
    assert_eq!(None, a.next());
    assert_eq!(Some(Some(1)), b.next());
    bus.push(Some(2));
    assert_eq!(Some(Some(2)), b.next());
    bus.close();
    assert_eq!(None, b.next());
    // A consumer made after close is live.
    let mut c = bus.iter();
    bus.push(Some(3));
    assert_eq!(Some(Some(3)), c.next());
}

#[test]
fn core_take_and_release() {
    let mut core: FanoutCore<u64> = FanoutCore::new();
    let k1 = core.subscribe();
    core.push(Some(5));
    let k2 = core.subscribe();
    core.push(Some(6));
    assert!(matches!(core.take(k1), Taken::Item(Some(5))));
    assert!(matches!(core.take(k2), Taken::Item(Some(6))));
    assert!(matches!(core.take(k2), Taken::Empty));
    core.release(k1);
    assert!(matches!(core.take(k1), Taken::Closed));
    core.push(None);
    assert_eq!(1, core.slots.len());
    assert!(matches!(core.take(k2), Taken::Item(None)));
    assert!(matches!(core.take(99), Taken::Closed));
    core.close_all();
    assert!(matches!(core.take(k2), Taken::Closed));
}

#[test]
fn sim_echoes_and_heartbeats() {
    let sim = SimulatedConnection::new();
    let other = sim.clone();
    let mut reader = other.iter();
    let echo = sim.send(&Packet::new(0x18D3F903, &[1, 2, 3]), 77);
    assert_eq!(0x18D3F903, echo.id);
    assert_eq!(Some(77), echo.time());
    let seen = reader.next().unwrap().unwrap();
    assert_eq!(0x18D3F903, seen.id);
    assert_eq!(vec![1, 2, 3], seen.payload);
    sim.tick(0x0102, 5);
    let hb = reader.next().unwrap().unwrap();
    assert_eq!(0x18FEF100, hb.id);
    assert_eq!(vec![0, 0, 0, 0, 0, 0, 1, 2], hb.payload);
    sim.close();
    assert!(reader.next().is_none());
}

#[test]
fn stalled_consumer_is_reported() {
    let mut core: FanoutCore<u32> = FanoutCore::new();
    assert!(!core.stalled(0));
    let _k = core.subscribe();
    core.push(Some(1));
    core.push(Some(2));
    assert!(core.stalled(1));
    assert!(!core.stalled(2));
    let bus: PushBus<u32> = PushBus::new("deep");
    let _reader = bus.iter();
    assert!(!bus.push(Some(1)));
}

#[test]
fn ended_consumer_gets_no_later_items() {
    let mut core: FanoutCore<u32> = FanoutCore::new();
    let k = core.subscribe();
    core.close_all();
    core.push(Some(1));
    assert!(core.slots.is_empty());
    assert!(matches!(core.take(k), Taken::Closed));
    let bus: PushBus<u32> = PushBus::new("ended");
    let mut it = bus.iter();
    bus.close();
    bus.push(Some(1));
    bus.push(Some(2));
    assert_eq!(None, it.next());
    assert_eq!(None, it.next());
}
