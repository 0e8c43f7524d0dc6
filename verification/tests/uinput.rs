use wl_uinput_proxy::uinput::{
    check_written, drain, fill_name, numbered_name, wait_until, AbsSetup, Action, Capability, Cmd, Counter, Device,
    Emitter, Queue, ShortWrite, UinputBuilder, CREATE_DELAY, EV_ABS, EV_KEY, EV_SYN, NAME_SIZE, SYN_REPORT,
};

/// What the emitter does about all commands in the queue, taken at the time `now`.
fn run(emitter: &mut Emitter, queue: &mut Queue, now: u64) -> Vec<Action> {
    queue.take().into_iter().map(|cmd| emitter.step(cmd, now)).collect()
}

#[test]
fn builder_collects_capabilities() {
    let mut b = UinputBuilder::new();
    b.enable_ev(EV_KEY);
    b.enable_key(30);
    b.enable_rel(8);
    b.enable_ev(EV_ABS);
    b.enable_abs(1, -5, 5);
    let plan = b.build("some device");
    assert_eq!(
        plan.capabilities,
        vec![
            Capability::Event(EV_KEY),
            Capability::Key(30),
            Capability::Rel(8),
            Capability::Event(EV_ABS),
            Capability::Abs(1),
        ]
    );
    assert_eq!(
        plan.axes,
        vec![AbsSetup { code: 1, value: 0, minimum: -5, maximum: 5, fuzz: 0, flat: 0, resolution: 0 }]
    );
    assert_eq!(
        (plan.setup.bustype, plan.setup.vendor, plan.setup.product, plan.setup.version),
        (6, 0x1234, 0x5678, 1)
    );
    assert_eq!(&plan.setup.name[..12], b"some device\0");
}

#[test]
fn names_are_cut_and_terminated() {
    let short = fill_name("abc");
    assert_eq!(short.len(), NAME_SIZE);
    assert_eq!(&short[..4], b"abc\0");
    assert!(short[3..].iter().all(|&b| b == 0));
    let long = fill_name(&"x".repeat(100));
    assert_eq!(long.len(), 80);
    assert!(long[..79].iter().all(|&b| b == b'x'));
    assert_eq!(long[79], 0);
    assert!(fill_name("").iter().all(|&b| b == 0));
    // bytes count, not characters
    let wide = fill_name(&"\u{20ac}".repeat(30));
    assert_eq!(wide[77], 0xac);
    assert_eq!(wide[79], 0);
}

#[test]
fn numbers_in_names() {
    assert_eq!(numbered_name("n", 0), "n0");
    assert_eq!(numbered_name("n", 9), "n9");
    assert_eq!(numbered_name("n", 10), "n10");
    assert_eq!(numbered_name("device ", 1234567890), "device 1234567890");
    assert_eq!(numbered_name("", u64::MAX), "18446744073709551615");
    assert_ne!(numbered_name("n1", 1), numbered_name("n1", 11));
}

#[test]
fn short_writes_are_errors() {
    assert_eq!(check_written(24, 24), Ok(()));
    assert_eq!(check_written(0, 24), Err(ShortWrite { written: 0, size: 24 }));
    assert_eq!(check_written(23, 24), Err(ShortWrite { written: 23, size: 24 }));
}

#[test]
fn counters_count() {
    let mut counter = Counter::new();
    assert_eq!((counter.fetch(), counter.fetch(), counter.fetch()), (0, 1, 2));
}

#[test]
fn device_sends_commands() {
    let mut ids = Counter::new();
    let mut queue = Queue::new();
    let dev = Device::spawn(true, &mut ids, &mut queue, 1000);
    assert_eq!(dev.handle(), Some(0));
    dev.emit(&mut queue, EV_KEY, 30, 1);
    dev.sync(&mut queue);
    drain(&mut queue, 9);
    dev.remove(&mut queue);
    assert_eq!(
        queue.take(),
        vec![
            Cmd::Add(0, 150_001_000),
            Cmd::Emit(0, EV_KEY, 30, 1),
            Cmd::Sync(0),
            Cmd::Drain(9),
            Cmd::Remove(0),
        ]
    );
    assert_eq!(queue.take(), vec![]);
}

#[test]
fn no_device_sends_no_commands() {
    let mut ids = Counter::new();
    let mut queue = Queue::new();
    let dev = Device::spawn(false, &mut ids, &mut queue, u64::MAX);
    assert_eq!(dev.handle(), None);
    dev.emit(&mut queue, EV_KEY, 30, 1);
    dev.sync(&mut queue);
    dev.remove(&mut queue);
    assert_eq!(queue.take(), vec![]);
    assert_eq!(ids.fetch(), 0);
}

#[test]
fn waits_end_when_the_time_has_come() {
    assert_eq!(wait_until(10, 3), 7);
    assert_eq!(wait_until(10, 10), 0);
    assert_eq!(wait_until(10, 11), 0);
    assert_eq!(wait_until(u64::MAX, 0), u64::MAX);
}

#[test]
fn events_of_all_devices_keep_their_order() {
    let mut ids = Counter::new();
    let mut queue = Queue::new();
    let a = Device::spawn(true, &mut ids, &mut queue, 0);
    let b = Device::spawn(true, &mut ids, &mut queue, 10);
    let mut emitter = Emitter::new();
    assert_eq!(run(&mut emitter, &mut queue, 10), vec![Action::Keep(0), Action::Keep(1)]);
    b.emit(&mut queue, EV_KEY, 2, 1);
    a.emit(&mut queue, EV_KEY, 1, 1);
    a.sync(&mut queue);
    b.sync(&mut queue);
    let later = CREATE_DELAY + 10;
    assert_eq!(
        run(&mut emitter, &mut queue, later),
        vec![
            Action::Write(1, 0, EV_KEY, 2, 1),
            Action::Write(0, 0, EV_KEY, 1, 1),
            Action::Write(0, 0, EV_SYN, SYN_REPORT, 0),
            Action::Write(1, 0, EV_SYN, SYN_REPORT, 0),
        ]
    );
}

#[test]
fn new_devices_are_waited_for() {
    let mut ids = Counter::new();
    let mut queue = Queue::new();
    let dev = Device::spawn(true, &mut ids, &mut queue, 100);
    let mut emitter = Emitter::new();
    dev.sync(&mut queue);
    assert_eq!(
        run(&mut emitter, &mut queue, 40_000_100),
        vec![Action::Keep(0), Action::Write(0, 110_000_000, EV_SYN, SYN_REPORT, 0)]
    );
}

#[test]
fn devices_are_destroyed_after_their_last_event() {
    let mut ids = Counter::new();
    let mut queue = Queue::new();
    let dev = Device::spawn(true, &mut ids, &mut queue, 0);
    let mut emitter = Emitter::new();
    run(&mut emitter, &mut queue, 0);
    dev.emit(&mut queue, EV_KEY, 42, 0);
    dev.sync(&mut queue);
    dev.remove(&mut queue);
    assert_eq!(
        run(&mut emitter, &mut queue, CREATE_DELAY),
        vec![
            Action::Write(0, 0, EV_KEY, 42, 0),
            Action::Write(0, 0, EV_SYN, SYN_REPORT, 0),
            Action::Destroy(0),
        ]
    );
}

#[test]
fn unknown_devices_are_ignored() {
    let mut emitter = Emitter::new();
    assert_eq!(emitter.step(Cmd::Emit(3, EV_KEY, 1, 1), 0), Action::Ignore);
    assert_eq!(emitter.step(Cmd::Sync(3), 0), Action::Ignore);
    assert_eq!(emitter.step(Cmd::Remove(3), 0), Action::Ignore);
    assert_eq!(emitter.step(Cmd::Add(3, 0), 0), Action::Keep(3));
    assert_eq!(emitter.step(Cmd::Remove(3), 0), Action::Destroy(3));
    assert_eq!(emitter.step(Cmd::Remove(3), 0), Action::Ignore);
    assert_eq!(emitter.step(Cmd::Sync(3), 0), Action::Ignore);
}

#[test]
fn drain_is_answered_last() {
    let mut ids = Counter::new();
    let mut queue = Queue::new();
    let dev = Device::spawn(true, &mut ids, &mut queue, 0);
    dev.emit(&mut queue, EV_KEY, 42, 0);
    drain(&mut queue, 5);
    let mut emitter = Emitter::new();
    assert_eq!(
        run(&mut emitter, &mut queue, CREATE_DELAY),
        vec![Action::Keep(0), Action::Write(0, 0, EV_KEY, 42, 0), Action::Drained(5)]
    );
}
