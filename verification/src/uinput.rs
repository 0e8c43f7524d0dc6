//! What is written to uinput: event codes, the description of a virtual device, the queue of
//! commands and the order in which they are carried out.
//!
//! The commands of all devices go through one [`Queue`]. An [`Emitter`] takes them in that order
//! and says for each what is to be done with the device, and how long to wait before.

use std::collections::HashMap;
use vstd::prelude::*;

verus! {

broadcast use vstd::std_specs::hash::group_hash_axioms;

// linux/input-event-codes.h
pub const EV_SYN: u16 = 0x00;

pub const EV_KEY: u16 = 0x01;

pub const EV_REL: u16 = 0x02;

pub const EV_ABS: u16 = 0x03;

pub const SYN_REPORT: u16 = 0;

pub const REL_HWHEEL: u16 = 0x06;

pub const REL_WHEEL: u16 = 0x08;

pub const REL_WHEEL_HI_RES: u16 = 0x0b;

pub const REL_HWHEEL_HI_RES: u16 = 0x0c;

pub const ABS_X: u16 = 0x00;

pub const ABS_Y: u16 = 0x01;

pub const BTN_LEFT: u16 = 0x110;

pub const BTN_TASK: u16 = 0x117;

pub const KEY_LEFTCTRL: u16 = 29;

pub const KEY_LEFTSHIFT: u16 = 42;

pub const KEY_LEFTALT: u16 = 56;

pub const KEY_CAPSLOCK: u16 = 58;

pub const KEY_NUMLOCK: u16 = 69;

pub const KEY_RIGHTALT: u16 = 100;

pub const KEY_LEFTMETA: u16 = 125;

// linux/input.h
pub const BUS_VIRTUAL: u16 = 0x06;

/// The vendor that virtual devices report.
pub const VENDOR: u16 = 0x1234;

/// The product that virtual devices report.
pub const PRODUCT: u16 = 0x5678;

/// The version that virtual devices report.
pub const VERSION: u16 = 1;

/// The size of the name in a device description (`UINPUT_MAX_NAME_SIZE`), its final NUL included.
pub const NAME_SIZE: usize = 80;

/// The largest position on an absolute axis; the compositor scales it to the output.
pub const ABS_MAX_VAL: i32 = 65535;

/// Time to wait for the compositor to discover a device before emitting events, in nanoseconds.
pub const CREATE_DELAY: u64 = 150_000_000;

/// One bit to set on a uinput file descriptor before the device is created.
#[derive(Clone, Copy, Debug, PartialEq, Eq, Structural)]
pub enum Capability {
    /// `UI_SET_EVBIT`
    Event(u16),
    /// `UI_SET_KEYBIT`
    Key(u16),
    /// `UI_SET_RELBIT`
    Rel(u16),
    /// `UI_SET_ABSBIT`
    Abs(u16),
}

/// `struct uinput_abs_setup`: the range of an absolute axis.
#[derive(Clone, Copy, Debug, PartialEq, Eq, Structural)]
pub struct AbsSetup {
    pub code: u16,
    pub value: i32,
    pub minimum: i32,
    pub maximum: i32,
    pub fuzz: i32,
    pub flat: i32,
    pub resolution: i32,
}

/// `struct uinput_setup`: the identity of a device.
#[derive(Debug, PartialEq, Eq)]
pub struct DeviceSetup {
    pub bustype: u16,
    pub vendor: u16,
    pub product: u16,
    pub version: u16,
    pub name: Vec<u8>,
}

/// Everything that is to be told to `/dev/uinput` to create a device, in this order: the
/// capabilities, the axes, the setup. The device is created after that.
#[derive(Debug, PartialEq, Eq)]
pub struct DevicePlan {
    pub capabilities: Vec<Capability>,
    pub axes: Vec<AbsSetup>,
    pub setup: DeviceSetup,
}

/// The axis with the given range, at rest at 0 and without filters.
pub open spec fn axis_range(code: u16, min: i32, max: i32) -> AbsSetup {
    AbsSetup { code, value: 0, minimum: min, maximum: max, fuzz: 0, flat: 0, resolution: 0 }
}

/// The name field of a device: the bytes of the name as far as they fit, then NULs, of which
/// there is at least one.
pub open spec fn name_field(name: Seq<u8>) -> Seq<u8> {
    Seq::new(
        NAME_SIZE as nat,
        |i: int|
            if i < name.len() && i < NAME_SIZE - 1 {
                name[i]
            } else {
                0u8
            },
    )
}

/// The identity of a virtual device with the given name.
pub open spec fn identifies(setup: DeviceSetup, name: Seq<char>) -> bool {
    &&& setup.bustype == BUS_VIRTUAL
    &&& setup.vendor == VENDOR
    &&& setup.product == PRODUCT
    &&& setup.version == VERSION
    &&& setup.name@ == name_field(vstd::utf8::encode_utf8(name))
}

/// Fills the name field of a device.
pub fn fill_name(name: &str) -> (field: Vec<u8>)
    ensures
        field@ == name_field(vstd::utf8::encode_utf8(name@)),
{
    let bytes = name.as_bytes();
    let mut field: Vec<u8> = Vec::new();
    let mut i: usize = 0;
    while i < NAME_SIZE
        invariant
            i <= NAME_SIZE,
            bytes@ == vstd::utf8::encode_utf8(name@),
            field@ == name_field(vstd::utf8::encode_utf8(name@)).take(i as int),
        decreases NAME_SIZE - i,
    {
        let byte: u8 = if i < bytes.len() && i < NAME_SIZE - 1 {
            bytes[i]
        } else {
            0
        };
        field.push(byte);
        i = i + 1;
    }
    field
}

/// Collects what a device can do.
pub struct UinputBuilder {
    capabilities: Vec<Capability>,
    abs: Vec<AbsSetup>,
}

impl UinputBuilder {
    /// The capabilities that were enabled, in order.
    pub closed spec fn capabilities(self) -> Seq<Capability> {
        self.capabilities@
    }

    /// The absolute axes that were enabled, in order.
    pub closed spec fn axes(self) -> Seq<AbsSetup> {
        self.abs@
    }

    pub fn new() -> (b: Self)
        ensures
            b.capabilities() == Seq::<Capability>::empty(),
            b.axes() == Seq::<AbsSetup>::empty(),
    {
        Self { capabilities: Vec::new(), abs: Vec::new() }
    }

    pub fn enable_ev(&mut self, ev: u16)
        ensures
            final(self).capabilities() == old(self).capabilities().push(Capability::Event(ev)),
            final(self).axes() == old(self).axes(),
    {
        self.capabilities.push(Capability::Event(ev));
    }

    pub fn enable_key(&mut self, code: u16)
        ensures
            final(self).capabilities() == old(self).capabilities().push(Capability::Key(code)),
            final(self).axes() == old(self).axes(),
    {
        self.capabilities.push(Capability::Key(code));
    }

    pub fn enable_rel(&mut self, code: u16)
        ensures
            final(self).capabilities() == old(self).capabilities().push(Capability::Rel(code)),
            final(self).axes() == old(self).axes(),
    {
        self.capabilities.push(Capability::Rel(code));
    }

    pub fn enable_abs(&mut self, code: u16, min: i32, max: i32)
        ensures
            final(self).capabilities() == old(self).capabilities().push(Capability::Abs(code)),
            final(self).axes() == old(self).axes().push(axis_range(code, min, max)),
    {
        self.capabilities.push(Capability::Abs(code));
        self.abs.push(
            AbsSetup {
                code,
                value: 0,
                minimum: min,
                maximum: max,
                fuzz: 0,
                flat: 0,
                resolution: 0,
            },
        );
    }

    pub fn build(self, name: &str) -> (plan: DevicePlan)
        ensures
            plan.capabilities@ == self.capabilities(),
            plan.axes@ == self.axes(),
            identifies(plan.setup, name@),
    {
        DevicePlan {
            capabilities: self.capabilities,
            axes: self.abs,
            setup: DeviceSetup {
                bustype: BUS_VIRTUAL,
                vendor: VENDOR,
                product: PRODUCT,
                version: VERSION,
                name: fill_name(name),
            },
        }
    }
}

/// A write to a device that did not take the whole event.
#[derive(Clone, Copy, Debug, PartialEq, Eq, Structural)]
pub struct ShortWrite {
    pub written: usize,
    pub size: usize,
}

/// Whether a write took the whole event: a short one is an error.
pub fn check_written(written: usize, size: usize) -> (r: Result<(), ShortWrite>)
    ensures
        r is Ok <==> written == size,
        r matches Err(e) ==> e == (ShortWrite { written, size }),
{
    if written != size {
        return Err(ShortWrite { written, size });
    }
    Ok(())
}

/// What a device is told to report: one change, or the end of a group of changes.
#[derive(Clone, Copy, Debug, PartialEq, Eq, Structural)]
pub enum Event {
    Emit(u16, u16, i32),
    Sync,
}

/// A device with these capabilities can report the event.
pub open spec fn enabled(capabilities: Seq<Capability>, event: Event) -> bool {
    match event {
        Event::Emit(ty, code, _) => {
            &&& capabilities.contains(Capability::Event(ty))
            &&& if ty == EV_KEY {
                capabilities.contains(Capability::Key(code))
            } else if ty == EV_REL {
                capabilities.contains(Capability::Rel(code))
            } else if ty == EV_ABS {
                capabilities.contains(Capability::Abs(code))
            } else {
                false
            }
        },
        Event::Sync => true,
    }
}

/// A command to the emitter: the first number is the device, except for `Drain`, where it is a
/// token that comes back.
#[derive(Clone, Copy, Debug, PartialEq, Eq, Structural)]
pub enum Cmd {
    /// A device was created; it can be written to from the given time on.
    Add(u64, u64),
    /// Type, code and value of an event.
    Emit(u64, u16, u16, i32),
    Sync(u64),
    Remove(u64),
    Drain(u64),
}

/// The commands that have been sent and not been taken yet, in order.
pub struct Queue {
    cmds: Vec<Cmd>,
}

impl View for Queue {
    type V = Seq<Cmd>;

    closed spec fn view(&self) -> Seq<Cmd> {
        self.cmds@
    }
}

impl Queue {
    pub fn new() -> (queue: Self)
        ensures
            queue@ == Seq::<Cmd>::empty(),
    {
        Self { cmds: Vec::new() }
    }

    pub fn send(&mut self, cmd: Cmd)
        ensures
            final(self)@ == old(self)@.push(cmd),
    {
        self.cmds.push(cmd);
    }

    /// Takes all commands out, in the order in which they were sent.
    pub fn take(&mut self) -> (cmds: Vec<Cmd>)
        ensures
            cmds@ == old(self)@,
            final(self)@ == Seq::<Cmd>::empty(),
    {
        let mut cmds: Vec<Cmd> = Vec::new();
        std::mem::swap(&mut cmds, &mut self.cmds);
        cmds
    }
}

/// The number after a number. After the last one comes 0 again.
pub open spec fn successor(n: u64) -> u64 {
    if n == u64::MAX {
        0
    } else {
        (n + 1) as u64
    }
}

/// Hands out consecutive numbers.
pub struct Counter {
    next: u64,
}

impl Counter {
    /// The number that comes next.
    pub closed spec fn next(self) -> u64 {
        self.next
    }

    pub fn new() -> (counter: Self)
        ensures
            counter.next() == 0,
    {
        Self { next: 0 }
    }

    /// The next number.
    pub fn fetch(&mut self) -> (n: u64)
        ensures
            n == old(self).next(),
            final(self).next() == successor(n),
    {
        let n: u64 = self.next;
        self.next = if n == u64::MAX {
            0
        } else {
            n + 1
        };
        n
    }
}

/// The command that makes a device report an event.
pub open spec fn event_cmd(id: u64, event: Event) -> Cmd {
    match event {
        Event::Emit(ty, code, value) => Cmd::Emit(id, ty, code, value),
        Event::Sync => Cmd::Sync(id),
    }
}

/// The commands that make a device report a sequence of events. Without a device there are none.
pub open spec fn event_cmds(id: Option<u64>, events: Seq<Event>) -> Seq<Cmd> {
    match id {
        Some(id) => events.map_values(|event: Event| event_cmd(id, event)),
        None => Seq::empty(),
    }
}

/// The queue after a device was told to report some events.
pub open spec fn sent(queue: Seq<Cmd>, id: Option<u64>, events: Seq<Event>) -> Seq<Cmd> {
    queue + event_cmds(id, events)
}

/// The end of a group of events, if there are any.
pub open spec fn sync_if_any(events: Seq<Event>) -> Seq<Event> {
    if events.len() > 0 {
        events.push(Event::Sync)
    } else {
        events
    }
}

/// To send one run of events and then another is to send both as one run.
pub proof fn sent_in_parts(queue: Seq<Cmd>, id: Option<u64>, a: Seq<Event>, b: Seq<Event>)
    ensures
        sent(sent(queue, id, a), id, b) == sent(queue, id, a + b),
{
    assert(sent(sent(queue, id, a), id, b) =~= sent(queue, id, a + b));
}

/// The queue after a device was created at the time `now`, or after none was.
pub open spec fn spawned(queue: Seq<Cmd>, created: bool, id: u64, now: u64) -> Seq<Cmd> {
    if created {
        queue.push(Cmd::Add(id, (now + CREATE_DELAY) as u64))
    } else {
        queue
    }
}

/// A handle to an optional uinput device. The order of events is preserved
/// across all devices, and events are only emitted after waiting a bit for them
/// to be discovered. If None, all events are ignored immediately.
pub struct Device {
    id: Option<u64>,
}

impl Device {
    /// The number of the device in commands.
    pub closed spec fn id(self) -> Option<u64> {
        self.id
    }

    /// A handle to the device that was created at the time `now`, or, where none could be
    /// created, one that ignores everything.
    pub fn spawn(created: bool, ids: &mut Counter, queue: &mut Queue, now: u64) -> (dev: Self)
        requires
            created ==> now + CREATE_DELAY <= u64::MAX,
        ensures
            dev.id() == (if created {
                Some(old(ids).next())
            } else {
                None
            }),
            final(ids).next() == (if created {
                successor(old(ids).next())
            } else {
                old(ids).next()
            }),
            final(queue)@ == spawned(old(queue)@, created, old(ids).next(), now),
    {
        if !created {
            return Self { id: None };
        }
        let id: u64 = ids.fetch();
        queue.send(Cmd::Add(id, now + CREATE_DELAY));
        Self { id: Some(id) }
    }

    /// The number of the device in commands.
    pub fn handle(&self) -> (id: Option<u64>)
        ensures
            id == self.id(),
    {
        self.id
    }

    pub fn emit(&self, queue: &mut Queue, ty: u16, code: u16, value: i32)
        ensures
            final(queue)@ == sent(
                old(queue)@,
                self.id(),
                seq![Event::Emit(ty, code, value)],
            ),
    {
        if let Some(id) = self.id {
            queue.send(Cmd::Emit(id, ty, code, value));
        }
        assert(queue@ =~= sent(old(queue)@, self.id(), seq![Event::Emit(ty, code, value)]));
    }

    pub fn sync(&self, queue: &mut Queue)
        ensures
            final(queue)@ == sent(old(queue)@, self.id(), seq![Event::Sync]),
    {
        if let Some(id) = self.id {
            queue.send(Cmd::Sync(id));
        }
        assert(queue@ =~= sent(old(queue)@, self.id(), seq![Event::Sync]));
    }

    /// Gives the device up. The command is queued after any release events emitted during
    /// teardown, so they are applied before the device is destroyed.
    pub fn remove(self, queue: &mut Queue)
        ensures
            self.id() matches Some(id) ==> final(queue)@ == old(queue)@.push(Cmd::Remove(id)),
            self.id() is None ==> final(queue)@ == old(queue)@,
    {
        if let Some(id) = self.id {
            queue.send(Cmd::Remove(id));
        }
    }
}

/// Asks for word when everything that was sent so far has been carried out: the emitter answers
/// with [`Action::Drained`] and the token.
pub fn drain(queue: &mut Queue, token: u64)
    ensures
        final(queue)@ == old(queue)@.push(Cmd::Drain(token)),
{
    queue.send(Cmd::Drain(token));
}

/// What is to be done about a command.
#[derive(Clone, Copy, Debug, PartialEq, Eq, Structural)]
pub enum Action {
    /// Keep the device under this number. A device that was kept under it is destroyed.
    Keep(u64),
    /// Destroy the device.
    Destroy(u64),
    /// Wait for some nanoseconds, then write an event (type, code, value) to the device.
    Write(u64, u64, u16, u16, i32),
    /// Report to whoever waits for the token.
    Drained(u64),
    /// Nothing.
    Ignore,
}

/// How long it is until the time `t`; 0 if that has come.
pub open spec fn time_until(t: u64, now: u64) -> u64 {
    if t > now {
        (t - now) as u64
    } else {
        0
    }
}

/// How long to wait until the time `t`. It is only ever more than 0 right after a device was
/// created; in steady state every device is long past its deadline.
pub fn wait_until(t: u64, now: u64) -> (wait: u64)
    ensures
        wait == time_until(t, now),
{
    if t > now {
        t - now
    } else {
        0
    }
}

/// What is to be done about a command, given for each device from which time on it can be
/// written to.
pub open spec fn emitter_action(devices: Map<u64, u64>, cmd: Cmd, now: u64) -> Action {
    match cmd {
        Cmd::Add(id, _) => Action::Keep(id),
        Cmd::Remove(id) => if devices.contains_key(id) {
            Action::Destroy(id)
        } else {
            Action::Ignore
        },
        Cmd::Emit(id, ty, code, value) => if devices.contains_key(id) {
            Action::Write(id, time_until(devices[id], now), ty, code, value)
        } else {
            Action::Ignore
        },
        Cmd::Sync(id) => if devices.contains_key(id) {
            Action::Write(id, time_until(devices[id], now), EV_SYN, SYN_REPORT, 0)
        } else {
            Action::Ignore
        },
        Cmd::Drain(token) => Action::Drained(token),
    }
}

/// The devices that there are after a command.
pub open spec fn emitter_devices(devices: Map<u64, u64>, cmd: Cmd) -> Map<u64, u64> {
    match cmd {
        Cmd::Add(id, start) => devices.insert(id, start),
        Cmd::Remove(id) => devices.remove(id),
        _ => devices,
    }
}

/// The devices that there are, each with the time from which on it can be written to.
pub struct Emitter {
    devices: HashMap<u64, u64>,
}

impl View for Emitter {
    type V = Map<u64, u64>;

    closed spec fn view(&self) -> Map<u64, u64> {
        self.devices@
    }
}

impl Emitter {
    pub fn new() -> (emitter: Self)
        ensures
            emitter@ == Map::<u64, u64>::empty(),
    {
        Self { devices: HashMap::new() }
    }

    /// Takes one command at the time `now`.
    pub fn step(&mut self, cmd: Cmd, now: u64) -> (action: Action)
        ensures
            action == emitter_action(old(self)@, cmd, now),
            final(self)@ == emitter_devices(old(self)@, cmd),
    {
        match cmd {
            Cmd::Add(id, start) => {
                self.devices.insert(id, start);
                Action::Keep(id)
            },
            Cmd::Remove(id) => {
                let known = self.devices.remove(&id);
                assert(known is None ==> old(self)@.remove(id) =~= old(self)@);
                match known {
                    Some(_) => Action::Destroy(id),
                    None => Action::Ignore,
                }
            },
            Cmd::Emit(id, ty, code, value) => match self.devices.get(&id) {
                Some(ready_at) => Action::Write(id, wait_until(*ready_at, now), ty, code, value),
                None => Action::Ignore,
            },
            Cmd::Sync(id) => match self.devices.get(&id) {
                Some(ready_at) => Action::Write(
                    id,
                    wait_until(*ready_at, now),
                    EV_SYN,
                    SYN_REPORT,
                    0,
                ),
                None => Action::Ignore,
            },
            Cmd::Drain(token) => Action::Drained(token),
        }
    }
}

/// The decimal digit.
pub open spec fn digit_char(d: int) -> char {
    (48 + d) as char
}

/// A number in decimal.
pub open spec fn decimal(n: nat) -> Seq<char>
    decreases n,
{
    if n < 10 {
        seq![digit_char(n as int)]
    } else {
        decimal(n / 10).push(digit_char((n % 10) as int))
    }
}

fn digit(d: u64) -> (s: &'static str)
    requires
        d < 10,
    ensures
        s@ == seq![digit_char(d as int)],
{
    proof {
        reveal_strlit("0");
        reveal_strlit("1");
        reveal_strlit("2");
        reveal_strlit("3");
        reveal_strlit("4");
        reveal_strlit("5");
        reveal_strlit("6");
        reveal_strlit("7");
        reveal_strlit("8");
        reveal_strlit("9");
    }
    let s = if d == 0 {
        "0"
    } else if d == 1 {
        "1"
    } else if d == 2 {
        "2"
    } else if d == 3 {
        "3"
    } else if d == 4 {
        "4"
    } else if d == 5 {
        "5"
    } else if d == 6 {
        "6"
    } else if d == 7 {
        "7"
    } else if d == 8 {
        "8"
    } else {
        "9"
    };
    assert(s@ =~= seq![digit_char(d as int)]);
    s
}

fn append_decimal(s: &mut String, n: u64)
    ensures
        final(s)@ == old(s)@ + decimal(n as nat),
    decreases n,
{
    if n >= 10 {
        append_decimal(s, n / 10);
    }
    s.append(digit(n % 10));
    assert(s@ =~= old(s)@ + decimal(n as nat));
}

/// A name that ends in a number.
pub fn numbered_name(prefix: &str, n: u64) -> (name: String)
    ensures
        name@ == prefix@ + decimal(n as nat),
{
    let mut name = String::from_str(prefix);
    append_decimal(&mut name, n);
    name
}

} // verus!
