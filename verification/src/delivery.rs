//! What becomes of the commands that are sent: in which order, when, and to which devices the
//! events are written.

use crate::uinput;
use crate::uinput::{Action, Cmd, DeviceSetup, Event, EV_SYN, NAME_SIZE, SYN_REPORT};
use vstd::prelude::*;

verus! {

/// The devices that there are after a run of commands.
pub open spec fn devices_after(devices: Map<u64, u64>, cmds: Seq<Cmd>) -> Map<u64, u64>
    decreases cmds.len(),
{
    if cmds.len() == 0 {
        devices
    } else {
        uinput::emitter_devices(devices_after(devices, cmds.drop_last()), cmds.last())
    }
}

/// What is done about a run of commands, the `i`-th of which is taken at the time `times[i]`.
pub open spec fn actions(devices: Map<u64, u64>, cmds: Seq<Cmd>, times: Seq<u64>) -> Seq<Action> {
    Seq::new(
        cmds.len(),
        |i: int|
            uinput::emitter_action(devices_after(devices, cmds.take(i)), cmds[i], times[i]),
    )
}

/// The command adds the device.
pub open spec fn adds(cmd: Cmd, id: u64) -> bool {
    cmd matches Cmd::Add(to, _) && to == id
}

/// The command writes something to the device.
pub open spec fn writes_to(cmd: Cmd, id: u64) -> bool {
    match cmd {
        Cmd::Emit(to, _, _, _) => to == id,
        Cmd::Sync(to) => to == id,
        _ => false,
    }
}

/// The command writes something to one of the devices.
pub open spec fn writes(cmd: Cmd, devices: Map<u64, u64>) -> bool {
    match cmd {
        Cmd::Emit(to, _, _, _) => devices.contains_key(to),
        Cmd::Sync(to) => devices.contains_key(to),
        _ => false,
    }
}

/// The action carries out a command to write: to the same device, the same event. The end of a
/// group of events is the event `SYN_REPORT`.
pub open spec fn carries_out(action: Action, cmd: Cmd) -> bool {
    match (action, cmd) {
        (Action::Write(to, _, ty, code, value), Cmd::Emit(id, t, c, v)) => to == id && ty == t
            && code == c && value == v,
        (Action::Write(to, _, ty, code, value), Cmd::Sync(id)) => to == id && ty == EV_SYN && code
            == SYN_REPORT && value == 0,
        _ => false,
    }
}

/// A run of commands is taken like two runs, one after the other.
pub proof fn devices_after_parts(devices: Map<u64, u64>, a: Seq<Cmd>, b: Seq<Cmd>)
    ensures
        devices_after(devices, a + b) == devices_after(devices_after(devices, a), b),
    decreases b.len(),
{
    if b.len() == 0 {
        assert(a + b =~= a);
    } else {
        assert((a + b).drop_last() =~= a + b.drop_last());
        assert((a + b).last() == b.last());
        devices_after_parts(devices, a, b.drop_last());
    }
}

/// To write events changes nothing about the devices.
pub proof fn writing_keeps_devices(devices: Map<u64, u64>, cmds: Seq<Cmd>)
    requires
        forall|i: int| 0 <= i < cmds.len() ==> writes(#[trigger] cmds[i], devices),
    ensures
        devices_after(devices, cmds) == devices,
    decreases cmds.len(),
{
    if cmds.len() > 0 {
        assert forall|i: int| 0 <= i < cmds.len() - 1 implies writes(
            #[trigger] cmds.drop_last()[i],
            devices,
        ) by {
            assert(cmds.drop_last()[i] == cmds[i]);
        }
        writing_keeps_devices(devices, cmds.drop_last());
        assert(writes(cmds[cmds.len() - 1], devices));
    }
}

/// The order of events is preserved across all devices: of a run of events for devices that there
/// are, each is written, in the order in which they were sent.
pub proof fn order_is_preserved(devices: Map<u64, u64>, cmds: Seq<Cmd>, times: Seq<u64>)
    requires
        forall|i: int| 0 <= i < cmds.len() ==> writes(#[trigger] cmds[i], devices),
    ensures
        actions(devices, cmds, times).len() == cmds.len(),
        forall|i: int|
            0 <= i < cmds.len() ==> carries_out(
                #[trigger] actions(devices, cmds, times)[i],
                cmds[i],
            ),
{
    assert forall|i: int| 0 <= i < cmds.len() implies carries_out(
        #[trigger] actions(devices, cmds, times)[i],
        cmds[i],
    ) by {
        let before = cmds.take(i);
        assert forall|j: int| 0 <= j < before.len() implies writes(
            #[trigger] before[j],
            devices,
        ) by {
            assert(before[j] == cmds[j]);
        }
        writing_keeps_devices(devices, before);
        assert(writes(cmds[i], devices));
    }
}

/// Nothing is written to a device before it is ready: at the end of the wait its time has come.
/// Nor is there any wait beyond that.
pub proof fn nothing_is_written_early(devices: Map<u64, u64>, cmd: Cmd, now: u64)
    ensures
        uinput::emitter_action(devices, cmd, now) matches Action::Write(id, wait, _, _, _) ==> {
            &&& devices.contains_key(id)
            &&& now + wait == if now < devices[id] {
                devices[id]
            } else {
                now
            }
        },
{
}

/// Where a run of commands does not mention a device, it leaves the device as it was.
pub proof fn other_devices_are_kept(devices: Map<u64, u64>, cmds: Seq<Cmd>, id: u64)
    requires
        forall|i: int| 0 <= i < cmds.len() ==> !adds(#[trigger] cmds[i], id),
        !cmds.contains(Cmd::Remove(id)),
    ensures
        devices_after(devices, cmds).contains_key(id) == devices.contains_key(id),
        devices.contains_key(id) ==> devices_after(devices, cmds)[id] == devices[id],
    decreases cmds.len(),
{
    if cmds.len() > 0 {
        let n = cmds.len() - 1;
        assert forall|i: int| 0 <= i < n implies !adds(#[trigger] cmds.drop_last()[i], id) by {
            assert(cmds.drop_last()[i] == cmds[i]);
        }
        assert(!cmds.drop_last().contains(Cmd::Remove(id))) by {
            if cmds.drop_last().contains(Cmd::Remove(id)) {
                let i = choose|i: int| 0 <= i < n && cmds.drop_last()[i] == Cmd::Remove(id);
                assert(cmds[i] == Cmd::Remove(id));
            }
        }
        other_devices_are_kept(devices, cmds.drop_last(), id);
        assert(!adds(cmds[n], id));
    }
}

/// Nothing is written to a device in the first [`uinput::CREATE_DELAY`] after it was created,
/// whatever else is sent in between.
pub proof fn new_device_is_given_time(
    devices: Map<u64, u64>,
    id: u64,
    created: u64,
    between: Seq<Cmd>,
    cmd: Cmd,
    now: u64,
)
    requires
        created + uinput::CREATE_DELAY <= u64::MAX,
        writes_to(cmd, id),
        forall|i: int| 0 <= i < between.len() ==> !adds(#[trigger] between[i], id),
        !between.contains(Cmd::Remove(id)),
    ensures
        uinput::emitter_action(
            devices_after(devices, uinput::spawned(seq![], true, id, created) + between),
            cmd,
            now,
        ) matches Action::Write(to, wait, _, _, _) && to == id && now + wait >= created
            + uinput::CREATE_DELAY,
{
    let add = Cmd::Add(id, (created + uinput::CREATE_DELAY) as u64);
    let first = uinput::spawned(seq![], true, id, created);
    assert(first =~= seq![add]);
    assert(first.drop_last() =~= seq![]);
    assert(devices_after(devices, first.drop_last()) == devices);
    devices_after_parts(devices, first, between);
    other_devices_are_kept(devices_after(devices, first), between, id);
}

/// A device that was removed is not written to any more, and neither is one that never was added.
pub proof fn removed_device_is_ignored(
    devices: Map<u64, u64>,
    id: u64,
    between: Seq<Cmd>,
    cmd: Cmd,
    now: u64,
)
    requires
        !devices.contains_key(id),
        writes_to(cmd, id) || cmd == Cmd::Remove(id),
        forall|i: int| 0 <= i < between.len() ==> !adds(#[trigger] between[i], id),
    ensures
        uinput::emitter_action(devices_after(devices, between), cmd, now) == Action::Ignore,
{
    stays_away(devices, id, between);
}

proof fn stays_away(devices: Map<u64, u64>, id: u64, cmds: Seq<Cmd>)
    requires
        !devices.contains_key(id),
        forall|i: int| 0 <= i < cmds.len() ==> !adds(#[trigger] cmds[i], id),
    ensures
        !devices_after(devices, cmds).contains_key(id),
    decreases cmds.len(),
{
    if cmds.len() > 0 {
        let n = cmds.len() - 1;
        assert forall|i: int| 0 <= i < n implies !adds(#[trigger] cmds.drop_last()[i], id) by {
            assert(cmds.drop_last()[i] == cmds[i]);
        }
        stays_away(devices, id, cmds.drop_last());
        assert(!adds(cmds[n], id));
    }
}

/// What a device is told to report before it is given up is written before it is destroyed.
pub proof fn destroyed_after_last_event(
    devices: Map<u64, u64>,
    id: u64,
    events: Seq<Event>,
    times: Seq<u64>,
)
    requires
        devices.contains_key(id),
    ensures
        ({
            let queue = uinput::sent(seq![], Some(id), events).push(Cmd::Remove(id));
            let done = actions(devices, queue, times);
            &&& done.len() == events.len() + 1
            &&& forall|i: int|
                0 <= i < events.len() ==> carries_out(
                    #[trigger] done[i],
                    uinput::event_cmd(id, events[i]),
                )
            &&& done.last() == Action::Destroy(id)
            &&& devices_after(devices, queue) == devices.remove(id)
        }),
{
    let cmds = uinput::sent(seq![], Some(id), events);
    let queue = cmds.push(Cmd::Remove(id));
    let done = actions(devices, queue, times);
    assert(cmds =~= uinput::event_cmds(Some(id), events));
    assert forall|i: int| 0 <= i < cmds.len() implies writes(#[trigger] cmds[i], devices) by {
        assert(cmds[i] == uinput::event_cmd(id, events[i]));
    }
    order_is_preserved(devices, cmds, times);
    assert forall|i: int| 0 <= i < events.len() implies carries_out(
        #[trigger] done[i],
        uinput::event_cmd(id, events[i]),
    ) by {
        assert(queue.take(i) =~= cmds.take(i));
        assert(done[i] == actions(devices, cmds, times)[i]);
        assert(cmds[i] == uinput::event_cmd(id, events[i]));
    }
    writing_keeps_devices(devices, cmds);
    assert(queue.take(cmds.len() as int) =~= cmds);
    assert(queue.drop_last() =~= cmds);
}

/// Word that everything was carried out comes after all that was sent before it was asked for.
pub proof fn drained_comes_last(
    devices: Map<u64, u64>,
    queue: Seq<Cmd>,
    token: u64,
    times: Seq<u64>,
)
    ensures
        ({
            let done = actions(devices, queue.push(Cmd::Drain(token)), times);
            &&& done == actions(devices, queue, times).push(Action::Drained(token))
            &&& devices_after(devices, queue.push(Cmd::Drain(token))) == devices_after(
                devices,
                queue,
            )
        }),
{
    let all = queue.push(Cmd::Drain(token));
    let done = actions(devices, all, times);
    assert forall|i: int| 0 <= i < queue.len() implies done[i] == actions(
        devices,
        queue,
        times,
    )[i] by {
        assert(all.take(i) =~= queue.take(i));
    }
    assert(done =~= actions(devices, queue, times).push(Action::Drained(token)));
    assert(all.drop_last() =~= queue);
}

/// Without a device, all events are ignored.
pub proof fn no_device_sends_nothing(queue: Seq<Cmd>, events: Seq<Event>)
    ensures
        uinput::sent(queue, None, events) == queue,
{
    assert(uinput::sent(queue, None, events) =~= queue);
}

/// The number that is handed out `k` numbers later.
pub open spec fn number_after(n: u64, k: nat) -> u64
    decreases k,
{
    if k == 0 {
        n
    } else {
        uinput::successor(number_after(n, (k - 1) as nat))
    }
}

proof fn number_after_is_sum(n: u64, k: nat)
    ensures
        number_after(n, k) as int == (n + k) % 0x1_0000_0000_0000_0000,
    decreases k,
{
    if k > 0 {
        number_after_is_sum(n, (k - 1) as nat);
    }
}

/// No two devices, out of as many as there are numbers, have the same number.
pub proof fn numbers_differ(n: u64, j: nat, k: nat)
    requires
        j < k <= j + u64::MAX,
    ensures
        number_after(n, j) != number_after(n, k),
{
    number_after_is_sum(n, j);
    number_after_is_sum(n, k);
}

/// The name in a device description always ends in a NUL, and is cut off only where it does not
/// fit.
pub proof fn name_is_terminated(name: Seq<u8>)
    ensures
        uinput::name_field(name).len() == NAME_SIZE,
        uinput::name_field(name).last() == 0,
        name.len() < NAME_SIZE ==> uinput::name_field(name).take(name.len() as int) == name,
        name.len() >= NAME_SIZE ==> uinput::name_field(name).take(NAME_SIZE - 1) == name.take(
            NAME_SIZE - 1,
        ),
{
    if name.len() < NAME_SIZE {
        assert(uinput::name_field(name).take(name.len() as int) =~= name);
    } else {
        assert(uinput::name_field(name).take(NAME_SIZE - 1) =~= name.take(NAME_SIZE - 1));
    }
}

proof fn decimal_has_digits(n: nat)
    ensures
        uinput::decimal(n).len() >= 1,
        n >= 10 ==> uinput::decimal(n).len() >= 2,
        uinput::decimal(n).last() == uinput::digit_char((n % 10) as int),
{
    if n >= 10 {
        assert(uinput::decimal(n / 10).len() >= 1);
    }
}

proof fn decimal_differs(m: nat, n: nat)
    requires
        m != n,
    ensures
        uinput::decimal(m) != uinput::decimal(n),
    decreases m,
{
    let a = uinput::decimal(m);
    let b = uinput::decimal(n);
    decimal_has_digits(m);
    decimal_has_digits(n);
    if m >= 10 && n >= 10 && m / 10 != n / 10 {
        decimal_differs(m / 10, n / 10);
        assert(a.drop_last() =~= uinput::decimal(m / 10));
        assert(b.drop_last() =~= uinput::decimal(n / 10));
    }
}

/// Devices of one kind with different numbers have different names.
pub proof fn names_differ(prefix: Seq<char>, m: nat, n: nat)
    requires
        m != n,
    ensures
        prefix + uinput::decimal(m) != prefix + uinput::decimal(n),
{
    decimal_differs(m, n);
    let a = prefix + uinput::decimal(m);
    let b = prefix + uinput::decimal(n);
    assert(a.skip(prefix.len() as int) =~= uinput::decimal(m));
    assert(b.skip(prefix.len() as int) =~= uinput::decimal(n));
}

/// The codes are those of the kernel's headers, and the device identifies itself by its numbers.
pub proof fn kernel_codes()
    ensures
        uinput::EV_SYN == 0 && uinput::EV_KEY == 1 && uinput::EV_REL == 2 && uinput::EV_ABS == 3,
        uinput::SYN_REPORT == 0,
        uinput::REL_HWHEEL == 6 && uinput::REL_WHEEL == 8,
        uinput::REL_WHEEL_HI_RES == 11 && uinput::REL_HWHEEL_HI_RES == 12,
        uinput::ABS_X == 0 && uinput::ABS_Y == 1,
        uinput::BTN_LEFT == 0x110 && uinput::BTN_TASK == 0x117,
        uinput::KEY_LEFTCTRL == 29 && uinput::KEY_LEFTSHIFT == 42 && uinput::KEY_LEFTALT == 56,
        uinput::KEY_CAPSLOCK == 58 && uinput::KEY_NUMLOCK == 69,
        uinput::KEY_RIGHTALT == 100 && uinput::KEY_LEFTMETA == 125,
        uinput::BUS_VIRTUAL == 6 && uinput::VENDOR == 0x1234 && uinput::PRODUCT == 0x5678,
        uinput::VERSION == 1 && NAME_SIZE == 80,
        uinput::ABS_MAX_VAL == 65535,
        uinput::CREATE_DELAY == 150_000_000,
{
}

/// A device that is identified by a name is virtual, has our numbers, and has the name.
pub proof fn identity_of_a_device(setup: DeviceSetup, name: Seq<char>)
    ensures
        uinput::identifies(setup, name) <==> {
            let bytes = vstd::utf8::encode_utf8(name);
            &&& setup.bustype == 6 && setup.vendor == 0x1234 && setup.product == 0x5678
                && setup.version == 1
            &&& setup.name@.len() == 80
            &&& forall|i: int|
                0 <= i < 80 ==> #[trigger] setup.name@[i] == if i < bytes.len() && i < 79 {
                    bytes[i]
                } else {
                    0
                }
        },
{
    let bytes = vstd::utf8::encode_utf8(name);
    let field = uinput::name_field(bytes);
    assert(field.len() == 80);
    assert(forall|i: int|
        0 <= i < 80 ==> #[trigger] field[i] == if i < bytes.len() && i < 79 {
            bytes[i]
        } else {
            0
        });
    if setup.name@.len() == 80 && forall|i: int|
        0 <= i < 80 ==> #[trigger] setup.name@[i] == if i < bytes.len() && i < 79 {
            bytes[i]
        } else {
            0
        } {
        assert(setup.name@ =~= field);
    }
}

/// An axis has the range that is asked for, starts at 0, and has no filters.
pub proof fn axis_has_its_range(code: u16, min: i32, max: i32)
    ensures
        ({
            let axis = uinput::axis_range(code, min, max);
            &&& axis.code == code && axis.minimum == min && axis.maximum == max
            &&& axis.value == 0 && axis.fuzz == 0 && axis.flat == 0 && axis.resolution == 0
        }),
{
}

/// Numbers are handed out one after the other, and start over after the last one.
pub proof fn numbers_are_consecutive(n: u64)
    ensures
        uinput::successor(n) as int == (n + 1) % 0x1_0000_0000_0000_0000,
{
}

/// What a device is told to report comes after everything that was sent before, event by event:
/// the same type, code and value, or the end of a group, for that device.
pub proof fn events_are_sent_as_they_are(queue: Seq<Cmd>, id: u64, events: Seq<Event>)
    ensures
        ({
            let sent = uinput::sent(queue, Some(id), events);
            &&& sent.len() == queue.len() + events.len()
            &&& sent.take(queue.len() as int) == queue
            &&& forall|i: int|
                0 <= i < events.len() ==> match #[trigger] events[i] {
                    Event::Emit(ty, code, value) => sent[queue.len() + i] == Cmd::Emit(
                        id,
                        ty,
                        code,
                        value,
                    ),
                    Event::Sync => sent[queue.len() + i] == Cmd::Sync(id),
                }
        }),
{
    let sent = uinput::sent(queue, Some(id), events);
    assert(sent.take(queue.len() as int) =~= queue);
    assert forall|i: int| 0 <= i < events.len() implies sent[queue.len() + i] == uinput::event_cmd(
        id,
        #[trigger] events[i],
    ) by {}
}

/// A group of events ends in a sync, and no group is no group.
pub proof fn groups_end_in_sync(events: Seq<Event>)
    ensures
        events.len() == 0 ==> uinput::sync_if_any(events).len() == 0,
        events.len() > 0 ==> uinput::sync_if_any(events).drop_last() == events
            && uinput::sync_if_any(events).last() == Event::Sync,
{
    if events.len() > 0 {
        assert(uinput::sync_if_any(events).drop_last() =~= events);
    }
}

/// A device that was created is added after everything that was sent before, to be written to
/// 150 ms after it was created; one that was not is not.
pub proof fn created_devices_are_added(queue: Seq<Cmd>, id: u64, now: u64)
    requires
        now + 150_000_000 <= u64::MAX,
    ensures
        uinput::spawned(queue, false, id, now) == queue,
        uinput::spawned(queue, true, id, now).drop_last() == queue,
        uinput::spawned(queue, true, id, now).len() == queue.len() + 1,
        uinput::spawned(queue, true, id, now).last() matches Cmd::Add(to, start) && to == id
            && start == now + 150_000_000,
{
    assert(uinput::spawned(queue, true, id, now).drop_last() =~= queue);
}

/// Each command has its own effect and no other: what there is to be written is written to the
/// device it is meant for, if there is one, after it is ready; a device is kept when it is added
/// and destroyed when it is removed.
pub proof fn commands_are_carried_out(devices: Map<u64, u64>, cmd: Cmd, now: u64)
    ensures
        ({
            let action = uinput::emitter_action(devices, cmd, now);
            let next = uinput::emitter_devices(devices, cmd);
            match cmd {
                Cmd::Add(id, start) => {
                    &&& action == Action::Keep(id)
                    &&& next.contains_key(id) && next[id] == start
                    &&& next.remove(id) == devices.remove(id)
                },
                Cmd::Remove(id) => {
                    &&& action == (if devices.contains_key(id) {
                        Action::Destroy(id)
                    } else {
                        Action::Ignore
                    })
                    &&& !next.contains_key(id)
                    &&& forall|other: u64|
                        other != id ==> (#[trigger] next.contains_key(other)
                            <==> devices.contains_key(other)) && (devices.contains_key(other)
                            ==> next[other] == devices[other])
                },
                Cmd::Emit(id, ty, code, value) => {
                    &&& !devices.contains_key(id) ==> action == Action::Ignore
                    &&& devices.contains_key(id) ==> (action matches Action::Write(to, wait, t, c, v)
                        && to == id && t == ty && c == code && v == value && wait == (if now
                        < devices[id] {
                        devices[id] - now
                    } else {
                        0
                    }))
                    &&& next == devices
                },
                Cmd::Sync(id) => {
                    &&& !devices.contains_key(id) ==> action == Action::Ignore
                    &&& devices.contains_key(id) ==> (action matches Action::Write(to, wait, t, c, v)
                        && to == id && t == 0 && c == 0 && v == 0 && wait == (if now
                        < devices[id] {
                        devices[id] - now
                    } else {
                        0
                    }))
                    &&& next == devices
                },
                Cmd::Drain(token) => action == Action::Drained(token) && next == devices,
            }
        }),
{
    if let Cmd::Add(id, start) = cmd {
        assert(uinput::emitter_devices(devices, cmd).remove(id) =~= devices.remove(id));
    }
}

/// How long to wait is how long it is until a time, and nothing once that has come.
pub proof fn waits_are_exact(t: u64, now: u64)
    ensures
        now < t ==> now + uinput::time_until(t, now) == t,
        t <= now ==> uinput::time_until(t, now) == 0,
{
}

/// The number that a sequence of decimal digits stands for.
pub open spec fn number_of(digits: Seq<char>) -> int
    decreases digits.len(),
{
    if digits.len() == 0 {
        0
    } else {
        10 * number_of(digits.drop_last()) + (digits.last() as int - '0' as int)
    }
}

/// A number in decimal consists of digits, reads as the number, and has no leading zero.
pub proof fn decimal_reads_back(n: nat)
    ensures
        number_of(uinput::decimal(n)) == n,
        uinput::decimal(n).len() > 0,
        forall|i: int|
            0 <= i < uinput::decimal(n).len() ==> '0' <= #[trigger] uinput::decimal(n)[i] <= '9',
        n > 0 ==> uinput::decimal(n)[0] != '0',
        n == 0 ==> uinput::decimal(n).len() == 1,
    decreases n,
{
    let s = uinput::decimal(n);
    if n >= 10 {
        decimal_reads_back(n / 10);
        let rest = uinput::decimal(n / 10);
        assert(s.drop_last() =~= rest);
        assert(forall|i: int| 0 <= i < rest.len() ==> s[i] == rest[i]);
    } else {
        assert(s.drop_last() =~= Seq::<char>::empty());
        assert(number_of(s.drop_last()) == 0);
    }
}

} // verus!
