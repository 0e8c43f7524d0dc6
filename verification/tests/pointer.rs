use wl_uinput_proxy::pointer::{
    create_pointer_device, motion_scale, scale_abs, Axis, Pointer, PointerManager, Scroll, WheelSteps,
};
use wl_uinput_proxy::uinput::{
    Capability, Cmd, Counter, Device, Queue, ABS_MAX_VAL, ABS_X, ABS_Y, BTN_LEFT, BTN_TASK, CREATE_DELAY, EV_ABS,
    EV_KEY, EV_REL, REL_HWHEEL, REL_HWHEEL_HI_RES, REL_WHEEL, REL_WHEEL_HI_RES,
};

const NONE: WheelSteps = WheelSteps { notches: 0, hires: 0 };

const SYNC: Cmd = Cmd::Sync(0);

/// A pointer on device 0, with nothing in the queue.
fn new_pointer() -> (Pointer, Queue) {
    let mut ids = Counter::new();
    let mut queue = Queue::new();
    let dev = Device::spawn(true, &mut ids, &mut queue, 0);
    queue.take();
    (Pointer::new(dev), queue)
}

fn position(x: i32, y: i32) -> Vec<Cmd> {
    vec![Cmd::Emit(0, EV_ABS, ABS_X, x), Cmd::Emit(0, EV_ABS, ABS_Y, y), SYNC]
}

fn wheel(code: u16, value: i32) -> Cmd {
    Cmd::Emit(0, EV_REL, code, value)
}

#[test]
fn scale_abs_full_extent_is_the_maximum() {
    assert_eq!(scale_abs(1920, 1920), ABS_MAX_VAL);
    assert_eq!(scale_abs(0, 1920), 0);
    assert_eq!(scale_abs(960, 1920), 32767);
    assert_eq!(scale_abs(1, 3), 21845);
    assert_eq!(scale_abs(1, u32::MAX), 0);
}

#[test]
fn scale_abs_stays_on_the_axis() {
    assert_eq!(scale_abs(1921, 1920), ABS_MAX_VAL);
    assert_eq!(scale_abs(u32::MAX, 1), ABS_MAX_VAL);
    assert_eq!(scale_abs(u32::MAX, u32::MAX), ABS_MAX_VAL);
    assert!(scale_abs(10, 1000) <= scale_abs(11, 1000));
}

#[test]
fn scale_abs_without_an_extent() {
    assert_eq!(scale_abs(123, 0), 123);
    assert_eq!(scale_abs(65536, 0), ABS_MAX_VAL);
    assert_eq!(scale_abs(i32::MAX as u32, 0), ABS_MAX_VAL);
    assert_eq!(scale_abs(0x8000_0000, 0), 0);
    assert_eq!(scale_abs(u32::MAX, 0), 0);
}

#[test]
fn scale_of_relative_motion() {
    assert_eq!(motion_scale(0), (1, 1));
    assert_eq!(motion_scale(1920), (65535, 1920));
}

#[test]
fn pointer_starts_in_the_middle() {
    let (p, mut q) = new_pointer();
    p.emit_position(&mut q);
    assert_eq!(q.take(), position(32767, 32767));
    assert_eq!(p.extents(), (0, 0));
    assert_eq!(p.scrolled(), (0, 0));
}

#[test]
fn absolute_motion() {
    let (mut p, mut q) = new_pointer();
    p.handle_motion_absolute(&mut q, 50, 1080, 100, 1080);
    assert_eq!(q.take(), position(32767, 65535));
    assert_eq!(p.extents(), (100, 1080));
    p.handle_motion_absolute(&mut q, 5, 200, 0, 100);
    assert_eq!(q.take(), position(5, 65535));
    assert_eq!(p.extents(), (0, 100));
}

#[test]
fn relative_motion_stays_on_the_axes() {
    let (mut p, mut q) = new_pointer();
    p.handle_motion(&mut q, 10, -10);
    assert_eq!(q.take(), position(32777, 32757));
    p.handle_motion(&mut q, 40_000, -40_000);
    assert_eq!(q.take(), position(65535, 0));
    p.handle_motion(&mut q, -1, 1);
    assert_eq!(q.take(), position(65534, 1));
    assert!(p.can_handle_motion(i32::MAX - 65534, i32::MIN));
    assert!(!p.can_handle_motion(i32::MAX - 65533, 0));
}

#[test]
fn known_buttons() {
    let (p, mut q) = new_pointer();
    assert!(p.handle_button(&mut q, 0x110, true));
    assert_eq!(q.take(), vec![Cmd::Emit(0, EV_KEY, BTN_LEFT, 1), SYNC]);
    assert!(p.handle_button(&mut q, 0x117, false));
    assert_eq!(q.take(), vec![Cmd::Emit(0, EV_KEY, BTN_TASK, 0), SYNC]);
    for button in [0, 0x10f, 0x118, 0x1_0110] {
        assert!(!p.handle_button(&mut q, button, true));
    }
    assert_eq!(q.take(), vec![]);
}

#[test]
fn discrete_steps_are_reported_as_notches() {
    let (mut p, mut q) = new_pointer();
    p.handle_axis_discrete(Axis::Vertical, 1);
    p.handle_axis_discrete(Axis::Vertical, 2);
    p.handle_frame(&mut q, NONE, NONE);
    assert_eq!(q.take(), vec![wheel(REL_WHEEL, -3), wheel(REL_WHEEL_HI_RES, -360), SYNC]);
    p.handle_axis_discrete(Axis::Horizontal, -2);
    p.handle_frame(&mut q, NONE, NONE);
    assert_eq!(q.take(), vec![wheel(REL_HWHEEL, -2), wheel(REL_HWHEEL_HI_RES, -240), SYNC]);
    // a frame reports once
    p.handle_frame(&mut q, NONE, NONE);
    assert_eq!(q.take(), vec![]);
}

#[test]
fn continuous_distances_are_reported_as_rounded() {
    let (mut p, mut q) = new_pointer();
    p.handle_axis(Axis::Vertical, 2000);
    p.handle_axis(Axis::Vertical, 1840);
    p.handle_axis(Axis::Horizontal, -100);
    p.handle_axis(Axis::Other, 77);
    assert_eq!(p.scrolled(), (3840, -100));
    p.handle_frame(
        &mut q,
        WheelSteps { notches: 1, hires: 120 },
        WheelSteps { notches: 0, hires: -3 },
    );
    assert_eq!(
        q.take(),
        vec![wheel(REL_WHEEL, -1), wheel(REL_WHEEL_HI_RES, -120), wheel(REL_HWHEEL_HI_RES, -3), SYNC]
    );
    assert_eq!(p.scrolled(), (0, 0));
}

#[test]
fn discrete_steps_and_distances_do_not_add_up() {
    let (mut p, mut q) = new_pointer();
    p.handle_axis(Axis::Horizontal, 3840);
    p.handle_axis_discrete(Axis::Horizontal, 5);
    p.handle_frame(&mut q, NONE, WheelSteps { notches: 1, hires: 120 });
    assert_eq!(q.take(), vec![wheel(REL_HWHEEL, 5), wheel(REL_HWHEEL_HI_RES, 120), SYNC]);
    // no steps, but reported as such
    p.handle_axis(Axis::Horizontal, 3840);
    p.handle_axis_discrete(Axis::Horizontal, 0);
    p.handle_frame(&mut q, NONE, WheelSteps { notches: 1, hires: 120 });
    assert_eq!(q.take(), vec![wheel(REL_HWHEEL_HI_RES, 120), SYNC]);
}

#[test]
fn unknown_axes_are_ignored() {
    let (mut p, mut q) = new_pointer();
    p.handle_axis_discrete(Axis::Other, 5);
    p.handle_frame(&mut q, NONE, NONE);
    assert_eq!(q.take(), vec![]);
}

#[test]
fn distances_do_not_overflow() {
    let (mut p, _q) = new_pointer();
    p.handle_axis(Axis::Vertical, i32::MAX);
    p.handle_axis(Axis::Vertical, i32::MAX);
    p.handle_axis(Axis::Vertical, 2);
    assert_eq!(p.scrolled(), (1 << 32, 0));
}

#[test]
fn steps_that_cannot_be_reported() {
    let (mut p, _q) = new_pointer();
    p.handle_axis_discrete(Axis::Vertical, i32::MAX);
    assert!(!p.can_handle_axis_discrete(Axis::Vertical, 1));
    assert!(p.can_handle_axis_discrete(Axis::Horizontal, 1));
    assert!(p.can_handle_axis_discrete(Axis::Other, i32::MAX));
    assert!(!p.can_handle_frame(NONE, NONE));
    p.reset_axis();
    assert!(p.can_handle_frame(NONE, NONE));
    p.handle_axis(Axis::Vertical, -1);
    assert!(!p.can_handle_frame(WheelSteps { notches: 0, hires: i32::MIN }, NONE));
    assert!(p.can_handle_frame(NONE, WheelSteps { notches: i32::MIN, hires: 0 }));
}

#[test]
fn axis_is_flushed_in_its_direction() {
    let (p, mut q) = new_pointer();
    let scroll = Scroll { cont: 0, disc: 1, has_disc: true };
    assert!(p.flush_axis(&mut q, scroll, NONE, 1, 2, true));
    assert_eq!(q.take(), vec![wheel(1, -1), wheel(2, -120)]);
    assert!(p.flush_axis(&mut q, scroll, NONE, 1, 2, false));
    assert_eq!(q.take(), vec![wheel(1, 1), wheel(2, 120)]);
    let nothing = Scroll { cont: 0, disc: 0, has_disc: false };
    assert!(!p.flush_axis(&mut q, nothing, NONE, 1, 2, true));
    assert_eq!(q.take(), vec![]);
}

#[test]
fn pointers_get_numbers_and_names() {
    let manager = PointerManager;
    let mut names = Counter::new();
    assert_eq!(manager.next_name(&mut names), "wl-uinput-proxy virtual pointer 0");
    assert_eq!(manager.next_name(&mut names), "wl-uinput-proxy virtual pointer 1");
    let mut ids = Counter::new();
    let mut queue = Queue::new();
    let p = manager.handle_create_virtual_pointer(true, &mut ids, &mut queue, 3);
    assert_eq!(queue.take(), vec![Cmd::Add(0, 3 + CREATE_DELAY)]);
    p.remove(&mut queue);
    assert_eq!(queue.take(), vec![Cmd::Remove(0)]);
    let silent = manager.handle_create_virtual_pointer(false, &mut ids, &mut queue, 3);
    silent.emit_position(&mut queue);
    silent.remove(&mut queue);
    assert_eq!(queue.take(), vec![]);
    assert_eq!(ids.fetch(), 1);
}

#[test]
fn pointer_device_has_buttons_wheels_and_axes() {
    let plan = create_pointer_device("p");
    let mut expected = vec![Capability::Event(EV_KEY)];
    for btn in BTN_LEFT..=BTN_TASK {
        expected.push(Capability::Key(btn));
    }
    expected.push(Capability::Event(EV_REL));
    for rel in [REL_WHEEL, REL_HWHEEL, REL_WHEEL_HI_RES, REL_HWHEEL_HI_RES] {
        expected.push(Capability::Rel(rel));
    }
    expected.push(Capability::Event(EV_ABS));
    expected.push(Capability::Abs(ABS_X));
    expected.push(Capability::Abs(ABS_Y));
    assert_eq!(plan.capabilities, expected);
    assert_eq!(plan.axes.len(), 2);
    for (axis, code) in plan.axes.iter().zip([ABS_X, ABS_Y]) {
        assert_eq!((axis.code, axis.value, axis.minimum, axis.maximum), (code, 0, 0, ABS_MAX_VAL));
        assert_eq!((axis.fuzz, axis.flat, axis.resolution), (0, 0, 0));
    }
}
