//! A virtual pointer.
//!
//! - position (`motion`, `motion_absolute`) -> `EV_ABS` `ABS_X`/`ABS_Y`
//! - scrolling (`axis`, `axis_discrete`) -> `EV_REL` low/high-res vertical/horizontal wheels
//! - buttons (`button`) -> `EV_KEY` `BTN_*`

use crate::uinput;
use crate::uinput::{
    AbsSetup, Capability, Counter, Device, DevicePlan, Event, Queue, UinputBuilder, ABS_MAX_VAL,
    ABS_X, ABS_Y, BTN_LEFT, BTN_TASK, EV_ABS, EV_KEY, EV_REL, REL_HWHEEL, REL_HWHEEL_HI_RES,
    REL_WHEEL, REL_WHEEL_HI_RES,
};
use vstd::prelude::*;

verus! {

/// Number of wayland axis units per wheel notch.
pub const WHEEL_NOTCH: u32 = 15;  // same as wlroots/libinput

/// High-resolution wheel units per wheel notch.
pub const HI_RES_NOTCH: i32 = 120;

/// A position that lies on an axis.
pub open spec fn clamp_abs(v: int) -> i32 {
    if v < 0 {
        0
    } else if v > ABS_MAX_VAL {
        ABS_MAX_VAL
    } else {
        v as i32
    }
}

/// Where a value out of an extent lies on an axis. Without an extent the value is a position on
/// the axis itself; one from the upper half of `u32` is taken for a negative number.
pub open spec fn scaled(value: u32, extent: u32) -> i32 {
    if extent == 0 {
        if value > i32::MAX {
            0
        } else {
            clamp_abs(value as int)
        }
    } else {
        clamp_abs(value * ABS_MAX_VAL / extent as int)
    }
}

/// Where a value out of an extent lies on an axis.
pub fn scale_abs(value: u32, extent: u32) -> (pos: i32)
    ensures
        pos == scaled(value, extent),
{
    if extent == 0 {
        return if value > i32::MAX as u32 {
            0
        } else if value > ABS_MAX_VAL as u32 {
            ABS_MAX_VAL
        } else {
            value as i32
        };
    }
    let product: u64 = value as u64 * ABS_MAX_VAL as u64;
    let quotient: u64 = product / extent as u64;
    if quotient > ABS_MAX_VAL as u64 {
        ABS_MAX_VAL
    } else {
        quotient as i32
    }
}

/// How many positions on an axis one step of relative motion is, as a fraction.
pub open spec fn step_scale(extent: u32) -> (u32, u32) {
    if extent > 0 {
        (ABS_MAX_VAL as u32, extent)
    } else {
        (1, 1)
    }
}

/// How many positions on an axis one step of relative motion is, as a numerator and a
/// denominator, for the extent of the last absolute position.
pub fn motion_scale(extent: u32) -> (scale: (u32, u32))
    ensures
        scale == step_scale(extent),
{
    if extent > 0 {
        (ABS_MAX_VAL as u32, extent)
    } else {
        (1, 1)
    }
}

/// A scroll axis.
#[derive(Clone, Copy, Debug, PartialEq, Eq, Structural)]
pub enum Axis {
    Vertical,
    Horizontal,
    Other,
}

/// A continuous scroll distance, rounded to wheel notches and to high-resolution wheel units.
#[derive(Clone, Copy, Debug, PartialEq, Eq, Structural)]
pub struct WheelSteps {
    pub notches: i32,
    pub hires: i32,
}

/// What was scrolled along an axis since the last frame: the continuous distance in units of
/// 1/256, the discrete steps, and whether any discrete steps were reported.
#[derive(Clone, Copy, Debug, PartialEq, Eq, Structural)]
pub struct Scroll {
    pub cont: i64,
    pub disc: i32,
    pub has_disc: bool,
}

/// Nothing was scrolled.
pub open spec fn no_scroll() -> Scroll {
    Scroll { cont: 0, disc: 0, has_disc: false }
}

/// A sum that stays within `i64`.
pub open spec fn clamp_i64(v: int) -> i64 {
    if v > i64::MAX {
        i64::MAX
    } else if v < i64::MIN {
        i64::MIN
    } else {
        v as i64
    }
}

/// A distance in the direction that a wheel reports.
pub open spec fn directed(distance: int, negate: bool) -> i32 {
    (if negate {
        -distance
    } else {
        distance
    }) as i32
}

impl Scroll {
    /// The notches to report: the discrete steps, if there are any.
    pub open spec fn legacy(self, steps: WheelSteps) -> int {
        if self.has_disc {
            self.disc as int
        } else {
            steps.notches as int
        }
    }

    /// The high-resolution units to report: the continuous distance, if there is any.
    pub open spec fn hires(self, steps: WheelSteps) -> int {
        if self.cont != 0 {
            steps.hires as int
        } else {
            self.disc * HI_RES_NOTCH
        }
    }

    /// What is to be reported can be written as an event.
    pub open spec fn reportable(self, steps: WheelSteps, negate: bool) -> bool {
        &&& i32::MIN <= self.hires(steps) <= i32::MAX
        &&& negate ==> self.legacy(steps) != i32::MIN && self.hires(steps) != i32::MIN
    }

    pub open spec fn events(
        self,
        steps: WheelSteps,
        legacy_code: u16,
        hires_code: u16,
        negate: bool,
    ) -> Seq<Event> {
        (if self.legacy(steps) != 0 {
            seq![Event::Emit(EV_REL, legacy_code, directed(self.legacy(steps), negate))]
        } else {
            seq![]
        }) + (if self.hires(steps) != 0 {
            seq![Event::Emit(EV_REL, hires_code, directed(self.hires(steps), negate))]
        } else {
            seq![]
        })
    }

    /// Whether [`Pointer::flush_axis`] can report the axis.
    fn can_report(&self, steps: WheelSteps, negate: bool) -> (r: bool)
        ensures
            r == self.reportable(steps, negate),
    {
        let legacy: i32 = if self.has_disc {
            self.disc
        } else {
            steps.notches
        };
        let hires: i64 = if self.cont != 0 {
            steps.hires as i64
        } else {
            self.disc as i64 * HI_RES_NOTCH as i64
        };
        if hires < i32::MIN as i64 || hires > i32::MAX as i64 {
            return false;
        }
        !negate || (legacy != i32::MIN && hires != i32::MIN as i64)
    }

    fn add_cont(&mut self, value: i32)
        ensures
            *final(self) == (Scroll { cont: clamp_i64(old(self).cont + value), ..*old(self) }),
    {
        let cont: i64 = self.cont;
        let v: i64 = value as i64;
        self.cont = if v > 0 && cont > i64::MAX - v {
            i64::MAX
        } else if v < 0 && cont < i64::MIN - v {
            i64::MIN
        } else {
            cont + v
        };
    }
}

/// What a pointer knows.
pub struct PointerView {
    /// The device.
    pub id: Option<u64>,
    /// The current device position.
    pub abs_x: i32,
    pub abs_y: i32,
    /// The extents of the last absolute position.
    pub x_extent: u32,
    pub y_extent: u32,
    /// What was scrolled since the last frame.
    pub v: Scroll,
    pub h: Scroll,
}

/// A pointer that nothing has happened to. It is in the middle.
pub open spec fn new_pointer(id: Option<u64>) -> PointerView {
    PointerView {
        id,
        abs_x: (ABS_MAX_VAL / 2) as i32,
        abs_y: (ABS_MAX_VAL / 2) as i32,
        x_extent: 0,
        y_extent: 0,
        v: no_scroll(),
        h: no_scroll(),
    }
}

/// The events that report a position.
pub open spec fn position_events(x: i32, y: i32) -> Seq<Event> {
    seq![Event::Emit(EV_ABS, ABS_X, x), Event::Emit(EV_ABS, ABS_Y, y), Event::Sync]
}

/// The buttons that a pointer has.
pub open spec fn is_button(button: u32) -> bool {
    BTN_LEFT <= button <= BTN_TASK
}

impl PointerView {
    /// A relative motion does not leave the range of `i32` before the position is put back on
    /// the axis.
    pub open spec fn admits_motion(self, dx: i32, dy: i32) -> bool {
        &&& i32::MIN <= self.abs_x + dx <= i32::MAX
        &&& i32::MIN <= self.abs_y + dy <= i32::MAX
    }

    pub open spec fn motion(self, dx: i32, dy: i32) -> PointerView {
        PointerView {
            abs_x: clamp_abs(self.abs_x + dx),
            abs_y: clamp_abs(self.abs_y + dy),
            ..self
        }
    }

    pub open spec fn motion_absolute(
        self,
        x: u32,
        y: u32,
        x_extent: u32,
        y_extent: u32,
    ) -> PointerView {
        PointerView {
            abs_x: scaled(x, x_extent),
            abs_y: scaled(y, y_extent),
            x_extent,
            y_extent,
            ..self
        }
    }

    /// The number of discrete steps stays in range.
    pub open spec fn admits_discrete(self, axis: Axis, discrete: i32) -> bool {
        &&& axis == Axis::Vertical ==> i32::MIN <= self.v.disc + discrete <= i32::MAX
        &&& axis == Axis::Horizontal ==> i32::MIN <= self.h.disc + discrete <= i32::MAX
    }

    pub open spec fn axis(self, axis: Axis, value: i32) -> PointerView {
        match axis {
            Axis::Vertical => PointerView {
                v: Scroll { cont: clamp_i64(self.v.cont + value), ..self.v },
                ..self
            },
            Axis::Horizontal => PointerView {
                h: Scroll { cont: clamp_i64(self.h.cont + value), ..self.h },
                ..self
            },
            Axis::Other => self,
        }
    }

    pub open spec fn axis_discrete(self, axis: Axis, discrete: i32) -> PointerView {
        match axis {
            Axis::Vertical => PointerView {
                v: Scroll { disc: (self.v.disc + discrete) as i32, has_disc: true, ..self.v },
                ..self
            },
            Axis::Horizontal => PointerView {
                h: Scroll { disc: (self.h.disc + discrete) as i32, has_disc: true, ..self.h },
                ..self
            },
            Axis::Other => self,
        }
    }

    pub open spec fn admits_frame(self, v: WheelSteps, h: WheelSteps) -> bool {
        self.v.reportable(v, true) && self.h.reportable(h, false)
    }

    /// The events of a frame: the vertical wheel, whose direction is the opposite of wayland's,
    /// then the horizontal one.
    pub open spec fn frame_events(self, v: WheelSteps, h: WheelSteps) -> Seq<Event> {
        uinput::sync_if_any(
            self.v.events(v, REL_WHEEL, REL_WHEEL_HI_RES, true) + self.h.events(
                h,
                REL_HWHEEL,
                REL_HWHEEL_HI_RES,
                false,
            ),
        )
    }

    pub open spec fn reset(self) -> PointerView {
        PointerView { v: no_scroll(), h: no_scroll(), ..self }
    }
}

/// A virtual pointer.
pub struct Pointer {
    dev: Device,
    abs_x: i32,  // current device pos
    abs_y: i32,  // current device pos
    x_extent: u32,  // from last motion_absolute
    y_extent: u32,  // from last motion_absolute
    v: Scroll,  // acc
    h: Scroll,  // acc
}

impl View for Pointer {
    type V = PointerView;

    closed spec fn view(&self) -> PointerView {
        PointerView {
            id: self.dev.id(),
            abs_x: self.abs_x,
            abs_y: self.abs_y,
            x_extent: self.x_extent,
            y_extent: self.y_extent,
            v: self.v,
            h: self.h,
        }
    }
}

fn moved(pos: i32, delta: i32) -> (r: i32)
    requires
        i32::MIN <= pos + delta <= i32::MAX,
    ensures
        r == clamp_abs(pos + delta),
{
    let sum: i32 = pos + delta;
    if sum < 0 {
        0
    } else if sum > ABS_MAX_VAL {
        ABS_MAX_VAL
    } else {
        sum
    }
}

impl Pointer {
    pub fn new(dev: Device) -> (p: Self)
        ensures
            p@ == new_pointer(dev.id()),
    {
        Self {
            dev,
            abs_x: ABS_MAX_VAL / 2,
            abs_y: ABS_MAX_VAL / 2,
            x_extent: 0,
            y_extent: 0,
            v: Scroll { cont: 0, disc: 0, has_disc: false },
            h: Scroll { cont: 0, disc: 0, has_disc: false },
        }
    }

    pub fn emit_position(&self, queue: &mut Queue)
        ensures
            final(queue)@ == uinput::sent(
                old(queue)@,
                self@.id,
                position_events(self@.abs_x, self@.abs_y),
            ),
    {
        self.dev.emit(queue, EV_ABS, ABS_X, self.abs_x);
        self.dev.emit(queue, EV_ABS, ABS_Y, self.abs_y);
        self.dev.sync(queue);
        proof {
            let a = seq![Event::Emit(EV_ABS, ABS_X, self.abs_x)];
            let b = seq![Event::Emit(EV_ABS, ABS_Y, self.abs_y)];
            uinput::sent_in_parts(old(queue)@, self@.id, a, b);
            uinput::sent_in_parts(old(queue)@, self@.id, a + b, seq![Event::Sync]);
            assert(a + b + seq![Event::Sync] =~= position_events(self.abs_x, self.abs_y));
        }
    }

    /// Reports what was scrolled along an axis, and says whether there was anything.
    pub fn flush_axis(
        &self,
        queue: &mut Queue,
        scroll: Scroll,
        steps: WheelSteps,
        legacy_code: u16,
        hires_code: u16,
        negate: bool,  // wayland uses the opposite direction for the vertical axis
    ) -> (emitted: bool)
        requires
            scroll.reportable(steps, negate),
        ensures
            final(queue)@ == uinput::sent(
                old(queue)@,
                self@.id,
                scroll.events(steps, legacy_code, hires_code, negate),
            ),
            emitted == (scroll.events(steps, legacy_code, hires_code, negate).len() > 0),
    {
        let legacy: i32 = if scroll.has_disc {
            scroll.disc
        } else {
            steps.notches
        };
        let hires: i32 = if scroll.cont != 0 {
            steps.hires
        } else {
            scroll.disc * HI_RES_NOTCH
        };
        let ghost mut events = Seq::<Event>::empty();
        assert(uinput::sent(queue@, self@.id, events) =~= queue@);
        let mut emitted: bool = false;
        if legacy != 0 {
            let value: i32 = if negate {
                -legacy
            } else {
                legacy
            };
            self.dev.emit(queue, EV_REL, legacy_code, value);
            emitted = true;
            proof {
                events = seq![Event::Emit(EV_REL, legacy_code, value)];
            }
        }
        if hires != 0 {
            let value: i32 = if negate {
                -hires
            } else {
                hires
            };
            self.dev.emit(queue, EV_REL, hires_code, value);
            emitted = true;
            proof {
                let event = seq![Event::Emit(EV_REL, hires_code, value)];
                uinput::sent_in_parts(old(queue)@, self@.id, events, event);
                events = events + event;
            }
        }
        assert(events =~= scroll.events(steps, legacy_code, hires_code, negate));
        emitted
    }

    pub fn reset_axis(&mut self)
        ensures
            final(self)@ == old(self)@.reset(),
    {
        self.v = Scroll { cont: 0, disc: 0, has_disc: false };
        self.h = Scroll { cont: 0, disc: 0, has_disc: false };
    }

    /// The extents of the last absolute position, 0 before there was one.
    pub fn extents(&self) -> (extents: (u32, u32))
        ensures
            extents == (self@.x_extent, self@.y_extent),
    {
        (self.x_extent, self.y_extent)
    }

    /// The continuous scroll distances since the last frame, vertical and horizontal, in units
    /// of 1/256.
    pub fn scrolled(&self) -> (cont: (i64, i64))
        ensures
            cont == (self@.v.cont, self@.h.cont),
    {
        (self.v.cont, self.h.cont)
    }

    /// Whether [`Pointer::handle_motion`] can handle the motion.
    pub fn can_handle_motion(&self, dx: i32, dy: i32) -> (r: bool)
        ensures
            r == self@.admits_motion(dx, dy),
    {
        self.abs_x.checked_add(dx).is_some() && self.abs_y.checked_add(dy).is_some()
    }

    /// Moves by a number of positions on each axis.
    pub fn handle_motion(&mut self, queue: &mut Queue, dx: i32, dy: i32)
        requires
            old(self)@.admits_motion(dx, dy),
        ensures
            final(self)@ == old(self)@.motion(dx, dy),
            final(queue)@ == uinput::sent(
                old(queue)@,
                old(self)@.id,
                position_events(final(self)@.abs_x, final(self)@.abs_y),
            ),
    {
        self.abs_x = moved(self.abs_x, dx);
        self.abs_y = moved(self.abs_y, dy);
        self.emit_position(queue);
    }

    /// Moves to a place in an area of the given extents.
    pub fn handle_motion_absolute(
        &mut self,
        queue: &mut Queue,
        x: u32,
        y: u32,
        x_extent: u32,
        y_extent: u32,
    )
        ensures
            final(self)@ == old(self)@.motion_absolute(x, y, x_extent, y_extent),
            final(queue)@ == uinput::sent(
                old(queue)@,
                old(self)@.id,
                position_events(final(self)@.abs_x, final(self)@.abs_y),
            ),
    {
        self.x_extent = x_extent;
        self.y_extent = y_extent;
        self.abs_x = scale_abs(x, x_extent);
        self.abs_y = scale_abs(y, y_extent);
        self.emit_position(queue);
    }

    /// Presses or releases a button, and says whether the pointer has it. One that it does not
    /// have is ignored.
    pub fn handle_button(&self, queue: &mut Queue, button: u32, pressed: bool) -> (known: bool)
        ensures
            known == is_button(button),
            !known ==> final(queue)@ == old(queue)@,
            known ==> final(queue)@ == uinput::sent(
                old(queue)@,
                self@.id,
                seq![
                    Event::Emit(EV_KEY, button as u16, if pressed {
                        1
                    } else {
                        0
                    }),
                    Event::Sync,
                ],
            ),
    {
        if button < BTN_LEFT as u32 || button > BTN_TASK as u32 {
            return false;
        }
        let value: i32 = if pressed {
            1
        } else {
            0
        };
        self.dev.emit(queue, EV_KEY, button as u16, value);
        self.dev.sync(queue);
        proof {
            let event = Event::Emit(EV_KEY, button as u16, value);
            uinput::sent_in_parts(old(queue)@, self@.id, seq![event], seq![Event::Sync]);
            assert(seq![event] + seq![Event::Sync] =~= seq![event, Event::Sync]);
        }
        true
    }

    /// Adds up a continuous scroll distance, in units of 1/256.
    pub fn handle_axis(&mut self, axis: Axis, value: i32)
        ensures
            final(self)@ == old(self)@.axis(axis, value),
    {
        match axis {
            Axis::Vertical => {
                self.v.add_cont(value);
            },
            Axis::Horizontal => {
                self.h.add_cont(value);
            },
            Axis::Other => {},
        }
    }

    /// Whether [`Pointer::handle_axis_discrete`] can add the steps.
    pub fn can_handle_axis_discrete(&self, axis: Axis, discrete: i32) -> (r: bool)
        ensures
            r == self@.admits_discrete(axis, discrete),
    {
        match axis {
            Axis::Vertical => self.v.disc.checked_add(discrete).is_some(),
            Axis::Horizontal => self.h.disc.checked_add(discrete).is_some(),
            Axis::Other => true,
        }
    }

    /// Adds up discrete scroll steps.
    pub fn handle_axis_discrete(&mut self, axis: Axis, discrete: i32)
        requires
            old(self)@.admits_discrete(axis, discrete),
        ensures
            final(self)@ == old(self)@.axis_discrete(axis, discrete),
    {
        match axis {
            Axis::Vertical => {
                self.v.disc = self.v.disc + discrete;
                self.v.has_disc = true;
            },
            Axis::Horizontal => {
                self.h.disc = self.h.disc + discrete;
                self.h.has_disc = true;
            },
            Axis::Other => {},
        }
    }

    /// Whether [`Pointer::handle_frame`] can report what was scrolled.
    pub fn can_handle_frame(&self, v: WheelSteps, h: WheelSteps) -> (r: bool)
        ensures
            r == self@.admits_frame(v, h),
    {
        self.v.can_report(v, true) && self.h.can_report(h, false)
    }

    /// Reports what was scrolled since the last frame. The continuous distances come as the
    /// wheel steps that they are rounded to.
    pub fn handle_frame(&mut self, queue: &mut Queue, v: WheelSteps, h: WheelSteps)
        requires
            old(self)@.admits_frame(v, h),
        ensures
            final(self)@ == old(self)@.reset(),
            final(queue)@ == uinput::sent(
                old(queue)@,
                old(self)@.id,
                old(self)@.frame_events(v, h),
            ),
    {
        let vertical: bool = self.flush_axis(queue, self.v, v, REL_WHEEL, REL_WHEEL_HI_RES, true);
        let horizontal: bool = self.flush_axis(
            queue,
            self.h,
            h,
            REL_HWHEEL,
            REL_HWHEEL_HI_RES,
            false,
        );
        let ghost a = self.v.events(v, REL_WHEEL, REL_WHEEL_HI_RES, true);
        let ghost b = self.h.events(h, REL_HWHEEL, REL_HWHEEL_HI_RES, false);
        proof {
            uinput::sent_in_parts(old(queue)@, self@.id, a, b);
        }
        if vertical || horizontal {
            self.dev.sync(queue);
            proof {
                uinput::sent_in_parts(old(queue)@, self@.id, a + b, seq![Event::Sync]);
                assert(a + b + seq![Event::Sync] =~= (a + b).push(Event::Sync));
            }
        }
        self.reset_axis();
    }

    /// The number of the device in commands.
    pub fn handle(&self) -> (id: Option<u64>)
        ensures
            id == self@.id,
    {
        self.dev.handle()
    }

    /// Gives the device up, after everything that was emitted.
    pub fn remove(self, queue: &mut Queue)
        ensures
            self@.id matches Some(id) ==> final(queue)@ == old(queue)@.push(
                uinput::Cmd::Remove(id),
            ),
            self@.id is None ==> final(queue)@ == old(queue)@,
    {
        self.dev.remove(queue);
    }
}

/// What a pointer device can do: buttons, wheels, and a position.
pub open spec fn pointer_capabilities() -> Seq<Capability> {
    seq![Capability::Event(EV_KEY)] + Seq::new(
        (BTN_TASK - BTN_LEFT + 1) as nat,
        |i: int| Capability::Key((BTN_LEFT + i) as u16),
    ) + seq![
        Capability::Event(EV_REL),
        Capability::Rel(REL_WHEEL),
        Capability::Rel(REL_HWHEEL),
        Capability::Rel(REL_WHEEL_HI_RES),
        Capability::Rel(REL_HWHEEL_HI_RES),
        Capability::Event(EV_ABS),
        Capability::Abs(ABS_X),
        Capability::Abs(ABS_Y),
    ]
}

/// The axes of a pointer device.
pub open spec fn pointer_axes() -> Seq<AbsSetup> {
    seq![uinput::axis_range(ABS_X, 0, ABS_MAX_VAL), uinput::axis_range(ABS_Y, 0, ABS_MAX_VAL)]
}

/// The description of a pointer device.
pub fn create_pointer_device(name: &str) -> (plan: DevicePlan)
    ensures
        plan.capabilities@ == pointer_capabilities(),
        plan.axes@ == pointer_axes(),
        uinput::identifies(plan.setup, name@),
{
    let mut b = UinputBuilder::new();
    b.enable_ev(EV_KEY);
    let mut btn: u16 = BTN_LEFT;
    assert(b.capabilities() =~= pointer_capabilities().take(1));
    while btn <= BTN_TASK
        invariant
            BTN_LEFT <= btn <= BTN_TASK + 1,
            b.capabilities() == pointer_capabilities().take(1 + btn - BTN_LEFT),
            b.axes() == Seq::<AbsSetup>::empty(),
        decreases BTN_TASK + 1 - btn,
    {
        b.enable_key(btn);
        assert(b.capabilities() =~= pointer_capabilities().take(2 + btn - BTN_LEFT));
        btn = btn + 1;
    }
    b.enable_ev(EV_REL);
    b.enable_rel(REL_WHEEL);
    b.enable_rel(REL_HWHEEL);
    b.enable_rel(REL_WHEEL_HI_RES);
    b.enable_rel(REL_HWHEEL_HI_RES);
    b.enable_ev(EV_ABS);
    b.enable_abs(ABS_X, 0, ABS_MAX_VAL);
    b.enable_abs(ABS_Y, 0, ABS_MAX_VAL);
    assert(b.capabilities() =~= pointer_capabilities());
    assert(b.axes() =~= pointer_axes());
    b.build(name)
}

/// Makes virtual pointers.
pub struct PointerManager;

impl PointerManager {
    /// The name of the next pointer device.
    pub fn next_name(&self, names: &mut Counter) -> (name: String)
        ensures
            name@ == "wl-uinput-proxy virtual pointer "@ + uinput::decimal(
                old(names).next() as nat,
            ),
            final(names).next() == uinput::successor(old(names).next()),
    {
        uinput::numbered_name("wl-uinput-proxy virtual pointer ", names.fetch())
    }

    /// A pointer on the device that was created at the time `now`, or on none, if none could be.
    pub fn handle_create_virtual_pointer(
        &self,
        created: bool,
        ids: &mut Counter,
        queue: &mut Queue,
        now: u64,
    ) -> (p: Pointer)
        requires
            created ==> now + uinput::CREATE_DELAY <= u64::MAX,
        ensures
            p@ == new_pointer(if created {
                Some(old(ids).next())
            } else {
                None
            }),
            final(ids).next() == (if created {
                uinput::successor(old(ids).next())
            } else {
                old(ids).next()
            }),
            final(queue)@ == uinput::spawned(old(queue)@, created, old(ids).next(), now),
    {
        Pointer::new(Device::spawn(created, ids, queue, now))
    }
}

/// The position lies on the axes of the device.
pub open spec fn on_axes(p: PointerView) -> bool {
    0 <= p.abs_x <= ABS_MAX_VAL && 0 <= p.abs_y <= ABS_MAX_VAL
}

/// A pointer starts on the axes, and no motion leaves them.
pub proof fn motion_stays_on_axes(
    p: PointerView,
    dx: i32,
    dy: i32,
    x: u32,
    y: u32,
    x_extent: u32,
    y_extent: u32,
)
    ensures
        on_axes(new_pointer(p.id)),
        on_axes(p.motion(dx, dy)),
        on_axes(p.motion_absolute(x, y, x_extent, y_extent)),
{
}

/// Scrolling does not move the pointer.
pub proof fn scrolling_keeps_position(p: PointerView, axis: Axis, value: i32)
    ensures
        p.axis(axis, value).abs_x == p.abs_x && p.axis(axis, value).abs_y == p.abs_y,
        p.axis_discrete(axis, value).abs_x == p.abs_x && p.axis_discrete(axis, value).abs_y
            == p.abs_y,
        p.reset().abs_x == p.abs_x && p.reset().abs_y == p.abs_y,
{
}

/// The start of an extent is the start of the axis, and its end the end of the axis.
pub proof fn extent_covers_axis(value: u32, extent: u32)
    requires
        extent > 0,
    ensures
        scaled(0, extent) == 0,
        value >= extent ==> scaled(value, extent) == ABS_MAX_VAL,
{
    assert(0 * ABS_MAX_VAL / extent as int == 0) by (nonlinear_arith)
        requires
            extent > 0,
    ;
    if value >= extent {
        assert(value * ABS_MAX_VAL / extent as int >= ABS_MAX_VAL) by (nonlinear_arith)
            requires
                value >= extent,
                extent > 0,
                ABS_MAX_VAL == 65535,
        ;
    }
}

/// A value further along an extent does not lie further back on the axis.
pub proof fn scaling_keeps_order(a: u32, b: u32, extent: u32)
    requires
        a <= b,
        extent > 0,
    ensures
        scaled(a, extent) <= scaled(b, extent),
{
    assert(0 <= a * ABS_MAX_VAL / extent as int <= b * ABS_MAX_VAL / extent as int)
        by (nonlinear_arith)
        requires
            a <= b,
            extent > 0,
            ABS_MAX_VAL == 65535,
    ;
}

proof fn pointer_can(i: int)
    requires
        0 <= i < pointer_capabilities().len(),
    ensures
        pointer_capabilities().contains(pointer_capabilities()[i]),
{
}

/// A pointer device can report every button of a pointer.
pub proof fn buttons_are_enabled(button: u32, value: i32)
    requires
        is_button(button),
    ensures
        uinput::enabled(pointer_capabilities(), Event::Emit(EV_KEY, button as u16, value)),
{
    pointer_can(0);
    pointer_can(1 + button - BTN_LEFT);
}

/// A pointer device can report every position of a pointer: the axes are enabled, and the
/// position lies within their range.
pub proof fn positions_are_enabled(p: PointerView, i: int)
    requires
        on_axes(p),
        0 <= i < position_events(p.abs_x, p.abs_y).len(),
    ensures
        uinput::enabled(pointer_capabilities(), position_events(p.abs_x, p.abs_y)[i]),
        position_events(p.abs_x, p.abs_y)[i] matches Event::Emit(_, code, value) ==> exists|j: int|
            0 <= j < pointer_axes().len() && (#[trigger] pointer_axes()[j]).code == code
                && pointer_axes()[j].minimum <= value <= pointer_axes()[j].maximum,
{
    pointer_can(14);
    pointer_can(15);
    pointer_can(16);
    assert(pointer_axes()[0].code == ABS_X);
    assert(pointer_axes()[1].code == ABS_Y);
}

/// A pointer device can report whatever is scrolled.
pub proof fn wheels_are_enabled(p: PointerView, v: WheelSteps, h: WheelSteps, i: int)
    requires
        0 <= i < p.frame_events(v, h).len(),
    ensures
        uinput::enabled(pointer_capabilities(), p.frame_events(v, h)[i]),
{
    pointer_can(9);
    pointer_can(10);
    pointer_can(11);
    pointer_can(12);
    pointer_can(13);
    let a = p.v.events(v, REL_WHEEL, REL_WHEEL_HI_RES, true);
    let b = p.h.events(h, REL_HWHEEL, REL_HWHEEL_HI_RES, false);
    let can = pointer_capabilities();
    assert(forall|j: int| 0 <= j < a.len() ==> uinput::enabled(can, #[trigger] a[j]));
    assert(forall|j: int| 0 <= j < b.len() ==> uinput::enabled(can, #[trigger] b[j]));
    if i < a.len() {
        assert((a + b)[i] == a[i]);
    } else if i < a.len() + b.len() {
        assert((a + b)[i] == b[i - a.len()]);
    }
}

/// A frame in which nothing was scrolled reports nothing; so does every frame right after
/// another, since a frame reports what was scrolled once.
pub proof fn nothing_scrolled_is_silent(p: PointerView)
    ensures
        p.reset().frame_events(
            WheelSteps { notches: 0, hires: 0 },
            WheelSteps { notches: 0, hires: 0 },
        ) == Seq::<Event>::empty(),
        p.reset().admits_frame(
            WheelSteps { notches: 0, hires: 0 },
            WheelSteps { notches: 0, hires: 0 },
        ),
{
}

/// Discrete steps are reported as that many wheel notches, and as that many times
/// [`HI_RES_NOTCH`] high-resolution units; down is negative.
pub proof fn discrete_steps_are_notches(p: PointerView, steps: i32, rounded: WheelSteps)
    requires
        p.v == no_scroll() && p.h == no_scroll(),
        steps != 0,
        i32::MIN <= steps * HI_RES_NOTCH <= i32::MAX,
        rounded == (WheelSteps { notches: 0, hires: 0 }),
    ensures
        p.axis_discrete(Axis::Vertical, steps).frame_events(rounded, rounded) == seq![
            Event::Emit(EV_REL, REL_WHEEL, (-steps) as i32),
            Event::Emit(EV_REL, REL_WHEEL_HI_RES, (-steps * HI_RES_NOTCH) as i32),
            Event::Sync,
        ],
        p.axis_discrete(Axis::Horizontal, steps).frame_events(rounded, rounded) == seq![
            Event::Emit(EV_REL, REL_HWHEEL, steps),
            Event::Emit(EV_REL, REL_HWHEEL_HI_RES, (steps * HI_RES_NOTCH) as i32),
            Event::Sync,
        ],
{
    let v = p.axis_discrete(Axis::Vertical, steps);
    let h = p.axis_discrete(Axis::Horizontal, steps);
    assert(v.frame_events(rounded, rounded) =~= seq![
        Event::Emit(EV_REL, REL_WHEEL, (-steps) as i32),
        Event::Emit(EV_REL, REL_WHEEL_HI_RES, (-steps * HI_RES_NOTCH) as i32),
        Event::Sync,
    ]);
    assert(h.frame_events(rounded, rounded) =~= seq![
        Event::Emit(EV_REL, REL_HWHEEL, steps),
        Event::Emit(EV_REL, REL_HWHEEL_HI_RES, (steps * HI_RES_NOTCH) as i32),
        Event::Sync,
    ]);
}

/// Where both continuous distances and discrete steps were reported, the notches are the discrete
/// steps and the high-resolution units the continuous distance, so that neither counts twice.
pub proof fn discrete_and_continuous(scroll: Scroll, steps: WheelSteps)
    requires
        scroll.has_disc,
        scroll.cont != 0,
    ensures
        scroll.legacy(steps) == scroll.disc,
        scroll.hires(steps) == steps.hires,
{
}

/// A frame reports each wheel at most once, ends with a sync if it reports anything, and has for
/// each wheel the right value: the distance scrolled down or right, of either sign, is negated on
/// the vertical wheels and as it is on the horizontal ones. The notches are the discrete steps
/// where any were reported and else the rounded distance; the high-resolution units are the rounded
/// distance where there is one and else 120 for each discrete step.
pub proof fn frame_reports_what_was_scrolled(
    p: PointerView,
    v: WheelSteps,
    h: WheelSteps,
    value: i32,
)
    requires
        p.admits_frame(v, h),
    ensures
        ({
            let events = p.frame_events(v, h);
            let notches_v = if p.v.has_disc {
                p.v.disc
            } else {
                v.notches
            };
            let notches_h = if p.h.has_disc {
                p.h.disc
            } else {
                h.notches
            };
            let hires_v = if p.v.cont != 0 {
                v.hires as int
            } else {
                p.v.disc * 120
            };
            let hires_h = if p.h.cont != 0 {
                h.hires as int
            } else {
                p.h.disc * 120
            };
            &&& events.contains(Event::Emit(2, 8, value)) <==> value != 0 && value == -notches_v
            &&& events.contains(Event::Emit(2, 11, value)) <==> value != 0 && value == -hires_v
            &&& events.contains(Event::Emit(2, 6, value)) <==> value != 0 && value == notches_h
            &&& events.contains(Event::Emit(2, 12, value)) <==> value != 0 && value == hires_h
            &&& events.no_duplicates()
            &&& events.len() > 0 ==> events.len() > 1 && events.last() == Event::Sync
            &&& forall|i: int|
                0 <= i < events.len() - 1 ==> (#[trigger] events[i] matches Event::Emit(ty, code, _)
                    && ty == 2 && (code == 8 || code == 11 || code == 6 || code == 12))
            &&& forall|i: int, j: int|
                0 <= i < j < events.len() ==> (#[trigger] events[i] matches Event::Emit(_, a, _) ==> (
                #[trigger] events[j] matches Event::Emit(_, b, _) ==> match a {
                    8 => b == 11 || b == 6 || b == 12,
                    11 => b == 6 || b == 12,
                    6 => b == 12,
                    _ => false,
                }))
        }),
{
    let events = p.frame_events(v, h);
    let a = p.v.events(v, REL_WHEEL, REL_WHEEL_HI_RES, true);
    let b = p.h.events(h, REL_HWHEEL, REL_HWHEEL_HI_RES, false);
    let e1 = Event::Emit(2, 8, directed(p.v.legacy(v), true));
    let e2 = Event::Emit(2, 11, directed(p.v.hires(v), true));
    let e3 = Event::Emit(2, 6, directed(p.h.legacy(h), false));
    let e4 = Event::Emit(2, 12, directed(p.h.hires(h), false));
    let n1: int = if p.v.legacy(v) != 0 {
        1
    } else {
        0
    };
    let n2: int = if p.v.hires(v) != 0 {
        1
    } else {
        0
    };
    let n3: int = if p.h.legacy(h) != 0 {
        1
    } else {
        0
    };
    let n4: int = if p.h.hires(h) != 0 {
        1
    } else {
        0
    };
    assert(a.len() == n1 + n2 && b.len() == n3 + n4);
    assert(n1 == 1 ==> events[0] == e1);
    assert(n2 == 1 ==> events[n1] == e2);
    assert(n3 == 1 ==> events[n1 + n2] == e3);
    assert(n4 == 1 ==> events[n1 + n2 + n3] == e4);
    assert(events.len() > 0 ==> events.len() == n1 + n2 + n3 + n4 + 1 && events.last()
        == Event::Sync);
}

/// A frame admits every distance but those whose value no event can hold.
pub proof fn frames_are_admitted(p: PointerView, v: WheelSteps, h: WheelSteps)
    ensures
        p.admits_frame(v, h) <==> {
            &&& p.v.cont == 0 ==> i32::MIN < p.v.disc * 120 <= i32::MAX
            &&& p.v.cont != 0 ==> v.hires != i32::MIN
            &&& p.v.has_disc ==> p.v.disc != i32::MIN
            &&& !p.v.has_disc ==> v.notches != i32::MIN
            &&& p.h.cont == 0 ==> i32::MIN <= p.h.disc * 120 <= i32::MAX
        },
{
}

/// One axis reports its notches, then its high-resolution units, each unless it is 0; turned round
/// if so asked, whatever the distance.
pub proof fn axis_reports_its_distance(
    scroll: Scroll,
    steps: WheelSteps,
    legacy_code: u16,
    hires_code: u16,
    negate: bool,
)
    requires
        scroll.reportable(steps, negate),
    ensures
        ({
            let events = scroll.events(steps, legacy_code, hires_code, negate);
            let notches = if scroll.has_disc {
                scroll.disc
            } else {
                steps.notches
            };
            let hires = if scroll.cont != 0 {
                steps.hires as int
            } else {
                scroll.disc * 120
            };
            &&& events.len() == (if notches != 0 {
                1int
            } else {
                0
            }) + (if hires != 0 {
                1int
            } else {
                0
            })
            &&& notches != 0 ==> (events.first() matches Event::Emit(ty, code, value) && ty == 2
                && code == legacy_code && if negate {
                value == -notches
            } else {
                value == notches
            })
            &&& hires != 0 ==> (events.last() matches Event::Emit(ty, code, value) && ty == 2 && code
                == hires_code && if negate {
                value == -hires
            } else {
                value == hires
            })
        }),
{
}

/// To scroll the same way back is reported as the opposite: two frames on which every distance and
/// every step has the opposite sign report the same wheels with opposite values.
pub proof fn opposite_distances_are_opposite(
    p: PointerView,
    q: PointerView,
    v: WheelSteps,
    h: WheelSteps,
    v2: WheelSteps,
    h2: WheelSteps,
    code: u16,
    value: i32,
)
    requires
        p.admits_frame(v, h),
        q.admits_frame(v2, h2),
        q.v.cont == -p.v.cont && q.v.disc == -p.v.disc && q.v.has_disc == p.v.has_disc,
        q.h.cont == -p.h.cont && q.h.disc == -p.h.disc && q.h.has_disc == p.h.has_disc,
        v2.notches == -v.notches && v2.hires == -v.hires,
        h2.notches == -h.notches && h2.hires == -h.hires,
        value != i32::MIN,
    ensures
        p.frame_events(v, h).contains(Event::Emit(2, code, value)) <==> q.frame_events(
            v2,
            h2,
        ).contains(Event::Emit(2, code, (-value) as i32)),
{
    frame_reports_what_was_scrolled(p, v, h, value);
    frame_reports_what_was_scrolled(q, v2, h2, (-value) as i32);
    let a = p.frame_events(v, h);
    let b = q.frame_events(v2, h2);
    if a.contains(Event::Emit(2, code, value)) {
        let i = choose|i: int| 0 <= i < a.len() && a[i] == Event::Emit(2, code, value);
        assert(a[i] == Event::Emit(2, code, value));
    }
    if b.contains(Event::Emit(2, code, (-value) as i32)) {
        let i = choose|i: int| 0 <= i < b.len() && b[i] == Event::Emit(2, code, (-value) as i32);
        assert(b[i] == Event::Emit(2, code, (-value) as i32));
    }
}

/// What is scrolled between two frames adds up, each axis by itself and distances apart from
/// steps; and a frame forgets it.
pub proof fn scrolling_adds_up(p: PointerView, value: i32)
    ensures
        ({
            let v = p.axis(Axis::Vertical, value);
            let h = p.axis(Axis::Horizontal, value);
            &&& i64::MIN <= p.v.cont + value <= i64::MAX ==> v.v.cont == p.v.cont + value
            &&& i64::MIN <= p.h.cont + value <= i64::MAX ==> h.h.cont == p.h.cont + value
            &&& p.v.cont + value > i64::MAX ==> v.v.cont == i64::MAX
            &&& p.v.cont + value < i64::MIN ==> v.v.cont == i64::MIN
            &&& p.h.cont + value > i64::MAX ==> h.h.cont == i64::MAX
            &&& p.h.cont + value < i64::MIN ==> h.h.cont == i64::MIN
            &&& v == PointerView { v: Scroll { cont: v.v.cont, ..p.v }, ..p }
            &&& h == PointerView { h: Scroll { cont: h.h.cont, ..p.h }, ..p }
        }),
        p.admits_discrete(Axis::Vertical, value) <==> i32::MIN <= p.v.disc + value <= i32::MAX,
        p.admits_discrete(Axis::Horizontal, value) <==> i32::MIN <= p.h.disc + value <= i32::MAX,
        p.admits_discrete(Axis::Other, value),
        p.admits_discrete(Axis::Vertical, value) ==> {
            let v = p.axis_discrete(Axis::Vertical, value);
            &&& v.v.disc == p.v.disc + value && v.v.has_disc && v.v.cont == p.v.cont
            &&& v == PointerView { v: v.v, ..p }
        },
        p.admits_discrete(Axis::Horizontal, value) ==> {
            let h = p.axis_discrete(Axis::Horizontal, value);
            &&& h.h.disc == p.h.disc + value && h.h.has_disc && h.h.cont == p.h.cont
            &&& h == PointerView { h: h.h, ..p }
        },
        p.axis(Axis::Other, value) == p,
        p.axis_discrete(Axis::Other, value) == p,
        ({
            let r = p.reset();
            &&& r.v.cont == 0 && r.v.disc == 0 && !r.v.has_disc
            &&& r.h.cont == 0 && r.h.disc == 0 && !r.h.has_disc
            &&& r == PointerView { v: r.v, h: r.h, ..p }
        }),
{
}

/// It does not matter in how many parts a distance, or a number of steps, is reported.
pub proof fn scrolling_in_parts(p: PointerView, axis: Axis, a: i32, b: i32)
    requires
        i32::MIN <= a + b <= i32::MAX,
        i64::MIN <= p.v.cont + a <= i64::MAX && i64::MIN <= p.h.cont + a <= i64::MAX,
        p.admits_discrete(axis, a),
        p.admits_discrete(axis, (a + b) as i32),
    ensures
        p.axis(axis, a).axis(axis, b) == p.axis(axis, (a + b) as i32),
        p.axis_discrete(axis, a).axis_discrete(axis, b) == p.axis_discrete(axis, (a + b) as i32),
{
}

/// A relative motion moves by what it says, up to the ends of the axes, and changes nothing else.
pub proof fn motion_moves(p: PointerView, dx: i32, dy: i32)
    ensures
        ({
            let q = p.motion(dx, dy);
            &&& 0 <= p.abs_x + dx <= 65535 ==> q.abs_x == p.abs_x + dx
            &&& p.abs_x + dx < 0 ==> q.abs_x == 0
            &&& p.abs_x + dx > 65535 ==> q.abs_x == 65535
            &&& 0 <= p.abs_y + dy <= 65535 ==> q.abs_y == p.abs_y + dy
            &&& p.abs_y + dy < 0 ==> q.abs_y == 0
            &&& p.abs_y + dy > 65535 ==> q.abs_y == 65535
            &&& q == PointerView { abs_x: q.abs_x, abs_y: q.abs_y, ..p }
        }),
        p.admits_motion(dx, dy) <==> i32::MIN <= p.abs_x + dx <= i32::MAX && i32::MIN <= p.abs_y
            + dy <= i32::MAX,
{
}

/// An absolute motion goes to the position that is as far along the axis as the value is along the
/// extent, rounded down, and not beyond the end; it remembers the extents and changes nothing else.
pub proof fn absolute_motion_scales(p: PointerView, x: u32, y: u32, x_extent: u32, y_extent: u32)
    ensures
        ({
            let q = p.motion_absolute(x, y, x_extent, y_extent);
            &&& 0 < x_extent && x < x_extent ==> q.abs_x * x_extent <= x * 65535 < (q.abs_x + 1)
                * x_extent
            &&& 0 < x_extent <= x ==> q.abs_x == 65535
            &&& x_extent == 0 && x <= 65535 ==> q.abs_x == x
            &&& x_extent == 0 && 65535 < x <= i32::MAX ==> q.abs_x == 65535
            &&& x_extent == 0 && x > i32::MAX ==> q.abs_x == 0
            &&& 0 < y_extent && y < y_extent ==> q.abs_y * y_extent <= y * 65535 < (q.abs_y + 1)
                * y_extent
            &&& 0 < y_extent <= y ==> q.abs_y == 65535
            &&& y_extent == 0 && y <= 65535 ==> q.abs_y == y
            &&& y_extent == 0 && 65535 < y <= i32::MAX ==> q.abs_y == 65535
            &&& y_extent == 0 && y > i32::MAX ==> q.abs_y == 0
            &&& q.x_extent == x_extent && q.y_extent == y_extent
            &&& q == PointerView { abs_x: q.abs_x, abs_y: q.abs_y, x_extent, y_extent, ..p }
        }),
{
    scaled_rounds_down(x, x_extent);
    scaled_rounds_down(y, y_extent);
}

/// A value within an extent lies as far along the axis, rounded down; one beyond it at the end. A
/// value without an extent is a position by itself.
pub proof fn scaled_rounds_down(value: u32, extent: u32)
    ensures
        0 <= scaled(value, extent) <= 65535,
        0 < extent && value < extent ==> scaled(value, extent) * extent <= value * 65535 < (scaled(
            value,
            extent,
        ) + 1) * extent,
        0 < extent <= value ==> scaled(value, extent) == 65535,
        extent == 0 && value <= 65535 ==> scaled(value, extent) == value,
        extent == 0 && 65535 < value <= i32::MAX ==> scaled(value, extent) == 65535,
        extent == 0 && value > i32::MAX ==> scaled(value, extent) == 0,
{
    if extent > 0 {
        let q = value * 65535 / extent as int;
        assert(q * extent <= value * 65535 < (q + 1) * extent) by (nonlinear_arith)
            requires
                extent > 0,
                q == value * 65535 / extent as int,
        ;
        if value < extent {
            assert(0 <= q <= 65535) by (nonlinear_arith)
                requires
                    q * extent <= value * 65535 < (q + 1) * extent,
                    value < extent,
                    extent > 0,
            ;
        } else {
            extent_covers_axis(value, extent);
        }
    }
}

/// How a relative motion scales: by the whole axis over the extent of the last absolute position,
/// or not at all before there was one.
pub proof fn relative_motion_scale(extent: u32)
    ensures
        extent > 0 ==> step_scale(extent).0 == 65535 && step_scale(extent).1 == extent,
        extent == 0 ==> step_scale(extent).0 == step_scale(extent).1 && step_scale(extent).1 == 1,
{
}

/// A position is reported by both axes, x before y, and one sync.
pub proof fn position_is_reported(x: i32, y: i32)
    ensures
        position_events(x, y).len() == 3,
        position_events(x, y)[0] == Event::Emit(3, 0, x),
        position_events(x, y)[1] == Event::Emit(3, 1, y),
        position_events(x, y)[2] == Event::Sync,
{
}

/// A new pointer is in the middle of both axes, has no extents, and has scrolled nothing.
pub proof fn new_pointer_is_at_rest(id: Option<u64>)
    ensures
        new_pointer(id).id == id,
        new_pointer(id).abs_x == 32767 && new_pointer(id).abs_y == 32767,
        new_pointer(id).x_extent == 0 && new_pointer(id).y_extent == 0,
        new_pointer(id).reset() == new_pointer(id),
{
}

/// The buttons of a pointer are those from `BTN_LEFT` to `BTN_TASK`.
pub proof fn button_range(button: u32)
    ensures
        is_button(button) <==> 0x110 <= button <= 0x117,
{
}

/// A pointer device has the buttons, the four wheels and the two axes, and nothing else; each is
/// enabled once.
pub proof fn pointer_device(c: Capability)
    ensures
        pointer_capabilities().contains(c) <==> match c {
            Capability::Event(ev) => 1 <= ev <= 3,
            Capability::Key(code) => 0x110 <= code <= 0x117,
            Capability::Rel(code) => code == 6 || code == 8 || code == 11 || code == 12,
            Capability::Abs(code) => code <= 1,
        },
        pointer_capabilities().len() == 17,
        pointer_axes().len() == 2,
        forall|i: int|
            0 <= i < 2 ==> {
                let axis = #[trigger] pointer_axes()[i];
                &&& axis.code == i && axis.value == 0 && axis.minimum == 0 && axis.maximum == 65535
                &&& axis.fuzz == 0 && axis.flat == 0 && axis.resolution == 0
            },
{
    match c {
        Capability::Event(ev) => {
            if ev == 1 {
                pointer_can(0);
            } else if ev == 2 {
                pointer_can(9);
            } else if ev == 3 {
                pointer_can(14);
            }
        },
        Capability::Key(code) => {
            if 0x110 <= code <= 0x117 {
                pointer_can(1 + code - 0x110);
            }
        },
        Capability::Rel(code) => {
            pointer_can(10);
            pointer_can(11);
            pointer_can(12);
            pointer_can(13);
        },
        Capability::Abs(code) => {
            pointer_can(15);
            pointer_can(16);
        },
    }
}

/// A notch of the wheel is 15 units of scrolling, and 120 of the high-resolution wheel.
pub proof fn size_of_a_notch()
    ensures
        WHEEL_NOTCH == 15,
        HI_RES_NOTCH == 120,
{
}

} // verus!
