//! What a virtual keyboard makes of what the client does, in terms of the codes of the keys, of
//! keysyms, and of the state of the client's keymap.

use crate::keyboard;
use crate::keyboard::{KeyboardView, ModFlags, PressedView};
use crate::keystate;
use crate::reverse;
use crate::seat::SharedKeymapView;
use crate::uinput;
use crate::uinput::{Capability, Event};
use crate::xkb;
use vstd::prelude::*;
use xkbcommon_rs::{Keymap, State};

verus! {

/// The keysym belongs to a key that does nothing but change modifiers: one from `Shift_L` to
/// `Hyper_R`, `Mode_switch`, `Num_Lock`, `ISO_Level3_Shift` or `ISO_Level5_Shift`.
pub open spec fn only_modifies(sym: u32) -> bool {
    0xffe1 <= sym <= 0xffee || sym == 0xff7e || sym == 0xff7f || sym == 0xfe03 || sym == 0xfe11
}

/// The modifier that the key stands for in keybindings is active: Shift (42), Control (29), Alt
/// (56) or the logo key (125).
pub open spec fn bound(state: State, code: u16) -> bool {
    ||| code == 42 && xkb::state_mod(state, "Shift"@) == Some(true)
    ||| code == 29 && xkb::state_mod(state, "Control"@) == Some(true)
    ||| code == 56 && xkb::state_mod(state, "Mod1"@) == Some(true)
    ||| code == 125 && xkb::state_mod(state, "Mod4"@) == Some(true)
}

/// Shift (42) and AltGr (100) are the keys that shift levels.
pub open spec fn shifts_level(code: u16) -> bool {
    code == 42 || code == 100
}

/// The keysyms that only modify are these and no others: every other one is typed.
pub proof fn keysyms_that_only_modify(sym: u32)
    ensures
        keyboard::modifier_keysym(sym) <==> only_modifies(sym),
{
}

/// The keys that are to be held for a state are those of its active modifiers, each once.
pub proof fn held_for_a_state(state: State, code: u16)
    ensures
        keyboard::passthrough_keys(keyboard::state_flags(state)).contains(code) <==> bound(
            state,
            code,
        ),
        keyboard::passthrough_keys(keyboard::state_flags(state)).no_duplicates(),
{
    keystate::passthrough_keys_members(keyboard::state_flags(state));
}

/// A modifier counts as active if and only if the state says so.
pub proof fn flags_of_a_state(state: State)
    ensures
        keyboard::state_flags(state).shift <==> xkb::state_mod(state, "Shift"@) == Some(true),
        keyboard::state_flags(state).control <==> xkb::state_mod(state, "Control"@) == Some(true),
        keyboard::state_flags(state).mod1 <==> xkb::state_mod(state, "Mod1"@) == Some(true),
        keyboard::state_flags(state).mod4 <==> xkb::state_mod(state, "Mod4"@) == Some(true),
{
}

/// The order in which keys go down for keybindings.
pub open spec fn hold_rank(code: u16) -> int {
    if code == 42 {
        0
    } else if code == 29 {
        1
    } else if code == 56 {
        2
    } else {
        3
    }
}

/// The key is to be held while these modifiers are active.
pub open spec fn flagged(flags: ModFlags, code: u16) -> bool {
    ||| code == 42 && flags.shift
    ||| code == 29 && flags.control
    ||| code == 56 && flags.mod1
    ||| code == 125 && flags.mod4
}

proof fn filter_keeps_order(s: Seq<u16>, p: spec_fn(u16) -> bool)
    requires
        forall|i: int, j: int| 0 <= i < j < s.len() ==> hold_rank(s[i]) < hold_rank(s[j]),
    ensures
        forall|i: int, j: int|
            0 <= i < j < s.filter(p).len() ==> hold_rank(s.filter(p)[i]) < hold_rank(
                s.filter(p)[j],
            ),
    decreases s.len(),
{
    reveal(Seq::filter);
    if s.len() > 0 {
        let rest = s.drop_last();
        filter_keeps_order(rest, p);
        keystate::filter_members(rest, p);
        let kept = rest.filter(p);
        assert forall|i: int| 0 <= i < kept.len() && p(s.last()) implies hold_rank(
            #[trigger] kept[i],
        ) < hold_rank(s.last()) by {
            assert(kept.contains(kept[i]));
            let j = choose|j: int| 0 <= j < rest.len() && rest[j] == kept[i];
            assert(s[j] == kept[i]);
        }
    }
}

proof fn desired_order(flags: ModFlags)
    ensures
        ({
            let s = keyboard::passthrough_keys(flags);
            forall|i: int, j: int| 0 <= i < j < s.len() ==> hold_rank(s[i]) < hold_rank(s[j])
        }),
{
}

/// What is reported where some keys go down and then some go up.
proof fn pressed_and_released(new: Seq<u16>, gone: Seq<u16>, code: u16)
    requires
        new.no_duplicates(),
        gone.no_duplicates(),
        forall|i: int, j: int| 0 <= i < j < new.len() ==> hold_rank(new[i]) < hold_rank(new[j]),
    ensures
        ({
            let events = uinput::sync_if_any(
                keyboard::press_events(new) + keyboard::release_events(gone),
            );
            &&& events.contains(Event::Emit(1, code, 1)) <==> new.contains(code)
            &&& events.contains(Event::Emit(1, code, 0)) <==> gone.contains(code)
            &&& events.no_duplicates()
            &&& events.len() > 0 ==> events.len() > 1 && events.last() == Event::Sync
            &&& forall|i: int|
                0 <= i < events.len() - 1 ==> (#[trigger] events[i] matches Event::Emit(ty, _, value)
                    && ty == 1 && (value == 0 || value == 1))
            &&& forall|i: int, j: int|
                0 <= i < j < events.len() - 1 ==> (#[trigger] events[i] matches Event::Emit(_, a, x)
                    ==> (#[trigger] events[j] matches Event::Emit(_, b, y) ==> y == 0 || (x == 1
                    && hold_rank(a) < hold_rank(b))))
        }),
{
    let events = uinput::sync_if_any(keyboard::press_events(new) + keyboard::release_events(gone));
    let n = new.len() as int;
    let m = gone.len() as int;
    assert(events.len() == if n + m > 0 {
        n + m + 1
    } else {
        0
    });
    assert forall|i: int| 0 <= i < n implies #[trigger] events[i] == Event::Emit(1, new[i], 1) by {}
    assert forall|i: int| n <= i < n + m implies #[trigger] events[i] == Event::Emit(
        1,
        gone[i - n],
        0,
    ) by {}
    if new.contains(code) {
        let i = choose|i: int| 0 <= i < n && new[i] == code;
        assert(events[i] == Event::Emit(1, code, 1));
    }
    if gone.contains(code) {
        let i = choose|i: int| 0 <= i < m && gone[i] == code;
        assert(events[n + i] == Event::Emit(1, code, 0));
    }
    if events.contains(Event::Emit(1, code, 1)) {
        let i = choose|i: int| 0 <= i < events.len() && events[i] == Event::Emit(1, code, 1);
        assert(new.contains(new[i]));
    }
    if events.contains(Event::Emit(1, code, 0)) {
        let i = choose|i: int| 0 <= i < events.len() && events[i] == Event::Emit(1, code, 0);
        assert(gone.contains(gone[i - n]));
    }
}

proof fn held_in_the_end(held: Seq<u16>, desired: Seq<u16>, code: u16)
    requires
        held.no_duplicates(),
        desired.no_duplicates(),
    ensures
        keyboard::held_after(held, desired).no_duplicates(),
        keyboard::held_after(held, desired).contains(code) <==> desired.contains(code),
{
    let now = keyboard::held_after(held, desired);
    let new = keyboard::newly_held(held, desired);
    let stay = held.filter(|c: u16| desired.contains(c));
    keystate::filter_members(desired, |c: u16| !held.contains(c));
    keystate::filter_members(held, |c: u16| desired.contains(c));
    keystate::filter_no_duplicates(desired, |c: u16| !held.contains(c));
    keystate::filter_no_duplicates(held, |c: u16| desired.contains(c));
    assert(now =~= stay + new);
    assert forall|i: int, j: int| 0 <= i < j < now.len() implies now[i] != now[j] by {
        if i < stay.len() && j >= stay.len() {
            assert(stay.contains(stay[i]));
            assert(new.contains(new[j - stay.len()]));
        }
    }
    keystate::held_is_desired(held, desired);
    assert(now.to_set().contains(code) <==> desired.to_set().contains(code));
}

/// To hold the keys of the active modifiers is to press those that are not held, in the order
/// Shift, Control, Alt, logo, then to release those that are held for no active modifier, and to
/// end with a sync if there was anything to do. Then just the keys of the active modifiers are
/// held.
pub proof fn holding(kb: KeyboardView, flags: ModFlags, code: u16)
    requires
        kb.held.no_duplicates(),
    ensures
        ({
            let events = kb.hold_events(flags);
            let now = kb.hold(flags);
            &&& now == KeyboardView { held: now.held, ..kb }
            &&& now.held.no_duplicates()
            &&& now.held.contains(code) <==> flagged(flags, code)
            &&& events.contains(Event::Emit(1, code, 1)) <==> flagged(flags, code)
                && !kb.held.contains(code)
            &&& events.contains(Event::Emit(1, code, 0)) <==> !flagged(flags, code)
                && kb.held.contains(code)
            &&& events.no_duplicates()
            &&& events.len() > 0 ==> events.len() > 1 && events.last() == Event::Sync
            &&& forall|i: int|
                0 <= i < events.len() - 1 ==> (#[trigger] events[i] matches Event::Emit(ty, _, value)
                    && ty == 1 && (value == 0 || value == 1))
            &&& forall|i: int, j: int|
                0 <= i < j < events.len() - 1 ==> (#[trigger] events[i] matches Event::Emit(_, a, x)
                    ==> (#[trigger] events[j] matches Event::Emit(_, b, y) ==> y == 0 || (x == 1
                    && hold_rank(a) < hold_rank(b))))
        }),
{
    let desired = keyboard::passthrough_keys(flags);
    let held = kb.held;
    let new = keyboard::newly_held(held, desired);
    let gone = keyboard::no_longer_held(held, desired);
    keystate::passthrough_keys_members(flags);
    assert(desired.contains(code) <==> flagged(flags, code));
    keystate::filter_members(desired, |c: u16| !held.contains(c));
    keystate::filter_members(held, |c: u16| !desired.contains(c));
    keystate::filter_no_duplicates(desired, |c: u16| !held.contains(c));
    keystate::filter_no_duplicates(held, |c: u16| !desired.contains(c));
    desired_order(flags);
    filter_keeps_order(desired, |c: u16| !held.contains(c));
    pressed_and_released(new, gone, code);
    held_in_the_end(held, desired, code);
}

/// The keys that stay held keep their order and come before the new ones, which are in the order in
/// which they were pressed; those that are released are released in the order in which they are
/// held.
pub proof fn holding_keeps_order(kb: KeyboardView, flags: ModFlags)
    ensures
        ({
            let events = kb.hold_events(flags);
            let now = kb.hold(flags).held;
            let stay = kb.held.filter(|c: u16| flagged(flags, c));
            let gone = kb.held.filter(|c: u16| !flagged(flags, c));
            let n = now.len() - stay.len();
            &&& now.take(stay.len() as int) == stay
            &&& events.len() == if n + gone.len() > 0 {
                n + gone.len() + 1
            } else {
                0
            }
            &&& forall|i: int|
                0 <= i < n ==> #[trigger] events[i] == Event::Emit(1, now[stay.len() + i], 1)
            &&& forall|i: int|
                0 <= i < gone.len() ==> events[n + i] == Event::Emit(1, #[trigger] gone[i], 0)
        }),
{
    let desired = keyboard::passthrough_keys(flags);
    let events = kb.hold_events(flags);
    let now = kb.hold(flags).held;
    let stay = kb.held.filter(|c: u16| flagged(flags, c));
    let gone = kb.held.filter(|c: u16| !flagged(flags, c));
    let new = keyboard::newly_held(kb.held, desired);
    keystate::passthrough_keys_members(flags);
    assert forall|c: u16| desired.contains(c) == flagged(flags, c) by {}
    assert((|c: u16| desired.contains(c)) =~= (|c: u16| flagged(flags, c)));
    assert((|c: u16| !desired.contains(c)) =~= (|c: u16| !flagged(flags, c)));
    assert(now =~= stay + new);
    assert(now.take(stay.len() as int) =~= stay);
    assert(gone == keyboard::no_longer_held(kb.held, desired));
}

/// For a key, a level modifier is pressed just where it is needed and not held, and released just
/// where it is held and not needed; Shift comes first. What was done is what is remembered.
pub proof fn level_shifting(out_kc: u16, needed: Seq<u16>, held: Seq<u16>, code: u16)
    ensures
        ({
            let events = keyboard::level_events(needed, held);
            let p = keyboard::pressed_key(out_kc, needed, held);
            let press = shifts_level(code) && needed.contains(code) && !held.contains(code);
            let release = shifts_level(code) && !needed.contains(code) && held.contains(code);
            &&& events.contains(Event::Emit(1, code, 1)) <==> press
            &&& events.contains(Event::Emit(1, code, 0)) <==> release
            &&& p.out_kc == out_kc
            &&& p.pressed_mods.contains(code) <==> press
            &&& p.released_mods.contains(code) <==> release
            &&& p.pressed_mods.no_duplicates() && p.released_mods.no_duplicates()
            &&& events.no_duplicates()
            &&& forall|i: int|
                0 <= i < events.len() ==> (#[trigger] events[i] matches Event::Emit(ty, c, value)
                    && ty == 1 && shifts_level(c) && (value == 0 || value == 1))
            &&& events.len() <= 2
            &&& events.len() == 2 ==> (events[0] matches Event::Emit(_, c, _) && c == 42)
        }),
{
    let events = keyboard::level_events(needed, held);
    keystate::pressed_key_members(out_kc, needed, held, code);
    let a = keyboard::level_event(needed, held, 42);
    let b = keyboard::level_event(needed, held, 100);
    assert(events =~= a + b);
    assert(a.len() == 1 ==> events[0] == a[0]);
    assert(b.len() == 1 ==> events[a.len() as int] == b[0]);
}

/// A release undoes its press: the key goes up first, then the level modifiers that were pressed
/// for it, the last one first, and then those that were released for it go down again.
pub proof fn undoing(p: PressedView)
    ensures
        ({
            let events = keyboard::undo_events(p);
            let n = p.pressed_mods.len() as int;
            let m = p.released_mods.len() as int;
            &&& events.len() == n + m + 2
            &&& events[0] == Event::Emit(1, p.out_kc, 0)
            &&& forall|i: int|
                0 <= i < n ==> events[n - i] == Event::Emit(1, #[trigger] p.pressed_mods[i], 0)
            &&& forall|i: int|
                0 <= i < m ==> events[n + 1 + i] == Event::Emit(1, #[trigger] p.released_mods[i], 1)
            &&& events.last() == Event::Sync
        }),
{
    let events = keyboard::undo_events(p);
    let n = p.pressed_mods.len() as int;
    let back = p.pressed_mods.reverse();
    assert forall|i: int| 0 <= i < n implies events[n - i] == Event::Emit(
        1,
        #[trigger] p.pressed_mods[i],
        0,
    ) by {
        assert(back[n - 1 - i] == p.pressed_mods[i]);
    }
}

/// The bit of a modifier and its key, while there is no keymap.
pub open spec fn fallback(i: int) -> (u32, u16) {
    if i == 0 {
        (0x01, 42)
    } else if i == 1 {
        (0x02, 58)
    } else if i == 2 {
        (0x04, 29)
    } else if i == 3 {
        (0x08, 56)
    } else if i == 4 {
        (0x10, 69)
    } else if i == 5 {
        (0x40, 125)
    } else {
        (0x80, 100)
    }
}

/// Where the key comes in that order.
pub open spec fn fallback_rank(code: u16) -> int {
    if code == 42 {
        0
    } else if code == 58 {
        1
    } else if code == 29 {
        2
    } else if code == 56 {
        3
    } else if code == 69 {
        4
    } else if code == 125 {
        5
    } else {
        6
    }
}

proof fn fallback_upto(have: u32, want: u32, n: nat)
    requires
        n <= 7,
    ensures
        ({
            let events = keyboard::raw_events_upto(have, want, n);
            &&& events.len() <= n
            &&& forall|k: int|
                0 <= k < events.len() ==> exists|i: int|
                    {
                        &&& 0 <= i < n
                        &&& #[trigger] events[k] == Event::Emit(
                            1,
                            (#[trigger] fallback(i)).1,
                            if want & fallback(i).0 != 0 {
                                1
                            } else {
                                0
                            },
                        )
                        &&& (want & fallback(i).0 != 0) != (have & fallback(i).0 != 0)
                    }
            &&& forall|i: int|
                0 <= i < n && (want & (#[trigger] fallback(i)).0 != 0) != (have & fallback(i).0
                    != 0) ==> events.contains(
                    Event::Emit(
                        1,
                        fallback(i).1,
                        if want & fallback(i).0 != 0 {
                            1
                        } else {
                            0
                        },
                    ),
                )
            &&& forall|k: int|
                0 <= k < events.len() ==> (#[trigger] events[k] matches Event::Emit(_, c, _)
                    && fallback_rank(c) < n)
            &&& forall|k: int, l: int|
                0 <= k < l < events.len() ==> (#[trigger] events[k] matches Event::Emit(_, a, _)
                    && (#[trigger] events[l] matches Event::Emit(_, b, _) && fallback_rank(a)
                    < fallback_rank(b)))
        }),
    decreases n,
{
    if n > 0 {
        let m = (n - 1) as nat;
        fallback_upto(have, want, m);
        let before = keyboard::raw_events_upto(have, want, m);
        let events = keyboard::raw_events_upto(have, want, n);
        let (bit, code) = fallback(m as int);
        assert(keyboard::mod_map()[m as int] == (bit, code));
        let last = keyboard::raw_event(have, want, bit, code);
        assert(events =~= before + last);
        assert forall|k: int| 0 <= k < events.len() implies exists|i: int|
            {
                &&& 0 <= i < n
                &&& #[trigger] events[k] == Event::Emit(
                    1,
                    (#[trigger] fallback(i)).1,
                    if want & fallback(i).0 != 0 {
                        1
                    } else {
                        0
                    },
                )
                &&& (want & fallback(i).0 != 0) != (have & fallback(i).0 != 0)
            } by {
            if k < before.len() {
                assert(events[k] == before[k]);
                let i = choose|i: int|
                    {
                        &&& 0 <= i < m
                        &&& before[k] == Event::Emit(
                            1,
                            (#[trigger] fallback(i)).1,
                            if want & fallback(i).0 != 0 {
                                1
                            } else {
                                0
                            },
                        )
                        &&& (want & fallback(i).0 != 0) != (have & fallback(i).0 != 0)
                    };
                assert(0 <= i < n && fallback(i) == fallback(i));
            } else {
                assert(events[k] == last[k - before.len()]);
                assert(fallback(m as int).1 == code);
            }
        }
        assert forall|i: int|
            0 <= i < n && (want & (#[trigger] fallback(i)).0 != 0) != (have & fallback(i).0
                != 0) implies events.contains(
            Event::Emit(
                1,
                fallback(i).1,
                if want & fallback(i).0 != 0 {
                    1
                } else {
                    0
                },
            ),
        ) by {
            let event = Event::Emit(
                1,
                fallback(i).1,
                if want & fallback(i).0 != 0 {
                    1
                } else {
                    0
                },
            );
            if i < m {
                assert(before.contains(event));
                let k = choose|k: int| 0 <= k < before.len() && before[k] == event;
                assert(events[k] == event);
            } else {
                assert(events[before.len() as int] == event);
            }
        }
        assert(fallback_rank(code) == m);
        assert forall|k: int| 0 <= k < events.len() implies (
        #[trigger] events[k] matches Event::Emit(_, c, _) && fallback_rank(c) < n) by {
            if k < before.len() {
                assert(events[k] == before[k]);
            } else {
                assert(events[k] == last[0]);
            }
        }
        assert forall|k: int, l: int| 0 <= k < l < events.len() implies (
        #[trigger] events[k] matches Event::Emit(_, a, _) && (
        #[trigger] events[l] matches Event::Emit(_, b, _) && fallback_rank(a) < fallback_rank(b))) by {
            assert(events[k] == before[k]);
            if l < before.len() {
                assert(events[l] == before[l]);
            } else {
                assert(events[l] == last[0]);
            }
        }
    }
}

/// While a keymap is missing, a modifier key goes down or up just where the client's modifiers
/// differ from those that are held, in the order of the bits, and then those are held.
pub proof fn simulating_modifiers(have: u32, want: u32)
    ensures
        ({
            let events = keyboard::raw_events(have, want);
            &&& forall|i: int|
                #![trigger fallback(i)]
                0 <= i < 7 ==> {
                    let (bit, code) = fallback(i);
                    &&& events.contains(Event::Emit(1, code, 1)) <==> want & bit != 0 && have & bit
                        == 0
                    &&& events.contains(Event::Emit(1, code, 0)) <==> want & bit == 0 && have & bit
                        != 0
                    &&& keyboard::raw_after(have, want) & bit == want & bit
                }
            &&& forall|k: int|
                0 <= k < events.len() ==> exists|i: int|
                    0 <= i < 7 && (#[trigger] events[k] matches Event::Emit(ty, code, value) && ty == 1
                        && code == (#[trigger] fallback(i)).1 && (value == 0 || value == 1))
            &&& forall|k: int, l: int|
                0 <= k < l < events.len() ==> (#[trigger] events[k] matches Event::Emit(_, a, _)
                    && (#[trigger] events[l] matches Event::Emit(_, b, _) && fallback_rank(a)
                    < fallback_rank(b)))
            &&& keyboard::raw_after(have, want) & !0xdfu32 == have & !0xdfu32
            &&& have == 0 ==> keyboard::raw_release_events(have).len() == 0
            &&& have != 0 ==> keyboard::raw_release_events(have).last() == Event::Sync
                && keyboard::raw_release_events(have).drop_last() == keyboard::raw_events(have, 0)
        }),
{
    let events = keyboard::raw_events(have, want);
    fallback_upto(have, want, 7);
    keystate::raw_after_bits(have, want);
    assert forall|i: int| #![trigger fallback(i)] 0 <= i < 7 implies ({
        let (bit, code) = fallback(i);
        &&& events.contains(Event::Emit(1, code, 1)) <==> want & bit != 0 && have & bit == 0
        &&& events.contains(Event::Emit(1, code, 0)) <==> want & bit == 0 && have & bit != 0
        &&& keyboard::raw_after(have, want) & bit == want & bit
    }) by {
        let (bit, code) = fallback(i);
        assert(keyboard::mod_map()[i] == (bit, code));
        if events.contains(Event::Emit(1, code, 1)) {
            let k = choose|k: int| 0 <= k < events.len() && events[k] == Event::Emit(1, code, 1);
            assert(events[k] == Event::Emit(1, code, 1));
        }
        if events.contains(Event::Emit(1, code, 0)) {
            let k = choose|k: int| 0 <= k < events.len() && events[k] == Event::Emit(1, code, 0);
            assert(events[k] == Event::Emit(1, code, 0));
        }
    }
    assert(((have & !0xdfu32) | (want & 0xdfu32)) & !0xdfu32 == have & !0xdfu32) by (bit_vector);
    if have != 0 {
        assert(keyboard::raw_release_events(have).drop_last() =~= keyboard::raw_events(have, 0));
    }
}

/// The keysym of a key under a state, 0 if it has none. XKB keycodes are 8 above the evdev codes.
pub open spec fn keysym_of(state: State, key: u32) -> u32 {
    match xkb::state_sym(state, (key + 8) as u32) {
        Some(sym) => sym,
        None => 0,
    }
}

/// What the key is and which level modifiers it needs that types a keysym: what the reverse map
/// says, or else the client's own key, in 16 bits, and none.
pub open spec fn way_to_type(
    reverse: Map<u32, (u16, Seq<u16>)>,
    key: u32,
    sym: u32,
) -> (u16, Seq<u16>) {
    if reverse.contains_key(sym) {
        reverse[sym]
    } else {
        ((key % 65536) as u16, Seq::<u16>::empty())
    }
}

proof fn last_key_is_down(down: Set<u16>, before: Seq<Event>, code: u16)
    ensures
        keystate::down_after(
            down,
            before + seq![Event::Emit(1, code, 1), Event::Sync],
        ).contains(code),
{
    let press = seq![Event::Emit(1, code, 1)];
    let last = seq![Event::Emit(1, code, 1), Event::Sync];
    let d = keystate::down_after(down, before);
    keystate::down_after_concat(down, before, last);
    assert(last =~= press + seq![Event::Sync]);
    keystate::down_after_concat(d, press, seq![Event::Sync]);
    keystate::down_after_one(d, Event::Emit(1, code, 1));
    keystate::down_after_one(d.insert(code), Event::Sync);
}

/// A key that is pressed while both keymaps are known, and is not down: the client's state takes
/// note of it, the keys of the modifiers that are active then are held, and unless the key's keysym
/// only modifies, some key of the device goes down and is remembered, after the level modifiers
/// have been set and before a sync. The keysym is that of the state before the press.
pub proof fn pressing(kb: KeyboardView, key: u32, down: Set<u16>)
    requires
        kb.reverse is Some,
        kb.client is Some,
        !kb.pressed.contains_key(key),
        key <= u32::MAX - 8,
    ensures
        ({
            let state = xkb::state_after_key(kb.client->0, (key + 8) as u32, true);
            let flags = keyboard::state_flags(state);
            let sym = keysym_of(kb.client->0, key);
            let (out_kc, needed) = way_to_type(kb.reverse->0, key, sym);
            let after = kb.key(key, true);
            let events = kb.key_events(key, true);
            let before = keyboard::raw_release_events(kb.raw_mods) + kb.hold_events(flags);
            &&& after.client == Some(state)
            &&& after.held == kb.hold(flags).held
            &&& after.raw_mods == 0
            &&& after.id == kb.id && after.reverse == kb.reverse && after.version == kb.version
            &&& only_modifies(sym) ==> after.pressed == kb.pressed && events == before
            &&& !only_modifies(sym) ==> {
                &&& after.pressed.contains_key(key)
                &&& after.pressed[key] == keyboard::pressed_key(out_kc, needed, after.held)
                &&& after.pressed.remove(key) == kb.pressed
                &&& events == before + keyboard::level_events(needed, after.held) + seq![
                    Event::Emit(1, out_kc, 1),
                    Event::Sync,
                ]
                &&& keystate::down_after(down, events).contains(out_kc)
            }
        }),
{
    let kb0 = KeyboardView { raw_mods: 0, ..kb };
    let state = xkb::state_after_key(kb.client->0, (key + 8) as u32, true);
    let flags = keyboard::state_flags(state);
    let sym = keysym_of(kb.client->0, key);
    let (out_kc, needed) = way_to_type(kb.reverse->0, key, sym);
    let after = kb.key(key, true);
    let events = kb.key_events(key, true);
    let before = keyboard::raw_release_events(kb.raw_mods) + kb.hold_events(flags);
    assert(kb0.client_sym(key) == sym);
    assert(kb.client_sym(key) == sym);
    if only_modifies(sym) {
        assert(events =~= before);
    } else {
        let most = before + keyboard::level_events(needed, after.held);
        let last = seq![Event::Emit(1, out_kc, 1), Event::Sync];
        assert(events =~= most + last);
        last_key_is_down(down, most, out_kc);
        assert(after.pressed.remove(key) =~= kb.pressed);
    }
}

/// A key that is released while both keymaps are known: the client's state takes note of it, what
/// was done for the key is undone, if it was down, and then the keys of the modifiers that are
/// active are held. The key is forgotten, and no other.
pub proof fn releasing(kb: KeyboardView, key: u32)
    requires
        kb.reverse is Some,
        kb.client is Some,
        key <= u32::MAX - 8,
    ensures
        ({
            let state = xkb::state_after_key(kb.client->0, (key + 8) as u32, false);
            let flags = keyboard::state_flags(state);
            let after = kb.key(key, false);
            let events = kb.key_events(key, false);
            &&& after.client == Some(state)
            &&& after.held == kb.hold(flags).held
            &&& after.raw_mods == 0
            &&& after.id == kb.id && after.reverse == kb.reverse && after.version == kb.version
            &&& after.pressed == kb.pressed.remove(key)
            &&& kb.pressed.contains_key(key) ==> events == keyboard::raw_release_events(kb.raw_mods)
                + keyboard::undo_events(kb.pressed[key]) + kb.hold_events(flags)
            &&& !kb.pressed.contains_key(key) ==> events == keyboard::raw_release_events(
                kb.raw_mods,
            ) + kb.hold_events(flags)
        }),
{
    let state = xkb::state_after_key(kb.client->0, (key + 8) as u32, false);
    let flags = keyboard::state_flags(state);
    let events = kb.key_events(key, false);
    if kb.pressed.contains_key(key) {
        assert(events =~= keyboard::raw_release_events(kb.raw_mods) + keyboard::undo_events(
            kb.pressed[key],
        ) + kb.hold_events(flags));
    } else {
        assert(events =~= keyboard::raw_release_events(kb.raw_mods) + kb.hold_events(flags));
    }
}

/// A key that is pressed again while it is down does nothing, but for letting go of modifiers that
/// were held without a keymap.
pub proof fn pressing_again(kb: KeyboardView, key: u32)
    requires
        kb.reverse is Some,
        kb.client is Some,
        kb.pressed.contains_key(key),
    ensures
        kb.key(key, true) == (KeyboardView { raw_mods: 0, ..kb }),
        kb.key_events(key, true) == keyboard::raw_release_events(kb.raw_mods),
{
    assert(kb.key_events(key, true) =~= keyboard::raw_release_events(kb.raw_mods));
}

/// A key event while a keymap is missing is passed on as it is, in 16 bits, and not remembered.
pub proof fn passing_on(kb: KeyboardView, key: u32, press: bool)
    requires
        kb.reverse is None || kb.client is None,
    ensures
        kb.key(key, press) == kb,
        kb.key_events(key, press).len() == 2,
        kb.key_events(key, press)[0] matches Event::Emit(ty, code, value) && ty == 1 && code as int
            == key % 65536 && value == (if press {
            1int
        } else {
            0
        }),
        kb.key_events(key, press)[1] == Event::Sync,
{
}

/// The client's modifiers and layout change while both keymaps are known: the client's state is
/// what a mask of exactly the depressed, latched and locked modifiers and the locked layout makes
/// of it, and the keys of the modifiers that are active then are held. While a keymap is missing,
/// the modifiers are simulated, and the client's state is left alone.
pub proof fn changing_modifiers(
    kb: KeyboardView,
    depressed: u32,
    latched: u32,
    locked: u32,
    group: u32,
)
    ensures
        ({
            let after = kb.modifiers(depressed, latched, locked, group);
            let events = kb.modifiers_events(depressed, latched, locked, group);
            &&& after.id == kb.id && after.reverse == kb.reverse && after.version == kb.version
            &&& after.pressed == kb.pressed
            &&& kb.reverse is Some && kb.client is Some ==> {
                let state = xkb::state_after_mask(
                    kb.client->0,
                    depressed,
                    latched,
                    locked,
                    0,
                    0,
                    group as usize,
                );
                let flags = keyboard::state_flags(state);
                &&& after.client == Some(state)
                &&& after.held == kb.hold(flags).held
                &&& after.raw_mods == 0
                &&& events == keyboard::raw_release_events(kb.raw_mods) + kb.hold_events(flags)
            }
            &&& kb.reverse is None || kb.client is None ==> {
                let want = depressed | latched | locked;
                &&& after.client == kb.client
                &&& after.held == kb.held
                &&& after.raw_mods == keyboard::raw_after(kb.raw_mods, want)
                &&& keyboard::raw_events(kb.raw_mods, want).len() == 0 ==> events.len() == 0
                &&& keyboard::raw_events(kb.raw_mods, want).len() > 0 ==> events.last()
                    == Event::Sync && events.drop_last() == keyboard::raw_events(kb.raw_mods, want)
            }
        }),
{
    let want = depressed | latched | locked;
    if kb.reverse is None || kb.client is None {
        if keyboard::raw_events(kb.raw_mods, want).len() > 0 {
            assert(kb.modifiers_events(depressed, latched, locked, group).drop_last()
                =~= keyboard::raw_events(kb.raw_mods, want));
        }
    }
}

/// Two changes of modifiers that differ in what the client sent leave the client's state what each
/// of the masks makes of it: nothing that the client sends is dropped.
pub proof fn every_part_of_a_mask_counts(
    kb: KeyboardView,
    a: (u32, u32, u32, u32),
    b: (u32, u32, u32, u32),
)
    requires
        kb.reverse is Some,
        kb.client is Some,
        xkb::state_after_mask(kb.client->0, a.0, a.1, a.2, 0, 0, a.3 as usize)
            != xkb::state_after_mask(kb.client->0, b.0, b.1, b.2, 0, 0, b.3 as usize),
    ensures
        kb.modifiers(a.0, a.1, a.2, a.3).client != kb.modifiers(b.0, b.1, b.2, b.3).client,
{
}

/// The latest keymap is in force: whatever keymap the client had before, after it gives one in the
/// `xkb_v1` format that compiles, its state is the initial state of that. Any other keymap leaves
/// everything as it was, and no keymap changes what is held or down.
pub proof fn giving_a_keymap(kb: KeyboardView, format: u32, compiled: Option<Keymap>)
    ensures
        ({
            let after = kb.given_keymap(format, compiled);
            &&& format == 1 && compiled is Some ==> after.client == Some(
                xkb::initial_state(compiled->0),
            )
            &&& format != 1 || compiled is None ==> after.client == kb.client
            &&& after == KeyboardView { client: after.client, ..kb }
        }),
{
}

/// Of two keymaps that are given one after the other and compile, the first does not matter.
pub proof fn last_keymap_counts(kb: KeyboardView, first: Keymap, last: Keymap)
    ensures
        kb.given_keymap(1, Some(first)).given_keymap(1, Some(last)) == kb.given_keymap(
            1,
            Some(last),
        ),
        kb.given_keymap(1, Some(last)).client == Some(xkb::initial_state(last)),
{
}

/// A key event can be handled unless it is translated and has no XKB keycode, or the client's
/// keymap defines the key without a layout, or the compositor's keymap is new and has 32 modifiers.
pub proof fn admitting_keys(kb: KeyboardView, active: SharedKeymapView, key: u32, press: bool)
    ensures
        ({
            let new = active.keymap is Some && (kb.reverse is None || kb.version != active.version);
            let translated = (kb.reverse is Some || active.keymap is Some) && kb.client is Some;
            let keycode = (key + 8) as u32;
            kb.admits_key(active, key, press) <==> {
                &&& new ==> xkb::keymap_num_mods(active.keymap->0) < 32
                &&& translated ==> key <= u32::MAX - 8
                &&& translated && !(press && kb.pressed.contains_key(key)) ==> {
                    ||| xkb::keymap_key_layouts(xkb::state_keymap(kb.client->0), keycode) is None
                    ||| xkb::state_key_layout(kb.client->0, keycode) is Some
                }
            }
        }),
{
}

/// A change of modifiers can be handled unless a keymap that it concerns has 32 modifiers.
pub proof fn admitting_modifiers(kb: KeyboardView, active: SharedKeymapView)
    ensures
        ({
            let new = active.keymap is Some && (kb.reverse is None || kb.version != active.version);
            let translated = (kb.reverse is Some || active.keymap is Some) && kb.client is Some;
            kb.admits_modifiers(active) <==> {
                &&& new ==> xkb::keymap_num_mods(active.keymap->0) < 32
                &&& translated ==> xkb::keymap_num_mods(xkb::state_keymap(kb.client->0)) < 32
            }
        }),
{
}

/// A keyboard looks at the compositor's keymap when there is one that it does not know yet, and
/// then knows the reverse map of that; else it stays as it is.
pub proof fn looking_at_the_keymap(
    before: KeyboardView,
    active: SharedKeymapView,
    after: KeyboardView,
)
    requires
        keyboard::reverse_ensured(before, active, after),
    ensures
        active.keymap is None ==> after == before,
        active.keymap is Some ==> {
            &&& after.reverse is Some
            &&& after.version == active.version
            &&& before.reverse is Some && before.version == active.version ==> after == before
            &&& before.reverse is None || before.version != active.version ==> reverse::reverses(
                after.reverse->0,
                active.keymap->0,
            )
        },
        after == (KeyboardView { reverse: after.reverse, version: after.version, ..before }),
        after == before.looked_up(after),
        before.will_translate(active) <==> after.reverse is Some && after.client is Some,
        after.translating() <==> after.reverse is Some && after.client is Some,
{
}

/// A new keyboard knows nothing and holds nothing.
pub proof fn new_keyboard_is_at_rest(id: Option<u64>)
    ensures
        ({
            let kb = keyboard::new_keyboard(id);
            &&& kb.id == id && kb.reverse is None && kb.client is None && kb.raw_mods == 0
            &&& kb.held.len() == 0
            &&& forall|key: u32| !#[trigger] kb.pressed.contains_key(key)
        }),
{
}

/// The keys that are down are given up one after the other: each goes up, and then the level
/// modifiers that were pressed for it, the last one first.
pub proof fn giving_up_a_key(pressed: Map<u32, PressedView>, order: Seq<u32>, key: u32)
    ensures
        keyboard::give_up_events(pressed, Seq::empty()).len() == 0,
        ({
            let before = keyboard::give_up_events(pressed, order);
            let events = keyboard::give_up_events(pressed, order.push(key));
            let mods = pressed[key].pressed_mods;
            let n = before.len() as int;
            &&& events.len() == n + 1 + mods.len()
            &&& events.take(n) == before
            &&& events[n] == Event::Emit(1, pressed[key].out_kc, 0)
            &&& forall|i: int|
                0 <= i < mods.len() ==> events[n + mods.len() - i] == Event::Emit(
                    1,
                    #[trigger] mods[i],
                    0,
                )
        }),
{
    let before = keyboard::give_up_events(pressed, order);
    let events = keyboard::give_up_events(pressed, order.push(key));
    let mods = pressed[key].pressed_mods;
    let n = before.len() as int;
    assert(order.push(key).drop_last() =~= order);
    assert(events =~= before + seq![Event::Emit(1, pressed[key].out_kc, 0)]
        + keyboard::release_events(mods.reverse()));
    assert(events.take(n) =~= before);
    assert forall|i: int| 0 <= i < mods.len() implies events[n + mods.len() - i] == Event::Emit(
        1,
        #[trigger] mods[i],
        0,
    ) by {
        assert(mods.reverse()[mods.len() - 1 - i] == mods[i]);
    }
}

/// A keyboard that is given up lets go of the keys that are down, each once, then of those held for
/// keybindings, then of those held without a keymap, and ends with a sync. It holds nothing then,
/// and knows the keymaps as before.
pub proof fn giving_up(kb: KeyboardView, order: Seq<u32>)
    ensures
        ({
            let events = kb.destroy_events(order);
            let keys = keyboard::give_up_events(kb.pressed, order);
            let raw = keyboard::raw_events(kb.raw_mods, 0);
            let n = keys.len() as int;
            let m = kb.held.len() as int;
            &&& events.len() == n + m + raw.len() + 1
            &&& events.take(n) == keys
            &&& forall|i: int|
                0 <= i < m ==> events[n + i] == Event::Emit(1, #[trigger] kb.held[i], 0)
            &&& events.subrange(n + m, events.len() - 1) == raw
            &&& events.last() == Event::Sync
        }),
        ({
            let after = kb.destroyed();
            &&& after.held.len() == 0 && after.raw_mods == 0
            &&& forall|key: u32| !#[trigger] after.pressed.contains_key(key)
            &&& after == KeyboardView {
                held: after.held,
                pressed: after.pressed,
                raw_mods: 0,
                ..kb
            }
        }),
        keyboard::lists_keys(order, kb.pressed) <==> order.no_duplicates() && forall|key: u32|
            order.contains(key) <==> #[trigger] kb.pressed.contains_key(key),
{
    let events = kb.destroy_events(order);
    let keys = keyboard::give_up_events(kb.pressed, order);
    let raw = keyboard::raw_events(kb.raw_mods, 0);
    let n = keys.len() as int;
    let m = kb.held.len() as int;
    assert(events =~= keys + keyboard::release_events(kb.held) + raw + seq![Event::Sync]);
    assert(events.take(n) =~= keys);
    assert(events.subrange(n + m, events.len() - 1) =~= raw);
    if keyboard::lists_keys(order, kb.pressed) {
        assert forall|key: u32| order.contains(key) <==> #[trigger] kb.pressed.contains_key(
            key,
        ) by {
            assert(order.to_set().contains(key) <==> kb.pressed.dom().contains(key));
        }
    }
    if order.no_duplicates() && forall|key: u32|
        order.contains(key) <==> #[trigger] kb.pressed.contains_key(key) {
        assert forall|key: u32| order.to_set().contains(key) <==> kb.pressed.dom().contains(
            key,
        ) by {
            assert(kb.pressed.contains_key(key) <==> order.contains(key));
        }
        assert(order.to_set() =~= kb.pressed.dom());
    }
}

/// A keyboard device has every key from 1 to 255, each once, and nothing else.
pub proof fn keyboard_device(c: Capability)
    ensures
        keyboard::keyboard_capabilities().contains(c) <==> match c {
            Capability::Event(ev) => ev == 1,
            Capability::Key(code) => 1 <= code <= 255,
            _ => false,
        },
        keyboard::keyboard_capabilities().len() == 256,
{
    let all = keyboard::keyboard_capabilities();
    match c {
        Capability::Event(ev) => {
            assert(all[0] == Capability::Event(1));
        },
        Capability::Key(code) => {
            if 1 <= code <= 255 {
                assert(all[code as int] == c);
            }
        },
        _ => {},
    }
}

/// The functions that take apart what a key event does agree with it: which key types a keysym, and
/// what a key is without a keymap.
pub proof fn typing_a_keysym(reverse: Map<u32, (u16, Seq<u16>)>, key: u32, sym: u32)
    ensures
        keyboard::target(reverse, key, sym) == way_to_type(reverse, key, sym),
        keyboard::raw_code(key) as int == key % 65536,
{
}

/// A press and a release that are taken apart: a press of a key with a given keysym that leaves
/// given modifiers active.
pub proof fn pressing_and_releasing(kb: KeyboardView, key: u32, sym: u32, flags: ModFlags)
    requires
        kb.reverse is Some,
    ensures
        ({
            let (out_kc, needed) = way_to_type(kb.reverse->0, key, sym);
            let after = kb.press(key, sym, flags);
            let held = kb.hold(flags).held;
            &&& after == KeyboardView { held, pressed: after.pressed, ..kb }
            &&& only_modifies(sym) ==> after.pressed == kb.pressed && kb.press_events(
                key,
                sym,
                flags,
            ) == kb.hold_events(flags)
            &&& !only_modifies(sym) ==> {
                &&& after.pressed == kb.pressed.insert(
                    key,
                    keyboard::pressed_key(out_kc, needed, held),
                )
                &&& kb.press_events(key, sym, flags) == kb.hold_events(flags)
                    + keyboard::level_events(needed, held) + seq![
                    Event::Emit(1, out_kc, 1),
                    Event::Sync,
                ]
            }
        }),
        ({
            let after = kb.release(key, flags);
            &&& after == KeyboardView {
                held: kb.hold(flags).held,
                pressed: kb.pressed.remove(key),
                ..kb
            }
            &&& kb.pressed.contains_key(key) ==> kb.release_events(key, flags)
                == keyboard::undo_events(kb.pressed[key]) + kb.hold_events(flags)
            &&& !kb.pressed.contains_key(key) ==> kb.release_events(key, flags) == kb.hold_events(
                flags,
            )
        }),
{
    if !kb.pressed.contains_key(key) {
        assert(kb.release_events(key, flags) =~= kb.hold_events(flags));
    }
}

} // verus!
