//! What a virtual keyboard's events do to the keys of the device, and what follows for it: that
//! keys get the level modifiers that they need, and that none of them get stuck.

use crate::keyboard;
use crate::keyboard::{KeyboardView, ModFlags, PressedView};
use crate::reverse;
use crate::seat;
use crate::seat::SharedKeymapView;
use crate::typing;
use crate::uinput;
use crate::uinput::{
    Event, EV_KEY, KEY_LEFTALT, KEY_LEFTCTRL, KEY_LEFTMETA, KEY_LEFTSHIFT, KEY_RIGHTALT,
};
use crate::xkb;
use vstd::prelude::*;
use xkbcommon_rs::Keymap;

verus! {

/// The keys of a device that are down after one more event.
pub open spec fn down_after_event(down: Set<u16>, event: Event) -> Set<u16> {
    match event {
        Event::Emit(ty, code, value) => if ty != EV_KEY {
            down
        } else if value != 0 {
            down.insert(code)
        } else {
            down.remove(code)
        },
        Event::Sync => down,
    }
}

/// The keys of a device that are down after some events.
pub open spec fn down_after(down: Set<u16>, events: Seq<Event>) -> Set<u16>
    decreases events.len(),
{
    if events.len() == 0 {
        down
    } else {
        down_after_event(down_after(down, events.drop_last()), events.last())
    }
}

pub(crate) proof fn down_after_concat(down: Set<u16>, a: Seq<Event>, b: Seq<Event>)
    ensures
        down_after(down, a + b) == down_after(down_after(down, a), b),
    decreases b.len(),
{
    if b.len() == 0 {
        assert(a + b =~= a);
    } else {
        assert((a + b).drop_last() =~= a + b.drop_last());
        down_after_concat(down, a, b.drop_last());
    }
}

pub(crate) proof fn down_after_one(down: Set<u16>, event: Event)
    ensures
        down_after(down, seq![event]) == down_after_event(down, event),
{
    assert(seq![event].drop_last() =~= Seq::<Event>::empty());
    assert(down_after(down, Seq::<Event>::empty()) == down);
}

proof fn down_after_press_events(down: Set<u16>, codes: Seq<u16>)
    ensures
        down_after(down, keyboard::press_events(codes)) == down.union(codes.to_set()),
    decreases codes.len(),
{
    let events = keyboard::press_events(codes);
    if codes.len() == 0 {
        assert(down.union(codes.to_set()) =~= down);
    } else {
        assert(events.drop_last() =~= keyboard::press_events(codes.drop_last()));
        down_after_press_events(down, codes.drop_last());
        assert forall|c: u16| codes.contains(c) == (codes.drop_last().contains(c) || c
            == codes.last()) by {
            push_members(codes.drop_last(), codes.last(), c);
            assert(codes.drop_last().push(codes.last()) =~= codes);
        }
        assert(down_after(down, events) =~= down.union(codes.to_set()));
    }
}

proof fn down_after_release_events(down: Set<u16>, codes: Seq<u16>)
    ensures
        down_after(down, keyboard::release_events(codes)) == down.difference(codes.to_set()),
    decreases codes.len(),
{
    let events = keyboard::release_events(codes);
    if codes.len() == 0 {
        assert(down.difference(codes.to_set()) =~= down);
    } else {
        assert(events.drop_last() =~= keyboard::release_events(codes.drop_last()));
        down_after_release_events(down, codes.drop_last());
        assert forall|c: u16| codes.contains(c) == (codes.drop_last().contains(c) || c
            == codes.last()) by {
            push_members(codes.drop_last(), codes.last(), c);
            assert(codes.drop_last().push(codes.last()) =~= codes);
        }
        assert(down_after(down, events) =~= down.difference(codes.to_set()));
    }
}

proof fn down_after_sync(down: Set<u16>, events: Seq<Event>)
    ensures
        down_after(down, events.push(Event::Sync)) == down_after(down, events),
        down_after(down, uinput::sync_if_any(events)) == down_after(down, events),
{
    assert(events.push(Event::Sync).drop_last() =~= events);
}

/// Which codes a filter keeps.
pub(crate) proof fn filter_members(s: Seq<u16>, p: spec_fn(u16) -> bool)
    ensures
        forall|c: u16| #[trigger] s.filter(p).contains(c) <==> s.contains(c) && p(c),
    decreases s.len(),
{
    reveal(Seq::filter);
    if s.len() > 0 {
        let rest = s.drop_last();
        filter_members(rest, p);
        assert forall|c: u16| #[trigger] s.filter(p).contains(c) <==> s.contains(c) && p(c) by {
            let kept = rest.filter(p);
            assert(kept.contains(c) <==> rest.contains(c) && p(c));
            push_members(rest, s.last(), c);
            push_members(kept, s.last(), c);
            assert(rest.push(s.last()) =~= s);
        }
    }
}

pub(crate) proof fn push_members(s: Seq<u16>, last: u16, c: u16)
    ensures
        s.push(last).contains(c) <==> s.contains(c) || c == last,
{
    if s.contains(c) {
        let i = choose|i: int| 0 <= i < s.len() && s[i] == c;
        assert(s.push(last)[i] == c);
    }
    assert(s.push(last)[s.len() as int] == last);
    if s.push(last).contains(c) && c != last {
        let i = choose|i: int| 0 <= i < s.push(last).len() && s.push(last)[i] == c;
        assert(s[i] == c);
    }
}

/// What is held in the end is what is to be held, whatever was held before.
pub proof fn held_is_desired(held: Seq<u16>, desired: Seq<u16>)
    ensures
        keyboard::held_after(held, desired).to_set() == desired.to_set(),
{
    filter_members(held, |code: u16| desired.contains(code));
    filter_members(desired, |code: u16| !held.contains(code));
    let stay = held.filter(|code: u16| desired.contains(code));
    let new = keyboard::newly_held(held, desired);
    assert forall|c: u16| (stay + new).contains(c) == desired.contains(c) by {
        if stay.contains(c) {
            let i = choose|i: int| 0 <= i < stay.len() && stay[i] == c;
            assert((stay + new)[i] == c);
        }
        if new.contains(c) {
            let i = choose|i: int| 0 <= i < new.len() && new[i] == c;
            assert((stay + new)[stay.len() + i] == c);
        }
        if (stay + new).contains(c) {
            let i = choose|i: int| 0 <= i < (stay + new).len() && (stay + new)[i] == c;
            if i < stay.len() {
                assert(stay.contains(c));
            } else {
                assert(new[i - stay.len()] == c);
                assert(new.contains(c));
            }
        }
    }
    assert(keyboard::held_after(held, desired).to_set() =~= desired.to_set());
}

/// The keys that are down once the right keys are held.
pub proof fn down_after_hold(down: Set<u16>, held: Seq<u16>, desired: Seq<u16>)
    ensures
        forall|c: u16| #[trigger]
            down_after(down, keyboard::hold_events(held, desired)).contains(c) <==> {
                if held.contains(c) {
                    desired.contains(c) && down.contains(c)
                } else {
                    desired.contains(c) || down.contains(c)
                }
            },
{
    let new = keyboard::newly_held(held, desired);
    let gone = keyboard::no_longer_held(held, desired);
    filter_members(desired, |code: u16| !held.contains(code));
    filter_members(held, |code: u16| !desired.contains(code));
    let presses = keyboard::press_events(new);
    let releases = keyboard::release_events(gone);
    down_after_sync(down, presses + releases);
    down_after_concat(down, presses, releases);
    down_after_press_events(down, new);
    down_after_release_events(down.union(new.to_set()), gone);
}

/// The keys that change the keysym level.
pub open spec fn is_level_mod(code: u16) -> bool {
    code == KEY_LEFTSHIFT || code == KEY_RIGHTALT
}

/// The level modifiers of the device are what is held for keybindings, no translated key having
/// changed them for itself.
pub open spec fn level_agrees(held: Seq<u16>, down: Set<u16>) -> bool {
    forall|m: u16| #[trigger] is_level_mod(m) ==> (down.contains(m) <==> held.contains(m))
}

proof fn down_after_level_event(down: Set<u16>, needed: Seq<u16>, held: Seq<u16>, m: u16)
    ensures
        down_after(down, keyboard::level_event(needed, held, m)) == (if keyboard::level_missing(
            needed,
            held,
            m,
        ) {
            down.insert(m)
        } else if keyboard::level_excess(needed, held, m) {
            down.remove(m)
        } else {
            down
        }),
{
    down_after_one(down, keyboard::press_event(m));
    down_after_one(down, keyboard::release_event(m));
}

proof fn down_after_level_events(down: Set<u16>, needed: Seq<u16>, held: Seq<u16>)
    ensures
        forall|c: u16| #[trigger]
            down_after(down, keyboard::level_events(needed, held)).contains(c) <==> {
                if is_level_mod(c) && keyboard::level_missing(needed, held, c) {
                    true
                } else if is_level_mod(c) && keyboard::level_excess(needed, held, c) {
                    false
                } else {
                    down.contains(c)
                }
            },
{
    let shift = keyboard::level_event(needed, held, KEY_LEFTSHIFT);
    let alt = keyboard::level_event(needed, held, KEY_RIGHTALT);
    down_after_concat(down, shift, alt);
    down_after_level_event(down, needed, held, KEY_LEFTSHIFT);
    down_after_level_event(down_after(down, shift), needed, held, KEY_RIGHTALT);
}

/// The keys that are down after a translated key went down.
proof fn down_after_press(
    down: Set<u16>,
    kb: KeyboardView,
    key: u32,
    sym: u32,
    flags: ModFlags,
)
    requires
        !typing::only_modifies(sym),
    ensures
        ({
            let (out_kc, needed) = keyboard::target(kb.reverse->0, key, sym);
            down_after(down, kb.press_events(key, sym, flags)) == down_after(
                down_after(down, kb.hold_events(flags)),
                keyboard::level_events(needed, kb.hold(flags).held),
            ).insert(out_kc)
        }),
{
    let (out_kc, needed) = keyboard::target(kb.reverse->0, key, sym);
    let holding = kb.hold_events(flags);
    let level = keyboard::level_events(needed, kb.hold(flags).held);
    let press = seq![keyboard::press_event(out_kc)];
    down_after_concat(down, holding, level);
    down_after_concat(down, holding + level, press);
    down_after_one(down_after(down, holding + level), keyboard::press_event(out_kc));
    down_after_sync(down, holding + level + press);
    assert((holding + level + press).push(Event::Sync) =~= kb.press_events(key, sym, flags));
}

/// A translated key goes down while the level modifiers are set to exactly what it needs,
/// whatever is held for keybindings. The exception is a key that is typed while another
/// translated key has changed a level modifier for itself.
pub proof fn level_modifiers_are_exact(
    kb: KeyboardView,
    down: Set<u16>,
    key: u32,
    sym: u32,
    flags: ModFlags,
)
    requires
        kb.reverse is Some,
        !typing::only_modifies(sym),
        level_agrees(kb.held, down),
        !is_level_mod(keyboard::target(kb.reverse->0, key, sym).0),
    ensures
        ({
            let (out_kc, needed) = keyboard::target(kb.reverse->0, key, sym);
            let typed = down_after(down, kb.press_events(key, sym, flags));
            &&& typed.contains(out_kc)
            &&& forall|m: u16| #[trigger]
                is_level_mod(m) ==> (typed.contains(m) <==> needed.contains(m))
        }),
{
    let (out_kc, needed) = keyboard::target(kb.reverse->0, key, sym);
    let desired = keyboard::passthrough_keys(flags);
    let held = kb.hold(flags).held;
    down_after_press(down, kb, key, sym, flags);
    level_agrees_after_hold(down, kb.held, desired);
    down_after_level_events(down_after(down, kb.hold_events(flags)), needed, held);
}

proof fn reverse_members(s: Seq<u16>)
    ensures
        s.reverse().to_set() == s.to_set(),
{
    assert forall|c: u16| s.reverse().contains(c) == s.contains(c) by {
        if s.contains(c) {
            let i = choose|i: int| 0 <= i < s.len() && s[i] == c;
            assert(s.reverse()[s.len() - 1 - i] == c);
        }
        if s.reverse().contains(c) {
            let i = choose|i: int| 0 <= i < s.len() && s.reverse()[i] == c;
            assert(s[s.len() - 1 - i] == c);
        }
    }
    assert(s.reverse().to_set() =~= s.to_set());
}

proof fn down_after_undo(down: Set<u16>, p: PressedView)
    ensures
        down_after(down, keyboard::undo_events(p)) == down.remove(p.out_kc).difference(
            p.pressed_mods.to_set(),
        ).union(p.released_mods.to_set()),
{
    let a = seq![keyboard::release_event(p.out_kc)];
    let b = keyboard::release_events(p.pressed_mods.reverse());
    let c = keyboard::press_events(p.released_mods);
    down_after_one(down, keyboard::release_event(p.out_kc));
    down_after_concat(down, a, b);
    down_after_concat(down, a + b, c);
    down_after_release_events(down_after(down, a), p.pressed_mods.reverse());
    reverse_members(p.pressed_mods);
    down_after_press_events(down_after(down, a + b), p.released_mods);
    down_after_sync(down, a + b + c);
    assert((a + b + c).push(Event::Sync) =~= keyboard::undo_events(p));
}

pub(crate) proof fn pressed_key_members(out_kc: u16, needed: Seq<u16>, held: Seq<u16>, c: u16)
    ensures
        keyboard::pressed_key(out_kc, needed, held).pressed_mods.contains(c) <==> is_level_mod(c)
            && keyboard::level_missing(needed, held, c),
        keyboard::pressed_key(out_kc, needed, held).released_mods.contains(c) <==> is_level_mod(c)
            && keyboard::level_excess(needed, held, c),
{
    let p = keyboard::pressed_key(out_kc, needed, held);
    code_pair_members(
        keyboard::level_missing(needed, held, KEY_LEFTSHIFT),
        keyboard::level_missing(needed, held, KEY_RIGHTALT),
        c,
    );
    code_pair_members(
        keyboard::level_excess(needed, held, KEY_LEFTSHIFT),
        keyboard::level_excess(needed, held, KEY_RIGHTALT),
        c,
    );
}

pub(crate) proof fn code_pair_members(shift: bool, alt: bool, c: u16)
    ensures
        (keyboard::code_if(shift, KEY_LEFTSHIFT) + keyboard::code_if(alt, KEY_RIGHTALT)).contains(c)
            <==> (shift && c == KEY_LEFTSHIFT) || (alt && c == KEY_RIGHTALT),
{
    let s = keyboard::code_if(shift, KEY_LEFTSHIFT) + keyboard::code_if(alt, KEY_RIGHTALT);
    if shift {
        assert(s[0] == KEY_LEFTSHIFT);
    }
    if alt {
        assert(s[s.len() - 1] == KEY_RIGHTALT);
    }
}

/// What is undone on release is what was done on press.
proof fn undo_restores(down: Set<u16>, needed: Seq<u16>, held: Seq<u16>, out_kc: u16)
    requires
        level_agrees(held, down),
        !is_level_mod(out_kc),
    ensures
        down_after(
            down_after(down, keyboard::level_events(needed, held)).insert(out_kc),
            keyboard::undo_events(keyboard::pressed_key(out_kc, needed, held)),
        ) == down.remove(out_kc),
{
    let p = keyboard::pressed_key(out_kc, needed, held);
    let typed = down_after(down, keyboard::level_events(needed, held)).insert(out_kc);
    let undone = down_after(typed, keyboard::undo_events(p));
    down_after_level_events(down, needed, held);
    down_after_undo(typed, p);
    assert forall|c: u16| undone.contains(c) == down.remove(out_kc).contains(c) by {
        pressed_key_members(out_kc, needed, held, c);
        assert(is_level_mod(c) ==> (down.contains(c) <==> held.contains(c)));
    }
    assert(undone =~= down.remove(out_kc));
}

/// A change of modifiers leaves the level modifiers of the device what is held for keybindings.
pub proof fn level_agrees_after_hold(down: Set<u16>, held: Seq<u16>, desired: Seq<u16>)
    requires
        level_agrees(held, down),
    ensures
        level_agrees(
            keyboard::held_after(held, desired),
            down_after(down, keyboard::hold_events(held, desired)),
        ),
{
    let now = keyboard::held_after(held, desired);
    down_after_hold(down, held, desired);
    held_is_desired(held, desired);
    assert forall|m: u16| #[trigger] is_level_mod(m) implies (down_after(
        down,
        keyboard::hold_events(held, desired),
    ).contains(m) <==> now.contains(m)) by {
        assert(now.to_set().contains(m) <==> desired.to_set().contains(m));
    }
}

/// A key that is typed leaves no trace: once it is up again, the keys of the device are those
/// that were down when the modifiers of keybindings had been brought up to date. This is so where
/// nothing else happens in between, and no other translated key has changed a level modifier for
/// itself; nor has this one then, so the same holds of the next key.
pub proof fn typing_leaves_no_trace(
    kb: KeyboardView,
    down: Set<u16>,
    key: u32,
    sym: u32,
    flags: ModFlags,
)
    requires
        kb.reverse is Some,
        !typing::only_modifies(sym),
        level_agrees(kb.held, down),
        !is_level_mod(keyboard::target(kb.reverse->0, key, sym).0),
    ensures
        ({
            let (out_kc, needed) = keyboard::target(kb.reverse->0, key, sym);
            let typed = down_after(down, kb.press_events(key, sym, flags));
            let after = kb.press(key, sym, flags);
            &&& down_after(typed, after.release_events(key, flags)) == down_after(
                down,
                kb.hold_events(flags),
            ).remove(out_kc)
            &&& after.release(key, flags).pressed == kb.pressed.remove(key)
            &&& after.release(key, flags).held == kb.hold(flags).held
            &&& level_agrees(
                after.release(key, flags).held,
                down_after(typed, after.release_events(key, flags)),
            )
        }),
{
    let (out_kc, needed) = keyboard::target(kb.reverse->0, key, sym);
    let desired = keyboard::passthrough_keys(flags);
    let held = kb.hold(flags).held;
    let typed = down_after(down, kb.press_events(key, sym, flags));
    let after = kb.press(key, sym, flags);
    let p = keyboard::pressed_key(out_kc, needed, held);
    down_after_press(down, kb, key, sym, flags);
    level_agrees_after_hold(down, kb.held, desired);
    undo_restores(down_after(down, kb.hold_events(flags)), needed, held, out_kc);
    hold_again(kb.held, desired);
    assert(after.pressed[key] == p);
    assert(after.held == held);
    assert(after.release_events(key, flags) =~= keyboard::undo_events(p));
    assert(after.pressed.remove(key) =~= kb.pressed.remove(key));
}

proof fn filter_all(s: Seq<u16>, p: spec_fn(u16) -> bool)
    requires
        forall|c: u16| #[trigger] s.contains(c) ==> p(c),
    ensures
        s.filter(p) == s,
    decreases s.len(),
{
    reveal(Seq::filter);
    if s.len() > 0 {
        assert(s.contains(s.last()));
        assert forall|c: u16| #[trigger] s.drop_last().contains(c) implies p(c) by {
            push_members(s.drop_last(), s.last(), c);
            assert(s.drop_last().push(s.last()) =~= s);
        }
        filter_all(s.drop_last(), p);
        assert(s.drop_last().push(s.last()) =~= s);
    }
}

proof fn filter_none(s: Seq<u16>, p: spec_fn(u16) -> bool)
    requires
        forall|c: u16| #[trigger] s.contains(c) ==> !p(c),
    ensures
        s.filter(p) == Seq::<u16>::empty(),
{
    filter_members(s, p);
    if s.filter(p).len() > 0 {
        assert(s.filter(p).contains(s.filter(p)[0]));
    }
}

/// To hold what is held is to do nothing.
pub proof fn hold_again(held: Seq<u16>, desired: Seq<u16>)
    ensures
        ({
            let now = keyboard::held_after(held, desired);
            &&& keyboard::hold_events(now, desired) == Seq::<Event>::empty()
            &&& keyboard::held_after(now, desired) == now
        }),
{
    let now = keyboard::held_after(held, desired);
    held_is_desired(held, desired);
    assert forall|c: u16| now.contains(c) == desired.contains(c) by {
        assert(now.to_set().contains(c) == desired.to_set().contains(c));
    }
    filter_none(desired, |code: u16| !now.contains(code));
    filter_none(now, |code: u16| !desired.contains(code));
    filter_all(now, |code: u16| desired.contains(code));
    assert(keyboard::hold_events(now, desired) =~= Seq::<Event>::empty());
    assert(keyboard::held_after(now, desired) =~= now);
}

/// The key is held as a modifier without a keymap.
pub open spec fn raw_holds(raw_mods: u32, code: u16) -> bool {
    exists|i: int|
        0 <= i < keyboard::mod_map().len() && (#[trigger] keyboard::mod_map()[i]).1 == code
            && raw_mods & keyboard::mod_map()[i].0 != 0
}

/// The key is down for a translated key.
pub open spec fn key_holds(p: PressedView, code: u16) -> bool {
    code == p.out_kc || p.pressed_mods.contains(code)
}

/// The keyboard knows a reason for the key to be down.
pub open spec fn accounts_for(kb: KeyboardView, code: u16) -> bool {
    ||| kb.held.contains(code)
    ||| exists|k: u32| #[trigger] kb.pressed.contains_key(k) && key_holds(kb.pressed[k], code)
    ||| raw_holds(kb.raw_mods, code)
}

/// The keyboard knows of every key of the device that is down why it is.
pub open spec fn accounted(kb: KeyboardView, down: Set<u16>) -> bool {
    forall|c: u16| #[trigger] down.contains(c) ==> accounts_for(kb, c)
}

/// A new keyboard has no key down.
pub proof fn new_is_accounted(id: Option<u64>)
    ensures
        accounted(keyboard::new_keyboard(id), Set::empty()),
{
}

/// The keymaps have no part in which keys are down: a change of either leaves no key down
/// without a reason.
pub proof fn keymap_change_is_accounted(kb: KeyboardView, other: KeyboardView, down: Set<u16>)
    requires
        accounted(kb, down),
        other.held == kb.held,
        other.pressed == kb.pressed,
        other.raw_mods == kb.raw_mods,
    ensures
        accounted(other, down),
{
    assert forall|c: u16| #[trigger] down.contains(c) implies accounts_for(other, c) by {
        assert(accounts_for(kb, c));
        same_keys_account(kb, other, c);
    }
}

/// A reason that lies in a translated key is as good for any keyboard with that key down.
proof fn same_keys_account(kb: KeyboardView, other: KeyboardView, c: u16)
    requires
        accounts_for(kb, c),
        other.pressed == kb.pressed,
    ensures
        accounts_for(other, c) || kb.held.contains(c) || raw_holds(kb.raw_mods, c),
{
    if exists|k: u32| #[trigger] kb.pressed.contains_key(k) && key_holds(kb.pressed[k], c) {
        let k = choose|k: u32| #[trigger]
            kb.pressed.contains_key(k) && key_holds(kb.pressed[k], c);
        assert(other.pressed.contains_key(k) && key_holds(other.pressed[k], c));
    }
}

proof fn hold_is_accounted(kb: KeyboardView, down: Set<u16>, flags: ModFlags)
    requires
        accounted(kb, down),
    ensures
        accounted(kb.hold(flags), down_after(down, kb.hold_events(flags))),
{
    let desired = keyboard::passthrough_keys(flags);
    let after = down_after(down, kb.hold_events(flags));
    down_after_hold(down, kb.held, desired);
    held_is_desired(kb.held, desired);
    assert forall|c: u16| #[trigger] after.contains(c) implies accounts_for(
        kb.hold(flags),
        c,
    ) by {
        assert(kb.hold(flags).held.to_set().contains(c) <==> desired.to_set().contains(c));
        if !desired.contains(c) {
            assert(down.contains(c) && !kb.held.contains(c));
            assert(accounts_for(kb, c));
            same_keys_account(kb, kb.hold(flags), c);
        }
    }
}

proof fn press_is_accounted(
    kb: KeyboardView,
    down: Set<u16>,
    key: u32,
    sym: u32,
    flags: ModFlags,
)
    requires
        accounted(kb, down),
        !kb.pressed.contains_key(key),
    ensures
        accounted(kb.press(key, sym, flags), down_after(down, kb.press_events(key, sym, flags))),
{
    hold_is_accounted(kb, down, flags);
    if !keyboard::modifier_keysym(sym) {
        let (out_kc, needed) = keyboard::target(kb.reverse->0, key, sym);
        let kb1 = kb.hold(flags);
        let kb2 = kb.press(key, sym, flags);
        let d1 = down_after(down, kb.hold_events(flags));
        let d2 = down_after(down, kb.press_events(key, sym, flags));
        let p = keyboard::pressed_key(out_kc, needed, kb1.held);
        down_after_press(down, kb, key, sym, flags);
        down_after_level_events(d1, needed, kb1.held);
        assert(kb2.pressed == kb1.pressed.insert(key, p));
        assert forall|c: u16| #[trigger] d2.contains(c) implies accounts_for(kb2, c) by {
            pressed_key_members(out_kc, needed, kb1.held, c);
            assert(kb2.pressed.contains_key(key) && kb2.pressed[key] == p);
            if !key_holds(p, c) {
                assert(d1.contains(c));
                assert(accounts_for(kb1, c));
                if exists|k: u32| #[trigger]
                    kb1.pressed.contains_key(k) && key_holds(kb1.pressed[k], c) {
                    let k = choose|k: u32| #[trigger]
                        kb1.pressed.contains_key(k) && key_holds(kb1.pressed[k], c);
                    assert(kb2.pressed.contains_key(k) && kb2.pressed[k] == kb1.pressed[k]);
                }
            }
        }
    }
}

/// The level modifiers that were released for a key are still held for keybindings.
pub open spec fn can_restore(kb: KeyboardView, key: u32) -> bool {
    kb.pressed.contains_key(key) ==> forall|m: u16| #[trigger]
        kb.pressed[key].released_mods.contains(m) ==> kb.held.contains(m)
}

proof fn release_is_accounted(kb: KeyboardView, down: Set<u16>, key: u32, flags: ModFlags)
    requires
        accounted(kb, down),
        can_restore(kb, key),
    ensures
        accounted(kb.release(key, flags), down_after(down, kb.release_events(key, flags))),
{
    let undone = if kb.pressed.contains_key(key) {
        keyboard::undo_events(kb.pressed[key])
    } else {
        Seq::<Event>::empty()
    };
    let kb1 = KeyboardView { pressed: kb.pressed.remove(key), ..kb };
    let d1 = down_after(down, undone);
    if kb.pressed.contains_key(key) {
        down_after_undo(down, kb.pressed[key]);
    }
    assert forall|c: u16| #[trigger] d1.contains(c) implies accounts_for(kb1, c) by {
        if kb.pressed.contains_key(key) && kb.pressed[key].released_mods.contains(c) {
            assert(kb1.held.contains(c));
        } else {
            assert(down.contains(c));
            assert(accounts_for(kb, c));
            if exists|k: u32| #[trigger]
                kb.pressed.contains_key(k) && key_holds(kb.pressed[k], c) {
                let k = choose|k: u32| #[trigger]
                    kb.pressed.contains_key(k) && key_holds(kb.pressed[k], c);
                assert(k != key);
                assert(kb1.pressed.contains_key(k) && kb1.pressed[k] == kb.pressed[k]);
            }
        }
    }
    hold_is_accounted(kb1, d1, flags);
    down_after_concat(down, undone, kb.hold_events(flags));
}

/// What the events for modifiers without a keymap do to the keys.
proof fn down_after_raw_events_upto(down: Set<u16>, have: u32, want: u32, n: nat)
    requires
        n <= keyboard::mod_map().len(),
    ensures
        forall|c: u16| #[trigger]
            down_after(down, keyboard::raw_events_upto(have, want, n)).contains(c) ==> {
                ||| down.contains(c) && forall|i: int|
                    0 <= i < n && (#[trigger] keyboard::mod_map()[i]).1 == c ==> have
                        & keyboard::mod_map()[i].0 == 0 || want & keyboard::mod_map()[i].0 != 0
                ||| exists|i: int|
                    0 <= i < n && (#[trigger] keyboard::mod_map()[i]).1 == c && want
                        & keyboard::mod_map()[i].0 != 0
            },
    decreases n,
{
    if n > 0 {
        let m = (n - 1) as nat;
        let (bit, code) = keyboard::mod_map()[n - 1];
        let before = keyboard::raw_events_upto(have, want, m);
        let event = keyboard::raw_event(have, want, bit, code);
        let d1 = down_after(down, before);
        down_after_raw_events_upto(down, have, want, m);
        down_after_concat(down, before, event);
        down_after_one(d1, keyboard::press_event(code));
        down_after_one(d1, keyboard::release_event(code));
        let d2 = down_after(down, keyboard::raw_events_upto(have, want, n));
        assert(d2 == down_after(d1, event));
        assert forall|c: u16| #[trigger] d2.contains(c) implies {
            ||| down.contains(c) && forall|i: int|
                0 <= i < n && (#[trigger] keyboard::mod_map()[i]).1 == c ==> have
                    & keyboard::mod_map()[i].0 == 0 || want & keyboard::mod_map()[i].0 != 0
            ||| exists|i: int|
                0 <= i < n && (#[trigger] keyboard::mod_map()[i]).1 == c && want
                    & keyboard::mod_map()[i].0 != 0
        } by {
            if c == code && want & bit != 0 {
                assert(keyboard::mod_map()[n - 1].1 == c);
            } else {
                assert(d1.contains(c));
                assert(c == code ==> have & bit == 0);
            }
        }
    }
}

pub(crate) proof fn raw_after_bits(have: u32, want: u32)
    ensures
        forall|i: int|
            0 <= i < keyboard::mod_map().len() ==> keyboard::raw_after(have, want) & (
            #[trigger] keyboard::mod_map()[i]).0 == want & keyboard::mod_map()[i].0,
{
    assert(forall|bit: u32|
        bit == 0x01 || bit == 0x02 || bit == 0x04 || bit == 0x08 || bit == 0x10 || bit == 0x40
            || bit == 0x80 ==> #[trigger] (((have & !0xdfu32) | (want & 0xdfu32)) & bit) == want
            & bit) by (bit_vector);
}

proof fn raw_events_are_accounted(kb: KeyboardView, down: Set<u16>, want: u32)
    requires
        accounted(kb, down),
    ensures
        accounted(
            KeyboardView { raw_mods: keyboard::raw_after(kb.raw_mods, want), ..kb },
            down_after(down, keyboard::raw_events(kb.raw_mods, want)),
        ),
{
    let have = kb.raw_mods;
    let kb1 = KeyboardView { raw_mods: keyboard::raw_after(have, want), ..kb };
    let d1 = down_after(down, keyboard::raw_events(have, want));
    down_after_raw_events_upto(down, have, want, keyboard::mod_map().len());
    raw_after_bits(have, want);
    assert forall|c: u16| #[trigger] d1.contains(c) implies accounts_for(kb1, c) by {
        if exists|i: int|
            0 <= i < keyboard::mod_map().len() && (#[trigger] keyboard::mod_map()[i]).1 == c && want
                & keyboard::mod_map()[i].0 != 0 {
            assert(raw_holds(kb1.raw_mods, c));
        } else {
            assert(down.contains(c));
            assert(accounts_for(kb, c));
            same_keys_account(kb, kb1, c);
            if raw_holds(have, c) {
                let i = choose|i: int|
                    0 <= i < keyboard::mod_map().len() && (#[trigger] keyboard::mod_map()[i]).1 == c
                        && have & keyboard::mod_map()[i].0 != 0;
                assert(want & keyboard::mod_map()[i].0 != 0);
            }
        }
    }
}

proof fn raw_release_is_accounted(kb: KeyboardView, down: Set<u16>)
    requires
        accounted(kb, down),
    ensures
        accounted(
            KeyboardView { raw_mods: 0, ..kb },
            down_after(down, keyboard::raw_release_events(kb.raw_mods)),
        ),
{
    let kb0 = KeyboardView { raw_mods: 0, ..kb };
    if kb.raw_mods != 0 {
        let kb1 = KeyboardView { raw_mods: keyboard::raw_after(kb.raw_mods, 0), ..kb };
        let d1 = down_after(down, keyboard::raw_events(kb.raw_mods, 0));
        raw_events_are_accounted(kb, down, 0);
        raw_after_bits(kb.raw_mods, 0);
        down_after_sync(down, keyboard::raw_events(kb.raw_mods, 0));
        zero_has_no_bits();
        assert forall|c: u16| #[trigger] d1.contains(c) implies accounts_for(kb0, c) by {
            assert(accounts_for(kb1, c));
            same_keys_account(kb1, kb0, c);
        }
    }
}

proof fn zero_has_no_bits()
    ensures
        forall|bit: u32| #[trigger] (0u32 & bit) == 0,
{
    assert(forall|bit: u32| #[trigger] (0u32 & bit) == 0) by (bit_vector);
}

/// Whatever key event arrives, the keyboard knows afterwards of every key that is down why it is.
/// The exceptions are a key that is pressed while a keymap is missing, which is passed on and not
/// remembered, and the release of a key for which a modifier was let go that is no longer to be
/// held: the modifier is pressed again.
pub proof fn key_is_accounted(kb: KeyboardView, down: Set<u16>, key: u32, press: bool)
    requires
        accounted(kb, down),
        !kb.translating() ==> !press,
        kb.translating() && !press ==> can_restore(kb, key),
    ensures
        accounted(kb.key(key, press), down_after(down, kb.key_events(key, press))),
{
    if kb.translating() {
        let kb0 = KeyboardView { raw_mods: 0, ..kb };
        let let_go = keyboard::raw_release_events(kb.raw_mods);
        let d0 = down_after(down, let_go);
        raw_release_is_accounted(kb, down);
        down_after_concat(down, let_go, kb0.translate_events(key, press));
        assert(kb0.translate_events(key, press) == kb.translate_events(key, press));
        let kb1 = kb0.client_key(key, press);
        keymap_change_is_accounted(kb0, kb1, d0);
        if press {
            if !kb.pressed.contains_key(key) {
                press_is_accounted(kb1, d0, key, kb0.client_sym(key), kb1.flags());
            }
        } else {
            release_is_accounted(kb1, d0, key, kb1.flags());
        }
    } else {
        let event = Event::Emit(EV_KEY, keyboard::raw_code(key), 0);
        down_after_concat(down, seq![event], seq![Event::Sync]);
        down_after_one(down, event);
        down_after_one(down_after(down, seq![event]), Event::Sync);
        assert(kb.key_events(key, press) =~= seq![event] + seq![Event::Sync]);
    }
}

/// Whatever modifiers arrive, the keyboard knows afterwards of every key that is down why it is.
pub proof fn modifiers_are_accounted(
    kb: KeyboardView,
    down: Set<u16>,
    depressed: u32,
    latched: u32,
    locked: u32,
    group: u32,
)
    requires
        accounted(kb, down),
    ensures
        accounted(
            kb.modifiers(depressed, latched, locked, group),
            down_after(down, kb.modifiers_events(depressed, latched, locked, group)),
        ),
{
    let want = depressed | latched | locked;
    if kb.translating() {
        let kb0 = KeyboardView { raw_mods: 0, ..kb };
        let client = xkb::state_after_mask(
            kb.client->0,
            depressed,
            latched,
            locked,
            0,
            0,
            group as usize,
        );
        let kb1 = KeyboardView { client: Some(client), ..kb0 };
        let let_go = keyboard::raw_release_events(kb.raw_mods);
        let d0 = down_after(down, let_go);
        raw_release_is_accounted(kb, down);
        keymap_change_is_accounted(kb0, kb1, d0);
        hold_is_accounted(kb1, d0, kb1.flags());
        down_after_concat(down, let_go, kb.hold_events(kb1.flags()));
    } else {
        raw_events_are_accounted(kb, down, want);
        down_after_sync(down, keyboard::raw_events(kb.raw_mods, want));
    }
}

proof fn down_after_give_up(down: Set<u16>, pressed: Map<u32, PressedView>, order: Seq<u32>)
    ensures
        forall|c: u16| #[trigger]
            down_after(down, keyboard::give_up_events(pressed, order)).contains(c) ==> {
                &&& down.contains(c)
                &&& forall|i: int|
                    0 <= i < order.len() ==> !key_holds(pressed[#[trigger] order[i]], c)
            },
    decreases order.len(),
{
    if order.len() > 0 {
        let p = pressed[order.last()];
        let before = keyboard::give_up_events(pressed, order.drop_last());
        let a = seq![keyboard::release_event(p.out_kc)];
        let b = keyboard::release_events(p.pressed_mods.reverse());
        let d1 = down_after(down, before);
        down_after_give_up(down, pressed, order.drop_last());
        down_after_concat(down, before, a);
        down_after_one(d1, keyboard::release_event(p.out_kc));
        down_after_concat(down, before + a, b);
        down_after_release_events(down_after(down, before + a), p.pressed_mods.reverse());
        reverse_members(p.pressed_mods);
        let d2 = down_after(down, keyboard::give_up_events(pressed, order));
        assert(d2 == d1.remove(p.out_kc).difference(p.pressed_mods.to_set()));
        assert forall|c: u16| #[trigger] d2.contains(c) implies down.contains(c) && forall|i: int|
            0 <= i < order.len() ==> !key_holds(pressed[#[trigger] order[i]], c) by {
            assert(d1.contains(c));
            assert forall|i: int| 0 <= i < order.len() implies !key_holds(
                pressed[#[trigger] order[i]],
                c,
            ) by {
                if i < order.len() - 1 {
                    assert(order.drop_last()[i] == order[i]);
                }
            }
        }
    }
}

/// No key is stuck: a keyboard that knows of every key why it is down leaves none down when it is
/// given up, in whatever order it lets go of them.
pub proof fn destroy_leaves_nothing_down(kb: KeyboardView, down: Set<u16>, order: Seq<u32>)
    requires
        accounted(kb, down),
        keyboard::lists_keys(order, kb.pressed),
    ensures
        down_after(down, kb.destroy_events(order)) == Set::<u16>::empty(),
{
    let given_up = keyboard::give_up_events(kb.pressed, order);
    let held = keyboard::release_events(kb.held);
    let raw = keyboard::raw_events(kb.raw_mods, 0);
    let d1 = down_after(down, given_up);
    let d2 = down_after(d1, held);
    let d3 = down_after(d2, raw);
    down_after_concat(down, given_up, held);
    down_after_concat(down, given_up + held, raw);
    down_after_sync(down, given_up + held + raw);
    assert((given_up + held + raw).push(Event::Sync) =~= kb.destroy_events(order));
    down_after_give_up(down, kb.pressed, order);
    down_after_release_events(d1, kb.held);
    down_after_raw_events_upto(d2, kb.raw_mods, 0, keyboard::mod_map().len());
    zero_has_no_bits();
    assert forall|c: u16| !d3.contains(c) by {
        if d3.contains(c) {
            assert(d2.contains(c) && d1.contains(c) && down.contains(c));
            assert(accounts_for(kb, c));
            assert(!kb.held.contains(c));
            if exists|k: u32| #[trigger]
                kb.pressed.contains_key(k) && key_holds(kb.pressed[k], c) {
                let k = choose|k: u32| #[trigger]
                    kb.pressed.contains_key(k) && key_holds(kb.pressed[k], c);
                assert(order.to_set().contains(k));
                let i = choose|i: int| 0 <= i < order.len() && order[i] == k;
                assert(!key_holds(kb.pressed[order[i]], c));
            }
            assert(raw_holds(kb.raw_mods, c));
        }
    }
    assert(d3 =~= Set::<u16>::empty());
}

/// The modifier keys that are held for keybindings.
pub open spec fn is_passthrough(code: u16) -> bool {
    code == KEY_LEFTSHIFT || code == KEY_LEFTCTRL || code == KEY_LEFTALT || code == KEY_LEFTMETA
}

/// What is remembered of a key concerns level modifiers only.
pub open spec fn valid_pressed(p: PressedView) -> bool {
    &&& forall|m: u16| #[trigger] p.pressed_mods.contains(m) ==> is_level_mod(m)
    &&& forall|m: u16| #[trigger] p.released_mods.contains(m) ==> is_level_mod(m)
}

/// What holds of every keyboard: no key is held twice, and only those for keybindings are; keys
/// that are down have changed level modifiers only; and only modifiers that have a key are held
/// without a keymap.
pub open spec fn valid(kb: KeyboardView) -> bool {
    &&& kb.held.no_duplicates()
    &&& forall|m: u16| #[trigger] kb.held.contains(m) ==> is_passthrough(m)
    &&& forall|k: u32| #[trigger] kb.pressed.contains_key(k) ==> valid_pressed(kb.pressed[k])
    &&& kb.raw_mods & !keyboard::MAPPED_MODS == 0
}

/// A new keyboard is valid.
pub proof fn new_is_valid(id: Option<u64>)
    ensures
        valid(keyboard::new_keyboard(id)),
{
    zero_has_no_bits();
}

pub(crate) proof fn filter_no_duplicates(s: Seq<u16>, p: spec_fn(u16) -> bool)
    requires
        s.no_duplicates(),
    ensures
        s.filter(p).no_duplicates(),
    decreases s.len(),
{
    reveal(Seq::filter);
    if s.len() > 0 {
        let rest = s.drop_last();
        filter_no_duplicates(rest, p);
        filter_members(rest, p);
        if rest.filter(p).contains(s.last()) {
            assert(rest.contains(s.last()));
            let i = choose|i: int| 0 <= i < rest.len() && rest[i] == s.last();
            assert(s[i] == s[s.len() - 1]);
        }
    }
}

pub(crate) proof fn passthrough_keys_members(flags: ModFlags)
    ensures
        keyboard::passthrough_keys(flags).no_duplicates(),
        forall|c: u16| #[trigger]
            keyboard::passthrough_keys(flags).contains(c) <==> {
                ||| flags.shift && c == KEY_LEFTSHIFT
                ||| flags.control && c == KEY_LEFTCTRL
                ||| flags.mod1 && c == KEY_LEFTALT
                ||| flags.mod4 && c == KEY_LEFTMETA
            },
{
    let a = keyboard::code_if(flags.shift, KEY_LEFTSHIFT);
    let b = keyboard::code_if(flags.control, KEY_LEFTCTRL);
    let c = keyboard::code_if(flags.mod1, KEY_LEFTALT);
    let d = keyboard::code_if(flags.mod4, KEY_LEFTMETA);
    let s = keyboard::passthrough_keys(flags);
    assert(s =~= a + b + c + d);
    if flags.shift {
        assert(s[0] == KEY_LEFTSHIFT);
    }
    if flags.control {
        assert(s[a.len() as int] == KEY_LEFTCTRL);
    }
    if flags.mod1 {
        assert(s[(a + b).len() as int] == KEY_LEFTALT);
    }
    if flags.mod4 {
        assert(s[(a + b + c).len() as int] == KEY_LEFTMETA);
    }
}

proof fn hold_is_valid(kb: KeyboardView, flags: ModFlags)
    requires
        valid(kb),
    ensures
        valid(kb.hold(flags)),
{
    let desired = keyboard::passthrough_keys(flags);
    let stay = kb.held.filter(|code: u16| desired.contains(code));
    let new = keyboard::newly_held(kb.held, desired);
    let held = kb.hold(flags).held;
    passthrough_keys_members(flags);
    held_is_desired(kb.held, desired);
    filter_no_duplicates(kb.held, |code: u16| desired.contains(code));
    filter_no_duplicates(desired, |code: u16| !kb.held.contains(code));
    filter_members(kb.held, |code: u16| desired.contains(code));
    filter_members(desired, |code: u16| !kb.held.contains(code));
    assert forall|i: int, j: int| 0 <= i < stay.len() && 0 <= j < new.len() implies stay[i]
        != new[j] by {
        assert(stay.contains(stay[i]));
        assert(new.contains(new[j]));
    }
    assert(held.no_duplicates());
    assert forall|m: u16| #[trigger] held.contains(m) implies is_passthrough(m) by {
        assert(held.to_set().contains(m) <==> desired.to_set().contains(m));
    }
}

/// Every key event keeps a keyboard valid.
pub proof fn key_is_valid(kb: KeyboardView, key: u32, press: bool)
    requires
        valid(kb),
    ensures
        valid(kb.key(key, press)),
{
    zero_has_no_bits();
    if kb.translating() {
        let kb0 = KeyboardView { raw_mods: 0, ..kb };
        let kb1 = kb0.client_key(key, press);
        assert(valid(kb1));
        if press {
            if !kb.pressed.contains_key(key) {
                let sym = kb0.client_sym(key);
                hold_is_valid(kb1, kb1.flags());
                let kb2 = kb1.hold(kb1.flags());
                if !keyboard::modifier_keysym(sym) {
                    let (out_kc, needed) = keyboard::target(kb1.reverse->0, key, sym);
                    let p = keyboard::pressed_key(out_kc, needed, kb2.held);
                    assert forall|m: u16|
                        p.pressed_mods.contains(m) || p.released_mods.contains(m) implies
                        is_level_mod(m) by {
                        pressed_key_members(out_kc, needed, kb2.held, m);
                    }
                    assert(valid_pressed(p));
                    let kb3 = kb.key(key, press);
                    assert(kb3.pressed == kb2.pressed.insert(key, p));
                    assert forall|k: u32| #[trigger]
                        kb3.pressed.contains_key(k) implies valid_pressed(kb3.pressed[k]) by {
                        if k != key {
                            assert(kb2.pressed.contains_key(k));
                        }
                    }
                }
            }
        } else {
            let kb2 = KeyboardView { pressed: kb1.pressed.remove(key), ..kb1 };
            assert forall|k: u32| #[trigger] kb2.pressed.contains_key(k) implies valid_pressed(
                kb2.pressed[k],
            ) by {
                assert(kb1.pressed.contains_key(k));
            }
            hold_is_valid(kb2, kb1.flags());
        }
    }
}

/// Every change of modifiers keeps a keyboard valid.
pub proof fn modifiers_are_valid(
    kb: KeyboardView,
    depressed: u32,
    latched: u32,
    locked: u32,
    group: u32,
)
    requires
        valid(kb),
    ensures
        valid(kb.modifiers(depressed, latched, locked, group)),
{
    zero_has_no_bits();
    let want = depressed | latched | locked;
    if kb.translating() {
        let client = xkb::state_after_mask(
            kb.client->0,
            depressed,
            latched,
            locked,
            0,
            0,
            group as usize,
        );
        let kb1 = KeyboardView { client: Some(client), raw_mods: 0, ..kb };
        assert(valid(kb1));
        hold_is_valid(kb1, kb1.flags());
    } else {
        let have = kb.raw_mods;
        assert(have & !0xdfu32 == 0 ==> ((have & !0xdfu32) | (want & 0xdfu32)) & !0xdfu32 == 0)
            by (bit_vector);
    }
}

/// A keyboard that was given up is valid, and holds nothing.
pub proof fn destroyed_is_valid(kb: KeyboardView)
    ensures
        valid(kb.destroyed()),
        forall|c: u16| !#[trigger] accounts_for(kb.destroyed(), c),
{
    zero_has_no_bits();
}

/// Keybindings see the modifiers: after a key event that is translated and not ignored, and after
/// a change of modifiers that is, the keys that are held are those of the modifiers that are
/// active under the client's keymap. It does not matter what was held before, so a change of the
/// keymap leaves no modifier stuck.
pub proof fn held_follows_client(kb: KeyboardView, key: u32, press: bool)
    requires
        kb.translating(),
        !(press && kb.pressed.contains_key(key)),
    ensures
        kb.key(key, press).held.to_set() == keyboard::passthrough_keys(
            kb.key(key, press).flags(),
        ).to_set(),
{
    let kb0 = KeyboardView { raw_mods: 0, ..kb };
    let kb1 = kb0.client_key(key, press);
    held_is_desired(kb.held, keyboard::passthrough_keys(kb1.flags()));
}

/// As [`held_follows_client`], for a change of modifiers.
pub proof fn held_follows_modifiers(
    kb: KeyboardView,
    depressed: u32,
    latched: u32,
    locked: u32,
    group: u32,
)
    requires
        kb.translating(),
    ensures
        ({
            let after = kb.modifiers(depressed, latched, locked, group);
            after.held.to_set() == keyboard::passthrough_keys(after.flags()).to_set()
        }),
{
    let after = kb.modifiers(depressed, latched, locked, group);
    held_is_desired(kb.held, keyboard::passthrough_keys(after.flags()));
}

/// A press of a key that is down is ignored: it changes nothing and reports nothing.
pub proof fn repeated_press_is_ignored(kb: KeyboardView, key: u32)
    requires
        kb.pressed.contains_key(key),
    ensures
        kb.translate(key, true) == kb,
        kb.translate_events(key, true) == Seq::<Event>::empty(),
{
}

/// What a key's release reports is settled when it is pressed: it does not depend on the keymaps
/// that there are by then.
pub proof fn release_ignores_keymaps(
    kb: KeyboardView,
    other: KeyboardView,
    key: u32,
    flags: ModFlags,
)
    requires
        other.held == kb.held,
        other.pressed == kb.pressed,
    ensures
        other.release_events(key, flags) == kb.release_events(key, flags),
{
}

/// Modifiers that arrive a second time while a keymap is missing report nothing.
pub proof fn same_raw_modifiers_again(have: u32, want: u32)
    ensures
        keyboard::raw_events(keyboard::raw_after(have, want), want) == Seq::<Event>::empty(),
        keyboard::raw_after(keyboard::raw_after(have, want), want) == keyboard::raw_after(
            have,
            want,
        ),
{
    raw_after_bits(have, want);
    nothing_to_do_upto(keyboard::raw_after(have, want), want, keyboard::mod_map().len());
    assert(((((have & !0xdfu32) | (want & 0xdfu32)) & !0xdfu32) | (want & 0xdfu32)) == (have
        & !0xdfu32) | (want & 0xdfu32)) by (bit_vector);
}

proof fn nothing_to_do_upto(have: u32, want: u32, n: nat)
    requires
        n <= keyboard::mod_map().len(),
        forall|i: int|
            0 <= i < keyboard::mod_map().len() ==> have & (#[trigger] keyboard::mod_map()[i]).0
                == want & keyboard::mod_map()[i].0,
    ensures
        keyboard::raw_events_upto(have, want, n) == Seq::<Event>::empty(),
    decreases n,
{
    if n > 0 {
        nothing_to_do_upto(have, want, (n - 1) as nat);
        assert(have & keyboard::mod_map()[n - 1].0 == want & keyboard::mod_map()[n - 1].0);
        assert(keyboard::raw_events_upto(have, want, n) =~= Seq::<Event>::empty());
    }
}

/// Modifiers that arrive a second time report nothing and change nothing, with or without keymaps.
/// Here `start` is what the keyboard knew when they first arrived and it had looked at the
/// compositor's keymap, `after` what it knew then, and `again` what it knows once it has looked at
/// the unchanged keymap for the second time. That a mask overrides the one before is what
/// [`keyboard::Keyboard::handle_modifiers`] ensures.
pub proof fn same_modifiers_again(
    before: KeyboardView,
    start: KeyboardView,
    after: KeyboardView,
    again: KeyboardView,
    active: SharedKeymapView,
    mods: (u32, u32, u32, u32),
)
    requires
        keyboard::reverse_ensured(before, active, start),
        after == start.modifiers(mods.0, mods.1, mods.2, mods.3),
        start.translating() ==> xkb::same_after_mask(after.client->0, start.client->0),
        keyboard::reverse_ensured(after, active, again),
    ensures
        again == after,
        again.modifiers(mods.0, mods.1, mods.2, mods.3) == after,
        again.modifiers_events(mods.0, mods.1, mods.2, mods.3) == Seq::<Event>::empty(),
{
    if start.translating() {
        hold_again(start.held, keyboard::passthrough_keys(after.flags()));
        assert(again.modifiers_events(mods.0, mods.1, mods.2, mods.3) =~= Seq::<Event>::empty());
    } else {
        same_raw_modifiers_again(start.raw_mods, mods.0 | mods.1 | mods.2);
    }
    assert(again.modifiers(mods.0, mods.1, mods.2, mods.3) =~= after);
}

/// The modifier keys that do not change the level are passed through as they are: Control, Alt
/// and the logo key.
pub open spec fn is_plain_mod(code: u16) -> bool {
    code == KEY_LEFTCTRL || code == KEY_LEFTALT || code == KEY_LEFTMETA
}

/// The plain modifiers of the device are what is held for keybindings.
pub open spec fn plain_agrees(held: Seq<u16>, down: Set<u16>) -> bool {
    forall|m: u16| #[trigger] is_plain_mod(m) ==> (down.contains(m) <==> held.contains(m))
}

proof fn plain_agrees_after_hold(down: Set<u16>, held: Seq<u16>, desired: Seq<u16>)
    requires
        plain_agrees(held, down),
    ensures
        plain_agrees(
            keyboard::held_after(held, desired),
            down_after(down, keyboard::hold_events(held, desired)),
        ),
{
    let now = keyboard::held_after(held, desired);
    down_after_hold(down, held, desired);
    held_is_desired(held, desired);
    assert forall|m: u16| #[trigger] is_plain_mod(m) implies (down_after(
        down,
        keyboard::hold_events(held, desired),
    ).contains(m) <==> now.contains(m)) by {
        assert(now.to_set().contains(m) <==> desired.to_set().contains(m));
    }
}

/// Translated keys do not touch the plain modifiers: those of the device stay what is held for
/// keybindings, as long as no key is typed by one of them.
pub proof fn plain_modifiers_pass_through(
    kb: KeyboardView,
    down: Set<u16>,
    key: u32,
    press: bool,
)
    requires
        valid(kb),
        kb.translating(),
        plain_agrees(kb.held, down),
        press ==> !is_plain_mod(keyboard::target(kb.reverse->0, key, kb.client_sym(key)).0),
        !press && kb.pressed.contains_key(key) ==> !is_plain_mod(kb.pressed[key].out_kc),
    ensures
        plain_agrees(
            kb.translate(key, press).held,
            down_after(down, kb.translate_events(key, press)),
        ),
{
    let kb1 = kb.client_key(key, press);
    let flags = kb1.flags();
    let desired = keyboard::passthrough_keys(flags);
    if press {
        if !kb.pressed.contains_key(key) {
            let sym = kb.client_sym(key);
            plain_agrees_after_hold(down, kb.held, desired);
            if !keyboard::modifier_keysym(sym) {
                let (out_kc, needed) = keyboard::target(kb.reverse->0, key, sym);
                down_after_press(down, kb1, key, sym, flags);
                down_after_level_events(
                    down_after(down, kb1.hold_events(flags)),
                    needed,
                    kb1.hold(flags).held,
                );
            }
        }
    } else {
        if kb.pressed.contains_key(key) {
            let p = kb.pressed[key];
            let d1 = down_after(down, keyboard::undo_events(p));
            down_after_undo(down, p);
            assert(valid_pressed(p));
            assert forall|m: u16| #[trigger] is_plain_mod(m) implies (d1.contains(m)
                <==> kb.held.contains(m)) by {
                assert(!is_level_mod(m));
                assert(!p.pressed_mods.contains(m) && !p.released_mods.contains(m));
            }
            plain_agrees_after_hold(d1, kb.held, desired);
            down_after_concat(down, keyboard::undo_events(p), kb1.hold_events(flags));
        } else {
            plain_agrees_after_hold(down, kb.held, desired);
            assert(kb1.release_events(key, flags) =~= kb1.hold_events(flags));
        }
    }
}

/// A translated key types its keysym: after the press the key of the device is down, and under
/// the compositor's keymap, with the level modifiers that are down on the device then, that key
/// produces the keysym that the client typed. This holds for a keysym that the compositor's keymap
/// can produce by the combinations that are tried; and not while another translated key has
/// changed a level modifier for itself.
pub proof fn typed_key_produces_keysym(
    kb: KeyboardView,
    keymap: Keymap,
    down: Set<u16>,
    key: u32,
    sym: u32,
    flags: ModFlags,
) -> (keycode: u32)
    requires
        kb.reverse is Some,
        reverse::reverses(kb.reverse->0, keymap),
        kb.reverse->0.contains_key(sym),
        !typing::only_modifies(sym),
        level_agrees(kb.held, down),
        !is_level_mod(kb.reverse->0[sym].0),
    ensures
        ({
            let typed = down_after(down, kb.press_events(key, sym, flags));
            &&& typed.contains(reverse::evdev_code(keycode))
            &&& xkb::keymap_min_keycode(keymap) <= keycode
                <= xkb::keymap_max_keycode(keymap)
            &&& reverse::level_sym(
                keymap,
                reverse::level_mask(
                    keymap,
                    typed.contains(KEY_LEFTSHIFT),
                    typed.contains(KEY_RIGHTALT),
                ),
                keycode,
            ) == Some(sym)
        }),
{
    level_modifiers_are_exact(kb, down, key, sym, flags);
    assert(is_level_mod(KEY_LEFTSHIFT) && is_level_mod(KEY_RIGHTALT));
    reverse::lookup_produces_keysym(kb.reverse->0, keymap, sym)
}

/// The reverse map is that of the compositor's keymap, or known to be of an older one.
pub open spec fn current(kb: KeyboardView, active: SharedKeymapView) -> bool {
    &&& kb.version <= active.version
    &&& kb.reverse is Some && kb.version == active.version ==> active.keymap is Some
        && reverse::reverses(kb.reverse->0, active.keymap->0)
}

/// A new keyboard does not know a wrong reverse map.
pub proof fn new_is_current(id: Option<u64>, active: SharedKeymapView)
    ensures
        current(keyboard::new_keyboard(id), active),
{
}

/// Keys are translated by the keymap that is active when they arrive: whatever the compositor's
/// keymap was before, the reverse map that is used is that of the active one.
pub proof fn reverse_is_of_active_keymap(
    before: KeyboardView,
    active: SharedKeymapView,
    after: KeyboardView,
)
    requires
        current(before, active),
        active.keymap is Some,
        keyboard::reverse_ensured(before, active, after),
    ensures
        current(after, active),
        after.reverse is Some,
        reverse::reverses(after.reverse->0, active.keymap->0),
{
}

/// No event, and no change of keymap, makes a keyboard take an outdated reverse map for the
/// current one.
pub proof fn stays_current(
    kb: KeyboardView,
    active: SharedKeymapView,
    key: u32,
    press: bool,
    mods: (u32, u32, u32, u32),
    format: u32,
    compiled: Option<Keymap>,
)
    requires
        current(kb, active),
        active.version < u64::MAX,
    ensures
        current(kb.key(key, press), active),
        current(kb.modifiers(mods.0, mods.1, mods.2, mods.3), active),
        current(kb.destroyed(), active),
        current(kb, seat::keymap_after(active, format, compiled)),
{
}

/// What a client types is what is typed: when a key event is translated, the key that goes down on
/// the device produces, under the compositor's active keymap and with the level modifiers that are
/// down on the device then, the keysym that the key has under the client's keymap. As for
/// [`typed_key_produces_keysym`], the compositor's keymap must be able to produce it. The modifiers
/// that were held while a keymap was missing are let go of first.
pub proof fn key_types_client_keysym(
    kb: KeyboardView,
    active: SharedKeymapView,
    down: Set<u16>,
    key: u32,
) -> (keycode: u32)
    requires
        current(kb, active),
        kb.version == active.version,
        kb.translating(),
        !kb.pressed.contains_key(key),
        level_agrees(kb.held, down_after(down, keyboard::raw_release_events(kb.raw_mods))),
        !typing::only_modifies(kb.client_sym(key)),
        kb.reverse->0.contains_key(kb.client_sym(key)),
        !is_level_mod(kb.reverse->0[kb.client_sym(key)].0),
    ensures
        ({
            let typed = down_after(down, kb.key_events(key, true));
            let keymap = active.keymap->0;
            &&& typed.contains(reverse::evdev_code(keycode))
            &&& xkb::keymap_min_keycode(keymap) <= keycode <= xkb::keymap_max_keycode(keymap)
            &&& reverse::level_sym(
                keymap,
                reverse::level_mask(
                    keymap,
                    typed.contains(KEY_LEFTSHIFT),
                    typed.contains(KEY_RIGHTALT),
                ),
                keycode,
            ) == Some(kb.client_sym(key))
        }),
{
    let next = kb.client_key(key, true);
    let sym = kb.client_sym(key);
    let released = keyboard::raw_release_events(kb.raw_mods);
    down_after_concat(down, released, next.press_events(key, sym, next.flags()));
    typed_key_produces_keysym(
        next,
        active.keymap->0,
        down_after(down, released),
        key,
        sym,
        next.flags(),
    )
}

/// The modifier keys of the device are those of the given modifiers, by the fallback mapping.
pub open spec fn raw_agrees(mods: u32, down: Set<u16>) -> bool {
    forall|i: int|
        0 <= i < keyboard::mod_map().len() ==> (down.contains(
            (#[trigger] keyboard::mod_map()[i]).1,
        ) <==> mods & keyboard::mod_map()[i].0 != 0)
}

proof fn raw_agrees_upto(down: Set<u16>, have: u32, want: u32, n: nat)
    requires
        n <= keyboard::mod_map().len(),
        raw_agrees(have, down),
    ensures
        forall|i: int|
            0 <= i < keyboard::mod_map().len() ==> (down_after(
                down,
                keyboard::raw_events_upto(have, want, n),
            ).contains((#[trigger] keyboard::mod_map()[i]).1) <==> (if i < n {
                want
            } else {
                have
            }) & keyboard::mod_map()[i].0 != 0),
    decreases n,
{
    if n > 0 {
        let m = (n - 1) as nat;
        let (bit, code) = keyboard::mod_map()[m as int];
        let before = keyboard::raw_events_upto(have, want, m);
        raw_agrees_upto(down, have, want, m);
        down_after_concat(down, before, keyboard::raw_event(have, want, bit, code));
        down_after_one(down_after(down, before), keyboard::press_event(code));
        down_after_one(down_after(down, before), keyboard::release_event(code));
        assert(keyboard::mod_map()[m as int].1 == code);
    }
}

/// While a keymap is missing, the modifier keys of the device are exactly those of the modifiers
/// that the client reported last.
pub proof fn raw_modifiers_are_exact(down: Set<u16>, have: u32, want: u32)
    requires
        raw_agrees(have, down),
    ensures
        raw_agrees(
            keyboard::raw_after(have, want),
            down_after(down, uinput::sync_if_any(keyboard::raw_events(have, want))),
        ),
        forall|i: int|
            0 <= i < keyboard::mod_map().len() ==> keyboard::raw_after(have, want) & (
            #[trigger] keyboard::mod_map()[i]).0 == want & keyboard::mod_map()[i].0,
{
    raw_agrees_upto(down, have, want, keyboard::mod_map().len());
    raw_after_bits(have, want);
    down_after_sync(down, keyboard::raw_events(have, want));
}

} // verus!
