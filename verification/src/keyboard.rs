//! A virtual keyboard that is typed on with one keymap and read with another.
//!
//! If the client keymap is available and can map the key to a keysym which can
//! be mapped back to evdev codes for the compositor's keymap, if also
//! available, those evdev codes are used. Otherwise, evdev codes are used as-is
//! and modifiers are simulated as modifier keypresses.

use crate::keystate;
use crate::reverse;
use crate::reverse::ReverseMap;
use crate::seat;
use crate::seat::{SharedKeymap, SharedKeymapView};
use crate::uinput;
use crate::uinput::{
    Capability, Cmd, Counter, Device, DevicePlan, Event, Queue, UinputBuilder, EV_KEY, KEY_CAPSLOCK,
    KEY_LEFTALT, KEY_LEFTCTRL, KEY_LEFTMETA, KEY_LEFTSHIFT, KEY_NUMLOCK, KEY_RIGHTALT,
};
use crate::xkb;
use std::collections::HashMap;
use vstd::prelude::*;
use vstd::std_specs::iter::IteratorSpec;
use xkbcommon_rs::{Keymap, State};

verus! {

broadcast use vstd::std_specs::hash::group_hash_axioms;

/// `wl_keyboard.keymap_format.xkb_v1`.
pub const KEYMAP_FORMAT_XKB_V1: u32 = 1;

/// Whether a keysym belongs to a key that only affects the xkb state.
pub open spec fn modifier_keysym(sym: u32) -> bool {
    ||| 0xffe1 <= sym <= 0xffee  // Shift_L..Hyper_R
    ||| sym == 0xff7e  // Mode_switch (ISO_Group_Shift / AltGr alias)
    ||| sym == 0xff7f  // Num_Lock
    ||| sym == 0xfe03  // ISO_Level3_Shift
    ||| sym == 0xfe11  // ISO_Level5_Shift
}

/// Level modifier keys which only affect the xkb state and change the value of keysyms.
pub fn is_modifier_keysym(sym: u32) -> (r: bool)
    ensures
        r == modifier_keysym(sym),
        r <==> 0xffe1 <= sym <= 0xffee || sym == 0xff7e || sym == 0xff7f || sym == 0xfe03 || sym
            == 0xfe11,
{
    (0xffe1 <= sym && sym <= 0xffee) || sym == 0xff7e || sym == 0xff7f || sym == 0xfe03 || sym
        == 0xfe11
}

/// The effective modifiers that keybindings look at.
#[derive(Clone, Copy, Debug, PartialEq, Eq, Structural)]
pub struct ModFlags {
    pub shift: bool,
    pub control: bool,
    pub mod1: bool,
    pub mod4: bool,
}

/// The effective modifiers of a state. One that the keymap does not have is not active.
pub open spec fn state_flags(state: State) -> ModFlags {
    ModFlags {
        shift: xkb::state_mod(state, "Shift"@) == Some(true),
        control: xkb::state_mod(state, "Control"@) == Some(true),
        mod1: xkb::state_mod(state, "Mod1"@) == Some(true),
        mod4: xkb::state_mod(state, "Mod4"@) == Some(true),
    }
}

fn is_active(state: &State, name: &str) -> (r: bool)
    ensures
        r == (xkb::state_mod(*state, name@) == Some(true)),
{
    match xkb::mod_name_is_active(state, name) {
        Some(active) => active,
        None => false,
    }
}

/// The effective modifiers of a state.
pub fn effective_mods(state: &State) -> (flags: ModFlags)
    ensures
        flags == state_flags(*state),
{
    ModFlags {
        shift: is_active(state, "Shift"),
        control: is_active(state, "Control"),
        mod1: is_active(state, "Mod1"),
        mod4: is_active(state, "Mod4"),
    }
}

/// A sequence of the code alone, or of nothing.
pub open spec fn code_if(condition: bool, code: u16) -> Seq<u16> {
    if condition {
        seq![code]
    } else {
        seq![]
    }
}

/// The keys that are held for the active modifiers.
pub open spec fn passthrough_keys(flags: ModFlags) -> Seq<u16> {
    code_if(flags.shift, KEY_LEFTSHIFT) + code_if(flags.control, KEY_LEFTCTRL) + code_if(
        flags.mod1,
        KEY_LEFTALT,
    ) + code_if(flags.mod4, KEY_LEFTMETA)
}

/// The keys that are to be held for the active modifiers.
pub fn flag_keys(flags: ModFlags) -> (keys: Vec<u16>)
    ensures
        keys@ == passthrough_keys(flags),
{
    let mut keys: Vec<u16> = Vec::new();
    if flags.shift {
        keys.push(KEY_LEFTSHIFT);
    }
    if flags.control {
        keys.push(KEY_LEFTCTRL);
    }
    if flags.mod1 {
        keys.push(KEY_LEFTALT);
    }
    if flags.mod4 {
        keys.push(KEY_LEFTMETA);
    }
    assert(keys@ =~= passthrough_keys(flags));
    keys
}

/// Modifier keys to pass through so keybindings work correctly.
///
/// Shift is included even though it's a level modifier since bindings and
/// modified clicks (e.g. Alt+Shift+Click) need it to be actually held, so it's
/// held here and temporarily released per-key in [`Keyboard::translate_key`]
/// when a translated key needs a different shift state than the one held for
/// the binding.
pub fn passthrough_mod_keys(state: &State) -> (keys: Vec<u16>)
    ensures
        keys@ == passthrough_keys(state_flags(*state)),
{
    flag_keys(effective_mods(state))
}

/// A key goes down.
pub open spec fn press_event(code: u16) -> Event {
    Event::Emit(EV_KEY, code, 1)
}

/// A key goes up.
pub open spec fn release_event(code: u16) -> Event {
    Event::Emit(EV_KEY, code, 0)
}

/// Some keys go down, one after the other.
pub open spec fn press_events(codes: Seq<u16>) -> Seq<Event> {
    codes.map_values(|code: u16| press_event(code))
}

/// Some keys go up, one after the other.
pub open spec fn release_events(codes: Seq<u16>) -> Seq<Event> {
    codes.map_values(|code: u16| release_event(code))
}

/// The keys that are to be held and are not.
pub open spec fn newly_held(held: Seq<u16>, desired: Seq<u16>) -> Seq<u16> {
    desired.filter(|code: u16| !held.contains(code))
}

/// The keys that are held and are not to be.
pub open spec fn no_longer_held(held: Seq<u16>, desired: Seq<u16>) -> Seq<u16> {
    held.filter(|code: u16| !desired.contains(code))
}

/// The keys that are held in the end: those that stay, then the new ones.
pub open spec fn held_after(held: Seq<u16>, desired: Seq<u16>) -> Seq<u16> {
    held.filter(|code: u16| desired.contains(code)) + newly_held(held, desired)
}

/// The events that hold what is to be held and release the rest.
pub open spec fn hold_events(held: Seq<u16>, desired: Seq<u16>) -> Seq<Event> {
    uinput::sync_if_any(
        press_events(newly_held(held, desired)) + release_events(no_longer_held(held, desired)),
    )
}

/// The level modifier is needed and not held, so it is pressed for the key.
pub open spec fn level_missing(needed: Seq<u16>, held: Seq<u16>, code: u16) -> bool {
    needed.contains(code) && !held.contains(code)
}

/// The level modifier is held and not needed, so it is released for the key.
pub open spec fn level_excess(needed: Seq<u16>, held: Seq<u16>, code: u16) -> bool {
    !needed.contains(code) && held.contains(code)
}

/// What is done about one level modifier.
pub open spec fn level_event(needed: Seq<u16>, held: Seq<u16>, code: u16) -> Seq<Event> {
    if level_missing(needed, held, code) {
        seq![press_event(code)]
    } else if level_excess(needed, held, code) {
        seq![release_event(code)]
    } else {
        seq![]
    }
}

/// What is done about the level modifiers, those that change the keysym level, and so must be
/// set to exactly what a translated key needs.
pub open spec fn level_events(needed: Seq<u16>, held: Seq<u16>) -> Seq<Event> {
    level_event(needed, held, KEY_LEFTSHIFT) + level_event(needed, held, KEY_RIGHTALT)
}

/// What is remembered of a translated key while it is down.
#[verifier::ext_equal]
pub struct PressedView {
    pub out_kc: u16,
    pub pressed_mods: Seq<u16>,
    pub released_mods: Seq<u16>,
}

/// The key that is pressed, with the level modifiers that have to change for it.
pub open spec fn pressed_key(out_kc: u16, needed: Seq<u16>, held: Seq<u16>) -> PressedView {
    PressedView {
        out_kc,
        pressed_mods: code_if(level_missing(needed, held, KEY_LEFTSHIFT), KEY_LEFTSHIFT) + code_if(
            level_missing(needed, held, KEY_RIGHTALT),
            KEY_RIGHTALT,
        ),
        released_mods: code_if(level_excess(needed, held, KEY_LEFTSHIFT), KEY_LEFTSHIFT) + code_if(
            level_excess(needed, held, KEY_RIGHTALT),
            KEY_RIGHTALT,
        ),
    }
}

/// The events that undo a press: the key and the level modifiers that were pressed for it go up,
/// the last one first, and those that were released for it go down again.
pub open spec fn undo_events(p: PressedView) -> Seq<Event> {
    seq![release_event(p.out_kc)] + release_events(p.pressed_mods.reverse()) + press_events(
        p.released_mods,
    ) + seq![Event::Sync]
}

/// What a keyboard knows.
#[verifier::ext_equal]
pub struct KeyboardView {
    /// The device.
    pub id: Option<u64>,
    /// How keysyms are typed under the compositor's keymap.
    pub reverse: Option<Map<u32, (u16, Seq<u16>)>>,
    /// Which version of the compositor's keymap that was.
    pub version: u64,
    /// The state of the client's keymap.
    pub client: Option<State>,
    /// The modifier keys that are held for keybindings.
    pub held: Seq<u16>,
    /// The translated keys that are down.
    pub pressed: Map<u32, PressedView>,
    /// The modifiers that are held while there is no keymap.
    pub raw_mods: u32,
}

/// A keyboard that nothing has happened to.
pub open spec fn new_keyboard(id: Option<u64>) -> KeyboardView {
    KeyboardView {
        id,
        reverse: None,
        version: 0,
        client: None,
        held: Seq::empty(),
        pressed: Map::empty(),
        raw_mods: 0,
    }
}

/// An evdev code that stands for a key for want of a better one: the key, in 16 bits.
pub open spec fn raw_code(key: u32) -> u16 {
    (key % 65536) as u16
}

/// What produces a keysym: the evdev code and the level modifiers that the compositor's keymap
/// needs for it, or else the key as it is.
pub open spec fn target(
    reverse: Map<u32, (u16, Seq<u16>)>,
    key: u32,
    sym: u32,
) -> (u16, Seq<u16>) {
    if reverse.contains_key(sym) {
        reverse[sym]
    } else {
        (raw_code(key), Seq::<u16>::empty())
    }
}

impl KeyboardView {
    /// Holds the keys of the active modifiers and no others.
    pub open spec fn hold(self, flags: ModFlags) -> KeyboardView {
        KeyboardView { held: held_after(self.held, passthrough_keys(flags)), ..self }
    }

    pub open spec fn hold_events(self, flags: ModFlags) -> Seq<Event> {
        hold_events(self.held, passthrough_keys(flags))
    }

    /// A key goes down that has the given keysym and leaves the given modifiers active.
    pub open spec fn press(self, key: u32, sym: u32, flags: ModFlags) -> KeyboardView {
        let kb = self.hold(flags);
        if modifier_keysym(sym) {
            kb
        } else {
            let (out_kc, needed) = target(self.reverse->0, key, sym);
            KeyboardView {
                pressed: kb.pressed.insert(key, pressed_key(out_kc, needed, kb.held)),
                ..kb
            }
        }
    }

    pub open spec fn press_events(self, key: u32, sym: u32, flags: ModFlags) -> Seq<Event> {
        if modifier_keysym(sym) {
            self.hold_events(flags)
        } else {
            let (out_kc, needed) = target(self.reverse->0, key, sym);
            self.hold_events(flags) + level_events(needed, self.hold(flags).held) + seq![
                press_event(out_kc),
                Event::Sync,
            ]
        }
    }

    /// A key goes up, which leaves the given modifiers active.
    pub open spec fn release(self, key: u32, flags: ModFlags) -> KeyboardView {
        KeyboardView { pressed: self.pressed.remove(key), ..self }.hold(flags)
    }

    pub open spec fn release_events(self, key: u32, flags: ModFlags) -> Seq<Event> {
        (if self.pressed.contains_key(key) {
            undo_events(self.pressed[key])
        } else {
            seq![]
        }) + self.hold_events(flags)
    }

    /// The client's keymap takes note of a key.
    pub open spec fn client_key(self, key: u32, down: bool) -> KeyboardView {
        KeyboardView {
            client: Some(xkb::state_after_key(self.client->0, (key + 8) as u32, down)),
            ..self
        }
    }

    /// The keysym of a key under the client's keymap, 0 if it has none.
    pub open spec fn client_sym(self, key: u32) -> u32 {
        match xkb::state_sym(self.client->0, (key + 8) as u32) {
            Some(sym) => sym,
            None => 0,
        }
    }

    /// The modifiers that are active under the client's keymap.
    pub open spec fn flags(self) -> ModFlags {
        state_flags(self.client->0)
    }

    /// A key goes down or up and is translated. A press of a key that is down is ignored.
    pub open spec fn translate(self, key: u32, press: bool) -> KeyboardView {
        if press {
            if self.pressed.contains_key(key) {
                self
            } else {
                let kb = self.client_key(key, true);
                kb.press(key, self.client_sym(key), kb.flags())
            }
        } else {
            let kb = self.client_key(key, false);
            kb.release(key, kb.flags())
        }
    }

    pub open spec fn translate_events(self, key: u32, press: bool) -> Seq<Event> {
        if press {
            if self.pressed.contains_key(key) {
                seq![]
            } else {
                let kb = self.client_key(key, true);
                kb.press_events(key, self.client_sym(key), kb.flags())
            }
        } else {
            let kb = self.client_key(key, false);
            kb.release_events(key, kb.flags())
        }
    }

    /// Both keymaps are known.
    pub open spec fn translating(self) -> bool {
        self.reverse is Some && self.client is Some
    }
}

/// The fallback mapping from modifier bits to evdev key codes. Matches most XKB maps.
pub open spec fn mod_map() -> Seq<(u32, u16)> {
    seq![
        (0x01u32, KEY_LEFTSHIFT),
        (0x02u32, KEY_CAPSLOCK),
        (0x04u32, KEY_LEFTCTRL),
        (0x08u32, KEY_LEFTALT),
        (0x10u32, KEY_NUMLOCK),
        (0x40u32, KEY_LEFTMETA),
        (0x80u32, KEY_RIGHTALT),
    ]
}

/// The modifier bits that have a key.
pub const MAPPED_MODS: u32 = 0xdf;

/// What is done about one modifier to get from those that are held to those that are wanted.
pub open spec fn raw_event(have: u32, want: u32, bit: u32, code: u16) -> Seq<Event> {
    if want & bit != 0 && have & bit == 0 {
        seq![press_event(code)]
    } else if want & bit == 0 && have & bit != 0 {
        seq![release_event(code)]
    } else {
        seq![]
    }
}

/// What is done about the first `n` modifiers of the map.
pub open spec fn raw_events_upto(have: u32, want: u32, n: nat) -> Seq<Event>
    decreases n,
{
    if n == 0 {
        seq![]
    } else {
        raw_events_upto(have, want, (n - 1) as nat) + raw_event(
            have,
            want,
            mod_map()[n - 1].0,
            mod_map()[n - 1].1,
        )
    }
}

/// The events that get from the modifiers that are held to those that are wanted.
pub open spec fn raw_events(have: u32, want: u32) -> Seq<Event> {
    raw_events_upto(have, want, mod_map().len())
}

/// The modifiers that are held then.
pub open spec fn raw_after(have: u32, want: u32) -> u32 {
    (have & !MAPPED_MODS) | (want & MAPPED_MODS)
}

/// The events that let go of all modifiers that are held without a keymap.
pub open spec fn raw_release_events(have: u32) -> Seq<Event> {
    if have == 0 {
        seq![]
    } else {
        raw_events(have, 0).push(Event::Sync)
    }
}

/// The events of keys that are given up: each key goes up, and so do the level modifiers that
/// were pressed for it.
pub open spec fn give_up_events(pressed: Map<u32, PressedView>, order: Seq<u32>) -> Seq<Event>
    decreases order.len(),
{
    if order.len() == 0 {
        seq![]
    } else {
        let p = pressed[order.last()];
        give_up_events(pressed, order.drop_last()) + seq![release_event(p.out_kc)] + release_events(
            p.pressed_mods.reverse(),
        )
    }
}

/// The keys of a map in some order.
pub open spec fn lists_keys(order: Seq<u32>, pressed: Map<u32, PressedView>) -> bool {
    &&& order.no_duplicates()
    &&& order.to_set() == pressed.dom()
}

/// What a keyboard knows after it has looked at the compositor's keymap: the reverse map of the
/// active one, which is worked out anew only when the keymap has changed.
pub open spec fn reverse_ensured(
    before: KeyboardView,
    active: SharedKeymapView,
    after: KeyboardView,
) -> bool {
    if before.outdated(active) {
        &&& after == KeyboardView { reverse: after.reverse, version: active.version, ..before }
        &&& after.reverse is Some
        &&& reverse::reverses(after.reverse->0, active.keymap->0)
    } else {
        after == before
    }
}

impl KeyboardView {
    /// A key event arrives, once the compositor's keymap was looked at.
    pub open spec fn key(self, key: u32, press: bool) -> KeyboardView {
        if self.translating() {
            KeyboardView { raw_mods: 0, ..self }.translate(key, press)
        } else {
            self
        }
    }

    pub open spec fn key_events(self, key: u32, press: bool) -> Seq<Event> {
        if self.translating() {
            raw_release_events(self.raw_mods) + self.translate_events(key, press)
        } else {
            seq![
                Event::Emit(EV_KEY, raw_code(key), if press {
                    1
                } else {
                    0
                }),
                Event::Sync,
            ]
        }
    }

    /// The modifiers change, once the compositor's keymap was looked at.
    pub open spec fn modifiers(
        self,
        depressed: u32,
        latched: u32,
        locked: u32,
        group: u32,
    ) -> KeyboardView {
        if self.translating() {
            let kb = KeyboardView {
                client: Some(
                    xkb::state_after_mask(
                        self.client->0,
                        depressed,
                        latched,
                        locked,
                        0,
                        0,
                        group as usize,
                    ),
                ),
                raw_mods: 0,
                ..self
            };
            kb.hold(kb.flags())
        } else {
            KeyboardView {
                raw_mods: raw_after(self.raw_mods, depressed | latched | locked),
                ..self
            }
        }
    }

    pub open spec fn modifiers_events(
        self,
        depressed: u32,
        latched: u32,
        locked: u32,
        group: u32,
    ) -> Seq<Event> {
        if self.translating() {
            let client = xkb::state_after_mask(
                self.client->0,
                depressed,
                latched,
                locked,
                0,
                0,
                group as usize,
            );
            raw_release_events(self.raw_mods) + self.hold_events(state_flags(client))
        } else {
            uinput::sync_if_any(raw_events(self.raw_mods, depressed | latched | locked))
        }
    }

    /// The compositor has a keymap that the reverse map is not of.
    pub open spec fn outdated(self, active: SharedKeymapView) -> bool {
        active.keymap is Some && (self.reverse is None || self.version != active.version)
    }

    /// What was known before, but of the compositor's keymap what is known after.
    pub open spec fn looked_up(self, after: KeyboardView) -> KeyboardView {
        KeyboardView { reverse: after.reverse, version: after.version, ..self }
    }

    /// The client gives a keymap that was compiled to this: it starts over with it. One in another
    /// format or that does not compile is ignored.
    pub open spec fn given_keymap(self, format: u32, compiled: Option<Keymap>) -> KeyboardView {
        match compiled {
            Some(keymap) if format == KEYMAP_FORMAT_XKB_V1 => KeyboardView {
                client: Some(xkb::initial_state(keymap)),
                ..self
            },
            _ => self,
        }
    }

    /// Whether keys will be translated once the compositor's keymap was looked at.
    pub open spec fn will_translate(self, active: SharedKeymapView) -> bool {
        (self.reverse is Some || active.keymap is Some) && self.client is Some
    }

    /// The compositor's keymap can be looked at.
    pub open spec fn admits_keymap(self, active: SharedKeymapView) -> bool {
        self.outdated(active) ==> xkb::keymap_num_mods(active.keymap->0) < 32
    }

    /// A key event can be handled: if the key is translated, it has an XKB keycode, which the
    /// client's keymap can take note of.
    pub open spec fn admits_key(self, active: SharedKeymapView, key: u32, press: bool) -> bool {
        &&& self.admits_keymap(active)
        &&& self.will_translate(active) ==> {
            &&& key <= u32::MAX - 8
            &&& !(press && self.pressed.contains_key(key)) ==> xkb::accepts_key(
                self.client->0,
                (key + 8) as u32,
            )
        }
    }

    /// The client's keymap does not panic when it takes note of a key that is translated.
    pub open spec fn returns_on_key(self, active: SharedKeymapView, key: u32, press: bool) -> bool {
        self.will_translate(active) && !(press && self.pressed.contains_key(key))
            ==> xkb::key_update_returns(self.client->0, (key + 8) as u32, press)
    }

    /// The client's keymap is kept: only its state may have changed.
    pub open spec fn keeps_client_keymap(self, after: KeyboardView) -> bool {
        match self.client {
            Some(client) => after.client is Some && xkb::state_keymap(after.client->0)
                == xkb::state_keymap(client),
            None => after.client is None,
        }
    }

    /// A change of modifiers can be handled.
    pub open spec fn admits_modifiers(self, active: SharedKeymapView) -> bool {
        &&& self.admits_keymap(active)
        &&& self.will_translate(active) ==> xkb::keymap_num_mods(
            xkb::state_keymap(self.client->0),
        ) < 32
    }

    /// Everything is let go of.
    pub open spec fn destroyed(self) -> KeyboardView {
        KeyboardView { held: Seq::empty(), pressed: Map::empty(), raw_mods: 0, ..self }
    }

    pub open spec fn destroy_events(self, order: Seq<u32>) -> Seq<Event> {
        give_up_events(self.pressed, order) + release_events(self.held) + raw_events(
            self.raw_mods,
            0,
        ) + seq![Event::Sync]
    }
}

struct Pressed {
    out_kc: u16,
    /// Level mods we pressed on key-down and release on key-up.
    pressed_mods: Vec<u16>,
    /// Passthrough level mods we temporarily released on key-down and to press
    /// again on key-up.
    released_mods: Vec<u16>,
}

impl View for Pressed {
    type V = PressedView;

    closed spec fn view(&self) -> PressedView {
        PressedView {
            out_kc: self.out_kc,
            pressed_mods: self.pressed_mods@,
            released_mods: self.released_mods@,
        }
    }
}

/// A virtual keyboard.
pub struct Keyboard {
    dev: Device,
    reverse: Option<ReverseMap>,
    version: u64,
    client: Option<State>,
    passthrough_held: Vec<u16>,
    pressed: HashMap<u32, Pressed>,
    raw_held_mods: u32,
}

impl View for Keyboard {
    type V = KeyboardView;

    closed spec fn view(&self) -> KeyboardView {
        KeyboardView {
            id: self.dev.id(),
            reverse: match self.reverse {
                Some(map) => Some(map@),
                None => None,
            },
            version: self.version,
            client: self.client,
            held: self.passthrough_held@,
            pressed: self.pressed@.map_values(|p: Pressed| p@),
            raw_mods: self.raw_held_mods,
        }
    }
}

/// The key, in 16 bits.
pub fn to_raw_code(key: u32) -> (code: u16)
    ensures
        code == raw_code(key),
{
    assert(key as u16 == key % 65536) by (bit_vector);
    key as u16
}

fn contains(codes: &Vec<u16>, code: u16) -> (r: bool)
    ensures
        r == codes@.contains(code),
{
    let mut i: usize = 0;
    while i < codes.len()
        invariant
            i <= codes.len(),
            forall|j: int| 0 <= j < i ==> codes@[j] != code,
        decreases codes.len() - i,
    {
        if codes[i] == code {
            return true;
        }
        i = i + 1;
    }
    false
}

/// One entry of the fallback mapping.
fn mod_entry(i: usize) -> (entry: (u32, u16))
    requires
        i < mod_map().len(),
    ensures
        entry == mod_map()[i as int],
{
    if i == 0 {
        (0x01, KEY_LEFTSHIFT)
    } else if i == 1 {
        (0x02, KEY_CAPSLOCK)
    } else if i == 2 {
        (0x04, KEY_LEFTCTRL)
    } else if i == 3 {
        (0x08, KEY_LEFTALT)
    } else if i == 4 {
        (0x10, KEY_NUMLOCK)
    } else if i == 5 {
        (0x40, KEY_LEFTMETA)
    } else {
        (0x80, KEY_RIGHTALT)
    }
}

/// The bits of the first `n` entries of the fallback mapping.
spec fn bits_upto(n: int) -> u32 {
    if n <= 0 {
        0
    } else if n == 1 {
        0x01
    } else if n == 2 {
        0x03
    } else if n == 3 {
        0x07
    } else if n == 4 {
        0x0f
    } else if n == 5 {
        0x1f
    } else if n == 6 {
        0x5f
    } else {
        MAPPED_MODS
    }
}

proof fn lemma_bits_upto(n: int)
    requires
        0 <= n < mod_map().len(),
    ensures
        bits_upto(n) & mod_map()[n].0 == 0,
        bits_upto(n) | mod_map()[n].0 == bits_upto(n + 1),
{
    assert(0u32 & 0x01 == 0 && 0x01u32 & 0x02 == 0 && 0x03u32 & 0x04 == 0 && 0x07u32 & 0x08 == 0
        && 0x0fu32 & 0x10 == 0 && 0x1fu32 & 0x40 == 0 && 0x5fu32 & 0x80 == 0) by (bit_vector);
    assert(0u32 | 0x01 == 0x01 && 0x01u32 | 0x02 == 0x03 && 0x03u32 | 0x04 == 0x07 && 0x07u32 | 0x08
        == 0x0f && 0x0fu32 | 0x10 == 0x1f && 0x1fu32 | 0x40 == 0x5f && 0x5fu32 | 0x80 == 0xdf)
        by (bit_vector);
}

proof fn lemma_set_bit(have: u32, want: u32, done: u32, bit: u32)
    by (bit_vector)
    requires
        done & bit == 0,
        bit == 0x01 || bit == 0x02 || bit == 0x04 || bit == 0x08 || bit == 0x10 || bit == 0x40
            || bit == 0x80,
    ensures
        ((have & !done) | (want & done)) & bit == have & bit,
        want & bit != 0 && have & bit == 0 ==> ((have & !done) | (want & done)) | bit == (have & !(
        done | bit)) | (want & (done | bit)),
        want & bit == 0 && have & bit != 0 ==> ((have & !done) | (want & done)) & !bit == (have & !(
        done | bit)) | (want & (done | bit)),
        (want & bit == 0 <==> have & bit == 0) ==> ((have & !done) | (want & done)) == (have & !(
        done | bit)) | (want & (done | bit)),
{
}

proof fn lemma_filter_take(s: Seq<u16>, p: spec_fn(u16) -> bool, i: int)
    requires
        0 <= i < s.len(),
    ensures
        s.take(i + 1).filter(p) == (if p(s[i]) {
            s.take(i).filter(p).push(s[i])
        } else {
            s.take(i).filter(p)
        }),
{
    reveal(Seq::filter);
    assert(s.take(i + 1).drop_last() =~= s.take(i));
}

/// The events of a press, sent in the parts that they come in.
proof fn lemma_sent_press(
    queue: Seq<Cmd>,
    id: Option<u64>,
    holding: Seq<Event>,
    needed: Seq<u16>,
    held: Seq<u16>,
    out_kc: u16,
)
    ensures
        ({
            let q1 = uinput::sent(queue, id, holding);
            let q2 = uinput::sent(q1, id, level_event(needed, held, KEY_LEFTSHIFT));
            let q3 = uinput::sent(q2, id, level_event(needed, held, KEY_RIGHTALT));
            let q4 = uinput::sent(q3, id, seq![press_event(out_kc)]);
            uinput::sent(q4, id, seq![Event::Sync]) == uinput::sent(
                queue,
                id,
                holding + level_events(needed, held) + seq![press_event(out_kc), Event::Sync],
            )
        }),
{
    let shift = level_event(needed, held, KEY_LEFTSHIFT);
    let alt = level_event(needed, held, KEY_RIGHTALT);
    let press = seq![press_event(out_kc)];
    uinput::sent_in_parts(queue, id, holding, shift);
    uinput::sent_in_parts(queue, id, holding + shift, alt);
    uinput::sent_in_parts(queue, id, holding + shift + alt, press);
    uinput::sent_in_parts(queue, id, holding + shift + alt + press, seq![Event::Sync]);
    assert(holding + shift + alt + press + seq![Event::Sync] =~= holding + level_events(
        needed,
        held,
    ) + seq![press_event(out_kc), Event::Sync]);
}

impl Keyboard {
    pub fn new(dev: Device) -> (kb: Self)
        ensures
            kb@ == new_keyboard(dev.id()),
    {
        let kb = Self {
            dev,
            reverse: None,
            version: 0,
            client: None,
            passthrough_held: Vec::new(),
            pressed: HashMap::new(),
            raw_held_mods: 0,
        };
        assert(kb@.pressed =~= Map::empty());
        kb
    }

    /// Holds the keys of the active modifiers and no others.
    pub fn hold(&mut self, queue: &mut Queue, flags: ModFlags)
        ensures
            final(self)@ == old(self)@.hold(flags),
            final(queue)@ == uinput::sent(
                old(queue)@,
                old(self)@.id,
                old(self)@.hold_events(flags),
            ),
    {
        let desired = flag_keys(flags);
        let ghost held = self.passthrough_held@;
        let ghost new = |code: u16| !held.contains(code);
        let ghost gone = |code: u16| !desired@.contains(code);
        let ghost stay = |code: u16| desired@.contains(code);
        let ghost mut events = Seq::<Event>::empty();
        let mut changed: bool = false;
        let mut added: Vec<u16> = Vec::new();
        let mut i: usize = 0;
        assert(uinput::sent(queue@, self@.id, events) =~= queue@);
        while i < desired.len()
            invariant
                i <= desired.len(),
                *self == *old(self),
                held == self.passthrough_held@,
                new == (|code: u16| !held.contains(code)),
                added@ == desired@.take(i as int).filter(new),
                events == press_events(added@),
                changed == (events.len() > 0),
                queue@ == uinput::sent(old(queue)@, self@.id, events),
            decreases desired.len() - i,
        {
            let m: u16 = desired[i];
            proof {
                lemma_filter_take(desired@, new, i as int);
            }
            if !contains(&self.passthrough_held, m) {
                self.dev.emit(queue, EV_KEY, m, 1);
                added.push(m);
                changed = true;
                proof {
                    uinput::sent_in_parts(old(queue)@, self@.id, events, seq![press_event(m)]);
                    events = events + seq![press_event(m)];
                    assert(events =~= press_events(added@));
                }
            }
            i = i + 1;
        }
        assert(desired@.take(desired@.len() as int) =~= desired@);
        let ghost presses = events;
        assert(presses == press_events(newly_held(held, desired@)));

        let mut kept: Vec<u16> = Vec::new();
        let ghost mut released = Seq::<u16>::empty();
        let mut k: usize = 0;
        assert(events =~= presses + release_events(released));
        while k < self.passthrough_held.len()
            invariant
                k <= self.passthrough_held.len(),
                *self == *old(self),
                held == self.passthrough_held@,
                gone == (|code: u16| !desired@.contains(code)),
                stay == (|code: u16| desired@.contains(code)),
                kept@ == held.take(k as int).filter(stay),
                released == held.take(k as int).filter(gone),
                events == presses + release_events(released),
                changed == (events.len() > 0),
                queue@ == uinput::sent(old(queue)@, self@.id, events),
            decreases self.passthrough_held.len() - k,
        {
            let m: u16 = self.passthrough_held[k];
            proof {
                lemma_filter_take(held, stay, k as int);
                lemma_filter_take(held, gone, k as int);
            }
            if contains(&desired, m) {
                kept.push(m);
            } else {
                self.dev.emit(queue, EV_KEY, m, 0);
                changed = true;
                proof {
                    uinput::sent_in_parts(old(queue)@, self@.id, events, seq![release_event(m)]);
                    released = released.push(m);
                    events = events + seq![release_event(m)];
                    assert(events =~= presses + release_events(released));
                }
            }
            k = k + 1;
        }
        assert(held.take(held.len() as int) =~= held);
        kept.append(&mut added);
        self.passthrough_held = kept;
        if changed {
            self.dev.sync(queue);
            proof {
                uinput::sent_in_parts(old(queue)@, self@.id, events, seq![Event::Sync]);
                assert(events + seq![Event::Sync] =~= events.push(Event::Sync));
            }
        }
        assert(self@ =~= old(self)@.hold(flags));
    }

    /// Holds the keys of the modifiers that are active under the client's keymap.
    pub fn sync_passthrough(&mut self, queue: &mut Queue)
        ensures
            old(self)@.client is None ==> final(self)@ == old(self)@ && final(queue)@ == old(
                queue,
            )@,
            old(self)@.client is Some ==> {
                &&& final(self)@ == old(self)@.hold(old(self)@.flags())
                &&& final(queue)@ == uinput::sent(
                    old(queue)@,
                    old(self)@.id,
                    old(self)@.hold_events(old(self)@.flags()),
                )
            },
    {
        let flags = match &self.client {
            Some(client) => effective_mods(client),
            None => {
                return;
            },
        };
        self.hold(queue, flags);
    }

    /// What one level modifier is for a key: pressed for it, released for it, or neither.
    fn set_level(
        &self,
        queue: &mut Queue,
        needed: &Vec<u16>,
        m: u16,
        pressed_mods: &mut Vec<u16>,
        released_mods: &mut Vec<u16>,
    )
        ensures
            final(queue)@ == uinput::sent(
                old(queue)@,
                self@.id,
                level_event(needed@, self@.held, m),
            ),
            final(pressed_mods)@ == old(pressed_mods)@ + code_if(
                level_missing(needed@, self@.held, m),
                m,
            ),
            final(released_mods)@ == old(released_mods)@ + code_if(
                level_excess(needed@, self@.held, m),
                m,
            ),
    {
        let is_needed: bool = contains(needed, m);
        let is_held: bool = contains(&self.passthrough_held, m);
        if is_needed && !is_held {
            self.dev.emit(queue, EV_KEY, m, 1);
            pressed_mods.push(m);
        } else if !is_needed && is_held {
            self.dev.emit(queue, EV_KEY, m, 0);
            released_mods.push(m);
        } else {
            assert(uinput::sent(queue@, self@.id, seq![]) =~= queue@);
        }
        assert(pressed_mods@ =~= old(pressed_mods)@ + code_if(
            level_missing(needed@, self@.held, m),
            m,
        ));
        assert(released_mods@ =~= old(released_mods)@ + code_if(
            level_excess(needed@, self@.held, m),
            m,
        ));
    }

    /// A key goes down that has the given keysym under the client's keymap and leaves the given
    /// modifiers active.
    pub fn press_key(&mut self, queue: &mut Queue, key: u32, sym: u32, flags: ModFlags)
        requires
            old(self)@.reverse is Some,
        ensures
            final(self)@ == old(self)@.press(key, sym, flags),
            final(queue)@ == uinput::sent(
                old(queue)@,
                old(self)@.id,
                old(self)@.press_events(key, sym, flags),
            ),
    {
        self.hold(queue, flags);
        if is_modifier_keysym(sym) {
            return;
        }
        let ghost id = self@.id;
        let ghost q0 = old(queue)@;
        let ghost held = self@.held;
        let ghost holding = old(self)@.hold_events(flags);

        let mut needed: Vec<u16> = Vec::new();
        let mut out_kc: u16 = to_raw_code(key);  // fall back to the raw evdev code
        if let Some(map) = &self.reverse {
            if let Some(found) = map.lookup(sym) {
                out_kc = found.0;
                needed = vstd::slice::slice_to_vec(found.1);
                assert(needed@ =~= found.1@);
            }
        }
        assert((out_kc, needed@) == target(self@.reverse->0, key, sym));

        let mut pressed_mods: Vec<u16> = Vec::new();
        let mut released_mods: Vec<u16> = Vec::new();
        self.set_level(queue, &needed, KEY_LEFTSHIFT, &mut pressed_mods, &mut released_mods);
        self.set_level(queue, &needed, KEY_RIGHTALT, &mut pressed_mods, &mut released_mods);
        self.dev.emit(queue, EV_KEY, out_kc, 1);
        self.dev.sync(queue);
        proof {
            lemma_sent_press(q0, id, holding, needed@, held, out_kc);
        }
        let p = Pressed { out_kc, pressed_mods, released_mods };
        assert(p@ =~= pressed_key(out_kc, needed@, held));
        self.pressed.insert(key, p);
        assert(self@.pressed =~= old(self)@.pressed.insert(key, p@));
        assert(self@ =~= old(self)@.press(key, sym, flags));
    }

    fn emit_all(&self, queue: &mut Queue, codes: &Vec<u16>, value: i32)
        ensures
            final(queue)@ == uinput::sent(
                old(queue)@,
                self@.id,
                codes@.map_values(|code: u16| Event::Emit(EV_KEY, code, value)),
            ),
    {
        let mut i: usize = 0;
        let ghost f = |code: u16| Event::Emit(EV_KEY, code, value);
        assert(codes@.take(0).map_values(f) =~= seq![]);
        assert(uinput::sent(queue@, self@.id, seq![]) =~= queue@);
        while i < codes.len()
            invariant
                i <= codes.len(),
                f == (|code: u16| Event::Emit(EV_KEY, code, value)),
                queue@ == uinput::sent(
                    old(queue)@,
                    self@.id,
                    codes@.take(i as int).map_values(f),
                ),
            decreases codes.len() - i,
        {
            self.dev.emit(queue, EV_KEY, codes[i], value);
            proof {
                uinput::sent_in_parts(
                    old(queue)@,
                    self@.id,
                    codes@.take(i as int).map_values(f),
                    seq![Event::Emit(EV_KEY, codes@[i as int], value)],
                );
                assert(codes@.take(i as int).map_values(f) + seq![
                    Event::Emit(EV_KEY, codes@[i as int], value),
                ] =~= codes@.take(i + 1).map_values(f));
            }
            i = i + 1;
        }
        assert(codes@.take(codes@.len() as int) =~= codes@);
    }

    fn release_all_reversed(&self, queue: &mut Queue, codes: &Vec<u16>)
        ensures
            final(queue)@ == uinput::sent(
                old(queue)@,
                self@.id,
                release_events(codes@.reverse()),
            ),
    {
        let mut i: usize = codes.len();
        let ghost done = |i: int| release_events(codes@.reverse().take(codes@.len() - i));
        assert(done(i as int) =~= seq![]);
        assert(uinput::sent(queue@, self@.id, seq![]) =~= queue@);
        while i > 0
            invariant
                i <= codes.len(),
                done == (|i: int| release_events(codes@.reverse().take(codes@.len() - i))),
                queue@ == uinput::sent(old(queue)@, self@.id, done(i as int)),
            decreases i,
        {
            i = i - 1;
            self.dev.emit(queue, EV_KEY, codes[i], 0);
            proof {
                uinput::sent_in_parts(
                    old(queue)@,
                    self@.id,
                    done(i + 1),
                    seq![release_event(codes@[i as int])],
                );
                assert(done(i + 1) + seq![release_event(codes@[i as int])] =~= done(i as int));
            }
        }
        assert(done(0) =~= release_events(codes@.reverse()));
    }

    /// A key goes up, which leaves the given modifiers active.
    pub fn release_key(&mut self, queue: &mut Queue, key: u32, flags: ModFlags)
        ensures
            final(self)@ == old(self)@.release(key, flags),
            final(queue)@ == uinput::sent(
                old(queue)@,
                old(self)@.id,
                old(self)@.release_events(key, flags),
            ),
    {
        let ghost id = self@.id;
        let ghost q0 = old(queue)@;
        let ghost mut undone = Seq::<Event>::empty();
        assert(uinput::sent(q0, id, undone) =~= q0);
        if let Some(p) = self.pressed.remove(&key) {
            assert(old(self)@.pressed[key] == p@);
            self.dev.emit(queue, EV_KEY, p.out_kc, 0);
            self.release_all_reversed(queue, &p.pressed_mods);
            self.emit_all(queue, &p.released_mods, 1);  // restore the binding's level mods
            self.dev.sync(queue);
            proof {
                let a = seq![release_event(p.out_kc)];
                let b = release_events(p@.pressed_mods.reverse());
                let c = press_events(p@.released_mods);
                assert(c =~= p.released_mods@.map_values(|code: u16| Event::Emit(EV_KEY, code, 1)));
                uinput::sent_in_parts(q0, id, a, b);
                uinput::sent_in_parts(q0, id, a + b, c);
                uinput::sent_in_parts(q0, id, a + b + c, seq![Event::Sync]);
                undone = undo_events(p@);
            }
        }
        assert(self@.pressed =~= old(self)@.pressed.remove(key));
        let ghost mid = self@;
        self.hold(queue, flags);
        proof {
            uinput::sent_in_parts(q0, id, undone, mid.hold_events(flags));
            assert(self@ =~= old(self)@.release(key, flags));
        }
    }

    /// Presses and releases the keys of the fallback mapping, and says whether there was anything
    /// to do.
    fn set_raw_mods(&mut self, queue: &mut Queue, want: u32) -> (changed: bool)
        ensures
            final(self)@ == (KeyboardView {
                raw_mods: raw_after(old(self)@.raw_mods, want),
                ..old(self)@
            }),
            final(queue)@ == uinput::sent(
                old(queue)@,
                old(self)@.id,
                raw_events(old(self)@.raw_mods, want),
            ),
            changed == (raw_events(old(self)@.raw_mods, want).len() > 0),
    {
        let ghost have = self.raw_held_mods;
        let ghost id = self@.id;
        let ghost q0 = queue@;
        let mut changed: bool = false;
        let mut i: usize = 0;
        proof {
            assert((have & !0u32) | (want & 0u32) == have) by (bit_vector);
            assert(uinput::sent(q0, id, seq![]) =~= q0);
        }
        while i < 7
            invariant
                i <= 7,
                have == old(self)@.raw_mods,
                id == old(self)@.id,
                self.raw_held_mods == (have & !bits_upto(i as int)) | (want & bits_upto(i as int)),
                self@ == (KeyboardView { raw_mods: self.raw_held_mods, ..old(self)@ }),
                queue@ == uinput::sent(q0, id, raw_events_upto(have, want, i as nat)),
                changed == (raw_events_upto(have, want, i as nat).len() > 0),
            decreases 7 - i,
        {
            let (bit, code) = mod_entry(i);
            proof {
                lemma_bits_upto(i as int);
                lemma_set_bit(have, want, bits_upto(i as int), bit);
                uinput::sent_in_parts(
                    q0,
                    id,
                    raw_events_upto(have, want, i as nat),
                    raw_event(have, want, bit, code),
                );
                assert(uinput::sent(queue@, id, seq![]) =~= queue@);
            }
            let wanted: bool = want & bit != 0;
            let held: bool = self.raw_held_mods & bit != 0;
            if wanted && !held {
                self.dev.emit(queue, EV_KEY, code, 1);
                self.raw_held_mods = self.raw_held_mods | bit;
                changed = true;
            } else if !wanted && held {
                self.dev.emit(queue, EV_KEY, code, 0);
                self.raw_held_mods = self.raw_held_mods & !bit;
                changed = true;
            }
            i = i + 1;
            assert(raw_events_upto(have, want, i as nat) == raw_events_upto(
                have,
                want,
                (i - 1) as nat,
            ) + raw_event(have, want, bit, code));
        }
        changed
    }

    /// Lets go of the modifiers that were held while a keymap was missing.
    pub fn release_raw_mods(&mut self, queue: &mut Queue)
        ensures
            final(self)@ == (KeyboardView { raw_mods: 0, ..old(self)@ }),
            final(queue)@ == uinput::sent(
                old(queue)@,
                old(self)@.id,
                raw_release_events(old(self)@.raw_mods),
            ),
    {
        if self.raw_held_mods == 0 {
            assert(uinput::sent(queue@, self@.id, seq![]) =~= queue@);
            return;
        }
        let ghost events = raw_events(self@.raw_mods, 0);
        self.set_raw_mods(queue, 0);
        self.raw_held_mods = 0;
        self.dev.sync(queue);
        proof {
            uinput::sent_in_parts(old(queue)@, self@.id, events, seq![Event::Sync]);
            assert(events + seq![Event::Sync] =~= events.push(Event::Sync));
        }
    }

    /// Gets the reverse map of the compositor's keymap, unless there is one of this version.
    pub fn ensure_reverse(&mut self, active: &SharedKeymap)
        requires
            old(self)@.admits_keymap(active@),
        ensures
            reverse_ensured(old(self)@, active@, final(self)@),
    {
        if let Some(keymap) = active.get() {
            if self.reverse.is_none() || self.version != active.version() {
                self.reverse = Some(ReverseMap::build(keymap));
                self.version = active.version();
            }
        }
    }

    pub fn translating(&self) -> (r: bool)
        ensures
            r == self@.translating(),
    {
        self.reverse.is_some() && self.client.is_some()
    }

    /// A key goes down or up and is translated. A key on which the client's keymap panics (see
    /// [`xkb::key_update_returns`]) must not be given; there is no way to test for one.
    pub fn translate_key(&mut self, queue: &mut Queue, key: u32, press: bool)
        requires
            old(self)@.translating(),
            key <= u32::MAX - 8,
            !(press && old(self)@.pressed.contains_key(key)) ==> xkb::accepts_key(
                old(self)@.client->0,
                (key + 8) as u32,
            ),
            !(press && old(self)@.pressed.contains_key(key)) ==> xkb::key_update_returns(
                old(self)@.client->0,
                (key + 8) as u32,
                press,
            ),
        ensures
            final(self)@ == old(self)@.translate(key, press),
            old(self)@.keeps_client_keymap(final(self)@),
            final(self)@.client == Some(
                if press && old(self)@.pressed.contains_key(key) {
                    old(self)@.client->0
                } else {
                    xkb::state_after_key(old(self)@.client->0, (key + 8) as u32, press)
                },
            ),
            final(queue)@ == uinput::sent(
                old(queue)@,
                old(self)@.id,
                old(self)@.translate_events(key, press),
            ),
    {
        let xkb_kc: u32 = key + 8;
        if press {
            if self.pressed.contains_key(&key) {
                // ignore a repeated press of an pressed key since re-emitting would
                // leak the previous release and leave the key stuck on release
                assert(uinput::sent(queue@, self@.id, seq![]) =~= queue@);
                return;
            }
            let mut sym: u32 = 0;
            let mut flags = ModFlags { shift: false, control: false, mod1: false, mod4: false };
            if let Some(client) = &mut self.client {
                if let Some(raw) = xkb::key_get_one_sym(client, xkb_kc) {
                    sym = raw;
                }
                xkb::update_key(client, xkb_kc, true);
                flags = effective_mods(client);
            }
            assert(self@ == old(self)@.client_key(key, true));
            self.press_key(queue, key, sym, flags);
        } else {
            let mut flags = ModFlags { shift: false, control: false, mod1: false, mod4: false };
            if let Some(client) = &mut self.client {
                xkb::update_key(client, xkb_kc, false);
                flags = effective_mods(client);
            }
            assert(self@ == old(self)@.client_key(key, false));
            self.release_key(queue, key, flags);
        }
    }

    /// The client's keymap is now this one.
    pub fn set_client_keymap(&mut self, keymap: &Keymap)
        ensures
            final(self)@ == (KeyboardView {
                client: Some(xkb::initial_state(*keymap)),
                ..old(self)@
            }),
    {
        self.client = Some(xkb::new_state(keymap));
    }

    /// The client gives its keymap, which was compiled to this. One in another format or that does
    /// not compile is ignored.
    pub fn update_client_keymap(&mut self, format: u32, compiled: Option<Keymap>)
        ensures
            final(self)@ == old(self)@.given_keymap(format, compiled),
            final(self)@.client == (if format == 1 && compiled is Some {
                Some(xkb::initial_state(compiled->0))
            } else {
                old(self)@.client
            }),
    {
        if format != KEYMAP_FORMAT_XKB_V1 {
            return;
        }
        if let Some(keymap) = compiled {
            self.set_client_keymap(&keymap);
        }
    }

    /// The client gives its keymap as the contents of a file, on which [`seat::compile_keymap`]
    /// does not panic.
    pub fn handle_keymap(&mut self, format: u32, buf: &[u8])
        requires
            format == KEYMAP_FORMAT_XKB_V1 ==> seat::compilable(buf@),
        ensures
            exists|compiled: Option<Keymap>|
                {
                    &&& format == KEYMAP_FORMAT_XKB_V1 ==> seat::compiles_to(buf@, compiled)
                    &&& final(self)@ == #[trigger] old(self)@.given_keymap(format, compiled)
                    &&& final(self)@.client == (if format == 1 && compiled is Some {
                        Some(xkb::initial_state(compiled->0))
                    } else {
                        old(self)@.client
                    })
                },
    {
        let compiled = if format == KEYMAP_FORMAT_XKB_V1 {
            seat::compile_keymap(buf)
        } else {
            None
        };
        let ghost c = compiled;
        self.update_client_keymap(format, compiled);
        assert(self@ == old(self)@.given_keymap(format, c));
    }

    /// The client presses (`state` is 1) or releases a key, on which its keymap does not panic (see
    /// [`Keyboard::translate_key`]).
    pub fn handle_key(
        &mut self,
        active: &SharedKeymap,
        queue: &mut Queue,
        key: u32,
        state: u32,
    )
        requires
            old(self)@.admits_key(active@, key, state == 1),
            old(self)@.returns_on_key(active@, key, state == 1),
        ensures
            reverse_ensured(old(self)@, active@, old(self)@.looked_up(final(self)@)),
            old(self)@.keeps_client_keymap(final(self)@),
            final(self)@.client == (if old(self)@.will_translate(active@) && !(state == 1 && old(
                self,
            )@.pressed.contains_key(key)) {
                Some(xkb::state_after_key(old(self)@.client->0, (key + 8) as u32, state == 1))
            } else {
                old(self)@.client
            }),
            final(self)@ == old(self)@.looked_up(final(self)@).key(
                key,
                state == 1,
            ),
            final(queue)@ == uinput::sent(
                old(queue)@,
                old(self)@.id,
                old(self)@.looked_up(final(self)@).key_events(
                    key,
                    state == 1,
                ),
            ),
    {
        let press: bool = state == 1;
        self.ensure_reverse(active);
        let ghost start = self@;
        let ghost q0 = queue@;
        if self.translating() {
            self.release_raw_mods(queue);  // if any were pressed while we got the keymap
            self.translate_key(queue, key, press);
            proof {
                uinput::sent_in_parts(
                    q0,
                    start.id,
                    raw_release_events(start.raw_mods),
                    start.translate_events(key, press),
                );
            }
        } else {
            let value: i32 = if press {
                1
            } else {
                0
            };
            self.dev.emit(queue, EV_KEY, to_raw_code(key), value);
            self.dev.sync(queue);
            proof {
                let event = Event::Emit(EV_KEY, raw_code(key), value);
                uinput::sent_in_parts(q0, start.id, seq![event], seq![Event::Sync]);
                assert(seq![event] + seq![Event::Sync] =~= start.key_events(key, press));
            }
        }
    }

    /// Whether [`Keyboard::handle_key`] can handle the event.
    pub fn can_handle_key(&self, active: &SharedKeymap, key: u32, state: u32) -> (r: bool)
        ensures
            r == self@.admits_key(active@, key, state == 1),
    {
        if !self.can_ensure_reverse(active) {
            return false;
        }
        if self.reverse.is_none() && active.get().is_none() {
            return true;
        }
        match &self.client {
            None => true,
            Some(client) => {
                if key > u32::MAX - 8 {
                    false
                } else if state == 1 && self.pressed.contains_key(&key) {
                    true
                } else {
                    xkb::can_update_key(client, key + 8)
                }
            },
        }
    }

    fn can_ensure_reverse(&self, active: &SharedKeymap) -> (r: bool)
        ensures
            r == self@.admits_keymap(active@),
    {
        match active.get() {
            Some(keymap) => {
                (self.reverse.is_some() && self.version == active.version()) || xkb::num_mods(
                    keymap,
                ) < 32
            },
            None => true,
        }
    }

    /// As [`Keyboard::handle_key`], for an event that may not be one that can be handled: `false`,
    /// and nothing done, for such an event. A key on which the client's keymap panics must not be
    /// given here either.
    pub fn try_handle_key(
        &mut self,
        active: &SharedKeymap,
        queue: &mut Queue,
        key: u32,
        state: u32,
    ) -> (handled: bool)
        requires
            old(self)@.returns_on_key(active@, key, state == 1),
        ensures
            handled == old(self)@.admits_key(active@, key, state == 1),
            old(self)@.keeps_client_keymap(final(self)@),
            !handled ==> final(self)@ == old(self)@ && final(queue)@ == old(queue)@,
            handled ==> {
                let start = old(self)@.looked_up(final(self)@);
                &&& reverse_ensured(old(self)@, active@, start)
                &&& final(self)@ == start.key(key, state == 1)
                &&& final(queue)@ == uinput::sent(
                    old(queue)@,
                    start.id,
                    start.key_events(key, state == 1),
                )
            },
    {
        if !self.can_handle_key(active, key, state) {
            return false;
        }
        self.handle_key(active, queue, key, state);
        true
    }

    /// The client's modifiers and layout change.
    pub fn handle_modifiers(
        &mut self,
        active: &SharedKeymap,
        queue: &mut Queue,
        mods_depressed: u32,
        mods_latched: u32,
        mods_locked: u32,
        group: u32,
    )
        requires
            old(self)@.admits_modifiers(active@),
        ensures
            reverse_ensured(old(self)@, active@, old(self)@.looked_up(final(self)@)),
            old(self)@.keeps_client_keymap(final(self)@),
            final(self)@.client == (if old(self)@.will_translate(active@) {
                Some(
                    xkb::state_after_mask(
                        old(self)@.client->0,
                        mods_depressed,
                        mods_latched,
                        mods_locked,
                        0,
                        0,
                        group as usize,
                    ),
                )
            } else {
                old(self)@.client
            }),
            old(self)@.will_translate(active@) ==> xkb::same_after_mask(
                final(self)@.client->0,
                old(self)@.client->0,
            ),
            final(self)@ == old(self)@.looked_up(final(self)@).modifiers(
                mods_depressed,
                mods_latched,
                mods_locked,
                group,
            ),
            final(queue)@ == uinput::sent(
                old(queue)@,
                old(self)@.id,
                old(self)@.looked_up(final(self)@).modifiers_events(
                    mods_depressed,
                    mods_latched,
                    mods_locked,
                    group,
                ),
            ),
            // the same modifiers again would change nothing and report nothing
            final(self)@.modifiers(mods_depressed, mods_latched, mods_locked, group)
                == final(self)@,
            final(self)@.modifiers_events(mods_depressed, mods_latched, mods_locked, group)
                == Seq::<Event>::empty(),
    {
        self.ensure_reverse(active);
        let ghost start = self@;
        let ghost q0 = queue@;
        let ghost mods = (mods_depressed, mods_latched, mods_locked, group);
        if self.translating() {
            self.release_raw_mods(queue);  // if any were pressed while we got the keymap
            if let Some(client) = &mut self.client {
                xkb::update_mask(
                    client,
                    mods_depressed,
                    mods_latched,
                    mods_locked,
                    group as usize,
                );
            }
            let ghost flags = self@.flags();
            self.sync_passthrough(queue);
            proof {
                uinput::sent_in_parts(
                    q0,
                    start.id,
                    raw_release_events(start.raw_mods),
                    start.hold_events(flags),
                );
                keystate::same_modifiers_again(old(self)@, start, self@, self@, active@, mods);
            }
            return;
        }
        // determine modifiers from the bitmask (fallback)

        let desired: u32 = mods_depressed | mods_latched | mods_locked;
        let ghost events = raw_events(start.raw_mods, desired);
        let changed: bool = self.set_raw_mods(queue, desired);
        if changed {
            self.dev.sync(queue);
            proof {
                uinput::sent_in_parts(q0, start.id, events, seq![Event::Sync]);
                assert(events + seq![Event::Sync] =~= events.push(Event::Sync));
            }
        }
        proof {
            keystate::same_modifiers_again(old(self)@, start, self@, self@, active@, mods);
        }
    }

    /// As [`Keyboard::handle_modifiers`], for any keymaps: `false`, and nothing done, where they
    /// define too many modifiers.
    pub fn try_handle_modifiers(
        &mut self,
        active: &SharedKeymap,
        queue: &mut Queue,
        mods_depressed: u32,
        mods_latched: u32,
        mods_locked: u32,
        group: u32,
    ) -> (handled: bool)
        ensures
            handled == old(self)@.admits_modifiers(active@),
            old(self)@.keeps_client_keymap(final(self)@),
            final(self)@.client == (if handled && old(self)@.will_translate(active@) {
                Some(
                    xkb::state_after_mask(
                        old(self)@.client->0,
                        mods_depressed,
                        mods_latched,
                        mods_locked,
                        0,
                        0,
                        group as usize,
                    ),
                )
            } else {
                old(self)@.client
            }),
            handled && old(self)@.will_translate(active@) ==> xkb::same_after_mask(
                final(self)@.client->0,
                old(self)@.client->0,
            ),
            !handled ==> final(self)@ == old(self)@ && final(queue)@ == old(queue)@,
            handled ==> {
                let start = old(self)@.looked_up(final(self)@);
                &&& reverse_ensured(old(self)@, active@, start)
                &&& final(self)@ == start.modifiers(
                    mods_depressed,
                    mods_latched,
                    mods_locked,
                    group,
                )
                &&& final(queue)@ == uinput::sent(
                    old(queue)@,
                    start.id,
                    start.modifiers_events(mods_depressed, mods_latched, mods_locked, group),
                )
                &&& final(self)@.modifiers(mods_depressed, mods_latched, mods_locked, group)
                    == final(self)@
                &&& final(self)@.modifiers_events(mods_depressed, mods_latched, mods_locked, group)
                    == Seq::<Event>::empty()
            },
    {
        if !self.can_ensure_reverse(active) {
            return false;
        }
        if self.reverse.is_some() || active.get().is_some() {
            if let Some(client) = &self.client {
                if xkb::num_mods(xkb::get_keymap(client)) >= 32 {
                    return false;
                }
            }
        }
        self.handle_modifiers(
            active,
            queue,
            mods_depressed,
            mods_latched,
            mods_locked,
            group,
        );
        true
    }

    /// The client gives the keyboard up: keys are released so they don't get stuck.
    pub fn handle_destroy(&mut self, queue: &mut Queue)
        ensures
            final(self)@ == old(self)@.destroyed(),
            exists|order: Seq<u32>|
                {
                    &&& lists_keys(order, old(self)@.pressed)
                    &&& final(queue)@ == uinput::sent(
                        old(queue)@,
                        old(self)@.id,
                        #[trigger] old(self)@.destroy_events(order),
                    )
                },
    {
        let ghost id = self@.id;
        let ghost q0 = queue@;
        let ghost pressed = self@.pressed;
        let ghost mut order = Seq::<u32>::empty();
        let ghost entries = self.pressed.iter().remaining();
        assert(uinput::sent(q0, id, seq![]) =~= q0);
        for (key, p) in it: self.pressed.iter()
            invariant
                it.seq() == entries,
                *self == *old(self),
                pressed == self@.pressed,
                id == self@.id,
                order.len() == it.index(),
                forall|i: int| 0 <= i < order.len() ==> order[i] == *entries[i].0,
                entries.no_duplicates(),
                queue@ == uinput::sent(q0, id, give_up_events(pressed, order)),
        {
            let ghost events = give_up_events(pressed, order);
            self.dev.emit(queue, EV_KEY, p.out_kc, 0);
            self.release_all_reversed(queue, &p.pressed_mods);
            proof {
                let a = seq![release_event(p.out_kc)];
                let b = release_events(p@.pressed_mods.reverse());
                uinput::sent_in_parts(q0, id, events, a);
                uinput::sent_in_parts(q0, id, events + a, b);
                assert(pressed[*key] == p@);
                assert(order.push(*key).drop_last() =~= order);
                order = order.push(*key);
            }
        }
        let ghost given_up = give_up_events(pressed, order);
        proof {
            assert(order.len() == entries.len());
            assert forall|i: int, j: int| 0 <= i < j < order.len() implies order[i] != order[j] by {
                assert(entries[i] != entries[j]);
                assert(self.pressed@[*entries[i].0] == *entries[i].1);
                assert(self.pressed@[*entries[j].0] == *entries[j].1);
            }
            assert forall|key: u32| order.to_set().contains(key) == pressed.dom().contains(key) by {
                if self.pressed@.contains_key(key) {
                    let i = choose|i: int|
                        0 <= i < entries.len() && entries[i] == (&key, &self.pressed@[key]);
                    assert(order[i] == key);
                }
                if order.contains(key) {
                    let i = choose|i: int| 0 <= i < order.len() && order[i] == key;
                    assert(self.pressed@.contains_key(*entries[i].0));
                }
            }
            assert(order.to_set() =~= pressed.dom());
            assert(lists_keys(order, pressed));
        }
        self.emit_all(queue, &self.passthrough_held, 0);
        self.set_raw_mods(queue, 0);
        self.dev.sync(queue);
        self.pressed.clear();
        self.passthrough_held.clear();
        self.raw_held_mods = 0;
        proof {
            let held = release_events(old(self)@.held);
            let raw = raw_events(old(self)@.raw_mods, 0);
            uinput::sent_in_parts(q0, id, given_up, held);
            uinput::sent_in_parts(q0, id, given_up + held, raw);
            uinput::sent_in_parts(q0, id, given_up + held + raw, seq![Event::Sync]);
            assert(self@ =~= old(self)@.destroyed());
            assert(queue@ == uinput::sent(q0, id, old(self)@.destroy_events(order)));
        }
    }

    /// The number of the device in commands.
    pub fn handle(&self) -> (id: Option<u64>)
        ensures
            id == self@.id,
    {
        self.dev.handle()
    }

    /// Gives the device up, after everything that was emitted.
    pub fn remove(self, queue: &mut Queue)
        ensures
            self@.id matches Some(id) ==> final(queue)@ == old(queue)@.push(
                Cmd::Remove(id),
            ),
            self@.id is None ==> final(queue)@ == old(queue)@,
    {
        self.dev.remove(queue);
    }
}

/// What a keyboard device can do: every key and modifier, but below `BTN_*` so it gets classified
/// as a keyboard by the kernel.
pub open spec fn keyboard_capabilities() -> Seq<Capability> {
    seq![Capability::Event(EV_KEY)] + Seq::new(255, |i: int| Capability::Key((i + 1) as u16))
}

/// The description of a keyboard device.
pub fn create_keyboard_device(name: &str) -> (plan: DevicePlan)
    ensures
        plan.capabilities@ == keyboard_capabilities(),
        plan.axes@ == Seq::<uinput::AbsSetup>::empty(),
        uinput::identifies(plan.setup, name@),
{
    let mut b = UinputBuilder::new();
    b.enable_ev(EV_KEY);
    let mut code: u16 = 1;
    assert(b.capabilities() =~= keyboard_capabilities().take(1));
    while code <= 255
        invariant
            1 <= code <= 256,
            b.capabilities() == keyboard_capabilities().take(code as int),
            b.axes() == Seq::<uinput::AbsSetup>::empty(),
        decreases 256 - code,
    {
        b.enable_key(code);
        assert(b.capabilities() =~= keyboard_capabilities().take(code + 1));
        code = code + 1;
    }
    assert(b.capabilities() =~= keyboard_capabilities());
    b.build(name)
}

/// Makes virtual keyboards.
pub struct KeyboardManager;

impl KeyboardManager {
    pub fn new() -> (manager: Self) {
        Self
    }

    /// The name of the next keyboard device.
    pub fn next_name(&self, names: &mut Counter) -> (name: String)
        ensures
            name@ == "wl-uinput-proxy virtual keyboard "@ + uinput::decimal(
                old(names).next() as nat,
            ),
            final(names).next() == uinput::successor(old(names).next()),
    {
        uinput::numbered_name("wl-uinput-proxy virtual keyboard ", names.fetch())
    }

    /// A keyboard on the device that was created at the time `now`, or on none, if none could be.
    pub fn handle_create_virtual_keyboard(
        &self,
        created: bool,
        ids: &mut Counter,
        queue: &mut Queue,
        now: u64,
    ) -> (kb: Keyboard)
        requires
            created ==> now + uinput::CREATE_DELAY <= u64::MAX,
        ensures
            kb@ == new_keyboard(if created {
                Some(old(ids).next())
            } else {
                None
            }),
            final(ids).next() == (if created {
                uinput::successor(old(ids).next())
            } else {
                old(ids).next()
            }),
            final(queue)@ == uinput::spawned(old(queue)@, created, old(ids).next(), now),
    {
        Keyboard::new(Device::spawn(created, ids, queue, now))
    }
}

/// A keyboard device can report the keys that a keyboard has by itself: those of the modifiers,
/// and the code of every key up to 255.
pub proof fn modifiers_are_enabled(code: u16, value: i32)
    requires
        ({
            ||| 1 <= code <= 255
            ||| exists|flags: ModFlags| #[trigger] passthrough_keys(flags).contains(code)
            ||| exists|i: int| 0 <= i < mod_map().len() && (#[trigger] mod_map()[i]).1 == code
            ||| code == KEY_LEFTSHIFT || code == KEY_RIGHTALT
        }),
    ensures
        uinput::enabled(keyboard_capabilities(), Event::Emit(EV_KEY, code, value)),
{
    assert(keyboard_capabilities()[0] == Capability::Event(EV_KEY));
    assert(1 <= code <= 255);
    assert(keyboard_capabilities()[code as int] == Capability::Key(code));
}

} // verus!
