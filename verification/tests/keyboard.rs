use wl_uinput_proxy::keyboard::{
    create_keyboard_device, effective_mods, flag_keys, is_modifier_keysym, passthrough_mod_keys, to_raw_code, Keyboard,
    KeyboardManager, ModFlags, KEYMAP_FORMAT_XKB_V1,
};
use wl_uinput_proxy::reverse::{level_combos, mod_mask, to_evdev, ReverseMap};
use wl_uinput_proxy::seat::{compile_keymap, SharedKeymap};
use wl_uinput_proxy::uinput::{
    Capability, Cmd, Counter, Device, Queue, CREATE_DELAY, EV_KEY, KEY_CAPSLOCK, KEY_LEFTALT, KEY_LEFTCTRL, KEY_LEFTMETA,
    KEY_LEFTSHIFT, KEY_NUMLOCK, KEY_RIGHTALT,
};
use wl_uinput_proxy::xkb::can_update_key;
use xkbcommon_rs::{Keymap, State};

const KEY_1: u32 = 2;
const KEY_2: u32 = 3;
const KEY_A: u32 = 30;
const KEY_S: u32 = 31;
const KEY_D: u32 = 32;
const KEY_F: u32 = 33;
const KEY_SPACE: u32 = 57;

/// A keymap with the given symbols and virtual modifiers.
fn keymap_text(symbols: &str, virtual_modifiers: &str) -> String {
    format!(
        "xkb_keymap {{
xkb_keycodes \"test\" {{
    minimum = 8;
    maximum = 255;
    <AE01> = 10;
    <AE02> = 11;
    <LCTL> = 37;
    <AC01> = 38;
    <AC02> = 39;
    <AC03> = 40;
    <AC04> = 41;
    <LFSH> = 50;
    <LALT> = 64;
    <SPCE> = 65;
    <RALT> = 108;
    <LWIN> = 133;
}};
xkb_types \"test\" {{
    {virtual_modifiers}
    type \"ONE_LEVEL\" {{
        modifiers = none;
        level_name[Level1] = \"Any\";
    }};
    type \"TWO_LEVEL\" {{
        modifiers = Shift;
        map[Shift] = Level2;
        level_name[Level1] = \"Base\";
        level_name[Level2] = \"Shift\";
    }};
    type \"ALPHABETIC\" {{
        modifiers = Shift+Lock;
        map[Shift] = Level2;
        map[Lock] = Level2;
        level_name[Level1] = \"Base\";
        level_name[Level2] = \"Caps\";
    }};
    type \"FOUR_LEVEL\" {{
        modifiers = Shift+Mod5;
        map[Shift] = Level2;
        map[Mod5] = Level3;
        map[Shift+Mod5] = Level4;
        level_name[Level1] = \"Base\";
        level_name[Level2] = \"Shift\";
        level_name[Level3] = \"AltGr\";
        level_name[Level4] = \"Shift AltGr\";
    }};
}};
xkb_compatibility \"test\" {{
    interpret Any+AnyOf(all) {{
        action = SetMods(modifiers=modMapMods,clearLocks);
    }};
}};
xkb_symbols \"test\" {{
    {symbols}
    key <LFSH> {{ [ Shift_L ] }};
    key <LCTL> {{ [ Control_L ] }};
    key <LALT> {{ [ Alt_L ] }};
    key <LWIN> {{ [ Super_L ] }};
    key <RALT> {{ type = \"ONE_LEVEL\", [ ISO_Level3_Shift ] }};
    modifier_map Shift {{ <LFSH> }};
    modifier_map Control {{ <LCTL> }};
    modifier_map Mod1 {{ <LALT> }};
    modifier_map Mod4 {{ <LWIN> }};
    modifier_map Mod5 {{ <RALT> }};
}};
}};
"
    )
}

const CLIENT_SYMBOLS: &str = "
    key <AE01> { [ 1, exclam ] };
    key <AC01> { [ a, A ] };
    key <AC02> { [ s, S ] };
    key <AC03> { [ EuroSign ] };
    key <AC04> { [ Cyrillic_ze ] };
";

const SERVER_SYMBOLS: &str = "
    key <AE01> { [ exclam, 1 ] };
    key <AE02> { [ a ] };
    key <AC01> { [ o, O ] };
    key <AC02> { [ a, A ] };
    key <AC03> { type = \"FOUR_LEVEL\", [ d, D, EuroSign, cent ] };
";

fn file_of(text: &str) -> Vec<u8> {
    let mut buf = text.as_bytes().to_vec();
    buf.push(0);
    buf
}

fn compile(text: &str) -> Keymap {
    compile_keymap(&file_of(text)).expect("the keymap compiles")
}

fn client_keymap() -> Keymap {
    compile(&keymap_text(CLIENT_SYMBOLS, ""))
}

fn server_keymap() -> Keymap {
    compile(&keymap_text(SERVER_SYMBOLS, ""))
}

/// A keymap with as many modifiers as there can be.
fn crowded_keymap() -> Keymap {
    let names: Vec<String> = (0..24).map(|i| format!("V{i}")).collect();
    compile(&keymap_text(CLIENT_SYMBOLS, &format!("virtual_modifiers {};", names.join(","))))
}

fn active(keymap: Keymap) -> SharedKeymap {
    let mut shared = SharedKeymap::new();
    shared.set(keymap);
    shared
}

/// A keyboard on device 0, with nothing in the queue.
fn new_keyboard() -> (Keyboard, Queue) {
    let mut ids = Counter::new();
    let mut queue = Queue::new();
    let dev = Device::spawn(true, &mut ids, &mut queue, 0);
    queue.take();
    (Keyboard::new(dev), queue)
}

/// A keyboard that knows the client's keymap.
fn client_keyboard() -> (Keyboard, Queue) {
    let (mut kb, queue) = new_keyboard();
    kb.set_client_keymap(&client_keymap());
    (kb, queue)
}

fn down(code: u16) -> Cmd {
    Cmd::Emit(0, EV_KEY, code, 1)
}

fn up(code: u16) -> Cmd {
    Cmd::Emit(0, EV_KEY, code, 0)
}

const SYNC: Cmd = Cmd::Sync(0);

/// What a key event makes the keyboard send.
fn key(kb: &mut Keyboard, active: &SharedKeymap, queue: &mut Queue, key: u32, state: u32) -> Vec<Cmd> {
    assert!(kb.try_handle_key(active, queue, key, state));
    queue.take()
}

#[test]
fn modifier_keysyms() {
    for sym in [0xffe1, 0xffe5, 0xffee, 0xff7e, 0xff7f, 0xfe03, 0xfe11] {
        assert!(is_modifier_keysym(sym), "{sym:#x}");
    }
    for sym in [0, 0x61, 0xffe0, 0xffef, 0xff7d, 0xff80, 0xfe02, 0xfe04, 0xfe10, 0xfe12, u32::MAX] {
        assert!(!is_modifier_keysym(sym), "{sym:#x}");
    }
}

#[test]
fn flags_are_held_in_order() {
    let all = ModFlags { shift: true, control: true, mod1: true, mod4: true };
    assert_eq!(flag_keys(all), vec![KEY_LEFTSHIFT, KEY_LEFTCTRL, KEY_LEFTALT, KEY_LEFTMETA]);
    let two = ModFlags { shift: false, control: true, mod1: false, mod4: true };
    assert_eq!(flag_keys(two), vec![KEY_LEFTCTRL, KEY_LEFTMETA]);
    let none = ModFlags { shift: false, control: false, mod1: false, mod4: false };
    assert_eq!(flag_keys(none), vec![]);
}

#[test]
fn active_modifiers_of_a_state() {
    let mut state = State::new(client_keymap());
    assert_eq!(passthrough_mod_keys(&state), vec![]);
    state.update_mask(0x01 | 0x08, 0, 0x40, 0, 0, 0);
    assert_eq!(
        effective_mods(&state),
        ModFlags { shift: true, control: false, mod1: true, mod4: true }
    );
    assert_eq!(passthrough_mod_keys(&state), vec![KEY_LEFTSHIFT, KEY_LEFTALT, KEY_LEFTMETA]);
    state.update_mask(0, 0x04, 0, 0, 0, 0);
    assert_eq!(passthrough_mod_keys(&state), vec![KEY_LEFTCTRL]);
}

#[test]
fn raw_codes_are_16_bits() {
    assert_eq!(to_raw_code(30), 30);
    assert_eq!(to_raw_code(0x1_0001), 1);
    assert_eq!(to_evdev(38), 30);
    assert_eq!(to_evdev(8), 0);
    assert_eq!(to_evdev(3), 0);
    assert_eq!(to_evdev(0x1_0008), 0);
}

#[test]
fn masks_and_combinations() {
    assert_eq!(mod_mask(None), 0);
    assert_eq!(mod_mask(Some(0)), 1);
    assert_eq!(mod_mask(Some(7)), 0x80);
    assert_eq!(mod_mask(Some(31)), 0x8000_0000);
    let tried = |shift: u32, level3: u32| -> Vec<(u32, Vec<u16>)> {
        level_combos(shift, level3).into_iter().map(|c| (c.mask, c.modkeys)).collect()
    };
    assert_eq!(
        tried(1, 0x80),
        vec![
            (0, vec![]),
            (1, vec![KEY_LEFTSHIFT]),
            (0x80, vec![KEY_RIGHTALT]),
            (0x81, vec![KEY_LEFTSHIFT, KEY_RIGHTALT]),
        ]
    );
    assert_eq!(tried(1, 0), vec![(0, vec![]), (1, vec![KEY_LEFTSHIFT])]);
    assert_eq!(tried(0, 0x80), vec![(0, vec![]), (0x80, vec![KEY_RIGHTALT])]);
    assert_eq!(tried(0, 0), vec![(0, vec![])]);
}

#[test]
fn reverse_map_finds_the_simplest_way() {
    let map = ReverseMap::build(&server_keymap());
    // two keys produce it, and the one with the lower keycode is taken
    assert_eq!(map.lookup(0x61), Some((KEY_2 as u16, &[][..])));
    assert_eq!(map.lookup(0x41), Some((KEY_S as u16, &[KEY_LEFTSHIFT][..])));
    assert_eq!(map.lookup(0x21), Some((KEY_1 as u16, &[][..])));
    assert_eq!(map.lookup(0x31), Some((KEY_1 as u16, &[KEY_LEFTSHIFT][..])));
    assert_eq!(map.lookup(0x20ac), Some((KEY_D as u16, &[KEY_RIGHTALT][..])));
    assert_eq!(map.lookup(0xa2), Some((KEY_D as u16, &[KEY_LEFTSHIFT, KEY_RIGHTALT][..])));
    assert_eq!(map.lookup(0x73), None);
    assert!(ReverseMap::empty().lookup(0x61).is_none());
}

#[test]
fn first_entry_stays() {
    let mut map = ReverseMap::empty();
    map.record(0x61, 38, &vec![KEY_LEFTSHIFT]);
    map.record(0x61, 39, &vec![]);
    assert_eq!(map.lookup(0x61), Some((30, &[KEY_LEFTSHIFT][..])));
}

#[test]
fn reverse_map_of_a_crowded_keymap() {
    assert!(ReverseMap::try_build(&crowded_keymap()).is_none());
    assert!(ReverseMap::try_build(&server_keymap()).is_some());
}

#[test]
fn keys_pass_without_keymaps() {
    let (mut kb, mut q) = new_keyboard();
    let none = SharedKeymap::new();
    assert_eq!(key(&mut kb, &none, &mut q, KEY_A, 1), vec![down(30), SYNC]);
    assert_eq!(key(&mut kb, &none, &mut q, KEY_A, 0), vec![up(30), SYNC]);
    // any state but 1 is a release, and a key has 16 bits
    assert_eq!(key(&mut kb, &none, &mut q, 0x1_0002, 2), vec![up(2), SYNC]);
    assert!(!kb.translating());
}

#[test]
fn keys_pass_with_one_keymap() {
    let (mut kb, mut q) = client_keyboard();
    assert_eq!(key(&mut kb, &SharedKeymap::new(), &mut q, KEY_A, 1), vec![down(30), SYNC]);
    let (mut kb, mut q) = new_keyboard();
    let server = active(server_keymap());
    assert_eq!(key(&mut kb, &server, &mut q, KEY_A, 1), vec![down(30), SYNC]);
}

#[test]
fn modifiers_without_a_keymap() {
    let (mut kb, mut q) = new_keyboard();
    let none = SharedKeymap::new();
    assert!(kb.try_handle_modifiers(&none, &mut q, 0x01, 0x04, 0x80, 0));
    assert_eq!(q.take(), vec![down(KEY_LEFTSHIFT), down(KEY_LEFTCTRL), down(KEY_RIGHTALT), SYNC]);
    // the same again is nothing new
    assert!(kb.try_handle_modifiers(&none, &mut q, 0x85, 0, 0, 0));
    assert_eq!(q.take(), vec![]);
    // bit 5 has no key
    assert!(kb.try_handle_modifiers(&none, &mut q, 0x20 | 0x40, 0, 0, 0));
    assert_eq!(
        q.take(),
        vec![up(KEY_LEFTSHIFT), up(KEY_LEFTCTRL), down(KEY_LEFTMETA), up(KEY_RIGHTALT), SYNC]
    );
    assert!(kb.try_handle_modifiers(&none, &mut q, 0xff, 0, 0, 0));
    assert_eq!(
        q.take(),
        vec![
            down(KEY_LEFTSHIFT),
            down(KEY_CAPSLOCK),
            down(KEY_LEFTCTRL),
            down(KEY_LEFTALT),
            down(KEY_NUMLOCK),
            down(KEY_RIGHTALT),
            SYNC
        ]
    );
}

#[test]
fn keymap_arrives_while_modifiers_are_held() {
    let (mut kb, mut q) = client_keyboard();
    kb.handle_modifiers(&SharedKeymap::new(), &mut q, 0x01 | 0x02, 0, 0, 0);
    assert_eq!(q.take(), vec![down(KEY_LEFTSHIFT), down(KEY_CAPSLOCK), SYNC]);
    let server = active(server_keymap());
    assert_eq!(
        key(&mut kb, &server, &mut q, KEY_A, 1),
        vec![up(KEY_LEFTSHIFT), up(KEY_CAPSLOCK), SYNC, down(KEY_2 as u16), SYNC]
    );
}

#[test]
fn key_is_translated() {
    let (mut kb, mut q) = client_keyboard();
    let server = active(server_keymap());
    assert_eq!(key(&mut kb, &server, &mut q, KEY_A, 1), vec![down(KEY_2 as u16), SYNC]);
    assert!(kb.translating());
    assert_eq!(key(&mut kb, &server, &mut q, KEY_A, 0), vec![up(KEY_2 as u16), SYNC]);
}

#[test]
fn client_keymap_comes_as_a_file() {
    let (mut kb, mut q) = new_keyboard();
    let server = active(server_keymap());
    let file = file_of(&keymap_text(CLIENT_SYMBOLS, ""));
    kb.handle_keymap(KEYMAP_FORMAT_XKB_V1 + 1, &file);
    assert_eq!(key(&mut kb, &server, &mut q, KEY_A, 1), vec![down(30), SYNC]);
    kb.handle_keymap(KEYMAP_FORMAT_XKB_V1, b"xkb_keymap {");
    assert!(!kb.translating());
    kb.handle_keymap(KEYMAP_FORMAT_XKB_V1, &file);
    assert!(kb.translating());
    assert_eq!(key(&mut kb, &server, &mut q, KEY_A, 1), vec![down(KEY_2 as u16), SYNC]);
}

#[test]
fn compiled_client_keymap_is_used() {
    let (mut kb, mut q) = new_keyboard();
    let server = active(server_keymap());
    kb.update_client_keymap(KEYMAP_FORMAT_XKB_V1, None);
    kb.update_client_keymap(0, Some(client_keymap()));
    assert_eq!(key(&mut kb, &server, &mut q, KEY_A, 1), vec![down(30), SYNC]);
    kb.update_client_keymap(KEYMAP_FORMAT_XKB_V1, Some(client_keymap()));
    assert_eq!(key(&mut kb, &server, &mut q, KEY_A, 1), vec![down(KEY_2 as u16), SYNC]);
    // one that does not compile leaves the old one
    kb.update_client_keymap(KEYMAP_FORMAT_XKB_V1, None);
    assert!(kb.translating());
}

#[test]
fn level_modifier_is_pressed_for_a_key() {
    let (mut kb, mut q) = client_keyboard();
    let server = active(server_keymap());
    assert_eq!(
        key(&mut kb, &server, &mut q, KEY_1, 1),
        vec![down(KEY_LEFTSHIFT), down(KEY_1 as u16), SYNC]
    );
    assert_eq!(
        key(&mut kb, &server, &mut q, KEY_1, 0),
        vec![up(KEY_1 as u16), up(KEY_LEFTSHIFT), SYNC]
    );
    assert_eq!(
        key(&mut kb, &server, &mut q, KEY_D, 1),
        vec![down(KEY_RIGHTALT), down(KEY_D as u16), SYNC]
    );
    assert_eq!(
        key(&mut kb, &server, &mut q, KEY_D, 0),
        vec![up(KEY_D as u16), up(KEY_RIGHTALT), SYNC]
    );
}

#[test]
fn held_shift_is_used() {
    let (mut kb, mut q) = client_keyboard();
    let server = active(server_keymap());
    let shift = KEY_LEFTSHIFT as u32;
    assert_eq!(key(&mut kb, &server, &mut q, shift, 1), vec![down(KEY_LEFTSHIFT), SYNC]);
    assert_eq!(key(&mut kb, &server, &mut q, KEY_A, 1), vec![down(KEY_S as u16), SYNC]);
    assert_eq!(key(&mut kb, &server, &mut q, KEY_A, 0), vec![up(KEY_S as u16), SYNC]);
    assert_eq!(key(&mut kb, &server, &mut q, shift, 0), vec![up(KEY_LEFTSHIFT), SYNC]);
}

#[test]
fn held_shift_is_released_for_a_key() {
    let (mut kb, mut q) = client_keyboard();
    let server = active(server_keymap());
    key(&mut kb, &server, &mut q, KEY_LEFTSHIFT as u32, 1);
    assert_eq!(
        key(&mut kb, &server, &mut q, KEY_1, 1),
        vec![up(KEY_LEFTSHIFT), down(KEY_1 as u16), SYNC]
    );
    assert_eq!(
        key(&mut kb, &server, &mut q, KEY_1, 0),
        vec![up(KEY_1 as u16), down(KEY_LEFTSHIFT), SYNC]
    );
}

#[test]
fn released_shift_is_pressed_again_with_its_key() {
    let (mut kb, mut q) = client_keyboard();
    let server = active(server_keymap());
    key(&mut kb, &server, &mut q, KEY_LEFTSHIFT as u32, 1);
    key(&mut kb, &server, &mut q, KEY_1, 1);
    assert_eq!(
        key(&mut kb, &server, &mut q, KEY_LEFTSHIFT as u32, 0),
        vec![up(KEY_LEFTSHIFT), SYNC]
    );
    assert_eq!(
        key(&mut kb, &server, &mut q, KEY_1, 0),
        vec![up(KEY_1 as u16), down(KEY_LEFTSHIFT), SYNC]
    );
}

#[test]
fn level_and_passthrough_modifiers_together() {
    let (mut kb, mut q) = client_keyboard();
    let server = active(server_keymap());
    kb.handle_modifiers(&server, &mut q, 0x01 | 0x04, 0, 0, 0);
    assert_eq!(q.take(), vec![down(KEY_LEFTSHIFT), down(KEY_LEFTCTRL), SYNC]);
    // the Euro sign has one level, so the client types it with Shift too
    assert_eq!(
        key(&mut kb, &server, &mut q, KEY_D, 1),
        vec![up(KEY_LEFTSHIFT), down(KEY_RIGHTALT), down(KEY_D as u16), SYNC]
    );
    assert_eq!(
        key(&mut kb, &server, &mut q, KEY_D, 0),
        vec![up(KEY_D as u16), up(KEY_RIGHTALT), down(KEY_LEFTSHIFT), SYNC]
    );
    kb.handle_modifiers(&server, &mut q, 0x04, 0, 0x08, 0);
    assert_eq!(q.take(), vec![down(KEY_LEFTALT), up(KEY_LEFTSHIFT), SYNC]);
    kb.handle_modifiers(&server, &mut q, 0x04, 0, 0x08, 0);
    assert_eq!(q.take(), vec![]);
}

#[test]
fn same_modifiers_again_send_nothing() {
    let (mut kb, mut q) = client_keyboard();
    let server = active(server_keymap());
    key(&mut kb, &server, &mut q, KEY_A, 1);
    kb.handle_modifiers(&server, &mut q, 0x01, 0x04, 0x40, 0);
    assert_eq!(
        q.take(),
        vec![down(KEY_LEFTSHIFT), down(KEY_LEFTCTRL), down(KEY_LEFTMETA), SYNC]
    );
    kb.handle_modifiers(&server, &mut q, 0x01, 0x04, 0x40, 0);
    assert_eq!(q.take(), vec![]);
    // the key that is down is still remembered
    assert_eq!(key(&mut kb, &server, &mut q, KEY_A, 1), vec![]);
}

#[test]
fn first_key_after_the_keymap_types_its_keysym() {
    let (mut kb, mut q) = client_keyboard();
    kb.handle_modifiers(&SharedKeymap::new(), &mut q, 0x80, 0, 0, 0);
    assert_eq!(q.take(), vec![down(KEY_RIGHTALT), SYNC]);
    let server = active(server_keymap());
    // AltGr is let go of, and pressed again because the key needs it
    assert_eq!(
        key(&mut kb, &server, &mut q, KEY_D, 1),
        vec![up(KEY_RIGHTALT), SYNC, down(KEY_RIGHTALT), down(KEY_D as u16), SYNC]
    );
}

#[test]
fn untypable_keysym_falls_back_to_the_key() {
    let (mut kb, mut q) = client_keyboard();
    let server = active(server_keymap());
    assert_eq!(key(&mut kb, &server, &mut q, KEY_S, 1), vec![down(KEY_S as u16), SYNC]);
    assert_eq!(key(&mut kb, &server, &mut q, KEY_S, 0), vec![up(KEY_S as u16), SYNC]);
    assert_eq!(key(&mut kb, &server, &mut q, KEY_F, 1), vec![down(KEY_F as u16), SYNC]);
    // a key that the client's keymap does not have at all
    assert_eq!(key(&mut kb, &server, &mut q, 200, 1), vec![down(200), SYNC]);
}

#[test]
fn repeated_press_sends_nothing() {
    let (mut kb, mut q) = client_keyboard();
    let server = active(server_keymap());
    key(&mut kb, &server, &mut q, KEY_1, 1);
    assert_eq!(key(&mut kb, &server, &mut q, KEY_1, 1), vec![]);
    assert_eq!(
        key(&mut kb, &server, &mut q, KEY_1, 0),
        vec![up(KEY_1 as u16), up(KEY_LEFTSHIFT), SYNC]
    );
    assert_eq!(key(&mut kb, &server, &mut q, KEY_1, 0), vec![]);
}

#[test]
fn plain_modifier_keys_pass_through() {
    let (mut kb, mut q) = client_keyboard();
    let server = active(server_keymap());
    assert_eq!(
        key(&mut kb, &server, &mut q, KEY_LEFTCTRL as u32, 1),
        vec![down(KEY_LEFTCTRL), SYNC]
    );
    assert_eq!(
        key(&mut kb, &server, &mut q, KEY_LEFTMETA as u32, 1),
        vec![down(KEY_LEFTMETA), SYNC]
    );
    assert_eq!(key(&mut kb, &server, &mut q, KEY_A, 1), vec![down(KEY_2 as u16), SYNC]);
    assert_eq!(key(&mut kb, &server, &mut q, KEY_LEFTCTRL as u32, 0), vec![up(KEY_LEFTCTRL), SYNC]);
    // AltGr is a level modifier, which is not held by itself
    assert_eq!(key(&mut kb, &server, &mut q, KEY_RIGHTALT as u32, 1), vec![]);
}

#[test]
fn release_follows_the_press_when_keymaps_change() {
    let (mut kb, mut q) = client_keyboard();
    let mut server = active(server_keymap());
    key(&mut kb, &server, &mut q, KEY_1, 1);
    server.set(client_keymap());
    kb.set_client_keymap(&server_keymap());
    assert_eq!(
        key(&mut kb, &server, &mut q, KEY_1, 0),
        vec![up(KEY_1 as u16), up(KEY_LEFTSHIFT), SYNC]
    );
}

#[test]
fn new_server_keymap_is_followed() {
    let (mut kb, mut q) = client_keyboard();
    let mut server = active(server_keymap());
    assert_eq!(key(&mut kb, &server, &mut q, KEY_A, 1), vec![down(KEY_2 as u16), SYNC]);
    assert_eq!(key(&mut kb, &server, &mut q, KEY_A, 0), vec![up(KEY_2 as u16), SYNC]);
    server.set(client_keymap());
    assert_eq!(key(&mut kb, &server, &mut q, KEY_A, 1), vec![down(KEY_A as u16), SYNC]);
    assert_eq!(key(&mut kb, &server, &mut q, KEY_1, 1), vec![down(KEY_1 as u16), SYNC]);
}

#[test]
fn change_of_client_keymap_leaves_no_modifier_held() {
    let (mut kb, mut q) = client_keyboard();
    let server = active(server_keymap());
    key(&mut kb, &server, &mut q, KEY_LEFTCTRL as u32, 1);
    kb.set_client_keymap(&server_keymap());
    assert_eq!(
        key(&mut kb, &server, &mut q, KEY_S, 1),
        vec![up(KEY_LEFTCTRL), SYNC, down(KEY_2 as u16), SYNC]
    );
}

#[test]
fn destroy_releases_everything() {
    let (mut kb, mut q) = client_keyboard();
    let server = active(server_keymap());
    key(&mut kb, &server, &mut q, KEY_LEFTCTRL as u32, 1);
    key(&mut kb, &server, &mut q, KEY_1, 1);
    kb.handle_destroy(&mut q);
    assert_eq!(q.take(), vec![up(KEY_1 as u16), up(KEY_LEFTSHIFT), up(KEY_LEFTCTRL), SYNC]);
    kb.handle_destroy(&mut q);
    assert_eq!(q.take(), vec![SYNC]);
    kb.remove(&mut q);
    assert_eq!(q.take(), vec![Cmd::Remove(0)]);
}

#[test]
fn destroy_releases_every_key_in_some_order() {
    let (mut kb, mut q) = client_keyboard();
    let server = active(server_keymap());
    key(&mut kb, &server, &mut q, KEY_A, 1);
    key(&mut kb, &server, &mut q, KEY_F, 1);
    kb.handle_destroy(&mut q);
    let cmds = q.take();
    assert_eq!(cmds.len(), 3);
    assert!(cmds[..2].contains(&up(KEY_2 as u16)));
    assert!(cmds[..2].contains(&up(KEY_F as u16)));
    assert_eq!(cmds[2], SYNC);
}

#[test]
fn destroy_releases_raw_modifiers() {
    let (mut kb, mut q) = new_keyboard();
    kb.handle_modifiers(&SharedKeymap::new(), &mut q, 0x04 | 0x10, 0, 0, 0);
    q.take();
    kb.handle_destroy(&mut q);
    assert_eq!(q.take(), vec![up(KEY_LEFTCTRL), up(KEY_NUMLOCK), SYNC]);
}

#[test]
fn events_that_cannot_be_handled_change_nothing() {
    let (mut kb, mut q) = client_keyboard();
    let server = active(server_keymap());
    // no XKB keycode
    assert!(!kb.try_handle_key(&server, &mut q, u32::MAX - 7, 1));
    assert!(kb.can_handle_key(&server, u32::MAX - 8, 1));
    // a key without symbols has no layout
    assert!(!kb.try_handle_key(&server, &mut q, KEY_SPACE, 1));
    assert_eq!(q.take(), vec![]);
    assert!(!kb.translating());
    let state = State::new(client_keymap());
    assert!(!can_update_key(&state, KEY_SPACE + 8));
    assert!(can_update_key(&state, KEY_A + 8));
    assert!(can_update_key(&state, 200));
}

#[test]
fn crowded_keymaps_are_refused() {
    let (mut kb, mut q) = client_keyboard();
    let crowded = active(crowded_keymap());
    assert!(!kb.try_handle_key(&crowded, &mut q, KEY_A, 1));
    assert!(!kb.try_handle_modifiers(&crowded, &mut q, 1, 0, 0, 0));
    kb.set_client_keymap(&crowded_keymap());
    let server = active(server_keymap());
    assert!(!kb.try_handle_modifiers(&server, &mut q, 1, 0, 0, 0));
    assert!(kb.try_handle_modifiers(&SharedKeymap::new(), &mut q, 1, 0, 0, 0));
    assert_eq!(q.take(), vec![down(KEY_LEFTSHIFT), SYNC]);
}

#[test]
fn keyboard_without_a_device_is_silent() {
    let mut ids = Counter::new();
    let mut queue = Queue::new();
    let mut kb = KeyboardManager::new().handle_create_virtual_keyboard(false, &mut ids, &mut queue, 0);
    assert_eq!(key(&mut kb, &SharedKeymap::new(), &mut queue, KEY_A, 1), vec![]);
    kb.handle_destroy(&mut queue);
    kb.remove(&mut queue);
    assert_eq!(queue.take(), vec![]);
    assert_eq!(ids.fetch(), 0);
}

#[test]
fn keyboards_get_numbers_and_names() {
    let manager = KeyboardManager::new();
    let mut names = Counter::new();
    assert_eq!(manager.next_name(&mut names), "wl-uinput-proxy virtual keyboard 0");
    assert_eq!(manager.next_name(&mut names), "wl-uinput-proxy virtual keyboard 1");
    let mut ids = Counter::new();
    let mut queue = Queue::new();
    manager.handle_create_virtual_keyboard(true, &mut ids, &mut queue, 7);
    let mut kb = manager.handle_create_virtual_keyboard(true, &mut ids, &mut queue, 8);
    assert_eq!(queue.take(), vec![Cmd::Add(0, 7 + CREATE_DELAY), Cmd::Add(1, 8 + CREATE_DELAY)]);
    assert_eq!(
        key(&mut kb, &SharedKeymap::new(), &mut queue, KEY_A, 1),
        vec![Cmd::Emit(1, EV_KEY, 30, 1), Cmd::Sync(1)]
    );
}

#[test]
fn keyboard_device_has_the_keys_below_the_buttons() {
    let plan = create_keyboard_device("k");
    assert_eq!(plan.capabilities.len(), 256);
    assert_eq!(plan.capabilities[0], Capability::Event(EV_KEY));
    assert_eq!(plan.capabilities[1], Capability::Key(1));
    assert_eq!(plan.capabilities[255], Capability::Key(255));
    for code in [KEY_LEFTSHIFT, KEY_LEFTCTRL, KEY_LEFTALT, KEY_LEFTMETA, KEY_RIGHTALT, KEY_CAPSLOCK, KEY_NUMLOCK] {
        assert!(plan.capabilities.contains(&Capability::Key(code)));
    }
    assert!(plan.axes.is_empty());
}
