use wl_uinput_proxy::proxy::Interface;
use wl_uinput_proxy::seat::{
    compile_keymap, read_text, update_keymap, KeymapUpdate, ServerKeyboard, ServerRegistry, ServerSeat, SharedKeymap,
    CAPABILITY_KEYBOARD,
};

const KEYMAP: &str = "xkb_keymap {
xkb_keycodes \"test\" { minimum = 8; maximum = 255; <AC01> = 38; <AC02> = 39; };
xkb_types \"test\" {
    type \"ONE_LEVEL\" { modifiers = none; level_name[Level1] = \"Any\"; };
};
xkb_compatibility \"test\" { };
xkb_symbols \"test\" { key <AC01> { [ a ] }; key <AC02> { [ b ] }; };
};
";

#[test]
fn text_ends_at_the_first_nul() {
    assert_eq!(read_text(b"abc"), Some("abc"));
    assert_eq!(read_text(b"abc\0"), Some("abc"));
    assert_eq!(read_text(b"abc\0def\0"), Some("abc"));
    assert_eq!(read_text(b"abc\0\xff"), Some("abc"));
    assert_eq!(read_text(b"\0abc"), Some(""));
    assert_eq!(read_text("\u{e4}\u{20ac}\0".as_bytes()), Some("\u{e4}\u{20ac}"));
}

#[test]
fn no_text_in_an_empty_file_or_in_bad_bytes() {
    assert_eq!(read_text(b""), None);
    assert_eq!(read_text(b"a\xffb\0"), None);
    assert_eq!(read_text(b"\xe2\x82\0"), None);
}

#[test]
fn keymaps_compile() {
    let keymap = compile_keymap(KEYMAP.as_bytes()).expect("the keymap compiles");
    assert_eq!(u32::from(keymap.min_keycode()), 38);
    assert_eq!(u32::from(keymap.max_keycode()), 39);
    let mut file = KEYMAP.as_bytes().to_vec();
    file.extend_from_slice(b"\0 and so on");
    assert!(compile_keymap(&file).is_some());
}

#[test]
fn bad_keymaps_do_not_compile() {
    assert!(compile_keymap(b"").is_none());
    assert!(compile_keymap(b"\0").is_none());
    assert!(compile_keymap(b"\xff\0").is_none());
    assert!(compile_keymap(b"xkb_keymap {").is_none());
}

#[test]
fn keymaps_of_the_compositor() {
    let keyboard = ServerKeyboard;
    let mut shared = SharedKeymap::new();
    assert!(shared.get().is_none());
    assert_eq!(shared.version(), 0);
    assert_eq!(keyboard.handle_keymap(&mut shared, 0, KEYMAP.as_bytes()), KeymapUpdate::Unsupported);
    assert_eq!(keyboard.handle_keymap(&mut shared, 1, b""), KeymapUpdate::Failed);
    assert_eq!(keyboard.handle_keymap(&mut shared, 1, b"keymap\0"), KeymapUpdate::Failed);
    assert!(shared.get().is_none());
    assert_eq!(shared.version(), 0);
    assert_eq!(keyboard.handle_keymap(&mut shared, 1, KEYMAP.as_bytes()), KeymapUpdate::New);
    assert_eq!(shared.version(), 1);
    assert_eq!(shared.get().map(|keymap| u32::from(keymap.max_keycode())), Some(39));
    // what comes to nothing leaves the keymap alone
    assert_eq!(keyboard.handle_keymap(&mut shared, 1, b""), KeymapUpdate::Failed);
    assert_eq!(shared.version(), 1);
    assert!(shared.get().is_some());
}

#[test]
fn compiled_keymaps_are_stored() {
    let mut shared = SharedKeymap::new();
    assert_eq!(update_keymap(&mut shared, 1, None), KeymapUpdate::Failed);
    let keymap = compile_keymap(KEYMAP.as_bytes());
    assert_eq!(update_keymap(&mut shared, 7, keymap), KeymapUpdate::Unsupported);
    assert!(shared.get().is_none());
    let keymap = compile_keymap(KEYMAP.as_bytes());
    assert_eq!(update_keymap(&mut shared, 1, keymap), KeymapUpdate::New);
    assert!(shared.get().is_some());
}

#[test]
fn keyboard_is_asked_for_once() {
    let mut seat = ServerSeat::new();
    assert!(!seat.handle_capabilities(0));
    assert!(!seat.handle_capabilities(1 | 4));
    assert!(seat.handle_capabilities(CAPABILITY_KEYBOARD | 1));
    assert!(!seat.handle_capabilities(CAPABILITY_KEYBOARD | 1));
    assert!(!seat.handle_capabilities(0));
}

#[test]
fn first_seat_is_bound() {
    let mut registry = ServerRegistry::new();
    assert!(!registry.handle_global(Interface::Other));
    assert!(!registry.handle_global(Interface::ZwlrVirtualPointerManagerV1));
    assert!(registry.handle_global(Interface::WlSeat));
    assert!(!registry.handle_global(Interface::WlSeat));
}
