# wl-uinput-proxy

Proxies a Wayland connection and implements `zwp_virtual_keyboard_v1` and
`zwlr_virtual_pointer_v1` with uinput devices, for compositors whose own virtual input is broken
or incomplete.

A virtual keyboard comes with a keymap of its own, while a uinput device is read with the
compositor's. So keys are translated: the keysym that a key has under the client's keymap is looked
up in a reverse map of the compositor's keymap, and the key that produces it there is pressed, with
the level-shifting keys (Shift, AltGr) set to what it needs. Modifiers that do not shift levels are
passed through. While a keymap is missing, keys are passed on as they are and modifiers are
simulated by the keys of the standard modifiers.

## Layout

- `src/` is the library: everything that decides or computes, verified with Verus.
- `app/` is the program around it: the Wayland handlers, `/dev/uinput`, the emitter thread, and
  what is computed in floating point.
- `tests/` runs the library.

## What is proved

- Each handler of a keyboard or a pointer sends exactly the events that its contract names, in
  that order, and changes its state as the contract says (`keyboard.rs`, `pointer.rs`).
- The reverse map takes each keysym to the simplest way of typing it (`reverse.rs`), it is that of
  the active keymap, and a translated key types the client's keysym (`keystate.rs`).
- No key is stuck: of every key that is down the keyboard knows why, and it lets go of all of them
  in the end (`keystate.rs`, which also names the two exceptions).
- Events keep their order across all devices, nothing is written to a device before it is ready,
  and a device is destroyed only after its last event (`delivery.rs`).
- A pointer stays on its axes, and reports nothing that its device cannot (`pointer.rs`).

What is not proved is what `xkbcommon_rs` does. `xkb.rs` says what is relied on, function by
function; so does `from_utf8` in `seat.rs` for the standard library.

Two preconditions cannot be tested by a caller, because `xkbcommon_rs` offers no way to tell: that
it does not panic when it compiles a keymap file (`seat::compilable`; it does on some malformed
texts, such as one with a string whose octal escapes are not UTF-8), and that it does not panic when
the client's keymap takes note of a key (`xkb::key_update_returns`; it does where a keymap uses
`latchToLock`, and where keys move the depressed layout out of range). On such an input the program
panics.
