//! The logic of a Wayland proxy that implements virtual keyboards and pointers with uinput.
//!
//! - [`proxy`]: what the proxy passes on, and what it serves itself.
//! - [`seat`]: how it gets the compositor's keymap.
//! - [`keyboard`]: a virtual keyboard, which translates between two keymaps; [`reverse`] is the way
//!   back from keysyms to keys, [`keystate`] what the events do to the keys of the device, and
//!   [`typing`] what they are for what the client does.
//! - [`pointer`]: a virtual pointer.
//! - [`uinput`]: the devices and the commands to them; [`delivery`] is what becomes of those.
//! - [`xkb`]: the calls into `xkbcommon_rs`.

pub mod delivery;
pub mod keyboard;
pub mod keystate;
pub mod pointer;
pub mod proxy;
pub mod reverse;
pub mod seat;
pub mod typing;
pub mod uinput;
pub mod xkb;
