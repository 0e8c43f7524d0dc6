//! Gets the current keymap from the compositor by getting a private
//! `wl_seat`/`wl_keyboard` to receive the keymap for.

use crate::keyboard::KEYMAP_FORMAT_XKB_V1;
use crate::proxy::Interface;
use crate::uinput;
use crate::xkb;
use vstd::prelude::*;
use xkbcommon_rs::{Context, Keymap};

verus! {

/// Where the text in a keymap file ends: at the first NUL, or at the end of the file.
pub open spec fn text_end(buf: Seq<u8>) -> int {
    if buf.contains(0u8) {
        buf.index_of_first(0u8)->0
    } else {
        buf.len() as int
    }
}

/// The text in a keymap file. An empty file has none, nor does one that is not UTF-8.
pub open spec fn keymap_text(buf: Seq<u8>) -> Option<Seq<char>> {
    let text = buf.take(text_end(buf));
    if buf.len() > 0 && vstd::utf8::valid_utf8(text) {
        Some(vstd::utf8::decode_utf8(text))
    } else {
        None
    }
}

/// Calls `std::str::from_utf8`; a failure becomes `None`. It fails if and only if the bytes are
/// not UTF-8; else the string is what they encode.
#[verifier::external_body]
fn from_utf8(bytes: &[u8]) -> (text: Option<&str>)
    ensures
        text is Some <==> vstd::utf8::valid_utf8(bytes@),
        text matches Some(t) ==> t@ == vstd::utf8::decode_utf8(bytes@),
{
    std::str::from_utf8(bytes).ok()
}

/// The text in a keymap file, which is null-terminated.
pub fn read_text(buf: &[u8]) -> (text: Option<&str>)
    ensures
        text is Some <==> keymap_text(buf@) is Some,
        text matches Some(t) ==> t@ == keymap_text(buf@)->0,
{
    if buf.len() == 0 {
        return None;
    }
    let mut end: usize = 0;
    while end < buf.len() && buf[end] != 0
        invariant
            end <= buf.len(),
            forall|i: int| 0 <= i < end ==> buf@[i] != 0,
        decreases buf.len() - end,
    {
        end = end + 1;
    }
    proof {
        buf@.index_of_first_ensures(0u8);
        if buf@.contains(0u8) {
            assert(end < buf.len());
        } else if end < buf.len() {
            assert(buf@[end as int] == 0);
        }
        assert(end == text_end(buf@));
        assert(buf@.subrange(0, end as int) =~= buf@.take(end as int));
    }
    from_utf8(vstd::slice::slice_subrange(buf, 0, end))
}

/// What a keymap file may be compiled to: nothing, if there is no text in it; else what the text
/// may be compiled to under a context without flags.
pub open spec fn compiles_to(buf: Seq<u8>, keymap: Option<Keymap>) -> bool {
    match keymap_text(buf) {
        Some(text) => exists|context: Context|
            xkb::context_outcome(context) && #[trigger] xkb::compile_outcome(
                context,
                text,
                keymap,
            ),
        None => keymap is None,
    }
}

/// The text in a keymap file, if there is any, is one that the compiler does not panic on.
pub open spec fn compilable(buf: Seq<u8>) -> bool {
    match keymap_text(buf) {
        Some(text) => forall|context: Context| #[trigger]
            xkb::context_outcome(context) ==> exists|outcome: Option<Keymap>|
                xkb::compile_outcome(context, text, outcome),
        None => true,
    }
}

/// Compiles the text in a keymap file. A text on which the compiler panics (see
/// [`xkb::compile_outcome`]) must not be given; there is no way to test for one.
pub fn compile_keymap(buf: &[u8]) -> (keymap: Option<Keymap>)
    requires
        compilable(buf@),
    ensures
        compiles_to(buf@, keymap),
{
    let text = match read_text(buf) {
        Some(text) => text,
        None => {
            return None;
        },
    };
    let context = match xkb::new_context() {
        Some(context) => context,
        None => {
            return None;
        },
    };
    xkb::keymap_from_text(context, text)
}

/// The active keymap, and how often it has changed.
pub struct SharedKeymapView {
    pub keymap: Option<Keymap>,
    pub version: u64,
}

/// The active keymap of the compositor, `None` until it is known. Whoever works something out from
/// it can tell by the version whether it has changed since.
pub struct SharedKeymap {
    keymap: Option<Keymap>,
    version: u64,
}

impl View for SharedKeymap {
    type V = SharedKeymapView;

    closed spec fn view(&self) -> SharedKeymapView {
        SharedKeymapView { keymap: self.keymap, version: self.version }
    }
}

impl SharedKeymap {
    pub fn new() -> (shared: Self)
        ensures
            shared@ == (SharedKeymapView { keymap: None, version: 0 }),
    {
        Self { keymap: None, version: 0 }
    }

    /// The active keymap.
    pub fn get(&self) -> (keymap: Option<&Keymap>)
        ensures
            keymap is Some <==> self@.keymap is Some,
            keymap matches Some(k) ==> *k == self@.keymap->0,
    {
        self.keymap.as_ref()
    }

    /// How often the keymap has changed.
    pub fn version(&self) -> (version: u64)
        ensures
            version == self@.version,
    {
        self.version
    }

    /// The keymap changes.
    pub fn set(&mut self, keymap: Keymap)
        ensures
            final(self)@ == (SharedKeymapView {
                keymap: Some(keymap),
                version: uinput::successor(old(self)@.version),
            }),
    {
        self.keymap = Some(keymap);
        self.version = if self.version == u64::MAX {
            0
        } else {
            self.version + 1
        };
    }
}

/// What a keymap that the compositor sends means.
#[derive(Clone, Copy, Debug, PartialEq, Eq, Structural)]
pub enum KeymapUpdate {
    /// It has a format that is not supported.
    Unsupported,
    /// It does not compile.
    Failed,
    /// It is the active keymap from now on.
    New,
}

/// What is made of a keymap, given what it was compiled to.
pub open spec fn update_of(format: u32, compiled: Option<Keymap>) -> KeymapUpdate {
    if format != KEYMAP_FORMAT_XKB_V1 {
        KeymapUpdate::Unsupported
    } else if compiled is None {
        KeymapUpdate::Failed
    } else {
        KeymapUpdate::New
    }
}

/// The active keymap then: the old one, if nothing came of the new one.
pub open spec fn keymap_after(
    shared: SharedKeymapView,
    format: u32,
    compiled: Option<Keymap>,
) -> SharedKeymapView {
    if update_of(format, compiled) == KeymapUpdate::New {
        SharedKeymapView { keymap: compiled, version: uinput::successor(shared.version) }
    } else {
        shared
    }
}

/// What is made of a keymap, given what it was compiled to.
pub fn update_keymap(
    shared: &mut SharedKeymap,
    format: u32,
    compiled: Option<Keymap>,
) -> (update: KeymapUpdate)
    ensures
        update == update_of(format, compiled),
        final(shared)@ == keymap_after(old(shared)@, format, compiled),
{
    if format != KEYMAP_FORMAT_XKB_V1 {
        return KeymapUpdate::Unsupported;
    }
    match compiled {
        Some(keymap) => {
            shared.set(keymap);
            KeymapUpdate::New
        },
        None => KeymapUpdate::Failed,
    }
}

/// The compositor's keyboard.
pub struct ServerKeyboard;

impl ServerKeyboard {
    /// The compositor sends a keymap as the contents of a file, on which [`compile_keymap`] does
    /// not panic.
    pub fn handle_keymap(
        &self,
        shared: &mut SharedKeymap,
        format: u32,
        buf: &[u8],
    ) -> (update: KeymapUpdate)
        requires
            format == KEYMAP_FORMAT_XKB_V1 ==> compilable(buf@),
        ensures
            update == KeymapUpdate::Unsupported <==> format != KEYMAP_FORMAT_XKB_V1,
            exists|compiled: Option<Keymap>|
                {
                    &&& format == KEYMAP_FORMAT_XKB_V1 ==> compiles_to(buf@, compiled)
                    &&& update == #[trigger] update_of(format, compiled)
                    &&& final(shared)@ == keymap_after(old(shared)@, format, compiled)
                },
    {
        if format != KEYMAP_FORMAT_XKB_V1 {
            return update_keymap(shared, format, None);
        }
        let compiled = compile_keymap(buf);
        let ghost c = compiled;
        let update = update_keymap(shared, format, compiled);
        assert(update == update_of(format, c));
        update
    }
}

/// `wl_seat.capability.keyboard`.
pub const CAPABILITY_KEYBOARD: u32 = 2;

/// The compositor's seat.
pub struct ServerSeat {
    got_keyboard: bool,
}

impl ServerSeat {
    /// Whether the keyboard was asked for.
    pub closed spec fn got_keyboard(self) -> bool {
        self.got_keyboard
    }

    pub fn new() -> (seat: Self)
        ensures
            !seat.got_keyboard(),
    {
        Self { got_keyboard: false }
    }

    /// The seat has the given capabilities. Says whether to ask for its keyboard: the first time
    /// that it has one.
    pub fn handle_capabilities(&mut self, capabilities: u32) -> (get_keyboard: bool)
        ensures
            get_keyboard == (!old(self).got_keyboard() && capabilities & CAPABILITY_KEYBOARD != 0),
            final(self).got_keyboard() == (old(self).got_keyboard() || capabilities
                & CAPABILITY_KEYBOARD != 0),
    {
        if !self.got_keyboard && capabilities & CAPABILITY_KEYBOARD != 0 {
            self.got_keyboard = true;
            return true;
        }
        false
    }
}

/// The private registry, in which the seat is looked for.
pub struct ServerRegistry {
    bound_seat: bool,
}

impl ServerRegistry {
    /// Whether a seat was found.
    pub closed spec fn bound_seat(self) -> bool {
        self.bound_seat
    }

    pub fn new() -> (registry: Self)
        ensures
            !registry.bound_seat(),
    {
        Self { bound_seat: false }
    }

    /// The compositor announces a global. Says whether to bind it: just the first seat, it's not
    /// like we can choose which one we attach uinput devices to.
    pub fn handle_global(&mut self, interface: Interface) -> (bind: bool)
        ensures
            bind == (interface == Interface::WlSeat && !old(self).bound_seat()),
            final(self).bound_seat() == (old(self).bound_seat() || interface == Interface::WlSeat),
    {
        if interface == Interface::WlSeat && !self.bound_seat {
            self.bound_seat = true;
            return true;
        }
        false
    }
}

/// What follows the first NUL in a keymap file does not matter.
pub proof fn text_ends_at_nul(text: Seq<u8>, rest: Seq<u8>)
    requires
        !text.contains(0u8),
    ensures
        text_end(text.push(0u8) + rest) == text.len(),
        keymap_text(text.push(0u8) + rest) == (if vstd::utf8::valid_utf8(text) {
            Some(vstd::utf8::decode_utf8(text))
        } else {
            None
        }),
{
    let buf = text.push(0u8) + rest;
    assert(buf[text.len() as int] == 0u8);
    buf.index_of_first_ensures(0u8);
    let end = text_end(buf);
    if end < text.len() {
        assert(text[end] == buf[end]);
    }
    assert(buf.take(end) =~= text);
}

/// The text of a file without a NUL is the whole file; an empty file has none.
pub proof fn text_without_nul(buf: Seq<u8>)
    requires
        !buf.contains(0u8),
    ensures
        text_end(buf) == buf.len(),
        keymap_text(buf) == (if buf.len() > 0 && vstd::utf8::valid_utf8(buf) {
            Some(vstd::utf8::decode_utf8(buf))
        } else {
            None
        }),
{
    assert(buf.take(buf.len() as int) =~= buf);
}

/// The latest keymap is in force: whatever was active before, a keymap in the `xkb_v1` format that
/// compiles becomes the active one, under a new version. Any other leaves the active one alone.
pub proof fn latest_keymap_is_active(
    shared: SharedKeymapView,
    format: u32,
    compiled: Option<Keymap>,
)
    ensures
        format == 1 && compiled is Some ==> {
            &&& update_of(format, compiled) == KeymapUpdate::New
            &&& keymap_after(shared, format, compiled).keymap == compiled
            &&& keymap_after(shared, format, compiled).version != shared.version
            &&& shared.version < u64::MAX ==> keymap_after(shared, format, compiled).version
                == shared.version + 1
        },
        format == 1 && compiled is None ==> {
            &&& update_of(format, compiled) == KeymapUpdate::Failed
            &&& keymap_after(shared, format, compiled) == shared
        },
        format != 1 ==> {
            &&& update_of(format, compiled) == KeymapUpdate::Unsupported
            &&& keymap_after(shared, format, compiled) == shared
        },
{
}

/// What a file was compiled to was made of its text, and of nothing where it has none.
pub proof fn compiled_from_its_text(buf: Seq<u8>, keymap: Option<Keymap>) -> (context: Context)
    requires
        compiles_to(buf, keymap),
    ensures
        keymap is Some ==> keymap_text(buf) is Some,
        keymap_text(buf) matches Some(text) ==> xkb::context_outcome(context)
            && xkb::compile_outcome(context, text, keymap),
{
    choose|context: Context|
        xkb::context_outcome(context) && #[trigger] xkb::compile_outcome(
            context,
            keymap_text(buf)->0,
            keymap,
        )
}

/// `wl_seat.capability.keyboard` is the second bit.
pub proof fn keyboard_capability()
    ensures
        CAPABILITY_KEYBOARD == 2,
        KEYMAP_FORMAT_XKB_V1 == 1,
{
}

} // verus!
