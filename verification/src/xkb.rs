//! The calls into `xkbcommon_rs`, which compiles keymaps and interprets keys.
//!
//! A [`Keymap`] and a [`State`] are opaque values here. What the crate computes from them is a
//! function of the value and of the arguments alone, and each such function has a name below;
//! everything else in this library is stated over those names. How a keymap is compiled depends on
//! the environment too, so it is a relation.

use vstd::prelude::*;
use xkbcommon_rs::xkb_state::KeyDirection;
use xkbcommon_rs::{Context, Keymap, KeymapFormat, State};

verus! {

/// `xkbcommon_rs::Keymap`: a compiled, immutable keymap.
#[verifier::external_type_specification]
#[verifier::external_body]
pub struct ExKeymap(xkbcommon_rs::Keymap);

/// `xkbcommon_rs::State`: the modifiers and the layout that are active under a keymap.
#[verifier::external_type_specification]
#[verifier::external_body]
pub struct ExState(xkbcommon_rs::State);

/// `xkbcommon_rs::Context`: the settings under which a keymap is compiled.
#[verifier::external_type_specification]
#[verifier::external_body]
pub struct ExContext(xkbcommon_rs::Context);

/// What `State::new` makes of a keymap.
pub uninterp spec fn initial_state(keymap: Keymap) -> State;

/// What `State::get_keymap` returns: the keymap that a state interprets keys under.
pub uninterp spec fn state_keymap(state: State) -> Keymap;

/// What `State::key_get_one_sym` returns: the keysym of a key, if it has exactly one.
pub uninterp spec fn state_sym(state: State, keycode: u32) -> Option<u32>;

/// What `State::mod_name_is_active` returns for the effective modifiers: `None` where the keymap
/// has no modifier of that name.
pub uninterp spec fn state_mod(state: State, name: Seq<char>) -> Option<bool>;

/// What `State::key_get_layout` returns: the layout that is in force for a key.
pub uninterp spec fn state_key_layout(state: State, keycode: u32) -> Option<usize>;

/// The state that `State::update_key` leaves behind, where it returns.
pub uninterp spec fn state_after_key(state: State, keycode: u32, down: bool) -> State;

/// Whether `State::update_key` returns. It panics where the keymap turns a latched modifier into a
/// locked one (`latchToLock`) and the key is released then, and where keys have moved the depressed
/// layout out of range. The crate offers no way to tell beforehand.
pub uninterp spec fn key_update_returns(state: State, keycode: u32, down: bool) -> bool;

/// The state that `State::update_mask` leaves behind, for the depressed, latched and locked
/// modifiers and the depressed, latched and locked layout.
pub uninterp spec fn state_after_mask(
    state: State,
    base_mods: u32,
    latched_mods: u32,
    locked_mods: u32,
    base_group: usize,
    latched_group: usize,
    locked_group: usize,
) -> State;

/// What `Keymap::num_mods` returns: how many modifiers a keymap defines.
pub uninterp spec fn keymap_num_mods(keymap: Keymap) -> usize;

/// What `Keymap::mod_get_index` returns: the bit of a modifier, by its name.
pub uninterp spec fn keymap_mod_index(keymap: Keymap, name: Seq<char>) -> Option<usize>;

/// What `Keymap::min_keycode` returns.
pub uninterp spec fn keymap_min_keycode(keymap: Keymap) -> u32;

/// What `Keymap::max_keycode` returns.
pub uninterp spec fn keymap_max_keycode(keymap: Keymap) -> u32;

/// What `Keymap::num_layouts_for_key` returns: `None` for a key that the keymap does not define.
pub uninterp spec fn keymap_key_layouts(keymap: Keymap, keycode: u32) -> Option<usize>;

/// Whether `Context::new` without flags may return the context. This is a relation and no function:
/// what is returned depends on the environment and on which directories exist.
pub uninterp spec fn context_outcome(context: Context) -> bool;

/// Whether `Keymap::new_from_string`, in the `TextV1` format and without flags, may make this of
/// the text under the context, `None` being a failure. This is a relation and no function: the text
/// may name files to be taken in from the directories of the context. There is no outcome where
/// the call panics, which it does on some malformed texts and files (such as one with a string
/// whose octal escapes are not UTF-8). The crate offers no way to tell beforehand.
pub uninterp spec fn compile_outcome(
    context: Context,
    text: Seq<char>,
    keymap: Option<Keymap>,
) -> bool;

/// Calls `State::new` on a copy of the keymap. The new state is [`initial_state`], and the
/// keymap that it interprets keys under is the one it was made from.
#[verifier::external_body]
pub(crate) fn new_state(keymap: &Keymap) -> (state: State)
    ensures
        state == initial_state(*keymap),
        state_keymap(state) == *keymap,
{
    State::new(keymap.clone())
}

/// Calls `State::get_keymap`.
#[verifier::external_body]
pub(crate) fn get_keymap(state: &State) -> (keymap: &Keymap)
    ensures
        *keymap == state_keymap(*state),
{
    state.get_keymap()
}

/// Calls `State::key_get_one_sym` and takes the keysym's number.
#[verifier::external_body]
pub(crate) fn key_get_one_sym(state: &State, keycode: u32) -> (sym: Option<u32>)
    ensures
        sym == state_sym(*state, keycode),
{
    state.key_get_one_sym(keycode).map(|sym| sym.raw())
}

/// Calls `State::mod_name_is_active` for the effective modifiers; the error, which says that the
/// keymap has no such modifier, becomes `None`.
#[verifier::external_body]
pub(crate) fn mod_name_is_active(state: &State, name: &str) -> (active: Option<bool>)
    ensures
        active == state_mod(*state, name@),
{
    state.mod_name_is_active(name, xkbcommon_rs::xkb_state::StateComponent::MODS_EFFECTIVE).ok()
}

/// Calls `State::key_get_layout`.
#[verifier::external_body]
pub(crate) fn key_get_layout(state: &State, keycode: u32) -> (layout: Option<usize>)
    ensures
        layout == state_key_layout(*state, keycode),
{
    state.key_get_layout(keycode)
}

/// Whether a key can be fed to `State::update_key`: the keymap does not define the key, in which
/// case nothing happens, or a layout is in force for it.
pub open spec fn accepts_key(state: State, keycode: u32) -> bool {
    keymap_key_layouts(state_keymap(state), keycode) is None || state_key_layout(
        state,
        keycode,
    ) is Some
}

/// Calls `State::update_key`. The state that it leaves is [`state_after_key`], under the same
/// keymap. The call panics on a key that the keymap defines without any layout, and where
/// [`key_update_returns`] says so: `requires` leaves both out.
#[verifier::external_body]
pub(crate) fn update_key(state: &mut State, keycode: u32, down: bool)
    requires
        accepts_key(*old(state), keycode),
        key_update_returns(*old(state), keycode, down),
    ensures
        key_update_returns(*old(state), keycode, down) && *final(state) == state_after_key(
            *old(state),
            keycode,
            down,
        ),
        state_keymap(*final(state)) == state_keymap(*old(state)),
{
    let direction = match down {
        true => KeyDirection::Down,
        false => KeyDirection::Up,
    };
    state.update_key(keycode, direction);
}

/// What a mask leaves of one state is what it leaves of the other.
pub open spec fn same_after_mask(a: State, b: State) -> bool {
    forall|base: u32, latched: u32, locked: u32, group: usize| #[trigger]
        state_after_mask(a, base, latched, locked, 0, 0, group) == state_after_mask(
            b,
            base,
            latched,
            locked,
            0,
            0,
            group,
        )
}

/// Calls `State::update_mask`. The state that it leaves is [`state_after_mask`], under the same
/// keymap. Every modifier and layout component is overwritten, so of two calls in a row only the
/// last counts. The call computes a mask with a bit for each modifier of the keymap by shifting
/// a `u32`, which overflows for a keymap that defines 32 of them: `requires` leaves that out.
#[verifier::external_body]
pub(crate) fn update_mask(
    state: &mut State,
    base_mods: u32,
    latched_mods: u32,
    locked_mods: u32,
    locked_group: usize,
)
    requires
        keymap_num_mods(state_keymap(*old(state))) < 32,
    ensures
        *final(state) == state_after_mask(
            *old(state),
            base_mods,
            latched_mods,
            locked_mods,
            0,
            0,
            locked_group,
        ),
        state_keymap(*final(state)) == state_keymap(*old(state)),
        same_after_mask(*final(state), *old(state)),
{
    state.update_mask(base_mods, latched_mods, locked_mods, 0, 0, locked_group);
}

/// Calls `Keymap::num_mods`.
#[verifier::external_body]
pub(crate) fn num_mods(keymap: &Keymap) -> (n: usize)
    ensures
        n == keymap_num_mods(*keymap),
{
    keymap.num_mods()
}

/// Calls `Keymap::mod_get_index`. A keymap defines at most 32 modifiers, so an index is below
/// that.
#[verifier::external_body]
pub(crate) fn mod_get_index(keymap: &Keymap, name: &str) -> (index: Option<usize>)
    ensures
        index == keymap_mod_index(*keymap, name@),
        index matches Some(i) ==> i < 32,
{
    keymap.mod_get_index(name)
}

/// Calls `Keymap::min_keycode` and takes the keycode's number.
#[verifier::external_body]
pub(crate) fn min_keycode(keymap: &Keymap) -> (keycode: u32)
    ensures
        keycode == keymap_min_keycode(*keymap),
{
    u32::from(keymap.min_keycode())
}

/// Calls `Keymap::max_keycode` and takes the keycode's number.
#[verifier::external_body]
pub(crate) fn max_keycode(keymap: &Keymap) -> (keycode: u32)
    ensures
        keycode == keymap_max_keycode(*keymap),
{
    u32::from(keymap.max_keycode())
}

/// Calls `Keymap::num_layouts_for_key`.
#[verifier::external_body]
pub(crate) fn num_layouts_for_key(keymap: &Keymap, keycode: u32) -> (layouts: Option<usize>)
    ensures
        layouts == keymap_key_layouts(*keymap, keycode),
{
    keymap.num_layouts_for_key(keycode)
}

/// Calls `Context::new` without flags; a failure becomes `None`. It does not fail, and the context
/// is one that the call may return. Nothing else is promised of the context: it holds directories
/// that the environment names and that exist.
#[verifier::external_body]
pub(crate) fn new_context() -> (context: Option<Context>)
    ensures
        context is Some,
        context_outcome(context->0),
{
    Context::new(0).ok()
}

/// Calls `Keymap::new_from_string` on keymap text in the `TextV1` format, without flags; a
/// failure becomes `None`. The result is one that the call may give for this context and this
/// text. Whether it is a keymap is not said: the text may name files to be taken in from the
/// directories of the context. A text on which the call panics has no outcome, and `requires`
/// leaves it out.
#[verifier::external_body]
pub(crate) fn keymap_from_text(context: Context, text: &str) -> (keymap: Option<Keymap>)
    requires
        exists|outcome: Option<Keymap>| compile_outcome(context, text@, outcome),
    ensures
        compile_outcome(context, text@, keymap),
{
    Keymap::new_from_string(context, text, KeymapFormat::TextV1, 0u32).ok()
}

/// Whether a key can be fed to a state: see [`accepts_key`].
pub fn can_update_key(state: &State, keycode: u32) -> (accepted: bool)
    ensures
        accepted == accepts_key(*state, keycode),
{
    let layouts = num_layouts_for_key(get_keymap(state), keycode);
    match layouts {
        None => true,
        Some(_) => key_get_layout(state, keycode).is_some(),
    }
}

} // verus!
