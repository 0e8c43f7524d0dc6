//! The way back from keysyms to keys: which key, with which level-shifting keys held, produces a
//! keysym under a keymap.

use crate::uinput::{KEY_LEFTSHIFT, KEY_RIGHTALT};
use crate::xkb;
use std::collections::HashMap;
use vstd::prelude::*;
use xkbcommon_rs::Keymap;

verus! {

broadcast use vstd::std_specs::hash::group_hash_axioms;

/// A set of modifiers that are tried together: their bits in a keymap, and the keys that set them.
pub struct Combo {
    pub mask: u32,
    pub modkeys: Vec<u16>,
}

impl View for Combo {
    type V = (u32, Seq<u16>);

    open spec fn view(&self) -> (u32, Seq<u16>) {
        (self.mask, self.modkeys@)
    }
}

/// The bit of a modifier, or 0 for one that the keymap does not have.
pub open spec fn mod_bit(index: Option<usize>) -> u32 {
    match index {
        Some(i) => 1u32 << i,
        None => 0,
    }
}

/// The bit of a modifier, or 0 for one that the keymap does not have.
pub fn mod_mask(index: Option<usize>) -> (mask: u32)
    requires
        index matches Some(i) ==> i < 32,
    ensures
        mask == mod_bit(index),
{
    match index {
        Some(i) => 1u32 << i,
        None => 0,
    }
}

/// The combinations of modifiers to try, the simpler ones first: none; Shift; AltGr; both. One
/// whose bit is 0 is left out.
pub open spec fn combos(shift: u32, level3: u32) -> Seq<(u32, Seq<u16>)> {
    seq![(0u32, Seq::<u16>::empty())] + (if shift != 0 {
        seq![(shift, seq![KEY_LEFTSHIFT])]
    } else {
        seq![]
    }) + (if level3 != 0 {
        seq![(level3, seq![KEY_RIGHTALT])]
    } else {
        seq![]
    }) + (if shift != 0 && level3 != 0 {
        seq![(shift | level3, seq![KEY_LEFTSHIFT, KEY_RIGHTALT])]
    } else {
        seq![]
    })
}

/// The combinations of modifiers to try, for the bits of Shift and of AltGr.
pub fn level_combos(shift: u32, level3: u32) -> (r: Vec<Combo>)
    ensures
        r@.map_values(|c: Combo| c@) == combos(shift, level3),
{
    let mut r: Vec<Combo> = Vec::new();
    let none: Vec<u16> = Vec::new();
    r.push(Combo { mask: 0, modkeys: none });
    if shift != 0 {
        r.push(Combo { mask: shift, modkeys: vec![KEY_LEFTSHIFT] });
    }
    if level3 != 0 {
        r.push(Combo { mask: level3, modkeys: vec![KEY_RIGHTALT] });
        if shift != 0 {
            r.push(Combo { mask: shift | level3, modkeys: vec![KEY_LEFTSHIFT, KEY_RIGHTALT] });
        }
    }
    proof {
        let views = r@.map_values(|c: Combo| c@);
        assert(views.len() == combos(shift, level3).len());
        assert forall|i: int| 0 <= i < views.len() implies views[i] == combos(shift, level3)[i] by {
            assert(views[i].1 =~= combos(shift, level3)[i].1);
        }
        assert(views =~= combos(shift, level3));
    }
    r
}

/// The evdev code of an XKB keycode: 8 less, in 16 bits.
pub open spec fn evdev_code(keycode: u32) -> u16 {
    if keycode < 8 {
        0
    } else {
        ((keycode - 8) % 65536) as u16
    }
}

/// The evdev code of an XKB keycode.
pub fn to_evdev(keycode: u32) -> (code: u16)
    ensures
        code == evdev_code(keycode),
{
    let raw: u32 = if keycode < 8 {
        0
    } else {
        keycode - 8
    };
    assert(raw as u16 == raw % 65536) by (bit_vector);
    raw as u16
}

/// The keysym of a key under a keymap while the modifiers in `mask` are held.
pub open spec fn level_sym(keymap: Keymap, mask: u32, keycode: u32) -> Option<u32> {
    xkb::state_sym(
        xkb::state_after_mask(xkb::initial_state(keymap), mask, 0, 0, 0, 0, 0),
        keycode,
    )
}

/// The combinations that are tried for a keymap.
pub open spec fn keymap_combos(keymap: Keymap) -> Seq<(u32, Seq<u16>)> {
    combos(
        mod_bit(xkb::keymap_mod_index(keymap, "Shift"@)),
        mod_bit(xkb::keymap_mod_index(keymap, "Mod5"@)),
    )
}

/// The combination number `c` and the keycode produce the keysym.
pub open spec fn produces(keymap: Keymap, c: int, keycode: u32, sym: u32) -> bool {
    &&& 0 <= c < keymap_combos(keymap).len()
    &&& xkb::keymap_min_keycode(keymap) <= keycode <= xkb::keymap_max_keycode(keymap)
    &&& level_sym(keymap, keymap_combos(keymap)[c].0, keycode) == Some(sym)
}

/// A simpler combination comes first, and under one combination a lower keycode.
pub open spec fn earlier(c1: int, keycode1: int, c2: int, keycode2: int) -> bool {
    c1 < c2 || (c1 == c2 && keycode1 < keycode2)
}

/// The combination and the keycode are the first that produce the keysym.
pub open spec fn first_to_produce(keymap: Keymap, c: int, keycode: u32, sym: u32) -> bool {
    &&& produces(keymap, c, keycode, sym)
    &&& forall|c1: int, k1: u32|
        earlier(c1, k1 as int, c, keycode as int) ==> !#[trigger] produces(keymap, c1, k1, sym)
}

/// What is known of a keysym after everything before a combination and a keycode was looked at.
spec fn scanned_sym(
    syms: Map<u32, (u16, Seq<u16>)>,
    keymap: Keymap,
    c_end: int,
    keycode_end: int,
    sym: u32,
) -> bool {
    if syms.contains_key(sym) {
        exists|c: int, k: u32|
            {
                &&& #[trigger] first_to_produce(keymap, c, k, sym)
                &&& syms[sym] == (evdev_code(k), keymap_combos(keymap)[c].1)
                &&& earlier(c, k as int, c_end, keycode_end)
            }
    } else {
        forall|c: int, k: u32|
            earlier(c, k as int, c_end, keycode_end) ==> !#[trigger] produces(keymap, c, k, sym)
    }
}

spec fn scanned(
    syms: Map<u32, (u16, Seq<u16>)>,
    keymap: Keymap,
    c_end: int,
    keycode_end: int,
) -> bool {
    forall|sym: u32| #[trigger] scanned_sym(syms, keymap, c_end, keycode_end, sym)
}

/// What a keysym is mapped to: nothing, if no combination and keycode produce it; else the evdev
/// code and the level-shifting keys of the first that do.
pub open spec fn reverses_sym(
    syms: Map<u32, (u16, Seq<u16>)>,
    keymap: Keymap,
    sym: u32,
) -> bool {
    if syms.contains_key(sym) {
        exists|c: int, k: u32|
            {
                &&& #[trigger] first_to_produce(keymap, c, k, sym)
                &&& syms[sym] == (evdev_code(k), keymap_combos(keymap)[c].1)
            }
    } else {
        forall|c: int, k: u32| !#[trigger] produces(keymap, c, k, sym)
    }
}

/// The map takes each keysym to the first way of producing it under the keymap.
pub open spec fn reverses(syms: Map<u32, (u16, Seq<u16>)>, keymap: Keymap) -> bool {
    forall|sym: u32| #[trigger] reverses_sym(syms, keymap, sym)
}

/// The entry that is made for a keysym: the first one stays.
pub open spec fn recorded(
    syms: Map<u32, (u16, Seq<u16>)>,
    sym: u32,
    keycode: u32,
    modkeys: Seq<u16>,
) -> Map<u32, (u16, Seq<u16>)> {
    if syms.contains_key(sym) {
        syms
    } else {
        syms.insert(sym, (evdev_code(keycode), modkeys))
    }
}

proof fn lemma_scan_key(
    syms: Map<u32, (u16, Seq<u16>)>,
    keymap: Keymap,
    c: int,
    k: u32,
    found: Option<u32>,
)
    requires
        scanned(syms, keymap, c, k as int),
        0 <= c < keymap_combos(keymap).len(),
        xkb::keymap_min_keycode(keymap) <= k <= xkb::keymap_max_keycode(keymap),
        found == level_sym(keymap, keymap_combos(keymap)[c].0, k),
    ensures
        found matches Some(sym) ==> scanned(
            recorded(syms, sym, k, keymap_combos(keymap)[c].1),
            keymap,
            c,
            k + 1,
        ),
        found is None ==> scanned(syms, keymap, c, k + 1),
{
    let next = match found {
        Some(sym) => recorded(syms, sym, k, keymap_combos(keymap)[c].1),
        None => syms,
    };
    assert forall|sym: u32| #[trigger] scanned_sym(next, keymap, c, k + 1, sym) by {
        assert(scanned_sym(syms, keymap, c, k as int, sym));
        assert forall|c1: int, k1: u32| earlier(c1, k1 as int, c, k + 1) implies earlier(
            c1,
            k1 as int,
            c,
            k as int,
        ) || (c1 == c && k1 == k) by {}
        if syms.contains_key(sym) {
            assert(next.contains_key(sym) && next[sym] == syms[sym]);
            let (c0, k0) = choose|c0: int, k0: u32|
                {
                    &&& #[trigger] first_to_produce(keymap, c0, k0, sym)
                    &&& syms[sym] == (evdev_code(k0), keymap_combos(keymap)[c0].1)
                    &&& earlier(c0, k0 as int, c, k as int)
                };
            assert(first_to_produce(keymap, c0, k0, sym));
        } else if found == Some(sym) {
            assert(produces(keymap, c, k, sym));
            assert(first_to_produce(keymap, c, k, sym));
        }
    }
}

proof fn lemma_scan_next_combo(syms: Map<u32, (u16, Seq<u16>)>, keymap: Keymap, c: int, end: int)
    requires
        scanned(syms, keymap, c, end),
        end > xkb::keymap_max_keycode(keymap),
    ensures
        scanned(syms, keymap, c + 1, xkb::keymap_min_keycode(keymap) as int),
{
    let min = xkb::keymap_min_keycode(keymap) as int;
    assert forall|sym: u32| #[trigger] scanned_sym(syms, keymap, c + 1, min, sym) by {
        assert(scanned_sym(syms, keymap, c, end, sym));
        if syms.contains_key(sym) {
            let (c0, k0) = choose|c0: int, k0: u32|
                {
                    &&& #[trigger] first_to_produce(keymap, c0, k0, sym)
                    &&& syms[sym] == (evdev_code(k0), keymap_combos(keymap)[c0].1)
                    &&& earlier(c0, k0 as int, c, end)
                };
            assert(first_to_produce(keymap, c0, k0, sym));
        }
    }
}

proof fn lemma_scan_done(syms: Map<u32, (u16, Seq<u16>)>, keymap: Keymap, end: int)
    requires
        scanned(syms, keymap, keymap_combos(keymap).len() as int, end),
        end <= xkb::keymap_min_keycode(keymap),
    ensures
        reverses(syms, keymap),
{
    let n = keymap_combos(keymap).len() as int;
    assert forall|sym: u32| #[trigger] reverses_sym(syms, keymap, sym) by {
        assert(scanned_sym(syms, keymap, n, end, sym));
        if syms.contains_key(sym) {
            let (c0, k0) = choose|c0: int, k0: u32|
                {
                    &&& #[trigger] first_to_produce(keymap, c0, k0, sym)
                    &&& syms[sym] == (evdev_code(k0), keymap_combos(keymap)[c0].1)
                    &&& earlier(c0, k0 as int, n, end)
                };
            assert(first_to_produce(keymap, c0, k0, sym));
        }
    }
}

/// The keys that produce keysyms.
pub struct ReverseMap {
    syms: HashMap<u32, (u16, Vec<u16>)>,
}

impl View for ReverseMap {
    type V = Map<u32, (u16, Seq<u16>)>;

    closed spec fn view(&self) -> Map<u32, (u16, Seq<u16>)> {
        self.syms@.map_values(|entry: (u16, Vec<u16>)| (entry.0, entry.1@))
    }
}

impl ReverseMap {
    /// A map that knows no keysym.
    pub fn empty() -> (map: Self)
        ensures
            map@ == Map::<u32, (u16, Seq<u16>)>::empty(),
    {
        let map = Self { syms: HashMap::new() };
        assert(map@ =~= Map::<u32, (u16, Seq<u16>)>::empty());
        map
    }

    /// Notes that a keycode produces a keysym while some keys are held, unless a way to produce
    /// the keysym is known.
    pub fn record(&mut self, sym: u32, keycode: u32, modkeys: &Vec<u16>)
        ensures
            final(self)@ == recorded(old(self)@, sym, keycode, modkeys@),
    {
        if !self.syms.contains_key(&sym) {
            let mods: Vec<u16> = modkeys.clone();
            assert(mods@ =~= modkeys@);
            self.syms.insert(sym, (to_evdev(keycode), mods));
        }
        assert(self@ =~= recorded(old(self)@, sym, keycode, modkeys@));
    }

    /// Tries each combination of level-shifting keys with each key of the keymap.
    pub fn build(keymap: &Keymap) -> (map: Self)
        requires
            xkb::keymap_num_mods(*keymap) < 32,
        ensures
            reverses(map@, *keymap),
    {
        let mut map = Self::empty();
        let mut state = xkb::new_state(keymap);
        let shift: u32 = mod_mask(xkb::mod_get_index(keymap, "Shift"));
        let level3: u32 = mod_mask(xkb::mod_get_index(keymap, "Mod5"));  // AltGr

        // try simpler combinations first
        let combos = level_combos(shift, level3);
        let min: u32 = xkb::min_keycode(keymap);
        let max: u32 = xkb::max_keycode(keymap);
        let ghost views = combos@.map_values(|c: Combo| c@);

        let mut c: usize = 0;
        while c < combos.len()
            invariant
                c <= combos.len(),
                views == combos@.map_values(|c: Combo| c@),
                views == keymap_combos(*keymap),
                min == xkb::keymap_min_keycode(*keymap),
                max == xkb::keymap_max_keycode(*keymap),
                xkb::keymap_num_mods(*keymap) < 32,
                xkb::state_keymap(state) == *keymap,
                forall|b: u32, la: u32, lo: u32, g: usize| #[trigger]
                    xkb::state_after_mask(state, b, la, lo, 0, 0, g) == xkb::state_after_mask(
                        xkb::initial_state(*keymap),
                        b,
                        la,
                        lo,
                        0,
                        0,
                        g,
                    ),
                scanned(map@, *keymap, c as int, min as int),
            decreases combos.len() - c,
        {
            let combo = &combos[c];
            assert(views[c as int] == combo@);
            xkb::update_mask(&mut state, combo.mask, 0, 0, 0);
            assert(state == xkb::state_after_mask(
                xkb::initial_state(*keymap),
                combo.mask,
                0,
                0,
                0,
                0,
                0,
            ));
            let mut keycode: u32 = min;
            let mut done: bool = min > max;
            while !done
                invariant
                    c < views.len(),
                    views == keymap_combos(*keymap),
                    combo@ == views[c as int],
                    min == xkb::keymap_min_keycode(*keymap),
                    max == xkb::keymap_max_keycode(*keymap),
                    state == xkb::state_after_mask(
                        xkb::initial_state(*keymap),
                        combo.mask,
                        0,
                        0,
                        0,
                        0,
                        0,
                    ),
                    !done ==> min <= keycode <= max,
                    scanned(
                        map@,
                        *keymap,
                        c as int,
                        if done {
                            if min > max {
                                min as int
                            } else {
                                max + 1
                            }
                        } else {
                            keycode as int
                        },
                    ),
                decreases
                    if done {
                        0
                    } else {
                        max - keycode + 1
                    },
            {
                let ghost known = map@;
                let sym = xkb::key_get_one_sym(&state, keycode);
                if let Some(sym) = sym {
                    map.record(sym, keycode, &combo.modkeys);
                }
                proof {
                    lemma_scan_key(known, *keymap, c as int, keycode, sym);
                }
                if keycode == max {
                    done = true;
                } else {
                    keycode = keycode + 1;
                }
            }
            proof {
                lemma_scan_next_combo(
                    map@,
                    *keymap,
                    c as int,
                    if min > max {
                        min as int
                    } else {
                        max + 1
                    },
                );
            }
            c = c + 1;
        }
        proof {
            lemma_scan_done(map@, *keymap, min as int);
        }
        map
    }

    /// As [`ReverseMap::build`], for any keymap: `None` for one that defines too many modifiers.
    pub fn try_build(keymap: &Keymap) -> (map: Option<Self>)
        ensures
            map is Some <==> xkb::keymap_num_mods(*keymap) < 32,
            map matches Some(m) ==> reverses(m@, *keymap),
    {
        if xkb::num_mods(keymap) < 32 {
            Some(Self::build(keymap))
        } else {
            None
        }
    }

    /// The evdev code and the level-shifting keys that produce a keysym.
    pub fn lookup(&self, sym: u32) -> (found: Option<(u16, &[u16])>)
        ensures
            found is Some <==> self@.contains_key(sym),
            found matches Some(f) ==> (f.0, f.1@) == self@[sym],
    {
        match self.syms.get(&sym) {
            Some(entry) => Some((entry.0, entry.1.as_slice())),
            None => None,
        }
    }
}

/// The modifiers that are active under a keymap while Shift, AltGr, or both are held.
pub open spec fn level_mask(keymap: Keymap, shift: bool, level3: bool) -> u32 {
    (if shift {
        mod_bit(xkb::keymap_mod_index(keymap, "Shift"@))
    } else {
        0
    }) | (if level3 {
        mod_bit(xkb::keymap_mod_index(keymap, "Mod5"@))
    } else {
        0
    })
}

/// The keys of a combination set the modifiers of the combination.
pub proof fn combo_keys_set_its_mask(keymap: Keymap, c: int)
    requires
        0 <= c < keymap_combos(keymap).len(),
    ensures
        ({
            let (mask, modkeys) = keymap_combos(keymap)[c];
            mask == level_mask(
                keymap,
                modkeys.contains(KEY_LEFTSHIFT),
                modkeys.contains(KEY_RIGHTALT),
            )
        }),
{
    let shift = mod_bit(xkb::keymap_mod_index(keymap, "Shift"@));
    let level3 = mod_bit(xkb::keymap_mod_index(keymap, "Mod5"@));
    let (mask, modkeys) = keymap_combos(keymap)[c];
    assert(shift | 0u32 == shift) by (bit_vector);
    assert(0u32 | level3 == level3) by (bit_vector);
    assert(0u32 | 0u32 == 0) by (bit_vector);
    assert(KEY_LEFTSHIFT != KEY_RIGHTALT);
    if modkeys.len() > 0 {
        assert(modkeys.contains(modkeys[0]));
    }
    if modkeys.len() > 1 {
        assert(modkeys.contains(modkeys[1]));
    }
}

/// A way to type a keysym does type it: there is a key with that evdev code which produces the
/// keysym while exactly those level-shifting keys are held.
pub proof fn lookup_produces_keysym(
    syms: Map<u32, (u16, Seq<u16>)>,
    keymap: Keymap,
    sym: u32,
) -> (keycode: u32)
    requires
        reverses(syms, keymap),
        syms.contains_key(sym),
    ensures
        evdev_code(keycode) == syms[sym].0,
        8 <= keycode < 65544 ==> keycode == syms[sym].0 + 8,
        xkb::keymap_min_keycode(keymap) <= keycode <= xkb::keymap_max_keycode(keymap),
        level_sym(
            keymap,
            level_mask(
                keymap,
                syms[sym].1.contains(KEY_LEFTSHIFT),
                syms[sym].1.contains(KEY_RIGHTALT),
            ),
            keycode,
        ) == Some(sym),
{
    assert(reverses_sym(syms, keymap, sym));
    let (c, k) = choose|c: int, k: u32|
        {
            &&& #[trigger] first_to_produce(keymap, c, k, sym)
            &&& syms[sym] == (evdev_code(k), keymap_combos(keymap)[c].1)
        };
    combo_keys_set_its_mask(keymap, c);
    k
}

/// A keysym that some key produces with one of the combinations is known.
pub proof fn known_keysyms(
    syms: Map<u32, (u16, Seq<u16>)>,
    keymap: Keymap,
    c: int,
    keycode: u32,
    sym: u32,
)
    requires
        reverses(syms, keymap),
        produces(keymap, c, keycode, sym),
    ensures
        syms.contains_key(sym),
{
    assert(reverses_sym(syms, keymap, sym));
}

/// A keysym that needs no level-shifting keys is typed without any.
pub proof fn plain_keysyms_need_no_modifiers(
    syms: Map<u32, (u16, Seq<u16>)>,
    keymap: Keymap,
    keycode: u32,
    sym: u32,
)
    requires
        reverses(syms, keymap),
        xkb::keymap_min_keycode(keymap) <= keycode <= xkb::keymap_max_keycode(keymap),
        level_sym(keymap, 0, keycode) == Some(sym),
    ensures
        syms.contains_key(sym),
        syms[sym].1 == Seq::<u16>::empty(),
{
    assert(keymap_combos(keymap)[0] == (0u32, Seq::<u16>::empty()));
    assert(produces(keymap, 0, keycode, sym));
    assert(reverses_sym(syms, keymap, sym));
    let (c, k) = choose|c: int, k: u32|
        {
            &&& #[trigger] first_to_produce(keymap, c, k, sym)
            &&& syms[sym] == (evdev_code(k), keymap_combos(keymap)[c].1)
        };
    assert(!earlier(0, keycode as int, c, k as int));
}

/// A keymap has one reverse map.
pub proof fn reverse_is_unique(
    a: Map<u32, (u16, Seq<u16>)>,
    b: Map<u32, (u16, Seq<u16>)>,
    keymap: Keymap,
)
    requires
        reverses(a, keymap),
        reverses(b, keymap),
    ensures
        a == b,
{
    assert forall|sym: u32|
        #![trigger a.dom().contains(sym)]
        #![trigger b.dom().contains(sym)]
        a.dom().contains(sym) == b.dom().contains(sym) && (a.dom().contains(sym) ==> a[sym]
            == b[sym]) by {
        assert(reverses_sym(a, keymap, sym));
        assert(reverses_sym(b, keymap, sym));
        if a.contains_key(sym) {
            let (c1, k1) = choose|c: int, k: u32|
                {
                    &&& #[trigger] first_to_produce(keymap, c, k, sym)
                    &&& a[sym] == (evdev_code(k), keymap_combos(keymap)[c].1)
                };
            assert(produces(keymap, c1, k1, sym));
            let (c2, k2) = choose|c: int, k: u32|
                {
                    &&& #[trigger] first_to_produce(keymap, c, k, sym)
                    &&& b[sym] == (evdev_code(k), keymap_combos(keymap)[c].1)
                };
            assert(produces(keymap, c2, k2, sym));
            assert(!earlier(c1, k1 as int, c2, k2 as int));
            assert(!earlier(c2, k2 as int, c1, k1 as int));
        } else if b.contains_key(sym) {
            let (c2, k2) = choose|c: int, k: u32|
                {
                    &&& #[trigger] first_to_produce(keymap, c, k, sym)
                    &&& b[sym] == (evdev_code(k), keymap_combos(keymap)[c].1)
                };
            assert(produces(keymap, c2, k2, sym));
        }
    }
    assert(a.dom() =~= b.dom());
    assert(a =~= b);
}

/// The mask of a modifier in a keymap, 0 for one that it does not have.
pub open spec fn named_bit(keymap: Keymap, name: Seq<char>) -> u32 {
    match xkb::keymap_mod_index(keymap, name) {
        Some(i) => 1u32 << i,
        None => 0,
    }
}

/// A key types a keysym while Shift, AltGr, both or neither are held, and nothing else is. A
/// modifier that the keymap does not have cannot be held.
pub open spec fn types(
    keymap: Keymap,
    shift: bool,
    level3: bool,
    keycode: u32,
    sym: u32,
) -> bool {
    let mask = (if shift {
        named_bit(keymap, "Shift"@)
    } else {
        0
    }) | (if level3 {
        named_bit(keymap, "Mod5"@)
    } else {
        0
    });
    &&& shift ==> named_bit(keymap, "Shift"@) != 0
    &&& level3 ==> named_bit(keymap, "Mod5"@) != 0
    &&& xkb::keymap_min_keycode(keymap) <= keycode <= xkb::keymap_max_keycode(keymap)
    &&& xkb::state_sym(
        xkb::state_after_mask(xkb::initial_state(keymap), mask, 0, 0, 0, 0, 0),
        keycode,
    ) == Some(sym)
}

/// How many keys it takes to hold the modifiers, Shift being simpler than AltGr.
pub open spec fn effort(shift: bool, level3: bool) -> int {
    (if shift {
        1int
    } else {
        0
    }) + (if level3 {
        2int
    } else {
        0
    })
}

proof fn combo_at(keymap: Keymap, shift: bool, level3: bool) -> (c: int)
    requires
        shift ==> named_bit(keymap, "Shift"@) != 0,
        level3 ==> named_bit(keymap, "Mod5"@) != 0,
    ensures
        0 <= c < keymap_combos(keymap).len(),
        c <= effort(shift, level3),
        keymap_combos(keymap)[c].0 == (if shift {
            named_bit(keymap, "Shift"@)
        } else {
            0
        }) | (if level3 {
            named_bit(keymap, "Mod5"@)
        } else {
            0
        }),
        keymap_combos(keymap)[c].1 == (if shift {
            seq![42u16]
        } else {
            seq![]
        }) + (if level3 {
            seq![100u16]
        } else {
            seq![]
        }),
        forall|s: bool, l: bool, d: int|
            #![trigger effort(s, l), keymap_combos(keymap)[d]]
            0 <= d < c && keymap_combos(keymap)[d].1 == (if s {
                seq![42u16]
            } else {
                seq![]
            }) + (if l {
                seq![100u16]
            } else {
                seq![]
            }) ==> effort(s, l) < effort(shift, level3),
{
    let a = named_bit(keymap, "Shift"@);
    let b = named_bit(keymap, "Mod5"@);
    assert(a | 0u32 == a) by (bit_vector);
    assert(0u32 | b == b) by (bit_vector);
    assert(0u32 | 0u32 == 0) by (bit_vector);
    let c: int = if !shift && !level3 {
        0
    } else if !level3 {
        1
    } else if !shift {
        if a != 0 {
            2
        } else {
            1
        }
    } else {
        3
    };
    assert(keymap_combos(keymap)[c].1 =~= (if shift {
        seq![42u16]
    } else {
        seq![]
    }) + (if level3 {
        seq![100u16]
    } else {
        seq![]
    }));
    assert forall|s: bool, l: bool, d: int|
        #![trigger effort(s, l), keymap_combos(keymap)[d]]
        0 <= d < c && keymap_combos(keymap)[d].1 == (if s {
            seq![42u16]
        } else {
            seq![]
        }) + (if l {
            seq![100u16]
        } else {
            seq![]
        }) implies effort(s, l) < effort(shift, level3) by {
        let keys = keymap_combos(keymap)[d].1;
        assert(keys.len() == (if s {
            1int
        } else {
            0
        }) + (if l {
            1int
        } else {
            0
        }));
        if s || l {
            assert(keys[0] == if s {
                42u16
            } else {
                100u16
            });
        }
    }
    c
}

proof fn combo_modifiers(keymap: Keymap, c: int) -> (m: (bool, bool))
    requires
        0 <= c < keymap_combos(keymap).len(),
    ensures
        m.0 ==> named_bit(keymap, "Shift"@) != 0,
        m.1 ==> named_bit(keymap, "Mod5"@) != 0,
        keymap_combos(keymap)[c].0 == (if m.0 {
            named_bit(keymap, "Shift"@)
        } else {
            0
        }) | (if m.1 {
            named_bit(keymap, "Mod5"@)
        } else {
            0
        }),
        keymap_combos(keymap)[c].1 == (if m.0 {
            seq![42u16]
        } else {
            seq![]
        }) + (if m.1 {
            seq![100u16]
        } else {
            seq![]
        }),
{
    let a = named_bit(keymap, "Shift"@);
    let b = named_bit(keymap, "Mod5"@);
    assert(a | 0u32 == a) by (bit_vector);
    assert(0u32 | b == b) by (bit_vector);
    assert(0u32 | 0u32 == 0) by (bit_vector);
    let m = if c == 0 {
        (false, false)
    } else if c == 1 && a != 0 {
        (true, false)
    } else if c == 1 || c == 2 {
        (false, true)
    } else {
        (true, true)
    };
    assert(keymap_combos(keymap)[c].1 =~= (if m.0 {
        seq![42u16]
    } else {
        seq![]
    }) + (if m.1 {
        seq![100u16]
    } else {
        seq![]
    }));
    m
}

/// A keysym is looked up to the simplest way of typing it that there is: the way types it, no
/// other way needs fewer or simpler modifiers, and of those with the same modifiers none has a
/// lower keycode. The evdev code is 8 below the keycode.
pub proof fn lookup_is_simplest(
    syms: Map<u32, (u16, Seq<u16>)>,
    keymap: Keymap,
    sym: u32,
) -> (way: (bool, bool, u32))
    requires
        reverses(syms, keymap),
        syms.contains_key(sym),
    ensures
        types(keymap, way.0, way.1, way.2, sym),
        syms[sym].0 as int == (if way.2 < 8 {
            0
        } else {
            (way.2 - 8) % 65536
        }),
        syms[sym].1 == (if way.0 {
            seq![42u16]
        } else {
            seq![]
        }) + (if way.1 {
            seq![100u16]
        } else {
            seq![]
        }),
        forall|shift: bool, level3: bool, keycode: u32| #[trigger]
            types(keymap, shift, level3, keycode, sym) ==> effort(way.0, way.1) < effort(
                shift,
                level3,
            ) || (way.0 == shift && way.1 == level3 && way.2 <= keycode),
{
    assert(reverses_sym(syms, keymap, sym));
    let (c, k) = choose|c: int, k: u32|
        {
            &&& #[trigger] first_to_produce(keymap, c, k, sym)
            &&& syms[sym] == (evdev_code(k), keymap_combos(keymap)[c].1)
        };
    let (s, l) = combo_modifiers(keymap, c);
    assert forall|shift: bool, level3: bool, keycode: u32| #[trigger]
        types(keymap, shift, level3, keycode, sym) implies effort(s, l) < effort(shift, level3) || (s
        == shift && l == level3 && k <= keycode) by {
        let d = combo_at(keymap, shift, level3);
        assert(produces(keymap, d, keycode, sym));
        assert(!earlier(d, keycode as int, c, k as int));
        let own = keymap_combos(keymap)[c].1;
        if c < d {
            assert(effort(s, l) < effort(shift, level3));
        } else {
            let other = (if shift {
                seq![42u16]
            } else {
                seq![]
            }) + (if level3 {
                seq![100u16]
            } else {
                seq![]
            });
            assert(own == other);
            assert(own.len() == other.len());
            if own.len() == 1 {
                assert(own[0] == other[0]);
            }
        }
    }
    (s, l, k)
}

/// A keysym that is not found cannot be typed in any of these ways.
pub proof fn lookup_finds_all(
    syms: Map<u32, (u16, Seq<u16>)>,
    keymap: Keymap,
    shift: bool,
    level3: bool,
    keycode: u32,
    sym: u32,
)
    requires
        reverses(syms, keymap),
        types(keymap, shift, level3, keycode, sym),
    ensures
        syms.contains_key(sym),
{
    assert(reverses_sym(syms, keymap, sym));
    let d = combo_at(keymap, shift, level3);
    assert(produces(keymap, d, keycode, sym));
}

/// What is noted of a keysym first stays, and other keysyms are left alone.
pub proof fn first_note_stays(
    syms: Map<u32, (u16, Seq<u16>)>,
    sym: u32,
    keycode: u32,
    modkeys: Seq<u16>,
    other: u32,
)
    ensures
        ({
            let noted = recorded(syms, sym, keycode, modkeys);
            &&& noted.contains_key(sym)
            &&& syms.contains_key(sym) ==> noted[sym] == syms[sym]
            &&& !syms.contains_key(sym) ==> noted[sym].1 == modkeys && noted[sym].0 as int == (
            if keycode < 8 {
                0
            } else {
                (keycode - 8) % 65536
            })
            &&& other != sym ==> (noted.contains_key(other) <==> syms.contains_key(other)) && (
            syms.contains_key(other) ==> noted[other] == syms[other])
        }),
{
}

/// The combinations that are tried for two modifiers are all that there are of those that the
/// keymap has, the simpler ones first.
pub proof fn combos_are_complete(shift: u32, level3: u32)
    ensures
        ({
            let tried = combos(shift, level3);
            &&& tried[0].0 == 0 && tried[0].1.len() == 0
            &&& tried.len() == (if shift != 0 {
                2int
            } else {
                1
            }) * (if level3 != 0 {
                2int
            } else {
                1
            })
            &&& shift != 0 ==> tried[1].0 == shift && tried[1].1 == seq![42u16]
            &&& level3 != 0 ==> {
                let i: int = if shift != 0 {
                    2
                } else {
                    1
                };
                tried[i].0 == level3 && tried[i].1 == seq![100u16]
            }
            &&& shift != 0 && level3 != 0 ==> tried[3].0 == shift | level3 && tried[3].1 == seq![
                42u16,
                100u16,
            ]
        }),
{
}

/// The bit of a modifier is the one of its index; a keycode is 8 above its evdev code.
pub proof fn bits_and_codes(i: usize, keycode: u32)
    ensures
        mod_bit(Some(i)) == 1u32 << i,
        mod_bit(None) == 0,
        8 <= keycode < 65544 ==> evdev_code(keycode) + 8 == keycode,
        keycode < 8 ==> evdev_code(keycode) == 0,
        keycode >= 8 ==> evdev_code(keycode) as int == (keycode - 8) % 65536,
{
}

} // verus!
