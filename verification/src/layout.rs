//! Shortcuts and the keyboard layout.

use crate::place::{first_is_place_of, place_of, place_of_is_first};
use crate::text::{characters, joined, same_text};
use vstd::prelude::*;
use vstd::string::StrSliceExecFns;

verus! {

/// The punctuation keys whose virtual-key code moves with the keyboard layout.
///
/// Each entry is (the US name of the physical key, its scan code, the virtual
/// key a US layout puts there).
///
/// A shortcut names a *physical* key by its US label, so the key that types `|`
/// on a Latin American Spanish keyboard still arrives as "Backquote". The
/// registration then turns that name into a virtual key with a fixed US table:
/// Backquote becomes 0xC0. But on that layout the physical key reports 0xDC,
/// and 0xC0 is another key. So the registration succeeds, binds a key that is
/// never pressed, and the shortcut silently does nothing.
///
/// Letters and digits are immune: their virtual keys are the same on every
/// Latin layout. Only this set moves.
pub const LAYOUT_KEYS: [(&'static str, u32, u16); 11] = [
    ("Minus", 0x0C, 0xBD),
    ("Equal", 0x0D, 0xBB),
    ("BracketLeft", 0x1A, 0xDB),
    ("BracketRight", 0x1B, 0xDD),
    ("Semicolon", 0x27, 0xBA),
    ("Quote", 0x28, 0xDE),
    ("Backquote", 0x29, 0xC0),
    ("Backslash", 0x2B, 0xDC),
    ("Comma", 0x33, 0xBC),
    ("Period", 0x34, 0xBE),
    ("Slash", 0x35, 0xBF),
];

/// The number of keys that move.
pub const LAYOUT_SIZE: usize = 11;

/// The names of the keys that move.
pub open spec fn key_names() -> Seq<Seq<char>> {
    Seq::new(LAYOUT_SIZE as nat, |i: int| LAYOUT_KEYS@[i].0@)
}

/// The scan codes of the keys that move.
pub open spec fn scan_codes() -> Seq<u32> {
    Seq::new(LAYOUT_SIZE as nat, |i: int| LAYOUT_KEYS@[i].1)
}

/// The virtual keys that a US layout puts on the keys that move.
pub open spec fn us_codes() -> Seq<u16> {
    Seq::new(LAYOUT_SIZE as nat, |i: int| LAYOUT_KEYS@[i].2)
}

/// Where the key of a shortcut starts: behind the last plus sign.
pub open spec fn key_start(shortcut: Seq<char>) -> int
    decreases shortcut.len(),
{
    if shortcut.len() == 0 || shortcut.last() == '+' {
        shortcut.len() as int
    } else {
        key_start(shortcut.drop_last())
    }
}

/// The modifiers of a shortcut, with the plus sign behind each.
pub open spec fn modifiers(shortcut: Seq<char>) -> Seq<char> {
    shortcut.take(key_start(shortcut))
}

/// The key of a shortcut.
pub open spec fn key(shortcut: Seq<char>) -> Seq<char> {
    shortcut.skip(key_start(shortcut))
}

/// Where the key of a shortcut stands among the keys that move.
pub open spec fn key_place(shortcut: Seq<char>) -> Option<int> {
    place_of(key_names(), key(shortcut))
}

/// The shortcut that the US table takes to the virtual key `vk`, where `vk` is
/// what the layout puts on the shortcut's key. A key that does not move keeps
/// its name, and so does one whose virtual key the table cannot name.
pub open spec fn retargeted(shortcut: Seq<char>, vk: u16) -> Seq<char> {
    if key_place(shortcut) is None {
        shortcut
    } else {
        match place_of(us_codes(), vk) {
            Some(j) => modifiers(shortcut) + key_names()[j],
            None => shortcut,
        }
    }
}

/// The virtual key that a US layout puts on a scan code; zero if the scan code
/// is none of the keys that move.
pub open spec fn us_vk(scan: u32) -> u16 {
    match place_of(scan_codes(), scan) {
        Some(i) => us_codes()[i],
        None => 0,
    }
}

proof fn key_start_bounds(shortcut: Seq<char>)
    ensures
        0 <= key_start(shortcut) <= shortcut.len(),
        key_start(shortcut) > 0 ==> shortcut[key_start(shortcut) - 1] == '+',
        forall|i: int| key_start(shortcut) <= i < shortcut.len() ==> shortcut[i] != '+',
    decreases shortcut.len(),
{
    if shortcut.len() > 0 && shortcut.last() != '+' {
        key_start_bounds(shortcut.drop_last());
        assert forall|i: int| key_start(shortcut) <= i < shortcut.len() implies shortcut[i]
            != '+' by {
            if i < shortcut.len() - 1 {
                assert(shortcut[i] == shortcut.drop_last()[i]);
            }
        }
    }
}

proof fn key_start_is(shortcut: Seq<char>, at: int)
    requires
        0 <= at <= shortcut.len(),
        at > 0 ==> shortcut[at - 1] == '+',
        forall|i: int| at <= i < shortcut.len() ==> shortcut[i] != '+',
    ensures
        key_start(shortcut) == at,
{
    key_start_bounds(shortcut);
    let k = key_start(shortcut);
    if k < at {
        assert(shortcut[at - 1] != '+');
    }
    if at < k {
        assert(shortcut[k - 1] != '+');
    }
}

/// Finds where the key of a shortcut starts.
fn find_key(shortcut: &str) -> (r: usize)
    ensures
        r == key_start(shortcut@),
{
    let text = characters(shortcut);
    let mut at: usize = text.len();
    while at > 0 && text[at - 1] != '+'
        invariant
            text@ == shortcut@,
            at <= text.len(),
            forall|i: int| at <= i < text.len() ==> text@[i] != '+',
        decreases at,
    {
        at = at - 1;
    }
    proof {
        key_start_is(shortcut@, at as int);
    }
    at
}

/// The scan code of a shortcut's key, if it is one of those that move.
pub fn moving_scan(shortcut: &str) -> (r: Option<u32>)
    ensures
        match r {
            Some(scan) => key_place(shortcut@) is Some && scan == scan_codes()[key_place(
                shortcut@,
            )->0],
            None => key_place(shortcut@) is None,
        },
{
    proof {
        key_start_bounds(shortcut@);
    }
    let at: usize = find_key(shortcut);
    let name = shortcut.substring_char(at, shortcut.unicode_len());
    assert(name@ =~= key(shortcut@));
    for i in 0..LAYOUT_SIZE
        invariant
            name@ == key(shortcut@),
            forall|j: int| 0 <= j < i ==> key_names()[j] != name@,
    {
        if same_text(LAYOUT_KEYS[i].0, name) {
            proof {
                assert(key_names()[i as int] == name@);
                first_is_place_of(key_names(), i as int);
            }
            return Some(LAYOUT_KEYS[i].1);
        }
        assert(key_names()[i as int] != name@);
    }
    proof {
        place_of_is_first(key_names(), name@);
    }
    None
}

/// Rewrites a shortcut's key for a layout that puts the virtual key `vk` on it.
pub fn retarget_to(shortcut: &str, vk: u16) -> (r: String)
    ensures
        r@ == retargeted(shortcut@, vk),
{
    if moving_scan(shortcut).is_none() {
        return shortcut.to_owned();
    }
    proof {
        key_start_bounds(shortcut@);
    }
    for j in 0..LAYOUT_SIZE
        invariant
            key_place(shortcut@) is Some,
            0 <= key_start(shortcut@) <= shortcut@.len(),
            forall|i: int| 0 <= i < j ==> us_codes()[i] != vk,
    {
        if LAYOUT_KEYS[j].2 == vk {
            proof {
                assert(us_codes()[j as int] == vk);
                first_is_place_of(us_codes(), j as int);
            }
            let at: usize = find_key(shortcut);
            let prefix = shortcut.substring_char(0, at);
            assert(prefix@ =~= modifiers(shortcut@));
            return joined(prefix, LAYOUT_KEYS[j].0);
        }
        assert(us_codes()[j as int] != vk);
    }
    proof {
        place_of_is_first(us_codes(), vk);
    }
    shortcut.to_owned()
}

/// Rewrites a shortcut's key so that the US table downstream lands on the
/// virtual key this layout really produces. `to_vk` maps a scan code to that
/// key.
///
/// Anything but the layout-dependent punctuation is returned untouched, as is
/// a key on which the layout puts a virtual key that the US table cannot name.
/// Better to fail registration visibly than to bind a different key than the
/// one that was pressed.
pub fn retarget(shortcut: &str, to_vk: impl Fn(u32) -> u16) -> (r: String)
    requires
        key_place(shortcut@) matches Some(i) ==> call_requires(to_vk, (scan_codes()[i],)),
    ensures
        match key_place(shortcut@) {
            Some(i) => exists|vk: u16| #[trigger]
                call_ensures(to_vk, (scan_codes()[i],), vk) && r@ == retargeted(shortcut@, vk),
            None => r@ == shortcut@,
        },
{
    match moving_scan(shortcut) {
        Some(scan) => {
            let vk: u16 = to_vk(scan);
            retarget_to(shortcut, vk)
        },
        None => shortcut.to_owned(),
    }
}

/// The scan code's virtual key on a US layout, for systems that cannot tell
/// the layout in use.
pub fn active_layout_vk(scan: u32) -> (r: u16)
    ensures
        r == us_vk(scan),
{
    for i in 0..LAYOUT_SIZE
        invariant
            forall|j: int| 0 <= j < i ==> scan_codes()[j] != scan,
    {
        if LAYOUT_KEYS[i].1 == scan {
            proof {
                assert(scan_codes()[i as int] == scan);
                first_is_place_of(scan_codes(), i as int);
            }
            return LAYOUT_KEYS[i].2;
        }
        assert(scan_codes()[i as int] != scan);
    }
    proof {
        place_of_is_first(scan_codes(), scan);
    }
    0
}

/// No key name holds a plus sign.
proof fn names_hold_no_plus()
    ensures
        forall|i: int, j: int|
            0 <= i < LAYOUT_SIZE && 0 <= j < key_names()[i].len() ==> #[trigger] key_names()[i][j]
                != '+',
{
    reveal_strlit("Minus");
    reveal_strlit("Equal");
    reveal_strlit("BracketLeft");
    reveal_strlit("BracketRight");
    reveal_strlit("Semicolon");
    reveal_strlit("Quote");
    reveal_strlit("Backquote");
    reveal_strlit("Backslash");
    reveal_strlit("Comma");
    reveal_strlit("Period");
    reveal_strlit("Slash");
    assert forall|i: int, j: int|
        0 <= i < LAYOUT_SIZE && 0 <= j < key_names()[i].len() implies #[trigger] key_names()[i][j]
        != '+' by {
        assert(key_names()[i] == LAYOUT_KEYS@[i].0@);
        assert(i == 0 || i == 1 || i == 2 || i == 3 || i == 4 || i == 5 || i == 6 || i == 7 || i
            == 8 || i == 9 || i == 10);
        assert(j < 12);
    }
}

/// No key name occurs twice.
pub proof fn names_are_distinct()
    ensures
        forall|i: int, j: int|
            0 <= i < j < LAYOUT_SIZE ==> #[trigger] key_names()[i] != #[trigger] key_names()[j],
{
    reveal_strlit("Minus");
    reveal_strlit("Equal");
    reveal_strlit("BracketLeft");
    reveal_strlit("BracketRight");
    reveal_strlit("Semicolon");
    reveal_strlit("Quote");
    reveal_strlit("Backquote");
    reveal_strlit("Backslash");
    reveal_strlit("Comma");
    reveal_strlit("Period");
    reveal_strlit("Slash");
    let n = key_names();
    assert(n[0].len() == 5 && n[1].len() == 5 && n[2].len() == 11 && n[3].len() == 12);
    assert(n[4].len() == 9 && n[5].len() == 5 && n[6].len() == 9 && n[7].len() == 9);
    assert(n[8].len() == 5 && n[9].len() == 6 && n[10].len() == 5);
    assert(n[0][0] == 'M' && n[1][0] == 'E' && n[5][0] == 'Q' && n[8][0] == 'C' && n[10][0] == 'S');
    assert(n[4][0] == 'S' && n[6][4] == 'q' && n[7][4] == 's' && n[4][4] == 'c');
    assert forall|i: int, j: int| 0 <= i < j < LAYOUT_SIZE implies #[trigger] n[i]
        != #[trigger] n[j] by {
        assert(i == 0 || i == 1 || i == 2 || i == 3 || i == 4 || i == 5 || i == 6 || i == 7 || i
            == 8 || i == 9);
        assert(j == 1 || j == 2 || j == 3 || j == 4 || j == 5 || j == 6 || j == 7 || j == 8 || j
            == 9 || j == 10);
    }
}

/// A key that does not move is passed straight through, whatever the layout.
pub proof fn other_keys_pass_through(shortcut: Seq<char>, vk: u16)
    requires
        !key_names().contains(key(shortcut)),
    ensures
        key_place(shortcut) is None,
        retargeted(shortcut, vk) == shortcut,
{
    place_of_is_first(key_names(), key(shortcut));
}

/// A virtual key that the US table cannot name leaves the shortcut alone.
pub proof fn unnameable_keys_are_left_alone(shortcut: Seq<char>, vk: u16)
    requires
        !us_codes().contains(vk),
    ensures
        retargeted(shortcut, vk) == shortcut,
{
    place_of_is_first(us_codes(), vk);
}

/// On a US layout nothing is rewritten.
pub proof fn us_layout_is_the_identity(shortcut: Seq<char>)
    ensures
        key_place(shortcut) matches Some(i) ==> retargeted(shortcut, us_vk(scan_codes()[i]))
            == shortcut,
{
    if let Some(i) = key_place(shortcut) {
        key_start_bounds(shortcut);
        place_of_is_first(key_names(), key(shortcut));
        assert forall|a: int, b: int| 0 <= a < b < LAYOUT_SIZE implies #[trigger] us_codes()[a]
            != #[trigger] us_codes()[b] by {
            assert(us_codes()[a] == LAYOUT_KEYS@[a].2);
            assert(us_codes()[b] == LAYOUT_KEYS@[b].2);
        }
        assert forall|a: int, b: int| 0 <= a < b < LAYOUT_SIZE implies #[trigger] scan_codes()[a]
            != #[trigger] scan_codes()[b] by {
            assert(scan_codes()[a] == LAYOUT_KEYS@[a].1);
            assert(scan_codes()[b] == LAYOUT_KEYS@[b].1);
        }
        first_is_place_of(scan_codes(), i);
        first_is_place_of(us_codes(), i);
        assert(modifiers(shortcut) + key(shortcut) =~= shortcut);
    }
}

/// What is registered for a key that moves is the key that is pressed: if the
/// layout puts `vk` on it and the US table has a name for `vk`, the rewritten
/// shortcut keeps its modifiers, and the US table takes its key to `vk`.
pub proof fn retargeting_lands_on_the_pressed_key(shortcut: Seq<char>, vk: u16)
    requires
        key_names().contains(key(shortcut)),
        us_codes().contains(vk),
    ensures
        modifiers(retargeted(shortcut, vk)) == modifiers(shortcut),
        key_place(retargeted(shortcut, vk)) matches Some(j) && us_codes()[j] == vk,
{
    place_of_is_first(key_names(), key(shortcut));
    place_of_is_first(us_codes(), vk);
    names_hold_no_plus();
    let j = place_of(us_codes(), vk)->0;
    let name = key_names()[j];
    let r = retargeted(shortcut, vk);
    let at = key_start(shortcut);
    key_start_bounds(shortcut);
    assert(r == shortcut.take(at) + name);
    assert forall|i: int| at <= i < r.len() implies r[i] != '+' by {
        assert(r[i] == key_names()[j][i - at]);
    }
    if at > 0 {
        assert(r[at - 1] == shortcut[at - 1]);
    }
    key_start_is(r, at);
    assert(modifiers(r) =~= modifiers(shortcut));
    assert(key(r) =~= name);
    names_are_distinct();
    first_is_place_of(key_names(), j);
}

/// The key of a shortcut is what follows its last plus sign, and the modifiers are
/// what stands before it.
pub proof fn a_shortcut_is_its_modifiers_and_its_key(shortcut: Seq<char>)
    ensures
        modifiers(shortcut) + key(shortcut) == shortcut,
        !key(shortcut).contains('+'),
        modifiers(shortcut).len() > 0 ==> modifiers(shortcut).last() == '+',
{
    key_start_bounds(shortcut);
    assert(modifiers(shortcut) + key(shortcut) =~= shortcut);
    assert forall|i: int| 0 <= i < key(shortcut).len() implies key(shortcut)[i] != '+' by {
        assert(key(shortcut)[i] == shortcut[key_start(shortcut) + i]);
    }
}

/// The keys that move are the eleven punctuation keys of a US keyboard, each with
/// its scan code and the virtual key that a US layout puts there.
pub proof fn the_table_is_that_of_a_us_keyboard()
    ensures
        key_names() == seq![
            "Minus"@,
            "Equal"@,
            "BracketLeft"@,
            "BracketRight"@,
            "Semicolon"@,
            "Quote"@,
            "Backquote"@,
            "Backslash"@,
            "Comma"@,
            "Period"@,
            "Slash"@,
        ],
        scan_codes() == seq![
            0x0Cu32,
            0x0D,
            0x1A,
            0x1B,
            0x27,
            0x28,
            0x29,
            0x2B,
            0x33,
            0x34,
            0x35,
        ],
        us_codes() == seq![
            0xBDu16,
            0xBB,
            0xDB,
            0xDD,
            0xBA,
            0xDE,
            0xC0,
            0xDC,
            0xBC,
            0xBE,
            0xBF,
        ],
{
    assert(key_names() =~= seq![
        "Minus"@,
        "Equal"@,
        "BracketLeft"@,
        "BracketRight"@,
        "Semicolon"@,
        "Quote"@,
        "Backquote"@,
        "Backslash"@,
        "Comma"@,
        "Period"@,
        "Slash"@,
    ]);
}

/// A shortcut has a place among the keys that move exactly if its key has the name
/// of one, and the place is that of the name.
pub proof fn a_key_is_placed_by_its_name(shortcut: Seq<char>)
    ensures
        match key_place(shortcut) {
            Some(i) => 0 <= i < key_names().len() && key_names()[i] == key(shortcut),
            None => !key_names().contains(key(shortcut)),
        },
{
    place_of_is_first(key_names(), key(shortcut));
}

/// A US layout puts on each scan code the virtual key of the same row of the
/// table, and nothing on any other.
pub proof fn a_us_layout_goes_by_the_table(scan: u32)
    ensures
        forall|i: int| 0 <= i < scan_codes().len() && #[trigger] scan_codes()[i] == scan
            ==> us_vk(scan) == us_codes()[i],
        !scan_codes().contains(scan) ==> us_vk(scan) == 0,
{
    place_of_is_first(scan_codes(), scan);
    assert forall|a: int, b: int| 0 <= a < b < LAYOUT_SIZE implies #[trigger] scan_codes()[a]
        != #[trigger] scan_codes()[b] by {
        assert(scan_codes()[a] == LAYOUT_KEYS@[a].1);
        assert(scan_codes()[b] == LAYOUT_KEYS@[b].1);
    }
    assert forall|i: int| 0 <= i < scan_codes().len() && #[trigger] scan_codes()[i]
        == scan implies us_vk(scan) == us_codes()[i] by {
        first_is_place_of(scan_codes(), i);
    }
}

} // verus!
