//! Text that the debug server prints for a frame's button bits.

use vstd::prelude::*;
use crate::protocol::{
    BUTTON_A, BUTTON_B, BUTTON_BOTH_TRIGGERS, BUTTON_GRIP, BUTTON_JOYSTICK, BUTTON_SWITCH_HAND,
    BUTTON_SYSTEM, BUTTON_TRIGGER,
};

verus! {

/// All button bits that have a name.
pub const KNOWN_BUTTONS: u16 = 0x00ff;

/// The bit of the `i`-th named action, in printing order.
pub open spec fn action_mask(i: int) -> u16 {
    if i == 0 {
        BUTTON_TRIGGER
    } else if i == 1 {
        BUTTON_SWITCH_HAND
    } else if i == 2 {
        BUTTON_A
    } else if i == 3 {
        BUTTON_B
    } else if i == 4 {
        BUTTON_GRIP
    } else if i == 5 {
        BUTTON_SYSTEM
    } else if i == 6 {
        BUTTON_BOTH_TRIGGERS
    } else {
        BUTTON_JOYSTICK
    }
}

/// The name of the `i`-th named action, in printing order.
pub open spec fn action_name(i: int) -> Seq<char> {
    if i == 0 {
        "Trigger"@
    } else if i == 1 {
        "SwitchHand"@
    } else if i == 2 {
        "A"@
    } else if i == 3 {
        "B"@
    } else if i == 4 {
        "Grip"@
    } else if i == 5 {
        "System"@
    } else if i == 6 {
        "BothTriggers"@
    } else {
        "JoystickButton"@
    }
}

/// The names of the first `n` actions whose bits are set in `buttons`.
pub open spec fn named_actions(buttons: u16, n: int) -> Seq<Seq<char>>
    decreases n,
{
    if n <= 0 {
        Seq::empty()
    } else if buttons & action_mask(n - 1) != 0 {
        named_actions(buttons, n - 1).push(action_name(n - 1))
    } else {
        named_actions(buttons, n - 1)
    }
}

/// Lowercase hexadecimal digit of `d` (0 to 15).
pub open spec fn hex_char(d: int) -> char {
    if d < 10 {
        (48 + d) as char
    } else {
        (87 + d) as char
    }
}

/// `x` as four lowercase hexadecimal digits.
pub open spec fn hex4(x: u16) -> Seq<char> {
    seq![
        hex_char((x / 4096) as int % 16),
        hex_char((x / 256) as int % 16),
        hex_char((x / 16) as int % 16),
        hex_char(x as int % 16),
    ]
}

/// The label of bits that have no name.
pub open spec fn unknown_label(bits: u16) -> Seq<char> {
    "Unknown(0x"@ + hex4(bits) + ")"@
}

/// Every entry to print: the set named actions in order, then the unknown
/// bits if there are any.
pub open spec fn action_list(buttons: u16) -> Seq<Seq<char>> {
    let unknown = buttons & !KNOWN_BUTTONS;
    if unknown != 0 {
        named_actions(buttons, 8).push(unknown_label(unknown))
    } else {
        named_actions(buttons, 8)
    }
}

/// `parts` separated by `", "`.
pub open spec fn joined(parts: Seq<Seq<char>>) -> Seq<char>
    decreases parts.len(),
{
    if parts.len() == 0 {
        Seq::empty()
    } else if parts.len() == 1 {
        parts[0]
    } else {
        joined(parts.drop_last()) + seq![',', ' '] + parts.last()
    }
}

/// The printed text: the entries joined by `", "`, or `none`.
pub open spec fn action_names_text(buttons: u16) -> Seq<char> {
    if action_list(buttons).len() == 0 {
        "none"@
    } else {
        joined(action_list(buttons))
    }
}

fn mask_at(i: usize) -> (m: u16)
    requires
        i < 8,
    ensures
        m == action_mask(i as int),
{
    match i {
        0 => BUTTON_TRIGGER,
        1 => BUTTON_SWITCH_HAND,
        2 => BUTTON_A,
        3 => BUTTON_B,
        4 => BUTTON_GRIP,
        5 => BUTTON_SYSTEM,
        6 => BUTTON_BOTH_TRIGGERS,
        _ => BUTTON_JOYSTICK,
    }
}

fn name_at(i: usize) -> (name: &'static str)
    requires
        i < 8,
    ensures
        name@ == action_name(i as int),
{
    match i {
        0 => "Trigger",
        1 => "SwitchHand",
        2 => "A",
        3 => "B",
        4 => "Grip",
        5 => "System",
        6 => "BothTriggers",
        _ => "JoystickButton",
    }
}

fn hex_digit(d: u16) -> (s: &'static str)
    requires
        d < 16,
    ensures
        s@ == seq![hex_char(d as int)],
{
    match d {
        0 => { proof { reveal_strlit("0"); } "0" },
        1 => { proof { reveal_strlit("1"); } "1" },
        2 => { proof { reveal_strlit("2"); } "2" },
        3 => { proof { reveal_strlit("3"); } "3" },
        4 => { proof { reveal_strlit("4"); } "4" },
        5 => { proof { reveal_strlit("5"); } "5" },
        6 => { proof { reveal_strlit("6"); } "6" },
        7 => { proof { reveal_strlit("7"); } "7" },
        8 => { proof { reveal_strlit("8"); } "8" },
        9 => { proof { reveal_strlit("9"); } "9" },
        10 => { proof { reveal_strlit("a"); } "a" },
        11 => { proof { reveal_strlit("b"); } "b" },
        12 => { proof { reveal_strlit("c"); } "c" },
        13 => { proof { reveal_strlit("d"); } "d" },
        14 => { proof { reveal_strlit("e"); } "e" },
        _ => { proof { reveal_strlit("f"); } "f" },
    }
}

/// Appends `part` as the entry after the `count` entries of `parts`.
fn add_part(text: &mut String, count: usize, Ghost(parts): Ghost<Seq<Seq<char>>>, part: &str)
    requires
        old(text)@ == joined(parts),
        count == parts.len(),
    ensures
        final(text)@ == joined(parts.push(part@)),
{
    assert(parts.push(part@).drop_last() =~= parts);
    if count > 0 {
        proof {
            reveal_strlit(", ");
        }
        text.append(", ");
    }
    text.append(part);
    if count == 0 {
        assert(text@ =~= joined(parts.push(part@)));
    } else {
        assert(text@ =~= joined(parts) + seq![',', ' '] + part@);
    }
}

/// The names of the actions set in `buttons`, separated by `", "`; unnamed
/// bits are listed as `Unknown(0x....)`, and no bits as `none`.
pub fn action_names(buttons: u16) -> (text: String)
    ensures
        text@ == action_names_text(buttons),
        names_match_bits(buttons),
{
    proof {
        lemma_names_match_bits(buttons);
    }
    let mut text = String::new();
    let mut count: usize = 0;
    let ghost mut parts: Seq<Seq<char>> = Seq::empty();
    let mut i: usize = 0;
    while i < 8
        invariant
            i <= 8,
            parts == named_actions(buttons, i as int),
            count == parts.len(),
            count <= i,
            text@ == joined(parts),
        decreases 8 - i,
    {
        let mask = mask_at(i);
        if buttons & mask != 0 {
            let name = name_at(i);
            add_part(&mut text, count, Ghost(parts), name);
            proof {
                parts = parts.push(name@);
            }
            count = count + 1;
        }
        i = i + 1;
    }
    let unknown = buttons & !KNOWN_BUTTONS;
    if unknown != 0 {
        let mut label = String::new();
        label.append("Unknown(0x");
        label.append(hex_digit((unknown / 4096) % 16));
        label.append(hex_digit((unknown / 256) % 16));
        label.append(hex_digit((unknown / 16) % 16));
        label.append(hex_digit(unknown % 16));
        label.append(")");
        assert(label@ =~= unknown_label(unknown));
        add_part(&mut text, count, Ghost(parts), label.as_str());
        proof {
            parts = parts.push(label@);
        }
        count = count + 1;
    }
    if count == 0 {
        return String::from_str("none");
    }
    text
}

/// Each name is listed exactly when its own button bit is set.
pub open spec fn names_match_bits(buttons: u16) -> bool {
    let listed = action_list(buttons);
    &&& listed.contains("Trigger"@) == (buttons & BUTTON_TRIGGER != 0)
    &&& listed.contains("SwitchHand"@) == (buttons & BUTTON_SWITCH_HAND != 0)
    &&& listed.contains("A"@) == (buttons & BUTTON_A != 0)
    &&& listed.contains("B"@) == (buttons & BUTTON_B != 0)
    &&& listed.contains("Grip"@) == (buttons & BUTTON_GRIP != 0)
    &&& listed.contains("System"@) == (buttons & BUTTON_SYSTEM != 0)
    &&& listed.contains("BothTriggers"@) == (buttons & BUTTON_BOTH_TRIGGERS != 0)
    &&& listed.contains("JoystickButton"@) == (buttons & BUTTON_JOYSTICK != 0)
}

proof fn lemma_named_actions_contains(buttons: u16, n: int, x: Seq<char>)
    requires
        0 <= n <= 8,
    ensures
        named_actions(buttons, n).contains(x) <==> exists|i: int|
            0 <= i < n && buttons & action_mask(i) != 0 && #[trigger] action_name(i) == x,
    decreases n,
{
    if n > 0 {
        lemma_named_actions_contains(buttons, n - 1, x);
        let prev = named_actions(buttons, n - 1);
        if buttons & action_mask(n - 1) != 0 {
            let cur = prev.push(action_name(n - 1));
            if cur.contains(x) {
                let k = choose|k: int| 0 <= k < cur.len() && cur[k] == x;
                if k == prev.len() {
                    assert(action_name(n - 1) == x);
                } else {
                    assert(prev[k] == x);
                }
            }
            if exists|i: int| 0 <= i < n && buttons & action_mask(i) != 0 && #[trigger] action_name(i) == x {
                let i = choose|i: int| 0 <= i < n && buttons & action_mask(i) != 0 && #[trigger] action_name(i) == x;
                if i == n - 1 {
                    assert(cur[prev.len() as int] == x);
                } else {
                    let k = choose|k: int| 0 <= k < prev.len() && prev[k] == x;
                    assert(cur[k] == x);
                }
            }
        }
    }
}

proof fn lemma_names_distinct(i: int, j: int, bits: u16)
    requires
        0 <= i < 8,
        0 <= j < 8,
    ensures
        action_name(i) == action_name(j) ==> i == j,
        unknown_label(bits) != action_name(i),
{
    reveal_strlit("Trigger");
    reveal_strlit("SwitchHand");
    reveal_strlit("A");
    reveal_strlit("B");
    reveal_strlit("Grip");
    reveal_strlit("System");
    reveal_strlit("BothTriggers");
    reveal_strlit("JoystickButton");
    reveal_strlit("Unknown(0x");
    reveal_strlit(")");
    if action_name(i) == action_name(j) && i != j {
        assert(action_name(i).len() == action_name(j).len());
        assert(action_name(i)[0] == action_name(j)[0]);
    }
    assert(unknown_label(bits).len() == 15);
}

proof fn lemma_name_listed(buttons: u16, k: int)
    requires
        0 <= k < 8,
    ensures
        action_list(buttons).contains(action_name(k)) == (buttons & action_mask(k) != 0),
{
    let x = action_name(k);
    lemma_named_actions_contains(buttons, 8, x);
    let named = named_actions(buttons, 8);
    let unknown = buttons & !KNOWN_BUTTONS;
    lemma_names_distinct(k, k, unknown);
    if action_list(buttons).contains(x) {
        if unknown != 0 {
            let list = named.push(unknown_label(unknown));
            let m = choose|m: int| 0 <= m < list.len() && list[m] == x;
            if m < named.len() {
                assert(named[m] == x);
            }
        }
        let i = choose|i: int| 0 <= i < 8 && buttons & action_mask(i) != 0 && #[trigger] action_name(i) == x;
        lemma_names_distinct(i, k, unknown);
    }
    if buttons & action_mask(k) != 0 {
        assert(0 <= k < 8 && buttons & action_mask(k) != 0 && action_name(k) == x);
        let m = choose|m: int| 0 <= m < named.len() && named[m] == x;
        if unknown != 0 {
            assert(named.push(unknown_label(unknown))[m] == x);
        }
    }
}

/// Each printed name stands for its own button bit: a name is among the
/// printed entries exactly when its bit is set.
pub proof fn lemma_names_match_bits(buttons: u16)
    ensures
        names_match_bits(buttons),
{
    lemma_name_listed(buttons, 0);
    lemma_name_listed(buttons, 1);
    lemma_name_listed(buttons, 2);
    lemma_name_listed(buttons, 3);
    lemma_name_listed(buttons, 4);
    lemma_name_listed(buttons, 5);
    lemma_name_listed(buttons, 6);
    lemma_name_listed(buttons, 7);
}

} // verus!
