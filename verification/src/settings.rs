//! Reading the calibration request from its environment setting.

use vstd::prelude::*;
use crate::calibration_file::collect_chars;

verus! {

/// `c` with ASCII upper-case letters made lower case.
pub open spec fn ascii_lower(c: char) -> char {
    if 'A' <= c <= 'Z' {
        ((c as u32) + 32) as char
    } else {
        c
    }
}

/// Equality up to ASCII case, as `str::eq_ignore_ascii_case` tests it.
pub open spec fn equal_ignoring_ascii_case(a: Seq<char>, b: Seq<char>) -> bool {
    &&& a.len() == b.len()
    &&& forall|i: int| 0 <= i < a.len() ==> ascii_lower(#[trigger] a[i]) == ascii_lower(b[i])
}

fn lower(c: char) -> (r: char)
    ensures
        r == ascii_lower(c),
{
    if 'A' <= c && c <= 'Z' {
        ((c as u8) + 32) as char
    } else {
        c
    }
}

fn eq_ignore_ascii_case(a: &str, b: &str) -> (r: bool)
    ensures
        r == equal_ignoring_ascii_case(a@, b@),
{
    let x = collect_chars(a);
    let y = collect_chars(b);
    if x.len() != y.len() {
        return false;
    }
    let mut i: usize = 0;
    while i < x.len()
        invariant
            x.len() == y.len(),
            x@ == a@,
            y@ == b@,
            i <= x.len(),
            forall|j: int| 0 <= j < i ==> ascii_lower(#[trigger] x@[j]) == ascii_lower(y@[j]),
        decreases x.len() - i,
    {
        if lower(x[i]) != lower(y[i]) {
            return false;
        }
        i = i + 1;
    }
    true
}

/// The hand a calibration run was asked for: none without a setting, the
/// left hand for `left` and the right hand for `right` in any ASCII case.
pub open spec fn requested_hand_for(value: Option<Seq<char>>) -> Result<Option<bool>, Seq<char>> {
    match value {
        None => Ok(None),
        Some(v) => if equal_ignoring_ascii_case(v, "left"@) {
            Ok(Some(true))
        } else if equal_ignoring_ascii_case(v, "right"@) {
            Ok(Some(false))
        } else {
            Err("FMC_CALIBRATE_HAND must be 'left' or 'right', not '"@ + v + "'"@)
        },
    }
}

/// The characters of a setting, if it is set.
pub open spec fn setting_text(value: Option<&str>) -> Option<Seq<char>> {
    match value {
        Some(v) => Some(v@),
        None => None,
    }
}

/// The hand named by the calibration setting `value` (absent when unset or
/// not valid Unicode), or the message for an unknown name.
pub fn requested_hand(value: Option<&str>) -> (r: Result<Option<bool>, String>)
    ensures
        match r {
            Ok(hand) => requested_hand_for(setting_text(value)) == Ok::<
                Option<bool>,
                Seq<char>,
            >(hand),
            Err(message) => requested_hand_for(setting_text(value)) == Err::<
                Option<bool>,
                Seq<char>,
            >(message@),
        },
{
    match value {
        None => Ok(None),
        Some(v) => {
            if eq_ignore_ascii_case(v, "left") {
                Ok(Some(true))
            } else if eq_ignore_ascii_case(v, "right") {
                Ok(Some(false))
            } else {
                let mut message = String::from_str("FMC_CALIBRATE_HAND must be 'left' or 'right', not '");
                message.append(v);
                message.append("'");
                Err(message)
            }
        },
    }
}

} // verus!
