//! Control codes: the single bytes a terminal sends for a key pressed together
//! with Ctrl.

use vstd::prelude::*;

verus! {

/// The control byte for `c`, if `c` names one.
///
/// Letters of either case stand for 1 (Ctrl+A) to 26 (Ctrl+Z), and `[`, `\`,
/// `]`, `^` and `_` for 27 to 31. No other character has a control byte.
pub open spec fn control_code_of(c: char) -> Option<u8> {
    if 'a' <= c <= 'z' {
        Some((c as u32 - 'a' as u32 + 1) as u8)
    } else if 'A' <= c <= 'Z' {
        Some((c as u32 - 'A' as u32 + 1) as u8)
    } else if c == '[' {
        Some(27u8)
    } else if c == '\\' {
        Some(28u8)
    } else if c == ']' {
        Some(29u8)
    } else if c == '^' {
        Some(30u8)
    } else if c == '_' {
        Some(31u8)
    } else {
        None
    }
}

/// The control byte that a key sends when pressed together with Ctrl.
pub fn control_code(c: char) -> (code: Option<u8>)
    ensures
        code == control_code_of(c),
        code matches Some(byte) ==> 1 <= byte <= 31,
{
    let scalar: u32 = c as u32;
    if 'a' <= c && c <= 'z' {
        Some((scalar - 0x60) as u8)
    } else if 'A' <= c && c <= 'Z' {
        Some((scalar - 0x40) as u8)
    } else if c == '[' {
        Some(27)
    } else if c == '\\' {
        Some(28)
    } else if c == ']' {
        Some(29)
    } else if c == '^' {
        Some(30)
    } else if c == '_' {
        Some(31)
    } else {
        None
    }
}

} // verus!
