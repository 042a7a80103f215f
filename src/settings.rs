//! Defaults and bounds of the user's settings that are whole numbers, flags
//! and text.

use vstd::prelude::*;
use crate::text::{decimal, push_decimal};

verus! {

/// Smallest font size, in pixels.
pub const MIN_FONT_SIZE: u8 = 10;

/// Largest font size, in pixels.
pub const MAX_FONT_SIZE: u8 = 24;

/// The font size of a new installation.
pub fn default_font_size() -> (r: u8)
    ensures
        r == 13,
{
    13
}

/// The shortcut that shows and hides the window, by default.
pub fn default_shortcut() -> (r: String)
    ensures
        r@ == "CommandOrControl+Shift+T"@,
{
    String::from_str("CommandOrControl+Shift+T")
}

/// The shortcut that pins the window, by default.
pub fn default_pin_shortcut() -> (r: String)
    ensures
        r@ == "CommandOrControl+Backquote"@,
{
    String::from_str("CommandOrControl+Backquote")
}

/// The default of a flag that starts on.
pub fn default_true() -> (r: bool)
    ensures
        r,
{
    true
}

/// The font size brought within bounds.
pub fn clamp_font_size(font_size: u8) -> (r: u8)
    ensures
        r == if font_size < MIN_FONT_SIZE {
            MIN_FONT_SIZE
        } else if font_size > MAX_FONT_SIZE {
            MAX_FONT_SIZE
        } else {
            font_size
        },
{
    if font_size < MIN_FONT_SIZE {
        MIN_FONT_SIZE
    } else if font_size > MAX_FONT_SIZE {
        MAX_FONT_SIZE
    } else {
        font_size
    }
}

/// The message that refuses a font size out of bounds.
pub open spec fn font_size_error(font_size: u8) -> Seq<char> {
    "Font size must be between "@ + decimal(MIN_FONT_SIZE as nat) + " and "@ + decimal(
        MAX_FONT_SIZE as nat,
    ) + ", got "@ + decimal(font_size as nat)
}

/// Checks that a requested font size is within bounds.
pub fn validate_font_size(font_size: u8) -> (r: Result<(), String>)
    ensures
        MIN_FONT_SIZE <= font_size <= MAX_FONT_SIZE ==> r is Ok,
        !(MIN_FONT_SIZE <= font_size <= MAX_FONT_SIZE) ==> (r matches Err(e) && e@
            == font_size_error(font_size)),
{
    if font_size < MIN_FONT_SIZE || font_size > MAX_FONT_SIZE {
        let mut s = String::from_str("Font size must be between ");
        push_decimal(&mut s, MIN_FONT_SIZE as u64);
        s.append(" and ");
        push_decimal(&mut s, MAX_FONT_SIZE as u64);
        s.append(", got ");
        push_decimal(&mut s, font_size as u64);
        return Err(s);
    }
    Ok(())
}

} // verus!
