//! Identifiers of screens, under which window placement is remembered.

use vstd::prelude::*;
use crate::text::{decimal, push_decimal};

verus! {

/// The decimal rendering of an integer, with a minus sign when negative.
pub open spec fn signed_decimal(n: int) -> Seq<char> {
    if n < 0 {
        "-"@ + decimal((-n) as nat)
    } else {
        decimal(n as nat)
    }
}

fn push_signed_decimal(s: &mut String, n: i32)
    ensures
        final(s)@ == old(s)@ + signed_decimal(n as int),
{
    if n < 0 {
        s.append("-");
        let m: i64 = -(n as i64);
        push_decimal(s, m as u64);
    } else {
        push_decimal(s, n as u64);
    }
    assert(s@ =~= old(s)@ + signed_decimal(n as int));
}

/// Names a screen by its size, or by the display that shows it.
#[derive(Debug, Clone, PartialEq, Eq, Hash)]
pub struct ScreenId(pub String);

impl ScreenId {
    /// The identifier of a screen of the given size in whole pixels:
    /// `<width>x<height>`.
    pub fn from_rounded(width: i32, height: i32) -> (r: Self)
        ensures
            r.0@ == signed_decimal(width as int) + "x"@ + signed_decimal(height as int),
    {
        let mut s = String::new();
        push_signed_decimal(&mut s, width);
        s.append("x");
        push_signed_decimal(&mut s, height);
        assert(s@ =~= signed_decimal(width as int) + "x"@ + signed_decimal(height as int));
        ScreenId(s)
    }

    /// The identifier of a screen by its display number: `display-<id>`.
    pub fn from_display_id(display_id: u32) -> (r: Self)
        ensures
            r.0@ == "display-"@ + decimal(display_id as nat),
    {
        let mut s = String::from_str("display-");
        push_decimal(&mut s, display_id as u64);
        ScreenId(s)
    }

    /// The identifier's text.
    pub fn as_str(&self) -> (r: &str)
        ensures
            r@ == self.0@,
    {
        self.0.as_str()
    }
}

} // verus!
