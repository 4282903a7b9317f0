//! Mouse buttons and the five-bit button-state mask the device reports.

use vstd::prelude::*;

verus! {

/// Which of the five mouse buttons are held down.
#[derive(Clone, Copy, Debug, PartialEq, Eq, Structural)]
pub struct MouseButtonStates {
    pub left: bool,
    pub right: bool,
    pub middle: bool,
    pub side1: bool,
    pub side2: bool,
}

/// The value of one flag as a bit (0 or 1).
pub open spec fn bit(b: bool) -> int {
    if b { 1 } else { 0 }
}

/// The button states that a mask describes: bit 0 is the left button, then
/// right, middle, side 1 and side 2; the upper three bits are ignored.
pub open spec fn spec_from_mask(mask: u8) -> MouseButtonStates {
    MouseButtonStates {
        left: mask & 0x01 != 0,
        right: mask & 0x02 != 0,
        middle: mask & 0x04 != 0,
        side1: mask & 0x08 != 0,
        side2: mask & 0x10 != 0,
    }
}

/// The mask of a set of button states.
pub open spec fn spec_to_mask(s: MouseButtonStates) -> int {
    bit(s.left) + 2 * bit(s.right) + 4 * bit(s.middle) + 8 * bit(s.side1) + 16 * bit(s.side2)
}

impl Default for MouseButtonStates {
    /// No button held down.
    fn default() -> (r: Self)
        ensures
            r == spec_from_mask(0),
    {
        assert(0u8 & 0x01 == 0 && 0u8 & 0x02 == 0 && 0u8 & 0x04 == 0 && 0u8 & 0x08 == 0 && 0u8 & 0x10 == 0)
            by (bit_vector);
        MouseButtonStates { left: false, right: false, middle: false, side1: false, side2: false }
    }
}

impl MouseButtonStates {
    /// Decodes the mask that the device sends when a button changes.
    pub fn from_mask(mask: u8) -> (r: Self)
        ensures
            r == spec_from_mask(mask),
            r.left == (mask & 0x01 != 0),
            r.right == (mask & 0x02 != 0),
            r.middle == (mask & 0x04 != 0),
            r.side1 == (mask & 0x08 != 0),
            r.side2 == (mask & 0x10 != 0),
    {
        MouseButtonStates {
            left: mask & 0x01 != 0,
            right: mask & 0x02 != 0,
            middle: mask & 0x04 != 0,
            side1: mask & 0x08 != 0,
            side2: mask & 0x10 != 0,
        }
    }

    /// Encodes the states as a mask, left button in bit 0.
    pub fn to_mask(self) -> (r: u8)
        ensures
            r == spec_to_mask(self),
            r < 32,
            (r & 0x01 != 0) == self.left,
            (r & 0x02 != 0) == self.right,
            (r & 0x04 != 0) == self.middle,
            (r & 0x08 != 0) == self.side1,
            (r & 0x10 != 0) == self.side2,
    {
        let l: u8 = if self.left { 1 } else { 0 };
        let r: u8 = if self.right { 1 } else { 0 };
        let m: u8 = if self.middle { 1 } else { 0 };
        let s1: u8 = if self.side1 { 1 } else { 0 };
        let s2: u8 = if self.side2 { 1 } else { 0 };
        assert(l <= 1 && r <= 1 && m <= 1 && s1 <= 1 && s2 <= 1 ==>
            l | (r << 1u8) | (m << 2u8) | (s1 << 3u8) | (s2 << 4u8)
                == l + 2 * r + 4 * m + 8 * s1 + 16 * s2) by (bit_vector);
        let out = l | (r << 1u8) | (m << 2u8) | (s1 << 3u8) | (s2 << 4u8);
        proof {
            lemma_to_mask_bits(self);
        }
        out
    }
}

/// Encoding a set of button states and decoding the mask gives the same states back.
pub proof fn lemma_mask_roundtrip(s: MouseButtonStates)
    ensures
        spec_from_mask(spec_to_mask(s) as u8) == s,
{
    let l: u8 = if s.left { 1 } else { 0 };
    let r: u8 = if s.right { 1 } else { 0 };
    let m: u8 = if s.middle { 1 } else { 0 };
    let a: u8 = if s.side1 { 1 } else { 0 };
    let b: u8 = if s.side2 { 1 } else { 0 };
    assert(l <= 1 && r <= 1 && m <= 1 && a <= 1 && b <= 1 ==> {
        let x = (l + 2 * r + 4 * m + 8 * a + 16 * b) as u8;
        &&& (x & 0x01 != 0) == (l == 1)
        &&& (x & 0x02 != 0) == (r == 1)
        &&& (x & 0x04 != 0) == (m == 1)
        &&& (x & 0x08 != 0) == (a == 1)
        &&& (x & 0x10 != 0) == (b == 1)
    }) by (bit_vector);
}

/// Decoding a mask and encoding the states again keeps exactly the five low bits.
pub proof fn lemma_mask_keeps_low_bits(mask: u8)
    ensures
        spec_to_mask(spec_from_mask(mask)) == (mask & 0x1f),
{
    let s = spec_from_mask(mask);
    assert(((mask & 0x01 != 0) as int) + 2 * ((mask & 0x02 != 0) as int) + 4 * ((mask & 0x04 != 0) as int)
        + 8 * ((mask & 0x08 != 0) as int) + 16 * ((mask & 0x10 != 0) as int) == (mask & 0x1f)) by (bit_vector);
}

/// Each decoded flag is one fixed bit of the mask: left is bit 0 (0x01),
/// right bit 1 (0x02), middle bit 2 (0x04), side 1 bit 3 (0x08) and side 2
/// bit 4 (0x10).
pub proof fn lemma_from_mask_bits(mask: u8)
    ensures
        spec_from_mask(mask).left <==> (mask & 0x01 == 0x01),
        spec_from_mask(mask).right <==> (mask & 0x02 == 0x02),
        spec_from_mask(mask).middle <==> (mask & 0x04 == 0x04),
        spec_from_mask(mask).side1 <==> (mask & 0x08 == 0x08),
        spec_from_mask(mask).side2 <==> (mask & 0x10 == 0x10),
        spec_from_mask(mask) == spec_from_mask(mask & 0x1f),
{
    assert(((mask & 0x01 != 0) <==> (mask & 0x01 == 0x01)) && ((mask & 0x02 != 0) <==> (mask & 0x02 == 0x02))
        && ((mask & 0x04 != 0) <==> (mask & 0x04 == 0x04)) && ((mask & 0x08 != 0) <==> (mask & 0x08 == 0x08))
        && ((mask & 0x10 != 0) <==> (mask & 0x10 == 0x10))) by (bit_vector);
    let m2 = mask & 0x1f;
    assert(((mask & 0x01 != 0) == (m2 & 0x01 != 0)) && ((mask & 0x02 != 0) == (m2 & 0x02 != 0))
        && ((mask & 0x04 != 0) == (m2 & 0x04 != 0)) && ((mask & 0x08 != 0) == (m2 & 0x08 != 0))
        && ((mask & 0x10 != 0) == (m2 & 0x10 != 0))) by (bit_vector)
        requires
            m2 == mask & 0x1f,
    ;
}

/// The mask of a set of states has each held button's fixed bit set and
/// every other bit clear: left 0x01, right 0x02, middle 0x04, side 1 0x08,
/// side 2 0x10.
pub proof fn lemma_to_mask_bits(s: MouseButtonStates)
    ensures
        0 <= spec_to_mask(s) < 32,
        ((spec_to_mask(s) as u8) & 0x01 != 0) == s.left,
        ((spec_to_mask(s) as u8) & 0x02 != 0) == s.right,
        ((spec_to_mask(s) as u8) & 0x04 != 0) == s.middle,
        ((spec_to_mask(s) as u8) & 0x08 != 0) == s.side1,
        ((spec_to_mask(s) as u8) & 0x10 != 0) == s.side2,
{
    let l: u8 = if s.left { 1 } else { 0 };
    let r: u8 = if s.right { 1 } else { 0 };
    let m: u8 = if s.middle { 1 } else { 0 };
    let a: u8 = if s.side1 { 1 } else { 0 };
    let b: u8 = if s.side2 { 1 } else { 0 };
    assert(l <= 1 && r <= 1 && m <= 1 && a <= 1 && b <= 1 ==> {
        let x = (l + 2 * r + 4 * m + 8 * a + 16 * b) as u8;
        &&& l + 2 * r + 4 * m + 8 * a + 16 * b < 32
        &&& (x & 0x01 != 0) == (l == 1)
        &&& (x & 0x02 != 0) == (r == 1)
        &&& (x & 0x04 != 0) == (m == 1)
        &&& (x & 0x08 != 0) == (a == 1)
        &&& (x & 0x10 != 0) == (b == 1)
    }) by (bit_vector);
}

/// One of the five mouse buttons.
#[derive(Clone, Copy, Debug, PartialEq, Eq, Structural)]
pub enum MouseButton {
    Left,
    Right,
    Middle,
    Side1,
    Side2,
}

} // verus!
