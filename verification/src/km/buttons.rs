use vstd::prelude::*;

verus! {

/// Which of the five mouse buttons are held.
#[derive(Clone, Copy, Debug, PartialEq, Eq, Structural)]
pub struct MouseButtonStates {
    pub left: bool,
    pub right: bool,
    pub middle: bool,
    pub side1: bool,
    pub side2: bool,
}

/// The five buttons a command can name.
#[derive(Clone, Copy, Debug, PartialEq, Eq, Structural)]
pub enum MouseButton {
    Left,
    Right,
    Middle,
    Side1,
    Side2,
}

/// Bit `k` of a mask is set.
pub open spec fn bit(mask: u8, k: u8) -> bool {
    mask & (1u8 << k) != 0
}

/// The mask with one bit per held button, left in bit 0 up to side2 in bit 4.
pub open spec fn mask_of(s: MouseButtonStates) -> u8 {
    (if s.left { 1u8 } else { 0u8 }) | (if s.right { 2u8 } else { 0u8 }) | (if s.middle {
        4u8
    } else {
        0u8
    }) | (if s.side1 { 8u8 } else { 0u8 }) | (if s.side2 { 16u8 } else { 0u8 })
}

impl Default for MouseButtonStates {
    fn default() -> (s: Self)
        ensures
            !s.left && !s.right && !s.middle && !s.side1 && !s.side2,
    {
        MouseButtonStates { left: false, right: false, middle: false, side1: false, side2: false }
    }
}

impl MouseButtonStates {
    /// Decodes the button byte the device streams: bit 0 left, 1 right,
    /// 2 middle, 3 side1, 4 side2; higher bits are ignored.
    pub fn from_mask(mask: u8) -> (s: Self)
        ensures
            s.left == bit(mask, 0),
            s.right == bit(mask, 1),
            s.middle == bit(mask, 2),
            s.side1 == bit(mask, 3),
            s.side2 == bit(mask, 4),
    {
        proof {
            assert((1u8 << 0u8) == 1u8 && (1u8 << 1u8) == 2u8 && (1u8 << 2u8) == 4u8 && (1u8 << 3u8)
                == 8u8 && (1u8 << 4u8) == 16u8) by (bit_vector);
        }
        Self {
            left: mask & 0x01 != 0,
            right: mask & 0x02 != 0,
            middle: mask & 0x04 != 0,
            side1: mask & 0x08 != 0,
            side2: mask & 0x10 != 0,
        }
    }

    /// Encodes the states back into a button byte.
    pub fn to_mask(self) -> (m: u8)
        ensures
            m == mask_of(self),
    {
        (if self.left { 1u8 } else { 0u8 }) | (if self.right { 2u8 } else { 0u8 }) | (if self.middle {
            4u8
        } else {
            0u8
        }) | (if self.side1 { 8u8 } else { 0u8 }) | (if self.side2 { 16u8 } else { 0u8 })
    }
}

/// Encoding the decoded states gives back the five button bits of the mask.
pub proof fn lemma_mask_roundtrip(mask: u8)
    ensures
        ({
            let s = MouseButtonStates {
                left: bit(mask, 0),
                right: bit(mask, 1),
                middle: bit(mask, 2),
                side1: bit(mask, 3),
                side2: bit(mask, 4),
            };
            mask_of(s) == mask & 0x1f
        }),
{
    let l = mask & 1u8 != 0;
    let r = mask & 2u8 != 0;
    let m = mask & 4u8 != 0;
    let s1 = mask & 8u8 != 0;
    let s2 = mask & 16u8 != 0;
    assert((1u8 << 0u8) == 1u8 && (1u8 << 1u8) == 2u8 && (1u8 << 2u8) == 4u8 && (1u8 << 3u8) == 8u8
        && (1u8 << 4u8) == 16u8) by (bit_vector);
    assert(((if l { 1u8 } else { 0u8 }) | (if r { 2u8 } else { 0u8 }) | (if m { 4u8 } else { 0u8 })
        | (if s1 { 8u8 } else { 0u8 }) | (if s2 { 16u8 } else { 0u8 })) == mask & 0x1f) by (bit_vector)
        requires
            l == (mask & 1u8 != 0),
            r == (mask & 2u8 != 0),
            m == (mask & 4u8 != 0),
            s1 == (mask & 8u8 != 0),
            s2 == (mask & 16u8 != 0),
    ;
}

/// Decoding the encoded states gives back the same states.
pub proof fn lemma_states_roundtrip(s: MouseButtonStates)
    ensures
        bit(mask_of(s), 0) == s.left,
        bit(mask_of(s), 1) == s.right,
        bit(mask_of(s), 2) == s.middle,
        bit(mask_of(s), 3) == s.side1,
        bit(mask_of(s), 4) == s.side2,
{
    let (l, r, m, s1, s2) = (s.left, s.right, s.middle, s.side1, s.side2);
    let x = mask_of(s);
    assert((1u8 << 0u8) == 1u8 && (1u8 << 1u8) == 2u8 && (1u8 << 2u8) == 4u8 && (1u8 << 3u8) == 8u8
        && (1u8 << 4u8) == 16u8) by (bit_vector);
    assert((x & 1u8 != 0) == l && (x & 2u8 != 0) == r && (x & 4u8 != 0) == m && (x & 8u8 != 0)
        == s1 && (x & 16u8 != 0) == s2) by (bit_vector)
        requires
            x == (if l { 1u8 } else { 0u8 }) | (if r { 2u8 } else { 0u8 }) | (if m { 4u8 } else {
                0u8
            }) | (if s1 { 8u8 } else { 0u8 }) | (if s2 { 16u8 } else { 0u8 }),
    ;
}

} // verus!
