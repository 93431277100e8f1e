use vstd::prelude::*;

verus! {

/// One side of a square tile. The side's position in the enumeration
/// (Right, Top, Left, Bottom) is the bit that carries its color in a `BLTR`.
#[derive(Clone, Copy, Debug, PartialEq, Eq, Structural)]
pub enum Side {
    Right,
    Top,
    Left,
    Bottom,
}

impl Side {
    /// The bit position of this side inside an edge code.
    pub open spec fn spec_bit_index(self) -> u32 {
        match self {
            Side::Right => 0,
            Side::Top => 1,
            Side::Left => 2,
            Side::Bottom => 3,
        }
    }

    pub fn bit_index(self) -> (r: u32)
        ensures
            r == self.spec_bit_index(),
            r < 4,
    {
        match self {
            Side::Right => 0,
            Side::Top => 1,
            Side::Left => 2,
            Side::Bottom => 3,
        }
    }

    /// The side with the given bit position.
    pub fn from_bit_index(i: u32) -> (r: Side)
        requires
            i < 4,
        ensures
            r.spec_bit_index() == i,
    {
        if i == 0 {
            Side::Right
        } else if i == 1 {
            Side::Top
        } else if i == 2 {
            Side::Left
        } else {
            Side::Bottom
        }
    }
}

/// A Wang tile's edge code: bit 0 is the Right edge, bit 1 the Top edge, bit 2
/// the Left edge and bit 3 the Bottom edge. A set bit means that edge carries
/// the second palette color. The same layout doubles as a constraint mask.
#[derive(Clone, Copy, Debug, PartialEq, Eq, Structural)]
pub enum BLTR {
    Empty,
    Right,
    Top,
    TopRight,
    Left,
    LeftRight,
    LeftTop,
    LeftRightTop,
    Bottom,
    BottomRight,
    TopBottom,
    LeftTopBottom,
    RightBottom,
    RightLeftBottom,
    RightTopBottom,
    Full,
}

/// The value of bit `i` of `v`, 0 or 1.
pub open spec fn bit_of(v: u32, i: u32) -> u32 {
    (v >> i) & 1
}

/// A single bit is 0 or 1.
pub proof fn lemma_bit_of_is_bit(v: u32, i: u32)
    ensures
        bit_of(v, i) < 2,
{
    assert(((v >> i) & 1) < 2) by (bit_vector);
}

impl BLTR {
    /// The four-bit value of this code.
    pub open spec fn spec_bits(self) -> u32 {
        match self {
            BLTR::Empty => 0,
            BLTR::Right => 1,
            BLTR::Top => 2,
            BLTR::TopRight => 3,
            BLTR::Left => 4,
            BLTR::LeftRight => 5,
            BLTR::LeftTop => 6,
            BLTR::LeftRightTop => 7,
            BLTR::Bottom => 8,
            BLTR::BottomRight => 9,
            BLTR::TopBottom => 10,
            BLTR::LeftTopBottom => 11,
            BLTR::RightBottom => 12,
            BLTR::RightLeftBottom => 13,
            BLTR::RightTopBottom => 14,
            BLTR::Full => 15,
        }
    }

    /// The color bit (0 or 1) that this code gives to side `s`.
    pub open spec fn spec_edge(self, s: Side) -> u32 {
        bit_of(self.spec_bits(), s.spec_bit_index())
    }

    pub fn bits(self) -> (r: u32)
        ensures
            r == self.spec_bits(),
            r < 16,
    {
        match self {
            BLTR::Empty => 0,
            BLTR::Right => 1,
            BLTR::Top => 2,
            BLTR::TopRight => 3,
            BLTR::Left => 4,
            BLTR::LeftRight => 5,
            BLTR::LeftTop => 6,
            BLTR::LeftRightTop => 7,
            BLTR::Bottom => 8,
            BLTR::BottomRight => 9,
            BLTR::TopBottom => 10,
            BLTR::LeftTopBottom => 11,
            BLTR::RightBottom => 12,
            BLTR::RightLeftBottom => 13,
            BLTR::RightTopBottom => 14,
            BLTR::Full => 15,
        }
    }

    /// The code with the given four-bit value; every value below 16 has one.
    pub fn from_bits(v: u32) -> (r: BLTR)
        requires
            v < 16,
        ensures
            r.spec_bits() == v,
    {
        match v {
            0 => BLTR::Empty,
            1 => BLTR::Right,
            2 => BLTR::Top,
            3 => BLTR::TopRight,
            4 => BLTR::Left,
            5 => BLTR::LeftRight,
            6 => BLTR::LeftTop,
            7 => BLTR::LeftRightTop,
            8 => BLTR::Bottom,
            9 => BLTR::BottomRight,
            10 => BLTR::TopBottom,
            11 => BLTR::LeftTopBottom,
            12 => BLTR::RightBottom,
            13 => BLTR::RightLeftBottom,
            14 => BLTR::RightTopBottom,
            _ => BLTR::Full,
        }
    }

    /// The palette index (0 or 1) of side `s`: the code shifted right once per
    /// side that precedes `s` in the order Right, Top, Left, Bottom, then its
    /// lowest bit.
    pub fn edge(self, s: Side) -> (r: u32)
        ensures
            r == self.spec_edge(s),
            r < 2,
    {
        let mut code = self.bits();
        let mut index = s.bit_index();
        assert(code == code >> 0u32) by (bit_vector);
        while index > 0
            invariant
                index <= s.spec_bit_index(),
                code == self.spec_bits() >> ((s.spec_bit_index() - index) as u32),
            decreases index,
        {
            let ghost before = code;
            let ghost shifted = (s.spec_bit_index() - index) as u32;
            code = code >> 1;
            index = index - 1;
            assert(code == self.spec_bits() >> ((s.spec_bit_index() - index) as u32)) by {
                let b = self.spec_bits();
                assert(((b >> shifted) >> 1u32) == b >> ((shifted + 1) as u32)) by (bit_vector)
                    requires shifted < 4;
            }
        }
        let r = code & 1;
        assert(r < 2) by (bit_vector)
            requires r == code & 1;
        r
    }
}

/// Every code's value fits in four bits, and the value determines the code.
pub proof fn lemma_bits_valid_and_unique(a: BLTR, b: BLTR)
    ensures
        a.spec_bits() < 16,
        a.spec_bits() == b.spec_bits() ==> a == b,
{
}

} // verus!
