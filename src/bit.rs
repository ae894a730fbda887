use vstd::prelude::*;

verus! {

/// A single binary digit.
#[derive(Clone, Copy, Debug, PartialEq, Eq, Structural)]
pub enum Bit {
    Zero,
    One,
}

impl Bit {
    /// The bit read as a boolean: `One` is `true`.
    pub open spec fn spec_bool(self) -> bool {
        self == Bit::One
    }

    /// The bit read as a byte: 0 or 1.
    pub open spec fn spec_u8(self) -> u8 {
        if self == Bit::One { 1 } else { 0 }
    }

    /// The bit that stands for a boolean.
    pub open spec fn of_bool(b: bool) -> Bit {
        if b { Bit::One } else { Bit::Zero }
    }

    /// Checked conversion: zero gives `Zero`, any other byte gives `One`.
    pub fn from_u8(src: u8) -> (r: Bit)
        ensures
            r == Bit::of_bool(src != 0),
    {
        match src {
            0 => Bit::Zero,
            _ => Bit::One,
        }
    }

    /// Conversion of a byte known to be 0 or 1.
    pub(crate) fn from_u8_unchecked(src: u8) -> (r: Bit)
        requires
            src <= 1,
        ensures
            r.spec_u8() == src,
    {
        if src == 0 { Bit::Zero } else { Bit::One }
    }

    pub fn from_bool(src: bool) -> (r: Bit)
        ensures
            r == Bit::of_bool(src),
            r.spec_bool() == src,
    {
        if src { Bit::One } else { Bit::Zero }
    }

    pub fn as_bool(self) -> (r: bool)
        ensures
            r == self.spec_bool(),
    {
        match self {
            Bit::Zero => false,
            Bit::One => true,
        }
    }

    pub fn as_u8(self) -> (r: u8)
        ensures
            r == self.spec_u8(),
    {
        match self {
            Bit::Zero => 0,
            Bit::One => 1,
        }
    }

    /// The bit as text: "0" or "1".
    pub fn to_text(self) -> (r: String)
        ensures
            r@ == (if self == Bit::One { "1"@ } else { "0"@ }),
    {
        match self {
            Bit::Zero => "0".to_owned(),
            Bit::One => "1".to_owned(),
        }
    }

    /// Boolean conjunction of two bits.
    pub fn and(self, rhs: Bit) -> (r: Bit)
        ensures
            r == Bit::of_bool(self.spec_bool() && rhs.spec_bool()),
    {
        Bit::from_bool(self.as_bool() && rhs.as_bool())
    }

    /// Boolean disjunction of two bits: true OR, so that `One | Zero` is `One`
    /// (an AND in this place would make OR and AND the same operation).
    pub fn or(self, rhs: Bit) -> (r: Bit)
        ensures
            r == Bit::of_bool(self.spec_bool() || rhs.spec_bool()),
    {
        Bit::from_bool(self.as_bool() || rhs.as_bool())
    }

    /// Exclusive or of two bits.
    pub fn xor(self, rhs: Bit) -> (r: Bit)
        ensures
            r == Bit::of_bool(self.spec_bool() != rhs.spec_bool()),
    {
        Bit::from_bool(self.as_bool() ^ rhs.as_bool())
    }

    /// Negation of a bit.
    pub fn not(self) -> (r: Bit)
        ensures
            r == Bit::of_bool(!self.spec_bool()),
    {
        Bit::from_bool(!self.as_bool())
    }
}

/// Turning a boolean into a bit and back gives the boolean.
pub proof fn lemma_bool_round_trip(b: bool)
    ensures
        Bit::of_bool(b).spec_bool() == b,
{
}

impl core::ops::BitAnd for Bit {
    type Output = Bit;

    fn bitand(self, rhs: Bit) -> Bit {
        self.and(rhs)
    }
}

impl vstd::std_specs::ops::BitAndSpecImpl for Bit {
    open spec fn obeys_bitand_spec() -> bool {
        true
    }

    open spec fn bitand_req(self, rhs: Bit) -> bool {
        true
    }

    open spec fn bitand_spec(self, rhs: Bit) -> Bit {
        Bit::of_bool(self.spec_bool() && rhs.spec_bool())
    }
}

impl core::ops::BitOr for Bit {
    type Output = Bit;

    fn bitor(self, rhs: Bit) -> Bit {
        self.or(rhs)
    }
}

impl vstd::std_specs::ops::BitOrSpecImpl for Bit {
    open spec fn obeys_bitor_spec() -> bool {
        true
    }

    open spec fn bitor_req(self, rhs: Bit) -> bool {
        true
    }

    open spec fn bitor_spec(self, rhs: Bit) -> Bit {
        Bit::of_bool(self.spec_bool() || rhs.spec_bool())
    }
}

impl core::ops::BitXor for Bit {
    type Output = Bit;

    fn bitxor(self, rhs: Bit) -> Bit {
        self.xor(rhs)
    }
}

impl vstd::std_specs::ops::BitXorSpecImpl for Bit {
    open spec fn obeys_bitxor_spec() -> bool {
        true
    }

    open spec fn bitxor_req(self, rhs: Bit) -> bool {
        true
    }

    open spec fn bitxor_spec(self, rhs: Bit) -> Bit {
        Bit::of_bool(self.spec_bool() != rhs.spec_bool())
    }
}

impl core::ops::Not for Bit {
    type Output = Bit;

    fn not(self) -> Bit {
        Bit::not(self)
    }
}

impl vstd::std_specs::ops::NotSpecImpl for Bit {
    open spec fn obeys_not_spec() -> bool {
        true
    }

    open spec fn not_req(self) -> bool {
        true
    }

    open spec fn not_spec(self) -> Bit {
        Bit::of_bool(!self.spec_bool())
    }
}

impl core::ops::Deref for Bit {
    type Target = u8;

    fn deref(&self) -> (r: &u8)
        ensures
            *r == self.spec_u8(),
    {
        match self {
            Bit::Zero => &0,
            Bit::One => &1,
        }
    }
}

} // verus!
