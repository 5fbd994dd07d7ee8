use vstd::prelude::*;
use vstd::string::StringExecFns;

verus! {

/// Shapes of values that may be supplied as untyped bytes and that are checked
/// against the wire format before they reach a call.
#[derive(Debug)]
pub enum PrimitiveArgumentLayout {
    /// An option
    Option(Box<PrimitiveArgumentLayout>),
    /// A vector
    Vector(Box<PrimitiveArgumentLayout>),
    /// An ASCII encoded string
    Ascii,
    /// A UTF8 encoded string
    UTF8,
    Bool,
    U8,
    U16,
    U32,
    U64,
    U128,
    U256,
    Address,
}

impl PrimitiveArgumentLayout {
    /// True when some byte strings of the right shape are still not values of this
    /// layout: an option discriminant or a string encoding occurs somewhere in it.
    pub open spec fn needs_extra_validation(&self) -> bool
        decreases self,
    {
        match self {
            PrimitiveArgumentLayout::Option(_) => true,
            PrimitiveArgumentLayout::Ascii => true,
            PrimitiveArgumentLayout::UTF8 => true,
            PrimitiveArgumentLayout::Vector(inner) => inner.needs_extra_validation(),
            _ => false,
        }
    }

    /// The amplification factor of the layout: how many times over a value of it
    /// may grow when copied.
    pub open spec fn spec_amplification(&self) -> nat
        decreases self,
    {
        match self {
            PrimitiveArgumentLayout::Option(inner) => 1 + inner.spec_amplification(),
            PrimitiveArgumentLayout::Vector(inner) => inner.spec_amplification(),
            PrimitiveArgumentLayout::Ascii => 2,
            PrimitiveArgumentLayout::UTF8 => 2,
            PrimitiveArgumentLayout::U128 => 2,
            PrimitiveArgumentLayout::U256 => 2,
            PrimitiveArgumentLayout::Address => 2,
            _ => 1,
        }
    }

    /// Returns true iff all BCS compatible bytes are actually values for this type.
    /// Options and strings need additional validation; a vector needs it when its
    /// element type does.
    pub fn bcs_only(&self) -> (r: bool)
        ensures
            r == !self.needs_extra_validation(),
        decreases self,
    {
        match self {
            PrimitiveArgumentLayout::Option(_)
            | PrimitiveArgumentLayout::Ascii
            | PrimitiveArgumentLayout::UTF8 => false,
            PrimitiveArgumentLayout::Bool
            | PrimitiveArgumentLayout::U8
            | PrimitiveArgumentLayout::U16
            | PrimitiveArgumentLayout::U32
            | PrimitiveArgumentLayout::U64
            | PrimitiveArgumentLayout::U128
            | PrimitiveArgumentLayout::U256
            | PrimitiveArgumentLayout::Address => true,
            PrimitiveArgumentLayout::Vector(inner) => inner.bcs_only(),
        }
    }

    /// How the layout is named in messages: its Move type.
    pub open spec fn spec_describe(&self) -> Seq<char>
        decreases self,
    {
        match self {
            PrimitiveArgumentLayout::Vector(inner) => "vector<"@ + inner.spec_describe() + ">"@,
            PrimitiveArgumentLayout::Option(inner) => "std::option::Option<"@ + inner.spec_describe()
                + ">"@,
            PrimitiveArgumentLayout::Ascii => "std::ascii::String"@,
            PrimitiveArgumentLayout::UTF8 => "std::string::String"@,
            PrimitiveArgumentLayout::Bool => "bool"@,
            PrimitiveArgumentLayout::U8 => "u8"@,
            PrimitiveArgumentLayout::U16 => "u16"@,
            PrimitiveArgumentLayout::U32 => "u32"@,
            PrimitiveArgumentLayout::U64 => "u64"@,
            PrimitiveArgumentLayout::U128 => "u128"@,
            PrimitiveArgumentLayout::U256 => "u256"@,
            PrimitiveArgumentLayout::Address => "address"@,
        }
    }

    /// The Move type of the layout, as text.
    pub fn describe(&self) -> (r: String)
        ensures
            r@ == self.spec_describe(),
        decreases self,
    {
        match self {
            PrimitiveArgumentLayout::Vector(inner) => {
                let mut s = String::from_str("vector<");
                let d = inner.describe();
                s.append(d.as_str());
                s.append(">");
                s
            },
            PrimitiveArgumentLayout::Option(inner) => {
                let mut s = String::from_str("std::option::Option<");
                let d = inner.describe();
                s.append(d.as_str());
                s.append(">");
                s
            },
            PrimitiveArgumentLayout::Ascii => String::from_str("std::ascii::String"),
            PrimitiveArgumentLayout::UTF8 => String::from_str("std::string::String"),
            PrimitiveArgumentLayout::Bool => String::from_str("bool"),
            PrimitiveArgumentLayout::U8 => String::from_str("u8"),
            PrimitiveArgumentLayout::U16 => String::from_str("u16"),
            PrimitiveArgumentLayout::U32 => String::from_str("u32"),
            PrimitiveArgumentLayout::U64 => String::from_str("u64"),
            PrimitiveArgumentLayout::U128 => String::from_str("u128"),
            PrimitiveArgumentLayout::U256 => String::from_str("u256"),
            PrimitiveArgumentLayout::Address => String::from_str("address"),
        }
    }

    /// The amplification factor, saturated at `u64::MAX`.
    pub fn amplification(&self) -> (r: u64)
        ensures
            r as nat == if self.spec_amplification() <= u64::MAX as nat {
                self.spec_amplification()
            } else {
                u64::MAX as nat
            },
            r >= 1,
        decreases self,
    {
        proof {
            lemma_amplification_positive(self);
        }
        match self {
            PrimitiveArgumentLayout::Option(inner) => inner.amplification().saturating_add(1),
            PrimitiveArgumentLayout::Vector(inner) => inner.amplification(),
            PrimitiveArgumentLayout::Ascii
            | PrimitiveArgumentLayout::UTF8
            | PrimitiveArgumentLayout::U128
            | PrimitiveArgumentLayout::U256
            | PrimitiveArgumentLayout::Address => 2,
            PrimitiveArgumentLayout::Bool
            | PrimitiveArgumentLayout::U8
            | PrimitiveArgumentLayout::U16
            | PrimitiveArgumentLayout::U32
            | PrimitiveArgumentLayout::U64 => 1,
        }
    }
}

/// Every layout has an amplification factor of at least one.
pub proof fn lemma_amplification_positive(l: &PrimitiveArgumentLayout)
    ensures
        l.spec_amplification() >= 1,
    decreases l,
{
    match l {
        PrimitiveArgumentLayout::Option(inner) => lemma_amplification_positive(inner),
        PrimitiveArgumentLayout::Vector(inner) => lemma_amplification_positive(inner),
        _ => {},
    }
}

} // verus!
