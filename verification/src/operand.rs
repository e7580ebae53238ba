//! Operand words: a literal or a reference to one of the eight registers.

use vstd::prelude::*;
use crate::fault::Fault;

verus! {

/// First word that names a register.
pub const REGISTER_BASE: u16 = 32768;

/// First word that is neither a literal nor a register reference.
pub const INVALID_BASE: u16 = 32776;

/// What an operand word stands for.
#[derive(Clone, Copy, Debug, PartialEq, Eq, Structural)]
pub enum ValueType {
    /// The register with this index, 0 to 7.
    Register(u16),
    /// The value itself, below 32768.
    Literal(u16),
}

/// The meaning of a raw operand word: words below 32768 are literals, the
/// next eight name the registers in order, and all others are invalid.
pub open spec fn classified(raw: u16) -> Result<ValueType, Fault> {
    if raw < 32768 {
        Ok(ValueType::Literal(raw))
    } else if raw < 32776 {
        Ok(ValueType::Register((raw - 32768) as u16))
    } else {
        Err(Fault::InvalidWord { word: raw })
    }
}

/// Classifies a raw operand word.
pub fn classify(raw: u16) -> (r: Result<ValueType, Fault>)
    ensures
        r == classified(raw),
        r matches Ok(ValueType::Register(n)) ==> n < 8,
        r matches Ok(ValueType::Literal(n)) ==> n < 32768,
{
    if raw < REGISTER_BASE {
        Ok(ValueType::Literal(raw))
    } else if raw < INVALID_BASE {
        Ok(ValueType::Register(raw - REGISTER_BASE))
    } else {
        Err(Fault::InvalidWord { word: raw })
    }
}

} // verus!
