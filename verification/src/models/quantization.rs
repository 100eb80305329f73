//! Quantization formats a model file may use, grouped by bit width.

use vstd::prelude::*;

verus! {

/// Two-bit formats.
#[derive(Debug, Clone, Copy, PartialEq, Eq, Structural)]
pub enum Q2 {
    IQ2XXS,
    IQ2M,
    Q2K,
    Q2KL,
    Q2KXL,
}

/// Three-bit formats.
#[derive(Debug, Clone, Copy, PartialEq, Eq, Structural)]
pub enum Q3 {
    IQ3XXS,
    Q3KS,
    Q3KM,
    Q3KXL,
}

/// Four-bit formats.
#[derive(Debug, Clone, Copy, PartialEq, Eq, Structural)]
pub enum Q4 {
    IQ4XS,
    IQ4NL,
    Q4KS,
    Q4KM,
    Q4KXL,
    Q40,
    Q41,
}

/// Five-bit formats.
#[derive(Debug, Clone, Copy, PartialEq, Eq, Structural)]
pub enum Q5 {
    Q5KS,
    Q5KM,
    Q5KXL,
}

/// Six-bit formats.
#[derive(Debug, Clone, Copy, PartialEq, Eq, Structural)]
pub enum Q6 {
    Q6K,
    Q6KXL,
}

/// Eight-bit formats.
#[derive(Debug, Clone, Copy, PartialEq, Eq, Structural)]
pub enum Q8 {
    Q80,
    Q8KXL,
}

/// Any quantization, or the unquantized sixteen-bit form.
#[derive(Debug, Clone, Copy, PartialEq, Eq, Structural)]
pub enum Quantization {
    BF16,
    Q2(Q2),
    Q3(Q3),
    Q4(Q4),
    Q5(Q5),
    Q6(Q6),
    Q8(Q8),
}

/// The bit width of a quantization group.
pub open spec fn spec_bits_per_param(q: Quantization) -> u8 {
    match q {
        Quantization::Q2(_) => 2,
        Quantization::Q3(_) => 3,
        Quantization::Q4(_) => 4,
        Quantization::Q5(_) => 5,
        Quantization::Q6(_) => 6,
        Quantization::Q8(_) => 8,
        Quantization::BF16 => 16,
    }
}

impl Quantization {
    /// How many bits each parameter takes in this format.
    pub fn bits_per_param(&self) -> (r: u8)
        ensures
            r == spec_bits_per_param(*self),
    {
        match self {
            Quantization::Q2(_) => 2,
            Quantization::Q3(_) => 3,
            Quantization::Q4(_) => 4,
            Quantization::Q5(_) => 5,
            Quantization::Q6(_) => 6,
            Quantization::Q8(_) => 8,
            Quantization::BF16 => 16,
        }
    }
}

} // verus!
