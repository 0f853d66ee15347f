//! Codec for the Fuji X-Trans compressed raw sensor format: a per-stripe,
//! predictive, adaptively entropy-coded encoding of 14-bit sensor samples.
//!
//! The crate is organised leaf-first: bit-level readers and writers, the
//! fixed colour-layout machinery, the adaptive gradient model and the sample
//! codec, and on top of those the per-stripe drivers and the outer container
//! framing.
use vstd::prelude::*;

pub mod bitreader;
pub mod bits;
pub mod bitwriter;
pub mod zip_with_offset;
pub mod colored;
pub mod compress;
pub mod container;
pub mod datagrid;
pub mod inflate;
pub mod laws;
pub mod process_common;
pub mod sample;

verus! {

/// One of the three sensor colours of the X-Trans pattern, used both as a
/// grid cell value and as an index (0, 1, 2) into per-colour tables.
#[derive(Debug, Clone, Copy, PartialEq, Eq, Structural)]
pub enum Color {
    Red,
    Green,
    Blue,
}

/// The position of a colour in per-colour tables.
pub open spec fn color_index(c: Color) -> int {
    match c {
        Color::Red => 0,
        Color::Green => 1,
        Color::Blue => 2,
    }
}

impl Color {
    pub fn idx(self) -> (r: usize)
        ensures
            r == color_index(self),
    {
        match self {
            Color::Red => 0,
            Color::Green => 1,
            Color::Blue => 2,
        }
    }

    pub fn from(val: i8) -> (r: Option<Color>)
        ensures
            val == 0 ==> r == Some(Color::Red),
            val == 1 ==> r == Some(Color::Green),
            val == 2 ==> r == Some(Color::Blue),
            !(0 <= val <= 2) ==> r is None,
    {
        match val {
            0 => Some(Color::Red),
            1 => Some(Color::Green),
            2 => Some(Color::Blue),
            _ => None,
        }
    }

    pub fn multipliers(self) -> (r: [u16; 3])
        ensures
            r@ == match self {
                Color::Red => seq![1u16, 0u16, 0u16],
                Color::Green => seq![0u16, 1u16, 0u16],
                Color::Blue => seq![0u16, 0u16, 1u16],
            },
    {
        let r = match self {
            Color::Red => [1u16, 0, 0],
            Color::Green => [0, 1, 0],
            Color::Blue => [0, 0, 1],
        };
        proof {
            assert(r@ =~= match self {
                Color::Red => seq![1u16, 0u16, 0u16],
                Color::Green => seq![0u16, 1u16, 0u16],
                Color::Blue => seq![0u16, 0u16, 1u16],
            });
        }
        r
    }

    pub fn letter(self) -> (r: &'static str)
        ensures
            self == Color::Red ==> r@ == "R"@,
            self == Color::Green ==> r@ == "G"@,
            self == Color::Blue ==> r@ == "B"@,
    {
        match self {
            Color::Red => "R",
            Color::Green => "G",
            Color::Blue => "B",
        }
    }
}

/// How a decode or encode fails.  Header problems are kept apart from
/// bitstream exhaustion and from internal-consistency failures so that a
/// caller can tell "not this format" apart from "right format, corrupt data".
#[derive(Debug, Clone, Copy, PartialEq, Eq, Structural)]
pub enum CodecError {
    /// The container header is not the expected magic/shape.
    MalformedHeader,
    /// The bitstream ran out in the middle of a sample.
    UnexpectedEndOfInput,
    /// An internal invariant of the code model failed on the given data.
    InvariantViolation,
}

} // verus!
