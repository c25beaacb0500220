//! Launch settings read from the command line: on/off toggles and grid
//! sizes written as `WIDTHxHEIGHT`.

use vstd::prelude::*;
use crate::transfer::snapshot::{find_x, first_x, parse_trimmed, slice_chars};
use crate::transfer::text::{chars_of, chars_to_string, parse_u32_spec, push_text, trimmed};

verus! {

/// Generic on/off toggle.
#[derive(Clone, Copy, Debug, PartialEq, Eq, Structural)]
pub enum Toggle {
    /// Enable the associated behaviour.
    On,
    /// Disable the associated behaviour.
    Off,
}

impl Toggle {
    /// Whether the toggle asks for the behaviour to be enabled.
    pub fn enabled(self) -> (b: bool)
        ensures
            b == (self is On),
    {
        match self {
            Toggle::On => true,
            Toggle::Off => false,
        }
    }
}

/// Grid dimensions read from a `WIDTHxHEIGHT` argument.
#[derive(Clone, Copy, Debug, PartialEq, Eq, Structural)]
pub struct GridSizeArg {
    pub columns: u32,
    pub rows: u32,
}

/// Why a grid size argument was refused.
#[derive(Clone, Copy, Debug, PartialEq, Eq, Structural)]
pub enum GridSizeError {
    /// Neither `x` nor `X` separates the two numbers.
    MissingSeparator,
    /// The text before the separator is not a `u32`.
    InvalidWidth,
    /// The text after the separator is not a `u32`.
    InvalidHeight,
    /// A dimension is zero.
    NotPositive,
}

/// What reading `s` as a grid size gives: the text is split at its first
/// `x` or `X`, each side is trimmed and read as a `u32`, the width first,
/// and both must be positive.
pub open spec fn grid_size_reading(s: Seq<char>) -> Result<(u32, u32), GridSizeError> {
    match first_x(s) {
        None => Err(GridSizeError::MissingSeparator),
        Some(i) => {
            let width = parse_u32_spec(trimmed(s.subrange(0, i)));
            let height = parse_u32_spec(trimmed(s.subrange(i + 1, s.len() as int)));
            if width is None {
                Err(GridSizeError::InvalidWidth)
            } else if height is None {
                Err(GridSizeError::InvalidHeight)
            } else if width->0 == 0 || height->0 == 0 {
                Err(GridSizeError::NotPositive)
            } else {
                Ok((width->0, height->0))
            }
        },
    }
}

impl GridSizeError {
    /// The human-readable message describing the refusal.
    pub fn message(&self) -> (r: String)
        ensures
            match self {
                GridSizeError::MissingSeparator => r@ == "expected format WIDTHxHEIGHT"@,
                GridSizeError::InvalidWidth => r@ == "invalid width"@,
                GridSizeError::InvalidHeight => r@ == "invalid height"@,
                GridSizeError::NotPositive => r@ == "grid dimensions must be positive"@,
            },
    {
        let mut out: Vec<char> = Vec::new();
        match self {
            GridSizeError::MissingSeparator => push_text("expected format WIDTHxHEIGHT", &mut out),
            GridSizeError::InvalidWidth => push_text("invalid width", &mut out),
            GridSizeError::InvalidHeight => push_text("invalid height", &mut out),
            GridSizeError::NotPositive => push_text("grid dimensions must be positive", &mut out),
        }
        proof {
            assert(out@ =~= Seq::<char>::empty() + out@);
        }
        chars_to_string(out.as_slice())
    }
}

impl GridSizeArg {
    /// The dimensions as a `(columns, rows)` pair.
    pub fn into_dimensions(self) -> (r: (u32, u32))
        ensures
            r == (self.columns, self.rows),
    {
        (self.columns, self.rows)
    }

    /// Reads a grid size written as `WIDTHxHEIGHT` (see [`grid_size_reading`]).
    pub fn parse(value: &str) -> (r: Result<Self, GridSizeError>)
        ensures
            match grid_size_reading(value@) {
                Ok(d) => r is Ok && r->Ok_0.columns == d.0 && r->Ok_0.rows == d.1,
                Err(e) => r is Err && r->Err_0 == e,
            },
    {
        let chars = chars_of(value);
        let split = find_x(&chars);
        if split == chars.len() {
            return Err(GridSizeError::MissingSeparator);
        }
        let left = slice_chars(&chars, 0, split);
        let right = slice_chars(&chars, split + 1, chars.len());
        let columns = match parse_trimmed(&left) {
            Some(v) => v,
            None => {
                return Err(GridSizeError::InvalidWidth);
            },
        };
        let rows = match parse_trimmed(&right) {
            Some(v) => v,
            None => {
                return Err(GridSizeError::InvalidHeight);
            },
        };
        if columns == 0 || rows == 0 {
            return Err(GridSizeError::NotPositive);
        }
        Ok(GridSizeArg { columns, rows })
    }
}

} // verus!
