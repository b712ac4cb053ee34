use vstd::prelude::*;

verus! {

/// The ways a decode can fail, one variant per malformed construct.
#[derive(Debug, Clone, Copy, PartialEq, Eq, Structural)]
pub enum DecodeError {
    /// The character after `\` is not a recognized tag, or the input
    /// ends right after a lone `\`.
    InvalidEscape,
    /// A `\x` escape with fewer than two characters left, or whose two
    /// characters are not both hex digits.
    InvalidHexChar,
    /// A `\u` escape without braces, with an empty digit run, or whose
    /// value is not a Unicode scalar value.
    InvalidUnicode,
}

impl DecodeError {
    /// The variant's name, for callers that report the failure.
    pub fn message(&self) -> (r: &'static str)
        ensures
            r@ == self.spec_message(),
    {
        match self {
            DecodeError::InvalidEscape => "InvalidEscape",
            DecodeError::InvalidHexChar => "InvalidHexChar",
            DecodeError::InvalidUnicode => "InvalidUnicode",
        }
    }

    pub open spec fn spec_message(self) -> Seq<char> {
        match self {
            DecodeError::InvalidEscape => "InvalidEscape"@,
            DecodeError::InvalidHexChar => "InvalidHexChar"@,
            DecodeError::InvalidUnicode => "InvalidUnicode"@,
        }
    }
}

} // verus!
