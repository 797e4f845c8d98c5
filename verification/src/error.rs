//! The error taxonomy of the precompile suite.
use vstd::prelude::*;

verus! {

/// Why an operation produced no output, in the order of the stage that detects it.
#[derive(Clone, Copy, Debug, PartialEq, Eq, Structural)]
pub enum ErrorKind {
    /// The input holds no bytes at all.
    EmptyInput,
    /// The input is not the fixed size, or not a whole number of records.
    InvalidLength,
    /// A field element is not in canonical form.
    EncodingError,
    /// A structurally malformed element.
    InvalidElement,
    /// The coordinates do not satisfy the curve equation.
    PointNotOnCurve,
    /// The point lies on the curve but outside the prime-order subgroup.
    PointNotInSubgroup,
    /// Working memory could not be allocated.
    MemoryError,
}

impl ErrorKind {
    /// The numeric status code of this error; zero is reserved for success.
    pub open spec fn spec_code(self) -> u32 {
        match self {
            ErrorKind::PointNotOnCurve => 1,
            ErrorKind::PointNotInSubgroup => 2,
            ErrorKind::InvalidElement => 3,
            ErrorKind::EncodingError => 4,
            ErrorKind::InvalidLength => 5,
            ErrorKind::EmptyInput => 6,
            ErrorKind::MemoryError => 7,
        }
    }

    /// The error that a status code stands for, if it stands for one.
    pub open spec fn spec_from_code(code: u32) -> Option<ErrorKind> {
        if code == 1 {
            Some(ErrorKind::PointNotOnCurve)
        } else if code == 2 {
            Some(ErrorKind::PointNotInSubgroup)
        } else if code == 3 {
            Some(ErrorKind::InvalidElement)
        } else if code == 4 {
            Some(ErrorKind::EncodingError)
        } else if code == 5 {
            Some(ErrorKind::InvalidLength)
        } else if code == 6 {
            Some(ErrorKind::EmptyInput)
        } else if code == 7 {
            Some(ErrorKind::MemoryError)
        } else {
            None
        }
    }

    /// The status code of this error.
    #[verifier::when_used_as_spec(spec_code)]
    pub fn code(self) -> (code: u32)
        ensures
            code == self.spec_code(),
            1 <= code <= 7,
    {
        match self {
            ErrorKind::PointNotOnCurve => 1,
            ErrorKind::PointNotInSubgroup => 2,
            ErrorKind::InvalidElement => 3,
            ErrorKind::EncodingError => 4,
            ErrorKind::InvalidLength => 5,
            ErrorKind::EmptyInput => 6,
            ErrorKind::MemoryError => 7,
        }
    }

/// The error that a status code stands for, if it stands for one.
    pub fn from_code(code: u32) -> (kind: Option<ErrorKind>)
        ensures
            kind == Self::spec_from_code(code),
    {
        if code == 1 {
            Some(ErrorKind::PointNotOnCurve)
        } else if code == 2 {
            Some(ErrorKind::PointNotInSubgroup)
        } else if code == 3 {
            Some(ErrorKind::InvalidElement)
        } else if code == 4 {
            Some(ErrorKind::EncodingError)
        } else if code == 5 {
            Some(ErrorKind::InvalidLength)
        } else if code == 6 {
            Some(ErrorKind::EmptyInput)
        } else if code == 7 {
            Some(ErrorKind::MemoryError)
        } else {
            None
        }
    }

    /// The fixed human-readable text of this error.
    pub fn message(self) -> (text: &'static str)
        ensures
            text@ == status_text(self.spec_code()),
    {
        match self {
            ErrorKind::PointNotOnCurve => "point not on curve",
            ErrorKind::PointNotInSubgroup => "point not in subgroup",
            ErrorKind::InvalidElement => "invalid element",
            ErrorKind::EncodingError => "encoding error",
            ErrorKind::InvalidLength => "invalid length",
            ErrorKind::EmptyInput => "empty input",
            ErrorKind::MemoryError => "memory allocation error",
        }
    }
}

/// The text that belongs to a numeric status code.
pub open spec fn status_text(code: u32) -> Seq<char> {
    if code == 0 {
        "Success"@
    } else if code == 1 {
        "point not on curve"@
    } else if code == 2 {
        "point not in subgroup"@
    } else if code == 3 {
        "invalid element"@
    } else if code == 4 {
        "encoding error"@
    } else if code == 5 {
        "invalid length"@
    } else if code == 6 {
        "empty input"@
    } else if code == 7 {
        "memory allocation error"@
    } else {
        "unknown error condition"@
    }
}

/// A code round-trips through the error it stands for.
pub proof fn lemma_code_round_trip(kind: ErrorKind)
    ensures
        ErrorKind::spec_from_code(kind.spec_code()) == Some(kind),
{
}

/// What an operation with working memory may answer: what it answers when
/// memory suffices, or, where that is no error, `MemoryError`. An input that
/// is in error gets its own error, whatever memory there is.
pub open spec fn allowing_memory_error<T>(
    res: Result<T, ErrorKind>,
    spec: Result<T, ErrorKind>,
) -> bool {
    res == spec || (spec is Ok && res == Err::<T, ErrorKind>(ErrorKind::MemoryError))
}

} // verus!
