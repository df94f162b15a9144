use vstd::prelude::*;

use crate::input::NotSupportedText;

verus! {

/// The ways in which decoding can fail.
#[derive(Debug, Clone, Copy, PartialEq, Eq, Structural)]
pub enum Error {
    /// A binary group is not exactly eight characters from `0` and `1`, or
    /// the groups are not separated by single spaces.
    InvalidDigits,
    /// The decoded bytes are not valid UTF-8.
    InvalidText,
    /// The stream holds none of the known invisible symbols.
    UndeterminedFormat,
    /// A symbol of the stream is assigned to no role of the configuration.
    AmbiguousSymbol,
}

/// The characters of a text result, with its error kept as it is.
pub open spec fn text_result(r: Result<String, Error>) -> Result<Seq<char>, Error> {
    match r {
        Ok(s) => Ok(s@),
        Err(e) => Err(e),
    }
}

impl From<NotSupportedText> for Error {
    fn from(_e: NotSupportedText) -> (r: Error)
        ensures
            r == Error::UndeterminedFormat,
    {
        Error::UndeterminedFormat
    }
}

impl vstd::std_specs::convert::FromSpecImpl<NotSupportedText> for Error {
    open spec fn obeys_from_spec() -> bool {
        true
    }

    open spec fn from_spec(v: NotSupportedText) -> Error {
        Error::UndeterminedFormat
    }
}

} // verus!
