use vstd::prelude::*;

pub use crate::error::Error;
use crate::error::ToCrateError;

verus! {

/// Turns the failure of a result from elsewhere into an [`Error`].
pub trait ToCrateResult<T> {
    fn to_crate_result(self) -> std::result::Result<T, Error>;
}

impl<T, E: std::fmt::Debug + std::fmt::Display + 'static> ToCrateResult<T> for std::result::Result<
    T,
    E,
> {
    /// A success stays as it is; a failure is kept by the text that it shows.
    fn to_crate_result(self) -> (converted: std::result::Result<T, Error>)
        ensures
            match self {
                Ok(value) => converted == Ok::<T, Error>(value),
                Err(failure) => converted matches Err(Error::Other(message))
                    && vstd::string::to_string_from_display_ensures::<E>(&failure, message),
            },
    {
        match self {
            Ok(value) => Ok(value),
            Err(failure) => Err(failure.to_crate_error()),
        }
    }
}

} // verus!
