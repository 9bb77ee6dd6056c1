use vstd::prelude::*;
use vstd::string::StringExecFns;

verus! {

/// What can go wrong around the game. A failure from elsewhere is kept by the
/// text it shows.
#[derive(Debug)]
pub enum Error {
    Generic(String),
    Other(String),
}

impl Error {
    /// The text shown for this error.
    pub open spec fn text(self) -> Seq<char> {
        match self {
            Error::Generic(message) => "Generic error '"@ + message@ + "'"@,
            Error::Other(message) => "3rd party error '"@ + message@ + "'"@,
        }
    }

    /// Whether this is the generic error with the message `text`.
    pub open spec fn is_generic_with(self, text: Seq<char>) -> bool {
        self matches Error::Generic(message) && message@ == text
    }

    /// The text shown for this error.
    pub fn to_string(&self) -> (shown: String)
        ensures
            shown@ == self.text(),
    {
        match self {
            Error::Generic(message) => {
                let mut shown = String::from_str("Generic error '");
                shown.append(message.as_str());
                shown.append("'");
                shown
            },
            Error::Other(message) => {
                let mut shown = String::from_str("3rd party error '");
                shown.append(message.as_str());
                shown.append("'");
                shown
            },
        }
    }
}

/// Turns a failure from elsewhere into an [`Error`].
pub trait ToCrateError {
    fn to_crate_error(self) -> Error;
}

impl<T: std::fmt::Debug + std::fmt::Display + 'static> ToCrateError for T {
    /// Keeps the text that the failure shows.
    fn to_crate_error(self) -> (error: Error)
        ensures
            error matches Error::Other(message)
                && vstd::string::to_string_from_display_ensures::<T>(&self, message),
    {
        Error::Other(self.to_string())
    }
}

impl From<&str> for Error {
    fn from(value: &str) -> (error: Error)
        ensures
            error.is_generic_with(value@),
    {
        Error::Generic(String::from_str(value))
    }
}

impl vstd::std_specs::convert::FromSpecImpl<&str> for Error {
    /// `from` is described by its own contract, over the view of the text.
    open spec fn obeys_from_spec() -> bool {
        false
    }

    open spec fn from_spec(value: &str) -> Error {
        choose|error: Error| #[trigger] error.is_generic_with(value@)
    }
}

} // verus!
