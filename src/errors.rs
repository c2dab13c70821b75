use vstd::prelude::*;
use vstd::string::*;

verus! {

/// Result type of the fallible graph operations.
pub type CrabNetsResult<OkType> = Result<OkType, CrabNetsError>;

/// The not-found error: the message names the operation and what was missing.
#[derive(Debug)]
pub struct CrabNetsError {
    pub message: String,
}

impl CrabNetsError {
    /// Builds the error `"<function_path>. <message>"`.
    pub fn new(function_path: &str, message: &str) -> (r: Self)
        ensures
            r.message@ == function_path@ + ". "@ + message@,
    {
        let mut text = String::from_str(function_path);
        text.append(". ");
        text.append(message);
        CrabNetsError { message: text }
    }

    /// The text shown for this error.
    pub fn to_string(&self) -> (r: String)
        ensures
            r@ == "CrabNetsError: "@ + self.message@,
    {
        let mut text = String::from_str("CrabNetsError: ");
        text.append(self.message.as_str());
        text
    }
}

} // verus!
