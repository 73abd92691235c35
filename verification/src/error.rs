//! The error without a cause.

use vstd::prelude::*;
use vstd::string::StringExecFns;

verus! {

/// An error that says nothing about what went wrong. What went wrong is
/// told by the context in which it is raised.
#[derive(Debug, Clone, Copy)]
pub struct Ewwow;

impl Ewwow {
    /// A failure with this error.
    pub fn raise(self) -> (raised: Result<(), Self>)
        ensures
            raised == Err::<(), Ewwow>(self),
    {
        Err(self)
    }

    /// The text that stands for this error in a message.
    pub fn message(&self) -> (text: String)
        ensures
            text@ == "OOPSIE WOOPSIE!! uwu We made a fucky wucky!!"@,
    {
        String::from_str("OOPSIE WOOPSIE!! uwu We made a fucky wucky!!")
    }
}

} // verus!
