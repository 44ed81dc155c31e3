use vstd::prelude::*;

verus! {

/// The error that the program reports, with a message that says what went wrong.
#[derive(Debug)]
pub enum ProgramError {
    General(String),
}

impl ProgramError {
    /// The message carried by the error.
    pub open spec fn message(self) -> Seq<char> {
        match self {
            ProgramError::General(m) => m@,
        }
    }
}

} // verus!
