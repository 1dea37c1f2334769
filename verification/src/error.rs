//! The error the bot reports to its users.
use vstd::prelude::*;

verus! {

/// An error with a message shown to the user.
#[derive(Debug)]
pub enum BotError {
    Custom(String),
}

impl BotError {
    /// The message of the error.
    pub fn message(&self) -> (r: String)
        ensures
            self matches BotError::Custom(m) && r@ == m@,
    {
        match self {
            BotError::Custom(m) => m.clone(),
        }
    }
}

/// The message text of an error.
pub open spec fn error_text(e: BotError) -> Seq<char> {
    match e {
        BotError::Custom(m) => m@,
    }
}

} // verus!
