use vstd::prelude::*;

verus! {

/// The one error kind of the library: a message that says what went wrong.
#[derive(Debug, PartialEq)]
pub enum RedisError {
    Message(String),
}

impl View for RedisError {
    type V = Seq<char>;

    /// The text of the message.
    open spec fn view(&self) -> Seq<char> {
        match self {
            RedisError::Message(m) => m@,
        }
    }
}

impl RedisError {
    /// The error for a value or frame kind that this format does not carry.
    pub fn unsupported_type() -> (e: RedisError)
        ensures
            e@ == "unsupported type"@,
    {
        RedisError::Message("unsupported type".to_owned())
    }

    /// The message, as the error displays it.
    pub fn to_string(&self) -> (s: String)
        ensures
            s@ == self@,
    {
        match self {
            RedisError::Message(m) => m.clone(),
        }
    }
}

} // verus!
