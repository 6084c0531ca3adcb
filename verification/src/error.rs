//! What can go wrong.

use crate::schema::KeyError;
use vstd::prelude::*;

verus! {

#[derive(Debug)]
pub enum Error {
    StoreNotFound,
    FactNotFound(String),
    Key(KeyError),
    Store(String),
    Jj(String),
    Verifier(String),
    Config(String),
    Io(String),
    Json(String),
    Toml(String),
}

impl Error {
    /// What a person is told.
    pub open spec fn message(&self) -> Seq<char> {
        match *self {
            Error::StoreNotFound =>
                "store not found: no .ken/ directory walking up from the working directory"@,
            Error::FactNotFound(key) => "fact not found: "@ + key@,
            Error::Key(error) => "invalid key: "@ + error.message(),
            Error::Store(text) => "store error: "@ + text@,
            Error::Jj(text) => "jj command failed: "@ + text@,
            Error::Verifier(text) => "verifier error: "@ + text@,
            Error::Config(text) => "config error: "@ + text@,
            Error::Io(text) => text@,
            Error::Json(text) => text@,
            Error::Toml(text) => text@,
        }
    }

    /// The message for a person.
    pub fn to_string(&self) -> (r: String)
        ensures
            r@ == self.message(),
    {
        match self {
            Error::StoreNotFound =>
                "store not found: no .ken/ directory walking up from the working directory".to_owned(),
            Error::FactNotFound(key) => "fact not found: ".to_owned().concat(key.as_str()),
            Error::Key(error) => "invalid key: ".to_owned().concat(error.to_string().as_str()),
            Error::Store(text) => "store error: ".to_owned().concat(text.as_str()),
            Error::Jj(text) => "jj command failed: ".to_owned().concat(text.as_str()),
            Error::Verifier(text) => "verifier error: ".to_owned().concat(text.as_str()),
            Error::Config(text) => "config error: ".to_owned().concat(text.as_str()),
            Error::Io(text) => text.clone(),
            Error::Json(text) => text.clone(),
            Error::Toml(text) => text.clone(),
        }
    }
}

/// A configuration error with the given text.
pub open spec fn is_config<T>(r: Result<T, Error>, text: Seq<char>) -> bool {
    r matches Err(Error::Config(s)) && s@ == text
}

/// A store error with the given text.
pub open spec fn is_store<T>(r: Result<T, Error>, text: Seq<char>) -> bool {
    r matches Err(Error::Store(s)) && s@ == text
}

} // verus!
