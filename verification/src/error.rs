//! The failures of the command line's remote commands.

use vstd::prelude::*;

verus! {

/// Why a remote command failed.
#[derive(Debug)]
pub enum Error {
    /// The keychain failed or holds something unusable.
    Keychain(String),
    /// What the user gave cannot be used.
    Input(String),
    /// The server, or a callback in its name, answered with something unusable.
    Server(String),
    /// The server is too old to hand out login codes.
    LegacyServer,
    /// The server or the browser could not be reached.
    Network(String),
    /// A local read or write failed.
    Io(String),
}

/// What an [`Error`] says.
pub enum Fault {
    Keychain(Seq<char>),
    Input(Seq<char>),
    Server(Seq<char>),
    LegacyServer,
    Network(Seq<char>),
    Io(Seq<char>),
}

impl View for Error {
    type V = Fault;

    open spec fn view(&self) -> Fault {
        match *self {
            Error::Keychain(detail) => Fault::Keychain(detail@),
            Error::Input(detail) => Fault::Input(detail@),
            Error::Server(detail) => Fault::Server(detail@),
            Error::LegacyServer => Fault::LegacyServer,
            Error::Network(detail) => Fault::Network(detail@),
            Error::Io(detail) => Fault::Io(detail@),
        }
    }
}

impl Fault {
    /// The sentence that describes the failure.
    pub open spec fn sentence(self) -> Seq<char> {
        match self {
            Fault::Keychain(detail) => detail,
            Fault::Input(detail) => detail,
            Fault::Server(detail) => detail,
            Fault::LegacyServer =>
                "the server sent a session instead of a login code: it needs an update"@,
            Fault::Network(detail) => detail,
            Fault::Io(detail) => detail,
        }
    }
}

impl Error {
    /// The sentence that describes the failure.
    pub fn message(&self) -> (r: String)
        ensures
            r@ == self@.sentence(),
    {
        match self {
            Error::Keychain(detail) => detail.clone(),
            Error::Input(detail) => detail.clone(),
            Error::Server(detail) => detail.clone(),
            Error::LegacyServer =>
                "the server sent a session instead of a login code: it needs an update".to_owned(),
            Error::Network(detail) => detail.clone(),
            Error::Io(detail) => detail.clone(),
        }
    }
}

} // verus!
