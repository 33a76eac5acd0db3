//! What can go wrong while parsing portal data and resolving.

use vstd::prelude::*;

verus! {

/// The ways in which parsing and resolution fail.
#[derive(Debug)]
pub enum ErrorKind {
    /// A generic message.
    Msg(String),
    /// The text is no version, even after its leading zeros were stripped.
    ParseVersion(String),
    /// The text is no dependency specifier.
    ParseDependency(String),
    /// No assignment satisfies the requirements. Carries the required mod that has no
    /// candidate release left, if that is why.
    NoSolution(Option<String>),
    /// The portal failed for the named mod other than by not knowing it.
    Portal(String),
}

} // verus!
