//! The plain values that the portal and the local installation speak of.

use vstd::prelude::*;
use vstd::std_specs::cmp::PartialEqSpecImpl;

verus! {

/// A URL.
#[derive(Debug, Eq, Hash, PartialOrd, Ord)]
pub struct Url(pub String);

impl View for Url {
    type V = Seq<char>;

    open spec fn view(&self) -> Seq<char> {
        self.0@
    }
}

impl Clone for Url {
    fn clone(&self) -> (r: Self)
        ensures
            r@ == self@,
    {
        Url(self.0.clone())
    }
}

impl PartialEq for Url {
    fn eq(&self, other: &Self) -> (r: bool) {
        self.0 == other.0
    }
}

impl PartialEqSpecImpl for Url {
    open spec fn obeys_eq_spec() -> bool {
        true
    }

    open spec fn eq_spec(&self, other: &Self) -> bool {
        self@ == other@
    }
}

impl Url {
    /// Wraps `text`.
    pub fn new(text: String) -> (r: Self)
        ensures
            r@ == text@,
    {
        Url(text)
    }

    /// The text inside.
    pub fn as_str(&self) -> (r: &str)
        ensures
            r@ == self@,
    {
        self.0.as_str()
    }

    /// A copy of the text inside.
    pub fn to_string(&self) -> (r: String)
        ensures
            r@ == self@,
    {
        self.0.clone()
    }
}

/// The name of a mod.
#[derive(Debug, Eq, Hash, PartialOrd, Ord)]
pub struct ModName(pub String);

impl View for ModName {
    type V = Seq<char>;

    open spec fn view(&self) -> Seq<char> {
        self.0@
    }
}

impl Clone for ModName {
    fn clone(&self) -> (r: Self)
        ensures
            r@ == self@,
    {
        ModName(self.0.clone())
    }
}

impl PartialEq for ModName {
    fn eq(&self, other: &Self) -> (r: bool) {
        self.0 == other.0
    }
}

impl PartialEqSpecImpl for ModName {
    open spec fn obeys_eq_spec() -> bool {
        true
    }

    open spec fn eq_spec(&self, other: &Self) -> bool {
        self@ == other@
    }
}

impl ModName {
    /// Wraps `text`.
    pub fn new(text: String) -> (r: Self)
        ensures
            r@ == text@,
    {
        ModName(text)
    }

    /// The text inside.
    pub fn as_str(&self) -> (r: &str)
        ensures
            r@ == self@,
    {
        self.0.as_str()
    }

    /// A copy of the text inside.
    pub fn to_string(&self) -> (r: String)
        ensures
            r@ == self@,
    {
        self.0.clone()
    }
}

/// The name of an author of a mod.
#[derive(Debug, Eq, Hash, PartialOrd, Ord)]
pub struct AuthorName(pub String);

impl View for AuthorName {
    type V = Seq<char>;

    open spec fn view(&self) -> Seq<char> {
        self.0@
    }
}

impl Clone for AuthorName {
    fn clone(&self) -> (r: Self)
        ensures
            r@ == self@,
    {
        AuthorName(self.0.clone())
    }
}

impl PartialEq for AuthorName {
    fn eq(&self, other: &Self) -> (r: bool) {
        self.0 == other.0
    }
}

impl PartialEqSpecImpl for AuthorName {
    open spec fn obeys_eq_spec() -> bool {
        true
    }

    open spec fn eq_spec(&self, other: &Self) -> bool {
        self@ == other@
    }
}

impl AuthorName {
    /// Wraps `text`.
    pub fn new(text: String) -> (r: Self)
        ensures
            r@ == text@,
    {
        AuthorName(text)
    }

    /// The text inside.
    pub fn as_str(&self) -> (r: &str)
        ensures
            r@ == self@,
    {
        self.0.as_str()
    }

    /// A copy of the text inside.
    pub fn to_string(&self) -> (r: String)
        ensures
            r@ == self@,
    {
        self.0.clone()
    }
}

/// The title of a mod.
#[derive(Debug, Eq, Hash, PartialOrd, Ord)]
pub struct ModTitle(pub String);

impl View for ModTitle {
    type V = Seq<char>;

    open spec fn view(&self) -> Seq<char> {
        self.0@
    }
}

impl Clone for ModTitle {
    fn clone(&self) -> (r: Self)
        ensures
            r@ == self@,
    {
        ModTitle(self.0.clone())
    }
}

impl PartialEq for ModTitle {
    fn eq(&self, other: &Self) -> (r: bool) {
        self.0 == other.0
    }
}

impl PartialEqSpecImpl for ModTitle {
    open spec fn obeys_eq_spec() -> bool {
        true
    }

    open spec fn eq_spec(&self, other: &Self) -> bool {
        self@ == other@
    }
}

impl ModTitle {
    /// Wraps `text`.
    pub fn new(text: String) -> (r: Self)
        ensures
            r@ == text@,
    {
        ModTitle(text)
    }

    /// The text inside.
    pub fn as_str(&self) -> (r: &str)
        ensures
            r@ == self@,
    {
        self.0.as_str()
    }

    /// A copy of the text inside.
    pub fn to_string(&self) -> (r: String)
        ensures
            r@ == self@,
    {
        self.0.clone()
    }
}

/// The description of a mod.
#[derive(Debug, Eq, Hash, PartialOrd, Ord)]
pub struct ModDescription(pub String);

impl View for ModDescription {
    type V = Seq<char>;

    open spec fn view(&self) -> Seq<char> {
        self.0@
    }
}

impl Clone for ModDescription {
    fn clone(&self) -> (r: Self)
        ensures
            r@ == self@,
    {
        ModDescription(self.0.clone())
    }
}

impl PartialEq for ModDescription {
    fn eq(&self, other: &Self) -> (r: bool) {
        self.0 == other.0
    }
}

impl PartialEqSpecImpl for ModDescription {
    open spec fn obeys_eq_spec() -> bool {
        true
    }

    open spec fn eq_spec(&self, other: &Self) -> bool {
        self@ == other@
    }
}

impl ModDescription {
    /// Wraps `text`.
    pub fn new(text: String) -> (r: Self)
        ensures
            r@ == text@,
    {
        ModDescription(text)
    }

    /// The text inside.
    pub fn as_str(&self) -> (r: &str)
        ensures
            r@ == self@,
    {
        self.0.as_str()
    }

    /// A copy of the text inside.
    pub fn to_string(&self) -> (r: String)
        ensures
            r@ == self@,
    {
        self.0.clone()
    }
}

/// A username used with the parts of the portal that require authentication.
#[derive(Debug, Eq, Hash, PartialOrd, Ord)]
pub struct ServiceUsername(pub String);

impl View for ServiceUsername {
    type V = Seq<char>;

    open spec fn view(&self) -> Seq<char> {
        self.0@
    }
}

impl Clone for ServiceUsername {
    fn clone(&self) -> (r: Self)
        ensures
            r@ == self@,
    {
        ServiceUsername(self.0.clone())
    }
}

impl PartialEq for ServiceUsername {
    fn eq(&self, other: &Self) -> (r: bool) {
        self.0 == other.0
    }
}

impl PartialEqSpecImpl for ServiceUsername {
    open spec fn obeys_eq_spec() -> bool {
        true
    }

    open spec fn eq_spec(&self, other: &Self) -> bool {
        self@ == other@
    }
}

impl ServiceUsername {
    /// Wraps `text`.
    pub fn new(text: String) -> (r: Self)
        ensures
            r@ == text@,
    {
        ServiceUsername(text)
    }

    /// The text inside.
    pub fn as_str(&self) -> (r: &str)
        ensures
            r@ == self@,
    {
        self.0.as_str()
    }

    /// A copy of the text inside.
    pub fn to_string(&self) -> (r: String)
        ensures
            r@ == self@,
    {
        self.0.clone()
    }
}

/// A token used with the parts of the portal that require authentication.
#[derive(Debug, Eq, Hash, PartialOrd, Ord)]
pub struct ServiceToken(pub String);

impl View for ServiceToken {
    type V = Seq<char>;

    open spec fn view(&self) -> Seq<char> {
        self.0@
    }
}

impl Clone for ServiceToken {
    fn clone(&self) -> (r: Self)
        ensures
            r@ == self@,
    {
        ServiceToken(self.0.clone())
    }
}

impl PartialEq for ServiceToken {
    fn eq(&self, other: &Self) -> (r: bool) {
        self.0 == other.0
    }
}

impl PartialEqSpecImpl for ServiceToken {
    open spec fn obeys_eq_spec() -> bool {
        true
    }

    open spec fn eq_spec(&self, other: &Self) -> bool {
        self@ == other@
    }
}

impl ServiceToken {
    /// Wraps `text`.
    pub fn new(text: String) -> (r: Self)
        ensures
            r@ == text@,
    {
        ServiceToken(text)
    }

    /// The text inside.
    pub fn as_str(&self) -> (r: &str)
        ensures
            r@ == self@,
    {
        self.0.as_str()
    }

    /// A copy of the text inside.
    pub fn to_string(&self) -> (r: String)
        ensures
            r@ == self@,
    {
        self.0.clone()
    }
}

/// A username and token used with the parts of the portal that require authentication.
#[derive(Debug)]
pub struct UserCredentials {
    /// The username.
    pub username: ServiceUsername,
    /// The token.
    pub token: ServiceToken,
}

impl Clone for UserCredentials {
    fn clone(&self) -> (r: Self)
        ensures
            r.username@ == self.username@,
            r.token@ == self.token@,
    {
        UserCredentials { username: self.username.clone(), token: self.token.clone() }
    }
}

impl UserCredentials {
    /// Puts a username and a token together.
    pub fn new(username: ServiceUsername, token: ServiceToken) -> (r: Self)
        ensures
            r.username@ == username@,
            r.token@ == token@,
    {
        UserCredentials { username, token }
    }

    /// The username.
    pub fn username(&self) -> (r: &ServiceUsername)
        ensures
            r@ == self.username@,
    {
        &self.username
    }

    /// The token.
    pub fn token(&self) -> (r: &ServiceToken)
        ensures
            r@ == self.token@,
    {
        &self.token
    }
}

} // verus!
