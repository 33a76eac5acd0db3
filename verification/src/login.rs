//! Making sure that there are credentials for the portal: what to do with what the user
//! types and with what the portal says to a login. Asking the user and the portal is left
//! to the caller.

use vstd::prelude::*;
use crate::text::{chars_of, skip_spaces_from, sub_chars, trim_end, trimmed};
use crate::types::{ServiceUsername, UserCredentials};
use crate::web::ErrorKind;

verus! {

/// What is known of the user's credentials before the user is asked.
#[derive(Debug)]
pub enum StoredCredentials {
    /// Username and token.
    Complete(UserCredentials),
    /// No token, and the username if there is one.
    Incomplete(Option<ServiceUsername>),
}

/// What the caller is to do next to get credentials.
#[derive(Debug)]
pub enum LoginStep {
    /// Ask the user for a username, offering the given one, and for a password; then log in.
    Ask(Option<ServiceUsername>),
    /// Save the credentials and go on with them.
    Save(UserCredentials),
    /// Go on with the credentials.
    Use(UserCredentials),
    /// Give up with the error.
    Fail(ErrorKind),
}

/// Decides what to do with the stored credentials: complete ones are used, incomplete ones
/// make the user be asked, with the stored username on offer.
pub fn ensure_user_credentials(stored: StoredCredentials) -> (r: LoginStep)
    ensures
        match stored {
            StoredCredentials::Complete(credentials) => r == LoginStep::Use(credentials),
            StoredCredentials::Incomplete(username) => r == LoginStep::Ask(username),
        },
{
    match stored {
        StoredCredentials::Complete(credentials) => LoginStep::Use(credentials),
        StoredCredentials::Incomplete(username) => LoginStep::Ask(username),
    }
}

/// The username to log in with when the user typed `reply` and `existing` was on offer:
/// what was typed, or what was on offer if nothing was typed. `None` if nothing was typed
/// and nothing was on offer: the user is to be asked again.
pub fn choose_username(reply: String, existing: Option<ServiceUsername>) -> (r: Option<
    ServiceUsername,
>)
    ensures
        reply@.len() > 0 ==> (r matches Some(username) && username@ == reply@),
        reply@.len() == 0 ==> r == existing,
{
    if !reply.as_str().is_empty() {
        Some(ServiceUsername(reply))
    } else {
        existing
    }
}

/// Decides what to do with what the portal said to a login as `username`: credentials are
/// saved; a refusal makes the user be asked again, with that username on offer; any other
/// failure is handed on.
pub fn after_login(username: ServiceUsername, result: Result<UserCredentials, ErrorKind>) -> (r:
    LoginStep)
    ensures
        match result {
            Ok(credentials) => r == LoginStep::Save(credentials),
            Err(ErrorKind::LoginFailure(_)) => r == LoginStep::Ask(Some(username)),
            Err(e) => r == LoginStep::Fail(e),
        },
{
    match result {
        Ok(credentials) => LoginStep::Save(credentials),
        Err(ErrorKind::LoginFailure(_)) => LoginStep::Ask(Some(username)),
        Err(e) => LoginStep::Fail(e),
    }
}

/// What the answer `choice` to "Continue? [y/n]" says once the white space around it is
/// dropped: `y` or `Y` says yes, `n` or `N` says no, and anything else says nothing.
pub open spec fn continue_choice(choice: Seq<char>) -> Option<bool> {
    let answer = trimmed(choice);
    if answer == seq!['y'] || answer == seq!['Y'] {
        Some(true)
    } else if answer == seq!['n'] || answer == seq!['N'] {
        Some(false)
    } else {
        None
    }
}

/// Decides whether the answer to "Continue? [y/n]" settles the question, and how. `None`
/// if it does not: the user is to be asked again.
pub fn prompt_continue(choice: &str) -> (r: Option<bool>)
    ensures
        r == continue_choice(choice@),
{
    let chars = chars_of(choice);
    let end = trim_end(&chars);
    let kept = sub_chars(&chars, 0, end);
    let start = skip_spaces_from(&kept, 0);
    proof {
        assert(kept@.subrange(0, kept.len() as int) =~= kept@);
        let answer = trimmed(choice@);
        if answer.len() == 1 {
            assert(answer =~= seq![answer[0]]);
        }
    }
    if kept.len() - start != 1 {
        return None;
    }
    let c = kept[start];
    if c == 'y' || c == 'Y' {
        Some(true)
    } else if c == 'n' || c == 'N' {
        Some(false)
    } else {
        None
    }
}

} // verus!
