//! Requests to the portal and the judgement of its responses. The requests are described
//! here; sending them is left to the caller, who hands back what came.

use vstd::prelude::*;
use crate::release::{ModRelease, ModReleaseView};
use crate::text::{chars_of, skip_spaces_from, string_of, sub_chars, trim_end, trimmed};
use crate::version::decimal;
use crate::web::{number_text, ErrorKind};

verus! {

/// The method of a request.
#[derive(Clone, Copy, Debug, PartialEq, Eq, Structural)]
pub enum Method {
    Get,
    Post,
}

/// A request to the portal.
#[derive(Debug)]
pub struct Request {
    /// The method.
    pub method: Method,
    /// The address.
    pub url: String,
    /// The media type that the response is to have, if the request names one.
    pub accept: Option<String>,
    /// The media type of the body, if there is a body.
    pub content_type: Option<String>,
    /// The body.
    pub body: Option<String>,
    /// The name of the program that sends the request, once a client has put it in.
    pub user_agent: Option<String>,
}

/// A request as a plain value.
pub struct RequestView {
    pub method: Method,
    pub url: Seq<char>,
    pub accept: Option<Seq<char>>,
    pub content_type: Option<Seq<char>>,
    pub body: Option<Seq<char>>,
    pub user_agent: Option<Seq<char>>,
}

/// The text in an optional string.
pub open spec fn text_of(s: Option<String>) -> Option<Seq<char>> {
    match s {
        Some(t) => Some(t@),
        None => None,
    }
}

impl View for Request {
    type V = RequestView;

    open spec fn view(&self) -> RequestView {
        RequestView {
            method: self.method,
            url: self.url@,
            accept: text_of(self.accept),
            content_type: text_of(self.content_type),
            body: text_of(self.body),
            user_agent: text_of(self.user_agent),
        }
    }
}

/// The media type of JSON.
pub open spec fn json_type() -> Seq<char> {
    "application/json"@
}

/// The media type of archives.
pub open spec fn zip_type() -> Seq<char> {
    "application/zip"@
}

/// The media type of form bodies.
pub open spec fn form_type() -> Seq<char> {
    "application/x-www-form-urlencoded"@
}

/// The request that gets what is at `url`.
pub fn get(url: String) -> (r: Request)
    ensures
        r@ == (RequestView {
            method: Method::Get,
            url: url@,
            accept: None,
            content_type: None,
            body: None,
            user_agent: None,
        }),
{
    Request {
        method: Method::Get,
        url,
        accept: None,
        content_type: None,
        body: None,
        user_agent: None,
    }
}

/// The request that gets the JSON object at `url`.
pub fn get_object(url: String) -> (r: Request)
    ensures
        r@ == (RequestView {
            method: Method::Get,
            url: url@,
            accept: Some(json_type()),
            content_type: None,
            body: None,
            user_agent: None,
        }),
{
    let mut request = get(url);
    request.accept = Some(String::from_str("application/json"));
    request
}

/// The request that gets the archive at `url`.
pub fn get_zip(url: String) -> (r: Request)
    ensures
        r@ == (RequestView {
            method: Method::Get,
            url: url@,
            accept: Some(zip_type()),
            content_type: None,
            body: None,
            user_agent: None,
        }),
{
    let mut request = get(url);
    request.accept = Some(String::from_str("application/zip"));
    request
}

/// The request that posts the form body `body` to `url`.
pub fn post(url: String, body: String) -> (r: Request)
    ensures
        r@ == (RequestView {
            method: Method::Post,
            url: url@,
            accept: None,
            content_type: Some(form_type()),
            body: Some(body@),
            user_agent: None,
        }),
{
    Request {
        method: Method::Post,
        url,
        accept: None,
        content_type: Some(String::from_str("application/x-www-form-urlencoded")),
        body: Some(body),
        user_agent: None,
    }
}

/// The request that posts the form body `body` to `url` and gets a JSON object back.
pub fn post_object(url: String, body: String) -> (r: Request)
    ensures
        r@ == (RequestView {
            method: Method::Post,
            url: url@,
            accept: Some(json_type()),
            content_type: Some(form_type()),
            body: Some(body@),
            user_agent: None,
        }),
{
    let mut request = post(url, body);
    request.accept = Some(String::from_str("application/json"));
    request
}

/// What came back for a request, as far as it is judged here.
#[derive(Debug)]
pub struct Response {
    /// The address that was asked.
    pub url: String,
    /// The status code.
    pub status: u16,
    /// The media type of the body, if the response names one.
    pub content_type: Option<String>,
    /// The length of the body, if the response names one.
    pub content_length: Option<u64>,
    /// The message in the body of a response that refuses the credentials, if the body
    /// holds one.
    pub message: Option<String>,
}

/// The message of a redirect to the login page.
pub open spec fn redirected_message() -> Seq<char> {
    "Redirected to login page."@
}

/// What is made of a response.
pub enum Verdict {
    /// It passes.
    Pass,
    /// The portal refused the credentials, with the message.
    Refused(Seq<char>),
    /// The body of the response from the address is no valid JSON.
    BadJson(Seq<char>),
    /// The request to the address was answered with the status code.
    Status(Seq<char>, u16),
    /// The response from the address is malformed, for the reason.
    Malformed(Seq<char>, Seq<char>),
    /// The request to the address was redirected.
    Redirected(Seq<char>),
}

/// Whether the outcome `r` of judging `response` is what the verdict says: the response
/// itself where it passes, and else the error of the verdict.
pub open spec fn agrees(r: Result<Response, ErrorKind>, response: Response, verdict: Verdict)
    -> bool {
    match verdict {
        Verdict::Pass => r == Ok::<Response, ErrorKind>(response),
        Verdict::Refused(message) => r matches Err(ErrorKind::LoginFailure(m)) && m@ == message,
        Verdict::BadJson(url) => r matches Err(ErrorKind::JSON(u)) && u@ == url,
        Verdict::Status(url, status) => r matches Err(ErrorKind::StatusCode(u, code)) && u@ == url
            && code == status,
        Verdict::Malformed(url, reason) => r matches Err(ErrorKind::MalformedResponse(u, why))
            && u@ == url && why@ == reason,
        Verdict::Redirected(url) => r matches Err(ErrorKind::UnexpectedRedirect(u)) && u@ == url,
    }
}

/// What the status of a response says: 200 passes; 401 is a refused login, with the
/// message in the body, or malformed JSON where the body holds none; 302 is a refused
/// login, for it leads to the login page; any other status fails as such.
pub open spec fn status_verdict(response: Response) -> Verdict {
    if response.status == 200 {
        Verdict::Pass
    } else if response.status == 401 {
        match response.message {
            Some(message) => Verdict::Refused(message@),
            None => Verdict::BadJson(response.url@),
        }
    } else if response.status == 302 {
        Verdict::Refused(redirected_message())
    } else {
        Verdict::Status(response.url@, response.status)
    }
}

/// What the media type of a response says when `expected` is expected: that type passes,
/// and any other, or none, is malformed.
pub open spec fn type_verdict(response: Response, expected: Seq<char>) -> Verdict {
    match response.content_type {
        Some(found) => if found@ == expected {
            Verdict::Pass
        } else {
            Verdict::Malformed(response.url@, unexpected_content_type(found@))
        },
        None => Verdict::Malformed(response.url@, no_content_type()),
    }
}

/// What the status of a response says to a client, which follows no redirect: 302 is an
/// unexpected redirect, and any other status says what it says otherwise.
pub open spec fn client_verdict(response: Response) -> Verdict {
    if response.status == 302 {
        Verdict::Redirected(response.url@)
    } else {
        status_verdict(response)
    }
}

/// Judges a response by its status.
pub fn check_status(response: Response) -> (r: Result<Response, ErrorKind>)
    ensures
        agrees(r, response, status_verdict(response)),
{
    if response.status == 200 {
        Ok(response)
    } else if response.status == 401 {
        match response.message {
            Some(message) => Err(ErrorKind::LoginFailure(message)),
            None => Err(ErrorKind::JSON(response.url)),
        }
    } else if response.status == 302 {
        Err(ErrorKind::LoginFailure(String::from_str("Redirected to login page.")))
    } else {
        Err(ErrorKind::StatusCode(response.url, response.status))
    }
}

/// What stands in `s` before its first semicolon.
pub open spec fn before_semicolon(s: Seq<char>) -> Seq<char>
    decreases s.len(),
{
    if s.len() == 0 || s[0] == ';' {
        Seq::empty()
    } else {
        seq![s[0]] + before_semicolon(s.drop_first())
    }
}

/// The media type that the header value `s` names: what stands before its parameters,
/// without the white space around it.
pub open spec fn media_type_of(s: Seq<char>) -> Seq<char> {
    trimmed(before_semicolon(s))
}

/// The media type that a `Content-Type` header names, without its parameters.
pub fn media_type(header: &str) -> (r: String)
    ensures
        r@ == media_type_of(header@),
{
    let chars = chars_of(header);
    let mut end: usize = 0;
    proof {
        assert(chars@.subrange(0, chars.len() as int) =~= chars@);
        assert(chars@.subrange(0, 0) =~= Seq::<char>::empty());
    }
    while end < chars.len() && chars[end] != ';'
        invariant
            end <= chars.len(),
            before_semicolon(chars@) == chars@.subrange(0, end as int) + before_semicolon(
                chars@.subrange(end as int, chars.len() as int),
            ),
        decreases chars.len() - end,
    {
        proof {
            let rest = chars@.subrange(end as int, chars.len() as int);
            assert(rest[0] == chars@[end as int]);
            assert(rest.drop_first() =~= chars@.subrange(end + 1, chars.len() as int));
            assert(chars@.subrange(0, end + 1) =~= chars@.subrange(0, end as int) + seq![rest[0]]);
            assert(chars@.subrange(0, end as int) + (seq![rest[0]] + before_semicolon(
                rest.drop_first(),
            )) =~= chars@.subrange(0, end + 1) + before_semicolon(rest.drop_first()));
        }
        end += 1;
    }
    proof {
        let rest = chars@.subrange(end as int, chars.len() as int);
        if end < chars.len() {
            assert(rest[0] == chars@[end as int]);
        }
        assert(before_semicolon(rest) =~= Seq::<char>::empty());
        assert(before_semicolon(chars@) =~= chars@.subrange(0, end as int));
    }
    let named = sub_chars(&chars, 0, end);
    let kept = sub_chars(&named, 0, trim_end(&named));
    let start = skip_spaces_from(&kept, 0);
    proof {
        assert(kept@.subrange(0, kept.len() as int) =~= kept@);
    }
    string_of(&sub_chars(&kept, start, kept.len()))
}

/// Tests whether `a` and `b` hold the same text.
pub fn same_text(a: &str, b: &str) -> (r: bool)
    ensures
        r == (a@ == b@),
{
    String::from_str(a) == String::from_str(b)
}

/// The reason given for a response without a media type.
pub open spec fn no_content_type() -> Seq<char> {
    "No Content-Type header"@
}

/// The reason given for a response of another media type than expected.
pub open spec fn unexpected_content_type(found: Seq<char>) -> Seq<char> {
    "Unexpected Content-Type header: "@ + found
}

/// Judges a response by the media type of its body, where `expected` is expected.
pub fn expect_content_type(response: Response, expected: &str) -> (r: Result<Response, ErrorKind>)
    ensures
        agrees(r, response, type_verdict(response, expected@)),
{
    let matches = match &response.content_type {
        Some(found) => Some(same_text(found.as_str(), expected)),
        None => None,
    };
    match matches {
        Some(true) => Ok(response),
        Some(false) => {
            let mut reason = String::from_str("Unexpected Content-Type header: ");
            match &response.content_type {
                Some(found) => {
                    reason.append(found.as_str());
                },
                None => {},
            }
            Err(ErrorKind::MalformedResponse(response.url, reason))
        },
        None => Err(
            ErrorKind::MalformedResponse(response.url, String::from_str("No Content-Type header")),
        ),
    }
}

/// The reason given for a download without a length.
pub open spec fn no_content_length() -> Seq<char> {
    "No Content-Length header"@
}

/// The reason given for a download of another length than the release has.
pub open spec fn wrong_size(found: u64, expected: u64) -> Seq<char> {
    "Mod file has incorrect size "@ + decimal(found as nat) + " bytes, expected "@ + decimal(
        expected as nat,
    ) + " bytes."@
}

/// What the length of a response says when it answers the download of `release`: the
/// length of the archive of the release passes, and any other, or none, is malformed.
pub open spec fn length_verdict(release: ModReleaseView, response: Response) -> Verdict {
    match response.content_length {
        Some(found) => if found == release.file_size {
            Verdict::Pass
        } else {
            Verdict::Malformed(response.url@, wrong_size(found, release.file_size))
        },
        None => Verdict::Malformed(response.url@, no_content_length()),
    }
}

/// Judges the response to the download of `release` by the length of its body.
pub fn check_download(release: &ModRelease, response: Response) -> (r: Result<Response, ErrorKind>)
    ensures
        agrees(r, response, length_verdict(release@, response)),
{
    match response.content_length {
        None => Err(
            ErrorKind::MalformedResponse(
                response.url,
                String::from_str("No Content-Length header"),
            ),
        ),
        Some(found) => {
            if found == release.file_size {
                Ok(response)
            } else {
                let mut reason = String::from_str("Mod file has incorrect size ");
                reason.append(number_text(found).as_str());
                reason.append(" bytes, expected ");
                reason.append(number_text(release.file_size).as_str());
                reason.append(" bytes.");
                Err(ErrorKind::MalformedResponse(response.url, reason))
            }
        },
    }
}

/// The sender of requests: it signs each request with the name of the program, and judges
/// what comes back.
#[derive(Debug)]
pub struct Client {
    user_agent: String,
}

impl Client {
    /// The name that the client signs requests with.
    pub closed spec fn user_agent(&self) -> Seq<char> {
        self.user_agent@
    }

    /// A client that signs requests with `user_agent`.
    pub fn new(user_agent: String) -> (r: Client)
        ensures
            r.user_agent() == user_agent@,
    {
        Client { user_agent }
    }

    /// Signs `request`: puts the name of the program in, and changes nothing else.
    pub fn send(&self, request: Request) -> (r: Request)
        ensures
            r@ == (RequestView { user_agent: Some(self.user_agent()), ..request@ }),
    {
        let mut request = request;
        request.user_agent = Some(self.user_agent.clone());
        request
    }

    /// Judges a response by its status, as a client that follows no redirect does.
    pub fn receive(&self, response: Response) -> (r: Result<Response, ErrorKind>)
        ensures
            agrees(r, response, client_verdict(response)),
    {
        if response.status == 302 {
            Err(ErrorKind::UnexpectedRedirect(response.url))
        } else {
            check_status(response)
        }
    }

    /// Judges the response to a request for a JSON object: by its status first, then by
    /// the media type of its body.
    pub fn json(&self, response: Response) -> (r: Result<Response, ErrorKind>)
        ensures
            agrees(
                r,
                response,
                if client_verdict(response) is Pass {
                    type_verdict(response, json_type())
                } else {
                    client_verdict(response)
                },
            ),
    {
        match self.receive(response) {
            Ok(response) => expect_content_type(response, "application/json"),
            Err(e) => Err(e),
        }
    }

    /// Judges the response to a request for an archive: by its status first, then by the
    /// media type of its body.
    pub fn zip(&self, response: Response) -> (r: Result<Response, ErrorKind>)
        ensures
            agrees(
                r,
                response,
                if client_verdict(response) is Pass {
                    type_verdict(response, zip_type())
                } else {
                    client_verdict(response)
                },
            ),
    {
        match self.receive(response) {
            Ok(response) => expect_content_type(response, "application/zip"),
            Err(e) => Err(e),
        }
    }
}

} // verus!
