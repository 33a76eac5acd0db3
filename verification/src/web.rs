//! What is said to the portal and what is made of its answers: the addresses of requests,
//! and how responses are judged. Sending and receiving is left to the caller.

use vstd::prelude::*;
use crate::release::ModRelease;
use crate::text::string_of;
use crate::types::{ModName, ServiceUsername, UserCredentials};
use crate::version::{decimal, push_decimal};

verus! {

/// The order in which a search lists mods.
#[derive(Clone, Copy, Debug, PartialEq, Eq, Structural)]
pub enum SearchOrder {
    /// A to Z.
    Alphabetically,
    /// Most to least downloaded.
    MostDownloaded,
    /// Newest to oldest.
    RecentlyUpdated,
}

/// The word for a search order in the query string of a search.
pub open spec fn order_word(order: SearchOrder) -> Seq<char> {
    match order {
        SearchOrder::Alphabetically => seq!['a', 'l', 'p', 'h', 'a'],
        SearchOrder::MostDownloaded => seq!['t', 'o', 'p'],
        SearchOrder::RecentlyUpdated => seq!['u', 'p', 'd', 'a', 't', 'e', 'd'],
    }
}

impl SearchOrder {
    /// Converts the order to the word that the query string of a search uses for it.
    pub fn to_query_parameter(&self) -> (r: &'static str)
        ensures
            r@ == order_word(*self),
    {
        proof {
            reveal_strlit("alpha");
            reveal_strlit("top");
            reveal_strlit("updated");
        }
        match self {
            SearchOrder::Alphabetically => {
                "alpha"
            },
            SearchOrder::MostDownloaded => {
                "top"
            },
            SearchOrder::RecentlyUpdated => {
                "updated"
            },
        }
    }
}

/// The number of one page of a search response.
#[derive(Clone, Copy, Debug, PartialEq, Eq, Structural, PartialOrd, Ord, Hash)]
pub struct PageNumber(pub u64);

/// The number of a response within a page of a search response.
#[derive(Clone, Copy, Debug, PartialEq, Eq, Structural, PartialOrd, Ord, Hash)]
pub struct ResponseNumber(pub u64);

/// The ways in which talking to the portal fails.
#[derive(Debug)]
pub enum ErrorKind {
    /// A generic message.
    Msg(String),
    /// The form body for the address could not be made.
    Form(String),
    /// The request to the address could not be performed.
    HTTP(String),
    /// The response from the address is no valid JSON.
    JSON(String),
    /// The text is no address.
    Parse(String),
    /// The request to the address was answered with the status code.
    StatusCode(String, u16),
    /// The portal refused the credentials, with the message.
    LoginFailure(String),
    /// The response from the address is malformed, for the reason.
    MalformedResponse(String, String),
    /// The request to the address was redirected to another host.
    UnexpectedRedirect(String),
}

/// Whether the error says that the portal does not know what was asked for.
pub open spec fn is_not_found(e: ErrorKind) -> bool {
    e matches ErrorKind::StatusCode(_, code) && code == 404
}

/// What the error `e` says, in words.
pub open spec fn description(e: ErrorKind) -> Seq<char> {
    match e {
        ErrorKind::Msg(message) => message@,
        ErrorKind::Form(url) => "Could not serialize the form body for the URL "@ + url@,
        ErrorKind::HTTP(url) => "Could not fetch URL "@ + url@,
        ErrorKind::JSON(url) => "Could not parse response from "@ + url@ + " as valid JSON"@,
        ErrorKind::Parse(text) => "Could not parse URL "@ + text@,
        ErrorKind::StatusCode(url, code) => "Request to URL "@ + url@ + " returned "@ + decimal(
            code as nat,
        ),
        ErrorKind::LoginFailure(message) => "Login failed: "@ + message@,
        ErrorKind::MalformedResponse(url, reason) => "Request to URL "@ + url@
            + " was malformed: "@ + reason@,
        ErrorKind::UnexpectedRedirect(url) => "Unexpected redirect to "@ + url@,
    }
}

impl ErrorKind {
    /// Tests whether the error says that the portal does not know what was asked for.
    pub fn not_found(&self) -> (r: bool)
        ensures
            r == is_not_found(*self),
    {
        match self {
            ErrorKind::StatusCode(_, code) => *code == 404,
            _ => false,
        }
    }

    /// What the error says, in words.
    pub fn to_string(&self) -> (r: String)
        ensures
            r@ == description(*self),
    {
        match self {
            ErrorKind::Msg(message) => message.clone(),
            ErrorKind::Form(url) => {
                let mut out = String::from_str("Could not serialize the form body for the URL ");
                out.append(url.as_str());
                out
            },
            ErrorKind::HTTP(url) => {
                let mut out = String::from_str("Could not fetch URL ");
                out.append(url.as_str());
                out
            },
            ErrorKind::JSON(url) => {
                let mut out = String::from_str("Could not parse response from ");
                out.append(url.as_str());
                out.append(" as valid JSON");
                out
            },
            ErrorKind::Parse(text) => {
                let mut out = String::from_str("Could not parse URL ");
                out.append(text.as_str());
                out
            },
            ErrorKind::StatusCode(url, code) => {
                let mut out = String::from_str("Request to URL ");
                out.append(url.as_str());
                out.append(" returned ");
                out.append(number_text(*code as u64).as_str());
                out
            },
            ErrorKind::LoginFailure(message) => {
                let mut out = String::from_str("Login failed: ");
                out.append(message.as_str());
                out
            },
            ErrorKind::MalformedResponse(url, reason) => {
                let mut out = String::from_str("Request to URL ");
                out.append(url.as_str());
                out.append(" was malformed: ");
                out.append(reason.as_str());
                out
            },
            ErrorKind::UnexpectedRedirect(url) => {
                let mut out = String::from_str("Unexpected redirect to ");
                out.append(url.as_str());
                out
            },
        }
    }
}

/// The most characters that an address, or what is added to one, may have.
pub const MAX_ADDRESS_CHARS: usize = 1048576;

/// How many characters the names and values of `pairs` have together.
pub open spec fn pairs_chars(pairs: Seq<(Seq<char>, Seq<char>)>) -> nat
    decreases pairs.len(),
{
    if pairs.len() == 0 {
        0
    } else {
        pairs_chars(pairs.drop_last()) + pairs.last().0.len() + pairs.last().1.len()
    }
}

/// The names and values in `pairs` as plain values.
pub open spec fn pair_views(pairs: Seq<(String, String)>) -> Seq<(Seq<char>, Seq<char>)> {
    Seq::new(pairs.len(), |i: int| (pairs[i].0@, pairs[i].1@))
}

/// The address `url` with the names and values `pairs` added to its query string;
/// nothing if `url` is no address.
pub uninterp spec fn url_with_query(url: Seq<char>, pairs: Seq<(Seq<char>, Seq<char>)>) -> Option<
    Seq<char>,
>;

/// The address `url` with `segment` added to its path as one more segment; nothing if `url`
/// is no address or one that has no path.
pub uninterp spec fn url_with_segment(url: Seq<char>, segment: Seq<char>) -> Option<Seq<char>>;

/// The address that `reference` stands for relative to the address `base`; nothing if
/// there is none.
pub uninterp spec fn url_joined(base: Seq<char>, reference: Seq<char>) -> Option<Seq<char>>;

/// Adds names and values to the query string of an address.
///
/// Trusted: `Url::parse` reads the address, `Url::query_pairs_mut` and `append_pair` add
/// each pair in the encoding of forms, and `String::from` gives the text of the result. The
/// result is a function of the address and the pairs. The crate panics on addresses beyond
/// four gigabytes, which the bounds keep far away.
#[verifier::external_body]
fn url_append_query(url: &str, pairs: &Vec<(String, String)>) -> (r: Option<String>)
    requires
        url@.len() <= MAX_ADDRESS_CHARS,
        pairs_chars(pair_views(pairs@)) <= MAX_ADDRESS_CHARS,
    ensures
        crate::dependency::optional_text(r) == url_with_query(url@, pair_views(pairs@)),
{
    let mut address = url::Url::parse(url).ok()?;
    for (name, value) in pairs {
        address.query_pairs_mut().append_pair(name, value);
    }
    Some(String::from(address))
}

/// Adds a segment to the path of an address.
///
/// Trusted: `Url::parse` reads the address and `Url::path_segments_mut` and `push` add
/// the segment, encoded as a path needs it. The result is a function of the address and
/// the segment.
#[verifier::external_body]
fn url_push_segment(url: &str, segment: &str) -> (r: Option<String>)
    requires
        url@.len() <= MAX_ADDRESS_CHARS,
        segment@.len() <= MAX_ADDRESS_CHARS,
    ensures
        crate::dependency::optional_text(r) == url_with_segment(url@, segment@),
{
    let mut address = url::Url::parse(url).ok()?;
    address.path_segments_mut().ok()?.push(segment);
    Some(String::from(address))
}

/// Resolves a reference against a base address.
///
/// Trusted: `Url::parse` reads the base and `Url::join` resolves the reference against
/// it. The result is a function of the two.
#[verifier::external_body]
fn url_join(base: &str, reference: &str) -> (r: Option<String>)
    requires
        base@.len() <= MAX_ADDRESS_CHARS,
        reference@.len() <= MAX_ADDRESS_CHARS,
    ensures
        crate::dependency::optional_text(r) == url_joined(base@, reference@),
{
    let address = url::Url::parse(base).ok()?;
    Some(String::from(address.join(reference).ok()?))
}

/// The texts in `parts`, with `separator` between each two.
pub open spec fn joined(parts: Seq<Seq<char>>, separator: Seq<char>) -> Seq<char>
    decreases parts.len(),
{
    if parts.len() == 0 {
        Seq::empty()
    } else if parts.len() == 1 {
        parts[0]
    } else {
        joined(parts.drop_last(), separator) + separator + parts.last()
    }
}

/// The texts in `parts` as plain values.
pub open spec fn text_views(parts: Seq<String>) -> Seq<Seq<char>> {
    Seq::new(parts.len(), |i: int| parts[i]@)
}

/// Joins `parts` into one text, with `separator` between each two.
pub fn join(parts: &Vec<String>, separator: &str) -> (r: String)
    ensures
        r@ == joined(text_views(parts@), separator@),
{
    let mut out = String::new();
    let mut i: usize = 0;
    while i < parts.len()
        invariant
            i <= parts.len(),
            out@ == joined(text_views(parts@).subrange(0, i as int), separator@),
        decreases parts.len() - i,
    {
        let ghost before = text_views(parts@).subrange(0, i as int);
        let ghost now = text_views(parts@).subrange(0, i + 1);
        proof {
            assert(now.drop_last() =~= before);
        }
        if i > 0 {
            out.append(separator);
        }
        out.append(parts[i].as_str());
        i += 1;
    }
    proof {
        assert(text_views(parts@).subrange(0, parts.len() as int) =~= text_views(parts@));
    }
    out
}

/// The decimal numeral of `n`.
pub fn number_text(n: u64) -> (r: String)
    ensures
        r@ == decimal(n as nat),
{
    let mut out: Vec<char> = Vec::new();
    push_decimal(n, &mut out);
    string_of(&out)
}

/// The names and values of a search: the text searched for, the tags, joined by commas,
/// the order, the size of a page and the number of the page. A search that names no order
/// lists the most downloaded mods first; one that names no page size gets 25 to a page;
/// one that names no page gets the first.
pub open spec fn search_pairs(
    query: Seq<char>,
    tags: Seq<Seq<char>>,
    order: Option<SearchOrder>,
    page_size: Option<ResponseNumber>,
    page: Option<PageNumber>,
) -> Seq<(Seq<char>, Seq<char>)> {
    seq![
        (seq!['q'], query),
        (seq!['t', 'a', 'g', 's'], joined(tags, seq![','])),
        (
            seq!['o', 'r', 'd', 'e', 'r'],
            order_word(
                match order {
                    Some(o) => o,
                    None => SearchOrder::MostDownloaded,
                },
            ),
        ),
        (
            seq!['p', 'a', 'g', 'e', '_', 's', 'i', 'z', 'e'],
            decimal(
                match page_size {
                    Some(n) => n.0 as nat,
                    None => 25,
                },
            ),
        ),
        (
            seq!['p', 'a', 'g', 'e'],
            decimal(
                match page {
                    Some(n) => n.0 as nat,
                    None => 1,
                },
            ),
        ),
    ]
}

/// The names and values of a download: the username and the token.
pub open spec fn credential_pairs(username: Seq<char>, token: Seq<char>) -> Seq<
    (Seq<char>, Seq<char>),
> {
    seq![
        (seq!['u', 's', 'e', 'r', 'n', 'a', 'm', 'e'], username),
        (seq!['t', 'o', 'k', 'e', 'n'], token),
    ]
}

/// The names and values of a login: the username and the password.
pub open spec fn login_pairs(username: Seq<char>, password: Seq<char>) -> Seq<
    (Seq<char>, Seq<char>),
> {
    seq![
        (seq!['u', 's', 'e', 'r', 'n', 'a', 'm', 'e'], username),
        (seq!['p', 'a', 's', 's', 'w', 'o', 'r', 'd'], password),
    ]
}

/// Tests whether the names and values of `pairs` have no more than `MAX_ADDRESS_CHARS`
/// characters together.
fn pairs_fit(pairs: &Vec<(String, String)>) -> (r: bool)
    ensures
        r == (pairs_chars(pair_views(pairs@)) <= MAX_ADDRESS_CHARS),
{
    let ghost views = pair_views(pairs@);
    let mut total: usize = 0;
    let mut i: usize = 0;
    while i < pairs.len()
        invariant
            i <= pairs.len(),
            views == pair_views(pairs@),
            total == pairs_chars(views.subrange(0, i as int)),
            total <= MAX_ADDRESS_CHARS,
        decreases pairs.len() - i,
    {
        let name_len = pairs[i].0.as_str().unicode_len();
        let value_len = pairs[i].1.as_str().unicode_len();
        proof {
            let now = views.subrange(0, i + 1);
            assert(now.drop_last() =~= views.subrange(0, i as int));
            lemma_pairs_chars_grow(views, i + 1, pairs.len() as int);
            assert(views.subrange(0, pairs.len() as int) =~= views);
        }
        if name_len > MAX_ADDRESS_CHARS || value_len > MAX_ADDRESS_CHARS || total + name_len
            + value_len > MAX_ADDRESS_CHARS {
            return false;
        }
        total = total + name_len + value_len;
        i += 1;
    }
    proof {
        assert(views.subrange(0, pairs.len() as int) =~= views);
    }
    true
}

/// More pairs have no fewer characters.
proof fn lemma_pairs_chars_grow(pairs: Seq<(Seq<char>, Seq<char>)>, i: int, j: int)
    requires
        0 <= i <= j <= pairs.len(),
    ensures
        pairs_chars(pairs.subrange(0, i)) <= pairs_chars(pairs.subrange(0, j)),
    decreases j - i,
{
    if i < j {
        lemma_pairs_chars_grow(pairs, i, j - 1);
        assert(pairs.subrange(0, j).drop_last() =~= pairs.subrange(0, j - 1));
    }
}

/// The entry to the portal: the addresses that requests go to.
#[derive(Debug)]
pub struct API {
    base_url: String,
    mods_url: String,
    login_url: String,
}

/// The address of the portal.
pub open spec fn base_address() -> Seq<char> {
    "https://mods.factorio.com/"@
}

/// The address of the list of mods.
pub open spec fn mods_address() -> Seq<char> {
    "https://mods.factorio.com/api/mods"@
}

/// The address that logins go to.
pub open spec fn login_address() -> Seq<char> {
    "https://auth.factorio.com/api-login"@
}

impl API {
    /// The address of the portal.
    pub closed spec fn base_url(&self) -> Seq<char> {
        self.base_url@
    }

    /// The address of the list of mods.
    pub closed spec fn mods_url(&self) -> Seq<char> {
        self.mods_url@
    }

    /// The address that logins go to.
    pub closed spec fn login_url(&self) -> Seq<char> {
        self.login_url@
    }

    /// Whether the addresses are short enough to be worked with.
    pub open spec fn wf(&self) -> bool {
        &&& self.base_url().len() <= MAX_ADDRESS_CHARS
        &&& self.mods_url().len() <= MAX_ADDRESS_CHARS
        &&& self.login_url().len() <= MAX_ADDRESS_CHARS
    }

    /// The entry to the portal at its usual addresses.
    pub fn new() -> (r: API)
        ensures
            r.wf(),
            r.base_url() == base_address(),
            r.mods_url() == mods_address(),
            r.login_url() == login_address(),
    {
        proof {
            reveal_strlit("https://mods.factorio.com/");
            reveal_strlit("https://mods.factorio.com/api/mods");
            reveal_strlit("https://auth.factorio.com/api-login");
        }
        API {
            base_url: String::from_str("https://mods.factorio.com/"),
            mods_url: String::from_str("https://mods.factorio.com/api/mods"),
            login_url: String::from_str("https://auth.factorio.com/api-login"),
        }
    }

    /// The address that logins go to.
    pub fn login_address(&self) -> (r: &str)
        ensures
            r@ == self.login_url(),
    {
        self.login_url.as_str()
    }

    /// The names and values of the form that logs in with the given username and
    /// password.
    pub fn login_query(username: &ServiceUsername, password: &str) -> (r: Vec<(String, String)>)
        ensures
            pair_views(r@) == login_pairs(username@, password@),
    {
        proof {
            reveal_strlit("username");
            reveal_strlit("password");
        }
        let mut pairs: Vec<(String, String)> = Vec::new();
        pairs.push((String::from_str("username"), username.to_string()));
        pairs.push((String::from_str("password"), String::from_str(password)));
        proof {
            let expected = login_pairs(username@, password@);
            assert(pair_views(pairs@)[0].0 =~= expected[0].0);
            assert(pair_views(pairs@)[1].0 =~= expected[1].0);
        }
        pairs
    }

    /// The names and values of a search for mods that match the given criteria.
    pub fn search_query(
        query: &str,
        tags: &Vec<String>,
        order: Option<SearchOrder>,
        page_size: Option<ResponseNumber>,
        page: Option<PageNumber>,
    ) -> (r: Vec<(String, String)>)
        ensures
            pair_views(r@) == search_pairs(query@, text_views(tags@), order, page_size, page),
    {
        proof {
            reveal_strlit("q");
            reveal_strlit("tags");
            reveal_strlit("order");
            reveal_strlit("page_size");
            reveal_strlit("page");
            reveal_strlit(",");
        }
        let order = match order {
            Some(o) => o,
            None => SearchOrder::MostDownloaded,
        };
        let page_size: u64 = match page_size {
            Some(n) => n.0,
            None => 25,
        };
        let page: u64 = match page {
            Some(n) => n.0,
            None => 1,
        };
        let mut pairs: Vec<(String, String)> = Vec::new();
        pairs.push((String::from_str("q"), String::from_str(query)));
        pairs.push((String::from_str("tags"), join(tags, ",")));
        pairs.push((String::from_str("order"), String::from_str(order.to_query_parameter())));
        pairs.push((String::from_str("page_size"), number_text(page_size)));
        pairs.push((String::from_str("page"), number_text(page)));
        proof {
            assert(","@ =~= seq![',']);
            let expected = search_pairs(query@, text_views(tags@), Some(order), Some(
                ResponseNumber(page_size),
            ), Some(PageNumber(page)));
            assert(pair_views(pairs@)[0].0 =~= expected[0].0);
            assert(pair_views(pairs@)[1].0 =~= expected[1].0);
            assert(pair_views(pairs@)[2].0 =~= expected[2].0);
            assert(pair_views(pairs@)[3].0 =~= expected[3].0);
            assert(pair_views(pairs@)[4].0 =~= expected[4].0);
        }
        pairs
    }

    /// The address of a search for mods that match the given criteria. Fails with `Parse`
    /// where the criteria are too long for an address.
    pub fn search_url(
        &self,
        query: &str,
        tags: &Vec<String>,
        order: Option<SearchOrder>,
        page_size: Option<ResponseNumber>,
        page: Option<PageNumber>,
    ) -> (r: Result<String, ErrorKind>)
        requires
            self.wf(),
        ensures
            ({
                let pairs = search_pairs(query@, text_views(tags@), order, page_size, page);
                match r {
                    Ok(address) => pairs_chars(pairs) <= MAX_ADDRESS_CHARS && url_with_query(
                        self.mods_url(),
                        pairs,
                    ) == Some(address@),
                    Err(ErrorKind::Parse(text)) => text@ == self.mods_url() && (pairs_chars(pairs)
                        > MAX_ADDRESS_CHARS || url_with_query(self.mods_url(), pairs).is_none()),
                    Err(_) => false,
                }
            }),
    {
        let pairs = API::search_query(query, tags, order, page_size, page);
        if !pairs_fit(&pairs) {
            return Err(ErrorKind::Parse(self.mods_url.clone()));
        }
        match url_append_query(self.mods_url.as_str(), &pairs) {
            Some(address) => Ok(address),
            None => Err(ErrorKind::Parse(self.mods_url.clone())),
        }
    }

    /// The address of the description of the mod `mod_name`. Fails with `Parse` where the
    /// name is too long for an address.
    pub fn mod_url(&self, mod_name: &ModName) -> (r: Result<String, ErrorKind>)
        requires
            self.wf(),
        ensures
            match r {
                Ok(address) => mod_name@.len() <= MAX_ADDRESS_CHARS && url_with_segment(
                    self.mods_url(),
                    mod_name@,
                ) == Some(address@),
                Err(ErrorKind::Parse(text)) => text@ == self.mods_url() && (mod_name@.len()
                    > MAX_ADDRESS_CHARS || url_with_segment(self.mods_url(), mod_name@).is_none()),
                Err(_) => false,
            },
    {
        if mod_name.as_str().unicode_len() > MAX_ADDRESS_CHARS {
            return Err(ErrorKind::Parse(self.mods_url.clone()));
        }
        match url_push_segment(self.mods_url.as_str(), mod_name.as_str()) {
            Some(address) => Ok(address),
            None => Err(ErrorKind::Parse(self.mods_url.clone())),
        }
    }

    /// The address from which the archive of `release` is downloaded with the given
    /// credentials: the download address of the release, taken relative to the portal,
    /// with the username and the token in its query string. Fails with `Parse` and the
    /// download address where that is no address.
    pub fn download_url(&self, release: &ModRelease, user_credentials: &UserCredentials) -> (r:
        Result<String, ErrorKind>)
        requires
            self.wf(),
        ensures
            ({
                let pairs = credential_pairs(
                    user_credentials.username@,
                    user_credentials.token@,
                );
                let fits = release@.download_url.len() <= MAX_ADDRESS_CHARS && pairs_chars(pairs)
                    <= MAX_ADDRESS_CHARS;
                let joined = url_joined(self.base_url(), release@.download_url);
                match r {
                    Ok(address) => fits && joined.is_some() && joined.unwrap().len()
                        <= MAX_ADDRESS_CHARS && url_with_query(joined.unwrap(), pairs) == Some(
                        address@,
                    ),
                    Err(ErrorKind::Parse(text)) => text@ == release@.download_url && !(fits
                        && joined.is_some() && joined.unwrap().len() <= MAX_ADDRESS_CHARS
                        && url_with_query(joined.unwrap(), pairs).is_some()),
                    Err(_) => false,
                }
            }),
    {
        proof {
            reveal_strlit("username");
            reveal_strlit("token");
        }
        let reference = release.download_url.as_str();
        let mut pairs: Vec<(String, String)> = Vec::new();
        pairs.push((String::from_str("username"), user_credentials.username.to_string()));
        pairs.push((String::from_str("token"), user_credentials.token.to_string()));
        proof {
            let expected = credential_pairs(user_credentials.username@, user_credentials.token@);
            assert(pair_views(pairs@)[0].0 =~= expected[0].0);
            assert(pair_views(pairs@)[1].0 =~= expected[1].0);
            assert(pair_views(pairs@) =~= expected);
        }
        if reference.unicode_len() > MAX_ADDRESS_CHARS || !pairs_fit(&pairs) {
            return Err(ErrorKind::Parse(String::from_str(reference)));
        }
        let address = match url_join(self.base_url.as_str(), reference) {
            Some(address) => address,
            None => {
                return Err(ErrorKind::Parse(String::from_str(reference)));
            },
        };
        if address.as_str().unicode_len() > MAX_ADDRESS_CHARS {
            return Err(ErrorKind::Parse(String::from_str(reference)));
        }
        match url_append_query(address.as_str(), &pairs) {
            Some(address) => Ok(address),
            None => Err(ErrorKind::Parse(String::from_str(reference))),
        }
    }
}

} // verus!
