//! Searching the portal: what a search answers, and the walk through the pages of an
//! answer. Fetching a page is left to the caller.

use vstd::prelude::*;
use crate::release::ModRelease;
use crate::types::{AuthorName, ModName, ModTitle, Url};
use crate::version::ModVersionReq;
use crate::web::{is_not_found, ErrorKind};

verus! {

/// A mod as a search lists it.
#[derive(Debug)]
pub struct SearchResponseMod {
    /// The number of the mod at the portal.
    pub id: u64,
    /// The name of the mod.
    pub name: ModName,
    /// The authors of the mod.
    pub owner: Vec<AuthorName>,
    /// The title of the mod.
    pub title: ModTitle,
    /// A short summary of the mod.
    pub summary: String,
    /// The address of the repository of the mod.
    pub github_path: Url,
    /// The address of the homepage of the mod.
    pub homepage: Url,
    /// The name of the licence of the mod.
    pub license_name: String,
    /// The address of the licence of the mod.
    pub license_url: Url,
    /// The versions of the game that the mod works with.
    pub game_versions: Vec<ModVersionReq>,
    /// When the mod was created.
    pub created_at: String,
    /// When the mod was last updated.
    pub updated_at: String,
    /// The latest release of the mod.
    pub latest_release: ModRelease,
    /// How often the mod was downloaded.
    pub downloads_count: u64,
    /// The tags of the mod.
    pub tags: Vec<String>,
}

/// One page of the answer to a search.
#[derive(Debug)]
pub struct SearchPage<T> {
    /// What the page lists.
    pub results: Vec<T>,
    /// The address of the next page, if there is one.
    pub next: Option<String>,
}

/// Where the walk through the pages of an answer stands.
#[derive(Debug)]
pub enum SearchResultsStreamState<T> {
    /// The page at the address is to be fetched.
    FetchPage(String),
    /// A page is being fetched.
    WaitingForPage,
    /// What is left of the page that was fetched last.
    HavePage(SearchPage<T>),
    /// Nothing more comes.
    Ended,
}

/// What the caller of a walk is to do next.
#[derive(Debug)]
pub enum SearchStep<T> {
    /// Fetch the page at the address and hand in what comes.
    Fetch(String),
    /// Wait for the page that is being fetched.
    Wait,
    /// Take the next result.
    Item(T),
    /// The results are exhausted.
    Done,
    /// The search failed.
    Failed(ErrorKind),
}

/// The walk through the results of a search, page by page.
#[derive(Debug)]
pub struct SearchResultsStream<T> {
    state: SearchResultsStreamState<T>,
}

/// Starts the walk through the results of the search at the address `url`.
pub fn search<T>(url: String) -> (r: SearchResultsStream<T>)
    ensures
        r.state() matches SearchResultsStreamState::FetchPage(u) && u@ == url@,
{
    SearchResultsStream { state: SearchResultsStreamState::FetchPage(url) }
}

impl<T> SearchResultsStream<T> {
    /// Where the walk stands.
    pub closed spec fn state(&self) -> SearchResultsStreamState<T> {
        self.state
    }

    /// Whether the walk stands at a page with the results `results` left and the address
    /// `next` of the page after it.
    pub open spec fn has_page(&self, results: Seq<T>, next: Option<String>) -> bool {
        self.state() matches SearchResultsStreamState::HavePage(page) && page.results@ == results
            && crate::dependency::optional_text(page.next) == crate::dependency::optional_text(
            next,
        )
    }

    /// Whether the walk, standing at a page with the results `results` left and the address
    /// `next` of the page after it, goes on with the step `step`: with the first result if
    /// there is one, else with fetching the next page if there is one, else with the end.
    pub open spec fn goes_on(&self, results: Seq<T>, next: Option<String>, step: SearchStep<T>)
        -> bool {
        if results.len() > 0 {
            &&& step matches SearchStep::Item(item) && item == results[0]
            &&& self.has_page(results.drop_first(), next)
        } else {
            match next {
                Some(address) => {
                    &&& step matches SearchStep::Fetch(u) && u@ == address@
                    &&& self.state() is WaitingForPage
                },
                None => step is Done && self.state() is Ended,
            }
        }
    }

    /// Moves the walk on and says what the caller is to do next. `arrived` is what came of
    /// the page that is being fetched, if anything came since the last step.
    ///
    /// A page that is to be fetched is handed to the caller to fetch. While a page is being
    /// fetched and nothing came, the caller is to wait. A page that came is walked through
    /// result by result, and then the next page is to be fetched, or the walk ends if there
    /// is none. A page that the portal does not know ends the walk. Any other failure ends
    /// the walk and is handed on.
    pub fn poll(&mut self, arrived: Option<Result<SearchPage<T>, ErrorKind>>) -> (r: SearchStep<T>)
        ensures
            match old(self).state() {
                SearchResultsStreamState::FetchPage(url) => {
                    &&& r matches SearchStep::Fetch(u) && u@ == url@
                    &&& final(self).state() is WaitingForPage
                },
                SearchResultsStreamState::WaitingForPage => match arrived {
                    None => r is Wait && final(self).state() is WaitingForPage,
                    Some(Ok(page)) => final(self).goes_on(page.results@, page.next, r),
                    Some(Err(e)) => {
                        &&& final(self).state() is Ended
                        &&& if is_not_found(e) {
                            r is Done
                        } else {
                            r matches SearchStep::Failed(f) && f == e
                        }
                    },
                },
                SearchResultsStreamState::HavePage(page) => final(self).goes_on(
                    page.results@,
                    page.next,
                    r,
                ),
                SearchResultsStreamState::Ended => r is Done && final(self).state() is Ended,
            },
    {
        let mut state = SearchResultsStreamState::Ended;
        std::mem::swap(&mut self.state, &mut state);
        let page = match state {
            SearchResultsStreamState::FetchPage(url) => {
                self.state = SearchResultsStreamState::WaitingForPage;
                return SearchStep::Fetch(url);
            },
            SearchResultsStreamState::WaitingForPage => match arrived {
                None => {
                    self.state = SearchResultsStreamState::WaitingForPage;
                    return SearchStep::Wait;
                },
                Some(Ok(page)) => page,
                Some(Err(e)) => {
                    if e.not_found() {
                        return SearchStep::Done;
                    }
                    return SearchStep::Failed(e);
                },
            },
            SearchResultsStreamState::HavePage(page) => page,
            SearchResultsStreamState::Ended => {
                return SearchStep::Done;
            },
        };
        let mut page = page;
        if page.results.len() == 0 {
            match page.next {
                Some(address) => {
                    self.state = SearchResultsStreamState::WaitingForPage;
                    SearchStep::Fetch(address)
                },
                None => SearchStep::Done,
            }
        } else {
            let item = page.results.remove(0);
            self.state = SearchResultsStreamState::HavePage(page);
            SearchStep::Item(item)
        }
    }
}

} // verus!
