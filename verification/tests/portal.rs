use fac::client::{
    check_download, check_status, expect_content_type, get, get_object, get_zip, media_type, post,
    post_object, Client, Method, Response,
};
use fac::closure::{portal_response, PortalResponse};
use fac::login::{
    after_login, choose_username, ensure_user_credentials, prompt_continue, LoginStep,
    StoredCredentials,
};
use fac::release::ModRelease;
use fac::search::{search, SearchPage, SearchStep};
use fac::types::{ModName, ServiceToken, ServiceUsername, Url, UserCredentials};
use fac::version::{parse_version, parse_version_req};
use fac::web::{join, number_text, ErrorKind, PageNumber, ResponseNumber, SearchOrder, API};

fn response(status: u16) -> Response {
    Response {
        url: "https://mods.factorio.com/api/mods".to_string(),
        status,
        content_type: Some("application/json".to_string()),
        content_length: Some(10),
        message: None,
    }
}

fn some_release(download_url: &str, file_size: u64) -> ModRelease {
    ModRelease {
        name: ModName("boblibrary".to_string()),
        version: parse_version("0.15.1").unwrap(),
        factorio_version: parse_version_req("*").unwrap(),
        dependencies: vec![],
        download_url: Url(download_url.to_string()),
        file_name: "boblibrary_0.15.1.zip".to_string(),
        file_size,
    }
}

#[test]
fn search_orders_have_their_words() {
    assert_eq!(SearchOrder::Alphabetically.to_query_parameter(), "alpha");
    assert_eq!(SearchOrder::MostDownloaded.to_query_parameter(), "top");
    assert_eq!(SearchOrder::RecentlyUpdated.to_query_parameter(), "updated");
}

#[test]
fn joining_texts() {
    assert_eq!(join(&vec![], ","), "");
    assert_eq!(join(&vec!["a".to_string()], ","), "a");
    assert_eq!(join(&vec!["a".to_string(), "b".to_string(), "".to_string()], ", "), "a, b, ");
    assert_eq!(number_text(0), "0");
    assert_eq!(number_text(1700), "1700");
    assert_eq!(number_text(u64::MAX), "18446744073709551615");
}

#[test]
fn search_query_has_defaults() {
    let pairs = API::search_query("bob's", &vec![], None, None, None);
    let expected: Vec<(String, String)> = [
        ("q", "bob's"),
        ("tags", ""),
        ("order", "top"),
        ("page_size", "25"),
        ("page", "1"),
    ]
    .iter()
    .map(|(n, v)| (n.to_string(), v.to_string()))
    .collect();
    assert_eq!(pairs, expected);
    let pairs = API::search_query(
        "",
        &vec!["logistics".to_string(), "big".to_string()],
        Some(SearchOrder::Alphabetically),
        Some(ResponseNumber(50)),
        Some(PageNumber(3)),
    );
    assert_eq!(pairs[1].1, "logistics,big");
    assert_eq!(pairs[2].1, "alpha");
    assert_eq!(pairs[3].1, "50");
    assert_eq!(pairs[4].1, "3");
}

#[test]
fn addresses_of_requests() {
    let api = API::new();
    assert_eq!(api.login_address(), "https://auth.factorio.com/api-login");
    assert_eq!(
        api.search_url("bob's functions library mod", &vec!["logistics".to_string()], None, None, None)
            .unwrap(),
        "https://mods.factorio.com/api/mods?q=bob%27s+functions+library+mod&tags=logistics&order=top&page_size=25&page=1"
    );
    assert_eq!(
        api.mod_url(&ModName("boblibrary".to_string())).unwrap(),
        "https://mods.factorio.com/api/mods/boblibrary"
    );
    assert_eq!(
        api.mod_url(&ModName("some name/with?odd".to_string())).unwrap(),
        "https://mods.factorio.com/api/mods/some%20name%2Fwith%3Fodd"
    );
    let credentials = UserCredentials::new(
        ServiceUsername("user name".to_string()),
        ServiceToken("t&k=n".to_string()),
    );
    assert_eq!(
        api.download_url(&some_release("/api/downloads/data/mods/51/boblibrary_0.15.1.zip", 1), &credentials)
            .unwrap(),
        "https://mods.factorio.com/api/downloads/data/mods/51/boblibrary_0.15.1.zip?username=user+name&token=t%26k%3Dn"
    );
    match api.download_url(&some_release("https://[broken", 1), &credentials) {
        Err(ErrorKind::Parse(text)) => assert_eq!(text, "https://[broken"),
        other => panic!("gave {:?}", other),
    }
    let long = "x".repeat(2_000_000);
    match api.mod_url(&ModName(long)) {
        Err(ErrorKind::Parse(text)) => assert_eq!(text, "https://mods.factorio.com/api/mods"),
        other => panic!("gave {:?}", other),
    }
}

#[test]
fn requests_are_described() {
    let r = get("https://x/".to_string());
    assert_eq!((r.method, r.url.as_str(), r.accept, r.content_type, r.body), (Method::Get, "https://x/", None, None, None));
    let r = get_object("https://x/".to_string());
    assert_eq!((r.method, r.accept.as_deref(), r.body), (Method::Get, Some("application/json"), None));
    let r = get_zip("https://x/".to_string());
    assert_eq!((r.method, r.accept.as_deref()), (Method::Get, Some("application/zip")));
    let r = post("https://x/".to_string(), "a=b".to_string());
    assert_eq!(
        (r.method, r.accept, r.content_type.as_deref(), r.body.as_deref()),
        (Method::Post, None, Some("application/x-www-form-urlencoded"), Some("a=b"))
    );
    let r = post_object("https://x/".to_string(), "a=b".to_string());
    assert_eq!(
        (r.method, r.accept.as_deref(), r.content_type.as_deref(), r.body.as_deref(), r.user_agent.as_deref()),
        (Method::Post, Some("application/json"), Some("application/x-www-form-urlencoded"), Some("a=b"), None)
    );
    let client = Client::new("fac/0.1.0".to_string());
    let signed = client.send(r);
    assert_eq!(signed.user_agent.as_deref(), Some("fac/0.1.0"));
    assert_eq!(signed.body.as_deref(), Some("a=b"));
    assert_eq!(signed.method, Method::Post);
}

#[test]
fn responses_are_judged_by_status() {
    assert_eq!(check_status(response(200)).unwrap().status, 200);
    let mut refused = response(401);
    refused.message = Some("Invalid username or password".to_string());
    match check_status(refused) {
        Err(ErrorKind::LoginFailure(message)) => assert_eq!(message, "Invalid username or password"),
        other => panic!("gave {:?}", other),
    }
    match check_status(response(401)) {
        Err(ErrorKind::JSON(url)) => assert_eq!(url, "https://mods.factorio.com/api/mods"),
        other => panic!("gave {:?}", other),
    }
    match check_status(response(302)) {
        Err(ErrorKind::LoginFailure(message)) => assert_eq!(message, "Redirected to login page."),
        other => panic!("gave {:?}", other),
    }
    match check_status(response(404)) {
        Err(ErrorKind::StatusCode(url, code)) => {
            assert_eq!(url, "https://mods.factorio.com/api/mods");
            assert_eq!(code, 404);
        }
        other => panic!("gave {:?}", other),
    }
}

#[test]
fn responses_are_judged_by_media_type() {
    assert!(expect_content_type(response(200), "application/json").is_ok());
    match expect_content_type(response(200), "application/zip") {
        Err(ErrorKind::MalformedResponse(url, reason)) => {
            assert_eq!(url, "https://mods.factorio.com/api/mods");
            assert_eq!(reason, "Unexpected Content-Type header: application/json");
        }
        other => panic!("gave {:?}", other),
    }
    let mut bare = response(200);
    bare.content_type = None;
    match expect_content_type(bare, "application/json") {
        Err(ErrorKind::MalformedResponse(_, reason)) => assert_eq!(reason, "No Content-Type header"),
        other => panic!("gave {:?}", other),
    }
    let client = Client::new("fac".to_string());
    match client.receive(response(302)) {
        Err(ErrorKind::UnexpectedRedirect(url)) => {
            assert_eq!(url, "https://mods.factorio.com/api/mods")
        }
        other => panic!("gave {:?}", other),
    }
    assert!(matches!(client.json(response(302)), Err(ErrorKind::UnexpectedRedirect(_))));
    assert!(matches!(client.receive(response(404)), Err(ErrorKind::StatusCode(_, 404))));
    assert!(client.receive(response(200)).is_ok());
    assert!(client.json(response(200)).is_ok());
    assert!(client.zip(response(200)).is_err());
    assert!(client.json(response(500)).is_err());
}

#[test]
fn downloads_are_judged_by_length() {
    assert!(check_download(&some_release("/d", 10), response(200)).is_ok());
    match check_download(&some_release("/d", 11), response(200)) {
        Err(ErrorKind::MalformedResponse(_, reason)) => {
            assert_eq!(reason, "Mod file has incorrect size 10 bytes, expected 11 bytes.")
        }
        other => panic!("gave {:?}", other),
    }
    let mut bare = response(200);
    bare.content_length = None;
    match check_download(&some_release("/d", 10), bare) {
        Err(ErrorKind::MalformedResponse(_, reason)) => assert_eq!(reason, "No Content-Length header"),
        other => panic!("gave {:?}", other),
    }
}

#[test]
fn login_decisions() {
    let name = |s: &str| ServiceUsername(s.to_string());
    let credentials = UserCredentials::new(name("me"), ServiceToken("token".to_string()));
    match ensure_user_credentials(StoredCredentials::Complete(credentials.clone())) {
        LoginStep::Use(c) => assert_eq!(c.username().as_str(), "me"),
        other => panic!("gave {:?}", other),
    }
    match ensure_user_credentials(StoredCredentials::Incomplete(Some(name("me")))) {
        LoginStep::Ask(Some(offered)) => assert_eq!(offered.as_str(), "me"),
        other => panic!("gave {:?}", other),
    }
    assert!(matches!(
        ensure_user_credentials(StoredCredentials::Incomplete(None)),
        LoginStep::Ask(None)
    ));
    assert_eq!(choose_username("you".to_string(), Some(name("me"))).unwrap().as_str(), "you");
    assert_eq!(choose_username("".to_string(), Some(name("me"))).unwrap().as_str(), "me");
    assert!(choose_username("".to_string(), None).is_none());
    match after_login(name("me"), Ok(credentials)) {
        LoginStep::Save(c) => assert_eq!(c.token().as_str(), "token"),
        other => panic!("gave {:?}", other),
    }
    match after_login(name("me"), Err(ErrorKind::LoginFailure("wrong password".to_string()))) {
        LoginStep::Ask(Some(offered)) => assert_eq!(offered.as_str(), "me"),
        other => panic!("gave {:?}", other),
    }
    match after_login(name("me"), Err(ErrorKind::HTTP("https://auth".to_string()))) {
        LoginStep::Fail(ErrorKind::HTTP(url)) => assert_eq!(url, "https://auth"),
        other => panic!("gave {:?}", other),
    }
    assert_eq!(prompt_continue("y"), Some(true));
    assert_eq!(prompt_continue(" Y\n"), Some(true));
    assert_eq!(prompt_continue("n"), Some(false));
    assert_eq!(prompt_continue("\tN  "), Some(false));
    assert_eq!(prompt_continue(""), None);
    assert_eq!(prompt_continue("yes"), None);
    assert_eq!(prompt_continue("y n"), None);
}

#[test]
fn search_results_are_walked_page_by_page() {
    let mut stream = search::<u32>("https://mods/api/mods?page=1".to_string());
    match stream.poll(None) {
        SearchStep::Fetch(url) => assert_eq!(url, "https://mods/api/mods?page=1"),
        other => panic!("gave {:?}", other),
    }
    assert!(matches!(stream.poll(None), SearchStep::Wait));
    let page = SearchPage { results: vec![1, 2], next: Some("https://mods/api/mods?page=2".to_string()) };
    assert!(matches!(stream.poll(Some(Ok(page))), SearchStep::Item(1)));
    assert!(matches!(stream.poll(None), SearchStep::Item(2)));
    match stream.poll(None) {
        SearchStep::Fetch(url) => assert_eq!(url, "https://mods/api/mods?page=2"),
        other => panic!("gave {:?}", other),
    }
    let last = SearchPage { results: vec![3], next: None };
    assert!(matches!(stream.poll(Some(Ok(last))), SearchStep::Item(3)));
    assert!(matches!(stream.poll(None), SearchStep::Done));
    assert!(matches!(stream.poll(None), SearchStep::Done));
}

#[test]
fn search_ends_on_a_missing_page_and_fails_on_other_errors() {
    let mut stream = search::<u32>("https://mods/api/mods".to_string());
    assert!(matches!(stream.poll(None), SearchStep::Fetch(_)));
    let missing = ErrorKind::StatusCode("https://mods/api/mods".to_string(), 404);
    assert!(matches!(stream.poll(Some(Err(missing))), SearchStep::Done));
    assert!(matches!(stream.poll(None), SearchStep::Done));
    let mut stream = search::<u32>("https://mods/api/mods".to_string());
    assert!(matches!(stream.poll(None), SearchStep::Fetch(_)));
    let broken = ErrorKind::StatusCode("https://mods/api/mods".to_string(), 500);
    match stream.poll(Some(Err(broken))) {
        SearchStep::Failed(ErrorKind::StatusCode(_, code)) => assert_eq!(code, 500),
        other => panic!("gave {:?}", other),
    }
    assert!(matches!(stream.poll(None), SearchStep::Done));
}

#[test]
fn portal_answers_become_responses() {
    match portal_response(Ok(vec![some_release("/d", 1)])) {
        PortalResponse::Found(releases) => assert_eq!(releases.len(), 1),
        other => panic!("gave {:?}", other),
    }
    let missing = ErrorKind::StatusCode("https://mods/api/mods/x".to_string(), 404);
    assert!(matches!(portal_response(Err(missing)), PortalResponse::NotFound));
    let broken = ErrorKind::StatusCode("https://mods/api/mods/x".to_string(), 500);
    match portal_response(Err(broken)) {
        PortalResponse::Failed(text) => {
            assert_eq!(text, "Request to URL https://mods/api/mods/x returned 500")
        }
        other => panic!("gave {:?}", other),
    }
    match portal_response(Err(ErrorKind::HTTP("https://mods/".to_string()))) {
        PortalResponse::Failed(text) => assert_eq!(text, "Could not fetch URL https://mods/"),
        other => panic!("gave {:?}", other),
    }
}

#[test]
fn errors_are_put_in_words() {
    let url = || "https://mods/".to_string();
    assert_eq!(ErrorKind::Msg("plain".to_string()).to_string(), "plain");
    assert_eq!(
        ErrorKind::Form(url()).to_string(),
        "Could not serialize the form body for the URL https://mods/"
    );
    assert_eq!(
        ErrorKind::JSON(url()).to_string(),
        "Could not parse response from https://mods/ as valid JSON"
    );
    assert_eq!(ErrorKind::Parse("nonsense".to_string()).to_string(), "Could not parse URL nonsense");
    assert_eq!(ErrorKind::LoginFailure("no".to_string()).to_string(), "Login failed: no");
    assert_eq!(
        ErrorKind::MalformedResponse(url(), "No Content-Type header".to_string()).to_string(),
        "Request to URL https://mods/ was malformed: No Content-Type header"
    );
    assert_eq!(ErrorKind::UnexpectedRedirect(url()).to_string(), "Unexpected redirect to https://mods/");
    assert!(ErrorKind::StatusCode(url(), 404).not_found());
    assert!(!ErrorKind::StatusCode(url(), 403).not_found());
    assert!(!ErrorKind::HTTP(url()).not_found());
}

#[test]
fn media_types_are_read_without_their_parameters() {
    assert_eq!(media_type("application/json"), "application/json");
    assert_eq!(media_type("application/json; charset=utf-8"), "application/json");
    assert_eq!(media_type("  application/zip ;q=1;x"), "application/zip");
    assert_eq!(media_type(";charset=utf-8"), "");
    assert_eq!(media_type(""), "");
}
