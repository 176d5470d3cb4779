use github_contributions::contributions::{collect_page, fetch_repos, ContributionFetch};
use github_contributions::model::{
    warnings_of, ApiError, Data, PageInfo, PullRequestNode, PullRequests, RepoInfo, Repository,
    Response, User, Variables,
};

fn node(name: &str, stars: u32, pushed_at: Option<&str>, merged_at: Option<&str>) -> PullRequestNode {
    PullRequestNode {
        repository: Repository {
            name_with_owner: String::from(name),
            is_private: false,
            is_archived: false,
            stars,
            pushed_at: pushed_at.map(String::from),
        },
        merged_at: merged_at.map(String::from),
    }
}

fn page(nodes: Vec<PullRequestNode>, has_next_page: bool, end_cursor: Option<&str>) -> Response {
    Response {
        data: Some(Data {
            user: Some(User {
                pull_requests: PullRequests {
                    nodes,
                    page_info: PageInfo { has_next_page, end_cursor: end_cursor.map(String::from) },
                },
            }),
        }),
        errors: None,
    }
}

fn record(name: &str, stars: u32, year: u16) -> RepoInfo {
    RepoInfo { name: String::from(name), stars, year, count: 1 }
}

#[test]
fn page_keeps_records_that_pass_in_page_order() {
    let nodes = vec![
        node("a/one", 5, Some("2024-01-01T00:00:00Z"), Some("2023-05-05T00:00:00Z")),
        node("b/old", 5, Some("2019-01-01T00:00:00Z"), Some("2019-05-05T00:00:00Z")),
        node("c/none", 0, Some("2024-01-01T00:00:00Z"), Some("2024-05-05T00:00:00Z")),
        node("d/two", 1, Some("2022-12-31T00:00:00Z"), None),
    ];
    let mut repos = vec![record("z/before", 9, 2020)];
    collect_page(&nodes, 2022, &mut repos);
    assert_eq!(
        repos,
        vec![record("z/before", 9, 2020), record("a/one", 5, 2023), record("d/two", 1, 0)]
    );
}

#[test]
fn page_drops_private_and_archived_repositories() {
    let mut private = node("a/private", 5, Some("2024-01-01"), Some("2024-01-01"));
    private.repository.is_private = true;
    let mut archived = node("a/archived", 5, Some("2024-01-01"), Some("2024-01-01"));
    archived.repository.is_archived = true;
    let mut repos = Vec::new();
    collect_page(&vec![private, archived], 2000, &mut repos);
    assert!(repos.is_empty());
}

#[test]
fn page_drops_repositories_without_a_readable_push_time() {
    let nodes = vec![
        node("a/absent", 5, None, Some("2024-01-01")),
        node("a/garbled", 5, Some("last week"), Some("2024-01-01")),
    ];
    let mut repos = Vec::new();
    collect_page(&nodes, 1, &mut repos);
    assert!(repos.is_empty());
    collect_page(&nodes, 0, &mut repos);
    assert_eq!(repos, vec![record("a/absent", 5, 2024), record("a/garbled", 5, 2024)]);
}

#[test]
fn new_fetch_asks_for_the_first_page() {
    let fetch = ContributionFetch::new();
    assert!(!fetch.finished);
    assert_eq!(
        fetch.next_request("me"),
        Some(Variables { username: String::from("me"), cursor: None })
    );
}

#[test]
fn fetch_follows_the_cursor() {
    let mut fetch = ContributionFetch::new();
    let first = page(
        vec![node("foo/bar", 50, Some("2024-02-02"), Some("2024-02-03"))],
        true,
        Some("CURSOR1"),
    );
    let warnings = fetch.absorb(&first, 2022);
    assert!(warnings.is_empty());
    assert!(!fetch.finished);
    assert_eq!(
        fetch.next_request("me"),
        Some(Variables { username: String::from("me"), cursor: Some(String::from("CURSOR1")) })
    );
    let last = page(vec![node("foo/baz", 2, Some("2024-02-02"), Some("2021-02-03"))], false, None);
    fetch.absorb(&last, 2022);
    assert!(fetch.finished);
    assert_eq!(fetch.next_request("me"), None);
    assert_eq!(fetch.into_repos(), vec![record("foo/bar", 50, 2024), record("foo/baz", 2, 2021)]);
}

#[test]
fn last_page_ends_the_fetch_whatever_its_cursor() {
    let mut fetch = ContributionFetch::new();
    fetch.absorb(&page(vec![], false, Some("STALE")), 2022);
    assert!(fetch.finished);
    assert_eq!(fetch.cursor, None);
    assert_eq!(fetch.next_request("me"), None);
}

#[test]
fn next_page_without_cursor_ends_the_fetch() {
    let mut fetch = ContributionFetch::new();
    let odd = page(vec![node("foo/bar", 50, Some("2024-02-02"), Some("2024-02-03"))], true, None);
    fetch.absorb(&odd, 2022);
    assert!(fetch.finished);
    assert_eq!(fetch.next_request("me"), None);
    assert_eq!(fetch.into_repos(), vec![record("foo/bar", 50, 2024)]);
}

#[test]
fn response_without_data_ends_the_fetch_with_what_was_kept() {
    let mut fetch = ContributionFetch::new();
    fetch.absorb(
        &page(vec![node("foo/bar", 50, Some("2024-02-02"), Some("2024-02-03"))], true, Some("C")),
        2022,
    );
    fetch.absorb(&Response { data: None, errors: None }, 2022);
    assert!(fetch.finished);
    assert_eq!(fetch.into_repos(), vec![record("foo/bar", 50, 2024)]);
}

#[test]
fn response_without_user_ends_the_fetch() {
    let mut fetch = ContributionFetch::new();
    fetch.absorb(&Response { data: Some(Data { user: None }), errors: None }, 2022);
    assert!(fetch.finished);
    assert!(fetch.into_repos().is_empty());
}

#[test]
fn errors_are_warnings_and_data_is_still_used() {
    let mut response =
        page(vec![node("foo/bar", 50, Some("2024-02-02"), Some("2024-02-03"))], true, Some("C"));
    response.errors = Some(vec![
        ApiError { message: String::from("rate limited") },
        ApiError { message: String::from("partial") },
    ]);
    let mut fetch = ContributionFetch::new();
    let warnings = fetch.absorb(&response, 2022);
    assert_eq!(warnings, vec![String::from("rate limited"), String::from("partial")]);
    assert!(!fetch.finished);
    assert_eq!(fetch.repos, vec![record("foo/bar", 50, 2024)]);
}

#[test]
fn warnings_copy_the_messages() {
    assert!(warnings_of(&None).is_empty());
    assert!(warnings_of(&Some(vec![])).is_empty());
    assert_eq!(
        warnings_of(&Some(vec![ApiError { message: String::from("x") }])),
        vec![String::from("x")]
    );
}

#[test]
fn transcript_of_chained_pages_takes_one_request_per_page() {
    for length in 1usize..6 {
        let mut pages = Vec::new();
        for i in 0..length {
            let last = i + 1 == length;
            pages.push(page(
                vec![node("foo/bar", 50, Some("2024-02-02"), Some("2024-02-03"))],
                !last,
                if last { None } else { Some("NEXT") },
            ));
        }
        let announcing = pages
            .iter()
            .filter(|p| p.data.as_ref().unwrap().user.as_ref().unwrap().pull_requests.page_info.has_next_page)
            .count();
        let fetched = fetch_repos(&pages, 2022);
        assert_eq!(fetched.requests, announcing + 1);
        assert_eq!(fetched.requests, length);
        assert_eq!(fetched.repos.len(), length);
    }
}

#[test]
fn transcript_is_not_read_past_its_last_page() {
    let pages = vec![
        page(vec![node("a/a", 1, Some("2024"), Some("2024"))], true, Some("C1")),
        page(vec![node("b/b", 1, Some("2024"), Some("2024"))], false, None),
        page(vec![node("c/c", 1, Some("2024"), Some("2024"))], false, None),
    ];
    let fetched = fetch_repos(&pages, 2022);
    assert_eq!(fetched.requests, 2);
    assert_eq!(fetched.repos, vec![record("a/a", 1, 2024), record("b/b", 1, 2024)]);
}

#[test]
fn transcript_stops_at_a_next_page_without_cursor() {
    let pages = vec![
        page(vec![node("a/a", 1, Some("2024"), Some("2024"))], true, None),
        page(vec![node("b/b", 1, Some("2024"), Some("2024"))], false, None),
    ];
    let fetched = fetch_repos(&pages, 2022);
    assert_eq!(fetched.requests, 1);
    assert_eq!(fetched.repos, vec![record("a/a", 1, 2024)]);
}

#[test]
fn empty_transcript_takes_no_request() {
    let fetched = fetch_repos(&Vec::new(), 2022);
    assert_eq!(fetched.requests, 0);
    assert!(fetched.repos.is_empty());
    assert!(fetched.warnings.is_empty());
}

#[test]
fn transcript_that_runs_out_stops() {
    let pages = vec![
        page(vec![], true, Some("C1")),
        page(vec![node("b/b", 1, Some("2024"), Some("2024"))], true, Some("C2")),
    ];
    let fetched = fetch_repos(&pages, 2022);
    assert_eq!(fetched.requests, 2);
    assert_eq!(fetched.repos, vec![record("b/b", 1, 2024)]);
}

#[test]
fn transcript_collects_warnings_of_the_pages_read() {
    let mut first = page(vec![], true, Some("C1"));
    first.errors = Some(vec![ApiError { message: String::from("one") }]);
    let mut second = Response { data: None, errors: None };
    second.errors = Some(vec![ApiError { message: String::from("two") }]);
    let mut third = page(vec![], false, None);
    third.errors = Some(vec![ApiError { message: String::from("three") }]);
    let fetched = fetch_repos(&vec![first, second, third], 2022);
    assert_eq!(fetched.requests, 2);
    assert_eq!(fetched.warnings, vec![String::from("one"), String::from("two")]);
}
