use github_contributions::model::{
    ActiveRepo, ApiError, RepoNode, Repositories, UserRepos, UserReposData, UserReposResponse,
};
use github_contributions::owned::{fetch_active_repos, select_active};

fn node(name: &str, stars: u32, is_archived: bool, pushed_at: Option<&str>) -> RepoNode {
    RepoNode {
        name: String::from(name),
        url: format!("https://github.com/me/{}", name),
        description: if stars % 2 == 0 { Some(format!("about {}", name)) } else { None },
        is_archived,
        stars,
        pushed_at: pushed_at.map(String::from),
    }
}

fn active(name: &str, stars: u32) -> ActiveRepo {
    ActiveRepo {
        name: String::from(name),
        url: format!("https://github.com/me/{}", name),
        description: if stars % 2 == 0 { Some(format!("about {}", name)) } else { None },
        stars,
    }
}

fn response(nodes: Vec<RepoNode>) -> UserReposResponse {
    UserReposResponse {
        data: Some(UserReposData { user: Some(UserRepos { repositories: Repositories { nodes } }) }),
        errors: None,
    }
}

#[test]
fn active_repositories_are_selected_in_page_order() {
    let nodes = vec![
        node("big", 120, false, Some("2024-05-01T00:00:00Z")),
        node("archived", 80, true, Some("2024-05-01T00:00:00Z")),
        node("stale", 40, false, Some("2020-05-01T00:00:00Z")),
        node("small", 1, false, Some("2023-01-01T00:00:00Z")),
        node("unstarred", 0, false, Some("2024-05-01T00:00:00Z")),
        node("unknown", 7, false, None),
    ];
    assert_eq!(select_active(&nodes, 2023), vec![active("big", 120), active("small", 1)]);
}

#[test]
fn owned_response_yields_active_repositories() {
    let fetched = fetch_active_repos(
        &response(vec![
            node("keep", 3, false, Some("2024-01-01")),
            node("drop", 3, false, Some("2021-01-01")),
        ]),
        2022,
    );
    assert_eq!(fetched.repos, vec![active("keep", 3)]);
    assert!(fetched.warnings.is_empty());
}

#[test]
fn owned_response_without_data_yields_nothing() {
    let fetched = fetch_active_repos(&UserReposResponse { data: None, errors: None }, 2022);
    assert!(fetched.repos.is_empty());
}

#[test]
fn owned_response_without_user_yields_nothing() {
    let fetched = fetch_active_repos(
        &UserReposResponse { data: Some(UserReposData { user: None }), errors: None },
        2022,
    );
    assert!(fetched.repos.is_empty());
}

#[test]
fn owned_response_errors_are_warnings() {
    let mut with_errors = response(vec![node("keep", 3, false, Some("2024-01-01"))]);
    with_errors.errors = Some(vec![ApiError { message: String::from("scope") }]);
    let fetched = fetch_active_repos(&with_errors, 2022);
    assert_eq!(fetched.warnings, vec![String::from("scope")]);
    assert_eq!(fetched.repos, vec![active("keep", 3)]);
}
