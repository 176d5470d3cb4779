use vstd::prelude::*;

verus! {

/// One repository that the user contributed to: its full name (`owner/repo`), its
/// star count, the latest year of a merged contribution, and the number of merged
/// contributions. The number is held in 64 bits, which no list of records can
/// outgrow.
#[derive(Clone, Debug, PartialEq, Eq)]
pub struct RepoInfo {
    pub name: String,
    pub stars: u32,
    pub year: u16,
    pub count: u64,
}

/// What a [`RepoInfo`] holds, as mathematical values.
pub struct RepoInfoView {
    pub name: Seq<char>,
    pub stars: nat,
    pub year: nat,
    pub count: nat,
}

impl View for RepoInfo {
    type V = RepoInfoView;

    open spec fn view(&self) -> RepoInfoView {
        RepoInfoView {
            name: self.name@,
            stars: self.stars as nat,
            year: self.year as nat,
            count: self.count as nat,
        }
    }
}

/// The views of a sequence of contribution records, in the same order.
pub open spec fn repo_views(repos: Seq<RepoInfo>) -> Seq<RepoInfoView> {
    repos.map_values(|repo: RepoInfo| repo@)
}

/// A repository that the user owns and that is still active.
#[derive(Clone, Debug, PartialEq, Eq)]
pub struct ActiveRepo {
    pub name: String,
    pub url: String,
    pub description: Option<String>,
    pub stars: u32,
}

/// What an [`ActiveRepo`] holds, as mathematical values.
pub struct ActiveRepoView {
    pub name: Seq<char>,
    pub url: Seq<char>,
    pub description: Option<Seq<char>>,
    pub stars: nat,
}

/// The characters of an optional text.
pub open spec fn text_of(text: Option<String>) -> Option<Seq<char>> {
    match text {
        Some(t) => Some(t@),
        None => None,
    }
}

impl View for ActiveRepo {
    type V = ActiveRepoView;

    open spec fn view(&self) -> ActiveRepoView {
        ActiveRepoView {
            name: self.name@,
            url: self.url@,
            description: text_of(self.description),
            stars: self.stars as nat,
        }
    }
}

/// The views of a sequence of owned repositories, in the same order.
pub open spec fn active_views(repos: Seq<ActiveRepo>) -> Seq<ActiveRepoView> {
    repos.map_values(|repo: ActiveRepo| repo@)
}

/// The variables sent with a query: the user's login and, past the first page, the
/// cursor at which the next page starts.
#[derive(Clone, Debug, PartialEq, Eq)]
pub struct Variables {
    pub username: String,
    pub cursor: Option<String>,
}

/// One application-level error reported in a response envelope.
#[derive(Clone, Debug, PartialEq, Eq)]
pub struct ApiError {
    pub message: String,
}

/// Whether a page of results has a successor, and where that one starts.
#[derive(Clone, Debug, PartialEq, Eq)]
pub struct PageInfo {
    pub has_next_page: bool,
    pub end_cursor: Option<String>,
}

/// The repository that a merged pull request went to.
#[derive(Clone, Debug, PartialEq, Eq)]
pub struct Repository {
    pub name_with_owner: String,
    pub is_private: bool,
    pub is_archived: bool,
    pub stars: u32,
    pub pushed_at: Option<String>,
}

/// One merged pull request of the user.
#[derive(Clone, Debug, PartialEq, Eq)]
pub struct PullRequestNode {
    pub repository: Repository,
    pub merged_at: Option<String>,
}

/// One page of merged pull requests.
#[derive(Clone, Debug, PartialEq, Eq)]
pub struct PullRequests {
    pub nodes: Vec<PullRequestNode>,
    pub page_info: PageInfo,
}

/// The user as the contribution query selects it.
#[derive(Clone, Debug, PartialEq, Eq)]
pub struct User {
    pub pull_requests: PullRequests,
}

/// The data payload of a contribution response.
#[derive(Clone, Debug, PartialEq, Eq)]
pub struct Data {
    pub user: Option<User>,
}

/// The decoded envelope of a contribution response: a data payload, a list of
/// errors, both or neither.
#[derive(Clone, Debug, PartialEq, Eq)]
pub struct Response {
    pub data: Option<Data>,
    pub errors: Option<Vec<ApiError>>,
}

/// One repository of the user as the owned-repository query selects it.
#[derive(Clone, Debug, PartialEq, Eq)]
pub struct RepoNode {
    pub name: String,
    pub url: String,
    pub description: Option<String>,
    pub is_archived: bool,
    pub stars: u32,
    pub pushed_at: Option<String>,
}

/// The single page of repositories that the owned-repository query asks for.
#[derive(Clone, Debug, PartialEq, Eq)]
pub struct Repositories {
    pub nodes: Vec<RepoNode>,
}

/// The user as the owned-repository query selects it.
#[derive(Clone, Debug, PartialEq, Eq)]
pub struct UserRepos {
    pub repositories: Repositories,
}

/// The data payload of an owned-repository response.
#[derive(Clone, Debug, PartialEq, Eq)]
pub struct UserReposData {
    pub user: Option<UserRepos>,
}

/// The decoded envelope of an owned-repository response.
#[derive(Clone, Debug, PartialEq, Eq)]
pub struct UserReposResponse {
    pub data: Option<UserReposData>,
    pub errors: Option<Vec<ApiError>>,
}

/// The messages of the errors that an envelope carries, in order; none where it
/// carries no list of errors.
pub open spec fn messages_of(errors: Option<Vec<ApiError>>) -> Seq<Seq<char>> {
    match errors {
        Some(list) => messages(list@),
        None => Seq::empty(),
    }
}

/// The messages of a sequence of errors, in the same order.
pub open spec fn messages(errors: Seq<ApiError>) -> Seq<Seq<char>> {
    errors.map_values(|e: ApiError| e.message@)
}

/// The characters of each text of a sequence, in the same order.
pub open spec fn texts_of(texts: Seq<String>) -> Seq<Seq<char>> {
    texts.map_values(|t: String| t@)
}

/// Copies the messages out of an envelope's errors, so that the caller can report
/// them as warnings.
pub fn warnings_of(errors: &Option<Vec<ApiError>>) -> (warnings: Vec<String>)
    ensures
        texts_of(warnings@) == messages_of(*errors),
{
    let mut warnings: Vec<String> = Vec::new();
    match errors {
        Some(list) => {
            let mut i: usize = 0;
            while i < list.len()
                invariant
                    i <= list.len(),
                    warnings@.len() == i,
                    texts_of(warnings@) == messages(list@.take(i as int)),
                decreases list.len() - i,
            {
                let ghost before = warnings@;
                warnings.push(list[i].message.clone());
                i += 1;
                assert forall|j: int| 0 <= j < i - 1 implies texts_of(warnings@)[j] == messages(
                    list@.take(i as int),
                )[j] by {
                    assert(texts_of(before)[j] == messages(list@.take(i - 1))[j]);
                }
            }
        },
        None => {},
    }
    warnings
}

} // verus!
