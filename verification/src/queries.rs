use vstd::prelude::*;

verus! {

/// The query for one page of a user's merged pull requests, newest first, a hundred
/// to the page, starting behind the cursor where one is given.
pub const QUERY: &'static str = r#"
query($username: String!, $cursor: String) {
  user(login: $username) {
    pullRequests(first: 100, states: [MERGED], after: $cursor, orderBy: {field: CREATED_AT, direction: DESC}) {
      pageInfo {
        hasNextPage
        endCursor
      }
      nodes {
        mergedAt
        repository {
          nameWithOwner
          isPrivate
          isArchived
          stargazerCount
          pushedAt
        }
      }
    }
  }
}
"#;

/// The query for the hundred public repositories of a user that have the most stars.
pub const USER_REPOS_QUERY: &'static str = r#"
query($username: String!) {
  user(login: $username) {
    repositories(first: 100, ownerAffiliations: [OWNER], orderBy: {field: STARGAZERS, direction: DESC}, privacy: PUBLIC) {
      nodes {
        name
        url
        description
        isArchived
        stargazerCount
        pushedAt
      }
    }
  }
}
"#;

} // verus!
