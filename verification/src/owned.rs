use vstd::prelude::*;
use crate::filter::{is_active, passes_filter};
use crate::model::{
    active_views, messages_of, text_of, texts_of, warnings_of, ActiveRepo, ActiveRepoView,
    RepoNode, UserReposResponse,
};
use crate::year::{timestamp_year, year_of};

verus! {

/// Whether a repository of the user passes the filter policy for a cutoff year. The
/// query asks for public repositories only, so none counts as private.
pub open spec fn repo_kept(node: RepoNode, cutoff_year: u16) -> bool {
    passes_filter(
        false,
        node.is_archived,
        node.stars as int,
        year_of(node.pushed_at),
        cutoff_year as int,
    )
}

/// The filter policy for a cutoff year as a predicate on repositories of the user.
pub open spec fn active(cutoff_year: u16) -> spec_fn(RepoNode) -> bool {
    |node: RepoNode| repo_kept(node, cutoff_year)
}

/// The record of one repository of the user.
pub open spec fn active_of(node: RepoNode) -> ActiveRepoView {
    ActiveRepoView {
        name: node.name@,
        url: node.url@,
        description: text_of(node.description),
        stars: node.stars as nat,
    }
}

/// The records of the repositories of a page that pass the filter policy, in the order
/// of the page.
pub open spec fn active_records(nodes: Seq<RepoNode>, cutoff_year: u16) -> Seq<ActiveRepoView> {
    nodes.filter(active(cutoff_year)).map_values(|node: RepoNode| active_of(node))
}

/// The repositories that a response carries: none where the envelope has no data, or
/// the data has no user.
pub open spec fn owned_nodes(response: UserReposResponse) -> Seq<RepoNode> {
    match response.data {
        Some(data) => match data.user {
            Some(user) => user.repositories.nodes@,
            None => Seq::empty(),
        },
        None => Seq::empty(),
    }
}

proof fn lemma_active_records_push(nodes: Seq<RepoNode>, node: RepoNode, cutoff_year: u16)
    ensures
        active_records(nodes.push(node), cutoff_year) == if repo_kept(node, cutoff_year) {
            active_records(nodes, cutoff_year).push(active_of(node))
        } else {
            active_records(nodes, cutoff_year)
        },
{
    nodes.lemma_filter_push(node, active(cutoff_year));
}

fn copy_text(text: &Option<String>) -> (copy: Option<String>)
    ensures
        text_of(copy) == text_of(*text),
{
    match text {
        Some(t) => Some(t.clone()),
        None => None,
    }
}

/// Selects the active repositories of a page: those that are not archived, have at
/// least one star and were pushed to in the cutoff year or later, in the order of the
/// page.
pub fn select_active(nodes: &Vec<RepoNode>, cutoff_year: u16) -> (repos: Vec<ActiveRepo>)
    ensures
        active_views(repos@) == active_records(nodes@, cutoff_year),
{
    let mut repos: Vec<ActiveRepo> = Vec::new();
    let mut i: usize = 0;
    proof {
        assert(active_records(Seq::empty(), cutoff_year) =~= Seq::empty()) by {
            reveal(Seq::filter);
        }
    }
    while i < nodes.len()
        invariant
            i <= nodes.len(),
            active_views(repos@) == active_records(nodes@.take(i as int), cutoff_year),
        decreases nodes.len() - i,
    {
        let node = &nodes[i];
        proof {
            lemma_active_records_push(nodes@.take(i as int), *node, cutoff_year);
            assert(nodes@.take(i + 1) =~= nodes@.take(i as int).push(*node));
        }
        if is_active(false, node.is_archived, node.stars, timestamp_year(&node.pushed_at), cutoff_year) {
            let repo = ActiveRepo {
                name: node.name.clone(),
                url: node.url.clone(),
                description: copy_text(&node.description),
                stars: node.stars,
            };
            repos.push(repo);
        }
        i += 1;
    }
    assert(nodes@.take(i as int) =~= nodes@);
    repos
}

/// What the fetch of a user's own repositories comes to: the active repositories and
/// the warnings reported.
#[derive(Debug)]
pub struct FetchedActive {
    pub repos: Vec<ActiveRepo>,
    pub warnings: Vec<String>,
}

/// Works out the user's own active repositories from the decoded response to the
/// single owned-repository request. The errors that the envelope carries come back as
/// warnings; a response without data, or without a user, yields no repository.
pub fn fetch_active_repos(response: &UserReposResponse, cutoff_year: u16) -> (fetched:
    FetchedActive)
    ensures
        active_views(fetched.repos@) == active_records(owned_nodes(*response), cutoff_year),
        texts_of(fetched.warnings@) == messages_of(response.errors),
{
    let warnings = warnings_of(&response.errors);
    proof {
        assert(active_records(Seq::empty(), cutoff_year) =~= Seq::empty()) by {
            reveal(Seq::filter);
        }
    }
    let repos = match &response.data {
        Some(data) => match &data.user {
            Some(user) => select_active(&user.repositories.nodes, cutoff_year),
            None => Vec::new(),
        },
        None => Vec::new(),
    };
    FetchedActive { repos, warnings }
}

} // verus!
